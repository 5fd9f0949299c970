//! Tests of the parallel runtime: workers taking turns on the shared
//! state, with the same observable behaviour as the sequential scheduler.

use reactive::arrow::fixpoint;
use reactive::arrow::fork;
use reactive::arrow::identity;
use reactive::arrow::pause;
use reactive::runtime::ParRuntime;
use reactive::runtime::Runtime;
use reactive::semantics::Continuation;
use reactive::semantics::Entry;
use reactive::semantics::Task;
use reactive::signal::SignalPool;
use reactive::signal::ValueSignal;
use reactive::Arrow;
use reactive::Comb;
use reactive::Func;
use reactive::Val;

const FUEL: u64 = 1_000_000;

fn iv(n: i64) -> Val {
    Val::Int(n)
}

fn unit() -> Val {
    Val::Unit
}

fn trace() -> Arrow {
    reactive::arrow::map(Func::Trace)
}

fn konst(v: Val) -> Arrow {
    reactive::arrow::map(Func::Const(Box::new(v)))
}

fn entry(at: u64, v: Val) -> Entry {
    Entry { at, val: v }
}

/// Run the program with `n` workers taking turns on the shared runtime.
/// Each turn is one worker's step under the runtime's lock, so a
/// round-robin rotation is one legal interleaving of the parallel
/// executor; once no worker finds work, the coordinator's transition
/// closes the instant.
fn execute_par(p: Arrow, n: u32, input: Val) -> (Option<Val>, Vec<Entry>) {
    let mut rt = ParRuntime::new();
    rt.shared.on_current_instant(Task {
        k: Continuation::Then(Box::new(p), Box::new(Continuation::Finish)),
        v: input,
    });
    loop {
        let mut worked = false;
        for _ in 0..n {
            if rt.try_step() {
                worked = true;
            }
        }
        if !worked {
            // every worker came up empty, so the current queue is drained:
            // the coordinator may close the instant
            if !rt.running {
                break;
            }
            let mut fuel: u64 = FUEL;
            match rt.transition(&mut fuel) {
                Some(true) => {},
                _ => break,
            }
        }
    }
    let r = if rt.shared.fault {
        None
    } else {
        rt.shared.result.take()
    };
    let log = std::mem::take(&mut rt.shared.log);
    (r, log)
}

// A synchronous program behaves the same under the parallel runtime.
#[test]
fn par_fixpoint_counts() {
    let p = fixpoint(reactive::arrow::map(Func::StepUpTo(10)));
    let (r, log) = execute_par(p, 4, iv(0));
    assert_eq!(r, Some(iv(10)));
    assert_eq!(log, vec![]);
}

// S6: the valued-signal scenario under four workers.  Mutual exclusion on
// the shared state keeps the combine correct: the awaiters still observe
// the sums 42 and 42, at the same instants as under the sequential
// runtime.
#[test]
fn scenario_par_value_signal_sums() {
    let mut pool = SignalPool::new();
    let s = ValueSignal::new(&mut pool, Comb::Add);
    let p1 = identity()
        .bind(konst(iv(32)))
        .bind(s.emit())
        .bind(konst(iv(10)))
        .bind(s.emit())
        .bind(pause())
        .bind(konst(iv(42)))
        .bind(s.emit())
        .bind(pause())
        .bind(pause());
    let p4 = fixpoint(
        s.await_value()
            .bind(trace())
            .bind(konst(unit()))
            .bind(reactive::arrow::map(Func::Inl)),
    );
    let p = identity().bind(fork(p1)).bind(fork(p4));
    let (r, log) = execute_par(p, 4, unit());
    assert_eq!(r, Some(unit()));
    assert_eq!(log, vec![entry(1, iv(42)), entry(2, iv(42))]);
}
