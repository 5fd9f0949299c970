//! Two larger exercises: a single-consumer signal observed by several
//! loops under the parallel runtime, and a program assembled from the
//! whole combinator surface.

use reactive::arrow::fixpoint;
use reactive::arrow::fork;
use reactive::arrow::identity;
use reactive::arrow::pause;
use reactive::arrow::product;
use reactive::arrow::value;
use reactive::runtime::ParRuntime;
use reactive::runtime::Runtime;
use reactive::runtime::SeqRuntime;
use reactive::semantics::Continuation;
use reactive::semantics::Task;
use reactive::signal::Signal;
use reactive::signal::SignalPool;
use reactive::signal::UniqSignal;
use reactive::Arrow;
use reactive::Comb;
use reactive::Func;
use reactive::Val;

const FUEL: u64 = 1_000_000;

fn iv(n: i64) -> Val {
    Val::Int(n)
}

fn unit() -> Val {
    Val::Unit
}

fn pair(a: Val, b: Val) -> Val {
    Val::Pair(Box::new(a), Box::new(b))
}

fn trace() -> Arrow {
    reactive::arrow::map(Func::Trace)
}

fn konst(v: Val) -> Arrow {
    reactive::arrow::map(Func::Const(Box::new(v)))
}

/// Logs `Int(code)` and yields `Unit`: the test's stand-in for a print.
fn note(code: i64) -> Arrow {
    konst(iv(code)).bind(trace()).bind(konst(unit()))
}

/// Run the program with `n` workers taking turns on the shared runtime.
/// Each turn is one worker's step under exclusive access, so a round-robin
/// rotation is one legal interleaving of the parallel executor; once no
/// worker finds work, the coordinator's transition closes the instant.
fn execute_par(p: Arrow, n: u32, input: Val) -> (Option<Val>, Vec<reactive::semantics::Entry>) {
    let mut rt = ParRuntime::new();
    rt.shared.on_current_instant(Task {
        k: Continuation::Then(Box::new(p), Box::new(Continuation::Finish)),
        v: input,
    });
    loop {
        let mut worked = false;
        for _ in 0..n {
            if rt.try_step() {
                worked = true;
            }
        }
        if !worked {
            // every worker came up empty, so the current queue is drained:
            // the coordinator may close the instant
            if !rt.running {
                break;
            }
            let mut fuel: u64 = FUEL;
            match rt.transition(&mut fuel) {
                Some(true) => {},
                _ => break,
            }
        }
    }
    let r = if rt.shared.fault {
        None
    } else {
        rt.shared.result.take()
    };
    let log = std::mem::take(&mut rt.shared.log);
    (r, log)
}

fn label(code: i64) -> &'static str {
    match code {
        1 => "present",
        0 => "not present",
        3 => "s received",
        _ => "",
    }
}

#[test]
fn test_uniq_signal() {
    let mut pool = SignalPool::new();
    let (s, awaiter) = UniqSignal::new(&mut pool, Comb::Add);
    let p1 = identity()
        .bind(value(iv(32)))
        .bind(s.emit())
        .bind(value(iv(10)))
        .bind(s.emit())
        .bind(pause())
        .bind(value(iv(42)))
        .bind(s.emit())
        .bind(pause())
        .bind(pause());
    let p2 = {
        let p = s.present(
            note(1).bind(pause()).bind(reactive::arrow::map(Func::Inl)),
            note(0).bind(reactive::arrow::map(Func::Inr)),
        );
        fixpoint(p)
    };
    let p3 = {
        let p = s
            .await_immediate()
            .bind(note(3))
            .bind(reactive::arrow::map(Func::Inl))
            .bind(pause());
        fixpoint(p)
    };
    let p4 = {
        let p = awaiter
            .bind(trace())
            .bind(konst(unit()))
            .bind(reactive::arrow::map(Func::Inl));
        fixpoint(p)
    };
    let program = identity()
        .bind(fork(p1))
        .bind(fork(p2))
        .bind(fork(p3))
        .bind(fork(p4));
    let (r, log) = execute_par(program, 4, unit());
    assert_eq!(r, Some(unit()));
    for e in &log {
        match &e.val {
            Val::Int(n) if label(*n).is_empty() => println!("{}", n),
            Val::Int(n) => println!("{}", label(*n)),
            _ => {},
        }
    }
}

#[test]
fn test_macro_1() {
    let p = trace().bind(konst(unit()));
    let program = value(pair(iv(5), iv(41)))
        .bind(pause())
        .bind(pause())
        .bind(product(
            fixpoint(reactive::arrow::map(Func::TraceStepUpTo(10))),
            reactive::arrow::map(Func::AddWrap(1)),
        ))
        .bind(fork(p))
        .bind(identity());
    let mut rt = SeqRuntime::new();
    let r = program.execute_with_rt(&mut rt, unit(), FUEL);
    assert_eq!(r, Some(pair(iv(10), iv(42))));
    let mut lines = Vec::new();
    for e in &rt.log {
        match &e.val {
            Val::Int(n) => lines.push(format!("{}", n)),
            Val::Pair(a, b) => match (a.as_ref(), b.as_ref()) {
                (Val::Int(x), Val::Int(y)) => lines.push(format!("({}, {})\n", x, y)),
                _ => {},
            },
            _ => {},
        }
    }
    assert_eq!(
        lines,
        vec!["5", "6", "7", "8", "9", "(10, 42)\n"]
    );
}
