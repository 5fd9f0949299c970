//! Tests of the signal layer on the sequential runtime.

use reactive::arrow::fork;
use reactive::arrow::identity;
use reactive::arrow::pause;
use reactive::arrow::fixpoint;
use reactive::runtime::SeqRuntime;
use reactive::semantics::Entry;
use reactive::signal::PureSignal;
use reactive::signal::Signal;
use reactive::signal::SignalPool;
use reactive::signal::UniqSignal;
use reactive::signal::ValueSignal;
use reactive::Arrow;
use reactive::Comb;
use reactive::Func;
use reactive::Val;

const FUEL: u64 = 1_000_000;

fn iv(n: i64) -> Val {
    Val::Int(n)
}

fn unit() -> Val {
    Val::Unit
}

fn trace() -> Arrow {
    reactive::arrow::map(Func::Trace)
}

fn konst(v: Val) -> Arrow {
    reactive::arrow::map(Func::Const(Box::new(v)))
}

/// Logs `Int(code)` and yields `Unit`: the test's stand-in for a print.
fn note(code: i64) -> Arrow {
    konst(iv(code)).bind(trace()).bind(konst(unit()))
}

fn entry(at: u64, v: Val) -> Entry {
    Entry { at, val: v }
}

// P6: every await-immediate in an instant with an emission fires in that
// instant, and a second emission in the same instant changes nothing.
#[test]
fn pure_signal_emit_is_idempotent() {
    let run = |emits: u32| -> (Option<Val>, Vec<Entry>) {
        let mut pool = SignalPool::new();
        let s = PureSignal::new(&mut pool);
        let w1 = s.await_immediate().bind(note(1));
        let w2 = s.await_immediate().bind(note(2));
        let mut p = identity().bind(fork(w1)).bind(fork(w2));
        for _ in 0..emits {
            p = p.bind(s.emit());
        }
        let mut rt = SeqRuntime::new();
        let r = p.execute_with_rt(&mut rt, unit(), FUEL);
        (r, rt.log)
    };
    let (r1, log1) = run(1);
    let (r2, log2) = run(2);
    assert_eq!(r1, Some(unit()));
    assert_eq!(r1, r2);
    assert_eq!(log1, log2);
    assert_eq!(log1, vec![entry(0, iv(1)), entry(0, iv(2))]);
}

// P7, presence: a present test decided by an emission of the same instant
// runs its then branch in that instant.
#[test]
fn present_then_runs_same_instant() {
    let mut pool = SignalPool::new();
    let s = PureSignal::new(&mut pool);
    let p = identity()
        .bind(fork(s.present(note(1), note(2))))
        .bind(s.emit());
    let mut rt = SeqRuntime::new();
    let r = p.execute_with_rt(&mut rt, unit(), FUEL);
    assert_eq!(r, Some(unit()));
    assert_eq!(rt.log, vec![entry(0, iv(1))]);
}

// P7, absence: on a signal never emitted, the else branch runs at the
// start of the next instant and not before.
#[test]
fn present_else_runs_next_instant() {
    let mut pool = SignalPool::new();
    let s = PureSignal::new(&mut pool);
    let p = s.present(note(1), note(2));
    let mut rt = SeqRuntime::new();
    let r = p.execute_with_rt(&mut rt, unit(), FUEL);
    assert_eq!(r, Some(unit()));
    assert_eq!(rt.log, vec![entry(1, iv(2))]);
}

// An await-immediate parked in an instant without an emission is dropped
// at that instant's end: a later emission no longer wakes it.
#[test]
fn await_immediate_is_instant_scoped() {
    let mut pool = SignalPool::new();
    let s = PureSignal::new(&mut pool);
    let waiter = s.await_immediate().bind(note(1));
    let p = identity()
        .bind(fork(waiter))
        .bind(pause())
        .bind(s.emit());
    let mut rt = SeqRuntime::new();
    let r = p.execute_with_rt(&mut rt, unit(), FUEL);
    assert_eq!(r, Some(unit()));
    assert_eq!(rt.log, vec![]);
}

// S3: a pure signal emitted in the first two instants, observed by a
// present loop that pauses after each decision.  The then branch fires in
// the two emitting instants; the else branch, decided at the end of the
// first silent instant, runs at the start of the following one and ends
// the loop.
#[test]
fn scenario_pure_signal_present_loop() {
    let mut pool = SignalPool::new();
    let s = PureSignal::new(&mut pool);
    let a = s
        .emit()
        .bind(pause())
        .bind(s.emit())
        .bind(pause())
        .bind(pause());
    let then_branch = note(1).bind(pause()).bind(reactive::arrow::map(Func::Inl));
    let else_branch = note(0).bind(reactive::arrow::map(Func::Inr));
    let b = fixpoint(s.present(then_branch, else_branch));
    let p = identity().bind(fork(a)).bind(fork(b));
    let mut rt = SeqRuntime::new();
    let r = p.execute_with_rt(&mut rt, unit(), FUEL);
    assert_eq!(r, Some(unit()));
    assert_eq!(
        rt.log,
        vec![entry(0, iv(1)), entry(1, iv(1)), entry(3, iv(0))]
    );
}

// S4: a valued signal with integer addition.  32 and 10 emitted in the
// first instant are read as 42 at the start of the second; 42 emitted in
// the second is read as 42 at the start of the third.
#[test]
fn scenario_value_signal_sums() {
    let mut pool = SignalPool::new();
    let s = ValueSignal::new(&mut pool, Comb::Add);
    let p1 = identity()
        .bind(konst(iv(32)))
        .bind(s.emit())
        .bind(konst(iv(10)))
        .bind(s.emit())
        .bind(pause())
        .bind(konst(iv(42)))
        .bind(s.emit())
        .bind(pause())
        .bind(pause());
    let p4 = fixpoint(
        s.await_value()
            .bind(trace())
            .bind(konst(unit()))
            .bind(reactive::arrow::map(Func::Inl)),
    );
    let p = identity().bind(fork(p1)).bind(fork(p4));
    let mut rt = SeqRuntime::new();
    let r = p.execute_with_rt(&mut rt, unit(), FUEL);
    assert_eq!(r, Some(unit()));
    assert_eq!(rt.log, vec![entry(1, iv(42)), entry(2, iv(42))]);
}

// P9: with a commutative combine, swapping the emission order leaves the
// delivered value unchanged.
#[test]
fn value_signal_sum_is_order_blind() {
    let run = |first: i64, second: i64| -> Option<Val> {
        let mut pool = SignalPool::new();
        let s = ValueSignal::new(&mut pool, Comb::Add);
        let emitter = identity()
            .bind(konst(iv(first)))
            .bind(s.emit())
            .bind(konst(iv(second)))
            .bind(s.emit());
        let p = identity()
            .bind(fork(emitter))
            .bind(s.await_value())
            .bind(trace());
        p.execute_seq(unit(), FUEL)
    };
    assert_eq!(run(32, 10), Some(iv(42)));
    assert_eq!(run(10, 32), Some(iv(42)));
}

// The combine's wrapping arithmetic: the sum past `i64::MAX` wraps.
#[test]
fn value_signal_sum_wraps() {
    let mut pool = SignalPool::new();
    let s = ValueSignal::new(&mut pool, Comb::Add);
    let emitter = identity()
        .bind(konst(iv(i64::MAX)))
        .bind(s.emit())
        .bind(konst(iv(1)))
        .bind(s.emit());
    let p = identity().bind(fork(emitter)).bind(s.await_value());
    let r = p.execute_seq(unit(), FUEL);
    assert_eq!(r, Some(iv(i64::MIN)));
}

// Each combine operator folds an instant's emissions as specified.
#[test]
fn combine_operators_fold_as_specified() {
    let run = |comb: Comb, first: i64, second: i64| -> Option<Val> {
        let mut pool = SignalPool::new();
        let s = ValueSignal::new(&mut pool, comb);
        let emitter = identity()
            .bind(konst(iv(first)))
            .bind(s.emit())
            .bind(konst(iv(second)))
            .bind(s.emit());
        identity()
            .bind(fork(emitter))
            .bind(s.await_value())
            .execute_seq(unit(), FUEL)
    };
    assert_eq!(run(Comb::Add, 30, 12), Some(iv(42)));
    assert_eq!(run(Comb::Max, 30, 12), Some(iv(30)));
    assert_eq!(run(Comb::Max, 12, 30), Some(iv(30)));
    assert_eq!(run(Comb::First, 30, 12), Some(iv(30)));
    assert_eq!(run(Comb::Last, 30, 12), Some(iv(12)));
}

// A combine applied outside its domain is an invariant violation: the run
// faults and the result is withheld.
#[test]
fn value_signal_combine_mismatch_faults() {
    let mut pool = SignalPool::new();
    let s = ValueSignal::new(&mut pool, Comb::Add);
    let emitter = identity()
        .bind(konst(iv(1)))
        .bind(s.emit())
        .bind(konst(unit()))
        .bind(s.emit());
    let mut rt = SeqRuntime::new();
    let r = identity().bind(fork(emitter)).bind(s.await_value()).execute_with_rt(
        &mut rt,
        unit(),
        FUEL,
    );
    assert_eq!(r, None);
    assert!(rt.fault);
}

// A single-consumer signal delivers to its one awaiter, and a fresh await
// replaces the old one.
#[test]
fn uniq_signal_delivers_to_single_awaiter() {
    let mut pool = SignalPool::new();
    let (s, awaiter) = UniqSignal::new(&mut pool, Comb::Add);
    let emitter = identity()
        .bind(konst(iv(5)))
        .bind(s.emit())
        .bind(konst(iv(6)))
        .bind(s.emit());
    let p = identity().bind(fork(emitter)).bind(awaiter).bind(trace());
    let mut rt = SeqRuntime::new();
    let r = p.execute_with_rt(&mut rt, unit(), FUEL);
    assert_eq!(r, Some(iv(11)));
    assert_eq!(rt.log, vec![entry(1, iv(11))]);
}

// The low-level signal operations: a continuation parked with `on_signal`
// is woken by `emits` in the same instant.
#[test]
fn signal_runtime_ref_wakes_parked_continuation() {
    let mut rt = SeqRuntime::new();
    let mut pool = SignalPool::new();
    let s = PureSignal::new(&mut pool);
    s.sr.on_signal(&mut rt, reactive::semantics::Continuation::Finish);
    s.sr.emits(&mut rt);
    let done = rt.execute(FUEL);
    assert!(done);
    assert_eq!(rt.result, Some(unit()));
    assert_eq!(rt.instants(), 1);
}

// Distinct signals from one pool do not share state.
#[test]
fn signals_are_independent() {
    let mut pool = SignalPool::new();
    let s1 = PureSignal::new(&mut pool);
    let s2 = PureSignal::new(&mut pool);
    let p = identity()
        .bind(fork(s2.present(note(1), note(2))))
        .bind(s1.emit());
    let mut rt = SeqRuntime::new();
    let r = p.execute_with_rt(&mut rt, unit(), FUEL);
    assert_eq!(r, Some(unit()));
    // only s1 was emitted, so s2's else branch runs at the next instant
    assert_eq!(rt.log, vec![entry(1, iv(2))]);
}
