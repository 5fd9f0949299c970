//! Tests of the combinator algebra on the sequential runtime.

use reactive::arrow::bind;
use reactive::arrow::fixpoint;
use reactive::arrow::flatten;
use reactive::arrow::fork;
use reactive::arrow::identity;
use reactive::arrow::pause;
use reactive::arrow::product;
use reactive::arrow::seqprod;
use reactive::arrow::value;
use reactive::runtime::Runtime;
use reactive::runtime::SeqRuntime;
use reactive::semantics::Continuation;
use reactive::semantics::Entry;
use reactive::semantics::Task;
use reactive::Arrow;
use reactive::Func;
use reactive::Val;

const FUEL: u64 = 1_000_000;

fn iv(n: i64) -> Val {
    Val::Int(n)
}

fn unit() -> Val {
    Val::Unit
}

fn pair(a: Val, b: Val) -> Val {
    Val::Pair(Box::new(a), Box::new(b))
}

fn trace() -> Arrow {
    reactive::arrow::map(Func::Trace)
}

fn konst(v: Val) -> Arrow {
    reactive::arrow::map(Func::Const(Box::new(v)))
}

fn entry(at: u64, v: Val) -> Entry {
    Entry { at, val: v }
}

#[test]
fn identity_passes_through() {
    let mut rt = SeqRuntime::new();
    let r = identity().execute_with_rt(&mut rt, iv(7), FUEL);
    assert_eq!(r, Some(iv(7)));
    assert_eq!(rt.instants(), 1);
}

#[test]
fn value_yields_copy() {
    let r = value(pair(iv(1), iv(2))).execute_seq(unit(), FUEL);
    assert_eq!(r, Some(pair(iv(1), iv(2))));
}

#[test]
fn map_applies_synchronously() {
    let r = reactive::arrow::map(Func::AddWrap(5)).execute_seq(iv(37), FUEL);
    assert_eq!(r, Some(iv(42)));
}

#[test]
fn map_add_wraps_at_max() {
    let r = reactive::arrow::map(Func::AddWrap(1)).execute_seq(iv(i64::MAX), FUEL);
    assert_eq!(r, Some(iv(i64::MIN)));
}

// S1: map then pause then map: the first value is observed in the first
// instant, the second in the second, and the program completes there.
#[test]
fn scenario_map_pause_map() {
    let mut rt = SeqRuntime::new();
    let p = konst(iv(1))
        .bind(trace())
        .bind(pause())
        .bind(konst(iv(2)))
        .bind(trace());
    let r = p.execute_with_rt(&mut rt, unit(), FUEL);
    assert_eq!(r, Some(iv(2)));
    assert_eq!(rt.log, vec![entry(0, iv(1)), entry(1, iv(2))]);
    assert_eq!(rt.instants(), 2);
}

// P2 on concrete values: three chained pauses delay delivery by exactly
// three instants.
#[test]
fn chained_pauses_add_up() {
    let mut rt = SeqRuntime::new();
    let p = pause().bind(pause()).bind(pause()).bind(trace());
    let r = p.execute_with_rt(&mut rt, iv(9), FUEL);
    assert_eq!(r, Some(iv(9)));
    assert_eq!(rt.log, vec![entry(3, iv(9))]);
    assert_eq!(rt.instants(), 4);
}

// S2: the product of two pauses terminates exactly at the end of the
// second instant, with both results.
#[test]
fn scenario_product_of_pauses() {
    let mut rt = SeqRuntime::new();
    let p = product(pause(), pause());
    let r = p.execute_with_rt(&mut rt, pair(unit(), unit()), FUEL);
    assert_eq!(r, Some(pair(unit(), unit())));
    assert_eq!(rt.instants(), 2);
}

// P5 on concrete values: the product completes when both branches have,
// whichever finishes first, and yields the pair of their outputs.
#[test]
fn product_joins_either_order() {
    let slow_left = product(pause().bind(pause()).bind(konst(iv(1))), konst(iv(2)));
    let r = slow_left.execute_seq(pair(unit(), unit()), FUEL);
    assert_eq!(r, Some(pair(iv(1), iv(2))));

    let slow_right = product(konst(iv(1)), pause().bind(pause()).bind(konst(iv(2))));
    let r2 = slow_right.execute_seq(pair(unit(), unit()), FUEL);
    assert_eq!(r2, Some(pair(iv(1), iv(2))));
}

#[test]
fn seqprod_runs_both_in_order() {
    let mut rt = SeqRuntime::new();
    let p = seqprod(
        reactive::arrow::map(Func::AddWrap(1)).bind(trace()),
        reactive::arrow::map(Func::AddWrap(2)).bind(trace()),
    );
    let r = p.execute_with_rt(&mut rt, pair(iv(10), iv(20)), FUEL);
    assert_eq!(r, Some(pair(iv(11), iv(22))));
    assert_eq!(rt.log, vec![entry(0, iv(11)), entry(0, iv(22))]);
}

// P3 on concrete values: both associations of three arrows yield the same
// result and the same trace.
#[test]
fn bind_associations_agree() {
    let x = || reactive::arrow::map(Func::AddWrap(1)).bind(trace());
    let y = || pause().bind(reactive::arrow::map(Func::AddWrap(2))).bind(trace());
    let z = || reactive::arrow::map(Func::AddWrap(4)).bind(trace());

    let mut rt1 = SeqRuntime::new();
    let left = bind(bind(x(), y()), z());
    let r1 = left.execute_with_rt(&mut rt1, iv(0), FUEL);

    let mut rt2 = SeqRuntime::new();
    let right = bind(x(), bind(y(), z()));
    let r2 = right.execute_with_rt(&mut rt2, iv(0), FUEL);

    assert_eq!(r1, Some(iv(7)));
    assert_eq!(r1, r2);
    assert_eq!(rt1.log, rt2.log);
    assert_eq!(rt1.log, vec![entry(0, iv(1)), entry(1, iv(3)), entry(1, iv(7))]);
}

// P4 on concrete values: the continuation of a fork runs in the same
// instant, before the forked body has completed.
#[test]
fn fork_does_not_block() {
    let mut rt = SeqRuntime::new();
    let child = pause().bind(konst(iv(99))).bind(trace()).bind(konst(unit()));
    let p = fork(child).bind(trace());
    let r = p.execute_with_rt(&mut rt, iv(7), FUEL);
    assert_eq!(r, Some(iv(7)));
    assert_eq!(rt.log, vec![entry(0, iv(7)), entry(1, iv(99))]);
}

#[test]
fn flatten_runs_the_yielded_program() {
    let inner = konst(iv(5)).bind(trace());
    let p = flatten(konst(Val::Prog(Box::new(inner))));
    let mut rt = SeqRuntime::new();
    let r = p.execute_with_rt(&mut rt, unit(), FUEL);
    assert_eq!(r, Some(iv(5)));
    assert_eq!(rt.log, vec![entry(0, iv(5))]);
}

// S5: the counting fixpoint terminates within a single instant with the
// loop's exit value.
#[test]
fn scenario_fixpoint_counts_in_one_instant() {
    let mut rt = SeqRuntime::new();
    let p = fixpoint(reactive::arrow::map(Func::StepUpTo(10)));
    let r = p.execute_with_rt(&mut rt, iv(0), FUEL);
    assert_eq!(r, Some(iv(10)));
    assert_eq!(rt.instants(), 1);
    assert_eq!(rt.log, vec![]);
}

// A join point that receives a non-pair input is an invariant violation:
// the run faults and the result is withheld.
#[test]
fn product_on_non_pair_faults() {
    let mut rt = SeqRuntime::new();
    let r = product(identity(), identity()).execute_with_rt(&mut rt, iv(3), FUEL);
    assert_eq!(r, None);
    assert!(rt.fault);
}

#[test]
fn flatten_on_non_program_faults() {
    let mut rt = SeqRuntime::new();
    let r = flatten(identity()).execute_with_rt(&mut rt, iv(3), FUEL);
    assert_eq!(r, None);
    assert!(rt.fault);
}

// A program whose only work parks forever — an await on a signal nobody
// emits — drains without a result.
#[test]
fn no_result_is_reported_as_none() {
    let mut rt = SeqRuntime::new();
    let mut pool = reactive::signal::SignalPool::new();
    let s = reactive::signal::ValueSignal::new(&mut pool, reactive::Comb::Add);
    let q = s.await_value();
    let r = q.execute_with_rt(&mut rt, unit(), FUEL);
    assert_eq!(r, None);
    assert!(!rt.fault);
}

// The process surface: a nullary join runs two processes as independent
// same-instant tasks and pairs their results.
#[test]
fn process_join_pairs_results() {
    let mut rt = SeqRuntime::new();
    let p = reactive::process::join(
        pause().bind(konst(iv(1))),
        konst(iv(2)),
    );
    let r = p.execute_with_rt(&mut rt, unit(), FUEL);
    assert_eq!(r, Some(pair(iv(1), iv(2))));
    assert_eq!(rt.instants(), 2);
}

#[test]
fn process_value_yields_copy() {
    let r = reactive::process::value(iv(8)).execute_seq(unit(), FUEL);
    assert_eq!(r, Some(iv(8)));
}

// Work enqueued by an end-of-instant continuation belongs to the next
// instant, whichever queue it lands on: a pause dispatched from the
// end-of-instant phase parks its continuation, which still runs in
// instant two, and nothing is left behind when the run completes.
#[test]
fn end_of_instant_enqueues_run_next_instant() {
    let mut rt = SeqRuntime::new();
    rt.on_end_of_instant(Task {
        k: Continuation::Then(Box::new(pause()), Box::new(Continuation::Finish)),
        v: iv(5),
    });
    let done = rt.execute(FUEL);
    assert!(done);
    assert_eq!(rt.result, Some(iv(5)));
    assert_eq!(rt.instants(), 2);
    assert!(rt.current.is_empty() && rt.next.is_empty() && rt.endof.is_empty());
}

// Running out of budget reports no result rather than a wrong one.
#[test]
fn fuel_exhaustion_yields_none() {
    let p = fixpoint(reactive::arrow::map(Func::StepUpTo(1_000_000)));
    let r = p.execute_seq(iv(0), 10);
    assert_eq!(r, None);
}
