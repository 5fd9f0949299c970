//! The small-step semantics of the runtime.
//!
//! A queued unit of work is a [`Task`]: a one-shot [`Continuation`] waiting
//! for a value.  This module defines the runtime's state as a mathematical
//! value ([`RtModel`]) and the effect of resuming one task on that state
//! ([`sem_resume`]).  The executable scheduler in [`crate::runtime`] is
//! verified to implement exactly this relation, and the laws in
//! [`crate::laws`] are proved about it.

use vstd::prelude::*;

use crate::arrow::Arrow;
use crate::arrow::Comb;
use crate::arrow::Val;
use crate::arrow::comb_val;
use crate::arrow::func_out;
use crate::arrow::func_val;

verus! {

/// A one-shot continuation: what the scheduler should do with a value once
/// it arrives.  Continuations are consumed exactly once, by
/// [`sem_resume`] / [`crate::runtime::SeqRuntime::resume`].
#[derive(Debug)]
pub enum Continuation {
    /// Store the value as the runtime's overall result.
    Finish,
    /// Drop the value (the end of a forked branch).
    Discard,
    /// Run the arrow on the value, then continue.
    Then(Box<Arrow>, Box<Continuation>),
    /// The value must be a `Val::Prog`; run that arrow on `Unit`, then
    /// continue.
    Flat(Box<Continuation>),
    /// The driver of `fixpoint`: on `Inl(a)` run the body again on `a`, on
    /// `Inr(b)` deliver `b` to the continuation.
    Loop(Box<Arrow>, Box<Continuation>),
    /// Hand the value to the left slot of the join point with this index.
    JoinA(usize),
    /// Hand the value to the right slot of the join point with this index.
    JoinB(usize),
    /// The middle of a sequential product: the value is the first result;
    /// run the stored arrow on the stored second input, then pair up.
    SeqMid(Box<Arrow>, Box<Val>, Box<Continuation>),
    /// The end of a sequential product: pair the stored first result with
    /// the value.
    SeqFin(Box<Val>, Box<Continuation>),
    /// The end-of-instant hook of the signal with this index: reset its
    /// instant-scoped state, schedule unresolved `present` else-branches,
    /// and dispatch its accumulated value to its value-awaiters.
    Awake(usize),
}

/// A unit of scheduled work: a continuation together with the value it is
/// waiting for.
#[derive(Debug)]
pub struct Task {
    pub k: Continuation,
    pub v: Val,
}

/// One line of the runtime's log: a value written by a `Trace`-style
/// function during instant `at`.
#[derive(Debug, PartialEq, Eq)]
pub struct Entry {
    pub at: u64,
    pub val: Val,
}

/// An undecided `present` test parked on a signal: the two branches, the
/// input value, and the continuation of the whole test.
#[derive(Debug)]
pub struct PresentPair {
    pub ifp: Arrow,
    pub ifn: Arrow,
    pub v: Val,
    pub k: Continuation,
}

/// The slot of a join point.  It moves `Vacant` to `A` or `B` to `Used`;
/// any other transition is an invariant violation.
#[derive(Debug)]
pub enum JoinSlot {
    Vacant,
    A(Val),
    B(Val),
    Used,
}

/// The join point of a `product`: the slot for the first arriving result
/// and the continuation both branches share, consumed when the second
/// result arrives.
#[derive(Debug)]
pub struct JoinPoint {
    pub slot: JoinSlot,
    pub k: Option<Continuation>,
}

/// The instant-scoped state of one signal, as a mathematical value.
#[verifier::ext_equal]
pub struct SigModel {
    /// Whether any emit happened this instant.
    pub emitted: bool,
    /// Whether the end-of-instant hook is already registered.
    pub awaken: bool,
    /// Tasks parked by `await_immediate` until the signal is present.
    pub waiters: Seq<Task>,
    /// Undecided `present` tests.
    pub pending: Seq<PresentPair>,
    /// The combined value emitted so far this instant, if any.
    pub accum: Option<Val>,
    /// Continuations parked for next-instant value delivery.
    pub vwaiters: Seq<Continuation>,
}

/// The whole state of a runtime, as a mathematical value.
#[verifier::ext_equal]
pub struct RtModel {
    /// Work of the current instant, in execution order.
    pub current: Seq<Task>,
    /// Work of the next instant.
    pub next: Seq<Task>,
    /// Work to run after `current` drains, before the instant transition.
    pub endof: Seq<Task>,
    /// Signal states, addressed by index.
    pub sigs: Seq<SigModel>,
    /// Join points, addressed by index.
    pub joins: Seq<JoinPoint>,
    /// The overall result, once some task finishes.
    pub result: Option<Val>,
    /// Set when a task violated a runtime invariant; the result is then
    /// withheld.
    pub fault: bool,
    /// Everything traced so far, each entry stamped with its instant.
    pub log: Seq<Entry>,
    /// The number of completed instants.
    pub now: u64,
}

/// The state of a freshly created signal.
pub open spec fn empty_sig() -> SigModel {
    SigModel {
        emitted: false,
        awaken: false,
        waiters: Seq::empty(),
        pending: Seq::empty(),
        accum: None,
        vwaiters: Seq::empty(),
    }
}

/// The state of a freshly created runtime.
pub open spec fn init_model() -> RtModel {
    RtModel {
        current: Seq::empty(),
        next: Seq::empty(),
        endof: Seq::empty(),
        sigs: Seq::empty(),
        joins: Seq::empty(),
        result: None,
        fault: false,
        log: Seq::empty(),
        now: 0,
    }
}

pub open spec fn push_cur(m: RtModel, t: Task) -> RtModel {
    RtModel { current: m.current.push(t), ..m }
}

pub open spec fn push_next(m: RtModel, t: Task) -> RtModel {
    RtModel { next: m.next.push(t), ..m }
}

pub open spec fn push_endof(m: RtModel, t: Task) -> RtModel {
    RtModel { endof: m.endof.push(t), ..m }
}

/// A task broke a runtime invariant: record the fault and drop the task.
pub open spec fn mark_fault(m: RtModel) -> RtModel {
    RtModel { fault: true, ..m }
}

/// Pad the signal table to hold at least `n` signals.
pub open spec fn grow_sigs(m: RtModel, n: nat) -> RtModel {
    if m.sigs.len() >= n {
        m
    } else {
        RtModel { sigs: m.sigs + Seq::new((n - m.sigs.len()) as nat, |i| empty_sig()), ..m }
    }
}

/// The task that runs the `then` branch of a parked `present` test.
pub open spec fn then_task(p: PresentPair) -> Task {
    Task { k: Continuation::Then(Box::new(p.ifp), Box::new(p.k)), v: p.v }
}

/// The task that runs the `else` branch of a parked `present` test.
pub open spec fn else_task(p: PresentPair) -> Task {
    Task { k: Continuation::Then(Box::new(p.ifn), Box::new(p.k)), v: p.v }
}

/// Register the end-of-instant hook of signal `id`, once per instant.
pub open spec fn sem_awake_reg(m: RtModel, id: usize) -> RtModel {
    let s = m.sigs[id as int];
    if s.awaken {
        m
    } else {
        push_endof(
            RtModel { sigs: m.sigs.update(id as int, SigModel { awaken: true, ..s }), ..m },
            Task { k: Continuation::Awake(id), v: Val::Unit },
        )
    }
}

/// The presence-setting part of an emission on signal `id` (`id` must be in
/// range): on the first emit of the instant, mark the signal present, move
/// every parked immediate waiter and every pending `then` branch to the
/// current queue, and register the end-of-instant hook.  Further emits in
/// the same instant change nothing.
pub open spec fn sem_emit_core(m: RtModel, id: usize) -> RtModel {
    let s = m.sigs[id as int];
    if s.emitted {
        m
    } else {
        sem_awake_reg(
            RtModel {
                current: m.current + s.waiters + Seq::new(
                    s.pending.len(),
                    |i| then_task(s.pending[i]),
                ),
                sigs: m.sigs.update(
                    id as int,
                    SigModel { emitted: true, waiters: Seq::empty(), pending: Seq::empty(), ..s },
                ),
                ..m
            },
            id,
        )
    }
}

/// Emitting the input on valued signal `id`: the pure emission, then the
/// input folded into the accumulator with `c`, then `Unit` handed to the
/// continuation.  An operand outside the operator's domain is a fault.
pub open spec fn sem_emit_value(m: RtModel, id: usize, c: Comb, k: Continuation, v: Val) -> RtModel {
    let m1 = push_cur(
        sem_emit_core(grow_sigs(m, (id + 1) as nat), id),
        Task { k, v: Val::Unit },
    );
    let s = m1.sigs[id as int];
    let folded = match s.accum {
        None => Some(v),
        Some(a) => comb_val(c, a, v),
    };
    match folded {
        Some(a2) => RtModel {
            sigs: m1.sigs.update(id as int, SigModel { accum: Some(a2), ..s }),
            ..m1
        },
        None => RtModel {
            sigs: m1.sigs.update(id as int, SigModel { accum: None, ..s }),
            fault: true,
            ..m1
        },
    }
}

/// `await_immediate` on signal `id`: pass the value straight through if the
/// signal is present, otherwise park the task; a parked task is freed by an
/// emit this instant and dropped at end of instant.
pub open spec fn sem_await_immediate(m: RtModel, id: usize, k: Continuation, v: Val) -> RtModel {
    let m1 = grow_sigs(m, (id + 1) as nat);
    let s = m1.sigs[id as int];
    if s.emitted {
        push_cur(m1, Task { k, v })
    } else {
        sem_awake_reg(
            RtModel {
                sigs: m1.sigs.update(id as int, SigModel { waiters: s.waiters.push(Task { k, v }), ..s }),
                ..m1
            },
            id,
        )
    }
}

/// `present` on signal `id`: run the `then` branch now if the signal is
/// already present, otherwise park the pair until an emit or the end of the
/// instant decides it.
pub open spec fn sem_present(
    m: RtModel,
    id: usize,
    ifp: Arrow,
    ifn: Arrow,
    k: Continuation,
    v: Val,
) -> RtModel {
    let m1 = grow_sigs(m, (id + 1) as nat);
    let s = m1.sigs[id as int];
    if s.emitted {
        push_cur(m1, Task { k: Continuation::Then(Box::new(ifp), Box::new(k)), v })
    } else {
        sem_awake_reg(
            RtModel {
                sigs: m1.sigs.update(
                    id as int,
                    SigModel { pending: s.pending.push(PresentPair { ifp, ifn, v, k }), ..s },
                ),
                ..m1
            },
            id,
        )
    }
}

/// `await` of a valued signal: park the continuation for value delivery;
/// the input value is dropped.
pub open spec fn sem_await_value(m: RtModel, id: usize, k: Continuation) -> RtModel {
    let m1 = grow_sigs(m, (id + 1) as nat);
    let s = m1.sigs[id as int];
    RtModel { sigs: m1.sigs.update(id as int, SigModel { vwaiters: s.vwaiters.push(k), ..s }), ..m1 }
}

/// `await` of a single-consumer signal: the continuation replaces any
/// earlier waiter.
pub open spec fn sem_await_uniq(m: RtModel, id: usize, k: Continuation) -> RtModel {
    let m1 = grow_sigs(m, (id + 1) as nat);
    let s = m1.sigs[id as int];
    RtModel { sigs: m1.sigs.update(id as int, SigModel { vwaiters: seq![k], ..s }), ..m1 }
}

/// The end-of-instant hook of signal `id`: clear the instant-scoped state,
/// drop parked immediate waiters, schedule the `else` branch of every
/// undecided `present` test, and, if a value was accumulated, deliver it to
/// every value-awaiter.  The hook runs after the instant transition, so its
/// pushes to `current` run at the start of the next instant.
pub open spec fn sem_awake(m: RtModel, id: usize) -> RtModel {
    if id >= m.sigs.len() {
        mark_fault(m)
    } else {
        let s = m.sigs[id as int];
        let elses = Seq::new(s.pending.len(), |i| else_task(s.pending[i]));
        let deliveries = match s.accum {
            Some(a) => Seq::new(s.vwaiters.len(), |i| Task { k: s.vwaiters[i], v: a }),
            None => Seq::empty(),
        };
        let s2 = SigModel {
            emitted: false,
            awaken: false,
            waiters: Seq::empty(),
            pending: Seq::empty(),
            accum: None,
            vwaiters: if s.accum is Some {
                Seq::empty()
            } else {
                s.vwaiters
            },
        };
        RtModel {
            current: m.current + elses + deliveries,
            sigs: m.sigs.update(id as int, s2),
            ..m
        }
    }
}

/// Hand a value to the left slot of join point `j`.
pub open spec fn sem_join_a(m: RtModel, j: usize, v: Val) -> RtModel {
    if j >= m.joins.len() {
        mark_fault(m)
    } else {
        let jp = m.joins[j as int];
        match jp.slot {
            JoinSlot::Vacant => RtModel {
                joins: m.joins.update(j as int, JoinPoint { slot: JoinSlot::A(v), ..jp }),
                ..m
            },
            JoinSlot::B(d) => match jp.k {
                Some(kk) => push_cur(
                    RtModel {
                        joins: m.joins.update(j as int, JoinPoint { slot: JoinSlot::Used, k: None }),
                        ..m
                    },
                    Task { k: kk, v: Val::Pair(Box::new(v), Box::new(d)) },
                ),
                None => mark_fault(m),
            },
            _ => mark_fault(m),
        }
    }
}

/// Hand a value to the right slot of join point `j`.
pub open spec fn sem_join_b(m: RtModel, j: usize, v: Val) -> RtModel {
    if j >= m.joins.len() {
        mark_fault(m)
    } else {
        let jp = m.joins[j as int];
        match jp.slot {
            JoinSlot::Vacant => RtModel {
                joins: m.joins.update(j as int, JoinPoint { slot: JoinSlot::B(v), ..jp }),
                ..m
            },
            JoinSlot::A(c) => match jp.k {
                Some(kk) => push_cur(
                    RtModel {
                        joins: m.joins.update(j as int, JoinPoint { slot: JoinSlot::Used, k: None }),
                        ..m
                    },
                    Task { k: kk, v: Val::Pair(Box::new(c), Box::new(v)) },
                ),
                None => mark_fault(m),
            },
            _ => mark_fault(m),
        }
    }
}

/// Drive value `v` into arrow `p`, with `k` as the continuation: the core
/// of the combinator algebra.  Every case either resolves synchronously by
/// pushing new current-instant tasks, or parks work on the runtime's
/// structures (`Pause` on the next queue, signal operations on the signal's
/// state, `Product` on a fresh join point).
#[verifier::opaque]
pub open spec fn sem_dispatch(m: RtModel, p: Arrow, k: Continuation, v: Val) -> RtModel {
    match p {
        Arrow::Identity => push_cur(m, Task { k, v }),
        Arrow::Value(c) => push_cur(m, Task { k, v: *c }),
        Arrow::Apply(f) => {
            let m1 = match func_out(f, v) {
                Some(o) => RtModel { log: m.log.push(Entry { at: m.now, val: o }), ..m },
                None => m,
            };
            push_cur(m1, Task { k, v: func_val(f, v) })
        },
        Arrow::Pause => push_next(m, Task { k, v }),
        Arrow::Bind(x, y) => push_cur(
            m,
            Task { k: Continuation::Then(x, Box::new(Continuation::Then(y, Box::new(k)))), v },
        ),
        Arrow::Flatten(x) => push_cur(
            m,
            Task { k: Continuation::Then(x, Box::new(Continuation::Flat(Box::new(k)))), v },
        ),
        Arrow::Fixpoint(x) => push_cur(
            m,
            Task { k: Continuation::Loop(x, Box::new(k)), v: Val::Inl(Box::new(v)) },
        ),
        Arrow::SeqProd(x, y) => match v {
            Val::Pair(a, b) => push_cur(
                m,
                Task {
                    k: Continuation::Then(x, Box::new(Continuation::SeqMid(y, b, Box::new(k)))),
                    v: *a,
                },
            ),
            _ => mark_fault(m),
        },
        Arrow::Product(x, y) => match v {
            Val::Pair(a, b) => {
                let j = m.joins.len();
                let m1 = RtModel {
                    joins: m.joins.push(JoinPoint { slot: JoinSlot::Vacant, k: Some(k) }),
                    ..m
                };
                push_cur(
                    push_cur(
                        m1,
                        Task {
                            k: Continuation::Then(x, Box::new(Continuation::JoinA(j as usize))),
                            v: *a,
                        },
                    ),
                    Task {
                        k: Continuation::Then(y, Box::new(Continuation::JoinB(j as usize))),
                        v: *b,
                    },
                )
            },
            _ => mark_fault(m),
        },
        Arrow::Fork(x) => push_cur(
            push_cur(m, Task { k: Continuation::Then(x, Box::new(Continuation::Discard)), v }),
            Task { k, v },
        ),
        Arrow::EmitPure(id) => push_cur(
            sem_emit_core(grow_sigs(m, (id + 1) as nat), id),
            Task { k, v: Val::Unit },
        ),
        Arrow::AwaitImmediate(id) => sem_await_immediate(m, id, k, v),
        Arrow::Present(id, x, y) => sem_present(m, id, *x, *y, k, v),
        Arrow::EmitValue(id, c) => sem_emit_value(m, id, c, k, v),
        Arrow::AwaitValue(id) => sem_await_value(m, id, k),
        Arrow::AwaitUniq(id) => sem_await_uniq(m, id, k),
    }
}

/// Resume one task: the complete one-step relation of the scheduler.
#[verifier::opaque]
pub open spec fn sem_resume(m: RtModel, k: Continuation, v: Val) -> RtModel {
    match k {
        Continuation::Finish => RtModel { result: Some(v), ..m },
        Continuation::Discard => m,
        Continuation::Then(p, k2) => sem_dispatch(m, *p, *k2, v),
        Continuation::Flat(k2) => match v {
            Val::Prog(p) => push_cur(m, Task { k: Continuation::Then(p, k2), v: Val::Unit }),
            _ => mark_fault(m),
        },
        Continuation::Loop(x, k2) => match v {
            Val::Inl(a) => push_cur(
                m,
                Task { k: Continuation::Then(x, Box::new(Continuation::Loop(x, k2))), v: *a },
            ),
            Val::Inr(b) => push_cur(m, Task { k: *k2, v: *b }),
            _ => mark_fault(m),
        },
        Continuation::JoinA(j) => sem_join_a(m, j, v),
        Continuation::JoinB(j) => sem_join_b(m, j, v),
        Continuation::SeqMid(y, b, k2) => push_cur(
            m,
            Task {
                k: Continuation::Then(y, Box::new(Continuation::SeqFin(Box::new(v), k2))),
                v: *b,
            },
        ),
        Continuation::SeqFin(c, k2) => push_cur(m, Task { k: *k2, v: Val::Pair(c, Box::new(v)) }),
        Continuation::Awake(id) => sem_awake(m, id),
    }
}

/// Pop the front task of the current queue and resume it; a state whose
/// current queue is empty is left unchanged.
pub open spec fn step_cur(m: RtModel) -> RtModel {
    if m.current.len() == 0 {
        m
    } else {
        sem_resume(
            RtModel { current: m.current.subrange(1, m.current.len() as int), ..m },
            m.current[0].k,
            m.current[0].v,
        )
    }
}

/// `n` front-of-current steps.
pub open spec fn steps_cur(m: RtModel, n: nat) -> RtModel
    decreases n,
{
    if n == 0 {
        m
    } else {
        step_cur(steps_cur(m, (n - 1) as nat))
    }
}

/// Pop the front task of the end-of-instant queue and resume it.  The
/// instant transition has already happened when these run, so their pushes
/// to `current` run at the start of the next instant.
pub open spec fn step_eoi(m: RtModel) -> RtModel {
    if m.endof.len() == 0 {
        m
    } else {
        sem_resume(
            RtModel { endof: m.endof.subrange(1, m.endof.len() as int), ..m },
            m.endof[0].k,
            m.endof[0].v,
        )
    }
}

/// `n` front-of-end-of-instant steps.
pub open spec fn steps_eoi(m: RtModel, n: nat) -> RtModel
    decreases n,
{
    if n == 0 {
        m
    } else {
        step_eoi(steps_eoi(m, (n - 1) as nat))
    }
}

/// The instant transition: promote the next queue to current.
pub open spec fn promote(m: RtModel) -> RtModel {
    RtModel { current: m.next, next: m.current, ..m }
}

/// Close the instant: one more instant is complete.
pub open spec fn tick(m: RtModel) -> RtModel {
    RtModel {
        now: if m.now + 1 > u64::MAX {
            u64::MAX
        } else {
            (m.now + 1) as u64
        },
        ..m
    }
}

/// Close the phases of an instant: whatever the end-of-instant drain left
/// on the next queue becomes current work of the new instant too, so that
/// everything enqueued for instant `i + 1` — from whichever phase — runs
/// there.
pub open spec fn merge_next(m: RtModel) -> RtModel {
    RtModel { current: m.current + m.next, next: Seq::<Task>::empty(), ..m }
}

/// One whole instant with the given step counts: drain current, promote
/// next, drain end-of-instant (its pushes to the promoted current and to
/// next both run in the new instant), count the instant.
pub open spec fn instant_runs(m: RtModel, n1: nat, n2: nat, r: RtModel) -> bool {
    let a = steps_cur(m, n1);
    let b = steps_eoi(promote(a), n2);
    &&& a.current.len() == 0
    &&& b.endof.len() == 0
    &&& r == tick(merge_next(b))
}

/// `r` is the state one whole instant after `m`.
pub open spec fn instant_sem(m: RtModel, r: RtModel) -> bool {
    exists|n1: nat, n2: nat| instant_runs(m, n1, n2, r)
}

/// The tail of an instant alone: promote, drain end-of-instant, merge,
/// count.  This is also the transition the parallel runtime's coordinator
/// performs once every worker is idle.
pub open spec fn finish_runs(m: RtModel, n2: nat, r: RtModel) -> bool {
    let b = steps_eoi(promote(m), n2);
    &&& b.endof.len() == 0
    &&& r == tick(merge_next(b))
}

/// `r` is the state after the instant transition from `m`.
pub open spec fn finish_sem(m: RtModel, r: RtModel) -> bool {
    exists|n2: nat| finish_runs(m, n2, r)
}

/// Position `i` of a run: one instant leads from state `i` to state
/// `i + 1`.
pub open spec fn chain_link(states: Seq<RtModel>, i: int) -> bool {
    instant_sem(states[i], states[i + 1])
}

/// `states` traces a run from `m` to `r`: consecutive entries are related
/// by one whole instant.
pub open spec fn chain_runs(m: RtModel, r: RtModel, states: Seq<RtModel>) -> bool {
    &&& states.len() >= 1
    &&& states.first() == m
    &&& states.last() == r
    &&& forall|i: int| 0 <= i < states.len() - 1 ==> #[trigger] chain_link(states, i)
}

/// `r` is the state exactly `k` whole instants after `m`.
pub open spec fn run_steps(m: RtModel, r: RtModel, k: nat) -> bool {
    exists|states: Seq<RtModel>| states.len() == k + 1 && #[trigger] chain_runs(m, r, states)
}

/// A run of no instants stays put.
pub proof fn lemma_run_steps_zero(m: RtModel)
    ensures
        run_steps(m, m, 0),
{
    let states = seq![m];
    assert(chain_runs(m, m, states));
}

/// Appending one instant to a finished run gives a longer run.
pub proof fn lemma_run_steps_snoc(m: RtModel, mid: RtModel, r: RtModel, k: nat)
    requires
        run_steps(m, mid, k),
        instant_sem(mid, r),
    ensures
        run_steps(m, r, k + 1),
{
    let states = choose|states: Seq<RtModel>| states.len() == k + 1 && #[trigger] chain_runs(
        m,
        mid,
        states,
    );
    let ext = states.push(r);
    assert(ext.last() == r);
    assert forall|i: int| 0 <= i < ext.len() - 1 implies #[trigger] chain_link(ext, i) by {
        if i < states.len() - 1 {
            assert(chain_link(states, i));
            assert(ext[i] == states[i] && ext[i + 1] == states[i + 1]);
        } else {
            assert(ext[i] == states.last() && ext[i + 1] == r);
        }
    }
    assert(chain_runs(m, r, ext));
}

/// Drain the current queue, spending one budget unit per task, until it
/// is empty or the budget runs out; yields the state and what is left of
/// the budget.
pub open spec fn drain_cur(m: RtModel, f: nat) -> (RtModel, nat)
    decreases f,
{
    if m.current.len() == 0 {
        (m, f)
    } else if f == 0 {
        (m, 0)
    } else {
        drain_cur(step_cur(m), (f - 1) as nat)
    }
}

/// Drain the end-of-instant queue under a budget, as [`drain_cur`].
pub open spec fn drain_eoi(m: RtModel, f: nat) -> (RtModel, nat)
    decreases f,
{
    if m.endof.len() == 0 {
        (m, f)
    } else if f == 0 {
        (m, 0)
    } else {
        drain_eoi(step_eoi(m), (f - 1) as nat)
    }
}

/// The tail of an instant under a budget: promote (one unit), drain the
/// end-of-instant queue, merge, count.  `None` marks an exhausted budget,
/// with the state exactly where the drain stopped.
pub open spec fn spec_finish(m: RtModel, f: nat) -> (RtModel, nat, Option<bool>) {
    let mp = promote(m);
    if f == 0 {
        (mp, 0, None)
    } else {
        let (b, f2) = drain_eoi(mp, (f - 1) as nat);
        if b.endof.len() == 0 {
            let d = tick(merge_next(b));
            (d, f2, Some(d.current.len() > 0))
        } else {
            (b, 0, None)
        }
    }
}

/// One whole instant under a budget: the unique state, remaining budget
/// and outcome the scheduler reaches.
pub open spec fn spec_instant(m: RtModel, f: nat) -> (RtModel, nat, Option<bool>) {
    let (a, f1) = drain_cur(m, f);
    if a.current.len() > 0 {
        (a, 0, None)
    } else {
        spec_finish(a, f1)
    }
}

/// A whole run under a budget: instants until one ends with no work or
/// the budget runs out mid-instant; yields the final state and whether
/// the run completed.  The budget strictly shrinks across a completed
/// instant ([`lemma_spec_instant_fuel`]); the `f1 < f` guard only
/// satisfies the termination checker and is never false.
pub open spec fn spec_execute(m: RtModel, f: nat) -> (RtModel, bool)
    decreases f,
{
    let (m1, f1, r) = spec_instant(m, f);
    match r {
        None => (m1, false),
        Some(more) => if more && f1 < f {
            spec_execute(m1, f1)
        } else {
            (m1, true)
        },
    }
}

/// Draining never creates budget.
pub proof fn lemma_drain_cur_fuel(m: RtModel, f: nat)
    ensures
        drain_cur(m, f).1 <= f,
    decreases f,
{
    if m.current.len() != 0 && f != 0 {
        lemma_drain_cur_fuel(step_cur(m), (f - 1) as nat);
    }
}

/// Draining never creates budget.
pub proof fn lemma_drain_eoi_fuel(m: RtModel, f: nat)
    ensures
        drain_eoi(m, f).1 <= f,
    decreases f,
{
    if m.endof.len() != 0 && f != 0 {
        lemma_drain_eoi_fuel(step_eoi(m), (f - 1) as nat);
    }
}

/// A completed instant consumes at least the transition's budget unit.
pub proof fn lemma_spec_instant_fuel(m: RtModel, f: nat)
    ensures
        spec_instant(m, f).2 is Some ==> spec_instant(m, f).1 < f,
{
    let (a, f1) = drain_cur(m, f);
    lemma_drain_cur_fuel(m, f);
    if a.current.len() == 0 && f1 != 0 {
        lemma_drain_eoi_fuel(promote(a), (f1 - 1) as nat);
    }
}

/// The task that starts program `p` on input `a` and finishes with its
/// output.
pub open spec fn start_task(p: Arrow, a: Val) -> Task {
    Task { k: Continuation::Then(Box::new(p), Box::new(Continuation::Finish)), v: a }
}

} // verus!
