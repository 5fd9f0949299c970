//! The laws of the runtime, proved once and for all over the semantics of
//! [`crate::semantics`].  Each law is stated against `sem_resume` /
//! `instant_sem`, which the executable scheduler is proved to implement
//! step for step.

use vstd::prelude::*;

use crate::arrow::Arrow;
use crate::arrow::Comb;
use crate::arrow::Val;
use crate::arrow::comb_val;
use crate::semantics::Continuation;
use crate::semantics::JoinPoint;
use crate::semantics::JoinSlot;
use crate::semantics::RtModel;
use crate::semantics::Task;
use crate::semantics::instant_runs;
use crate::semantics::instant_sem;
use crate::semantics::lemma_run_steps_zero;
use crate::semantics::promote;
use crate::semantics::push_cur;
use crate::semantics::push_next;
use crate::semantics::run_steps;
use crate::semantics::sem_await_immediate;
use crate::semantics::sem_awake;
use crate::semantics::sem_emit_core;
use crate::semantics::sem_emit_value;
use crate::semantics::sem_join_a;
use crate::semantics::sem_join_b;
use crate::semantics::sem_present;
use crate::semantics::sem_resume;
use crate::semantics::step_cur;
use crate::semantics::steps_cur;
use crate::semantics::steps_eoi;
use crate::semantics::then_task;
use crate::semantics::tick;

verus! {

/// The task that runs arrow `p` on value `v` and then continues with `k`.
pub open spec fn run_task(p: Arrow, k: Continuation, v: Val) -> Task {
    Task { k: Continuation::Then(Box::new(p), Box::new(k)), v }
}

/// Law: one step of `pause` moves its continuation, with its input
/// unchanged, onto the next instant's queue — and changes nothing else.
pub proof fn law_pause_defers(m: RtModel, k: Continuation, x: Val)
    ensures
        sem_resume(m, run_task(Arrow::Pause, k, x).k, x) == push_next(m, Task { k, v: x }),
{
    reveal(crate::semantics::sem_resume);
    reveal(crate::semantics::sem_dispatch);
}

/// Law: `pause` consumes exactly one instant.  A runtime whose sole task
/// runs `pause` on `x` with continuation `k` reaches, in one instant, the
/// state whose current work ends with `(k, x)`: the continuation becomes
/// runnable at instant `i + 1` and not at instant `i`.
pub proof fn law_pause_one_instant(m: RtModel, k: Continuation, x: Val)
    requires
        m.current == seq![run_task(Arrow::Pause, k, x)],
        m.endof.len() == 0,
    ensures
        instant_sem(
            m,
            tick(
                RtModel {
                    current: m.next.push(Task { k, v: x }),
                    next: Seq::<Task>::empty(),
                    ..m
                },
            ),
        ),
{
    reveal(crate::semantics::sem_resume);
    reveal(crate::semantics::sem_dispatch);
    reveal_with_fuel(crate::semantics::steps_cur, 3);
    let m1 = step_cur(m);
    assert(m1 =~= RtModel {
        current: Seq::<Task>::empty(),
        next: m.next.push(Task { k, v: x }),
        ..m
    });
    assert(steps_cur(m, 1) == m1);
    let m2 = promote(m1);
    assert(steps_eoi(m2, 0) == m2);
    assert(m2 =~= RtModel {
        current: m.next.push(Task { k, v: x }),
        next: Seq::<Task>::empty(),
        ..m
    });
    assert(instant_runs(m, 1, 0, tick(m2)));
}

/// A chain of `n` pauses, ending in the identity.
pub open spec fn pause_chain(n: nat) -> Arrow
    decreases n,
{
    if n == 0 {
        Arrow::Identity
    } else {
        Arrow::Bind(Box::new(Arrow::Pause), Box::new(pause_chain((n - 1) as nat)))
    }
}

/// The state of a lone pause chain after `j` of its `n` instants: the
/// remaining chain waiting in the current queue, the clock advanced by `j`.
pub open spec fn pause_chain_state(
    m: RtModel,
    n: nat,
    j: nat,
    k: Continuation,
    x: Val,
) -> RtModel {
    RtModel {
        current: seq![run_task(pause_chain((n - j) as nat), k, x)],
        next: Seq::<Task>::empty(),
        endof: Seq::<Task>::empty(),
        now: (m.now + j) as u64,
        ..m
    }
}

/// Prepending one instant to a finished run gives a longer run.
pub proof fn lemma_run_steps_cons(m: RtModel, mid: RtModel, r: RtModel, k: nat)
    requires
        instant_sem(m, mid),
        run_steps(mid, r, k),
    ensures
        run_steps(m, r, k + 1),
{
    let states = choose|states: Seq<RtModel>|
        states.len() == k + 1 && #[trigger] crate::semantics::chain_runs(mid, r, states);
    let ext = seq![m] + states;
    assert(ext.first() == m);
    assert(ext.last() == r);
    assert forall|i: int| 0 <= i < ext.len() - 1 implies #[trigger] crate::semantics::chain_link(
        ext,
        i,
    ) by {
        if i == 0 {
            assert(ext[0] == m && ext[1] == states[0]);
        } else {
            assert(crate::semantics::chain_link(states, i - 1));
            assert(ext[i] == states[i - 1] && ext[i + 1] == states[i]);
        }
    }
    assert(crate::semantics::chain_runs(m, r, ext));
}

/// Law: chained pauses are additive.  A runtime whose sole task runs a
/// chain of `n` pauses on `x` reaches, in exactly `n` instants, the state
/// whose sole current task hands `x` to the continuation through the
/// identity; at every earlier instant the rest of the chain is still
/// waiting, so the continuation runs no earlier than instant `i + n`.
pub proof fn law_chained_pauses_additive(m: RtModel, n: nat, k: Continuation, x: Val)
    requires
        m.current == seq![run_task(pause_chain(n), k, x)],
        m.next.len() == 0,
        m.endof.len() == 0,
        m.now + n <= u64::MAX,
    ensures
        run_steps(m, pause_chain_state(m, n, n, k, x), n),
    decreases n,
{
    reveal(crate::semantics::sem_resume);
    reveal(crate::semantics::sem_dispatch);
    reveal_with_fuel(crate::semantics::steps_cur, 4);
    if n == 0 {
        lemma_run_steps_zero(m);
        assert(pause_chain_state(m, 0, 0, k, x) =~= m);
    } else {
        // One instant peels one pause off the chain: dispatch the bind,
        // then the pause, then promote.
        let kd = Continuation::Then(
            Box::new(pause_chain((n - 1) as nat)),
            Box::new(k),
        );
        let m1 = step_cur(m);
        assert(m1 =~= RtModel {
            current: seq![
                Task {
                    k: Continuation::Then(
                        Box::new(Arrow::Pause),
                        Box::new(kd),
                    ),
                    v: x,
                },
            ],
            ..m
        });
        let m2 = step_cur(m1);
        assert(m2 =~= RtModel {
            current: Seq::<Task>::empty(),
            next: seq![Task { k: kd, v: x }],
            ..m
        });
        assert(steps_cur(m, 2) == m2);
        let m3 = promote(m2);
        assert(steps_eoi(m3, 0) == m3);
        let mid = tick(m3);
        assert(instant_runs(m, 2, 0, mid));
        assert(mid =~= pause_chain_state(m, n, 1, k, x));
        let mmid = pause_chain_state(m, n, 1, k, x);
        law_chained_pauses_additive(mmid, (n - 1) as nat, k, x);
        assert(pause_chain_state(mmid, (n - 1) as nat, (n - 1) as nat, k, x)
            =~= pause_chain_state(m, n, n, k, x));
        lemma_run_steps_cons(m, mmid, pause_chain_state(m, n, n, k, x), (n - 1) as nat);
    }
}

/// Law: bind is associative up to one administrative dispatch step.
/// Driving a value into `bind(bind(x, y), z)` reaches, after two dispatch
/// steps, the task whose continuation is fully unfolded; driving it into
/// `bind(x, bind(y, z))` reaches after one step a task that runs the same
/// `x` under a continuation which, resumed with any value in any state,
/// merely enqueues that same unfolded continuation.  The two associations
/// run the same work, apart from one silent dispatch step wherever the
/// second form's continuation is resumed.
pub proof fn law_bind_associative(
    m: RtModel,
    x: Arrow,
    y: Arrow,
    z: Arrow,
    k: Continuation,
    v: Val,
)
    ensures
        sem_resume(m, run_task(Arrow::Bind(Box::new(Arrow::Bind(Box::new(x), Box::new(y))), Box::new(z)), k, v).k, v)
            == push_cur(m, run_task(Arrow::Bind(Box::new(x), Box::new(y)), Continuation::Then(Box::new(z), Box::new(k)), v)),
        sem_resume(m, run_task(Arrow::Bind(Box::new(x), Box::new(y)), Continuation::Then(Box::new(z), Box::new(k)), v).k, v)
            == push_cur(m, run_task(x, Continuation::Then(Box::new(y), Box::new(Continuation::Then(Box::new(z), Box::new(k)))), v)),
        sem_resume(m, run_task(Arrow::Bind(Box::new(x), Box::new(Arrow::Bind(Box::new(y), Box::new(z)))), k, v).k, v)
            == push_cur(m, run_task(x, Continuation::Then(Box::new(Arrow::Bind(Box::new(y), Box::new(z))), Box::new(k)), v)),
        forall|s: RtModel, b: Val|
            #[trigger] sem_resume(s, Continuation::Then(Box::new(Arrow::Bind(Box::new(y), Box::new(z))), Box::new(k)), b)
                == push_cur(s, run_task(y, Continuation::Then(Box::new(z), Box::new(k)), b)),
{
    reveal(crate::semantics::sem_resume);
    reveal(crate::semantics::sem_dispatch);
}

/// Law: fork does not block.  One step of `fork(x)` enqueues the forked
/// body and the continuation as two tasks of the same instant: the
/// continuation runs in this instant whether or not the body completes.
pub proof fn law_fork_does_not_block(m: RtModel, x: Arrow, k: Continuation, v: Val)
    ensures
        sem_resume(m, run_task(Arrow::Fork(Box::new(x)), k, v).k, v) == push_cur(
            push_cur(m, run_task(x, Continuation::Discard, v)),
            Task { k, v },
        ),
{
    reveal(crate::semantics::sem_resume);
    reveal(crate::semantics::sem_dispatch);
}

/// Law: dispatching a product on a pair allocates a fresh join point —
/// vacant, holding the shared continuation — and spawns both branches as
/// tasks of the same instant, each wired to one side of the join.
/// Together with `law_join_completes_either_order`: once both branches
/// deliver, in either order, the continuation receives the pair of
/// results.
pub proof fn law_product_spawns(
    m: RtModel,
    x: Arrow,
    y: Arrow,
    k: Continuation,
    a: Val,
    b: Val,
)
    ensures
        sem_resume(
            m,
            run_task(
                Arrow::Product(Box::new(x), Box::new(y)),
                k,
                Val::Pair(Box::new(a), Box::new(b)),
            ).k,
            Val::Pair(Box::new(a), Box::new(b)),
        ) == push_cur(
            push_cur(
                RtModel {
                    joins: m.joins.push(JoinPoint { slot: JoinSlot::Vacant, k: Some(k) }),
                    ..m
                },
                run_task(x, Continuation::JoinA(m.joins.len() as usize), a),
            ),
            run_task(y, Continuation::JoinB(m.joins.len() as usize), b),
        ),
{
    reveal(crate::semantics::sem_resume);
    reveal(crate::semantics::sem_dispatch);
}

/// Law: a join point completes exactly when both branches have completed,
/// with the pair of their results, whichever side arrives first.  Both
/// orders consume the join and fire the shared continuation with `(c, d)`.
pub proof fn law_join_completes_either_order(m: RtModel, j: usize, c: Val, d: Val)
    requires
        j < m.joins.len(),
        m.joins[j as int].slot is Vacant,
        m.joins[j as int].k is Some,
    ensures
        sem_join_b(sem_join_a(m, j, c), j, d) == push_cur(
            RtModel {
                joins: m.joins.update(j as int, JoinPoint { slot: JoinSlot::Used, k: None }),
                ..m
            },
            Task {
                k: m.joins[j as int].k.unwrap(),
                v: Val::Pair(Box::new(c), Box::new(d)),
            },
        ),
        sem_join_a(sem_join_b(m, j, d), j, c) == sem_join_b(sem_join_a(m, j, c), j, d),
{
    let ma = sem_join_a(m, j, c);
    let mb = sem_join_b(m, j, d);
    assert(sem_join_b(ma, j, d) =~= push_cur(
        RtModel {
            joins: m.joins.update(j as int, JoinPoint { slot: JoinSlot::Used, k: None }),
            ..m
        },
        Task { k: m.joins[j as int].k.unwrap(), v: Val::Pair(Box::new(c), Box::new(d)) },
    ));
    assert(sem_join_a(mb, j, c) =~= sem_join_b(ma, j, d));
}

/// Law: pure-signal emission is idempotent within an instant.  A second
/// emission in the same instant leaves the runtime exactly as it was.
pub proof fn law_emit_idempotent(m: RtModel, id: usize)
    requires
        id < m.sigs.len(),
    ensures
        sem_emit_core(sem_emit_core(m, id), id) == sem_emit_core(m, id),
{
    let m1 = sem_emit_core(m, id);
    assert(m1.sigs[id as int].emitted);
    assert(sem_emit_core(m1, id) == m1);
}

/// Law: every `await_immediate` in an instant with an emission fires in
/// that instant.  After the signal is present, an `await_immediate` passes
/// its value through as a task of the same instant; and the emission
/// itself moves every already-parked waiter onto the same instant's queue.
pub proof fn law_await_immediate_fires_with_emit(
    m: RtModel,
    id: usize,
    k: Continuation,
    v: Val,
)
    requires
        id < m.sigs.len(),
    ensures
        m.sigs[id as int].emitted ==> sem_await_immediate(m, id, k, v) == push_cur(
            m,
            Task { k, v },
        ),
        !m.sigs[id as int].emitted ==> sem_emit_core(m, id).current == m.current
            + m.sigs[id as int].waiters + Seq::new(
            m.sigs[id as int].pending.len(),
            |i: int| then_task(m.sigs[id as int].pending[i]),
        ) && sem_emit_core(m, id).sigs[id as int].emitted,
{
}

/// Law (present decision, within the instant): a `present` test on a
/// signal already emitted this instant schedules its `then` branch as a
/// task of the same instant; on a signal not yet emitted it parks the pair,
/// and the emission that decides it schedules the `then` branch in that
/// same instant (previous law).  The `else` branch of a test still parked
/// at the end of the instant is scheduled by the signal's hook, which runs
/// after the instant transition: it becomes current work of instant
/// `i + 1` and runs no earlier.
pub proof fn law_present_decision(m: RtModel, id: usize, x: Arrow, y: Arrow, k: Continuation, v: Val)
    requires
        id < m.sigs.len(),
    ensures
        m.sigs[id as int].emitted ==> sem_present(m, id, x, y, k, v) == push_cur(
            m,
            run_task(x, k, v),
        ),
        !m.sigs[id as int].emitted ==> sem_present(m, id, x, y, k, v).sigs[id as int].pending
            == m.sigs[id as int].pending.push(
            crate::semantics::PresentPair { ifp: x, ifn: y, v, k },
        ),
        !m.sigs[id as int].emitted ==> sem_awake(m, id).current == m.current + Seq::new(
            m.sigs[id as int].pending.len(),
            |i: int| crate::semantics::else_task(m.sigs[id as int].pending[i]),
        ) + (match m.sigs[id as int].accum {
            Some(a) => Seq::new(
                m.sigs[id as int].vwaiters.len(),
                |i: int| Task { k: m.sigs[id as int].vwaiters[i], v: a },
            ),
            None => Seq::<Task>::empty(),
        }),
{
}

/// Law: valued-signal delivery.  The end-of-instant hook of a signal whose
/// accumulator holds `a` hands `a` to every parked value-awaiter; the hook
/// runs after the instant transition, so the deliveries are current work at
/// the start of instant `i + 1`.  The accumulator and the awaiters are
/// consumed; awaiters of a silent instant stay parked.
pub proof fn law_value_delivery(m: RtModel, id: usize, a: Val)
    requires
        id < m.sigs.len(),
        m.sigs[id as int].accum == Some(a),
    ensures
        sem_awake(m, id).current == m.current + Seq::new(
            m.sigs[id as int].pending.len(),
            |i: int| crate::semantics::else_task(m.sigs[id as int].pending[i]),
        ) + Seq::new(
            m.sigs[id as int].vwaiters.len(),
            |i: int| Task { k: m.sigs[id as int].vwaiters[i], v: a },
        ),
        sem_awake(m, id).sigs[id as int].accum is None,
        sem_awake(m, id).sigs[id as int].vwaiters.len() == 0,
{
}

/// One emission folded into an accumulator: the first emission starts it,
/// later ones are combined on the right.
pub open spec fn fold_step(c: Comb, acc: Option<Val>, v: Val) -> Option<Val> {
    match acc {
        None => Some(v),
        Some(a) => comb_val(c, a, v),
    }
}

/// A whole instant's emissions folded in order.
pub open spec fn fold_emissions(c: Comb, acc: Option<Val>, vs: Seq<Val>) -> Option<Val>
    decreases vs.len(),
{
    if vs.len() == 0 {
        acc
    } else {
        fold_emissions(c, fold_step(c, acc, vs.first()), vs.drop_first())
    }
}

/// Emitting each value of `vs` in order on signal `id`, under arbitrary
/// continuations; only the accumulator is observed.
pub open spec fn emit_all(m: RtModel, id: usize, c: Comb, vs: Seq<Val>) -> RtModel
    decreases vs.len(),
{
    if vs.len() == 0 {
        m
    } else {
        emit_all(
            sem_emit_value(m, id, c, Continuation::Discard, vs.first()),
            id,
            c,
            vs.drop_first(),
        )
    }
}

/// Law: one valued emission folds its value into the accumulator with the
/// combine operator, and the emission alone decides the new accumulator
/// (an operand outside the operator's domain empties it and faults).
pub proof fn law_emit_value_folds(m: RtModel, id: usize, c: Comb, k: Continuation, v: Val)
    requires
        id < m.sigs.len(),
    ensures
        sem_emit_value(m, id, c, k, v).sigs[id as int].accum == fold_step(
            c,
            m.sigs[id as int].accum,
            v,
        ),
        sem_emit_value(m, id, c, k, v).sigs.len() == m.sigs.len(),
{
    let m1 = push_cur(sem_emit_core(m, id), Task { k, v: Val::Unit });
    assert(m1.sigs[id as int].accum == m.sigs[id as int].accum);
}

/// Law (combine well-formedness): after any sequence of emissions in one
/// instant, the accumulator holds exactly the combine-fold of the emitted
/// values, in emission order.  With an associative and commutative
/// operator the fold is the same whatever that order was.
pub proof fn law_accum_is_fold(m: RtModel, id: usize, c: Comb, vs: Seq<Val>)
    requires
        id < m.sigs.len(),
    ensures
        emit_all(m, id, c, vs).sigs[id as int].accum == fold_emissions(
            c,
            m.sigs[id as int].accum,
            vs,
        ),
    decreases vs.len(),
{
    if vs.len() == 0 {
    } else {
        law_emit_value_folds(m, id, c, Continuation::Discard, vs.first());
        law_accum_is_fold(
            sem_emit_value(m, id, c, Continuation::Discard, vs.first()),
            id,
            c,
            vs.drop_first(),
        );
    }
}

/// Wrapping addition is commutative.
pub proof fn law_add_commutes(a: Val, b: Val)
    ensures
        comb_val(Comb::Add, a, b) == comb_val(Comb::Add, b, a),
{
}

/// Wrapping addition is associative.
pub proof fn law_add_associates(a: i64, b: i64, ab: i64, x: i64)
    requires
        comb_val(Comb::Add, Val::Int(a), Val::Int(b)) == Some(Val::Int(ab)),
    ensures
        comb_val(Comb::Add, Val::Int(ab), Val::Int(x)) == (match comb_val(
            Comb::Add,
            Val::Int(b),
            Val::Int(x),
        ) {
            Some(Val::Int(bx)) => comb_val(Comb::Add, Val::Int(a), Val::Int(bx)),
            _ => None,
        }),
{
}

/// The integer behind an `Int` value; other values read as zero (the
/// folds below are only relied on over integer sequences).
pub open spec fn int_of(v: Val) -> i64 {
    match v {
        Val::Int(n) => n,
        _ => 0,
    }
}

/// Wrapping addition, the operator behind `Comb::Add`.
pub open spec fn wadd(a: i64, b: i64) -> i64 {
    vstd::wrapping::i64_specs::wrapping_add(a, b)
}

/// The larger of two integers, the operator behind `Comb::Max`.
pub open spec fn imax(a: i64, b: i64) -> i64 {
    if a >= b {
        a
    } else {
        b
    }
}

/// Every entry of the sequence is an integer value.
pub open spec fn all_ints(vs: Seq<Val>) -> bool {
    forall|i: int| 0 <= i < vs.len() ==> vs[i] is Int
}

/// An operator folded over the sequence's integers from the left,
/// starting at `acc`.
pub open spec fn op_sum_from(op: spec_fn(i64, i64) -> i64, acc: i64, vs: Seq<Val>) -> i64
    decreases vs.len(),
{
    if vs.len() == 0 {
        acc
    } else {
        op_sum_from(op, op(acc, int_of(vs.first())), vs.drop_first())
    }
}

/// What the order-independence argument needs of an operator:
/// commutativity, associativity, and a neutral element.
pub open spec fn op_well_formed(op: spec_fn(i64, i64) -> i64, zero: i64) -> bool {
    &&& forall|a: i64, b: i64| #[trigger] op(a, b) == op(b, a)
    &&& forall|a: i64, b: i64, c: i64| #[trigger] op(op(a, b), c) == op(a, op(b, c))
    &&& forall|x: i64| #[trigger] op(zero, x) == x
}

/// A fold from `acc` is `acc` combined with the fold from the neutral
/// element.
proof fn lemma_op_sum_shift(op: spec_fn(i64, i64) -> i64, zero: i64, acc: i64, vs: Seq<Val>)
    requires
        op_well_formed(op, zero),
    ensures
        op_sum_from(op, acc, vs) == op(acc, op_sum_from(op, zero, vs)),
    decreases vs.len(),
{
    if vs.len() == 0 {
        assert(op(acc, zero) == op(zero, acc));
    } else {
        let v1 = int_of(vs.first());
        let rest = vs.drop_first();
        lemma_op_sum_shift(op, zero, op(acc, v1), rest);
        lemma_op_sum_shift(op, zero, op(zero, v1), rest);
        let t = op_sum_from(op, zero, rest);
        assert(op(zero, v1) == v1);
        assert(op(op(acc, v1), t) == op(acc, op(v1, t)));
    }
}

/// The fold with entry `i` taken out, combined with that entry, is the
/// whole fold.
proof fn lemma_op_sum_remove(op: spec_fn(i64, i64) -> i64, zero: i64, vs: Seq<Val>, i: int)
    requires
        op_well_formed(op, zero),
        0 <= i < vs.len(),
    ensures
        op_sum_from(op, zero, vs) == op(int_of(vs[i]), op_sum_from(op, zero, vs.remove(i))),
    decreases i,
{
    let v0 = int_of(vs.first());
    let rest = vs.drop_first();
    lemma_op_sum_shift(op, zero, op(zero, v0), rest);
    assert(op(zero, v0) == v0);
    if i == 0 {
        assert(vs.remove(0) =~= rest);
    } else {
        lemma_op_sum_remove(op, zero, rest, i - 1);
        assert(vs.remove(i).drop_first() =~= rest.remove(i - 1));
        assert(vs.remove(i).first() == vs.first());
        lemma_op_sum_shift(op, zero, op(zero, v0), rest.remove(i - 1));
        let x = int_of(vs[i]);
        let t = op_sum_from(op, zero, rest.remove(i - 1));
        assert(rest[i - 1] == vs[i]);
        assert(op(v0, op(x, t)) == op(op(v0, x), t));
        assert(op(v0, x) == op(x, v0));
        assert(op(op(x, v0), t) == op(x, op(v0, t)));
    }
}

/// The fold of a sequence depends only on its multiset of entries.
proof fn lemma_op_sum_permutes(
    op: spec_fn(i64, i64) -> i64,
    zero: i64,
    vs1: Seq<Val>,
    vs2: Seq<Val>,
)
    requires
        op_well_formed(op, zero),
        vs1.to_multiset() == vs2.to_multiset(),
    ensures
        op_sum_from(op, zero, vs1) == op_sum_from(op, zero, vs2),
    decreases vs1.len(),
{
    broadcast use vstd::seq_lib::group_to_multiset_ensures;

    vs1.to_multiset_ensures();
    vs2.to_multiset_ensures();
    if vs1.len() == 0 {
        assert(vs2.len() == 0);
    } else {
        let x = vs1.first();
        assert(vs1.to_multiset().count(x) > 0);
        assert(vs2.contains(x));
        let i = choose|i: int| 0 <= i < vs2.len() && vs2[i] == x;
        assert(vs1.remove(0).to_multiset() =~= vs1.to_multiset().remove(x));
        assert(vs2.remove(i).to_multiset() =~= vs2.to_multiset().remove(x));
        assert(vs1.remove(0) =~= vs1.drop_first());
        lemma_op_sum_permutes(op, zero, vs1.drop_first(), vs2.remove(i));
        lemma_op_sum_remove(op, zero, vs1, 0);
        lemma_op_sum_remove(op, zero, vs2, i);
    }
}

/// The fold of a whole instant's integer emissions under one combine
/// operator is that operator's fold of their integers.
proof fn lemma_fold_is_op_sum(
    c: Comb,
    op: spec_fn(i64, i64) -> i64,
    acc: i64,
    vs: Seq<Val>,
)
    requires
        all_ints(vs),
        forall|a: i64, b: i64|
            comb_val(c, Val::Int(a), Val::Int(b)) == Some(Val::Int(#[trigger] op(a, b))),
    ensures
        fold_emissions(c, Some(Val::Int(acc)), vs) == Some(Val::Int(op_sum_from(op, acc, vs))),
    decreases vs.len(),
{
    if vs.len() > 0 {
        assert(vs.first() is Int);
        let v1 = int_of(vs.first());
        assert(vs.first() == Val::Int(v1));
        assert(comb_val(c, Val::Int(acc), Val::Int(v1)) == Some(Val::Int(op(acc, v1))));
        assert(forall|i: int|
            0 <= i < vs.drop_first().len() ==> vs.drop_first()[i] == vs[i + 1]);
        lemma_fold_is_op_sum(c, op, op(acc, v1), vs.drop_first());
    }
}

/// Order-independence of the fold under any commutative, associative
/// combine operator on integers.
proof fn lemma_fold_order_free(
    c: Comb,
    op: spec_fn(i64, i64) -> i64,
    zero: i64,
    vs1: Seq<Val>,
    vs2: Seq<Val>,
)
    requires
        op_well_formed(op, zero),
        forall|a: i64, b: i64|
            comb_val(c, Val::Int(a), Val::Int(b)) == Some(Val::Int(#[trigger] op(a, b))),
        all_ints(vs1),
        all_ints(vs2),
        vs1.to_multiset() == vs2.to_multiset(),
    ensures
        fold_emissions(c, None, vs1) == fold_emissions(c, None, vs2),
{
    broadcast use vstd::seq_lib::group_to_multiset_ensures;

    vs1.to_multiset_ensures();
    vs2.to_multiset_ensures();
    if vs1.len() == 0 {
        assert(vs2.len() == 0);
    } else {
        assert(vs2.len() > 0);
        let a1 = int_of(vs1.first());
        let a2 = int_of(vs2.first());
        assert(vs1.first() == Val::Int(a1) && vs2.first() == Val::Int(a2));
        lemma_fold_is_op_sum(c, op, a1, vs1.drop_first());
        lemma_fold_is_op_sum(c, op, a2, vs2.drop_first());
        lemma_op_sum_shift(op, zero, a1, vs1.drop_first());
        lemma_op_sum_shift(op, zero, a2, vs2.drop_first());
        lemma_op_sum_remove(op, zero, vs1, 0);
        lemma_op_sum_remove(op, zero, vs2, 0);
        assert(vs1.remove(0) =~= vs1.drop_first());
        assert(vs2.remove(0) =~= vs2.drop_first());
        lemma_op_sum_permutes(op, zero, vs1, vs2);
    }
}

/// Law (combine order-independence, addition): under the associative and
/// commutative wrapping addition, the value accumulated from an instant's
/// emissions depends only on the multiset of emitted values, never on the
/// order the emitters ran in.  Together with `law_accum_is_fold` this is
/// the combine-reduction promise for value awaiters.
pub proof fn law_add_fold_order_free(vs1: Seq<Val>, vs2: Seq<Val>)
    requires
        all_ints(vs1),
        all_ints(vs2),
        vs1.to_multiset() == vs2.to_multiset(),
    ensures
        fold_emissions(Comb::Add, None, vs1) == fold_emissions(Comb::Add, None, vs2),
{
    let op = |a: i64, b: i64| wadd(a, b);
    assert forall|a: i64, b: i64| #[trigger] op(a, b) == op(b, a) by {}
    assert forall|a: i64, b: i64, c: i64| #[trigger] op(op(a, b), c) == op(a, op(b, c)) by {}
    assert forall|x: i64| #[trigger] op(0i64, x) == x by {}
    assert forall|a: i64, b: i64|
        comb_val(Comb::Add, Val::Int(a), Val::Int(b)) == Some(Val::Int(#[trigger] op(a, b))) by {}
    lemma_fold_order_free(Comb::Add, op, 0i64, vs1, vs2);
}

/// Law (combine order-independence, maximum): the same order-independence
/// for the crate's other associative and commutative operator.
pub proof fn law_max_fold_order_free(vs1: Seq<Val>, vs2: Seq<Val>)
    requires
        all_ints(vs1),
        all_ints(vs2),
        vs1.to_multiset() == vs2.to_multiset(),
    ensures
        fold_emissions(Comb::Max, None, vs1) == fold_emissions(Comb::Max, None, vs2),
{
    let op = |a: i64, b: i64| imax(a, b);
    assert forall|a: i64, b: i64| #[trigger] op(a, b) == op(b, a) by {}
    assert forall|a: i64, b: i64, c: i64| #[trigger] op(op(a, b), c) == op(a, op(b, c)) by {}
    assert forall|x: i64| #[trigger] op(i64::MIN, x) == x by {}
    assert forall|a: i64, b: i64|
        comb_val(Comb::Max, Val::Int(a), Val::Int(b)) == Some(Val::Int(#[trigger] op(a, b))) by {}
    lemma_fold_order_free(Comb::Max, op, i64::MIN, vs1, vs2);
}

/// Law: one whole instant leads to exactly one state — the scheduler's
/// semantics is deterministic.
pub proof fn law_instant_deterministic(m: RtModel, r1: RtModel, r2: RtModel)
    requires
        instant_sem(m, r1),
        instant_sem(m, r2),
    ensures
        r1 == r2,
{
    let (n1, n2) = choose|n1: nat, n2: nat| instant_runs(m, n1, n2, r1);
    let (p1, p2) = choose|p1: nat, p2: nat| instant_runs(m, p1, p2, r2);
    lemma_steps_cur_confluent(m, n1, p1);
    let a = steps_cur(m, n1);
    lemma_steps_eoi_confluent(promote(a), n2, p2);
}

/// Draining stalls once the current queue is empty: any two fuels that
/// both reach empty reach the same state.
proof fn lemma_steps_cur_confluent(m: RtModel, n1: nat, n2: nat)
    requires
        steps_cur(m, n1).current.len() == 0,
        steps_cur(m, n2).current.len() == 0,
    ensures
        steps_cur(m, n1) == steps_cur(m, n2),
{
    if n1 <= n2 {
        lemma_steps_cur_stall(m, n1, n2);
    } else {
        lemma_steps_cur_stall(m, n2, n1);
    }
}

/// Once the current queue is empty, further steps change nothing.
proof fn lemma_steps_cur_stall(m: RtModel, n1: nat, n2: nat)
    requires
        n1 <= n2,
        steps_cur(m, n1).current.len() == 0,
    ensures
        steps_cur(m, n2) == steps_cur(m, n1),
    decreases n2 - n1,
{
    if n2 > n1 {
        lemma_steps_cur_unfold_back(m, n2);
        lemma_steps_cur_stall(m, n1, (n2 - 1) as nat);
    }
}

/// `n + 1` steps are one step after `n` steps.
proof fn lemma_steps_cur_unfold_back(m: RtModel, n: nat)
    requires
        n > 0,
    ensures
        steps_cur(m, n) == step_cur(steps_cur(m, (n - 1) as nat)),
{
}

/// Draining the end-of-instant queue stalls once it is empty.
proof fn lemma_steps_eoi_confluent(m: RtModel, n1: nat, n2: nat)
    requires
        steps_eoi(m, n1).endof.len() == 0,
        steps_eoi(m, n2).endof.len() == 0,
    ensures
        steps_eoi(m, n1) == steps_eoi(m, n2),
{
    if n1 <= n2 {
        lemma_steps_eoi_stall(m, n1, n2);
    } else {
        lemma_steps_eoi_stall(m, n2, n1);
    }
}

/// Once the end-of-instant queue is empty, further steps change nothing.
proof fn lemma_steps_eoi_stall(m: RtModel, n1: nat, n2: nat)
    requires
        n1 <= n2,
        steps_eoi(m, n1).endof.len() == 0,
    ensures
        steps_eoi(m, n2) == steps_eoi(m, n1),
    decreases n2 - n1,
{
    if n2 > n1 {
        lemma_steps_eoi_stall(m, n1, (n2 - 1) as nat);
    }
}

} // verus!
