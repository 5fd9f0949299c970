//! The instant scheduler.
//!
//! [`SeqRuntime`] owns three task queues (`current`, `next`, `endof`), the
//! signal and join-point tables, the overall result and the trace log.  Its
//! methods are verified to implement, step for step, the semantics of
//! [`crate::semantics`]: resuming one task is exactly [`sem_resume`], one
//! whole instant is exactly [`instant_sem`].
//!
//! [`ParRuntime`] is the same state shared by the parallel variant's
//! workers; the threads (which live outside this library) take turns on it
//! under a lock, calling the same verified steps.

use vstd::prelude::*;

use std::collections::VecDeque;

use crate::arrow::Arrow;
use crate::arrow::Val;
use crate::semantics::Continuation;
use crate::semantics::Entry;
use crate::semantics::JoinPoint;
use crate::semantics::JoinSlot;
use crate::semantics::PresentPair;
use crate::semantics::RtModel;
use crate::semantics::SigModel;
use crate::semantics::Task;
use crate::semantics::else_task;
use crate::semantics::empty_sig;
use crate::semantics::finish_runs;
use crate::semantics::finish_sem;
use crate::semantics::grow_sigs;
use crate::semantics::init_model;
use crate::semantics::instant_runs;
use crate::semantics::instant_sem;
use crate::semantics::promote;
use crate::semantics::push_cur;
use crate::semantics::run_steps;
use crate::semantics::sem_awake;
use crate::semantics::sem_awake_reg;
use crate::semantics::sem_emit_core;
use crate::semantics::sem_join_a;
use crate::semantics::sem_join_b;
use crate::semantics::sem_resume;
use crate::semantics::start_task;
use crate::semantics::step_cur;
use crate::semantics::step_eoi;
use crate::semantics::steps_cur;
use crate::semantics::steps_eoi;
use crate::semantics::then_task;
use crate::semantics::tick;

verus! {

/// The instant-scoped state of one signal, as the runtime stores it.
#[derive(Debug)]
pub struct SigState {
    pub emitted: bool,
    pub awaken: bool,
    pub waiters: VecDeque<Task>,
    pub pending: VecDeque<PresentPair>,
    pub accum: Option<Val>,
    pub vwaiters: VecDeque<Continuation>,
}

/// What a stored signal state stands for.
pub open spec fn sig_model(s: SigState) -> SigModel {
    SigModel {
        emitted: s.emitted,
        awaken: s.awaken,
        waiters: s.waiters@,
        pending: s.pending@,
        accum: s.accum,
        vwaiters: s.vwaiters@,
    }
}

/// What a stored signal table stands for.
pub open spec fn sigs_model(v: Seq<SigState>) -> Seq<SigModel> {
    Seq::new(v.len(), |i: int| sig_model(v[i]))
}

proof fn lemma_remove_insert<T>(s: Seq<T>, i: int, x: T)
    requires
        0 <= i < s.len(),
    ensures
        s.remove(i).insert(i, x) == s.update(i, x),
{
    assert(s.remove(i).insert(i, x) =~= s.update(i, x));
}

proof fn lemma_sigs_model_update(v: Seq<SigState>, i: int, x: SigState)
    requires
        0 <= i < v.len(),
    ensures
        sigs_model(v.update(i, x)) == sigs_model(v).update(i, sig_model(x)),
{
    assert(sigs_model(v.update(i, x)) =~= sigs_model(v).update(i, sig_model(x)));
}

proof fn lemma_sigs_model_push(v: Seq<SigState>, x: SigState)
    ensures
        sigs_model(v.push(x)) == sigs_model(v).push(sig_model(x)),
{
    assert(sigs_model(v.push(x)) =~= sigs_model(v).push(sig_model(x)));
}

impl SigState {
    /// The state of a freshly created signal: nothing emitted, nothing
    /// parked, no hook registered.
    pub fn new() -> (r: SigState)
        ensures
            sig_model(r) == empty_sig(),
    {
        let r = SigState {
            emitted: false,
            awaken: false,
            waiters: VecDeque::new(),
            pending: VecDeque::new(),
            accum: None,
            vwaiters: VecDeque::new(),
        };
        proof {
            assert(sig_model(r) =~= empty_sig());
        }
        r
    }
}

/// The scheduling interface every runtime offers its programs: enqueue a
/// task for the current instant, for the next instant, or for the
/// end-of-instant phase.
pub trait Runtime {
    /// The mathematical state of the scheduler behind this handle.
    spec fn rt_model(&self) -> RtModel;

    /// Enqueue a task at the tail of the current instant's queue.
    fn on_current_instant(&mut self, t: Task)
        ensures
            final(self).rt_model() == push_cur(old(self).rt_model(), t),
    ;

    /// Enqueue a task at the tail of the next instant's queue.
    fn on_next_instant(&mut self, t: Task)
        ensures
            final(self).rt_model() == crate::semantics::push_next(old(self).rt_model(), t),
    ;

    /// Enqueue a task at the tail of the end-of-instant queue.
    fn on_end_of_instant(&mut self, t: Task)
        ensures
            final(self).rt_model() == crate::semantics::push_endof(old(self).rt_model(), t),
    ;
}

/// The sequential runtime: the single-threaded owner of the three queues
/// and of all signal and join state.
#[derive(Debug)]
pub struct SeqRuntime {
    /// Work of the current instant, in execution order.
    pub current: VecDeque<Task>,
    /// Work of the next instant.
    pub next: VecDeque<Task>,
    /// Work to run after `current` drains, before the instant transition.
    pub endof: VecDeque<Task>,
    /// Signal states, addressed by the index in each signal handle.
    pub sigs: Vec<SigState>,
    /// Join points, allocated by `product` dispatches.
    pub joins: Vec<JoinPoint>,
    /// The overall result, once some task finishes.
    pub result: Option<Val>,
    /// Set when a task violated a runtime invariant.
    pub fault: bool,
    /// Everything traced so far.
    pub log: Vec<Entry>,
    /// The number of completed instants.
    pub now: u64,
}

impl SeqRuntime {
    /// The mathematical state this runtime is in.
    pub open spec fn model(&self) -> RtModel {
        RtModel {
            current: self.current@,
            next: self.next@,
            endof: self.endof@,
            sigs: sigs_model(self.sigs@),
            joins: self.joins@,
            result: self.result,
            fault: self.fault,
            log: self.log@,
            now: self.now,
        }
    }

    /// A fresh runtime with empty queues and tables.
    pub fn new() -> (r: SeqRuntime)
        ensures
            r.model() == init_model(),
    {
        let r = SeqRuntime {
            current: VecDeque::new(),
            next: VecDeque::new(),
            endof: VecDeque::new(),
            sigs: Vec::new(),
            joins: Vec::new(),
            result: None,
            fault: false,
            log: Vec::new(),
            now: 0,
        };
        proof {
            assert(sigs_model(r.sigs@) =~= init_model().sigs);
            assert(r.model() =~= init_model());
        }
        r
    }

    /// Pad the signal table so that index `id` exists.
    pub(crate) fn ensure_sig(&mut self, id: usize)
        ensures
            final(self).model() == grow_sigs(old(self).model(), (id + 1) as nat),
    {
        let ghost m0 = self.model();
        while self.sigs.len() <= id
            invariant
                self.model() == grow_sigs(m0, self.sigs@.len() as nat),
                m0.sigs.len() <= self.sigs@.len(),
                self.sigs@.len() <= id + 1 || self.sigs@.len() == m0.sigs.len(),
            decreases id + 1 - self.sigs.len(),
        {
            let ghost prev = self.sigs@;
            let stn = SigState::new();
            let ghost gm = sig_model(stn);
            self.sigs.push(stn);
            proof {
                lemma_sigs_model_push(prev, stn);
                assert(sigs_model(prev).push(gm) =~= grow_sigs(m0, self.sigs@.len() as nat).sigs);
                assert(self.model() =~= grow_sigs(m0, self.sigs@.len() as nat));
            }
        }
        proof {
            if m0.sigs.len() >= id + 1 {
                assert(self.model() =~= grow_sigs(m0, (id + 1) as nat));
            } else {
                assert(self.sigs@.len() == id + 1);
            }
        }
    }

    /// Register the end-of-instant hook of signal `id`, once per instant.
    fn awake_reg(&mut self, id: usize)
        requires
            id < old(self).sigs@.len(),
        ensures
            final(self).model() == sem_awake_reg(old(self).model(), id),
            final(self).sigs@.len() == old(self).sigs@.len(),
    {
        let ghost m0 = self.model();
        if self.sigs[id].awaken {
            return ;
        }
        let mut st = self.sigs.remove(id);
        st.awaken = true;
        self.sigs.insert(id, st);
        self.endof.push_back(Task { k: Continuation::Awake(id), v: Val::Unit });
        proof {
            lemma_remove_insert(old(self).sigs@, id as int, self.sigs@[id as int]);
            lemma_sigs_model_update(old(self).sigs@, id as int, self.sigs@[id as int]);
            assert(self.sigs@ =~= old(self).sigs@.update(id as int, self.sigs@[id as int]));
            assert(sig_model(self.sigs@[id as int]) =~= SigModel {
                awaken: true,
                ..m0.sigs[id as int]
            });
            assert(self.model() =~= sem_awake_reg(m0, id));
        }
    }

    /// Hand a value to the left slot of join point `j`.
    fn join_a(&mut self, j: usize, v: Val)
        ensures
            final(self).model() == sem_join_a(old(self).model(), j, v),
    {
        let ghost m0 = self.model();
        if j >= self.joins.len() {
            self.fault = true;
            proof {
                assert(self.model() =~= sem_join_a(m0, j, v));
            }
            return ;
        }
        let jp = self.joins.remove(j);
        match jp.slot {
            JoinSlot::Vacant => {
                self.joins.insert(j, JoinPoint { slot: JoinSlot::A(v), k: jp.k });
                proof {
                    lemma_remove_insert(m0.joins, j as int, self.joins@[j as int]);
                    assert(self.model() =~= sem_join_a(m0, j, v));
                }
            },
            JoinSlot::B(d) => {
                match jp.k {
                    Some(kk) => {
                        self.joins.insert(j, JoinPoint { slot: JoinSlot::Used, k: None });
                        self.current.push_back(
                            Task { k: kk, v: Val::Pair(Box::new(v), Box::new(d)) },
                        );
                        proof {
                            lemma_remove_insert(m0.joins, j as int, self.joins@[j as int]);
                            assert(self.model() =~= sem_join_a(m0, j, v));
                        }
                    },
                    None => {
                        self.joins.insert(j, JoinPoint { slot: JoinSlot::B(d), k: None });
                        self.fault = true;
                        proof {
                            lemma_remove_insert(m0.joins, j as int, self.joins@[j as int]);
                            assert(m0.joins.update(j as int, self.joins@[j as int]) =~= m0.joins);
                            assert(self.model() =~= sem_join_a(m0, j, v));
                        }
                    },
                }
            },
            JoinSlot::A(c) => {
                self.joins.insert(j, JoinPoint { slot: JoinSlot::A(c), k: jp.k });
                self.fault = true;
                proof {
                    lemma_remove_insert(m0.joins, j as int, self.joins@[j as int]);
                    assert(m0.joins.update(j as int, self.joins@[j as int]) =~= m0.joins);
                    assert(self.model() =~= sem_join_a(m0, j, v));
                }
            },
            JoinSlot::Used => {
                self.joins.insert(j, JoinPoint { slot: JoinSlot::Used, k: jp.k });
                self.fault = true;
                proof {
                    lemma_remove_insert(m0.joins, j as int, self.joins@[j as int]);
                    assert(m0.joins.update(j as int, self.joins@[j as int]) =~= m0.joins);
                    assert(self.model() =~= sem_join_a(m0, j, v));
                }
            },
        }
    }

    /// Hand a value to the right slot of join point `j`.
    fn join_b(&mut self, j: usize, v: Val)
        ensures
            final(self).model() == sem_join_b(old(self).model(), j, v),
    {
        let ghost m0 = self.model();
        if j >= self.joins.len() {
            self.fault = true;
            proof {
                assert(self.model() =~= sem_join_b(m0, j, v));
            }
            return ;
        }
        let jp = self.joins.remove(j);
        match jp.slot {
            JoinSlot::Vacant => {
                self.joins.insert(j, JoinPoint { slot: JoinSlot::B(v), k: jp.k });
                proof {
                    lemma_remove_insert(m0.joins, j as int, self.joins@[j as int]);
                    assert(self.model() =~= sem_join_b(m0, j, v));
                }
            },
            JoinSlot::A(c) => {
                match jp.k {
                    Some(kk) => {
                        self.joins.insert(j, JoinPoint { slot: JoinSlot::Used, k: None });
                        self.current.push_back(
                            Task { k: kk, v: Val::Pair(Box::new(c), Box::new(v)) },
                        );
                        proof {
                            lemma_remove_insert(m0.joins, j as int, self.joins@[j as int]);
                            assert(self.model() =~= sem_join_b(m0, j, v));
                        }
                    },
                    None => {
                        self.joins.insert(j, JoinPoint { slot: JoinSlot::A(c), k: None });
                        self.fault = true;
                        proof {
                            lemma_remove_insert(m0.joins, j as int, self.joins@[j as int]);
                            assert(m0.joins.update(j as int, self.joins@[j as int]) =~= m0.joins);
                            assert(self.model() =~= sem_join_b(m0, j, v));
                        }
                    },
                }
            },
            JoinSlot::B(d) => {
                self.joins.insert(j, JoinPoint { slot: JoinSlot::B(d), k: jp.k });
                self.fault = true;
                proof {
                    lemma_remove_insert(m0.joins, j as int, self.joins@[j as int]);
                    assert(m0.joins.update(j as int, self.joins@[j as int]) =~= m0.joins);
                    assert(self.model() =~= sem_join_b(m0, j, v));
                }
            },
            JoinSlot::Used => {
                self.joins.insert(j, JoinPoint { slot: JoinSlot::Used, k: jp.k });
                self.fault = true;
                proof {
                    lemma_remove_insert(m0.joins, j as int, self.joins@[j as int]);
                    assert(m0.joins.update(j as int, self.joins@[j as int]) =~= m0.joins);
                    assert(self.model() =~= sem_join_b(m0, j, v));
                }
            },
        }
    }

    /// The presence-setting part of an emission on signal `id`: on the
    /// first emit of the instant, wake every parked immediate waiter and
    /// every pending `then` branch onto the current queue and register the
    /// end-of-instant hook.
    pub(crate) fn emit_core(&mut self, id: usize)
        requires
            id < old(self).sigs@.len(),
        ensures
            final(self).model() == sem_emit_core(old(self).model(), id),
            final(self).sigs@.len() == old(self).sigs@.len(),
    {
        let ghost m0 = self.model();
        if self.sigs[id].emitted {
            return ;
        }
        let ghost sigs0 = self.sigs@;
        let mut st = self.sigs.remove(id);
        let ghost s0 = sig_model(st);
        st.emitted = true;
        self.current.append(&mut st.waiters);
        let ghost cur0 = self.current@;
        let ghost pend0 = st.pending@;
        let ghost mut i: int = 0;
        let ghost sigs_mid = self.sigs@;
        while st.pending.len() > 0
            invariant
                0 <= i <= pend0.len(),
                st.pending@ == pend0.subrange(i, pend0.len() as int),
                self.current@ == cur0 + Seq::new(i as nat, |j: int| then_task(pend0[j])),
                st.emitted == true,
                st.awaken == s0.awaken,
                st.accum == s0.accum,
                st.waiters@.len() == 0,
                st.vwaiters@ == s0.vwaiters,
                self.sigs@ == sigs_mid,
                self.next@ == m0.next,
                self.endof@ == m0.endof,
                self.joins@ == m0.joins,
                self.result == m0.result,
                self.fault == m0.fault,
                self.log@ == m0.log,
                self.now == m0.now,
            decreases st.pending.len(),
        {
            let ghost pend_pre = st.pending@;
            let p = st.pending.pop_front().unwrap();
            self.current.push_back(
                Task { k: Continuation::Then(Box::new(p.ifp), Box::new(p.k)), v: p.v },
            );
            proof {
                assert(p == pend0[i]);
                i = i + 1;
                assert(st.pending@ =~= pend0.subrange(i, pend0.len() as int));
                assert(self.current@ =~= cur0 + Seq::new(i as nat, |j: int| then_task(pend0[j])));
            }
        }
        proof {
            assert(i == pend0.len());
        }
        let ghost st_final = sig_model(st);
        self.sigs.insert(id, st);
        proof {
            lemma_remove_insert(sigs0, id as int, sigs0[id as int]);
            assert(self.sigs@ =~= sigs0.update(id as int, self.sigs@[id as int]));
            lemma_sigs_model_update(sigs0, id as int, self.sigs@[id as int]);
            assert(st_final =~= SigModel {
                emitted: true,
                waiters: Seq::empty(),
                pending: Seq::empty(),
                ..s0
            });
            assert(self.model() =~= RtModel {
                current: m0.current + s0.waiters + Seq::new(
                    s0.pending.len(),
                    |j: int| then_task(s0.pending[j]),
                ),
                sigs: m0.sigs.update(
                    id as int,
                    SigModel { emitted: true, waiters: Seq::empty(), pending: Seq::empty(), ..s0 },
                ),
                ..m0
            });
        }
        let ghost m_mid = self.model();
        self.awake_reg(id);
        proof {
            assert(self.model() == sem_awake_reg(m_mid, id));
            assert(self.model() =~= sem_emit_core(m0, id));
        }
    }

    /// The end-of-instant hook of signal `id`: reset the instant-scoped
    /// state, drop parked immediate waiters, schedule every undecided
    /// `present` test's else branch, and deliver an accumulated value to
    /// the value-awaiters.
    fn awake(&mut self, id: usize)
        ensures
            final(self).model() == sem_awake(old(self).model(), id),
    {
        let ghost m0 = self.model();
        if id >= self.sigs.len() {
            self.fault = true;
            proof {
                assert(self.model() =~= sem_awake(m0, id));
            }
            return ;
        }
        let ghost sigs0 = self.sigs@;
        let mut st = self.sigs.remove(id);
        let ghost s0 = sig_model(st);
        st.emitted = false;
        st.awaken = false;
        st.waiters.clear();
        let ghost cur0 = self.current@;
        let ghost pend0 = st.pending@;
        let ghost mut i: int = 0;
        let ghost sigs_mid = self.sigs@;
        while st.pending.len() > 0
            invariant
                0 <= i <= pend0.len(),
                st.pending@ == pend0.subrange(i, pend0.len() as int),
                self.current@ == cur0 + Seq::new(i as nat, |j: int| else_task(pend0[j])),
                st.emitted == false,
                st.awaken == false,
                st.accum == s0.accum,
                st.waiters@.len() == 0,
                st.vwaiters@ == s0.vwaiters,
                self.sigs@ == sigs_mid,
                self.next@ == m0.next,
                self.endof@ == m0.endof,
                self.joins@ == m0.joins,
                self.result == m0.result,
                self.fault == m0.fault,
                self.log@ == m0.log,
                self.now == m0.now,
            decreases st.pending.len(),
        {
            let p = st.pending.pop_front().unwrap();
            self.current.push_back(
                Task { k: Continuation::Then(Box::new(p.ifn), Box::new(p.k)), v: p.v },
            );
            proof {
                assert(p == pend0[i]);
                i = i + 1;
                assert(st.pending@ =~= pend0.subrange(i, pend0.len() as int));
                assert(self.current@ =~= cur0 + Seq::new(i as nat, |j: int| else_task(pend0[j])));
            }
        }
        let ghost cur1 = self.current@;
        let ghost vw0 = st.vwaiters@;
        match st.accum.take() {
            Some(a) => {
                let ghost mut w: int = 0;
                while st.vwaiters.len() > 0
                    invariant
                        0 <= w <= vw0.len(),
                        st.vwaiters@ == vw0.subrange(w, vw0.len() as int),
                        self.current@ == cur1 + Seq::new(w as nat, |j: int| Task { k: vw0[j], v: a }),
                        st.emitted == false,
                        st.awaken == false,
                        st.accum is None,
                        st.waiters@.len() == 0,
                        st.pending@.len() == 0,
                        self.sigs@ == sigs_mid,
                        self.next@ == m0.next,
                        self.endof@ == m0.endof,
                        self.joins@ == m0.joins,
                        self.result == m0.result,
                        self.fault == m0.fault,
                        self.log@ == m0.log,
                        self.now == m0.now,
                    decreases st.vwaiters.len(),
                {
                    let kk = st.vwaiters.pop_front().unwrap();
                    let av = a.dup();
                    self.current.push_back(Task { k: kk, v: av });
                    proof {
                        assert(kk == vw0[w]);
                        w = w + 1;
                        assert(st.vwaiters@ =~= vw0.subrange(w, vw0.len() as int));
                        assert(self.current@ =~= cur1 + Seq::new(
                            w as nat,
                            |j: int| Task { k: vw0[j], v: a },
                        ));
                    }
                }
                proof {
                    assert(w == vw0.len());
                }
            },
            None => {},
        }
        let ghost st_final = sig_model(st);
        self.sigs.insert(id, st);
        proof {
            lemma_remove_insert(sigs0, id as int, sigs0[id as int]);
            assert(self.sigs@ =~= sigs0.update(id as int, self.sigs@[id as int]));
            lemma_sigs_model_update(sigs0, id as int, self.sigs@[id as int]);
            assert(st_final =~= SigModel {
                emitted: false,
                awaken: false,
                waiters: Seq::empty(),
                pending: Seq::empty(),
                accum: None,
                vwaiters: if s0.accum is Some {
                    Seq::empty()
                } else {
                    s0.vwaiters
                },
            });
            assert(self.current@ =~= m0.current + Seq::new(
                s0.pending.len(),
                |j: int| else_task(s0.pending[j]),
            ) + (match s0.accum {
                Some(a) => Seq::new(s0.vwaiters.len(), |j: int| Task { k: s0.vwaiters[j], v: a }),
                None => Seq::empty(),
            }));
            assert(self.model() =~= sem_awake(m0, id));
        }
    }

    /// Drive value `v` into arrow `p` with continuation `k`: one dispatch
    /// step of the combinator algebra, exactly [`sem_dispatch`].
    pub fn dispatch(&mut self, p: Arrow, k: Continuation, v: Val)
        ensures
            final(self).model() == crate::semantics::sem_dispatch(old(self).model(), p, k, v),
    {
        proof {
            reveal(crate::semantics::sem_dispatch);
        }
        let ghost m0 = self.model();
        let ghost gp = p;
        let ghost gk = k;
        let ghost gv = v;
        match p {
            Arrow::Identity => {
                self.current.push_back(Task { k, v });
                proof {
                    assert(self.model() =~= crate::semantics::sem_dispatch(m0, gp, gk, gv));
                }
            },
            Arrow::Value(c) => {
                self.current.push_back(Task { k, v: *c });
                proof {
                    assert(self.model() =~= crate::semantics::sem_dispatch(m0, gp, gk, gv));
                }
            },
            Arrow::Apply(f) => {
                let (r, out) = f.apply(v);
                match out {
                    Some(o) => {
                        self.log.push(Entry { at: self.now, val: o });
                    },
                    None => {},
                }
                self.current.push_back(Task { k, v: r });
                proof {
                    assert(self.model() =~= crate::semantics::sem_dispatch(m0, gp, gk, gv));
                }
            },
            Arrow::Pause => {
                self.next.push_back(Task { k, v });
                proof {
                    assert(self.model() =~= crate::semantics::sem_dispatch(m0, gp, gk, gv));
                }
            },
            Arrow::Bind(x, y) => {
                self.current.push_back(
                    Task {
                        k: Continuation::Then(x, Box::new(Continuation::Then(y, Box::new(k)))),
                        v,
                    },
                );
                proof {
                    assert(self.model() =~= crate::semantics::sem_dispatch(m0, gp, gk, gv));
                }
            },
            Arrow::Flatten(x) => {
                self.current.push_back(
                    Task { k: Continuation::Then(x, Box::new(Continuation::Flat(Box::new(k)))), v },
                );
                proof {
                    assert(self.model() =~= crate::semantics::sem_dispatch(m0, gp, gk, gv));
                }
            },
            Arrow::Fixpoint(x) => {
                self.current.push_back(
                    Task { k: Continuation::Loop(x, Box::new(k)), v: Val::Inl(Box::new(v)) },
                );
                proof {
                    assert(self.model() =~= crate::semantics::sem_dispatch(m0, gp, gk, gv));
                }
            },
            Arrow::SeqProd(x, y) => {
                match v {
                    Val::Pair(a, b) => {
                        self.current.push_back(
                            Task {
                                k: Continuation::Then(
                                    x,
                                    Box::new(Continuation::SeqMid(y, b, Box::new(k))),
                                ),
                                v: *a,
                            },
                        );
                    },
                    _ => {
                        self.fault = true;
                    },
                }
                proof {
                    assert(self.model() =~= crate::semantics::sem_dispatch(m0, gp, gk, gv));
                }
            },
            Arrow::Product(x, y) => {
                match v {
                    Val::Pair(a, b) => {
                        let j = self.joins.len();
                        self.joins.push(JoinPoint { slot: JoinSlot::Vacant, k: Some(k) });
                        self.current.push_back(
                            Task {
                                k: Continuation::Then(x, Box::new(Continuation::JoinA(j))),
                                v: *a,
                            },
                        );
                        self.current.push_back(
                            Task {
                                k: Continuation::Then(y, Box::new(Continuation::JoinB(j))),
                                v: *b,
                            },
                        );
                    },
                    _ => {
                        self.fault = true;
                    },
                }
                proof {
                    assert(self.model() =~= crate::semantics::sem_dispatch(m0, gp, gk, gv));
                }
            },
            Arrow::Fork(x) => {
                let vc = v.dup();
                self.current.push_back(
                    Task { k: Continuation::Then(x, Box::new(Continuation::Discard)), v: vc },
                );
                self.current.push_back(Task { k, v });
                proof {
                    assert(self.model() =~= crate::semantics::sem_dispatch(m0, gp, gk, gv));
                }
            },
            Arrow::EmitPure(id) => {
                self.ensure_sig(id);
                proof {
                    assert(self.model().sigs.len() >= id + 1);
                    assert(self.sigs@.len() > id);
                }
                self.emit_core(id);
                self.current.push_back(Task { k, v: Val::Unit });
                proof {
                    assert(self.model() =~= crate::semantics::sem_dispatch(m0, gp, gk, gv));
                }
            },
            Arrow::AwaitImmediate(id) => {
                self.ensure_sig(id);
                proof {
                    assert(self.model().sigs.len() >= id + 1);
                    assert(self.sigs@.len() > id);
                }
                let ghost m1 = self.model();
                if self.sigs[id].emitted {
                    self.current.push_back(Task { k, v });
                    proof {
                        assert(self.model() =~= crate::semantics::sem_dispatch(m0, gp, gk, gv));
                    }
                } else {
                    let ghost sigs1 = self.sigs@;
                    let mut st = self.sigs.remove(id);
                    st.waiters.push_back(Task { k, v });
                    self.sigs.insert(id, st);
                    proof {
                        lemma_remove_insert(sigs1, id as int, sigs1[id as int]);
                        assert(self.sigs@ =~= sigs1.update(id as int, self.sigs@[id as int]));
                        lemma_sigs_model_update(sigs1, id as int, self.sigs@[id as int]);
                        assert(sig_model(self.sigs@[id as int]) =~= SigModel {
                            waiters: m1.sigs[id as int].waiters.push(Task { k: gk, v: gv }),
                            ..m1.sigs[id as int]
                        });
                    }
                    let ghost m2 = self.model();
                    self.awake_reg(id);
                    proof {
                        assert(self.model() == sem_awake_reg(m2, id));
                        assert(self.model() =~= crate::semantics::sem_dispatch(m0, gp, gk, gv));
                    }
                }
            },
            Arrow::Present(id, x, y) => {
                self.ensure_sig(id);
                proof {
                    assert(self.model().sigs.len() >= id + 1);
                    assert(self.sigs@.len() > id);
                }
                let ghost m1 = self.model();
                if self.sigs[id].emitted {
                    self.current.push_back(
                        Task { k: Continuation::Then(x, Box::new(k)), v },
                    );
                    proof {
                        assert(self.model() =~= crate::semantics::sem_dispatch(m0, gp, gk, gv));
                    }
                } else {
                    let ghost sigs1 = self.sigs@;
                    let mut st = self.sigs.remove(id);
                    st.pending.push_back(PresentPair { ifp: *x, ifn: *y, v, k });
                    self.sigs.insert(id, st);
                    proof {
                        lemma_remove_insert(sigs1, id as int, sigs1[id as int]);
                        assert(self.sigs@ =~= sigs1.update(id as int, self.sigs@[id as int]));
                        lemma_sigs_model_update(sigs1, id as int, self.sigs@[id as int]);
                        assert(sig_model(self.sigs@[id as int]) =~= SigModel {
                            pending: m1.sigs[id as int].pending.push(
                                PresentPair { ifp: *x, ifn: *y, v: gv, k: gk },
                            ),
                            ..m1.sigs[id as int]
                        });
                    }
                    let ghost m2 = self.model();
                    self.awake_reg(id);
                    proof {
                        assert(self.model() == sem_awake_reg(m2, id));
                        assert(self.model() =~= crate::semantics::sem_dispatch(m0, gp, gk, gv));
                    }
                }
            },
            Arrow::EmitValue(id, c) => {
                self.ensure_sig(id);
                proof {
                    assert(self.model().sigs.len() >= id + 1);
                    assert(self.sigs@.len() > id);
                }
                self.emit_core(id);
                self.current.push_back(Task { k, v: Val::Unit });
                proof {
                    assert(self.sigs@.len() > id);
                }
                let ghost m1 = self.model();
                let ghost sigs1 = self.sigs@;
                let mut st = self.sigs.remove(id);
                let folded = match st.accum.take() {
                    None => Some(v),
                    Some(a) => c.apply(a, v),
                };
                match folded {
                    Some(a2) => {
                        st.accum = Some(a2);
                    },
                    None => {
                        self.fault = true;
                    },
                }
                self.sigs.insert(id, st);
                proof {
                    lemma_remove_insert(sigs1, id as int, sigs1[id as int]);
                    assert(self.sigs@ =~= sigs1.update(id as int, self.sigs@[id as int]));
                    lemma_sigs_model_update(sigs1, id as int, self.sigs@[id as int]);
                    assert(self.model() =~= crate::semantics::sem_dispatch(m0, gp, gk, gv));
                }
            },
            Arrow::AwaitValue(id) => {
                self.ensure_sig(id);
                proof {
                    assert(self.model().sigs.len() >= id + 1);
                    assert(self.sigs@.len() > id);
                }
                let ghost m1 = self.model();
                let ghost sigs1 = self.sigs@;
                let mut st = self.sigs.remove(id);
                st.vwaiters.push_back(k);
                self.sigs.insert(id, st);
                proof {
                    lemma_remove_insert(sigs1, id as int, sigs1[id as int]);
                    assert(self.sigs@ =~= sigs1.update(id as int, self.sigs@[id as int]));
                    lemma_sigs_model_update(sigs1, id as int, self.sigs@[id as int]);
                    assert(sig_model(self.sigs@[id as int]) =~= SigModel {
                        vwaiters: m1.sigs[id as int].vwaiters.push(gk),
                        ..m1.sigs[id as int]
                    });
                    assert(self.model() =~= crate::semantics::sem_dispatch(m0, gp, gk, gv));
                }
            },
            Arrow::AwaitUniq(id) => {
                self.ensure_sig(id);
                proof {
                    assert(self.model().sigs.len() >= id + 1);
                    assert(self.sigs@.len() > id);
                }
                let ghost m1 = self.model();
                let ghost sigs1 = self.sigs@;
                let mut st = self.sigs.remove(id);
                st.vwaiters.clear();
                st.vwaiters.push_back(k);
                self.sigs.insert(id, st);
                proof {
                    lemma_remove_insert(sigs1, id as int, sigs1[id as int]);
                    assert(self.sigs@ =~= sigs1.update(id as int, self.sigs@[id as int]));
                    lemma_sigs_model_update(sigs1, id as int, self.sigs@[id as int]);
                    assert(sig_model(self.sigs@[id as int]) =~= SigModel {
                        vwaiters: seq![gk],
                        ..m1.sigs[id as int]
                    });
                    assert(self.model() =~= crate::semantics::sem_dispatch(m0, gp, gk, gv));
                }
            },
        }
    }

    /// Resume one task: the complete one-step relation of the scheduler,
    /// exactly [`sem_resume`].
    pub fn resume(&mut self, k: Continuation, v: Val)
        ensures
            final(self).model() == sem_resume(old(self).model(), k, v),
    {
        proof {
            reveal(crate::semantics::sem_resume);
        }
        let ghost m0 = self.model();
        let ghost gk = k;
        let ghost gv = v;
        match k {
            Continuation::Finish => {
                self.result = Some(v);
                proof {
                    assert(self.model() =~= sem_resume(m0, gk, gv));
                }
            },
            Continuation::Discard => {
                proof {
                    assert(self.model() =~= sem_resume(m0, gk, gv));
                }
            },
            Continuation::Then(p, k2) => {
                self.dispatch(*p, *k2, v);
            },
            Continuation::Flat(k2) => {
                match v {
                    Val::Prog(p) => {
                        self.current.push_back(
                            Task { k: Continuation::Then(p, k2), v: Val::Unit },
                        );
                    },
                    _ => {
                        self.fault = true;
                    },
                }
                proof {
                    assert(self.model() =~= sem_resume(m0, gk, gv));
                }
            },
            Continuation::Loop(x, k2) => {
                match v {
                    Val::Inl(a) => {
                        let xc = x.dup();
                        self.current.push_back(
                            Task {
                                k: Continuation::Then(
                                    Box::new(xc),
                                    Box::new(Continuation::Loop(x, k2)),
                                ),
                                v: *a,
                            },
                        );
                    },
                    Val::Inr(b) => {
                        self.current.push_back(Task { k: *k2, v: *b });
                    },
                    _ => {
                        self.fault = true;
                    },
                }
                proof {
                    assert(self.model() =~= sem_resume(m0, gk, gv));
                }
            },
            Continuation::JoinA(j) => {
                self.join_a(j, v);
            },
            Continuation::JoinB(j) => {
                self.join_b(j, v);
            },
            Continuation::SeqMid(y, b, k2) => {
                self.current.push_back(
                    Task {
                        k: Continuation::Then(
                            y,
                            Box::new(Continuation::SeqFin(Box::new(v), k2)),
                        ),
                        v: *b,
                    },
                );
                proof {
                    assert(self.model() =~= sem_resume(m0, gk, gv));
                }
            },
            Continuation::SeqFin(c, k2) => {
                self.current.push_back(Task { k: *k2, v: Val::Pair(c, Box::new(v)) });
                proof {
                    assert(self.model() =~= sem_resume(m0, gk, gv));
                }
            },
            Continuation::Awake(id) => {
                self.awake(id);
            },
        }
    }

    /// The tail of an instant: promote the next queue, drain the
    /// end-of-instant queue (whatever it pushes, to current or to next,
    /// becomes work of the new instant), count the instant.  `fuel` bounds
    /// the number of elementary steps; the whole effect is exactly
    /// [`crate::semantics::spec_finish`], so `None` comes only from an
    /// exhausted budget.  Returns whether the new instant has work.
    pub fn finish_instant(&mut self, fuel: &mut u64) -> (r: Option<bool>)
        ensures
            ({
                let (mf, ff, rr) = crate::semantics::spec_finish(
                    old(self).model(),
                    *old(fuel) as nat,
                );
                final(self).model() == mf && *final(fuel) == ff && r == rr
            }),
            r matches Some(more) ==> crate::semantics::finish_sem(
                old(self).model(),
                final(self).model(),
            ) && more == (final(self).model().current.len() > 0) && final(self).model().next.len()
                == 0 && final(self).model().endof.len() == 0 && *final(fuel) < *old(fuel),
            r is None ==> *final(fuel) == 0,
    {
        let ghost m0 = self.model();
        let ghost fuel0 = *fuel as nat;
        let mut f = *fuel;
        core::mem::swap(&mut self.current, &mut self.next);
        proof {
            assert(self.model() =~= promote(m0));
        }
        let ghost mp = self.model();
        if f == 0 {
            *fuel = 0;
            return None;
        }
        f = f - 1;
        let ghost fc = f as nat;
        let ghost mut n2: nat = 0;
        while self.endof.len() > 0
            invariant
                self.model() == steps_eoi(mp, n2),
                mp == promote(m0),
                m0 == old(self).model(),
                f < *old(fuel),
                *old(fuel) > 0,
                fc == (*old(fuel) - 1) as nat,
                crate::semantics::drain_eoi(mp, fc) == crate::semantics::drain_eoi(
                    self.model(),
                    f as nat,
                ),
            decreases f,
        {
            if f == 0 {
                *fuel = 0;
                proof {
                    assert(crate::semantics::drain_eoi(self.model(), 0) == (self.model(), 0nat));
                }
                return None;
            }
            f = f - 1;
            let ghost mpre = self.model();
            let t = self.endof.pop_front().unwrap();
            proof {
                assert(self.model() =~= RtModel {
                    endof: mpre.endof.subrange(1, mpre.endof.len() as int),
                    ..mpre
                });
            }
            self.resume(t.k, t.v);
            proof {
                assert(t == mpre.endof[0]);
                assert(self.model() == step_eoi(mpre));
                n2 = n2 + 1;
            }
        }
        let ghost mdrained = self.model();
        proof {
            assert(crate::semantics::drain_eoi(mdrained, f as nat) == (mdrained, f as nat));
            assert(crate::semantics::drain_eoi(mp, fc) == (mdrained, f as nat));
        }
        self.current.append(&mut self.next);
        proof {
            assert(self.model() =~= crate::semantics::merge_next(mdrained));
        }
        self.now = self.now.saturating_add(1);
        *fuel = f;
        proof {
            assert(self.model() =~= tick(crate::semantics::merge_next(steps_eoi(promote(m0), n2))));
            assert(finish_runs(m0, n2, self.model()));
        }
        Some(self.current.len() > 0)
    }

    /// Run one whole instant: drain the current queue, promote the next
    /// queue, drain the end-of-instant queue, merge, count the instant.
    /// `fuel` bounds the number of elementary steps; the whole effect is
    /// exactly [`crate::semantics::spec_instant`], so `None` comes only
    /// from an exhausted budget.  Returns whether more work exists.
    pub fn instant(&mut self, fuel: &mut u64) -> (r: Option<bool>)
        ensures
            ({
                let (mf, ff, rr) = crate::semantics::spec_instant(
                    old(self).model(),
                    *old(fuel) as nat,
                );
                final(self).model() == mf && *final(fuel) == ff && r == rr
            }),
            r matches Some(more) ==> instant_sem(old(self).model(), final(self).model()) && more
                == (final(self).model().current.len() > 0) && final(self).model().next.len() == 0
                && final(self).model().endof.len() == 0 && *final(fuel) < *old(fuel),
            r is None ==> *final(fuel) == 0,
    {
        let ghost m0 = self.model();
        let ghost fuel0 = *fuel as nat;
        let mut f = *fuel;
        let ghost mut n1: nat = 0;
        while self.current.len() > 0
            invariant
                self.model() == steps_cur(m0, n1),
                m0 == old(self).model(),
                f <= *old(fuel),
                fuel0 == *old(fuel) as nat,
                crate::semantics::drain_cur(m0, fuel0) == crate::semantics::drain_cur(
                    self.model(),
                    f as nat,
                ),
            decreases f,
        {
            if f == 0 {
                *fuel = 0;
                proof {
                    assert(crate::semantics::drain_cur(self.model(), 0) == (self.model(), 0nat));
                }
                return None;
            }
            f = f - 1;
            let ghost mpre = self.model();
            let t = self.current.pop_front().unwrap();
            proof {
                assert(self.model() =~= RtModel {
                    current: mpre.current.subrange(1, mpre.current.len() as int),
                    ..mpre
                });
            }
            self.resume(t.k, t.v);
            proof {
                assert(t == mpre.current[0]);
                assert(self.model() == step_cur(mpre));
                n1 = n1 + 1;
            }
        }
        let ghost mdrained = self.model();
        proof {
            assert(mdrained.current.len() == 0);
            assert(crate::semantics::drain_cur(mdrained, f as nat) == (mdrained, f as nat));
            assert(crate::semantics::drain_cur(m0, fuel0) == (mdrained, f as nat));
        }
        *fuel = f;
        let r = self.finish_instant(fuel);
        proof {
            match r {
                Some(more) => {
                    let n2 = choose|n2: nat| finish_runs(mdrained, n2, self.model());
                    assert(instant_runs(m0, n1, n2, self.model()));
                },
                None => {},
            }
        }
        r
    }

    /// Run instants until no work is left or the step budget runs out.
    /// The whole run is exactly [`crate::semantics::spec_execute`]; a run
    /// that returns `true` has drained every queue.
    #[verifier::rlimit(60)]
    pub fn execute(&mut self, fuel: u64) -> (done: bool)
        ensures
            ({
                let (mf, dn) = crate::semantics::spec_execute(old(self).model(), fuel as nat);
                final(self).model() == mf && done == dn
            }),
            done ==> final(self).model().current.len() == 0 && final(self).model().next.len() == 0
                && final(self).model().endof.len() == 0 && exists|k: nat|
                #[trigger] run_steps(old(self).model(), final(self).model(), k),
    {
        let ghost m0 = self.model();
        let ghost fuel0 = fuel as nat;
        proof {
            crate::semantics::lemma_run_steps_zero(m0);
        }
        let mut f = fuel;
        let ghost mut kk: nat = 0;
        let mut more = true;
        while more
            invariant
                run_steps(m0, self.model(), kk),
                m0 == old(self).model(),
                fuel0 == fuel as nat,
                more ==> crate::semantics::spec_execute(m0, fuel0)
                    == crate::semantics::spec_execute(self.model(), f as nat),
                !more ==> crate::semantics::spec_execute(m0, fuel0) == (self.model(), true),
                !more ==> self.model().current.len() == 0 && self.model().next.len() == 0
                    && self.model().endof.len() == 0,
            decreases f,
        {
            let ghost mprev = self.model();
            let ghost fprev = f as nat;
            let r = self.instant(&mut f);
            match r {
                None => {
                    proof {
                        assert(crate::semantics::spec_execute(mprev, fprev) == (
                            self.model(),
                            false,
                        ));
                    }
                    return false;
                },
                Some(m2) => {
                    proof {
                        crate::semantics::lemma_run_steps_snoc(m0, mprev, self.model(), kk);
                        kk = kk + 1;
                        crate::semantics::lemma_spec_instant_fuel(mprev, fprev);
                        if m2 {
                            assert(crate::semantics::spec_execute(mprev, fprev)
                                == crate::semantics::spec_execute(self.model(), f as nat));
                        } else {
                            assert(crate::semantics::spec_execute(mprev, fprev) == (
                                self.model(),
                                true,
                            ));
                        }
                    }
                    more = m2;
                },
            }
        }
        true
    }

    /// How many instants have completed.
    pub fn instants(&self) -> (r: u64)
        ensures
            r == self.model().now,
    {
        self.now
    }
}

impl Arrow {
    /// Run the program on input `a` in the given runtime, within `fuel`
    /// elementary steps: enqueue the start task and run to completion or
    /// budget exhaustion, exactly [`crate::semantics::spec_execute`].
    /// `Some` is the completed, fault-free run's output; `None` means the
    /// budget ran out, a task broke a runtime invariant, or the program
    /// drained without producing a result.
    pub fn execute_with_rt(self, rt: &mut SeqRuntime, a: Val, fuel: u64) -> (r: Option<Val>)
        ensures
            ({
                let m1 = push_cur(old(rt).model(), start_task(self, a));
                let (mf, dn) = crate::semantics::spec_execute(m1, fuel as nat);
                &&& r == (if dn && !mf.fault {
                    mf.result
                } else {
                    None::<Val>
                })
                &&& final(rt).model() == (if dn {
                    RtModel { result: None, ..mf }
                } else {
                    mf
                })
            }),
    {
        let ghost gself = self;
        rt.on_current_instant(
            Task {
                k: Continuation::Then(Box::new(self), Box::new(Continuation::Finish)),
                v: a,
            },
        );
        proof {
            assert(rt.model() == push_cur(old(rt).model(), start_task(gself, a)));
        }
        let done = rt.execute(fuel);
        if done {
            let ghost md = rt.model();
            let res = rt.result.take();
            let out = if rt.fault {
                None
            } else {
                res
            };
            proof {
                assert(rt.model() =~= RtModel { result: None, ..md });
            }
            out
        } else {
            None
        }
    }

    /// Run the program on input `a` in a fresh sequential runtime, within
    /// `fuel` elementary steps; the result is exactly the one
    /// [`crate::semantics::spec_execute`] assigns to the completed,
    /// fault-free run.
    pub fn execute_seq(self, a: Val, fuel: u64) -> (r: Option<Val>)
        ensures
            ({
                let m1 = push_cur(init_model(), start_task(self, a));
                let (mf, dn) = crate::semantics::spec_execute(m1, fuel as nat);
                r == (if dn && !mf.fault {
                    mf.result
                } else {
                    None::<Val>
                })
            }),
    {
        let mut rt = SeqRuntime::new();
        self.execute_with_rt(&mut rt, a, fuel)
    }
}

/// The shared state of the parallel runtime: the sequential state, taken
/// by one thread at a time under a lock that lives outside this library.
/// A worker's whole turn happens under that lock, so an empty current
/// queue already means every worker is idle; the coordinator may then
/// close the instant.
#[derive(Debug)]
pub struct ParRuntime {
    /// The queues, tables and log, taken by one thread at a time.
    pub shared: SeqRuntime,
    /// Cleared when an instant transition finds no more work.
    pub running: bool,
}

impl ParRuntime {
    /// A fresh parallel runtime with empty queues.
    pub fn new() -> (r: ParRuntime)
        ensures
            r.shared.model() == init_model(),
            r.running == true,
    {
        ParRuntime { shared: SeqRuntime::new(), running: true }
    }

    /// One worker turn: pop the front task of the current queue and resume
    /// it.  Returns whether there was a task to run.
    pub fn try_step(&mut self) -> (did: bool)
        ensures
            did ==> old(self).shared.model().current.len() > 0 && final(self).shared.model()
                == step_cur(old(self).shared.model()),
            !did ==> final(self).shared.model() == old(self).shared.model() && old(
                self,
            ).shared.model().current.len() == 0,
            final(self).running == old(self).running,
    {
        let ghost mpre = self.shared.model();
        match self.shared.current.pop_front() {
            Some(t) => {
                proof {
                    assert(self.shared.model() =~= RtModel {
                        current: mpre.current.subrange(1, mpre.current.len() as int),
                        ..mpre
                    });
                    assert(t == mpre.current[0]);
                }
                self.shared.resume(t.k, t.v);
                proof {
                    assert(self.shared.model() == step_cur(mpre));
                }
                true
            },
            None => false,
        }
    }

    /// The coordinator's transition, to be taken under exclusive access
    /// once the instant's work is drained: finish the instant, exactly
    /// [`crate::semantics::spec_finish`], and record whether work remains.
    pub fn transition(&mut self, fuel: &mut u64) -> (r: Option<bool>)
        requires
            old(self).shared.model().current.len() == 0,
        ensures
            ({
                let (mf, ff, rr) = crate::semantics::spec_finish(
                    old(self).shared.model(),
                    *old(fuel) as nat,
                );
                final(self).shared.model() == mf && *final(fuel) == ff && r == rr
            }),
            r matches Some(more) ==> crate::semantics::finish_sem(
                old(self).shared.model(),
                final(self).shared.model(),
            ) && more == (final(self).shared.model().current.len() > 0) && final(self).running
                == more && *final(fuel) < *old(fuel),
            r is None ==> *final(fuel) == 0 && final(self).running == old(self).running,
    {
        match self.shared.finish_instant(fuel) {
            Some(more) => {
                self.running = more;
                Some(more)
            },
            None => None,
        }
    }
}

impl Runtime for SeqRuntime {
    open spec fn rt_model(&self) -> RtModel {
        self.model()
    }

    fn on_current_instant(&mut self, t: Task) {
        self.current.push_back(t);
        proof {
            assert(self.model() =~= push_cur(old(self).model(), t));
        }
    }

    fn on_next_instant(&mut self, t: Task) {
        self.next.push_back(t);
        proof {
            assert(self.model() =~= crate::semantics::push_next(old(self).model(), t));
        }
    }

    fn on_end_of_instant(&mut self, t: Task) {
        self.endof.push_back(t);
        proof {
            assert(self.model() =~= crate::semantics::push_endof(old(self).model(), t));
        }
    }
}

impl Runtime for ParRuntime {
    open spec fn rt_model(&self) -> RtModel {
        self.shared.model()
    }

    fn on_current_instant(&mut self, t: Task) {
        self.shared.current.push_back(t);
        proof {
            assert(self.shared.model() =~= push_cur(old(self).shared.model(), t));
        }
    }

    fn on_next_instant(&mut self, t: Task) {
        self.shared.next.push_back(t);
        proof {
            assert(self.shared.model() =~= crate::semantics::push_next(old(self).shared.model(), t));
        }
    }

    fn on_end_of_instant(&mut self, t: Task) {
        self.shared.endof.push_back(t);
        proof {
            assert(self.shared.model() =~= crate::semantics::push_endof(old(self).shared.model(), t));
        }
    }
}

} // verus!