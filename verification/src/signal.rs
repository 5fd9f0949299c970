//! The signal layer: instant-scoped rendezvous points.
//!
//! A signal handle is a small copyable value naming the index its state
//! occupies in the runtime's signal table; the table itself grows on first
//! use, so programs can be built before any runtime exists.  [`PureSignal`]
//! is presence-only, [`ValueSignal`] accumulates the values emitted during
//! an instant with a combine operator, and [`UniqSignal`] is the
//! single-consumer specialization whose one awaiter is issued at
//! construction.

use vstd::prelude::*;

use crate::arrow::Arrow;
use crate::arrow::Comb;
use crate::arrow::Val;
use crate::runtime::SeqRuntime;
use crate::semantics::Continuation;
use crate::semantics::grow_sigs;
use crate::semantics::sem_await_immediate;
use crate::semantics::sem_emit_core;

verus! {

/// Hands out fresh signal indices, so that distinct signals built for one
/// program never share state.
#[derive(Debug)]
pub struct SignalPool {
    pub next_id: usize,
}

impl SignalPool {
    /// A pool whose first signal gets index `0`.
    pub fn new() -> (r: SignalPool)
        ensures
            r.next_id == 0,
    {
        SignalPool { next_id: 0 }
    }

    /// The next unused index.
    pub fn fresh(&mut self) -> (id: usize)
        ensures
            id == old(self).next_id,
            final(self).next_id == if old(self).next_id + 1 > usize::MAX {
                usize::MAX
            } else {
                (old(self).next_id + 1) as usize
            },
    {
        let id = self.next_id;
        self.next_id = self.next_id.saturating_add(1);
        id
    }
}

/// A reference to one signal's state: the index under which the runtime
/// keeps it.
#[derive(Clone, Copy, Debug, PartialEq, Eq)]
pub struct SignalRuntimeRef {
    pub id: usize,
}

impl SignalRuntimeRef {
    /// Set the signal as emitted for the current instant: wake every
    /// parked immediate waiter and every pending `present` then-branch,
    /// and register the end-of-instant cleanup hook.
    pub fn emits(&self, rt: &mut SeqRuntime)
        ensures
            final(rt).model() == sem_emit_core(
                grow_sigs(old(rt).model(), (self.id + 1) as nat),
                self.id,
            ),
    {
        rt.ensure_sig(self.id);
        proof {
            assert(rt.model().sigs.len() >= self.id + 1);
            assert(rt.sigs@.len() > self.id);
        }
        rt.emit_core(self.id);
    }

    /// Park `c` until the first point of this instant where the signal is
    /// present; it is resumed with `Unit` then, or dropped at end of
    /// instant.
    pub fn on_signal(&self, rt: &mut SeqRuntime, c: Continuation)
        ensures
            final(rt).model() == sem_await_immediate(old(rt).model(), self.id, c, Val::Unit),
    {
        rt.dispatch(Arrow::AwaitImmediate(self.id), c, Val::Unit);
        proof {
            reveal(crate::semantics::sem_dispatch);
        }
    }
}

/// The operations every kind of signal offers to programs.
pub trait Signal {
    /// The index of the signal's state in the runtime.
    spec fn sig_id(&self) -> usize;

    /// The arrow that waits until the signal is present this instant, then
    /// passes its input through.
    fn await_immediate(&self) -> (r: Arrow)
        ensures
            r == Arrow::AwaitImmediate(self.sig_id()),
    ;

    /// The arrow that runs `ifp` in this instant if the signal is emitted,
    /// and `ifn` at the next instant if it is not.
    fn present(&self, ifp: Arrow, ifn: Arrow) -> (r: Arrow)
        ensures
            r == Arrow::Present(self.sig_id(), Box::new(ifp), Box::new(ifn)),
    ;
}

/// A presence-only signal: emission is idempotent within an instant.
#[derive(Clone, Copy, Debug, PartialEq, Eq)]
pub struct PureSignal {
    pub sr: SignalRuntimeRef,
}

impl PureSignal {
    /// A fresh pure signal.
    pub fn new(pool: &mut SignalPool) -> (s: PureSignal)
        ensures
            s.sr.id == old(pool).next_id,
            final(pool).next_id > old(pool).next_id || old(pool).next_id == usize::MAX,
    {
        PureSignal { sr: SignalRuntimeRef { id: pool.fresh() } }
    }

    /// The arrow that emits this signal and yields `Unit`.
    pub fn emit(&self) -> (r: Arrow)
        ensures
            r == Arrow::EmitPure(self.sr.id),
    {
        Arrow::EmitPure(self.sr.id)
    }
}

impl Signal for PureSignal {
    open spec fn sig_id(&self) -> usize {
        self.sr.id
    }

    fn await_immediate(&self) -> (r: Arrow) {
        Arrow::AwaitImmediate(self.sr.id)
    }

    fn present(&self, ifp: Arrow, ifn: Arrow) -> (r: Arrow) {
        Arrow::Present(self.sr.id, Box::new(ifp), Box::new(ifn))
    }
}

/// A valued signal: all values emitted during an instant are folded with
/// the combine operator, and the result is delivered to value-awaiters at
/// the start of the next instant.
#[derive(Clone, Copy, Debug, PartialEq, Eq)]
pub struct ValueSignal {
    pub sr: SignalRuntimeRef,
    pub comb: Comb,
}

impl ValueSignal {
    /// A fresh valued signal folding its emissions with `comb`.
    pub fn new(pool: &mut SignalPool, comb: Comb) -> (s: ValueSignal)
        ensures
            s.sr.id == old(pool).next_id,
            s.comb == comb,
            final(pool).next_id > old(pool).next_id || old(pool).next_id == usize::MAX,
    {
        ValueSignal { sr: SignalRuntimeRef { id: pool.fresh() }, comb }
    }

    /// The arrow that emits its input value on this signal and yields
    /// `Unit`.
    pub fn emit(&self) -> (r: Arrow)
        ensures
            r == Arrow::EmitValue(self.sr.id, self.comb),
    {
        Arrow::EmitValue(self.sr.id, self.comb)
    }

    /// The arrow that waits for this signal's accumulated value, delivered
    /// at the start of the instant after an emitting one.
    pub fn await_value(&self) -> (r: Arrow)
        ensures
            r == Arrow::AwaitValue(self.sr.id),
    {
        Arrow::AwaitValue(self.sr.id)
    }
}

impl Signal for ValueSignal {
    open spec fn sig_id(&self) -> usize {
        self.sr.id
    }

    fn await_immediate(&self) -> (r: Arrow) {
        Arrow::AwaitImmediate(self.sr.id)
    }

    fn present(&self, ifp: Arrow, ifn: Arrow) -> (r: Arrow) {
        Arrow::Present(self.sr.id, Box::new(ifp), Box::new(ifn))
    }
}

/// A valued signal with a single consumer: the one awaiter arrow is issued
/// at construction, and a new `await` replaces any earlier one.
#[derive(Clone, Copy, Debug, PartialEq, Eq)]
pub struct UniqSignal {
    pub sr: SignalRuntimeRef,
    pub comb: Comb,
}

impl UniqSignal {
    /// A fresh single-consumer valued signal, together with its awaiter
    /// arrow.
    pub fn new(pool: &mut SignalPool, comb: Comb) -> (r: (UniqSignal, Arrow))
        ensures
            r.0.sr.id == old(pool).next_id,
            r.0.comb == comb,
            r.1 == Arrow::AwaitUniq(r.0.sr.id),
            final(pool).next_id > old(pool).next_id || old(pool).next_id == usize::MAX,
    {
        let id = pool.fresh();
        (UniqSignal { sr: SignalRuntimeRef { id }, comb }, Arrow::AwaitUniq(id))
    }

    /// The arrow that emits its input value on this signal and yields
    /// `Unit`.
    pub fn emit(&self) -> (r: Arrow)
        ensures
            r == Arrow::EmitValue(self.sr.id, self.comb),
    {
        Arrow::EmitValue(self.sr.id, self.comb)
    }
}

impl Signal for UniqSignal {
    open spec fn sig_id(&self) -> usize {
        self.sr.id
    }

    fn await_immediate(&self) -> (r: Arrow) {
        Arrow::AwaitImmediate(self.sr.id)
    }

    fn present(&self, ifp: Arrow, ifn: Arrow) -> (r: Arrow) {
        Arrow::Present(self.sr.id, Box::new(ifp), Box::new(ifn))
    }
}

} // verus!
