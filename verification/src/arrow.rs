//! The combinator algebra: reactive programs as data.
//!
//! A reactive program (an *arrow*) is a tree of combinator nodes.  The
//! scheduler in [`crate::runtime`] drives a value through such a tree in
//! continuation-passing style; the nodes themselves are inert data, so the
//! whole algebra can be spoken about directly in specifications.
//!
//! Arrows carry values of the closed type [`Val`]; the functions a `map`
//! node may apply come from the closed enum [`Func`], each of which has an
//! exact specification ([`func_val`], [`func_out`]).

use vstd::prelude::*;

verus! {

/// A value flowing through a reactive program.
///
/// `Inl` / `Inr` form the sum type that `fixpoint` iterates on (`Inl`
/// continues the loop, `Inr` exits), and `Prog` lets an arrow yield another
/// arrow, which `flatten` then runs.
#[derive(Debug, PartialEq, Eq)]
pub enum Val {
    Unit,
    Int(i64),
    Pair(Box<Val>, Box<Val>),
    Inl(Box<Val>),
    Inr(Box<Val>),
    Prog(Box<Arrow>),
}

/// A binary operator a valued signal folds its emissions with.
#[derive(Clone, Copy, Debug, PartialEq, Eq)]
pub enum Comb {
    /// Wrapping integer addition (associative and commutative).
    Add,
    /// Integer maximum (associative and commutative).
    Max,
    /// Keep the earlier emission.
    First,
    /// Keep the later emission.
    Last,
}

/// A function a `map` node may apply: a closed universe of plain
/// value-to-value steps, each with an exact specification.
#[derive(Debug, PartialEq, Eq)]
pub enum Func {
    /// Pass the input through unchanged and write it to the runtime's log.
    Trace,
    /// Ignore the input and yield the stored value.
    Const(Box<Val>),
    /// On `Int(n)`, yield `Int(n + k)` with wrapping addition; other values
    /// pass through unchanged.
    AddWrap(i64),
    /// On `Int(i)` with `i < bound`, continue a loop with `Inl(Int(i + 1))`;
    /// otherwise exit with `Inr` of the input.
    StepUpTo(i64),
    /// As `StepUpTo`, but also log `Int(i)` whenever the loop continues.
    TraceStepUpTo(i64),
    /// Wrap the input in `Inl`.
    Inl,
    /// Wrap the input in `Inr`.
    Inr,
}

/// A reactive program node.
///
/// `call`ing a node means: drive the input value through its behaviour and
/// hand the output to a continuation.  That step relation is written out in
/// [`crate::semantics`]; the constructors below only build the tree.
///
/// Signal nodes name their signal by the index its state occupies in the
/// runtime ([`crate::signal::SignalRuntimeRef`]).
#[derive(Debug, PartialEq, Eq)]
pub enum Arrow {
    /// Pass the input through unchanged.
    Identity,
    /// Ignore the input and yield a copy of the stored value.
    Value(Box<Val>),
    /// Yield `f(input)` synchronously.
    Apply(Func),
    /// Deliver the input to the continuation at the next instant.  The one
    /// elementary way a program consumes logical time.
    Pause,
    /// Run the first arrow, feed its output to the second.
    Bind(Box<Arrow>, Box<Arrow>),
    /// Run the arrow; its output must be a `Val::Prog`, which is then run
    /// on `Unit`.
    Flatten(Box<Arrow>),
    /// Iterate the body on `Inl` outputs until it yields `Inr`.
    Fixpoint(Box<Arrow>),
    /// On a pair, run both arrows one after the other, synchronously.
    SeqProd(Box<Arrow>, Box<Arrow>),
    /// On a pair, run both arrows as independent same-instant tasks and
    /// join their results.
    Product(Box<Arrow>, Box<Arrow>),
    /// Spawn the arrow on a copy of the input as an independent
    /// same-instant task and deliver the input onward without waiting.
    Fork(Box<Arrow>),
    /// Emit the pure signal `sig`, then yield `Unit`.
    EmitPure(usize),
    /// Wait until signal `sig` is present this instant, then pass the input
    /// through.  The parked continuation is dropped at end of instant.
    AwaitImmediate(usize),
    /// Branch on the presence of signal `sig` this instant: the first arrow
    /// runs in this instant if the signal is emitted, the second runs at
    /// the next instant if it is not.
    Present(usize, Box<Arrow>, Box<Arrow>),
    /// Emit the input value on valued signal `sig`, folding it into the
    /// signal's accumulator with the combine operator, then yield `Unit`.
    EmitValue(usize, Comb),
    /// Park the continuation for delivery of signal `sig`'s accumulated
    /// value at the start of the next emitting instant's successor.
    AwaitValue(usize),
    /// As `AwaitValue`, but the signal keeps at most this one waiter.
    AwaitUniq(usize),
}

impl Val {
    /// A deep copy, equal to the original.
    pub fn dup(&self) -> (r: Val)
        ensures
            r == *self,
        decreases self,
    {
        match self {
            Val::Unit => Val::Unit,
            Val::Int(n) => Val::Int(*n),
            Val::Pair(a, b) => Val::Pair(Box::new(a.dup()), Box::new(b.dup())),
            Val::Inl(a) => Val::Inl(Box::new(a.dup())),
            Val::Inr(a) => Val::Inr(Box::new(a.dup())),
            Val::Prog(p) => Val::Prog(Box::new(p.dup())),
        }
    }
}

impl Func {
    /// A deep copy, equal to the original.
    pub fn dup(&self) -> (r: Func)
        ensures
            r == *self,
        decreases self,
    {
        match self {
            Func::Trace => Func::Trace,
            Func::Const(v) => Func::Const(Box::new(v.dup())),
            Func::AddWrap(k) => Func::AddWrap(*k),
            Func::StepUpTo(b) => Func::StepUpTo(*b),
            Func::TraceStepUpTo(b) => Func::TraceStepUpTo(*b),
            Func::Inl => Func::Inl,
            Func::Inr => Func::Inr,
        }
    }
}

impl Arrow {
    /// A deep copy, equal to the original.
    pub fn dup(&self) -> (r: Arrow)
        ensures
            r == *self,
        decreases self,
    {
        match self {
            Arrow::Identity => Arrow::Identity,
            Arrow::Value(v) => Arrow::Value(Box::new(v.dup())),
            Arrow::Apply(f) => Arrow::Apply(f.dup()),
            Arrow::Pause => Arrow::Pause,
            Arrow::Bind(x, y) => Arrow::Bind(Box::new(x.dup()), Box::new(y.dup())),
            Arrow::Flatten(x) => Arrow::Flatten(Box::new(x.dup())),
            Arrow::Fixpoint(x) => Arrow::Fixpoint(Box::new(x.dup())),
            Arrow::SeqProd(x, y) => Arrow::SeqProd(Box::new(x.dup()), Box::new(y.dup())),
            Arrow::Product(x, y) => Arrow::Product(Box::new(x.dup()), Box::new(y.dup())),
            Arrow::Fork(x) => Arrow::Fork(Box::new(x.dup())),
            Arrow::EmitPure(s) => Arrow::EmitPure(*s),
            Arrow::AwaitImmediate(s) => Arrow::AwaitImmediate(*s),
            Arrow::Present(s, x, y) => Arrow::Present(*s, Box::new(x.dup()), Box::new(y.dup())),
            Arrow::EmitValue(s, c) => Arrow::EmitValue(*s, *c),
            Arrow::AwaitValue(s) => Arrow::AwaitValue(*s),
            Arrow::AwaitUniq(s) => Arrow::AwaitUniq(*s),
        }
    }

    /// Sequential composition: run `self`, feed its output to `y`.
    pub fn bind(self, y: Arrow) -> (r: Arrow)
        ensures
            r == Arrow::Bind(Box::new(self), Box::new(y)),
    {
        Arrow::Bind(Box::new(self), Box::new(y))
    }

    /// Run `self`; its output must be an arrow, which is then run on `Unit`.
    pub fn flatten(self) -> (r: Arrow)
        ensures
            r == Arrow::Flatten(Box::new(self)),
    {
        Arrow::Flatten(Box::new(self))
    }
}

/// What a function yields on a value.
pub open spec fn func_val(f: Func, v: Val) -> Val {
    match f {
        Func::Trace => v,
        Func::Const(c) => *c,
        Func::AddWrap(k) => match v {
            Val::Int(n) => Val::Int(vstd::wrapping::i64_specs::wrapping_add(n, k)),
            _ => v,
        },
        Func::StepUpTo(b) => match v {
            Val::Int(i) => if i < b {
                Val::Inl(Box::new(Val::Int((i + 1) as i64)))
            } else {
                Val::Inr(Box::new(Val::Int(i)))
            },
            _ => Val::Inr(Box::new(v)),
        },
        Func::TraceStepUpTo(b) => match v {
            Val::Int(i) => if i < b {
                Val::Inl(Box::new(Val::Int((i + 1) as i64)))
            } else {
                Val::Inr(Box::new(Val::Int(i)))
            },
            _ => Val::Inr(Box::new(v)),
        },
        Func::Inl => Val::Inl(Box::new(v)),
        Func::Inr => Val::Inr(Box::new(v)),
    }
}

/// What a function writes to the runtime's log on a value.
pub open spec fn func_out(f: Func, v: Val) -> Option<Val> {
    match f {
        Func::Trace => Some(v),
        Func::TraceStepUpTo(b) => match v {
            Val::Int(i) => if i < b {
                Some(Val::Int(i))
            } else {
                None
            },
            _ => None,
        },
        _ => None,
    }
}

impl Func {
    /// Apply the function: yield its value and its optional log entry.
    pub fn apply(&self, v: Val) -> (r: (Val, Option<Val>))
        ensures
            r.0 == func_val(*self, v),
            r.1 == func_out(*self, v),
    {
        match self {
            Func::Trace => {
                let copy = v.dup();
                (v, Some(copy))
            },
            Func::Const(c) => (c.dup(), None),
            Func::AddWrap(k) => match v {
                Val::Int(n) => (Val::Int(n.wrapping_add(*k)), None),
                _ => (v, None),
            },
            Func::StepUpTo(b) => match v {
                Val::Int(i) => if i < *b {
                    (Val::Inl(Box::new(Val::Int(i + 1))), None)
                } else {
                    (Val::Inr(Box::new(Val::Int(i))), None)
                },
                _ => (Val::Inr(Box::new(v)), None),
            },
            Func::TraceStepUpTo(b) => match v {
                Val::Int(i) => if i < *b {
                    (Val::Inl(Box::new(Val::Int(i + 1))), Some(Val::Int(i)))
                } else {
                    (Val::Inr(Box::new(Val::Int(i))), None)
                },
                _ => (Val::Inr(Box::new(v)), None),
            },
            Func::Inl => (Val::Inl(Box::new(v)), None),
            Func::Inr => (Val::Inr(Box::new(v)), None),
        }
    }
}

/// What folding one emission into a valued signal's accumulator yields;
/// `None` marks an operand the operator is not defined on.
pub open spec fn comb_val(c: Comb, a: Val, b: Val) -> Option<Val> {
    match c {
        Comb::Add => match (a, b) {
            (Val::Int(x), Val::Int(y)) => Some(
                Val::Int(vstd::wrapping::i64_specs::wrapping_add(x, y)),
            ),
            _ => None,
        },
        Comb::Max => match (a, b) {
            (Val::Int(x), Val::Int(y)) => Some(Val::Int(if x >= y {
                x
            } else {
                y
            })),
            _ => None,
        },
        Comb::First => Some(a),
        Comb::Last => Some(b),
    }
}

impl Comb {
    /// Fold one emission into an accumulated value.
    pub fn apply(&self, a: Val, b: Val) -> (r: Option<Val>)
        ensures
            r == comb_val(*self, a, b),
    {
        match self {
            Comb::Add => match (a, b) {
                (Val::Int(x), Val::Int(y)) => Some(Val::Int(x.wrapping_add(y))),
                _ => None,
            },
            Comb::Max => match (a, b) {
                (Val::Int(x), Val::Int(y)) => Some(Val::Int(if x >= y {
                    x
                } else {
                    y
                })),
                _ => None,
            },
            Comb::First => Some(a),
            Comb::Last => Some(b),
        }
    }
}

/// The arrow that passes its input through unchanged.
pub fn identity() -> (r: Arrow)
    ensures
        r == Arrow::Identity,
{
    Arrow::Identity
}

/// The arrow that ignores its input and yields a copy of `v`.
pub fn value(v: Val) -> (r: Arrow)
    ensures
        r == Arrow::Value(Box::new(v)),
{
    Arrow::Value(Box::new(v))
}

/// The arrow that yields `f(input)` synchronously.
pub fn map(f: Func) -> (r: Arrow)
    ensures
        r == Arrow::Apply(f),
{
    Arrow::Apply(f)
}

/// The arrow that delivers its input at the next instant.
pub fn pause() -> (r: Arrow)
    ensures
        r == Arrow::Pause,
{
    Arrow::Pause
}

/// Sequential composition of two arrows.
pub fn bind(x: Arrow, y: Arrow) -> (r: Arrow)
    ensures
        r == Arrow::Bind(Box::new(x), Box::new(y)),
{
    Arrow::Bind(Box::new(x), Box::new(y))
}

/// The arrow that runs `x` and then runs the arrow `x` yields on `Unit`.
pub fn flatten(x: Arrow) -> (r: Arrow)
    ensures
        r == Arrow::Flatten(Box::new(x)),
{
    Arrow::Flatten(Box::new(x))
}

/// The arrow that iterates `x` until it yields `Inr`.
pub fn fixpoint(x: Arrow) -> (r: Arrow)
    ensures
        r == Arrow::Fixpoint(Box::new(x)),
{
    Arrow::Fixpoint(Box::new(x))
}

/// The arrow that runs `x` and `y` on the halves of a pair, one after the
/// other.
pub fn seqprod(x: Arrow, y: Arrow) -> (r: Arrow)
    ensures
        r == Arrow::SeqProd(Box::new(x), Box::new(y)),
{
    Arrow::SeqProd(Box::new(x), Box::new(y))
}

/// The arrow that runs `x` and `y` on the halves of a pair as independent
/// same-instant tasks and joins their results.
pub fn product(x: Arrow, y: Arrow) -> (r: Arrow)
    ensures
        r == Arrow::Product(Box::new(x), Box::new(y)),
{
    Arrow::Product(Box::new(x), Box::new(y))
}

/// The arrow that spawns `x` on a copy of the input and continues with the
/// input without waiting.
pub fn fork(x: Arrow) -> (r: Arrow)
    ensures
        r == Arrow::Fork(Box::new(x)),
{
    Arrow::Fork(Box::new(x))
}

} // verus!
