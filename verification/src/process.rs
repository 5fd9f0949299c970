//! The process-style surface: combinators for programs that take no
//! input, written in terms of the arrow algebra.

use vstd::prelude::*;

use crate::arrow::Arrow;
use crate::arrow::Func;
use crate::arrow::Val;

verus! {

/// The process that yields a copy of `v`.
pub fn value(v: Val) -> (r: Arrow)
    ensures
        r == Arrow::Value(Box::new(v)),
{
    Arrow::Value(Box::new(v))
}

/// Run two processes as independent same-instant tasks and join their
/// results: the nullary form of `product`, fed with a pair of units.
pub fn join(p: Arrow, q: Arrow) -> (r: Arrow)
    ensures
        r == Arrow::Bind(
            Box::new(
                Arrow::Apply(
                    Func::Const(Box::new(Val::Pair(Box::new(Val::Unit), Box::new(Val::Unit)))),
                ),
            ),
            Box::new(Arrow::Product(Box::new(p), Box::new(q))),
        ),
{
    Arrow::Bind(
        Box::new(
            Arrow::Apply(
                Func::Const(Box::new(Val::Pair(Box::new(Val::Unit), Box::new(Val::Unit)))),
            ),
        ),
        Box::new(Arrow::Product(Box::new(p), Box::new(q))),
    )
}

} // verus!
