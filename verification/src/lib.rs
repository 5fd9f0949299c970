//! A synchronous reactive runtime in the style of Esterel / ReactiveML.
//!
//! Reactive programs are built from combinators (`identity`, `value`, `map`,
//! `pause`, `bind`, `product`, `fork`, `fixpoint`, ...) and communicate
//! through instant-scoped signals.  A cooperative scheduler executes the
//! programs as a sequence of logical instants, each closed by an
//! end-of-instant barrier.
//!
//! Programs and the continuations the scheduler queues are plain data, and
//! the scheduler is proved, step for step, to implement the small-step
//! semantics written out in [`semantics`].

pub mod arrow;
pub mod laws;
pub mod process;
pub mod runtime;
pub mod semantics;
pub mod signal;

pub use arrow::Arrow;
pub use arrow::Comb;
pub use arrow::Func;
pub use arrow::Val;
pub use arrow::bind;
pub use arrow::fixpoint;
pub use arrow::flatten;
pub use arrow::fork;
pub use arrow::identity;
pub use arrow::pause;
pub use arrow::product;
pub use arrow::seqprod;
pub use arrow::value;
