//! The unit of work: a computation that is driven one step at a time and
//! either completes with a result or signals that it is not ready yet.

use vstd::prelude::*;

use crate::sched::Context;

verus! {

/// What one drive of a computation yields: the final result, or a signal
/// that the computation paused and must be polled again later.
pub enum Await<T> {
    Done(T),
    NotReady,
}

/// A suspendable computation. Each `poll` either completes with a result or
/// pauses at exactly the point it left off; a computation that paused because
/// an operation would block declares, through the context, the readiness
/// event it is waiting for. Polling again after `Done` is outside the
/// contract: computations are single-use.
///
/// `S` is the type of computation that may be spawned through the context;
/// `R` is the result type of this computation.
pub trait Async<S, R> {
    fn poll(&mut self, ctx: &mut Context<S>) -> Await<R>;
}

} // verus!
