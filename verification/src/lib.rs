//! A minimal single-threaded cooperative I/O runtime: a scheduler that
//! multiplexes many suspendable computations over non-blocking sockets,
//! waking each one when the readiness event it waits for arrives.
//!
//! The scheduler itself (task table, token allocation, the pending-interest
//! slot, and every decision of the run loop) lives here and is verified.
//! The operating-system edge (the readiness multiplexer and the socket
//! syscalls) is driven by the embedding program, which feeds outcomes and
//! readiness events into the verified state machines as plain values.

pub mod base;
pub mod echo;
pub mod http;
pub mod iter;
pub mod net;
pub mod sched;
