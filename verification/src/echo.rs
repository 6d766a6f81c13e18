//! The echo service: each connection is read and every chunk of bytes is
//! written straight back, until the peer closes the stream. The handler is
//! a state machine over the outcomes of the connection's reads and writes;
//! the listening loop that accepts connections and spawns one handler per
//! connection is the embedding program's, driven through the listener
//! adapter and the context's spawn queue.

use vstd::prelude::*;

use crate::net::{Conn, IoErrorKind, ReadOutcome, WriteAll, WriteOutcome, WriteProgress};
use crate::sched::Context;

verus! {

/// Where the echo handler stands: waiting for bytes, writing the last
/// chunk back, or done with the connection.
pub enum EchoState {
    Reading,
    Writing(WriteAll),
    Closed,
}

/// What the embedding program should do next for this handler.
#[derive(Clone, Copy, PartialEq, Eq, Structural, Debug)]
pub enum EchoAction {
    /// Attempt a read on the connection and hand the outcome to `on_read`.
    DoRead,
    /// Attempt a write of the machine's pending bytes and hand the outcome
    /// to `on_write`.
    DoWrite,
    /// An interest is declared; suspend, and repeat the previous attempt
    /// when woken.
    Suspend,
    /// The connection is finished; drop the handler.
    Stop,
}

/// The per-connection echo handler.
pub struct EchoConn {
    conn: Conn,
    state: EchoState,
}

impl EchoConn {
    /// The handler's current state.
    pub closed spec fn state_view(&self) -> EchoState {
        self.state
    }

    /// The descriptor of the connection served.
    pub closed spec fn conn_fd(&self) -> i32 {
        self.conn.fd_view()
    }

    /// While writing, the writer targets this connection and still has
    /// bytes to transfer.
    pub open spec fn wf(&self) -> bool {
        self.state_view() matches EchoState::Writing(w) ==> w.wf() && w.fd_view()
            == self.conn_fd() && w.pos_view() < w.buf_view().len()
    }

    /// A fresh handler for an accepted connection, ready to read.
    pub fn new(conn: Conn) -> (h: EchoConn)
        ensures
            h.wf(),
            h.state_view() is Reading,
            h.conn_fd() == conn.fd_view(),
    {
        EchoConn { conn, state: EchoState::Reading }
    }

    /// The bytes still to be written back, when the handler is writing —
    /// what the embedding program hands to the next write attempt.
    pub fn pending_write(&self) -> (r: Option<Vec<u8>>)
        requires
            self.wf(),
        ensures
            match self.state_view() {
                EchoState::Writing(w) => r matches Some(v) && v@ == w.buf_view().subrange(
                    w.pos_view(),
                    w.buf_view().len() as int,
                ),
                _ => r is None,
            },
    {
        match &self.state {
            EchoState::Writing(w) => Some(w.pending()),
            _ => None,
        }
    }

    /// Feed the outcome of one read attempt. Empty data is the end of the
    /// stream and closes the handler; data starts an echo of exactly those
    /// bytes; would-block declares read interest and suspends. A read
    /// failure is outside the handler's contract (the embedding program
    /// treats one as fatal to the process), so it is excluded here.
    pub fn on_read<S>(&mut self, ctx: &mut Context<S>, outcome: ReadOutcome) -> (a: EchoAction)
        requires
            old(self).wf(),
            old(self).state_view() is Reading,
            !(outcome is Fail),
        ensures
            final(self).wf(),
            final(self).conn_fd() == old(self).conn_fd(),
            match outcome {
                ReadOutcome::Data(d) => {
                    if d@.len() == 0 {
                        &&& final(self).state_view() is Closed
                        &&& a == EchoAction::Stop
                        &&& *final(ctx) == *old(ctx)
                    } else {
                        &&& final(self).state_view() matches EchoState::Writing(w) && w.buf_view()
                            == d@ && w.pos_view() == 0
                        &&& a == EchoAction::DoWrite
                        &&& *final(ctx) == *old(ctx)
                    }
                },
                ReadOutcome::WouldBlock => {
                    &&& final(self).state_view() is Reading
                    &&& a == EchoAction::Suspend
                    &&& final(ctx).interest_view() == Some(
                        crate::sched::Interest {
                            fd: old(self).conn_fd(),
                            kind: crate::sched::InterestKind::Read,
                        },
                    )
                    &&& final(ctx).spawned_view() == old(ctx).spawned_view()
                },
                ReadOutcome::Fail(_) => true,
            },
    {
        let r = self.conn.read(ctx, outcome);
        match r {
            None => EchoAction::Suspend,
            Some(Ok(d)) => {
                if d.len() == 0 {
                    self.state = EchoState::Closed;
                    EchoAction::Stop
                } else {
                    self.state = EchoState::Writing(self.conn.write_all(d));
                    EchoAction::DoWrite
                }
            },
            Some(Err(_)) => {
                proof {
                    assert(false);
                }
                EchoAction::Stop
            },
        }
    }

    /// Feed the outcome of one write attempt on the pending bytes. When
    /// the chunk is fully written — or the write failed, which the echo
    /// service deliberately ignores — the handler goes back to reading;
    /// an interrupted write is retried at once; would-block declares write
    /// interest and suspends.
    pub fn on_write<S>(&mut self, ctx: &mut Context<S>, outcome: WriteOutcome) -> (a: EchoAction)
        requires
            old(self).wf(),
            old(self).state_view() is Writing,
            ({
                let w = old(self).state_view()->Writing_0;
                outcome matches WriteOutcome::Wrote(n) ==> n <= w.buf_view().len() - w.pos_view()
            }),
        ensures
            final(self).wf(),
            final(self).conn_fd() == old(self).conn_fd(),
            ({
                let w = old(self).state_view()->Writing_0;
                match outcome {
                    WriteOutcome::Wrote(n) => {
                        if n == 0 || w.pos_view() + n == w.buf_view().len() {
                            // progress impossible (ignored) or chunk done
                            &&& final(self).state_view() is Reading
                            &&& a == EchoAction::DoRead
                            &&& *final(ctx) == *old(ctx)
                        } else {
                            &&& final(self).state_view() matches EchoState::Writing(w2)
                                && w2.buf_view() == w.buf_view() && w2.pos_view() == w.pos_view()
                                + n
                            &&& a == EchoAction::DoWrite
                            &&& *final(ctx) == *old(ctx)
                        }
                    },
                    WriteOutcome::WouldBlock => {
                        &&& final(self).state_view() matches EchoState::Writing(w2) && w2
                            == w
                        &&& a == EchoAction::Suspend
                        &&& final(ctx).interest_view() == Some(
                            crate::sched::Interest {
                                fd: old(self).conn_fd(),
                                kind: crate::sched::InterestKind::Write,
                            },
                        )
                        &&& final(ctx).spawned_view() == old(ctx).spawned_view()
                    },
                    WriteOutcome::Fail(e) => {
                        if e == IoErrorKind::Interrupted {
                            &&& final(self).state_view() matches EchoState::Writing(w2) && w2
                                == w
                            &&& a == EchoAction::DoWrite
                            &&& *final(ctx) == *old(ctx)
                        } else {
                            // the echo loop drops the write result
                            &&& final(self).state_view() is Reading
                            &&& a == EchoAction::DoRead
                            &&& *final(ctx) == *old(ctx)
                        }
                    },
                }
            }),
    {
        let mut st = EchoState::Reading;
        core::mem::swap(&mut st, &mut self.state);
        match st {
            EchoState::Writing(mut w) => {
                let p = w.step(ctx, outcome);
                match p {
                    WriteProgress::Finished => EchoAction::DoRead,
                    WriteProgress::Failed(_) => EchoAction::DoRead,
                    WriteProgress::Retry => {
                        self.state = EchoState::Writing(w);
                        EchoAction::DoWrite
                    },
                    WriteProgress::Suspended => {
                        self.state = EchoState::Writing(w);
                        EchoAction::Suspend
                    },
                }
            },
            _ => {
                proof {
                    assert(false);
                }
                EchoAction::Stop
            },
        }
    }
}

} // verus!
