//! Non-blocking socket adapters: the listener and the connection, modelled
//! by the descriptor the logic tracks. Each adapter operation is a small
//! state machine driven by the outcome of one non-blocking syscall, handed
//! in as a plain value by the embedding program: on would-block it declares
//! the readiness interest it waits for and suspends; on any other outcome
//! it completes with that outcome.

use vstd::prelude::*;

use crate::sched::{Context, Interest, InterestKind};

verus! {

/// The error taxonomy the adapters distinguish. Would-block is not an error
/// (it is a suspension) and has no variant here; every other condition the
/// embedding program maps onto one of these.
#[derive(Clone, Copy, PartialEq, Eq, Structural, Debug)]
pub enum IoErrorKind {
    /// The syscall was interrupted; a transient condition, retried silently.
    Interrupted,
    /// A successful zero-byte write: the peer would accept no more progress.
    WriteZero,
    /// The stream ended before a complete unit of input arrived.
    UnexpectedEof,
    /// The input could not be parsed.
    InvalidData,
    /// Any other operation failure.
    Other,
}

/// What one non-blocking accept attempt yielded: a new connection's
/// descriptor, a would-block condition, or a failure.
pub enum AcceptOutcome {
    Accepted(i32),
    WouldBlock,
    Fail(IoErrorKind),
}

/// What one non-blocking read attempt yielded: the bytes read (empty means
/// end of stream), a would-block condition, or a failure.
pub enum ReadOutcome {
    Data(Vec<u8>),
    WouldBlock,
    Fail(IoErrorKind),
}

/// What one non-blocking write attempt yielded: the number of bytes the
/// peer accepted, a would-block condition, or a failure.
pub enum WriteOutcome {
    Wrote(usize),
    WouldBlock,
    Fail(IoErrorKind),
}

/// A bound, listening socket, tracked by its descriptor. Binding itself is
/// an OS operation of the embedding program; the adapter logic needs only
/// the descriptor on which it declares read interest.
pub struct TcpListener {
    fd: i32,
}

/// An accepted bidirectional byte-stream connection, tracked by its
/// descriptor.
pub struct Conn {
    fd: i32,
}

impl TcpListener {
    /// The descriptor this listener wraps.
    pub closed spec fn fd_view(&self) -> i32 {
        self.fd
    }

    pub fn new(fd: i32) -> (l: TcpListener)
        ensures
            l.fd_view() == fd,
    {
        TcpListener { fd }
    }

    /// The descriptor, for the embedding program's own bookkeeping.
    pub fn fd(&self) -> (r: i32)
        ensures
            r == self.fd_view(),
    {
        self.fd
    }

    /// One drive of the accept computation. On success it completes with
    /// the new connection; on would-block it declares read interest for the
    /// listener's descriptor and suspends; on any other error it completes
    /// with that error — no automatic retry.
    pub fn accept<S>(&self, ctx: &mut Context<S>, outcome: AcceptOutcome) -> (r: Option<
        Result<Conn, IoErrorKind>,
    >)
        ensures
            match outcome {
                AcceptOutcome::Accepted(cfd) => {
                    &&& r matches Some(Ok(c)) && c.fd_view() == cfd
                    &&& *final(ctx) == *old(ctx)
                },
                AcceptOutcome::WouldBlock => {
                    &&& r is None
                    &&& final(ctx).interest_view() == Some(
                        Interest { fd: self.fd_view(), kind: InterestKind::Read },
                    )
                    &&& final(ctx).spawned_view() == old(ctx).spawned_view()
                },
                AcceptOutcome::Fail(e) => {
                    &&& r == Some(Result::<Conn, IoErrorKind>::Err(e))
                    &&& *final(ctx) == *old(ctx)
                },
            },
    {
        match outcome {
            AcceptOutcome::Accepted(cfd) => Some(Ok(Conn { fd: cfd })),
            AcceptOutcome::WouldBlock => {
                ctx.register_read(self.fd);
                None
            },
            AcceptOutcome::Fail(e) => Some(Err(e)),
        }
    }
}

impl Conn {
    /// The descriptor this connection wraps.
    pub closed spec fn fd_view(&self) -> i32 {
        self.fd
    }

    pub fn new(fd: i32) -> (c: Conn)
        ensures
            c.fd_view() == fd,
    {
        Conn { fd }
    }

    /// The descriptor, for the embedding program's own bookkeeping.
    pub fn fd(&self) -> (r: i32)
        ensures
            r == self.fd_view(),
    {
        self.fd
    }

    /// One drive of the read computation: identical would-block handling to
    /// accept, registering read interest for this connection's descriptor.
    pub fn read<S>(&self, ctx: &mut Context<S>, outcome: ReadOutcome) -> (r: Option<
        Result<Vec<u8>, IoErrorKind>,
    >)
        ensures
            match outcome {
                ReadOutcome::Data(d) => {
                    &&& r matches Some(Ok(v)) && v@ == d@
                    &&& *final(ctx) == *old(ctx)
                },
                ReadOutcome::WouldBlock => {
                    &&& r is None
                    &&& final(ctx).interest_view() == Some(
                        Interest { fd: self.fd_view(), kind: InterestKind::Read },
                    )
                    &&& final(ctx).spawned_view() == old(ctx).spawned_view()
                },
                ReadOutcome::Fail(e) => {
                    &&& r == Some(Result::<Vec<u8>, IoErrorKind>::Err(e))
                    &&& *final(ctx) == *old(ctx)
                },
            },
    {
        match outcome {
            ReadOutcome::Data(d) => Some(Ok(d)),
            ReadOutcome::WouldBlock => {
                ctx.register_read(self.fd);
                None
            },
            ReadOutcome::Fail(e) => Some(Err(e)),
        }
    }

    /// One drive of the single-write computation: on would-block it
    /// declares *write* interest — kept distinct from read interest, since
    /// a writer woken on read readiness resumes on the wrong condition.
    pub fn write<S>(&self, ctx: &mut Context<S>, outcome: WriteOutcome) -> (r: Option<
        Result<usize, IoErrorKind>,
    >)
        ensures
            match outcome {
                WriteOutcome::Wrote(n) => {
                    &&& r == Some(Result::<usize, IoErrorKind>::Ok(n))
                    &&& *final(ctx) == *old(ctx)
                },
                WriteOutcome::WouldBlock => {
                    &&& r is None
                    &&& final(ctx).interest_view() == Some(
                        Interest { fd: self.fd_view(), kind: InterestKind::Write },
                    )
                    &&& final(ctx).spawned_view() == old(ctx).spawned_view()
                },
                WriteOutcome::Fail(e) => {
                    &&& r == Some(Result::<usize, IoErrorKind>::Err(e))
                    &&& *final(ctx) == *old(ctx)
                },
            },
    {
        match outcome {
            WriteOutcome::Wrote(n) => Some(Ok(n)),
            WriteOutcome::WouldBlock => {
                ctx.register_write(self.fd);
                None
            },
            WriteOutcome::Fail(e) => Some(Err(e)),
        }
    }

    /// Begin writing the whole of `buf` to this connection: the returned
    /// machine repeatedly drives single writes until the buffer is fully
    /// consumed.
    pub fn write_all(&self, buf: Vec<u8>) -> (w: WriteAll)
        ensures
            w.wf(),
            w.fd_view() == self.fd_view(),
            w.buf_view() == buf@,
            w.pos_view() == 0,
    {
        WriteAll { fd: self.fd, buf, pos: 0 }
    }
}

/// How one step of the whole-buffer write proceeded.
#[derive(Clone, Copy, PartialEq, Eq, Structural, Debug)]
pub enum WriteProgress {
    /// Attempt the next write at once, without suspending.
    Retry,
    /// Write interest is declared; suspend and step again when woken.
    Suspended,
    /// The whole buffer has been transferred.
    Finished,
    /// A fatal condition; the remainder of the buffer is not attempted.
    Failed(IoErrorKind),
}

/// The whole-buffer write machine: tracks how much of the buffer the peer
/// has accepted so far. A zero-byte successful write is fatal ("would not
/// make progress"); an interrupted write is retried silently with no
/// suspension; a would-block condition suspends with write interest; any
/// other error is propagated at once without attempting the remainder.
pub struct WriteAll {
    fd: i32,
    buf: Vec<u8>,
    pos: usize,
}

impl WriteAll {
    /// The descriptor written to.
    pub closed spec fn fd_view(&self) -> i32 {
        self.fd
    }

    /// The whole buffer being transferred.
    pub closed spec fn buf_view(&self) -> Seq<u8> {
        self.buf@
    }

    /// How many bytes the peer has accepted so far.
    pub closed spec fn pos_view(&self) -> int {
        self.pos as int
    }

    /// The accepted prefix never exceeds the buffer.
    pub open spec fn wf(&self) -> bool {
        0 <= self.pos_view() <= self.buf_view().len()
    }

    /// Whether the whole buffer has been transferred.
    pub fn finished(&self) -> (r: bool)
        ensures
            r == (self.pos_view() == self.buf_view().len()),
    {
        self.pos == self.buf.len()
    }

    /// How many bytes remain to be written; the next write attempt should
    /// offer exactly these.
    pub fn remaining(&self) -> (r: usize)
        requires
            self.wf(),
        ensures
            r == self.buf_view().len() - self.pos_view(),
    {
        self.buf.len() - self.pos
    }

    /// The bytes still to be written, for the embedding program to hand to
    /// the next write syscall.
    pub fn pending(&self) -> (r: Vec<u8>)
        requires
            self.wf(),
        ensures
            r@ == self.buf_view().subrange(self.pos_view(), self.buf_view().len() as int),
    {
        let mut out: Vec<u8> = Vec::new();
        let mut i: usize = self.pos;
        while i < self.buf.len()
            invariant
                self.wf(),
                self.pos <= i <= self.buf@.len(),
                out@ == self.buf@.subrange(self.pos as int, i as int),
            decreases self.buf@.len() - i,
        {
            out.push(self.buf[i]);
            proof {
                assert(out@ =~= self.buf@.subrange(self.pos as int, i + 1));
            }
            i += 1;
        }
        proof {
            assert(out@ =~= self.buf@.subrange(self.pos as int, self.buf@.len() as int));
        }
        out
    }

    /// One step of the whole-buffer write, driven by the outcome of one
    /// write attempt on the remaining bytes. A successful write advances
    /// the position by exactly the count the peer accepted; the machine
    /// finishes exactly when the position reaches the buffer's length, so
    /// the bytes written over the machine's lifetime sum to the buffer's
    /// length.
    pub fn step<S>(&mut self, ctx: &mut Context<S>, outcome: WriteOutcome) -> (p: WriteProgress)
        requires
            old(self).wf(),
            old(self).pos_view() < old(self).buf_view().len(),
            outcome matches WriteOutcome::Wrote(n) ==> n <= old(self).buf_view().len() - old(
                self,
            ).pos_view(),
        ensures
            final(self).wf(),
            final(self).buf_view() == old(self).buf_view(),
            final(self).fd_view() == old(self).fd_view(),
            match outcome {
                WriteOutcome::Wrote(n) => {
                    if n == 0 {
                        &&& p == WriteProgress::Failed(IoErrorKind::WriteZero)
                        &&& final(self).pos_view() == old(self).pos_view()
                        &&& *final(ctx) == *old(ctx)
                    } else {
                        &&& final(self).pos_view() == old(self).pos_view() + n
                        &&& p == (if old(self).pos_view() + n == old(self).buf_view().len() {
                            WriteProgress::Finished
                        } else {
                            WriteProgress::Retry
                        })
                        &&& *final(ctx) == *old(ctx)
                    }
                },
                WriteOutcome::WouldBlock => {
                    &&& p == WriteProgress::Suspended
                    &&& *final(self) == *old(self)
                    &&& final(ctx).interest_view() == Some(
                        Interest { fd: old(self).fd_view(), kind: InterestKind::Write },
                    )
                    &&& final(ctx).spawned_view() == old(ctx).spawned_view()
                },
                WriteOutcome::Fail(e) => {
                    &&& *final(self) == *old(self)
                    &&& *final(ctx) == *old(ctx)
                    &&& p == (if e == IoErrorKind::Interrupted {
                        WriteProgress::Retry
                    } else {
                        WriteProgress::Failed(e)
                    })
                },
            },
    {
        match outcome {
            WriteOutcome::Wrote(n) => {
                if n == 0 {
                    WriteProgress::Failed(IoErrorKind::WriteZero)
                } else {
                    let len = self.buf.len();
                    self.pos = self.pos + n;
                    if self.pos == len {
                        WriteProgress::Finished
                    } else {
                        WriteProgress::Retry
                    }
                }
            },
            WriteOutcome::WouldBlock => {
                ctx.register_write(self.fd);
                WriteProgress::Suspended
            },
            WriteOutcome::Fail(e) => {
                if e == IoErrorKind::Interrupted {
                    WriteProgress::Retry
                } else {
                    WriteProgress::Failed(e)
                }
            },
        }
    }
}

/// How many write attempts a transfer of `rem` remaining bytes takes when
/// the peer accepts exactly `k` bytes per attempt (or all that is left,
/// when fewer remain).
pub open spec fn write_attempts_needed(rem: nat, k: nat) -> nat
    decreases rem,
{
    if k == 0 {
        0
    } else if rem == 0 {
        0
    } else if rem <= k {
        1
    } else {
        1 + write_attempts_needed((rem - k) as nat, k)
    }
}

/// Law: a whole-buffer write of `n` bytes against a peer that accepts at
/// most `k` bytes per successful write attempt completes after exactly
/// `ceil(n / k)` attempts, the positions advancing by the accepted counts,
/// which therefore sum to exactly `n`.
pub proof fn lemma_write_all_attempt_count(n: nat, k: nat)
    requires
        1 <= k,
    ensures
        write_attempts_needed(n, k) == (n + k - 1) as int / k as int,
    decreases n,
{
    if n == 0 {
        vstd::arithmetic::div_mod::lemma_basic_div((k - 1) as int, k as int);
    } else if n <= k {
        vstd::arithmetic::div_mod::lemma_basic_div((n - 1) as int, k as int);
        vstd::arithmetic::div_mod::lemma_div_plus_one((n - 1) as int, k as int);
    } else {
        lemma_write_all_attempt_count((n - k) as nat, k);
        vstd::arithmetic::div_mod::lemma_div_plus_one((n - 1) as int, k as int);
    }
}

} // verus!
