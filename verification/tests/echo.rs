//! Tests of the echo handler state machine.

use coopio::echo::{EchoAction, EchoConn};
use coopio::net::{Conn, IoErrorKind, ReadOutcome, WriteOutcome};
use coopio::sched::{Context, Interest, InterestKind};

#[test]
fn echo_writes_back_what_it_read_then_reads_again() {
    let mut ctx: Context<()> = Context::new();
    let mut h = EchoConn::new(Conn::new(3));
    let a = h.on_read(&mut ctx, ReadOutcome::Data(vec![b'h', b'i']));
    assert_eq!(a, EchoAction::DoWrite);
    let a = h.on_write(&mut ctx, WriteOutcome::Wrote(2));
    assert_eq!(a, EchoAction::DoRead);
}

#[test]
fn echo_eof_stops_the_handler() {
    let mut ctx: Context<()> = Context::new();
    let mut h = EchoConn::new(Conn::new(3));
    let a = h.on_read(&mut ctx, ReadOutcome::Data(Vec::new()));
    assert_eq!(a, EchoAction::Stop);
}

#[test]
fn echo_read_wouldblock_suspends_with_read_interest() {
    let mut ctx: Context<()> = Context::new();
    let mut h = EchoConn::new(Conn::new(3));
    let a = h.on_read(&mut ctx, ReadOutcome::WouldBlock);
    assert_eq!(a, EchoAction::Suspend);
    assert_eq!(
        ctx.pending_interest(),
        Some(Interest { fd: 3, kind: InterestKind::Read })
    );
}

#[test]
fn echo_partial_writes_continue_until_done() {
    let mut ctx: Context<()> = Context::new();
    let mut h = EchoConn::new(Conn::new(3));
    let a = h.on_read(&mut ctx, ReadOutcome::Data(vec![1, 2, 3, 4, 5]));
    assert_eq!(a, EchoAction::DoWrite);
    let a = h.on_write(&mut ctx, WriteOutcome::Wrote(2));
    assert_eq!(a, EchoAction::DoWrite);
    let a = h.on_write(&mut ctx, WriteOutcome::WouldBlock);
    assert_eq!(a, EchoAction::Suspend);
    assert_eq!(
        ctx.pending_interest(),
        Some(Interest { fd: 3, kind: InterestKind::Write })
    );
    let a = h.on_write(&mut ctx, WriteOutcome::Wrote(3));
    assert_eq!(a, EchoAction::DoRead);
}

#[test]
fn echo_ignores_write_errors_and_reads_on() {
    let mut ctx: Context<()> = Context::new();
    let mut h = EchoConn::new(Conn::new(3));
    let a = h.on_read(&mut ctx, ReadOutcome::Data(vec![9]));
    assert_eq!(a, EchoAction::DoWrite);
    let a = h.on_write(&mut ctx, WriteOutcome::Fail(IoErrorKind::Other));
    assert_eq!(a, EchoAction::DoRead);
}

#[test]
fn echo_interrupted_write_retries_at_once() {
    let mut ctx: Context<()> = Context::new();
    let mut h = EchoConn::new(Conn::new(3));
    let a = h.on_read(&mut ctx, ReadOutcome::Data(vec![9]));
    assert_eq!(a, EchoAction::DoWrite);
    let a = h.on_write(&mut ctx, WriteOutcome::Fail(IoErrorKind::Interrupted));
    assert_eq!(a, EchoAction::DoWrite);
    assert_eq!(ctx.pending_interest(), None);
}
