//! Tests of the socket adapter state machines, driven with scripted
//! syscall outcomes.

use coopio::net::{
    AcceptOutcome, Conn, IoErrorKind, ReadOutcome, TcpListener, WriteOutcome, WriteProgress,
};
use coopio::sched::{Context, Interest, InterestKind};

#[test]
fn accept_success_yields_connection() {
    let mut ctx: Context<()> = Context::new();
    let listener = TcpListener::new(4);
    let r = listener.accept(&mut ctx, AcceptOutcome::Accepted(9));
    match r {
        Some(Ok(conn)) => assert_eq!(conn.fd(), 9),
        _ => panic!("expected an accepted connection"),
    }
    assert_eq!(ctx.pending_interest(), None);
}

#[test]
fn accept_wouldblock_declares_read_interest() {
    let mut ctx: Context<()> = Context::new();
    let listener = TcpListener::new(4);
    let r = listener.accept(&mut ctx, AcceptOutcome::WouldBlock);
    assert!(r.is_none());
    assert_eq!(
        ctx.pending_interest(),
        Some(Interest { fd: 4, kind: InterestKind::Read })
    );
}

#[test]
fn accept_error_completes_with_that_error() {
    let mut ctx: Context<()> = Context::new();
    let listener = TcpListener::new(4);
    let r = listener.accept(&mut ctx, AcceptOutcome::Fail(IoErrorKind::Other));
    assert!(matches!(r, Some(Err(IoErrorKind::Other))));
    assert_eq!(ctx.pending_interest(), None);
}

#[test]
fn read_wouldblock_declares_read_interest() {
    let mut ctx: Context<()> = Context::new();
    let conn = Conn::new(6);
    let r = conn.read(&mut ctx, ReadOutcome::WouldBlock);
    assert!(r.is_none());
    assert_eq!(
        ctx.pending_interest(),
        Some(Interest { fd: 6, kind: InterestKind::Read })
    );
}

#[test]
fn read_data_passes_the_bytes_through() {
    let mut ctx: Context<()> = Context::new();
    let conn = Conn::new(6);
    let r = conn.read(&mut ctx, ReadOutcome::Data(vec![1, 2, 3]));
    assert_eq!(r, Some(Ok(vec![1, 2, 3])));
}

#[test]
fn write_wouldblock_declares_write_interest_not_read() {
    let mut ctx: Context<()> = Context::new();
    let conn = Conn::new(6);
    let r = conn.write(&mut ctx, WriteOutcome::WouldBlock);
    assert!(r.is_none());
    assert_eq!(
        ctx.pending_interest(),
        Some(Interest { fd: 6, kind: InterestKind::Write })
    );
}

#[test]
fn write_all_of_ten_bytes_in_chunks_of_three_takes_four_attempts() {
    let mut ctx: Context<()> = Context::new();
    let conn = Conn::new(8);
    let buf: Vec<u8> = vec![0, 1, 2, 3, 4, 5, 6, 7, 8, 9];
    let n = buf.len();
    let mut w = conn.write_all(buf);
    let mut attempts: usize = 0;
    let mut transferred: usize = 0;
    while !w.finished() {
        let rem = w.remaining();
        let k = if rem < 3 { rem } else { 3 };
        attempts += 1;
        transferred += k;
        match w.step(&mut ctx, WriteOutcome::Wrote(k)) {
            WriteProgress::Retry | WriteProgress::Finished => {}
            other => panic!("unexpected progress: {:?}", other),
        }
        if attempts > n {
            panic!("write_all did not finish");
        }
    }
    assert_eq!(attempts, 4); // ceil(10 / 3)
    assert_eq!(transferred, n);
    assert!(w.finished());
}

#[test]
fn write_all_zero_byte_write_is_fatal() {
    let mut ctx: Context<()> = Context::new();
    let conn = Conn::new(8);
    let mut w = conn.write_all(vec![1, 2, 3]);
    let p = w.step(&mut ctx, WriteOutcome::Wrote(0));
    assert_eq!(p, WriteProgress::Failed(IoErrorKind::WriteZero));
}

#[test]
fn write_all_interrupted_retries_without_suspending() {
    let mut ctx: Context<()> = Context::new();
    let conn = Conn::new(8);
    let mut w = conn.write_all(vec![1, 2, 3]);
    let p = w.step(&mut ctx, WriteOutcome::Fail(IoErrorKind::Interrupted));
    assert_eq!(p, WriteProgress::Retry);
    assert_eq!(ctx.pending_interest(), None);
    assert_eq!(w.remaining(), 3);
}

#[test]
fn write_all_wouldblock_suspends_with_write_interest() {
    let mut ctx: Context<()> = Context::new();
    let conn = Conn::new(8);
    let mut w = conn.write_all(vec![1, 2, 3]);
    let p = w.step(&mut ctx, WriteOutcome::WouldBlock);
    assert_eq!(p, WriteProgress::Suspended);
    assert_eq!(
        ctx.pending_interest(),
        Some(Interest { fd: 8, kind: InterestKind::Write })
    );
}

#[test]
fn write_all_other_error_propagates_at_once() {
    let mut ctx: Context<()> = Context::new();
    let conn = Conn::new(8);
    let mut w = conn.write_all(vec![1, 2, 3]);
    let p = w.step(&mut ctx, WriteOutcome::Fail(IoErrorKind::Other));
    assert_eq!(p, WriteProgress::Failed(IoErrorKind::Other));
    assert_eq!(w.remaining(), 3);
}

#[test]
fn write_all_pending_returns_the_unwritten_tail() {
    let mut ctx: Context<()> = Context::new();
    let conn = Conn::new(8);
    let mut w = conn.write_all(vec![10, 11, 12, 13, 14]);
    assert_eq!(w.pending(), vec![10, 11, 12, 13, 14]);
    let p = w.step(&mut ctx, WriteOutcome::Wrote(2));
    assert_eq!(p, WriteProgress::Retry);
    assert_eq!(w.pending(), vec![12, 13, 14]);
}
