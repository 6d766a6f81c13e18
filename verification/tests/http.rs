//! Tests of the HTTP decode machine (through the real parser), the
//! greeting rule, the decimal rendering, and the per-connection handler.

use coopio::http::{
    build_response, decimal_string, hello_name, DecodeStep, Decoder, HttpAction, HttpConn,
};
use coopio::net::{Conn, IoErrorKind, ReadOutcome, WriteOutcome};
use coopio::sched::{Context, Interest, InterestKind};

#[test]
fn decode_complete_request_yields_method_and_path() {
    let mut d = Decoder::new();
    let r = d.on_data(b"GET /hello/world HTTP/1.1\r\nHost: x\r\n\r\n".to_vec());
    match r {
        DecodeStep::Complete(req) => {
            assert_eq!(req.method(), "GET");
            assert_eq!(req.path(), "/hello/world");
            assert_eq!(req.headers().len(), 1);
            assert_eq!(req.headers()[0].0, "Host");
            assert_eq!(req.headers()[0].1, b"x".to_vec());
        }
        _ => panic!("expected a complete request"),
    }
}

#[test]
fn decode_partial_request_needs_more() {
    let mut d = Decoder::new();
    let r = d.on_data(b"GET /hel".to_vec());
    assert!(matches!(r, DecodeStep::NeedMore));
    let r = d.on_data(b"lo/bob HTTP/1.1\r\n\r\n".to_vec());
    match r {
        DecodeStep::Complete(req) => assert_eq!(req.path(), "/hello/bob"),
        _ => panic!("expected the request to complete on the second read"),
    }
}

#[test]
fn decode_empty_read_is_unexpected_eof() {
    let mut d = Decoder::new();
    let r = d.on_data(Vec::new());
    assert!(matches!(r, DecodeStep::Fail(IoErrorKind::UnexpectedEof)));
}

#[test]
fn decode_garbage_fails_with_the_catch_all_kind() {
    let mut d = Decoder::new();
    let r = d.on_data(b"\x01\x02 nonsense\r\n\r\n".to_vec());
    assert!(matches!(r, DecodeStep::Fail(IoErrorKind::Other)));
}

#[test]
fn hello_path_names_its_tail() {
    assert_eq!(hello_name("/hello/carol"), "carol");
    assert_eq!(hello_name("/hello/héloïse"), "héloïse");
    assert_eq!(hello_name("/hello/"), "");
}

#[test]
fn other_path_names_someone() {
    assert_eq!(hello_name("/index.html"), "someone");
    assert_eq!(hello_name("/"), "someone");
    assert_eq!(hello_name("/hellx/abc"), "someone");
}

#[test]
fn decimal_renders_exactly() {
    assert_eq!(decimal_string(0), "0");
    assert_eq!(decimal_string(7), "7");
    assert_eq!(decimal_string(42), "42");
    assert_eq!(decimal_string(1900), "1900");
    assert_eq!(decimal_string(18446744073709551615), "18446744073709551615");
}

#[test]
fn response_has_exact_bytes() {
    let r = build_response("bob");
    assert_eq!(
        r,
        "HTTP/1.1 200\r\nServer: Example\r\nContent-Length: 3\r\nDate: Wed, 24 May 2017 0:00:00 GMT\r\n\r\nbob"
    );
}

#[test]
fn handler_decodes_then_replies_then_stops() {
    let mut ctx: Context<()> = Context::new();
    let mut h = HttpConn::new(Conn::new(11));
    // first read would block: suspend with read interest
    let a = h.on_read(&mut ctx, ReadOutcome::WouldBlock);
    assert_eq!(a, HttpAction::Suspend);
    assert_eq!(
        ctx.pending_interest(),
        Some(Interest { fd: 11, kind: InterestKind::Read })
    );
    let mut ctx: Context<()> = Context::new();
    // the request arrives whole
    let a = h.on_read(
        &mut ctx,
        ReadOutcome::Data(b"GET /hello/dan HTTP/1.1\r\n\r\n".to_vec()),
    );
    assert_eq!(a, HttpAction::DoWrite);
    let expected =
        "HTTP/1.1 200\r\nServer: Example\r\nContent-Length: 3\r\nDate: Wed, 24 May 2017 0:00:00 GMT\r\n\r\ndan";
    // the reply goes out in two chunks
    let a = h.on_write(&mut ctx, WriteOutcome::Wrote(10));
    assert_eq!(a, HttpAction::DoWrite);
    let a = h.on_write(&mut ctx, WriteOutcome::Wrote(expected.len() - 10));
    assert_eq!(a, HttpAction::Stop);
}

#[test]
fn handler_read_error_stops() {
    let mut ctx: Context<()> = Context::new();
    let mut h = HttpConn::new(Conn::new(11));
    let a = h.on_read(&mut ctx, ReadOutcome::Fail(IoErrorKind::Other));
    assert_eq!(a, HttpAction::Stop);
}

#[test]
fn handler_eof_before_complete_request_stops() {
    let mut ctx: Context<()> = Context::new();
    let mut h = HttpConn::new(Conn::new(11));
    let a = h.on_read(&mut ctx, ReadOutcome::Data(b"GET /x".to_vec()));
    assert_eq!(a, HttpAction::DoRead);
    let a = h.on_read(&mut ctx, ReadOutcome::Data(Vec::new()));
    assert_eq!(a, HttpAction::Stop);
}
