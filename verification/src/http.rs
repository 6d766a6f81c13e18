//! A minimal line-based HTTP service: requests are accumulated and parsed,
//! and the reply greets the tail of a `/hello/<name>` path. Parsing proper
//! is delegated to the httparse crate behind one trusted wrapper; all the
//! surrounding logic — accumulation, the greeting rule, response assembly,
//! and the per-connection state machine — is verified.

use vstd::prelude::*;
use vstd::string::{StrSliceExecFns, StringExecFns};
use vstd::utf8::encode_utf8;

use crate::net::{Conn, IoErrorKind, ReadOutcome, WriteAll, WriteOutcome, WriteProgress};
use crate::sched::{Context, Interest, InterestKind};

verus! {

/// The interesting parts of a completely parsed request head, as owned
/// plain values.
pub struct ParsedHead {
    pub method: String,
    pub path: String,
    pub version: u8,
    pub headers: Vec<(String, Vec<u8>)>,
}

/// What parsing a byte prefix yields: a complete head, a request still in
/// flight, or malformed input.
pub enum ParseOutcome {
    Complete(ParsedHead),
    Partial,
    Malformed,
}

/// What httparse makes of a buffer: a function of the input bytes alone.
pub uninterp spec fn parse_of(b: Seq<u8>) -> ParseOutcome;

/// Relies on httparse::Request::parse (given room for 16 headers): the
/// outcome — completion with method, path, version and headers, a partial
/// parse, or an error — is a function of the input bytes alone.
#[verifier::external_body]
fn parse_http(buf: &[u8]) -> (r: ParseOutcome)
    ensures
        r == parse_of(buf@),
{
    let mut headers = [httparse::EMPTY_HEADER; 16];
    let mut req = httparse::Request::new(&mut headers);
    match req.parse(buf) {
        Ok(httparse::Status::Partial) => ParseOutcome::Partial,
        Err(_) => ParseOutcome::Malformed,
        Ok(httparse::Status::Complete(_)) => ParseOutcome::Complete(ParsedHead {
            method: req.method.unwrap_or("").to_string(),
            path: req.path.unwrap_or("").to_string(),
            version: req.version.unwrap_or(0),
            headers: req.headers.iter().map(|h| (h.name.to_string(), h.value.to_vec())).collect(),
        }),
    }
}

/// A parsed request, as the service sees it.
#[derive(Debug)]
pub struct Request {
    method: String,
    path: String,
    version: u8,
    headers: Vec<(String, Vec<u8>)>,
}

impl Request {
    /// The request method's characters.
    pub closed spec fn method_view(&self) -> Seq<char> {
        self.method@
    }

    /// The request path's characters.
    pub closed spec fn path_view(&self) -> Seq<char> {
        self.path@
    }

    /// The minor version digit.
    pub closed spec fn version_view(&self) -> u8 {
        self.version
    }

    /// The header list, in wire order: each name with its raw value bytes.
    pub closed spec fn headers_view(&self) -> Seq<(String, Vec<u8>)> {
        self.headers@
    }

    /// The request method, e.g. `GET`.
    pub fn method(&self) -> (r: &str)
        ensures
            r@ == self.method_view(),
    {
        self.method.as_str()
    }

    /// The request path, e.g. `/hello/world`.
    pub fn path(&self) -> (r: &str)
        ensures
            r@ == self.path_view(),
    {
        self.path.as_str()
    }

    /// The headers, in wire order.
    pub fn headers(&self) -> (r: &Vec<(String, Vec<u8>)>)
        ensures
            r@ == self.headers_view(),
    {
        &self.headers
    }
}

/// What one feeding of the decoder yields.
pub enum DecodeStep {
    /// The head is not complete yet; read more bytes.
    NeedMore,
    /// A complete head was parsed.
    Complete(Request),
    /// The stream ended early or the bytes are not a request head.
    Fail(IoErrorKind),
}

/// The request decoder: accumulates the bytes read so far and re-parses
/// the whole prefix after each read, until the head completes.
pub struct Decoder {
    buf: Vec<u8>,
}

impl Decoder {
    /// The bytes accumulated so far.
    pub closed spec fn buf_view(&self) -> Seq<u8> {
        self.buf@
    }

    pub fn new() -> (d: Decoder)
        ensures
            d.buf_view() == Seq::<u8>::empty(),
    {
        Decoder { buf: Vec::new() }
    }

    /// Feed the bytes of one successful read. Empty data means the stream
    /// ended before the head completed; otherwise the enlarged prefix is
    /// parsed, and the step mirrors exactly what httparse makes of it.
    pub fn on_data(&mut self, data: Vec<u8>) -> (r: DecodeStep)
        ensures
            data@.len() == 0 ==> (r matches DecodeStep::Fail(e) && e == IoErrorKind::UnexpectedEof
                && final(self).buf_view() == old(self).buf_view()),
            data@.len() > 0 ==> final(self).buf_view() == old(self).buf_view() + data@ && (match
                parse_of(old(self).buf_view() + data@) {
                ParseOutcome::Partial => r is NeedMore,
                ParseOutcome::Malformed => r matches DecodeStep::Fail(e) && e
                    == IoErrorKind::Other,
                ParseOutcome::Complete(h) => r matches DecodeStep::Complete(req) && ({
                    &&& req.method_view() == h.method@
                    &&& req.path_view() == h.path@
                    &&& req.version_view() == h.version
                    &&& req.headers_view() == h.headers@
                }),
            }),
    {
        if data.len() == 0 {
            return DecodeStep::Fail(IoErrorKind::UnexpectedEof);
        }
        let mut data = data;
        self.buf.append(&mut data);
        match parse_http(self.buf.as_slice()) {
            ParseOutcome::Partial => DecodeStep::NeedMore,
            ParseOutcome::Malformed => DecodeStep::Fail(IoErrorKind::Other),
            ParseOutcome::Complete(h) => DecodeStep::Complete(
                Request {
                    method: h.method,
                    path: h.path,
                    version: h.version,
                    headers: h.headers,
                },
            ),
        }
    }
}

/// The greeting target a path names: the tail of `/hello/<name>`, or
/// "someone" for any other path.
pub open spec fn spec_hello_name(p: Seq<char>) -> Seq<char> {
    if p.len() >= 7 && p.subrange(0, 7) == "/hello/"@ {
        p.subrange(7, p.len() as int)
    } else {
        "someone"@
    }
}

/// Extract the greeting target from a request path.
pub fn hello_name(path: &str) -> (r: String)
    ensures
        r@ == spec_hello_name(path@),
{
    let len = path.unicode_len();
    let is_hello = len >= 7 && path.get_char(0) == '/' && path.get_char(1) == 'h'
        && path.get_char(2) == 'e' && path.get_char(3) == 'l' && path.get_char(4) == 'l'
        && path.get_char(5) == 'o' && path.get_char(6) == '/';
    proof {
        reveal_strlit("/hello/");
    }
    if is_hello {
        proof {
            assert(path@.subrange(0, 7) =~= "/hello/"@);
        }
        let tail = path.substring_char(7, len);
        tail.to_owned()
    } else {
        proof {
            if path@.len() >= 7 && path@.subrange(0, 7) == "/hello/"@ {
                assert(path@[0] == path@.subrange(0, 7)[0]);
                assert(path@[1] == path@.subrange(0, 7)[1]);
                assert(path@[2] == path@.subrange(0, 7)[2]);
                assert(path@[3] == path@.subrange(0, 7)[3]);
                assert(path@[4] == path@.subrange(0, 7)[4]);
                assert(path@[5] == path@.subrange(0, 7)[5]);
                assert(path@[6] == path@.subrange(0, 7)[6]);
                assert(false);
            }
        }
        String::from_str("someone")
    }
}

/// The decimal digit characters.
pub open spec fn digit_char(d: nat) -> char {
    if d == 0 {
        '0'
    } else if d == 1 {
        '1'
    } else if d == 2 {
        '2'
    } else if d == 3 {
        '3'
    } else if d == 4 {
        '4'
    } else if d == 5 {
        '5'
    } else if d == 6 {
        '6'
    } else if d == 7 {
        '7'
    } else if d == 8 {
        '8'
    } else {
        '9'
    }
}

/// The usual decimal rendering of a number, most significant digit first,
/// with no leading zeroes (a lone zero for zero).
pub open spec fn spec_decimal(n: nat) -> Seq<char>
    decreases n,
{
    if n < 10 {
        seq![digit_char(n)]
    } else {
        spec_decimal(n / 10).push(digit_char(n % 10))
    }
}

/// One decimal digit as a string slice.
fn digit_str(d: u64) -> (r: &'static str)
    requires
        d < 10,
    ensures
        r@ == seq![digit_char(d as nat)],
{
    proof {
        reveal_strlit("0");
        reveal_strlit("1");
        reveal_strlit("2");
        reveal_strlit("3");
        reveal_strlit("4");
        reveal_strlit("5");
        reveal_strlit("6");
        reveal_strlit("7");
        reveal_strlit("8");
        reveal_strlit("9");
    }
    let r = if d == 0 {
        "0"
    } else if d == 1 {
        "1"
    } else if d == 2 {
        "2"
    } else if d == 3 {
        "3"
    } else if d == 4 {
        "4"
    } else if d == 5 {
        "5"
    } else if d == 6 {
        "6"
    } else if d == 7 {
        "7"
    } else if d == 8 {
        "8"
    } else {
        "9"
    };
    proof {
        assert(r@ =~= seq![digit_char(d as nat)]);
    }
    r
}

/// Render a number in decimal.
pub fn decimal_string(n: u64) -> (r: String)
    ensures
        r@ == spec_decimal(n as nat),
    decreases n,
{
    if n < 10 {
        String::from_str(digit_str(n))
    } else {
        let mut s = decimal_string(n / 10);
        s.append(digit_str(n % 10));
        proof {
            assert(s@ =~= spec_decimal((n / 10) as nat).push(digit_char((n % 10) as nat)));
        }
        s
    }
}

/// The whole reply to a greeting target: a fixed status line and headers,
/// the content length in decimal (the target's byte length), and the
/// target as the body.
pub open spec fn spec_response(name: Seq<char>) -> Seq<char> {
    "HTTP/1.1 200\r\nServer: Example\r\nContent-Length: "@ + spec_decimal(
        encode_utf8(name).len(),
    ) + "\r\nDate: Wed, 24 May 2017 0:00:00 GMT\r\n\r\n"@ + name
}

/// Assemble the reply for a greeting target.
pub fn build_response(name: &str) -> (r: String)
    ensures
        r@ == spec_response(name@),
{
    let mut s = String::from_str("HTTP/1.1 200\r\nServer: Example\r\nContent-Length: ");
    let n = name.as_bytes().len();
    proof {
        assert(n as nat == encode_utf8(name@).len());
    }
    let len_s = decimal_string(n as u64);
    s.append(len_s.as_str());
    s.append("\r\nDate: Wed, 24 May 2017 0:00:00 GMT\r\n\r\n");
    s.append(name);
    proof {
        assert(s@ =~= spec_response(name@));
    }
    s
}

/// The reply's bytes for a request path.
pub open spec fn spec_response_bytes(path: Seq<char>) -> Seq<u8> {
    encode_utf8(spec_response(spec_hello_name(path)))
}

/// What the embedding program should do next for an HTTP handler.
#[derive(Clone, Copy, PartialEq, Eq, Structural, Debug)]
pub enum HttpAction {
    /// Attempt a read on the connection and hand the outcome to `on_read`.
    DoRead,
    /// Attempt a write of the pending reply bytes and hand the outcome to
    /// `on_write`.
    DoWrite,
    /// An interest is declared; suspend, and repeat the previous attempt
    /// when woken.
    Suspend,
    /// The connection is finished; drop the handler.
    Stop,
}

/// Where the HTTP handler stands: decoding the request, writing the reply,
/// or done.
pub enum HttpState {
    Decoding(Decoder),
    Writing(WriteAll),
    Closed,
}

/// The per-connection HTTP handler: decode one request, reply once, close.
pub struct HttpConn {
    conn: Conn,
    state: HttpState,
}

impl HttpConn {
    /// The handler's current state.
    pub closed spec fn state_view(&self) -> HttpState {
        self.state
    }

    /// The descriptor of the connection served.
    pub closed spec fn conn_fd(&self) -> i32 {
        self.conn.fd_view()
    }

    /// While writing, the writer targets this connection and still has
    /// bytes to transfer.
    pub open spec fn wf(&self) -> bool {
        self.state_view() matches HttpState::Writing(w) ==> w.wf() && w.fd_view()
            == self.conn_fd() && w.pos_view() < w.buf_view().len()
    }

    /// A fresh handler for an accepted connection, ready to decode.
    pub fn new(conn: Conn) -> (h: HttpConn)
        ensures
            h.wf(),
            h.state_view() matches HttpState::Decoding(d) && d.buf_view() == Seq::<u8>::empty(),
            h.conn_fd() == conn.fd_view(),
    {
        HttpConn { conn, state: HttpState::Decoding(Decoder::new()) }
    }

    /// The reply bytes still to be written, when the handler is writing —
    /// what the embedding program hands to the next write attempt.
    pub fn pending_write(&self) -> (r: Option<Vec<u8>>)
        requires
            self.wf(),
        ensures
            match self.state_view() {
                HttpState::Writing(w) => r matches Some(v) && v@ == w.buf_view().subrange(
                    w.pos_view(),
                    w.buf_view().len() as int,
                ),
                _ => r is None,
            },
    {
        match &self.state {
            HttpState::Writing(w) => Some(w.pending()),
            _ => None,
        }
    }

    /// Feed the outcome of one read attempt while decoding. A read failure
    /// or a decode failure ends the handler (the error is logged by the
    /// embedding program and the connection dropped); a complete head
    /// starts the reply; would-block declares read interest and suspends.
    pub fn on_read<S>(&mut self, ctx: &mut Context<S>, outcome: ReadOutcome) -> (a: HttpAction)
        requires
            old(self).wf(),
            old(self).state_view() is Decoding,
        ensures
            final(self).wf(),
            final(self).conn_fd() == old(self).conn_fd(),
            ({
                let dec = old(self).state_view()->Decoding_0;
                match outcome {
                    ReadOutcome::WouldBlock => {
                        &&& final(self).state_view() == old(self).state_view()
                        &&& a == HttpAction::Suspend
                        &&& final(ctx).interest_view() == Some(
                            Interest { fd: old(self).conn_fd(), kind: InterestKind::Read },
                        )
                        &&& final(ctx).spawned_view() == old(ctx).spawned_view()
                    },
                    ReadOutcome::Fail(_) => {
                        &&& final(self).state_view() is Closed
                        &&& a == HttpAction::Stop
                        &&& *final(ctx) == *old(ctx)
                    },
                    ReadOutcome::Data(d) => {
                        &&& *final(ctx) == *old(ctx)
                        &&& if d@.len() == 0 {
                            final(self).state_view() is Closed && a == HttpAction::Stop
                        } else {
                            match parse_of(dec.buf_view() + d@) {
                                ParseOutcome::Partial => {
                                    &&& final(self).state_view() matches HttpState::Decoding(d2)
                                        && d2.buf_view() == dec.buf_view() + d@
                                    &&& a == HttpAction::DoRead
                                },
                                ParseOutcome::Malformed => final(self).state_view() is Closed && a
                                    == HttpAction::Stop,
                                ParseOutcome::Complete(h) => {
                                    if spec_response_bytes(h.path@).len() == 0 {
                                        final(self).state_view() is Closed && a == HttpAction::Stop
                                    } else {
                                        &&& final(self).state_view() matches HttpState::Writing(w)
                                            && w.buf_view() == spec_response_bytes(h.path@)
                                            && w.pos_view() == 0
                                        &&& a == HttpAction::DoWrite
                                    }
                                },
                            }
                        }
                    },
                }
            }),
    {
        let r = self.conn.read(ctx, outcome);
        match r {
            None => HttpAction::Suspend,
            Some(Err(_)) => {
                self.state = HttpState::Closed;
                HttpAction::Stop
            },
            Some(Ok(d)) => {
                let mut st = HttpState::Closed;
                core::mem::swap(&mut st, &mut self.state);
                match st {
                    HttpState::Decoding(mut dec) => {
                        match dec.on_data(d) {
                            DecodeStep::NeedMore => {
                                self.state = HttpState::Decoding(dec);
                                HttpAction::DoRead
                            },
                            DecodeStep::Fail(_) => HttpAction::Stop,
                            DecodeStep::Complete(req) => {
                                let name = hello_name(req.path());
                                let resp = build_response(name.as_str());
                                let bytes = resp.as_str().as_bytes_vec();
                                if bytes.len() == 0 {
                                    HttpAction::Stop
                                } else {
                                    self.state = HttpState::Writing(self.conn.write_all(bytes));
                                    HttpAction::DoWrite
                                }
                            },
                        }
                    },
                    _ => {
                        proof {
                            assert(false);
                        }
                        HttpAction::Stop
                    },
                }
            },
        }
    }

    /// Feed the outcome of one write attempt on the reply. When the reply
    /// is fully written — or the write failed, the reply abandoned — the
    /// handler is done; an interrupted write is retried at once;
    /// would-block declares write interest and suspends.
    pub fn on_write<S>(&mut self, ctx: &mut Context<S>, outcome: WriteOutcome) -> (a: HttpAction)
        requires
            old(self).wf(),
            old(self).state_view() is Writing,
            ({
                let w = old(self).state_view()->Writing_0;
                outcome matches WriteOutcome::Wrote(n) ==> n <= w.buf_view().len() - w.pos_view()
            }),
        ensures
            final(self).wf(),
            final(self).conn_fd() == old(self).conn_fd(),
            ({
                let w = old(self).state_view()->Writing_0;
                match outcome {
                    WriteOutcome::Wrote(n) => {
                        if n == 0 || w.pos_view() + n == w.buf_view().len() {
                            &&& final(self).state_view() is Closed
                            &&& a == HttpAction::Stop
                            &&& *final(ctx) == *old(ctx)
                        } else {
                            &&& final(self).state_view() matches HttpState::Writing(w2)
                                && w2.buf_view() == w.buf_view() && w2.pos_view() == w.pos_view()
                                + n
                            &&& a == HttpAction::DoWrite
                            &&& *final(ctx) == *old(ctx)
                        }
                    },
                    WriteOutcome::WouldBlock => {
                        &&& final(self).state_view() matches HttpState::Writing(w2) && w2 == w
                        &&& a == HttpAction::Suspend
                        &&& final(ctx).interest_view() == Some(
                            Interest { fd: old(self).conn_fd(), kind: InterestKind::Write },
                        )
                        &&& final(ctx).spawned_view() == old(ctx).spawned_view()
                    },
                    WriteOutcome::Fail(e) => {
                        if e == IoErrorKind::Interrupted {
                            &&& final(self).state_view() matches HttpState::Writing(w2) && w2 == w
                            &&& a == HttpAction::DoWrite
                            &&& *final(ctx) == *old(ctx)
                        } else {
                            &&& final(self).state_view() is Closed
                            &&& a == HttpAction::Stop
                            &&& *final(ctx) == *old(ctx)
                        }
                    },
                }
            }),
    {
        let mut st = HttpState::Closed;
        core::mem::swap(&mut st, &mut self.state);
        match st {
            HttpState::Writing(mut w) => {
                let p = w.step(ctx, outcome);
                match p {
                    WriteProgress::Finished => HttpAction::Stop,
                    WriteProgress::Failed(_) => HttpAction::Stop,
                    WriteProgress::Retry => {
                        self.state = HttpState::Writing(w);
                        HttpAction::DoWrite
                    },
                    WriteProgress::Suspended => {
                        self.state = HttpState::Writing(w);
                        HttpAction::Suspend
                    },
                }
            },
            _ => {
                proof {
                    assert(false);
                }
                HttpAction::Stop
            },
        }
    }
}

} // verus!
