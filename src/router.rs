//! Dispatch of a parsed request to the route that answers it, with content
//! negotiation for the echo route and the traversal guard for file routes.

use vstd::prelude::*;
use vstd::string::StringSliceAdditionalSpecFns;
use crate::bytes::{bytes_equal, contains, contains_dot_dot, copy_range, dot_dot, has_prefix, starts_with, trim, trim_bytes};
use crate::gzip::{gzip, gzip_of};
use crate::headers::{lookup, Headers};
use crate::response::{append_str, bare, with_body, Response, ResponseModel, Status};

verus! {

pub const COMMA: u8 = 0x2c;

/// What the server does for one request, as values.
pub enum Plan {
    /// Send this response.
    Reply(ResponseModel),
    /// Read the named file under the base directory and answer with it.
    ReadFile(Seq<u8>),
    /// Write these bytes to the named file under the base directory.
    WriteFile(Seq<u8>, Seq<u8>),
    /// Close the connection without answering.
    Close,
}

/// What the server does for one request.
pub enum Action {
    Reply(Response),
    ReadFile(Vec<u8>),
    WriteFile(Vec<u8>, Vec<u8>),
    Close,
}

impl View for Action {
    type V = Plan;

    open spec fn view(&self) -> Plan {
        match self {
            Action::Reply(r) => Plan::Reply(r@),
            Action::ReadFile(n) => Plan::ReadFile(n@),
            Action::WriteFile(n, b) => Plan::WriteFile(n@, b@),
            Action::Close => Plan::Close,
        }
    }
}

/// Scanning a comma-separated list at byte `i`, inside an item that began at
/// `st`: some item from there on is `gzip` once trimmed.
pub open spec fn gzip_listed_from(s: Seq<u8>, i: int, st: int) -> bool
    decreases s.len() - i,
{
    if i < 0 || i >= s.len() {
        trim(s.subrange(st, s.len() as int)) == "gzip".spec_bytes()
    } else if s[i] == COMMA {
        trim(s.subrange(st, i)) == "gzip".spec_bytes() || gzip_listed_from(s, i + 1, i + 1)
    } else {
        gzip_listed_from(s, i + 1, st)
    }
}

/// An `Accept-Encoding` value lists the token `gzip`.
pub open spec fn accepts_gzip(s: Seq<u8>) -> bool {
    gzip_listed_from(s, 0, 0)
}

/// The request asks for a compressed body.
pub open spec fn wants_gzip(hs: Seq<(Seq<u8>, Seq<u8>)>) -> bool {
    match lookup(hs, "Accept-Encoding".spec_bytes()) {
        Some(v) => accepts_gzip(v),
        None => false,
    }
}

pub open spec fn text_plain() -> (Seq<u8>, Seq<u8>) {
    ("Content-Type".spec_bytes(), "text/plain".spec_bytes())
}

/// The echo route's answer for `text`: compressed, with `Content-Encoding`,
/// when the request asks for gzip.
pub open spec fn echo_reply(text: Seq<u8>, hs: Seq<(Seq<u8>, Seq<u8>)>) -> ResponseModel {
    if wants_gzip(hs) {
        with_body(
            Status::Success,
            seq![text_plain(), ("Content-Encoding".spec_bytes(), "gzip".spec_bytes())],
            gzip_of(text),
        )
    } else {
        with_body(Status::Success, seq![text_plain()], text)
    }
}

/// The file routes: the traversal guard, then the base directory.
pub open spec fn file_plan(name: Seq<u8>, configured: bool, write: bool, body: Seq<u8>) -> Plan {
    if contains(name, dot_dot()) {
        Plan::Reply(bare(Status::BadRequest))
    } else if !configured {
        Plan::Reply(bare(Status::InternalServerError))
    } else if write {
        Plan::WriteFile(name, body)
    } else {
        Plan::ReadFile(name)
    }
}

/// The route for a request: `method`, `path`, header fields `hs`, body `body`,
/// with or without a configured base directory.
pub open spec fn route(
    method: Seq<u8>,
    path: Seq<u8>,
    hs: Seq<(Seq<u8>, Seq<u8>)>,
    body: Seq<u8>,
    configured: bool,
) -> Plan {
    let echo = "/echo/".spec_bytes();
    let files = "/files/".spec_bytes();
    if method == "GET".spec_bytes() {
        if path == "/".spec_bytes() {
            Plan::Reply(bare(Status::Success))
        } else if has_prefix(path, echo) {
            Plan::Reply(echo_reply(path.subrange(echo.len() as int, path.len() as int), hs))
        } else if has_prefix(path, files) {
            file_plan(path.subrange(files.len() as int, path.len() as int), configured, false, body)
        } else if path == "/user-agent".spec_bytes() {
            match lookup(hs, "User-Agent".spec_bytes()) {
                Some(ua) => Plan::Reply(with_body(Status::Success, seq![text_plain()], ua)),
                None => Plan::Reply(bare(Status::BadRequest)),
            }
        } else {
            Plan::Reply(bare(Status::NotFound))
        }
    } else if method == "POST".spec_bytes() {
        if has_prefix(path, files) {
            file_plan(path.subrange(files.len() as int, path.len() as int), configured, true, body)
        } else {
            Plan::Reply(bare(Status::NotFound))
        }
    } else {
        Plan::Reply(bare(Status::MethodNotAllowed))
    }
}

/// The request reads a body: a `POST` under `/files/`.
pub open spec fn takes_body(method: Seq<u8>, path: Seq<u8>) -> bool {
    method == "POST".spec_bytes() && has_prefix(path, "/files/".spec_bytes())
}

fn literal(s: &str) -> (r: Vec<u8>)
    ensures
        r@ == s.spec_bytes(),
{
    let mut r: Vec<u8> = Vec::new();
    append_str(&mut r, s);
    assert(r@ =~= s.spec_bytes());
    r
}

/// Whether an `Accept-Encoding` value lists the token `gzip`.
pub fn lists_gzip(s: &[u8]) -> (r: bool)
    ensures
        r == accepts_gzip(s@),
{
    let gz = "gzip".as_bytes();
    let mut i: usize = 0;
    let mut st: usize = 0;
    while i < s.len()
        invariant
            st <= i <= s@.len(),
            gz@ == "gzip".spec_bytes(),
            accepts_gzip(s@) == gzip_listed_from(s@, i as int, st as int),
        decreases s@.len() - i,
    {
        if s[i] == COMMA {
            let item = copy_range(s, st, i);
            let t = trim_bytes(item.as_slice());
            if bytes_equal(t.as_slice(), gz) {
                return true;
            }
            i = i + 1;
            st = i;
        } else {
            i = i + 1;
        }
    }
    let item = copy_range(s, st, s.len());
    let t = trim_bytes(item.as_slice());
    bytes_equal(t.as_slice(), gz)
}

/// The echo route's answer for `text`.
pub fn echo(text: Vec<u8>, hs: &Headers) -> (r: Response)
    ensures
        r@ == echo_reply(text@, hs.model()),
{
    let mut fields = Headers::new();
    fields.insert(literal("Content-Type"), literal("text/plain"));
    let gz = match hs.get("Accept-Encoding".as_bytes()) {
        Some(v) => lists_gzip(v.as_slice()),
        None => false,
    };
    if gz {
        let packed = gzip(text.as_slice());
        fields.insert(literal("Content-Encoding"), literal("gzip"));
        let r = Response::with_body(Status::Success, fields, packed);
        assert(r@.headers =~= echo_reply(text@, hs.model()).headers);
        r
    } else {
        let r = Response::with_body(Status::Success, fields, text);
        assert(r@.headers =~= echo_reply(text@, hs.model()).headers);
        r
    }
}

fn file_action(name: Vec<u8>, configured: bool, write: bool, body: Vec<u8>) -> (r: Action)
    ensures
        r@ == file_plan(name@, configured, write, body@),
{
    if contains_dot_dot(name.as_slice()) {
        Action::Reply(Response::bare(Status::BadRequest))
    } else if !configured {
        Action::Reply(Response::bare(Status::InternalServerError))
    } else if write {
        Action::WriteFile(name, body)
    } else {
        Action::ReadFile(name)
    }
}

/// Chooses what to do for a request, as `route` says.
pub fn dispatch(method: &[u8], path: &[u8], hs: &Headers, body: Vec<u8>, configured: bool) -> (r: Action)
    ensures
        r@ == route(method@, path@, hs.model(), body@, configured),
{
    let echo_p = "/echo/".as_bytes();
    let files_p = "/files/".as_bytes();
    if bytes_equal(method, "GET".as_bytes()) {
        if bytes_equal(path, "/".as_bytes()) {
            Action::Reply(Response::bare(Status::Success))
        } else if starts_with(path, echo_p) {
            let text = copy_range(path, echo_p.len(), path.len());
            Action::Reply(echo(text, hs))
        } else if starts_with(path, files_p) {
            let name = copy_range(path, files_p.len(), path.len());
            file_action(name, configured, false, body)
        } else if bytes_equal(path, "/user-agent".as_bytes()) {
            match hs.get("User-Agent".as_bytes()) {
                Some(ua) => {
                    let mut fields = Headers::new();
                    fields.insert(literal("Content-Type"), literal("text/plain"));
                    let r = Response::with_body(Status::Success, fields, ua.clone());
                    assert(r@.headers =~= with_body(Status::Success, seq![text_plain()], ua@).headers);
                    Action::Reply(r)
                },
                None => Action::Reply(Response::bare(Status::BadRequest)),
            }
        } else {
            Action::Reply(Response::bare(Status::NotFound))
        }
    } else if bytes_equal(method, "POST".as_bytes()) {
        if starts_with(path, files_p) {
            let name = copy_range(path, files_p.len(), path.len());
            file_action(name, configured, true, body)
        } else {
            Action::Reply(Response::bare(Status::NotFound))
        }
    } else {
        Action::Reply(Response::bare(Status::MethodNotAllowed))
    }
}

} // verus!
