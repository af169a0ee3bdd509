//! Responses: status, ordered header fields and body, and their wire form.

use vstd::prelude::*;
use vstd::string::StringSliceAdditionalSpecFns;
use crate::headers::Headers;

verus! {

/// The statuses this server answers with.
#[derive(Clone, Copy, Debug, PartialEq, Eq, Structural)]
pub enum Status {
    Success,
    Created,
    BadRequest,
    NotFound,
    MethodNotAllowed,
    InternalServerError,
}

/// The status line, CRLF included.
pub open spec fn status_line(s: Status) -> Seq<u8> {
    match s {
        Status::Success => "HTTP/1.1 200 OK\r\n".spec_bytes(),
        Status::Created => "HTTP/1.1 201 Created\r\n".spec_bytes(),
        Status::BadRequest => "HTTP/1.1 400 Bad Request\r\n".spec_bytes(),
        Status::NotFound => "HTTP/1.1 404 Not Found\r\n".spec_bytes(),
        Status::MethodNotAllowed => "HTTP/1.1 405 Method Not Allowed\r\n".spec_bytes(),
        Status::InternalServerError => "HTTP/1.1 500 Internal Server Error\r\n".spec_bytes(),
    }
}

pub open spec fn crlf() -> Seq<u8> {
    "\r\n".spec_bytes()
}

/// The header lines of `hs`, in order, each `name: value` and CRLF.
pub open spec fn header_lines(hs: Seq<(Seq<u8>, Seq<u8>)>) -> Seq<u8>
    decreases hs.len(),
{
    if hs.len() == 0 {
        Seq::empty()
    } else {
        header_lines(hs.drop_last()) + hs.last().0 + ": ".spec_bytes() + hs.last().1 + crlf()
    }
}

/// The decimal digits of `n`, most significant first.
pub open spec fn decimal(n: nat) -> Seq<u8>
    decreases n,
{
    if n < 10 {
        seq![(0x30 + n) as u8]
    } else {
        decimal(n / 10).push((0x30 + n % 10) as u8)
    }
}

/// A response as values: status, header fields in order, body.
pub struct ResponseModel {
    pub status: Status,
    pub headers: Seq<(Seq<u8>, Seq<u8>)>,
    pub body: Seq<u8>,
}

/// The bytes a response is sent as: status line, header lines, a blank line, the body.
pub open spec fn wire(r: ResponseModel) -> Seq<u8> {
    status_line(r.status) + header_lines(r.headers) + crlf() + r.body
}

/// A response with no header fields and no body.
pub open spec fn bare(s: Status) -> ResponseModel {
    ResponseModel { status: s, headers: Seq::empty(), body: Seq::empty() }
}

/// A response with a body: the given fields, then `Content-Length` for the body.
pub open spec fn with_body(s: Status, hs: Seq<(Seq<u8>, Seq<u8>)>, body: Seq<u8>) -> ResponseModel {
    ResponseModel {
        status: s,
        headers: hs.push(("Content-Length".spec_bytes(), decimal(body.len()))),
        body,
    }
}

/// A response sent as it is built.
pub struct Response {
    pub status: Status,
    pub headers: Headers,
    pub body: Vec<u8>,
}

impl View for Response {
    type V = ResponseModel;

    open spec fn view(&self) -> ResponseModel {
        ResponseModel { status: self.status, headers: self.headers.model(), body: self.body@ }
    }
}

/// Appends the bytes of `s` to `out`.
pub fn append_str(out: &mut Vec<u8>, s: &str)
    ensures
        final(out)@ == old(out)@ + s.spec_bytes(),
{
    append(out, s.as_bytes());
}

/// Appends `s` to `out`.
pub fn append(out: &mut Vec<u8>, s: &[u8])
    ensures
        final(out)@ == old(out)@ + s@,
{
    let mut i: usize = 0;
    while i < s.len()
        invariant
            i <= s@.len(),
            out@ == old(out)@ + s@.subrange(0, i as int),
        decreases s@.len() - i,
    {
        out.push(s[i]);
        i = i + 1;
        assert(out@ =~= old(out)@ + s@.subrange(0, i as int));
    }
    assert(s@.subrange(0, i as int) =~= s@);
}

/// The decimal digits of `n`.
pub fn decimal_bytes(n: usize) -> (r: Vec<u8>)
    ensures
        r@ == decimal(n as nat),
    decreases n,
{
    if n < 10 {
        let d: u8 = n as u8;
        let mut r: Vec<u8> = Vec::new();
        r.push(0x30u8 + d);
        assert(r@ =~= decimal(n as nat));
        r
    } else {
        let mut r = decimal_bytes(n / 10);
        let d: u8 = (n % 10) as u8;
        r.push(0x30u8 + d);
        r
    }
}

impl Status {
    /// The status line, CRLF included.
    pub fn line(&self) -> (r: &'static str)
        ensures
            r.spec_bytes() == status_line(*self),
    {
        match self {
            Status::Success => "HTTP/1.1 200 OK\r\n",
            Status::Created => "HTTP/1.1 201 Created\r\n",
            Status::BadRequest => "HTTP/1.1 400 Bad Request\r\n",
            Status::NotFound => "HTTP/1.1 404 Not Found\r\n",
            Status::MethodNotAllowed => "HTTP/1.1 405 Method Not Allowed\r\n",
            Status::InternalServerError => "HTTP/1.1 500 Internal Server Error\r\n",
        }
    }
}

impl Response {
    /// A response of status `s` with no header fields and no body.
    pub fn bare(s: Status) -> (r: Response)
        ensures
            r@ == bare(s),
    {
        let r = Response { status: s, headers: Headers::new(), body: Vec::new() };
        assert(r@.body =~= Seq::<u8>::empty());
        r
    }

    /// A response of status `s` with the fields `hs`, then `Content-Length`, and `body`.
    pub fn with_body(s: Status, hs: Headers, body: Vec<u8>) -> (r: Response)
        ensures
            r@ == with_body(s, hs.model(), body@),
    {
        let mut hs = hs;
        let mut name: Vec<u8> = Vec::new();
        append_str(&mut name, "Content-Length");
        assert(name@ =~= "Content-Length".spec_bytes());
        hs.insert(name, decimal_bytes(body.len()));
        Response { status: s, headers: hs, body }
    }

    /// The bytes this response is sent as.
    pub fn to_bytes(&self) -> (r: Vec<u8>)
        ensures
            r@ == wire(self@),
    {
        let mut out: Vec<u8> = Vec::new();
        append_str(&mut out, self.status.line());
        let mut i: usize = 0;
        while i < self.headers.entries.len()
            invariant
                i <= self.headers.entries@.len(),
                out@ == status_line(self.status) + header_lines(self.headers.model().subrange(0, i as int)),
            decreases self.headers.entries@.len() - i,
        {
            let ghost before = out@;
            append(&mut out, self.headers.entries[i].name.as_slice());
            append_str(&mut out, ": ");
            append(&mut out, self.headers.entries[i].value.as_slice());
            append_str(&mut out, "\r\n");
            let ghost sub = self.headers.model().subrange(0, i + 1);
            assert(sub.drop_last() =~= self.headers.model().subrange(0, i as int));
            assert(sub.last() == self.headers.model()[i as int]);
            i = i + 1;
            assert(out@ =~= status_line(self.status) + header_lines(self.headers.model().subrange(0, i as int)));
        }
        assert(self.headers.model().subrange(0, i as int) =~= self.headers.model());
        append_str(&mut out, "\r\n");
        append(&mut out, self.body.as_slice());
        assert(out@ =~= wire(self@));
        out
    }
}

} // verus!
