//! One connection's request loop as a function from received bytes to the
//! next step, and the connection state that keeps the unread bytes.

use vstd::prelude::*;
use vstd::string::StringSliceAdditionalSpecFns;
use crate::bytes::{bytes_equal, copy_range, eq_ignore_case, equals_ignore_case, starts_with};
use crate::headers::{lookup, Headers};
use crate::request::{LF, request_line, head_end, head_fields, parse_head, parse_request_line, request_target};
use crate::response::{append, append_str, bare, with_body, Response, ResponseModel, Status};
use crate::router::{dispatch, route, takes_body, Action, Plan};

verus! {

pub open spec fn is_digit(b: u8) -> bool {
    0x30u8 <= b <= 0x39u8
}

/// The value of a string of decimal digits.
pub open spec fn digits_value(d: Seq<u8>) -> nat
    decreases d.len(),
{
    if d.len() == 0 {
        0
    } else {
        digits_value(d.drop_last()) * 10 + (d.last() - 0x30) as nat
    }
}

/// The digits of an unsigned number: the text without one leading `+`.
pub open spec fn unsigned_digits(s: Seq<u8>) -> Seq<u8> {
    if s.len() > 0 && s[0] == 0x2bu8 {
        s.drop_first()
    } else {
        s
    }
}

/// `s` read as a `usize` the way `str::parse` reads it: an optional `+`, one
/// or more decimal digits, and a value that fits.
pub open spec fn parse_usize(s: Seq<u8>) -> Option<nat> {
    let d = unsigned_digits(s);
    if d.len() > 0 && (forall|k: int| 0 <= k < d.len() ==> is_digit(#[trigger] d[k]))
        && digits_value(d) <= usize::MAX {
        Some(digits_value(d))
    } else {
        None
    }
}

/// The body length a request declares: its `Content-Length`, or 0 when that
/// is absent or not a number.
pub open spec fn content_length(hs: Seq<(Seq<u8>, Seq<u8>)>) -> nat {
    match lookup(hs, "Content-Length".spec_bytes()) {
        Some(v) => match parse_usize(v) {
            Some(n) => n,
            None => 0,
        },
        None => 0,
    }
}

/// The request asks to close the connection.
pub open spec fn asks_close(hs: Seq<(Seq<u8>, Seq<u8>)>) -> bool {
    match lookup(hs, "Connection".spec_bytes()) {
        Some(v) => eq_ignore_case(v, "close".spec_bytes()),
        None => false,
    }
}

/// The next step of a connection, as values.
pub enum StepPlan {
    /// The buffer does not yet hold a whole request.
    NeedMore,
    /// Close without answering.
    Close,
    /// Carry out this plan; the request took this many bytes of the buffer.
    Act(Plan, nat),
}

/// What a connection does with the received bytes `buf`.
pub open spec fn step_plan(buf: Seq<u8>, configured: bool) -> StepPlan {
    match head_end(buf) {
        None => StepPlan::NeedMore,
        Some(end) => {
            let hs = head_fields(buf);
            if asks_close(hs) {
                StepPlan::Close
            } else {
                match request_target(request_line(buf)) {
                    None => StepPlan::Close,
                    Some((m, p)) => if takes_body(m, p) {
                        let n = content_length(hs);
                        if end + n > buf.len() {
                            StepPlan::NeedMore
                        } else {
                            StepPlan::Act(
                                route(m, p, hs, buf.subrange(end, end + n), configured),
                                (end + n) as nat,
                            )
                        }
                    } else {
                        StepPlan::Act(route(m, p, hs, Seq::empty(), configured), end as nat)
                    },
                }
            }
        },
    }
}

/// What a connection does with the received bytes `buf` once the peer has
/// stopped sending. Nothing left is no request. A request whose head was cut
/// short is read as it stands: its last line, then the head, count as ended.
/// A request whose body was cut short is not answered.
pub open spec fn step_plan_at_end(buf: Seq<u8>, configured: bool) -> StepPlan {
    if buf.len() == 0 {
        StepPlan::Close
    } else {
        match step_plan(buf, configured) {
            StepPlan::NeedMore => if head_end(buf) is Some {
                StepPlan::Close
            } else {
                match step_plan(buf + seq![LF, LF], configured) {
                    StepPlan::Act(p, _) => StepPlan::Act(p, buf.len()),
                    _ => StepPlan::Close,
                }
            },
            other => other,
        }
    }
}

/// The next step of a connection.
pub enum Step {
    NeedMore,
    Close,
    Act(Action, usize),
}

impl View for Step {
    type V = StepPlan;

    open spec fn view(&self) -> StepPlan {
        match self {
            Step::NeedMore => StepPlan::NeedMore,
            Step::Close => StepPlan::Close,
            Step::Act(a, n) => StepPlan::Act(a@, *n as nat),
        }
    }
}

proof fn lemma_digits_grow(d: Seq<u8>, k: int)
    requires
        0 <= k < d.len(),
    ensures
        digits_value(d.subrange(0, k)) <= digits_value(d.subrange(0, k + 1)),
{
    assert(d.subrange(0, k + 1).drop_last() =~= d.subrange(0, k));
}

/// Reads `s` as a `usize` the way `str::parse` does.
pub fn parse_number(s: &[u8]) -> (r: Option<usize>)
    ensures
        match r {
            Some(n) => parse_usize(s@) == Some(n as nat),
            None => parse_usize(s@) is None,
        },
{
    let start: usize = if s.len() > 0 && s[0] == 0x2bu8 { 1 } else { 0 };
    let ghost d = unsigned_digits(s@);
    assert(d =~= s@.subrange(start as int, s@.len() as int));
    if start >= s.len() {
        assert(d.len() == 0);
        return None;
    }
    let mut acc: usize = 0;
    let mut over = false;
    let mut i: usize = start;
    while i < s.len()
        invariant
            start <= i <= s@.len(),
            d == s@.subrange(start as int, s@.len() as int),
            d == unsigned_digits(s@),
            forall|k: int| 0 <= k < i - start ==> is_digit(#[trigger] d[k]),
            !over ==> acc == digits_value(d.subrange(0, i - start)),
            over ==> digits_value(d.subrange(0, i - start)) > usize::MAX,
        decreases s@.len() - i,
    {
        let b = s[i];
        if b < 0x30u8 || b > 0x39u8 {
            assert(!is_digit(d[i - start]));
            return None;
        }
        let ghost k = i - start;
        proof {
            lemma_digits_grow(d, k);
            assert(d.subrange(0, k + 1).drop_last() =~= d.subrange(0, k));
        }
        if !over {
            match acc.checked_mul(10) {
                Some(m) => match m.checked_add((b - 0x30u8) as usize) {
                    Some(x) => {
                        acc = x;
                    },
                    None => {
                        over = true;
                    },
                },
                None => {
                    over = true;
                },
            }
        }
        i = i + 1;
    }
    assert(d.subrange(0, i - start) =~= d);
    if over {
        None
    } else {
        Some(acc)
    }
}

/// The body length a request declares.
pub fn declared_length(hs: &Headers) -> (r: usize)
    ensures
        r == content_length(hs.model()),
{
    match hs.get("Content-Length".as_bytes()) {
        Some(v) => match parse_number(v.as_slice()) {
            Some(n) => n,
            None => 0,
        },
        None => 0,
    }
}

/// Decides the next step for the received bytes `buf`: wait for more, close,
/// or act on the request at the start of `buf`, which takes the given count
/// of bytes (its head and, for a file upload, its declared body).
pub fn next_step(buf: &[u8], configured: bool) -> (r: Step)
    ensures
        r@ == step_plan(buf@, configured),
{
    match parse_head(buf) {
        None => Step::NeedMore,
        Some((line, hs, end)) => {
            let close = match hs.get("Connection".as_bytes()) {
                Some(v) => equals_ignore_case(v.as_slice(), "close".as_bytes()),
                None => false,
            };
            if close {
                return Step::Close;
            }
            match parse_request_line(line.as_slice()) {
                None => Step::Close,
                Some((m, p)) => {
                    let post = bytes_equal(m.as_slice(), "POST".as_bytes());
                    let files = starts_with(p.as_slice(), "/files/".as_bytes());
                    if post && files {
                        let n = declared_length(&hs);
                        if n > buf.len() - end {
                            Step::NeedMore
                        } else {
                            let body = copy_range(buf, end, end + n);
                            Step::Act(dispatch(m.as_slice(), p.as_slice(), &hs, body, configured), end + n)
                        }
                    } else {
                        Step::Act(dispatch(m.as_slice(), p.as_slice(), &hs, Vec::new(), configured), end)
                    }
                },
            }
        },
    }
}

/// Decides the next step for the received bytes `buf` when no more will
/// come.
pub fn next_step_at_end(buf: &[u8], configured: bool) -> (r: Step)
    ensures
        r@ == step_plan_at_end(buf@, configured),
{
    if buf.len() == 0 {
        return Step::Close;
    }
    match next_step(buf, configured) {
        Step::NeedMore => {
            if parse_head(buf).is_some() {
                return Step::Close;
            }
            let mut padded = copy_range(buf, 0, buf.len());
            padded.push(LF);
            padded.push(LF);
            assert(padded@ =~= buf@ + seq![LF, LF]);
            match next_step(padded.as_slice(), configured) {
                Step::Act(a, _) => Step::Act(a, buf.len()),
                _ => Step::Close,
            }
        },
        other => other,
    }
}

/// A step that acts consumes no more than the buffer holds.
pub proof fn lemma_step_within(buf: Seq<u8>, configured: bool)
    ensures
        step_plan(buf, configured) matches StepPlan::Act(_, n) ==> n <= buf.len(),
{
    if let Some(end) = head_end(buf) {
        let e = crate::request::find_from(buf, crate::request::LF, 0);
        crate::request::lemma_find_from(buf, crate::request::LF, 0);
        crate::request::lemma_block_end_bound(buf, e + 1, e + 1);
    }
}

/// The answer to a file read: its bytes when the read succeeded, 404 otherwise.
pub open spec fn read_reply(content: Option<Seq<u8>>) -> ResponseModel {
    match content {
        Some(c) => with_body(
            Status::Success,
            seq![("Content-Type".spec_bytes(), "application/octet-stream".spec_bytes())],
            c,
        ),
        None => bare(Status::NotFound),
    }
}

/// The answer to a file write: 201 when it succeeded, 500 otherwise.
pub open spec fn write_reply(ok: bool) -> ResponseModel {
    if ok {
        bare(Status::Created)
    } else {
        bare(Status::InternalServerError)
    }
}

/// The answer to a file read, given the file's bytes or none when it could
/// not be resolved or read.
pub fn file_read_reply(content: Option<Vec<u8>>) -> (r: Response)
    ensures
        r@ == read_reply(
            match content {
                Some(c) => Some(c@),
                None => None,
            },
        ),
{
    match content {
        Some(c) => {
            let mut fields = Headers::new();
            let mut name: Vec<u8> = Vec::new();
            append_str(&mut name, "Content-Type");
            let mut value: Vec<u8> = Vec::new();
            append_str(&mut value, "application/octet-stream");
            fields.insert(name, value);
            let r = Response::with_body(Status::Success, fields, c);
            assert(r@.headers =~= read_reply(Some(c@)).headers);
            r
        },
        None => Response::bare(Status::NotFound),
    }
}

/// The answer to a file write, given whether it succeeded.
pub fn file_write_reply(ok: bool) -> (r: Response)
    ensures
        r@ == write_reply(ok),
{
    if ok {
        Response::bare(Status::Created)
    } else {
        Response::bare(Status::InternalServerError)
    }
}

/// The state of one connection: the configuration it serves and the bytes
/// received but not yet consumed by a request.
pub struct Connection {
    pub pending: Vec<u8>,
    pub configured: bool,
}

impl Connection {
    /// A fresh connection; `configured` tells whether a base directory is set.
    pub fn new(configured: bool) -> (r: Connection)
        ensures
            r.pending@ == Seq::<u8>::empty(),
            r.configured == configured,
    {
        Connection { pending: Vec::new(), configured }
    }

    /// Adds received bytes after those not yet consumed.
    pub fn receive(&mut self, data: &[u8])
        ensures
            final(self).pending@ == old(self).pending@ + data@,
            final(self).configured == old(self).configured,
    {
        append(&mut self.pending, data);
    }

    /// Decides the next step for the bytes held, and drops the bytes of the
    /// request it acts on, so that the next call sees the next request.
    pub fn advance(&mut self) -> (r: Step)
        ensures
            r@ == step_plan(old(self).pending@, old(self).configured),
            final(self).configured == old(self).configured,
            match r {
                Step::Act(_, n) => final(self).pending@ == old(self).pending@.subrange(
                    n as int,
                    old(self).pending@.len() as int,
                ),
                _ => final(self).pending@ == old(self).pending@,
            },
    {
        let r = next_step(self.pending.as_slice(), self.configured);
        match &r {
            Step::Act(_, n) => {
                proof {
                    lemma_step_within(old(self).pending@, old(self).configured);
                }
                let rest = copy_range(self.pending.as_slice(), *n, self.pending.len());
                self.pending = rest;
            },
            _ => {},
        }
        r
    }

    /// Decides the next step once the peer has stopped sending, and drops the
    /// bytes of the request it acts on.
    pub fn advance_at_end(&mut self) -> (r: Step)
        ensures
            r@ == step_plan_at_end(old(self).pending@, old(self).configured),
            final(self).configured == old(self).configured,
            match r {
                Step::Act(_, n) => final(self).pending@ == old(self).pending@.subrange(
                    n as int,
                    old(self).pending@.len() as int,
                ),
                _ => final(self).pending@ == old(self).pending@,
            },
    {
        let r = next_step_at_end(self.pending.as_slice(), self.configured);
        match &r {
            Step::Act(_, n) => {
                proof {
                    lemma_step_within(old(self).pending@, old(self).configured);
                }
                let rest = copy_range(self.pending.as_slice(), *n, self.pending.len());
                self.pending = rest;
            },
            _ => {},
        }
        r
    }
}

} // verus!
