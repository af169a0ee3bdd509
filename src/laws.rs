//! Properties of the server stated over the routing and framing models.

use vstd::prelude::*;
use vstd::string::{is_ascii, is_ascii_spec_bytes, StringSliceAdditionalSpecFns};
use crate::bytes::{contains, dot_dot, eq_ignore_case};
use crate::gzip::gzip_of;
use crate::headers::lookup;
use crate::response::{bare, decimal, ResponseModel, Status};
use crate::router::{route, wants_gzip, Plan};
use crate::connection::{asks_close, read_reply, step_plan, step_plan_at_end, StepPlan};
use crate::request::{
    block_end, block_fields, find_from, first_line, head_end, head_fields, lemma_find_from, LF,
};

verus! {

broadcast use is_ascii_spec_bytes;

proof fn lemma_literals()
    ensures
        "GET".spec_bytes() == seq![0x47u8, 0x45u8, 0x54u8],
        "POST".spec_bytes().len() == 4,
        "/".spec_bytes() == seq![0x2fu8],
        "/echo/".spec_bytes() == seq![0x2fu8, 0x65u8, 0x63u8, 0x68u8, 0x6fu8, 0x2fu8],
        "/files/".spec_bytes() == seq![0x2fu8, 0x66u8, 0x69u8, 0x6cu8, 0x65u8, 0x73u8, 0x2fu8],
        "Content-Length".spec_bytes().len() == 14,
        "Content-Encoding".spec_bytes().len() == 16,
{
    reveal_strlit("GET");
    reveal_strlit("POST");
    reveal_strlit("/");
    reveal_strlit("/echo/");
    reveal_strlit("/files/");
    reveal_strlit("Content-Length");
    reveal_strlit("Content-Encoding");
    assert(is_ascii("GET"));
    assert("GET".spec_bytes() =~= seq![0x47u8, 0x45u8, 0x54u8]);
    assert(is_ascii("/"));
    assert("/".spec_bytes() =~= seq![0x2fu8]);
    assert(is_ascii("/echo/"));
    assert("/echo/".spec_bytes() =~= seq![0x2fu8, 0x65u8, 0x63u8, 0x68u8, 0x6fu8, 0x2fu8]);
    assert(is_ascii("/files/"));
    assert("/files/".spec_bytes() =~= seq![0x2fu8, 0x66u8, 0x69u8, 0x6cu8, 0x65u8, 0x73u8, 0x2fu8]);
    assert(is_ascii("POST"));
    assert(is_ascii("Content-Length"));
    assert(is_ascii("Content-Encoding"));
}

proof fn lemma_lookup_last(hs: Seq<(Seq<u8>, Seq<u8>)>, name: Seq<u8>, value: Seq<u8>)
    ensures
        lookup(hs.push((name, value)), name) == Some(value),
{
    assert(hs.push((name, value)).last() == (name, value));
}

/// Echo without gzip: the body is the text itself, and `Content-Length` is
/// its length in bytes.
pub proof fn law_echo_plain(text: Seq<u8>, hs: Seq<(Seq<u8>, Seq<u8>)>, body: Seq<u8>, configured: bool)
    requires
        !wants_gzip(hs),
    ensures
        route("GET".spec_bytes(), "/echo/".spec_bytes() + text, hs, body, configured) is Reply,
        route("GET".spec_bytes(), "/echo/".spec_bytes() + text, hs, body, configured)->Reply_0.body
            == text,
        lookup(
            route("GET".spec_bytes(), "/echo/".spec_bytes() + text, hs, body, configured)->Reply_0.headers,
            "Content-Length".spec_bytes(),
        ) == Some(decimal(text.len())),
{
    lemma_literals();
    let path = "/echo/".spec_bytes() + text;
    assert(path.len() != 1);
    assert(path.subrange(0, 6) =~= "/echo/".spec_bytes());
    assert(path.subrange(6, path.len() as int) =~= text);
    lemma_lookup_last(seq![crate::router::text_plain()], "Content-Length".spec_bytes(), decimal(text.len()));
}

/// Echo with gzip: the body is the gzip stream of the text, marked by
/// `Content-Encoding: gzip`, and `Content-Length` is the compressed length.
pub proof fn law_echo_gzip(text: Seq<u8>, hs: Seq<(Seq<u8>, Seq<u8>)>, body: Seq<u8>, configured: bool)
    requires
        wants_gzip(hs),
    ensures
        route("GET".spec_bytes(), "/echo/".spec_bytes() + text, hs, body, configured) is Reply,
        route("GET".spec_bytes(), "/echo/".spec_bytes() + text, hs, body, configured)->Reply_0.body
            == gzip_of(text),
        lookup(
            route("GET".spec_bytes(), "/echo/".spec_bytes() + text, hs, body, configured)->Reply_0.headers,
            "Content-Encoding".spec_bytes(),
        ) == Some("gzip".spec_bytes()),
        lookup(
            route("GET".spec_bytes(), "/echo/".spec_bytes() + text, hs, body, configured)->Reply_0.headers,
            "Content-Length".spec_bytes(),
        ) == Some(decimal(gzip_of(text).len())),
{
    lemma_literals();
    let path = "/echo/".spec_bytes() + text;
    assert(path.len() != 1);
    assert(path.subrange(0, 6) =~= "/echo/".spec_bytes());
    assert(path.subrange(6, path.len() as int) =~= text);
    let fields = seq![
        crate::router::text_plain(),
        ("Content-Encoding".spec_bytes(), "gzip".spec_bytes()),
    ];
    lemma_lookup_last(fields, "Content-Length".spec_bytes(), decimal(gzip_of(text).len()));
    let all = fields.push(("Content-Length".spec_bytes(), decimal(gzip_of(text).len())));
    assert(!eq_ignore_case(all.last().0, "Content-Encoding".spec_bytes()));
    assert(all.drop_last() =~= fields);
    lemma_lookup_last(seq![crate::router::text_plain()], "Content-Encoding".spec_bytes(), "gzip".spec_bytes());
    assert(seq![crate::router::text_plain()].push(("Content-Encoding".spec_bytes(), "gzip".spec_bytes()))
        =~= fields);
}

/// Uploading bytes to a file and reading that file back: the upload is
/// written as it came, the read asks for the same file, and a read that finds
/// those bytes answers 200 with exactly them.
pub proof fn law_file_round_trip(
    name: Seq<u8>,
    upload: Seq<u8>,
    hs_post: Seq<(Seq<u8>, Seq<u8>)>,
    hs_get: Seq<(Seq<u8>, Seq<u8>)>,
    body_get: Seq<u8>,
)
    requires
        !contains(name, dot_dot()),
    ensures
        route("POST".spec_bytes(), "/files/".spec_bytes() + name, hs_post, upload, true)
            == Plan::WriteFile(name, upload),
        route("GET".spec_bytes(), "/files/".spec_bytes() + name, hs_get, body_get, true)
            == Plan::ReadFile(name),
        read_reply(Some(upload)).status == Status::Success,
        read_reply(Some(upload)).body == upload,
{
    lemma_literals();
    let path = "/files/".spec_bytes() + name;
    assert(path.len() != 1);
    assert(path.subrange(0, 7) =~= "/files/".spec_bytes());
    assert(path.subrange(0, 6)[1] != "/echo/".spec_bytes()[1]);
    assert(path.subrange(7, path.len() as int) =~= name);
}

/// A file path holding `..` is refused with 400, for reads and for uploads,
/// whether or not a base directory is set.
pub proof fn law_traversal_refused(
    method: Seq<u8>,
    name: Seq<u8>,
    hs: Seq<(Seq<u8>, Seq<u8>)>,
    body: Seq<u8>,
    configured: bool,
)
    requires
        method == "GET".spec_bytes() || method == "POST".spec_bytes(),
        contains(name, dot_dot()),
    ensures
        route(method, "/files/".spec_bytes() + name, hs, body, configured) == Plan::Reply(
            bare(Status::BadRequest),
        ),
{
    lemma_literals();
    let path = "/files/".spec_bytes() + name;
    assert(path.len() != 1);
    assert(path.subrange(0, 7) =~= "/files/".spec_bytes());
    assert(path.subrange(0, 6)[1] != "/echo/".spec_bytes()[1]);
    assert(path.subrange(7, path.len() as int) =~= name);
}

/// Without a base directory every file route answers 500 (a path with `..`
/// is refused first, with 400).
pub proof fn law_no_base_directory(
    method: Seq<u8>,
    name: Seq<u8>,
    hs: Seq<(Seq<u8>, Seq<u8>)>,
    body: Seq<u8>,
)
    requires
        method == "GET".spec_bytes() || method == "POST".spec_bytes(),
        !contains(name, dot_dot()),
    ensures
        route(method, "/files/".spec_bytes() + name, hs, body, false) == Plan::Reply(
            bare(Status::InternalServerError),
        ),
{
    lemma_literals();
    let path = "/files/".spec_bytes() + name;
    assert(path.len() != 1);
    assert(path.subrange(0, 7) =~= "/files/".spec_bytes());
    assert(path.subrange(0, 6)[1] != "/echo/".spec_bytes()[1]);
    assert(path.subrange(7, path.len() as int) =~= name);
}

/// A whole request head that asks for `Connection: close` closes the
/// connection without an answer.
pub proof fn law_close_requested(buf: Seq<u8>, configured: bool)
    requires
        head_end(buf) is Some,
        asks_close(head_fields(buf)),
    ensures
        step_plan(buf, configured) == StepPlan::Close,
{
}

proof fn lemma_find_prefix(s: Seq<u8>, t: Seq<u8>, c: u8, i: int)
    requires
        0 <= i <= s.len(),
        find_from(s, c, i) < s.len(),
    ensures
        find_from(s + t, c, i) == find_from(s, c, i),
    decreases s.len() - i,
{
    assert((s + t)[i] == s[i]);
    if s[i] != c {
        lemma_find_prefix(s, t, c, i + 1);
    }
}

proof fn lemma_block_prefix(s: Seq<u8>, t: Seq<u8>, i: int, ls: int)
    requires
        0 <= ls <= i,
        block_end(s, i, ls) is Some,
    ensures
        block_end(s + t, i, ls) == block_end(s, i, ls),
        block_fields(s + t, i, ls) == block_fields(s, i, ls),
    decreases s.len() - i,
{
    assert((s + t)[i] == s[i]);
    assert((s + t).subrange(ls, i) =~= s.subrange(ls, i));
    if s[i] == LF {
        if !crate::request::is_blank(s.subrange(ls, i)) {
            lemma_block_prefix(s, t, i + 1, i + 1);
        }
    } else {
        lemma_block_prefix(s, t, i + 1, ls);
    }
}

/// Requests on one connection are answered in order: when `first` is exactly
/// one request, bytes that follow it do not change what is done for it, and
/// (as `Connection::advance` drops those bytes) the next step works on
/// `rest` alone.
pub proof fn law_sequential_requests(first: Seq<u8>, rest: Seq<u8>, configured: bool)
    requires
        step_plan(first, configured) matches StepPlan::Act(_, n) && n == first.len(),
    ensures
        step_plan(first + rest, configured) == step_plan(first, configured),
        (first + rest).subrange(first.len() as int, (first + rest).len() as int) == rest,
{
    let all = first + rest;
    let e = find_from(first, LF, 0);
    lemma_find_from(first, LF, 0);
    lemma_find_prefix(first, rest, LF, 0);
    lemma_block_prefix(first, rest, e + 1, e + 1);
    crate::request::lemma_block_end_bound(first, e + 1, e + 1);
    assert(all.subrange(0, e) =~= first.subrange(0, e));
    assert(first_line(all) == first_line(first));
    assert(crate::request::request_line(all) == crate::request::request_line(first));
    assert(head_fields(all) == head_fields(first));
    let end = head_end(first)->Some_0;
    let hs = head_fields(first);
    let n = crate::connection::content_length(hs);
    if end + n <= first.len() {
        assert(all.subrange(end, end + n) =~= first.subrange(end, end + n));
    }
    assert(all.subrange(first.len() as int, all.len() as int) =~= rest);
}

/// A response is framed: a non-empty body comes with a `Content-Length`
/// field that gives its exact length.
pub open spec fn framed(r: ResponseModel) -> bool {
    r.body.len() > 0 ==> lookup(r.headers, "Content-Length".spec_bytes()) == Some(decimal(r.body.len()))
}

/// Every answer the router gives, and every answer to a file read, is framed.
pub proof fn law_replies_framed(
    method: Seq<u8>,
    path: Seq<u8>,
    hs: Seq<(Seq<u8>, Seq<u8>)>,
    body: Seq<u8>,
    configured: bool,
    content: Option<Seq<u8>>,
)
    ensures
        route(method, path, hs, body, configured) is Reply ==> framed(
            route(method, path, hs, body, configured)->Reply_0,
        ),
        framed(read_reply(content)),
{
    let ct = crate::router::text_plain();
    let ce = ("Content-Encoding".spec_bytes(), "gzip".spec_bytes());
    let cl = "Content-Length".spec_bytes();
    if let Some(ua) = lookup(hs, "User-Agent".spec_bytes()) {
        lemma_lookup_last(seq![ct], cl, decimal(ua.len()));
    }
    let text = path.subrange("/echo/".spec_bytes().len() as int, path.len() as int);
    lemma_lookup_last(seq![ct], cl, decimal(text.len()));
    lemma_lookup_last(seq![ct, ce], cl, decimal(gzip_of(text).len()));
    if let Some(c) = content {
        lemma_lookup_last(
            seq![("Content-Type".spec_bytes(), "application/octet-stream".spec_bytes())],
            cl,
            decimal(c.len()),
        );
    }
}

/// Once the peer stops sending, a connection never waits: with nothing left
/// it closes, and a whole request is handled as it would have been had more
/// bytes come. So k whole requests and then the end get k answers, then close.
pub proof fn law_end_of_input(buf: Seq<u8>, configured: bool)
    ensures
        !(step_plan_at_end(buf, configured) is NeedMore),
        buf.len() == 0 ==> step_plan_at_end(buf, configured) == StepPlan::Close,
        step_plan(buf, configured) is Act ==> step_plan_at_end(buf, configured) == step_plan(
            buf,
            configured,
        ),
{
}

} // verus!
