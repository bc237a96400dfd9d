//! The built-in handlers: greeting, echo, header lookup and file access.
//!
//! A handler is a pure function. The file handlers do not touch the file
//! store themselves: they say which file is to be read or written, and the
//! response is made from what the store answered.

use crate::headers::{lemma_lookup_after_store, lemma_lookup_ignores_case, lookup};
use crate::request::{header_field, with_header_line, HttpRequest, RequestView};
use crate::response::{bare, carrying, ContentType, Response, ResponseView, Status};
use crate::router::{lemma_route_priority, route_of, route_req, Route};
use crate::text::{
    after_first, ascii_bytes, bytes_eq, eq_ignore_case, first_occurrence, lemma_absent_byte,
    lemma_prefix_occurs_first, literal, occurs_from, opt_bytes, push_bytes, rest_after,
    split_at_first, to_lower, SLASH,
};
use vstd::prelude::*;
use vstd::slice::*;

verus! {

/// What handling a request asks for.
#[derive(Debug, PartialEq, Eq)]
pub enum Outcome {
    /// The response is ready.
    Respond(Response),
    /// The named file is to be read; `do_get_file` makes the response.
    ReadFile { name: Vec<u8> },
    /// `contents` is to be written to the named file; `do_write_file` makes
    /// the response.
    WriteFile { name: Vec<u8>, contents: Vec<u8> },
}

/// An outcome as a mathematical value.
pub enum OutcomeView {
    Respond(ResponseView),
    ReadFile { name: Seq<u8> },
    WriteFile { name: Seq<u8>, contents: Seq<u8> },
}

impl View for Outcome {
    type V = OutcomeView;

    open spec fn view(&self) -> OutcomeView {
        match self {
            Outcome::Respond(response) => OutcomeView::Respond(response@),
            Outcome::ReadFile { name } => OutcomeView::ReadFile { name: name@ },
            Outcome::WriteFile { name, contents } => OutcomeView::WriteFile {
                name: name@,
                contents: contents@,
            },
        }
    }
}

/// The echo of `path`: what follows the first `/echo/` in it.
pub open spec fn echo_of(path: Seq<u8>) -> Seq<u8> {
    after_first(path, ascii_bytes("/echo/"@))
}

/// The header name that `path` asks for: what stands between its first slash
/// and its second, or its end.
pub open spec fn header_name_of(path: Seq<u8>) -> Seq<u8> {
    let rest = after_first(path, ascii_bytes("/"@));
    match first_occurrence(rest, ascii_bytes("/"@)) {
        Some(i) => rest.take(i),
        None => rest,
    }
}

/// The response of the header lookup: the value of the header that the path
/// names, as plain text, or not found.
pub open spec fn header_response(req: RequestView) -> ResponseView {
    match lookup(req.headers, header_name_of(req.path)) {
        Some(value) => carrying(Status::Okay, ContentType::TextPlain, value),
        None => bare(Status::NotFound),
    }
}

/// The name of the file that `path` asks for under the directory `root`: the
/// two joined as they are, `root` and what follows the first `/files/`.
pub open spec fn file_name_of(root: Seq<u8>, path: Seq<u8>) -> Seq<u8> {
    root + after_first(path, ascii_bytes("/files/"@))
}

/// What the file handler asks for: a read for `GET`, a write of the body for
/// `POST`, and not found for any other method.
pub open spec fn files_outcome(req: RequestView, root: Seq<u8>) -> OutcomeView {
    if req.method == ascii_bytes("GET"@) {
        OutcomeView::ReadFile { name: file_name_of(root, req.path) }
    } else if req.method == ascii_bytes("POST"@) {
        OutcomeView::WriteFile { name: file_name_of(root, req.path), contents: req.body }
    } else {
        OutcomeView::Respond(bare(Status::NotFound))
    }
}

/// The response to a read of a file: its contents, or not found where the
/// store had none to give.
pub open spec fn read_response(contents: Option<Seq<u8>>) -> ResponseView {
    match contents {
        Some(data) => carrying(Status::Okay, ContentType::OctetStream, data),
        None => bare(Status::NotFound),
    }
}

/// What handling `req` asks for, with `root` as the directory of the files.
pub open spec fn outcome_of(req: RequestView, root: Seq<u8>) -> OutcomeView {
    match route_of(req.path) {
        Route::Greeting => OutcomeView::Respond(bare(Status::Okay)),
        Route::Echo => OutcomeView::Respond(
            carrying(Status::Okay, ContentType::TextPlain, echo_of(req.path)),
        ),
        Route::Files => files_outcome(req, root),
        Route::HeaderLookup => OutcomeView::Respond(header_response(req)),
        Route::NotFound => OutcomeView::Respond(bare(Status::NotFound)),
    }
}

/// On a path under `/echo/` the echo is the path without that prefix.
pub proof fn lemma_echo_of(path: Seq<u8>)
    requires
        ascii_bytes("/echo/"@).is_prefix_of(path),
    ensures
        echo_of(path) == path.skip(6),
{
    reveal_strlit("/echo/");
    lemma_prefix_occurs_first(path, ascii_bytes("/echo/"@));
}

/// On a path under `/files/` the file name is the directory followed by the
/// path without that prefix.
pub proof fn lemma_file_name_of(root: Seq<u8>, path: Seq<u8>)
    requires
        ascii_bytes("/files/"@).is_prefix_of(path),
    ensures
        file_name_of(root, path) == root + path.skip(7),
{
    reveal_strlit("/files/");
    lemma_prefix_occurs_first(path, ascii_bytes("/files/"@));
}

/// On a path that is routed to the header lookup, the header name is the
/// path without its leading slash.
pub proof fn lemma_header_name_of(path: Seq<u8>)
    requires
        route_of(path) == Route::HeaderLookup,
    ensures
        header_name_of(path) == path.skip(1),
{
    reveal_strlit("/");
    let slash = ascii_bytes("/"@);
    assert(slash =~= seq![SLASH]);
    lemma_prefix_occurs_first(path, slash);
    let rest = path.skip(1);
    if occurs_from(rest, 0, SLASH) {
        let i = choose|i: int| 0 <= i < rest.len() && rest[i] == SLASH;
        assert(path[i + 1] == SLASH);
    }
    lemma_absent_byte(rest, SLASH);
}

/// The header lookup does not depend on the case in which the path writes
/// the name: two requests with the same headers, whose paths are routed to
/// the lookup and differ only in the case of their letters, get the same
/// response.
pub proof fn lemma_header_lookup_ignores_case(a: RequestView, b: RequestView)
    requires
        a.headers == b.headers,
        route_of(a.path) == Route::HeaderLookup,
        route_of(b.path) == Route::HeaderLookup,
        eq_ignore_case(a.path, b.path),
    ensures
        header_response(a) == header_response(b),
        forall|root: Seq<u8>| outcome_of(a, root) == outcome_of(b, root),
{
    lemma_header_name_of(a.path);
    lemma_header_name_of(b.path);
    assert(eq_ignore_case(a.path.skip(1), b.path.skip(1))) by {
        assert forall|i: int| 0 <= i < a.path.skip(1).len() implies to_lower(a.path.skip(1)[i])
            == to_lower(b.path.skip(1)[i]) by {
            assert(to_lower(a.path[i + 1]) == to_lower(b.path[i + 1]));
        }
    }
    lemma_lookup_ignores_case(a.headers, a.path.skip(1), b.path.skip(1));
}

/// A header that was read from a line is found by the lookup under every
/// spelling of its name.
pub proof fn lemma_header_line_is_found(
    h: Map<Seq<u8>, Seq<u8>>,
    line: Seq<u8>,
    name: Seq<u8>,
    value: Seq<u8>,
    query: Seq<u8>,
)
    requires
        header_field(line) == Some((name, value)),
        eq_ignore_case(name, query),
    ensures
        lookup(with_header_line(h, line), query) == Some(value),
{
    lemma_lookup_after_store(h, name, value, query);
}

/// A write and a later read of the same path, under the same directory, name
/// the same file; the write hands the store exactly the body of the request,
/// and the read answers with exactly what the store gives. So where the
/// store gives back what was written to it, the read answers with the bytes
/// that were written.
pub proof fn lemma_write_then_read(write: RequestView, read: RequestView, root: Seq<u8>)
    requires
        ascii_bytes("/files/"@).is_prefix_of(write.path),
        read.path == write.path,
        write.method == ascii_bytes("POST"@),
        read.method == ascii_bytes("GET"@),
    ensures
        outcome_of(write, root) == (OutcomeView::WriteFile {
            name: root + write.path.skip(7),
            contents: write.body,
        }),
        outcome_of(read, root) == (OutcomeView::ReadFile { name: root + write.path.skip(7) }),
        read_response(Some(write.body)) == carrying(
            Status::Okay,
            ContentType::OctetStream,
            write.body,
        ),
{
    reveal_strlit("GET");
    reveal_strlit("POST");
    lemma_route_priority(write.path);
    lemma_file_name_of(root, write.path);
    assert(ascii_bytes("POST"@)[0] != ascii_bytes("GET"@)[0]);
}

/// The greeting: success without a body.
pub fn do_ok() -> (response: Response)
    ensures
        response@ == bare(Status::Okay),
{
    Response::new(Status::Okay)
}

/// The response for what no handler answers.
pub fn not_found() -> (response: Response)
    ensures
        response@ == bare(Status::NotFound),
{
    Response::new(Status::NotFound)
}

/// The response sent in place of one that could not be written.
pub fn server_error() -> (response: Response)
    ensures
        response@ == bare(Status::InternalServerError),
{
    Response::new(Status::InternalServerError)
}

/// Echoes what follows the first `/echo/` of the path, as plain text.
pub fn do_echo(req: &HttpRequest) -> (response: Response)
    ensures
        response@ == carrying(Status::Okay, ContentType::TextPlain, echo_of(req@.path)),
{
    proof {
        reveal_strlit("/echo/");
    }
    let echoed = rest_after(req.path.as_slice(), literal("/echo/"));
    Response::with_content(Status::Okay, ContentType::TextPlain, slice_to_vec(echoed))
}

/// Answers with the value of the header that the path names.
pub fn do_get_header(req: &HttpRequest) -> (response: Response)
    ensures
        response@ == header_response(req@),
{
    proof {
        reveal_strlit("/");
    }
    let rest = rest_after(req.path.as_slice(), literal("/"));
    let name: &[u8] = match split_at_first(rest, literal("/")) {
        Some((segment, _)) => segment,
        None => rest,
    };
    match req.headers.get(name) {
        Some(value) => Response::with_content(
            Status::Okay,
            ContentType::TextPlain,
            slice_to_vec(value.as_slice()),
        ),
        None => not_found(),
    }
}

/// The name of the file that `path` asks for under the directory `root`.
pub fn file_name(root: &[u8], path: &[u8]) -> (name: Vec<u8>)
    ensures
        name@ == file_name_of(root@, path@),
{
    proof {
        reveal_strlit("/files/");
    }
    let mut name: Vec<u8> = slice_to_vec(root);
    push_bytes(&mut name, rest_after(path, literal("/files/")));
    name
}

/// Dispatches a request for a file by its method.
pub fn do_route_files(req: HttpRequest, root: &[u8]) -> (outcome: Outcome)
    ensures
        outcome@ == files_outcome(req@, root@),
{
    proof {
        reveal_strlit("GET");
        reveal_strlit("POST");
    }
    if bytes_eq(req.method.as_slice(), literal("GET")) {
        Outcome::ReadFile { name: file_name(root, req.path.as_slice()) }
    } else if bytes_eq(req.method.as_slice(), literal("POST")) {
        let name = file_name(root, req.path.as_slice());
        Outcome::WriteFile { name, contents: req.body }
    } else {
        Outcome::Respond(not_found())
    }
}

/// The response to a read of a file: `contents` is what the store gave, and
/// `None` stands for a file that could not be read.
pub fn do_get_file(contents: Option<Vec<u8>>) -> (response: Response)
    ensures
        response@ == read_response(opt_bytes(contents)),
{
    match contents {
        Some(data) => Response::with_content(Status::Okay, ContentType::OctetStream, data),
        None => not_found(),
    }
}

/// The response to a write of a file: created where the store wrote it, and
/// none at all where it did not.
pub fn do_write_file(written: bool) -> (response: Option<Response>)
    ensures
        match response {
            Some(r) => written && r@ == bare(Status::Created),
            None => !written,
        },
{
    if written {
        Some(Response::new(Status::Created))
    } else {
        None
    }
}

/// Routes `req` and runs its handler, with `root` as the directory of the
/// files.
pub fn handle_req(req: HttpRequest, root: &[u8]) -> (outcome: Outcome)
    ensures
        outcome@ == outcome_of(req@, root@),
{
    match route_req(&req) {
        Route::Greeting => Outcome::Respond(do_ok()),
        Route::Echo => Outcome::Respond(do_echo(&req)),
        Route::Files => do_route_files(req, root),
        Route::HeaderLookup => Outcome::Respond(do_get_header(&req)),
        Route::NotFound => Outcome::Respond(not_found()),
    }
}

} // verus!
