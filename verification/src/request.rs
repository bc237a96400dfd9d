//! Requests and the request parser.
//!
//! The parser reads a request from the bytes that a connection delivered: a
//! start line, header lines up to a blank line, and a body whose length the
//! `content-length` header gives. It never fails: what is malformed is read
//! as empty.

use crate::headers::{keys_folded, lemma_store_keeps_keys_folded, lookup, store, Headers};
use crate::text::{
    ascii_bytes, byte_at, find_byte, first_index, is_newline, is_newline_byte, lemma_first_index,
    lemma_trimmed_len, lemma_trimmed_len_unique, literal, lowercase, parse_decimal_usize,
    parse_usize,
    skip_visible, skip_whitespace, split_at_first, split_once, trim_newlines, trimmed_len,
    visible_at, whitespace_at, without_newlines, LF,
};
use vstd::prelude::*;
use vstd::slice::*;

verus! {

/// A request as a mathematical value.
pub struct RequestView {
    pub method: Seq<u8>,
    pub path: Seq<u8>,
    pub headers: Map<Seq<u8>, Seq<u8>>,
    pub body: Seq<u8>,
}

/// A parsed request. `method` and `path` are empty where the start line did
/// not hold two tokens.
#[derive(Debug)]
pub struct HttpRequest {
    pub method: Vec<u8>,
    pub path: Vec<u8>,
    pub headers: Headers,
    pub body: Vec<u8>,
}

impl View for HttpRequest {
    type V = RequestView;

    open spec fn view(&self) -> RequestView {
        RequestView {
            method: self.method@,
            path: self.path@,
            headers: self.headers@,
            body: self.body@,
        }
    }
}

/// The separator between the name and the value of a header line.
pub open spec fn field_separator() -> Seq<u8> {
    ascii_bytes(": "@)
}

/// The folded name of the header that gives the length of the body.
pub open spec fn content_length_name() -> Seq<u8> {
    ascii_bytes("content-length"@)
}

/// Whether `s` holds a line feed, that is, a line that is complete.
pub open spec fn has_line(s: Seq<u8>) -> bool {
    first_index(0, s.len() as int, byte_at(s, LF)) < s.len()
}

/// The length of the first line of `s`: up to and including the first line
/// feed, or all of `s` where it holds none.
pub open spec fn line_len(s: Seq<u8>) -> int {
    if has_line(s) {
        first_index(0, s.len() as int, byte_at(s, LF)) + 1
    } else {
        s.len() as int
    }
}

/// The first line of `s`, with its terminator.
pub open spec fn first_line(s: Seq<u8>) -> Seq<u8> {
    s.take(line_len(s))
}

/// What follows the first line of `s`.
pub open spec fn after_line(s: Seq<u8>) -> Seq<u8> {
    s.skip(line_len(s))
}

/// A line that holds nothing but carriage returns and line feeds. The empty
/// line, which is what the end of the input reads as, is blank.
pub open spec fn is_blank(line: Seq<u8>) -> bool {
    trimmed_len(line) == 0
}

/// Method and path of a start line: its first two runs of bytes that are
/// not white space. Both are empty where the line holds fewer than two.
pub open spec fn request_target(line: Seq<u8>) -> (Seq<u8>, Seq<u8>) {
    let end = line.len() as int;
    let method_start = first_index(0, end, visible_at(line));
    let method_end = first_index(method_start, end, whitespace_at(line));
    let path_start = first_index(method_end, end, visible_at(line));
    let path_end = first_index(path_start, end, whitespace_at(line));
    if path_start < end {
        (line.subrange(method_start, method_end), line.subrange(path_start, path_end))
    } else {
        (Seq::empty(), Seq::empty())
    }
}

/// Name and value of a header line: what stands before the first `": "`, as
/// written, and what stands after it, without the trailing newline bytes. A
/// line without the separator holds no field.
pub open spec fn header_field(line: Seq<u8>) -> Option<(Seq<u8>, Seq<u8>)> {
    match split_once(line, field_separator()) {
        Some((name, value)) => Some((name, without_newlines(value))),
        None => None,
    }
}

/// The table `h` after the header line `line` was read. A line that holds no
/// field leaves it as it is.
pub open spec fn with_header_line(h: Map<Seq<u8>, Seq<u8>>, line: Seq<u8>) -> Map<
    Seq<u8>,
    Seq<u8>,
> {
    match header_field(line) {
        Some((name, value)) => store(h, name, value),
        None => h,
    }
}

/// Reads header lines from `s` into `h` up to the first blank line, which is
/// consumed. Gives the table and what follows the blank line.
pub open spec fn parse_head(s: Seq<u8>, h: Map<Seq<u8>, Seq<u8>>) -> (
    Map<Seq<u8>, Seq<u8>>,
    Seq<u8>,
)
    decreases s.len(),
    via parse_head_decreases
{
    if is_blank(first_line(s)) {
        (h, after_line(s))
    } else {
        parse_head(after_line(s), with_header_line(h, first_line(s)))
    }
}

#[via_fn]
proof fn parse_head_decreases(s: Seq<u8>, h: Map<Seq<u8>, Seq<u8>>) {
    lemma_line_len(s);
}

/// The length that the table `h` declares for the body: the value stored
/// under `content-length` where it is a decimal number that fits the machine
/// word, and zero otherwise.
pub open spec fn declared_length(h: Map<Seq<u8>, Seq<u8>>) -> nat {
    match lookup(h, content_length_name()) {
        Some(value) => match parse_decimal_usize(value) {
            Some(n) => n as nat,
            None => 0,
        },
        None => 0,
    }
}

/// A body of exactly `n` bytes read from `rest`: its first `n` bytes, and
/// zeros where `rest` is shorter.
pub open spec fn read_body(rest: Seq<u8>, n: nat) -> Seq<u8> {
    Seq::new(
        n,
        |i: int|
            if i < rest.len() {
                rest[i]
            } else {
                0u8
            },
    )
}

/// The request that the bytes `s` hold.
pub open spec fn parse_request(s: Seq<u8>) -> RequestView {
    let (method, path) = request_target(first_line(s));
    let (headers, rest) = parse_head(after_line(s), Map::empty());
    RequestView { method, path, headers, body: read_body(rest, declared_length(headers)) }
}

/// The first line is a prefix of the input, and it is empty only where the
/// input is.
pub proof fn lemma_line_len(s: Seq<u8>)
    ensures
        0 <= line_len(s) <= s.len(),
        s.len() > 0 ==> line_len(s) > 0,
        has_line(s) ==> s[line_len(s) - 1] == LF,
        forall|i: int| 0 <= i < line_len(s) - 1 ==> s[i] != LF,
        first_line(s) + after_line(s) == s,
{
    let p = byte_at(s, LF);
    lemma_first_index(0, s.len() as int, p);
    assert forall|i: int| 0 <= i < line_len(s) - 1 implies s[i] != LF by {
        assert(!p(i));
    }
    assert(first_line(s) + after_line(s) =~= s);
}

/// The name of the length header is in lower case, so it is looked up as it
/// is written.
pub proof fn lemma_content_length_name()
    ensures
        lowercase(content_length_name()) == content_length_name(),
{
    reveal_strlit("content-length");
    assert(lowercase(content_length_name()) =~= content_length_name());
}

/// The body has exactly the length that the headers declare, whatever the
/// input holds after the head.
pub proof fn lemma_body_length(s: Seq<u8>)
    ensures
        parse_request(s).body.len() == declared_length(parse_request(s).headers),
{
}

/// A request without a `content-length` header has an empty body.
pub proof fn lemma_no_content_length(s: Seq<u8>)
    requires
        !parse_request(s).headers.contains_key(content_length_name()),
    ensures
        parse_request(s).body == Seq::<u8>::empty(),
{
    lemma_content_length_name();
    assert(parse_request(s).body =~= Seq::<u8>::empty());
}

/// Where the `content-length` header holds the number `n` and at least `n`
/// bytes follow the head, the body is exactly the first `n` of them.
pub proof fn lemma_declared_body(s: Seq<u8>, n: usize)
    requires
        parse_request(s).headers.contains_key(content_length_name()),
        parse_decimal_usize(parse_request(s).headers[content_length_name()]) == Some(n),
        n <= parse_head(after_line(s), Map::empty()).1.len(),
    ensures
        parse_request(s).body.len() == n,
        parse_request(s).body == parse_head(after_line(s), Map::empty()).1.take(n as int),
{
    lemma_content_length_name();
    let rest = parse_head(after_line(s), Map::empty()).1;
    assert(parse_request(s).body =~= rest.take(n as int));
}

/// Reading header lines keeps every key of the table in lower case, and what
/// is left after the head is the end of the input.
pub proof fn lemma_parse_head(s: Seq<u8>, h: Map<Seq<u8>, Seq<u8>>)
    ensures
        keys_folded(h) ==> keys_folded(parse_head(s, h).0),
        parse_head(s, h).1.is_suffix_of(s),
    decreases s.len(),
{
    lemma_line_len(s);
    let rest = parse_head(s, h).1;
    if is_blank(first_line(s)) {
        assert(rest =~= s.subrange(s.len() - rest.len(), s.len() as int));
    } else {
        let line = first_line(s);
        let t = after_line(s);
        lemma_parse_head(t, with_header_line(h, line));
        if keys_folded(h) {
            match header_field(line) {
                Some((name, value)) => {
                    lemma_store_keeps_keys_folded(h, name, value);
                },
                None => {},
            }
        }
        assert(rest =~= s.subrange(s.len() - rest.len(), s.len() as int)) by {
            assert(rest =~= t.subrange(t.len() - rest.len(), t.len() as int));
        }
    }
}

/// Every header of a parsed request stands under a name in lower case.
pub proof fn lemma_parsed_keys_folded(s: Seq<u8>)
    ensures
        keys_folded(parse_request(s).headers),
{
    lemma_parse_head(after_line(s), Map::empty());
}

/// Reading the head line by line is reading it whole: a parser that is in
/// the header lines and is given the first line of `s` either has read the
/// blank line, and then holds the table of `parse_head` while the rest of `s`
/// is what `parse_head` leaves, or it is still in the header lines, and what
/// `parse_head` reads from the rest of `s` into its table is what it reads
/// from `s`.
pub proof fn lemma_line_by_line(p: ParserView, s: Seq<u8>)
    requires
        p.stage == Stage::HeaderLines,
    ensures
        ({
            let q = after_line_read(p, first_line(s));
            &&& q.method == p.method
            &&& q.path == p.path
            &&& q.stage != Stage::StartLine
            &&& q.stage == Stage::Complete ==> parse_head(s, p.headers) == (q.headers, after_line(s))
            &&& q.stage == Stage::HeaderLines ==> parse_head(s, p.headers) == parse_head(
                after_line(s),
                q.headers,
            )
        }),
{
}

/// Splits `s` after its first line.
pub fn split_line(s: &[u8]) -> (parts: (&[u8], &[u8]))
    ensures
        parts.0@ == first_line(s@),
        parts.1@ == after_line(s@),
{
    let end: usize = s.len();
    let lf: usize = find_byte(s, 0, LF);
    let cut: usize = if lf < end {
        lf + 1
    } else {
        end
    };
    (slice_subrange(s, 0, cut), slice_subrange(s, cut, end))
}

/// Whether `line` holds nothing but carriage returns and line feeds.
pub fn is_blank_line(line: &[u8]) -> (blank: bool)
    ensures
        blank == is_blank(line@),
{
    let mut i: usize = 0;
    while i < line.len()
        invariant
            i <= line.len(),
            forall|j: int| 0 <= j < i ==> is_newline(#[trigger] line@[j]),
        decreases line.len() - i,
    {
        if !is_newline_byte(line[i]) {
            proof {
                lemma_trimmed_len(line@);
            }
            return false;
        }
        i += 1;
    }
    proof {
        lemma_trimmed_len_unique(line@, 0);
    }
    true
}

/// Method and path of a start line.
pub fn parse_start_line(line: &[u8]) -> (target: (Vec<u8>, Vec<u8>))
    ensures
        (target.0@, target.1@) == request_target(line@),
{
    let end: usize = line.len();
    let method_start: usize = skip_whitespace(line, 0);
    let method_end: usize = skip_visible(line, method_start);
    let path_start: usize = skip_whitespace(line, method_end);
    let path_end: usize = skip_visible(line, path_start);
    if path_start < end {
        (
            slice_to_vec(slice_subrange(line, method_start, method_end)),
            slice_to_vec(slice_subrange(line, path_start, path_end)),
        )
    } else {
        (Vec::new(), Vec::new())
    }
}

/// Name, as written, and value of a header line.
pub fn parse_header_line(line: &[u8]) -> (field: Option<(Vec<u8>, Vec<u8>)>)
    ensures
        match field {
            Some((name, value)) => header_field(line@) == Some((name@, value@)),
            None => header_field(line@) is None,
        },
{
    proof {
        reveal_strlit(": ");
    }
    match split_at_first(line, literal(": ")) {
        Some((name, value)) => Some((slice_to_vec(name), trim_newlines(value))),
        None => None,
    }
}

/// The length that `headers` declares for the body.
pub fn content_length(headers: &Headers) -> (n: usize)
    ensures
        n == declared_length(headers@),
{
    proof {
        reveal_strlit("content-length");
    }
    match headers.get(literal("content-length")) {
        Some(value) => match parse_usize(value.as_slice()) {
            Some(n) => n,
            None => 0,
        },
        None => 0,
    }
}

/// A body of exactly `n` bytes: the first `n` bytes of `rest`, and zeros
/// where `rest` is shorter.
pub fn take_body(rest: &[u8], n: usize) -> (body: Vec<u8>)
    ensures
        body@ == read_body(rest@, n as nat),
{
    let available: usize = if rest.len() < n {
        rest.len()
    } else {
        n
    };
    let mut body: Vec<u8> = slice_to_vec(slice_subrange(rest, 0, available));
    while body.len() < n
        invariant
            available <= body.len() <= n,
            available <= rest.len(),
            available == n || available == rest.len(),
            forall|i: int| 0 <= i < available ==> body@[i] == rest@[i],
            forall|i: int| available <= i < body.len() ==> body@[i] == 0u8,
        decreases n - body.len(),
    {
        body.push(0u8);
    }
    assert(body@ =~= read_body(rest@, n as nat));
    body
}

/// How far the reading of a request has come.
#[derive(Clone, Copy, Debug, PartialEq, Eq, Structural)]
pub enum Stage {
    /// Nothing was read yet: the next line is the start line.
    StartLine,
    /// The start line was read: the next line is a header line or the blank
    /// line that ends them.
    HeaderLines,
    /// The blank line was read: only the body is left.
    Complete,
}

/// What a parser needs next.
#[derive(Clone, Copy, Debug, PartialEq, Eq, Structural)]
pub enum Need {
    /// One more line.
    Line,
    /// The body: as many bytes as given, or fewer where no more come.
    Body(usize),
    /// Nothing: the request is complete, without a body.
    Nothing,
}

/// A parser as a mathematical value.
pub struct ParserView {
    pub stage: Stage,
    pub method: Seq<u8>,
    pub path: Seq<u8>,
    pub headers: Map<Seq<u8>, Seq<u8>>,
}

/// A parser that is given a request line by line, as a connection delivers
/// it, and says after each line what it needs next.
#[derive(Debug)]
pub struct RequestParser {
    pub stage: Stage,
    pub method: Vec<u8>,
    pub path: Vec<u8>,
    pub headers: Headers,
}

impl View for RequestParser {
    type V = ParserView;

    open spec fn view(&self) -> ParserView {
        ParserView {
            stage: self.stage,
            method: self.method@,
            path: self.path@,
            headers: self.headers@,
        }
    }
}

/// The parser that has read nothing.
pub open spec fn fresh_parser() -> ParserView {
    ParserView {
        stage: Stage::StartLine,
        method: Seq::empty(),
        path: Seq::empty(),
        headers: Map::empty(),
    }
}

/// The parser `p` after it was given `line`. The first line gives method and
/// path; each later line is a header line, up to the first blank line; what
/// comes after the blank line is not read as a line.
pub open spec fn after_line_read(p: ParserView, line: Seq<u8>) -> ParserView {
    match p.stage {
        Stage::StartLine => ParserView {
            stage: Stage::HeaderLines,
            method: request_target(line).0,
            path: request_target(line).1,
            headers: p.headers,
        },
        Stage::HeaderLines => if is_blank(line) {
            ParserView { stage: Stage::Complete, ..p }
        } else {
            ParserView { headers: with_header_line(p.headers, line), ..p }
        },
        Stage::Complete => p,
    }
}

/// What the parser `p` needs next.
pub open spec fn need_of(p: ParserView) -> Need {
    if p.stage != Stage::Complete {
        Need::Line
    } else if declared_length(p.headers) > 0 {
        Need::Body(declared_length(p.headers) as usize)
    } else {
        Need::Nothing
    }
}

/// The request that the parser `p` has read, with its body taken from `rest`.
pub open spec fn finished(p: ParserView, rest: Seq<u8>) -> RequestView {
    RequestView {
        method: p.method,
        path: p.path,
        headers: p.headers,
        body: read_body(rest, declared_length(p.headers)),
    }
}

impl RequestParser {
    /// A parser that has read nothing.
    pub fn new() -> (parser: RequestParser)
        ensures
            parser@ == fresh_parser(),
    {
        RequestParser {
            stage: Stage::StartLine,
            method: Vec::new(),
            path: Vec::new(),
            headers: Headers::new(),
        }
    }

    /// What the parser needs next.
    pub fn need(&self) -> (need: Need)
        ensures
            need == need_of(self@),
    {
        match self.stage {
            Stage::Complete => {
                let n: usize = content_length(&self.headers);
                if n > 0 {
                    Need::Body(n)
                } else {
                    Need::Nothing
                }
            },
            _ => Need::Line,
        }
    }

    /// Gives the parser the next line, with its terminator. The empty line
    /// stands for the end of the input.
    pub fn read_line(&mut self, line: &[u8]) -> (need: Need)
        ensures
            final(self)@ == after_line_read(old(self)@, line@),
            need == need_of(final(self)@),
    {
        match self.stage {
            Stage::StartLine => {
                let (method, path) = parse_start_line(line);
                self.method = method;
                self.path = path;
                self.stage = Stage::HeaderLines;
            },
            Stage::HeaderLines => {
                if is_blank_line(line) {
                    self.stage = Stage::Complete;
                } else {
                    match parse_header_line(line) {
                        Some((name, value)) => {
                            self.headers.insert(name.as_slice(), value);
                        },
                        None => {},
                    }
                }
            },
            Stage::Complete => {},
        }
        self.need()
    }

    /// The request that was read, with its body taken from `rest`: the bytes
    /// that came after the head.
    pub fn finish(self, rest: &[u8]) -> (req: HttpRequest)
        ensures
            req@ == finished(self@, rest@),
    {
        let n: usize = content_length(&self.headers);
        let body = take_body(rest, n);
        HttpRequest { method: self.method, path: self.path, headers: self.headers, body }
    }
}

/// Parses the request that `stream` holds: all the bytes that the connection
/// delivered before it was read to its end.
pub fn parse_req(stream: &[u8]) -> (req: HttpRequest)
    ensures
        req@ == parse_request(stream@),
        req.body@.len() == declared_length(req.headers@),
{
    let mut parser = RequestParser::new();
    let (start_line, after_start) = split_line(stream);
    let mut need = parser.read_line(start_line);
    let mut rest: &[u8] = after_start;
    while need == Need::Line
        invariant
            need == need_of(parser@),
            parser@.method == request_target(first_line(stream@)).0,
            parser@.path == request_target(first_line(stream@)).1,
            parser@.stage == Stage::Complete ==> parse_head(after_start@, Map::empty()) == (
                parser@.headers,
                rest@,
            ),
            parser@.stage != Stage::Complete ==> parser@.stage == Stage::HeaderLines && parse_head(
                after_start@,
                Map::empty(),
            ) == parse_head(rest@, parser@.headers),
        decreases
                rest@.len() + (if parser@.stage == Stage::Complete {
                    0nat
                } else {
                    1nat
                }),
    {
        let (line, after) = split_line(rest);
        proof {
            lemma_line_len(rest@);
        }
        need = parser.read_line(line);
        rest = after;
    }
    parser.finish(rest)
}

} // verus!
