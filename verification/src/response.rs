//! Responses and their wire format.

use crate::text::{ascii_bytes, decimal_digits, literal, push_bytes, push_decimal};
use vstd::prelude::*;

verus! {

/// The status of a response.
#[derive(Clone, Copy, Debug, PartialEq, Eq, Structural)]
pub enum Status {
    Okay,
    Created,
    NotFound,
    InternalServerError,
}

/// The kind of content that a response carries.
#[derive(Clone, Copy, Debug, PartialEq, Eq, Structural)]
pub enum ContentType {
    TextPlain,
    OctetStream,
}

/// The body of a response, with its kind.
#[derive(Debug, PartialEq, Eq)]
pub struct Content {
    pub kind: ContentType,
    pub data: Vec<u8>,
}

/// A response: a status and, where it has a body, the content. A response
/// with an empty body is not the same as one without a body: the first is
/// sent with its content headers.
#[derive(Debug, PartialEq, Eq)]
pub struct Response {
    pub status: Status,
    pub content: Option<Content>,
}

/// A response as a mathematical value.
pub struct ResponseView {
    pub status: Status,
    pub content: Option<(ContentType, Seq<u8>)>,
}

impl View for Response {
    type V = ResponseView;

    open spec fn view(&self) -> ResponseView {
        ResponseView {
            status: self.status,
            content: match self.content {
                Some(content) => Some((content.kind, content.data@)),
                None => None,
            },
        }
    }
}

/// The response with `status` and no body.
pub open spec fn bare(status: Status) -> ResponseView {
    ResponseView { status, content: None }
}

/// The response with `status` and the body `data` of kind `kind`.
pub open spec fn carrying(status: Status, kind: ContentType, data: Seq<u8>) -> ResponseView {
    ResponseView { status, content: Some((kind, data)) }
}

/// The end of a line on the wire.
pub open spec fn crlf() -> Seq<u8> {
    ascii_bytes("\r\n"@)
}

impl Status {
    /// The status code.
    pub open spec fn code_of(self) -> nat {
        match self {
            Status::Okay => 200,
            Status::Created => 201,
            Status::NotFound => 404,
            Status::InternalServerError => 500,
        }
    }

    /// The status line, without its line end.
    pub open spec fn line_of(self) -> Seq<u8> {
        match self {
            Status::Okay => ascii_bytes("HTTP/1.1 200 OK"@),
            Status::Created => ascii_bytes("HTTP/1.1 201 Created"@),
            Status::NotFound => ascii_bytes("HTTP/1.1 404 Not Found"@),
            Status::InternalServerError => ascii_bytes("HTTP/1.1 500 Internal Server Error"@),
        }
    }

    /// The status code.
    pub fn code(&self) -> (code: u16)
        ensures
            code == self.code_of(),
    {
        match self {
            Status::Okay => 200,
            Status::Created => 201,
            Status::NotFound => 404,
            Status::InternalServerError => 500,
        }
    }

    /// The status line, without its line end.
    pub fn line(&self) -> (line: &'static [u8])
        ensures
            line@ == self.line_of(),
    {
        proof {
            reveal_strlit("HTTP/1.1 200 OK");
            reveal_strlit("HTTP/1.1 201 Created");
            reveal_strlit("HTTP/1.1 404 Not Found");
            reveal_strlit("HTTP/1.1 500 Internal Server Error");
        }
        match self {
            Status::Okay => literal("HTTP/1.1 200 OK"),
            Status::Created => literal("HTTP/1.1 201 Created"),
            Status::NotFound => literal("HTTP/1.1 404 Not Found"),
            Status::InternalServerError => literal("HTTP/1.1 500 Internal Server Error"),
        }
    }
}

impl ContentType {
    /// The name of the kind, as the `Content-Type` header gives it.
    pub open spec fn name_of(self) -> Seq<u8> {
        match self {
            ContentType::TextPlain => ascii_bytes("text/plain"@),
            ContentType::OctetStream => ascii_bytes("application/octet-stream"@),
        }
    }

    /// The name of the kind, as the `Content-Type` header gives it.
    pub fn name(&self) -> (name: &'static [u8])
        ensures
            name@ == self.name_of(),
    {
        proof {
            reveal_strlit("text/plain");
            reveal_strlit("application/octet-stream");
        }
        match self {
            ContentType::TextPlain => literal("text/plain"),
            ContentType::OctetStream => literal("application/octet-stream"),
        }
    }
}

/// The bytes that carry the response `r` on the wire: the status line, then,
/// where it has a body, the kind and the length of the content, a blank line,
/// and, where it has a body, the body followed by two line ends.
pub open spec fn wire(r: ResponseView) -> Seq<u8> {
    match r.content {
        None => r.status.line_of() + crlf() + crlf(),
        Some((kind, data)) => r.status.line_of() + crlf() + ascii_bytes("Content-Type: "@)
            + kind.name_of() + crlf() + ascii_bytes("Content-Length: "@) + decimal_digits(
            data.len(),
        ) + crlf() + crlf() + data + crlf() + crlf(),
    }
}

impl Response {
    /// The response with `status` and no body.
    pub fn new(status: Status) -> (response: Response)
        ensures
            response@ == bare(status),
    {
        Response { status, content: None }
    }

    /// The response with `status` and the body `data` of kind `kind`.
    pub fn with_content(status: Status, kind: ContentType, data: Vec<u8>) -> (response: Response)
        ensures
            response@ == carrying(status, kind, data@),
    {
        Response { status, content: Some(Content { kind, data }) }
    }

    /// The bytes that carry this response on the wire.
    pub fn to_bytes(&self) -> (out: Vec<u8>)
        ensures
            out@ == wire(self@),
    {
        proof {
            reveal_strlit("\r\n");
            reveal_strlit("Content-Type: ");
            reveal_strlit("Content-Length: ");
        }
        let mut out: Vec<u8> = Vec::new();
        push_bytes(&mut out, self.status.line());
        push_bytes(&mut out, literal("\r\n"));
        match &self.content {
            None => {
                push_bytes(&mut out, literal("\r\n"));
            },
            Some(content) => {
                push_bytes(&mut out, literal("Content-Type: "));
                push_bytes(&mut out, content.kind.name());
                push_bytes(&mut out, literal("\r\n"));
                push_bytes(&mut out, literal("Content-Length: "));
                push_decimal(&mut out, content.data.len());
                push_bytes(&mut out, literal("\r\n"));
                push_bytes(&mut out, literal("\r\n"));
                push_bytes(&mut out, content.data.as_slice());
                push_bytes(&mut out, literal("\r\n"));
                push_bytes(&mut out, literal("\r\n"));
            },
        }
        out
    }
}

} // verus!
