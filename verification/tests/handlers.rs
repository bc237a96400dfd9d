use http_server::handlers::{
    do_echo, do_get_file, do_get_header, do_ok, do_route_files, do_write_file, file_name,
    handle_req, not_found, server_error, Outcome,
};
use http_server::headers::Headers;
use http_server::request::{parse_req, HttpRequest};
use http_server::response::{Content, ContentType, Response, Status};
use http_server::router::{route_req, Route};

fn request(method: &[u8], path: &[u8]) -> HttpRequest {
    HttpRequest {
        method: method.to_vec(),
        path: path.to_vec(),
        headers: Headers::new(),
        body: Vec::new(),
    }
}

fn route(path: &[u8]) -> Route {
    route_req(&request(b"GET", path))
}

fn respond(input: &[u8]) -> Response {
    match handle_req(parse_req(input), b"/tmp/r/") {
        Outcome::Respond(response) => response,
        other => panic!("no response: {:?}", other),
    }
}

fn plain(body: &[u8]) -> Response {
    Response {
        status: Status::Okay,
        content: Some(Content { kind: ContentType::TextPlain, data: body.to_vec() }),
    }
}

#[test]
fn root_path_is_greeted() {
    let response = respond(b"GET / HTTP/1.1\r\n\r\n");
    assert_eq!(response.status, Status::Okay);
    assert_eq!(response.status.code(), 200);
    assert_eq!(response.content, None);
    assert_eq!(response.to_bytes(), b"HTTP/1.1 200 OK\r\n\r\n".to_vec());
}

#[test]
fn echo_answers_with_the_rest_of_the_path() {
    let response = respond(b"GET /echo/hello HTTP/1.1\r\n\r\n");
    assert_eq!(response, plain(b"hello"));
    assert_eq!(response.status.code(), 200);
    assert_eq!(
        response.to_bytes(),
        b"HTTP/1.1 200 OK\r\nContent-Type: text/plain\r\nContent-Length: 5\r\n\r\nhello\r\n\r\n".to_vec()
    );
}

#[test]
fn user_agent_is_looked_up() {
    let response = respond(b"GET /user-agent HTTP/1.1\r\nUser-Agent: testclient\r\n\r\n");
    assert_eq!(response, plain(b"testclient"));
    assert_eq!(
        response.to_bytes(),
        b"HTTP/1.1 200 OK\r\nContent-Type: text/plain\r\nContent-Length: 10\r\n\r\ntestclient\r\n\r\n".to_vec()
    );
}

#[test]
fn unknown_path_is_not_found() {
    let response = respond(b"GET /nonexistent HTTP/1.1\r\n\r\n");
    assert_eq!(response.status, Status::NotFound);
    assert_eq!(response.status.code(), 404);
    assert_eq!(response.content, None);
    assert_eq!(response.to_bytes(), b"HTTP/1.1 404 Not Found\r\n\r\n".to_vec());
}

#[test]
fn header_lookup_ignores_the_case_of_the_path() {
    let lower = respond(b"GET /foo HTTP/1.1\r\nFoo: bar\r\n\r\n");
    let upper = respond(b"GET /FOO HTTP/1.1\r\nFoo: bar\r\n\r\n");
    let mixed = respond(b"GET /Foo HTTP/1.1\r\nFoo: bar\r\n\r\n");
    assert_eq!(lower, plain(b"bar"));
    assert_eq!(upper, lower);
    assert_eq!(mixed, lower);
    assert_eq!(respond(b"GET /foo HTTP/1.1\r\nFOO: bar\r\n\r\n"), lower);
    assert_eq!(respond(b"GET /fOo HTTP/1.1\r\nfoO: bar\r\n\r\n"), lower);
}

#[test]
fn files_come_before_echo_and_header_lookup() {
    assert_eq!(route(b"/files/echo/x"), Route::Files);
    assert_eq!(route(b"/files/x"), Route::Files);
    assert_eq!(route(b"/files/"), Route::Files);
    assert_eq!(route(b"/echo/files/x"), Route::Echo);
    let outcome = handle_req(parse_req(b"GET /files/echo/x HTTP/1.1\r\n\r\n"), b"/tmp/r/");
    assert_eq!(outcome, Outcome::ReadFile { name: b"/tmp/r/echo/x".to_vec() });
}

#[test]
fn routes_are_tried_in_order() {
    assert_eq!(route(b"/"), Route::Greeting);
    assert_eq!(route(b"/echo/"), Route::Echo);
    assert_eq!(route(b"/echo/a/b"), Route::Echo);
    assert_eq!(route(b"/echo"), Route::HeaderLookup);
    assert_eq!(route(b"/files"), Route::HeaderLookup);
    assert_eq!(route(b"/user-agent"), Route::HeaderLookup);
    assert_eq!(route(b"/a/b"), Route::NotFound);
    assert_eq!(route(b"/a/"), Route::NotFound);
    assert_eq!(route(b"//"), Route::NotFound);
    assert_eq!(route(b"/ECHO/x"), Route::NotFound);
    assert_eq!(route(b"/Files/x"), Route::NotFound);
    assert_eq!(route(b""), Route::NotFound);
    assert_eq!(route(b"echo/x"), Route::NotFound);
    assert_eq!(route(b"x"), Route::NotFound);
}

#[test]
fn route_does_not_depend_on_the_method() {
    assert_eq!(route_req(&request(b"POST", b"/")), Route::Greeting);
    assert_eq!(route_req(&request(b"", b"/echo/x")), Route::Echo);
    assert_eq!(route_req(&request(b"DELETE", b"/files/x")), Route::Files);
}

#[test]
fn malformed_start_line_is_not_found() {
    assert_eq!(respond(b"GET\r\n\r\n"), not_found());
    assert_eq!(respond(b""), not_found());
    assert_eq!(respond(b"\r\n\r\n"), not_found());
}

#[test]
fn echo_of_nothing_has_an_empty_body_with_its_headers() {
    let response = respond(b"GET /echo/ HTTP/1.1\r\n\r\n");
    assert_eq!(response, plain(b""));
    assert_eq!(
        response.to_bytes(),
        b"HTTP/1.1 200 OK\r\nContent-Type: text/plain\r\nContent-Length: 0\r\n\r\n\r\n\r\n".to_vec()
    );
}

#[test]
fn echo_keeps_later_slashes_and_prefixes() {
    assert_eq!(respond(b"GET /echo/a/b/echo/c HTTP/1.1\r\n\r\n"), plain(b"a/b/echo/c"));
    assert_eq!(do_echo(&request(b"GET", b"/x/echo/tail")), plain(b"tail"));
    assert_eq!(do_echo(&request(b"GET", b"/nothing")), plain(b""));
}

#[test]
fn header_lookup_misses_are_not_found() {
    assert_eq!(respond(b"GET /accept HTTP/1.1\r\nUser-Agent: x\r\n\r\n"), not_found());
    assert_eq!(do_get_header(&request(b"GET", b"/missing")), not_found());
}

#[test]
fn header_lookup_takes_the_second_segment() {
    let mut req = request(b"GET", b"/name/rest");
    req.headers.insert(b"Name", b"value".to_vec());
    req.headers.insert(b"", b"anonymous".to_vec());
    assert_eq!(do_get_header(&req), plain(b"value"));
    req.path = b"/NAME".to_vec();
    assert_eq!(do_get_header(&req), plain(b"value"));
    req.path = b"before/name".to_vec();
    assert_eq!(do_get_header(&req), plain(b"value"));
    req.path = b"name".to_vec();
    assert_eq!(do_get_header(&req), plain(b"anonymous"));
    req.path = b"/".to_vec();
    assert_eq!(do_get_header(&req), plain(b"anonymous"));
}

#[test]
fn header_value_of_any_length_is_counted() {
    let response = respond(b"GET /x HTTP/1.1\r\nX: 0123456789012345678901234567890123456789012345678901234567890123456789012345678901234567890123456789\r\n\r\n");
    let bytes = response.to_bytes();
    assert!(bytes.starts_with(b"HTTP/1.1 200 OK\r\nContent-Type: text/plain\r\nContent-Length: 100\r\n\r\n0123"));
    assert!(bytes.ends_with(b"6789\r\n\r\n"));
}

#[test]
fn file_name_joins_without_a_separator() {
    assert_eq!(file_name(b"/tmp/r/", b"/files/a.txt"), b"/tmp/r/a.txt".to_vec());
    assert_eq!(file_name(b"/tmp/r", b"/files/a.txt"), b"/tmp/ra.txt".to_vec());
    assert_eq!(file_name(b"", b"/files/a.txt"), b"a.txt".to_vec());
    assert_eq!(file_name(b"/tmp/r/", b"/files/../etc/passwd"), b"/tmp/r/../etc/passwd".to_vec());
    assert_eq!(file_name(b"/tmp/r/", b"/files/a/files/b"), b"/tmp/r/a/files/b".to_vec());
    assert_eq!(file_name(b"/tmp/r/", b"/files/"), b"/tmp/r/".to_vec());
    assert_eq!(file_name(b"/tmp/r/", b"/other"), b"/tmp/r/".to_vec());
}

#[test]
fn files_are_dispatched_by_method() {
    let mut req = request(b"POST", b"/files/a.txt");
    req.body = b"hi".to_vec();
    assert_eq!(
        do_route_files(req, b"/tmp/r/"),
        Outcome::WriteFile { name: b"/tmp/r/a.txt".to_vec(), contents: b"hi".to_vec() }
    );
    assert_eq!(
        do_route_files(request(b"GET", b"/files/a.txt"), b"/tmp/r/"),
        Outcome::ReadFile { name: b"/tmp/r/a.txt".to_vec() }
    );
    for method in [&b"DELETE"[..], b"PUT", b"get", b"Post", b"", b"GET "] {
        assert_eq!(
            do_route_files(request(method, b"/files/a.txt"), b"/tmp/r/"),
            Outcome::Respond(not_found())
        );
    }
}

#[test]
fn file_read_answers_with_the_contents() {
    let response = do_get_file(Some(b"hi".to_vec()));
    assert_eq!(response.status, Status::Okay);
    assert_eq!(
        response.content,
        Some(Content { kind: ContentType::OctetStream, data: b"hi".to_vec() })
    );
    assert_eq!(
        response.to_bytes(),
        b"HTTP/1.1 200 OK\r\nContent-Type: application/octet-stream\r\nContent-Length: 2\r\n\r\nhi\r\n\r\n".to_vec()
    );
    assert_eq!(do_get_file(None), not_found());
    let empty = do_get_file(Some(Vec::new()));
    assert_eq!(
        empty.to_bytes(),
        b"HTTP/1.1 200 OK\r\nContent-Type: application/octet-stream\r\nContent-Length: 0\r\n\r\n\r\n\r\n".to_vec()
    );
}

#[test]
fn file_write_answers_created_or_not_at_all() {
    let response = do_write_file(true).unwrap();
    assert_eq!(response.status, Status::Created);
    assert_eq!(response.status.code(), 201);
    assert_eq!(response.content, None);
    assert_eq!(response.to_bytes(), b"HTTP/1.1 201 Created\r\n\r\n".to_vec());
    assert_eq!(do_write_file(false), None);
}

#[test]
fn plain_responses_have_their_status_lines() {
    assert_eq!(do_ok().to_bytes(), b"HTTP/1.1 200 OK\r\n\r\n".to_vec());
    assert_eq!(not_found().to_bytes(), b"HTTP/1.1 404 Not Found\r\n\r\n".to_vec());
    assert_eq!(server_error().status.code(), 500);
    assert_eq!(server_error().to_bytes(), b"HTTP/1.1 500 Internal Server Error\r\n\r\n".to_vec());
    assert_eq!(Response::new(Status::Created), do_write_file(true).unwrap());
    assert_eq!(Status::Okay.line(), b"HTTP/1.1 200 OK");
    assert_eq!(ContentType::TextPlain.name(), b"text/plain");
    assert_eq!(ContentType::OctetStream.name(), b"application/octet-stream");
}

#[test]
fn response_with_content_counts_bytes() {
    let response = Response::with_content(Status::NotFound, ContentType::TextPlain, vec![0xc3, 0xa9, 0x0a]);
    assert_eq!(
        response.to_bytes(),
        b"HTTP/1.1 404 Not Found\r\nContent-Type: text/plain\r\nContent-Length: 3\r\n\r\n\xc3\xa9\n\r\n\r\n".to_vec()
    );
}
