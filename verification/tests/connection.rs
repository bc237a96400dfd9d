use http_server::connection::{Action, Connection, Event, Failure};
use std::collections::HashMap;

/// A peer and a file store held in memory, for one connection.
struct World {
    input: Vec<u8>,
    at: usize,
    files: HashMap<Vec<u8>, Vec<u8>>,
    read_only: bool,
    failing_writes: usize,
    sent: Vec<Vec<u8>>,
    errors: Vec<Vec<u8>>,
    actions: usize,
}

impl World {
    fn new(input: &[u8]) -> World {
        World {
            input: input.to_vec(),
            at: 0,
            files: HashMap::new(),
            read_only: false,
            failing_writes: 0,
            sent: Vec::new(),
            errors: Vec::new(),
            actions: 0,
        }
    }

    fn read_line(&mut self) -> Vec<u8> {
        let rest = &self.input[self.at..];
        let end = match rest.iter().position(|b| *b == b'\n') {
            Some(i) => i + 1,
            None => rest.len(),
        };
        let line = rest[..end].to_vec();
        self.at += end;
        line
    }

    fn read_body(&mut self, n: usize) -> Vec<u8> {
        let rest = &self.input[self.at..];
        let end = if n < rest.len() { n } else { rest.len() };
        let bytes = rest[..end].to_vec();
        self.at += end;
        bytes
    }

    fn write(&mut self) -> bool {
        if self.failing_writes > 0 {
            self.failing_writes -= 1;
            false
        } else {
            true
        }
    }

    /// Performs the actions of one connection until it is closed.
    fn serve(&mut self, root: Option<&[u8]>) -> Option<Failure> {
        let (mut connection, mut action) = Connection::accept(root.map(|r| r.to_vec()));
        loop {
            self.actions += 1;
            assert!(self.actions < 1000);
            let event = match action {
                Action::ReadLine => Event::Line(self.read_line()),
                Action::ReadBody(n) => Event::Body(self.read_body(n)),
                Action::ReadFile(name) => Event::FileRead(self.files.get(&name).cloned()),
                Action::WriteFile(name, contents) => {
                    if self.read_only {
                        Event::FileWritten(false)
                    } else {
                        self.files.insert(name, contents);
                        Event::FileWritten(true)
                    }
                }
                Action::Send(bytes) => {
                    let ok = self.write();
                    if ok {
                        self.sent.push(bytes);
                    }
                    Event::Sent(ok)
                }
                Action::SendError(bytes) => {
                    let ok = self.write();
                    if ok {
                        self.errors.push(bytes);
                    }
                    Event::Sent(ok)
                }
                Action::Close(failure) => {
                    assert!(connection.is_closed());
                    return failure;
                }
            };
            assert!(!connection.is_closed());
            let next = connection.step(event);
            connection = next.0;
            action = next.1;
        }
    }
}

#[test]
fn greeting_over_a_connection() {
    let mut world = World::new(b"GET / HTTP/1.1\r\nHost: localhost\r\n\r\n");
    assert_eq!(world.serve(Some(b"/tmp/r/")), None);
    assert_eq!(world.sent, vec![b"HTTP/1.1 200 OK\r\n\r\n".to_vec()]);
    assert_eq!(world.errors, Vec::<Vec<u8>>::new());
    assert_eq!(world.at, world.input.len());
}

#[test]
fn echo_over_a_connection() {
    let mut world = World::new(b"GET /echo/hello HTTP/1.1\r\n\r\n");
    assert_eq!(world.serve(None), None);
    assert_eq!(
        world.sent,
        vec![b"HTTP/1.1 200 OK\r\nContent-Type: text/plain\r\nContent-Length: 5\r\n\r\nhello\r\n\r\n".to_vec()]
    );
}

#[test]
fn user_agent_over_a_connection() {
    let mut world = World::new(b"GET /user-agent HTTP/1.1\r\nUser-Agent: testclient\r\n\r\n");
    assert_eq!(world.serve(None), None);
    assert_eq!(
        world.sent,
        vec![b"HTTP/1.1 200 OK\r\nContent-Type: text/plain\r\nContent-Length: 10\r\n\r\ntestclient\r\n\r\n".to_vec()]
    );
}

#[test]
fn not_found_over_a_connection() {
    let mut world = World::new(b"GET /nonexistent HTTP/1.1\r\n\r\n");
    assert_eq!(world.serve(None), None);
    assert_eq!(world.sent, vec![b"HTTP/1.1 404 Not Found\r\n\r\n".to_vec()]);
}

#[test]
fn file_written_then_read() {
    let mut world = World::new(b"POST /files/a.txt HTTP/1.1\r\nContent-Length: 2\r\n\r\nhi");
    assert_eq!(world.serve(Some(b"/tmp/r/")), None);
    assert_eq!(world.sent, vec![b"HTTP/1.1 201 Created\r\n\r\n".to_vec()]);
    assert_eq!(world.files.get(&b"/tmp/r/a.txt".to_vec()), Some(&b"hi".to_vec()));

    let files = world.files;
    let mut world = World::new(b"GET /files/a.txt HTTP/1.1\r\n\r\n");
    world.files = files;
    assert_eq!(world.serve(Some(b"/tmp/r/")), None);
    assert_eq!(
        world.sent,
        vec![b"HTTP/1.1 200 OK\r\nContent-Type: application/octet-stream\r\nContent-Length: 2\r\n\r\nhi\r\n\r\n".to_vec()]
    );
}

#[test]
fn any_bytes_written_are_read_back() {
    let body: Vec<u8> = (0u8..=255).collect();
    let mut input = b"POST /files/all HTTP/1.1\r\nContent-Length: 256\r\n\r\n".to_vec();
    input.extend_from_slice(&body);
    let mut world = World::new(&input);
    assert_eq!(world.serve(Some(b"dir/")), None);
    let files = world.files;
    let mut world = World::new(b"GET /files/all HTTP/1.1\r\n\r\n");
    world.files = files;
    assert_eq!(world.serve(Some(b"dir/")), None);
    let mut expected =
        b"HTTP/1.1 200 OK\r\nContent-Type: application/octet-stream\r\nContent-Length: 256\r\n\r\n".to_vec();
    expected.extend_from_slice(&body);
    expected.extend_from_slice(b"\r\n\r\n");
    assert_eq!(world.sent, vec![expected]);
}

#[test]
fn missing_file_is_not_found() {
    let mut world = World::new(b"GET /files/none HTTP/1.1\r\n\r\n");
    assert_eq!(world.serve(Some(b"/tmp/r/")), None);
    assert_eq!(world.sent, vec![b"HTTP/1.1 404 Not Found\r\n\r\n".to_vec()]);
}

#[test]
fn other_methods_on_files_are_not_found() {
    let mut world = World::new(b"DELETE /files/a.txt HTTP/1.1\r\n\r\n");
    world.files.insert(b"/tmp/r/a.txt".to_vec(), b"hi".to_vec());
    assert_eq!(world.serve(Some(b"/tmp/r/")), None);
    assert_eq!(world.sent, vec![b"HTTP/1.1 404 Not Found\r\n\r\n".to_vec()]);
    assert_eq!(world.files.len(), 1);
}

#[test]
fn failed_file_write_closes_without_a_response() {
    let mut world = World::new(b"POST /files/a.txt HTTP/1.1\r\nContent-Length: 2\r\n\r\nhi");
    world.read_only = true;
    assert_eq!(world.serve(Some(b"/tmp/r/")), Some(Failure::FileWrite));
    assert_eq!(world.sent, Vec::<Vec<u8>>::new());
    assert_eq!(world.errors, Vec::<Vec<u8>>::new());
}

#[test]
fn files_without_a_directory_close_without_a_response() {
    for input in [&b"GET /files/a.txt HTTP/1.1\r\n\r\n"[..], b"DELETE /files/a.txt HTTP/1.1\r\n\r\n"] {
        let mut world = World::new(input);
        assert_eq!(world.serve(None), Some(Failure::NoDirectory));
        assert_eq!(world.sent, Vec::<Vec<u8>>::new());
    }
}

#[test]
fn failed_write_is_answered_with_a_server_error_once() {
    let mut world = World::new(b"GET / HTTP/1.1\r\n\r\n");
    world.failing_writes = 1;
    assert_eq!(world.serve(None), None);
    assert_eq!(world.sent, Vec::<Vec<u8>>::new());
    assert_eq!(world.errors, vec![b"HTTP/1.1 500 Internal Server Error\r\n\r\n".to_vec()]);
}

#[test]
fn second_failed_write_is_reported_and_not_retried() {
    let mut world = World::new(b"GET / HTTP/1.1\r\n\r\n");
    world.failing_writes = 5;
    assert_eq!(world.serve(None), Some(Failure::ConnectionWrite));
    assert_eq!(world.failing_writes, 3);
    assert_eq!(world.sent, Vec::<Vec<u8>>::new());
    assert_eq!(world.errors, Vec::<Vec<u8>>::new());
}

#[test]
fn short_body_is_filled_over_a_connection() {
    let mut world = World::new(b"POST /files/short HTTP/1.1\r\nContent-Length: 4\r\n\r\nhi");
    assert_eq!(world.serve(Some(b"")), None);
    assert_eq!(world.files.get(&b"short".to_vec()), Some(&vec![b'h', b'i', 0, 0]));
}

#[test]
fn only_the_declared_body_is_read() {
    let mut world = World::new(b"POST /files/a HTTP/1.1\r\nContent-Length: 2\r\n\r\nhi and more");
    assert_eq!(world.serve(Some(b"")), None);
    assert_eq!(world.files.get(&b"a".to_vec()), Some(&b"hi".to_vec()));
    assert_eq!(&world.input[world.at..], b" and more");
}

#[test]
fn empty_connection_is_answered_not_found() {
    let mut world = World::new(b"");
    assert_eq!(world.serve(None), None);
    assert_eq!(world.sent, vec![b"HTTP/1.1 404 Not Found\r\n\r\n".to_vec()]);
}

#[test]
fn steps_follow_the_request() {
    let (connection, action) = Connection::accept(Some(b"/srv/".to_vec()));
    assert_eq!(action, Action::ReadLine);
    let (connection, action) = connection.step(Event::Line(b"POST /files/f HTTP/1.1\r\n".to_vec()));
    assert_eq!(action, Action::ReadLine);
    let (connection, action) = connection.step(Event::Line(b"Content-Length: 3\r\n".to_vec()));
    assert_eq!(action, Action::ReadLine);
    let (connection, action) = connection.step(Event::Line(b"\r\n".to_vec()));
    assert_eq!(action, Action::ReadBody(3));
    assert!(matches!(connection, Connection::Framed { .. }));
    let (connection, action) = connection.step(Event::Body(b"abc".to_vec()));
    assert_eq!(action, Action::WriteFile(b"/srv/f".to_vec(), b"abc".to_vec()));
    assert!(matches!(connection, Connection::Routed { writing: true }));
    let (connection, action) = connection.step(Event::FileWritten(true));
    assert_eq!(action, Action::Send(b"HTTP/1.1 201 Created\r\n\r\n".to_vec()));
    assert!(matches!(connection, Connection::Handled));
    let (connection, action) = connection.step(Event::Sent(false));
    assert_eq!(action, Action::SendError(b"HTTP/1.1 500 Internal Server Error\r\n\r\n".to_vec()));
    assert!(matches!(connection, Connection::Failed));
    let (connection, action) = connection.step(Event::Sent(true));
    assert_eq!(action, Action::Close(None));
    assert!(connection.is_closed());
    let (connection, action) = connection.step(Event::Sent(true));
    assert_eq!(action, Action::Close(None));
    assert!(connection.is_closed());
}

#[test]
fn unawaited_event_closes_the_connection() {
    let (connection, _) = Connection::accept(None);
    let (connection, action) = connection.step(Event::Sent(true));
    assert_eq!(action, Action::Close(None));
    assert!(connection.is_closed());

    let (connection, _) = Connection::accept(None);
    let (connection, _) = connection.step(Event::Line(b"GET /files/x HTTP/1.1\r\n".to_vec()));
    let (connection, action) = connection.step(Event::Body(b"x".to_vec()));
    assert_eq!(action, Action::Close(None));
    assert!(connection.is_closed());

    let (connection, action) = Connection::Routed { writing: false }.step(Event::FileWritten(true));
    assert_eq!(action, Action::Close(None));
    assert!(connection.is_closed());
    let (connection, action) = Connection::Routed { writing: true }.step(Event::FileRead(None));
    assert_eq!(action, Action::Close(None));
    assert!(connection.is_closed());
}
