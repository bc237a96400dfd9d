//! The life of one connection, as a state machine.
//!
//! The machine decides; its driver acts. The driver performs the action that
//! the machine hands out (it reads from the connection, reads or writes a
//! file, writes to the connection) and hands back what came of it as an
//! event. Every connection is handled once and then closed: no state is
//! entered twice but the one that reads the lines of the head.

use crate::handlers::{
    do_get_file, do_write_file, handle_req, outcome_of, read_response, server_error, Outcome,
    OutcomeView,
};
use crate::request::{
    after_line_read, finished, fresh_parser, need_of, HttpRequest, Need, ParserView,
    RequestParser, RequestView,
};
use crate::response::{bare, wire, Status};
use crate::router::{route_of, route_req, Route};
use crate::text::opt_bytes;
use vstd::prelude::*;

verus! {

/// Why a connection was closed without a response, or without its response
/// having been written.
#[derive(Clone, Copy, Debug, PartialEq, Eq, Structural)]
pub enum Failure {
    /// A file was asked for and no directory is configured.
    NoDirectory,
    /// The file store could not write the file.
    FileWrite,
    /// Neither the response nor the server error in its place could be
    /// written to the connection.
    ConnectionWrite,
}

/// What came of the action that the machine handed out last.
#[derive(Debug, PartialEq, Eq)]
pub enum Event {
    /// A line was read, terminator included; empty at the end of the input.
    Line(Vec<u8>),
    /// The body was read: the bytes that came, which may be fewer than asked.
    Body(Vec<u8>),
    /// The file was read, or could not be.
    FileRead(Option<Vec<u8>>),
    /// The file was written, or could not be.
    FileWritten(bool),
    /// The bytes were written to the connection, or could not be.
    Sent(bool),
}

/// What the driver is to do next.
#[derive(Debug, PartialEq, Eq)]
pub enum Action {
    /// Read one line from the connection; answer with `Event::Line`.
    ReadLine,
    /// Read this many bytes from the connection; answer with `Event::Body`.
    ReadBody(usize),
    /// Read the named file; answer with `Event::FileRead`.
    ReadFile(Vec<u8>),
    /// Write the bytes to the named file; answer with `Event::FileWritten`.
    WriteFile(Vec<u8>, Vec<u8>),
    /// Write the response to the connection; answer with `Event::Sent`.
    Send(Vec<u8>),
    /// The response could not be written: report that, then write the server
    /// error in its place; answer with `Event::Sent`.
    SendError(Vec<u8>),
    /// Close the connection, and report the failure where there is one.
    Close(Option<Failure>),
}

/// The state of a connection.
#[derive(Debug)]
pub enum Connection {
    /// Accepted: the head of the request is being read.
    Accepted { parser: RequestParser, root: Option<Vec<u8>> },
    /// The head was read: the body is awaited.
    Framed { parser: RequestParser, root: Option<Vec<u8>> },
    /// The request was parsed and routed to the file handler: the file store
    /// is awaited.
    Routed { writing: bool },
    /// The request was handled: the response is being written.
    Handled,
    /// The response could not be written: the server error is being written.
    Failed,
    /// The connection is closed.
    Closed,
}

/// An event as a mathematical value.
pub enum EventView {
    Line(Seq<u8>),
    Body(Seq<u8>),
    FileRead(Option<Seq<u8>>),
    FileWritten(bool),
    Sent(bool),
}

/// An action as a mathematical value.
pub enum ActionView {
    ReadLine,
    ReadBody(usize),
    ReadFile(Seq<u8>),
    WriteFile(Seq<u8>, Seq<u8>),
    Send(Seq<u8>),
    SendError(Seq<u8>),
    Close(Option<Failure>),
}

/// A state as a mathematical value.
pub enum ConnectionView {
    Accepted { parser: ParserView, root: Option<Seq<u8>> },
    Framed { parser: ParserView, root: Option<Seq<u8>> },
    Routed { writing: bool },
    Handled,
    Failed,
    Closed,
}

impl View for Event {
    type V = EventView;

    open spec fn view(&self) -> EventView {
        match self {
            Event::Line(line) => EventView::Line(line@),
            Event::Body(bytes) => EventView::Body(bytes@),
            Event::FileRead(contents) => EventView::FileRead(opt_bytes(*contents)),
            Event::FileWritten(written) => EventView::FileWritten(*written),
            Event::Sent(sent) => EventView::Sent(*sent),
        }
    }
}

impl View for Action {
    type V = ActionView;

    open spec fn view(&self) -> ActionView {
        match self {
            Action::ReadLine => ActionView::ReadLine,
            Action::ReadBody(n) => ActionView::ReadBody(*n),
            Action::ReadFile(name) => ActionView::ReadFile(name@),
            Action::WriteFile(name, contents) => ActionView::WriteFile(name@, contents@),
            Action::Send(bytes) => ActionView::Send(bytes@),
            Action::SendError(bytes) => ActionView::SendError(bytes@),
            Action::Close(failure) => ActionView::Close(*failure),
        }
    }
}

impl View for Connection {
    type V = ConnectionView;

    open spec fn view(&self) -> ConnectionView {
        match self {
            Connection::Accepted { parser, root } => ConnectionView::Accepted {
                parser: parser@,
                root: opt_bytes(*root),
            },
            Connection::Framed { parser, root } => ConnectionView::Framed {
                parser: parser@,
                root: opt_bytes(*root),
            },
            Connection::Routed { writing } => ConnectionView::Routed { writing: *writing },
            Connection::Handled => ConnectionView::Handled,
            Connection::Failed => ConnectionView::Failed,
            Connection::Closed => ConnectionView::Closed,
        }
    }
}

/// The state and the action that follow from the outcome of a handler: a
/// response is sent, a file is asked of the store.
pub open spec fn carry_out(outcome: OutcomeView) -> (ConnectionView, ActionView) {
    match outcome {
        OutcomeView::Respond(response) => (ConnectionView::Handled, ActionView::Send(wire(response))),
        OutcomeView::ReadFile { name } => (
            ConnectionView::Routed { writing: false },
            ActionView::ReadFile(name),
        ),
        OutcomeView::WriteFile { name, contents } => (
            ConnectionView::Routed { writing: true },
            ActionView::WriteFile(name, contents),
        ),
    }
}

/// The state and the action that follow from a parsed request. A request for
/// a file closes the connection without a response where no directory is
/// configured.
pub open spec fn dispatch(req: RequestView, root: Option<Seq<u8>>) -> (ConnectionView, ActionView) {
    match root {
        Some(directory) => carry_out(outcome_of(req, directory)),
        None => if route_of(req.path) == Route::Files {
            (ConnectionView::Closed, ActionView::Close(Some(Failure::NoDirectory)))
        } else {
            carry_out(outcome_of(req, Seq::empty()))
        },
    }
}

/// The state and the action that follow from the state `c` and the event `e`.
/// An event that the state does not await closes the connection.
pub open spec fn next_of(c: ConnectionView, e: EventView) -> (ConnectionView, ActionView) {
    match (c, e) {
        (ConnectionView::Accepted { parser, root }, EventView::Line(line)) => {
            let parser = after_line_read(parser, line);
            match need_of(parser) {
                Need::Line => (ConnectionView::Accepted { parser, root }, ActionView::ReadLine),
                Need::Body(n) => (ConnectionView::Framed { parser, root }, ActionView::ReadBody(n)),
                Need::Nothing => dispatch(finished(parser, Seq::empty()), root),
            }
        },
        (ConnectionView::Framed { parser, root }, EventView::Body(bytes)) => dispatch(
            finished(parser, bytes),
            root,
        ),
        (ConnectionView::Routed { writing: false }, EventView::FileRead(contents)) => (
            ConnectionView::Handled,
            ActionView::Send(wire(read_response(contents))),
        ),
        (ConnectionView::Routed { writing: true }, EventView::FileWritten(written)) => if written {
            (ConnectionView::Handled, ActionView::Send(wire(bare(Status::Created))))
        } else {
            (ConnectionView::Closed, ActionView::Close(Some(Failure::FileWrite)))
        },
        (ConnectionView::Handled, EventView::Sent(sent)) => if sent {
            (ConnectionView::Closed, ActionView::Close(None))
        } else {
            (
                ConnectionView::Failed,
                ActionView::SendError(wire(bare(Status::InternalServerError))),
            )
        },
        (ConnectionView::Failed, EventView::Sent(sent)) => if sent {
            (ConnectionView::Closed, ActionView::Close(None))
        } else {
            (ConnectionView::Closed, ActionView::Close(Some(Failure::ConnectionWrite)))
        },
        _ => (ConnectionView::Closed, ActionView::Close(None)),
    }
}

/// How far a connection has come.
pub open spec fn progress(c: ConnectionView) -> nat {
    match c {
        ConnectionView::Accepted { .. } => 0,
        ConnectionView::Framed { .. } => 1,
        ConnectionView::Routed { .. } => 2,
        ConnectionView::Handled => 3,
        ConnectionView::Failed => 4,
        ConnectionView::Closed => 5,
    }
}

/// A connection never goes back. A response is handed out only on entering
/// `Handled`, and the server error only on entering `Failed`, so each is
/// written at most once; a closed connection stays closed and is handed
/// nothing more to do; and only the reading of head lines can keep a
/// connection where it is.
pub proof fn lemma_handled_once(c: ConnectionView, e: EventView)
    ensures
        progress(c) <= progress(next_of(c, e).0),
        next_of(c, e).1 is Send <==> next_of(c, e).0 is Handled,
        next_of(c, e).0 is Handled ==> progress(c) < 3,
        next_of(c, e).1 is SendError <==> next_of(c, e).0 is Failed,
        next_of(c, e).0 is Failed ==> c is Handled,
        next_of(c, e).1 is Close <==> next_of(c, e).0 is Closed,
        progress(c) == progress(next_of(c, e).0) ==> (c is Accepted && next_of(c, e).1 is ReadLine)
            || c is Closed,
{
}

/// The actions that the machine hands out from the state `c` on, one for
/// each of `events`.
pub open spec fn actions_of(c: ConnectionView, events: Seq<EventView>) -> Seq<ActionView>
    decreases events.len(),
{
    if events.len() == 0 {
        Seq::empty()
    } else {
        let (next, action) = next_of(c, events.first());
        seq![action] + actions_of(next, events.drop_first())
    }
}

/// How many of `actions` write a response.
pub open spec fn responses_in(actions: Seq<ActionView>) -> nat
    decreases actions.len(),
{
    if actions.len() == 0 {
        0
    } else if actions.first() is Send {
        1 + responses_in(actions.drop_first())
    } else {
        responses_in(actions.drop_first())
    }
}

/// How many of `actions` write the server error.
pub open spec fn errors_in(actions: Seq<ActionView>) -> nat
    decreases actions.len(),
{
    if actions.len() == 0 {
        0
    } else if actions.first() is SendError {
        1 + errors_in(actions.drop_first())
    } else {
        errors_in(actions.drop_first())
    }
}

/// Whatever events come, and in whatever order, a connection is handed at
/// most one response to write and at most one server error, and the server
/// error only after the response; once the response was handed out there is
/// no second one, and once the server error was handed out there is nothing
/// more to write.
pub proof fn lemma_one_response(c: ConnectionView, events: Seq<EventView>)
    ensures
        responses_in(actions_of(c, events)) <= 1,
        errors_in(actions_of(c, events)) <= 1,
        progress(c) >= 3 ==> responses_in(actions_of(c, events)) == 0,
        progress(c) >= 4 ==> errors_in(actions_of(c, events)) == 0,
        progress(c) < 3 ==> errors_in(actions_of(c, events)) <= responses_in(
            actions_of(c, events),
        ),
    decreases events.len(),
{
    if events.len() > 0 {
        let (next, action) = next_of(c, events.first());
        let later = actions_of(next, events.drop_first());
        lemma_handled_once(c, events.first());
        lemma_one_response(next, events.drop_first());
        assert((seq![action] + later).drop_first() =~= later);
        assert((seq![action] + later).first() == action);
    }
}

/// The state and the action that follow from the outcome of a handler.
fn carry(outcome: Outcome) -> (next: (Connection, Action))
    ensures
        (next.0@, next.1@) == carry_out(outcome@),
{
    match outcome {
        Outcome::Respond(response) => (Connection::Handled, Action::Send(response.to_bytes())),
        Outcome::ReadFile { name } => (Connection::Routed { writing: false }, Action::ReadFile(name)),
        Outcome::WriteFile { name, contents } => (
            Connection::Routed { writing: true },
            Action::WriteFile(name, contents),
        ),
    }
}

/// Routes a parsed request and runs its handler.
fn serve(req: HttpRequest, root: Option<Vec<u8>>) -> (next: (Connection, Action))
    ensures
        (next.0@, next.1@) == dispatch(req@, opt_bytes(root)),
{
    match root {
        Some(directory) => carry(handle_req(req, directory.as_slice())),
        None => {
            if route_req(&req) == Route::Files {
                (Connection::Closed, Action::Close(Some(Failure::NoDirectory)))
            } else {
                let nowhere: Vec<u8> = Vec::new();
                carry(handle_req(req, nowhere.as_slice()))
            }
        },
    }
}

impl Connection {
    /// The state of a connection that was just accepted, and the first
    /// action. `root` is the directory of the files, where one is configured.
    pub fn accept(root: Option<Vec<u8>>) -> (start: (Connection, Action))
        ensures
            start.0@ == (ConnectionView::Accepted {
                parser: fresh_parser(),
                root: opt_bytes(root),
            }),
            start.1@ == ActionView::ReadLine,
    {
        (Connection::Accepted { parser: RequestParser::new(), root }, Action::ReadLine)
    }

    /// Whether the connection is closed.
    pub fn is_closed(&self) -> (closed: bool)
        ensures
            closed == (self@ is Closed),
    {
        match self {
            Connection::Closed => true,
            _ => false,
        }
    }

    /// Takes the event that came of the last action, and gives the next
    /// state and the next action.
    pub fn step(self, event: Event) -> (next: (Connection, Action))
        ensures
            (next.0@, next.1@) == next_of(self@, event@),
    {
        match (self, event) {
            (Connection::Accepted { parser, root }, Event::Line(line)) => {
                let mut parser = parser;
                match parser.read_line(line.as_slice()) {
                    Need::Line => (Connection::Accepted { parser, root }, Action::ReadLine),
                    Need::Body(n) => (Connection::Framed { parser, root }, Action::ReadBody(n)),
                    Need::Nothing => {
                        let nothing: Vec<u8> = Vec::new();
                        serve(parser.finish(nothing.as_slice()), root)
                    },
                }
            },
            (Connection::Framed { parser, root }, Event::Body(bytes)) => serve(
                parser.finish(bytes.as_slice()),
                root,
            ),
            (Connection::Routed { writing: false }, Event::FileRead(contents)) => (
                Connection::Handled,
                Action::Send(do_get_file(contents).to_bytes()),
            ),
            (Connection::Routed { writing: true }, Event::FileWritten(written)) => {
                match do_write_file(written) {
                    Some(response) => (Connection::Handled, Action::Send(response.to_bytes())),
                    None => (Connection::Closed, Action::Close(Some(Failure::FileWrite))),
                }
            },
            (Connection::Handled, Event::Sent(sent)) => {
                if sent {
                    (Connection::Closed, Action::Close(None))
                } else {
                    (Connection::Failed, Action::SendError(server_error().to_bytes()))
                }
            },
            (Connection::Failed, Event::Sent(sent)) => {
                if sent {
                    (Connection::Closed, Action::Close(None))
                } else {
                    (Connection::Closed, Action::Close(Some(Failure::ConnectionWrite)))
                }
            },
            _ => (Connection::Closed, Action::Close(None)),
        }
    }
}

} // verus!
