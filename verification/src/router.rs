//! The router: which handler answers a request.

use crate::request::HttpRequest;
use crate::text::{ascii_bytes, bytes_eq, contains_from, literal, occurs_from, starts_with, SLASH};
use vstd::prelude::*;

verus! {

/// The handler that answers a request.
#[derive(Clone, Copy, Debug, PartialEq, Eq, Structural)]
pub enum Route {
    /// The greeting at the root path.
    Greeting,
    /// The echo of what follows `/echo/`.
    Echo,
    /// Access to the file named after `/files/`: a read or a write, by the
    /// method of the request.
    Files,
    /// The value of the header named by the path.
    HeaderLookup,
    /// No handler.
    NotFound,
}

/// The handler for `path`. The rules are tried in this order and the first
/// that applies decides: the root path; a path under `/echo/`; a path under
/// `/files/`; a path of one segment, that is a slash followed by no further
/// slash; none.
pub open spec fn route_of(path: Seq<u8>) -> Route {
    if path == ascii_bytes("/"@) {
        Route::Greeting
    } else if ascii_bytes("/echo/"@).is_prefix_of(path) {
        Route::Echo
    } else if ascii_bytes("/files/"@).is_prefix_of(path) {
        Route::Files
    } else if ascii_bytes("/"@).is_prefix_of(path) && !occurs_from(path, 1, SLASH) {
        Route::HeaderLookup
    } else {
        Route::NotFound
    }
}

/// Selects the handler for `req` by its path.
pub fn route_req(req: &HttpRequest) -> (route: Route)
    ensures
        route == route_of(req@.path),
{
    proof {
        reveal_strlit("/");
        reveal_strlit("/echo/");
        reveal_strlit("/files/");
    }
    let path: &[u8] = req.path.as_slice();
    if bytes_eq(path, literal("/")) {
        Route::Greeting
    } else if starts_with(path, literal("/echo/")) {
        Route::Echo
    } else if starts_with(path, literal("/files/")) {
        Route::Files
    } else if starts_with(path, literal("/")) && !contains_from(path, 1, SLASH) {
        Route::HeaderLookup
    } else {
        Route::NotFound
    }
}

/// A path under `/files/` goes to the file handler whatever follows the
/// prefix, and a path under `/echo/` to the echo handler: no later rule is
/// tried once an earlier one applies.
pub proof fn lemma_route_priority(path: Seq<u8>)
    ensures
        ascii_bytes("/files/"@).is_prefix_of(path) ==> route_of(path) == Route::Files,
        ascii_bytes("/echo/"@).is_prefix_of(path) ==> route_of(path) == Route::Echo,
        route_of(path) == Route::HeaderLookup ==> path.len() > 1 && path[0] == SLASH,
{
    reveal_strlit("/");
    reveal_strlit("/echo/");
    reveal_strlit("/files/");
    let root = ascii_bytes("/"@);
    let echo = ascii_bytes("/echo/"@);
    let files = ascii_bytes("/files/"@);
    if files.is_prefix_of(path) {
        assert(path.subrange(0, 7)[1] == files[1]);
        if echo.is_prefix_of(path) {
            assert(path.subrange(0, 6)[1] == echo[1]);
        }
    }
    if route_of(path) == Route::HeaderLookup {
        assert(path.subrange(0, 1)[0] == root[0]);
        if path.len() == 1 {
            assert(path =~= root);
        }
    }
}

} // verus!
