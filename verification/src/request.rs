//! What the server answers to a request: the rule that picks the page, and
//! the head and body of the answer.

use vstd::prelude::*;
use vstd::string::StringExecFns;
use vstd::string::StringSliceAdditionalSpecFns;

verus! {

/// What the server answers to a request.
#[derive(Clone, Copy, PartialEq, Eq, Structural, Debug)]
pub enum Route {
    /// The entry page, at once.
    Page,
    /// The entry page, after a pause that stands for slow work.
    SlowPage,
    /// The page for anything the server does not know.
    NotFound,
}

/// The route for a request that begins with these bytes: the entry page for
/// the root and for the site icon, the slow page for `/sleep`, and the
/// not-found page for everything else.
pub open spec fn route_of(request: Seq<u8>) -> Route {
    if "GET / HTTP/1.1".spec_bytes().is_prefix_of(request)
        || "GET /favicon.ico HTTP/1.1".spec_bytes().is_prefix_of(request) {
        Route::Page
    } else if "GET /sleep HTTP/1.1".spec_bytes().is_prefix_of(request) {
        Route::SlowPage
    } else {
        Route::NotFound
    }
}

/// Whether `bytes` begins with `prefix`.
pub fn starts_with(bytes: &[u8], prefix: &[u8]) -> (found: bool)
    ensures
        found == prefix@.is_prefix_of(bytes@),
{
    if prefix.len() > bytes.len() {
        return false;
    }
    let mut i: usize = 0;
    while i < prefix.len()
        invariant
            i <= prefix.len() <= bytes.len(),
            forall|k: int| 0 <= k < i ==> bytes[k] == prefix[k],
        decreases prefix.len() - i,
    {
        if bytes[i] != prefix[i] {
            assert(bytes@.subrange(0, prefix@.len() as int)[i as int] != prefix@[i as int]);
            return false;
        }
        i += 1;
    }
    assert(prefix@ =~= bytes@.subrange(0, prefix@.len() as int));
    true
}

/// The route for the request in `request`, the bytes read from a connection.
pub fn route(request: &[u8]) -> (route: Route)
    ensures
        route == route_of(request@),
{
    if starts_with(request, "GET / HTTP/1.1".as_bytes()) || starts_with(
        request,
        "GET /favicon.ico HTTP/1.1".as_bytes(),
    ) {
        Route::Page
    } else if starts_with(request, "GET /sleep HTTP/1.1".as_bytes()) {
        Route::SlowPage
    } else {
        Route::NotFound
    }
}

impl Route {
    /// The status line of the answer, with the empty line that ends the head.
    pub open spec fn spec_status_line(&self) -> Seq<char> {
        match self {
            Route::NotFound => "HTTP/1.1 404 NOT FOUND\r\n\r\n"@,
            _ => "HTTP/1.1 200 OK\r\n\r\n"@,
        }
    }

    /// The status line of the answer, with the empty line that ends the head.
    pub fn status_line(&self) -> (line: &'static str)
        ensures
            line@ == self.spec_status_line(),
    {
        match self {
            Route::NotFound => "HTTP/1.1 404 NOT FOUND\r\n\r\n",
            _ => "HTTP/1.1 200 OK\r\n\r\n",
        }
    }

    /// The file that holds the body of the answer.
    pub fn file(&self) -> (path: &'static str)
        ensures
            path@ == match self {
                Route::NotFound => "src/temp/404.html"@,
                _ => "src/temp/entry.html"@,
            },
    {
        match self {
            Route::NotFound => "src/temp/404.html",
            _ => "src/temp/entry.html",
        }
    }

    /// For how many seconds the answer is held back.
    pub fn delay_seconds(&self) -> (seconds: u64)
        ensures
            seconds == match self {
                Route::SlowPage => 5u64,
                _ => 0u64,
            },
    {
        match self {
            Route::SlowPage => 5,
            _ => 0,
        }
    }

    /// The whole answer: the status line, then `body`.
    pub fn response(&self, body: &str) -> (answer: String)
        ensures
            answer@ == self.spec_status_line() + body@,
    {
        String::from_str(self.status_line()).concat(body)
    }
}

} // verus!
