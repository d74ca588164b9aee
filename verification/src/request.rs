//! The pool's only client: a single-route request handler. A request is
//! classified by the bytes it starts with, and the response is framed around
//! the page that the route names. Reading the request, the pause, loading the
//! page and writing the response are the caller's.

use vstd::prelude::*;
use vstd::string::{is_ascii, is_ascii_spec_bytes, StringSliceAdditionalSpecFns};

verus! {

/// The size of the buffer that a request is read into.
pub const REQUEST_BUFFER_LEN: usize = 1024;

/// For how many seconds the handler pauses before it answers `Route::Sleep`.
pub const SLEEP_SECONDS: u64 = 5;

/// The ASCII code of the digit `0`; the other digits follow it in order.
pub const ASCII_ZERO: u8 = 48;

/// What a request asks for.
#[derive(Clone, Copy, Debug, PartialEq, Eq, Structural)]
pub enum Route {
    /// `GET /`: the index page.
    Home,
    /// `GET /sleep`: the index page, after a pause.
    Sleep,
    /// Anything else.
    NotFound,
}

/// The request line of `Route::Home`.
pub open spec fn home_request_line() -> Seq<u8> {
    "GET / HTTP/1.1\r\n".spec_bytes()
}

/// The request line of `Route::Sleep`.
pub open spec fn sleep_request_line() -> Seq<u8> {
    "GET /sleep HTTP/1.1\r\n".spec_bytes()
}

/// The route of a request: decided by the request line that it starts with.
pub open spec fn route_of(request: Seq<u8>) -> Route {
    if home_request_line().is_prefix_of(request) {
        Route::Home
    } else if sleep_request_line().is_prefix_of(request) {
        Route::Sleep
    } else {
        Route::NotFound
    }
}

/// No request starts with both request lines: the order in which the two
/// are tried makes no difference.
pub proof fn law_request_lines_exclude_each_other(request: Seq<u8>)
    ensures
        !(home_request_line().is_prefix_of(request) && sleep_request_line().is_prefix_of(request)),
{
    reveal_strlit("GET / HTTP/1.1\r\n");
    reveal_strlit("GET /sleep HTTP/1.1\r\n");
    assert(is_ascii("GET / HTTP/1.1\r\n"));
    assert(is_ascii("GET /sleep HTTP/1.1\r\n"));
    is_ascii_spec_bytes("GET / HTTP/1.1\r\n");
    is_ascii_spec_bytes("GET /sleep HTTP/1.1\r\n");
    if home_request_line().is_prefix_of(request) && sleep_request_line().is_prefix_of(request) {
        assert(request.subrange(0, home_request_line().len() as int)[5] == home_request_line()[5]);
        assert(request.subrange(0, sleep_request_line().len() as int)[5] == sleep_request_line()[5]);
    }
}

/// The status line that answers `route`.
pub open spec fn status_line_of(route: Route) -> &'static str {
    match route {
        Route::Home | Route::Sleep => "HTTP/1.1 200 OK",
        Route::NotFound => "HTTP/1.1 404 NOT FOUND",
    }
}

/// The path of the page that answers `route`.
pub open spec fn page_of(route: Route) -> &'static str {
    match route {
        Route::Home | Route::Sleep => "static/index.html",
        Route::NotFound => "static/404.html",
    }
}

/// The decimal digits of `n`, most significant first, in ASCII.
pub open spec fn decimal(n: nat) -> Seq<u8>
    decreases n,
{
    if n < 10 {
        seq![(ASCII_ZERO + n) as u8]
    } else {
        decimal(n / 10).push((ASCII_ZERO + n % 10) as u8)
    }
}

/// The number that a sequence of ASCII digits denotes.
pub open spec fn value_of(digits: Seq<u8>) -> int
    decreases digits.len(),
{
    if digits.len() == 0 {
        0
    } else {
        10 * value_of(digits.drop_last()) + (digits.last() - ASCII_ZERO)
    }
}

/// `decimal(n)` is the numeral of `n`: at least one character, digits only,
/// no leading zero but for zero itself, and read as a number it gives `n`.
pub proof fn law_decimal_is_the_numeral(n: nat)
    ensures
        decimal(n).len() >= 1,
        forall|i: int|
            0 <= i < decimal(n).len() ==> ASCII_ZERO <= #[trigger] decimal(n)[i] <= ASCII_ZERO + 9,
        n > 0 ==> decimal(n)[0] != ASCII_ZERO,
        value_of(decimal(n)) == n,
    decreases n,
{
    if n < 10 {
        assert(decimal(n).drop_last() =~= Seq::<u8>::empty());
        assert(value_of(decimal(n).drop_last()) == 0);
    } else {
        law_decimal_is_the_numeral(n / 10);
        assert(decimal(n).drop_last() =~= decimal(n / 10));
    }
}

/// The response to a request for `route`, with `contents` as its body: the
/// status line, the length of the body, an empty line, the body.
pub open spec fn response_of(route: Route, contents: Seq<u8>) -> Seq<u8> {
    status_line_of(route).spec_bytes() + "\r\n Content-Length: ".spec_bytes() + decimal(
        contents.len(),
    ) + "\r\n\r\n".spec_bytes() + contents
}

/// Whether `bytes` begins with `prefix`.
pub fn starts_with(bytes: &[u8], prefix: &[u8]) -> (found: bool)
    ensures
        found == prefix@.is_prefix_of(bytes@),
{
    if prefix.len() > bytes.len() {
        return false;
    }
    let mut i: usize = 0;
    while i < prefix.len()
        invariant
            i <= prefix.len() <= bytes.len(),
            forall|k: int| 0 <= k < i ==> prefix@[k] == bytes@[k],
        decreases prefix.len() - i,
    {
        if prefix[i] != bytes[i] {
            assert(bytes@.subrange(0, prefix@.len() as int)[i as int] != prefix@[i as int]);
            return false;
        }
        i += 1;
    }
    assert(prefix@ =~= bytes@.subrange(0, prefix@.len() as int));
    true
}

/// Classifies a request by its first bytes.
pub fn classify(request: &[u8]) -> (route: Route)
    ensures
        route == route_of(request@),
{
    if starts_with(request, "GET / HTTP/1.1\r\n".as_bytes()) {
        Route::Home
    } else if starts_with(request, "GET /sleep HTTP/1.1\r\n".as_bytes()) {
        Route::Sleep
    } else {
        Route::NotFound
    }
}

impl Route {
    /// The status line of the response.
    pub fn status_line(self) -> (line: &'static str)
        ensures
            line == status_line_of(self),
    {
        match self {
            Route::Home | Route::Sleep => "HTTP/1.1 200 OK",
            Route::NotFound => "HTTP/1.1 404 NOT FOUND",
        }
    }

    /// The path of the page to send.
    pub fn page(self) -> (path: &'static str)
        ensures
            path == page_of(self),
    {
        match self {
            Route::Home | Route::Sleep => "static/index.html",
            Route::NotFound => "static/404.html",
        }
    }

    /// The pause before the response, in seconds.
    pub fn delay_seconds(self) -> (seconds: u64)
        ensures
            seconds == if self == Route::Sleep { SLEEP_SECONDS } else { 0 },
    {
        match self {
            Route::Sleep => SLEEP_SECONDS,
            _ => 0,
        }
    }
}

/// Appends `bytes` to `out`.
fn append(out: &mut Vec<u8>, bytes: &[u8])
    ensures
        final(out)@ == old(out)@ + bytes@,
{
    let mut i: usize = 0;
    while i < bytes.len()
        invariant
            i <= bytes.len(),
            out@ == old(out)@ + bytes@.take(i as int),
        decreases bytes.len() - i,
    {
        out.push(bytes[i]);
        assert(bytes@.take(i + 1) =~= bytes@.take(i as int).push(bytes@[i as int]));
        i += 1;
    }
    assert(bytes@.take(i as int) =~= bytes@);
}

/// Appends the decimal digits of `n` to `out`.
pub fn append_decimal(out: &mut Vec<u8>, n: usize)
    ensures
        final(out)@ == old(out)@ + decimal(n as nat),
    decreases n,
{
    if n >= 10 {
        append_decimal(out, n / 10);
    }
    let digit: u8 = ASCII_ZERO + (n % 10) as u8;
    out.push(digit);
    assert(out@ =~= old(out)@ + decimal(n as nat));
}

/// Frames the response to a request for `route` around the page's contents.
pub fn respond(route: Route, contents: &[u8]) -> (response: Vec<u8>)
    ensures
        response@ == response_of(route, contents@),
{
    let mut response: Vec<u8> = Vec::new();
    append(&mut response, route.status_line().as_bytes());
    append(&mut response, "\r\n Content-Length: ".as_bytes());
    append_decimal(&mut response, contents.len());
    append(&mut response, "\r\n\r\n".as_bytes());
    append(&mut response, contents);
    assert(response@ =~= response_of(route, contents@));
    response
}

} // verus!
