//! HTTP request routing of the TCP streaming firmware: the request is read
//! into a fixed buffer until the end of its header, then answered with the
//! dashboard, the MJPEG stream, a 404 for the favicon, or nothing.
use crate::text::{ascii, contains, contains_bytes, occurs_at};
use vstd::prelude::*;

verus! {

/// Capacity of the request buffer, in bytes.
pub const REQUEST_BUFFER_SIZE: usize = 1024;

pub open spec fn spec_header_end() -> Seq<u8> {
    ascii("\r\n\r\n"@)
}

pub open spec fn spec_favicon_request() -> Seq<u8> {
    ascii("GET /favicon.ico"@)
}

pub open spec fn spec_dashboard_request() -> Seq<u8> {
    ascii("GET / HTTP/1.1"@)
}

pub open spec fn spec_stream_request() -> Seq<u8> {
    ascii("GET /stream HTTP/1.1"@)
}

pub open spec fn spec_not_found_response() -> Seq<u8> {
    ascii("HTTP/1.1 404 Not Found\r\nConnection: close\r\nContent-Length: 0\r\n\r\n"@)
}

pub open spec fn spec_dashboard_response_head() -> Seq<u8> {
    ascii("HTTP/1.1 200 OK\r\nConnection: close\r\nContent-Type: text/html\r\n\r\n"@)
}

pub open spec fn spec_stream_response_head() -> Seq<u8> {
    ascii("HTTP/1.1 200 OK\r\nContent-Type: multipart/x-mixed-replace; boundary=frame\r\n\r\n"@)
}

/// End of a request header: an empty line.
pub fn header_end() -> (r: &'static [u8])
    ensures
        r@ == spec_header_end(),
{
    let s: &'static str = "\r\n\r\n";
    proof {
        reveal_strlit("\r\n\r\n");
        vstd::string::is_ascii_spec_bytes(s);
    }
    s.as_bytes()
}

/// Marker of a browser's favicon request.
pub fn favicon_request() -> (r: &'static [u8])
    ensures
        r@ == spec_favicon_request(),
{
    let s: &'static str = "GET /favicon.ico";
    proof {
        reveal_strlit("GET /favicon.ico");
        vstd::string::is_ascii_spec_bytes(s);
    }
    s.as_bytes()
}

/// Marker of a request for the dashboard page.
pub fn dashboard_request() -> (r: &'static [u8])
    ensures
        r@ == spec_dashboard_request(),
{
    let s: &'static str = "GET / HTTP/1.1";
    proof {
        reveal_strlit("GET / HTTP/1.1");
        vstd::string::is_ascii_spec_bytes(s);
    }
    s.as_bytes()
}

/// Marker of a request for the video stream.
pub fn stream_request() -> (r: &'static [u8])
    ensures
        r@ == spec_stream_request(),
{
    let s: &'static str = "GET /stream HTTP/1.1";
    proof {
        reveal_strlit("GET /stream HTTP/1.1");
        vstd::string::is_ascii_spec_bytes(s);
    }
    s.as_bytes()
}

/// How a complete request is answered.
#[derive(Debug, Clone, Copy, PartialEq, Eq, Structural)]
pub enum Route {
    /// Favicon request: answer 404 and abort the connection.
    NotFound,
    /// Dashboard request: send the HTML page and close.
    Dashboard,
    /// Stream request: start streaming MJPEG on this connection.
    Stream,
    /// Anything else: close without an answer.
    Reject,
}

/// How the request received so far is answered; `None` while its header
/// is not complete. The markers are checked in this order: favicon,
/// dashboard, stream.
pub open spec fn spec_route(request: Seq<u8>) -> Option<Route> {
    if !contains(request, spec_header_end()) {
        None
    } else if contains(request, spec_favicon_request()) {
        Some(Route::NotFound)
    } else if contains(request, spec_dashboard_request()) {
        Some(Route::Dashboard)
    } else if contains(request, spec_stream_request()) {
        Some(Route::Stream)
    } else {
        Some(Route::Reject)
    }
}

proof fn lemma_contains_at_some_offset(r: Seq<u8>, p: Seq<u8>)
    ensures
        contains(r, p) <==> exists|i: int|
            0 <= i && i + p.len() <= r.len() && #[trigger] r.subrange(i, i + p.len()) == p,
{
    if contains(r, p) {
        let i = choose|i: int| occurs_at(r, p, i);
        assert(r.subrange(i, i + p.len()) == p);
    }
    if exists|i: int| 0 <= i && i + p.len() <= r.len() && #[trigger] r.subrange(i, i + p.len()) == p {
        let i = choose|i: int| 0 <= i && i + p.len() <= r.len() && #[trigger] r.subrange(i, i + p.len()) == p;
        assert(occurs_at(r, p, i));
    }
}

/// The route follows where the markers occur anywhere in the whole
/// request received so far: a request is routed exactly when the empty line
/// `\r\n\r\n` ending its header occurs in it, at any offset; then the
/// favicon marker wins, else the dashboard request line, else the stream
/// request line, else the request is rejected.
pub proof fn law_route_follows_markers(r: Seq<u8>)
    ensures
        ({
            let end = ascii("\r\n\r\n"@);
            let fav = ascii("GET /favicon.ico"@);
            let dash = ascii("GET / HTTP/1.1"@);
            let stream = ascii("GET /stream HTTP/1.1"@);
            let has_end = exists|i: int|
                0 <= i && i + end.len() <= r.len() && #[trigger] r.subrange(i, i + end.len()) == end;
            let has_fav = exists|i: int|
                0 <= i && i + fav.len() <= r.len() && #[trigger] r.subrange(i, i + fav.len()) == fav;
            let has_dash = exists|i: int|
                0 <= i && i + dash.len() <= r.len() && #[trigger] r.subrange(i, i + dash.len())
                    == dash;
            let has_stream = exists|i: int|
                0 <= i && i + stream.len() <= r.len() && #[trigger] r.subrange(i, i + stream.len())
                    == stream;
            &&& (spec_route(r) is Some <==> has_end)
            &&& has_end && has_fav ==> spec_route(r) == Some(Route::NotFound)
            &&& has_end && !has_fav && has_dash ==> spec_route(r) == Some(Route::Dashboard)
            &&& has_end && !has_fav && !has_dash && has_stream ==> spec_route(r) == Some(
                Route::Stream,
            )
            &&& has_end && !has_fav && !has_dash && !has_stream ==> spec_route(r) == Some(
                Route::Reject,
            )
        }),
{
    lemma_contains_at_some_offset(r, spec_header_end());
    lemma_contains_at_some_offset(r, spec_favicon_request());
    lemma_contains_at_some_offset(r, spec_dashboard_request());
    lemma_contains_at_some_offset(r, spec_stream_request());
}

/// Routes the bytes of a request received so far.
pub fn route_request(request: &[u8]) -> (r: Option<Route>)
    ensures
        r == spec_route(request@),
{
    if !contains_bytes(request, header_end()) {
        None
    } else if contains_bytes(request, favicon_request()) {
        Some(Route::NotFound)
    } else if contains_bytes(request, dashboard_request()) {
        Some(Route::Dashboard)
    } else if contains_bytes(request, stream_request()) {
        Some(Route::Stream)
    } else {
        Some(Route::Reject)
    }
}

/// Bytes sent first in answer to a route (nothing for `Reject`); the
/// dashboard's HTML page follows its head.
pub open spec fn spec_response_head(route: Route) -> Seq<u8> {
    match route {
        Route::NotFound => spec_not_found_response(),
        Route::Dashboard => spec_dashboard_response_head(),
        Route::Stream => spec_stream_response_head(),
        Route::Reject => Seq::empty(),
    }
}

/// The bytes sent first in answer to `route`.
pub fn response_head(route: Route) -> (r: &'static [u8])
    ensures
        r@ == spec_response_head(route),
{
    match route {
        Route::NotFound => {
            let s: &'static str = "HTTP/1.1 404 Not Found\r\nConnection: close\r\nContent-Length: 0\r\n\r\n";
            proof {
                reveal_strlit("HTTP/1.1 404 Not Found\r\nConnection: close\r\nContent-Length: 0\r\n\r\n");
                vstd::string::is_ascii_spec_bytes(s);
            }
            s.as_bytes()
        },
        Route::Dashboard => {
            let s: &'static str = "HTTP/1.1 200 OK\r\nConnection: close\r\nContent-Type: text/html\r\n\r\n";
            proof {
                reveal_strlit("HTTP/1.1 200 OK\r\nConnection: close\r\nContent-Type: text/html\r\n\r\n");
                vstd::string::is_ascii_spec_bytes(s);
            }
            s.as_bytes()
        },
        Route::Stream => {
            let s: &'static str = "HTTP/1.1 200 OK\r\nContent-Type: multipart/x-mixed-replace; boundary=frame\r\n\r\n";
            proof {
                reveal_strlit("HTTP/1.1 200 OK\r\nContent-Type: multipart/x-mixed-replace; boundary=frame\r\n\r\n");
                vstd::string::is_ascii_spec_bytes(s);
            }
            s.as_bytes()
        },
        Route::Reject => {
            let s: &'static str = "";
            proof {
                reveal_strlit("");
                vstd::string::is_ascii_spec_bytes(s);
            }
            let r = s.as_bytes();
            assert(r@ =~= Seq::<u8>::empty());
            r
        },
    }
}

/// Outcome of one read from the connection.
#[derive(Debug, PartialEq, Eq, Structural)]
pub enum ReadOutcome {
    /// The read returned no bytes: the peer closed, or the request buffer
    /// is full. The connection is closed.
    Closed,
    /// The request header is not complete yet: read again.
    Incomplete,
    /// The request header is complete and is answered by this route.
    Complete(Route),
}

/// The bytes of one request, collected read by read.
pub struct RequestReader {
    buf: Vec<u8>,
}

impl RequestReader {
    /// Bytes received so far.
    pub closed spec fn received(&self) -> Seq<u8> {
        self.buf@
    }

    /// What was received fits in the request buffer.
    pub open spec fn wf(&self) -> bool {
        self.received().len() <= REQUEST_BUFFER_SIZE
    }

    /// A reader for a new connection, with nothing received.
    pub fn new() -> (r: Self)
        ensures
            r.wf(),
            r.received() == Seq::<u8>::empty(),
    {
        RequestReader { buf: Vec::new() }
    }

    /// How many more bytes the next read may deliver.
    pub fn spare_capacity(&self) -> (n: usize)
        requires
            self.wf(),
        ensures
            n == REQUEST_BUFFER_SIZE - self.received().len(),
    {
        REQUEST_BUFFER_SIZE - self.buf.len()
    }

    /// Takes the bytes of one read and decides what to do next.
    pub fn received_bytes(&mut self, data: &[u8]) -> (outcome: ReadOutcome)
        requires
            old(self).wf(),
            data@.len() <= REQUEST_BUFFER_SIZE - old(self).received().len(),
        ensures
            final(self).wf(),
            data@.len() == 0 ==> outcome == ReadOutcome::Closed && final(self).received()
                == old(self).received(),
            data@.len() > 0 ==> final(self).received() == old(self).received() + data@
                && outcome == match spec_route(final(self).received()) {
                None => ReadOutcome::Incomplete,
                Some(route) => ReadOutcome::Complete(route),
            },
    {
        if data.len() == 0 {
            return ReadOutcome::Closed;
        }
        let mut j: usize = 0;
        while j < data.len()
            invariant
                j <= data@.len(),
                self.buf@ == old(self).buf@ + data@.take(j as int),
            decreases data@.len() - j,
        {
            self.buf.push(data[j]);
            j = j + 1;
            assert(self.buf@ =~= old(self).buf@ + data@.take(j as int));
        }
        assert(data@.take(data@.len() as int) =~= data@);
        match route_request(self.buf.as_slice()) {
            None => ReadOutcome::Incomplete,
            Some(route) => ReadOutcome::Complete(route),
        }
    }
}

} // verus!
