use camera_stream::http::{response_head, route_request, ReadOutcome, RequestReader, Route, REQUEST_BUFFER_SIZE};
use camera_stream::text::contains_bytes;

#[test]
fn search_finds_needles() {
    assert!(contains_bytes(b"abcdef", b"cde"));
    assert!(contains_bytes(b"abcdef", b""));
    assert!(contains_bytes(b"abc", b"abc"));
    assert!(!contains_bytes(b"abc", b"abcd"));
    assert!(!contains_bytes(b"abcabd", b"abe"));
    assert!(contains_bytes(b"aaab", b"aab"));
}

#[test]
fn routes_follow_the_request_line() {
    assert_eq!(route_request(b"GET / HTTP/1.1\r\nHost: x\r\n"), None);
    assert_eq!(route_request(b"GET / HTTP/1.1\r\nHost: x\r\n\r\n"), Some(Route::Dashboard));
    assert_eq!(route_request(b"GET /stream HTTP/1.1\r\n\r\n"), Some(Route::Stream));
    assert_eq!(route_request(b"GET /favicon.ico HTTP/1.1\r\n\r\n"), Some(Route::NotFound));
    assert_eq!(route_request(b"POST / HTTP/1.0\r\n\r\n"), Some(Route::Reject));
    assert_eq!(route_request(b"GET / HTTP/1.0\r\n\r\n"), Some(Route::Reject));
}

#[test]
fn favicon_marker_wins_over_others() {
    let req = b"GET /stream HTTP/1.1\r\nReferer: GET /favicon.ico\r\n\r\n";
    assert_eq!(route_request(req), Some(Route::NotFound));
}

#[test]
fn reader_collects_until_the_header_ends() {
    let mut r = RequestReader::new();
    assert_eq!(r.spare_capacity(), REQUEST_BUFFER_SIZE);
    assert_eq!(r.received_bytes(b"GET /stream HT"), ReadOutcome::Incomplete);
    assert_eq!(r.spare_capacity(), REQUEST_BUFFER_SIZE - 14);
    assert_eq!(r.received_bytes(b"TP/1.1\r\n\r"), ReadOutcome::Incomplete);
    assert_eq!(r.received_bytes(b"\n"), ReadOutcome::Complete(Route::Stream));
}

#[test]
fn empty_read_closes() {
    let mut r = RequestReader::new();
    assert_eq!(r.received_bytes(b""), ReadOutcome::Closed);
    let mut r = RequestReader::new();
    let filler = [b'a'; REQUEST_BUFFER_SIZE];
    assert_eq!(r.received_bytes(&filler), ReadOutcome::Incomplete);
    assert_eq!(r.spare_capacity(), 0);
    assert_eq!(r.received_bytes(&[]), ReadOutcome::Closed);
}

#[test]
fn response_heads() {
    assert_eq!(
        response_head(Route::NotFound),
        b"HTTP/1.1 404 Not Found\r\nConnection: close\r\nContent-Length: 0\r\n\r\n"
    );
    assert_eq!(
        response_head(Route::Dashboard),
        b"HTTP/1.1 200 OK\r\nConnection: close\r\nContent-Type: text/html\r\n\r\n"
    );
    assert_eq!(
        response_head(Route::Stream),
        b"HTTP/1.1 200 OK\r\nContent-Type: multipart/x-mixed-replace; boundary=frame\r\n\r\n"
    );
    assert!(response_head(Route::Reject).is_empty());
}
