use servidor_rust::request::{build_response, classify_request, Route};

fn padded(line: &[u8]) -> Vec<u8> {
    // a request buffer as the handler sees it: the request line followed
    // by zeroed space, as a fixed-size read buffer would hold it
    let mut v = line.to_vec();
    v.resize(1024, 0);
    v
}

#[test]
fn root_request_line_routes_to_root() {
    let buffer = padded(b"GET / HTTP/1.1\r\nHost: localhost\r\n\r\n");
    assert_eq!(classify_request(&buffer), Route::Root);
}

#[test]
fn sleep_request_line_routes_to_sleep() {
    let buffer = padded(b"GET /sleep HTTP/1.1\r\nHost: localhost\r\n\r\n");
    assert_eq!(classify_request(&buffer), Route::Sleep);
}

#[test]
fn unknown_request_line_routes_to_not_found() {
    let buffer = padded(b"GET /missing HTTP/1.1\r\n");
    assert_eq!(classify_request(&buffer), Route::NotFound);
    let post = padded(b"POST / HTTP/1.1\r\n");
    assert_eq!(classify_request(&post), Route::NotFound);
}

#[test]
fn empty_buffer_routes_to_not_found() {
    let buffer: Vec<u8> = Vec::new();
    assert_eq!(classify_request(&buffer), Route::NotFound);
}

#[test]
fn exact_request_line_is_enough() {
    let buffer = b"GET / HTTP/1.1\r\n".to_vec();
    assert_eq!(classify_request(&buffer), Route::Root);
    // one byte short of the line is not a match
    let short = b"GET / HTTP/1.1\r".to_vec();
    assert_eq!(classify_request(&short), Route::NotFound);
}

#[test]
fn routes_name_their_resources() {
    assert_eq!(Route::Root.status_line(), "HTTP/1.1 200 OK");
    assert_eq!(Route::Root.file_name(), "hello.html");
    assert_eq!(Route::Root.delay_seconds(), 0);
    assert_eq!(Route::Sleep.status_line(), "HTTP/1.1 200 OK");
    assert_eq!(Route::Sleep.file_name(), "sleep.html");
    assert_eq!(Route::Sleep.delay_seconds(), 2);
    assert_eq!(Route::NotFound.status_line(), "HTTP/1.1 404 NOT FOUND");
    assert_eq!(Route::NotFound.file_name(), "404.html");
    assert_eq!(Route::NotFound.delay_seconds(), 0);
}

#[test]
fn response_is_status_blank_line_body() {
    let r = build_response("HTTP/1.1 200 OK", "<html>hi</html>");
    assert_eq!(r, "HTTP/1.1 200 OK\r\n\r\n<html>hi</html>");
    let empty = build_response("HTTP/1.1 404 NOT FOUND", "");
    assert_eq!(empty, "HTTP/1.1 404 NOT FOUND\r\n\r\n");
}
