use bootty_app::extensions::http::{
    decode_chunked_body, find_crlf, request_text, response_body, HttpError, HttpEvent, HttpPhase,
    HttpRequest, MAX_RESPONSE_BODY_BYTES, MAX_RESPONSE_HEADER_BYTES,
};

fn response(body: &[u8]) -> Vec<u8> {
    let mut response = b"HTTP/1.1 200 OK\r\nContent-Length: ".to_vec();
    response.extend_from_slice(body.len().to_string().as_bytes());
    response.extend_from_slice(b"\r\n\r\n");
    response.extend_from_slice(body);
    response
}

#[test]
fn response_body_accepts_exact_cap() {
    let body = vec![b'x'; MAX_RESPONSE_BODY_BYTES];
    assert_eq!(
        response_body(&response(&body)).unwrap().len(),
        MAX_RESPONSE_BODY_BYTES
    );
}

#[test]
fn response_body_rejects_cap_plus_one() {
    let body = vec![b'x'; MAX_RESPONSE_BODY_BYTES + 1];
    let error = response_body(&response(&body)).unwrap_err();
    assert_eq!(error.to_text(), "HTTP response body too large");
}

#[test]
fn chunked_bodies_are_put_together() {
    let raw = b"HTTP/1.1 200 OK\r\nTransfer-Encoding: chunked\r\n\r\n4\r\nWiki\r\n5 \r\npedia\r\n0\r\n\r\n";
    assert_eq!(response_body(raw).unwrap(), "Wikipedia");
    assert_eq!(decode_chunked_body(b"3\r\nabc\r\n0\r\n\r\n").unwrap(), b"abc");
}

#[test]
fn broken_responses_are_refused() {
    assert!(matches!(response_body(b"HTTP/1.1 200 OK\r\n"), Err(HttpError::MissingHeaders)));
    assert!(matches!(
        response_body(b"HTTP/1.1 200 \xff\r\n\r\n"),
        Err(HttpError::HeadersNotText(_))
    ));
    assert!(matches!(decode_chunked_body(b"4"), Err(HttpError::MissingChunkSize)));
    assert!(matches!(decode_chunked_body(b"\xff\r\n"), Err(HttpError::ChunkSizeNotText(_))));
    assert!(matches!(decode_chunked_body(b"5;note\r\n"), Err(HttpError::ChunkSizeInvalid(_))));
    assert!(matches!(decode_chunked_body(b"zz\r\n"), Err(HttpError::ChunkSizeInvalid(_))));
    assert!(matches!(decode_chunked_body(b"5\r\nabc"), Err(HttpError::ShortChunk)));
    assert!(matches!(
        response_body(b"HTTP/1.1 200 OK\r\n\r\n\xff"),
        Err(HttpError::BodyNotText(_))
    ));
}

#[test]
fn requests_name_host_and_path() {
    let text = request_text(8080, "/state");
    assert!(text.starts_with("GET /state HTTP/1.1\r\n"));
    assert!(text.contains("127.0.0.1:8080"));
    assert!(text.ends_with("\r\n\r\n"));
    assert_eq!(find_crlf(b"ab\r\ncd"), Some(2));
    assert_eq!(find_crlf(b"abcd"), None);
}

fn connected() -> HttpRequest {
    HttpRequest::get_local_cancellable()
        .step(HttpEvent::Looked, false, false)
        .step(HttpEvent::Connected, false, false)
        .step(HttpEvent::Configured, false, false)
        .step(HttpEvent::Sent, false, false)
}

#[test]
fn requests_read_until_the_peer_closes() {
    let request = connected()
        .step(HttpEvent::Looked, false, false)
        .step(HttpEvent::Received(b"HTTP/1.1 200 OK\r\n".to_vec()), false, false)
        .step(HttpEvent::Looked, false, false)
        .step(HttpEvent::Received(b"\r\nhello".to_vec()), false, false)
        .step(HttpEvent::Looked, false, false)
        .step(HttpEvent::Closed, false, false);
    assert!(matches!(request.phase, HttpPhase::Complete));
    assert_eq!(request.finish().unwrap().unwrap(), "hello");
}

#[test]
fn stopped_requests_end() {
    let request = connected().step(HttpEvent::Looked, true, false);
    assert_eq!(request.finish().unwrap().unwrap_err().to_text(), "extension host stopped");
    let late =
        connected().step(HttpEvent::Looked, false, false).step(HttpEvent::NothingYet, false, true);
    assert!(matches!(late.phase, HttpPhase::Failed(HttpError::TimedOut)));
}

#[test]
fn endless_responses_are_cut_off() {
    let chunk = vec![b'x'; MAX_RESPONSE_BODY_BYTES + MAX_RESPONSE_HEADER_BYTES];
    let request = connected()
        .step(HttpEvent::Looked, false, false)
        .step(HttpEvent::Received(chunk), false, false)
        .step(HttpEvent::Looked, false, false)
        .step(HttpEvent::Received(vec![b'y'; 4096]), false, false);
    assert!(matches!(request.phase, HttpPhase::Failed(HttpError::TooLarge)));
}

#[test]
fn messages_of_broken_responses_are_those_of_the_cause() {
    let message = |body: &[u8]| decode_chunked_body(body).unwrap_err().to_text();
    assert_eq!(message(b"\xff\r\n"), "invalid utf-8 sequence of 1 bytes from index 0");
    assert_eq!(message(b"zz\r\n"), "invalid digit found in string");
    assert_eq!(message(b" \r\n"), "cannot parse integer from empty string");
    assert_eq!(
        message(b"fffffffffffffffff\r\n"),
        "number too large to fit in target type"
    );
    let body = response_body(b"HTTP/1.1 200 OK\r\n\r\nab\xc3").unwrap_err().to_text();
    assert_eq!(body, "incomplete utf-8 byte sequence from index 2");
}

#[test]
fn chunks_with_line_ends_in_them_are_put_together() {
    let mut body = Vec::new();
    for chunk in [&b"a\r\n0\r\n"[..], b"+", b"0123456789abcdef!"] {
        body.extend_from_slice(format!("{:x}\r\n", chunk.len()).as_bytes());
        body.extend_from_slice(chunk);
        body.extend_from_slice(b"\r\n");
    }
    assert!(decode_chunked_body(&body).is_err());
    body.extend_from_slice(b"0\r\ntrailer");
    assert_eq!(decode_chunked_body(&body).unwrap(), b"a\r\n0\r\n+0123456789abcdef!");
}
