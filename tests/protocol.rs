use padserve::{
    handle_buffer, left_pad, padding_of, parse_body, parse_headers, parse_request, respond,
    HTTPStatus, Headers, RequestError, Response,
};

#[test]
fn headers_two_lines() {
    let h = parse_headers("Host: a\r\nX: b").unwrap();
    assert_eq!(h.len(), 2);
    assert_eq!(h.get("Host").unwrap(), "a");
    assert_eq!(h.get("X").unwrap(), "b");
    assert!(h.get("Y").is_none());
}

#[test]
fn headers_line_without_separator_fails() {
    assert_eq!(parse_headers("Host: a\r\nbroken").err(), Some(RequestError::MalformedHeader));
    assert_eq!(parse_headers("Host:a").err(), Some(RequestError::MalformedHeader));
}

#[test]
fn headers_empty_block_and_empty_lines() {
    assert!(parse_headers("").unwrap().is_empty());
    let h = parse_headers("\r\nA: 1\r\n\r\nB: 2\r\n").unwrap();
    assert_eq!(h.len(), 2);
    assert_eq!(h.get("A").unwrap(), "1");
    assert_eq!(h.get("B").unwrap(), "2");
}

#[test]
fn headers_last_duplicate_wins_and_value_keeps_separator() {
    let h = parse_headers("K: first\r\nK: second: part").unwrap();
    assert_eq!(h.len(), 1);
    assert_eq!(h.get("K").unwrap(), "second: part");
}

#[test]
fn headers_insert_replaces() {
    let mut h = Headers::new();
    h.insert("a".to_string(), "1".to_string());
    h.insert("a".to_string(), "2".to_string());
    assert_eq!(h.len(), 1);
    assert_eq!(h.get("a").unwrap(), "2");
}

#[test]
fn body_trailing_nuls_dropped() {
    assert_eq!(parse_body("abc\0\0\0"), "abc");
}

#[test]
fn body_without_nuls_unchanged() {
    assert_eq!(parse_body("abc"), "abc");
}

#[test]
fn body_interior_nuls_kept() {
    assert_eq!(parse_body("ab\0c"), "ab\0c");
    assert_eq!(parse_body("\0ab\0c\0\0"), "\0ab\0c");
    assert_eq!(parse_body("\0\0"), "");
    assert_eq!(parse_body(""), "");
}

#[test]
fn request_full_parse() {
    let r = parse_request("GET /3/x HTTP/1.1\r\nHost: a\r\n\r\nhello").unwrap();
    assert_eq!(r.method, "GET");
    assert_eq!(r.uri, "/3/x");
    assert_eq!(r.version, "HTTP/1.1");
    assert_eq!(r.headers.len(), 1);
    assert_eq!(r.headers.get("Host").unwrap(), "a");
    assert_eq!(r.body, "hello");
}

#[test]
fn request_without_headers_and_padded_body() {
    let r = parse_request("POST /1/y HTTP/1.0 extra\r\n\r\nhi\0\0\0").unwrap();
    assert_eq!(r.method, "POST");
    assert_eq!(r.uri, "/1/y");
    assert_eq!(r.version, "HTTP/1.0");
    assert!(r.headers.is_empty());
    assert_eq!(r.body, "hi");
}

#[test]
fn request_body_keeps_later_blank_lines() {
    let r = parse_request("GET / V\r\n\r\na\r\n\r\nb").unwrap();
    assert_eq!(r.body, "a\r\n\r\nb");
}

#[test]
fn request_missing_blank_line_fails() {
    assert_eq!(
        parse_request("GET /3/x HTTP/1.1\r\nHost: a\r\n").err(),
        Some(RequestError::MissingBlankLine)
    );
    assert_eq!(
        respond("GET /3/x HTTP/1.1\r\nHost: a\r\nbody").err(),
        Some(RequestError::MissingBlankLine)
    );
}

#[test]
fn request_with_two_tokens_fails() {
    assert_eq!(parse_request("GET /3/x\r\n\r\n").err(), Some(RequestError::MissingRequestToken));
    assert_eq!(parse_request("GET\r\n\r\n").err(), Some(RequestError::MissingRequestToken));
}

#[test]
fn request_with_malformed_header_fails() {
    assert_eq!(
        parse_request("GET /3/x HTTP/1.1\r\nHost a\r\n\r\nhello").err(),
        Some(RequestError::MalformedHeader)
    );
}

#[test]
fn left_pad_repeats_token() {
    assert_eq!(left_pad("hello".to_string(), 3, "x"), "xxxhello");
    assert_eq!(left_pad("b".to_string(), 2, "ab"), "ababb");
}

#[test]
fn left_pad_zero_count_keeps_body() {
    assert_eq!(left_pad("hello".to_string(), 0, "x"), "hello");
}

#[test]
fn padding_of_reads_count_and_token() {
    assert_eq!(padding_of("/3/x").unwrap(), (3, "x".to_string()));
    assert_eq!(padding_of("/+2/a/b").unwrap(), (2, "a/b".to_string()));
    assert_eq!(padding_of("/007/").unwrap(), (7, "".to_string()));
    assert_eq!(padding_of("a/1/z").unwrap(), (1, "z".to_string()));
}

#[test]
fn padding_of_root_uri_fails() {
    assert_eq!(padding_of("/").err(), Some(RequestError::InvalidCount));
    assert_eq!(respond("GET / HTTP/1.1\r\n\r\nhi").err(), Some(RequestError::InvalidCount));
}

#[test]
fn padding_of_errors() {
    assert_eq!(padding_of("abc").err(), Some(RequestError::MissingCount));
    assert_eq!(padding_of("").err(), Some(RequestError::MissingCount));
    assert_eq!(padding_of("/3").err(), Some(RequestError::MissingPad));
    assert_eq!(padding_of("/x/y").err(), Some(RequestError::InvalidCount));
    assert_eq!(padding_of("/-1/y").err(), Some(RequestError::InvalidCount));
    assert_eq!(padding_of("/+/y").err(), Some(RequestError::InvalidCount));
    assert_eq!(
        padding_of("/99999999999999999999999999/y").err(),
        Some(RequestError::InvalidCount)
    );
}

#[test]
fn padding_of_largest_count() {
    let uri = format!("/{}/p", usize::MAX);
    assert_eq!(padding_of(&uri).unwrap(), (usize::MAX, "p".to_string()));
    let over = format!("/{}0/p", usize::MAX);
    assert_eq!(padding_of(&over).err(), Some(RequestError::InvalidCount));
}

#[test]
fn status_code_and_reason() {
    assert_eq!(HTTPStatus::OK.code(), 200);
    assert_eq!(HTTPStatus::OK.reason(), "OK");
}

#[test]
fn response_default_build() {
    assert_eq!(Response::new().build(), "HTTP/1.1 200 OK\r\n\r\n");
}

#[test]
fn response_builder_chain() {
    let r = Response::new().status(HTTPStatus::OK).body("xxxhello");
    assert_eq!(r.build(), "HTTP/1.1 200 OK\r\n\r\nxxxhello");
}

#[test]
fn response_build_twice_identical() {
    let r = Response::new().status(HTTPStatus::OK).body("abc");
    let first = r.build();
    let second = r.build();
    assert_eq!(first, second);
    assert_eq!(first.as_bytes(), second.as_bytes());
}

#[test]
fn respond_pads_body() {
    assert_eq!(
        respond("GET /3/x HTTP/1.1\r\nHost: a\r\n\r\nhello").unwrap(),
        "HTTP/1.1 200 OK\r\n\r\nxxxhello"
    );
    assert_eq!(respond("GET /0/x HTTP/1.1\r\n\r\nhello").unwrap(), "HTTP/1.1 200 OK\r\n\r\nhello");
}

#[test]
fn end_to_end_buffer() {
    let mut buffer = [0u8; 512];
    let raw = b"GET /2/- HTTP/1.1\r\n\r\nhi";
    buffer[..raw.len()].copy_from_slice(raw);
    assert_eq!(handle_buffer(&buffer).unwrap().as_bytes(), b"HTTP/1.1 200 OK\r\n\r\n--hi");
}

#[test]
fn end_to_end_invalid_utf8_replaced() {
    let mut buffer = [0u8; 512];
    let raw = b"GET /1/ab HTTP/1.1\r\n\r\nx\xffy";
    buffer[..raw.len()].copy_from_slice(raw);
    assert_eq!(handle_buffer(&buffer).unwrap(), "HTTP/1.1 200 OK\r\n\r\nabx\u{FFFD}y");
}

#[test]
fn end_to_end_without_blank_line_fails() {
    let mut buffer = [0u8; 512];
    let raw = b"GET /2/- HTTP/1.1\r\n";
    buffer[..raw.len()].copy_from_slice(raw);
    assert_eq!(handle_buffer(&buffer).err(), Some(RequestError::MissingBlankLine));
}

#[test]
fn chars_of_splits_characters() {
    assert_eq!(padserve::text::chars_of("a\u{e9}b"), vec!['a', '\u{e9}', 'b']);
}

#[test]
fn request_with_empty_token_fails() {
    assert_eq!(parse_request("A  B\r\n\r\n").err(), Some(RequestError::MissingRequestToken));
    assert_eq!(parse_request("GET /x \r\n\r\n").err(), Some(RequestError::MissingRequestToken));
    assert_eq!(parse_request(" /x V\r\n\r\n").err(), Some(RequestError::MissingRequestToken));
    assert_eq!(respond("GET  HTTP/1.1\r\n\r\nhi").err(), Some(RequestError::MissingRequestToken));
}
