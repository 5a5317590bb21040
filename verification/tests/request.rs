use blaze::request::{HttpMethod, OwnedRequest, ParseError};

fn bytes(s: &str) -> Vec<u8> {
    s.as_bytes().to_vec()
}

fn build_err(s: &str, n: usize) -> ParseError {
    match OwnedRequest::build(bytes(s), n) {
        Err(e) => e,
        Ok(_) => panic!("expected the build to fail"),
    }
}

#[test]
fn build_one_header() {
    let req = OwnedRequest::build(bytes("GET /x HTTP/1.1\r\nHost: a\r\n\r\n"), 1).unwrap();
    assert_eq!(req.method(), HttpMethod::GET);
    assert_eq!(req.path(), b"/x".to_vec());
    assert_eq!(req.version(), b"HTTP/1.1".to_vec());
    assert_eq!(req.header_count(), 1);
    assert_eq!(req.header_name(0), b"Host".to_vec());
    assert_eq!(req.header_value(0), b"a".to_vec());
}

#[test]
fn build_zero_headers() {
    let req = OwnedRequest::build(bytes("GET / HTTP/1.1\r\n\r\n"), 0).unwrap();
    assert_eq!(req.method(), HttpMethod::GET);
    assert_eq!(req.path(), b"/".to_vec());
    assert_eq!(req.header_count(), 0);
}

#[test]
fn build_many_headers() {
    let req = OwnedRequest::build(
        bytes("PUT /z HTTP/1.0\r\nHost: example\r\nAccept: text\r\n\r\n"),
        2,
    )
    .unwrap();
    assert_eq!(req.method(), HttpMethod::PUT);
    assert_eq!(req.header_name(0), b"Host".to_vec());
    assert_eq!(req.header_value(0), b"example".to_vec());
    assert_eq!(req.header_name(1), b"Accept".to_vec());
    assert_eq!(req.header_value(1), b"text".to_vec());
}

#[test]
fn value_leading_spaces_dropped() {
    let req = OwnedRequest::build(bytes("GET / HTTP/1.1\r\nHost:   padded\r\n\r\n"), 1).unwrap();
    assert_eq!(req.header_value(0), b"padded".to_vec());
}

#[test]
fn method_case_insensitive() {
    let req = OwnedRequest::build(bytes("get /x HTTP/1.1\r\n\r\n"), 0).unwrap();
    assert_eq!(req.method(), HttpMethod::GET);
    let buf = bytes("post");
    assert_eq!(HttpMethod::try_from_range(&buf, 0, 4), Ok(HttpMethod::POST));
}

#[test]
fn method_unknown() {
    let buf = bytes("BREW");
    assert_eq!(
        HttpMethod::try_from_range(&buf, 0, 4),
        Err(ParseError::UnknownMethod)
    );
    assert_eq!(
        build_err("BREW / HTTP/1.1\r\n\r\n", 0),
        ParseError::UnknownMethod
    );
}

#[test]
fn malformed_two_parts() {
    assert_eq!(build_err("GET /\r\n\r\n", 0), ParseError::MalformedRequestLine);
}

#[test]
fn malformed_four_parts() {
    assert_eq!(
        build_err("GET / HTTP/1.1 extra\r\n\r\n", 0),
        ParseError::MalformedRequestLine
    );
}

#[test]
fn header_count_mismatch() {
    assert_eq!(
        build_err("GET / HTTP/1.1\r\nHost: a\r\n\r\n", 2),
        ParseError::HeaderCountMismatch
    );
    assert_eq!(
        build_err("GET / HTTP/1.1\r\nHost: a\r\n\r\n", 0),
        ParseError::HeaderCountMismatch
    );
}

#[test]
fn header_without_colon() {
    assert_eq!(
        build_err("GET / HTTP/1.1\r\nnonsense\r\n\r\n", 1),
        ParseError::HeaderCountMismatch
    );
}

#[test]
fn new_collapses_errors() {
    assert!(OwnedRequest::new(bytes("GET /x HTTP/1.1\r\nHost: a\r\n\r\n"), 1).is_some());
    assert!(OwnedRequest::new(bytes("GET /\r\n\r\n"), 0).is_none());
    assert!(OwnedRequest::new(bytes("GET / HTTP/1.1\r\nHost: a\r\n\r\n"), 3).is_none());
}
