use blaze::framing::{frame_bytes, FramingError, FramingParser};

fn bytes(s: &str) -> Vec<u8> {
    s.as_bytes().to_vec()
}

#[test]
fn frame_one_header() {
    let input = bytes("GET /x HTTP/1.1\r\nHost: a\r\n\r\n");
    let (buf, n) = frame_bytes(&input).unwrap();
    assert_eq!(buf, input);
    assert_eq!(n, 1);
}

#[test]
fn frame_zero_headers() {
    let input = bytes("GET / HTTP/1.1\r\n\r\n");
    let (buf, n) = frame_bytes(&input).unwrap();
    assert_eq!(buf, input);
    assert_eq!(n, 0);
}

#[test]
fn frame_three_headers() {
    let input = bytes("POST /y HTTP/1.1\r\nHost: a\r\nAccept: b\r\nUser: c\r\n\r\n");
    let (buf, n) = frame_bytes(&input).unwrap();
    assert_eq!(buf, input);
    assert_eq!(n, 3);
}

#[test]
fn frame_stops_at_first_terminator() {
    let head = bytes("GET / HTTP/1.1\r\nHost: a\r\n\r\n");
    let mut input = head.clone();
    input.extend_from_slice(b"GET /next HTTP/1.1\r\n\r\n");
    let (buf, n) = frame_bytes(&input).unwrap();
    assert_eq!(buf, head);
    assert_eq!(n, 1);
}

#[test]
fn frame_empty_request_line() {
    let input = bytes("\r\n\r\n");
    let (buf, n) = frame_bytes(&input).unwrap();
    assert_eq!(buf, input);
    assert_eq!(n, 0);
}

#[test]
fn frame_truncated_partial_line() {
    let input = bytes("GET / HTTP/1.1");
    assert_eq!(frame_bytes(&input), Err(FramingError::Truncated));
}

#[test]
fn frame_truncated_after_header() {
    let input = bytes("GET / HTTP/1.1\r\nHost: a\r\n");
    assert_eq!(frame_bytes(&input), Err(FramingError::Truncated));
}

#[test]
fn frame_truncated_empty_stream() {
    let input: Vec<u8> = Vec::new();
    assert_eq!(frame_bytes(&input), Err(FramingError::Truncated));
}

#[test]
fn frame_truncated_lone_crlf() {
    let input = bytes("\r\n");
    assert_eq!(frame_bytes(&input), Err(FramingError::Truncated));
}

#[test]
fn parser_incremental_matches_whole() {
    let input = bytes("GET /x HTTP/1.1\r\nHost: a\r\n\r\n");
    let mut p = FramingParser::new();
    for (i, &b) in input.iter().enumerate() {
        assert!(!p.is_done());
        p.push_byte(b);
        if i + 1 < input.len() {
            assert!(!p.is_done());
        }
    }
    assert!(p.is_done());
    let (buf, n) = p.finish();
    assert_eq!(buf, input);
    assert_eq!(n, 1);
}
