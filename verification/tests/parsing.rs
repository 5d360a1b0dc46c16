use minihttp::bytes::{parse_dec, render_dec};
use minihttp::framing::{
    extract_body, frame_head, head_status, split_head_lines, FramedHead, HeadStatus, MAX_HEAD_LEN,
};
use minihttp::header::{content_length, lookup, parse_header_line, Header};
use minihttp::request::{parse_head, parse_request_line};

#[test]
fn head_is_complete_at_first_blank_line() {
    let buf = b"GET / HTTP/1.1\r\nHost: x\r\n\r\ntrailing".to_vec();
    match head_status(&buf) {
        HeadStatus::Complete(e) => assert_eq!(e, 27),
        _ => panic!("head is complete"),
    }
}

#[test]
fn partial_head_needs_more_bytes() {
    let buf = b"GET / HTTP/1.1\r\nHost: x\r\n".to_vec();
    assert!(matches!(head_status(&buf), HeadStatus::NeedMore));
}

#[test]
fn oversized_head_without_blank_line_is_too_long() {
    let buf = vec![b'a'; MAX_HEAD_LEN + 10];
    assert!(matches!(head_status(&buf), HeadStatus::TooLong));
}

#[test]
fn lines_are_split_on_crlf_with_endings_stripped() {
    let buf = b"GET /x HTTP/1.1\r\nA: 1\r\nB: 2\r\n\r\n".to_vec();
    let e = match head_status(&buf) {
        HeadStatus::Complete(e) => e,
        _ => panic!("complete"),
    };
    let lines = split_head_lines(&buf, e);
    assert_eq!(lines.len(), 3);
    assert_eq!(lines[0], b"GET /x HTTP/1.1".to_vec());
    assert_eq!(lines[1], b"A: 1".to_vec());
    assert_eq!(lines[2], b"B: 2".to_vec());
}

#[test]
fn request_line_splits_into_method_and_path() {
    let line = b"GET /abc HTTP/1.1".to_vec();
    let (method, path) = parse_request_line(&line).expect("parses");
    assert_eq!(method, b"GET".to_vec());
    assert_eq!(path, b"/abc".to_vec());
}

#[test]
fn request_line_without_version_still_parses() {
    let line = b"GET /abc".to_vec();
    let (method, path) = parse_request_line(&line).expect("two tokens are enough");
    assert_eq!(method, b"GET".to_vec());
    assert_eq!(path, b"/abc".to_vec());
}

#[test]
fn request_line_with_one_token_fails() {
    let line = b"GET".to_vec();
    assert!(parse_request_line(&line).is_none());
}

#[test]
fn request_line_with_doubled_space_fails() {
    // split on single spaces: the doubled space makes an empty path token
    let line = b"GET  /abc HTTP/1.1".to_vec();
    assert!(parse_request_line(&line).is_none());
}

#[test]
fn path_must_begin_with_slash() {
    let line = b"GET abc HTTP/1.1".to_vec();
    assert!(parse_request_line(&line).is_none());
}

#[test]
fn query_string_is_not_stripped() {
    let line = b"GET /echo/a?b=1 HTTP/1.1".to_vec();
    let (_, path) = parse_request_line(&line).expect("parses");
    assert_eq!(path, b"/echo/a?b=1".to_vec());
}

#[test]
fn header_line_splits_on_first_colon_and_trims_leading_ws() {
    let line = b"Host:  \t example.com:8080".to_vec();
    let h = parse_header_line(&line).expect("has a colon");
    assert_eq!(h.name, b"Host".to_vec());
    assert_eq!(h.value, b"example.com:8080".to_vec());
}

#[test]
fn header_line_without_colon_is_skipped() {
    let line = b"NoColonHere".to_vec();
    assert!(parse_header_line(&line).is_none());
    let buf = b"GET /user-agent HTTP/1.1\r\nGarbage line\r\nUser-Agent: ok\r\n\r\n".to_vec();
    let e = match head_status(&buf) {
        HeadStatus::Complete(e) => e,
        _ => panic!("complete"),
    };
    let lines = split_head_lines(&buf, e);
    let req = parse_head(&lines).expect("bad header lines are skipped, not fatal");
    assert_eq!(req.headers.len(), 1);
}

#[test]
fn lookup_is_case_insensitive_and_last_wins() {
    let headers = vec![
        Header { name: b"X-One".to_vec(), value: b"1".to_vec() },
        Header { name: b"x-one".to_vec(), value: b"2".to_vec() },
    ];
    let v = lookup(&headers, b"X-ONE").expect("present");
    assert_eq!(v, b"2".to_vec());
    assert!(lookup(&headers, b"X-Two").is_none());
}

#[test]
fn content_length_reads_the_declared_length() {
    let headers = vec![Header { name: b"Content-Length".to_vec(), value: b"42".to_vec() }];
    assert_eq!(content_length(&headers), 42);
}

#[test]
fn absent_or_malformed_content_length_is_zero() {
    let no_headers: Vec<Header> = Vec::new();
    assert_eq!(content_length(&no_headers), 0);
    let bad = vec![Header { name: b"Content-Length".to_vec(), value: b"5x".to_vec() }];
    assert_eq!(content_length(&bad), 0);
    let huge = vec![Header {
        name: b"Content-Length".to_vec(),
        value: b"99999999999999999999999999".to_vec(),
    }];
    assert_eq!(content_length(&huge), 0);
}

#[test]
fn duplicate_content_length_last_wins() {
    let headers = vec![
        Header { name: b"Content-Length".to_vec(), value: b"1".to_vec() },
        Header { name: b"content-length".to_vec(), value: b"7".to_vec() },
    ];
    assert_eq!(content_length(&headers), 7);
}

#[test]
fn frame_head_yields_end_and_lines_together() {
    let buf = b"POST /files/f HTTP/1.1\r\nContent-Length: 3\r\n\r\nabc".to_vec();
    match frame_head(&buf) {
        FramedHead::Ready { end, lines } => {
            assert_eq!(end, 45);
            assert_eq!(lines.len(), 2);
            assert_eq!(lines[0], b"POST /files/f HTTP/1.1".to_vec());
            assert_eq!(lines[1], b"Content-Length: 3".to_vec());
        }
        _ => panic!("head is complete"),
    }
    assert!(matches!(frame_head(&b"GET /".to_vec()), FramedHead::NeedMore));
}

#[test]
fn body_is_extracted_only_once_fully_buffered() {
    let buf = b"head\r\n\r\nabcde".to_vec();
    assert_eq!(extract_body(&buf, 8, 5), Some(b"abcde".to_vec()));
    assert_eq!(extract_body(&buf, 8, 3), Some(b"abc".to_vec()));
    assert_eq!(extract_body(&buf, 8, 6), None);
}

#[test]
fn decimal_parse_and_render_are_exact() {
    assert_eq!(parse_dec(&b"0".to_vec()), Some(0));
    assert_eq!(parse_dec(&b"007".to_vec()), Some(7));
    assert_eq!(parse_dec(&b"18446744073709551615".to_vec()), Some(usize::MAX));
    assert_eq!(parse_dec(&b"18446744073709551616".to_vec()), None);
    assert_eq!(parse_dec(&b"".to_vec()), None);
    assert_eq!(parse_dec(&b"-1".to_vec()), None);
    assert_eq!(render_dec(0), b"0".to_vec());
    assert_eq!(render_dec(105), b"105".to_vec());
    assert_eq!(render_dec(usize::MAX), b"18446744073709551615".to_vec());
}
