use minihttp::framing::{head_status, split_head_lines, HeadStatus};
use minihttp::handler::{echo_response, file_get_response, handle_request, Action, FileOutcome};
use minihttp::header::{lookup, Header};
use minihttp::negotiate::supports_gzip;
use minihttp::request::parse_head;
use minihttp::response::serialize;

fn gunzip(data: &[u8]) -> Vec<u8> {
    let mut d = flate2::read::GzDecoder::new(data);
    let mut out = Vec::new();
    std::io::Read::read_to_end(&mut d, &mut out).expect("valid gzip stream");
    out
}

fn header(name: &[u8], value: &[u8]) -> Header {
    Header { name: name.to_vec(), value: value.to_vec() }
}

#[test]
fn gzip_token_is_recognized() {
    let hs = vec![header(b"Accept-Encoding", b"gzip")];
    assert!(supports_gzip(&hs));
}

#[test]
fn gzip_among_other_tokens_is_recognized() {
    let hs = vec![header(b"Accept-Encoding", b"deflate, gzip, br")];
    assert!(supports_gzip(&hs));
    let spaced = vec![header(b"accept-encoding", b"deflate ,  GZIP ")];
    assert!(supports_gzip(&spaced));
}

#[test]
fn gzip_as_substring_of_another_token_is_not_a_match() {
    let hs = vec![header(b"Accept-Encoding", b"supergzip, gzip2")];
    assert!(!supports_gzip(&hs));
}

#[test]
fn absent_accept_encoding_means_no_gzip() {
    let hs = vec![header(b"Host", b"x")];
    assert!(!supports_gzip(&hs));
    let empty: Vec<Header> = Vec::new();
    assert!(!supports_gzip(&empty));
}

#[test]
fn advertised_gzip_body_is_really_compressed() {
    let msg = b"squash me please, twice please, squash me".to_vec();
    let r = echo_response(&msg, true);
    let ce = lookup(&r.headers, b"Content-Encoding").expect("advertised");
    assert_eq!(ce, b"gzip".to_vec());
    assert_ne!(r.body, msg, "the body must not be the raw bytes under a gzip label");
    assert_eq!(gunzip(&r.body), msg);
    let cl = lookup(&r.headers, b"Content-Length").expect("present");
    assert_eq!(cl, r.body.len().to_string().into_bytes());
}

#[test]
fn negotiated_echo_round_trips_through_the_pipeline() {
    let buf = b"GET /echo/abc HTTP/1.1\r\nAccept-Encoding: deflate, gzip\r\n\r\n".to_vec();
    let e = match head_status(&buf) {
        HeadStatus::Complete(e) => e,
        _ => panic!("complete"),
    };
    let lines = split_head_lines(&buf, e);
    let req = parse_head(&lines).expect("parses");
    let r = match handle_request(&req) {
        Action::Respond(r) => r,
        _ => panic!("echo answers at once"),
    };
    assert_eq!(gunzip(&r.body), b"abc".to_vec());
    let wire = serialize(&r);
    let head_end = wire.windows(4).position(|w| w == b"\r\n\r\n").expect("blank line") + 4;
    let head = String::from_utf8_lossy(&wire[..head_end]).to_string();
    assert!(head.starts_with("HTTP/1.1 200 OK\r\n"));
    assert!(head.contains("Content-Encoding: gzip\r\n"));
    assert!(head.contains(&format!("Content-Length: {}\r\n", r.body.len())));
}

#[test]
fn unnegotiated_echo_is_not_compressed() {
    let msg = b"plain".to_vec();
    let r = echo_response(&msg, false);
    assert!(lookup(&r.headers, b"Content-Encoding").is_none());
    assert_eq!(r.body, msg);
}

#[test]
fn served_file_compresses_when_negotiated() {
    let name = b"notes.txt".to_vec();
    let content = b"line one\nline two\nline one again\n".to_vec();
    let r = file_get_response(&name, FileOutcome::Content(content.clone()), true);
    let ct = lookup(&r.headers, b"Content-Type").expect("typed");
    assert_eq!(ct, b"text/plain".to_vec());
    assert_eq!(gunzip(&r.body), content);
}
