use minihttp::framing::{head_status, split_head_lines, HeadStatus};
use minihttp::handler::{
    bad_request, file_get_response, file_post_response, handle_request, post_body_action, Action,
    FileOutcome, PostAction,
};
use minihttp::request::parse_head;
use minihttp::response::serialize;

fn run_head(head: &[u8]) -> Action {
    let buf = head.to_vec();
    let e = match head_status(&buf) {
        HeadStatus::Complete(e) => e,
        _ => panic!("head should be complete"),
    };
    let lines = split_head_lines(&buf, e);
    let req = parse_head(&lines).expect("head should parse");
    handle_request(&req)
}

fn respond(head: &[u8]) -> Vec<u8> {
    match run_head(head) {
        Action::Respond(r) => serialize(&r),
        _ => panic!("expected an immediate response"),
    }
}

#[test]
fn echo_returns_message_verbatim() {
    let out = respond(b"GET /echo/abc HTTP/1.1\r\nHost: localhost\r\n\r\n");
    assert_eq!(
        out,
        b"HTTP/1.1 200 OK\r\nContent-Type: text/plain\r\nContent-Length: 3\r\n\r\nabc".to_vec()
    );
}

#[test]
fn echo_does_not_percent_decode() {
    let out = respond(b"GET /echo/a%20b HTTP/1.1\r\n\r\n");
    assert_eq!(
        out,
        b"HTTP/1.1 200 OK\r\nContent-Type: text/plain\r\nContent-Length: 5\r\n\r\na%20b".to_vec()
    );
}

#[test]
fn echo_empty_suffix_is_valid() {
    let out = respond(b"GET /echo/ HTTP/1.1\r\n\r\n");
    assert_eq!(
        out,
        b"HTTP/1.1 200 OK\r\nContent-Type: text/plain\r\nContent-Length: 0\r\n\r\n".to_vec()
    );
}

#[test]
fn echo_without_trailing_slash_is_not_found() {
    let out = respond(b"GET /echo HTTP/1.1\r\n\r\n");
    assert_eq!(out, b"HTTP/1.1 404 Not Found\r\n\r\n".to_vec());
}

#[test]
fn root_returns_bare_ok() {
    let out = respond(b"GET / HTTP/1.1\r\nHost: x\r\n\r\n");
    assert_eq!(out, b"HTTP/1.1 200 OK\r\n\r\n".to_vec());
}

#[test]
fn user_agent_is_reflected() {
    let out = respond(b"GET /user-agent HTTP/1.1\r\nUser-Agent: foobar/1.2.3\r\n\r\n");
    assert_eq!(
        out,
        b"HTTP/1.1 200 OK\r\nContent-Type: text/plain\r\nContent-Length: 12\r\n\r\nfoobar/1.2.3"
            .to_vec()
    );
}

#[test]
fn user_agent_name_is_case_insensitive_and_last_wins() {
    let out = respond(b"GET /user-agent HTTP/1.1\r\nuser-agent: first\r\nUSER-AGENT: second\r\n\r\n");
    assert_eq!(
        out,
        b"HTTP/1.1 200 OK\r\nContent-Type: text/plain\r\nContent-Length: 6\r\n\r\nsecond".to_vec()
    );
}

#[test]
fn absent_user_agent_gives_empty_body() {
    let out = respond(b"GET /user-agent HTTP/1.1\r\nHost: x\r\n\r\n");
    assert_eq!(
        out,
        b"HTTP/1.1 200 OK\r\nContent-Type: text/plain\r\nContent-Length: 0\r\n\r\n".to_vec()
    );
}

#[test]
fn unknown_path_is_not_found() {
    let out = respond(b"GET /nope HTTP/1.1\r\n\r\n");
    assert_eq!(out, b"HTTP/1.1 404 Not Found\r\n\r\n".to_vec());
}

#[test]
fn unregistered_method_on_known_path_is_not_allowed() {
    let out = respond(b"PUT / HTTP/1.1\r\n\r\n");
    assert_eq!(out, b"HTTP/1.1 405 Method Not Allowed\r\n\r\n".to_vec());
}

#[test]
fn post_on_echo_is_not_allowed() {
    let out = respond(b"POST /echo/x HTTP/1.1\r\nContent-Length: 0\r\n\r\n");
    assert_eq!(out, b"HTTP/1.1 405 Method Not Allowed\r\n\r\n".to_vec());
}

#[test]
fn file_get_asks_for_the_named_file() {
    match run_head(b"GET /files/data.bin HTTP/1.1\r\n\r\n") {
        Action::ReadFile { name, gzip } => {
            assert_eq!(name, b"data.bin".to_vec());
            assert!(!gzip);
        },
        _ => panic!("expected a file read"),
    }
}

#[test]
fn missing_file_is_not_found() {
    let name = b"missing".to_vec();
    let r = file_get_response(&name, FileOutcome::Missing, false);
    assert_eq!(serialize(&r), b"HTTP/1.1 404 Not Found\r\n\r\n".to_vec());
}

#[test]
fn unreadable_file_is_server_error() {
    let name = b"locked".to_vec();
    let r = file_get_response(&name, FileOutcome::Unreadable, false);
    assert_eq!(serialize(&r), b"HTTP/1.1 500 Internal Server Error\r\n\r\n".to_vec());
}

#[test]
fn served_file_uses_octet_stream_by_default() {
    let name = b"data.bin".to_vec();
    let r = file_get_response(&name, FileOutcome::Content(b"hello".to_vec()), false);
    assert_eq!(
        serialize(&r),
        b"HTTP/1.1 200 OK\r\nContent-Type: application/octet-stream\r\nContent-Length: 5\r\n\r\nhello"
            .to_vec()
    );
}

#[test]
fn served_file_content_type_follows_extension() {
    let name = b"page.html".to_vec();
    let r = file_get_response(&name, FileOutcome::Content(b"<p>".to_vec()), false);
    assert_eq!(
        serialize(&r),
        b"HTTP/1.1 200 OK\r\nContent-Type: text/html\r\nContent-Length: 3\r\n\r\n<p>".to_vec()
    );
}

#[test]
fn traversal_on_get_is_refused_without_a_read() {
    match run_head(b"GET /files/../secret HTTP/1.1\r\n\r\n") {
        Action::Respond(r) => {
            assert_eq!(serialize(&r), b"HTTP/1.1 404 Not Found\r\n\r\n".to_vec());
        },
        _ => panic!("a traversal name must never reach the filesystem"),
    }
}

#[test]
fn absolute_name_is_refused() {
    match run_head(b"GET /files//etc/passwd HTTP/1.1\r\n\r\n") {
        Action::Respond(r) => {
            assert_eq!(serialize(&r), b"HTTP/1.1 404 Not Found\r\n\r\n".to_vec());
        },
        _ => panic!("an absolute name must never reach the filesystem"),
    }
}

#[test]
fn nested_traversal_is_refused() {
    match run_head(b"GET /files/a/../../secret HTTP/1.1\r\n\r\n") {
        Action::Respond(r) => {
            assert_eq!(serialize(&r), b"HTTP/1.1 404 Not Found\r\n\r\n".to_vec());
        },
        _ => panic!("a nested traversal must never reach the filesystem"),
    }
}

#[test]
fn dots_inside_a_segment_are_allowed() {
    match run_head(b"GET /files/a..b HTTP/1.1\r\n\r\n") {
        Action::ReadFile { name, .. } => assert_eq!(name, b"a..b".to_vec()),
        _ => panic!("a..b stays under the base directory"),
    }
}

#[test]
fn post_receives_declared_body_length_then_stores_verbatim() {
    let (name, length) = match run_head(b"POST /files/f HTTP/1.1\r\nContent-Length: 5\r\n\r\n") {
        Action::ReceiveBody { name, length } => (name, length),
        _ => panic!("expected a body instruction"),
    };
    assert_eq!(name, b"f".to_vec());
    assert_eq!(length, 5);
    match post_body_action(name, b"hello".to_vec()) {
        PostAction::WriteFile { name, body } => {
            assert_eq!(name, b"f".to_vec());
            assert_eq!(body, b"hello".to_vec());
        },
        _ => panic!("a safe name must be written"),
    }
    let ok = file_post_response(true);
    assert_eq!(serialize(&ok), b"HTTP/1.1 201 Created\r\n\r\n".to_vec());
    let failed = file_post_response(false);
    assert_eq!(serialize(&failed), b"HTTP/1.1 500 Internal Server Error\r\n\r\n".to_vec());
}

#[test]
fn stored_bytes_are_served_back_exactly() {
    let body = b"any bytes \x00\xff here".to_vec();
    let name = b"f".to_vec();
    let stored = match post_body_action(name.clone(), body.clone()) {
        PostAction::WriteFile { body, .. } => body,
        _ => panic!("safe name"),
    };
    let r = file_get_response(&name, FileOutcome::Content(stored), false);
    assert!(matches!(r.status, minihttp::response::Status::Okay));
    assert_eq!(r.body, body);
}

#[test]
fn empty_body_round_trips() {
    let name = b"empty".to_vec();
    let stored = match post_body_action(name.clone(), Vec::new()) {
        PostAction::WriteFile { body, .. } => body,
        _ => panic!("safe name"),
    };
    let r = file_get_response(&name, FileOutcome::Content(stored), false);
    assert_eq!(r.body, Vec::<u8>::new());
    assert_eq!(
        serialize(&r),
        b"HTTP/1.1 200 OK\r\nContent-Type: application/octet-stream\r\nContent-Length: 0\r\n\r\n"
            .to_vec()
    );
}

#[test]
fn traversal_on_post_consumes_body_but_writes_nothing() {
    let (name, length) = match run_head(
        b"POST /files/../oops HTTP/1.1\r\nContent-Length: 3\r\n\r\n",
    ) {
        Action::ReceiveBody { name, length } => (name, length),
        _ => panic!("the body is consumed before any decision"),
    };
    assert_eq!(length, 3);
    match post_body_action(name, b"abc".to_vec()) {
        PostAction::Respond(r) => {
            assert_eq!(serialize(&r), b"HTTP/1.1 404 Not Found\r\n\r\n".to_vec());
        },
        _ => panic!("a traversal name must never be written"),
    }
}

#[test]
fn short_body_aborts_with_bad_request_and_no_write() {
    // A client declares five body bytes but closes after three: the caller
    // never obtains a full body, so no write instruction can exist; the
    // answer it sends instead is this one.
    match run_head(b"POST /files/f HTTP/1.1\r\nContent-Length: 5\r\n\r\n") {
        Action::ReceiveBody { length, .. } => assert_eq!(length, 5),
        _ => panic!("expected a body instruction"),
    }
    let r = bad_request();
    assert_eq!(serialize(&r), b"HTTP/1.1 400 Bad Request\r\n\r\n".to_vec());
}

#[test]
fn malformed_request_line_maps_to_bad_request() {
    let buf = b"GARBAGE\r\nHost: x\r\n\r\n".to_vec();
    let e = match head_status(&buf) {
        HeadStatus::Complete(e) => e,
        _ => panic!("head is complete"),
    };
    let lines = split_head_lines(&buf, e);
    assert!(parse_head(&lines).is_none(), "one token is no request line");
    let r = bad_request();
    assert_eq!(serialize(&r), b"HTTP/1.1 400 Bad Request\r\n\r\n".to_vec());
}

#[test]
fn distinct_posts_keep_their_own_bytes() {
    let mut writes = Vec::new();
    for i in 0..8u8 {
        let name = vec![b'f', b'0' + i];
        let body = vec![i; i as usize + 1];
        match post_body_action(name.clone(), body.clone()) {
            PostAction::WriteFile { name: n, body: b } => writes.push((name, body, n, b)),
            _ => panic!("safe name"),
        }
    }
    for (name, body, n, b) in writes {
        assert_eq!(name, n);
        assert_eq!(body, b);
    }
}
