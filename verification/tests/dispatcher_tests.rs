use h1core::body::{Body, BodySize};
use h1core::dispatcher::{Action, Config, Connection, OutBody, TurnEnd};
use h1core::codec::ResponseHead;
use h1core::error::DispatchError;
use h1core::payload::{ChunkPoll, PayloadStatus};

fn config() -> Config {
    Config { keep_alive: Some(5), client_disconnect: None }
}

fn ok_head() -> ResponseHead {
    ResponseHead { status: 200, headers: Vec::new(), close: false }
}

fn count_occurrences(haystack: &[u8], needle: &[u8]) -> usize {
    let mut count = 0;
    let mut i = 0;
    while i + needle.len() <= haystack.len() {
        if &haystack[i..i + needle.len()] == needle {
            count += 1;
        }
        i += 1;
    }
    count
}

#[test]
fn test_req_parse_err() {
    let mut conn = Connection::new(config(), 0, None);
    conn.on_read(b"GET /test HTTP/1\r\n\r\n");
    conn.poll_request(0);
    assert!(conn.flags.read_disconnect);
    match conn.next_action().unwrap() {
        Action::Wait => {}
        _ => panic!("a malformed request must not reach the handler"),
    }
    assert_eq!(&conn.write_buf[..26], b"HTTP/1.1 400 Bad Request\r\n");
    let n = conn.write_buf.len();
    conn.written(n);
    match conn.end_of_turn() {
        TurnEnd::Failed(DispatchError::Parse(_)) => {}
        _ => panic!("the parse error must surface once the connection drains"),
    }
}

#[test]
fn test_pipelined_requests_in_order() {
    let mut conn = Connection::new(config(), 0, None);
    conn.on_read(b"GET /a HTTP/1.1\r\n\r\nGET /b HTTP/1.1\r\n\r\nGET /c HTTP/1.1\r\n\r\n");
    conn.poll_request(0);
    assert_eq!(conn.messages.len(), 3);
    let mut targets: Vec<Vec<u8>> = Vec::new();
    loop {
        match conn.next_action().unwrap() {
            Action::Wait => break,
            Action::CallService(req) => {
                targets.push(req.target.clone());
                conn.on_service_done(&ok_head(), OutBody::Full(Body::from("ok"))).unwrap();
            }
            Action::CallExpect(_) => panic!("no request asked for a continue"),
        }
    }
    assert_eq!(targets, vec![b"/a".to_vec(), b"/b".to_vec(), b"/c".to_vec()]);
    assert_eq!(count_occurrences(&conn.write_buf, b"HTTP/1.1 200 OK\r\n"), 3);
}

#[test]
fn test_pipelining_cap() {
    let mut conn = Connection::new(config(), 0, None);
    let mut input = Vec::new();
    for _ in 0..18 {
        input.extend_from_slice(b"GET / HTTP/1.1\r\n\r\n");
    }
    conn.on_read(&input);
    conn.poll_request(0);
    assert_eq!(conn.messages.len(), 16);
    // Drain some backlog; decoding then admits the rest.
    for _ in 0..2 {
        match conn.next_action().unwrap() {
            Action::CallService(_) => {
                conn.on_service_done(&ok_head(), OutBody::Full(Body::Empty)).unwrap();
            }
            _ => panic!("a queued request was expected"),
        }
    }
    conn.poll_request(0);
    assert_eq!(conn.messages.len(), 16);
    conn.poll_request(0);
    assert_eq!(conn.read_buf.len(), 0);
}

#[test]
fn test_payload_backpressure() {
    let mut conn = Connection::new(config(), 0, None);
    conn.on_read(b"POST / HTTP/1.1\r\ncontent-length: 4\r\n\r\nab");
    conn.poll_request(0);
    assert_eq!(conn.messages.len(), 1);
    conn.payload_signal(PayloadStatus::Pause);
    assert!(!conn.can_read());
    conn.on_read(b"cd");
    let updated = conn.poll_request(0);
    assert!(!updated, "a paused consumer must stop decoding");
    assert_eq!(conn.read_buf.len(), 2);
    conn.payload_signal(PayloadStatus::Read);
    assert!(conn.can_read());
    let updated = conn.poll_request(0);
    assert!(updated, "decoding must resume after the consumer reads again");
    match conn.payload_poll() {
        Some(ChunkPoll::Data(d)) => assert_eq!(d, b"ab".to_vec()),
        _ => panic!("the first body chunk was expected"),
    }
    match conn.payload_poll() {
        Some(ChunkPoll::Data(d)) => assert_eq!(d, b"cd".to_vec()),
        _ => panic!("the second body chunk was expected"),
    }
    match conn.payload_poll() {
        Some(ChunkPoll::Eof) => {}
        _ => panic!("the body must complete"),
    }
}

#[test]
fn test_keepalive_unset_shuts_down() {
    let mut conn = Connection::new(Config { keep_alive: None, client_disconnect: None }, 0, None);
    conn.on_read(b"GET / HTTP/1.0\r\n\r\n");
    conn.poll_request(0);
    match conn.next_action().unwrap() {
        Action::CallService(_) => {
            conn.on_service_done(&ok_head(), OutBody::Full(Body::Empty)).unwrap();
        }
        _ => panic!("a request was expected"),
    }
    let n = conn.write_buf.len();
    conn.written(n);
    match conn.end_of_turn() {
        TurnEnd::DoShutdown => {}
        _ => panic!("an idle connection without keep-alive must shut down"),
    }
    assert!(conn.flags.shutdown);
}

#[test]
fn test_slow_request_timeout() {
    let mut conn = Connection::new(config(), 0, Some(5));
    conn.on_timer(6).unwrap();
    assert!(conn.flags.shutdown);
    assert!(conn.flags.started);
    assert_eq!(&conn.write_buf[..30], b"HTTP/1.1 408 Request Timeout\r\n");
}

#[test]
fn test_disconnect_timeout() {
    let mut conn = Connection::new(
        Config { keep_alive: Some(2), client_disconnect: Some(3) },
        0,
        None,
    );
    conn.on_read(b"GET / HTTP/1.1\r\n\r\n");
    conn.poll_request(0);
    match conn.next_action().unwrap() {
        Action::CallService(_) => {
            conn.on_service_done(&ok_head(), OutBody::Full(Body::Empty)).unwrap();
        }
        _ => panic!("a request was expected"),
    }
    let n = conn.write_buf.len();
    conn.written(n);
    // The keep-alive deadline passes while the connection sits idle.
    conn.on_timer(10).unwrap();
    assert!(conn.flags.shutdown);
    // The disconnect deadline passes during shutdown: a fatal timeout.
    match conn.on_timer(20) {
        Err(DispatchError::DisconnectTimeout) => {}
        _ => panic!("shutdown expiry must be a disconnect timeout"),
    }
}

#[test]
fn test_expect_continue_flow() {
    let mut conn = Connection::new(config(), 0, None);
    conn.on_read(b"POST / HTTP/1.1\r\nexpect: 100-continue\r\ncontent-length: 2\r\n\r\n");
    conn.poll_request(0);
    let req = match conn.next_action().unwrap() {
        Action::CallExpect(req) => req,
        _ => panic!("the request asks for a continue"),
    };
    let req = conn.on_expect_done(Ok(req)).unwrap().unwrap();
    assert_eq!(&conn.write_buf[..], b"HTTP/1.1 100 Continue\r\n\r\n");
    assert_eq!(req.method, b"POST".to_vec());
    conn.on_service_done(&ok_head(), OutBody::Full(Body::Empty)).unwrap();
}

#[test]
fn test_streaming_response() {
    let mut conn = Connection::new(config(), 0, None);
    conn.on_read(b"GET / HTTP/1.1\r\n\r\n");
    conn.poll_request(0);
    match conn.next_action().unwrap() {
        Action::CallService(_) => {}
        _ => panic!("a request was expected"),
    }
    conn.on_service_done(&ok_head(), OutBody::Streaming(BodySize::Stream)).unwrap();
    let head_len = conn.write_buf.len();
    let head = conn.write_buf.clone();
    assert!(count_occurrences(&head, b"transfer-encoding: chunked\r\n") == 1);
    assert!(conn.wants_body_chunk());
    conn.on_body_chunk(Some(b"abc".to_vec()));
    assert_eq!(&conn.write_buf[head_len..], b"3\r\nabc\r\n");
    conn.on_body_chunk(None);
    let n = conn.write_buf.len();
    assert_eq!(&conn.write_buf[n - 5..], b"0\r\n\r\n");
    assert!(!conn.wants_body_chunk());
}

#[test]
fn test_sized_response_framing() {
    let mut conn = Connection::new(config(), 0, None);
    conn.on_read(b"GET / HTTP/1.1\r\n\r\n");
    conn.poll_request(0);
    match conn.next_action().unwrap() {
        Action::CallService(_) => {}
        _ => panic!("a request was expected"),
    }
    conn.on_service_done(&ok_head(), OutBody::Full(Body::from("hello"))).unwrap();
    let out = conn.write_buf.clone();
    assert_eq!(count_occurrences(&out, b"content-length: 5\r\n"), 1);
    assert_eq!(count_occurrences(&out, b"transfer-encoding"), 0);
    assert_eq!(&out[out.len() - 5..], b"hello");
}

#[test]
fn test_empty_response_has_no_content_length() {
    let mut conn = Connection::new(config(), 0, None);
    conn.on_read(b"GET / HTTP/1.1\r\n\r\n");
    conn.poll_request(0);
    match conn.next_action().unwrap() {
        Action::CallService(_) => {}
        _ => panic!("a request was expected"),
    }
    conn.on_service_done(&ok_head(), OutBody::Full(Body::Empty)).unwrap();
    let out = conn.write_buf.clone();
    assert_eq!(count_occurrences(&out, b"content-length"), 0);
    assert_eq!(count_occurrences(&out, b"Content-Length"), 0);
}

#[test]
fn test_answer_in_order() {
    let mut conn = Connection::new(config(), 0, None);
    conn.on_read(b"GET /a HTTP/1.1\r\n\r\nGET /b HTTP/1.1\r\n\r\nGET /c HTTP/1.1\r\n\r\n");
    conn.poll_request(0);
    assert_eq!(conn.messages.len(), 3);
    let responses = vec![
        (ok_head(), Body::from("first")),
        (ok_head(), Body::from("second")),
        (ok_head(), Body::from("third")),
    ];
    conn.answer_in_order(responses).unwrap();
    assert_eq!(conn.messages.len(), 0);
    let out = conn.write_buf.clone();
    assert_eq!(count_occurrences(&out, b"HTTP/1.1 200 OK\r\n"), 3);
    let p1 = out.windows(5).position(|w| w == b"first").unwrap();
    let p2 = out.windows(6).position(|w| w == b"second").unwrap();
    let p3 = out.windows(5).position(|w| w == b"third").unwrap();
    assert!(p1 < p2 && p2 < p3);
}
