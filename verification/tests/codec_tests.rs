use h1core::body::BodySize;
use h1core::codec::{Codec, Message, MessageType, ResponseHead, Version};
use h1core::error::ParseError;
use h1core::wire::{parse_dec, parse_hex, u64_to_dec, u64_to_hex};

#[test]
fn test_decode_simple_head() {
    let mut codec = Codec::new(true);
    let mut buf = b"GET /index.html HTTP/1.1\r\nhost: example\r\n\r\ntrailing".to_vec();
    let head = match codec.decode(&mut buf) {
        Ok(Some(Message::Item(h))) => h,
        _ => panic!("a complete head must decode"),
    };
    assert_eq!(head.method, b"GET".to_vec());
    assert_eq!(head.target, b"/index.html".to_vec());
    assert_eq!(head.version, Version::Http11);
    assert_eq!(head.headers.len(), 1);
    assert_eq!(head.headers[0].0, b"host".to_vec());
    assert_eq!(head.headers[0].1, b"example".to_vec());
    assert_eq!(codec.message_type(), MessageType::NoPayload);
    assert!(codec.keepalive());
    assert_eq!(buf, b"trailing".to_vec());
}

#[test]
fn test_decode_fixed_body() {
    let mut codec = Codec::new(true);
    let mut buf = b"POST /x HTTP/1.1\r\ncontent-length: 4\r\n\r\nabcd".to_vec();
    match codec.decode(&mut buf) {
        Ok(Some(Message::Item(_))) => {}
        _ => panic!("the head must decode"),
    }
    assert_eq!(codec.message_type(), MessageType::Payload);
    match codec.decode(&mut buf) {
        Ok(Some(Message::Chunk(Some(data)))) => assert_eq!(data, b"abcd".to_vec()),
        _ => panic!("the body bytes must decode"),
    }
    match codec.decode(&mut buf) {
        Ok(Some(Message::Chunk(None))) => {}
        _ => panic!("the body must complete"),
    }
}

#[test]
fn test_decode_chunked_body() {
    let mut codec = Codec::new(true);
    let mut buf =
        b"POST /x HTTP/1.1\r\ntransfer-encoding: chunked\r\n\r\n3\r\nabc\r\n0\r\n\r\nrest".to_vec();
    match codec.decode(&mut buf) {
        Ok(Some(Message::Item(_))) => {}
        _ => panic!("the head must decode"),
    }
    assert_eq!(codec.message_type(), MessageType::Stream);
    match codec.decode(&mut buf) {
        Ok(Some(Message::Chunk(Some(data)))) => assert_eq!(data, b"abc".to_vec()),
        _ => panic!("the chunk must decode"),
    }
    match codec.decode(&mut buf) {
        Ok(Some(Message::Chunk(None))) => {}
        _ => panic!("the body must complete"),
    }
    assert_eq!(buf, b"rest".to_vec());
}

#[test]
fn test_decode_bad_version() {
    let mut codec = Codec::new(true);
    let mut buf = b"GET /test HTTP/1\r\n\r\n".to_vec();
    match codec.decode(&mut buf) {
        Err(ParseError::Version) => {}
        _ => panic!("a bad version must be rejected"),
    }
}

#[test]
fn test_decode_incomplete() {
    let mut codec = Codec::new(true);
    let mut buf = b"GET / HTTP/1.1\r\nhost: exa".to_vec();
    match codec.decode(&mut buf) {
        Ok(None) => {}
        _ => panic!("an incomplete head asks for more bytes"),
    }
    assert_eq!(buf.len(), 25);
}

#[test]
fn test_decode_connection_close() {
    let mut codec = Codec::new(true);
    let mut buf = b"GET / HTTP/1.1\r\nconnection: close\r\n\r\n".to_vec();
    match codec.decode(&mut buf) {
        Ok(Some(Message::Item(_))) => {}
        _ => panic!("the head must decode"),
    }
    assert!(!codec.keepalive());
}

#[test]
fn test_decode_http10_default_close() {
    let mut codec = Codec::new(true);
    let mut buf = b"GET / HTTP/1.0\r\n\r\n".to_vec();
    match codec.decode(&mut buf) {
        Ok(Some(Message::Item(h))) => assert_eq!(h.version, Version::Http10),
        _ => panic!("the head must decode"),
    }
    assert!(!codec.keepalive());
}

#[test]
fn test_decode_bad_content_length() {
    let mut codec = Codec::new(true);
    let mut buf = b"GET / HTTP/1.1\r\ncontent-length: 12x\r\n\r\n".to_vec();
    match codec.decode(&mut buf) {
        Err(ParseError::Header) => {}
        _ => panic!("an unreadable content length must be rejected"),
    }
}

#[test]
fn test_encode_head_filters_managed_headers() {
    let mut codec = Codec::new(true);
    let mut out: Vec<u8> = Vec::new();
    let resp = ResponseHead {
        status: 200,
        headers: vec![
            (b"x-a".to_vec(), b"1".to_vec()),
            (b"Content-Length".to_vec(), b"999".to_vec()),
        ],
        close: false,
    };
    codec.encode_head(&resp, BodySize::Sized(2), &mut out);
    let text = String::from_utf8(out).unwrap();
    assert!(text.starts_with("HTTP/1.1 200 OK\r\n"));
    assert!(text.contains("x-a: 1\r\n"));
    assert!(text.contains("content-length: 2\r\n"));
    assert!(!text.contains("999"));
    assert!(text.ends_with("\r\n\r\n"));
}

#[test]
fn test_encode_connection_close_header() {
    let mut codec = Codec::new(true);
    let mut out: Vec<u8> = Vec::new();
    let resp = ResponseHead { status: 200, headers: Vec::new(), close: true };
    codec.encode_head(&resp, BodySize::Empty, &mut out);
    let text = String::from_utf8(out).unwrap();
    assert!(text.contains("connection: close\r\n"));
    assert!(!codec.keepalive());
}

#[test]
fn test_numerals() {
    assert_eq!(u64_to_dec(0), b"0".to_vec());
    assert_eq!(u64_to_dec(400), b"400".to_vec());
    assert_eq!(u64_to_dec(12345), b"12345".to_vec());
    assert_eq!(u64_to_hex(0), b"0".to_vec());
    assert_eq!(u64_to_hex(255), b"FF".to_vec());
    assert_eq!(parse_dec(b"12345", 0, 5), Some(12345));
    assert_eq!(parse_dec(b"12x45", 0, 5), None);
    assert_eq!(parse_dec(b"", 0, 0), None);
    assert_eq!(parse_hex(b"ff", 0, 2), Some(255));
    assert_eq!(parse_hex(b"FF", 0, 2), Some(255));
    assert_eq!(parse_hex(b"zz", 0, 2), None);
}
