use h1core::body::{Body, BodySize, MessageBody, ResponseBody};

#[test]
fn test_static_str() {
    assert_eq!(Body::from("").length(), BodySize::Sized(0));
    assert_eq!(Body::from("test").length(), BodySize::Sized(4));
    assert_eq!(Body::from("test").get_ref().as_slice(), b"test");
}

#[test]
fn test_static_bytes() {
    assert_eq!(Body::from(b"test".as_ref()).length(), BodySize::Sized(4));
    assert_eq!(Body::from(b"test".as_ref()).get_ref().as_slice(), b"test");
    assert_eq!(Body::from_slice(b"test".as_ref()).length(), BodySize::Sized(4));
    assert_eq!(Body::from_slice(b"test".as_ref()).get_ref().as_slice(), b"test");
}

#[test]
fn test_vec() {
    assert_eq!(Body::from(Vec::from("test")).length(), BodySize::Sized(4));
    assert_eq!(Body::from(Vec::from("test")).get_ref().as_slice(), b"test");
}

#[test]
fn test_string() {
    let b = "test".to_owned();
    assert_eq!(Body::from(b.clone()).length(), BodySize::Sized(4));
    assert_eq!(Body::from(b.clone()).get_ref().as_slice(), b"test");
    assert_eq!(Body::from(&b).length(), BodySize::Sized(4));
    assert_eq!(Body::from(&b).get_ref().as_slice(), b"test");
}

#[test]
fn test_is_eof() {
    assert!(BodySize::NoBody.is_eof());
    assert!(BodySize::Empty.is_eof());
    assert!(BodySize::Sized(0).is_eof());
    assert!(BodySize::Sized64(0).is_eof());
    assert!(!BodySize::Sized(1).is_eof());
    assert!(!BodySize::Stream.is_eof());
}

#[test]
fn test_body_poll_next() {
    let mut b = Body::from("abc");
    assert_eq!(b.poll_next(), Some(b"abc".to_vec()));
    assert_eq!(b.poll_next(), None);
    let mut e = Body::Empty;
    assert_eq!(e.poll_next(), None);
}

#[test]
fn test_response_body() {
    let mut rb: ResponseBody<Body> = ResponseBody::Body(Body::from("xy"));
    assert_eq!(rb.length(), BodySize::Sized(2));
    assert!(rb.as_ref().is_some());
    let taken = rb.take_body();
    assert_eq!(taken.length(), BodySize::Sized(2));
    assert_eq!(rb.length(), BodySize::NoBody);
    let other: ResponseBody<Body> = ResponseBody::Other(Body::Empty);
    assert!(other.as_ref().is_none());
}

#[test]
fn test_body_eq() {
    assert!(Body::from("ab") == Body::from(b"ab".as_ref()));
    assert!(Body::from("ab") != Body::from("abc"));
    assert!(Body::NoBody != Body::Empty);
    assert!(Body::NoBody == Body::NoBody);
}
