use h1core::error::UrlencodedError;
use h1core::form::{parse_urlencoded, urlencoded_feed, urlencoded_precheck, Form, FormConfig};

#[test]
fn test_form() {
    let checked =
        urlencoded_precheck(b"application/x-www-form-urlencoded", Some(b"11"), 16384).unwrap();
    assert_eq!(checked, Some(11));
    let pairs = parse_urlencoded(b"hello=world").unwrap();
    assert_eq!(pairs.len(), 1);
    assert_eq!(pairs[0].0, "hello");
    assert_eq!(pairs[0].1, "world");
    let form = Form(pairs);
    assert_eq!(form.into_inner()[0].1, "world");
}

#[test]
fn form_test_urlencoded_error() {
    let r = urlencoded_precheck(b"application/x-www-form-urlencoded", Some(b"xxxx"), 32768);
    assert!(matches!(r, Err(UrlencodedError::UnknownLength)));

    let r = urlencoded_precheck(b"application/x-www-form-urlencoded", Some(b"1000000"), 32768);
    assert!(matches!(r, Err(UrlencodedError::Overflow { .. })));

    let r = urlencoded_precheck(b"text/plain", Some(b"10"), 32768);
    assert!(matches!(r, Err(UrlencodedError::ContentType)));
}

#[test]
fn test_urlencoded() {
    let checked =
        urlencoded_precheck(b"application/x-www-form-urlencoded", Some(b"11"), 32768).unwrap();
    assert_eq!(checked, Some(11));
    let pairs = parse_urlencoded(b"hello=world").unwrap();
    assert_eq!(pairs, vec![("hello".to_string(), "world".to_string())]);

    let checked = urlencoded_precheck(
        b"application/x-www-form-urlencoded; charset=utf-8",
        Some(b"11"),
        32768,
    )
    .unwrap();
    assert_eq!(checked, Some(11));
    let pairs = parse_urlencoded(b"hello=world").unwrap();
    assert_eq!(pairs, vec![("hello".to_string(), "world".to_string())]);
}

#[test]
fn test_feed_limit() {
    let mut body: Vec<u8> = Vec::new();
    assert!(urlencoded_feed(&mut body, b"abcd", 8).is_ok());
    assert!(urlencoded_feed(&mut body, b"efgh", 8).is_ok());
    assert_eq!(body, b"abcdefgh".to_vec());
    let r = urlencoded_feed(&mut body, b"i", 8);
    assert!(matches!(r, Err(UrlencodedError::Overflow { size: 9, limit: 8 })));
    assert_eq!(body, b"abcdefgh".to_vec());
}

#[test]
fn test_form_config() {
    let cfg = FormConfig::default();
    assert_eq!(cfg.max_size(), 16384);
    let cfg = cfg.limit(4097);
    assert_eq!(cfg.max_size(), 4097);
}

#[test]
fn test_parse_bare_key() {
    let pairs = parse_urlencoded(b"a&b=1").unwrap();
    assert_eq!(
        pairs,
        vec![("a".to_string(), "".to_string()), ("b".to_string(), "1".to_string())]
    );
}

#[test]
fn test_charset_labels() {
    // Declared UTF-8 charsets pass, quoted or not, among other parameters.
    assert!(urlencoded_precheck(
        b"application/x-www-form-urlencoded; charset=\"utf-8\"",
        Some(b"4"),
        100,
    )
    .is_ok());
    assert!(urlencoded_precheck(
        b"application/x-www-form-urlencoded; boundary=x; charset=UTF8",
        Some(b"4"),
        100,
    )
    .is_ok());
    // Any other charset is refused: bodies are decoded as UTF-8 only.
    let r = urlencoded_precheck(
        b"application/x-www-form-urlencoded; charset=koi8-r",
        Some(b"4"),
        100,
    );
    assert!(matches!(r, Err(UrlencodedError::ContentType)));
    let r = urlencoded_precheck(
        b"application/x-www-form-urlencoded; charset=foobar",
        Some(b"4"),
        100,
    );
    assert!(matches!(r, Err(UrlencodedError::ContentType)));
}
