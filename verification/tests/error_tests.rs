use h1core::error::{
    BlockingError, ContentTypeError, JsonPayloadError, ParseError, PayloadError,
    QueryPayloadError, ReadlinesError, UriSegmentError, UrlencodedError,
};

#[test]
fn test_payload_error() {
    let err = PayloadError::Incomplete(Some("ParseError".to_string()));
    assert!(err.message().contains("ParseError"));

    let err = PayloadError::Incomplete(None);
    assert_eq!(
        err.message(),
        "A payload reached EOF, but is not complete. Inner error: None"
    );
}

#[test]
fn test_urlencoded_error() {
    let e = UrlencodedError::Overflow { size: 0, limit: 0 };
    assert_eq!(e.status_code(), 413);
    let e = UrlencodedError::UnknownLength;
    assert_eq!(e.status_code(), 411);
    let e = UrlencodedError::ContentType;
    assert_eq!(e.status_code(), 400);
}

#[test]
fn test_json_payload_error() {
    assert_eq!(JsonPayloadError::Overflow.status_code(), 413);
    assert_eq!(JsonPayloadError::ContentType.status_code(), 400);
}

#[test]
fn test_query_payload_error() {
    let inner = serde_urlencoded::from_str::<i32>("bad query").unwrap_err();
    let e = QueryPayloadError::Deserialize(inner.to_string());
    assert_eq!(e.status_code(), 400);
}

#[test]
fn test_readlines_error() {
    assert_eq!(ReadlinesError::LimitOverflow.status_code(), 413);
    assert_eq!(ReadlinesError::EncodingError.status_code(), 400);
}

#[test]
fn test_status_codes() {
    assert_eq!(ParseError::Method.status_code(), 400);
    assert_eq!(ParseError::TooLarge.status_code(), 400);
    assert_eq!(BlockingError.status_code(), 500);
    assert_eq!(ContentTypeError::ParseError.status_code(), 400);
    assert_eq!(ContentTypeError::UnknownEncoding.status_code(), 400);
    assert_eq!(UriSegmentError::BadStart('.').status_code(), 400);
    assert_eq!(PayloadError::Overflow.status_code(), 413);
    assert_eq!(PayloadError::UnknownLength.status_code(), 400);
    assert_eq!(PayloadError::EncodingCorrupted.message(), "Can not decode content-encoding.");
    assert_eq!(PayloadError::Overflow.message(), "Payload reached size limit.");
}
