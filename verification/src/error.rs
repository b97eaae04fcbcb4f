//! Error taxonomy: parse-level, payload-level and connection-fatal errors,
//! each with the status code of the wire response it drives.

use vstd::prelude::*;
use vstd::string::StringExecFns;

verus! {

/// Errors of the wire parser: malformed data on the read side of a
/// connection. Every one of them is answered with a `400`-class response
/// and the read side is not trusted afterwards.
#[derive(Debug, PartialEq, Eq, Structural, Copy, Clone)]
pub enum ParseError {
    /// An invalid method, such as `GE.T`.
    Method,
    /// An invalid request target, such as `exam ple`.
    Uri,
    /// An invalid HTTP version, such as `HTP/1.1`.
    Version,
    /// An invalid header line.
    Header,
    /// A message head too large to be reasonable.
    TooLarge,
    /// A message reached EOF but is not complete.
    Incomplete,
    /// An invalid status.
    Status,
    /// A timeout occurred waiting for an IO event.
    Timeout,
    /// An IO-level failure while reading the stream, body framing included.
    Io,
    /// A field could not be read as a string.
    Utf8,
}

impl ParseError {
    /// Every parse error is answered with `400 Bad Request`.
    pub fn status_code(&self) -> (r: u16)
        ensures
            r == 400,
    {
        400
    }
}

/// Errors of a running blocking task.
#[derive(Debug, PartialEq, Eq, Structural, Copy, Clone)]
pub struct BlockingError;

impl BlockingError {
    /// A gone thread pool is an internal server error.
    pub fn status_code(&self) -> (r: u16)
        ensures
            r == 500,
    {
        500
    }
}

/// Errors of an inbound request body, surfaced to the body's consumer.
#[derive(Debug)]
pub enum PayloadError {
    /// The payload reached EOF before it was complete; the inner text, when
    /// present, describes the IO failure that cut it short.
    Incomplete(Option<String>),
    /// The content encoding of the body stream is corrupted.
    EncodingCorrupted,
    /// The payload reached the configured size limit.
    Overflow,
    /// The payload length is unknown.
    UnknownLength,
    /// A generic IO failure, described by its text.
    Io(String),
}

impl PayloadError {
    pub open spec fn spec_status(&self) -> u16 {
        match self {
            PayloadError::Overflow => 413,
            _ => 400,
        }
    }

    /// `Overflow` is answered with `413 Payload Too Large`, every other
    /// payload error with `400 Bad Request`.
    pub fn status_code(&self) -> (r: u16)
        ensures
            r == self.spec_status(),
    {
        match self {
            PayloadError::Overflow => 413,
            _ => 400,
        }
    }

    pub open spec fn spec_message(&self) -> Seq<char> {
        match self {
            PayloadError::Incomplete(inner) => match inner {
                Some(s) => "A payload reached EOF, but is not complete. Inner error: Some("@ + s@
                    + ")"@,
                None => "A payload reached EOF, but is not complete. Inner error: None"@,
            },
            PayloadError::EncodingCorrupted => "Can not decode content-encoding."@,
            PayloadError::Overflow => "Payload reached size limit."@,
            PayloadError::UnknownLength => "Payload length is unknown."@,
            PayloadError::Io(s) => s@,
        }
    }

    /// The human-readable description of the error.
    pub fn message(&self) -> (r: String)
        ensures
            r@ == self.spec_message(),
    {
        match self {
            PayloadError::Incomplete(inner) => match inner {
                Some(s) => {
                    let mut m = String::from_str(
                        "A payload reached EOF, but is not complete. Inner error: Some(",
                    );
                    m.append(s.as_str());
                    m.append(")");
                    m
                },
                None => String::from_str(
                    "A payload reached EOF, but is not complete. Inner error: None",
                ),
            },
            PayloadError::EncodingCorrupted => String::from_str("Can not decode content-encoding."),
            PayloadError::Overflow => String::from_str("Payload reached size limit."),
            PayloadError::UnknownLength => String::from_str("Payload length is unknown."),
            PayloadError::Io(s) => s.clone(),
        }
    }
}

/// Connection-fatal errors: when one of these is raised the connection task
/// terminates and surfaces it to the server driver.
#[derive(Debug)]
pub enum DispatchError {
    /// The application handler failed in a way that could not be converted
    /// into a response.
    Service,
    /// The upgrade handler failed.
    Upgrade,
    /// An IO failure while reading or writing the transport.
    Io,
    /// The request could not be parsed.
    Parse(ParseError),
    /// The first request did not complete within the slow-request deadline.
    SlowRequestTimeout,
    /// The connection did not drain within the disconnect deadline.
    DisconnectTimeout,
    /// The task completed but the request's payload was not consumed.
    PayloadIsNotConsumed,
    /// Malformed request.
    MalformedRequest,
    /// An internal protocol violation, such as a body chunk arriving with no
    /// channel to carry it.
    InternalError,
    /// An unclassified failure.
    Unknown,
}

/// Errors of parsing a content type.
#[derive(Debug, PartialEq, Eq, Structural, Copy, Clone)]
pub enum ContentTypeError {
    /// The content type cannot be parsed.
    ParseError,
    /// The content encoding is unknown.
    UnknownEncoding,
}

impl ContentTypeError {
    /// A bad content type is the client's fault.
    pub fn status_code(&self) -> (r: u16)
        ensures
            r == 400,
    {
        400
    }
}

/// Errors of reading a path segment out of a request target.
#[derive(Debug, PartialEq, Eq, Structural, Copy, Clone)]
pub enum UriSegmentError {
    /// A segment started with the given forbidden character.
    BadStart(char),
    /// A segment ended with the given forbidden character.
    BadEnd(char),
    /// A segment contained the given forbidden character.
    BadChar(char),
}

impl UriSegmentError {
    pub fn status_code(&self) -> (r: u16)
        ensures
            r == 400,
    {
        400
    }
}

/// Errors of generating a resource URI.
#[derive(Debug, PartialEq, Eq, Structural, Copy, Clone)]
pub enum UrlGenerationError {
    /// Resource not found.
    ResourceNotFound,
    /// Not all path patterns were covered.
    NotEnoughElements,
    /// The URL could not be parsed.
    ParseError,
}

impl UrlGenerationError {
    /// URI generation failures are server-side faults.
    pub fn status_code(&self) -> (r: u16)
        ensures
            r == 500,
    {
        500
    }
}

/// Errors of parsing a urlencoded payload.
#[derive(Debug)]
pub enum UrlencodedError {
    /// Chunked transfer encoding cannot be decoded here.
    Chunked,
    /// The payload is larger than allowed.
    Overflow { size: usize, limit: usize },
    /// The payload size is not known.
    UnknownLength,
    /// The content type is not urlencoded.
    ContentType,
    /// The payload could not be parsed.
    Parse,
    /// Reading the payload failed.
    Payload(PayloadError),
}

impl UrlencodedError {
    pub open spec fn spec_status(&self) -> u16 {
        match self {
            UrlencodedError::Overflow { .. } => 413,
            UrlencodedError::UnknownLength => 411,
            _ => 400,
        }
    }

    /// `Overflow` is `413 Payload Too Large`, a missing length is
    /// `411 Length Required`, everything else is `400 Bad Request`.
    pub fn status_code(&self) -> (r: u16)
        ensures
            r == self.spec_status(),
    {
        match self {
            UrlencodedError::Overflow { .. } => 413,
            UrlencodedError::UnknownLength => 411,
            _ => 400,
        }
    }
}

/// Errors of parsing a JSON payload.
#[derive(Debug)]
pub enum JsonPayloadError {
    /// The payload is bigger than allowed.
    Overflow,
    /// The content type is not JSON.
    ContentType,
    /// The payload could not be deserialized; the text describes why.
    Deserialize(String),
    /// Reading the payload failed.
    Payload(PayloadError),
}

impl JsonPayloadError {
    pub open spec fn spec_status(&self) -> u16 {
        match self {
            JsonPayloadError::Overflow => 413,
            _ => 400,
        }
    }

    pub fn status_code(&self) -> (r: u16)
        ensures
            r == self.spec_status(),
    {
        match self {
            JsonPayloadError::Overflow => 413,
            _ => 400,
        }
    }
}

/// Errors of parsing a request path into typed values.
#[derive(Debug)]
pub enum PathError {
    /// The path could not be deserialized; the text describes why.
    Deserialize(String),
}

impl PathError {
    pub fn status_code(&self) -> (r: u16)
        ensures
            r == 400,
    {
        400
    }
}

/// Errors of parsing a query string.
#[derive(Debug)]
pub enum QueryPayloadError {
    /// The query could not be deserialized; the text describes why.
    Deserialize(String),
}

impl QueryPayloadError {
    pub fn status_code(&self) -> (r: u16)
        ensures
            r == 400,
    {
        400
    }
}

/// Errors of reading a body as lines.
#[derive(Debug)]
pub enum ReadlinesError {
    /// A line could not be decoded.
    EncodingError,
    /// Reading the payload failed.
    Payload(PayloadError),
    /// The line limit was exceeded.
    LimitOverflow,
    /// The content type is unusable.
    ContentTypeError(ContentTypeError),
}

impl ReadlinesError {
    pub open spec fn spec_status(&self) -> u16 {
        match self {
            ReadlinesError::LimitOverflow => 413,
            _ => 400,
        }
    }

    pub fn status_code(&self) -> (r: u16)
        ensures
            r == self.spec_status(),
    {
        match self {
            ReadlinesError::LimitOverflow => 413,
            _ => 400,
        }
    }
}

} // verus!
