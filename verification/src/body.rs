//! Message bodies and the size hint that selects their wire framing.
//!
//! A body owns or borrows byte content, reports a size hint, and hands out
//! its content chunk by chunk. The hint is chosen before any bytes are read
//! and decides the framing of the response on the wire; in-memory bodies
//! yield their whole content as one chunk. Bodies produced by an
//! asynchronous stream are represented by [`BodyStream`] and [`SizedStream`],
//! which carry the stream and the hint; the connection dispatcher receives
//! their chunks as events instead of polling them.

use vstd::prelude::*;
use vstd::string::{StrSliceExecFns, StringSliceAdditionalSpecFns};

use core::marker::PhantomData;

verus! {

/// Body size hint.
#[derive(Debug, PartialEq, Eq, Structural, Copy, Clone)]
pub enum BodySize {
    /// No body at all; not even a zero length is announced.
    NoBody,
    /// A zero-sized body.
    Empty,
    Sized(usize),
    Sized64(u64),
    Stream,
}

impl BodySize {
    /// True exactly when a body with this hint produces no bytes at all.
    pub fn is_eof(&self) -> (r: bool)
        ensures
            r == (self is NoBody || self is Empty || *self == BodySize::Sized(0usize)
                || *self == BodySize::Sized64(0u64)),
    {
        match self {
            BodySize::NoBody | BodySize::Empty => true,
            BodySize::Sized(n) => *n == 0,
            BodySize::Sized64(n) => *n == 0,
            BodySize::Stream => false,
        }
    }
}

/// A type with this trait can be streamed to a peer: it reports a size hint
/// and yields its remaining content as a sequence of chunks.
pub trait MessageBody {
    /// The size hint of this body.
    spec fn size_spec(&self) -> BodySize;

    /// The chunks this body has left to yield.
    spec fn chunks_spec(&self) -> Seq<Seq<u8>>;

    /// Report the size hint.
    fn length(&self) -> (r: BodySize)
        ensures
            r == self.size_spec(),
    ;

    /// Yield the next chunk, or `None` once the content is exhausted.
    fn poll_next(&mut self) -> (r: Option<Vec<u8>>)
        ensures
            match r {
                Some(b) => {
                    &&& old(self).chunks_spec().len() > 0
                    &&& b@ == old(self).chunks_spec()[0]
                    &&& final(self).chunks_spec() == old(self).chunks_spec().skip(1)
                },
                None => {
                    &&& old(self).chunks_spec().len() == 0
                    &&& final(self).chunks_spec() == old(self).chunks_spec()
                },
            },
    ;
}

impl MessageBody for () {
    open spec fn size_spec(&self) -> BodySize {
        BodySize::Empty
    }

    open spec fn chunks_spec(&self) -> Seq<Seq<u8>> {
        Seq::empty()
    }

    fn length(&self) -> (r: BodySize) {
        BodySize::Empty
    }

    fn poll_next(&mut self) -> (r: Option<Vec<u8>>) {
        Option::<Vec<u8>>::None
    }
}

/// The chunk sequence of a byte vector: its whole content at once, or
/// nothing when it is empty.
pub open spec fn vec_chunks(s: Seq<u8>) -> Seq<Seq<u8>> {
    if s.len() == 0 {
        Seq::empty()
    } else {
        seq![s]
    }
}

impl MessageBody for Vec<u8> {
    open spec fn size_spec(&self) -> BodySize {
        BodySize::Sized(self@.len() as usize)
    }

    open spec fn chunks_spec(&self) -> Seq<Seq<u8>> {
        vec_chunks(self@)
    }

    fn length(&self) -> (r: BodySize) {
        BodySize::Sized(self.len())
    }

    fn poll_next(&mut self) -> (r: Option<Vec<u8>>) {
        if self.len() == 0 {
            Option::<Vec<u8>>::None
        } else {
            let mut out: Vec<u8> = Vec::new();
            core::mem::swap(&mut out, self);
            assert(self.chunks_spec() =~= Seq::<Seq<u8>>::empty());
            assert(old(self).chunks_spec() == seq![out@]);
            Some(out)
        }
    }
}

impl MessageBody for String {
    open spec fn size_spec(&self) -> BodySize {
        BodySize::Sized(vstd::utf8::encode_utf8(self@).len() as usize)
    }

    open spec fn chunks_spec(&self) -> Seq<Seq<u8>> {
        vec_chunks(vstd::utf8::encode_utf8(self@))
    }

    fn length(&self) -> (r: BodySize) {
        BodySize::Sized(self.as_str().len())
    }

    fn poll_next(&mut self) -> (r: Option<Vec<u8>>) {
        let out = self.as_str().as_bytes_vec();
        if out.len() == 0 {
            Option::<Vec<u8>>::None
        } else {
            let mut empty = String::new();
            core::mem::swap(&mut empty, self);
            proof {
                assert(self@ == Seq::<char>::empty());
                assert(vstd::utf8::encode_utf8(Seq::<char>::empty()).len() == 0);
                assert(self.chunks_spec() =~= Seq::<Seq<u8>>::empty());
                let content = vstd::utf8::encode_utf8(old(self)@);
                assert(out@ == content);
                assert(old(self).chunks_spec() == seq![content]);
                assert(seq![content][0] == content);
                assert(seq![content].skip(1) =~= Seq::<Seq<u8>>::empty());
                assert(final(self).chunks_spec() == old(self).chunks_spec().skip(1));
            }
            Some(out)
        }
    }
}

/// An in-memory message body.
pub enum Body {
    /// No body; no content-related header is announced.
    NoBody,
    /// A zero-sized body, announced as such.
    Empty,
    /// A specific in-memory body.
    Bytes(Vec<u8>),
}

impl Body {
    /// Copy a byte slice into a body.
    pub fn from_slice(s: &[u8]) -> (r: Body)
        ensures
            r is Bytes && r->Bytes_0@ == s@,
    {
        Body::Bytes(vstd::slice::slice_to_vec(s))
    }

    /// The in-memory content of a `Bytes` body.
    pub fn get_ref(&self) -> (r: &Vec<u8>)
        requires
            self is Bytes,
        ensures
            r@ == self->Bytes_0@,
    {
        match self {
            Body::Bytes(b) => b,
            _ => vstd::pervasive::unreached(),
        }
    }
}

impl MessageBody for Body {
    open spec fn size_spec(&self) -> BodySize {
        match self {
            Body::NoBody => BodySize::NoBody,
            Body::Empty => BodySize::Empty,
            Body::Bytes(b) => BodySize::Sized(b@.len() as usize),
        }
    }

    open spec fn chunks_spec(&self) -> Seq<Seq<u8>> {
        match self {
            Body::NoBody => Seq::empty(),
            Body::Empty => Seq::empty(),
            Body::Bytes(b) => vec_chunks(b@),
        }
    }

    fn length(&self) -> (r: BodySize) {
        match self {
            Body::NoBody => BodySize::NoBody,
            Body::Empty => BodySize::Empty,
            Body::Bytes(b) => BodySize::Sized(b.len()),
        }
    }

    fn poll_next(&mut self) -> (r: Option<Vec<u8>>) {
        match self {
            Body::NoBody => Option::<Vec<u8>>::None,
            Body::Empty => Option::<Vec<u8>>::None,
            Body::Bytes(b) => {
                if b.len() == 0 {
                    Option::<Vec<u8>>::None
                } else {
                    let mut out: Vec<u8> = Vec::new();
                    core::mem::swap(&mut out, b);
                    Some(out)
                }
            },
        }
    }
}

impl PartialEq for Body {
    /// Bodies are equal when they are the same variant with the same bytes.
    fn eq(&self, other: &Body) -> (r: bool) {
        match self {
            Body::NoBody => matches!(other, Body::NoBody),
            Body::Empty => matches!(other, Body::Empty),
            Body::Bytes(a) => match other {
                Body::Bytes(b) => crate::codec::eq_bytes(a.as_slice(), b.as_slice()),
                _ => false,
            },
        }
    }
}

impl vstd::std_specs::cmp::PartialEqSpecImpl for Body {
    open spec fn obeys_eq_spec() -> bool {
        true
    }

    open spec fn eq_spec(&self, other: &Body) -> bool {
        match (self, other) {
            (Body::NoBody, Body::NoBody) => true,
            (Body::Empty, Body::Empty) => true,
            (Body::Bytes(a), Body::Bytes(b)) => a@ == b@,
            _ => false,
        }
    }
}

impl From<&str> for Body {
    /// A string slice becomes an in-memory `Bytes` body holding its bytes.
    fn from(s: &str) -> (r: Body) {
        Body::Bytes(s.as_bytes_vec())
    }
}

impl vstd::std_specs::convert::FromSpecImpl<&str> for Body {
    open spec fn obeys_from_spec() -> bool {
        // No `Bytes` value can be written down here: its field is a vector,
        // of which only the view is determined. The conversions are covered
        // by the test suite instead.
        false
    }

    open spec fn from_spec(s: &str) -> Body {
        Body::NoBody
    }
}

impl From<String> for Body {
    /// A string becomes an in-memory `Bytes` body holding its bytes.
    fn from(s: String) -> (r: Body) {
        Body::Bytes(s.as_str().as_bytes_vec())
    }
}

impl vstd::std_specs::convert::FromSpecImpl<String> for Body {
    open spec fn obeys_from_spec() -> bool {
        false
    }

    open spec fn from_spec(s: String) -> Body {
        Body::NoBody
    }
}

impl From<&[u8]> for Body {
    /// A byte slice becomes an in-memory `Bytes` body holding a copy.
    fn from(s: &[u8]) -> (r: Body) {
        Body::Bytes(vstd::slice::slice_to_vec(s))
    }
}

impl vstd::std_specs::convert::FromSpecImpl<&[u8]> for Body {
    open spec fn obeys_from_spec() -> bool {
        false
    }

    open spec fn from_spec(s: &[u8]) -> Body {
        Body::NoBody
    }
}

impl From<&String> for Body {
    /// A borrowed string becomes an in-memory `Bytes` body holding its bytes.
    fn from(s: &String) -> (r: Body) {
        Body::Bytes(s.as_str().as_bytes_vec())
    }
}

impl vstd::std_specs::convert::FromSpecImpl<&String> for Body {
    open spec fn obeys_from_spec() -> bool {
        false
    }

    open spec fn from_spec(s: &String) -> Body {
        Body::NoBody
    }
}

impl From<Vec<u8>> for Body {
    /// A byte vector becomes an in-memory `Bytes` body owning it.
    fn from(v: Vec<u8>) -> (r: Body) {
        Body::Bytes(v)
    }
}

impl vstd::std_specs::convert::FromSpecImpl<Vec<u8>> for Body {
    open spec fn obeys_from_spec() -> bool {
        true
    }

    open spec fn from_spec(v: Vec<u8>) -> Body {
        Body::Bytes(v)
    }
}

/// A response body: either the handler's own body type, or one of the
/// in-memory bodies this crate provides.
pub enum ResponseBody<B> {
    Body(B),
    Other(Body),
}

impl ResponseBody<Body> {
    /// Erase the distinction between the two in-memory cases.
    pub fn into_body<B>(self) -> (r: ResponseBody<B>)
        ensures
            match self {
                ResponseBody::Body(b) => r == ResponseBody::<B>::Other(b),
                ResponseBody::Other(b) => r == ResponseBody::<B>::Other(b),
            },
    {
        match self {
            ResponseBody::Body(b) => ResponseBody::Other(b),
            ResponseBody::Other(b) => ResponseBody::Other(b),
        }
    }
}

impl<B> ResponseBody<B> {
    /// Take the body out, leaving a `NoBody` placeholder behind.
    pub fn take_body(&mut self) -> (r: ResponseBody<B>)
        ensures
            r == *old(self),
            *final(self) == ResponseBody::<B>::Other(Body::NoBody),
    {
        let mut out: ResponseBody<B> = ResponseBody::Other(Body::NoBody);
        core::mem::swap(&mut out, self);
        out
    }
}

impl<B: MessageBody> ResponseBody<B> {
    /// A reference to the handler's own body, when this is one.
    pub fn as_ref(&self) -> (r: Option<&B>)
        ensures
            match r {
                Some(b) => *self == ResponseBody::<B>::Body(*b),
                None => self is Other,
            },
    {
        if let ResponseBody::Body(ref b) = self {
            Some(b)
        } else {
            Option::<&B>::None
        }
    }
}

impl<B: MessageBody> MessageBody for ResponseBody<B> {
    open spec fn size_spec(&self) -> BodySize {
        match self {
            ResponseBody::Body(b) => b.size_spec(),
            ResponseBody::Other(b) => b.size_spec(),
        }
    }

    open spec fn chunks_spec(&self) -> Seq<Seq<u8>> {
        match self {
            ResponseBody::Body(b) => b.chunks_spec(),
            ResponseBody::Other(b) => b.chunks_spec(),
        }
    }

    fn length(&self) -> (r: BodySize) {
        match self {
            ResponseBody::Body(b) => b.length(),
            ResponseBody::Other(b) => b.length(),
        }
    }

    fn poll_next(&mut self) -> (r: Option<Vec<u8>>) {
        match self {
            ResponseBody::Body(b) => b.poll_next(),
            ResponseBody::Other(b) => b.poll_next(),
        }
    }
}

/// A streaming body whose total size is unknown: the response uses chunked
/// transfer coding. The stream itself is driven by the caller; the codec and
/// dispatcher see its chunks as events.
pub struct BodyStream<S, E> {
    stream: S,
    _t: PhantomData<E>,
}

impl<S, E> BodyStream<S, E> {
    pub fn new(stream: S) -> (r: BodyStream<S, E>) {
        BodyStream { stream, _t: PhantomData }
    }

    /// A streaming body of unknown size is framed as a stream.
    pub fn length(&self) -> (r: BodySize)
        ensures
            r == BodySize::Stream,
    {
        BodySize::Stream
    }

    /// Hand the underlying stream back to its driver.
    pub fn into_inner(self) -> S {
        self.stream
    }
}

/// A streaming body whose total size is known in advance: the data is sent
/// as it is, with an exact content length and no transfer coding.
pub struct SizedStream<S> {
    size: usize,
    stream: S,
}

impl<S> SizedStream<S> {
    pub fn new(size: usize, stream: S) -> (r: SizedStream<S>)
        ensures
            r.size_spec() == size as nat,
    {
        SizedStream { size, stream }
    }

    pub closed spec fn size_spec(&self) -> nat {
        self.size as nat
    }

    /// A sized streaming body is framed by its exact length.
    pub fn length(&self) -> (r: BodySize)
        ensures
            r == BodySize::Sized(self.size_spec() as usize),
    {
        BodySize::Sized(self.size)
    }

    /// Hand the underlying stream back to its driver.
    pub fn into_inner(self) -> S {
        self.stream
    }
}

} // verus!
