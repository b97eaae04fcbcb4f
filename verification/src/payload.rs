//! Payload channel: the handoff structure carrying inbound request-body
//! bytes from the connection dispatcher to the handler's body reader, with
//! backpressure.
//!
//! The producer feeds chunks and a terminal marker (end of file or an
//! error); the consumer polls for the next chunk and reports its readiness.
//! A consumer reporting `Pause` tells the producer to stop draining the
//! socket even if more bytes are available.

use vstd::prelude::*;

use crate::error::PayloadError;

verus! {

/// The consumer's readiness signal.
#[derive(Debug, PartialEq, Eq, Structural, Copy, Clone)]
pub enum PayloadStatus {
    /// The consumer wants more data.
    Read,
    /// The consumer is saturated; the producer must stop reading.
    Pause,
}

/// What the consumer sees when it polls the channel.
pub enum ChunkPoll {
    /// The next body chunk, in arrival order.
    Data(Vec<u8>),
    /// The body completed.
    Eof,
    /// The body failed; the error is handed over exactly once.
    Failed(PayloadError),
    /// Nothing yet: the producer has not caught up.
    Pending,
}

/// The mathematical content of a payload channel.
pub ghost struct ChannelView {
    pub chunks: Seq<Seq<u8>>,
    pub eof: bool,
    pub err: Option<PayloadError>,
    pub need: PayloadStatus,
}

/// Single-producer / single-consumer channel for one request body: buffered
/// chunks in arrival order, a terminal end-of-file flag or error, and the
/// consumer's readiness signal.
pub struct PayloadChannel {
    chunks: Vec<Vec<u8>>,
    eof: bool,
    err: Option<PayloadError>,
    need: PayloadStatus,
}

impl View for PayloadChannel {
    type V = ChannelView;

    closed spec fn view(&self) -> ChannelView {
        ChannelView {
            chunks: self.chunks@.map_values(|c: Vec<u8>| c@),
            eof: self.eof,
            err: self.err,
            need: self.need,
        }
    }
}

impl PayloadChannel {
    /// A fresh channel: empty, open, and ready to read.
    pub fn new() -> (r: PayloadChannel)
        ensures
            r@.chunks == Seq::<Seq<u8>>::empty(),
            !r@.eof,
            r@.err is None,
            r@.need == PayloadStatus::Read,
    {
        let r = PayloadChannel { chunks: Vec::new(), eof: false, err: None, need: PayloadStatus::Read };
        proof {
            assert(r@.chunks =~= Seq::<Seq<u8>>::empty());
        }
        r
    }

    /// Producer: append one body chunk.
    pub fn feed_data(&mut self, data: Vec<u8>)
        ensures
            final(self)@.chunks == old(self)@.chunks.push(data@),
            final(self)@.eof == old(self)@.eof,
            final(self)@.err == old(self)@.err,
            final(self)@.need == old(self)@.need,
    {
        let ghost pre = self@.chunks;
        let ghost dv = data@;
        self.chunks.push(data);
        proof {
            assert(self@.chunks =~= pre.push(dv));
        }
    }

    /// Producer: mark the body complete.
    pub fn feed_eof(&mut self)
        ensures
            final(self)@ == (ChannelView { eof: true, ..old(self)@ }),
    {
        self.eof = true;
    }

    /// Producer: mark the body failed.
    pub fn set_error(&mut self, e: PayloadError)
        ensures
            final(self)@ == (ChannelView { err: Some(e), ..old(self)@ }),
    {
        self.err = Some(e);
    }

    /// Whether the channel already carries a terminal marker: such a channel
    /// can accept no further body.
    pub fn finished(&self) -> (r: bool)
        ensures
            r == (self@.eof || self@.err is Some),
    {
        self.eof || self.err.is_some()
    }

    /// The consumer's current readiness signal, as the producer sees it.
    pub fn need_read(&self) -> (r: PayloadStatus)
        ensures
            r == self@.need,
    {
        self.need
    }

    /// Consumer: report readiness. `Pause` stops the producer from draining
    /// the socket; `Read` lets it resume.
    pub fn signal(&mut self, status: PayloadStatus)
        ensures
            final(self)@ == (ChannelView { need: status, ..old(self)@ }),
    {
        self.need = status;
    }

    /// Consumer: take the next chunk. Buffered data comes first, in arrival
    /// order; then a terminal error (handed over once) or the end of file;
    /// an open, empty channel is pending.
    pub fn poll_chunk(&mut self) -> (r: ChunkPoll)
        ensures
            final(self)@.need == old(self)@.need,
            final(self)@.eof == old(self)@.eof,
            match r {
                ChunkPoll::Data(d) => {
                    &&& old(self)@.chunks.len() > 0
                    &&& d@ == old(self)@.chunks[0]
                    &&& final(self)@.chunks == old(self)@.chunks.skip(1)
                    &&& final(self)@.err == old(self)@.err
                },
                ChunkPoll::Failed(e) => {
                    &&& old(self)@.chunks.len() == 0
                    &&& old(self)@.err == Some(e)
                    &&& final(self)@.err is None
                    &&& final(self)@.chunks == old(self)@.chunks
                },
                ChunkPoll::Eof => {
                    &&& old(self)@.chunks.len() == 0
                    &&& old(self)@.err is None
                    &&& old(self)@.eof
                    &&& *final(self) == *old(self)
                },
                ChunkPoll::Pending => {
                    &&& old(self)@.chunks.len() == 0
                    &&& old(self)@.err is None
                    &&& !old(self)@.eof
                    &&& *final(self) == *old(self)
                },
            },
    {
        if self.chunks.len() > 0 {
            let ghost pre = self@.chunks;
            let d = self.chunks.remove(0);
            proof {
                assert(self@.chunks =~= pre.skip(1));
            }
            return ChunkPoll::Data(d);
        }
        let e = self.err.take();
        match e {
            Some(err) => ChunkPoll::Failed(err),
            None => {
                if self.eof {
                    ChunkPoll::Eof
                } else {
                    ChunkPoll::Pending
                }
            },
        }
    }
}

} // verus!
