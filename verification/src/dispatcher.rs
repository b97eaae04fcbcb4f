//! Per-connection dispatcher: the state machine that turns the raw byte
//! stream of one connection into parsed requests, hands them to an external
//! handler, and serializes the responses back, under pipelining,
//! backpressure, keep-alive and slow-request timers.
//!
//! The dispatcher never performs IO itself. Its driver (the task running the
//! connection) feeds it bytes read from the transport, forwards the actions
//! it asks for (call the expect handler, call the service, poll the response
//! body), reports their outcomes as events, writes out the write buffer, and
//! reports timer expiry with the current time. Every decision between those
//! events is made, and verified, here.

use vstd::prelude::*;

use crate::body::{Body, BodySize, MessageBody};
use crate::codec::{
    encoded_head, head_expect_continue, head_keep_alive, headers_view, mode_for, mtype_after_head,
    Codec, DecodeOut, DecodeState, EncodeMode, HeadView, Message, MessageType, MsgView,
    RequestHead, ResponseHead, decode_spec, chunk_frame, eof_frame,
};
use crate::error::{DispatchError, ParseError, PayloadError};
use crate::payload::{ChannelView, ChunkPoll, PayloadChannel, PayloadStatus};
use crate::wire::{all_tchars, all_value_bytes, ascii_bytes, lit_bytes};

verus! {

/// Write buffering low-water mark.
pub const LW_BUFFER_SIZE: usize = 4096;

/// Write buffering high-water mark: response-body streaming pauses while
/// the write buffer holds at least this much.
pub const HW_BUFFER_SIZE: usize = 32768;

/// Cap of the pending-message queue: decoding stops admitting new messages
/// while this many are queued, bounding memory under a pipelining flood.
pub const MAX_PIPELINED_MESSAGES: usize = 16;

/// The dispatcher's flag set: independent booleans describing the
/// connection's lifecycle.
#[derive(Debug, PartialEq, Eq, Structural, Copy, Clone)]
pub struct Flags {
    /// The first request line was decoded.
    pub started: bool,
    /// The connection may be reused after the current exchange.
    pub keepalive: bool,
    /// The connection was handed to a driver at least once.
    pub polled: bool,
    /// The connection is draining before close: no new requests are
    /// dispatched.
    pub shutdown: bool,
    /// The read side is gone or no longer trusted.
    pub read_disconnect: bool,
    /// The connection terminates as soon as the buffers drain.
    pub write_disconnect: bool,
    /// The connection is being dropped.
    pub dropping: bool,
}

/// Connection configuration.
#[derive(Debug, PartialEq, Eq, Structural, Copy, Clone)]
pub struct Config {
    /// Keep-alive deadline policy: how long an idle connection may wait for
    /// its next request. `None` disables reuse.
    pub keep_alive: Option<u64>,
    /// How long a draining connection may take to shut down.
    pub client_disconnect: Option<u64>,
}

/// One entry of the pending-message queue: a parsed request awaiting
/// handling, or a precomputed error response to be written without invoking
/// the handler. The queue's order is the response order.
pub enum DispatcherMessage {
    Item(RequestHead),
    Error(u16),
}

/// The mathematical content of a queue entry. An error entry is determined
/// by its status: such responses carry no headers of their own and leave the
/// keep-alive decision alone.
pub ghost enum QMsg {
    ItemV(HeadView),
    ErrorV(u16),
}

impl View for DispatcherMessage {
    type V = QMsg;

    open spec fn view(&self) -> QMsg {
        match self {
            DispatcherMessage::Item(h) => QMsg::ItemV(h@),
            DispatcherMessage::Error(status) => QMsg::ErrorV(*status),
        }
    }
}

/// What the connection is in the middle of. Exactly one is active at a
/// time.
#[derive(Debug, PartialEq, Eq, Structural, Copy, Clone)]
pub enum State {
    /// Nothing in flight.
    Idle,
    /// The expect handler was invoked and has not completed.
    AwaitingExpectHandler,
    /// The service handler was invoked and has not completed.
    AwaitingServiceHandler,
    /// A response head was written and its body is streaming.
    StreamingResponseBody,
}

/// What the driver must do next.
pub enum Action {
    /// Nothing to dispatch: wait for IO, events or timers.
    Wait,
    /// Invoke the expect handler with this request, then report the outcome
    /// through `on_expect_done`.
    CallExpect(RequestHead),
    /// Invoke the service with this request, then report the outcome
    /// through `on_service_done`.
    CallService(RequestHead),
}

/// A response body as the service hands it over: either one of this crate's
/// in-memory bodies, sent in full at once, or a streaming body of which only
/// the size hint is known up front; its chunks arrive as `on_body_chunk`
/// events.
pub enum OutBody {
    Full(Body),
    Streaming(BodySize),
}

/// How a turn of the connection ends.
pub enum TurnEnd {
    /// Not done: wait for the next readiness event.
    Pending,
    /// The connection is finished; drop the transport.
    Done,
    /// Drained and draining: shut the transport's write half down, and
    /// report `Done` when that completes.
    DoShutdown,
    /// The connection failed; surface this error to the server driver.
    Failed(DispatchError),
}

/// One HTTP/1.x connection: buffers, codec, the pending-message queue, the
/// inbound payload channel, flags, a deferred fatal error, and the
/// keep-alive timer state.
pub struct Connection {
    pub flags: Flags,
    /// A deferred fatal error, surfaced once the connection drains.
    pub error: Option<DispatchError>,
    pub state: State,
    /// The channel carrying the body of the most recent inbound request.
    pub payload: Option<PayloadChannel>,
    /// Pending messages, oldest first.
    pub messages: Vec<DispatcherMessage>,
    pub read_buf: Vec<u8>,
    pub write_buf: Vec<u8>,
    pub codec: Codec,
    /// The instant the keep-alive deadline refers to.
    pub ka_expire: u64,
    /// The armed timer's deadline, if a timer is armed.
    pub ka_timer: Option<u64>,
    pub config: Config,
}

// ------------------------------------------------------------------
// The decode/queue phase and its model
// ------------------------------------------------------------------
/// The slice of a connection that the decode/queue phase reads and writes.
pub ghost struct ReqModel {
    pub codec: Codec,
    pub buf: Seq<u8>,
    pub msgs: Seq<QMsg>,
    pub payload: Option<ChannelView>,
    pub started: bool,
    pub read_disconnect: bool,
    pub write_disconnect: bool,
    pub error: Option<DispatchError>,
    pub updated: bool,
}

pub open spec fn msgs_view(msgs: Seq<DispatcherMessage>) -> Seq<QMsg> {
    msgs.map_values(|m: DispatcherMessage| m@)
}

/// The decode/queue slice of a connection.
pub open spec fn req_model(c: Connection, updated: bool) -> ReqModel {
    ReqModel {
        codec: c.codec,
        buf: c.read_buf@,
        msgs: msgs_view(c.messages@),
        payload: match c.payload {
            Some(p) => Some(p@),
            None => Option::<ChannelView>::None,
        },
        started: c.flags.started,
        read_disconnect: c.flags.read_disconnect,
        write_disconnect: c.flags.write_disconnect,
        error: c.error,
        updated: updated,
    }
}

/// Whether the connection may read more: not after a read disconnect, and
/// not while the payload consumer reports `Pause`.
pub open spec fn model_can_read(m: ReqModel) -> bool {
    &&& !m.read_disconnect
    &&& match m.payload {
        Some(p) => p.need == PayloadStatus::Read,
        None => true,
    }
}

pub open spec fn fresh_channel() -> ChannelView {
    ChannelView {
        chunks: Seq::empty(),
        eof: false,
        err: Option::<PayloadError>::None,
        need: PayloadStatus::Read,
    }
}

/// Progress rank of a decoder state, for termination: leaving a
/// fully-consumed length-delimited body consumes no bytes.
pub open spec fn state_rank(st: DecodeState) -> int {
    match st {
        DecodeState::FixedBody(rem) => if rem == 0 {
            1int
        } else {
            0int
        },
        _ => 0int,
    }
}

/// The decode/queue phase: while the queue has room and reading is allowed,
/// decode one message and route it. A head is queued (a fresh payload
/// channel put in place when it declares a body); a body chunk feeds the
/// active channel, the end of a body completes it; a chunk without an active
/// channel is an internal protocol violation answered with a `500` entry; a
/// parse failure of IO class disconnects both sides, any other queues a
/// `400` entry and stops reading; either records the fatal error.
#[verifier::opaque]
pub open spec fn drain_model(m: ReqModel) -> ReqModel
    decreases m.buf.len(), state_rank(m.codec.state)
        via drain_model_dec
{
    if m.msgs.len() >= MAX_PIPELINED_MESSAGES || !model_can_read(m) {
        m
    } else {
        match decode_spec(m.codec.state, m.buf) {
            DecodeOut::Progress(msg, st, n) => {
                let c2 = Codec { state: st, ..m.codec };
                match msg {
                    Option::<MsgView>::None => ReqModel {
                        codec: c2,
                        buf: m.buf.skip(n),
                        ..m
                    },
                    Some(MsgView::Head(hv)) => {
                        let c3 = Codec {
                            state: st,
                            message_type: mtype_after_head(hv),
                            keepalive: m.codec.keep_alive_enabled && head_keep_alive(
                                hv.headers,
                                hv.version,
                            ),
                            version: hv.version,
                            ..m.codec
                        };
                        drain_model(
                            ReqModel {
                                codec: c3,
                                buf: m.buf.skip(n),
                                msgs: m.msgs.push(QMsg::ItemV(hv)),
                                payload: if mtype_after_head(hv) is NoPayload {
                                    m.payload
                                } else {
                                    Some(fresh_channel())
                                },
                                started: true,
                                updated: true,
                                ..m
                            },
                        )
                    },
                    Some(MsgView::Chunk(b)) => match m.payload {
                        Some(p) => drain_model(
                            ReqModel {
                                codec: c2,
                                buf: m.buf.skip(n),
                                payload: Some(ChannelView { chunks: p.chunks.push(b), ..p }),
                                started: true,
                                updated: true,
                                ..m
                            },
                        ),
                        None => ReqModel {
                            codec: c2,
                            buf: m.buf.skip(n),
                            msgs: m.msgs.push(QMsg::ErrorV(500)),
                            started: true,
                            read_disconnect: true,
                            error: Some(DispatchError::InternalError),
                            updated: true,
                            ..m
                        },
                    },
                    Some(MsgView::Eof) => match m.payload {
                        Some(p) => drain_model(
                            ReqModel {
                                codec: c2,
                                buf: m.buf.skip(n),
                                payload: Some(ChannelView { eof: true, ..p }),
                                started: true,
                                updated: true,
                                ..m
                            },
                        ),
                        None => ReqModel {
                            codec: c2,
                            buf: m.buf.skip(n),
                            msgs: m.msgs.push(QMsg::ErrorV(500)),
                            started: true,
                            read_disconnect: true,
                            error: Some(DispatchError::InternalError),
                            updated: true,
                            ..m
                        },
                    },
                }
            },
            DecodeOut::Bad(e) => {
                if e is Io {
                    ReqModel {
                        read_disconnect: true,
                        write_disconnect: true,
                        payload: match m.payload {
                            Some(p) => Some(
                                ChannelView {
                                    err: Some(
                                        PayloadError::Incomplete(Option::<String>::None),
                                    ),
                                    ..p
                                },
                            ),
                            None => Option::<ChannelView>::None,
                        },
                        error: Some(DispatchError::Io),
                        ..m
                    }
                } else {
                    ReqModel {
                        payload: match m.payload {
                            Some(p) => Some(
                                ChannelView { err: Some(PayloadError::EncodingCorrupted), ..p },
                            ),
                            None => Option::<ChannelView>::None,
                        },
                        msgs: m.msgs.push(QMsg::ErrorV(400)),
                        read_disconnect: true,
                        error: Some(DispatchError::Parse(e)),
                        ..m
                    }
                }
            },
        }
    }
}

#[via_fn]
proof fn drain_model_dec(m: ReqModel) {
    crate::codec::lemma_decode_bounds(m.codec.state, m.buf);
}

impl Connection {
    /// A fresh connection. The timer starts as the slow-request deadline
    /// when one is given, else as the keep-alive deadline when keep-alive is
    /// enabled; `now` anchors the deadlines.
    pub fn new(config: Config, now: u64, slow_request_deadline: Option<u64>) -> (r: Connection)
        ensures
            r.flags == (Flags {
                started: false,
                keepalive: config.keep_alive is Some,
                polled: false,
                shutdown: false,
                read_disconnect: false,
                write_disconnect: false,
                dropping: false,
            }),
            r.error is None,
            r.state == State::Idle,
            r.payload is None,
            msgs_view(r.messages@) == Seq::<QMsg>::empty(),
            r.read_buf@ == Seq::<u8>::empty(),
            r.write_buf@ == Seq::<u8>::empty(),
            r.codec == crate::codec::spec_new_codec(config.keep_alive is Some),
            r.config == config,
            match slow_request_deadline {
                Some(d) => r.ka_timer == Some(d) && r.ka_expire == d,
                None => match config.keep_alive {
                    Some(ka) => r.ka_timer == Some(sat_add_spec(now, ka)) && r.ka_expire
                        == sat_add_spec(now, ka),
                    None => r.ka_timer is None && r.ka_expire == now,
                },
            },
    {
        let keep_alive_enabled = config.keep_alive.is_some();
        let (ka_expire, ka_timer): (u64, Option<u64>) = match slow_request_deadline {
            Some(d) => (d, Some(d)),
            None => match config.keep_alive {
                Some(ka) => {
                    let d = sat_add(now, ka);
                    (d, Some(d))
                },
                None => (now, Option::<u64>::None),
            },
        };
        let r = Connection {
            flags: Flags {
                started: false,
                keepalive: keep_alive_enabled,
                polled: false,
                shutdown: false,
                read_disconnect: false,
                write_disconnect: false,
                dropping: false,
            },
            error: None,
            state: State::Idle,
            payload: None,
            messages: Vec::new(),
            read_buf: Vec::new(),
            write_buf: Vec::new(),
            codec: Codec::new(keep_alive_enabled),
            ka_expire,
            ka_timer,
            config,
        };
        proof {
            assert(msgs_view(r.messages@) =~= Seq::<QMsg>::empty());
        }
        r
    }

    /// Whether the connection may read more from the transport: not after a
    /// read disconnect, and not while the payload consumer reports `Pause`
    /// -- even if more bytes are available on the socket.
    pub fn can_read(&self) -> (r: bool)
        ensures
            r == model_can_read(req_model(*self, false)),
    {
        if self.flags.read_disconnect {
            return false;
        }
        match &self.payload {
            Some(p) => match p.need_read() {
                PayloadStatus::Read => true,
                PayloadStatus::Pause => false,
            },
            None => true,
        }
    }

    /// The client is gone: stop both directions and fail the pending body.
    pub fn client_disconnected(&mut self)
        ensures
            final(self).flags == (Flags {
                read_disconnect: true,
                write_disconnect: true,
                ..old(self).flags
            }),
            match old(self).payload {
                Some(p) => final(self).payload matches Some(q) && q@ == (ChannelView {
                    err: Some(PayloadError::Incomplete(Option::<String>::None)),
                    ..p@
                }),
                None => final(self).payload is None,
            },
            final(self).error == old(self).error,
            final(self).state == old(self).state,
            final(self).messages@ == old(self).messages@,
            final(self).read_buf@ == old(self).read_buf@,
            final(self).write_buf@ == old(self).write_buf@,
            final(self).codec == old(self).codec,
            final(self).ka_expire == old(self).ka_expire,
            final(self).ka_timer == old(self).ka_timer,
            final(self).config == old(self).config,
    {
        self.flags.read_disconnect = true;
        self.flags.write_disconnect = true;
        match &mut self.payload {
            Some(p) => p.set_error(PayloadError::Incomplete(None)),
            None => {},
        }
    }
}

/// Saturating addition of deadlines.
pub open spec fn sat_add_spec(a: u64, b: u64) -> u64 {
    if a + b > u64::MAX {
        u64::MAX
    } else {
        (a + b) as u64
    }
}

pub fn sat_add(a: u64, b: u64) -> (r: u64)
    ensures
        r == sat_add_spec(a, b),
{
    if a > u64::MAX - b {
        u64::MAX
    } else {
        a + b
    }
}

} // verus!

verus! {

impl Connection {
    /// One iteration of the decode/queue phase: check capacity and
    /// backpressure, decode one message, route it. Returns the new
    /// `updated` flag and whether the phase goes on.
    #[verifier::rlimit(100)]
    #[verifier::spinoff_prover]
    fn drain_step(&mut self, updated: bool) -> (r: (bool, bool))
        ensures
            r.1 ==> drain_model(req_model(*old(self), updated)) == drain_model(
                req_model(*final(self), r.0),
            ),
            !r.1 ==> req_model(*final(self), r.0) == drain_model(req_model(*old(self), updated)),
            r.1 ==> (final(self).read_buf@.len() < old(self).read_buf@.len()
                || (final(self).read_buf@.len() == old(self).read_buf@.len()
                    && state_rank(final(self).codec.state) < state_rank(old(self).codec.state))),
            final(self).write_buf@ == old(self).write_buf@,
            final(self).state == old(self).state,
            final(self).ka_expire == old(self).ka_expire,
            final(self).ka_timer == old(self).ka_timer,
            final(self).config == old(self).config,
            final(self).flags.keepalive == old(self).flags.keepalive,
            final(self).flags.shutdown == old(self).flags.shutdown,
            final(self).flags.polled == old(self).flags.polled,
            final(self).flags.dropping == old(self).flags.dropping,
    {
        let ghost m_pre = req_model(*self, updated);
        if self.messages.len() >= MAX_PIPELINED_MESSAGES {
            proof {
                lemma_drain_stop(m_pre);
            }
            return (updated, false);
        }
        if !self.can_read() {
            proof {
                lemma_drain_stop(m_pre);
            }
            return (updated, false);
        }
        proof {
            crate::codec::lemma_decode_bounds(self.codec.state, self.read_buf@);
        }
        match self.codec.decode(&mut self.read_buf) {
            Ok(None) => {
                proof {
                    let out = decode_spec(m_pre.codec.state, m_pre.buf);
                    lemma_drain_none(m_pre, out->Progress_1, out->Progress_2);
                    assert(req_model(*self, updated) == drain_model(m_pre));
                }
                (updated, false)
            },
            Ok(Some(Message::Item(h))) => {
                self.flags.started = true;
                let mt = self.codec.message_type();
                match mt {
                    MessageType::NoPayload => {},
                    _ => {
                        let fresh = PayloadChannel::new();
                        proof {
                            assert(fresh@ == fresh_channel());
                        }
                        self.payload = Some(fresh);
                    },
                }
                let ghost msgs_pre = msgs_view(self.messages@);
                let ghost hv = h@;
                self.messages.push(DispatcherMessage::Item(h));
                proof {
                    assert(msgs_view(self.messages@) =~= msgs_pre.push(QMsg::ItemV(hv)));
                    let out = decode_spec(m_pre.codec.state, m_pre.buf);
                    lemma_drain_head(m_pre, hv, out->Progress_1, out->Progress_2);
                    assert(drain_model(m_pre) == drain_model(req_model(*self, true)));
                }
                (true, true)
            },
            Ok(Some(Message::Chunk(Some(data)))) => {
                self.flags.started = true;
                let ghost b = data@;
                let mut violation = false;
                match &mut self.payload {
                    Some(p) => {
                        p.feed_data(data);
                    },
                    None => {
                        violation = true;
                    },
                }
                if violation {
                    let ghost msgs_pre = msgs_view(self.messages@);
                    self.messages.push(DispatcherMessage::Error(500));
                    self.flags.read_disconnect = true;
                    self.error = Some(DispatchError::InternalError);
                    proof {
                        assert(msgs_view(self.messages@) =~= msgs_pre.push(QMsg::ErrorV(500)));
                        let out = decode_spec(m_pre.codec.state, m_pre.buf);
                        lemma_drain_chunk(m_pre, b, out->Progress_1, out->Progress_2);
                        assert(req_model(*self, true) == drain_model(m_pre));
                    }
                    return (true, false);
                }
                proof {
                    let out = decode_spec(m_pre.codec.state, m_pre.buf);
                    lemma_drain_chunk(m_pre, b, out->Progress_1, out->Progress_2);
                    assert(drain_model(m_pre) == drain_model(req_model(*self, true)));
                }
                (true, true)
            },
            Ok(Some(Message::Chunk(None))) => {
                self.flags.started = true;
                let mut violation = false;
                match &mut self.payload {
                    Some(p) => {
                        p.feed_eof();
                    },
                    None => {
                        violation = true;
                    },
                }
                if violation {
                    let ghost msgs_pre = msgs_view(self.messages@);
                    self.messages.push(DispatcherMessage::Error(500));
                    self.flags.read_disconnect = true;
                    self.error = Some(DispatchError::InternalError);
                    proof {
                        assert(msgs_view(self.messages@) =~= msgs_pre.push(QMsg::ErrorV(500)));
                        let out = decode_spec(m_pre.codec.state, m_pre.buf);
                        lemma_drain_eof(m_pre, out->Progress_1, out->Progress_2);
                        assert(req_model(*self, true) == drain_model(m_pre));
                    }
                    return (true, false);
                }
                proof {
                    let out = decode_spec(m_pre.codec.state, m_pre.buf);
                    lemma_drain_eof(m_pre, out->Progress_1, out->Progress_2);
                    assert(drain_model(m_pre) == drain_model(req_model(*self, true)));
                }
                (true, true)
            },
            Err(e) => {
                match e {
                    ParseError::Io => {
                        self.client_disconnected();
                        self.error = Some(DispatchError::Io);
                        proof {
                            lemma_drain_bad(m_pre, ParseError::Io);
                            assert(req_model(*self, updated) == drain_model(m_pre));
                        }
                        (updated, false)
                    },
                    _ => {
                        match &mut self.payload {
                            Some(p) => {
                                p.set_error(PayloadError::EncodingCorrupted);
                            },
                            None => {},
                        }
                        let ghost msgs_pre = msgs_view(self.messages@);
                        self.messages.push(DispatcherMessage::Error(400));
                        self.flags.read_disconnect = true;
                        self.error = Some(DispatchError::Parse(e));
                        proof {
                            assert(msgs_view(self.messages@) =~= msgs_pre.push(QMsg::ErrorV(400)));
                            lemma_drain_bad(m_pre, e);
                            assert(req_model(*self, updated) == drain_model(m_pre));
                        }
                        (updated, false)
                    },
                }
            },
        }
    }

    /// The decode/queue phase proper; `poll_request` adds the keep-alive
    /// refresh. Returns whether any message was decoded.
    fn drain_loop(&mut self) -> (updated: bool)
        ensures
            req_model(*final(self), updated) == drain_model(req_model(*old(self), false)),
            final(self).write_buf@ == old(self).write_buf@,
            final(self).state == old(self).state,
            final(self).ka_expire == old(self).ka_expire,
            final(self).ka_timer == old(self).ka_timer,
            final(self).config == old(self).config,
            final(self).flags.keepalive == old(self).flags.keepalive,
            final(self).flags.shutdown == old(self).flags.shutdown,
            final(self).flags.polled == old(self).flags.polled,
            final(self).flags.dropping == old(self).flags.dropping,
    {
        let mut updated = false;
        loop
            invariant
                drain_model(req_model(*old(self), false)) == drain_model(
                    req_model(*self, updated),
                ),
                self.write_buf@ == old(self).write_buf@,
                self.state == old(self).state,
                self.ka_expire == old(self).ka_expire,
                self.ka_timer == old(self).ka_timer,
                self.config == old(self).config,
                self.flags.keepalive == old(self).flags.keepalive,
                self.flags.shutdown == old(self).flags.shutdown,
                self.flags.polled == old(self).flags.polled,
                self.flags.dropping == old(self).flags.dropping,
            decreases self.read_buf@.len(), state_rank(self.codec.state),
        {
            let step = self.drain_step(updated);
            updated = step.0;
            if !step.1 {
                return updated;
            }
        }
    }

    /// The decode/queue phase (`poll_request`): decode as many messages as
    /// capacity and backpressure allow, route each, and refresh the
    /// keep-alive deadline when anything was decoded.
    pub fn poll_request(&mut self, now: u64) -> (updated: bool)
        ensures
            req_model(*final(self), updated) == drain_model(req_model(*old(self), false)),
            final(self).write_buf@ == old(self).write_buf@,
            final(self).state == old(self).state,
            final(self).ka_timer == old(self).ka_timer,
            final(self).config == old(self).config,
            final(self).flags.keepalive == old(self).flags.keepalive,
            final(self).flags.shutdown == old(self).flags.shutdown,
            final(self).flags.polled == old(self).flags.polled,
            final(self).flags.dropping == old(self).flags.dropping,
            final(self).ka_expire == (if updated && old(self).ka_timer is Some && old(
                self,
            ).config.keep_alive is Some {
                sat_add_spec(now, old(self).config.keep_alive->0)
            } else {
                old(self).ka_expire
            }),
    {
        let updated = self.drain_loop();
        if updated && self.ka_timer.is_some() {
            match self.config.keep_alive {
                Some(ka) => {
                    self.ka_expire = sat_add(now, ka);
                },
                None => {},
            }
        }
        updated
    }
}

/// A response head carrying nothing but a status: what the dispatcher sends
/// for its own error answers.
pub fn error_head(status: u16) -> (r: ResponseHead)
    ensures
        r.status == status,
        headers_view(r.headers@) == Seq::<(Seq<u8>, Seq<u8>)>::empty(),
        !r.close,
{
    let r = ResponseHead { status, headers: Vec::new(), close: false };
    proof {
        assert(headers_view(r.headers@) =~= Seq::<(Seq<u8>, Seq<u8>)>::empty());
    }
    r
}

} // verus!

verus! {

/// A full queue or a paused reader stops the decode/queue phase.
proof fn lemma_drain_stop(m: ReqModel)
    requires
        m.msgs.len() >= MAX_PIPELINED_MESSAGES || !model_can_read(m),
    ensures
        drain_model(m) == m,
{
    reveal(drain_model);
}

/// A decode without a message ends the phase with the bytes it consumed.
proof fn lemma_drain_none(m: ReqModel, st: DecodeState, n: int)
    requires
        m.msgs.len() < MAX_PIPELINED_MESSAGES,
        model_can_read(m),
        decode_spec(m.codec.state, m.buf) == DecodeOut::Progress(
            Option::<MsgView>::None,
            st,
            n,
        ),
    ensures
        drain_model(m) == (ReqModel {
            codec: (Codec { state: st, ..m.codec }),
            buf: m.buf.skip(n),
            ..m
        }),
{
    reveal(drain_model);
}

/// A decoded head is queued, its payload channel put in place, and the
/// phase goes on.
proof fn lemma_drain_head(m: ReqModel, hv: HeadView, st: DecodeState, n: int)
    requires
        m.msgs.len() < MAX_PIPELINED_MESSAGES,
        model_can_read(m),
        decode_spec(m.codec.state, m.buf) == DecodeOut::Progress(
            Some(MsgView::Head(hv)),
            st,
            n,
        ),
    ensures
        drain_model(m) == drain_model(
            ReqModel {
                codec: (Codec {
                    state: st,
                    message_type: mtype_after_head(hv),
                    keepalive: m.codec.keep_alive_enabled && head_keep_alive(
                        hv.headers,
                        hv.version,
                    ),
                    version: hv.version,
                    ..m.codec
                }),
                buf: m.buf.skip(n),
                msgs: m.msgs.push(QMsg::ItemV(hv)),
                payload: if mtype_after_head(hv) is NoPayload {
                    m.payload
                } else {
                    Some(fresh_channel())
                },
                started: true,
                updated: true,
                ..m
            },
        ),
{
    reveal(drain_model);
}

/// A body chunk feeds the active channel and the phase goes on; with no
/// active channel it is a protocol violation that queues a `500` entry and
/// stops reading.
proof fn lemma_drain_chunk(m: ReqModel, b: Seq<u8>, st: DecodeState, n: int)
    requires
        m.msgs.len() < MAX_PIPELINED_MESSAGES,
        model_can_read(m),
        decode_spec(m.codec.state, m.buf) == DecodeOut::Progress(
            Some(MsgView::Chunk(b)),
            st,
            n,
        ),
    ensures
        match m.payload {
            Some(p) => drain_model(m) == drain_model(
                ReqModel {
                    codec: (Codec { state: st, ..m.codec }),
                    buf: m.buf.skip(n),
                    payload: Some(ChannelView { chunks: p.chunks.push(b), ..p }),
                    started: true,
                    updated: true,
                    ..m
                },
            ),
            None => drain_model(m) == (ReqModel {
                codec: (Codec { state: st, ..m.codec }),
                buf: m.buf.skip(n),
                msgs: m.msgs.push(QMsg::ErrorV(500)),
                started: true,
                read_disconnect: true,
                error: Some(DispatchError::InternalError),
                updated: true,
                ..m
            }),
        },
{
    reveal(drain_model);
}

/// The end of a body completes the active channel and the phase goes on;
/// with no active channel it is the same violation as a stray chunk.
proof fn lemma_drain_eof(m: ReqModel, st: DecodeState, n: int)
    requires
        m.msgs.len() < MAX_PIPELINED_MESSAGES,
        model_can_read(m),
        decode_spec(m.codec.state, m.buf) == DecodeOut::Progress(Some(MsgView::Eof), st, n),
    ensures
        match m.payload {
            Some(p) => drain_model(m) == drain_model(
                ReqModel {
                    codec: (Codec { state: st, ..m.codec }),
                    buf: m.buf.skip(n),
                    payload: Some(ChannelView { eof: true, ..p }),
                    started: true,
                    updated: true,
                    ..m
                },
            ),
            None => drain_model(m) == (ReqModel {
                codec: (Codec { state: st, ..m.codec }),
                buf: m.buf.skip(n),
                msgs: m.msgs.push(QMsg::ErrorV(500)),
                started: true,
                read_disconnect: true,
                error: Some(DispatchError::InternalError),
                updated: true,
                ..m
            }),
        },
{
    reveal(drain_model);
}

/// A parse failure of IO class disconnects both sides; any other queues a
/// `400` entry and stops reading; either records the fatal error and fails
/// the pending body.
proof fn lemma_drain_bad(m: ReqModel, e: ParseError)
    requires
        m.msgs.len() < MAX_PIPELINED_MESSAGES,
        model_can_read(m),
        decode_spec(m.codec.state, m.buf) == DecodeOut::Bad(e),
    ensures
        e is Io ==> drain_model(m) == (ReqModel {
            read_disconnect: true,
            write_disconnect: true,
            payload: match m.payload {
                Some(p) => Some(
                    ChannelView {
                        err: Some(PayloadError::Incomplete(Option::<String>::None)),
                        ..p
                    },
                ),
                None => Option::<ChannelView>::None,
            },
            error: Some(DispatchError::Io),
            ..m
        }),
        !(e is Io) ==> drain_model(m) == (ReqModel {
            payload: match m.payload {
                Some(p) => Some(ChannelView { err: Some(PayloadError::EncodingCorrupted), ..p }),
                None => Option::<ChannelView>::None,
            },
            msgs: m.msgs.push(QMsg::ErrorV(400)),
            read_disconnect: true,
            error: Some(DispatchError::Parse(e)),
            ..m
        }),
{
    reveal(drain_model);
}

} // verus!

verus! {

/// A response head whose headers can be serialized without corrupting the
/// framing: non-empty token names and control-free values.
pub open spec fn resp_wf(hs: Seq<(Seq<u8>, Seq<u8>)>) -> bool {
    forall|i: int|
        0 <= i < hs.len() ==> (#[trigger] hs[i]).0.len() > 0 && all_tchars(hs[i].0)
            && all_value_bytes(hs[i].1)
}

/// Check a response head for serializability; mirrors `resp_wf`.
pub fn check_resp_wf(headers: &Vec<(Vec<u8>, Vec<u8>)>) -> (r: bool)
    ensures
        r == resp_wf(headers_view(headers@)),
{
    let ghost hs = headers_view(headers@);
    let n = headers.len();
    let mut i: usize = 0;
    while i < n
        invariant
            0 <= i <= n,
            n == headers@.len(),
            hs == headers_view(headers@),
            forall|j: int|
                0 <= j < i ==> (#[trigger] hs[j]).0.len() > 0 && all_tchars(hs[j].0)
                    && all_value_bytes(hs[j].1),
        decreases n - i,
    {
        assert(hs[i as int] == (headers@[i as int].0@, headers@[i as int].1@));
        let name = &headers[i].0;
        let value = &headers[i].1;
        let name_len = name.len();
        let ghost nv = name@;
        let ghost vv = value@;
        let names_ok = crate::codec::check_header_name(name.as_slice());
        let values_ok = crate::codec::check_header_value(value.as_slice());
        if name_len == 0 || !names_ok || !values_ok {
            return false;
        }
        i = i + 1;
    }
    true
}

/// The bytes a whole body puts on the wire: each chunk's frame, then the
/// end-of-body frame.
pub open spec fn body_frames(mode: EncodeMode, chunks: Seq<Seq<u8>>) -> Seq<u8>
    decreases chunks.len(),
{
    if chunks.len() == 0 {
        eof_frame(mode)
    } else {
        chunk_frame(mode, chunks[0]) + body_frames(mode, chunks.skip(1))
    }
}

/// The interim response for `Expect: 100-continue`.
pub open spec fn continue_bytes() -> Seq<u8> {
    ascii_bytes("HTTP/1.1 100 Continue\r\n\r\n"@)
}

impl Connection {
    /// Serialize a response head, fixing the keep-alive decision and the
    /// body framing. A head that cannot be serialized safely is refused as
    /// an IO-class failure and fails the pending inbound body, exactly like
    /// a broken transport.
    pub fn send_response_head(&mut self, resp: &ResponseHead, size: BodySize) -> (r: Result<
        (),
        DispatchError,
    >)
        ensures
            ({
                let hv = headers_view(resp.headers@);
                let ka2 = old(self).codec.keepalive && !resp.close;
                if resp_wf(hv) {
                    &&& r is Ok
                    &&& final(self).write_buf@ == old(self).write_buf@ + encoded_head(
                        resp.status,
                        hv,
                        size,
                        ka2,
                        old(self).codec.version,
                    )
                    &&& final(self).codec == (Codec {
                        keepalive: ka2,
                        encode_mode: mode_for(size),
                        ..old(self).codec
                    })
                    &&& final(self).flags == (Flags { keepalive: ka2, ..old(self).flags })
                    &&& final(self).payload == old(self).payload
                } else {
                    &&& r == Err::<(), DispatchError>(DispatchError::Io)
                    &&& final(self).write_buf@ == old(self).write_buf@
                    &&& final(self).codec == old(self).codec
                    &&& final(self).flags == old(self).flags
                    &&& match old(self).payload {
                        Some(p) => final(self).payload matches Some(q) && q@ == (ChannelView {
                            err: Some(PayloadError::Incomplete(Option::<String>::None)),
                            ..p@
                        }),
                        None => final(self).payload is None,
                    }
                }
            }),
            final(self).state == old(self).state,
            final(self).messages@ == old(self).messages@,
            final(self).read_buf@ == old(self).read_buf@,
            final(self).error == old(self).error,
            final(self).ka_expire == old(self).ka_expire,
            final(self).ka_timer == old(self).ka_timer,
            final(self).config == old(self).config,
    {
        if !check_resp_wf(&resp.headers) {
            match &mut self.payload {
                Some(p) => p.set_error(PayloadError::Incomplete(None)),
                None => {},
            }
            return Err(DispatchError::Io);
        }
        self.codec.encode_head(resp, size, &mut self.write_buf);
        self.flags.keepalive = self.codec.keepalive();
        Ok(())
    }

    /// Serialize a whole response: the head framed by the body's size hint,
    /// then every chunk of the body and the end-of-body frame. Leaves the
    /// connection idle.
    pub fn send_response_full(&mut self, resp: &ResponseHead, body: Body) -> (r: Result<
        (),
        DispatchError,
    >)
        ensures
            ({
                let hv = headers_view(resp.headers@);
                let ka2 = old(self).codec.keepalive && !resp.close;
                let size = body.size_spec();
                if resp_wf(hv) {
                    &&& r is Ok
                    &&& final(self).write_buf@ == old(self).write_buf@ + encoded_head(
                        resp.status,
                        hv,
                        size,
                        ka2,
                        old(self).codec.version,
                    ) + body_frames(mode_for(size), body.chunks_spec())
                    &&& final(self).codec == (Codec {
                        keepalive: ka2,
                        encode_mode: EncodeMode::NoFraming,
                        ..old(self).codec
                    })
                    &&& final(self).flags == (Flags { keepalive: ka2, ..old(self).flags })
                    &&& final(self).payload == old(self).payload
                    &&& final(self).state == State::Idle
                } else {
                    &&& r == Err::<(), DispatchError>(DispatchError::Io)
                    &&& final(self).write_buf@ == old(self).write_buf@
                    &&& final(self).codec == old(self).codec
                    &&& final(self).flags == old(self).flags
                    &&& final(self).state == old(self).state
                    &&& match old(self).payload {
                        Some(p) => final(self).payload matches Some(q) && q@ == (ChannelView {
                            err: Some(PayloadError::Incomplete(Option::<String>::None)),
                            ..p@
                        }),
                        None => final(self).payload is None,
                    }
                }
            }),
            final(self).messages@ == old(self).messages@,
            final(self).read_buf@ == old(self).read_buf@,
            final(self).error == old(self).error,
            final(self).ka_expire == old(self).ka_expire,
            final(self).ka_timer == old(self).ka_timer,
            final(self).config == old(self).config,
    {
        let size = body.length();
        let res = self.send_response_head(resp, size);
        match res {
            Err(e) => Err(e),
            Ok(()) => {
                let ghost base = self.write_buf@;
                let ghost mode = mode_for(size);
                let ghost chunks0 = body.chunks_spec();
                let ghost ka2 = old(self).codec.keepalive && !resp.close;
                let mut body = body;
                proof {
                    assert(!(mode is Chunked));
                }
                loop
                    invariant
                        !(mode is Chunked),
                        self.codec.encode_mode == mode,
                        self.codec.keepalive == ka2,
                        self.flags.keepalive == ka2,
                        self.state == old(self).state,
                        self.write_buf@ + body_frames(mode, body.chunks_spec()) == base
                            + body_frames(mode, chunks0),
                        unchanged_except_write(*self, *old(self)),
                    ensures
                        body.chunks_spec().len() == 0,
                        self.codec.encode_mode == mode,
                        self.codec.keepalive == ka2,
                        self.flags.keepalive == ka2,
                        self.state == old(self).state,
                        self.write_buf@ + body_frames(mode, body.chunks_spec()) == base
                            + body_frames(mode, chunks0),
                        unchanged_except_write(*self, *old(self)),
                    decreases body.chunks_spec().len(),
                {
                    let ghost wb = self.write_buf@;
                    let ghost cs = body.chunks_spec();
                    match body.poll_next() {
                        Some(chunk) => {
                            self.codec.encode_chunk(chunk.as_slice(), &mut self.write_buf);
                            proof {
                                assert(body_frames(mode, cs) == chunk_frame(mode, cs[0])
                                    + body_frames(mode, cs.skip(1)));
                                crate::wire::lemma_add_assoc(
                                    wb,
                                    chunk_frame(mode, cs[0]),
                                    body_frames(mode, cs.skip(1)),
                                );
                            }
                        },
                        None => {
                            break;
                        },
                    }
                }
                let ghost wb2 = self.write_buf@;
                self.codec.encode_eof(&mut self.write_buf);
                self.state = State::Idle;
                proof {
                    assert(body_frames(mode, Seq::<Seq<u8>>::empty()) == eof_frame(mode));
                    crate::wire::lemma_add_assoc(
                        old(self).write_buf@,
                        encoded_head(
                            resp.status,
                            headers_view(resp.headers@),
                            size,
                            ka2,
                            old(self).codec.version,
                        ),
                        body_frames(mode, chunks0),
                    );
                }
                Ok(())
            },
        }
    }

    /// Write the interim `100 Continue` response.
    pub fn send_continue(&mut self)
        ensures
            final(self).write_buf@ == old(self).write_buf@ + continue_bytes(),
            *final(self) == (Connection { write_buf: final(self).write_buf, ..*old(self) }),
    {
        proof {
            reveal_strlit("HTTP/1.1 100 Continue\r\n\r\n");
        }
        let bytes = lit_bytes("HTTP/1.1 100 Continue\r\n\r\n");
        self.write_buf.extend_from_slice(bytes.as_slice());
    }
}

/// Everything but the write buffer, the codec's encoding half, the flags'
/// keep-alive bit and the state agrees between two connections.
pub open spec fn unchanged_except_write(a: Connection, b: Connection) -> bool {
    &&& a.messages@ == b.messages@
    &&& a.read_buf@ == b.read_buf@
    &&& a.error == b.error
    &&& a.payload == b.payload
    &&& a.ka_expire == b.ka_expire
    &&& a.ka_timer == b.ka_timer
    &&& a.config == b.config
    &&& a.flags == (Flags { keepalive: a.flags.keepalive, ..b.flags })
    &&& a.codec == (Codec { keepalive: a.codec.keepalive, encode_mode: a.codec.encode_mode, ..b.codec })
}

} // verus!

verus! {

impl Connection {
    /// Take the next piece of work: under shutdown nothing is dispatched;
    /// an idle connection pops the oldest pending message. A request goes to
    /// the expect handler when it asks for `100 Continue`, else straight to
    /// the service; a queued error response is written out directly.
    pub fn next_action(&mut self) -> (r: Result<Action, DispatchError>)
        ensures
            ({
                let msgs0 = msgs_view(old(self).messages@);
                if old(self).flags.shutdown || !(old(self).state is Idle) || msgs0.len() == 0 {
                    &&& *final(self) == *old(self)
                    &&& r matches Ok(Action::Wait)
                } else {
                    &&& msgs_view(final(self).messages@) == msgs0.skip(1)
                    &&& match msgs0[0] {
                        QMsg::ItemV(hv) => {
                            &&& final(self).write_buf@ == old(self).write_buf@
                            &&& final(self).codec == old(self).codec
                            &&& final(self).flags == old(self).flags
                            &&& final(self).error == old(self).error
                            &&& final(self).payload == old(self).payload
                            &&& final(self).read_buf@ == old(self).read_buf@
                            &&& final(self).ka_expire == old(self).ka_expire
                            &&& final(self).ka_timer == old(self).ka_timer
                            &&& final(self).config == old(self).config
                            &&& (head_expect_continue(hv.headers) ==> final(self).state
                                == State::AwaitingExpectHandler && (r matches Ok(
                                Action::CallExpect(h),
                            ) && h@ == hv))
                            &&& (!head_expect_continue(hv.headers) ==> final(self).state
                                == State::AwaitingServiceHandler && (r matches Ok(
                                Action::CallService(h),
                            ) && h@ == hv))
                        },
                        QMsg::ErrorV(status) => {
                            let ka2 = old(self).codec.keepalive;
                            &&& r matches Ok(Action::Wait)
                            &&& final(self).state == State::Idle
                            &&& final(self).write_buf@ == old(self).write_buf@ + encoded_head(
                                status,
                                Seq::<(Seq<u8>, Seq<u8>)>::empty(),
                                BodySize::Empty,
                                ka2,
                                old(self).codec.version,
                            ) + body_frames(EncodeMode::NoFraming, Seq::<Seq<u8>>::empty())
                            &&& final(self).codec == (Codec {
                                keepalive: ka2,
                                encode_mode: EncodeMode::NoFraming,
                                ..old(self).codec
                            })
                            &&& final(self).flags == (Flags {
                                keepalive: ka2,
                                ..old(self).flags
                            })
                            &&& final(self).error == old(self).error
                            &&& final(self).payload == old(self).payload
                            &&& final(self).read_buf@ == old(self).read_buf@
                            &&& final(self).ka_expire == old(self).ka_expire
                            &&& final(self).ka_timer == old(self).ka_timer
                            &&& final(self).config == old(self).config
                        },
                    }
                }
            }),
    {
        if self.flags.shutdown {
            return Ok(Action::Wait);
        }
        match self.state {
            State::Idle => {},
            _ => {
                return Ok(Action::Wait);
            },
        }
        if self.messages.len() == 0 {
            return Ok(Action::Wait);
        }
        let ghost msgs0 = msgs_view(self.messages@);
        let msg = self.messages.remove(0);
        proof {
            assert(msgs_view(self.messages@) =~= msgs0.skip(1));
            assert(msgs0[0] == msg@);
        }
        match msg {
            DispatcherMessage::Item(req) => {
                if crate::codec::request_expects_continue(&req) {
                    self.state = State::AwaitingExpectHandler;
                    Ok(Action::CallExpect(req))
                } else {
                    self.state = State::AwaitingServiceHandler;
                    Ok(Action::CallService(req))
                }
            },
            DispatcherMessage::Error(status) => {
                let resp = error_head(status);
                proof {
                    assert(resp_wf(headers_view(resp.headers@)));
                }
                let res = self.send_response_full(&resp, Body::Empty);
                match res {
                    Ok(()) => Ok(Action::Wait),
                    Err(e) => {
                        // An error head built by this dispatcher always
                        // serializes; this arm is unreachable.
                        Err(e)
                    },
                }
            },
        }
    }

    /// The expect handler completed. Success writes the interim
    /// `100 Continue` line and hands the request on to the service; failure
    /// writes the error response the driver converted the failure into.
    pub fn on_expect_done(&mut self, outcome: Result<RequestHead, (ResponseHead, Body)>) -> (r:
        Result<Option<RequestHead>, DispatchError>)
        requires
            old(self).state is AwaitingExpectHandler,
        ensures
            match outcome {
                Ok(req) => {
                    &&& r matches Ok(Some(req2)) && req2 == req
                    &&& final(self).state == State::AwaitingServiceHandler
                    &&& final(self).write_buf@ == old(self).write_buf@ + continue_bytes()
                    &&& final(self).codec == old(self).codec
                    &&& final(self).flags == old(self).flags
                    &&& final(self).error == old(self).error
                    &&& final(self).payload == old(self).payload
                    &&& final(self).messages@ == old(self).messages@
                    &&& final(self).read_buf@ == old(self).read_buf@
                    &&& final(self).ka_expire == old(self).ka_expire
                    &&& final(self).ka_timer == old(self).ka_timer
                    &&& final(self).config == old(self).config
                },
                Err((resp, body)) => {
                    let hv = headers_view(resp.headers@);
                    let ka2 = old(self).codec.keepalive && !resp.close;
                    let size = body.size_spec();
                    if resp_wf(hv) {
                        &&& r matches Ok(Option::<RequestHead>::None)
                        &&& final(self).state == State::Idle
                        &&& final(self).write_buf@ == old(self).write_buf@ + encoded_head(
                            resp.status,
                            hv,
                            size,
                            ka2,
                            old(self).codec.version,
                        ) + body_frames(mode_for(size), body.chunks_spec())
                        &&& final(self).flags == (Flags { keepalive: ka2, ..old(self).flags })
                        &&& final(self).payload == old(self).payload
                        &&& final(self).codec == (Codec {
                            keepalive: ka2,
                            encode_mode: EncodeMode::NoFraming,
                            ..old(self).codec
                        })
                    } else {
                        &&& r == Err::<Option<RequestHead>, DispatchError>(DispatchError::Io)
                        &&& final(self).write_buf@ == old(self).write_buf@
                        &&& final(self).state == old(self).state
                        &&& final(self).codec == old(self).codec
                        &&& final(self).flags == old(self).flags
                        &&& match old(self).payload {
                            Some(p) => final(self).payload matches Some(q) && q@ == (ChannelView {
                                err: Some(PayloadError::Incomplete(Option::<String>::None)),
                                ..p@
                            }),
                            None => final(self).payload is None,
                        }
                    }
                },
            },
    {
        match outcome {
            Ok(req) => {
                self.send_continue();
                self.state = State::AwaitingServiceHandler;
                Ok(Some(req))
            },
            Err((resp, body)) => {
                let res = self.send_response_full(&resp, body);
                match res {
                    Ok(()) => Ok(Option::<RequestHead>::None),
                    Err(e) => Err(e),
                }
            },
        }
    }

    /// The service completed with a response. An in-memory body is written
    /// in full and the connection is idle again; a streaming body writes the
    /// head framed by its size hint and then accepts `on_body_chunk` events,
    /// unless the hint already says there is nothing to stream.
    pub fn on_service_done(&mut self, resp: &ResponseHead, body: OutBody) -> (r: Result<
        (),
        DispatchError,
    >)
        requires
            old(self).state is AwaitingServiceHandler,
        ensures
            ({
                let hv = headers_view(resp.headers@);
                let ka2 = old(self).codec.keepalive && !resp.close;
                if !resp_wf(hv) {
                    &&& r == Err::<(), DispatchError>(DispatchError::Io)
                    &&& final(self).write_buf@ == old(self).write_buf@
                    &&& final(self).state == old(self).state
                    &&& final(self).codec == old(self).codec
                    &&& final(self).flags == old(self).flags
                    &&& match old(self).payload {
                        Some(p) => final(self).payload matches Some(q) && q@ == (ChannelView {
                            err: Some(PayloadError::Incomplete(Option::<String>::None)),
                            ..p@
                        }),
                        None => final(self).payload is None,
                    }
                } else {
                    match body {
                        OutBody::Full(b) => {
                            &&& r is Ok
                            &&& final(self).state == State::Idle
                            &&& final(self).write_buf@ == old(self).write_buf@ + encoded_head(
                                resp.status,
                                hv,
                                b.size_spec(),
                                ka2,
                                old(self).codec.version,
                            ) + body_frames(mode_for(b.size_spec()), b.chunks_spec())
                            &&& final(self).flags == (Flags { keepalive: ka2, ..old(self).flags })
                            &&& final(self).payload == old(self).payload
                            &&& final(self).codec == (Codec {
                                keepalive: ka2,
                                encode_mode: EncodeMode::NoFraming,
                                ..old(self).codec
                            })
                        },
                        OutBody::Streaming(hint) => {
                            &&& r is Ok
                            &&& final(self).state == (match hint {
                                BodySize::NoBody => State::Idle,
                                BodySize::Empty => State::Idle,
                                _ => State::StreamingResponseBody,
                            })
                            &&& final(self).write_buf@ == old(self).write_buf@ + encoded_head(
                                resp.status,
                                hv,
                                hint,
                                ka2,
                                old(self).codec.version,
                            )
                            &&& final(self).codec == (Codec {
                                keepalive: ka2,
                                encode_mode: mode_for(hint),
                                ..old(self).codec
                            })
                            &&& final(self).flags == (Flags { keepalive: ka2, ..old(self).flags })
                            &&& final(self).payload == old(self).payload
                        },
                    }
                }
            }),
            final(self).messages@ == old(self).messages@,
            final(self).read_buf@ == old(self).read_buf@,
            final(self).error == old(self).error,
            final(self).ka_expire == old(self).ka_expire,
            final(self).ka_timer == old(self).ka_timer,
            final(self).config == old(self).config,
    {
        match body {
            OutBody::Full(b) => {
                let res = self.send_response_full(resp, b);
                match res {
                    Ok(()) => Ok(()),
                    Err(e) => Err(e),
                }
            },
            OutBody::Streaming(hint) => {
                let res = self.send_response_head(resp, hint);
                match res {
                    Ok(()) => {
                        self.state = match hint {
                            BodySize::NoBody => State::Idle,
                            BodySize::Empty => State::Idle,
                            _ => State::StreamingResponseBody,
                        };
                        Ok(())
                    },
                    Err(e) => Err(e),
                }
            },
        }
    }

    /// Whether the driver should poll the response body for another chunk:
    /// only while one is streaming and the write buffer is under the
    /// high-water mark.
    pub fn wants_body_chunk(&self) -> (r: bool)
        ensures
            r == (self.state is StreamingResponseBody && self.write_buf@.len()
                < HW_BUFFER_SIZE),
    {
        match self.state {
            State::StreamingResponseBody => self.write_buf.len() < HW_BUFFER_SIZE,
            _ => false,
        }
    }

    /// One chunk of the streaming response body arrived, or the body ended
    /// (`None`), which writes the terminating frame and leaves the
    /// connection idle. Empty chunks put nothing on the wire.
    pub fn on_body_chunk(&mut self, chunk: Option<Vec<u8>>)
        requires
            old(self).state is StreamingResponseBody,
        ensures
            match chunk {
                Some(data) => {
                    &&& final(self).state == State::StreamingResponseBody
                    &&& final(self).write_buf@ == old(self).write_buf@ + (if data@.len() > 0 {
                        chunk_frame(old(self).codec.encode_mode, data@)
                    } else {
                        Seq::<u8>::empty()
                    })
                    &&& final(self).codec == old(self).codec
                },
                None => {
                    &&& final(self).state == State::Idle
                    &&& final(self).write_buf@ == old(self).write_buf@ + eof_frame(
                        old(self).codec.encode_mode,
                    )
                    &&& final(self).codec == (Codec {
                        encode_mode: EncodeMode::NoFraming,
                        ..old(self).codec
                    })
                },
            },
            final(self).flags == old(self).flags,
            final(self).error == old(self).error,
            final(self).payload == old(self).payload,
            final(self).messages@ == old(self).messages@,
            final(self).read_buf@ == old(self).read_buf@,
            final(self).ka_expire == old(self).ka_expire,
            final(self).ka_timer == old(self).ka_timer,
            final(self).config == old(self).config,
    {
        match chunk {
            Some(data) => {
                if data.len() > 0 {
                    self.codec.encode_chunk(data.as_slice(), &mut self.write_buf);
                } else {
                    proof {
                        assert(self.write_buf@ =~= old(self).write_buf@ + Seq::<u8>::empty());
                    }
                }
            },
            None => {
                self.codec.encode_eof(&mut self.write_buf);
                self.state = State::Idle;
            },
        }
    }

    /// Consumer side of the inbound body: take the next chunk of the active
    /// payload channel, if one exists.
    pub fn payload_poll(&mut self) -> (r: Option<ChunkPoll>)
        ensures
            match old(self).payload {
                None => r is None && *final(self) == *old(self),
                Some(p) => {
                    &&& final(self).payload matches Some(q) && (r matches Some(cp) && match cp {
                        ChunkPoll::Data(d) => {
                            &&& p@.chunks.len() > 0
                            &&& d@ == p@.chunks[0]
                            &&& q@ == (ChannelView { chunks: p@.chunks.skip(1), ..p@ })
                        },
                        ChunkPoll::Failed(e) => {
                            &&& p@.chunks.len() == 0
                            &&& p@.err == Some(e)
                            &&& q@ == (ChannelView { err: Option::<PayloadError>::None, ..p@ })
                        },
                        ChunkPoll::Eof => {
                            &&& p@.chunks.len() == 0
                            &&& p@.err is None
                            &&& p@.eof
                            &&& q@ == p@
                        },
                        ChunkPoll::Pending => {
                            &&& p@.chunks.len() == 0
                            &&& p@.err is None
                            &&& !p@.eof
                            &&& q@ == p@
                        },
                    })
                    &&& *final(self) == (Connection {
                        payload: final(self).payload,
                        ..*old(self)
                    })
                },
            },
    {
        match &mut self.payload {
            Some(p) => Some(p.poll_chunk()),
            None => Option::<ChunkPoll>::None,
        }
    }

    /// Consumer side of the inbound body: report readiness. `Pause` makes
    /// `can_read` false until `Read` is reported again.
    pub fn payload_signal(&mut self, status: PayloadStatus)
        ensures
            match old(self).payload {
                None => *final(self) == *old(self),
                Some(p) => final(self).payload matches Some(q) && q@ == (ChannelView {
                    need: status,
                    ..p@
                }) && *final(self) == (Connection {
                    payload: final(self).payload,
                    ..*old(self)
                }),
            },
    {
        match &mut self.payload {
            Some(p) => p.signal(status),
            None => {},
        }
    }

    /// Bytes arrived from the transport.
    pub fn on_read(&mut self, data: &[u8])
        ensures
            final(self).read_buf@ == old(self).read_buf@ + data@,
            *final(self) == (Connection { read_buf: final(self).read_buf, ..*old(self) }),
    {
        self.read_buf.extend_from_slice(data);
    }

    /// The transport reached end of file: the read side is gone.
    pub fn on_read_eof(&mut self)
        ensures
            final(self).flags == (Flags { read_disconnect: true, ..old(self).flags }),
            *final(self) == (Connection { flags: final(self).flags, ..*old(self) }),
    {
        self.flags.read_disconnect = true;
    }

    /// The driver wrote `n` bytes of the write buffer to the transport;
    /// drop them, keeping the unsent tail for the next attempt.
    pub fn written(&mut self, n: usize)
        requires
            n <= old(self).write_buf@.len(),
        ensures
            final(self).write_buf@ == old(self).write_buf@.skip(n as int),
            *final(self) == (Connection { write_buf: final(self).write_buf, ..*old(self) }),
    {
        let tail = self.write_buf.split_off(n);
        self.write_buf = tail;
    }
}

} // verus!

verus! {

impl Connection {
    /// The keep-alive / shutdown timer fired or is being polled at `now`.
    ///
    /// Three phases share one timer. Before the first request head is
    /// decoded, an expired deadline is a slow request: a `408 Request
    /// Timeout` response is written and the connection moves to shutdown.
    /// After that, an expired keep-alive deadline on an idle, drained
    /// connection moves it to shutdown and arms the disconnect deadline (or
    /// forces a write disconnect when none is configured). Once shutdown is
    /// set, an expiry is a fatal disconnect timeout.
    pub fn on_timer(&mut self, now: u64) -> (r: Result<(), DispatchError>)
        ensures
            ({
                let c = *old(self);
                match c.ka_timer {
                    None => {
                        if c.flags.shutdown {
                            match c.config.client_disconnect {
                                Some(interval) => {
                                    &&& r is Ok
                                    &&& *final(self) == (Connection {
                                        ka_timer: Some(sat_add_spec(now, interval)),
                                        ..c
                                    })
                                },
                                None => {
                                    &&& r is Ok
                                    &&& *final(self) == (Connection {
                                        flags: (Flags { read_disconnect: true, ..c.flags }),
                                        ..c
                                    })
                                },
                            }
                        } else {
                            r is Ok && *final(self) == c
                        }
                    },
                    Some(deadline) => {
                        if now < deadline {
                            r is Ok && *final(self) == c
                        } else if c.flags.shutdown {
                            r == Err::<(), DispatchError>(DispatchError::DisconnectTimeout)
                                && *final(self) == c
                        } else if deadline >= c.ka_expire {
                            if c.state is Idle && c.write_buf@.len() == 0 {
                                if c.flags.started {
                                    match c.config.client_disconnect {
                                        Some(dl) => {
                                            &&& r is Ok
                                            &&& *final(self) == (Connection {
                                                flags: (Flags { shutdown: true, ..c.flags }),
                                                ka_timer: Some(sat_add_spec(now, dl)),
                                                ..c
                                            })
                                        },
                                        None => {
                                            &&& r is Ok
                                            &&& *final(self) == (Connection {
                                                flags: (Flags {
                                                    shutdown: true,
                                                    write_disconnect: true,
                                                    ..c.flags
                                                }),
                                                ..c
                                            })
                                        },
                                    }
                                } else {
                                    let ka2 = c.codec.keepalive;
                                    &&& r is Ok
                                    &&& final(self).write_buf@ == c.write_buf@ + encoded_head(
                                        408,
                                        Seq::<(Seq<u8>, Seq<u8>)>::empty(),
                                        BodySize::Empty,
                                        ka2,
                                        c.codec.version,
                                    ) + body_frames(
                                        EncodeMode::NoFraming,
                                        Seq::<Seq<u8>>::empty(),
                                    )
                                    &&& final(self).flags == (Flags {
                                        started: true,
                                        shutdown: true,
                                        keepalive: ka2,
                                        ..c.flags
                                    })
                                    &&& final(self).state == State::Idle
                                    &&& final(self).codec == (Codec {
                                        keepalive: ka2,
                                        encode_mode: EncodeMode::NoFraming,
                                        ..c.codec
                                    })
                                    &&& final(self).error == c.error
                                    &&& final(self).payload == c.payload
                                    &&& final(self).messages@ == c.messages@
                                    &&& final(self).read_buf@ == c.read_buf@
                                    &&& final(self).ka_expire == c.ka_expire
                                    &&& final(self).ka_timer == c.ka_timer
                                    &&& final(self).config == c.config
                                }
                            } else {
                                match c.config.keep_alive {
                                    Some(ka) => {
                                        &&& r is Ok
                                        &&& *final(self) == (Connection {
                                            ka_timer: Some(sat_add_spec(now, ka)),
                                            ..c
                                        })
                                    },
                                    None => r is Ok && *final(self) == c,
                                }
                            }
                        } else {
                            r is Ok && *final(self) == (Connection {
                                ka_timer: Some(c.ka_expire),
                                ..c
                            })
                        }
                    },
                }
            }),
    {
        let deadline = match self.ka_timer {
            None => {
                if self.flags.shutdown {
                    match self.config.client_disconnect {
                        Some(interval) => {
                            self.ka_timer = Some(sat_add(now, interval));
                        },
                        None => {
                            self.flags.read_disconnect = true;
                        },
                    }
                }
                return Ok(());
            },
            Some(d) => d,
        };
        if now < deadline {
            return Ok(());
        }
        if self.flags.shutdown {
            return Err(DispatchError::DisconnectTimeout);
        }
        if deadline >= self.ka_expire {
            let idle = match self.state {
                State::Idle => true,
                _ => false,
            };
            if idle && self.write_buf.len() == 0 {
                if self.flags.started {
                    // Keep-alive timeout: close the connection.
                    self.flags.shutdown = true;
                    match self.config.client_disconnect {
                        Some(dl) => {
                            self.ka_timer = Some(sat_add(now, dl));
                        },
                        None => {
                            self.flags.write_disconnect = true;
                        },
                    }
                } else {
                    // Slow request: the first head never arrived in time.
                    let resp = error_head(408);
                    proof {
                        assert(resp_wf(headers_view(resp.headers@)));
                    }
                    let res = self.send_response_full(&resp, Body::Empty);
                    let _ = res;
                    self.flags.started = true;
                    self.flags.shutdown = true;
                    self.state = State::Idle;
                }
            } else {
                match self.config.keep_alive {
                    Some(ka) => {
                        self.ka_timer = Some(sat_add(now, ka));
                    },
                    None => {},
                }
            }
        } else {
            self.ka_timer = Some(self.ka_expire);
        }
        Ok(())
    }

    /// The termination decision at the end of a turn, after writing. A
    /// write-disconnected connection is done. Otherwise: an idle connection
    /// whose read side is gone moves to shutdown; an idle, drained
    /// connection surfaces its deferred fatal error, or moves to shutdown
    /// when keep-alive is not on offer after the first request. A shutdown
    /// connection asks for the transport to be shut down once its write
    /// buffer is empty.
    pub fn end_of_turn(&mut self) -> (r: TurnEnd)
        ensures
            ({
                let c = *old(self);
                let is_empty = c.state is Idle;
                let wempty = c.write_buf@.len() == 0;
                if c.flags.write_disconnect {
                    r == TurnEnd::Done && *final(self) == c
                } else {
                    let sd1 = c.flags.shutdown || (c.flags.read_disconnect && is_empty);
                    if is_empty && wempty && c.error is Some {
                        &&& r == TurnEnd::Failed(c.error->0)
                        &&& *final(self) == (Connection {
                            flags: (Flags { shutdown: sd1, ..c.flags }),
                            error: Option::<DispatchError>::None,
                            ..c
                        })
                    } else {
                        let sd2 = sd1 || (is_empty && wempty && c.flags.started
                            && !c.flags.keepalive);
                        &&& *final(self) == (Connection {
                            flags: (Flags { shutdown: sd2, ..c.flags }),
                            ..c
                        })
                        &&& r == (if sd2 {
                            if wempty {
                                TurnEnd::DoShutdown
                            } else {
                                TurnEnd::Pending
                            }
                        } else {
                            TurnEnd::Pending
                        })
                    }
                }
            }),
    {
        if self.flags.write_disconnect {
            return TurnEnd::Done;
        }
        let is_empty = match self.state {
            State::Idle => true,
            _ => false,
        };
        if self.flags.read_disconnect && is_empty {
            self.flags.shutdown = true;
        }
        let wempty = self.write_buf.len() == 0;
        if is_empty && wempty {
            let err = self.error.take();
            match err {
                Some(e) => {
                    return TurnEnd::Failed(e);
                },
                None => {},
            }
            if self.flags.started && !self.flags.keepalive {
                self.flags.shutdown = true;
            }
        }
        if self.flags.shutdown {
            if wempty {
                return TurnEnd::DoShutdown;
            }
            return TurnEnd::Pending;
        }
        TurnEnd::Pending
    }
}

} // verus!

verus! {

/// The wire bytes of answering the queued requests from `i` on with the
/// given responses, one per request, in order: each response's encoded head
/// and body frames, with the keep-alive decision threaded through the
/// exchanges.
pub open spec fn answered_bytes(
    ka: bool,
    v: crate::codec::Version,
    resps: Seq<(ResponseHead, Body)>,
    i: int,
) -> Seq<u8>
    decreases resps.len() - i,
{
    if i < 0 || i >= resps.len() {
        Seq::empty()
    } else {
        let ka2 = ka && !resps[i].0.close;
        let size = resps[i].1.size_spec();
        encoded_head(resps[i].0.status, headers_view(resps[i].0.headers@), size, ka2, v)
            + body_frames(mode_for(size), resps[i].1.chunks_spec()) + answered_bytes(
            ka2,
            v,
            resps,
            i + 1,
        )
    }
}

impl Connection {
    /// Answer every queued request with the matching response, in queue
    /// order. The write buffer gains exactly the concatenation of the
    /// encoded responses, one per request, in the order the requests were
    /// decoded; the queue drains completely. Together with the decode/queue
    /// phase (one read of any number of valid pipelined requests queues
    /// exactly those requests, in arrival order), a read of so many valid
    /// requests is answered by exactly so many responses, in request order.
    pub fn answer_in_order(&mut self, responses: Vec<(ResponseHead, Body)>) -> (r: Result<
        (),
        DispatchError,
    >)
        requires
            old(self).state is Idle,
            !old(self).flags.shutdown,
            responses@.len() == old(self).messages@.len(),
            forall|i: int|
                0 <= i < old(self).messages@.len() ==> (#[trigger] msgs_view(
                    old(self).messages@,
                )[i] matches QMsg::ItemV(hv) && !head_expect_continue(hv.headers)),
            forall|i: int|
                0 <= i < responses@.len() ==> resp_wf(
                    headers_view((#[trigger] responses@[i]).0.headers@),
                ),
        ensures
            r is Ok,
            final(self).write_buf@ == old(self).write_buf@ + answered_bytes(
                old(self).codec.keepalive,
                old(self).codec.version,
                responses@,
                0,
            ),
            final(self).messages@.len() == 0,
            final(self).state == State::Idle,
            final(self).read_buf@ == old(self).read_buf@,
            final(self).error == old(self).error,
            final(self).payload == old(self).payload,
            final(self).ka_expire == old(self).ka_expire,
            final(self).ka_timer == old(self).ka_timer,
            final(self).config == old(self).config,
            final(self).flags == (Flags {
                keepalive: final(self).flags.keepalive,
                ..old(self).flags
            }),
    {
        let ghost inputs = responses@;
        let ghost msgs0 = msgs_view(self.messages@);
        let ghost wb0 = self.write_buf@;
        let ghost ka0 = self.codec.keepalive;
        let ghost v0 = self.codec.version;
        let n = responses.len();
        let mut rest = responses;
        let mut k: usize = 0;
        while k < n
            invariant
                0 <= k <= n,
                n == inputs.len(),
                inputs == responses@,
                rest@ == inputs.skip(k as int),
                msgs0 == msgs_view(old(self).messages@),
                msgs0.len() == n,
                msgs_view(self.messages@) == msgs0.skip(k as int),
                forall|i: int|
                    0 <= i < n ==> (#[trigger] msgs0[i] matches QMsg::ItemV(hv)
                        && !head_expect_continue(hv.headers)),
                forall|i: int|
                    0 <= i < n ==> resp_wf(headers_view((#[trigger] inputs[i]).0.headers@)),
                self.state is Idle,
                !self.flags.shutdown,
                self.codec.version == v0,
                self.write_buf@ + answered_bytes(self.codec.keepalive, v0, inputs, k as int)
                    == wb0 + answered_bytes(ka0, v0, inputs, 0),
                wb0 == old(self).write_buf@,
                ka0 == old(self).codec.keepalive,
                v0 == old(self).codec.version,
                self.read_buf@ == old(self).read_buf@,
                self.error == old(self).error,
                self.payload == old(self).payload,
                self.ka_expire == old(self).ka_expire,
                self.ka_timer == old(self).ka_timer,
                self.config == old(self).config,
                self.flags == (Flags { keepalive: self.flags.keepalive, ..old(self).flags }),
            decreases n - k,
        {
            let ghost rest_pre = rest@;
            let (resp, body) = rest.remove(0);
            proof {
                assert(rest@ =~= rest_pre.skip(1));
                assert(rest@ =~= inputs.skip(k as int + 1));
                assert((resp, body) == inputs[k as int]);
                assert(msgs_view(self.messages@)[0] == msgs0[k as int]);
            }
            let ghost wb_pre = self.write_buf@;
            let ghost ka_pre = self.codec.keepalive;
            let act = match self.next_action() {
                Ok(a) => a,
                Err(e) => {
                    // The front entry is a request, so dispatch cannot fail.
                    assert(false);
                    return Err(e);
                },
            };
            match act {
                Action::CallService(_) => {},
                _ => {
                    // A queued request that asks for no continue is always
                    // dispatched to the service.
                    assert(false);
                    return Ok(());
                },
            }
            proof {
                assert(msgs_view(self.messages@) =~= msgs0.skip(k as int + 1));
            }
            let res = self.on_service_done(&resp, OutBody::Full(body));
            match res {
                Ok(()) => {},
                Err(e) => {
                    // The response head is serializable, so sending cannot
                    // fail.
                    assert(false);
                    return Err(e);
                },
            }
            proof {
                let ka2 = ka_pre && !inputs[k as int].0.close;
                let size = inputs[k as int].1.size_spec();
                let head = encoded_head(
                    inputs[k as int].0.status,
                    headers_view(inputs[k as int].0.headers@),
                    size,
                    ka2,
                    v0,
                );
                let frames = body_frames(mode_for(size), inputs[k as int].1.chunks_spec());
                assert(answered_bytes(ka_pre, v0, inputs, k as int) == head + frames
                    + answered_bytes(ka2, v0, inputs, k as int + 1));
                assert(self.write_buf@ == (wb_pre + head) + frames);
                crate::wire::lemma_add_assoc(wb_pre, head, frames);
                crate::wire::lemma_add_assoc(
                    wb_pre,
                    head + frames,
                    answered_bytes(ka2, v0, inputs, k as int + 1),
                );
            }
            k = k + 1;
        }
        proof {
            assert(msgs_view(self.messages@) =~= msgs0.skip(n as int));
            assert(msgs0.skip(n as int).len() == 0);
            assert(self.messages@.len() == 0);
            assert(answered_bytes(self.codec.keepalive, v0, inputs, n as int) == Seq::<
                u8,
            >::empty());
            assert(self.write_buf@ + Seq::<u8>::empty() =~= self.write_buf@);
        }
        Ok(())
    }
}

} // verus!
