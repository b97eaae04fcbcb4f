//! Laws of the connection core, proved once and for all: head-of-line
//! response ordering, the bound on the pending-message queue, backpressure,
//! and the wire framing that each body-size hint produces.

use vstd::prelude::*;

use crate::body::{Body, BodySize, MessageBody};
use crate::codec::{
    connection_pairs, decode_spec, encoded_head, eof_frame, framing_pairs, head_pairs,
    is_managed_name, lemma_decode_bounds, mode_for, status_line, user_pairs, DecodeOut, EncodeMode,
    HeadView, MsgView,
};
use crate::dispatcher::{
    body_frames, drain_model, model_can_read, ReqModel, MAX_PIPELINED_MESSAGES,
};
use crate::payload::PayloadStatus;
use crate::wire::{ascii_bytes, dec_rep, eq_ci, lower_seq};

verus! {

/// Head-of-line ordering: the decode/queue phase only appends to the
/// pending-message queue. Entries already queued keep their position, so
/// responses are emitted strictly in the order their requests were decoded.
pub proof fn lemma_drain_queue_order(m: ReqModel)
    ensures
        drain_model(m).msgs.len() >= m.msgs.len(),
        forall|i: int| 0 <= i < m.msgs.len() ==> drain_model(m).msgs[i] == m.msgs[i],
    decreases m.buf.len(), crate::dispatcher::state_rank(m.codec.state),
{
    reveal(drain_model);
    lemma_decode_bounds(m.codec.state, m.buf);
    if m.msgs.len() >= MAX_PIPELINED_MESSAGES || !model_can_read(m) {
    } else {
        match decode_spec(m.codec.state, m.buf) {
            DecodeOut::Progress(msg, st, n) => {
                match msg {
                    Option::<MsgView>::None => {},
                    Some(MsgView::Head(hv)) => {
                        let m2 = drain_head_step(m, hv, st, n);
                        lemma_drain_queue_order(m2);
                        assert(drain_model(m) == drain_model(m2));
                        assert forall|i: int| 0 <= i < m.msgs.len() implies drain_model(
                            m,
                        ).msgs[i] == m.msgs[i] by {
                            assert(drain_model(m2).msgs[i] == m2.msgs[i]);
                            assert(m2.msgs[i] == m.msgs[i]);
                        }
                    },
                    Some(MsgView::Chunk(b)) => {
                        if m.payload is Some {
                            let m2 = drain_chunk_step(m, b, st, n);
                            lemma_drain_queue_order(m2);
                            assert(drain_model(m) == drain_model(m2));
                            assert forall|i: int| 0 <= i < m.msgs.len() implies drain_model(
                                m,
                            ).msgs[i] == m.msgs[i] by {
                                assert(drain_model(m2).msgs[i] == m2.msgs[i]);
                            }
                        }
                    },
                    Some(MsgView::Eof) => {
                        if m.payload is Some {
                            let m2 = drain_eof_step(m, st, n);
                            lemma_drain_queue_order(m2);
                            assert(drain_model(m) == drain_model(m2));
                            assert forall|i: int| 0 <= i < m.msgs.len() implies drain_model(
                                m,
                            ).msgs[i] == m.msgs[i] by {
                                assert(drain_model(m2).msgs[i] == m2.msgs[i]);
                            }
                        }
                    },
                }
            },
            DecodeOut::Bad(e) => {},
        }
    }
}

/// Bounded pipelining: the decode/queue phase never grows the
/// pending-message queue beyond its cap. New heads are admitted only while
/// the backlog is below the cap, so memory stays bounded under a pipelining
/// flood.
pub proof fn lemma_drain_queue_bounded(m: ReqModel)
    requires
        m.msgs.len() <= MAX_PIPELINED_MESSAGES,
    ensures
        drain_model(m).msgs.len() <= MAX_PIPELINED_MESSAGES,
    decreases m.buf.len(), crate::dispatcher::state_rank(m.codec.state),
{
    reveal(drain_model);
    lemma_decode_bounds(m.codec.state, m.buf);
    if m.msgs.len() >= MAX_PIPELINED_MESSAGES || !model_can_read(m) {
    } else {
        match decode_spec(m.codec.state, m.buf) {
            DecodeOut::Progress(msg, st, n) => {
                match msg {
                    Option::<MsgView>::None => {},
                    Some(MsgView::Head(hv)) => {
                        lemma_drain_queue_bounded(drain_head_step(m, hv, st, n));
                    },
                    Some(MsgView::Chunk(b)) => {
                        if m.payload is Some {
                            lemma_drain_queue_bounded(drain_chunk_step(m, b, st, n));
                        }
                    },
                    Some(MsgView::Eof) => {
                        if m.payload is Some {
                            lemma_drain_queue_bounded(drain_eof_step(m, st, n));
                        }
                    },
                }
            },
            DecodeOut::Bad(e) => {},
        }
    }
}

/// Backpressure: while the payload consumer reports `Pause`, the
/// decode/queue phase admits nothing, even if socket data is already
/// buffered.
pub proof fn lemma_pause_stops_reading(m: ReqModel)
    requires
        m.payload matches Some(p) && p.need == PayloadStatus::Pause,
    ensures
        drain_model(m) == m,
{
    reveal(drain_model);
}

/// The model after queueing a freshly decoded head (an unfolding helper for
/// the induction lemmas above; mirrors one branch of `drain_model`).
pub open spec fn drain_head_step(
    m: ReqModel,
    hv: crate::codec::HeadView,
    st: crate::codec::DecodeState,
    n: int,
) -> ReqModel {
    ReqModel {
        codec: (crate::codec::Codec {
            state: st,
            message_type: crate::codec::mtype_after_head(hv),
            keepalive: m.codec.keep_alive_enabled && crate::codec::head_keep_alive(
                hv.headers,
                hv.version,
            ),
            version: hv.version,
            ..m.codec
        }),
        buf: m.buf.skip(n),
        msgs: m.msgs.push(crate::dispatcher::QMsg::ItemV(hv)),
        payload: if crate::codec::mtype_after_head(hv) is NoPayload {
            m.payload
        } else {
            Some(crate::dispatcher::fresh_channel())
        },
        started: true,
        updated: true,
        ..m
    }
}

/// The model after feeding a body chunk to the active channel.
pub open spec fn drain_chunk_step(
    m: ReqModel,
    b: Seq<u8>,
    st: crate::codec::DecodeState,
    n: int,
) -> ReqModel {
    ReqModel {
        codec: (crate::codec::Codec { state: st, ..m.codec }),
        buf: m.buf.skip(n),
        payload: Some(
            crate::payload::ChannelView {
                chunks: m.payload->0.chunks.push(b),
                ..m.payload->0
            },
        ),
        started: true,
        updated: true,
        ..m
    }
}

/// The model after completing the active channel.
pub open spec fn drain_eof_step(
    m: ReqModel,
    st: crate::codec::DecodeState,
    n: int,
) -> ReqModel {
    ReqModel {
        codec: (crate::codec::Codec { state: st, ..m.codec }),
        buf: m.buf.skip(n),
        payload: Some(crate::payload::ChannelView { eof: true, ..m.payload->0 }),
        started: true,
        updated: true,
        ..m
    }
}

/// The user headers that survive filtering never carry a managed name; in
/// particular none of them is a `content-length`.
pub proof fn lemma_user_pairs_unmanaged(hs: Seq<(Seq<u8>, Seq<u8>)>)
    ensures
        forall|i: int|
            0 <= i < user_pairs(hs).len() ==> !is_managed_name(
                #[trigger] user_pairs(hs)[i].0,
            ),
    decreases hs.len(),
{
    if hs.len() > 0 {
        lemma_user_pairs_unmanaged(hs.drop_last());
        let pre = user_pairs(hs.drop_last());
        assert forall|i: int| 0 <= i < user_pairs(hs).len() implies !is_managed_name(
            user_pairs(hs)[i].0,
        ) by {
            if i < pre.len() {
                assert(user_pairs(hs)[i] == pre[i]);
            } else {
                assert(!is_managed_name(hs.last().0));
                assert(user_pairs(hs)[i] == hs.last());
            }
        }
    }
}

/// Two byte strings of different lengths are never equal ignoring case.
pub proof fn lemma_eq_ci_len(a: Seq<u8>, b: Seq<u8>)
    ensures
        a.len() != b.len() ==> !eq_ci(a, b),
{
    assert(lower_seq(a).len() == a.len());
    assert(lower_seq(b).len() == b.len());
}

/// A response whose body-size hint is `NoBody` or `Empty` never carries a
/// `Content-Length` header: the framing adds none, the user's copies are
/// filtered out, and the connection header is no content length.
pub proof fn lemma_no_content_length(
    hs: Seq<(Seq<u8>, Seq<u8>)>,
    size: BodySize,
    keepalive: bool,
    version: crate::codec::Version,
)
    requires
        size is NoBody || size is Empty,
    ensures
        forall|i: int|
            0 <= i < head_pairs(hs, size, keepalive, version).len() ==> !eq_ci(
                (#[trigger] head_pairs(hs, size, keepalive, version)[i]).0,
                ascii_bytes("content-length"@),
            ),
{
    lemma_user_pairs_unmanaged(hs);
    let pairs = head_pairs(hs, size, keepalive, version);
    assert(framing_pairs(size) =~= Seq::<(Seq<u8>, Seq<u8>)>::empty());
    assert forall|i: int| 0 <= i < pairs.len() implies !eq_ci(
        (#[trigger] pairs[i]).0,
        ascii_bytes("content-length"@),
    ) by {
        let up = user_pairs(hs);
        if i < up.len() {
            assert(pairs[i] == up[i]);
            assert(!is_managed_name(up[i].0));
        } else {
            let cp = connection_pairs(keepalive, version);
            assert(pairs[i] == cp[i - up.len()]);
            assert(cp[i - up.len()].0 == ascii_bytes("connection"@));
            reveal_strlit("connection");
            reveal_strlit("content-length");
            lemma_eq_ci_len(ascii_bytes("connection"@), ascii_bytes("content-length"@));
        }
    }
}

/// A response whose body-size hint is `Sized(n)` or `Sized64(n)` carries
/// exactly one `Content-Length` header, whose value is exactly the decimal
/// numeral of `n`.
pub proof fn lemma_sized_content_length(
    hs: Seq<(Seq<u8>, Seq<u8>)>,
    size: BodySize,
    keepalive: bool,
    version: crate::codec::Version,
    n: nat,
)
    requires
        size == BodySize::Sized(n as usize) && n <= usize::MAX || size == BodySize::Sized64(
            n as u64,
        ) && n <= u64::MAX,
    ensures
        ({
            let pairs = head_pairs(hs, size, keepalive, version);
            let k = user_pairs(hs).len() as int;
            &&& 0 <= k < pairs.len()
            &&& pairs[k] == (ascii_bytes("content-length"@), dec_rep(n))
            &&& forall|i: int|
                0 <= i < pairs.len() && i != k ==> !eq_ci(
                    (#[trigger] pairs[i]).0,
                    ascii_bytes("content-length"@),
                )
        }),
{
    lemma_user_pairs_unmanaged(hs);
    let pairs = head_pairs(hs, size, keepalive, version);
    let up = user_pairs(hs);
    let k = up.len() as int;
    assert(framing_pairs(size) == seq![(ascii_bytes("content-length"@), dec_rep(n))]);
    assert(pairs[k] == (ascii_bytes("content-length"@), dec_rep(n)));
    assert forall|i: int| 0 <= i < pairs.len() && i != k implies !eq_ci(
        (#[trigger] pairs[i]).0,
        ascii_bytes("content-length"@),
    ) by {
        if i < k {
            assert(pairs[i] == up[i]);
            assert(!is_managed_name(up[i].0));
        } else {
            let cp = connection_pairs(keepalive, version);
            assert(pairs[i] == cp[i - k - 1]);
            assert(cp[i - k - 1].0 == ascii_bytes("connection"@));
            reveal_strlit("connection");
            reveal_strlit("content-length");
            lemma_eq_ci_len(ascii_bytes("connection"@), ascii_bytes("content-length"@));
        }
    }
}

/// A streamed response is framed by chunked transfer coding and its body
/// always ends with the terminating zero-length chunk frame.
pub proof fn lemma_stream_framing(
    hs: Seq<(Seq<u8>, Seq<u8>)>,
    keepalive: bool,
    version: crate::codec::Version,
)
    ensures
        ({
            let pairs = head_pairs(hs, BodySize::Stream, keepalive, version);
            let k = user_pairs(hs).len() as int;
            pairs[k] == (ascii_bytes("transfer-encoding"@), ascii_bytes("chunked"@))
        }),
        mode_for(BodySize::Stream) == EncodeMode::Chunked,
        eof_frame(EncodeMode::Chunked) == seq![48u8, 13u8, 10u8, 13u8, 10u8],
{
    let pairs = head_pairs(hs, BodySize::Stream, keepalive, version);
    let up = user_pairs(hs);
    let k = up.len() as int;
    assert(framing_pairs(BodySize::Stream) == seq![
        (ascii_bytes("transfer-encoding"@), ascii_bytes("chunked"@)),
    ]);
    assert(pairs[k] == (ascii_bytes("transfer-encoding"@), ascii_bytes("chunked"@)));
}

/// The bytes an in-memory body contributes to the wire are exactly its
/// content: a `Sized(n)` body writes exactly its `n` bytes, an absent or
/// empty body writes nothing.
pub proof fn lemma_full_body_exact(b: Body)
    ensures
        body_frames(mode_for(b.size_spec()), b.chunks_spec()) == (match b {
            Body::Bytes(v) => v@,
            _ => Seq::<u8>::empty(),
        }),
        b matches Body::Bytes(v) ==> b.size_spec() == BodySize::Sized(v@.len() as usize),
{
    match b {
        Body::NoBody => {
            assert(body_frames(mode_for(b.size_spec()), b.chunks_spec()) =~= Seq::<u8>::empty());
        },
        Body::Empty => {
            assert(body_frames(mode_for(b.size_spec()), b.chunks_spec()) =~= Seq::<u8>::empty());
        },
        Body::Bytes(v) => {
            if v@.len() == 0 {
                assert(body_frames(mode_for(b.size_spec()), b.chunks_spec()) =~= Seq::<
                    u8,
                >::empty());
                assert(v@ =~= Seq::<u8>::empty());
            } else {
                let chunks = b.chunks_spec();
                assert(chunks == seq![v@]);
                assert(chunks.skip(1) =~= Seq::<Seq<u8>>::empty());
                assert(body_frames(EncodeMode::Raw, chunks) == crate::codec::chunk_frame(
                    EncodeMode::Raw,
                    v@,
                ) + body_frames(EncodeMode::Raw, chunks.skip(1)));
                assert(body_frames(mode_for(b.size_spec()), b.chunks_spec()) =~= v@);
            }
        },
    }
}

/// The first twenty-six bytes of any response head with status `400` are
/// exactly `HTTP/1.1 400 Bad Request` and its line ending.
pub proof fn lemma_bad_request_prefix(
    hs: Seq<(Seq<u8>, Seq<u8>)>,
    size: BodySize,
    keepalive: bool,
    version: crate::codec::Version,
)
    ensures
        ascii_bytes("HTTP/1.1 400 Bad Request\r\n"@).len() == 26,
        encoded_head(400, hs, size, keepalive, version).subrange(0, 26) == ascii_bytes(
            "HTTP/1.1 400 Bad Request\r\n"@,
        ),
{
    lemma_status_line_400();
    let head = encoded_head(400, hs, size, keepalive, version);
    assert(head.subrange(0, 26) =~= status_line(400));
}

/// The status line of a `400` response, byte for byte.
pub proof fn lemma_status_line_400()
    ensures
        status_line(400) == ascii_bytes("HTTP/1.1 400 Bad Request\r\n"@),
        status_line(400).len() == 26,
{
    reveal_strlit("HTTP/1.1 400 Bad Request\r\n");
    reveal_strlit("HTTP/1.1 ");
    reveal_strlit("Bad Request");
    assert(dec_rep(400) =~= seq![52u8, 48u8, 48u8]) by {
        reveal_with_fuel(dec_rep, 4);
    }
    assert(status_line(400) =~= ascii_bytes("HTTP/1.1 400 Bad Request\r\n"@));
}

/// The status line of a `408` response, byte for byte: a slow request is
/// answered with `HTTP/1.1 408 Request Timeout`.
pub proof fn lemma_status_line_408()
    ensures
        status_line(408) == ascii_bytes("HTTP/1.1 408 Request Timeout\r\n"@),
{
    reveal_strlit("HTTP/1.1 408 Request Timeout\r\n");
    reveal_strlit("HTTP/1.1 ");
    reveal_strlit("Request Timeout");
    assert(dec_rep(408) =~= seq![52u8, 48u8, 56u8]) by {
        reveal_with_fuel(dec_rep, 4);
    }
    assert(status_line(408) =~= ascii_bytes("HTTP/1.1 408 Request Timeout\r\n"@));
}

/// The slow-request response begins with the `408` status line.
pub proof fn lemma_request_timeout_prefix(
    hs: Seq<(Seq<u8>, Seq<u8>)>,
    size: BodySize,
    keepalive: bool,
    version: crate::codec::Version,
)
    ensures
        encoded_head(408, hs, size, keepalive, version).subrange(
            0,
            ascii_bytes("HTTP/1.1 408 Request Timeout\r\n"@).len() as int,
        ) == ascii_bytes("HTTP/1.1 408 Request Timeout\r\n"@),
{
    lemma_status_line_408();
    reveal_strlit("HTTP/1.1 408 Request Timeout\r\n");
    let lit = ascii_bytes("HTTP/1.1 408 Request Timeout\r\n"@);
    let head = encoded_head(408, hs, size, keepalive, version);
    assert(head.subrange(0, lit.len() as int) =~= status_line(408));
}

} // verus!

verus! {

/// The concatenation of a sequence of byte strings.
pub open spec fn concat_all(bufs: Seq<Seq<u8>>) -> Seq<u8>
    decreases bufs.len(),
{
    if bufs.len() == 0 {
        Seq::empty()
    } else {
        bufs[0] + concat_all(bufs.skip(1))
    }
}

/// Each buffer is one complete, syntactically valid request head that
/// declares no body, and `hvs` are their parses.
pub open spec fn complete_bodyless_heads(bufs: Seq<Seq<u8>>, hvs: Seq<HeadView>) -> bool {
    &&& bufs.len() == hvs.len()
    &&& forall|i: int|
        0 <= i < bufs.len() ==> (#[trigger] crate::codec::parse_head(bufs[i])
            == crate::codec::HeadOut::Head(hvs[i], bufs[i].len() as int)
            && crate::codec::body_decl_of(hvs[i].headers) == Some(crate::codec::BodyKind::NoBody))
}

/// Pipelining: when a single read delivers any number of complete,
/// syntactically valid, body-less request heads at once, the decode/queue
/// phase consumes the whole buffer and queues exactly those requests, in
/// arrival order. Together with the head-of-line ordering of the queue and
/// the in-order emission of responses, one read of `N` valid requests is
/// answered by exactly `N` responses, in request order.
pub proof fn lemma_pipelined_heads(m: ReqModel, bufs: Seq<Seq<u8>>, hvs: Seq<HeadView>)
    requires
        complete_bodyless_heads(bufs, hvs),
        m.codec.state == crate::codec::DecodeState::Head,
        m.buf == concat_all(bufs),
        m.msgs.len() + bufs.len() <= MAX_PIPELINED_MESSAGES,
        model_can_read(m),
        m.buf.len() < crate::codec::MAX_HEAD_SIZE,
    ensures
        drain_model(m).msgs == m.msgs + hvs.map_values(|hv: HeadView| crate::dispatcher::QMsg::ItemV(hv)),
        drain_model(m).buf.len() == 0,
        drain_model(m).codec.state == crate::codec::DecodeState::Head,
    decreases bufs.len(),
{
    reveal(drain_model);
    let items = hvs.map_values(|hv: HeadView| crate::dispatcher::QMsg::ItemV(hv));
    if bufs.len() == 0 {
        assert(m.buf =~= Seq::<u8>::empty());
        assert(crate::wire::find_crlf(m.buf, 0) is None);
        assert(decode_spec(m.codec.state, m.buf) == DecodeOut::Progress(
            Option::<MsgView>::None,
            crate::codec::DecodeState::Head,
            0,
        )) by {
            reveal(crate::codec::decode_spec);
        }
        assert(drain_model(m).msgs =~= m.msgs + items);
        assert(drain_model(m).buf =~= m.buf.skip(0));
    } else {
        let head = bufs[0];
        let rest = concat_all(bufs.skip(1));
        crate::codec::lemma_parse_head_stable(head, rest);
        assert(crate::codec::parse_head(m.buf) == crate::codec::HeadOut::Head(
            hvs[0],
            head.len() as int,
        ));
        assert(decode_spec(m.codec.state, m.buf) == DecodeOut::Progress(
            Some(MsgView::Head(hvs[0])),
            crate::codec::state_after_head(hvs[0]),
            head.len() as int,
        )) by {
            reveal(crate::codec::decode_spec);
        }
        assert(crate::codec::state_after_head(hvs[0]) == crate::codec::DecodeState::Head);
        assert(crate::codec::mtype_after_head(hvs[0]) is NoPayload);
        let m2 = drain_head_step(m, hvs[0], crate::codec::DecodeState::Head, head.len() as int);
        assert(drain_model(m) == drain_model(m2));
        assert(m2.buf =~= rest);
        lemma_pipelined_heads(m2, bufs.skip(1), hvs.skip(1));
        let items2 = hvs.skip(1).map_values(|hv: HeadView| crate::dispatcher::QMsg::ItemV(hv));
        assert(drain_model(m2).msgs == m2.msgs + items2);
        assert(m2.msgs == m.msgs.push(crate::dispatcher::QMsg::ItemV(hvs[0])));
        assert(m.msgs.push(crate::dispatcher::QMsg::ItemV(hvs[0])) + items2 =~= m.msgs + items);
    }
}

} // verus!
