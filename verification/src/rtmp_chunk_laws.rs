use vstd::prelude::*;

use crate::bytes::{be24, be32, le32, u24_be, u32_be, u32_le, lemma_u32_be_roundtrip, lemma_u32_le_roundtrip, lemma_u24_be_roundtrip};
use crate::error::ErrorKind;
use crate::rtmp_chunk::{MessageHeaderFormat, RtmpChunk, RtmpChunkModel, RtmpChunkStreamId};
use crate::rtmp_message::{RtmpMessageStreamId, RtmpMessageType};
use crate::rtmp_chunk_decoder::{
    decode_chunk, initial_chunk_stream, parse_basic_header, parse_message_header, parse_payload,
    DecoderChunkStreamModel,
};
use crate::rtmp_chunk_encoder::{
    basic_header_bytes, continuation_chunks, extended_timestamp_field, header_update,
    message_chunks, message_header_bytes, min_nat, resolve_chunk_stream, resolve_fields, timestamp_field,
    EncoderChunkStream, EXTENDED_TIMESTAMP_MARKER,
};
use crate::rtmp_message_decoder::{chunk_step, decode_until_message};
use crate::rtmp_timestamp::RtmpTimestamp;

verus! {

/// Decodes chunks from `b` until it is used up: the final chunk stream states and the
/// messages completed on the way.
pub open spec fn decode_all(
    streams: Map<u32, DecoderChunkStreamModel>,
    chunk_size: nat,
    b: Seq<u8>,
) -> Result<(Map<u32, DecoderChunkStreamModel>, Seq<RtmpChunkModel>), ErrorKind>
    decreases b.len(),
{
    if b.len() == 0 {
        Ok((streams, Seq::<RtmpChunkModel>::empty()))
    } else {
        match decode_chunk(streams, chunk_size, b) {
            Err(e) => Err(e),
            Ok((n, m, c)) => {
                if n <= 0 || n > b.len() {
                    Err(ErrorKind::InvalidData)
                } else {
                    match decode_all(m, chunk_size, b.skip(n)) {
                        Err(e) => Err(e),
                        Ok((m2, cs)) => Ok(
                            (
                                m2,
                                match c {
                                    None => cs,
                                    Some(c) => seq![c] + cs,
                                },
                            ),
                        ),
                    }
                }
            },
        }
    }
}

/// A decoder chunk stream state that agrees with an encoder one between messages.
pub open spec fn synced_stream(e: EncoderChunkStream, d: DecoderChunkStreamModel) -> bool {
    &&& d.timestamp == e.timestamp
    &&& d.timestamp_delta == e.timestamp_delta
    &&& d.message_type == e.message_type
    &&& d.message_stream_id == e.message_stream_id
    &&& d.message_size == e.message_size
    &&& d.acc_payload.len() == 0
    &&& d.enable_f3_extended_timestamp == e.enable_f3_extended_timestamp
}

/// Decoder and encoder know the same chunk streams, in agreeing states.
pub open spec fn synced(enc: Map<u32, EncoderChunkStream>, dec: Map<u32, DecoderChunkStreamModel>) -> bool {
    &&& enc.dom() == dec.dom()
    &&& forall|k: u32| #[trigger] enc.contains_key(k) ==> synced_stream(enc[k], dec[k])
}

/// The basic header decodes to the format and chunk stream ID it was written with.
pub proof fn lemma_basic_header_roundtrip(fmt: MessageHeaderFormat, id: u32, rest: Seq<u8>)
    requires
        2 <= id <= 65599,
    ensures
        parse_basic_header(basic_header_bytes(fmt, id) + rest) == Ok::<
            (int, MessageHeaderFormat, u32),
            ErrorKind,
        >((basic_header_bytes(fmt, id).len() as int, fmt, id)),
{
    let h = basic_header_bytes(fmt, id);
    let b = h + rest;
    assert(b[0] == h[0]);
    assert(MessageHeaderFormat::spec_from_code(fmt.spec_code()) == fmt);
    if id >= 64 {
        assert(b[1] == h[1]);
    }
    if id >= 320 {
        assert(b[2] == h[2]);
    }
}


/// Reading a written 24-bit field.
proof fn lemma_be24_at(b: Seq<u8>, p: int, v: int)
    requires
        0 <= p,
        p + 3 <= b.len(),
        0 <= v < 0x1000000,
        b.subrange(p, p + 3) == u24_be(v),
    ensures
        be24(b, p) == v,
{
    lemma_u24_be_roundtrip(v);
    assert(b[p] == u24_be(v)[0]);
    assert(b[p + 1] == u24_be(v)[1]);
    assert(b[p + 2] == u24_be(v)[2]);
}

/// Reading a written big-endian 32-bit field.
proof fn lemma_be32_at(b: Seq<u8>, p: int, v: int)
    requires
        0 <= p,
        p + 4 <= b.len(),
        0 <= v < 0x1_0000_0000,
        b.subrange(p, p + 4) == u32_be(v),
    ensures
        be32(b, p) == v,
{
    lemma_u32_be_roundtrip(v);
    assert(b[p] == u32_be(v)[0]);
    assert(b[p + 1] == u32_be(v)[1]);
    assert(b[p + 2] == u32_be(v)[2]);
    assert(b[p + 3] == u32_be(v)[3]);
}

/// Reading a written little-endian 32-bit field.
proof fn lemma_le32_at(b: Seq<u8>, p: int, v: int)
    requires
        0 <= p,
        p + 4 <= b.len(),
        0 <= v < 0x1_0000_0000,
        b.subrange(p, p + 4) == u32_le(v),
    ensures
        le32(b, p) == v,
{
    lemma_u32_le_roundtrip(v);
    assert(b[p] == u32_le(v)[0]);
    assert(b[p + 1] == u32_le(v)[1]);
    assert(b[p + 2] == u32_le(v)[2]);
    assert(b[p + 3] == u32_le(v)[3]);
}

/// A written message header reads back into the decoder state.
#[verifier::rlimit(60)]
#[verifier::spinoff_prover]
pub proof fn lemma_message_header_roundtrip(
    fmt: MessageHeaderFormat,
    s: EncoderChunkStream,
    d: DecoderChunkStreamModel,
    b: Seq<u8>,
    p: int,
)
    requires
        0 <= p,
        p + message_header_bytes(fmt, s).len() <= b.len(),
        b.subrange(p, p + message_header_bytes(fmt, s).len()) == message_header_bytes(fmt, s),
        s.message_size < 0x1000000,
        fmt == MessageHeaderFormat::F3 ==> d.enable_f3_extended_timestamp
            == s.enable_f3_extended_timestamp,
    ensures
        parse_message_header(b, p, fmt, d) == Ok::<(int, DecoderChunkStreamModel), ErrorKind>(
            (p + message_header_bytes(fmt, s).len(), header_read(fmt, s, d)),
        ),
{
    let h = message_header_bytes(fmt, s);
    crate::rtmp_message::lemma_message_type_id_roundtrip(s.message_type);
    match fmt {
        MessageHeaderFormat::F0 => {
            let t = s.timestamp.0;
            let e = extended_timestamp_field(t);
            assert(h == timestamp_field(t) + u24_be(s.message_size as int) + seq![s.message_type.spec_type_id()]
                + u32_le(s.message_stream_id.0 as int) + e);
            assert(b.subrange(p, p + 3) =~= h.subrange(0, 3));
            assert(b.subrange(p + 3, p + 6) =~= h.subrange(3, 6));
            assert(b.subrange(p + 7, p + 11) =~= h.subrange(7, 11));
            assert(b.subrange(p + 11, p + 11 + e.len()) =~= h.subrange(11, 11 + e.len() as int));
            assert(h.subrange(0, 3) =~= timestamp_field(t));
            assert(h.subrange(3, 6) =~= u24_be(s.message_size as int));
            assert(h.subrange(7, 11) =~= u32_le(s.message_stream_id.0 as int));
            assert(h.subrange(11, 11 + e.len() as int) =~= e);
            assert(b[p + 6] == h[6]);
            lemma_be24_at(b, p + 3, s.message_size as int);
            lemma_le32_at(b, p + 7, s.message_stream_id.0 as int);
            if t >= EXTENDED_TIMESTAMP_MARKER {
                lemma_be24_at(b, p, EXTENDED_TIMESTAMP_MARKER as int);
                lemma_be32_at(b, p + 11, t as int);
            } else {
                lemma_be24_at(b, p, t as int);
            }
        },
        MessageHeaderFormat::F1 => {
            let t = s.timestamp_delta.0;
            let e = extended_timestamp_field(t);
            assert(h == timestamp_field(t) + u24_be(s.message_size as int) + seq![s.message_type.spec_type_id()] + e);
            assert(b.subrange(p, p + 3) =~= h.subrange(0, 3));
            assert(b.subrange(p + 3, p + 6) =~= h.subrange(3, 6));
            assert(b.subrange(p + 7, p + 7 + e.len()) =~= h.subrange(7, 7 + e.len() as int));
            assert(h.subrange(0, 3) =~= timestamp_field(t));
            assert(h.subrange(3, 6) =~= u24_be(s.message_size as int));
            assert(h.subrange(7, 7 + e.len() as int) =~= e);
            assert(b[p + 6] == h[6]);
            lemma_be24_at(b, p + 3, s.message_size as int);
            if t >= EXTENDED_TIMESTAMP_MARKER {
                lemma_be24_at(b, p, EXTENDED_TIMESTAMP_MARKER as int);
                lemma_be32_at(b, p + 7, t as int);
            } else {
                lemma_be24_at(b, p, t as int);
            }
        },
        MessageHeaderFormat::F2 => {
            let t = s.timestamp_delta.0;
            let e = extended_timestamp_field(t);
            assert(h == timestamp_field(t) + e);
            assert(b.subrange(p, p + 3) =~= h.subrange(0, 3));
            assert(b.subrange(p + 3, p + 3 + e.len()) =~= h.subrange(3, 3 + e.len() as int));
            assert(h.subrange(0, 3) =~= timestamp_field(t));
            assert(h.subrange(3, 3 + e.len() as int) =~= e);
            if t >= EXTENDED_TIMESTAMP_MARKER {
                lemma_be24_at(b, p, EXTENDED_TIMESTAMP_MARKER as int);
                lemma_be32_at(b, p + 3, t as int);
            } else {
                lemma_be24_at(b, p, t as int);
            }
        },
        MessageHeaderFormat::F3 => {
            if s.enable_f3_extended_timestamp {
                lemma_be32_at(b, p, s.timestamp_delta.0 as int);
            }
        },
    }
}

/// The decoder state after reading a header written from encoder state `s` over state `d`.
pub open spec fn header_read(fmt: MessageHeaderFormat, s: EncoderChunkStream, d: DecoderChunkStreamModel) -> DecoderChunkStreamModel {
    match fmt {
        MessageHeaderFormat::F0 => DecoderChunkStreamModel {
            timestamp: RtmpTimestamp(0),
            timestamp_delta: s.timestamp,
            message_type: s.message_type,
            message_stream_id: s.message_stream_id,
            message_size: s.message_size,
            enable_f3_extended_timestamp: s.timestamp.0 >= EXTENDED_TIMESTAMP_MARKER,
            ..d
        },
        MessageHeaderFormat::F1 => DecoderChunkStreamModel {
            timestamp_delta: s.timestamp_delta,
            message_type: s.message_type,
            message_size: s.message_size,
            enable_f3_extended_timestamp: s.timestamp_delta.0 >= EXTENDED_TIMESTAMP_MARKER,
            ..d
        },
        MessageHeaderFormat::F2 => DecoderChunkStreamModel {
            timestamp_delta: s.timestamp_delta,
            enable_f3_extended_timestamp: s.timestamp_delta.0 >= EXTENDED_TIMESTAMP_MARKER,
            ..d
        },
        MessageHeaderFormat::F3 => if d.enable_f3_extended_timestamp {
            DecoderChunkStreamModel { timestamp_delta: s.timestamp_delta, ..d }
        } else {
            d
        },
    }
}


/// A decoder chunk stream state in the middle of a message written from encoder state `s`
/// (the state after the message's first header), having received `k` payload bytes.
pub open spec fn mid_message(d: DecoderChunkStreamModel, s: EncoderChunkStream, payload: Seq<u8>, k: int) -> bool {
    &&& d.message_stream_id == s.message_stream_id
    &&& d.message_type == s.message_type
    &&& d.message_size == s.message_size
    &&& d.message_size == payload.len()
    &&& (d.timestamp.0 + d.timestamp_delta.0) % 0x1_0000_0000 == s.timestamp.0
    &&& d.timestamp_delta == s.timestamp_delta
    &&& d.enable_f3_extended_timestamp == s.enable_f3_extended_timestamp
    &&& 0 <= k <= payload.len()
    &&& d.acc_payload == payload.take(k)
}

/// The decoder chunk stream state once the message is complete.
pub open spec fn completed(d: DecoderChunkStreamModel) -> DecoderChunkStreamModel {
    DecoderChunkStreamModel {
        timestamp: RtmpTimestamp(((d.timestamp.0 + d.timestamp_delta.0) % 0x1_0000_0000) as u32),
        acc_payload: Seq::<u8>::empty(),
        ..d
    }
}

/// The message a chunk stream delivers.
pub open spec fn delivered(id: u32, s: EncoderChunkStream, payload: Seq<u8>) -> RtmpChunkModel {
    RtmpChunkModel {
        chunk_stream_id: id,
        message_stream_id: s.message_stream_id,
        message_type: s.message_type,
        timestamp: s.timestamp,
        payload,
    }
}

/// Reading the payload part of one chunk.
proof fn lemma_payload_step(
    b: Seq<u8>,
    q: int,
    d: DecoderChunkStreamModel,
    s: EncoderChunkStream,
    payload: Seq<u8>,
    k: int,
    chunk_size: nat,
)
    requires
        mid_message(d, s, payload, k),
        chunk_size >= 1,
        0 <= q,
        q + min_nat((payload.len() - k) as nat, chunk_size) <= b.len(),
        b.subrange(q, q + min_nat((payload.len() - k) as nat, chunk_size)) == payload.subrange(
            k,
            k + min_nat((payload.len() - k) as nat, chunk_size),
        ),
    ensures
        ({
            let n = min_nat((payload.len() - k) as nat, chunk_size) as int;
            if k + n == payload.len() {
                parse_payload(b, q, d, chunk_size) == Ok::<
                    (int, DecoderChunkStreamModel, Option<Seq<u8>>),
                    ErrorKind,
                >((q + n, completed(d), Some(payload)))
            } else {
                &&& parse_payload(b, q, d, chunk_size) == Ok::<
                    (int, DecoderChunkStreamModel, Option<Seq<u8>>),
                    ErrorKind,
                >((q + n, DecoderChunkStreamModel { acc_payload: payload.take(k + n), ..d }, None))
                &&& mid_message(DecoderChunkStreamModel { acc_payload: payload.take(k + n), ..d }, s, payload, k + n)
            }
        }),
{
    let n = min_nat((payload.len() - k) as nat, chunk_size) as int;
    assert(payload.take(k) + payload.subrange(k, k + n) =~= payload.take(k + n));
    if k + n == payload.len() {
        assert(payload.take(k + n) =~= payload);
    }
}

/// The state of a chunk stream after one more chunk of the message.
pub open spec fn after_chunk(d: DecoderChunkStreamModel, payload: Seq<u8>, k: int, n: int) -> DecoderChunkStreamModel {
    if k + n == payload.len() {
        completed(d)
    } else {
        DecoderChunkStreamModel { acc_payload: payload.take(k + n), ..d }
    }
}

/// Decoding one format 3 continuation chunk.
#[verifier::rlimit(100)]
#[verifier::spinoff_prover]
proof fn lemma_continuation_step(
    m: Map<u32, DecoderChunkStreamModel>,
    id: u32,
    s: EncoderChunkStream,
    payload: Seq<u8>,
    k: int,
    chunk_size: nat,
)
    requires
        2 <= id <= 65599,
        s.chunk_stream_id.value() == id,
        m.contains_key(id),
        mid_message(m[id], s, payload, k),
        payload.len() < 0x1000000,
        k < payload.len(),
        chunk_size >= 1,
    ensures
        ({
            let n = min_nat((payload.len() - k) as nat, chunk_size) as int;
            let b = continuation_chunks(s, payload.skip(k), chunk_size);
            let c = basic_header_bytes(MessageHeaderFormat::F3, id).len() + message_header_bytes(MessageHeaderFormat::F3, s).len() + n;
            &&& 0 < n
            &&& 0 < c <= b.len()
            &&& decode_chunk(m, chunk_size, b) == Ok::<
                (int, Map<u32, DecoderChunkStreamModel>, Option<RtmpChunkModel>),
                ErrorKind,
            >((c, m.insert(id, after_chunk(m[id], payload, k, n)),
                if k + n == payload.len() { Some(delivered(id, s, payload)) } else { None }))
            &&& b.skip(c) == continuation_chunks(s, payload.skip(k + n), chunk_size)
            &&& k + n < payload.len() ==> mid_message(after_chunk(m[id], payload, k, n), s, payload, k + n)
            &&& k + n < payload.len() ==> completed(after_chunk(m[id], payload, k, n)) == completed(m[id])
        }),
{
    let d = m[id];
    let rest = payload.skip(k);
    let n = min_nat(rest.len(), chunk_size) as int;
    let bh = basic_header_bytes(MessageHeaderFormat::F3, id);
    let mh = message_header_bytes(MessageHeaderFormat::F3, s);
    let tail = continuation_chunks(s, rest.skip(n), chunk_size);
    let b = continuation_chunks(s, rest, chunk_size);
    assert(b == bh + mh + rest.take(n) + tail);
    assert(b == bh + (mh + rest.take(n) + tail));
    lemma_basic_header_roundtrip(MessageHeaderFormat::F3, id, mh + rest.take(n) + tail);
    let p = bh.len() as int;
    assert(b.subrange(p, p + mh.len()) =~= mh);
    lemma_message_header_roundtrip(MessageHeaderFormat::F3, s, d, b, p);
    assert(header_read(MessageHeaderFormat::F3, s, d) == d);
    let q = p + mh.len();
    assert(b.subrange(q, q + n) =~= payload.subrange(k, k + n));
    lemma_payload_step(b, q, d, s, payload, k, chunk_size);
    assert(parse_basic_header(b) == Ok::<(int, MessageHeaderFormat, u32), ErrorKind>((p, MessageHeaderFormat::F3, id)));
    assert(parse_message_header(b, p, MessageHeaderFormat::F3, d) == Ok::<(int, DecoderChunkStreamModel), ErrorKind>((q, d)));
    let nd = after_chunk(d, payload, k, n);
    if k + n == payload.len() {
        assert(parse_payload(b, q, d, chunk_size) == Ok::<(int, DecoderChunkStreamModel, Option<Seq<u8>>), ErrorKind>((q + n, nd, Some(payload))));
        assert(completed(d).timestamp == s.timestamp);
    } else {
        assert(parse_payload(b, q, d, chunk_size) == Ok::<(int, DecoderChunkStreamModel, Option<Seq<u8>>), ErrorKind>((q + n, nd, None)));
    }
    assert(rest.skip(n) =~= payload.skip(k + n));
    assert(b.skip(q + n) =~= tail);
    assert(0 < n);
    assert(0 < q + n <= b.len());
    assert(decode_chunk(m, chunk_size, b) == Ok::<
                (int, Map<u32, DecoderChunkStreamModel>, Option<RtmpChunkModel>),
                ErrorKind,
            >((q + n, m.insert(id, nd),
                if k + n == payload.len() { Some(delivered(id, s, payload)) } else { None })));
    assert(k + n < payload.len() ==> mid_message(nd, s, payload, k + n));
}

/// Decoding the format 3 continuation chunks of a message delivers it.
#[verifier::rlimit(100)]
#[verifier::spinoff_prover]
proof fn lemma_continuation_roundtrip(
    m: Map<u32, DecoderChunkStreamModel>,
    id: u32,
    s: EncoderChunkStream,
    payload: Seq<u8>,
    k: int,
    chunk_size: nat,
)
    requires
        2 <= id <= 65599,
        s.chunk_stream_id.value() == id,
        m.contains_key(id),
        mid_message(m[id], s, payload, k),
        payload.len() < 0x1000000,
        k < payload.len(),
        chunk_size >= 1,
    ensures
        decode_all(m, chunk_size, continuation_chunks(s, payload.skip(k), chunk_size)) == Ok::<
            (Map<u32, DecoderChunkStreamModel>, Seq<RtmpChunkModel>),
            ErrorKind,
        >((m.insert(id, completed(m[id])), seq![delivered(id, s, payload)])),
    decreases payload.len() - k,
{
    let d = m[id];
    let n = min_nat((payload.len() - k) as nat, chunk_size) as int;
    let b = continuation_chunks(s, payload.skip(k), chunk_size);
    lemma_continuation_step(m, id, s, payload, k, chunk_size);
    let c = basic_header_bytes(MessageHeaderFormat::F3, id).len() + message_header_bytes(MessageHeaderFormat::F3, s).len() + n;
    let m1 = m.insert(id, after_chunk(d, payload, k, n));
    if k + n == payload.len() {
        assert(payload.skip(k + n).len() == 0);
        assert(b.skip(c).len() == 0);
        assert(decode_all(m1, chunk_size, b.skip(c)) == Ok::<
            (Map<u32, DecoderChunkStreamModel>, Seq<RtmpChunkModel>),
            ErrorKind,
        >((m1, Seq::<RtmpChunkModel>::empty())));
        assert(seq![delivered(id, s, payload)] + Seq::<RtmpChunkModel>::empty() =~= seq![delivered(id, s, payload)]);
    } else {
        let d2 = after_chunk(d, payload, k, n);
        assert(m1[id] == d2);
        lemma_continuation_roundtrip(m1, id, s, payload, k + n, chunk_size);
        assert(m1.insert(id, completed(d2)) =~= m.insert(id, completed(d)));
        assert(decode_all(m1, chunk_size, b.skip(c)) == Ok::<
            (Map<u32, DecoderChunkStreamModel>, Seq<RtmpChunkModel>),
            ErrorKind,
        >((m.insert(id, completed(d)), seq![delivered(id, s, payload)])));
    }
}

/// The chunk stream state a decoder starts a message from.
pub open spec fn decoder_start(dec: Map<u32, DecoderChunkStreamModel>, id: u32) -> DecoderChunkStreamModel {
    if dec.contains_key(id) {
        dec[id]
    } else {
        initial_chunk_stream()
    }
}

/// After the first message header, the decoder is at the start of the message that the
/// encoder resolved.
proof fn lemma_first_header(
    enc: Map<u32, EncoderChunkStream>,
    dec: Map<u32, DecoderChunkStreamModel>,
    id: RtmpChunkStreamId,
    msid: RtmpMessageStreamId,
    mtype: RtmpMessageType,
    ts: RtmpTimestamp,
    payload: Seq<u8>,
)
    requires
        synced(enc, dec),
        payload.len() < 0x1000000,
    ensures
        ({
            let s = resolve_fields(enc.get(id.value()), id, msid, mtype, ts, payload.len());
            let d0 = decoder_start(dec, id.value());
            &&& dec.contains_key(id.value()) || s.format == MessageHeaderFormat::F0
            &&& s.format == MessageHeaderFormat::F3 ==> d0.enable_f3_extended_timestamp
                == s.enable_f3_extended_timestamp
            &&& mid_message(header_read(s.format, s, d0), header_update(s.format, s), payload, 0)
        }),
{
    let k = id.value();
    let s = resolve_fields(enc.get(k), id, msid, mtype, ts, payload.len());
    let d0 = decoder_start(dec, k);
    assert(payload.take(0) =~= Seq::<u8>::empty());
    let s1 = header_update(s.format, s);
    let d1 = header_read(s.format, s, d0);
    if enc.contains_key(k) {
        let l = enc[k];
        assert(enc.get(k) == Some(l));
        assert(synced_stream(enc[k], dec[k]));
        assert(d0.acc_payload =~= Seq::<u8>::empty());
        if ts.0 < l.timestamp.0 {
            assert(s.format == MessageHeaderFormat::F0);
        } else {
            assert(s.timestamp_delta.0 == ts.0 - l.timestamp.0);
            assert(d0.timestamp == l.timestamp);
        }
    } else {
        assert(enc.get(k) == None::<EncoderChunkStream>);
        assert(!dec.contains_key(k));
        assert(s.format == MessageHeaderFormat::F0);
    }
    assert(d1.message_stream_id == s1.message_stream_id);
    assert(d1.message_type == s1.message_type);
    assert(d1.message_size == s1.message_size);
    assert(d1.message_size == payload.len());
    assert((d1.timestamp.0 + d1.timestamp_delta.0) % 0x1_0000_0000 == s1.timestamp.0);
    assert(d1.timestamp_delta == s1.timestamp_delta);
    assert(d1.enable_f3_extended_timestamp == s1.enable_f3_extended_timestamp);
    assert(d1.acc_payload == payload.take(0));
}

/// `decode_chunk` put together from its three parts.
proof fn lemma_decode_chunk_parts(
    dec: Map<u32, DecoderChunkStreamModel>,
    chunk_size: nat,
    b: Seq<u8>,
    p: int,
    fmt: MessageHeaderFormat,
    id: u32,
    d0: DecoderChunkStreamModel,
    q: int,
    d1: DecoderChunkStreamModel,
    r: int,
    d2: DecoderChunkStreamModel,
    out: Option<Seq<u8>>,
)
    requires
        parse_basic_header(b) == Ok::<(int, MessageHeaderFormat, u32), ErrorKind>((p, fmt, id)),
        d0 == decoder_start(dec, id),
        dec.contains_key(id) || fmt == MessageHeaderFormat::F0,
        parse_message_header(b, p, fmt, d0) == Ok::<(int, DecoderChunkStreamModel), ErrorKind>((q, d1)),
        parse_payload(b, q, d1, chunk_size) == Ok::<
            (int, DecoderChunkStreamModel, Option<Seq<u8>>),
            ErrorKind,
        >((r, d2, out)),
    ensures
        decode_chunk(dec, chunk_size, b) == Ok::<
            (int, Map<u32, DecoderChunkStreamModel>, Option<RtmpChunkModel>),
            ErrorKind,
        >((r, dec.insert(id, d2), match out {
            None => None,
            Some(pl) => Some(RtmpChunkModel {
                chunk_stream_id: id,
                message_stream_id: d2.message_stream_id,
                message_type: d2.message_type,
                timestamp: d2.timestamp,
                payload: pl,
            }),
        })),
{
}

/// Decoding the first chunk of a message.
#[verifier::rlimit(100)]
#[verifier::spinoff_prover]
proof fn lemma_first_chunk(
    dec: Map<u32, DecoderChunkStreamModel>,
    id: u32,
    s: EncoderChunkStream,
    d0: DecoderChunkStreamModel,
    payload: Seq<u8>,
    chunk_size: nat,
)
    requires
        2 <= id <= 65599,
        s.chunk_stream_id.value() == id,
        d0 == decoder_start(dec, id),
        dec.contains_key(id) || s.format == MessageHeaderFormat::F0,
        s.format == MessageHeaderFormat::F3 ==> d0.enable_f3_extended_timestamp
            == s.enable_f3_extended_timestamp,
        mid_message(header_read(s.format, s, d0), header_update(s.format, s), payload, 0),
        payload.len() < 0x1000000,
        chunk_size >= 1,
    ensures
        ({
            let s1 = header_update(s.format, s);
            let d1 = header_read(s.format, s, d0);
            let n = min_nat(payload.len(), chunk_size) as int;
            let b = message_chunks(s, payload, chunk_size);
            let h = basic_header_bytes(s.format, id).len() + message_header_bytes(s.format, s).len() + n;
            &&& 0 < h <= b.len()
            &&& decode_chunk(dec, chunk_size, b) == Ok::<
                (int, Map<u32, DecoderChunkStreamModel>, Option<RtmpChunkModel>),
                ErrorKind,
            >((h, dec.insert(id, after_chunk(d1, payload, 0, n)),
                if n == payload.len() { Some(delivered(id, s1, payload)) } else { None }))
            &&& b.skip(h) == continuation_chunks(s1, payload.skip(n), chunk_size)
            &&& n < payload.len() ==> mid_message(after_chunk(d1, payload, 0, n), s1, payload, n)
            &&& n < payload.len() ==> completed(after_chunk(d1, payload, 0, n)) == completed(d1)
        }),
{
    let s1 = header_update(s.format, s);
    let d1 = header_read(s.format, s, d0);
    let n = min_nat(payload.len(), chunk_size) as int;
    let bh = basic_header_bytes(s.format, id);
    let mh = message_header_bytes(s.format, s);
    let tail = continuation_chunks(s1, payload.skip(n), chunk_size);
    let b = message_chunks(s, payload, chunk_size);
    let p = bh.len() as int;
    let q = p + mh.len();
    assert(b == bh + (mh + payload.take(n) + tail));
    assert(parse_basic_header(b) == Ok::<(int, MessageHeaderFormat, u32), ErrorKind>((p, s.format, id))) by {
        lemma_basic_header_roundtrip(s.format, id, mh + payload.take(n) + tail);
    }
    assert(parse_message_header(b, p, s.format, d0) == Ok::<(int, DecoderChunkStreamModel), ErrorKind>((q, d1))) by {
        assert(b.subrange(p, p + mh.len()) =~= mh);
        lemma_message_header_roundtrip(s.format, s, d0, b, p);
    }
    assert(b.subrange(q, q + n) =~= payload.subrange(0, n));
    lemma_payload_step(b, q, d1, s1, payload, 0, chunk_size);
    let nd = after_chunk(d1, payload, 0, n);
    if n == payload.len() {
        lemma_decode_chunk_parts(dec, chunk_size, b, p, s.format, id, d0, q, d1, q + n, nd, Some(payload));
    } else {
        lemma_decode_chunk_parts(dec, chunk_size, b, p, s.format, id, d0, q, d1, q + n, nd, None);
    }
    assert(b.skip(q + n) =~= tail);
}

/// Decoding all chunks of one message.
#[verifier::rlimit(100)]
#[verifier::spinoff_prover]
proof fn lemma_message_roundtrip(
    dec: Map<u32, DecoderChunkStreamModel>,
    id: u32,
    s: EncoderChunkStream,
    d0: DecoderChunkStreamModel,
    payload: Seq<u8>,
    chunk_size: nat,
)
    requires
        2 <= id <= 65599,
        s.chunk_stream_id.value() == id,
        d0 == decoder_start(dec, id),
        dec.contains_key(id) || s.format == MessageHeaderFormat::F0,
        s.format == MessageHeaderFormat::F3 ==> d0.enable_f3_extended_timestamp
            == s.enable_f3_extended_timestamp,
        mid_message(header_read(s.format, s, d0), header_update(s.format, s), payload, 0),
        payload.len() < 0x1000000,
        chunk_size >= 1,
    ensures
        decode_all(dec, chunk_size, message_chunks(s, payload, chunk_size)) == Ok::<
            (Map<u32, DecoderChunkStreamModel>, Seq<RtmpChunkModel>),
            ErrorKind,
        >((dec.insert(id, completed(header_read(s.format, s, d0))),
            seq![delivered(id, header_update(s.format, s), payload)])),
{
    let s1 = header_update(s.format, s);
    let d1 = header_read(s.format, s, d0);
    let n = min_nat(payload.len(), chunk_size) as int;
    let b = message_chunks(s, payload, chunk_size);
    let h = basic_header_bytes(s.format, id).len() + message_header_bytes(s.format, s).len() + n;
    lemma_first_chunk(dec, id, s, d0, payload, chunk_size);
    let m1 = dec.insert(id, after_chunk(d1, payload, 0, n));
    let m2 = dec.insert(id, completed(d1));
    let out = seq![delivered(id, s1, payload)];
    if n == payload.len() {
        assert(payload.skip(n).len() == 0);
        assert(b.skip(h).len() == 0);
        assert(decode_all(m1, chunk_size, b.skip(h)) == Ok::<
            (Map<u32, DecoderChunkStreamModel>, Seq<RtmpChunkModel>),
            ErrorKind,
        >((m1, Seq::<RtmpChunkModel>::empty())));
        assert(out + Seq::<RtmpChunkModel>::empty() =~= out);
        assert(m1 == m2);
    } else {
        assert(m1[id] == after_chunk(d1, payload, 0, n));
        lemma_continuation_roundtrip(m1, id, s1, payload, n, chunk_size);
        assert(m1.insert(id, completed(after_chunk(d1, payload, 0, n))) =~= m2);
    }
}

/// One message written by the chunk encoder decodes, chunk after chunk, to that same
/// message; afterwards encoder and decoder agree on every chunk stream again.
pub proof fn lemma_chunk_roundtrip(
    enc: Map<u32, EncoderChunkStream>,
    dec: Map<u32, DecoderChunkStreamModel>,
    id: RtmpChunkStreamId,
    msid: RtmpMessageStreamId,
    mtype: RtmpMessageType,
    ts: RtmpTimestamp,
    payload: Seq<u8>,
    chunk_size: nat,
)
    requires
        synced(enc, dec),
        2 <= id.value() <= 65599,
        payload.len() < 0x1000000,
        chunk_size >= 1,
    ensures
        ({
            let s = resolve_fields(enc.get(id.value()), id, msid, mtype, ts, payload.len());
            decode_all(dec, chunk_size, message_chunks(s, payload, chunk_size)) matches Ok((m, out))
                && out == seq![
                RtmpChunkModel {
                    chunk_stream_id: id.value(),
                    message_stream_id: msid,
                    message_type: mtype,
                    timestamp: ts,
                    payload,
                },
            ] && synced(enc.insert(id.value(), header_update(s.format, s)), m)
        }),
{
    let k = id.value();
    let s = resolve_fields(enc.get(k), id, msid, mtype, ts, payload.len());
    let s1 = header_update(s.format, s);
    let d0 = decoder_start(dec, k);
    let d1 = header_read(s.format, s, d0);
    lemma_first_header(enc, dec, id, msid, mtype, ts, payload);
    lemma_message_roundtrip(dec, k, s, d0, payload, chunk_size);
    let m2 = dec.insert(k, completed(d1));
    let e2 = enc.insert(k, s1);
    assert(e2.dom() =~= m2.dom());
    assert forall|j: u32| #[trigger] e2.contains_key(j) implies synced_stream(e2[j], m2[j]) by {
        if j != k {
            assert(enc.contains_key(j));
        }
    }
}

/// Decoding the format 3 continuation chunks of a message, until it completes, uses them
/// all up and delivers it.
#[verifier::rlimit(100)]
#[verifier::spinoff_prover]
proof fn lemma_continuation_until(
    m: Map<u32, DecoderChunkStreamModel>,
    id: u32,
    s: EncoderChunkStream,
    payload: Seq<u8>,
    k: int,
    chunk_size: nat,
)
    requires
        2 <= id <= 65599,
        s.chunk_stream_id.value() == id,
        m.contains_key(id),
        mid_message(m[id], s, payload, k),
        payload.len() < 0x1000000,
        k < payload.len(),
        chunk_size >= 1,
    ensures
        decode_until_message(m, chunk_size, continuation_chunks(s, payload.skip(k), chunk_size)) == (
            continuation_chunks(s, payload.skip(k), chunk_size).len() as int,
            m.insert(id, completed(m[id])),
            Ok::<Option<RtmpChunkModel>, ErrorKind>(Some(delivered(id, s, payload))),
        ),
    decreases payload.len() - k,
{
    reveal(chunk_step);
    let d = m[id];
    let n = min_nat((payload.len() - k) as nat, chunk_size) as int;
    let b = continuation_chunks(s, payload.skip(k), chunk_size);
    lemma_continuation_step(m, id, s, payload, k, chunk_size);
    let c = basic_header_bytes(MessageHeaderFormat::F3, id).len() + message_header_bytes(MessageHeaderFormat::F3, s).len() + n;
    let m1 = m.insert(id, after_chunk(d, payload, k, n));
    if k + n == payload.len() {
        assert(payload.skip(k + n).len() == 0);
        assert(b.skip(c).len() == 0);
        assert(m1 == m.insert(id, completed(d)));
    } else {
        let d2 = after_chunk(d, payload, k, n);
        assert(m1[id] == d2);
        lemma_continuation_until(m1, id, s, payload, k + n, chunk_size);
        assert(m1.insert(id, completed(d2)) =~= m.insert(id, completed(d)));
    }
}

/// Decoding all chunks of one message, until it completes, uses them all up.
#[verifier::rlimit(100)]
#[verifier::spinoff_prover]
proof fn lemma_message_until(
    dec: Map<u32, DecoderChunkStreamModel>,
    id: u32,
    s: EncoderChunkStream,
    d0: DecoderChunkStreamModel,
    payload: Seq<u8>,
    chunk_size: nat,
)
    requires
        2 <= id <= 65599,
        s.chunk_stream_id.value() == id,
        d0 == decoder_start(dec, id),
        dec.contains_key(id) || s.format == MessageHeaderFormat::F0,
        s.format == MessageHeaderFormat::F3 ==> d0.enable_f3_extended_timestamp
            == s.enable_f3_extended_timestamp,
        mid_message(header_read(s.format, s, d0), header_update(s.format, s), payload, 0),
        payload.len() < 0x1000000,
        chunk_size >= 1,
    ensures
        decode_until_message(dec, chunk_size, message_chunks(s, payload, chunk_size)) == (
            message_chunks(s, payload, chunk_size).len() as int,
            dec.insert(id, completed(header_read(s.format, s, d0))),
            Ok::<Option<RtmpChunkModel>, ErrorKind>(Some(delivered(id, header_update(s.format, s), payload))),
        ),
{
    reveal(chunk_step);
    let s1 = header_update(s.format, s);
    let d1 = header_read(s.format, s, d0);
    let n = min_nat(payload.len(), chunk_size) as int;
    let b = message_chunks(s, payload, chunk_size);
    let h = basic_header_bytes(s.format, id).len() + message_header_bytes(s.format, s).len() + n;
    lemma_first_chunk(dec, id, s, d0, payload, chunk_size);
    let m1 = dec.insert(id, after_chunk(d1, payload, 0, n));
    let m2 = dec.insert(id, completed(d1));
    if n == payload.len() {
        assert(payload.skip(n).len() == 0);
        assert(b.skip(h).len() == 0);
        assert(m1 == m2);
    } else {
        let d2 = after_chunk(d1, payload, 0, n);
        assert(m1[id] == d2);
        lemma_continuation_until(m1, id, s1, payload, n, chunk_size);
        assert(m1.insert(id, completed(d2)) =~= m2);
    }
}

/// One message written by the chunk encoder is what a decoder in step with it decodes
/// next, using up exactly its chunks; afterwards encoder and decoder agree on every chunk
/// stream again.
pub proof fn lemma_chunk_decode_until(
    enc: Map<u32, EncoderChunkStream>,
    dec: Map<u32, DecoderChunkStreamModel>,
    id: RtmpChunkStreamId,
    msid: RtmpMessageStreamId,
    mtype: RtmpMessageType,
    ts: RtmpTimestamp,
    payload: Seq<u8>,
    chunk_size: nat,
)
    requires
        synced(enc, dec),
        2 <= id.value() <= 65599,
        payload.len() < 0x1000000,
        chunk_size >= 1,
    ensures
        ({
            let s = resolve_fields(enc.get(id.value()), id, msid, mtype, ts, payload.len());
            let b = message_chunks(s, payload, chunk_size);
            decode_until_message(dec, chunk_size, b) matches (k, m, Ok(Some(c))) && k == b.len() && c == (
            RtmpChunkModel {
                chunk_stream_id: id.value(),
                message_stream_id: msid,
                message_type: mtype,
                timestamp: ts,
                payload,
            }) && synced(enc.insert(id.value(), header_update(s.format, s)), m)
        }),
{
    let k = id.value();
    let s = resolve_fields(enc.get(k), id, msid, mtype, ts, payload.len());
    let s1 = header_update(s.format, s);
    let d0 = decoder_start(dec, k);
    let d1 = header_read(s.format, s, d0);
    lemma_first_header(enc, dec, id, msid, mtype, ts, payload);
    lemma_message_until(dec, k, s, d0, payload, chunk_size);
    lemma_chunk_roundtrip(enc, dec, id, msid, mtype, ts, payload, chunk_size);
    lemma_message_roundtrip(dec, k, s, d0, payload, chunk_size);
}

/// The chunk basic header is read from the first bytes alone.
proof fn lemma_basic_header_prefix(x: Seq<u8>, y: Seq<u8>)
    requires
        parse_basic_header(x) is Ok,
    ensures
        parse_basic_header(x + y) == parse_basic_header(x),
{
    let b = x + y;
    assert(b[0] == x[0]);
    if x.len() >= 2 {
        assert(b[1] == x[1]);
    }
    if x.len() >= 3 {
        assert(b[2] == x[2]);
    }
}

/// A chunk message header is read from the bytes before its end alone.
proof fn lemma_message_header_prefix(
    x: Seq<u8>,
    y: Seq<u8>,
    p: int,
    fmt: MessageHeaderFormat,
    st: DecoderChunkStreamModel,
)
    requires
        0 <= p,
        parse_message_header(x, p, fmt, st) is Ok,
    ensures
        parse_message_header(x + y, p, fmt, st) == parse_message_header(x, p, fmt, st),
{
    let b = x + y;
    assert forall|i: int| 0 <= i < x.len() implies b[i] == x[i] by {}
    match fmt {
        MessageHeaderFormat::F0 => {
            assert(be24(b, p) == be24(x, p));
            assert(be24(b, p + 3) == be24(x, p + 3));
            assert(b[p + 6] == x[p + 6]);
            assert(le32(b, p + 7) == le32(x, p + 7));
            if be24(x, p) == EXTENDED_TIMESTAMP_MARKER {
                assert(be32(b, p + 11) == be32(x, p + 11));
            }
        },
        MessageHeaderFormat::F1 => {
            assert(be24(b, p) == be24(x, p));
            assert(be24(b, p + 3) == be24(x, p + 3));
            assert(b[p + 6] == x[p + 6]);
            if be24(x, p) == EXTENDED_TIMESTAMP_MARKER {
                assert(be32(b, p + 7) == be32(x, p + 7));
            }
        },
        MessageHeaderFormat::F2 => {
            assert(be24(b, p) == be24(x, p));
            if be24(x, p) == EXTENDED_TIMESTAMP_MARKER {
                assert(be32(b, p + 3) == be32(x, p + 3));
            }
        },
        MessageHeaderFormat::F3 => {
            if st.enable_f3_extended_timestamp {
                assert(be32(b, p) == be32(x, p));
            }
        },
    }
}

/// A chunk that the received bytes hold decodes the same whatever bytes follow.
pub proof fn lemma_decode_chunk_prefix(
    streams: Map<u32, DecoderChunkStreamModel>,
    chunk_size: nat,
    x: Seq<u8>,
    y: Seq<u8>,
)
    requires
        decode_chunk(streams, chunk_size, x) is Ok,
    ensures
        decode_chunk(streams, chunk_size, x + y) == decode_chunk(streams, chunk_size, x),
{
    let b = x + y;
    lemma_basic_header_prefix(x, y);
    let (p, fmt, id) = parse_basic_header(x).unwrap();
    let start = if streams.contains_key(id) {
        streams[id]
    } else {
        initial_chunk_stream()
    };
    lemma_message_header_prefix(x, y, p, fmt, start);
    let (p2, s2) = parse_message_header(x, p, fmt, start).unwrap();
    let n = min_nat((s2.message_size - s2.acc_payload.len()) as nat, chunk_size);
    assert(b.subrange(p2, p2 + n) =~= x.subrange(p2, p2 + n));
}

/// A fresh encoder and a fresh decoder agree.
pub proof fn lemma_synced_empty()
    ensures
        synced(Map::<u32, EncoderChunkStream>::empty(), Map::<u32, DecoderChunkStreamModel>::empty()),
{
}


/// The bytes that encoding the chunks `cs` one after the other writes, starting from the
/// chunk stream states `enc`.
pub open spec fn encoded_chunks(enc: Map<u32, EncoderChunkStream>, cs: Seq<RtmpChunk>, chunk_size: nat) -> Seq<u8>
    decreases cs.len(),
{
    if cs.len() == 0 {
        Seq::empty()
    } else {
        let s = resolve_chunk_stream(enc.get(cs[0].chunk_stream_id.value()), cs[0]);
        message_chunks(s, cs[0].payload@, chunk_size) + encoded_chunks(
            enc.insert(cs[0].chunk_stream_id.value(), header_update(s.format, s)),
            cs.drop_first(),
            chunk_size,
        )
    }
}

/// The chunk stream states after encoding the chunks `cs` one after the other.
pub open spec fn encoder_after(enc: Map<u32, EncoderChunkStream>, cs: Seq<RtmpChunk>) -> Map<u32, EncoderChunkStream>
    decreases cs.len(),
{
    if cs.len() == 0 {
        enc
    } else {
        let s = resolve_chunk_stream(enc.get(cs[0].chunk_stream_id.value()), cs[0]);
        encoder_after(enc.insert(cs[0].chunk_stream_id.value(), header_update(s.format, s)), cs.drop_first())
    }
}

/// Decoding bytes that end where a decoded chunk ends goes on with what follows from the
/// states reached.
proof fn lemma_decode_all_concat(
    streams: Map<u32, DecoderChunkStreamModel>,
    chunk_size: nat,
    x: Seq<u8>,
    y: Seq<u8>,
)
    requires
        decode_all(streams, chunk_size, x) is Ok,
    ensures
        ({
            let (m, cs) = decode_all(streams, chunk_size, x).get_Ok_0();
            decode_all(streams, chunk_size, x + y) == match decode_all(m, chunk_size, y) {
                Err(e) => Err(e),
                Ok((m2, cs2)) => Ok::<(Map<u32, DecoderChunkStreamModel>, Seq<RtmpChunkModel>), ErrorKind>(
                    (m2, cs + cs2),
                ),
            }
        }),
    decreases x.len(),
{
    if x.len() == 0 {
        assert(x + y =~= y);
        if let Ok((m2, cs2)) = decode_all(streams, chunk_size, y) {
            assert(Seq::<RtmpChunkModel>::empty() + cs2 =~= cs2);
        }
    } else {
        lemma_decode_chunk_prefix(streams, chunk_size, x, y);
        let (n, m, c) = decode_chunk(streams, chunk_size, x).get_Ok_0();
        assert((x + y).skip(n) =~= x.skip(n) + y);
        lemma_decode_all_concat(m, chunk_size, x.skip(n), y);
        let (m1, cs1) = decode_all(m, chunk_size, x.skip(n)).get_Ok_0();
        if let Ok((m2, cs2)) = decode_all(m1, chunk_size, y) {
            match c {
                None => {},
                Some(c) => {
                    assert(seq![c] + (cs1 + cs2) =~= (seq![c] + cs1) + cs2);
                },
            }
        }
    }
}

/// Chunks written one after the other by an encoder decode, by a decoder that agrees with
/// it, to those same chunks in the same order, using up all the bytes; afterwards
/// encoder and decoder agree on every chunk stream again.
pub proof fn lemma_chunks_roundtrip(
    enc: Map<u32, EncoderChunkStream>,
    dec: Map<u32, DecoderChunkStreamModel>,
    cs: Seq<RtmpChunk>,
    chunk_size: nat,
)
    requires
        synced(enc, dec),
        chunk_size >= 1,
        forall|i: int|
            0 <= i < cs.len() ==> 2 <= (#[trigger] cs[i]).chunk_stream_id.value() <= 65599
                && cs[i].payload@.len() < 0x1000000,
    ensures
        decode_all(dec, chunk_size, encoded_chunks(enc, cs, chunk_size)) matches Ok((m, out))
            && out == Seq::new(cs.len(), |i: int| cs[i]@) && synced(encoder_after(enc, cs), m),
    decreases cs.len(),
{
    if cs.len() == 0 {
        assert(Seq::new(cs.len(), |i: int| cs[i]@) =~= Seq::<RtmpChunkModel>::empty());
    } else {
        let c = cs[0];
        assert(2 <= c.chunk_stream_id.value() <= 65599 && c.payload@.len() < 0x1000000);
        let id = c.chunk_stream_id;
        let s = resolve_chunk_stream(enc.get(id.value()), c);
        let x = message_chunks(s, c.payload@, chunk_size);
        let enc1 = enc.insert(id.value(), header_update(s.format, s));
        lemma_chunk_roundtrip(enc, dec, id, c.message_stream_id, c.message_type, c.timestamp, c.payload@, chunk_size);
        let (m1, out1) = decode_all(dec, chunk_size, x).get_Ok_0();
        let rest = cs.drop_first();
        assert forall|i: int|
            0 <= i < rest.len() implies 2 <= (#[trigger] rest[i]).chunk_stream_id.value() <= 65599
                && rest[i].payload@.len() < 0x1000000 by {
            assert(rest[i] == cs[i + 1]);
        }
        lemma_chunks_roundtrip(enc1, m1, rest, chunk_size);
        let y = encoded_chunks(enc1, rest, chunk_size);
        lemma_decode_all_concat(dec, chunk_size, x, y);
        assert(out1 + Seq::new(rest.len(), |i: int| rest[i]@) =~= Seq::new(cs.len(), |i: int| cs[i]@));
    }
}

/// The pieces that a payload is cut into: `chunk_size` bytes each, the last one possibly
/// shorter (a single empty piece for an empty payload).
pub open spec fn payload_pieces(p: Seq<u8>, chunk_size: nat) -> Seq<Seq<u8>>
    decreases p.len(),
{
    if p.len() <= chunk_size || chunk_size == 0 {
        seq![p]
    } else {
        seq![p.take(chunk_size as int)] + payload_pieces(p.skip(chunk_size as int), chunk_size)
    }
}

/// Each piece preceded by the header `h`, one after the other.
pub open spec fn with_headers(h: Seq<u8>, ps: Seq<Seq<u8>>) -> Seq<u8>
    decreases ps.len(),
{
    if ps.len() == 0 {
        Seq::empty()
    } else {
        h + ps[0] + with_headers(h, ps.drop_first())
    }
}

/// The pieces of a payload: as many as `max(1, ceil(len / chunk_size))`, each of
/// `chunk_size` bytes but the last, which holds the rest.
proof fn lemma_payload_pieces(p: Seq<u8>, chunk_size: nat)
    requires
        chunk_size >= 1,
    ensures
        payload_pieces(p, chunk_size).len() == (if p.len() == 0 {
            1
        } else {
            (p.len() + chunk_size - 1) / (chunk_size as int)
        }),
        forall|i: int|
            0 <= i < payload_pieces(p, chunk_size).len() - 1 ==> (#[trigger] payload_pieces(
                p,
                chunk_size,
            )[i]).len() == chunk_size,
        payload_pieces(p, chunk_size).last().len() <= chunk_size,
        p.len() > 0 ==> payload_pieces(p, chunk_size).last().len() >= 1,
    decreases p.len(),
{
    let ps = payload_pieces(p, chunk_size);
    let c = chunk_size as int;
    if p.len() <= chunk_size {
        if p.len() > 0 {
            assert((p.len() + c - 1) / c == 1) by (nonlinear_arith)
                requires
                    0 < p.len() <= c,
            ;
        }
    } else {
        let q = p.skip(c);
        lemma_payload_pieces(q, chunk_size);
        let l = p.len() as int;
        assert((l + c - 1) / c == (l - c + c - 1) / c + 1) by (nonlinear_arith)
            requires
                l > c,
                c >= 1,
        ;
        assert forall|i: int| 0 <= i < ps.len() - 1 implies (#[trigger] ps[i]).len() == chunk_size by {
            if i > 0 {
                assert(ps[i] == payload_pieces(q, chunk_size)[i - 1]);
            }
        }
    }
}

/// The continuation chunks of the rest of a payload: each further piece preceded by the
/// format 3 header.
proof fn lemma_continuation_pieces(s: EncoderChunkStream, rest: Seq<u8>, chunk_size: nat)
    requires
        chunk_size >= 1,
        rest.len() > 0,
    ensures
        continuation_chunks(s, rest, chunk_size) == with_headers(
            basic_header_bytes(MessageHeaderFormat::F3, s.chunk_stream_id.value())
                + message_header_bytes(MessageHeaderFormat::F3, s),
            payload_pieces(rest, chunk_size),
        ),
    decreases rest.len(),
{
    let h = basic_header_bytes(MessageHeaderFormat::F3, s.chunk_stream_id.value())
        + message_header_bytes(MessageHeaderFormat::F3, s);
    let n = min_nat(rest.len(), chunk_size);
    let ps = payload_pieces(rest, chunk_size);
    if rest.len() <= chunk_size {
        assert(rest.take(n as int) =~= rest);
        assert(rest.skip(n as int).len() == 0);
        assert(continuation_chunks(s, rest.skip(n as int), chunk_size) == Seq::<u8>::empty());
        assert(ps == seq![rest]);
        assert(ps.drop_first() =~= Seq::<Seq<u8>>::empty());
        assert(with_headers(h, ps.drop_first()) == Seq::<u8>::empty());
        assert(continuation_chunks(s, rest, chunk_size) =~= h + rest + Seq::<u8>::empty());
    } else {
        lemma_continuation_pieces(s, rest.skip(n as int), chunk_size);
        assert(ps.drop_first() =~= payload_pieces(rest.skip(n as int), chunk_size));
        assert(ps[0] == rest.take(n as int));
        let w = with_headers(h, ps.drop_first());
        assert(continuation_chunks(s, rest, chunk_size) =~= h + rest.take(n as int) + w);
    }
}

/// How the chunk encoder cuts a message: the payload goes out in pieces of the chunk size
/// (the last one holding the rest), `max(1, ceil(len / chunk_size))` of them; the first
/// piece follows the message's own header, each further one a format 3 header.
pub proof fn lemma_message_chunk_count(s: EncoderChunkStream, payload: Seq<u8>, chunk_size: nat)
    requires
        chunk_size >= 1,
    ensures
        payload_pieces(payload, chunk_size).len() == (if payload.len() == 0 {
            1
        } else {
            (payload.len() + chunk_size - 1) / (chunk_size as int)
        }),
        forall|i: int|
            0 <= i < payload_pieces(payload, chunk_size).len() - 1 ==> (#[trigger] payload_pieces(
                payload,
                chunk_size,
            )[i]).len() == chunk_size,
        payload_pieces(payload, chunk_size).last().len() <= chunk_size,
        message_chunks(s, payload, chunk_size) == basic_header_bytes(s.format, s.chunk_stream_id.value())
            + message_header_bytes(s.format, s) + payload_pieces(payload, chunk_size)[0] + with_headers(
            basic_header_bytes(MessageHeaderFormat::F3, s.chunk_stream_id.value())
                + message_header_bytes(MessageHeaderFormat::F3, header_update(s.format, s)),
            payload_pieces(payload, chunk_size).drop_first(),
        ),
{
    lemma_payload_pieces(payload, chunk_size);
    let n = min_nat(payload.len(), chunk_size);
    let s1 = header_update(s.format, s);
    let ps = payload_pieces(payload, chunk_size);
    if payload.len() <= chunk_size {
        assert(payload.take(n as int) =~= payload);
        assert(ps.drop_first() =~= Seq::<Seq<u8>>::empty());
    } else {
        assert(ps[0] == payload.take(n as int));
        assert(ps.drop_first() =~= payload_pieces(payload.skip(n as int), chunk_size));
        lemma_continuation_pieces(s1, payload.skip(n as int), chunk_size);
        assert(s1.chunk_stream_id == s.chunk_stream_id);
    }
}

/// The layout of a chunk basic header: the top two bits of the first byte give the
/// header format (0 full, 1 without the message stream ID, 2 timestamp delta only, 3 no
/// message header). A chunk stream ID below 64 stands in the low six bits; from 64 to 319
/// those bits are 0 and the next byte holds the ID minus 64; from 320 on they are 1 and
/// the next two bytes hold the ID minus 64, low byte first.
pub proof fn lemma_basic_header_layout(format: MessageHeaderFormat, id: u32)
    requires
        id <= 65599,
    ensures
        format == MessageHeaderFormat::F0 ==> basic_header_bytes(format, id)[0] / 64 == 0,
        format == MessageHeaderFormat::F1 ==> basic_header_bytes(format, id)[0] / 64 == 1,
        format == MessageHeaderFormat::F2 ==> basic_header_bytes(format, id)[0] / 64 == 2,
        format == MessageHeaderFormat::F3 ==> basic_header_bytes(format, id)[0] / 64 == 3,
        id < 64 ==> basic_header_bytes(format, id).len() == 1 && basic_header_bytes(format, id)[0] % 64
            == id,
        64 <= id < 320 ==> basic_header_bytes(format, id).len() == 2 && basic_header_bytes(format, id)[0]
            % 64 == 0 && basic_header_bytes(format, id)[1] == id - 64,
        320 <= id ==> basic_header_bytes(format, id).len() == 3 && basic_header_bytes(format, id)[0] % 64
            == 1 && basic_header_bytes(format, id)[1] + 256 * basic_header_bytes(format, id)[2] == id
            - 64,
{
}

/// The layout of a chunk message header. Format 0: the timestamp in three big-endian
/// bytes, the message length in three, the type ID in one and the message stream ID in
/// four little-endian ones. Format 1: the timestamp delta, the length and the type ID.
/// Format 2: the timestamp delta alone. A timestamp or delta of 0xFFFFFF or more writes
/// 0xFFFFFF and adds the whole value in four big-endian bytes at the end. Format 3 writes
/// nothing, or the four-byte extended delta when the stream's last header needed one.
pub proof fn lemma_message_header_layout(format: MessageHeaderFormat, s: EncoderChunkStream)
    requires
        s.message_size < 0x100_0000,
    ensures
        format == MessageHeaderFormat::F0 ==> ({
            let b = message_header_bytes(format, s);
            let t = s.timestamp.0;
            &&& b.len() == if t >= 0xFF_FFFF { 15int } else { 11int }
            &&& be24(b, 0) == if t >= 0xFF_FFFF { 0xFF_FFFFint } else { t as int }
            &&& be24(b, 3) == s.message_size
            &&& b[6] == s.message_type.spec_type_id()
            &&& le32(b, 7) == s.message_stream_id.0
            &&& t >= 0xFF_FFFF ==> be32(b, 11) == t
        }),
        format == MessageHeaderFormat::F1 ==> ({
            let b = message_header_bytes(format, s);
            let t = s.timestamp_delta.0;
            &&& b.len() == if t >= 0xFF_FFFF { 11int } else { 7int }
            &&& be24(b, 0) == if t >= 0xFF_FFFF { 0xFF_FFFFint } else { t as int }
            &&& be24(b, 3) == s.message_size
            &&& b[6] == s.message_type.spec_type_id()
            &&& t >= 0xFF_FFFF ==> be32(b, 7) == t
        }),
        format == MessageHeaderFormat::F2 ==> ({
            let b = message_header_bytes(format, s);
            let t = s.timestamp_delta.0;
            &&& b.len() == if t >= 0xFF_FFFF { 7int } else { 3int }
            &&& be24(b, 0) == if t >= 0xFF_FFFF { 0xFF_FFFFint } else { t as int }
            &&& t >= 0xFF_FFFF ==> be32(b, 3) == t
        }),
        format == MessageHeaderFormat::F3 ==> ({
            let b = message_header_bytes(format, s);
            &&& b.len() == if s.enable_f3_extended_timestamp { 4int } else { 0int }
            &&& s.enable_f3_extended_timestamp ==> be32(b, 0) == s.timestamp_delta.0
        }),
{
    let b = message_header_bytes(format, s);
    let t = if format == MessageHeaderFormat::F0 { s.timestamp.0 } else { s.timestamp_delta.0 };
    let tf = timestamp_field(t);
    lemma_u24_be_roundtrip(if t >= 0xFF_FFFF { 0xFF_FFFFint } else { t as int });
    lemma_u24_be_roundtrip(s.message_size as int);
    lemma_u32_be_roundtrip(t as int);
    lemma_u32_le_roundtrip(s.message_stream_id.0 as int);
    assert(be24(tf, 0) == if t >= 0xFF_FFFF { 0xFF_FFFFint } else { t as int });
    match format {
        MessageHeaderFormat::F0 => {
            let sz = u24_be(s.message_size as int);
            let ms = u32_le(s.message_stream_id.0 as int);
            assert(b[0] == tf[0] && b[1] == tf[1] && b[2] == tf[2]);
            assert(b[3] == sz[0] && b[4] == sz[1] && b[5] == sz[2]);
            assert(b[7] == ms[0] && b[8] == ms[1] && b[9] == ms[2] && b[10] == ms[3]);
            if t >= 0xFF_FFFF {
                let e = u32_be(t as int);
                assert(b[11] == e[0] && b[12] == e[1] && b[13] == e[2] && b[14] == e[3]);
            }
        },
        MessageHeaderFormat::F1 => {
            let sz = u24_be(s.message_size as int);
            assert(b[0] == tf[0] && b[1] == tf[1] && b[2] == tf[2]);
            assert(b[3] == sz[0] && b[4] == sz[1] && b[5] == sz[2]);
            if t >= 0xFF_FFFF {
                let e = u32_be(t as int);
                assert(b[7] == e[0] && b[8] == e[1] && b[9] == e[2] && b[10] == e[3]);
            }
        },
        MessageHeaderFormat::F2 => {
            assert(b[0] == tf[0] && b[1] == tf[1] && b[2] == tf[2]);
            if t >= 0xFF_FFFF {
                let e = u32_be(t as int);
                assert(b[3] == e[0] && b[4] == e[1] && b[5] == e[2] && b[6] == e[3]);
            }
        },
        MessageHeaderFormat::F3 => {
            if s.enable_f3_extended_timestamp {
                let e = u32_be(s.timestamp_delta.0 as int);
                assert(b[0] == e[0] && b[1] == e[1] && b[2] == e[2] && b[3] == e[3]);
            }
        },
    }
}

} // verus!
