use vstd::prelude::*;

use crate::amf::{amf_bytes, amf_decode, model_number, model_str, AmfModel, AmfVersion};
use crate::amf0::Amf0Model;
use crate::amf0_laws::{amf0_restorable, lemma_amf0_roundtrip, lemma_bytes_start};
use crate::amf3::Amf3Model;
use crate::amf3_laws::{amf3_restorable, lemma3_bytes_start, lemma_amf3_roundtrip};
use crate::bytes::{be32, lemma_u32_be_roundtrip, u32_be};
use crate::float64::{int_to_bits, lemma_int_to_bits_exact};
use crate::rtmp_command::transaction_id_of;
use crate::error::ErrorKind;
use crate::flv::{lemma_audio_frame_roundtrip, lemma_video_frame_roundtrip, video_frame_consistent};
use crate::media::AudioFormat;
use crate::rtmp_chunk::{RtmpChunkModel, RtmpChunkSize, RtmpChunkStreamId};
use crate::rtmp_chunk_decoder::{decode_chunk, lemma_decode_chunk_progress, DecoderChunkStreamModel};
use crate::rtmp_chunk_laws::{lemma_chunk_decode_until, lemma_decode_chunk_prefix, synced};
use crate::rtmp_chunk_encoder::{message_chunks, resolve_fields};
use crate::rtmp_connection::{send_message, OutState};
use crate::rtmp_message::{amf_values_view, RtmpMessage, RtmpMessageHeader, SetPeerBandwidthLimitType};
use crate::rtmp_message_decoder::{
    amf_values_decode, chunk_step, command_decode, decode_step, decode_until_message, message_decode_error, message_decoded, DecoderState,
};
use crate::rtmp_message_encoder::{
    amf_seq_bytes, command_bytes, message_payload_bytes, number_model, string_model,
};
use crate::rtmp_user_control_event::lemma_user_control_event_roundtrip;

verus! {

/// The messages that one side sends and the other decodes back unchanged: all but aborts,
/// whose payload fits the 24-bit length field, whose chunk size is valid, whose frames
/// carry the timestamp of their header and whose frame fields survive the FLV encoding,
/// and whose AMF values are of the message's encoding and restorable (with a transaction
/// ID that a double holds exactly).
pub open spec fn message_roundtrips(m: RtmpMessage) -> bool {
    &&& message_payload_bytes(m).len() < 0x1000000
    &&& match m {
        RtmpMessage::Command { amf_version, name, transaction_id, object, args, .. } => {
            &&& amf_restorable(string_model(amf_version, name@), amf_version)
            &&& -0x20_0000_0000_0000 < transaction_id.0 < 0x20_0000_0000_0000
            &&& amf_restorable(object@, amf_version)
            &&& forall|i: int|
                0 <= i < args@.len() ==> amf_restorable(
                    #[trigger] amf_values_view(args@)[i],
                    amf_version,
                )
        },
        RtmpMessage::Data { amf_version, values, .. } => forall|i: int|
            0 <= i < values@.len() ==> amf_restorable(
                #[trigger] amf_values_view(values@)[i],
                amf_version,
            ),
        RtmpMessage::Abort { .. } => false,
        RtmpMessage::SetChunkSize { size, .. } => 1 <= size.value() <= 65536,
        RtmpMessage::Audio { header, frame } => frame.timestamp == header.timestamp && (
        frame.is_aac_sequence_header ==> frame.format == AudioFormat::Aac),
        RtmpMessage::Video { header, frame } => frame.timestamp == header.timestamp
            && video_frame_consistent(frame),
        _ => true,
    }
}

/// `a` and `b` are the same message: the same kind, header and fields, frames with the
/// same bytes of data, names with the same characters and AMF values with the same
/// models.
pub open spec fn same_message(a: RtmpMessage, b: RtmpMessage) -> bool {
    match a {
        RtmpMessage::Audio { header, frame } => b matches RtmpMessage::Audio { header: h, frame: f } && h
            == header && f.timestamp == frame.timestamp && f.format == frame.format && f.sample_rate
            == frame.sample_rate && f.is_8bit_sample == frame.is_8bit_sample && f.is_stereo
            == frame.is_stereo && f.is_aac_sequence_header == frame.is_aac_sequence_header && f.data@
            == frame.data@,
        RtmpMessage::Video { header, frame } => b matches RtmpMessage::Video { header: h, frame: f } && h
            == header && f.timestamp == frame.timestamp && f.composition_timestamp_offset
            == frame.composition_timestamp_offset && f.frame_type == frame.frame_type && f.codec
            == frame.codec && f.avc_packet_type == frame.avc_packet_type && f.data@ == frame.data@,
        RtmpMessage::Data { header, amf_version, values } => b matches RtmpMessage::Data {
            header: h,
            amf_version: v,
            values: vs,
        } && h == header && v == amf_version && amf_values_view(vs@) == amf_values_view(values@),
        RtmpMessage::Command { header, amf_version, name, transaction_id, object, args } => b matches RtmpMessage::Command {
            header: h,
            amf_version: v,
            name: n,
            transaction_id: t,
            object: o,
            args: a2,
        } && h == header && v == amf_version && n@ == name@ && t == transaction_id && o@ == object@
            && amf_values_view(a2@) == amf_values_view(args@),
        _ => b == a,
    }
}

/// A sending side `o` and a decoder `d` are in step: the same chunk size, chunk streams
/// that agree, and no bytes waiting to be decoded.
pub open spec fn in_step(o: OutState, d: DecoderState) -> bool {
    &&& o.chunk_size == d.chunk_size
    &&& o.chunk_size >= 1
    &&& synced(o.streams, d.streams)
    &&& d.pending.len() == 0
}

/// The bytes that queuing `m` adds to the sending side `o`.
pub open spec fn sent_bytes(o: OutState, m: RtmpMessage) -> Seq<u8> {
    send_message(o, m).bytes.skip(o.bytes.len() as int)
}

/// Whether an AMF value is of the given encoding and decodes back from its bytes.
pub open spec fn amf_restorable(m: AmfModel, version: AmfVersion) -> bool {
    match m {
        AmfModel::Amf0(v) => version == AmfVersion::Amf0 && amf0_restorable(v),
        AmfModel::Amf3(v) => version == AmfVersion::Amf3 && amf3_restorable(v),
    }
}

/// Decoding the bytes of a restorable AMF value in its encoding gives it back, using
/// exactly its bytes, which are never empty.
proof fn lemma_amf_roundtrip(m: AmfModel, version: AmfVersion, rest: Seq<u8>)
    requires
        amf_restorable(m, version),
    ensures
        amf_bytes(m).len() >= 1,
        amf_decode(amf_bytes(m) + rest, version) == Ok::<(int, AmfModel), ErrorKind>(
            (amf_bytes(m).len() as int, m),
        ),
{
    match m {
        AmfModel::Amf0(v) => {
            lemma_bytes_start(v);
            lemma_amf0_roundtrip(v, rest);
        },
        AmfModel::Amf3(v) => {
            lemma3_bytes_start(v);
            lemma_amf3_roundtrip(v, rest);
        },
    }
}

/// The bytes of the first `n` values begin with those of the first `k <= n`.
proof fn lemma_amf_seq_prefix(vs: Seq<AmfModel>, k: int, n: int)
    requires
        0 <= k <= n <= vs.len(),
    ensures
        amf_seq_bytes(vs, k).len() <= amf_seq_bytes(vs, n).len(),
        amf_seq_bytes(vs, n).subrange(0, amf_seq_bytes(vs, k).len() as int) == amf_seq_bytes(vs, k),
    decreases n - k,
{
    if k < n {
        lemma_amf_seq_prefix(vs, k, n - 1);
        assert(amf_seq_bytes(vs, n).subrange(0, amf_seq_bytes(vs, k).len() as int) =~= amf_seq_bytes(
            vs,
            n - 1,
        ).subrange(0, amf_seq_bytes(vs, k).len() as int));
    } else {
        assert(amf_seq_bytes(vs, n).subrange(0, amf_seq_bytes(vs, n).len() as int) =~= amf_seq_bytes(
            vs,
            n,
        ));
    }
}

/// Restorable values of one encoding, one after the other, decode back from value `i` on.
proof fn lemma_amf_values_decode(vs: Seq<AmfModel>, version: AmfVersion, i: int)
    requires
        0 <= i <= vs.len(),
        forall|j: int| 0 <= j < vs.len() ==> amf_restorable(#[trigger] vs[j], version),
    ensures
        amf_values_decode(
            amf_seq_bytes(vs, vs.len() as int).skip(amf_seq_bytes(vs, i).len() as int),
            version,
        ) == Ok::<Seq<AmfModel>, ErrorKind>(vs.subrange(i, vs.len() as int)),
    decreases vs.len() - i,
{
    let n = vs.len() as int;
    let all = amf_seq_bytes(vs, n);
    lemma_amf_seq_prefix(vs, i, n);
    let s = all.skip(amf_seq_bytes(vs, i).len() as int);
    if i == n {
        assert(s =~= Seq::<u8>::empty());
        assert(vs.subrange(i, n) =~= Seq::<AmfModel>::empty());
    } else {
        lemma_amf_seq_prefix(vs, i + 1, n);
        let x = amf_bytes(vs[i]);
        let s2 = all.skip(amf_seq_bytes(vs, i + 1).len() as int);
        assert(amf_seq_bytes(vs, i + 1) == amf_seq_bytes(vs, i) + x);
        assert(s =~= x + s2) by {
            assert forall|k: int| 0 <= k < x.len() implies s[k] == x[k] by {
                assert(all.subrange(0, amf_seq_bytes(vs, i + 1).len() as int)[amf_seq_bytes(
                    vs,
                    i,
                ).len() + k] == amf_seq_bytes(vs, i + 1)[amf_seq_bytes(vs, i).len() + k]);
            }
        }
        lemma_amf_roundtrip(vs[i], version, s2);
        assert(s.skip(x.len() as int) =~= s2);
        lemma_amf_values_decode(vs, version, i + 1);
        assert(seq![vs[i]] + vs.subrange(i + 1, n) =~= vs.subrange(i, n));
    }
}

/// The payload of a command decodes back to its encoding, name, transaction ID, command
/// object and arguments, when each value is restorable in the command's encoding and the
/// transaction ID is exactly representable as a double.
proof fn lemma_command_roundtrip(
    version: AmfVersion,
    name: Seq<char>,
    tid: i64,
    object: AmfModel,
    args: Seq<AmfModel>,
)
    requires
        amf_restorable(string_model(version, name), version),
        -0x20_0000_0000_0000 < tid < 0x20_0000_0000_0000,
        amf_restorable(object, version),
        forall|j: int| 0 <= j < args.len() ==> amf_restorable(#[trigger] args[j], version),
    ensures
        command_decode(command_bytes(version, name, tid, object, args), version) == Ok::<
            (AmfVersion, Seq<char>, i64, AmfModel, Seq<AmfModel>),
            ErrorKind,
        >((version, name, tid, object, args)),
{
    reveal(command_decode);
    let nm = string_model(version, name);
    let bits = int_to_bits(tid as int);
    let num = number_model(version, bits);
    let a = amf_bytes(nm);
    let bb = amf_bytes(num);
    let c = amf_bytes(object);
    let d = amf_seq_bytes(args, args.len() as int);
    let b = command_bytes(version, name, tid, object, args);
    assert(b =~= a + (bb + (c + d)));
    assert(amf_restorable(num, version));
    lemma_amf_roundtrip(nm, version, bb + (c + d));
    assert(model_str(nm) == Some(name));
    assert(b.skip(a.len() as int) =~= bb + (c + d));
    lemma_amf_roundtrip(num, version, c + d);
    assert(model_number(num) == Some(bits));
    lemma_int_to_bits_exact(tid as int);
    assert(transaction_id_of(bits) == tid);
    assert(b.skip((a.len() + bb.len()) as int) =~= c + d);
    lemma_amf_roundtrip(object, version, d);
    assert(b.skip((a.len() + bb.len() + c.len()) as int) =~= d);
    lemma_amf_values_decode(args, version, 0);
    assert(d.skip(0) =~= d);
    assert(args.subrange(0, args.len() as int) =~= args);
    if version == AmfVersion::Amf3 {
        assert(b[0] == a[0]);
        assert(a[0] == 0x06u8);
    }
}

/// The payload of a message decodes to the message it was encoded from.
#[verifier::rlimit(50)]
#[verifier::spinoff_prover]
proof fn lemma_payload_roundtrip(m: RtmpMessage, c: RtmpChunkModel, x: RtmpMessage)
    requires
        message_roundtrips(m),
        c.message_stream_id == m.spec_header().stream_id,
        c.timestamp == m.spec_header().timestamp,
        c.message_type == m.spec_message_type(),
        c.payload == message_payload_bytes(m),
    ensures
        message_decode_error(c) is None,
        message_decoded(c, x) ==> same_message(x, m),
{
    reveal(message_decode_error);
    reveal(message_decoded);
    let p = c.payload;
    match m {
        RtmpMessage::SetChunkSize { header, size } => {
            lemma_u32_be_roundtrip(size.value() as int);
            if message_decoded(c, x) {
                if let RtmpMessage::SetChunkSize { size: s2, .. } = x {
                    RtmpChunkSize::lemma_value_injective(s2, size);
                }
            }
        },
        RtmpMessage::Ack { sequence_number, .. } => {
            lemma_u32_be_roundtrip(sequence_number as int);
        },
        RtmpMessage::WinAckSize { size, .. } => {
            lemma_u32_be_roundtrip(size as int);
        },
        RtmpMessage::SetPeerBandwidth { size, limit_type, .. } => {
            lemma_u32_be_roundtrip(size as int);
            assert(be32(p, 0) == be32(u32_be(size as int), 0));
            assert(p[4] == limit_type.spec_code());
            if message_decoded(c, x) {
                if let RtmpMessage::SetPeerBandwidth { limit_type: l2, .. } = x {
                    assert(l2 == limit_type) by {
                        match l2 {
                            SetPeerBandwidthLimitType::Hard => {},
                            SetPeerBandwidthLimitType::Soft => {},
                            SetPeerBandwidthLimitType::Dynamic => {},
                        }
                    }
                }
            }
        },
        RtmpMessage::UserControl { event, .. } => {
            lemma_user_control_event_roundtrip(event, Seq::empty());
            assert(event.spec_bytes() + Seq::<u8>::empty() =~= event.spec_bytes());
        },
        RtmpMessage::Audio { frame, .. } => {
            if message_decoded(c, x) {
                if let RtmpMessage::Audio { frame: g, .. } = x {
                    lemma_audio_frame_roundtrip(frame, g);
                }
            }
            assert(p.len() > 0);
            assert(p[0] == crate::flv::audio_header_byte(frame));
            assert(frame.format == AudioFormat::Aac ==> p.len() >= 2);
        },
        RtmpMessage::Video { frame, .. } => {
            if message_decoded(c, x) {
                if let RtmpMessage::Video { frame: g, .. } = x {
                    lemma_video_frame_roundtrip(frame, g);
                }
            }
        },
        RtmpMessage::Data { amf_version, values, .. } => {
            let vs = amf_values_view(values@);
            lemma_amf_values_decode(vs, amf_version, 0);
            assert(p.skip(0) =~= p);
            assert(vs.subrange(0, vs.len() as int) =~= vs);
        },
        RtmpMessage::Command { amf_version, name, transaction_id, object, args, .. } => {
            lemma_command_roundtrip(
                amf_version,
                name@,
                transaction_id.0,
                object@,
                amf_values_view(args@),
            );
        },
        _ => {},
    }
}

/// What one side sends, the other decodes: a decoder in step with the sending side, fed
/// the bytes that queuing a message adds, decodes that same message next and uses up the
/// bytes; afterwards the two are in step again.
#[verifier::rlimit(50)]
#[verifier::spinoff_prover]
pub proof fn lemma_send_decode(
    o: OutState,
    d: DecoderState,
    m: RtmpMessage,
    t: DecoderState,
    r: Result<Option<RtmpMessage>, ErrorKind>,
)
    requires
        in_step(o, d),
        message_roundtrips(m),
        decode_step(DecoderState { pending: sent_bytes(o, m), ..d }, t, r),
    ensures
        r matches Ok(Some(x)) && same_message(x, m),
        in_step(OutState { bytes: Seq::empty(), ..send_message(o, m) }, t),
{
    let id = RtmpChunkStreamId::spec_from_message_stream_id(m.spec_header().stream_id);
    RtmpChunkStreamId::lemma_from_message_stream_id(m.spec_header().stream_id);
    let payload = message_payload_bytes(m);
    let msid = m.spec_header().stream_id;
    let mtype = m.spec_message_type();
    let ts = m.spec_header().timestamp;
    let s = resolve_fields(o.streams.get(id.value()), id, msid, mtype, ts, payload.len());
    let b = message_chunks(s, payload, o.chunk_size);
    assert(sent_bytes(o, m) =~= b);
    lemma_chunk_decode_until(o.streams, d.streams, id, msid, mtype, ts, payload, o.chunk_size);
    let c = RtmpChunkModel {
        chunk_stream_id: id.value(),
        message_stream_id: msid,
        message_type: mtype,
        timestamp: ts,
        payload,
    };
    match r {
        Ok(Some(x)) => lemma_payload_roundtrip(m, c, x),
        _ => lemma_payload_roundtrip(m, c, m),
    }
    assert(b.skip(b.len() as int) =~= Seq::<u8>::empty());
}

/// A chunk step takes between one byte and all of them, and does the same whatever bytes
/// follow.
proof fn lemma_chunk_step_prefix(
    streams: Map<u32, DecoderChunkStreamModel>,
    chunk_size: nat,
    x: Seq<u8>,
    y: Seq<u8>,
)
    ensures
        chunk_step(streams, chunk_size, x) matches Ok((n, _, _)) ==> 1 <= n <= x.len()
            && chunk_step(streams, chunk_size, x + y) == chunk_step(streams, chunk_size, x),
{
    reveal(chunk_step);
    lemma_decode_chunk_progress(streams, chunk_size, x);
    if decode_chunk(streams, chunk_size, x) is Ok {
        lemma_decode_chunk_prefix(streams, chunk_size, x, y);
    }
}

/// Decoding up to a message, from bytes `x` followed by `y`: when `x` completes a message,
/// `y` is not touched; when `x` runs out first, decoding goes on from where it stopped.
#[verifier::rlimit(100)]
#[verifier::spinoff_prover]
proof fn lemma_until_prefix(
    streams: Map<u32, DecoderChunkStreamModel>,
    chunk_size: nat,
    x: Seq<u8>,
    y: Seq<u8>,
)
    ensures
        ({
            let (k, m, o) = decode_until_message(streams, chunk_size, x);
            match o {
                Ok(None) => {
                    let (k2, m2, o2) = decode_until_message(m, chunk_size, x.skip(k) + y);
                    decode_until_message(streams, chunk_size, x + y) == (k + k2, m2, o2)
                },
                Ok(Some(_)) => decode_until_message(streams, chunk_size, x + y) == decode_until_message(
                    streams,
                    chunk_size,
                    x,
                ),
                Err(_) => true,
            }
        }),
    decreases x.len(),
{
    lemma_chunk_step_prefix(streams, chunk_size, x, y);
    match chunk_step(streams, chunk_size, x) {
        Err(e) => {
            assert(x.skip(0) + y =~= x + y);
        },
        Ok((n, m1, c)) => {
            match c {
                Some(_) => {},
                None => {
                    lemma_until_prefix(m1, chunk_size, x.skip(n), y);
                    crate::rtmp_message_decoder::lemma_decode_until_message_consumed(m1, chunk_size, x.skip(n));
                    assert((x + y).skip(n) =~= x.skip(n) + y);
                    let (k1, m2, o1) = decode_until_message(m1, chunk_size, x.skip(n));
                    assert(x.skip(n).skip(k1) =~= x.skip(n + k1));
                },
            }
        },
    }
}

/// `s` with `y` received after its pending bytes.
pub open spec fn fed(s: DecoderState, y: Seq<u8>) -> DecoderState {
    DecoderState { pending: s.pending + y, ..s }
}

/// Received bytes may come in any pieces: a decoder that went from `s` to `t` because the
/// bytes ran out, and is then given `y`, decodes exactly as if `y` had come before that
/// step.
pub proof fn lemma_decode_resumes(
    s: DecoderState,
    t: DecoderState,
    y: Seq<u8>,
    u: DecoderState,
    r: Result<Option<RtmpMessage>, ErrorKind>,
)
    requires
        decode_step(s, t, Ok(None)),
    ensures
        decode_step(fed(t, y), u, r) <==> decode_step(fed(s, y), u, r),
{
    lemma_until_prefix(s.streams, s.chunk_size, s.pending, y);
    crate::rtmp_message_decoder::lemma_decode_until_message_consumed(s.streams, s.chunk_size, s.pending);
    let (k, m, o) = decode_until_message(s.streams, s.chunk_size, s.pending);
    let (k2, m2, o2) = decode_until_message(m, s.chunk_size, s.pending.skip(k) + y);
    crate::rtmp_message_decoder::lemma_decode_until_message_consumed(m, s.chunk_size, s.pending.skip(k) + y);
    assert((s.pending + y).skip(k + k2) =~= (s.pending.skip(k) + y).skip(k2));
}


/// The bytes that queuing each message of `ms` in turn adds to the sending side `o`.
pub open spec fn sent_all(o: OutState, ms: Seq<RtmpMessage>) -> Seq<u8>
    decreases ms.len(),
{
    if ms.len() == 0 {
        Seq::empty()
    } else {
        sent_bytes(o, ms[0]) + sent_all(send_message(o, ms[0]), ms.drop_first())
    }
}

/// The sending side after queuing each message of `ms` in turn.
pub open spec fn send_all(o: OutState, ms: Seq<RtmpMessage>) -> OutState
    decreases ms.len(),
{
    if ms.len() == 0 {
        o
    } else {
        send_all(send_message(o, ms[0]), ms.drop_first())
    }
}

/// Queuing messages appends exactly the bytes that [`sent_all`] gives.
pub proof fn lemma_send_all_bytes(o: OutState, ms: Seq<RtmpMessage>)
    ensures
        send_all(o, ms).bytes == o.bytes + sent_all(o, ms),
    decreases ms.len(),
{
    if ms.len() == 0 {
        assert(o.bytes + Seq::<u8>::empty() =~= o.bytes);
    } else {
        let o1 = send_message(o, ms[0]);
        lemma_send_all_bytes(o1, ms.drop_first());
        assert(o1.bytes =~= o.bytes + sent_bytes(o, ms[0]));
        assert(o.bytes + (sent_bytes(o, ms[0]) + sent_all(o1, ms.drop_first())) =~= o1.bytes
            + sent_all(o1, ms.drop_first()));
    }
}

/// The chunks of a message queued on a side in step with a decoder complete that message
/// and nothing more.
proof fn lemma_sent_until(o: OutState, d: DecoderState, m: RtmpMessage)
    requires
        in_step(o, d),
        message_roundtrips(m),
    ensures
        decode_until_message(d.streams, d.chunk_size, sent_bytes(o, m)) matches (k, _, Ok(Some(_)))
            && k == sent_bytes(o, m).len(),
{
    let id = RtmpChunkStreamId::spec_from_message_stream_id(m.spec_header().stream_id);
    RtmpChunkStreamId::lemma_from_message_stream_id(m.spec_header().stream_id);
    let payload = message_payload_bytes(m);
    let msid = m.spec_header().stream_id;
    let mtype = m.spec_message_type();
    let ts = m.spec_header().timestamp;
    let s = resolve_fields(o.streams.get(id.value()), id, msid, mtype, ts, payload.len());
    let b = message_chunks(s, payload, o.chunk_size);
    assert(sent_bytes(o, m) =~= b);
    lemma_chunk_decode_until(o.streams, d.streams, id, msid, mtype, ts, payload, o.chunk_size);
}

/// A decoder in step with the sending side has nothing to decode.
pub proof fn lemma_in_step_idle(o: OutState, d: DecoderState, t: DecoderState, r: Result<Option<RtmpMessage>, ErrorKind>)
    requires
        in_step(o, d),
        decode_step(d, t, r),
    ensures
        r == Ok::<Option<RtmpMessage>, ErrorKind>(None),
        t == d,
{
    reveal(chunk_step);
    lemma_decode_chunk_progress(d.streams, d.chunk_size, d.pending);
    assert(d.pending.skip(0) =~= d.pending);
}

/// What one side sends, the other decodes, for any number of messages: a decoder in step
/// with the sending side, fed the bytes that queuing the messages `ms` one after the
/// other adds, decodes each step the next of those messages, with no error and no step
/// without a message; after the last one it is in step with the sending side again, and
/// a further step finds nothing to decode.
pub proof fn lemma_send_all_decode(
    o: OutState,
    d: DecoderState,
    ms: Seq<RtmpMessage>,
    states: Seq<DecoderState>,
    rs: Seq<Result<Option<RtmpMessage>, ErrorKind>>,
)
    requires
        in_step(o, d),
        forall|i: int| 0 <= i < ms.len() ==> message_roundtrips(#[trigger] ms[i]),
        states.len() == rs.len() + 1,
        rs.len() <= ms.len(),
        states[0] == (DecoderState { pending: sent_all(o, ms), ..d }),
        forall|i: int| 0 <= i < rs.len() ==> decode_step(states[i], states[i + 1], #[trigger] rs[i]),
    ensures
        forall|i: int|
            0 <= i < rs.len() ==> (#[trigger] rs[i] matches Ok(Some(x)) && same_message(x, ms[i])),
        rs.len() == ms.len() ==> in_step(send_all(o, ms), states[rs.len() as int]),
    decreases ms.len(),
{
    if rs.len() == 0 {
        if ms.len() == 0 {
            assert(d.pending =~= Seq::<u8>::empty());
            assert(states[0] == d);
        }
    } else {
        let m = ms[0];
        let b = sent_bytes(o, m);
        let o1 = send_message(o, m);
        let rest = sent_all(o1, ms.drop_first());
        lemma_sent_until(o, d, m);
        lemma_until_prefix(d.streams, d.chunk_size, b, rest);
        let s0 = DecoderState { pending: b, ..d };
        let t1 = DecoderState { pending: Seq::empty(), ..states[1] };
        assert(states[0].pending == b + rest);
        assert(b.skip(b.len() as int) =~= Seq::<u8>::empty());
        assert((b + rest).skip(b.len() as int) =~= rest);
        assert(decode_step(states[0], states[1], rs[0]));
        assert(decode_step(s0, t1, rs[0]));
        lemma_send_decode(o, d, m, t1, rs[0]);
        assert(in_step(o1, t1));
        assert(states[1] == (DecoderState { pending: rest, ..t1 }));
        let ms2 = ms.drop_first();
        let states2 = states.drop_first();
        let rs2 = rs.drop_first();
        assert forall|i: int| 0 <= i < ms2.len() implies message_roundtrips(#[trigger] ms2[i]) by {
            assert(ms2[i] == ms[i + 1]);
        }
        assert forall|i: int| 0 <= i < rs2.len() implies decode_step(
            states2[i],
            states2[i + 1],
            #[trigger] rs2[i],
        ) by {
            assert(rs2[i] == rs[i + 1]);
            assert(decode_step(states[i + 1], states[i + 2], rs[i + 1]));
        }
        lemma_send_all_decode(o1, t1, ms2, states2, rs2);
        assert forall|i: int| 0 <= i < rs.len() implies (#[trigger] rs[i] matches Ok(Some(x))
            && same_message(x, ms[i])) by {
            if i > 0 {
                assert(rs[i] == rs2[i - 1]);
                assert(ms[i] == ms2[i - 1]);
            }
        }
    }
}


/// The pieces `ys[i..]` one after the other.
pub open spec fn joined_from(ys: Seq<Seq<u8>>, i: int) -> Seq<u8>
    decreases ys.len() - i,
{
    if i < 0 || i >= ys.len() {
        Seq::empty()
    } else {
        ys[i] + joined_from(ys, i + 1)
    }
}

/// A step that completes a message does the same when more bytes follow, and leaves
/// them pending.
proof fn lemma_step_extend(s: DecoderState, t: DecoderState, r: Result<Option<RtmpMessage>, ErrorKind>, y: Seq<u8>)
    requires
        decode_step(s, t, r),
        r matches Ok(Some(_)),
    ensures
        decode_step(fed(s, y), fed(t, y), r),
{
    lemma_until_prefix(s.streams, s.chunk_size, s.pending, y);
    let (k, m, o) = decode_until_message(s.streams, s.chunk_size, s.pending);
    assert((s.pending + y).skip(k) =~= s.pending.skip(k) + y);
}

/// Received bytes may come in any pieces, over a whole run of the decoder: take any run
/// in which the decoder is fed a piece `ys[i]` before each step `i` (a piece may be
/// empty) and no step fails, and compare it with a decoder that got all the pieces up
/// front, so that before step `i` it holds the same state with `ys[i..]` pending. Then
/// each step of the run that gives a message gives the same message there and leads to
/// the state that the comparison expects next, and each step that ran out of bytes makes
/// no difference there: what can follow is the same as before it.
pub proof fn lemma_decode_any_split(
    states: Seq<DecoderState>,
    ys: Seq<Seq<u8>>,
    rs: Seq<Result<Option<RtmpMessage>, ErrorKind>>,
)
    requires
        states.len() == rs.len() + 1,
        ys.len() == rs.len(),
        forall|i: int| 0 <= i < rs.len() ==> decode_step(fed(states[i], ys[i]), states[i + 1], #[trigger] rs[i]),
        forall|i: int| 0 <= i < rs.len() ==> (#[trigger] rs[i]) is Ok,
    ensures
        forall|i: int|
            0 <= i < rs.len() && (#[trigger] rs[i]) is Ok && rs[i]->Ok_0 is Some ==> decode_step(
                fed(states[i], joined_from(ys, i)),
                fed(states[i + 1], joined_from(ys, i + 1)),
                rs[i],
            ),
        forall|i: int, u: DecoderState, r: Result<Option<RtmpMessage>, ErrorKind>|
            0 <= i < rs.len() && rs[i] == Ok::<Option<RtmpMessage>, ErrorKind>(None) ==> (
            #[trigger] decode_step(fed(states[i + 1], joined_from(ys, i + 1)), u, r) <==> decode_step(
                fed(states[i], joined_from(ys, i)),
                u,
                r,
            )),
{
    assert forall|i: int|
        0 <= i < rs.len() && (#[trigger] rs[i]) is Ok && rs[i]->Ok_0 is Some implies decode_step(
        fed(states[i], joined_from(ys, i)),
        fed(states[i + 1], joined_from(ys, i + 1)),
        rs[i],
    ) by {
        let rest = joined_from(ys, i + 1);
        lemma_step_extend(fed(states[i], ys[i]), states[i + 1], rs[i], rest);
        assert(fed(fed(states[i], ys[i]), rest) == fed(states[i], joined_from(ys, i))) by {
            assert(states[i].pending + ys[i] + rest =~= states[i].pending + (ys[i] + rest));
        }
    }
    assert forall|i: int, u: DecoderState, r: Result<Option<RtmpMessage>, ErrorKind>|
        0 <= i < rs.len() && rs[i] == Ok::<Option<RtmpMessage>, ErrorKind>(None) implies (
        #[trigger] decode_step(fed(states[i + 1], joined_from(ys, i + 1)), u, r) <==> decode_step(
            fed(states[i], joined_from(ys, i)),
            u,
            r,
        )) by {
        let rest = joined_from(ys, i + 1);
        assert(decode_step(fed(states[i], ys[i]), states[i + 1], rs[i]));
        lemma_decode_resumes(fed(states[i], ys[i]), states[i + 1], rest, u, r);
        assert(fed(fed(states[i], ys[i]), rest) == fed(states[i], joined_from(ys, i))) by {
            assert(states[i].pending + ys[i] + rest =~= states[i].pending + (ys[i] + rest));
        }
    }
}

} // verus!
