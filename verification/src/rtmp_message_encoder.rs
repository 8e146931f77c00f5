use vstd::prelude::*;

use crate::amf::{amf_bytes, amf_encodable, AmfModel, AmfValue, AmfVersion};
use crate::amf0::Amf0Model;
use crate::amf3::Amf3Model;
use crate::bytes::{be32, lemma_u32_be_roundtrip, u32_be, write_u32, write_u8};
use crate::flv::{audio_frame_bytes, encode_audio_frame, encode_video_frame, video_frame_bytes};
use crate::float64::{int_to_bits, Float64};
use crate::rtmp_chunk::{RtmpChunk, RtmpChunkStreamId};
use crate::rtmp_chunk_encoder::{
    header_update, message_chunks, resolve_fields, EncoderChunkStream, RtmpChunkEncoder,
};
use crate::rtmp_command::TransactionId;
use crate::rtmp_message::{amf_values_view, RtmpMessage, SetPeerBandwidthLimitType};

verus! {

/// The bytes of the first `n` AMF values, one after the other.
pub open spec fn amf_seq_bytes(vs: Seq<AmfModel>, n: int) -> Seq<u8>
    decreases n,
{
    if n <= 0 || n > vs.len() {
        Seq::empty()
    } else {
        amf_seq_bytes(vs, n - 1) + amf_bytes(vs[n - 1])
    }
}

/// A string value in the given encoding.
pub open spec fn string_model(version: AmfVersion, s: Seq<char>) -> AmfModel {
    match version {
        AmfVersion::Amf0 => AmfModel::Amf0(Amf0Model::String(s)),
        AmfVersion::Amf3 => AmfModel::Amf3(Amf3Model::String(s)),
    }
}

/// A number value (a double in AMF3) in the given encoding.
pub open spec fn number_model(version: AmfVersion, bits: u64) -> AmfModel {
    match version {
        AmfVersion::Amf0 => AmfModel::Amf0(Amf0Model::Number(bits)),
        AmfVersion::Amf3 => AmfModel::Amf3(Amf3Model::Double(bits)),
    }
}

/// The payload of a command message: name, transaction ID, command object, arguments.
pub open spec fn command_bytes(
    version: AmfVersion,
    name: Seq<char>,
    transaction_id: i64,
    object: AmfModel,
    args: Seq<AmfModel>,
) -> Seq<u8> {
    amf_bytes(string_model(version, name)) + amf_bytes(
        number_model(version, int_to_bits(transaction_id as int)),
    ) + amf_bytes(object) + amf_seq_bytes(args, args.len() as int)
}

/// The payload of a message.
pub open spec fn message_payload_bytes(m: RtmpMessage) -> Seq<u8> {
    match m {
        RtmpMessage::SetChunkSize { size, .. } => u32_be(size.value() as int),
        RtmpMessage::Abort { chunk_stream_id, .. } => u32_be(chunk_stream_id.value() as int),
        RtmpMessage::Ack { sequence_number, .. } => u32_be(sequence_number as int),
        RtmpMessage::WinAckSize { size, .. } => u32_be(size as int),
        RtmpMessage::SetPeerBandwidth { size, limit_type, .. } => u32_be(size as int) + seq![
            limit_type.spec_code(),
        ],
        RtmpMessage::Audio { frame, .. } => audio_frame_bytes(frame),
        RtmpMessage::Video { frame, .. } => video_frame_bytes(frame),
        RtmpMessage::Data { values, .. } => amf_seq_bytes(amf_values_view(values@), values@.len() as int),
        RtmpMessage::UserControl { event, .. } => event.spec_bytes(),
        RtmpMessage::Command { amf_version, name, transaction_id, object, args, .. } => command_bytes(
            amf_version,
            name@,
            transaction_id.0,
            object@,
            amf_values_view(args@),
        ),
    }
}

/// The payloads of the protocol control messages: Set Chunk Size, Abort, Acknowledgement
/// and Window Acknowledgement Size carry their number as four big-endian bytes (a chunk
/// size is at most 65536); Set Peer
/// Bandwidth adds one byte for the limit type (hard 0, soft 1, dynamic 2); a User Control
/// message carries the event's bytes.
pub proof fn lemma_control_payload_layout(m: RtmpMessage)
    ensures
        m matches RtmpMessage::SetChunkSize { size, .. } ==> message_payload_bytes(m).len() == 4
            && (size.value() <= crate::rtmp_chunk::CHUNK_SIZE_MAX ==> be32(message_payload_bytes(m), 0)
            == size.value()),
        m matches RtmpMessage::Abort { chunk_stream_id, .. } ==> message_payload_bytes(m).len() == 4
            && be32(message_payload_bytes(m), 0) == chunk_stream_id.value(),
        m matches RtmpMessage::Ack { sequence_number, .. } ==> message_payload_bytes(m).len() == 4
            && be32(message_payload_bytes(m), 0) == sequence_number,
        m matches RtmpMessage::WinAckSize { size, .. } ==> message_payload_bytes(m).len() == 4 && be32(
            message_payload_bytes(m),
            0,
        ) == size,
        m matches RtmpMessage::SetPeerBandwidth { size, limit_type, .. } ==> message_payload_bytes(m).len()
            == 5 && be32(message_payload_bytes(m), 0) == size && message_payload_bytes(m)[4] == (
        match limit_type {
            SetPeerBandwidthLimitType::Hard => 0u8,
            SetPeerBandwidthLimitType::Soft => 1u8,
            SetPeerBandwidthLimitType::Dynamic => 2u8,
        }),
        m matches RtmpMessage::UserControl { event, .. } ==> message_payload_bytes(m) == event.spec_bytes(),
{
    match m {
        RtmpMessage::SetChunkSize { size, .. } => {
            if size.value() <= crate::rtmp_chunk::CHUNK_SIZE_MAX {
                lemma_u32_be_roundtrip(size.value() as int);
            }
        },
        RtmpMessage::Abort { chunk_stream_id, .. } => lemma_u32_be_roundtrip(chunk_stream_id.value() as int),
        RtmpMessage::Ack { sequence_number, .. } => lemma_u32_be_roundtrip(sequence_number as int),
        RtmpMessage::WinAckSize { size, .. } => lemma_u32_be_roundtrip(size as int),
        RtmpMessage::SetPeerBandwidth { size, .. } => {
            lemma_u32_be_roundtrip(size as int);
            let b = message_payload_bytes(m);
            let w = u32_be(size as int);
            assert(b[0] == w[0] && b[1] == w[1] && b[2] == w[2] && b[3] == w[3]);
        },
        _ => {},
    }
}

/// Whether every AMF value of a message can be encoded.
pub open spec fn message_encodable(m: RtmpMessage) -> bool {
    match m {
        RtmpMessage::Data { values, .. } => forall|i: int|
            0 <= i < values@.len() ==> amf_encodable(#[trigger] values@[i]@),
        RtmpMessage::Command { object, args, .. } => amf_encodable(object@) && forall|i: int|
            0 <= i < args@.len() ==> amf_encodable(#[trigger] args@[i]@),
        _ => true,
    }
}

/// The chunk stream state in which a message is sent, given what was last sent on its
/// chunk stream.
pub open spec fn message_stream_state(
    last: Option<EncoderChunkStream>,
    chunk_stream_id: RtmpChunkStreamId,
    m: RtmpMessage,
) -> EncoderChunkStream {
    resolve_fields(
        last,
        chunk_stream_id,
        m.spec_header().stream_id,
        m.spec_message_type(),
        m.spec_header().timestamp,
        message_payload_bytes(m).len(),
    )
}

/// Turns messages into chunks.
#[derive(Debug)]
pub struct RtmpMessageEncoder {
    chunk_encoder: RtmpChunkEncoder,
}

impl RtmpMessageEncoder {
    /// The chunk size in use.
    pub closed spec fn chunk_size(&self) -> nat {
        self.chunk_encoder.chunk_size()
    }

    /// What was sent last on each chunk stream.
    pub closed spec fn streams(&self) -> Map<u32, EncoderChunkStream> {
        self.chunk_encoder.streams()
    }

    /// A new encoder: default chunk size, nothing sent.
    pub fn new() -> (r: Self)
        ensures
            r.chunk_size() == crate::rtmp_chunk::CHUNK_SIZE_DEFAULT,
            r.streams() == Map::<u32, EncoderChunkStream>::empty(),
    {
        RtmpMessageEncoder { chunk_encoder: RtmpChunkEncoder::new() }
    }

    /// Appends the chunks of `message` on the given chunk stream. A Set Chunk Size message
    /// is itself sent in the old chunk size; the new one applies to what follows.
    pub fn encode(&mut self, buf: &mut Vec<u8>, chunk_stream_id: RtmpChunkStreamId, message: RtmpMessage)
        requires
            message_encodable(message),
        ensures
            ({
                let s = message_stream_state(
                    old(self).streams().get(chunk_stream_id.value()),
                    chunk_stream_id,
                    message,
                );
                &&& final(buf)@ == old(buf)@ + message_chunks(
                    s,
                    message_payload_bytes(message),
                    old(self).chunk_size(),
                )
                &&& final(self).streams() == old(self).streams().insert(
                    chunk_stream_id.value(),
                    header_update(s.format, s),
                )
                &&& final(self).chunk_size() == match message {
                    RtmpMessage::SetChunkSize { size, .. } => size.value() as nat,
                    _ => old(self).chunk_size(),
                }
            }),
            1 <= old(self).chunk_size() <= crate::rtmp_chunk::CHUNK_SIZE_MAX,
    {
        let new_chunk_size = match &message {
            RtmpMessage::SetChunkSize { size, .. } => Some(*size),
            _ => None,
        };
        let ghost m = message;
        let chunk = self.message_to_chunk(chunk_stream_id, message);
        self.chunk_encoder.encode(buf, &chunk);
        if let Some(size) = new_chunk_size {
            self.chunk_encoder.set_chunk_size(size);
        }
    }

    fn message_to_chunk(&self, chunk_stream_id: RtmpChunkStreamId, message: RtmpMessage) -> (r: RtmpChunk)
        requires
            message_encodable(message),
        ensures
            r.chunk_stream_id == chunk_stream_id,
            r.message_stream_id == message.spec_header().stream_id,
            r.message_type == message.spec_message_type(),
            r.timestamp == message.spec_header().timestamp,
            r.payload@ == message_payload_bytes(message),
    {
        let header = message.header();
        let message_type = message.message_type();
        let mut payload: Vec<u8> = Vec::new();
        encode_message_payload(&mut payload, &message);
        RtmpChunk {
            chunk_stream_id,
            message_stream_id: header.stream_id,
            message_type,
            timestamp: header.timestamp,
            payload,
        }
    }
}

impl Default for RtmpMessageEncoder {
    fn default() -> (r: Self)
        ensures
            r.chunk_size() == crate::rtmp_chunk::CHUNK_SIZE_DEFAULT,
            r.streams() == Map::<u32, EncoderChunkStream>::empty(),
    {
        Self::new()
    }
}

/// Appends the payload of `message`.
fn encode_message_payload(buf: &mut Vec<u8>, message: &RtmpMessage)
    requires
        message_encodable(*message),
    ensures
        final(buf)@ == old(buf)@ + message_payload_bytes(*message),
{
    match message {
        RtmpMessage::SetChunkSize { size, .. } => {
            write_u32(buf, size.get() as u32);
        },
        RtmpMessage::Abort { chunk_stream_id, .. } => {
            write_u32(buf, chunk_stream_id.get());
        },
        RtmpMessage::Ack { sequence_number, .. } => {
            write_u32(buf, *sequence_number);
        },
        RtmpMessage::WinAckSize { size, .. } => {
            write_u32(buf, *size);
        },
        RtmpMessage::SetPeerBandwidth { size, limit_type, .. } => {
            write_u32(buf, *size);
            write_u8(buf, limit_type.code());
            assert(buf@ =~= old(buf)@ + message_payload_bytes(*message));
        },
        RtmpMessage::Audio { frame, .. } => {
            encode_audio_frame(buf, frame);
        },
        RtmpMessage::Video { frame, .. } => {
            encode_video_frame(buf, frame);
        },
        RtmpMessage::Data { values, .. } => {
            encode_amf_values(buf, values);
        },
        RtmpMessage::UserControl { event, .. } => {
            event.encode(buf);
        },
        RtmpMessage::Command { amf_version, name, transaction_id, object, args, .. } => {
            encode_command(buf, *amf_version, name.as_str(), *transaction_id, object, args);
        },
    }
}

/// Appends a command's payload.
fn encode_command(
    buf: &mut Vec<u8>,
    amf_version: AmfVersion,
    name: &str,
    transaction_id: TransactionId,
    object: &AmfValue,
    args: &Vec<AmfValue>,
)
    requires
        amf_encodable(object@),
        forall|i: int| 0 <= i < args@.len() ==> amf_encodable(#[trigger] args@[i]@),
    ensures
        final(buf)@ == old(buf)@ + command_bytes(
            amf_version,
            name@,
            transaction_id.0,
            object@,
            amf_values_view(args@),
        ),
{
    let n = AmfValue::string(amf_version, name);
    n.encode(buf);
    let t = AmfValue::number(amf_version, Float64::from_i64(transaction_id.get()));
    t.encode(buf);
    object.encode(buf);
    let ghost mid = buf@;
    encode_amf_values(buf, args);
    assert(buf@ =~= old(buf)@ + command_bytes(
        amf_version,
        name@,
        transaction_id.0,
        object@,
        amf_values_view(args@),
    ));
}

/// Appends AMF values one after the other.
fn encode_amf_values(buf: &mut Vec<u8>, values: &Vec<AmfValue>)
    requires
        forall|i: int| 0 <= i < values@.len() ==> amf_encodable(#[trigger] values@[i]@),
    ensures
        final(buf)@ == old(buf)@ + amf_seq_bytes(amf_values_view(values@), values@.len() as int),
{
    let ghost vs = amf_values_view(values@);
    let ghost start = buf@;
    let mut i: usize = 0;
    while i < values.len()
        invariant
            i <= values@.len(),
            vs == amf_values_view(values@),
            forall|j: int| 0 <= j < values@.len() ==> amf_encodable(#[trigger] values@[j]@),
            buf@ == start + amf_seq_bytes(vs, i as int),
        decreases values.len() - i,
    {
        values[i].encode(buf);
        assert(vs[i as int] == values@[i as int]@);
        i = i + 1;
    }
}

} // verus!
