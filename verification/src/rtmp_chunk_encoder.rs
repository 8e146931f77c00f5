use std::collections::HashMap;

use vstd::prelude::*;

use crate::bytes::{u24_be, u32_be, u32_le, write_bytes, write_u24, write_u32, write_u32_le, write_u8};
use crate::rtmp_chunk::{MessageHeaderFormat, RtmpChunk, RtmpChunkSize, RtmpChunkStreamId};
use crate::rtmp_message::{RtmpMessageStreamId, RtmpMessageType};
use crate::rtmp_timestamp::RtmpTimestamp;

verus! {

broadcast use vstd::std_specs::hash::group_hash_axioms;

/// Timestamps at or above this value are sent in the extended timestamp field.
pub const EXTENDED_TIMESTAMP_MARKER: u32 = 0xFFFFFF;

/// What the encoder remembers of the last message sent on a chunk stream.
#[derive(Debug, Clone, Copy)]
pub struct EncoderChunkStream {
    pub chunk_stream_id: RtmpChunkStreamId,
    pub timestamp: RtmpTimestamp,
    pub timestamp_delta: RtmpTimestamp,
    pub message_type: RtmpMessageType,
    pub message_stream_id: RtmpMessageStreamId,
    pub message_size: usize,
    pub format: MessageHeaderFormat,
    pub enable_f3_extended_timestamp: bool,
}

/// The chunk stream state for a message with the given chunk stream, message stream, type,
/// timestamp and payload length, given what was last sent on that chunk stream: it
/// decides the header format from what changed.
pub open spec fn resolve_fields(
    last: Option<EncoderChunkStream>,
    chunk_stream_id: RtmpChunkStreamId,
    message_stream_id: RtmpMessageStreamId,
    message_type: RtmpMessageType,
    timestamp: RtmpTimestamp,
    len: nat,
) -> EncoderChunkStream {
    let base = EncoderChunkStream {
        chunk_stream_id,
        timestamp,
        timestamp_delta: timestamp,
        message_type,
        message_stream_id,
        message_size: len as usize,
        format: MessageHeaderFormat::F0,
        enable_f3_extended_timestamp: false,
    };
    match last {
        None => base,
        Some(l) => {
            let b = EncoderChunkStream { enable_f3_extended_timestamp: l.enable_f3_extended_timestamp, ..base };
            if timestamp.0 < l.timestamp.0 {
                b
            } else {
                let delta = RtmpTimestamp((timestamp.0 - l.timestamp.0) as u32);
                let same_stream = b.message_stream_id == l.message_stream_id;
                let same_type = b.message_type == l.message_type;
                let same_size = b.message_size == l.message_size;
                let same_delta = delta == l.timestamp_delta;
                let format = if same_stream && same_type && same_size && same_delta {
                    MessageHeaderFormat::F3
                } else if same_stream && same_type && same_size {
                    MessageHeaderFormat::F2
                } else if same_stream {
                    MessageHeaderFormat::F1
                } else {
                    MessageHeaderFormat::F0
                };
                EncoderChunkStream { timestamp_delta: delta, format, ..b }
            }
        },
    }
}

/// The chunk stream state for `chunk`, given what was last sent on its chunk stream.
pub open spec fn resolve_chunk_stream(last: Option<EncoderChunkStream>, chunk: RtmpChunk) -> EncoderChunkStream {
    resolve_fields(
        last,
        chunk.chunk_stream_id,
        chunk.message_stream_id,
        chunk.message_type,
        chunk.timestamp,
        chunk.payload@.len(),
    )
}

/// The bytes of a chunk basic header.
pub open spec fn basic_header_bytes(format: MessageHeaderFormat, id: u32) -> Seq<u8> {
    let fmt = format.spec_code() as int * 64;
    if id < 64 {
        seq![(fmt + id) as u8]
    } else if id < 320 {
        seq![fmt as u8, (id - 64) as u8]
    } else {
        seq![(fmt + 1) as u8, ((id - 64) % 0x100) as u8, ((id - 64) / 0x100) as u8]
    }
}

/// The 24-bit timestamp field for `t`, and the extended field when needed.
pub open spec fn timestamp_field(t: u32) -> Seq<u8> {
    if t >= EXTENDED_TIMESTAMP_MARKER {
        u24_be(EXTENDED_TIMESTAMP_MARKER as int)
    } else {
        u24_be(t as int)
    }
}

/// The extended timestamp field for `t`, present when `t` does not fit in 24 bits.
pub open spec fn extended_timestamp_field(t: u32) -> Seq<u8> {
    if t >= EXTENDED_TIMESTAMP_MARKER {
        u32_be(t as int)
    } else {
        Seq::<u8>::empty()
    }
}

/// The bytes of a chunk message header of the given format.
pub open spec fn message_header_bytes(format: MessageHeaderFormat, s: EncoderChunkStream) -> Seq<u8> {
    match format {
        MessageHeaderFormat::F0 => timestamp_field(s.timestamp.0) + u24_be(s.message_size as int)
            + seq![s.message_type.spec_type_id()] + u32_le(s.message_stream_id.0 as int)
            + extended_timestamp_field(s.timestamp.0),
        MessageHeaderFormat::F1 => timestamp_field(s.timestamp_delta.0) + u24_be(
            s.message_size as int,
        ) + seq![s.message_type.spec_type_id()] + extended_timestamp_field(s.timestamp_delta.0),
        MessageHeaderFormat::F2 => timestamp_field(s.timestamp_delta.0) + extended_timestamp_field(
            s.timestamp_delta.0,
        ),
        MessageHeaderFormat::F3 => if s.enable_f3_extended_timestamp {
            u32_be(s.timestamp_delta.0 as int)
        } else {
            Seq::<u8>::empty()
        },
    }
}

/// The chunk stream state after writing a message header of the given format.
pub open spec fn header_update(format: MessageHeaderFormat, s: EncoderChunkStream) -> EncoderChunkStream {
    match format {
        MessageHeaderFormat::F0 => EncoderChunkStream {
            enable_f3_extended_timestamp: s.timestamp.0 >= EXTENDED_TIMESTAMP_MARKER,
            timestamp_delta: s.timestamp,
            ..s
        },
        MessageHeaderFormat::F1 | MessageHeaderFormat::F2 => EncoderChunkStream {
            enable_f3_extended_timestamp: s.timestamp_delta.0 >= EXTENDED_TIMESTAMP_MARKER,
            ..s
        },
        MessageHeaderFormat::F3 => s,
    }
}

/// Smaller of two naturals.
pub open spec fn min_nat(a: nat, b: nat) -> nat {
    if a < b {
        a
    } else {
        b
    }
}

/// The format 3 chunks carrying `rest`, at most `chunk_size` bytes each.
pub open spec fn continuation_chunks(s: EncoderChunkStream, rest: Seq<u8>, chunk_size: nat) -> Seq<u8>
    decreases rest.len(),
{
    if rest.len() == 0 || chunk_size == 0 {
        Seq::<u8>::empty()
    } else {
        let n = min_nat(rest.len(), chunk_size);
        basic_header_bytes(MessageHeaderFormat::F3, s.chunk_stream_id.value())
            + message_header_bytes(MessageHeaderFormat::F3, s) + rest.take(n as int)
            + continuation_chunks(s, rest.skip(n as int), chunk_size)
    }
}

/// The chunks of a message whose resolved chunk stream state is `s`.
pub open spec fn message_chunks(s: EncoderChunkStream, payload: Seq<u8>, chunk_size: nat) -> Seq<u8> {
    let n = min_nat(payload.len(), chunk_size);
    basic_header_bytes(s.format, s.chunk_stream_id.value()) + message_header_bytes(s.format, s)
        + payload.take(n as int) + continuation_chunks(
        header_update(s.format, s),
        payload.skip(n as int),
        chunk_size,
    )
}

/// Splits messages into chunks, remembering per chunk stream what it sent last.
#[derive(Debug)]
pub struct RtmpChunkEncoder {
    chunk_size: RtmpChunkSize,
    chunk_streams: HashMap<u32, EncoderChunkStream>,
}

impl RtmpChunkEncoder {
    /// The chunk size in use.
    pub closed spec fn chunk_size(&self) -> nat {
        self.chunk_size.value() as nat
    }

    /// What was sent last on each chunk stream.
    pub closed spec fn streams(&self) -> Map<u32, EncoderChunkStream> {
        self.chunk_streams@
    }

    /// A new encoder: default chunk size, nothing sent.
    pub fn new() -> (r: Self)
        ensures
            r.chunk_size() == crate::rtmp_chunk::CHUNK_SIZE_DEFAULT,
            r.streams() == Map::<u32, EncoderChunkStream>::empty(),
    {
        RtmpChunkEncoder { chunk_size: RtmpChunkSize::default_size(), chunk_streams: HashMap::new() }
    }

    /// Sets the chunk size for the messages that follow.
    pub fn set_chunk_size(&mut self, size: RtmpChunkSize)
        ensures
            final(self).chunk_size() == size.value(),
            final(self).streams() == old(self).streams(),
    {
        self.chunk_size = size;
    }

    /// Appends the chunks of a message.
    pub fn encode(&mut self, buf: &mut Vec<u8>, chunk: &RtmpChunk)
        ensures
            ({
                let s = resolve_chunk_stream(
                    old(self).streams().get(chunk.chunk_stream_id.value()),
                    *chunk,
                );
                &&& final(buf)@ == old(buf)@ + message_chunks(s, chunk.payload@, old(self).chunk_size())
                &&& final(self).streams() == old(self).streams().insert(
                    chunk.chunk_stream_id.value(),
                    header_update(s.format, s),
                )
            }),
            final(self).chunk_size() == old(self).chunk_size(),
            1 <= old(self).chunk_size() <= crate::rtmp_chunk::CHUNK_SIZE_MAX,
    {
        let mut chunk_stream = self.resolve_chunk_stream(chunk);
        self.encode_message(buf, &mut chunk_stream, chunk.payload.as_slice());
        let id = chunk.chunk_stream_id.get();
        self.chunk_streams.insert(id, chunk_stream);
    }

    fn encode_message(
        &self,
        buf: &mut Vec<u8>,
        chunk_stream: &mut EncoderChunkStream,
        message_payload: &[u8],
    )
        ensures
            final(buf)@ == old(buf)@ + message_chunks(*old(chunk_stream), message_payload@, self.chunk_size()),
            *final(chunk_stream) == header_update(old(chunk_stream).format, *old(chunk_stream)),
            1 <= self.chunk_size() <= crate::rtmp_chunk::CHUNK_SIZE_MAX,
    {
        let ghost s0 = *chunk_stream;
        let ghost start = buf@;
        let chunk_size = self.chunk_size.get();
        let len = message_payload.len();
        let first_size = if len < chunk_size { len } else { chunk_size };
        let format = chunk_stream.format;
        self.encode_chunk_basic_header(buf, format, chunk_stream);
        self.encode_message_header(buf, format, chunk_stream);
        write_bytes(buf, vstd::slice::slice_subrange(message_payload, 0, first_size));
        assert(message_payload@.subrange(0, first_size as int) =~= message_payload@.take(first_size as int));
        let ghost s1 = *chunk_stream;
        let mut offset = first_size;
        assert(message_payload@.skip(first_size as int) =~= message_payload@.subrange(first_size as int, len as int));
        while offset < len
            invariant
                chunk_size == self.chunk_size(),
                1 <= chunk_size,
                len == message_payload@.len(),
                first_size <= offset <= len,
                *chunk_stream == s1,
                s1 == header_update(s0.format, s0),
                buf@ + continuation_chunks(s1, message_payload@.subrange(offset as int, len as int), chunk_size as nat)
                    == start + message_chunks(s0, message_payload@, chunk_size as nat),
            decreases len - offset,
        {
            let ghost before = buf@;
            let remaining = len - offset;
            let n = if remaining < chunk_size { remaining } else { chunk_size };
            let ghost rest = message_payload@.subrange(offset as int, len as int);
            self.encode_chunk_basic_header(buf, MessageHeaderFormat::F3, chunk_stream);
            self.encode_message_header(buf, MessageHeaderFormat::F3, chunk_stream);
            write_bytes(buf, vstd::slice::slice_subrange(message_payload, offset, offset + n));
            assert(message_payload@.subrange(offset as int, offset + n) =~= rest.take(n as int));
            assert(message_payload@.subrange(offset + n, len as int) =~= rest.skip(n as int));
            offset = offset + n;
            assert(buf@ + continuation_chunks(s1, message_payload@.subrange(offset as int, len as int), chunk_size as nat)
                =~= before + continuation_chunks(s1, rest, chunk_size as nat));
        }
        assert(continuation_chunks(s1, message_payload@.subrange(offset as int, len as int), chunk_size as nat)
            =~= Seq::<u8>::empty());
        assert(buf@ =~= start + message_chunks(s0, message_payload@, chunk_size as nat));
    }

    fn encode_chunk_basic_header(
        &self,
        buf: &mut Vec<u8>,
        format: MessageHeaderFormat,
        chunk_stream: &EncoderChunkStream,
    )
        ensures
            final(buf)@ == old(buf)@ + basic_header_bytes(format, chunk_stream.chunk_stream_id.value()),
    {
        let fmt = format.code() * 64;
        let id = chunk_stream.chunk_stream_id.get();
        if id < 64 {
            write_u8(buf, fmt + id as u8);
        } else if id < 320 {
            write_u8(buf, fmt);
            write_u8(buf, (id - 64) as u8);
        } else {
            write_u8(buf, fmt + 1);
            write_u8(buf, ((id - 64) % 0x100) as u8);
            write_u8(buf, ((id - 64) / 0x100) as u8);
        }
        assert(buf@ =~= old(buf)@ + basic_header_bytes(format, chunk_stream.chunk_stream_id.value()));
    }

    fn write_timestamp_field(buf: &mut Vec<u8>, t: u32)
        ensures
            final(buf)@ == old(buf)@ + timestamp_field(t),
    {
        if t >= EXTENDED_TIMESTAMP_MARKER {
            write_u24(buf, EXTENDED_TIMESTAMP_MARKER);
        } else {
            write_u24(buf, t);
        }
    }

    fn write_extended_timestamp_field(buf: &mut Vec<u8>, t: u32)
        ensures
            final(buf)@ == old(buf)@ + extended_timestamp_field(t),
    {
        if t >= EXTENDED_TIMESTAMP_MARKER {
            write_u32(buf, t);
        } else {
            assert(buf@ =~= old(buf)@ + extended_timestamp_field(t));
        }
    }

    fn write_size_field(buf: &mut Vec<u8>, v: usize)
        ensures
            final(buf)@ == old(buf)@ + u24_be(v as int),
    {
        write_u8(buf, ((v / 0x10000) % 0x100) as u8);
        write_u8(buf, ((v / 0x100) % 0x100) as u8);
        write_u8(buf, (v % 0x100) as u8);
        assert(buf@ =~= old(buf)@ + u24_be(v as int));
    }

    fn encode_header_f0(buf: &mut Vec<u8>, chunk_stream: &mut EncoderChunkStream)
        ensures
            final(buf)@ == old(buf)@ + message_header_bytes(MessageHeaderFormat::F0, *old(chunk_stream)),
            *final(chunk_stream) == header_update(MessageHeaderFormat::F0, *old(chunk_stream)),
    {
        let ghost start = buf@;
        let timestamp = chunk_stream.timestamp.as_millis();
        Self::write_timestamp_field(buf, timestamp);
        Self::write_size_field(buf, chunk_stream.message_size);
        write_u8(buf, chunk_stream.message_type.type_id());
        write_u32_le(buf, chunk_stream.message_stream_id.get());
        Self::write_extended_timestamp_field(buf, timestamp);
        chunk_stream.enable_f3_extended_timestamp = timestamp >= EXTENDED_TIMESTAMP_MARKER;
        chunk_stream.timestamp_delta = chunk_stream.timestamp;
        assert(buf@ =~= start + message_header_bytes(MessageHeaderFormat::F0, *old(chunk_stream)));
    }

    fn encode_header_f1(buf: &mut Vec<u8>, chunk_stream: &mut EncoderChunkStream)
        ensures
            final(buf)@ == old(buf)@ + message_header_bytes(MessageHeaderFormat::F1, *old(chunk_stream)),
            *final(chunk_stream) == header_update(MessageHeaderFormat::F1, *old(chunk_stream)),
    {
        let ghost start = buf@;
        let timestamp_delta = chunk_stream.timestamp_delta.as_millis();
        Self::write_timestamp_field(buf, timestamp_delta);
        Self::write_size_field(buf, chunk_stream.message_size);
        write_u8(buf, chunk_stream.message_type.type_id());
        Self::write_extended_timestamp_field(buf, timestamp_delta);
        chunk_stream.enable_f3_extended_timestamp = timestamp_delta >= EXTENDED_TIMESTAMP_MARKER;
        assert(buf@ =~= start + message_header_bytes(MessageHeaderFormat::F1, *old(chunk_stream)));
    }

    fn encode_header_f2(buf: &mut Vec<u8>, chunk_stream: &mut EncoderChunkStream)
        ensures
            final(buf)@ == old(buf)@ + message_header_bytes(MessageHeaderFormat::F2, *old(chunk_stream)),
            *final(chunk_stream) == header_update(MessageHeaderFormat::F2, *old(chunk_stream)),
    {
        let ghost start = buf@;
        let timestamp_delta = chunk_stream.timestamp_delta.as_millis();
        Self::write_timestamp_field(buf, timestamp_delta);
        Self::write_extended_timestamp_field(buf, timestamp_delta);
        chunk_stream.enable_f3_extended_timestamp = timestamp_delta >= EXTENDED_TIMESTAMP_MARKER;
        assert(buf@ =~= start + message_header_bytes(MessageHeaderFormat::F2, *old(chunk_stream)));
    }

    fn encode_message_header(
        &self,
        buf: &mut Vec<u8>,
        format: MessageHeaderFormat,
        chunk_stream: &mut EncoderChunkStream,
    )
        ensures
            final(buf)@ == old(buf)@ + message_header_bytes(format, *old(chunk_stream)),
            *final(chunk_stream) == header_update(format, *old(chunk_stream)),
    {
        match format {
            MessageHeaderFormat::F0 => Self::encode_header_f0(buf, chunk_stream),
            MessageHeaderFormat::F1 => Self::encode_header_f1(buf, chunk_stream),
            MessageHeaderFormat::F2 => Self::encode_header_f2(buf, chunk_stream),
            MessageHeaderFormat::F3 => {
                if chunk_stream.enable_f3_extended_timestamp {
                    write_u32(buf, chunk_stream.timestamp_delta.as_millis());
                } else {
                    assert(buf@ =~= old(buf)@ + message_header_bytes(format, *old(chunk_stream)));
                }
            },
        }
    }

    fn resolve_chunk_stream(&self, chunk: &RtmpChunk) -> (r: EncoderChunkStream)
        ensures
            r == resolve_chunk_stream(self.streams().get(chunk.chunk_stream_id.value()), *chunk),
    {
        let mut chunk_stream = EncoderChunkStream {
            chunk_stream_id: chunk.chunk_stream_id,
            timestamp: chunk.timestamp,
            timestamp_delta: chunk.timestamp,
            message_type: chunk.message_type,
            message_stream_id: chunk.message_stream_id,
            message_size: chunk.payload.len(),
            format: MessageHeaderFormat::F0,
            enable_f3_extended_timestamp: false,
        };
        let id = chunk.chunk_stream_id.get();
        let last = match self.chunk_streams.get(&id) {
            Some(l) => *l,
            None => {
                return chunk_stream;
            },
        };
        chunk_stream.enable_f3_extended_timestamp = last.enable_f3_extended_timestamp;
        let delta = match chunk_stream.timestamp.checked_sub(last.timestamp) {
            Some(d) => d,
            None => {
                return chunk_stream;
            },
        };
        chunk_stream.timestamp_delta = delta;
        let same_stream = chunk_stream.message_stream_id == last.message_stream_id;
        let same_type = chunk_stream.message_type == last.message_type;
        let same_size = chunk_stream.message_size == last.message_size;
        let same_delta = chunk_stream.timestamp_delta == last.timestamp_delta;
        chunk_stream.format = if same_stream && same_type && same_size && same_delta {
            MessageHeaderFormat::F3
        } else if same_stream && same_type && same_size {
            MessageHeaderFormat::F2
        } else if same_stream {
            MessageHeaderFormat::F1
        } else {
            MessageHeaderFormat::F0
        };
        chunk_stream
    }
}

impl Default for RtmpChunkEncoder {
    fn default() -> (r: Self)
        ensures
            r.chunk_size() == crate::rtmp_chunk::CHUNK_SIZE_DEFAULT,
            r.streams() == Map::<u32, EncoderChunkStream>::empty(),
    {
        Self::new()
    }
}

} // verus!
