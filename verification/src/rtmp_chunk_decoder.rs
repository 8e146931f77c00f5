use std::collections::HashMap;

use vstd::prelude::*;

use crate::bytes::{be24, be32, le32, read_bytes, read_u24, read_u32, read_u32_le, read_u8};
use crate::error::{Error, ErrorKind};
use crate::rtmp_chunk::{
    MessageHeaderFormat, RtmpChunk, RtmpChunkModel, RtmpChunkSize, RtmpChunkStreamId,
};
use crate::rtmp_chunk_encoder::{min_nat, EXTENDED_TIMESTAMP_MARKER};
use crate::rtmp_message::{RtmpMessageStreamId, RtmpMessageType};
use crate::rtmp_timestamp::RtmpTimestamp;

verus! {

broadcast use vstd::std_specs::hash::group_hash_axioms;

/// What the decoder knows of a chunk stream.
#[derive(Debug)]
pub struct DecoderChunkStream {
    timestamp: RtmpTimestamp,
    timestamp_delta: RtmpTimestamp,
    message_type: RtmpMessageType,
    message_stream_id: RtmpMessageStreamId,
    message_size: usize,
    acc_payload: Vec<u8>,
    enable_f3_extended_timestamp: bool,
}

/// The mathematical content of a [`DecoderChunkStream`].
pub struct DecoderChunkStreamModel {
    pub timestamp: RtmpTimestamp,
    pub timestamp_delta: RtmpTimestamp,
    pub message_type: RtmpMessageType,
    pub message_stream_id: RtmpMessageStreamId,
    pub message_size: usize,
    pub acc_payload: Seq<u8>,
    pub enable_f3_extended_timestamp: bool,
}

impl View for DecoderChunkStream {
    type V = DecoderChunkStreamModel;

    closed spec fn view(&self) -> DecoderChunkStreamModel {
        DecoderChunkStreamModel {
            timestamp: self.timestamp,
            timestamp_delta: self.timestamp_delta,
            message_type: self.message_type,
            message_stream_id: self.message_stream_id,
            message_size: self.message_size,
            acc_payload: self.acc_payload@,
            enable_f3_extended_timestamp: self.enable_f3_extended_timestamp,
        }
    }
}

/// The state of a chunk stream before its first chunk.
pub open spec fn initial_chunk_stream() -> DecoderChunkStreamModel {
    DecoderChunkStreamModel {
        timestamp: RtmpTimestamp(0),
        timestamp_delta: RtmpTimestamp(0),
        message_type: RtmpMessageType::SetChunkSize,
        message_stream_id: RtmpMessageStreamId(0),
        message_size: 0,
        acc_payload: Seq::<u8>::empty(),
        enable_f3_extended_timestamp: false,
    }
}

/// Parses a chunk basic header: its length, format and chunk stream ID.
pub open spec fn parse_basic_header(b: Seq<u8>) -> Result<(int, MessageHeaderFormat, u32), ErrorKind> {
    if b.len() < 1 {
        Err(ErrorKind::InsufficientBuffer)
    } else {
        let fmt = MessageHeaderFormat::spec_from_code(b[0] / 64);
        let id_bits = b[0] % 64;
        if id_bits == 0 {
            if b.len() < 2 {
                Err(ErrorKind::InsufficientBuffer)
            } else {
                Ok((2, fmt, (b[1] + 64) as u32))
            }
        } else if id_bits == 1 {
            if b.len() < 3 {
                Err(ErrorKind::InsufficientBuffer)
            } else {
                Ok((3, fmt, (b[1] + b[2] * 256 + 64) as u32))
            }
        } else {
            Ok((1, fmt, id_bits as u32))
        }
    }
}

/// The timestamp (or delta) field value, and how many more bytes the extended field takes.
pub open spec fn timestamp_value(b: Seq<u8>, p: int, ext_at: int) -> u32 {
    if be24(b, p) == EXTENDED_TIMESTAMP_MARKER {
        be32(b, ext_at) as u32
    } else {
        be24(b, p) as u32
    }
}

/// Parses a chunk message header of the given format at `p`, updating the chunk stream.
pub open spec fn parse_message_header(
    b: Seq<u8>,
    p: int,
    fmt: MessageHeaderFormat,
    s: DecoderChunkStreamModel,
) -> Result<(int, DecoderChunkStreamModel), ErrorKind> {
    match fmt {
        MessageHeaderFormat::F0 => {
            if p + 11 > b.len() {
                Err(ErrorKind::InsufficientBuffer)
            } else {
                let ext = be24(b, p) == EXTENDED_TIMESTAMP_MARKER;
                if ext && p + 15 > b.len() {
                    Err(ErrorKind::InsufficientBuffer)
                } else {
                    match RtmpMessageType::spec_from_type_id(b[p + 6]) {
                        None => Err(ErrorKind::InvalidData),
                        Some(t) => Ok(
                            (
                                p + 11 + if ext {
                                    4int
                                } else {
                                    0int
                                },
                                DecoderChunkStreamModel {
                                    timestamp: RtmpTimestamp(0),
                                    timestamp_delta: RtmpTimestamp(timestamp_value(b, p, p + 11)),
                                    message_type: t,
                                    message_stream_id: RtmpMessageStreamId(le32(b, p + 7) as u32),
                                    message_size: be24(b, p + 3) as usize,
                                    enable_f3_extended_timestamp: ext,
                                    ..s
                                },
                            ),
                        ),
                    }
                }
            }
        },
        MessageHeaderFormat::F1 => {
            if p + 7 > b.len() {
                Err(ErrorKind::InsufficientBuffer)
            } else {
                let ext = be24(b, p) == EXTENDED_TIMESTAMP_MARKER;
                if ext && p + 11 > b.len() {
                    Err(ErrorKind::InsufficientBuffer)
                } else {
                    match RtmpMessageType::spec_from_type_id(b[p + 6]) {
                        None => Err(ErrorKind::InvalidData),
                        Some(t) => Ok(
                            (
                                p + 7 + if ext {
                                    4int
                                } else {
                                    0int
                                },
                                DecoderChunkStreamModel {
                                    timestamp_delta: RtmpTimestamp(timestamp_value(b, p, p + 7)),
                                    message_type: t,
                                    message_size: be24(b, p + 3) as usize,
                                    enable_f3_extended_timestamp: ext,
                                    ..s
                                },
                            ),
                        ),
                    }
                }
            }
        },
        MessageHeaderFormat::F2 => {
            if p + 3 > b.len() {
                Err(ErrorKind::InsufficientBuffer)
            } else {
                let ext = be24(b, p) == EXTENDED_TIMESTAMP_MARKER;
                if ext && p + 7 > b.len() {
                    Err(ErrorKind::InsufficientBuffer)
                } else {
                    Ok(
                        (
                            p + 3 + if ext {
                                4int
                            } else {
                                0int
                            },
                            DecoderChunkStreamModel {
                                timestamp_delta: RtmpTimestamp(timestamp_value(b, p, p + 3)),
                                enable_f3_extended_timestamp: ext,
                                ..s
                            },
                        ),
                    )
                }
            }
        },
        MessageHeaderFormat::F3 => {
            if s.enable_f3_extended_timestamp {
                if p + 4 > b.len() {
                    Err(ErrorKind::InsufficientBuffer)
                } else {
                    Ok((p + 4, DecoderChunkStreamModel { timestamp_delta: RtmpTimestamp(be32(b, p) as u32), ..s }))
                }
            } else {
                Ok((p, s))
            }
        },
    }
}

/// Reads the payload part of a chunk at `p`; gives the whole message payload when it completes.
pub open spec fn parse_payload(
    b: Seq<u8>,
    p: int,
    s: DecoderChunkStreamModel,
    chunk_size: nat,
) -> Result<(int, DecoderChunkStreamModel, Option<Seq<u8>>), ErrorKind> {
    if s.acc_payload.len() > s.message_size {
        Err(ErrorKind::InvalidData)
    } else {
        let n = min_nat((s.message_size - s.acc_payload.len()) as nat, chunk_size);
        if p + n > b.len() {
            Err(ErrorKind::InsufficientBuffer)
        } else {
            let acc = s.acc_payload + b.subrange(p, p + n);
            if acc.len() == s.message_size {
                Ok(
                    (
                        p + n,
                        DecoderChunkStreamModel {
                            timestamp: RtmpTimestamp(
                                ((s.timestamp.0 + s.timestamp_delta.0) % 0x1_0000_0000) as u32,
                            ),
                            acc_payload: Seq::<u8>::empty(),
                            ..s
                        },
                        Some(acc),
                    ),
                )
            } else {
                Ok((p + n, DecoderChunkStreamModel { acc_payload: acc, ..s }, None))
            }
        }
    }
}

/// Decodes one chunk from the front of `b`: the bytes consumed, the new chunk stream
/// states, and the message when this chunk completes one.
pub open spec fn decode_chunk(
    streams: Map<u32, DecoderChunkStreamModel>,
    chunk_size: nat,
    b: Seq<u8>,
) -> Result<(int, Map<u32, DecoderChunkStreamModel>, Option<RtmpChunkModel>), ErrorKind> {
    match parse_basic_header(b) {
        Err(e) => Err(e),
        Ok((p, fmt, id)) => {
            let start = if streams.contains_key(id) {
                Some(streams[id])
            } else if fmt == MessageHeaderFormat::F0 {
                Some(initial_chunk_stream())
            } else {
                None
            };
            match start {
                None => Err(ErrorKind::InvalidData),
                Some(s) => match parse_message_header(b, p, fmt, s) {
                    Err(e) => Err(e),
                    Ok((p2, s2)) => match parse_payload(b, p2, s2, chunk_size) {
                        Err(e) => Err(e),
                        Ok((p3, s3, payload)) => Ok(
                            (
                                p3,
                                streams.insert(id, s3),
                                match payload {
                                    None => None,
                                    Some(pl) => Some(
                                        RtmpChunkModel {
                                            chunk_stream_id: id,
                                            message_stream_id: s3.message_stream_id,
                                            message_type: s3.message_type,
                                            timestamp: s3.timestamp,
                                            payload: pl,
                                        },
                                    ),
                                },
                            ),
                        ),
                    },
                },
            }
        },
    }
}

/// A decoded chunk takes at least one byte and no more than there are.
pub proof fn lemma_decode_chunk_progress(streams: Map<u32, DecoderChunkStreamModel>, chunk_size: nat, b: Seq<u8>)
    ensures
        decode_chunk(streams, chunk_size, b) matches Ok((n, _, _)) ==> 1 <= n <= b.len(),
{
}

/// Reassembles messages from chunks, remembering the state of each chunk stream.
#[derive(Debug)]
pub struct RtmpChunkDecoder {
    chunk_size: RtmpChunkSize,
    chunk_streams: HashMap<u32, DecoderChunkStream>,
}

impl RtmpChunkDecoder {
    /// The chunk size in use.
    pub closed spec fn chunk_size(&self) -> nat {
        self.chunk_size.value() as nat
    }

    /// The state of each chunk stream seen so far.
    pub closed spec fn streams(&self) -> Map<u32, DecoderChunkStreamModel> {
        self.chunk_streams@.map_values(|s: DecoderChunkStream| s@)
    }

    /// A new decoder: default chunk size, no chunk stream seen.
    pub fn new() -> (r: Self)
        ensures
            r.chunk_size() == crate::rtmp_chunk::CHUNK_SIZE_DEFAULT,
            r.streams() == Map::<u32, DecoderChunkStreamModel>::empty(),
    {
        let r = RtmpChunkDecoder { chunk_size: RtmpChunkSize::default_size(), chunk_streams: HashMap::new() };
        assert(r.streams() =~= Map::<u32, DecoderChunkStreamModel>::empty());
        r
    }

    /// Sets the chunk size for the chunks that follow.
    pub fn set_chunk_size(&mut self, size: RtmpChunkSize)
        ensures
            final(self).chunk_size() == size.value(),
            final(self).streams() == old(self).streams(),
    {
        self.chunk_size = size;
    }

    /// Forgets the state of a chunk stream (after an Abort message).
    pub fn reset_chunk_stream(&mut self, chunk_stream_id: RtmpChunkStreamId)
        ensures
            final(self).chunk_size() == old(self).chunk_size(),
            final(self).streams() == old(self).streams().remove(chunk_stream_id.value()),
    {
        let id = chunk_stream_id.get();
        self.chunk_streams.remove(&id);
        assert(self.streams() =~= old(self).streams().remove(chunk_stream_id.value()));
    }

    /// Decodes one chunk from the front of `buf`. Gives the bytes consumed and the
    /// message when the chunk completes one. On error nothing changes.
    pub fn decode(&mut self, buf: &[u8]) -> (r: Result<(usize, Option<RtmpChunk>), Error>)
        ensures
            final(self).chunk_size() == old(self).chunk_size(),
            decode_chunk(old(self).streams(), old(self).chunk_size(), buf@) is Ok <==> r is Ok,
            r matches Ok((n, c)) ==> {
                &&& decode_chunk(old(self).streams(), old(self).chunk_size(), buf@) matches Ok(
                    (n2, m, c2),
                )
                &&& n == n2
                &&& final(self).streams() == m
                &&& match c {
                    None => c2 is None,
                    Some(c) => c2 == Some(c@),
                }
            },
            r matches Err(e) ==> {
                &&& decode_chunk(old(self).streams(), old(self).chunk_size(), buf@) == Err::<
                    (int, Map<u32, DecoderChunkStreamModel>, Option<RtmpChunkModel>),
                    ErrorKind,
                >(e.kind)
                &&& final(self).streams() == old(self).streams()
            },
    {
        let (p, format, id) = Self::decode_chunk_basic_header(buf)?;
        let ghost streams = self.streams();
        let mut chunk_stream = match self.chunk_streams.get(&id) {
            Some(s) => {
                assert(streams.contains_key(id));
                s.duplicate()
            },
            None => {
                match format {
                    MessageHeaderFormat::F0 => DecoderChunkStream::initial(),
                    _ => {
                        return Err(Error::invalid_data("format ID must be 0 for the first chunk"));
                    },
                }
            },
        };
        let p2 = Self::decode_message_header(buf, p, format, &mut chunk_stream)?;
        let chunk_size = self.chunk_size.get();
        let (p3, maybe_payload) = Self::decode_message_payload(buf, p2, &mut chunk_stream, chunk_size)?;
        let maybe_chunk = match maybe_payload {
            Some(payload) => {
                let chunk_stream_id = RtmpChunkStreamId::new(id).unwrap();
                Some(RtmpChunk {
                    chunk_stream_id,
                    message_stream_id: chunk_stream.message_stream_id,
                    message_type: chunk_stream.message_type,
                    timestamp: chunk_stream.timestamp,
                    payload,
                })
            },
            None => None,
        };
        let ghost s3 = chunk_stream@;
        self.chunk_streams.insert(id, chunk_stream);
        assert(self.streams() =~= streams.insert(id, s3));
        Ok((p3, maybe_chunk))
    }

    fn decode_chunk_basic_header(buf: &[u8]) -> (r: Result<(usize, MessageHeaderFormat, u32), Error>)
        ensures
            r is Ok <==> parse_basic_header(buf@) is Ok,
            r matches Ok((p, f, id)) ==> {
                &&& parse_basic_header(buf@) == Ok::<(int, MessageHeaderFormat, u32), ErrorKind>(
                    (p as int, f, id),
                )
                &&& crate::rtmp_chunk::CHUNK_STREAM_ID_MIN <= id <= crate::rtmp_chunk::CHUNK_STREAM_ID_MAX
                &&& p <= buf@.len()
            },
            r matches Err(e) ==> parse_basic_header(buf@) == Err::<
                (int, MessageHeaderFormat, u32),
                ErrorKind,
            >(e.kind),
    {
        let first = read_u8(buf, 0)?;
        let format = MessageHeaderFormat::from_code(first / 64);
        let id_bits = first % 64;
        if id_bits == 0 {
            let b1 = read_u8(buf, 1)?;
            Ok((2, format, b1 as u32 + 64))
        } else if id_bits == 1 {
            let b1 = read_u8(buf, 1)?;
            let b2 = read_u8(buf, 2)?;
            Ok((3, format, b1 as u32 + b2 as u32 * 256 + 64))
        } else {
            Ok((1, format, id_bits as u32))
        }
    }

    fn read_timestamp_field(buf: &[u8], p: usize, ext_at: usize) -> (r: Result<(u32, bool), Error>)
        requires
            p + 3 <= buf@.len(),
            ext_at == p + 3 || ext_at == p + 7 || ext_at == p + 11,
        ensures
            r is Ok <==> (be24(buf@, p as int) == EXTENDED_TIMESTAMP_MARKER ==> ext_at + 4 <= buf@.len()),
            r matches Ok((t, ext)) ==> {
                &&& ext == (be24(buf@, p as int) == EXTENDED_TIMESTAMP_MARKER)
                &&& t == timestamp_value(buf@, p as int, ext_at as int)
            },
            r matches Err(e) ==> e.kind == ErrorKind::InsufficientBuffer,
    {
        let t = read_u24(buf, p)?;
        if t == EXTENDED_TIMESTAMP_MARKER {
            let x = read_u32(buf, ext_at)?;
            Ok((x, true))
        } else {
            Ok((t, false))
        }
    }

    fn decode_message_header(
        buf: &[u8],
        p: usize,
        format: MessageHeaderFormat,
        chunk_stream: &mut DecoderChunkStream,
    ) -> (r: Result<usize, Error>)
        requires
            p <= buf@.len(),
        ensures
            r is Ok <==> parse_message_header(buf@, p as int, format, old(chunk_stream)@) is Ok,
            r matches Ok(q) ==> {
                &&& parse_message_header(buf@, p as int, format, old(chunk_stream)@) == Ok::<
                    (int, DecoderChunkStreamModel),
                    ErrorKind,
                >((q as int, final(chunk_stream)@))
                &&& q <= buf@.len()
            },
            r matches Err(e) ==> parse_message_header(buf@, p as int, format, old(chunk_stream)@)
                == Err::<(int, DecoderChunkStreamModel), ErrorKind>(e.kind),
    {
        match format {
            MessageHeaderFormat::F0 => {
                if buf.len() - p < 11 {
                    return Err(Error::insufficient_buffer());
                }
                let size = read_u24(buf, p + 3)?;
                let type_id = read_u8(buf, p + 6)?;
                let message_stream_id = read_u32_le(buf, p + 7)?;
                let (delta, ext) = Self::read_timestamp_field(buf, p, p + 11)?;
                let message_type = RtmpMessageType::from_type_id(type_id)?;
                chunk_stream.enable_f3_extended_timestamp = ext;
                chunk_stream.timestamp_delta = RtmpTimestamp::from_millis(delta);
                chunk_stream.timestamp = RtmpTimestamp::zero();
                chunk_stream.message_size = size as usize;
                chunk_stream.message_type = message_type;
                chunk_stream.message_stream_id = RtmpMessageStreamId::new(message_stream_id);
                Ok(p + 11 + if ext { 4 } else { 0 })
            },
            MessageHeaderFormat::F1 => {
                if buf.len() - p < 7 {
                    return Err(Error::insufficient_buffer());
                }
                let size = read_u24(buf, p + 3)?;
                let type_id = read_u8(buf, p + 6)?;
                let (delta, ext) = Self::read_timestamp_field(buf, p, p + 7)?;
                let message_type = RtmpMessageType::from_type_id(type_id)?;
                chunk_stream.enable_f3_extended_timestamp = ext;
                chunk_stream.timestamp_delta = RtmpTimestamp::from_millis(delta);
                chunk_stream.message_size = size as usize;
                chunk_stream.message_type = message_type;
                Ok(p + 7 + if ext { 4 } else { 0 })
            },
            MessageHeaderFormat::F2 => {
                if buf.len() - p < 3 {
                    return Err(Error::insufficient_buffer());
                }
                let (delta, ext) = Self::read_timestamp_field(buf, p, p + 3)?;
                chunk_stream.enable_f3_extended_timestamp = ext;
                chunk_stream.timestamp_delta = RtmpTimestamp::from_millis(delta);
                Ok(p + 3 + if ext { 4 } else { 0 })
            },
            MessageHeaderFormat::F3 => {
                if chunk_stream.enable_f3_extended_timestamp {
                    let _len = buf.len();
                    let delta = read_u32(buf, p)?;
                    chunk_stream.timestamp_delta = RtmpTimestamp::from_millis(delta);
                    Ok(p + 4)
                } else {
                    Ok(p)
                }
            },
        }
    }

    fn decode_message_payload(
        buf: &[u8],
        p: usize,
        chunk_stream: &mut DecoderChunkStream,
        chunk_size: usize,
    ) -> (r: Result<(usize, Option<Vec<u8>>), Error>)
        requires
            p <= buf@.len(),
        ensures
            r is Ok <==> parse_payload(buf@, p as int, old(chunk_stream)@, chunk_size as nat) is Ok,
            r matches Ok((q, pl)) ==> {
                &&& parse_payload(buf@, p as int, old(chunk_stream)@, chunk_size as nat) matches Ok(
                    (q2, s2, pl2),
                )
                &&& q == q2
                &&& final(chunk_stream)@ == s2
                &&& match pl {
                    None => pl2 is None,
                    Some(v) => pl2 == Some(v@),
                }
            },
            r matches Err(e) ==> parse_payload(buf@, p as int, old(chunk_stream)@, chunk_size as nat)
                == Err::<(int, DecoderChunkStreamModel, Option<Seq<u8>>), ErrorKind>(e.kind),
    {
        if chunk_stream.acc_payload.len() > chunk_stream.message_size {
            return Err(Error::invalid_data("accumulated payload exceeds message size"));
        }
        let remaining = chunk_stream.message_size - chunk_stream.acc_payload.len();
        let n = if remaining < chunk_size { remaining } else { chunk_size };
        let _len = buf.len();
        let piece = read_bytes(buf, p, n)?;
        let ghost acc = chunk_stream.acc_payload@ + piece@;
        crate::bytes::write_bytes(&mut chunk_stream.acc_payload, piece.as_slice());
        if chunk_stream.acc_payload.len() == chunk_stream.message_size {
            chunk_stream.timestamp = chunk_stream.timestamp.wrapping_add(chunk_stream.timestamp_delta);
            let mut complete: Vec<u8> = Vec::new();
            std::mem::swap(&mut complete, &mut chunk_stream.acc_payload);
            assert(chunk_stream.acc_payload@ =~= Seq::<u8>::empty());
            Ok((p + n, Some(complete)))
        } else {
            Ok((p + n, None))
        }
    }
}

impl DecoderChunkStream {
    /// The state of a chunk stream before its first chunk.
    fn initial() -> (r: Self)
        ensures
            r@ == initial_chunk_stream(),
    {
        let r = DecoderChunkStream {
            timestamp: RtmpTimestamp::zero(),
            timestamp_delta: RtmpTimestamp::zero(),
            message_type: RtmpMessageType::SetChunkSize,
            message_stream_id: RtmpMessageStreamId::new(0),
            message_size: 0,
            acc_payload: Vec::new(),
            enable_f3_extended_timestamp: false,
        };
        assert(r@.acc_payload =~= Seq::<u8>::empty());
        r
    }

    /// A copy of this state.
    fn duplicate(&self) -> (r: Self)
        ensures
            r@ == self@,
    {
        DecoderChunkStream {
            timestamp: self.timestamp,
            timestamp_delta: self.timestamp_delta,
            message_type: self.message_type,
            message_stream_id: self.message_stream_id,
            message_size: self.message_size,
            acc_payload: vstd::slice::slice_to_vec(self.acc_payload.as_slice()),
            enable_f3_extended_timestamp: self.enable_f3_extended_timestamp,
        }
    }
}

impl Default for RtmpChunkDecoder {
    fn default() -> (r: Self)
        ensures
            r.chunk_size() == crate::rtmp_chunk::CHUNK_SIZE_DEFAULT,
            r.streams() == Map::<u32, DecoderChunkStreamModel>::empty(),
    {
        Self::new()
    }
}

} // verus!
