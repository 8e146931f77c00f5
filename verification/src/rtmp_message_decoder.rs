use vstd::prelude::*;

use crate::amf::{amf_decode, model_number, model_str, AmfModel, AmfValue, AmfVersion};
use crate::bytes::{be32, read_u32, read_u8, Buf};
use crate::error::{Error, ErrorKind};
use crate::flv::{audio_decode_error, audio_decoded, decode_audio_frame, decode_video_frame, video_decode_error, video_decoded};
use crate::rtmp_chunk::{RtmpChunk, RtmpChunkModel, RtmpChunkSize, RtmpChunkStreamId};
use crate::rtmp_chunk_decoder::{decode_chunk, lemma_decode_chunk_progress, DecoderChunkStreamModel, RtmpChunkDecoder};
use crate::rtmp_command::{transaction_id_of, TransactionId};
use crate::rtmp_message::{
    amf_values_view, RtmpMessage, RtmpMessageHeader, RtmpMessageType, SetPeerBandwidthLimitType,
};
use crate::rtmp_user_control_event::{spec_decode_event, RtmpUserControlEvent};

verus! {

/// AMF values of the given encoding, one after the other, up to the end of `b`.
pub open spec fn amf_values_decode(b: Seq<u8>, version: AmfVersion) -> Result<Seq<AmfModel>, ErrorKind>
    decreases b.len(),
{
    if b.len() == 0 {
        Ok(Seq::empty())
    } else {
        match amf_decode(b, version) {
            Err(e) => Err(e),
            Ok((n, v)) => if n <= 0 || n > b.len() {
                Err(ErrorKind::InvalidData)
            } else {
                match amf_values_decode(b.skip(n), version) {
                    Err(e) => Err(e),
                    Ok(vs) => Ok(seq![v] + vs),
                }
            },
        }
    }
}

/// The parts of a command payload: the encoding that was used, the name, the transaction
/// ID, the command object and the further arguments.
#[verifier::opaque]
pub open spec fn command_decode(b: Seq<u8>, version: AmfVersion) -> Result<
    (AmfVersion, Seq<char>, i64, AmfModel, Seq<AmfModel>),
    ErrorKind,
> {
    let amf0_inside = version == AmfVersion::Amf3 && b.len() > 0 && b[0] == 0;
    let b1 = if amf0_inside { b.skip(1) } else { b };
    let v = if amf0_inside { AmfVersion::Amf0 } else { version };
    match amf_decode(b1, v) {
        Err(e) => Err(e),
        Ok((n1, name)) => match model_str(name) {
            None => Err(ErrorKind::InvalidData),
            Some(name) => match amf_decode(b1.skip(n1), v) {
                Err(e) => Err(e),
                Ok((n2, tid)) => match model_number(tid) {
                    None => Err(ErrorKind::InvalidData),
                    Some(bits) => match amf_decode(b1.skip(n1 + n2), v) {
                        Err(e) => Err(e),
                        Ok((n3, object)) => match amf_values_decode(b1.skip(n1 + n2 + n3), v) {
                            Err(e) => Err(e),
                            Ok(args) => Ok((v, name, transaction_id_of(bits), object, args)),
                        },
                    },
                },
            },
        },
    }
}

/// The encoding of a data or command message type.
pub open spec fn type_amf_version(t: RtmpMessageType) -> AmfVersion {
    if t == RtmpMessageType::DataAmf3 || t == RtmpMessageType::CommandAmf3 {
        AmfVersion::Amf3
    } else {
        AmfVersion::Amf0
    }
}

/// Why the message in a completed chunk cannot be decoded, if it cannot.
#[verifier::opaque]
pub open spec fn message_decode_error(c: RtmpChunkModel) -> Option<ErrorKind> {
    let p = c.payload;
    match c.message_type {
        RtmpMessageType::SetChunkSize => if p.len() < 4 {
            Some(ErrorKind::InsufficientBuffer)
        } else if !(1 <= be32(p, 0) <= 65536) {
            Some(ErrorKind::InvalidData)
        } else {
            None
        },
        RtmpMessageType::Abort => if p.len() < 4 {
            Some(ErrorKind::InsufficientBuffer)
        } else if !(2 <= be32(p, 0) <= 65599) {
            Some(ErrorKind::InvalidData)
        } else {
            None
        },
        RtmpMessageType::Ack | RtmpMessageType::WinAckSize => if p.len() < 4 {
            Some(ErrorKind::InsufficientBuffer)
        } else {
            None
        },
        RtmpMessageType::SetPeerBandwidth => if p.len() < 5 {
            Some(ErrorKind::InsufficientBuffer)
        } else if p[4] > 2 {
            Some(ErrorKind::InvalidData)
        } else {
            None
        },
        RtmpMessageType::UserControl => match spec_decode_event(p) {
            Err(e) => Some(e),
            Ok(_) => None,
        },
        RtmpMessageType::Audio => audio_decode_error(p),
        RtmpMessageType::Video => video_decode_error(p),
        RtmpMessageType::DataAmf0 | RtmpMessageType::DataAmf3 => match amf_values_decode(
            p,
            type_amf_version(c.message_type),
        ) {
            Err(e) => Some(e),
            Ok(_) => None,
        },
        RtmpMessageType::CommandAmf0 | RtmpMessageType::CommandAmf3 => match command_decode(
            p,
            type_amf_version(c.message_type),
        ) {
            Err(e) => Some(e),
            Ok(_) => None,
        },
    }
}

/// `m` is the message that a completed chunk holds.
#[verifier::opaque]
pub open spec fn message_decoded(c: RtmpChunkModel, m: RtmpMessage) -> bool {
    let p = c.payload;
    let h = RtmpMessageHeader { stream_id: c.message_stream_id, timestamp: c.timestamp };
    &&& m.spec_header() == h
    &&& !(m is Command) ==> m.spec_message_type() == c.message_type
    &&& m is Command ==> (c.message_type == RtmpMessageType::CommandAmf0 || c.message_type
        == RtmpMessageType::CommandAmf3)
    &&& match m {
        RtmpMessage::SetChunkSize { size, .. } => size.value() == be32(p, 0),
        RtmpMessage::Abort { chunk_stream_id, .. } => chunk_stream_id.value() == be32(p, 0),
        RtmpMessage::Ack { sequence_number, .. } => sequence_number == be32(p, 0),
        RtmpMessage::WinAckSize { size, .. } => size == be32(p, 0),
        RtmpMessage::SetPeerBandwidth { size, limit_type, .. } => size == be32(p, 0)
            && limit_type.spec_code() == p[4],
        RtmpMessage::UserControl { event, .. } => spec_decode_event(p) == Ok::<
            RtmpUserControlEvent,
            ErrorKind,
        >(event),
        RtmpMessage::Audio { frame, .. } => audio_decoded(p, c.timestamp, frame),
        RtmpMessage::Video { frame, .. } => video_decoded(p, c.timestamp, frame),
        RtmpMessage::Data { amf_version, values, .. } => amf_values_decode(p, amf_version) == Ok::<
            Seq<AmfModel>,
            ErrorKind,
        >(amf_values_view(values@)),
        RtmpMessage::Command { amf_version, name, transaction_id, object, args, .. } => command_decode(
            p,
            type_amf_version(c.message_type),
        ) == Ok::<(AmfVersion, Seq<char>, i64, AmfModel, Seq<AmfModel>), ErrorKind>(
            (amf_version, name@, transaction_id.0, object@, amf_values_view(args@)),
        ),
    }
}

/// One chunk decoded from the front of `b` (see [`decode_chunk`]).
#[verifier::opaque]
pub open spec fn chunk_step(
    streams: Map<u32, DecoderChunkStreamModel>,
    chunk_size: nat,
    b: Seq<u8>,
) -> Result<(int, Map<u32, DecoderChunkStreamModel>, Option<RtmpChunkModel>), ErrorKind> {
    decode_chunk(streams, chunk_size, b)
}

/// Decodes chunks from `b` until one completes a message: the bytes consumed, the chunk
/// stream states after them, and the completed message's chunk (`None` when `b` ends
/// first).
pub open spec fn decode_until_message(
    streams: Map<u32, DecoderChunkStreamModel>,
    chunk_size: nat,
    b: Seq<u8>,
) -> (int, Map<u32, DecoderChunkStreamModel>, Result<Option<RtmpChunkModel>, ErrorKind>)
    decreases b.len(),
{
    match chunk_step(streams, chunk_size, b) {
        Err(e) => (0, streams, if e == ErrorKind::InsufficientBuffer {
            Ok(None)
        } else {
            Err(e)
        }),
        Ok((n, m, Some(c))) => (n, m, Ok(Some(c))),
        Ok((n, m, None)) => if n <= 0 || n > b.len() {
            (0, streams, Err(ErrorKind::InvalidData))
        } else {
            let (k, m2, o) = decode_until_message(m, chunk_size, b.skip(n));
            (n + k, m2, o)
        },
    }
}

/// The state of a message decoder: the state of each chunk stream, the chunk size the
/// peer uses, and the received bytes not yet decoded.
pub struct DecoderState {
    pub streams: Map<u32, DecoderChunkStreamModel>,
    pub chunk_size: nat,
    pub pending: Seq<u8>,
}

/// A result with its error reduced to the error's kind.
pub open spec fn result_kind<T>(r: Result<T, Error>) -> Result<T, ErrorKind> {
    match r {
        Ok(v) => Ok(v),
        Err(e) => Err(e.kind),
    }
}

/// One call of [`RtmpMessageDecoder::decode`] goes from state `s` to state `t` with
/// result `r`: chunks are decoded until one completes a message or the bytes run out;
/// the completed message is decoded, and a Set Chunk Size message changes the chunk
/// size, an Abort message forgets its chunk stream.
pub open spec fn decode_step(s: DecoderState, t: DecoderState, r: Result<Option<RtmpMessage>, ErrorKind>) -> bool {
    let (k, m, o) = decode_until_message(s.streams, s.chunk_size, s.pending);
    &&& 0 <= k <= s.pending.len()
    &&& t.pending == s.pending.skip(k)
    &&& match o {
        Err(e) => r matches Err(x) && x == e && t.streams == m && t.chunk_size == s.chunk_size,
        Ok(None) => r matches Ok(None) && t.streams == m && t.chunk_size == s.chunk_size,
        Ok(Some(c)) => match message_decode_error(c) {
            Some(e) => r matches Err(x) && x == e && t.streams == m && t.chunk_size == s.chunk_size,
            None => r matches Ok(Some(msg)) && message_decoded(c, msg) && match msg {
                RtmpMessage::SetChunkSize { size, .. } => t.chunk_size == size.value() && t.streams == m,
                RtmpMessage::Abort { chunk_stream_id, .. } => t.chunk_size == s.chunk_size && t.streams
                    == m.remove(chunk_stream_id.value()),
                _ => t.chunk_size == s.chunk_size && t.streams == m,
            },
        },
    }
}

/// Decoding up to a completed message consumes at least one byte.
pub proof fn lemma_decode_until_message_progress(
    streams: Map<u32, DecoderChunkStreamModel>,
    chunk_size: nat,
    b: Seq<u8>,
)
    ensures
        decode_until_message(streams, chunk_size, b).2 matches Ok(Some(_)) ==> 0 < decode_until_message(
            streams,
            chunk_size,
            b,
        ).0 <= b.len(),
    decreases b.len(),
{
    reveal(chunk_step);
    lemma_decode_chunk_progress(streams, chunk_size, b);
    match decode_chunk(streams, chunk_size, b) {
        Ok((n, m, None)) => if 0 < n <= b.len() {
            lemma_decode_until_message_progress(m, chunk_size, b.skip(n));
        },
        _ => {},
    }
}

/// Decoding up to a message consumes no more bytes than there are.
pub proof fn lemma_decode_until_message_consumed(
    streams: Map<u32, DecoderChunkStreamModel>,
    chunk_size: nat,
    b: Seq<u8>,
)
    ensures
        0 <= decode_until_message(streams, chunk_size, b).0 <= b.len(),
    decreases b.len(),
{
    reveal(chunk_step);
    lemma_decode_chunk_progress(streams, chunk_size, b);
    match decode_chunk(streams, chunk_size, b) {
        Ok((n, m, None)) => if 0 < n <= b.len() {
            lemma_decode_until_message_consumed(m, chunk_size, b.skip(n));
        },
        _ => {},
    }
}

/// Turns received bytes into messages.
#[derive(Debug)]
pub struct RtmpMessageDecoder {
    chunk_decoder: RtmpChunkDecoder,
    buf: Buf,
}

impl RtmpMessageDecoder {
    /// Whether the internal buffer is consistent.
    pub closed spec fn wf(&self) -> bool {
        self.buf.wf()
    }

    /// The received bytes not yet decoded.
    pub closed spec fn pending(&self) -> Seq<u8> {
        self.buf@
    }

    /// The chunk size the peer uses.
    pub closed spec fn chunk_size(&self) -> nat {
        self.chunk_decoder.chunk_size()
    }

    /// The state of each chunk stream.
    pub closed spec fn streams(&self) -> Map<u32, DecoderChunkStreamModel> {
        self.chunk_decoder.streams()
    }

    /// A new decoder: default chunk size, nothing received.
    pub fn new() -> (r: Self)
        ensures
            r.wf(),
            r.pending() == Seq::<u8>::empty(),
            r.chunk_size() == crate::rtmp_chunk::CHUNK_SIZE_DEFAULT,
            r.streams() == Map::<u32, DecoderChunkStreamModel>::empty(),
    {
        RtmpMessageDecoder { chunk_decoder: RtmpChunkDecoder::new(), buf: Buf::new() }
    }

    /// Adds received bytes.
    pub fn feed_buf(&mut self, buf: &[u8])
        requires
            old(self).wf(),
        ensures
            final(self).wf(),
            final(self).pending() == old(self).pending() + buf@,
            final(self).chunk_size() == old(self).chunk_size(),
            final(self).streams() == old(self).streams(),
    {
        self.buf.feed(buf);
    }

    /// The decoder's state as a value.
    pub open spec fn state(&self) -> DecoderState {
        DecoderState { streams: self.streams(), chunk_size: self.chunk_size(), pending: self.pending() }
    }

    /// Decodes the next message, if the received bytes complete one. Chunks that do not
    /// complete a message are consumed on the way; a Set Chunk Size message changes the
    /// chunk size, an Abort message forgets its chunk stream.
    pub fn decode(&mut self) -> (r: Result<Option<RtmpMessage>, Error>)
        requires
            old(self).wf(),
        ensures
            final(self).wf(),
            decode_step(old(self).state(), final(self).state(), result_kind(r)),
    {
        let ghost s0 = self.streams();
        let ghost b0 = self.pending();
        let ghost cs = self.chunk_size();
        let ghost mut k: int = 0;
        loop
            invariant
                self.wf(),
                self.chunk_size() == cs,
                s0 == old(self).streams(),
                b0 == old(self).pending(),
                cs == old(self).chunk_size(),
                0 <= k <= b0.len(),
                self.pending() == b0.skip(k),
                ({
                    let (k0, m0, o0) = decode_until_message(s0, cs, b0);
                    let (k1, m1, o1) = decode_until_message(self.streams(), cs, self.pending());
                    k0 == k + k1 && m0 == m1 && o0 == o1
                }),
            decreases self.pending().len(),
        {
            let ghost before = self.pending();
            let ghost sb = self.streams();
            let r = self.chunk_decoder.decode(self.buf.get());
            proof {
                reveal(chunk_step);
                lemma_decode_chunk_progress(sb, cs, before);
            }
            match r {
                Ok((size, maybe_chunk)) => {
                    proof {
                        lemma_decode_chunk_progress(sb, cs, before);
                    }
                    self.buf.advance(size);
                    proof {
                        assert(b0.skip(k).skip(size as int) =~= b0.skip(k + size));
                        k = k + size;
                    }
                    match maybe_chunk {
                        Some(c) => {
                            assert(decode_until_message(sb, cs, before).2 == Ok::<Option<RtmpChunkModel>, ErrorKind>(Some(c@)));
                            return self.finish_message(c);
                        },
                        None => {},
                    }
                },
                Err(e) => {
                    assert(decode_until_message(sb, cs, before).0 == 0);
                    assert(decode_until_message(sb, cs, before).1 == sb);
                    if e.kind == ErrorKind::InsufficientBuffer {
                        return Ok(None);
                    }
                    return Err(e);
                },
            }
        }
    }

    /// Turns a completed chunk into a message and applies what the message says about
    /// chunking.
    fn finish_message(&mut self, chunk: RtmpChunk) -> (r: Result<Option<RtmpMessage>, Error>)
        ensures
            final(self).wf() == old(self).wf(),
            final(self).pending() == old(self).pending(),
            match message_decode_error(chunk@) {
                Some(e) => r matches Err(er) && er.kind == e && final(self).streams() == old(self).streams()
                    && final(self).chunk_size() == old(self).chunk_size(),
                None => r matches Ok(Some(msg)) && message_decoded(chunk@, msg) && match msg {
                    RtmpMessage::SetChunkSize { size, .. } => final(self).chunk_size() == size.value()
                        && final(self).streams() == old(self).streams(),
                    RtmpMessage::Abort { chunk_stream_id, .. } => final(self).chunk_size()
                        == old(self).chunk_size() && final(self).streams() == old(self).streams().remove(
                        chunk_stream_id.value(),
                    ),
                    _ => final(self).chunk_size() == old(self).chunk_size() && final(self).streams()
                        == old(self).streams(),
                },
            },
    {
        let message = match chunk_to_message(chunk) {
            Ok(m) => m,
            Err(e) => return Err(e),
        };
        match &message {
            RtmpMessage::SetChunkSize { size, .. } => self.chunk_decoder.set_chunk_size(*size),
            RtmpMessage::Abort { chunk_stream_id, .. } => self.chunk_decoder.reset_chunk_stream(*chunk_stream_id),
            _ => {},
        }
        Ok(Some(message))
    }
}

impl Default for RtmpMessageDecoder {
    fn default() -> (r: Self)
        ensures
            r.wf(),
            r.pending() == Seq::<u8>::empty(),
            r.chunk_size() == crate::rtmp_chunk::CHUNK_SIZE_DEFAULT,
            r.streams() == Map::<u32, DecoderChunkStreamModel>::empty(),
    {
        Self::new()
    }
}

/// The message that a completed chunk holds.
fn chunk_to_message(chunk: RtmpChunk) -> (r: Result<RtmpMessage, Error>)
    ensures
        r is Ok <==> message_decode_error(chunk@) is None,
        r matches Ok(m) ==> message_decoded(chunk@, m),
        r matches Err(e) ==> message_decode_error(chunk@) == Some(e.kind),
{
    proof {
        reveal(message_decode_error);
        reveal(message_decoded);
    }
    let header = RtmpMessageHeader { stream_id: chunk.message_stream_id, timestamp: chunk.timestamp };
    let payload = chunk.payload.as_slice();
    match chunk.message_type {
        RtmpMessageType::SetChunkSize => {
            let size = match read_u32(payload, 0) {
                Ok(x) => x,
                Err(e) => return Err(e),
            };
            match RtmpChunkSize::new(size as usize) {
                Some(size) => Ok(RtmpMessage::SetChunkSize { header, size }),
                None => Err(Error::with_number(ErrorKind::InvalidData, "invalid chunk size: ", size as u64)),
            }
        },
        RtmpMessageType::Abort => {
            let id = match read_u32(payload, 0) {
                Ok(x) => x,
                Err(e) => return Err(e),
            };
            match RtmpChunkStreamId::new(id) {
                Some(chunk_stream_id) => Ok(RtmpMessage::Abort { header, chunk_stream_id }),
                None => Err(Error::invalid_data("invalid chunk stream ID")),
            }
        },
        RtmpMessageType::Ack => {
            let sequence_number = match read_u32(payload, 0) {
                Ok(x) => x,
                Err(e) => return Err(e),
            };
            Ok(RtmpMessage::Ack { header, sequence_number })
        },
        RtmpMessageType::WinAckSize => {
            let size = match read_u32(payload, 0) {
                Ok(x) => x,
                Err(e) => return Err(e),
            };
            Ok(RtmpMessage::WinAckSize { header, size })
        },
        RtmpMessageType::SetPeerBandwidth => {
            let size = match read_u32(payload, 0) {
                Ok(x) => x,
                Err(e) => return Err(e),
            };
            let t = match read_u8(payload, 4) {
                Ok(x) => x,
                Err(e) => return Err(e),
            };
            let limit_type = if t == 0 {
                SetPeerBandwidthLimitType::Hard
            } else if t == 1 {
                SetPeerBandwidthLimitType::Soft
            } else if t == 2 {
                SetPeerBandwidthLimitType::Dynamic
            } else {
                return Err(Error::with_number(ErrorKind::InvalidData, "invalid limit type: ", t as u64));
            };
            Ok(RtmpMessage::SetPeerBandwidth { header, size, limit_type })
        },
        RtmpMessageType::UserControl => {
            let event = match RtmpUserControlEvent::decode(payload) {
                Ok(x) => x,
                Err(e) => return Err(e),
            };
            Ok(RtmpMessage::UserControl { header, event })
        },
        RtmpMessageType::Audio => {
            let frame = match decode_audio_frame(payload, header.timestamp) {
                Ok(x) => x,
                Err(e) => return Err(e),
            };
            Ok(RtmpMessage::Audio { header, frame })
        },
        RtmpMessageType::Video => {
            let frame = match decode_video_frame(payload, header.timestamp) {
                Ok(x) => x,
                Err(e) => return Err(e),
            };
            Ok(RtmpMessage::Video { header, frame })
        },
        RtmpMessageType::DataAmf0 => {
            let values = match decode_amf_values(AmfVersion::Amf0, payload) {
                Ok(x) => x,
                Err(e) => return Err(e),
            };
            Ok(RtmpMessage::Data { header, amf_version: AmfVersion::Amf0, values })
        },
        RtmpMessageType::DataAmf3 => {
            let values = match decode_amf_values(AmfVersion::Amf3, payload) {
                Ok(x) => x,
                Err(e) => return Err(e),
            };
            Ok(RtmpMessage::Data { header, amf_version: AmfVersion::Amf3, values })
        },
        RtmpMessageType::CommandAmf0 => decode_command(AmfVersion::Amf0, header, payload),
        RtmpMessageType::CommandAmf3 => decode_command(AmfVersion::Amf3, header, payload),
    }
}

/// Decodes a command message's payload.
fn decode_command(version: AmfVersion, header: RtmpMessageHeader, payload: &[u8]) -> (r: Result<RtmpMessage, Error>)
    ensures
        match command_decode(payload@, version) {
            Err(e) => r matches Err(er) && er.kind == e,
            Ok((v, name, tid, object, args)) => r matches Ok(m) && m is Command && m->Command_header == header
                && m->Command_amf_version == v && m->Command_name@ == name && m->Command_transaction_id.0 == tid
                && m->Command_object@ == object && amf_values_view(m->Command_args@) == args,
        },
{
    proof {
        reveal(command_decode);
    }
    let mut buf = payload;
    let mut amf_version = version;
    let is_amf3 = match version {
        AmfVersion::Amf3 => true,
        AmfVersion::Amf0 => false,
    };
    if is_amf3 && buf.len() > 0 && buf[0] == 0 {
        buf = vstd::slice::slice_subrange(buf, 1, buf.len());
        amf_version = AmfVersion::Amf0;
        assert(buf@ =~= payload@.skip(1));
    }
    let (n1, name) = match AmfValue::decode(buf, amf_version) {
        Ok(x) => x,
        Err(e) => return Err(e),
    };
    let name = match name.expect_str() {
        Ok(s) => s.to_owned(),
        Err(e) => return Err(e),
    };
    let rest1 = vstd::slice::slice_subrange(buf, n1, buf.len());
    assert(rest1@ =~= buf@.skip(n1 as int));
    let (n2, tid) = match AmfValue::decode(rest1, amf_version) {
        Ok(x) => x,
        Err(e) => return Err(e),
    };
    let tid = match tid.expect_number() {
        Ok(n) => TransactionId::from_f64(n),
        Err(e) => return Err(e),
    };
    let rest2 = vstd::slice::slice_subrange(rest1, n2, rest1.len());
    assert(rest2@ =~= buf@.skip(n1 + n2));
    let (n3, object) = match AmfValue::decode(rest2, amf_version) {
        Ok(x) => x,
        Err(e) => return Err(e),
    };
    let rest3 = vstd::slice::slice_subrange(rest2, n3, rest2.len());
    assert(rest3@ =~= buf@.skip(n1 + n2 + n3));
    let args = match decode_amf_values(amf_version, rest3) {
        Ok(x) => x,
        Err(e) => return Err(e),
    };
    Ok(RtmpMessage::Command { header, amf_version, name, transaction_id: tid, object, args })
}

/// Decodes AMF values one after the other up to the end of `buf`.
fn decode_amf_values(version: AmfVersion, buf: &[u8]) -> (r: Result<Vec<AmfValue>, Error>)
    ensures
        match amf_values_decode(buf@, version) {
            Err(e) => r matches Err(er) && er.kind == e,
            Ok(vs) => r matches Ok(v) && amf_values_view(v@) == vs,
        },
{
    let mut values: Vec<AmfValue> = Vec::new();
    let mut pos: usize = 0;
    assert(buf@.skip(0) =~= buf@);
    assert(amf_values_view(values@) =~= Seq::<AmfModel>::empty());
    while pos < buf.len()
        invariant
            pos <= buf@.len(),
            match amf_values_decode(buf@, version) {
                Err(e) => amf_values_decode(buf@.skip(pos as int), version) == Err::<Seq<AmfModel>, ErrorKind>(e),
                Ok(vs) => amf_values_decode(buf@.skip(pos as int), version) matches Ok(rest) && vs
                    == amf_values_view(values@) + rest,
            },
        decreases buf.len() - pos,
    {
        let rest = vstd::slice::slice_subrange(buf, pos, buf.len());
        assert(rest@ =~= buf@.skip(pos as int));
        let (n, v) = match AmfValue::decode(rest, version) {
            Ok(x) => x,
            Err(e) => return Err(e),
        };
        proof {
            assert(buf@.skip(pos as int).skip(n as int) =~= buf@.skip(pos + n));
            let ghost old_vals = amf_values_view(values@);
            assert(amf_values_view(values@.push(v)) =~= old_vals.push(v@));
            if let Ok(vs) = amf_values_decode(buf@, version) {
                let r0 = amf_values_decode(buf@.skip(pos as int), version);
                let r1 = amf_values_decode(buf@.skip(pos + n), version);
                if let Ok(rest0) = r0 {
                    if let Ok(rest1) = r1 {
                        assert(rest0 == seq![v@] + rest1);
                        assert(old_vals + rest0 =~= old_vals.push(v@) + rest1);
                    }
                }
            }
        }
        values.push(v);
        pos = pos + n;
    }
    proof {
        assert(buf@.skip(pos as int).len() == 0);
        if let Ok(vs) = amf_values_decode(buf@, version) {
            assert(amf_values_view(values@) + Seq::<AmfModel>::empty() =~= amf_values_view(values@));
        }
    }
    Ok(values)
}

} // verus!
