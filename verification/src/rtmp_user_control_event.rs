use vstd::prelude::*;

use crate::bytes::{
    be16, be32, lemma_u16_be_roundtrip, lemma_u32_be_roundtrip, read_u16, read_u32, u16_be, u32_be,
    write_u16, write_u32,
};
use crate::error::{Error, ErrorKind};
use crate::rtmp_message::RtmpMessageStreamId;
use crate::rtmp_timestamp::RtmpTimestamp;

verus! {

/// Event type of Stream Begin.
pub const EVENT_STREAM_BEGIN: u16 = 0;
/// Event type of Stream EOF.
pub const EVENT_STREAM_EOF: u16 = 1;
/// Event type of Stream Dry.
pub const EVENT_STREAM_DRY: u16 = 2;
/// Event type of Set Buffer Length.
pub const EVENT_SET_BUFFER_LENGTH: u16 = 3;
/// Event type of Stream Is Recorded.
pub const EVENT_STREAM_IS_RECORDED: u16 = 4;
/// Event type of Ping Request.
pub const EVENT_PING_REQUEST: u16 = 6;
/// Event type of Ping Response.
pub const EVENT_PING_RESPONSE: u16 = 7;
/// Event type of Buffer Empty.
pub const EVENT_BUFFER_EMPTY: u16 = 31;
/// Event type of Buffer Ready.
pub const EVENT_BUFFER_READY: u16 = 32;

/// A user control event.
#[derive(Debug, Clone, Copy, PartialEq, Eq, Structural)]
pub enum RtmpUserControlEvent {
    /// A stream has become functional.
    StreamBegin {
        /// The stream.
        stream_id: RtmpMessageStreamId,
    },
    /// Playback of a stream is over.
    StreamEof {
        /// The stream.
        stream_id: RtmpMessageStreamId,
    },
    /// No more data on a stream.
    StreamDry {
        /// The stream.
        stream_id: RtmpMessageStreamId,
    },
    /// The client's buffer length for a stream.
    SetBufferLength {
        /// The stream.
        stream_id: RtmpMessageStreamId,
        /// Buffer length in milliseconds.
        length: u32,
    },
    /// A stream is recorded.
    StreamIsRecorded {
        /// The stream.
        stream_id: RtmpMessageStreamId,
    },
    /// A ping.
    PingRequest {
        /// The sender's time.
        timestamp: RtmpTimestamp,
    },
    /// The answer to a ping.
    PingResponse {
        /// The time from the ping.
        timestamp: RtmpTimestamp,
    },
    /// A stream's buffer is empty.
    BufferEmpty {
        /// The stream.
        stream_id: RtmpMessageStreamId,
    },
    /// A stream's buffer is ready.
    BufferReady {
        /// The stream.
        stream_id: RtmpMessageStreamId,
    },
}

impl RtmpUserControlEvent {
    /// The event type on the wire.
    pub open spec fn spec_event_type(self) -> u16 {
        match self {
            RtmpUserControlEvent::StreamBegin { .. } => EVENT_STREAM_BEGIN,
            RtmpUserControlEvent::StreamEof { .. } => EVENT_STREAM_EOF,
            RtmpUserControlEvent::StreamDry { .. } => EVENT_STREAM_DRY,
            RtmpUserControlEvent::SetBufferLength { .. } => EVENT_SET_BUFFER_LENGTH,
            RtmpUserControlEvent::StreamIsRecorded { .. } => EVENT_STREAM_IS_RECORDED,
            RtmpUserControlEvent::PingRequest { .. } => EVENT_PING_REQUEST,
            RtmpUserControlEvent::PingResponse { .. } => EVENT_PING_RESPONSE,
            RtmpUserControlEvent::BufferEmpty { .. } => EVENT_BUFFER_EMPTY,
            RtmpUserControlEvent::BufferReady { .. } => EVENT_BUFFER_READY,
        }
    }

    /// The name of the event type.
    pub open spec fn spec_name(self) -> Seq<char> {
        match self {
            RtmpUserControlEvent::StreamBegin { .. } => "StreamBegin"@,
            RtmpUserControlEvent::StreamEof { .. } => "StreamEof"@,
            RtmpUserControlEvent::StreamDry { .. } => "StreamDry"@,
            RtmpUserControlEvent::SetBufferLength { .. } => "SetBufferLength"@,
            RtmpUserControlEvent::StreamIsRecorded { .. } => "StreamIsRecorded"@,
            RtmpUserControlEvent::PingRequest { .. } => "PingRequest"@,
            RtmpUserControlEvent::PingResponse { .. } => "PingResponse"@,
            RtmpUserControlEvent::BufferEmpty { .. } => "BufferEmpty"@,
            RtmpUserControlEvent::BufferReady { .. } => "BufferReady"@,
        }
    }

    /// The 32-bit field that follows the event type: a stream ID or a timestamp.
    pub open spec fn spec_first_field(self) -> u32 {
        match self {
            RtmpUserControlEvent::StreamBegin { stream_id } => stream_id.0,
            RtmpUserControlEvent::StreamEof { stream_id } => stream_id.0,
            RtmpUserControlEvent::StreamDry { stream_id } => stream_id.0,
            RtmpUserControlEvent::SetBufferLength { stream_id, .. } => stream_id.0,
            RtmpUserControlEvent::StreamIsRecorded { stream_id } => stream_id.0,
            RtmpUserControlEvent::PingRequest { timestamp } => timestamp.0,
            RtmpUserControlEvent::PingResponse { timestamp } => timestamp.0,
            RtmpUserControlEvent::BufferEmpty { stream_id } => stream_id.0,
            RtmpUserControlEvent::BufferReady { stream_id } => stream_id.0,
        }
    }

    /// The bytes of the event: type, first field, and the buffer length where present.
    pub open spec fn spec_bytes(self) -> Seq<u8> {
        u16_be(self.spec_event_type() as int) + u32_be(self.spec_first_field() as int) + match self {
            RtmpUserControlEvent::SetBufferLength { length, .. } => u32_be(length as int),
            _ => Seq::empty(),
        }
    }

    /// The name of the event type.
    pub fn name(&self) -> (r: &'static str)
        ensures
            r@ == self.spec_name(),
    {
        match self {
            RtmpUserControlEvent::StreamBegin { .. } => "StreamBegin",
            RtmpUserControlEvent::StreamEof { .. } => "StreamEof",
            RtmpUserControlEvent::StreamDry { .. } => "StreamDry",
            RtmpUserControlEvent::SetBufferLength { .. } => "SetBufferLength",
            RtmpUserControlEvent::StreamIsRecorded { .. } => "StreamIsRecorded",
            RtmpUserControlEvent::PingRequest { .. } => "PingRequest",
            RtmpUserControlEvent::PingResponse { .. } => "PingResponse",
            RtmpUserControlEvent::BufferEmpty { .. } => "BufferEmpty",
            RtmpUserControlEvent::BufferReady { .. } => "BufferReady",
        }
    }

    /// Appends the bytes of the event.
    pub fn encode(&self, buf: &mut Vec<u8>)
        ensures
            final(buf)@ == old(buf)@ + self.spec_bytes(),
    {
        let (t, f) = match *self {
            RtmpUserControlEvent::StreamBegin { stream_id } => (EVENT_STREAM_BEGIN, stream_id.0),
            RtmpUserControlEvent::StreamEof { stream_id } => (EVENT_STREAM_EOF, stream_id.0),
            RtmpUserControlEvent::StreamDry { stream_id } => (EVENT_STREAM_DRY, stream_id.0),
            RtmpUserControlEvent::SetBufferLength { stream_id, .. } => (EVENT_SET_BUFFER_LENGTH, stream_id.0),
            RtmpUserControlEvent::StreamIsRecorded { stream_id } => (EVENT_STREAM_IS_RECORDED, stream_id.0),
            RtmpUserControlEvent::PingRequest { timestamp } => (EVENT_PING_REQUEST, timestamp.0),
            RtmpUserControlEvent::PingResponse { timestamp } => (EVENT_PING_RESPONSE, timestamp.0),
            RtmpUserControlEvent::BufferEmpty { stream_id } => (EVENT_BUFFER_EMPTY, stream_id.0),
            RtmpUserControlEvent::BufferReady { stream_id } => (EVENT_BUFFER_READY, stream_id.0),
        };
        write_u16(buf, t);
        write_u32(buf, f);
        if let RtmpUserControlEvent::SetBufferLength { length, .. } = *self {
            write_u32(buf, length);
        }
        assert(buf@ =~= old(buf)@ + self.spec_bytes());
    }

    /// Decodes an event from the start of `buf`.
    pub fn decode(buf: &[u8]) -> (r: Result<Self, Error>)
        ensures
            match spec_decode_event(buf@) {
                Ok(e) => r matches Ok(x) && x == e,
                Err(k) => r matches Err(e) && e.kind == k,
            },
    {
        let t = match read_u16(buf, 0) {
            Ok(x) => x,
            Err(e) => return Err(e),
        };
        if t != EVENT_STREAM_BEGIN && t != EVENT_STREAM_EOF && t != EVENT_STREAM_DRY
            && t != EVENT_SET_BUFFER_LENGTH && t != EVENT_STREAM_IS_RECORDED && t != EVENT_PING_REQUEST
            && t != EVENT_PING_RESPONSE && t != EVENT_BUFFER_EMPTY && t != EVENT_BUFFER_READY {
            return Err(Error::with_number(ErrorKind::InvalidData, "unknown user control event type: ", t as u64));
        }
        let f = match read_u32(buf, 2) {
            Ok(x) => x,
            Err(e) => return Err(e),
        };
        let id = RtmpMessageStreamId::new(f);
        if t == EVENT_STREAM_BEGIN {
            Ok(RtmpUserControlEvent::StreamBegin { stream_id: id })
        } else if t == EVENT_STREAM_EOF {
            Ok(RtmpUserControlEvent::StreamEof { stream_id: id })
        } else if t == EVENT_STREAM_DRY {
            Ok(RtmpUserControlEvent::StreamDry { stream_id: id })
        } else if t == EVENT_SET_BUFFER_LENGTH {
            let length = match read_u32(buf, 6) {
                Ok(x) => x,
                Err(e) => return Err(e),
            };
            Ok(RtmpUserControlEvent::SetBufferLength { stream_id: id, length })
        } else if t == EVENT_STREAM_IS_RECORDED {
            Ok(RtmpUserControlEvent::StreamIsRecorded { stream_id: id })
        } else if t == EVENT_PING_REQUEST {
            Ok(RtmpUserControlEvent::PingRequest { timestamp: RtmpTimestamp::from_millis(f) })
        } else if t == EVENT_PING_RESPONSE {
            Ok(RtmpUserControlEvent::PingResponse { timestamp: RtmpTimestamp::from_millis(f) })
        } else if t == EVENT_BUFFER_EMPTY {
            Ok(RtmpUserControlEvent::BufferEmpty { stream_id: id })
        } else {
            Ok(RtmpUserControlEvent::BufferReady { stream_id: id })
        }
    }
}

/// What decoding an event from the start of `b` gives.
pub open spec fn spec_decode_event(b: Seq<u8>) -> Result<RtmpUserControlEvent, ErrorKind> {
    if b.len() < 2 {
        Err(ErrorKind::InsufficientBuffer)
    } else {
        let t = be16(b, 0);
        if !(t == EVENT_STREAM_BEGIN || t == EVENT_STREAM_EOF || t == EVENT_STREAM_DRY || t
            == EVENT_SET_BUFFER_LENGTH || t == EVENT_STREAM_IS_RECORDED || t == EVENT_PING_REQUEST
            || t == EVENT_PING_RESPONSE || t == EVENT_BUFFER_EMPTY || t == EVENT_BUFFER_READY) {
            Err(ErrorKind::InvalidData)
        } else if b.len() < 6 {
            Err(ErrorKind::InsufficientBuffer)
        } else {
            let f = be32(b, 2) as u32;
            let id = RtmpMessageStreamId(f);
            if t == EVENT_STREAM_BEGIN {
                Ok(RtmpUserControlEvent::StreamBegin { stream_id: id })
            } else if t == EVENT_STREAM_EOF {
                Ok(RtmpUserControlEvent::StreamEof { stream_id: id })
            } else if t == EVENT_STREAM_DRY {
                Ok(RtmpUserControlEvent::StreamDry { stream_id: id })
            } else if t == EVENT_SET_BUFFER_LENGTH {
                if b.len() < 10 {
                    Err(ErrorKind::InsufficientBuffer)
                } else {
                    Ok(RtmpUserControlEvent::SetBufferLength { stream_id: id, length: be32(b, 6) as u32 })
                }
            } else if t == EVENT_STREAM_IS_RECORDED {
                Ok(RtmpUserControlEvent::StreamIsRecorded { stream_id: id })
            } else if t == EVENT_PING_REQUEST {
                Ok(RtmpUserControlEvent::PingRequest { timestamp: RtmpTimestamp(f) })
            } else if t == EVENT_PING_RESPONSE {
                Ok(RtmpUserControlEvent::PingResponse { timestamp: RtmpTimestamp(f) })
            } else if t == EVENT_BUFFER_EMPTY {
                Ok(RtmpUserControlEvent::BufferEmpty { stream_id: id })
            } else {
                Ok(RtmpUserControlEvent::BufferReady { stream_id: id })
            }
        }
    }
}

/// An encoded event decodes to itself, whatever follows it.
pub proof fn lemma_user_control_event_roundtrip(e: RtmpUserControlEvent, rest: Seq<u8>)
    ensures
        spec_decode_event(e.spec_bytes() + rest) == Ok::<RtmpUserControlEvent, ErrorKind>(e),
{
    let b = e.spec_bytes() + rest;
    lemma_u16_be_roundtrip(e.spec_event_type() as int);
    lemma_u32_be_roundtrip(e.spec_first_field() as int);
    assert(b[0] == e.spec_bytes()[0]);
    assert(b[1] == e.spec_bytes()[1]);
    assert(b[2] == e.spec_bytes()[2]);
    assert(b[3] == e.spec_bytes()[3]);
    assert(b[4] == e.spec_bytes()[4]);
    assert(b[5] == e.spec_bytes()[5]);
    if let RtmpUserControlEvent::SetBufferLength { length, .. } = e {
        lemma_u32_be_roundtrip(length as int);
        assert(b[6] == e.spec_bytes()[6]);
        assert(b[7] == e.spec_bytes()[7]);
        assert(b[8] == e.spec_bytes()[8]);
        assert(b[9] == e.spec_bytes()[9]);
    }
}

/// The layout of an encoded event: the event type as a big-endian 16-bit number (Stream
/// Begin 0, Stream EOF 1, Stream Dry 2, Set Buffer Length 3, Stream Is Recorded 4, Ping
/// Request 6, Ping Response 7, Buffer Empty 31, Buffer Ready 32), then the stream ID (or,
/// for pings, the timestamp) as a big-endian 32-bit number, and for Set Buffer Length the
/// buffer length as a big-endian 32-bit number after that.
pub proof fn lemma_user_control_event_layout(e: RtmpUserControlEvent)
    ensures
        e matches RtmpUserControlEvent::StreamBegin { stream_id } ==> e.spec_bytes().len() == 6
            && be16(e.spec_bytes(), 0) == 0 && be32(e.spec_bytes(), 2) == stream_id.0,
        e matches RtmpUserControlEvent::StreamEof { stream_id } ==> e.spec_bytes().len() == 6
            && be16(e.spec_bytes(), 0) == 1 && be32(e.spec_bytes(), 2) == stream_id.0,
        e matches RtmpUserControlEvent::StreamDry { stream_id } ==> e.spec_bytes().len() == 6
            && be16(e.spec_bytes(), 0) == 2 && be32(e.spec_bytes(), 2) == stream_id.0,
        e matches RtmpUserControlEvent::SetBufferLength { stream_id, length } ==> e.spec_bytes().len()
            == 10 && be16(e.spec_bytes(), 0) == 3 && be32(e.spec_bytes(), 2) == stream_id.0 && be32(
            e.spec_bytes(),
            6,
        ) == length,
        e matches RtmpUserControlEvent::StreamIsRecorded { stream_id } ==> e.spec_bytes().len() == 6
            && be16(e.spec_bytes(), 0) == 4 && be32(e.spec_bytes(), 2) == stream_id.0,
        e matches RtmpUserControlEvent::PingRequest { timestamp } ==> e.spec_bytes().len() == 6
            && be16(e.spec_bytes(), 0) == 6 && be32(e.spec_bytes(), 2) == timestamp.0,
        e matches RtmpUserControlEvent::PingResponse { timestamp } ==> e.spec_bytes().len() == 6
            && be16(e.spec_bytes(), 0) == 7 && be32(e.spec_bytes(), 2) == timestamp.0,
        e matches RtmpUserControlEvent::BufferEmpty { stream_id } ==> e.spec_bytes().len() == 6
            && be16(e.spec_bytes(), 0) == 31 && be32(e.spec_bytes(), 2) == stream_id.0,
        e matches RtmpUserControlEvent::BufferReady { stream_id } ==> e.spec_bytes().len() == 6
            && be16(e.spec_bytes(), 0) == 32 && be32(e.spec_bytes(), 2) == stream_id.0,
{
    let b = e.spec_bytes();
    let t = u16_be(e.spec_event_type() as int);
    let f = u32_be(e.spec_first_field() as int);
    lemma_u16_be_roundtrip(e.spec_event_type() as int);
    lemma_u32_be_roundtrip(e.spec_first_field() as int);
    assert(b[0] == t[0] && b[1] == t[1]);
    assert(b[2] == f[0] && b[3] == f[1] && b[4] == f[2] && b[5] == f[3]);
    if let RtmpUserControlEvent::SetBufferLength { length, .. } = e {
        let l = u32_be(length as int);
        lemma_u32_be_roundtrip(length as int);
        assert(b[6] == l[0] && b[7] == l[1] && b[8] == l[2] && b[9] == l[3]);
    }
}

/// What a decoded event holds, read off its bytes: the kind from the big-endian 16-bit
/// event type (0 Stream Begin, 1 Stream EOF, 2 Stream Dry, 3 Set Buffer Length, 4 Stream
/// Is Recorded, 6 Ping Request, 7 Ping Response, 31 Buffer Empty, 32 Buffer Ready), the
/// stream ID or timestamp from the big-endian 32-bit number at byte 2, and the buffer
/// length of Set Buffer Length from the one at byte 6.
pub proof fn lemma_user_control_event_fields(b: Seq<u8>)
    ensures
        spec_decode_event(b) matches Ok(RtmpUserControlEvent::StreamBegin { stream_id }) ==> be16(b, 0)
            == 0 && stream_id.0 == be32(b, 2),
        spec_decode_event(b) matches Ok(RtmpUserControlEvent::StreamEof { stream_id }) ==> be16(b, 0)
            == 1 && stream_id.0 == be32(b, 2),
        spec_decode_event(b) matches Ok(RtmpUserControlEvent::StreamDry { stream_id }) ==> be16(b, 0)
            == 2 && stream_id.0 == be32(b, 2),
        spec_decode_event(b) matches Ok(RtmpUserControlEvent::SetBufferLength { stream_id, length })
            ==> be16(b, 0) == 3 && stream_id.0 == be32(b, 2) && length == be32(b, 6),
        spec_decode_event(b) matches Ok(RtmpUserControlEvent::StreamIsRecorded { stream_id }) ==> be16(
            b,
            0,
        ) == 4 && stream_id.0 == be32(b, 2),
        spec_decode_event(b) matches Ok(RtmpUserControlEvent::PingRequest { timestamp }) ==> be16(b, 0)
            == 6 && timestamp.0 == be32(b, 2),
        spec_decode_event(b) matches Ok(RtmpUserControlEvent::PingResponse { timestamp }) ==> be16(b, 0)
            == 7 && timestamp.0 == be32(b, 2),
        spec_decode_event(b) matches Ok(RtmpUserControlEvent::BufferEmpty { stream_id }) ==> be16(b, 0)
            == 31 && stream_id.0 == be32(b, 2),
        spec_decode_event(b) matches Ok(RtmpUserControlEvent::BufferReady { stream_id }) ==> be16(b, 0)
            == 32 && stream_id.0 == be32(b, 2),
{
    if b.len() >= 6 {
        assert(0 <= be32(b, 2) < 0x1_0000_0000) by (nonlinear_arith)
            requires
                be32(b, 2) == b[2] as int * 0x1000000 + (b[3] as int * 0x10000 + b[4] as int * 0x100
                    + b[5] as int),
                b[2] < 0x100,
                b[3] < 0x100,
                b[4] < 0x100,
                b[5] < 0x100,
        ;
    }
    if b.len() >= 10 {
        assert(0 <= be32(b, 6) < 0x1_0000_0000) by (nonlinear_arith)
            requires
                be32(b, 6) == b[6] as int * 0x1000000 + (b[7] as int * 0x10000 + b[8] as int * 0x100
                    + b[9] as int),
                b[6] < 0x100,
                b[7] < 0x100,
                b[8] < 0x100,
                b[9] < 0x100,
        ;
    }
}

} // verus!
