use vstd::prelude::*;

use crate::rtmp_message::{RtmpMessageStreamId, RtmpMessageType};
use crate::rtmp_timestamp::RtmpTimestamp;

verus! {

/// Smallest chunk stream ID.
pub const CHUNK_STREAM_ID_MIN: u32 = 2;

/// Largest chunk stream ID.
pub const CHUNK_STREAM_ID_MAX: u32 = 65599;

/// A chunk stream ID, in `2..=65599`.
#[derive(Debug, Clone, Copy, PartialEq, Eq, Hash, PartialOrd, Ord)]
pub struct RtmpChunkStreamId(u32);

impl RtmpChunkStreamId {
    #[verifier::type_invariant]
    spec fn in_range(self) -> bool {
        CHUNK_STREAM_ID_MIN <= self.0 <= CHUNK_STREAM_ID_MAX
    }

    /// The numeric ID.
    pub closed spec fn value(self) -> u32 {
        self.0
    }

    /// The ID with the given number, if it is in range.
    pub fn new(id: u32) -> (r: Option<Self>)
        ensures
            r is Some <==> CHUNK_STREAM_ID_MIN <= id <= CHUNK_STREAM_ID_MAX,
            r matches Some(c) ==> c.value() == id,
    {
        if CHUNK_STREAM_ID_MIN <= id && id <= CHUNK_STREAM_ID_MAX {
            Some(Self(id))
        } else {
            None
        }
    }

    /// Chunk stream IDs of the same number are equal.
    pub proof fn lemma_value_injective(a: Self, b: Self)
        requires
            a.value() == b.value(),
        ensures
            a == b,
    {
    }

    /// The chunk stream used for a message stream: the message stream ID plus two,
    /// capped at the largest chunk stream ID.
    pub closed spec fn spec_from_message_stream_id(message_stream_id: RtmpMessageStreamId) -> Self {
        if message_stream_id.0 + 2 < CHUNK_STREAM_ID_MAX {
            Self((message_stream_id.0 + 2) as u32)
        } else {
            Self(CHUNK_STREAM_ID_MAX)
        }
    }

    /// The chunk stream of a message stream is a valid chunk stream ID.
    pub proof fn lemma_from_message_stream_id(message_stream_id: RtmpMessageStreamId)
        ensures
            CHUNK_STREAM_ID_MIN <= Self::spec_from_message_stream_id(message_stream_id).value()
                <= CHUNK_STREAM_ID_MAX,
    {
    }

    /// The chunk stream used for a message stream: the message stream ID plus two,
    /// capped at the largest chunk stream ID.
    pub fn from_message_stream_id(message_stream_id: RtmpMessageStreamId) -> (r: Self)
        ensures
            r == Self::spec_from_message_stream_id(message_stream_id),
            r.value() == (if message_stream_id.0 + 2 < CHUNK_STREAM_ID_MAX {
                message_stream_id.0 + 2
            } else {
                CHUNK_STREAM_ID_MAX as int
            }),
    {
        let id = message_stream_id.get();
        if id < CHUNK_STREAM_ID_MAX - 2 {
            Self(id + 2)
        } else {
            Self(CHUNK_STREAM_ID_MAX)
        }
    }

    /// The numeric ID.
    pub fn get(self) -> (r: u32)
        ensures
            r == self.value(),
            CHUNK_STREAM_ID_MIN <= r <= CHUNK_STREAM_ID_MAX,
    {
        proof {
            use_type_invariant(&self);
        }
        self.0
    }
}

/// The four formats of a chunk message header.
#[derive(Debug, Clone, Copy, PartialEq, Eq, Hash, PartialOrd, Ord, Structural)]
pub enum MessageHeaderFormat {
    /// Full header: timestamp, length, type and message stream ID.
    F0,
    /// Timestamp delta, length and type.
    F1,
    /// Timestamp delta only.
    F2,
    /// No header.
    F3,
}

impl MessageHeaderFormat {
    /// The two-bit wire code of this format.
    pub open spec fn spec_code(self) -> u8 {
        match self {
            MessageHeaderFormat::F0 => 0,
            MessageHeaderFormat::F1 => 1,
            MessageHeaderFormat::F2 => 2,
            MessageHeaderFormat::F3 => 3,
        }
    }

    /// The format with the given two-bit wire code.
    pub open spec fn spec_from_code(v: u8) -> Self {
        if v == 0 {
            MessageHeaderFormat::F0
        } else if v == 1 {
            MessageHeaderFormat::F1
        } else if v == 2 {
            MessageHeaderFormat::F2
        } else {
            MessageHeaderFormat::F3
        }
    }

    /// The two-bit wire code of this format.
    pub fn code(self) -> (r: u8)
        ensures
            r == self.spec_code(),
    {
        match self {
            MessageHeaderFormat::F0 => 0,
            MessageHeaderFormat::F1 => 1,
            MessageHeaderFormat::F2 => 2,
            MessageHeaderFormat::F3 => 3,
        }
    }

    /// The format with the given two-bit wire code.
    pub fn from_code(v: u8) -> (r: Self)
        ensures
            r == Self::spec_from_code(v),
    {
        if v == 0 {
            MessageHeaderFormat::F0
        } else if v == 1 {
            MessageHeaderFormat::F1
        } else if v == 2 {
            MessageHeaderFormat::F2
        } else {
            MessageHeaderFormat::F3
        }
    }
}

/// Smallest chunk size.
pub const CHUNK_SIZE_MIN: usize = 1;

/// Largest chunk size.
pub const CHUNK_SIZE_MAX: usize = 65536;

/// Chunk size used until one is set.
pub const CHUNK_SIZE_DEFAULT: usize = 128;

/// A chunk size, in `1..=65536`.
#[derive(Debug, Clone, Copy, PartialEq, Eq, Hash, PartialOrd, Ord)]
pub struct RtmpChunkSize(usize);

impl RtmpChunkSize {
    #[verifier::type_invariant]
    spec fn in_range(self) -> bool {
        CHUNK_SIZE_MIN <= self.0 <= CHUNK_SIZE_MAX
    }

    /// The size in bytes.
    pub closed spec fn value(self) -> usize {
        self.0
    }

    /// The chunk size with the given number of bytes, if it is in range.
    pub fn new(size: usize) -> (r: Option<Self>)
        ensures
            r is Some <==> CHUNK_SIZE_MIN <= size <= CHUNK_SIZE_MAX,
            r matches Some(c) ==> c.value() == size,
    {
        if CHUNK_SIZE_MIN <= size && size <= CHUNK_SIZE_MAX {
            Some(Self(size))
        } else {
            None
        }
    }

    /// The chunk size nearest to `size` within range.
    pub fn saturating_new(size: usize) -> (r: Self)
        ensures
            r.value() == (if size < CHUNK_SIZE_MIN {
                CHUNK_SIZE_MIN
            } else if size > CHUNK_SIZE_MAX {
                CHUNK_SIZE_MAX
            } else {
                size
            }),
    {
        if size < CHUNK_SIZE_MIN {
            Self(CHUNK_SIZE_MIN)
        } else if size > CHUNK_SIZE_MAX {
            Self(CHUNK_SIZE_MAX)
        } else {
            Self(size)
        }
    }

    /// The size in bytes.
    pub fn get(self) -> (r: usize)
        ensures
            r == self.value(),
            CHUNK_SIZE_MIN <= r <= CHUNK_SIZE_MAX,
    {
        proof {
            use_type_invariant(&self);
        }
        self.0
    }

    /// Chunk sizes of the same number of bytes are equal.
    pub proof fn lemma_value_injective(a: Self, b: Self)
        requires
            a.value() == b.value(),
        ensures
            a == b,
    {
    }

    /// The chunk size used until one is set (128 bytes).
    pub fn default_size() -> (r: Self)
        ensures
            r.value() == CHUNK_SIZE_DEFAULT,
    {
        Self(CHUNK_SIZE_DEFAULT)
    }
}

impl Default for RtmpChunkSize {
    fn default() -> (r: Self)
        ensures
            r.value() == CHUNK_SIZE_DEFAULT,
    {
        Self::default_size()
    }
}

/// A message carried by a chunk stream.
#[derive(Debug, Clone, PartialEq, Eq)]
pub struct RtmpChunk {
    /// Chunk stream the message was sent on.
    pub chunk_stream_id: RtmpChunkStreamId,
    /// Message stream ID.
    pub message_stream_id: RtmpMessageStreamId,
    /// Message type.
    pub message_type: RtmpMessageType,
    /// Message timestamp.
    pub timestamp: RtmpTimestamp,
    /// Message payload.
    pub payload: Vec<u8>,
}

} // verus!

verus! {

/// The mathematical content of an [`RtmpChunk`].
pub struct RtmpChunkModel {
    pub chunk_stream_id: u32,
    pub message_stream_id: RtmpMessageStreamId,
    pub message_type: RtmpMessageType,
    pub timestamp: RtmpTimestamp,
    pub payload: Seq<u8>,
}

impl View for RtmpChunk {
    type V = RtmpChunkModel;

    open spec fn view(&self) -> RtmpChunkModel {
        RtmpChunkModel {
            chunk_stream_id: self.chunk_stream_id.value(),
            message_stream_id: self.message_stream_id,
            message_type: self.message_type,
            timestamp: self.timestamp,
            payload: self.payload@,
        }
    }
}

} // verus!
