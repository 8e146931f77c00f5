use vstd::prelude::*;

use crate::amf::{AmfModel, AmfValue, AmfVersion};
use crate::error::{Error, ErrorKind};
use crate::media::{AudioFrame, VideoFrame};
use crate::rtmp_chunk::{RtmpChunkSize, RtmpChunkStreamId};
use crate::rtmp_command::TransactionId;
use crate::rtmp_timestamp::RtmpTimestamp;
use crate::rtmp_user_control_event::RtmpUserControlEvent;

verus! {

/// A message stream ID.
#[derive(Debug, Clone, Copy, PartialEq, Eq, Hash, PartialOrd, Ord, Structural)]
pub struct RtmpMessageStreamId(pub u32);

impl RtmpMessageStreamId {
    /// The message stream with the given ID.
    pub fn new(id: u32) -> (r: Self)
        ensures
            r.0 == id,
    {
        Self(id)
    }

    /// The numeric ID.
    pub fn get(self) -> (r: u32)
        ensures
            r == self.0,
    {
        self.0
    }

    /// Stream 0, which carries protocol control messages.
    pub fn pcm() -> (r: Self)
        ensures
            r.0 == 0,
    {
        Self(0)
    }

    /// Stream 0, the first stream, announced by a stream-begin event after connecting.
    pub fn first() -> (r: Self)
        ensures
            r.0 == 0,
    {
        Self(0)
    }

    /// Stream 1, the media stream that `createStream` creates.
    pub fn media() -> (r: Self)
        ensures
            r.0 == 1,
    {
        Self(1)
    }
}

/// The type of an RTMP message.
#[derive(Debug, Clone, Copy, PartialEq, Eq, Hash, PartialOrd, Ord, Structural)]
pub enum RtmpMessageType {
    /// Set Chunk Size (1).
    SetChunkSize,
    /// Abort Message (2).
    Abort,
    /// Acknowledgement (3).
    Ack,
    /// User Control Message (4).
    UserControl,
    /// Window Acknowledgement Size (5).
    WinAckSize,
    /// Set Peer Bandwidth (6).
    SetPeerBandwidth,
    /// Audio Message (8).
    Audio,
    /// Video Message (9).
    Video,
    /// Data Message in AMF3 (15).
    DataAmf3,
    /// Command Message in AMF3 (17).
    CommandAmf3,
    /// Data Message in AMF0 (18).
    DataAmf0,
    /// Command Message in AMF0 (20).
    CommandAmf0,
}

impl RtmpMessageType {
    /// The type ID on the wire.
    pub open spec fn spec_type_id(self) -> u8 {
        match self {
            RtmpMessageType::SetChunkSize => 1,
            RtmpMessageType::Abort => 2,
            RtmpMessageType::Ack => 3,
            RtmpMessageType::UserControl => 4,
            RtmpMessageType::WinAckSize => 5,
            RtmpMessageType::SetPeerBandwidth => 6,
            RtmpMessageType::Audio => 8,
            RtmpMessageType::Video => 9,
            RtmpMessageType::DataAmf3 => 15,
            RtmpMessageType::CommandAmf3 => 17,
            RtmpMessageType::DataAmf0 => 18,
            RtmpMessageType::CommandAmf0 => 20,
        }
    }

    /// The message type with the given type ID, if any.
    pub open spec fn spec_from_type_id(v: u8) -> Option<Self> {
        if v == 1 {
            Some(RtmpMessageType::SetChunkSize)
        } else if v == 2 {
            Some(RtmpMessageType::Abort)
        } else if v == 3 {
            Some(RtmpMessageType::Ack)
        } else if v == 4 {
            Some(RtmpMessageType::UserControl)
        } else if v == 5 {
            Some(RtmpMessageType::WinAckSize)
        } else if v == 6 {
            Some(RtmpMessageType::SetPeerBandwidth)
        } else if v == 8 {
            Some(RtmpMessageType::Audio)
        } else if v == 9 {
            Some(RtmpMessageType::Video)
        } else if v == 15 {
            Some(RtmpMessageType::DataAmf3)
        } else if v == 17 {
            Some(RtmpMessageType::CommandAmf3)
        } else if v == 18 {
            Some(RtmpMessageType::DataAmf0)
        } else if v == 20 {
            Some(RtmpMessageType::CommandAmf0)
        } else {
            None
        }
    }

    /// The type ID on the wire.
    pub fn type_id(self) -> (r: u8)
        ensures
            r == self.spec_type_id(),
    {
        match self {
            RtmpMessageType::SetChunkSize => 1,
            RtmpMessageType::Abort => 2,
            RtmpMessageType::Ack => 3,
            RtmpMessageType::UserControl => 4,
            RtmpMessageType::WinAckSize => 5,
            RtmpMessageType::SetPeerBandwidth => 6,
            RtmpMessageType::Audio => 8,
            RtmpMessageType::Video => 9,
            RtmpMessageType::DataAmf3 => 15,
            RtmpMessageType::CommandAmf3 => 17,
            RtmpMessageType::DataAmf0 => 18,
            RtmpMessageType::CommandAmf0 => 20,
        }
    }

    /// The message type with the given type ID; an unknown ID is invalid data.
    pub fn from_type_id(v: u8) -> (r: Result<Self, Error>)
        ensures
            r is Ok <==> Self::spec_from_type_id(v) is Some,
            r matches Ok(t) ==> Self::spec_from_type_id(v) == Some(t),
            r matches Err(e) ==> e.kind == ErrorKind::InvalidData,
    {
        if v == 1 {
            Ok(RtmpMessageType::SetChunkSize)
        } else if v == 2 {
            Ok(RtmpMessageType::Abort)
        } else if v == 3 {
            Ok(RtmpMessageType::Ack)
        } else if v == 4 {
            Ok(RtmpMessageType::UserControl)
        } else if v == 5 {
            Ok(RtmpMessageType::WinAckSize)
        } else if v == 6 {
            Ok(RtmpMessageType::SetPeerBandwidth)
        } else if v == 8 {
            Ok(RtmpMessageType::Audio)
        } else if v == 9 {
            Ok(RtmpMessageType::Video)
        } else if v == 15 {
            Ok(RtmpMessageType::DataAmf3)
        } else if v == 17 {
            Ok(RtmpMessageType::CommandAmf3)
        } else if v == 18 {
            Ok(RtmpMessageType::DataAmf0)
        } else if v == 20 {
            Ok(RtmpMessageType::CommandAmf0)
        } else {
            Err(Error::invalid_data("unknown message type"))
        }
    }
}

impl RtmpMessageType {
    /// The variant name of a message type.
    pub open spec fn spec_debug_name(self) -> Seq<char> {
        match self {
            RtmpMessageType::SetChunkSize => "SetChunkSize"@,
            RtmpMessageType::Abort => "Abort"@,
            RtmpMessageType::Ack => "Ack"@,
            RtmpMessageType::UserControl => "UserControl"@,
            RtmpMessageType::WinAckSize => "WinAckSize"@,
            RtmpMessageType::SetPeerBandwidth => "SetPeerBandwidth"@,
            RtmpMessageType::Audio => "Audio"@,
            RtmpMessageType::Video => "Video"@,
            RtmpMessageType::DataAmf3 => "DataAmf3"@,
            RtmpMessageType::CommandAmf3 => "CommandAmf3"@,
            RtmpMessageType::DataAmf0 => "DataAmf0"@,
            RtmpMessageType::CommandAmf0 => "CommandAmf0"@,
        }
    }

    /// The variant name of this message type.
    pub fn debug_name(self) -> (r: &'static str)
        ensures
            r@ == self.spec_debug_name(),
    {
        match self {
            RtmpMessageType::SetChunkSize => "SetChunkSize",
            RtmpMessageType::Abort => "Abort",
            RtmpMessageType::Ack => "Ack",
            RtmpMessageType::UserControl => "UserControl",
            RtmpMessageType::WinAckSize => "WinAckSize",
            RtmpMessageType::SetPeerBandwidth => "SetPeerBandwidth",
            RtmpMessageType::Audio => "Audio",
            RtmpMessageType::Video => "Video",
            RtmpMessageType::DataAmf3 => "DataAmf3",
            RtmpMessageType::CommandAmf3 => "CommandAmf3",
            RtmpMessageType::DataAmf0 => "DataAmf0",
            RtmpMessageType::CommandAmf0 => "CommandAmf0",
        }
    }
}

/// Type IDs and message types correspond one to one.
pub proof fn lemma_message_type_id_roundtrip(t: RtmpMessageType)
    ensures
        RtmpMessageType::spec_from_type_id(t.spec_type_id()) == Some(t),
{
}

/// The RTMP type ID of each message type: Set Chunk Size 1, Abort 2, Acknowledgement 3,
/// User Control 4, Window Acknowledgement Size 5, Set Peer Bandwidth 6, audio 8, video 9,
/// AMF3 data 15, AMF3 command 17, AMF0 data 18, AMF0 command 20; no other ID names a type.
pub proof fn lemma_message_type_ids(t: RtmpMessageType, v: u8)
    ensures
        t == RtmpMessageType::SetChunkSize <==> t.spec_type_id() == 1,
        t == RtmpMessageType::Abort <==> t.spec_type_id() == 2,
        t == RtmpMessageType::Ack <==> t.spec_type_id() == 3,
        t == RtmpMessageType::UserControl <==> t.spec_type_id() == 4,
        t == RtmpMessageType::WinAckSize <==> t.spec_type_id() == 5,
        t == RtmpMessageType::SetPeerBandwidth <==> t.spec_type_id() == 6,
        t == RtmpMessageType::Audio <==> t.spec_type_id() == 8,
        t == RtmpMessageType::Video <==> t.spec_type_id() == 9,
        t == RtmpMessageType::DataAmf3 <==> t.spec_type_id() == 15,
        t == RtmpMessageType::CommandAmf3 <==> t.spec_type_id() == 17,
        t == RtmpMessageType::DataAmf0 <==> t.spec_type_id() == 18,
        t == RtmpMessageType::CommandAmf0 <==> t.spec_type_id() == 20,
        RtmpMessageType::spec_from_type_id(v) is Some <==> (1 <= v <= 6 || v == 8 || v == 9 || v == 15
            || v == 17 || v == 18 || v == 20),
        RtmpMessageType::spec_from_type_id(v) matches Some(u) ==> u.spec_type_id() == v,
{
}

/// The header of an RTMP message.
#[derive(Debug, Clone, Copy, PartialEq, Eq, Structural)]
pub struct RtmpMessageHeader {
    /// Message stream ID.
    pub stream_id: RtmpMessageStreamId,
    /// Message timestamp.
    pub timestamp: RtmpTimestamp,
}

impl RtmpMessageHeader {
    /// The header of protocol control messages: stream 0, timestamp 0.
    pub open spec fn spec_pcm() -> Self {
        RtmpMessageHeader { stream_id: RtmpMessageStreamId(0), timestamp: RtmpTimestamp(0) }
    }

    /// The header of protocol control messages: stream 0, timestamp 0.
    pub fn pcm() -> (r: Self)
        ensures
            r == Self::spec_pcm(),
    {
        RtmpMessageHeader { stream_id: RtmpMessageStreamId::pcm(), timestamp: RtmpTimestamp::zero() }
    }
}

/// The limit type of a Set Peer Bandwidth message.
#[derive(Debug, Clone, Copy, PartialEq, Eq, Hash, Structural)]
pub enum SetPeerBandwidthLimitType {
    /// Hard (0).
    Hard,
    /// Soft (1).
    Soft,
    /// Dynamic (2).
    Dynamic,
}

impl SetPeerBandwidthLimitType {
    /// The wire code of this limit type.
    pub open spec fn spec_code(self) -> u8 {
        match self {
            SetPeerBandwidthLimitType::Hard => 0,
            SetPeerBandwidthLimitType::Soft => 1,
            SetPeerBandwidthLimitType::Dynamic => 2,
        }
    }

    /// The wire code of this limit type.
    pub fn code(self) -> (r: u8)
        ensures
            r == self.spec_code(),
    {
        match self {
            SetPeerBandwidthLimitType::Hard => 0,
            SetPeerBandwidthLimitType::Soft => 1,
            SetPeerBandwidthLimitType::Dynamic => 2,
        }
    }
}

/// An RTMP message.
#[derive(Debug, Clone, PartialEq)]
pub enum RtmpMessage {
    /// Set Chunk Size: the chunk size the sender uses from now on.
    SetChunkSize {
        /// Message header.
        header: RtmpMessageHeader,
        /// The new chunk size.
        size: RtmpChunkSize,
    },
    /// Abort: drop the partly received message of a chunk stream.
    Abort {
        /// Message header.
        header: RtmpMessageHeader,
        /// The chunk stream.
        chunk_stream_id: RtmpChunkStreamId,
    },
    /// Acknowledgement: the bytes received so far.
    Ack {
        /// Message header.
        header: RtmpMessageHeader,
        /// Bytes received so far.
        sequence_number: u32,
    },
    /// A user control event.
    UserControl {
        /// Message header.
        header: RtmpMessageHeader,
        /// The event.
        event: RtmpUserControlEvent,
    },
    /// Window Acknowledgement Size: how often the peer should acknowledge.
    WinAckSize {
        /// Message header.
        header: RtmpMessageHeader,
        /// Window size in bytes.
        size: u32,
    },
    /// Set Peer Bandwidth: limits what the peer sends.
    SetPeerBandwidth {
        /// Message header.
        header: RtmpMessageHeader,
        /// Window size in bytes.
        size: u32,
        /// How to apply the limit.
        limit_type: SetPeerBandwidthLimitType,
    },
    /// Audio data.
    Audio {
        /// Message header.
        header: RtmpMessageHeader,
        /// The frame.
        frame: AudioFrame,
    },
    /// Video data.
    Video {
        /// Message header.
        header: RtmpMessageHeader,
        /// The frame.
        frame: VideoFrame,
    },
    /// A command.
    Command {
        /// Message header.
        header: RtmpMessageHeader,
        /// The AMF encoding of the command.
        amf_version: AmfVersion,
        /// The command name.
        name: String,
        /// The transaction ID.
        transaction_id: TransactionId,
        /// The command object.
        object: AmfValue,
        /// Further arguments.
        args: Vec<AmfValue>,
    },
    /// Data (such as metadata).
    Data {
        /// Message header.
        header: RtmpMessageHeader,
        /// The AMF encoding of the values.
        amf_version: AmfVersion,
        /// The values.
        values: Vec<AmfValue>,
    },
}

/// The models of a list of AMF values.
pub open spec fn amf_values_view(v: Seq<AmfValue>) -> Seq<AmfModel> {
    Seq::new(v.len(), |i: int| v[i]@)
}

impl RtmpMessage {
    /// The header of the message.
    pub open spec fn spec_header(&self) -> RtmpMessageHeader {
        match *self {
            RtmpMessage::SetChunkSize { header, .. } => header,
            RtmpMessage::Abort { header, .. } => header,
            RtmpMessage::Ack { header, .. } => header,
            RtmpMessage::UserControl { header, .. } => header,
            RtmpMessage::WinAckSize { header, .. } => header,
            RtmpMessage::SetPeerBandwidth { header, .. } => header,
            RtmpMessage::Audio { header, .. } => header,
            RtmpMessage::Video { header, .. } => header,
            RtmpMessage::Command { header, .. } => header,
            RtmpMessage::Data { header, .. } => header,
        }
    }

    /// The type of the message.
    pub open spec fn spec_message_type(&self) -> RtmpMessageType {
        match *self {
            RtmpMessage::SetChunkSize { .. } => RtmpMessageType::SetChunkSize,
            RtmpMessage::Abort { .. } => RtmpMessageType::Abort,
            RtmpMessage::Ack { .. } => RtmpMessageType::Ack,
            RtmpMessage::UserControl { .. } => RtmpMessageType::UserControl,
            RtmpMessage::WinAckSize { .. } => RtmpMessageType::WinAckSize,
            RtmpMessage::SetPeerBandwidth { .. } => RtmpMessageType::SetPeerBandwidth,
            RtmpMessage::Audio { .. } => RtmpMessageType::Audio,
            RtmpMessage::Video { .. } => RtmpMessageType::Video,
            RtmpMessage::Command { amf_version, .. } => match amf_version {
                AmfVersion::Amf0 => RtmpMessageType::CommandAmf0,
                AmfVersion::Amf3 => RtmpMessageType::CommandAmf3,
            },
            RtmpMessage::Data { amf_version, .. } => match amf_version {
                AmfVersion::Amf0 => RtmpMessageType::DataAmf0,
                AmfVersion::Amf3 => RtmpMessageType::DataAmf3,
            },
        }
    }

    /// The header of the message.
    pub fn header(&self) -> (r: RtmpMessageHeader)
        ensures
            r == self.spec_header(),
    {
        match self {
            RtmpMessage::SetChunkSize { header, .. } => *header,
            RtmpMessage::Abort { header, .. } => *header,
            RtmpMessage::Ack { header, .. } => *header,
            RtmpMessage::UserControl { header, .. } => *header,
            RtmpMessage::WinAckSize { header, .. } => *header,
            RtmpMessage::SetPeerBandwidth { header, .. } => *header,
            RtmpMessage::Audio { header, .. } => *header,
            RtmpMessage::Video { header, .. } => *header,
            RtmpMessage::Command { header, .. } => *header,
            RtmpMessage::Data { header, .. } => *header,
        }
    }

    /// The type of the message.
    pub fn message_type(&self) -> (r: RtmpMessageType)
        ensures
            r == self.spec_message_type(),
    {
        match self {
            RtmpMessage::SetChunkSize { .. } => RtmpMessageType::SetChunkSize,
            RtmpMessage::Abort { .. } => RtmpMessageType::Abort,
            RtmpMessage::Ack { .. } => RtmpMessageType::Ack,
            RtmpMessage::UserControl { .. } => RtmpMessageType::UserControl,
            RtmpMessage::WinAckSize { .. } => RtmpMessageType::WinAckSize,
            RtmpMessage::SetPeerBandwidth { .. } => RtmpMessageType::SetPeerBandwidth,
            RtmpMessage::Audio { .. } => RtmpMessageType::Audio,
            RtmpMessage::Video { .. } => RtmpMessageType::Video,
            RtmpMessage::Command { amf_version, .. } => match amf_version {
                AmfVersion::Amf0 => RtmpMessageType::CommandAmf0,
                AmfVersion::Amf3 => RtmpMessageType::CommandAmf3,
            },
            RtmpMessage::Data { amf_version, .. } => match amf_version {
                AmfVersion::Amf0 => RtmpMessageType::DataAmf0,
                AmfVersion::Amf3 => RtmpMessageType::DataAmf3,
            },
        }
    }

    /// A Window Acknowledgement Size message on the control stream.
    pub fn win_ack_size(size: u32) -> (r: Self)
        ensures
            r == (RtmpMessage::WinAckSize { header: RtmpMessageHeader::spec_pcm(), size }),
    {
        RtmpMessage::WinAckSize { header: RtmpMessageHeader::pcm(), size }
    }

    /// A Set Peer Bandwidth message on the control stream, with the dynamic limit type.
    pub fn set_peer_bandwidth(size: u32) -> (r: Self)
        ensures
            r == (RtmpMessage::SetPeerBandwidth {
                header: RtmpMessageHeader::spec_pcm(),
                size,
                limit_type: SetPeerBandwidthLimitType::Dynamic,
            }),
    {
        RtmpMessage::SetPeerBandwidth {
            header: RtmpMessageHeader::pcm(),
            size,
            limit_type: SetPeerBandwidthLimitType::Dynamic,
        }
    }

    /// A Set Chunk Size message on the control stream.
    pub fn set_chunk_size(size: RtmpChunkSize) -> (r: Self)
        ensures
            r == (RtmpMessage::SetChunkSize { header: RtmpMessageHeader::spec_pcm(), size }),
    {
        RtmpMessage::SetChunkSize { header: RtmpMessageHeader::pcm(), size }
    }

    /// An Acknowledgement message on the control stream.
    pub fn ack(sequence_number: u32) -> (r: Self)
        ensures
            r == (RtmpMessage::Ack { header: RtmpMessageHeader::spec_pcm(), sequence_number }),
    {
        RtmpMessage::Ack { header: RtmpMessageHeader::pcm(), sequence_number }
    }

    /// A Stream Begin event for `stream_id` on the control stream.
    pub fn stream_begin(stream_id: RtmpMessageStreamId) -> (r: Self)
        ensures
            r == (RtmpMessage::UserControl {
                header: RtmpMessageHeader::spec_pcm(),
                event: RtmpUserControlEvent::StreamBegin { stream_id },
            }),
    {
        RtmpMessage::UserControl {
            header: RtmpMessageHeader::pcm(),
            event: RtmpUserControlEvent::StreamBegin { stream_id },
        }
    }
}

} // verus!
