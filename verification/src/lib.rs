//! Sans I/O implementation of RTMP (Real Time Messaging Protocol).
#![allow(unused_imports)]

pub mod amf;
pub mod amf0;
pub mod amf0_laws;
pub mod amf3;
pub mod amf3_laws;
pub mod amf3_limits;
pub mod bytes;
pub mod error;
pub mod float64;
pub mod flv;
pub mod media;
pub mod rtmp_chunk;
pub mod rtmp_client_connection;
pub mod rtmp_chunk_decoder;
pub mod rtmp_chunk_encoder;
pub mod rtmp_chunk_laws;
pub mod rtmp_command;
pub mod rtmp_connection;
pub mod rtmp_handshake;
pub mod rtmp_message;
pub mod rtmp_message_decoder;
pub mod rtmp_message_encoder;
pub mod rtmp_message_laws;
pub mod rtmp_server_connection;
pub mod rtmp_timestamp;
pub mod rtmp_url;
pub mod rtmp_user_control_event;
pub mod text;

pub use amf::{AmfValue, AmfVersion};
pub use amf0::Amf0Value;
pub use amf3::Amf3Value;
pub use error::{Error, ErrorKind};
pub use media::{
    AudioFormat, AudioFrame, AudioSampleRate, AvcPacketType, AvcSequenceHeader, MediaFrame, VideoCodec,
    VideoFrame, VideoFrameType,
};
pub use rtmp_client_connection::{RtmpPlayClientConnection, RtmpPublishClientConnection};
pub use rtmp_connection::{RtmpConnectionEvent, RtmpConnectionState};
pub use rtmp_server_connection::RtmpServerConnection;
pub use rtmp_timestamp::{RtmpTimestamp, RtmpTimestampDelta};
pub use rtmp_url::RtmpUrl;
