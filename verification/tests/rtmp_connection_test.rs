use shiguredo_rtmp::media::{AudioFormat, AudioFrame, AudioSampleRate, VideoCodec, VideoFrame, VideoFrameType};
use shiguredo_rtmp::rtmp_chunk::RtmpChunkSize;
use shiguredo_rtmp::rtmp_connection::RtmpMessageChannel;
use shiguredo_rtmp::rtmp_message::{RtmpMessage, RtmpMessageHeader, RtmpMessageStreamId};
use shiguredo_rtmp::rtmp_message_decoder::RtmpMessageDecoder;
use shiguredo_rtmp::{RtmpTimestamp, RtmpTimestampDelta};

#[test]
fn message_channel_send_roundtrip_regression_pbt() {
    // A small case that once broke the send-then-decode round trip.
    let messages = vec![
        RtmpMessage::SetChunkSize {
            header: RtmpMessageHeader {
                stream_id: RtmpMessageStreamId::pcm(),
                timestamp: RtmpTimestamp::zero(),
            },
            size: RtmpChunkSize::new(1).unwrap(),
        },
        RtmpMessage::Video {
            header: RtmpMessageHeader {
                stream_id: RtmpMessageStreamId::new(65_597),
                timestamp: RtmpTimestamp::from_millis(1),
            },
            frame: VideoFrame {
                timestamp: RtmpTimestamp::from_millis(1),
                composition_timestamp_offset: RtmpTimestampDelta::zero(),
                frame_type: VideoFrameType::KeyFrame,
                codec: VideoCodec::Jpeg,
                avc_packet_type: None,
                data: vec![],
            },
        },
        RtmpMessage::Audio {
            header: RtmpMessageHeader {
                stream_id: RtmpMessageStreamId::new(65_598),
                timestamp: RtmpTimestamp::from_millis(16_777_215),
            },
            frame: AudioFrame {
                timestamp: RtmpTimestamp::from_millis(16_777_215),
                format: AudioFormat::Mp3,
                sample_rate: AudioSampleRate::Khz5,
                is_8bit_sample: false,
                is_stereo: false,
                is_aac_sequence_header: false,
                data: vec![0],
            },
        },
    ];

    let mut channel = RtmpMessageChannel::default();
    for message in &messages {
        channel.feed_send_message(message.clone());
    }

    let buf = channel.send_buf().to_vec();
    let mut decoder = RtmpMessageDecoder::default();
    decoder.feed_buf(&buf);

    let mut decoded = Vec::new();
    while let Some(message) = decoder.decode().unwrap() {
        decoded.push(message);
    }

    assert_eq!(decoded, messages);
}
