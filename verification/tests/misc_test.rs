use std::time::Duration;

use shiguredo_rtmp::bytes::{read_u32, read_utf8};
use shiguredo_rtmp::float64::Float64;
use shiguredo_rtmp::flv::{decode_audio_frame, decode_video_frame, encode_audio_frame, encode_video_frame};
use shiguredo_rtmp::rtmp_message::RtmpMessageType;
use shiguredo_rtmp::rtmp_user_control_event::RtmpUserControlEvent;
use shiguredo_rtmp::rtmp_message::RtmpMessageStreamId;
use shiguredo_rtmp::{
    AudioFormat, AudioFrame, AudioSampleRate, AvcPacketType, Error, ErrorKind, RtmpConnectionState,
    RtmpTimestamp, RtmpTimestampDelta, VideoCodec, VideoFrame, VideoFrameType,
};

#[test]
fn connection_state_names() {
    assert_eq!(RtmpConnectionState::Handshaking.to_string(), "HANDSHAKING");
    assert_eq!(RtmpConnectionState::MediaStreamCreated.to_string(), "MEDIA_STREAM_CREATED");
    assert_eq!(RtmpConnectionState::Disconnecting.to_string(), "DISCONNECTING");
    assert_eq!(RtmpConnectionState::default(), RtmpConnectionState::Handshaking);
}

#[test]
fn error_messages() {
    let e = Error::with_reason(ErrorKind::InvalidInput, "bad");
    assert_eq!(e.message(), "InvalidInput: bad");
    assert_eq!(ErrorKind::Unsupported.name(), "Unsupported");
}

#[test]
fn message_type_ids() {
    for id in 0u8..=255 {
        if let Ok(t) = RtmpMessageType::from_type_id(id) {
            assert_eq!(t.type_id(), id);
        }
    }
    assert_eq!(RtmpMessageType::from_type_id(7).unwrap_err().kind, ErrorKind::InvalidData);
    assert_eq!(RtmpMessageType::CommandAmf0.type_id(), 20);
    assert_eq!(RtmpMessageType::Video.debug_name(), "Video");
}

#[test]
fn user_control_events_round_trip() {
    let events = [
        RtmpUserControlEvent::StreamBegin { stream_id: RtmpMessageStreamId::new(1) },
        RtmpUserControlEvent::SetBufferLength { stream_id: RtmpMessageStreamId::new(1), length: 500 },
        RtmpUserControlEvent::PingResponse { timestamp: RtmpTimestamp::from_millis(0x01020304) },
    ];
    for e in events {
        let mut buf = Vec::new();
        e.encode(&mut buf);
        assert_eq!(RtmpUserControlEvent::decode(&buf).unwrap(), e);
    }
    let mut buf = Vec::new();
    RtmpUserControlEvent::PingRequest { timestamp: RtmpTimestamp::from_millis(0x01020304) }.encode(&mut buf);
    assert_eq!(buf, vec![0, 6, 1, 2, 3, 4]);
    assert_eq!(RtmpUserControlEvent::decode(&[0, 99, 0, 0, 0, 0]).unwrap_err().kind, ErrorKind::InvalidData);
}

#[test]
fn timestamps() {
    let t = RtmpTimestamp::from_millis(u32::MAX);
    assert_eq!(t.wrapping_add(RtmpTimestamp::from_millis(2)).as_millis(), 1);
    assert_eq!(RtmpTimestamp::from_millis(5).checked_sub(RtmpTimestamp::from_millis(7)), None);
    assert_eq!(
        RtmpTimestamp::from_millis(7).checked_sub(RtmpTimestamp::from_millis(5)),
        Some(RtmpTimestamp::from_millis(2))
    );
    assert_eq!(RtmpTimestamp::from_millis(1500).as_duration(), Duration::from_millis(1500));
    assert_eq!(RtmpTimestampDelta::from_millis(-3).as_millis(), -3);
    assert_eq!(RtmpTimestamp::zero().as_millis(), 0);
}

#[test]
fn floats_from_integers() {
    assert_eq!(Float64::from_u32(255).to_bits(), 0x406F_E000_0000_0000);
    assert_eq!(Float64::from_i32(-1).to_bits(), 0xBFF0_0000_0000_0000);
    assert_eq!(Float64::from_u64(0).to_bits(), 0);
    assert_eq!(Float64::from_u64((1 << 53) + 1).to_bits(), f64::to_bits(((1u64 << 53) + 1) as f64));
    assert_eq!(Float64::from_bits(f64::to_bits(2.9)).to_u32_saturating(), 2);
    assert_eq!(Float64::from_bits(f64::to_bits(-2.9)).to_i64_saturating(), -2);
    assert_eq!(Float64::from_bits(f64::to_bits(1e30)).to_u64_saturating(), u64::MAX);
    assert!(Float64::from_bits(f64::to_bits(-0.0)).is_sign_negative());
    assert!(!Float64::from_bits(f64::to_bits(f64::INFINITY)).is_finite());
}

#[test]
fn reading_bytes() {
    assert_eq!(read_u32(&[1, 2, 3, 4, 5], 1).unwrap(), 0x02030405);
    assert_eq!(read_u32(&[1, 2, 3], 0).unwrap_err().kind, ErrorKind::InsufficientBuffer);
    assert_eq!(read_utf8("héllo".as_bytes(), 0, 6).unwrap(), "héllo");
    assert_eq!(read_utf8(&[0xFF, 0xFE], 0, 2).unwrap_err().kind, ErrorKind::InvalidData);
}

#[test]
fn flv_audio_and_video_round_trip() {
    let audio = AudioFrame {
        timestamp: RtmpTimestamp::from_millis(10),
        format: AudioFormat::Aac,
        sample_rate: AudioFrame::AAC_SAMPLE_RATE,
        is_8bit_sample: false,
        is_stereo: AudioFrame::AAC_STEREO,
        is_aac_sequence_header: true,
        data: vec![0x12, 0x10],
    };
    let mut buf = Vec::new();
    encode_audio_frame(&mut buf, &audio);
    assert_eq!(buf, vec![0xAD, 0x00, 0x12, 0x10]);
    assert_eq!(decode_audio_frame(&buf, audio.timestamp).unwrap(), audio);

    let video = VideoFrame {
        timestamp: RtmpTimestamp::from_millis(20),
        composition_timestamp_offset: RtmpTimestampDelta::from_millis(-40),
        frame_type: VideoFrameType::InterFrame,
        codec: VideoCodec::Avc,
        avc_packet_type: Some(AvcPacketType::NalUnit),
        data: vec![1, 2],
    };
    let mut buf = Vec::new();
    encode_video_frame(&mut buf, &video);
    assert_eq!(buf, vec![0x27, 0x01, 0xFF, 0xFF, 0xD8, 1, 2]);
    assert_eq!(decode_video_frame(&buf, video.timestamp).unwrap(), video);
    assert!(!video.is_keyframe());
    assert_eq!(decode_video_frame(&[], video.timestamp).unwrap_err().kind, ErrorKind::InsufficientBuffer);
    assert_eq!(decode_audio_frame(&[0x9F], audio.timestamp).unwrap_err().kind, ErrorKind::InvalidData);
    let _ = AudioSampleRate::Khz22;
}
