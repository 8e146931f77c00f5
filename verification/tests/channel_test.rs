use shiguredo_rtmp::rtmp_chunk::RtmpChunkSize;
use shiguredo_rtmp::rtmp_connection::RtmpMessageChannel;
use shiguredo_rtmp::rtmp_message::{RtmpMessage, RtmpMessageHeader, RtmpMessageStreamId};
use shiguredo_rtmp::rtmp_user_control_event::RtmpUserControlEvent;
use shiguredo_rtmp::amf::Pair;
use shiguredo_rtmp::float64::Float64;
use shiguredo_rtmp::rtmp_command::TransactionId;
use shiguredo_rtmp::{Amf0Value, Amf3Value, AmfValue, AmfVersion, RtmpTimestamp};

fn sample_messages() -> Vec<RtmpMessage> {
    vec![
        RtmpMessage::win_ack_size(2_500_000),
        RtmpMessage::set_peer_bandwidth(2_500_000),
        RtmpMessage::ack(12345),
        RtmpMessage::stream_begin(RtmpMessageStreamId::media()),
        RtmpMessage::UserControl {
            header: RtmpMessageHeader::pcm(),
            event: RtmpUserControlEvent::SetBufferLength {
                stream_id: RtmpMessageStreamId::media(),
                length: 3000,
            },
        },
        RtmpMessage::set_chunk_size(RtmpChunkSize::new(64).unwrap()),
        RtmpMessage::UserControl {
            header: RtmpMessageHeader { stream_id: RtmpMessageStreamId::pcm(), timestamp: RtmpTimestamp::from_millis(9) },
            event: RtmpUserControlEvent::PingRequest { timestamp: RtmpTimestamp::from_millis(77) },
        },
        RtmpMessage::Command {
            header: RtmpMessageHeader::pcm(),
            amf_version: AmfVersion::Amf0,
            name: "connect".to_owned(),
            transaction_id: TransactionId(1),
            object: AmfValue::Amf0(Amf0Value::Object {
                class_name: None,
                entries: vec![Pair { key: "app".to_owned(), value: Amf0Value::String("live".to_owned()) }],
            }),
            args: vec![AmfValue::Amf0(Amf0Value::Null)],
        },
        RtmpMessage::Command {
            header: RtmpMessageHeader::pcm(),
            amf_version: AmfVersion::Amf3,
            name: "play".to_owned(),
            transaction_id: TransactionId(-4),
            object: AmfValue::Amf3(Amf3Value::Null),
            args: vec![AmfValue::Amf3(Amf3Value::Double(Float64::from_bits(0x4000_0000_0000_0000)))],
        },
        RtmpMessage::Data {
            header: RtmpMessageHeader { stream_id: RtmpMessageStreamId::media(), timestamp: RtmpTimestamp::from_millis(5) },
            amf_version: AmfVersion::Amf3,
            values: vec![
                AmfValue::Amf3(Amf3Value::String("onMetaData".to_owned())),
                AmfValue::Amf3(Amf3Value::Integer(-7)),
            ],
        },
    ]
}

#[test]
fn one_channel_decodes_what_another_sends() {
    let mut sender = RtmpMessageChannel::default();
    let mut receiver = RtmpMessageChannel::default();
    let messages = sample_messages();
    for m in &messages {
        sender.feed_send_message(m.clone());
    }
    let bytes = sender.send_buf().to_vec();
    assert!(sender.advance_send_buf(bytes.len()) == false);
    receiver.feed_recv_buf(&bytes).unwrap();
    let mut received = Vec::new();
    while let Some(m) = receiver.next_recv_message() {
        received.push(m);
    }
    assert_eq!(received, messages);
}

#[test]
fn received_bytes_may_come_one_by_one() {
    let mut sender = RtmpMessageChannel::default();
    let mut receiver = RtmpMessageChannel::default();
    let messages = sample_messages();
    for m in &messages {
        sender.feed_send_message(m.clone());
    }
    let bytes = sender.send_buf().to_vec();
    for b in &bytes {
        receiver.feed_recv_buf(&[*b]).unwrap();
    }
    let mut received = Vec::new();
    while let Some(m) = receiver.next_recv_message() {
        received.push(m);
    }
    assert_eq!(received, messages);
}

#[test]
fn acknowledgement_comes_due_after_half_the_window() {
    let mut channel = RtmpMessageChannel::default();
    channel.set_peer_ack_window_size(100);
    // Bytes that complete no message: the first chunk of a 4096-byte audio message.
    let header = [0x03, 0, 0, 0, 0x00, 0x10, 0x00, 0x08, 0, 0, 0, 0];
    assert_eq!(channel.feed_recv_buf(&header).unwrap(), None);
    assert_eq!(channel.feed_recv_buf(&[0xAF; 38]).unwrap(), None);
    assert_eq!(channel.feed_recv_buf(&[0xAF]).unwrap(), Some(51));
    assert_eq!(channel.feed_recv_buf(&[0xAF; 10]).unwrap(), None);
    assert!(channel.next_recv_message().is_none());
}

#[test]
fn sending_without_acknowledgements_is_reported() {
    let mut channel = RtmpMessageChannel::default();
    channel.set_local_ack_window_size(10);
    channel.feed_send_message(RtmpMessage::ack(1));
    channel.feed_send_message(RtmpMessage::ack(2));
    let n = channel.send_buf().len();
    assert!(n > 20);
    assert!(channel.advance_send_buf(5));
    assert!(!channel.advance_send_buf(n - 5));
    channel.notify_ack_received(n as u32);
    channel.feed_send_message(RtmpMessage::ack(3));
    let m = channel.send_buf().len();
    assert!(channel.advance_send_buf(m));
}

#[test]
fn a_bad_chunk_is_an_error() {
    let mut channel = RtmpMessageChannel::default();
    // A first chunk in the continuation format, for a chunk stream never seen.
    let err = channel.feed_recv_buf(&[0xC3, 1, 2, 3]).unwrap_err();
    assert_eq!(err.kind, shiguredo_rtmp::ErrorKind::InvalidData);
}
