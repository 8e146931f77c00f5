use shiguredo_rtmp::rtmp_message::{RtmpMessage, RtmpMessageHeader, RtmpMessageStreamId};
use shiguredo_rtmp::rtmp_user_control_event::RtmpUserControlEvent;
use shiguredo_rtmp::{Amf0Value, AmfValue, AmfVersion};
use shiguredo_rtmp::{
    AudioFormat, AudioFrame, AudioSampleRate, AvcPacketType, ErrorKind, RtmpConnectionEvent,
    RtmpConnectionState, RtmpPlayClientConnection, RtmpPublishClientConnection, RtmpServerConnection,
    RtmpTimestamp, RtmpTimestampDelta, VideoCodec, VideoFrame, VideoFrameType,
};

/// Moves what the publish client wants to send to the server.
fn publish_client_to_server(client: &mut RtmpPublishClientConnection, server: &mut RtmpServerConnection) {
    let data = client.send_buf().to_vec();
    if !data.is_empty() {
        client.advance_send_buf(data.len());
        server.feed_recv_buf(&data).expect("server feed failed");
    }
}

/// Moves what the server wants to send to the publish client.
fn server_to_publish_client(server: &mut RtmpServerConnection, client: &mut RtmpPublishClientConnection) {
    let data = server.send_buf().to_vec();
    if !data.is_empty() {
        server.advance_send_buf(data.len());
        client.feed_recv_buf(&data).expect("client feed failed");
    }
}

fn play_client_to_server(client: &mut RtmpPlayClientConnection, server: &mut RtmpServerConnection) {
    let data = client.send_buf().to_vec();
    if !data.is_empty() {
        client.advance_send_buf(data.len());
        server.feed_recv_buf(&data).expect("server feed failed");
    }
}

fn server_to_play_client(server: &mut RtmpServerConnection, client: &mut RtmpPlayClientConnection) {
    let data = server.send_buf().to_vec();
    if !data.is_empty() {
        server.advance_send_buf(data.len());
        client.feed_recv_buf(&data).expect("client feed failed");
    }
}

fn dummy_video_frame() -> VideoFrame {
    VideoFrame {
        timestamp: RtmpTimestamp::from_millis(0),
        composition_timestamp_offset: RtmpTimestampDelta::zero(),
        frame_type: VideoFrameType::KeyFrame,
        codec: VideoCodec::Avc,
        avc_packet_type: Some(AvcPacketType::NalUnit),
        data: vec![1, 2, 3],
    }
}

fn dummy_audio_frame() -> AudioFrame {
    AudioFrame {
        timestamp: RtmpTimestamp::from_millis(40),
        format: AudioFormat::Aac,
        sample_rate: AudioSampleRate::Khz44,
        is_8bit_sample: false,
        is_stereo: true,
        is_aac_sequence_header: false,
        data: vec![9, 8, 7],
    }
}

#[test]
fn publish_flow_reaches_publishing_and_delivers_video() {
    let mut server = RtmpServerConnection::new();
    let mut client = RtmpPublishClientConnection::new("rtmp://127.0.0.1/live", "test");

    let mut client_states = Vec::new();
    let mut server_states = Vec::new();
    let mut requested = None;
    for _ in 0..20 {
        publish_client_to_server(&mut client, &mut server);
        while let Some(event) = server.next_event() {
            match event {
                RtmpConnectionEvent::PublishRequested { app, tc_url, stream_name } => {
                    requested = Some((app, tc_url, stream_name));
                    server.accept().expect("accept failed");
                }
                RtmpConnectionEvent::StateChanged(s) => server_states.push(s),
                _ => {}
            }
        }
        server_to_publish_client(&mut server, &mut client);
        while let Some(event) = client.next_event() {
            if let RtmpConnectionEvent::StateChanged(s) = event {
                client_states.push(s);
            }
        }
    }

    assert_eq!(
        requested,
        Some(("live".to_owned(), "rtmp://127.0.0.1/live".to_owned(), "test".to_owned()))
    );
    assert_eq!(
        client_states,
        vec![
            RtmpConnectionState::Handshaking,
            RtmpConnectionState::Connecting,
            RtmpConnectionState::Connected,
            RtmpConnectionState::MediaStreamCreated,
            RtmpConnectionState::PublishPending,
            RtmpConnectionState::Publishing,
        ]
    );
    assert_eq!(
        server_states,
        vec![
            RtmpConnectionState::Handshaking,
            RtmpConnectionState::Connecting,
            RtmpConnectionState::Connected,
            RtmpConnectionState::MediaStreamCreated,
            RtmpConnectionState::PublishPending,
            RtmpConnectionState::Publishing,
        ]
    );
    assert_eq!(server.state(), RtmpConnectionState::Publishing);

    let frame = dummy_video_frame();
    client.send_video(frame.clone()).expect("send_video failed");
    publish_client_to_server(&mut client, &mut server);
    let mut received = Vec::new();
    while let Some(event) = server.next_event() {
        if let RtmpConnectionEvent::VideoReceived(f) = event {
            received.push(f);
        }
    }
    assert_eq!(received, vec![frame]);
}

#[test]
fn play_flow_reaches_playing_and_delivers_audio() {
    let mut server = RtmpServerConnection::new();
    let mut client = RtmpPlayClientConnection::new("rtmp://localhost:1935/app/instance", "movie");

    let mut requested = None;
    let mut client_playing = false;
    for _ in 0..20 {
        play_client_to_server(&mut client, &mut server);
        while let Some(event) = server.next_event() {
            if let RtmpConnectionEvent::PlayRequested { app, stream_name, .. } = event {
                requested = Some((app, stream_name));
                server.accept().expect("accept failed");
            }
        }
        server_to_play_client(&mut server, &mut client);
        while let Some(event) = client.next_event() {
            if event == RtmpConnectionEvent::StateChanged(RtmpConnectionState::Playing) {
                client_playing = true;
            }
        }
    }
    assert_eq!(requested, Some(("app".to_owned(), "movie".to_owned())));
    assert!(client_playing);
    assert_eq!(server.state(), RtmpConnectionState::Playing);

    let frame = dummy_audio_frame();
    server.send_audio(frame.clone()).expect("send_audio failed");
    server_to_play_client(&mut server, &mut client);
    let mut received = Vec::new();
    while let Some(event) = client.next_event() {
        if let RtmpConnectionEvent::AudioReceived(f) = event {
            received.push(f);
        }
    }
    assert_eq!(received, vec![frame]);
}

#[test]
fn rejected_publish_disconnects_both_sides() {
    let mut server = RtmpServerConnection::new();
    let mut client = RtmpPublishClientConnection::new("rtmp://127.0.0.1/live", "taken");

    let mut disconnected_reason = None;
    for _ in 0..20 {
        publish_client_to_server(&mut client, &mut server);
        while let Some(event) = server.next_event() {
            if let RtmpConnectionEvent::PublishRequested { .. } = event {
                server.reject("already publishing").expect("reject failed");
            }
        }
        server_to_publish_client(&mut server, &mut client);
        while let Some(event) = client.next_event() {
            if let RtmpConnectionEvent::DisconnectedByPeer { reason } = event {
                disconnected_reason = Some(reason);
            }
        }
    }
    assert_eq!(server.state(), RtmpConnectionState::Disconnecting);
    assert_eq!(
        disconnected_reason,
        Some("OnStatus error: NetStream.Publish.BadName - Stream name already in use.".to_owned())
    );
}

#[test]
fn accept_and_reject_outside_pending_states_are_invalid() {
    let mut server = RtmpServerConnection::new();
    assert_eq!(server.accept().unwrap_err().kind, ErrorKind::InvalidState);
    assert_eq!(server.reject("no").unwrap_err().kind, ErrorKind::InvalidState);
    assert_eq!(server.send_video(dummy_video_frame()).unwrap_err().kind, ErrorKind::InvalidState);
    assert_eq!(server.send_audio(dummy_audio_frame()).unwrap_err().kind, ErrorKind::InvalidState);
    assert_eq!(server.state(), RtmpConnectionState::Handshaking);
    assert_eq!(
        server.next_event(),
        Some(RtmpConnectionEvent::StateChanged(RtmpConnectionState::Handshaking))
    );
    assert_eq!(server.next_event(), None);
}

#[test]
fn publish_client_cannot_send_before_publishing() {
    let mut client = RtmpPublishClientConnection::new("rtmp://127.0.0.1/live", "test");
    assert_eq!(client.send_video(dummy_video_frame()).unwrap_err().kind, ErrorKind::InvalidState);
    assert_eq!(client.send_audio(dummy_audio_frame()).unwrap_err().kind, ErrorKind::InvalidState);
    // C0 and C1: the version byte and a 1536-byte packet of zeros.
    let sent = client.send_buf().to_vec();
    assert_eq!(sent.len(), 1537);
    assert_eq!(sent[0], 3);
    assert!(sent[1..].iter().all(|b| *b == 0));
}

#[test]
fn server_rejects_wrong_rtmp_version() {
    let mut server = RtmpServerConnection::new();
    let err = server.feed_recv_buf(&[6]).unwrap_err();
    assert_eq!(err.kind, ErrorKind::InvalidData);
}

#[test]
fn client_with_url_without_path_fails_to_connect() {
    let mut server = RtmpServerConnection::new();
    let mut client = RtmpPublishClientConnection::new("rtmp://127.0.0.1", "test");
    publish_client_to_server(&mut client, &mut server);
    let data = server.send_buf().to_vec();
    server.advance_send_buf(data.len());
    let err = client.feed_recv_buf(&data).unwrap_err();
    assert_eq!(err.kind, ErrorKind::InvalidData);
}

/// Runs a publish client against a server until the server has accepted the publication.
fn publishing_server() -> RtmpServerConnection {
    let mut server = RtmpServerConnection::new();
    let mut client = RtmpPublishClientConnection::new("rtmp://127.0.0.1/live", "test");
    for _ in 0..20 {
        publish_client_to_server(&mut client, &mut server);
        while let Some(event) = server.next_event() {
            if let RtmpConnectionEvent::PublishRequested { .. } = event {
                server.accept().expect("accept failed");
            }
        }
        server_to_publish_client(&mut server, &mut client);
        while client.next_event().is_some() {}
    }
    assert_eq!(server.state(), RtmpConnectionState::Publishing);
    server
}

/// The bytes of one message, as a fresh sending side writes them.
fn message_bytes(message: RtmpMessage) -> Vec<u8> {
    let mut channel = shiguredo_rtmp::rtmp_connection::RtmpMessageChannel::default();
    channel.feed_send_message(message);
    channel.send_buf().to_vec()
}

#[test]
fn ignored_messages_are_reported_with_their_debug_text() {
    let mut server = publishing_server();

    let event = RtmpUserControlEvent::StreamEof { stream_id: RtmpMessageStreamId::media() };
    let bytes = message_bytes(RtmpMessage::UserControl { header: RtmpMessageHeader::pcm(), event });
    server.feed_recv_buf(&bytes).unwrap();
    let mut details = Vec::new();
    while let Some(e) = server.next_event() {
        if let RtmpConnectionEvent::UserControlEventIgnored { name, detail } = e {
            assert_eq!(name, "StreamEof");
            details.push(detail);
        }
    }
    assert_eq!(details, vec![format!("{event:?}")]);

    let message = RtmpMessage::Data {
        header: RtmpMessageHeader { stream_id: RtmpMessageStreamId::media(), timestamp: RtmpTimestamp::from_millis(0) },
        amf_version: AmfVersion::Amf0,
        values: vec![AmfValue::Amf0(Amf0Value::String("x".to_owned()))],
    };
    let expected_name = message.message_type().debug_name().to_owned();
    let expected_detail = format!("{message:?}");
    let bytes = message_bytes(message);
    server.feed_recv_buf(&bytes).unwrap();
    let mut seen = Vec::new();
    while let Some(e) = server.next_event() {
        if let RtmpConnectionEvent::MessageIgnored { name, detail } = e {
            seen.push((name, detail));
        }
    }
    assert_eq!(seen, vec![(expected_name, expected_detail)]);
}
