use shiguredo_rtmp::rtmp_handshake::{RtmpClientHandshake, RtmpServerHandshake};
use shiguredo_rtmp::ErrorKind;

#[test]
fn client_and_server_complete_the_handshake() {
    let mut client = RtmpClientHandshake::new();
    let mut server = RtmpServerHandshake::new();

    // C0 + C1
    let c0c1 = client.send_buf().to_vec();
    assert_eq!(c0c1.len(), 1 + 1536);
    assert_eq!(c0c1[0], 3);
    client.advance_send_buf(c0c1.len());
    server.feed_recv_buf(&c0c1).unwrap();
    assert!(!server.is_recv_complete());

    // S0 + S1 + S2, where S2 echoes C1
    let s0s1s2 = server.send_buf().to_vec();
    assert_eq!(s0s1s2.len(), 1 + 1536 + 1536);
    assert_eq!(s0s1s2[0], 3);
    assert_eq!(&s0s1s2[1537..], &c0c1[1..]);
    server.advance_send_buf(s0s1s2.len());
    client.feed_recv_buf(&s0s1s2).unwrap();
    assert!(client.is_recv_complete());
    assert!(!client.is_send_complete());

    // C2 echoes S1
    let c2 = client.send_buf().to_vec();
    assert_eq!(c2, s0s1s2[1..1537].to_vec());
    client.advance_send_buf(c2.len());
    assert!(client.is_send_complete());
    server.feed_recv_buf(&c2).unwrap();
    assert!(server.is_recv_complete());
    assert!(server.is_send_complete());
    assert!(server.take_recv_buf().is_empty());
}

#[test]
fn handshake_bytes_may_come_one_by_one() {
    let mut whole = RtmpServerHandshake::new();
    let mut pieces = RtmpServerHandshake::new();
    let client = RtmpClientHandshake::new();
    let mut input = client.send_buf().to_vec();
    input.extend_from_slice(&[0u8; 1536]);
    input.extend_from_slice(&[7, 8, 9]);

    whole.feed_recv_buf(&input).unwrap();
    for b in &input {
        pieces.feed_recv_buf(&[*b]).unwrap();
    }
    assert_eq!(whole.send_buf(), pieces.send_buf());
    assert!(whole.is_recv_complete());
    assert!(pieces.is_recv_complete());
    assert_eq!(whole.take_recv_buf(), vec![7, 8, 9]);
    assert_eq!(pieces.take_recv_buf(), vec![7, 8, 9]);
}

#[test]
fn handshake_rejects_a_wrong_version() {
    let mut server = RtmpServerHandshake::new();
    assert_eq!(server.feed_recv_buf(&[4]).unwrap_err().kind, ErrorKind::InvalidData);
    let mut client = RtmpClientHandshake::new();
    assert_eq!(client.feed_recv_buf(&[5]).unwrap_err().kind, ErrorKind::InvalidData);
}

#[test]
fn handshake_rejects_a_wrong_echo() {
    let mut server = RtmpServerHandshake::new();
    let client = RtmpClientHandshake::new();
    server.feed_recv_buf(client.send_buf()).unwrap();
    let err = server.feed_recv_buf(&[1u8; 1536]).unwrap_err();
    assert_eq!(err.kind, ErrorKind::InvalidData);

    let mut client = RtmpClientHandshake::new();
    let mut reply = vec![3u8];
    reply.extend_from_slice(&[0u8; 1536]);
    reply.extend_from_slice(&[2u8; 1536]);
    assert_eq!(client.feed_recv_buf(&reply).unwrap_err().kind, ErrorKind::InvalidData);
}

#[test]
fn advancing_past_the_end_of_the_handshake_empties_it() {
    let mut client = RtmpClientHandshake::new();
    client.advance_send_buf(10);
    assert_eq!(client.send_buf().len(), 1537 - 10);
    client.advance_send_buf(100_000);
    assert!(client.send_buf().is_empty());
}
