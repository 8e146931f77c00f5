use shiguredo_rtmp::flv::decode_audio_frame;
use shiguredo_rtmp::rtmp_handshake::RtmpServerHandshake;
use shiguredo_rtmp::{Amf0Value, AvcSequenceHeader, RtmpTimestamp, RtmpUrl};

#[test]
fn url_errors_name_what_is_wrong() {
    assert_eq!(
        RtmpUrl::parse("http://host/app/stream").unwrap_err().reason,
        "invalid scheme 'http', expected 'rtmp' or 'rtmps'"
    );
    assert_eq!(RtmpUrl::parse("rtmp:/host").unwrap_err().reason, "missing '://' in RTMP URL");
    assert_eq!(RtmpUrl::parse("rtmp://host").unwrap_err().reason, "missing '/' separator for app name");
    assert_eq!(RtmpUrl::parse("rtmp:///app/s").unwrap_err().reason, "host cannot be empty");
    assert_eq!(
        RtmpUrl::parse("rtmp://host:99999/app/s").unwrap_err().reason,
        "invalid port number '99999': number too large to fit in target type"
    );
    assert_eq!(RtmpUrl::parse("rtmp://host:/app/s").unwrap_err().reason, "invalid port number '': cannot parse integer from empty string");
    assert_eq!(RtmpUrl::parse("rtmp://[::1]x/app/s").unwrap_err().reason, "invalid format after IPv6 address, expected ':' before port");
    assert_eq!(RtmpUrl::parse("rtmp://[::1/app/s").unwrap_err().reason, "invalid IPv6 address format, missing ']'");
    assert_eq!(RtmpUrl::parse("rtmp://a:b/app/s").unwrap_err().reason, "invalid host:port format");
}

#[test]
fn decoder_errors_carry_the_offending_value() {
    assert_eq!(Amf0Value::decode(&[0x07, 0x00, 0x05]).unwrap_err().reason, "reference index out of range: 5");
    assert_eq!(Amf0Value::decode(&[0x0D]).unwrap_err().reason, "unsupported AMF0 marker 13");
    assert_eq!(Amf0Value::decode(&[0x20]).unwrap_err().reason, "unexpected AMF0 marker 32");
    assert_eq!(
        decode_audio_frame(&[0x90, 0], RtmpTimestamp::from_millis(0)).unwrap_err().reason,
        "Invalid audio format: 9"
    );
    let mut h = RtmpServerHandshake::new();
    assert_eq!(h.feed_recv_buf(&[6]).unwrap_err().reason, "invalid RTMP version: expected 3, got 6");
}

#[test]
fn avc_header_errors_carry_the_offending_value() {
    assert_eq!(
        AvcSequenceHeader::from_bytes(&[2, 0, 0, 0, 0, 0xE1, 0]).unwrap_err().reason,
        "unsupported AVC configuration version: 2 (expected 1)"
    );
    assert_eq!(
        AvcSequenceHeader::from_bytes(&[1, 0, 0, 0, 0, 0xE1, 0]).unwrap_err().reason,
        "incomplete SPS length field at index 0: need 2 bytes, have 1"
    );
    assert_eq!(
        AvcSequenceHeader::from_bytes(&[1, 0, 0, 0, 0, 0xE1, 0, 3, 9]).unwrap_err().reason,
        "incomplete SPS data at index 0: need 3 bytes, have 1"
    );
}
