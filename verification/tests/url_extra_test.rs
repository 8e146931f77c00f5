use shiguredo_rtmp::{ErrorKind, RtmpUrl};

#[test]
fn parse_with_stream_name_keeps_the_whole_path_as_app() {
    let url = RtmpUrl::parse_with_stream_name("rtmps://example.com/app/inst", "s1").unwrap();
    assert_eq!(url.host, "example.com");
    assert_eq!(url.port, 443);
    assert_eq!(url.app, "app/inst");
    assert_eq!(url.stream_name, "s1");
    assert!(url.tls);
    assert_eq!(RtmpUrl::parse_with_stream_name("rtmp://example.com/", "s").unwrap_err().kind, ErrorKind::InvalidInput);
    assert_eq!(RtmpUrl::parse_with_stream_name("rtmp://example.com/app", "").unwrap_err().kind, ErrorKind::InvalidInput);
}

#[test]
fn ports() {
    assert_eq!(RtmpUrl::parse("rtmp://h:65535/a/s").unwrap().port, 65535);
    assert_eq!(RtmpUrl::parse("rtmp://h:0001935/a/s").unwrap().port, 1935);
    assert_eq!(RtmpUrl::parse("rtmp://h:65536/a/s").unwrap_err().kind, ErrorKind::InvalidInput);
    assert_eq!(RtmpUrl::parse("rtmp://h:/a/s").unwrap_err().kind, ErrorKind::InvalidInput);
    assert_eq!(RtmpUrl::parse("rtmp://h:+80/a/s").unwrap_err().kind, ErrorKind::InvalidInput);
    assert_eq!(RtmpUrl::parse("rtmp://[::1]:+80/a/s").unwrap().port, 80);
    assert_eq!(RtmpUrl::parse("rtmp://[::1]x/a/s").unwrap_err().kind, ErrorKind::InvalidInput);
}

#[test]
fn written_urls_read_back() {
    for text in [
        "rtmp://example.com:1935/live/stream",
        "rtmps://[2001:db8::1]:443/app/x/y",
        "rtmp://a:b:7/app/s",
        "rtmp://h:0/ä/ü",
    ] {
        let url = RtmpUrl::parse(text).unwrap();
        assert_eq!(url.to_string(), text);
        assert_eq!(RtmpUrl::parse(&url.to_string()).unwrap(), url);
    }
}
