use core::str::FromStr;

use shiguredo_rtmp::RtmpUrl;

#[test]
fn test_basic_rtmp_url() {
    let url = RtmpUrl::from_str("rtmp://example.com:1935/live/stream").unwrap();
    assert_eq!(url.host, "example.com");
    assert_eq!(url.port, 1935);
    assert_eq!(url.app, "live");
    assert_eq!(url.stream_name, "stream");
    assert!(!url.tls);
}

#[test]
fn test_rtmps_url() {
    let url = RtmpUrl::from_str("rtmps://example.com:443/live/stream").unwrap();
    assert_eq!(url.host, "example.com");
    assert_eq!(url.port, 443);
    assert_eq!(url.app, "live");
    assert_eq!(url.stream_name, "stream");
    assert!(url.tls);
}

#[test]
fn test_default_port_rtmp() {
    let url = RtmpUrl::from_str("rtmp://example.com/live/stream").unwrap();
    assert_eq!(url.port, 1935);
}

#[test]
fn test_default_port_rtmps() {
    let url = RtmpUrl::from_str("rtmps://example.com/live/stream").unwrap();
    assert_eq!(url.port, 443);
}

#[test]
fn test_nested_app_path() {
    let url = RtmpUrl::from_str("rtmp://example.com/app/path/stream").unwrap();
    assert_eq!(url.app, "app/path");
    assert_eq!(url.stream_name, "stream");
}

#[test]
fn test_display() {
    let url = RtmpUrl {
        host: "example.com".to_owned(),
        port: 1935,
        app: "live".to_owned(),
        stream_name: "stream".to_owned(),
        tls: false,
    };
    assert_eq!(url.to_string(), "rtmp://example.com:1935/live/stream");
}

#[test]
fn test_display_rtmps() {
    let url = RtmpUrl {
        host: "example.com".to_owned(),
        port: 443,
        app: "live".to_owned(),
        stream_name: "stream".to_owned(),
        tls: true,
    };
    assert_eq!(url.to_string(), "rtmps://example.com:443/live/stream");
}

#[test]
fn test_round_trip() {
    let original = "rtmp://example.com:1935/live/stream";
    let url = RtmpUrl::from_str(original).unwrap();
    assert_eq!(url.to_string(), original);
}

#[test]
fn test_invalid_scheme() {
    let result = RtmpUrl::from_str("http://example.com/live/stream");
    assert!(result.is_err());
}

#[test]
fn test_missing_scheme_separator() {
    let result = RtmpUrl::from_str("rtmp example.com/live/stream");
    assert!(result.is_err());
}

#[test]
fn test_missing_path_separator() {
    let result = RtmpUrl::from_str("rtmp://example.com");
    assert!(result.is_err());
}

#[test]
fn test_empty_host() {
    let result = RtmpUrl::from_str("rtmp://:1935/live/stream");
    assert!(result.is_err());
}

#[test]
fn test_empty_app() {
    let result = RtmpUrl::from_str("rtmp://example.com//stream");
    assert!(result.is_err());
}

#[test]
fn test_empty_stream_name() {
    let result = RtmpUrl::from_str("rtmp://example.com/live/");
    assert!(result.is_err());
}

#[test]
fn test_invalid_port() {
    let result = RtmpUrl::from_str("rtmp://example.com:invalid/live/stream");
    assert!(result.is_err());
}

#[test]
fn test_missing_stream_name() {
    let result = RtmpUrl::from_str("rtmp://example.com/live");
    assert!(result.is_err());
}

#[test]
fn test_ipv4_address() {
    let url = RtmpUrl::from_str("rtmp://192.168.1.1:1935/live/stream").unwrap();
    assert_eq!(url.host, "192.168.1.1");
}

#[test]
fn test_clone_and_equality() {
    let url1 = RtmpUrl::from_str("rtmp://example.com/live/stream").unwrap();
    let url2 = url1.clone();
    assert_eq!(url1, url2);
}

// IPv6 hosts
#[test]
fn test_ipv6_address_with_port() {
    let url = RtmpUrl::from_str("rtmp://[::1]:1935/live/stream").unwrap();
    assert_eq!(url.host, "[::1]");
    assert_eq!(url.port, 1935);
    assert_eq!(url.app, "live");
    assert_eq!(url.stream_name, "stream");
}

#[test]
fn test_ipv6_address_full() {
    let url = RtmpUrl::from_str("rtmp://[2001:db8::1]:1935/live/stream").unwrap();
    assert_eq!(url.host, "[2001:db8::1]");
    assert_eq!(url.port, 1935);
}

#[test]
fn test_ipv6_address_default_port_rtmp() {
    let url = RtmpUrl::from_str("rtmp://[::1]/live/stream").unwrap();
    assert_eq!(url.host, "[::1]");
    assert_eq!(url.port, 1935);
}

#[test]
fn test_ipv6_address_default_port_rtmps() {
    let url = RtmpUrl::from_str("rtmps://[::1]/live/stream").unwrap();
    assert_eq!(url.host, "[::1]");
    assert_eq!(url.port, 443);
}

#[test]
fn test_ipv6_display() {
    let url = RtmpUrl {
        host: "[::1]".to_owned(),
        port: 1935,
        app: "live".to_owned(),
        stream_name: "stream".to_owned(),
        tls: false,
    };
    assert_eq!(url.to_string(), "rtmp://[::1]:1935/live/stream");
}

#[test]
fn test_ipv6_display_rtmps() {
    let url = RtmpUrl {
        host: "[2001:db8::1]".to_owned(),
        port: 443,
        app: "app".to_owned(),
        stream_name: "stream".to_owned(),
        tls: true,
    };
    assert_eq!(url.to_string(), "rtmps://[2001:db8::1]:443/app/stream");
}

#[test]
fn test_ipv6_round_trip() {
    let original = "rtmp://[::1]:1935/live/stream";
    let url = RtmpUrl::from_str(original).unwrap();
    assert_eq!(url.to_string(), original);
}

#[test]
fn test_invalid_ipv6_address() {
    // The IPv6 address itself is not checked, so this parses.
    let result = RtmpUrl::from_str("rtmp://[::gggg]:1935/live/stream");
    assert!(result.is_ok());
}

#[test]
fn test_ipv6_missing_closing_bracket() {
    let result = RtmpUrl::from_str("rtmp://[::1:1935/live/stream");
    assert!(result.is_err());
}
