use shell::text::decimal_string;
use shell::{AppConfig, ShellError};

#[test]
fn default_config_values() {
    let c = AppConfig::default_config();
    assert_eq!(c.server.name, "shell-server");
    assert_eq!(c.server.log_level, "debug");
    assert!(c.tcp.enabled);
    assert_eq!(c.tcp.addr, "0.0.0.0:9527");
    assert_eq!(c.tcp.max_connections, 10000);
    assert_eq!(c.tcp.read_buffer_size, 8192);
    assert_eq!(c.tcp.write_buffer_size, 8192);
    assert!(c.websocket.enabled);
    assert_eq!(c.websocket.addr, "0.0.0.0:9528");
    assert_eq!(c.websocket.path, "/ws");
    assert_eq!(c.websocket.max_connections, 10000);
    assert_eq!(c.timer.tick_interval_ms, 100);
    assert_eq!(c.timer.max_timers, 100000);
}

#[test]
fn session_limit_adds_both_gateways() {
    let mut c = AppConfig::default_config();
    assert_eq!(c.session_limit(), Some(20000));
    c.tcp.max_connections = usize::MAX;
    c.websocket.max_connections = 1;
    assert_eq!(c.session_limit(), None);
}

#[test]
fn decimal_text() {
    assert_eq!(decimal_string(0), "0");
    assert_eq!(decimal_string(9), "9");
    assert_eq!(decimal_string(10), "10");
    assert_eq!(decimal_string(65536), "65536");
    assert_eq!(decimal_string(u64::MAX), "18446744073709551615");
}

#[test]
fn error_messages() {
    assert_eq!(ShellError::ActorNotFound("x".into()).to_string(), "Actor not found: x");
    assert_eq!(ShellError::Serialization("bad".into()).to_string(), "Serialization error: bad");
    assert_eq!(ShellError::SessionNotFound("3".into()).to_string(), "Session not found: 3");
    assert_eq!(ShellError::Router("r".into()).to_string(), "Router error: r");
    assert_eq!(ShellError::Timer("t".into()).to_string(), "Timer error: t");
    assert_eq!(ShellError::Codec("c".into()).to_string(), "Codec error: c");
    assert_eq!(ShellError::ConnectionLimit.to_string(), "Connection limit reached");
    assert_eq!(ShellError::Protocol("p".into()).to_string(), "Protocol error: p");
    assert_eq!(ShellError::Config("k".into()).to_string(), "Config error: k");
    assert_eq!(ShellError::ChannelClosed.to_string(), "Channel closed");
    assert_eq!(ShellError::Custom("free text".into()).to_string(), "free text");
}

#[test]
fn io_error_converts_and_prints() {
    let io = std::io::Error::new(std::io::ErrorKind::Other, "disk gone");
    let e: ShellError = io.into();
    assert!(matches!(e, ShellError::Io(_)));
    assert_eq!(e.to_string(), "IO error: disk gone");
}

#[test]
fn serialization_errors_convert() {
    let bad: Result<u32, bincode::Error> = bincode::deserialize(&[1u8]);
    let e: ShellError = bad.unwrap_err().into();
    match e {
        ShellError::Serialization(text) => assert!(!text.is_empty()),
        _ => panic!("expected a serialization error"),
    }
    let bad_json: Result<u32, serde_json::Error> = serde_json::from_str("nope");
    let e: ShellError = bad_json.unwrap_err().into();
    match e {
        ShellError::Serialization(text) => assert!(text.contains("expected")),
        _ => panic!("expected a serialization error"),
    }
}

#[test]
fn buffer_length_is_read_through() {
    let b = bytes::BytesMut::from(&b"abc"[..]);
    assert_eq!(shell::buffers::bytes_mut_len(&b), 3);
}
