use tt_signalr_server::SignalRError;

#[test]
fn test_protocol_error() {
    let error = SignalRError::Protocol("test error".to_string());
    assert_eq!(error.to_string(), "Protocol error: test error");
}

#[test]
fn test_invalid_configuration_error() {
    let error = SignalRError::InvalidConfiguration("capacity must be positive".to_string());
    assert_eq!(error.to_string(), "Invalid configuration: capacity must be positive");
}

#[test]
fn test_connection_closed_error() {
    let error = SignalRError::ConnectionClosed;
    assert_eq!(error.to_string(), "Connection closed");
}

#[test]
fn test_invalid_handshake_error() {
    let error = SignalRError::InvalidHandshake("missing field".to_string());
    assert_eq!(error.to_string(), "Invalid handshake: missing field");
}

#[test]
fn test_unsupported_protocol_error() {
    let error = SignalRError::UnsupportedProtocol("msgpack".to_string());
    assert_eq!(error.to_string(), "Unsupported protocol: msgpack");
}

#[test]
fn test_json_error_conversion() {
    let json_error = serde_json::from_str::<serde_json::Value>("invalid json");
    assert!(json_error.is_err());

    let signalr_error: SignalRError = json_error.unwrap_err().into();
    assert!(matches!(signalr_error, SignalRError::Json(_)));
}

#[test]
fn test_io_error_conversion() {
    let io_error = std::io::Error::other("test io error");
    let signalr_error: SignalRError = io_error.into();
    assert!(matches!(signalr_error, SignalRError::Io(_)));
}

#[test]
fn json_error_text_carries_serde_message() {
    let inner = serde_json::from_str::<serde_json::Value>("{").unwrap_err();
    let expected = format!("JSON error: {}", inner);
    let error = SignalRError::Json(inner);
    assert_eq!(error.to_string(), expected);
}

#[test]
fn io_error_text_carries_io_message() {
    let error: SignalRError = std::io::Error::other("disk gone").into();
    assert_eq!(error.to_string(), "IO error: disk gone");
}
