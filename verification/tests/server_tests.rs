use tt_signalr_server::handshake::validate_handshake;
use tt_signalr_server::session::serialize_outgoing_message;
use tt_signalr_server::session::SerializedHubMessage;
use tt_signalr_server::HandshakeRequest;
use tt_signalr_server::HubMessage;
use tt_signalr_server::PingMessage;
use tt_signalr_server::Protocol;
use tt_signalr_server::SignalRError;

#[test]
fn test_validate_handshake_accepts_supported_protocols() {
    let json_handshake = HandshakeRequest {
        protocol: "json".to_string(),
        version: 1,
    };
    let messagepack_handshake = HandshakeRequest {
        protocol: "messagepack".to_string(),
        version: 1,
    };

    assert_eq!(validate_handshake(&json_handshake).unwrap(), Protocol::Json);
    assert_eq!(
        validate_handshake(&messagepack_handshake).unwrap(),
        Protocol::MessagePack
    );
}

#[test]
fn test_validate_handshake_rejects_unsupported_version() {
    let handshake = HandshakeRequest {
        protocol: "json".to_string(),
        version: 2,
    };

    let result = validate_handshake(&handshake);
    assert!(matches!(result, Err(SignalRError::InvalidHandshake(_))));
}

#[test]
fn test_validate_handshake_rejects_unsupported_protocol() {
    let handshake = HandshakeRequest {
        protocol: "xml".to_string(),
        version: 1,
    };

    let result = validate_handshake(&handshake);
    assert!(matches!(result, Err(SignalRError::UnsupportedProtocol(_))));
}

#[test]
fn test_serialize_outgoing_message_json() {
    let serialized =
        serialize_outgoing_message(Protocol::Json, &HubMessage::Ping(PingMessage {})).unwrap();

    match serialized {
        SerializedHubMessage::Text(text) => {
            assert_eq!(text, "{\"type\":6}\u{001e}");
        }
        SerializedHubMessage::Binary(_) => panic!("Expected text message"),
    }
}

#[test]
fn test_serialize_outgoing_message_messagepack() {
    let serialized =
        serialize_outgoing_message(Protocol::MessagePack, &HubMessage::Ping(PingMessage {}))
            .unwrap();

    match serialized {
        SerializedHubMessage::Binary(bytes) => {
            assert_eq!(bytes, vec![0x02, 0x91, 0x06]);
        }
        SerializedHubMessage::Text(_) => panic!("Expected binary message"),
    }
}

#[test]
fn unsupported_version_error_names_the_version() {
    let handshake = HandshakeRequest {
        protocol: "json".to_string(),
        version: -3,
    };
    match validate_handshake(&handshake) {
        Err(SignalRError::InvalidHandshake(text)) => {
            assert_eq!(text, "Unsupported protocol version: -3")
        }
        _ => panic!("Expected invalid handshake"),
    }
}

#[test]
fn unsupported_protocol_error_keeps_the_name() {
    let handshake = HandshakeRequest {
        protocol: "Xml".to_string(),
        version: 1,
    };
    match validate_handshake(&handshake) {
        Err(SignalRError::UnsupportedProtocol(name)) => assert_eq!(name, "Xml"),
        _ => panic!("Expected unsupported protocol"),
    }
}

#[test]
fn protocol_names_are_matched_after_lowercasing() {
    let handshake = HandshakeRequest {
        protocol: "JsOn".to_string(),
        version: 1,
    };
    assert_eq!(validate_handshake(&handshake).unwrap(), Protocol::Json);
}
