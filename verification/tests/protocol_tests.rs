use tt_signalr_server::framing::frame_messagepack_payload;
use tt_signalr_server::handshake::serialize_handshake_request;
use tt_signalr_server::messagepack::parse_messages_messagepack;
use tt_signalr_server::parse_handshake;
use tt_signalr_server::parse_message;
use tt_signalr_server::parse_message_messagepack;
use tt_signalr_server::serialize_handshake;
use tt_signalr_server::serialize_message;
use tt_signalr_server::serialize_message_messagepack;
use tt_signalr_server::CompletionMessage;
use tt_signalr_server::HandshakeRequest;
use tt_signalr_server::HandshakeResponse;
use tt_signalr_server::HubMessage;
use tt_signalr_server::InvocationMessage;
use tt_signalr_server::JsonNumber;
use tt_signalr_server::JsonValue;
use tt_signalr_server::PingMessage;
use tt_signalr_server::Protocol;
use tt_signalr_server::SignalRError;

fn text(s: &str) -> JsonValue {
    JsonValue::String(s.to_string())
}

fn num(n: u64) -> JsonValue {
    JsonValue::Number(JsonNumber::PosInt(n))
}

fn object(entries: Vec<(&str, JsonValue)>) -> JsonValue {
    JsonValue::Object(entries.into_iter().map(|(k, v)| (k.to_string(), v)).collect())
}

#[test]
fn test_parse_handshake() {
    let data = r#"{"protocol":"json","version":1}"#;
    let req = parse_handshake(&format!("{}\u{001e}", data)).unwrap();
    assert_eq!(req.protocol, "json");
    assert_eq!(req.version, 1);
}

#[test]
fn test_parse_handshake_without_separator() {
    let data = r#"{"protocol":"json","version":1}"#;
    let req = parse_handshake(data).unwrap();
    assert_eq!(req.protocol, "json");
    assert_eq!(req.version, 1);
}

#[test]
fn test_parse_handshake_invalid_json() {
    let data = r#"{"protocol":"json""#;
    let result = parse_handshake(data);
    assert!(result.is_err());
    assert!(matches!(result.unwrap_err(), SignalRError::Json(_)));
}

#[test]
fn test_serialize_handshake() {
    let response = HandshakeResponse::success();
    let json = serialize_handshake(&response).unwrap();
    assert!(json.ends_with('\u{001e}'));
    assert!(json.contains(r#"{"error":null}"#) || json.contains(r#"{}"#));
}

#[test]
fn test_serialize_handshake_with_error() {
    let response = HandshakeResponse::error("Protocol not supported");
    let json = serialize_handshake(&response).unwrap();
    assert!(json.ends_with('\u{001e}'));
    assert!(json.contains("Protocol not supported"));
}

#[test]
fn test_handshake_response_success() {
    let response = HandshakeResponse::success();
    assert!(response.error.is_none());
}

#[test]
fn test_handshake_response_error() {
    let response = HandshakeResponse::error("test error");
    assert_eq!(response.error, Some("test error".to_string()));
}

#[test]
fn test_parse_message_invocation() {
    let data = r#"{"type":1,"invocationId":"1","target":"SendMessage","arguments":["user","hello"]}"#;
    let msg = parse_message(&format!("{}\u{001e}", data)).unwrap();

    match msg {
        HubMessage::Invocation(inv) => {
            assert_eq!(inv.invocation_id, Some("1".to_string()));
            assert_eq!(inv.target, "SendMessage");
            assert_eq!(inv.arguments.len(), 2);
        }
        _ => panic!("Expected Invocation message"),
    }
}

#[test]
fn test_parse_message_completion() {
    let data = r#"{"type":3,"invocationId":"1","result":"success"}"#;
    let msg = parse_message(&format!("{}\u{001e}", data)).unwrap();

    match msg {
        HubMessage::Completion(comp) => {
            assert_eq!(comp.invocation_id, "1");
            assert!(comp.result.is_some());
        }
        _ => panic!("Expected Completion message"),
    }
}

#[test]
fn test_parse_message_ping() {
    let data = r#"{"type":6}"#;
    let msg = parse_message(&format!("{}\u{001e}", data)).unwrap();
    assert!(matches!(msg, HubMessage::Ping(_)));
}

#[test]
fn test_parse_message_without_separator() {
    let data = r#"{"type":6}"#;
    let msg = parse_message(data).unwrap();
    assert!(matches!(msg, HubMessage::Ping(_)));
}

#[test]
fn test_parse_message_invalid_json() {
    let data = r#"{"type":1"#;
    let result = parse_message(data);
    assert!(result.is_err());
}

#[test]
fn test_serialize_message_invocation() {
    let msg = HubMessage::Invocation(InvocationMessage {
        invocation_id: Some("test".to_string()),
        target: "Method".to_string(),
        arguments: vec![text("arg1")],
        stream_ids: None,
    });

    let serialized = serialize_message(&msg).unwrap();
    assert!(serialized.ends_with('\u{001e}'));
    assert!(serialized.contains("Method"));
    assert!(serialized.contains(r#""type":1"#));
}

#[test]
fn test_serialize_message_completion() {
    let msg = HubMessage::Completion(CompletionMessage {
        invocation_id: "test".to_string(),
        result: Some(object(vec![("status", text("ok"))])),
        error: None,
    });

    let serialized = serialize_message(&msg).unwrap();
    assert!(serialized.ends_with('\u{001e}'));
    assert!(serialized.contains(r#""type":3"#));
}

#[test]
fn test_serialize_message_ping() {
    let msg = HubMessage::Ping(PingMessage {});
    let serialized = serialize_message(&msg).unwrap();
    assert!(serialized.ends_with('\u{001e}'));
    assert!(serialized.contains(r#""type":6"#));
}

#[test]
fn test_message_roundtrip() {
    let sent = HubMessage::Invocation(InvocationMessage {
        invocation_id: Some("roundtrip".to_string()),
        target: "TestMethod".to_string(),
        arguments: vec![num(1), text("test")],
        stream_ids: None,
    });

    let serialized = serialize_message(&sent).unwrap();
    let deserialized = parse_message(&serialized).unwrap();

    match deserialized {
        HubMessage::Invocation(msg) => {
            assert_eq!(msg.invocation_id, Some("roundtrip".to_string()));
            assert_eq!(msg.target, "TestMethod");
        }
        _ => panic!("Expected Invocation message"),
    }
}

#[test]
fn test_handshake_request_serialization() {
    let req = HandshakeRequest {
        protocol: "json".to_string(),
        version: 1,
    };

    let serialized = serialize_handshake_request(&req).unwrap();
    assert!(serialized.contains("json"));
    assert!(serialized.contains("1"));
}

#[test]
fn test_handshake_request_deserialization() {
    let json_str = r#"{"protocol":"json","version":1}"#;
    let req: HandshakeRequest = parse_handshake(json_str).unwrap();

    assert_eq!(req.protocol, "json");
    assert_eq!(req.version, 1);
}

#[test]
fn test_protocol_from_str() {
    assert_eq!(Protocol::parse("json"), Some(Protocol::Json));
    assert_eq!(Protocol::parse("JSON"), Some(Protocol::Json));
    assert_eq!(Protocol::parse("messagepack"), Some(Protocol::MessagePack));
    assert_eq!(Protocol::parse("MessagePack"), Some(Protocol::MessagePack));
    assert_eq!(Protocol::parse("unknown"), None);
}

#[test]
fn test_protocol_as_str() {
    assert_eq!(Protocol::Json.as_str(), "json");
    assert_eq!(Protocol::MessagePack.as_str(), "messagepack");
}

#[test]
fn test_parse_message_messagepack_invocation() {
    let body = vec![
        0x96, 0x01, 0x80, 0xa3, b'x', b'y', b'z', 0xa6, b'm', b'e', b't', b'h', b'o', b'd', 0x91,
        0x2a, 0x90,
    ];
    let serialized = frame_messagepack_payload(&body).unwrap();
    let deserialized = parse_message_messagepack(&serialized).unwrap();

    match deserialized {
        HubMessage::Invocation(inv) => {
            assert_eq!(inv.invocation_id, Some("xyz".to_string()));
            assert_eq!(inv.target, "method");
            assert_eq!(inv.arguments, vec![num(42)]);
            assert_eq!(inv.stream_ids, None);
        }
        _ => panic!("Expected Invocation message"),
    }
}

#[test]
fn test_serialize_message_messagepack_uses_binary_length_prefix() {
    let msg = HubMessage::Ping(PingMessage {});
    let serialized = serialize_message_messagepack(&msg).unwrap();
    assert_eq!(serialized, vec![0x02, 0x91, 0x06]);
}

#[test]
fn test_messagepack_roundtrip() {
    let sent = HubMessage::Completion(CompletionMessage {
        invocation_id: "test-123".to_string(),
        result: Some(object(vec![("status", text("success")), ("value", num(42))])),
        error: None,
    });

    let serialized = serialize_message_messagepack(&sent).unwrap();
    let deserialized = parse_message_messagepack(&serialized).unwrap();

    match deserialized {
        HubMessage::Completion(comp) => {
            assert_eq!(comp.invocation_id, "test-123");
            assert!(comp.result.is_some());
            assert!(comp.error.is_none());
        }
        _ => panic!("Expected Completion message"),
    }
}

#[test]
fn test_messagepack_roundtrip_mixed_arguments() {
    let expected_arguments = vec![
        num(42),
        JsonValue::Number(JsonNumber::Float(serde_json::Number::from_f64(42.5).unwrap())),
        JsonValue::Bool(true),
        JsonValue::Array(vec![text("nested"), num(7)]),
        object(vec![("name", text("value"))]),
    ];
    let sent = HubMessage::Invocation(InvocationMessage {
        invocation_id: Some("mixed".to_string()),
        target: "Send".to_string(),
        arguments: expected_arguments.clone(),
        stream_ids: Some(vec!["stream-1".to_string()]),
    });

    let serialized = serialize_message_messagepack(&sent).unwrap();
    let deserialized = parse_message_messagepack(&serialized).unwrap();

    match deserialized {
        HubMessage::Invocation(message) => {
            assert_eq!(message.invocation_id, Some("mixed".to_string()));
            assert_eq!(message.target, "Send");
            assert_eq!(message.arguments, expected_arguments);
            assert_eq!(message.stream_ids, Some(vec!["stream-1".to_string()]));
        }
        _ => panic!("Expected Invocation message"),
    }
}

#[test]
fn test_messagepack_completion_error_decoding() {
    let body = vec![
        0x95, 0x03, 0x80, 0xa3, b'x', b'y', b'z', 0x01, 0xa5, b'E', b'r', b'r', b'o', b'r',
    ];
    let serialized = frame_messagepack_payload(&body).unwrap();
    let deserialized = parse_message_messagepack(&serialized).unwrap();

    match deserialized {
        HubMessage::Completion(message) => {
            assert_eq!(message.invocation_id, "xyz");
            assert_eq!(message.result, None);
            assert_eq!(message.error, Some("Error".to_string()));
        }
        _ => panic!("Expected Completion message"),
    }
}

#[test]
fn test_messagepack_multiple_frames() {
    let ping = serialize_message_messagepack(&HubMessage::Ping(PingMessage {})).unwrap();
    let completion = serialize_message_messagepack(&HubMessage::Completion(CompletionMessage {
        invocation_id: "done".to_string(),
        result: None,
        error: None,
    }))
    .unwrap();

    let mut combined = ping;
    combined.extend(completion);

    let messages = parse_messages_messagepack(&combined).unwrap();
    assert_eq!(messages.len(), 2);
    assert!(matches!(messages[0], HubMessage::Ping(_)));
    assert!(matches!(messages[1], HubMessage::Completion(_)));
}

#[test]
fn test_parse_message_messagepack_rejects_multiple_frames() {
    let ping = serialize_message_messagepack(&HubMessage::Ping(PingMessage {})).unwrap();
    let mut combined = ping.clone();
    combined.extend(ping);

    let result = parse_message_messagepack(&combined);
    assert!(matches!(result, Err(SignalRError::Protocol(_))));
}

#[test]
fn test_parse_message_messagepack_rejects_unframed_payload() {
    let result = parse_message_messagepack(&[0x91, 0x06]);
    assert!(matches!(result, Err(SignalRError::Protocol(_))));
}

#[test]
fn test_messagepack_incomplete_frame_is_error() {
    let result = parse_message_messagepack(&[0x03, 0x91, 0x06]);
    assert!(matches!(result, Err(SignalRError::Protocol(_))));
}

#[test]
fn test_messagepack_binary_value_maps_to_json_array() {
    let value = rmpv::Value::Array(vec![
        rmpv::Value::from(2),
        rmpv::Value::Map(Vec::new()),
        rmpv::Value::from("stream"),
        rmpv::Value::Binary(vec![1, 2, 3]),
    ]);
    let mut body = Vec::new();
    rmpv::encode::write_value(&mut body, &value).unwrap();
    let framed = frame_messagepack_payload(&body).unwrap();

    let deserialized = parse_message_messagepack(&framed).unwrap();
    match deserialized {
        HubMessage::StreamItem(message) => {
            assert_eq!(message.item, JsonValue::Array(vec![num(1), num(2), num(3)]));
        }
        _ => panic!("Expected StreamItem message"),
    }
}
