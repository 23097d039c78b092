use tt_signalr_server::json::parse_message_body;
use tt_signalr_server::json::serialize_message_body;
use tt_signalr_server::parse_message;
use tt_signalr_server::serialize_message;
use tt_signalr_server::CancelInvocationMessage;
use tt_signalr_server::CloseMessage;
use tt_signalr_server::CompletionMessage;
use tt_signalr_server::HubMessage;
use tt_signalr_server::InvocationMessage;
use tt_signalr_server::JsonNumber;
use tt_signalr_server::JsonValue;
use tt_signalr_server::MessageType;
use tt_signalr_server::PingMessage;
use tt_signalr_server::StreamInvocationMessage;
use tt_signalr_server::StreamItemMessage;

fn text(s: &str) -> JsonValue {
    JsonValue::String(s.to_string())
}

fn num(n: u64) -> JsonValue {
    JsonValue::Number(JsonNumber::PosInt(n))
}

fn object(entries: Vec<(&str, JsonValue)>) -> JsonValue {
    JsonValue::Object(entries.into_iter().map(|(k, v)| (k.to_string(), v)).collect())
}

#[test]
fn test_invocation_message_serialization() {
    let msg = InvocationMessage {
        invocation_id: Some("1".to_string()),
        target: "SendMessage".to_string(),
        arguments: vec![text("user"), text("hello")],
        stream_ids: None,
    };

    let serialized = serialize_message_body(&HubMessage::Invocation(msg)).unwrap();
    assert!(serialized.contains("SendMessage"));
    assert!(serialized.contains("invocationId"));
}

#[test]
fn test_invocation_message_deserialization() {
    let json_str = r#"{"invocationId":"1","target":"SendMessage","arguments":["user","hello"]}"#;
    let msg = match parse_message_body(MessageType::Invocation, json_str).unwrap() {
        HubMessage::Invocation(msg) => msg,
        _ => panic!("Expected Invocation message"),
    };

    assert_eq!(msg.invocation_id, Some("1".to_string()));
    assert_eq!(msg.target, "SendMessage");
    assert_eq!(msg.arguments.len(), 2);
}

#[test]
fn test_invocation_message_without_id() {
    let msg = InvocationMessage {
        invocation_id: None,
        target: "Notify".to_string(),
        arguments: vec![text("notification")],
        stream_ids: None,
    };

    let serialized = serialize_message_body(&HubMessage::Invocation(msg)).unwrap();
    assert!(!serialized.contains("invocationId"));
}

#[test]
fn test_completion_message_with_result() {
    let msg = CompletionMessage {
        invocation_id: "123".to_string(),
        result: Some(object(vec![("status", text("success"))])),
        error: None,
    };

    let serialized = serialize_message_body(&HubMessage::Completion(msg)).unwrap();
    assert!(serialized.contains("123"));
    assert!(serialized.contains("success"));
}

#[test]
fn test_completion_message_with_error() {
    let msg = CompletionMessage {
        invocation_id: "123".to_string(),
        result: None,
        error: Some("Operation failed".to_string()),
    };

    let serialized = serialize_message_body(&HubMessage::Completion(msg)).unwrap();
    assert!(serialized.contains("Operation failed"));
}

#[test]
fn test_ping_message() {
    let serialized = serialize_message_body(&HubMessage::Ping(PingMessage {})).unwrap();
    assert_eq!(serialized, "{}");
}

#[test]
fn test_close_message_with_error() {
    let msg = CloseMessage {
        error: Some("Server shutting down".to_string()),
        allow_reconnect: Some(true),
    };

    let serialized = serialize_message_body(&HubMessage::Close(msg)).unwrap();
    assert!(serialized.contains("Server shutting down"));
}

#[test]
fn test_close_message_without_error() {
    let msg = CloseMessage {
        error: None,
        allow_reconnect: None,
    };

    let serialized = serialize_message_body(&HubMessage::Close(msg)).unwrap();
    assert!(!serialized.contains("error") || serialized == "{}");
}

#[test]
fn test_hub_message_invocation() {
    let inv = InvocationMessage {
        invocation_id: Some("1".to_string()),
        target: "Test".to_string(),
        arguments: vec![],
        stream_ids: None,
    };
    let msg = HubMessage::Invocation(inv);

    let json = serialize_message(&msg).unwrap();
    assert!(json.contains(r#""type":1"#));
}

#[test]
fn test_hub_message_completion() {
    let comp = CompletionMessage {
        invocation_id: "2".to_string(),
        result: Some(text("ok")),
        error: None,
    };
    let msg = HubMessage::Completion(comp);

    let json = serialize_message(&msg).unwrap();
    assert!(json.contains(r#""type":3"#));
}

#[test]
fn test_hub_message_ping() {
    let msg = HubMessage::Ping(PingMessage {});
    let json = serialize_message(&msg).unwrap();
    assert!(json.contains(r#""type":6"#));
}

#[test]
fn test_hub_message_close() {
    let msg = HubMessage::Close(CloseMessage {
        error: None,
        allow_reconnect: None,
    });
    let json = serialize_message(&msg).unwrap();
    assert!(json.contains(r#""type":7"#));
}

#[test]
fn test_hub_message_invocation_id_extraction() {
    let msg = HubMessage::Invocation(InvocationMessage {
        invocation_id: Some("test-id".to_string()),
        target: "Test".to_string(),
        arguments: vec![],
        stream_ids: None,
    });

    assert_eq!(msg.invocation_id(), Some("test-id"));
}

#[test]
fn test_hub_message_invocation_id_none() {
    let msg = HubMessage::Ping(PingMessage {});
    assert_eq!(msg.invocation_id(), None);
}

#[test]
fn test_stream_item_message() {
    let msg = StreamItemMessage {
        invocation_id: "stream-1".to_string(),
        item: object(vec![("data", text("chunk"))]),
    };

    let serialized = serialize_message_body(&HubMessage::StreamItem(msg)).unwrap();
    assert!(serialized.contains("stream-1"));
    assert!(serialized.contains("chunk"));
}

#[test]
fn test_stream_invocation_message() {
    let msg = StreamInvocationMessage {
        invocation_id: "stream-inv-1".to_string(),
        target: "StreamData".to_string(),
        arguments: vec![num(100)],
        stream_ids: Some(vec!["s1".to_string()]),
    };

    let serialized = serialize_message_body(&HubMessage::StreamInvocation(msg)).unwrap();
    assert!(serialized.contains("stream-inv-1"));
    assert!(serialized.contains("StreamData"));
}

#[test]
fn test_cancel_invocation_message() {
    let msg = CancelInvocationMessage {
        invocation_id: "cancel-1".to_string(),
    };

    let serialized = serialize_message_body(&HubMessage::CancelInvocation(msg)).unwrap();
    assert!(serialized.contains("cancel-1"));
}

#[test]
fn test_hub_message_roundtrip() {
    let sent = HubMessage::Invocation(InvocationMessage {
        invocation_id: Some("roundtrip".to_string()),
        target: "TestMethod".to_string(),
        arguments: vec![num(42), text("test")],
        stream_ids: None,
    });

    let serialized = serialize_message(&sent).unwrap();
    let deserialized = parse_message(&serialized).unwrap();

    match deserialized {
        HubMessage::Invocation(msg) => {
            assert_eq!(msg.invocation_id, Some("roundtrip".to_string()));
            assert_eq!(msg.target, "TestMethod");
            assert_eq!(msg.arguments.len(), 2);
        }
        _ => panic!("Expected Invocation message"),
    }
}

#[test]
fn test_message_type_values() {
    assert_eq!(MessageType::Invocation.value(), 1);
    assert_eq!(MessageType::StreamItem.value(), 2);
    assert_eq!(MessageType::Completion.value(), 3);
    assert_eq!(MessageType::StreamInvocation.value(), 4);
    assert_eq!(MessageType::CancelInvocation.value(), 5);
    assert_eq!(MessageType::Ping.value(), 6);
    assert_eq!(MessageType::Close.value(), 7);
}

#[test]
fn message_body_field_order_follows_declaration() {
    let msg = HubMessage::Completion(CompletionMessage {
        invocation_id: "c".to_string(),
        result: Some(num(1)),
        error: Some("bad".to_string()),
    });
    assert_eq!(
        serialize_message_body(&msg).unwrap(),
        r#"{"invocationId":"c","result":1,"error":"bad"}"#
    );
}

#[test]
fn hub_message_completion_writes_error_before_result() {
    let msg = HubMessage::Completion(CompletionMessage {
        invocation_id: "c".to_string(),
        result: Some(num(1)),
        error: Some("bad".to_string()),
    });
    assert_eq!(
        serialize_message(&msg).unwrap(),
        "{\"type\":3,\"invocationId\":\"c\",\"error\":\"bad\",\"result\":1}\u{1e}"
    );
}

#[test]
fn message_body_rejects_missing_target() {
    let result = parse_message_body(MessageType::Invocation, r#"{"invocationId":"1"}"#);
    assert!(matches!(result, Err(tt_signalr_server::SignalRError::Json(_))));
}

#[test]
fn json_value_clone_is_equal() {
    let v = object(vec![("a", JsonValue::Array(vec![num(1), JsonValue::Null, JsonValue::Bool(true)]))]);
    assert_eq!(v.clone(), v);
}
