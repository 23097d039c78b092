use tt_signalr_server::framing::frame_messagepack_payload;
use tt_signalr_server::framing::read_varint_length;
use tt_signalr_server::framing::split_messagepack_frames;
use tt_signalr_server::framing::write_varint_length;
use tt_signalr_server::json::hub_message_from_json;
use tt_signalr_server::json::message_to_json_value;
use tt_signalr_server::messagepack::parse_messages_messagepack;
use tt_signalr_server::parse_message;
use tt_signalr_server::parse_message_messagepack;
use tt_signalr_server::serialize_message;
use tt_signalr_server::serialize_message_messagepack;
use tt_signalr_server::value::json_to_messagepack_value;
use tt_signalr_server::value::messagepack_to_json_value;
use tt_signalr_server::CancelInvocationMessage;
use tt_signalr_server::CloseMessage;
use tt_signalr_server::CompletionMessage;
use tt_signalr_server::HubMessage;
use tt_signalr_server::InvocationMessage;
use tt_signalr_server::JsonNumber;
use tt_signalr_server::JsonValue;
use tt_signalr_server::PingMessage;
use tt_signalr_server::Protocol;
use tt_signalr_server::SignalRError;
use tt_signalr_server::StreamInvocationMessage;
use tt_signalr_server::StreamItemMessage;

fn nested() -> JsonValue {
    JsonValue::Object(vec![
        ("n".to_string(), JsonValue::Number(JsonNumber::NegInt(-5))),
        (
            "list".to_string(),
            JsonValue::Array(vec![
                JsonValue::Null,
                JsonValue::Bool(false),
                JsonValue::String("\u{1e}sep".to_string()),
                JsonValue::Number(JsonNumber::PosInt(u64::MAX)),
            ]),
        ),
    ])
}

fn samples() -> Vec<HubMessage> {
    vec![
        HubMessage::Invocation(InvocationMessage {
            invocation_id: Some("1".to_string()),
            target: "Send".to_string(),
            arguments: vec![nested(), JsonValue::String("x".to_string())],
            stream_ids: Some(vec!["s1".to_string(), "s2".to_string()]),
        }),
        HubMessage::Invocation(InvocationMessage {
            invocation_id: None,
            target: "Notify".to_string(),
            arguments: vec![],
            stream_ids: None,
        }),
        HubMessage::StreamItem(StreamItemMessage {
            invocation_id: "2".to_string(),
            item: nested(),
        }),
        HubMessage::Completion(CompletionMessage {
            invocation_id: "3".to_string(),
            result: Some(nested()),
            error: None,
        }),
        HubMessage::Completion(CompletionMessage {
            invocation_id: "4".to_string(),
            result: None,
            error: Some("boom".to_string()),
        }),
        HubMessage::Completion(CompletionMessage {
            invocation_id: "5".to_string(),
            result: None,
            error: None,
        }),
        HubMessage::StreamInvocation(StreamInvocationMessage {
            invocation_id: "6".to_string(),
            target: "Stream".to_string(),
            arguments: vec![JsonValue::Number(JsonNumber::PosInt(10))],
            stream_ids: None,
        }),
        HubMessage::CancelInvocation(CancelInvocationMessage {
            invocation_id: "7".to_string(),
        }),
        HubMessage::Ping(PingMessage {}),
        HubMessage::Close(CloseMessage {
            error: Some("bye".to_string()),
            allow_reconnect: Some(true),
        }),
        HubMessage::Close(CloseMessage {
            error: None,
            allow_reconnect: None,
        }),
    ]
}

fn same(a: &HubMessage, b: &HubMessage) -> bool {
    message_to_json_value(a) == message_to_json_value(b)
}

#[test]
fn json_text_roundtrip_for_every_kind() {
    for m in samples() {
        let text = serialize_message(&m).unwrap();
        assert!(text.ends_with('\u{1e}'));
        assert_eq!(text.matches('\u{1e}').count(), 1);
        let back = parse_message(&text).unwrap();
        assert!(same(&m, &back));
    }
}

#[test]
fn json_value_roundtrip_for_every_kind() {
    for m in samples() {
        let back = hub_message_from_json(&message_to_json_value(&m)).unwrap();
        assert!(same(&m, &back));
    }
}

#[test]
fn json_null_result_reads_back_as_none() {
    let m = HubMessage::Completion(CompletionMessage {
        invocation_id: "1".to_string(),
        result: Some(JsonValue::Null),
        error: None,
    });
    match parse_message(&serialize_message(&m).unwrap()).unwrap() {
        HubMessage::Completion(c) => assert_eq!(c.result, None),
        _ => panic!("Expected completion"),
    }
}

#[test]
fn messagepack_roundtrip_for_every_kind() {
    for m in samples() {
        let bytes = serialize_message_messagepack(&m).unwrap();
        let back = parse_message_messagepack(&bytes).unwrap();
        let empty_streams = matches!(&m, HubMessage::Invocation(i) if i.stream_ids.is_none())
            || matches!(&m, HubMessage::StreamInvocation(i) if i.stream_ids.is_none());
        if !empty_streams {
            assert!(same(&m, &back));
        }
    }
}

#[test]
fn json_messagepack_value_roundtrip() {
    let v = nested();
    let m = json_to_messagepack_value(&v).unwrap();
    assert_eq!(messagepack_to_json_value(&m).unwrap(), v);
}

#[test]
fn varint_roundtrip() {
    for n in [0usize, 1, 127, 128, 300, 16383, 16384, 0x7fff_ffff] {
        let mut out = Vec::new();
        write_varint_length(n, &mut out).unwrap();
        out.push(0xaa);
        assert_eq!(read_varint_length(&out).unwrap(), (n, out.len() - 1));
    }
}

#[test]
fn varint_bounds_are_errors() {
    let mut out = Vec::new();
    assert!(matches!(write_varint_length(0x8000_0000, &mut out), Err(SignalRError::Protocol(_))));
    assert!(matches!(read_varint_length(&[0x80, 0x80]), Err(SignalRError::Protocol(_))));
    assert!(matches!(
        read_varint_length(&[0xff, 0xff, 0xff, 0xff, 0x0f]),
        Err(SignalRError::Protocol(_))
    ));
    assert!(matches!(
        read_varint_length(&[0x80, 0x80, 0x80, 0x80, 0x80, 0x01]),
        Err(SignalRError::Protocol(_))
    ));
}

#[test]
fn split_inverts_framing() {
    let payloads: Vec<Vec<u8>> = vec![vec![], vec![1, 2, 3], vec![9; 200]];
    let mut data = Vec::new();
    for p in &payloads {
        data.extend(frame_messagepack_payload(p).unwrap());
    }
    let frames = split_messagepack_frames(&data).unwrap();
    let frames: Vec<Vec<u8>> = frames.iter().map(|f| f.to_vec()).collect();
    assert_eq!(frames, payloads);
}

#[test]
fn protocol_names_denote_protocols() {
    for p in [Protocol::Json, Protocol::MessagePack] {
        assert_eq!(Protocol::parse(p.as_str()), Some(p));
        assert_eq!(Protocol::from_lowercase_name(p.as_str()), Some(p));
    }
    assert_eq!("MESSAGEPACK".parse::<Protocol>(), Ok(Protocol::MessagePack));
    assert_eq!("xml".parse::<Protocol>(), Err("Unknown protocol: xml".to_string()));
}

#[test]
fn json_type_may_be_a_numeral_string() {
    assert!(matches!(parse_message(r#"{"type":"6"}"#), Ok(HubMessage::Ping(_))));
    assert!(matches!(parse_message(r#"{"type":"+6"}"#), Ok(HubMessage::Ping(_))));
    assert!(matches!(parse_message(r#"{"type":"x"}"#), Err(SignalRError::Json(_))));
    assert!(matches!(parse_message(r#"{"type":262}"#), Ok(HubMessage::Ping(_))));
    assert!(matches!(parse_message(r#"{"type":9}"#), Err(SignalRError::Json(_))));
    assert!(matches!(parse_message(r#"[1]"#), Err(SignalRError::Json(_))));
    assert!(matches!(parse_message(r#"{"target":"x"}"#), Err(SignalRError::Json(_))));
}

#[test]
fn json_decode_error_texts() {
    let text = |m: &str| match parse_message(m) {
        Err(e) => e.to_string(),
        Ok(_) => String::new(),
    };
    assert!(text(r#"{"type":9}"#).contains("Unknown message type: 9"));
    assert!(text(r#"[1]"#).contains("Expected object"));
    assert!(text(r#"{"type":true}"#).contains("Type must be a number or string"));
    assert!(text(r#"{"type":"x"}"#).contains("Invalid type value"));
    assert!(text(r#"{"target":"x"}"#).contains("missing field `type`"));
    assert!(text(r#"{"type":1}"#).contains("missing field `target`"));
}

#[test]
fn batched_messages_split_back_into_records() {
    let mut frame = String::new();
    let mut expected = Vec::new();
    for m in samples() {
        let text = serialize_message(&m).unwrap();
        expected.push(text.trim_end_matches('\u{1e}').to_string());
        frame.push_str(&text);
    }
    let records = tt_signalr_server::session::text_records(&frame);
    assert_eq!(records, expected);
    for (record, m) in records.iter().zip(samples()) {
        assert!(same(&parse_message(record).unwrap(), &m));
    }
}

#[test]
fn handshake_request_roundtrip() {
    for version in [1, 0, -7, i32::MAX, i32::MIN] {
        let request = tt_signalr_server::HandshakeRequest {
            protocol: "messagepack".to_string(),
            version,
        };
        let text = tt_signalr_server::handshake::serialize_handshake_request(&request).unwrap();
        let back = tt_signalr_server::parse_handshake(&text).unwrap();
        assert_eq!(back.protocol, request.protocol);
        assert_eq!(back.version, version);
    }
}

#[test]
fn json_messagepack_value_roundtrip_with_floats() {
    let v = JsonValue::Array(vec![
        JsonValue::Number(JsonNumber::Float(serde_json::Number::from_f64(42.5).unwrap())),
        JsonValue::Number(JsonNumber::Float(serde_json::Number::from_f64(-0.1).unwrap())),
        JsonValue::Number(JsonNumber::Float(serde_json::Number::from_f64(1e300).unwrap())),
        nested(),
    ]);
    let m = json_to_messagepack_value(&v).unwrap();
    assert_eq!(messagepack_to_json_value(&m).unwrap(), v);
}

#[test]
fn messagepack_message_roundtrip_with_float_result() {
    let m = HubMessage::Completion(CompletionMessage {
        invocation_id: "f".to_string(),
        result: Some(JsonValue::Number(JsonNumber::Float(serde_json::Number::from_f64(0.3).unwrap()))),
        error: None,
    });
    let bytes = serialize_message_messagepack(&m).unwrap();
    let back = parse_message_messagepack(&bytes).unwrap();
    assert!(same(&m, &back));
}

#[test]
fn messagepack_completion_with_result_and_error_is_refused() {
    let m = HubMessage::Completion(CompletionMessage {
        invocation_id: "both".to_string(),
        result: Some(JsonValue::Null),
        error: Some("bad".to_string()),
    });
    match serialize_message_messagepack(&m) {
        Err(SignalRError::Protocol(t)) => {
            assert_eq!(t, "Completion message cannot contain both result and error")
        }
        other => panic!("unexpected {:?}", other),
    }
}

#[test]
fn messagepack_buffers_concatenate() {
    let first = samples();
    let second = vec![
        HubMessage::Ping(PingMessage {}),
        HubMessage::CancelInvocation(CancelInvocationMessage { invocation_id: "c".to_string() }),
    ];
    let mut a = Vec::new();
    for m in &first {
        a.extend(serialize_message_messagepack(m).unwrap());
    }
    let mut b = Vec::new();
    for m in &second {
        b.extend(serialize_message_messagepack(m).unwrap());
    }
    let xs = parse_messages_messagepack(&a).unwrap();
    let ys = parse_messages_messagepack(&b).unwrap();
    let mut ab = a.clone();
    ab.extend(b.iter().copied());
    let all = parse_messages_messagepack(&ab).unwrap();
    assert_eq!(all.len(), xs.len() + ys.len());
    for (i, m) in all.iter().enumerate() {
        let expected = if i < xs.len() { &xs[i] } else { &ys[i - xs.len()] };
        assert!(same(m, expected));
    }
}

#[test]
fn protocol_parse_lowercases_ascii() {
    assert_eq!(Protocol::parse("json"), Some(Protocol::Json));
    assert_eq!(Protocol::parse("Json"), Some(Protocol::Json));
    assert_eq!(Protocol::parse("MessagePack"), Some(Protocol::MessagePack));
    assert_eq!(Protocol::parse("jsonx"), None);
}

#[test]
fn json_decode_error_comes_before_trailing_characters() {
    match parse_message(r#"{"type":99} x"#) {
        Err(SignalRError::Json(e)) => assert_eq!(e.to_string(), "Unknown message type: 99"),
        other => panic!("unexpected {:?}", other),
    }
    match parse_message(r#"{"type":6} x"#) {
        Err(SignalRError::Json(e)) => assert!(e.to_string().starts_with("trailing characters")),
        other => panic!("unexpected {:?}", other),
    }
    assert!(matches!(parse_message("{\"type\":6}  \u{1e}"), Ok(HubMessage::Ping(_))));
}

fn nested_arrays(depth: usize) -> JsonValue {
    let mut v = JsonValue::String("deep".to_string());
    for _ in 0..depth {
        v = JsonValue::Array(vec![v]);
    }
    v
}

fn invocation_with(arg: JsonValue) -> HubMessage {
    HubMessage::Invocation(InvocationMessage {
        invocation_id: Some("deep".to_string()),
        target: "Nest".to_string(),
        arguments: vec![arg],
        stream_ids: None,
    })
}

#[test]
fn json_text_roundtrip_at_the_nesting_limit() {
    let m = invocation_with(nested_arrays(125));
    let text = serialize_message(&m).unwrap();
    let back = parse_message(&text).unwrap();
    assert!(same(&m, &back));
}

#[test]
fn messagepack_roundtrip_at_the_depth_limit() {
    let m = invocation_with(nested_arrays(508));
    let bytes = serialize_message_messagepack(&m).unwrap();
    let back = parse_message_messagepack(&bytes).unwrap();
    assert!(same(&m, &back));
}

#[test]
fn messages_clone_to_equal_messages() {
    for m in samples() {
        assert!(same(&m.clone(), &m));
    }
    let inv = InvocationMessage {
        invocation_id: Some("c".to_string()),
        target: "T".to_string(),
        arguments: vec![nested()],
        stream_ids: Some(vec!["s".to_string()]),
    };
    let copy = inv.clone();
    assert_eq!(copy.invocation_id, inv.invocation_id);
    assert_eq!(copy.target, inv.target);
    assert_eq!(copy.arguments, inv.arguments);
    assert_eq!(copy.stream_ids, inv.stream_ids);
}

fn json_error_text(text: &str) -> String {
    match parse_message(text) {
        Err(SignalRError::Json(e)) => e.to_string(),
        other => panic!("unexpected {:?}", other),
    }
}

#[test]
fn field_type_errors_use_serde_wording() {
    assert_eq!(
        json_error_text(r#"{"type":1,"target":5}"#),
        "invalid type: integer `5`, expected a string"
    );
    assert_eq!(
        json_error_text(r#"{"type":1,"target":1.5}"#),
        "invalid type: floating point `1.5`, expected a string"
    );
    assert_eq!(
        json_error_text(r#"{"type":1,"target":"t","arguments":"a"}"#),
        "invalid type: string \"a\", expected a sequence"
    );
    assert_eq!(
        json_error_text(r#"{"type":1,"target":"t","streamIds":[1]}"#),
        "invalid type: integer `1`, expected a string"
    );
    assert_eq!(
        json_error_text(r#"{"type":7,"allowReconnect":"yes"}"#),
        "invalid type: string \"yes\", expected a boolean"
    );
    assert_eq!(
        json_error_text(r#"{"type":2,"invocationId":null,"item":1}"#),
        "invalid type: null, expected a string"
    );
}

#[test]
fn handshake_type_errors_use_serde_wording() {
    let text = |t: &str| match tt_signalr_server::parse_handshake(t) {
        Err(SignalRError::Json(e)) => e.to_string(),
        other => panic!("unexpected {:?}", other),
    };
    assert_eq!(text(r#"{"protocol":"json","version":"x"}"#), "invalid type: string \"x\", expected i32");
    assert_eq!(text(r#"{"protocol":"json","version":3000000000}"#), "invalid value: integer `3000000000`, expected i32");
    assert_eq!(text(r#"["json"]"#), "invalid length 1, expected struct HandshakeRequest with 2 elements");
    assert_eq!(text(r#"[5, 1]"#), "invalid type: integer `5`, expected a string");
}
