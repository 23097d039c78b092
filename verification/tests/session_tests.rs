use tt_signalr_server::handshake::parse_handshake;
use tt_signalr_server::session::answer_handshake;
use tt_signalr_server::session::dispatch_action;
use tt_signalr_server::session::handshake_error_reply;
use tt_signalr_server::session::invocation_reply;
use tt_signalr_server::session::parse_text_message;
use tt_signalr_server::session::stream_invocation_reply;
use tt_signalr_server::session::text_frame_records_of;
use tt_signalr_server::session::writer_step;
use tt_signalr_server::session::DispatchAction;
use tt_signalr_server::session::FrameKind;
use tt_signalr_server::session::HandshakeInput;
use tt_signalr_server::session::ReaderAction;
use tt_signalr_server::session::ReaderEvent;
use tt_signalr_server::session::ReaderState;
use tt_signalr_server::session::SerializedHubMessage;
use tt_signalr_server::session::WriterAction;
use tt_signalr_server::session::WriterEvent;
use tt_signalr_server::session::CLOSE_CODE_GOING_AWAY;
use tt_signalr_server::CloseMessage;
use tt_signalr_server::HubMessage;
use tt_signalr_server::InvocationMessage;
use tt_signalr_server::JsonNumber;
use tt_signalr_server::JsonValue;
use tt_signalr_server::PingMessage;
use tt_signalr_server::Protocol;
use tt_signalr_server::SignalRError;
use tt_signalr_server::StreamItemMessage;

fn frame(text: &str) -> HandshakeInput {
    HandshakeInput::Frame {
        text: true,
        payload: text.as_bytes().to_vec(),
    }
}

#[test]
fn handshake_json_is_accepted_with_empty_reply() {
    let answer = answer_handshake(frame("{\"protocol\":\"json\",\"version\":1}\u{1e}"));
    assert_eq!(answer.outcome.unwrap(), Protocol::Json);
    assert_eq!(answer.reply, "{}\u{1e}");
}

#[test]
fn handshake_messagepack_is_accepted() {
    let answer = answer_handshake(frame("{\"protocol\":\"messagepack\",\"version\":1}\u{1e}"));
    assert_eq!(answer.outcome.unwrap(), Protocol::MessagePack);
}

#[test]
fn handshake_bad_version_is_refused_with_reason() {
    let answer = answer_handshake(frame("{\"protocol\":\"json\",\"version\":2}\u{1e}"));
    assert!(matches!(answer.outcome, Err(SignalRError::InvalidHandshake(_))));
    assert_eq!(
        answer.reply,
        "{\"error\":\"Invalid handshake: Unsupported protocol version: 2\"}\u{1e}"
    );
}

#[test]
fn handshake_unknown_protocol_is_refused() {
    let answer = answer_handshake(frame("{\"protocol\":\"xml\",\"version\":1}"));
    assert!(matches!(answer.outcome, Err(SignalRError::UnsupportedProtocol(ref p)) if p == "xml"));
    assert_eq!(answer.reply, "{\"error\":\"Unsupported protocol: xml\"}\u{1e}");
}

#[test]
fn handshake_binary_frame_is_refused() {
    let answer = answer_handshake(HandshakeInput::Frame {
        text: false,
        payload: vec![1, 2, 3],
    });
    match answer.outcome {
        Err(SignalRError::InvalidHandshake(t)) => assert_eq!(t, "Expected text frame for handshake"),
        _ => panic!("Expected invalid handshake"),
    }
}

#[test]
fn handshake_timeout_is_refused() {
    let answer = answer_handshake(HandshakeInput::TimedOut);
    match answer.outcome {
        Err(SignalRError::InvalidHandshake(t)) => {
            assert_eq!(t, "Timed out waiting for handshake request")
        }
        _ => panic!("Expected invalid handshake"),
    }
    assert!(answer.reply.starts_with("{\"error\":"));
}

#[test]
fn handshake_malformed_json_is_a_json_error() {
    let answer = answer_handshake(frame("{\"protocol\":"));
    assert!(matches!(answer.outcome, Err(SignalRError::Json(_))));
    assert!(answer.reply.starts_with("{\"error\":\"JSON error: "));
}

#[test]
fn handshake_array_form_is_accepted() {
    let request = parse_handshake("[\"json\",1]").unwrap();
    assert_eq!(request.protocol, "json");
    assert_eq!(request.version, 1);
}

#[test]
fn handshake_version_out_of_i32_range_is_refused() {
    assert!(matches!(
        parse_handshake("{\"protocol\":\"json\",\"version\":4294967296}"),
        Err(SignalRError::Json(_))
    ));
}

#[test]
fn handshake_error_reply_names_the_error() {
    let reply = handshake_error_reply(&SignalRError::ConnectionClosed);
    assert_eq!(reply, "{\"error\":\"Connection closed\"}\u{1e}");
}

#[test]
fn text_frames_split_on_record_separators() {
    let records = text_frame_records_of(b" {\"type\":6}\x1e\x1e  {\"type\":7} \x1e\t\n");
    assert_eq!(records, vec!["{\"type\":6}".to_string(), "{\"type\":7}".to_string()]);
}

#[test]
fn text_frames_trim_unicode_white_space() {
    let payload = "\u{3000}x\u{a0}".as_bytes().to_vec();
    assert_eq!(text_frame_records_of(&payload), vec!["x".to_string()]);
}

#[test]
fn text_frames_replace_invalid_utf8() {
    assert_eq!(text_frame_records_of(&[0x61, 0xff, 0x62]), vec!["a\u{fffd}b".to_string()]);
}

#[test]
fn empty_text_frame_has_no_records() {
    assert!(text_frame_records_of(b"").is_empty());
    assert!(text_frame_records_of(b"\x1e \x1e").is_empty());
}

#[test]
fn reader_hands_text_records_on() {
    let (state, action) = ReaderState::new().step(ReaderEvent::Frame(
        FrameKind::Text,
        b"{\"type\":6}\x1e".to_vec(),
    ));
    assert!(!state.awaiting_close_echo);
    match action {
        ReaderAction::HandleText(records) => assert_eq!(records, vec!["{\"type\":6}".to_string()]),
        _ => panic!("Expected text records"),
    }
}

#[test]
fn reader_hands_binary_on_and_stops_on_close() {
    let (_, action) = ReaderState::new().step(ReaderEvent::Frame(FrameKind::Binary, vec![2, 0x91, 6]));
    assert!(matches!(action, ReaderAction::HandleBinary(ref b) if b == &vec![2, 0x91, 6]));
    let (_, action) = ReaderState::new().step(ReaderEvent::Frame(FrameKind::Close, vec![]));
    assert!(matches!(action, ReaderAction::Stop));
    let (_, action) = ReaderState::new().step(ReaderEvent::Frame(FrameKind::Ping, vec![]));
    assert!(matches!(action, ReaderAction::Continue));
    let (_, action) = ReaderState::new().step(ReaderEvent::TimedOut);
    assert!(matches!(action, ReaderAction::Stop));
}

#[test]
fn reader_waits_for_close_echo_after_close_sent() {
    let state = ReaderState::new();
    assert_eq!(state.read_timeout_secs(), 30);
    let (state, action) = state.step(ReaderEvent::CloseSent);
    assert!(state.awaiting_close_echo);
    assert!(matches!(action, ReaderAction::Continue));
    assert_eq!(state.read_timeout_secs(), 5);
    let (state, action) = state.step(ReaderEvent::Frame(FrameKind::Text, b"{\"type\":6}".to_vec()));
    assert!(state.awaiting_close_echo);
    assert!(matches!(action, ReaderAction::Continue));
    let (_, action) = state.step(ReaderEvent::Frame(FrameKind::Close, vec![]));
    assert!(matches!(action, ReaderAction::Stop));
}

#[test]
fn writer_shutdown_sends_close_without_reconnect() {
    match writer_step(Protocol::Json, WriterEvent::ShutdownRequested) {
        WriterAction::CloseConnection { close_message, close_code } => {
            assert_eq!(close_code, CLOSE_CODE_GOING_AWAY);
            assert_eq!(close_code, 1001);
            match close_message.unwrap() {
                SerializedHubMessage::Text(t) => {
                    assert_eq!(t, "{\"type\":7,\"allowReconnect\":false}\u{1e}")
                }
                _ => panic!("Expected text"),
            }
        }
        _ => panic!("Expected close"),
    }
}

#[test]
fn writer_shutdown_in_messagepack() {
    match writer_step(Protocol::MessagePack, WriterEvent::ShutdownRequested) {
        WriterAction::CloseConnection { close_message, .. } => match close_message.unwrap() {
            SerializedHubMessage::Binary(b) => assert_eq!(b, vec![0x04, 0x93, 0x07, 0xc0, 0xc2]),
            _ => panic!("Expected binary"),
        },
        _ => panic!("Expected close"),
    }
}

#[test]
fn writer_sends_messages_and_pings() {
    match writer_step(Protocol::Json, WriterEvent::Outgoing(HubMessage::Ping(PingMessage {}))) {
        WriterAction::Send { message: SerializedHubMessage::Text(t), restart_keepalive } => {
            assert_eq!(t, "{\"type\":6}\u{1e}");
            assert!(restart_keepalive);
        }
        _ => panic!("Expected send"),
    }
    match writer_step(Protocol::MessagePack, WriterEvent::KeepaliveTick) {
        WriterAction::Send { message: SerializedHubMessage::Binary(b), restart_keepalive } => {
            assert_eq!(b, vec![0x02, 0x91, 0x06]);
            assert!(!restart_keepalive);
        }
        _ => panic!("Expected send"),
    }
    assert!(matches!(writer_step(Protocol::Json, WriterEvent::ReaderFinished), WriterAction::FlushAndStop));
    assert!(matches!(writer_step(Protocol::Json, WriterEvent::AutoFrame), WriterAction::SendAutoFrame));
}

#[test]
fn writer_skips_unwritable_message() {
    let bad = HubMessage::Completion(tt_signalr_server::CompletionMessage {
        invocation_id: "x".to_string(),
        result: Some(JsonValue::Null),
        error: Some("e".to_string()),
    });
    match writer_step(Protocol::MessagePack, WriterEvent::Outgoing(bad)) {
        WriterAction::Skip(SignalRError::Protocol(t)) => {
            assert_eq!(t, "Completion message cannot contain both result and error")
        }
        _ => panic!("Expected skip"),
    }
}

#[test]
fn text_message_on_messagepack_connection_is_refused() {
    match parse_text_message(Protocol::MessagePack, "{\"type\":6}") {
        Err(SignalRError::Protocol(t)) => assert_eq!(t, "Expected binary frame for MessagePack"),
        _ => panic!("Expected protocol error"),
    }
    assert!(matches!(parse_text_message(Protocol::Json, "{\"type\":6}"), Ok(HubMessage::Ping(_))));
}

#[test]
fn dispatch_sorts_messages() {
    let inv = HubMessage::Invocation(InvocationMessage {
        invocation_id: None,
        target: "T".to_string(),
        arguments: vec![],
        stream_ids: None,
    });
    assert!(matches!(dispatch_action(inv), DispatchAction::Invoke(ref m) if m.target == "T"));
    assert!(matches!(dispatch_action(HubMessage::Ping(PingMessage {})), DispatchAction::Ignore));
    let close = HubMessage::Close(CloseMessage {
        error: Some("bye".to_string()),
        allow_reconnect: None,
    });
    assert!(matches!(dispatch_action(close), DispatchAction::ClientClosing(Some(ref e)) if e == "bye"));
    let item = HubMessage::StreamItem(StreamItemMessage {
        invocation_id: "orphan".to_string(),
        item: JsonValue::Number(JsonNumber::PosInt(1)),
    });
    assert!(matches!(dispatch_action(item), DispatchAction::Ignore));
}

#[test]
fn invocation_with_id_gets_a_completion() {
    let reply = invocation_reply(Some("1".to_string()), Ok(Some(JsonValue::Bool(true)))).unwrap();
    match reply {
        Some(HubMessage::Completion(c)) => {
            assert_eq!(c.invocation_id, "1");
            assert_eq!(c.result, Some(JsonValue::Bool(true)));
            assert_eq!(c.error, None);
        }
        _ => panic!("Expected completion"),
    }
}

#[test]
fn failed_invocation_with_id_gets_the_error_text() {
    let reply = invocation_reply(
        Some("1".to_string()),
        Err(SignalRError::Protocol("invocation failed".to_string())),
    )
    .unwrap();
    match reply {
        Some(HubMessage::Completion(c)) => {
            assert_eq!(c.result, None);
            assert_eq!(c.error, Some("Protocol error: invocation failed".to_string()));
        }
        _ => panic!("Expected completion"),
    }
}

#[test]
fn invocation_without_id_gets_nothing_or_the_error() {
    assert!(matches!(invocation_reply(None, Ok(Some(JsonValue::Null))), Ok(None)));
    assert!(matches!(
        invocation_reply(None, Err(SignalRError::Protocol("x".to_string()))),
        Err(SignalRError::Protocol(_))
    ));
}

#[test]
fn failed_stream_invocation_gets_a_completion() {
    assert!(stream_invocation_reply("s".to_string(), Ok(())).is_none());
    match stream_invocation_reply(
        "stream-1".to_string(),
        Err(SignalRError::Protocol("stream failed".to_string())),
    ) {
        Some(HubMessage::Completion(c)) => {
            assert_eq!(c.invocation_id, "stream-1");
            assert_eq!(c.error, Some("Protocol error: stream failed".to_string()));
        }
        _ => panic!("Expected completion"),
    }
}
