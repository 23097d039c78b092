//! Decisions taken on one connection: answering the handshake, cutting text
//! frames into records, what an incoming message asks of the hub and what
//! is sent back, and the steps of the reading and writing loops.

use vstd::prelude::*;
use crate::error::Result;
use crate::error::SignalRError;
use crate::error::error_text_fits;
use crate::handshake::HandshakeResponse;
use crate::handshake::Protocol;
use crate::handshake::parse_handshake;
use crate::handshake::serialize_handshake;
use crate::handshake::spec_serialize_handshake;
use crate::handshake::validate_handshake;
use crate::handshake::spec_parse_handshake;
use crate::handshake::protocol_of_name;
use crate::handshake::lowercase_text;
use crate::text::int_decimal;
use crate::message::opt_json_view;
use crate::json::RECORD_SEPARATOR;
use crate::json::parse_message;
use crate::json::serialize_message;
use crate::json::spec_parse_message;
use crate::json::spec_serialize_message;
use crate::message::CompletionMessage;
use crate::message::CloseMessage;
use crate::message::PingMessage;
use crate::message::HubMessage;
use crate::message::InvocationMessage;
use crate::message::MessageData;
use crate::message::StreamInvocationMessage;
use crate::messagepack::serialize_message_messagepack;
use crate::messagepack::spec_serialize_message_messagepack;
use crate::text::chars_of;
use crate::text::push_char;
use crate::value::JsonValue;

verus! {

// ---------------------------------------------------------------------------
// Text frames
// ---------------------------------------------------------------------------

/// What `String::from_utf8_lossy` gives for a byte string (a function of the
/// bytes alone).
pub uninterp spec fn utf8_lossy_text(bytes: Seq<u8>) -> Seq<char>;

/// Decodes bytes as UTF-8 with `String::from_utf8_lossy`, replacing invalid
/// sequences with U+FFFD.
#[verifier::external_body]
fn utf8_lossy(bytes: &[u8]) -> (r: String)
    ensures
        r@ == utf8_lossy_text(bytes@),
{
    String::from_utf8_lossy(bytes).into_owned()
}

/// The characters with Unicode's `White_Space` property, which `char::is_whitespace`
/// and `str::trim` go by.
pub open spec fn is_white_space(c: char) -> bool {
    ||| '\u{9}' <= c <= '\u{d}'
    ||| c == ' '
    ||| c == '\u{85}'
    ||| c == '\u{a0}'
    ||| c == '\u{1680}'
    ||| '\u{2000}' <= c <= '\u{200a}'
    ||| c == '\u{2028}'
    ||| c == '\u{2029}'
    ||| c == '\u{202f}'
    ||| c == '\u{205f}'
    ||| c == '\u{3000}'
}

fn white_space(c: char) -> (r: bool)
    ensures
        r == is_white_space(c),
{
    ('\u{9}' <= c && c <= '\u{d}') || c == ' ' || c == '\u{85}' || c == '\u{a0}' || c == '\u{1680}'
        || ('\u{2000}' <= c && c <= '\u{200a}') || c == '\u{2028}' || c == '\u{2029}' || c
        == '\u{202f}' || c == '\u{205f}' || c == '\u{3000}'
}

/// A text without the white space at its start.
pub open spec fn trim_start_ws(s: Seq<char>) -> Seq<char>
    decreases s.len(),
{
    if s.len() > 0 && is_white_space(s[0]) {
        trim_start_ws(s.drop_first())
    } else {
        s
    }
}

/// A text without the white space at its end.
pub open spec fn trim_end_ws(s: Seq<char>) -> Seq<char>
    decreases s.len(),
{
    if s.len() > 0 && is_white_space(s.last()) {
        trim_end_ws(s.drop_last())
    } else {
        s
    }
}

/// A text without the white space at either end (`str::trim`).
pub open spec fn trim_ws(s: Seq<char>) -> Seq<char> {
    trim_end_ws(trim_start_ws(s))
}

/// The pieces of a text between record separators (`str::split`): one
/// more piece than there are separators, empty pieces included.
pub open spec fn split_records(s: Seq<char>) -> Seq<Seq<char>>
    decreases s.len(),
{
    if s.len() == 0 {
        seq![Seq::<char>::empty()]
    } else {
        let prev = split_records(s.drop_last());
        if s.last() == RECORD_SEPARATOR {
            prev.push(Seq::<char>::empty())
        } else {
            prev.update(prev.len() - 1, prev.last().push(s.last()))
        }
    }
}

/// The pieces, trimmed, with the empty ones left out.
pub open spec fn nonempty_trimmed(pieces: Seq<Seq<char>>) -> Seq<Seq<char>>
    decreases pieces.len(),
{
    if pieces.len() == 0 {
        seq![]
    } else {
        let prev = nonempty_trimmed(pieces.drop_last());
        let t = trim_ws(pieces.last());
        if t.len() > 0 {
            prev.push(t)
        } else {
            prev
        }
    }
}

/// The records of a text frame: the payload read as UTF-8 (invalid bytes
/// replaced), cut at every record separator, each piece trimmed, and the
/// empty ones left out.
pub open spec fn text_frame_records(payload: Seq<u8>) -> Seq<Seq<char>> {
    nonempty_trimmed(split_records(utf8_lossy_text(payload)))
}

proof fn lemma_trim_start_at(s: Seq<char>, a: int)
    requires
        0 <= a <= s.len(),
        forall|j: int| 0 <= j < a ==> is_white_space(s[j]),
        a == s.len() || !is_white_space(s[a]),
    ensures
        trim_start_ws(s) == s.subrange(a, s.len() as int),
    decreases a,
{
    if a > 0 {
        let r = s.drop_first();
        assert forall|j: int| 0 <= j < a - 1 implies is_white_space(r[j]) by {
            assert(r[j] == s[j + 1]);
        }
        if a - 1 < r.len() {
            assert(r[a - 1] == s[a]);
        }
        lemma_trim_start_at(r, a - 1);
        assert(r.subrange(a - 1, r.len() as int) =~= s.subrange(a, s.len() as int));
    } else {
        assert(s.subrange(0, s.len() as int) =~= s);
    }
}

proof fn lemma_trim_end_at(s: Seq<char>, b: int)
    requires
        0 <= b <= s.len(),
        forall|j: int| b <= j < s.len() ==> is_white_space(s[j]),
        b == 0 || !is_white_space(s[b - 1]),
    ensures
        trim_end_ws(s) == s.subrange(0, b),
    decreases s.len() - b,
{
    if b < s.len() {
        let r = s.drop_last();
        if b > 0 {
            assert(r[b - 1] == s[b - 1]);
        }
        lemma_trim_end_at(r, b);
        assert(r.subrange(0, b) =~= s.subrange(0, b));
    } else {
        assert(s.subrange(0, b) =~= s);
        if b > 0 {
            assert(s.last() == s[b - 1]);
        }
    }
}

/// The characters `s[from..to]` as a string.
fn string_of_range(s: &Vec<char>, from: usize, to: usize) -> (r: String)
    requires
        from <= to <= s@.len(),
    ensures
        r@ == s@.subrange(from as int, to as int),
{
    let mut r = String::new();
    let mut i: usize = from;
    while i < to
        invariant
            from <= i <= to,
            to <= s@.len(),
            r@ == s@.subrange(from as int, i as int),
        decreases to - i,
    {
        push_char(&mut r, s[i]);
        i = i + 1;
        assert(r@ =~= s@.subrange(from as int, i as int));
    }
    r
}

/// A piece of text without the white space at either end.
fn trim_piece(s: &Vec<char>) -> (r: String)
    ensures
        r@ == trim_ws(s@),
{
    let mut a: usize = 0;
    while a < s.len() && white_space(s[a])
        invariant
            a <= s@.len(),
            forall|j: int| 0 <= j < a ==> is_white_space(s@[j]),
        decreases s@.len() - a,
    {
        a = a + 1;
    }
    proof {
        lemma_trim_start_at(s@, a as int);
    }
    let ghost t = s@.subrange(a as int, s@.len() as int);
    let mut b: usize = s.len();
    while b > a && white_space(s[b - 1])
        invariant
            a <= b <= s@.len(),
            forall|j: int| b <= j < s@.len() ==> is_white_space(s@[j]),
        decreases b - a,
    {
        b = b - 1;
    }
    proof {
        assert forall|j: int| (b - a) <= j < t.len() implies is_white_space(t[j]) by {
            assert(t[j] == s@[j + a]);
        }
        if b > a {
            assert(t[b - a - 1] == s@[b - 1]);
        }
        lemma_trim_end_at(t, (b - a) as int);
        assert(t.subrange(0, (b - a) as int) =~= s@.subrange(a as int, b as int));
    }
    string_of_range(s, a, b)
}

/// The records of a text frame, in order.
pub fn text_frame_records_of(payload: &[u8]) -> (r: Vec<String>)
    ensures
        r@.map_values(|s: String| s@) == text_frame_records(payload@),
{
    let text = utf8_lossy(payload);
    text_records(text.as_str())
}

/// The records of a text: cut at every record separator, each piece
/// trimmed, the empty ones left out.
pub fn text_records(text: &str) -> (r: Vec<String>)
    ensures
        r@.map_values(|s: String| s@) == nonempty_trimmed(split_records(text@)),
{
    let chars = chars_of(text);
    let ghost all = chars@;
    let mut out: Vec<String> = Vec::new();
    let mut piece: Vec<char> = Vec::new();
    let ghost mut done: Seq<Seq<char>> = seq![];
    let mut i: usize = 0;
    assert(all.take(0) =~= Seq::<char>::empty());
    assert(out@.map_values(|s: String| s@) =~= Seq::<Seq<char>>::empty());
    assert(done.push(piece@) =~= seq![Seq::<char>::empty()]);
    while i < chars.len()
        invariant
            i <= chars@.len(),
            all == chars@,
            split_records(all.take(i as int)) == done.push(piece@),
            out@.map_values(|s: String| s@) == nonempty_trimmed(done),
        decreases chars@.len() - i,
    {
        let c = chars[i];
        let ghost t1 = all.take(i + 1);
        assert(t1.drop_last() =~= all.take(i as int));
        assert(t1.last() == c);
        if c == RECORD_SEPARATOR {
            let t = trim_piece(&piece);
            let ghost before = out@;
            let ghost done2 = done.push(piece@);
            assert(done2.drop_last() =~= done);
            if !t.as_str().is_empty() {
                proof {
                    assert(t@.len() > 0);
                }
                out.push(t);
                assert(out@.map_values(|s: String| s@) =~= before.map_values(|s: String| s@).push(t@));
            } else {
                proof {
                    assert(t@.len() == 0);
                }
            }
            proof {
                done = done2;
            }
            piece = Vec::new();
            assert(split_records(t1) =~= done.push(piece@));
        } else {
            let ghost old_piece = piece@;
            piece.push(c);
            assert(split_records(t1) =~= done.push(piece@)) by {
                let prev = split_records(all.take(i as int));
                assert(prev.update(prev.len() - 1, prev.last().push(c)) =~= done.push(old_piece.push(c)));
            }
        }
        i = i + 1;
    }
    assert(all.take(i as int) =~= all);
    let t = trim_piece(&piece);
    let ghost before = out@;
    let ghost done2 = done.push(piece@);
    assert(done2.drop_last() =~= done);
    if !t.as_str().is_empty() {
        out.push(t);
        assert(out@.map_values(|s: String| s@) =~= before.map_values(|s: String| s@).push(t@));
    }
    out
}

// ---------------------------------------------------------------------------
// Handshake
// ---------------------------------------------------------------------------

/// What the server got while waiting for the handshake request.
pub enum HandshakeInput {
    /// A frame arrived; `text` tells whether it is a text frame.
    Frame { text: bool, payload: Vec<u8> },
    /// Nothing arrived in time.
    TimedOut,
}

/// The outcome of a handshake and the record to send back.
pub struct HandshakeAnswer {
    /// The protocol agreed on, or why the handshake failed.
    pub outcome: Result<Protocol>,
    /// The handshake response record to send to the client.
    pub reply: String,
}

/// The handshake response record for a failed handshake: the error's text.
pub fn handshake_error_reply(error: &SignalRError) -> (r: String)
    ensures
        exists|t: Seq<char>|
            error_text_fits(*error, t) && spec_serialize_handshake(Some(t)) == Ok::<Seq<char>, serde_json::Error>(r@),
{
    let text = error.to_string();
    let ghost t = text@;
    let response = HandshakeResponse::error(text.as_str());
    let r = match serialize_handshake(&response) {
        Ok(t) => t,
        Err(_) => String::new(),
    };
    assert(error_text_fits(*error, t) && spec_serialize_handshake(Some(t)) == Ok::<Seq<char>, serde_json::Error>(r@));
    r
}

/// Answers a handshake: a text frame holding a valid request for a
/// supported protocol at version 1 is accepted, and anything else refused
/// with the reason.
pub fn answer_handshake(input: HandshakeInput) -> (r: HandshakeAnswer)
    ensures
        match input {
            HandshakeInput::TimedOut => r.outcome matches Err(SignalRError::InvalidHandshake(t))
                && t@ == "Timed out waiting for handshake request"@,
            HandshakeInput::Frame { text, payload } => if !text {
                r.outcome matches Err(SignalRError::InvalidHandshake(t)) && t@ == "Expected text frame for handshake"@
            } else {
                match spec_parse_handshake(utf8_lossy_text(payload@)) {
                    Err(e) => r.outcome == Err::<Protocol, SignalRError>(SignalRError::Json(e)),
                    Ok((p, v)) => if v != 1 {
                        r.outcome matches Err(SignalRError::InvalidHandshake(t))
                            && t@ == "Unsupported protocol version: "@ + int_decimal(v as int)
                    } else {
                        match protocol_of_name(lowercase_text(p)) {
                            Some(pr) => r.outcome == Ok::<Protocol, SignalRError>(pr),
                            None => r.outcome matches Err(SignalRError::UnsupportedProtocol(t)) && t@ == p,
                        }
                    },
                }
            },
        },
        match r.outcome {
            Ok(_) => spec_serialize_handshake(None) == Ok::<Seq<char>, serde_json::Error>(r.reply@),
            Err(e) => exists|t: Seq<char>|
                error_text_fits(e, t) && spec_serialize_handshake(Some(t)) == Ok::<Seq<char>, serde_json::Error>(r.reply@),
        },
{
    let outcome: Result<Protocol> = match input {
        HandshakeInput::TimedOut => Err(SignalRError::InvalidHandshake(
            String::from_str("Timed out waiting for handshake request"),
        )),
        HandshakeInput::Frame { text, payload } => {
            if !text {
                Err(SignalRError::InvalidHandshake(String::from_str("Expected text frame for handshake")))
            } else {
                let data = utf8_lossy(payload.as_slice());
                match parse_handshake(data.as_str()) {
                    Ok(request) => validate_handshake(&request),
                    Err(e) => Err(e),
                }
            }
        },
    };
    let reply = match &outcome {
        Ok(_) => match serialize_handshake(&HandshakeResponse::success()) {
            Ok(t) => t,
            Err(_) => String::new(),
        },
        Err(e) => handshake_error_reply(e),
    };
    HandshakeAnswer { outcome, reply }
}

// ---------------------------------------------------------------------------
// Outgoing messages
// ---------------------------------------------------------------------------

/// A hub message written for the wire: text for the JSON protocol, bytes
/// for MessagePack.
pub enum SerializedHubMessage {
    /// A text frame's content.
    Text(String),
    /// A binary frame's content.
    Binary(Vec<u8>),
}

/// Whether `r` is what writing the message `m` in `protocol` gives: for
/// JSON the text (which cannot fail), for MessagePack the framed bytes or
/// the protocol error.
pub open spec fn written_as(r: Result<SerializedHubMessage>, protocol: Protocol, m: MessageData) -> bool {
    match protocol {
        Protocol::Json => r matches Ok(SerializedHubMessage::Text(t)) && spec_serialize_message(m) == Ok::<
            Seq<char>,
            serde_json::Error,
        >(t@),
        Protocol::MessagePack => match r {
            Ok(SerializedHubMessage::Binary(b)) => spec_serialize_message_messagepack(m) == Ok::<Seq<u8>, Seq<char>>(b@),
            Err(SignalRError::Protocol(t)) => spec_serialize_message_messagepack(m) == Err::<Seq<u8>, Seq<char>>(t@),
            _ => false,
        },
    }
}

/// Writes a hub message in the connection's protocol.
pub fn serialize_outgoing_message(protocol: Protocol, message: &HubMessage) -> (r: Result<SerializedHubMessage>)
    ensures
        written_as(r, protocol, message@),
        r matches Ok(SerializedHubMessage::Text(t)) ==> t@.len() > 0 && t@.last() == RECORD_SEPARATOR
            && clean_record(t@.drop_last()),
{
    match protocol {
        Protocol::Json => match serialize_message(message) {
            Ok(t) => {
                proof {
                    let d = t@.drop_last();
                    assert(d[0] == '{' && d[d.len() - 1] == '}');
                    assert forall|i: int| 0 <= i < d.len() implies d[i] != RECORD_SEPARATOR by {
                        assert(d[i] == t@[i]);
                    }
                }
                Ok(SerializedHubMessage::Text(t))
            },
            Err(e) => Err(e),
        },
        Protocol::MessagePack => match serialize_message_messagepack(message) {
            Ok(b) => Ok(SerializedHubMessage::Binary(b)),
            Err(e) => Err(e),
        },
    }
}

// ---------------------------------------------------------------------------
// Incoming messages
// ---------------------------------------------------------------------------

/// Reads one text record in the connection's protocol: JSON records are
/// parsed; a MessagePack connection does not take text.
pub fn parse_text_message(protocol: Protocol, data: &str) -> (r: Result<HubMessage>)
    ensures
        protocol == Protocol::Json ==> match r {
            Ok(m) => spec_parse_message(data@) == Ok::<MessageData, serde_json::Error>(m@),
            Err(SignalRError::Json(e)) => spec_parse_message(data@) == Err::<MessageData, serde_json::Error>(e),
            Err(_) => false,
        },
        protocol == Protocol::MessagePack ==> (r matches Err(SignalRError::Protocol(t))
            && t@ == "Expected binary frame for MessagePack"@),
{
    match protocol {
        Protocol::Json => parse_message(data),
        Protocol::MessagePack => Err(SignalRError::Protocol(String::from_str("Expected binary frame for MessagePack"))),
    }
}

/// What an incoming hub message asks for.
pub enum DispatchAction {
    /// Call the hub's invocation handler.
    Invoke(InvocationMessage),
    /// Call the hub's streaming handler.
    StreamInvoke(StreamInvocationMessage),
    /// The client is closing, with an error when it gives one.
    ClientClosing(Option<String>),
    /// Nothing to do (pings are handled by the transport; other kinds are
    /// not acted on).
    Ignore,
}

/// Sorts an incoming hub message: invocations go to the hub, a close is
/// noted, the rest is ignored.
pub fn dispatch_action(message: HubMessage) -> (r: DispatchAction)
    ensures
        match message {
            HubMessage::Invocation(m) => r == DispatchAction::Invoke(m),
            HubMessage::StreamInvocation(m) => r == DispatchAction::StreamInvoke(m),
            HubMessage::Close(m) => r == DispatchAction::ClientClosing(m.error),
            _ => r == DispatchAction::Ignore,
        },
{
    match message {
        HubMessage::Invocation(m) => DispatchAction::Invoke(m),
        HubMessage::StreamInvocation(m) => DispatchAction::StreamInvoke(m),
        HubMessage::Close(m) => DispatchAction::ClientClosing(m.error),
        _ => DispatchAction::Ignore,
    }
}

/// What answers an invocation once the hub has handled it: with an
/// invocation ID, a completion carrying the result or the error's text;
/// without one, nothing on success and the error itself on failure.
pub fn invocation_reply(invocation_id: Option<String>, outcome: Result<Option<JsonValue>>) -> (r: Result<Option<HubMessage>>)
    ensures
        match (invocation_id, outcome) {
            (Some(id), Ok(result)) => r matches Ok(Some(m)) && m@ == (MessageData::Completion {
                invocation_id: id@,
                result: opt_json_view(result),
                error: None,
            }),
            (Some(id), Err(e)) => r matches Ok(Some(m)) && (m@ matches MessageData::Completion {
                invocation_id,
                result,
                error: Some(t),
            } && invocation_id == id@ && result is None && error_text_fits(e, t)),
            (None, Ok(_)) => r matches Ok(None),
            (None, Err(e)) => r == Err::<Option<HubMessage>, SignalRError>(e),
        },
{
    match (invocation_id, outcome) {
        (Some(id), Ok(result)) => Ok(Some(HubMessage::Completion(CompletionMessage {
            invocation_id: id,
            result,
            error: None,
        }))),
        (Some(id), Err(e)) => {
            let text = e.to_string();
            Ok(Some(HubMessage::Completion(CompletionMessage {
                invocation_id: id,
                result: None,
                error: Some(text),
            })))
        },
        (None, Ok(_)) => Ok(None),
        (None, Err(e)) => Err(e),
    }
}

/// What answers a stream invocation once the hub has handled it: nothing
/// on success, a completion with the error's text on failure.
pub fn stream_invocation_reply(invocation_id: String, outcome: Result<()>) -> (r: Option<HubMessage>)
    ensures
        match outcome {
            Ok(()) => r is None,
            Err(e) => r matches Some(m) && (m@ matches MessageData::Completion {
                invocation_id: id,
                result,
                error: Some(t),
            } && id == invocation_id@ && result is None && error_text_fits(e, t)),
        },
{
    match outcome {
        Ok(()) => None,
        Err(e) => {
            let text = e.to_string();
            Some(HubMessage::Completion(CompletionMessage { invocation_id, result: None, error: Some(text) }))
        },
    }
}

// ---------------------------------------------------------------------------
// The reading loop
// ---------------------------------------------------------------------------

/// How long the server waits for the handshake request, in seconds.
pub const HANDSHAKE_TIMEOUT_SECS: u64 = 15;

/// How long a client may stay silent before the connection is dropped, in
/// seconds.
pub const CLIENT_TIMEOUT_SECS: u64 = 30;

/// How often the server pings an idle connection, in seconds.
pub const KEEPALIVE_INTERVAL_SECS: u64 = 10;

/// How long the server waits for the client to answer its close frame, in
/// seconds.
pub const CLOSE_ECHO_TIMEOUT_SECS: u64 = 5;

/// The WebSocket close code the server sends when it shuts down.
pub const CLOSE_CODE_GOING_AWAY: u16 = 1001;

/// The kind of a WebSocket frame.
#[derive(Debug, Clone, Copy, PartialEq, Eq, Structural)]
pub enum FrameKind {
    /// A text frame.
    Text,
    /// A binary frame.
    Binary,
    /// A close frame.
    Close,
    /// A ping.
    Ping,
    /// A pong.
    Pong,
    /// A continuation of a fragmented message.
    Continuation,
}

/// What the reading loop saw.
pub enum ReaderEvent {
    /// The writer has sent the server's close frame.
    CloseSent,
    /// A frame was read.
    Frame(FrameKind, Vec<u8>),
    /// Reading failed.
    ReadFailed,
    /// Nothing arrived in time.
    TimedOut,
}

/// What the reading loop does next.
pub enum ReaderAction {
    /// Read on.
    Continue,
    /// Leave the loop.
    Stop,
    /// Handle each text record, in order, then read on.
    HandleText(Vec<String>),
    /// Handle the binary payload, then read on.
    HandleBinary(Vec<u8>),
}

/// The reading loop's state: whether it only waits for the client's answer
/// to the server's close frame.
#[derive(Debug, Clone, Copy, PartialEq, Eq, Structural)]
pub struct ReaderState {
    /// The server has sent its close frame and waits for the echo.
    pub awaiting_close_echo: bool,
}

impl ReaderState {
    /// The state of a fresh connection.
    pub fn new() -> (r: Self)
        ensures
            !r.awaiting_close_echo,
    {
        ReaderState { awaiting_close_echo: false }
    }

    /// How long to wait for the next frame, in seconds.
    pub fn read_timeout_secs(&self) -> (r: u64)
        ensures
            r == (if self.awaiting_close_echo {
                CLOSE_ECHO_TIMEOUT_SECS
            } else {
                CLIENT_TIMEOUT_SECS
            }),
    {
        if self.awaiting_close_echo {
            CLOSE_ECHO_TIMEOUT_SECS
        } else {
            CLIENT_TIMEOUT_SECS
        }
    }

    /// One step of the reading loop. While it waits for the close echo, it
    /// stops on a close frame, a failure or a timeout and ignores anything
    /// else; otherwise text and binary frames are handed on, a close frame,
    /// a failure or a timeout end the loop, and the server's own close frame
    /// turns it to waiting for the echo.
    pub fn step(self, event: ReaderEvent) -> (r: (ReaderState, ReaderAction))
        ensures
            self.awaiting_close_echo ==> r.0 == self && match event {
                ReaderEvent::Frame(FrameKind::Close, _) => r.1 is Stop,
                ReaderEvent::Frame(_, _) => r.1 is Continue,
                ReaderEvent::CloseSent => r.1 is Continue,
                _ => r.1 is Stop,
            },
            !self.awaiting_close_echo ==> match event {
                ReaderEvent::CloseSent => r.0.awaiting_close_echo && r.1 is Continue,
                ReaderEvent::Frame(FrameKind::Text, payload) => r.0 == self && (r.1 matches ReaderAction::HandleText(records)
                    && records@.map_values(|s: String| s@) == text_frame_records(payload@)),
                ReaderEvent::Frame(FrameKind::Binary, payload) => r.0 == self && r.1 == ReaderAction::HandleBinary(payload),
                ReaderEvent::Frame(FrameKind::Close, _) => r.0 == self && r.1 is Stop,
                ReaderEvent::Frame(_, _) => r.0 == self && r.1 is Continue,
                _ => r.0 == self && r.1 is Stop,
            },
    {
        if self.awaiting_close_echo {
            let action = match event {
                ReaderEvent::Frame(FrameKind::Close, _) => ReaderAction::Stop,
                ReaderEvent::Frame(_, _) => ReaderAction::Continue,
                ReaderEvent::CloseSent => ReaderAction::Continue,
                _ => ReaderAction::Stop,
            };
            (self, action)
        } else {
            match event {
                ReaderEvent::CloseSent => (ReaderState { awaiting_close_echo: true }, ReaderAction::Continue),
                ReaderEvent::Frame(FrameKind::Text, payload) => {
                    let records = text_frame_records_of(payload.as_slice());
                    (self, ReaderAction::HandleText(records))
                },
                ReaderEvent::Frame(FrameKind::Binary, payload) => (self, ReaderAction::HandleBinary(payload)),
                ReaderEvent::Frame(FrameKind::Close, _) => (self, ReaderAction::Stop),
                ReaderEvent::Frame(_, _) => (self, ReaderAction::Continue),
                _ => (self, ReaderAction::Stop),
            }
        }
    }
}

// ---------------------------------------------------------------------------
// The writing loop
// ---------------------------------------------------------------------------

/// What the writing loop saw.
pub enum WriterEvent {
    /// The server is shutting down.
    ShutdownRequested,
    /// The reading loop has ended.
    ReaderFinished,
    /// The transport queued a frame of its own (such as a pong).
    AutoFrame,
    /// The hub sent a message.
    Outgoing(HubMessage),
    /// The keepalive timer fired.
    KeepaliveTick,
}

/// What the writing loop does next.
pub enum WriterAction {
    /// Send the close message (when it could be written), then a close
    /// frame with the code, then wait for the reading loop and stop.
    CloseConnection { close_message: Result<SerializedHubMessage>, close_code: u16 },
    /// Send the frames the transport queued, then stop.
    FlushAndStop,
    /// Send the frame the transport queued.
    SendAutoFrame,
    /// Send a message; restart the keepalive timer when asked.
    Send { message: SerializedHubMessage, restart_keepalive: bool },
    /// The message could not be written: skip it.
    Skip(SignalRError),
}

/// The close message a server that shuts down sends: no error, and no
/// reconnecting.
pub fn shutdown_close_message() -> (r: HubMessage)
    ensures
        r@ == (MessageData::Close { error: None, allow_reconnect: Some(false) }),
{
    HubMessage::Close(CloseMessage { error: None, allow_reconnect: Some(false) })
}

/// The message that keeps an idle connection alive.
pub fn keepalive_message() -> (r: HubMessage)
    ensures
        r@ == MessageData::Ping,
{
    HubMessage::Ping(PingMessage {})
}

/// One step of the writing loop. A shutdown sends a close message that
/// forbids reconnecting and a going-away close frame; the end of the
/// reading loop flushes and stops; hub messages and keepalive pings are
/// written in the connection's protocol, and one that cannot be written is
/// skipped.
pub fn writer_step(protocol: Protocol, event: WriterEvent) -> (r: WriterAction)
    ensures
        match event {
            WriterEvent::ShutdownRequested => r matches WriterAction::CloseConnection { close_message, close_code }
                && close_code == CLOSE_CODE_GOING_AWAY && written_as(
                close_message,
                protocol,
                MessageData::Close { error: None, allow_reconnect: Some(false) },
            ),
            WriterEvent::ReaderFinished => r is FlushAndStop,
            WriterEvent::AutoFrame => r is SendAutoFrame,
            WriterEvent::Outgoing(m) => match r {
                WriterAction::Send { message, restart_keepalive } => restart_keepalive && written_as(
                    Ok(message),
                    protocol,
                    m@,
                ),
                WriterAction::Skip(e) => written_as(Err(e), protocol, m@),
                _ => false,
            },
            WriterEvent::KeepaliveTick => match r {
                WriterAction::Send { message, restart_keepalive } => !restart_keepalive && written_as(
                    Ok(message),
                    protocol,
                    MessageData::Ping,
                ),
                WriterAction::Skip(e) => written_as(Err(e), protocol, MessageData::Ping),
                _ => false,
            },
        },
{
    match event {
        WriterEvent::ShutdownRequested => {
            let close = shutdown_close_message();
            let close_message = serialize_outgoing_message(protocol, &close);
            WriterAction::CloseConnection { close_message, close_code: CLOSE_CODE_GOING_AWAY }
        },
        WriterEvent::ReaderFinished => WriterAction::FlushAndStop,
        WriterEvent::AutoFrame => WriterAction::SendAutoFrame,
        WriterEvent::Outgoing(m) => match serialize_outgoing_message(protocol, &m) {
            Ok(message) => WriterAction::Send { message, restart_keepalive: true },
            Err(e) => WriterAction::Skip(e),
        },
        WriterEvent::KeepaliveTick => {
            let ping = keepalive_message();
            match serialize_outgoing_message(protocol, &ping) {
                Ok(message) => WriterAction::Send { message, restart_keepalive: false },
                Err(e) => WriterAction::Skip(e),
            }
        },
    }
}

// ---------------------------------------------------------------------------
// Batched records
// ---------------------------------------------------------------------------

/// Records sent one after another in a single text frame, each ended by the
/// record separator.
pub open spec fn batch(records: Seq<Seq<char>>) -> Seq<char>
    decreases records.len(),
{
    if records.len() == 0 {
        seq![]
    } else {
        batch(records.drop_last()) + records.last().push(RECORD_SEPARATOR)
    }
}

/// A record that comes out of a text frame as it went in: not empty, no
/// record separator inside, and no white space at either end (the JSON text
/// of a hub message is one: it is written between braces).
pub open spec fn clean_record(r: Seq<char>) -> bool {
    &&& r.len() > 0
    &&& !is_white_space(r[0])
    &&& !is_white_space(r[r.len() - 1])
    &&& forall|i: int| 0 <= i < r.len() ==> r[i] != RECORD_SEPARATOR
}

proof fn lemma_split_records_append(x: Seq<char>, r: Seq<char>)
    requires
        forall|i: int| 0 <= i < r.len() ==> r[i] != RECORD_SEPARATOR,
    ensures
        ({
            let p = split_records(x);
            &&& p.len() >= 1
            &&& split_records(x + r) == p.update(p.len() - 1, p.last() + r)
        }),
    decreases r.len(),
{
    lemma_split_records_nonempty(x);
    if r.len() == 0 {
        assert(x + r =~= x);
        let p = split_records(x);
        assert(p.update(p.len() - 1, p.last() + r) =~= p);
    } else {
        let r0 = r.drop_last();
        lemma_split_records_append(x, r0);
        assert((x + r).drop_last() =~= x + r0);
        assert((x + r).last() == r.last());
        let p = split_records(x);
        let q = split_records(x + r0);
        assert(q.last() == p.last() + r0);
        assert(q.update(q.len() - 1, q.last().push(r.last())) =~= p.update(p.len() - 1, p.last() + r)) by {
            assert(p.last() + r0 + seq![r.last()] =~= p.last() + r);
            assert(q.last().push(r.last()) =~= p.last() + r0 + seq![r.last()]);
        }
    }
}

proof fn lemma_split_records_nonempty(x: Seq<char>)
    ensures
        split_records(x).len() >= 1,
    decreases x.len(),
{
    if x.len() > 0 {
        lemma_split_records_nonempty(x.drop_last());
    }
}

proof fn lemma_clean_record_trimmed(r: Seq<char>)
    requires
        clean_record(r),
    ensures
        trim_ws(r) == r,
{
    assert(trim_start_ws(r) == r);
    assert(r.last() == r[r.len() - 1]);
    assert(trim_end_ws(r) == r);
}

proof fn lemma_batch_split(records: Seq<Seq<char>>)
    requires
        forall|i: int| 0 <= i < records.len() ==> clean_record(#[trigger] records[i]),
    ensures
        ({
            let p = split_records(batch(records));
            &&& p.len() >= 1
            &&& p.last() == Seq::<char>::empty()
            &&& nonempty_trimmed(p.drop_last()) == records
        }),
    decreases records.len(),
{
    if records.len() == 0 {
        assert(split_records(Seq::<char>::empty()).drop_last() =~= Seq::<Seq<char>>::empty());
    } else {
        let rs = records.drop_last();
        let r = records.last();
        assert forall|i: int| 0 <= i < rs.len() implies clean_record(#[trigger] rs[i]) by {
            assert(rs[i] == records[i]);
        }
        assert(clean_record(r)) by {
            assert(r == records[records.len() - 1]);
        }
        lemma_batch_split(rs);
        let x = batch(rs);
        let p = split_records(x);
        lemma_split_records_append(x, r);
        let q = split_records(x + r);
        assert(q == p.update(p.len() - 1, r)) by {
            assert(p.last() + r =~= r);
        }
        let whole = batch(records);
        assert(whole =~= (x + r).push(RECORD_SEPARATOR));
        assert(whole.drop_last() =~= x + r);
        let w = split_records(whole);
        assert(w == q.push(Seq::<char>::empty()));
        assert(w.drop_last() =~= q);
        assert(q.drop_last() =~= p.drop_last());
        lemma_clean_record_trimmed(r);
        assert(q.last() == r);
        assert(nonempty_trimmed(q) == nonempty_trimmed(q.drop_last()).push(r));
        assert(records =~= rs.push(r));
    }
}

/// Clean records batched into one text frame come out of it one by one, in
/// order: cutting at the separators and trimming undoes the batching.
pub proof fn law_text_frame_records_split_batch(records: Seq<Seq<char>>)
    requires
        forall|i: int| 0 <= i < records.len() ==> clean_record(#[trigger] records[i]),
    ensures
        nonempty_trimmed(split_records(batch(records))) == records,
{
    lemma_batch_split(records);
    let p = split_records(batch(records));
    assert(p =~= p.drop_last().push(p.last()));
    assert(trim_ws(Seq::<char>::empty()) =~= Seq::<char>::empty());
}

} // verus!
