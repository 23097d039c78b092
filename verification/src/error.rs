//! Error type for SignalR operations.

use vstd::prelude::*;

verus! {

#[verifier::external_type_specification]
#[verifier::external_body]
pub struct ExWebSocketError(fastwebsockets::WebSocketError);

#[verifier::external_type_specification]
#[verifier::external_body]
pub struct ExJsonError(serde_json::Error);

#[verifier::external_type_specification]
#[verifier::external_body]
pub struct ExMessagePackEncodeError(rmp_serde::encode::Error);

#[verifier::external_type_specification]
#[verifier::external_body]
pub struct ExMessagePackDecodeError(rmp_serde::decode::Error);

#[verifier::external_type_specification]
#[verifier::external_body]
pub struct ExIoError(std::io::Error);

/// Result type for SignalR operations.
pub type Result<T> = core::result::Result<T, SignalRError>;

/// Errors that can occur during SignalR operations.
#[derive(Debug)]
pub enum SignalRError {
    /// WebSocket error
    WebSocket(fastwebsockets::WebSocketError),
    /// JSON serialization/deserialization error
    Json(serde_json::Error),
    /// MessagePack serialization error
    MessagePack(rmp_serde::encode::Error),
    /// MessagePack deserialization error
    MessagePackDecode(rmp_serde::decode::Error),
    /// IO error
    Io(std::io::Error),
    /// Protocol error
    Protocol(String),
    /// Invalid server configuration
    InvalidConfiguration(String),
    /// Connection closed
    ConnectionClosed,
    /// Invalid handshake
    InvalidHandshake(String),
    /// Unsupported protocol
    UnsupportedProtocol(String),
}

/// Formats a `fastwebsockets::WebSocketError` with its `Display` impl. The
/// text may carry an operating-system message (for I/O failures), so nothing
/// is promised of it.
#[verifier::external_body]
fn display_websocket_error(e: &fastwebsockets::WebSocketError) -> String {
    format!("{}", e)
}

/// Formats a `serde_json::Error` with its `Display` impl. The text may carry
/// an operating-system message (for I/O failures), so nothing is promised of
/// it.
#[verifier::external_body]
fn display_json_error(e: &serde_json::Error) -> String {
    format!("{}", e)
}

/// Formats an `rmp_serde::encode::Error` with its `Display` impl. The text
/// may carry an operating-system message (for I/O failures), so nothing is
/// promised of it.
#[verifier::external_body]
fn display_messagepack_encode_error(e: &rmp_serde::encode::Error) -> String {
    format!("{}", e)
}

/// Formats an `rmp_serde::decode::Error` with its `Display` impl. The text
/// may carry an operating-system message (for I/O failures), so nothing is
/// promised of it.
#[verifier::external_body]
fn display_messagepack_decode_error(e: &rmp_serde::decode::Error) -> String {
    format!("{}", e)
}

/// Formats a `std::io::Error` with its `Display` impl. The text of an
/// operating-system error comes from the system, so nothing is promised of
/// it.
#[verifier::external_body]
fn display_io_error(e: &std::io::Error) -> String {
    format!("{}", e)
}

/// Concatenates a literal prefix and a string.
pub fn prefixed(prefix: &str, rest: &str) -> (r: String)
    ensures
        r@ == prefix@ + rest@,
{
    let mut r = String::from_str(prefix);
    r.append(rest);
    r
}

/// Whether `t` starts with `p`.
pub open spec fn has_prefix(t: Seq<char>, p: Seq<char>) -> bool {
    p.len() <= t.len() && t.subrange(0, p.len() as int) == p
}

/// Whether `t` is the text of the error `e`: for the library's own errors
/// the exact words; for an error of an outside crate, a fixed prefix and
/// then that error's own message.
pub open spec fn error_text_fits(e: SignalRError, t: Seq<char>) -> bool {
    match e {
        SignalRError::WebSocket(_) => has_prefix(t, "WebSocket error: "@),
        SignalRError::Json(_) => has_prefix(t, "JSON error: "@),
        SignalRError::MessagePack(_) => has_prefix(t, "MessagePack error: "@),
        SignalRError::MessagePackDecode(_) => has_prefix(t, "MessagePack decode error: "@),
        SignalRError::Io(_) => has_prefix(t, "IO error: "@),
        SignalRError::Protocol(s) => t == "Protocol error: "@ + s@,
        SignalRError::InvalidConfiguration(s) => t == "Invalid configuration: "@ + s@,
        SignalRError::ConnectionClosed => t == "Connection closed"@,
        SignalRError::InvalidHandshake(s) => t == "Invalid handshake: "@ + s@,
        SignalRError::UnsupportedProtocol(s) => t == "Unsupported protocol: "@ + s@,
    }
}

/// Prefixes a detail text; the result starts with the prefix.
fn prefixed_detail(prefix: &str, detail: String) -> (r: String)
    ensures
        has_prefix(r@, prefix@),
{
    let r = prefixed(prefix, detail.as_str());
    assert(r@.subrange(0, prefix@.len() as int) =~= prefix@);
    r
}

impl SignalRError {
    /// Renders the error as text, e.g. `Protocol error: <detail>`.
    pub fn to_string(&self) -> (r: String)
        ensures
            error_text_fits(*self, r@),
    {
        match self {
            SignalRError::WebSocket(w) => prefixed_detail("WebSocket error: ", display_websocket_error(w)),
            SignalRError::Json(j) => prefixed_detail("JSON error: ", display_json_error(j)),
            SignalRError::MessagePack(m) => prefixed_detail("MessagePack error: ", display_messagepack_encode_error(m)),
            SignalRError::MessagePackDecode(m) => prefixed_detail(
                "MessagePack decode error: ",
                display_messagepack_decode_error(m),
            ),
            SignalRError::Io(i) => prefixed_detail("IO error: ", display_io_error(i)),
            SignalRError::Protocol(s) => prefixed("Protocol error: ", s.as_str()),
            SignalRError::InvalidConfiguration(s) => prefixed(
                "Invalid configuration: ",
                s.as_str(),
            ),
            SignalRError::ConnectionClosed => String::from_str("Connection closed"),
            SignalRError::InvalidHandshake(s) => prefixed("Invalid handshake: ", s.as_str()),
            SignalRError::UnsupportedProtocol(s) => prefixed("Unsupported protocol: ", s.as_str()),
        }
    }
}

impl From<fastwebsockets::WebSocketError> for SignalRError {
    fn from(e: fastwebsockets::WebSocketError) -> (r: Self) {
        SignalRError::WebSocket(e)
    }
}

impl vstd::std_specs::convert::FromSpecImpl<fastwebsockets::WebSocketError> for SignalRError {
    open spec fn obeys_from_spec() -> bool {
        true
    }

    open spec fn from_spec(e: fastwebsockets::WebSocketError) -> Self {
        SignalRError::WebSocket(e)
    }
}

impl From<serde_json::Error> for SignalRError {
    fn from(e: serde_json::Error) -> (r: Self) {
        SignalRError::Json(e)
    }
}

impl vstd::std_specs::convert::FromSpecImpl<serde_json::Error> for SignalRError {
    open spec fn obeys_from_spec() -> bool {
        true
    }

    open spec fn from_spec(e: serde_json::Error) -> Self {
        SignalRError::Json(e)
    }
}

impl From<rmp_serde::encode::Error> for SignalRError {
    fn from(e: rmp_serde::encode::Error) -> (r: Self) {
        SignalRError::MessagePack(e)
    }
}

impl vstd::std_specs::convert::FromSpecImpl<rmp_serde::encode::Error> for SignalRError {
    open spec fn obeys_from_spec() -> bool {
        true
    }

    open spec fn from_spec(e: rmp_serde::encode::Error) -> Self {
        SignalRError::MessagePack(e)
    }
}

impl From<rmp_serde::decode::Error> for SignalRError {
    fn from(e: rmp_serde::decode::Error) -> (r: Self) {
        SignalRError::MessagePackDecode(e)
    }
}

impl vstd::std_specs::convert::FromSpecImpl<rmp_serde::decode::Error> for SignalRError {
    open spec fn obeys_from_spec() -> bool {
        true
    }

    open spec fn from_spec(e: rmp_serde::decode::Error) -> Self {
        SignalRError::MessagePackDecode(e)
    }
}

impl From<std::io::Error> for SignalRError {
    fn from(e: std::io::Error) -> (r: Self) {
        SignalRError::Io(e)
    }
}

impl vstd::std_specs::convert::FromSpecImpl<std::io::Error> for SignalRError {
    open spec fn obeys_from_spec() -> bool {
        true
    }

    open spec fn from_spec(e: std::io::Error) -> Self {
        SignalRError::Io(e)
    }
}

} // verus!
