//! SignalR hub protocol core: the JSON and MessagePack hub protocols, the
//! handshake, the binary framing, and the decisions a server takes on each
//! connection (what a message asks of the hub, what is sent back, when a
//! connection is closed), each with its contract.

pub mod error;
pub mod framing;
pub mod value;
pub mod message;
pub mod text;
pub mod messagepack;
pub mod json;
pub mod handshake;
pub mod session;
pub mod server;
pub mod connection;

pub use connection::ConnectionId;
pub use error::Result;
pub use error::SignalRError;
pub use handshake::HandshakeRequest;
pub use handshake::HandshakeResponse;
pub use handshake::Protocol;
pub use handshake::parse_handshake;
pub use handshake::serialize_handshake;
pub use json::parse_message;
pub use json::serialize_message;
pub use message::CancelInvocationMessage;
pub use message::CloseMessage;
pub use message::CompletionMessage;
pub use message::HubMessage;
pub use message::InvocationMessage;
pub use message::MessageType;
pub use message::PingMessage;
pub use message::StreamInvocationMessage;
pub use message::StreamItemMessage;
pub use messagepack::parse_message_messagepack;
pub use messagepack::serialize_message_messagepack;
pub use value::JsonNumber;
pub use value::JsonValue;
