//! SignalR hub messages.

use vstd::prelude::*;
use crate::value::JsonData;
use crate::value::JsonValue;
use crate::value::json_data_seq;
use crate::value::json_value_clone;
use crate::value::json_values_clone;

verus! {

/// The type of a SignalR message, as the `type` field numbers it.
#[derive(Debug, Clone, Copy, PartialEq, Eq)]
pub enum MessageType {
    /// Invocation message (type 1)
    Invocation,
    /// Stream item message (type 2)
    StreamItem,
    /// Completion message (type 3)
    Completion,
    /// Stream invocation message (type 4)
    StreamInvocation,
    /// Cancel invocation message (type 5)
    CancelInvocation,
    /// Ping message (type 6)
    Ping,
    /// Close message (type 7)
    Close,
}

/// The number the protocol gives each message type.
pub open spec fn message_type_number(t: MessageType) -> i32 {
    match t {
        MessageType::Invocation => 1,
        MessageType::StreamItem => 2,
        MessageType::Completion => 3,
        MessageType::StreamInvocation => 4,
        MessageType::CancelInvocation => 5,
        MessageType::Ping => 6,
        MessageType::Close => 7,
    }
}

impl MessageType {
    /// The protocol number of this message type.
    pub fn value(&self) -> (r: i32)
        ensures
            r == message_type_number(*self),
    {
        match self {
            MessageType::Invocation => 1,
            MessageType::StreamItem => 2,
            MessageType::Completion => 3,
            MessageType::StreamInvocation => 4,
            MessageType::CancelInvocation => 5,
            MessageType::Ping => 6,
            MessageType::Close => 7,
        }
    }
}

/// Invocation message - calls a method on the hub
#[derive(Debug)]
pub struct InvocationMessage {
    /// Optional invocation ID for request-response pattern
    pub invocation_id: Option<String>,
    /// The name of the target method
    pub target: String,
    /// The arguments to pass to the method
    pub arguments: Vec<JsonValue>,
    /// Optional stream IDs
    pub stream_ids: Option<Vec<String>>,
}

/// Stream item message
#[derive(Debug)]
pub struct StreamItemMessage {
    /// The invocation ID
    pub invocation_id: String,
    /// The item being streamed
    pub item: JsonValue,
}

/// Completion message - indicates the end of an invocation
#[derive(Debug)]
pub struct CompletionMessage {
    /// The invocation ID
    pub invocation_id: String,
    /// The result of the invocation (if successful)
    pub result: Option<JsonValue>,
    /// The error message (if failed)
    pub error: Option<String>,
}

/// Stream invocation message
#[derive(Debug)]
pub struct StreamInvocationMessage {
    /// The invocation ID
    pub invocation_id: String,
    /// The name of the target method
    pub target: String,
    /// The arguments to pass to the method
    pub arguments: Vec<JsonValue>,
    /// Optional stream IDs
    pub stream_ids: Option<Vec<String>>,
}

/// Cancel invocation message
#[derive(Debug)]
pub struct CancelInvocationMessage {
    /// The invocation ID to cancel
    pub invocation_id: String,
}

/// Ping message - keeps the connection alive
#[derive(Debug)]
pub struct PingMessage {}

/// Close message - gracefully closes the connection
#[derive(Debug)]
pub struct CloseMessage {
    /// Optional error message
    pub error: Option<String>,
    /// Whether to allow reconnection
    pub allow_reconnect: Option<bool>,
}

/// A SignalR hub message
#[derive(Debug)]
pub enum HubMessage {
    /// Invocation message
    Invocation(InvocationMessage),
    /// Stream item message
    StreamItem(StreamItemMessage),
    /// Completion message
    Completion(CompletionMessage),
    /// Stream invocation message
    StreamInvocation(StreamInvocationMessage),
    /// Cancel invocation message
    CancelInvocation(CancelInvocationMessage),
    /// Ping message
    Ping(PingMessage),
    /// Close message
    Close(CloseMessage),
}

/// The content of a hub message, with strings as character sequences and
/// JSON values as their data.
pub enum MessageData {
    Invocation {
        invocation_id: Option<Seq<char>>,
        target: Seq<char>,
        arguments: Seq<JsonData>,
        stream_ids: Option<Seq<Seq<char>>>,
    },
    StreamItem { invocation_id: Seq<char>, item: JsonData },
    Completion { invocation_id: Seq<char>, result: Option<JsonData>, error: Option<Seq<char>> },
    StreamInvocation {
        invocation_id: Seq<char>,
        target: Seq<char>,
        arguments: Seq<JsonData>,
        stream_ids: Option<Seq<Seq<char>>>,
    },
    CancelInvocation { invocation_id: Seq<char> },
    Ping,
    Close { error: Option<Seq<char>>, allow_reconnect: Option<bool> },
}

/// The text of an optional string.
pub open spec fn opt_string_view(o: Option<String>) -> Option<Seq<char>> {
    match o {
        Some(s) => Some(s@),
        None => None,
    }
}

/// The texts of a sequence of strings.
pub open spec fn strings_view(v: Seq<String>) -> Seq<Seq<char>> {
    v.map_values(|s: String| s@)
}

/// The texts of an optional sequence of strings.
pub open spec fn opt_strings_view(o: Option<Vec<String>>) -> Option<Seq<Seq<char>>> {
    match o {
        Some(v) => Some(strings_view(v@)),
        None => None,
    }
}

/// The content of an optional JSON value.
pub open spec fn opt_json_view(o: Option<JsonValue>) -> Option<JsonData> {
    match o {
        Some(v) => Some(v@),
        None => None,
    }
}

impl View for HubMessage {
    type V = MessageData;

    open spec fn view(&self) -> MessageData {
        match *self {
            HubMessage::Invocation(m) => MessageData::Invocation {
                invocation_id: opt_string_view(m.invocation_id),
                target: m.target@,
                arguments: json_data_seq(m.arguments@),
                stream_ids: opt_strings_view(m.stream_ids),
            },
            HubMessage::StreamItem(m) => MessageData::StreamItem {
                invocation_id: m.invocation_id@,
                item: m.item@,
            },
            HubMessage::Completion(m) => MessageData::Completion {
                invocation_id: m.invocation_id@,
                result: opt_json_view(m.result),
                error: opt_string_view(m.error),
            },
            HubMessage::StreamInvocation(m) => MessageData::StreamInvocation {
                invocation_id: m.invocation_id@,
                target: m.target@,
                arguments: json_data_seq(m.arguments@),
                stream_ids: opt_strings_view(m.stream_ids),
            },
            HubMessage::CancelInvocation(m) => MessageData::CancelInvocation {
                invocation_id: m.invocation_id@,
            },
            HubMessage::Ping(_) => MessageData::Ping,
            HubMessage::Close(m) => MessageData::Close {
                error: opt_string_view(m.error),
                allow_reconnect: m.allow_reconnect,
            },
        }
    }
}

/// The invocation ID a message carries, if any.
pub open spec fn message_invocation_id(m: MessageData) -> Option<Seq<char>> {
    match m {
        MessageData::Invocation { invocation_id, .. } => invocation_id,
        MessageData::StreamItem { invocation_id, .. } => Some(invocation_id),
        MessageData::Completion { invocation_id, .. } => Some(invocation_id),
        MessageData::StreamInvocation { invocation_id, .. } => Some(invocation_id),
        MessageData::CancelInvocation { invocation_id } => Some(invocation_id),
        _ => None,
    }
}

impl HubMessage {
    /// Get the invocation ID if present
    pub fn invocation_id(&self) -> (r: Option<&str>)
        ensures
            match r {
                Some(s) => message_invocation_id(self@) == Some(s@),
                None => message_invocation_id(self@) is None,
            },
    {
        match self {
            HubMessage::Invocation(msg) => match &msg.invocation_id {
                Some(id) => Some(id.as_str()),
                None => None,
            },
            HubMessage::StreamItem(msg) => Some(msg.invocation_id.as_str()),
            HubMessage::Completion(msg) => Some(msg.invocation_id.as_str()),
            HubMessage::StreamInvocation(msg) => Some(msg.invocation_id.as_str()),
            HubMessage::CancelInvocation(msg) => Some(msg.invocation_id.as_str()),
            _ => None,
        }
    }
}

fn clone_opt_string(o: &Option<String>) -> (r: Option<String>)
    ensures
        opt_string_view(r) == opt_string_view(*o),
{
    match o {
        Some(s) => Some(s.clone()),
        None => None,
    }
}

fn clone_strings(v: &Vec<String>) -> (r: Vec<String>)
    ensures
        strings_view(r@) == strings_view(v@),
{
    let mut out: Vec<String> = Vec::new();
    let mut i: usize = 0;
    while i < v.len()
        invariant
            i <= v@.len(),
            strings_view(out@) == strings_view(v@.take(i as int)),
        decreases v@.len() - i,
    {
        let ghost before = out@;
        out.push(v[i].clone());
        assert(strings_view(out@) =~= strings_view(before).push(v@[i as int]@));
        assert(v@.take(i + 1) =~= v@.take(i as int).push(v@[i as int]));
        assert(strings_view(v@.take(i + 1)) =~= strings_view(v@.take(i as int)).push(v@[i as int]@));
        i = i + 1;
    }
    assert(v@.take(v@.len() as int) =~= v@);
    out
}

fn clone_opt_strings(o: &Option<Vec<String>>) -> (r: Option<Vec<String>>)
    ensures
        opt_strings_view(r) == opt_strings_view(*o),
{
    match o {
        Some(v) => Some(clone_strings(v)),
        None => None,
    }
}

fn clone_opt_json(o: &Option<JsonValue>) -> (r: Option<JsonValue>)
    ensures
        opt_json_view(r) == opt_json_view(*o),
{
    match o {
        Some(v) => Some(json_value_clone(v)),
        None => None,
    }
}

impl Clone for HubMessage {
    fn clone(&self) -> (r: Self)
        ensures
            r@ == self@,
    {
        match self {
            HubMessage::Invocation(m) => HubMessage::Invocation(InvocationMessage {
                invocation_id: clone_opt_string(&m.invocation_id),
                target: m.target.clone(),
                arguments: json_values_clone(&m.arguments),
                stream_ids: clone_opt_strings(&m.stream_ids),
            }),
            HubMessage::StreamItem(m) => HubMessage::StreamItem(StreamItemMessage {
                invocation_id: m.invocation_id.clone(),
                item: json_value_clone(&m.item),
            }),
            HubMessage::Completion(m) => HubMessage::Completion(CompletionMessage {
                invocation_id: m.invocation_id.clone(),
                result: clone_opt_json(&m.result),
                error: clone_opt_string(&m.error),
            }),
            HubMessage::StreamInvocation(m) => HubMessage::StreamInvocation(StreamInvocationMessage {
                invocation_id: m.invocation_id.clone(),
                target: m.target.clone(),
                arguments: json_values_clone(&m.arguments),
                stream_ids: clone_opt_strings(&m.stream_ids),
            }),
            HubMessage::CancelInvocation(m) => HubMessage::CancelInvocation(CancelInvocationMessage {
                invocation_id: m.invocation_id.clone(),
            }),
            HubMessage::Ping(_) => HubMessage::Ping(PingMessage {}),
            HubMessage::Close(m) => HubMessage::Close(CloseMessage {
                error: clone_opt_string(&m.error),
                allow_reconnect: m.allow_reconnect,
            }),
        }
    }
}

impl Clone for InvocationMessage {
    fn clone(&self) -> (r: Self)
        ensures
            opt_string_view(r.invocation_id) == opt_string_view(self.invocation_id),
            r.target@ == self.target@,
            json_data_seq(r.arguments@) == json_data_seq(self.arguments@),
            opt_strings_view(r.stream_ids) == opt_strings_view(self.stream_ids),
    {
        InvocationMessage {
            invocation_id: clone_opt_string(&self.invocation_id),
            target: self.target.clone(),
            arguments: json_values_clone(&self.arguments),
            stream_ids: clone_opt_strings(&self.stream_ids),
        }
    }
}

impl Clone for StreamItemMessage {
    fn clone(&self) -> (r: Self)
        ensures
            r.invocation_id@ == self.invocation_id@,
            r.item@ == self.item@,
    {
        StreamItemMessage { invocation_id: self.invocation_id.clone(), item: json_value_clone(&self.item) }
    }
}

impl Clone for CompletionMessage {
    fn clone(&self) -> (r: Self)
        ensures
            r.invocation_id@ == self.invocation_id@,
            opt_json_view(r.result) == opt_json_view(self.result),
            opt_string_view(r.error) == opt_string_view(self.error),
    {
        CompletionMessage {
            invocation_id: self.invocation_id.clone(),
            result: clone_opt_json(&self.result),
            error: clone_opt_string(&self.error),
        }
    }
}

impl Clone for StreamInvocationMessage {
    fn clone(&self) -> (r: Self)
        ensures
            r.invocation_id@ == self.invocation_id@,
            r.target@ == self.target@,
            json_data_seq(r.arguments@) == json_data_seq(self.arguments@),
            opt_strings_view(r.stream_ids) == opt_strings_view(self.stream_ids),
    {
        StreamInvocationMessage {
            invocation_id: self.invocation_id.clone(),
            target: self.target.clone(),
            arguments: json_values_clone(&self.arguments),
            stream_ids: clone_opt_strings(&self.stream_ids),
        }
    }
}

impl Clone for CancelInvocationMessage {
    fn clone(&self) -> (r: Self)
        ensures
            r.invocation_id@ == self.invocation_id@,
    {
        CancelInvocationMessage { invocation_id: self.invocation_id.clone() }
    }
}

impl Clone for PingMessage {
    fn clone(&self) -> (r: Self) {
        PingMessage {}
    }
}

impl Clone for CloseMessage {
    fn clone(&self) -> (r: Self)
        ensures
            opt_string_view(r.error) == opt_string_view(self.error),
            r.allow_reconnect == self.allow_reconnect,
    {
        CloseMessage { error: clone_opt_string(&self.error), allow_reconnect: self.allow_reconnect }
    }
}

} // verus!
