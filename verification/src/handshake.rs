//! The handshake that opens a connection: the client names a hub protocol
//! and a version in a JSON record; the server answers with an empty object
//! or an object carrying the error.

use vstd::prelude::*;
use crate::error::Result;
use crate::error::SignalRError;
use crate::error::prefixed;
use crate::json::RECORD_SEPARATOR;
use crate::json::append_record_separator;
use crate::json::dec_string;
use crate::json::entry_lookup;
use crate::json::i32_type_error;
use crate::json::keys_distinct;
use crate::json::lemma_same_entries_same_lookups;
use crate::json::string_type_error;
use crate::json::json_custom_error;
use crate::json::json_error;
use crate::json::json_text_of;
use crate::json::json_text_value;
use crate::json::missing_field;
use crate::json::parse_json_text;
use crate::json::strip_record_separators;
use crate::json::trim_record_separators;
use crate::json::write_json_text;
use crate::json::push_entry;
use crate::json::decode_string;
use crate::json::lookup;
use crate::json::missing_field_text;
use crate::json::i32_type_error_text;
use crate::json::string_type_error_text;
use crate::text::append_int_decimal;
use crate::text::int_decimal;
use crate::value::JsonData;
use crate::value::JsonNumber;
use crate::value::JsonValue;
use crate::value::json_entries_data;
use crate::value::lemma_json_data_seq_index;
use crate::message::opt_string_view;
use crate::json::lemma_text_without_separator;
use crate::value::json_wf;
use crate::json::json_nesting_within;
use crate::json::json_float_free;
use crate::value::object_key_index;

verus! {

// ---------------------------------------------------------------------------
// Protocol names
// ---------------------------------------------------------------------------

/// What `str::to_lowercase` gives for a text (a function of the text alone).
pub uninterp spec fn lowercase_text(s: Seq<char>) -> Seq<char>;

/// Whether every character of a text is ASCII.
pub open spec fn ascii_only(s: Seq<char>) -> bool {
    forall|i: int| 0 <= i < s.len() ==> (#[trigger] s[i] as u32) < 128
}

/// A text with each ASCII uppercase letter replaced by its lowercase letter.
pub open spec fn ascii_lowercase(s: Seq<char>) -> Seq<char> {
    s.map_values(|c: char| if 65 <= (c as u32) <= 90 { ((c as u32) + 32) as char } else { c })
}

/// Lowercases a text with `str::to_lowercase`.
///
/// Unicode's lowercase mapping, which `to_lowercase` applies, takes each
/// ASCII uppercase letter to its ASCII lowercase letter and leaves every
/// other ASCII character as it is.
#[verifier::external_body]
fn to_lowercase(s: &str) -> (r: String)
    ensures
        r@ == lowercase_text(s@),
        ascii_only(s@) ==> r@ == ascii_lowercase(s@),
{
    s.to_lowercase()
}

/// Protocol type for SignalR communication
#[derive(Debug, Clone, Copy, PartialEq, Eq, Structural)]
pub enum Protocol {
    /// JSON protocol
    Json,
    /// MessagePack protocol
    MessagePack,
}

/// The name a protocol goes by in handshakes.
pub open spec fn protocol_name(p: Protocol) -> Seq<char> {
    match p {
        Protocol::Json => "json"@,
        Protocol::MessagePack => "messagepack"@,
    }
}

/// The protocol a lowercase name denotes.
pub open spec fn protocol_of_name(name: Seq<char>) -> Option<Protocol> {
    if name == "json"@ {
        Some(Protocol::Json)
    } else if name == "messagepack"@ {
        Some(Protocol::MessagePack)
    } else {
        None
    }
}

impl Protocol {
    /// Parse protocol from string (returns Option for convenience): the name
    /// is compared after lowercasing.
    pub fn parse(s: &str) -> (r: Option<Self>)
        ensures
            r == protocol_of_name(lowercase_text(s@)),
            ascii_only(s@) ==> r == protocol_of_name(ascii_lowercase(s@)),
    {
        let lower = to_lowercase(s);
        Protocol::from_lowercase_name(lower.as_str())
    }

    /// The protocol a lowercase name denotes: `json` or `messagepack`.
    pub fn from_lowercase_name(name: &str) -> (r: Option<Self>)
        ensures
            r == protocol_of_name(name@),
    {
        let n = String::from_str(name);
        if n == String::from_str("json") {
            Some(Protocol::Json)
        } else if n == String::from_str("messagepack") {
            Some(Protocol::MessagePack)
        } else {
            None
        }
    }

    /// Get protocol name as string
    pub fn as_str(&self) -> (r: &'static str)
        ensures
            r@ == protocol_name(*self),
    {
        match self {
            Protocol::Json => "json",
            Protocol::MessagePack => "messagepack",
        }
    }
}

impl core::str::FromStr for Protocol {
    type Err = String;

    fn from_str(s: &str) -> (r: core::result::Result<Self, Self::Err>)
        ensures
            match r {
                Ok(p) => protocol_of_name(lowercase_text(s@)) == Some(p),
                Err(e) => protocol_of_name(lowercase_text(s@)) is None && e@ == "Unknown protocol: "@ + s@,
            },
            ascii_only(s@) ==> protocol_of_name(ascii_lowercase(s@)) == protocol_of_name(lowercase_text(s@)),
    {
        match Protocol::parse(s) {
            Some(p) => Ok(p),
            None => Err(prefixed("Unknown protocol: ", s)),
        }
    }
}

/// A protocol's name denotes the protocol.
pub proof fn law_protocol_name_denotes(p: Protocol)
    ensures
        protocol_of_name(protocol_name(p)) == Some(p),
{
    reveal_strlit("json");
    reveal_strlit("messagepack");
    assert("json"@.len() != "messagepack"@.len());
}

// ---------------------------------------------------------------------------
// Handshake request and response
// ---------------------------------------------------------------------------

/// SignalR handshake request
#[derive(Debug, Clone)]
pub struct HandshakeRequest {
    /// The protocol to use (e.g., "json")
    pub protocol: String,
    /// The protocol version
    pub version: i32,
}

/// SignalR handshake response
#[derive(Debug, Clone)]
pub struct HandshakeResponse {
    /// Error message if handshake failed
    pub error: Option<String>,
}

impl HandshakeResponse {
    /// Create a successful handshake response
    pub fn success() -> (r: Self)
        ensures
            r.error is None,
    {
        HandshakeResponse { error: None }
    }

    /// Create a failed handshake response
    pub fn error(message: &str) -> (r: Self)
        ensures
            r.error matches Some(e) && e@ == message@,
    {
        HandshakeResponse { error: Some(String::from_str(message)) }
    }
}

/// The `i32` a JSON number denotes, if it is an integer in range.
pub open spec fn json_i32(n: JsonNumber) -> Option<i32> {
    match n {
        JsonNumber::PosInt(u) => if u <= i32::MAX {
            Some(u as i32)
        } else {
            None
        },
        JsonNumber::NegInt(i) => if i32::MIN <= i {
            Some(i as i32)
        } else {
            None
        },
        JsonNumber::Float(_) => None,
    }
}

/// The version a JSON value gives, if it is an `i32`.
pub open spec fn json_version(d: JsonData) -> Option<i32> {
    match d {
        JsonData::Number(n) => json_i32(n),
        _ => None,
    }
}

/// The protocol name and version a JSON value holds: an object with the
/// fields `protocol` and `version`, or an array of the two in that order,
/// read element by element as serde's derived decoder reads a sequence.
pub open spec fn spec_handshake_from_json(d: JsonData) -> core::result::Result<(Seq<char>, i32), Seq<char>> {
    match d {
        JsonData::Object(entries) => match dec_string(entries, "protocol"@) {
            Err(e) => Err(e),
            Ok(p) => match entry_lookup(entries, "version"@) {
                None => Err(missing_field("version"@)),
                Some(v) => match json_version(v) {
                    Some(n) => Ok((p, n)),
                    None => Err(i32_type_error(v)),
                },
            },
        },
        JsonData::Array(items) => if items.len() == 0 {
            Err("invalid length 0, expected struct HandshakeRequest with 2 elements"@)
        } else {
            match items[0] {
                JsonData::Str(p) => if items.len() == 1 {
                    Err("invalid length 1, expected struct HandshakeRequest with 2 elements"@)
                } else {
                    match json_version(items[1]) {
                        None => Err(i32_type_error(items[1])),
                        Some(n) => if items.len() > 2 {
                            Err("trailing characters"@)
                        } else {
                            Ok((p, n))
                        },
                    }
                },
                v => Err(string_type_error(v)),
            }
        },
        _ => Err("invalid type, expected struct HandshakeRequest"@),
    }
}

fn version_of(v: &JsonValue) -> (r: Option<i32>)
    ensures
        r == json_version(v@),
{
    match v {
        JsonValue::Number(JsonNumber::PosInt(u)) => if *u <= 0x7fff_ffffu64 {
            Some(*u as i32)
        } else {
            None
        },
        JsonValue::Number(JsonNumber::NegInt(i)) => if *i >= -0x8000_0000i64 {
            Some(*i as i32)
        } else {
            None
        },
        _ => None,
    }
}

/// Reads a handshake request from a JSON value; on failure, gives the text
/// of the error.
pub fn handshake_from_json(value: &JsonValue) -> (r: core::result::Result<HandshakeRequest, String>)
    ensures
        match r {
            Ok(h) => spec_handshake_from_json(value@) == Ok::<(Seq<char>, i32), Seq<char>>((h.protocol@, h.version)),
            Err(t) => spec_handshake_from_json(value@) == Err::<(Seq<char>, i32), Seq<char>>(t@),
        },
{
    match value {
        JsonValue::Object(entries) => {
            let protocol = match decode_string(entries, "protocol") {
                Ok(p) => p,
                Err(e) => return Err(e),
            };
            match lookup(entries, "version") {
                None => Err(missing_field_text("version")),
                Some(v) => match version_of(v) {
                    Some(version) => Ok(HandshakeRequest { protocol, version }),
                    None => Err(i32_type_error_text(v)),
                },
            }
        },
        JsonValue::Array(items) => {
            proof {
                lemma_json_data_seq_index(items@);
            }
            if items.len() == 0 {
                return Err(String::from_str("invalid length 0, expected struct HandshakeRequest with 2 elements"));
            }
            match &items[0] {
                JsonValue::String(p) => {
                    if items.len() == 1 {
                        return Err(String::from_str("invalid length 1, expected struct HandshakeRequest with 2 elements"));
                    }
                    match version_of(&items[1]) {
                        None => Err(i32_type_error_text(&items[1])),
                        Some(version) => if items.len() > 2 {
                            Err(String::from_str("trailing characters"))
                        } else {
                            Ok(HandshakeRequest { protocol: p.clone(), version })
                        },
                    }
                },
                other => Err(string_type_error_text(other)),
            }
        },
        _ => Err(String::from_str("invalid type, expected struct HandshakeRequest")),
    }
}

/// The handshake request a text holds, after the record separators at its
/// end are removed; the error is serde_json's.
pub open spec fn spec_parse_handshake(text: Seq<char>) -> core::result::Result<(Seq<char>, i32), serde_json::Error> {
    match json_text_value(trim_record_separators(text)) {
        Err(e) => Err(e),
        Ok((d, end)) => match spec_handshake_from_json(d) {
            Err(t) => Err(json_custom_error(t)),
            Ok(h) => match end {
                Some(e) => Err(e),
                None => Ok(h),
            },
        },
    }
}

/// Parse a handshake request from a JSON string
pub fn parse_handshake(data: &str) -> (r: Result<HandshakeRequest>)
    ensures
        match r {
            Ok(h) => spec_parse_handshake(data@) == Ok::<(Seq<char>, i32), serde_json::Error>((h.protocol@, h.version)),
            Err(SignalRError::Json(e)) => spec_parse_handshake(data@) == Err::<(Seq<char>, i32), serde_json::Error>(e),
            Err(_) => false,
        },
{
    let text = strip_record_separators(data);
    let (value, end) = match parse_json_text(text.as_str()) {
        Ok(parsed) => parsed,
        Err(e) => return Err(SignalRError::Json(e)),
    };
    match handshake_from_json(&value) {
        Ok(h) => match end {
            Some(e) => Err(SignalRError::Json(e)),
            None => Ok(h),
        },
        Err(t) => Err(SignalRError::Json(json_error(t))),
    }
}

/// The JSON object for a handshake response: the error, when there is one.
pub open spec fn spec_handshake_response_json(error: Option<Seq<char>>) -> JsonData {
    match error {
        Some(e) => JsonData::Object(seq![("error"@, JsonData::Str(e))]),
        None => JsonData::Object(seq![]),
    }
}

/// The text for a handshake response, ended by the record separator.
pub open spec fn spec_serialize_handshake(error: Option<Seq<char>>) -> core::result::Result<Seq<char>, serde_json::Error> {
    match json_text_of(spec_handshake_response_json(error)) {
        Ok(t) => Ok(t.push(RECORD_SEPARATOR)),
        Err(e) => Err(e),
    }
}

/// Serialize a handshake response to a JSON string with record separator
pub fn serialize_handshake(response: &HandshakeResponse) -> (r: Result<String>)
    ensures
        r is Ok,
        match r {
            Ok(t) => spec_serialize_handshake(opt_string_view(response.error)) == Ok::<Seq<char>, serde_json::Error>(t@),
            Err(SignalRError::Json(e)) => spec_serialize_handshake(opt_string_view(response.error)) == Err::<Seq<char>, serde_json::Error>(e),
            Err(_) => false,
        },
{
    let mut entries: Vec<(String, JsonValue)> = Vec::new();
    assert(json_entries_data(entries@) =~= Seq::<(Seq<char>, JsonData)>::empty());
    if let Some(e) = &response.error {
        push_entry(&mut entries, "error", JsonValue::String(e.clone()));
        assert(json_entries_data(entries@) =~= seq![("error"@, JsonData::Str(e@))]);
    }
    let value = JsonValue::Object(entries);
    match write_json_text(&value) {
        Ok(text) => Ok(append_record_separator(text)),
        Err(e) => Err(SignalRError::Json(e)),
    }
}

// ---------------------------------------------------------------------------
// Validation
// ---------------------------------------------------------------------------

/// Checks a handshake request: the version must be 1 and the protocol one
/// of ours (compared after lowercasing).
pub fn validate_handshake(handshake: &HandshakeRequest) -> (r: Result<Protocol>)
    ensures
        handshake.version != 1 ==> (r matches Err(SignalRError::InvalidHandshake(t))
            && t@ == "Unsupported protocol version: "@ + int_decimal(handshake.version as int)),
        handshake.version == 1 ==> match protocol_of_name(lowercase_text(handshake.protocol@)) {
            Some(p) => r == Ok::<Protocol, SignalRError>(p),
            None => r matches Err(SignalRError::UnsupportedProtocol(t)) && t@ == handshake.protocol@,
        },
{
    if handshake.version != 1 {
        let mut t = String::from_str("Unsupported protocol version: ");
        append_int_decimal(&mut t, handshake.version as i64);
        return Err(SignalRError::InvalidHandshake(t));
    }
    match Protocol::parse(handshake.protocol.as_str()) {
        Some(p) => Ok(p),
        None => Err(SignalRError::UnsupportedProtocol(handshake.protocol.clone())),
    }
}

/// The JSON number for an `i32`, in serde_json's representation.
pub open spec fn i32_json(v: i32) -> JsonData {
    if v >= 0 {
        JsonData::Number(JsonNumber::PosInt(v as u64))
    } else {
        JsonData::Number(JsonNumber::NegInt(v as i64))
    }
}

/// The JSON object for a handshake request.
pub open spec fn spec_handshake_request_json(protocol: Seq<char>, version: i32) -> JsonData {
    JsonData::Object(seq![("protocol"@, JsonData::Str(protocol)), ("version"@, i32_json(version))])
}

/// The JSON text for a handshake request (without record separator).
pub fn serialize_handshake_request(request: &HandshakeRequest) -> (r: Result<String>)
    ensures
        r is Ok,
        match r {
            Ok(t) => json_text_of(spec_handshake_request_json(request.protocol@, request.version)) == Ok::<Seq<char>, serde_json::Error>(t@)
                && spec_parse_handshake(t@) == Ok::<(Seq<char>, i32), serde_json::Error>((request.protocol@, request.version)),
            Err(SignalRError::Json(e)) => json_text_of(spec_handshake_request_json(request.protocol@, request.version)) == Err::<Seq<char>, serde_json::Error>(e),
            Err(_) => false,
        },
{
    let mut entries: Vec<(String, JsonValue)> = Vec::new();
    assert(json_entries_data(entries@) =~= Seq::<(Seq<char>, JsonData)>::empty());
    push_entry(&mut entries, "protocol", JsonValue::String(request.protocol.clone()));
    let version = if request.version >= 0 {
        JsonValue::Number(JsonNumber::PosInt(request.version as u64))
    } else {
        JsonValue::Number(JsonNumber::NegInt(request.version as i64))
    };
    push_entry(&mut entries, "version", version);
    let value = JsonValue::Object(entries);
    assert(json_entries_data(entries@) =~= seq![
        ("protocol"@, JsonData::Str(request.protocol@)),
        ("version"@, i32_json(request.version)),
    ]);
    match write_json_text(&value) {
        Ok(t) => {
            proof {
                lemma_handshake_request_keys();
                lemma_text_without_separator(t@);
                let e = seq![
                    ("protocol"@, JsonData::Str(request.protocol@)),
                    ("version"@, i32_json(request.version)),
                ];
                assert(value@ == JsonData::Object(e));
                assert forall|i: int, j: int| 0 <= i < j < e.len() implies #[trigger] e[i].0 != #[trigger] e[j].0 by {}
                assert forall|i: int| 0 <= i < e.len() implies json_wf(#[trigger] e[i].1) by {}
                assert(json_wf(value@));
                assert forall|i: int| 0 <= i < e.len() implies json_float_free(#[trigger] e[i].1) by {}
                assert(json_float_free(value@));
                assert forall|i: int| 0 <= i < e.len() implies json_nesting_within(#[trigger] e[i].1, 126) by {}
                assert(json_nesting_within(value@, 127));
                reveal_with_fuel(object_key_index, 3);
                assert(json_version(i32_json(request.version)) == Some(request.version));
            }
            Ok(t)
        },
        Err(e) => Err(SignalRError::Json(e)),
    }
}

proof fn lemma_handshake_request_keys()
    ensures
        "protocol"@ != "version"@,
{
    reveal_strlit("protocol");
    reveal_strlit("version");
    assert("protocol"@.len() != "version"@.len());
}

/// Reading a handshake request from a JSON object does not depend on the
/// order of its entries: two objects with distinct keys and the same entries
/// give the same request, or the same error.
pub proof fn law_handshake_decoding_ignores_entry_order(e1: Seq<(Seq<char>, JsonData)>, e2: Seq<(Seq<char>, JsonData)>)
    requires
        keys_distinct(e1),
        keys_distinct(e2),
        forall|i: int| 0 <= i < e1.len() ==> e2.contains(#[trigger] e1[i]),
        forall|i: int| 0 <= i < e2.len() ==> e1.contains(#[trigger] e2[i]),
    ensures
        spec_handshake_from_json(JsonData::Object(e1)) == spec_handshake_from_json(JsonData::Object(e2)),
{
    lemma_same_entries_same_lookups(e1, e2);
    assert(entry_lookup(e1, "protocol"@) == entry_lookup(e2, "protocol"@));
    assert(entry_lookup(e1, "version"@) == entry_lookup(e2, "version"@));
}

} // verus!
