//! The JSON hub protocol: hub messages as JSON objects, text written and
//! read by serde_json, and records ended by the record separator.

use vstd::prelude::*;
use crate::error::Result;
use crate::error::SignalRError;
use crate::message::CancelInvocationMessage;
use crate::message::CloseMessage;
use crate::message::CompletionMessage;
use crate::message::HubMessage;
use crate::message::InvocationMessage;
use crate::message::MessageData;
use crate::message::MessageType;
use crate::message::PingMessage;
use crate::message::StreamInvocationMessage;
use crate::message::StreamItemMessage;
use crate::message::opt_json_view;
use crate::message::opt_string_view;
use crate::message::opt_strings_view;
use crate::message::strings_view;
use crate::text::chars_of;
use crate::text::push_char;
use crate::value::JsonData;
use crate::value::JsonNumber;
use crate::value::JsonValue;
use crate::value::json_data;
use crate::value::json_data_seq;
use crate::value::json_entries_data;
use crate::value::lemma_json_data_seq_index;
use crate::value::lemma_json_entries_data_index;
use crate::value::object_key_index;
use crate::value::lemma_object_key_index;
use crate::value::json_value_clone;
use crate::value::json_values_clone;
use crate::value::json_wf;
use crate::error::prefixed;
use crate::text::decimal;
use crate::text::append_decimal;

verus! {

/// The record separator that ends every JSON record.
pub const RECORD_SEPARATOR: char = '\u{1e}';

// ---------------------------------------------------------------------------
// serde_json
// ---------------------------------------------------------------------------

#[verifier::external_type_specification]
#[verifier::external_body]
pub struct ExJsonValue(serde_json::Value);

/// What serde_json's `Deserializer::from_str` gives for a text when a
/// `serde_json::Value` is read from its front and `Deserializer::end` then
/// checks that only white space follows: the value with the error of that
/// check (`None` when it passes), or the error of the read (with its
/// position), all a function of the text.
pub uninterp spec fn json_text_value(text: Seq<char>) -> core::result::Result<
    (JsonData, Option<serde_json::Error>),
    serde_json::Error,
>;

/// What `serde_json::to_string` writes for a value.
pub uninterp spec fn json_text_of(v: JsonData) -> core::result::Result<Seq<char>, serde_json::Error>;

/// The error `serde::de::Error::custom` makes for `serde_json::Error` from a
/// message.
pub uninterp spec fn json_custom_error(msg: Seq<char>) -> serde_json::Error;

/// Moves a `serde_json::Value` into the library's model, variant by variant.
#[verifier::external_body]
fn from_serde_json(value: serde_json::Value) -> JsonValue {
    match value {
        serde_json::Value::Array(items) => JsonValue::Array(items.into_iter().map(from_serde_json).collect()),
        serde_json::Value::Object(map) => JsonValue::Object(map.into_iter().map(|(k, v)| (k, from_serde_json(v))).collect()),
        serde_json::Value::Null => JsonValue::Null,
        serde_json::Value::Bool(b) => JsonValue::Bool(b),
        serde_json::Value::Number(n) => JsonValue::Number(from_serde_number(n)),
        serde_json::Value::String(s) => JsonValue::String(s),
    }
}

/// Moves a `serde_json::Number` into the library's model, by the
/// representation serde_json keeps it in (`as_u64`, else `as_i64`, else a
/// float).
#[verifier::external_body]
fn from_serde_number(n: serde_json::Number) -> JsonNumber {
    match (n.as_u64(), n.as_i64()) {
        (Some(u), _) => JsonNumber::PosInt(u),
        (None, Some(i)) => JsonNumber::NegInt(i),
        (None, None) => JsonNumber::Float(n),
    }
}

/// Builds the `serde_json::Value` for a value of the library's model,
/// variant by variant.
#[verifier::external_body]
fn to_serde_json(value: &JsonValue) -> serde_json::Value {
    match value {
        JsonValue::Null => serde_json::Value::Null,
        JsonValue::Bool(b) => serde_json::Value::Bool(*b),
        JsonValue::Number(n) => serde_json::Value::Number(to_serde_number(n)),
        JsonValue::String(s) => serde_json::Value::String(s.clone()),
        JsonValue::Array(items) => serde_json::Value::Array(items.iter().map(to_serde_json).collect()),
        JsonValue::Object(entries) => serde_json::Value::Object(entries.iter().map(|(k, v)| (k.clone(), to_serde_json(v))).collect()),
    }
}

/// Builds the `serde_json::Number` for a number of the library's model.
#[verifier::external_body]
fn to_serde_number(n: &JsonNumber) -> serde_json::Number {
    match n {
        JsonNumber::PosInt(u) => serde_json::Number::from(*u),
        JsonNumber::NegInt(i) => serde_json::Number::from(*i),
        JsonNumber::Float(f) => f.clone(),
    }
}

/// Reads a `serde_json::Value` from the front of a JSON text with
/// `serde_json::Deserializer::from_str`, then runs `Deserializer::end`,
/// which fails when anything but white space follows. These are the two
/// steps of `serde_json::from_str`, kept apart so that a caller can decode
/// the value before it reports trailing characters, as `from_str` does.
///
/// A parsed `serde_json::Value` is well-formed (see `json_wf`): its maps
/// hold each key once, a negative integer is kept as one, and a number that
/// is neither kind of integer is kept as a float.
#[verifier::external_body]
pub(crate) fn parse_json_text(text: &str) -> (r: core::result::Result<(JsonValue, Option<serde_json::Error>), serde_json::Error>)
    ensures
        r matches Ok((v, _)) ==> json_wf(v@),
        match r {
            Ok((v, end)) => json_text_value(text@) == Ok::<(JsonData, Option<serde_json::Error>), serde_json::Error>((v@, end)),
            Err(e) => json_text_value(text@) == Err::<(JsonData, Option<serde_json::Error>), serde_json::Error>(e),
        },
{
    let mut de = serde_json::Deserializer::from_str(text);
    match <serde_json::Value as serde::Deserialize>::deserialize(&mut de) {
        Ok(value) => Ok((from_serde_json(value), de.end().err())),
        Err(e) => Err(e),
    }
}

/// Whether a JSON value nests arrays and objects at most `n` deep.
pub open spec fn json_nesting_within(d: JsonData, n: nat) -> bool
    decreases d,
{
    match d {
        JsonData::Array(items) => n > 0 && forall|i: int|
            0 <= i < items.len() ==> json_nesting_within(#[trigger] items[i], (n - 1) as nat),
        JsonData::Object(entries) => n > 0 && forall|i: int|
            0 <= i < entries.len() ==> json_nesting_within(#[trigger] entries[i].1, (n - 1) as nat),
        _ => true,
    }
}

/// Whether a JSON value holds no float anywhere.
pub open spec fn json_float_free(d: JsonData) -> bool
    decreases d,
{
    match d {
        JsonData::Number(JsonNumber::Float(_)) => false,
        JsonData::Array(items) => forall|i: int| 0 <= i < items.len() ==> json_float_free(#[trigger] items[i]),
        JsonData::Object(entries) => forall|i: int| 0 <= i < entries.len() ==> json_float_free(#[trigger] entries[i].1),
        _ => true,
    }
}

/// Writes a value as JSON text with `serde_json::to_string`.
///
/// Writing a `serde_json::Value` does not fail (its map keys are strings,
/// and the output is a `Vec`). serde_json escapes every control character,
/// so the text holds no record separator. Reading the text back (see
/// `json_text_value`) gives the value again, with nothing after it, when
/// the value has no
/// floats (serde_json parses float text with best-effort precision unless
/// its `float_roundtrip` feature is on, so their text is not promised to
/// read back exactly), no object with a repeated key (a map keeps one entry
/// per key), integers in serde_json's own form, and nesting under the
/// parser's recursion limit (it starts at 128 and fails when an array or
/// object brings it to 0, so 127 levels read).
/// The compact form of an object is written between its braces, with no
/// white space around them.
#[verifier::external_body]
pub(crate) fn write_json_text(v: &JsonValue) -> (r: core::result::Result<String, serde_json::Error>)
    ensures
        r is Ok,
        match r {
            Ok(t) => json_text_of(v@) == Ok::<Seq<char>, serde_json::Error>(t@)
                && (forall|i: int| 0 <= i < t@.len() ==> t@[i] != RECORD_SEPARATOR)
                && (v@ is Object ==> t@.len() >= 2 && t@[0] == '{' && t@[t@.len() - 1] == '}')
                && (json_wf(v@) && json_float_free(v@) && json_nesting_within(v@, 127) ==> json_text_value(t@) == Ok::<
                    (JsonData, Option<serde_json::Error>),
                    serde_json::Error,
                >((v@, None))),
            Err(e) => json_text_of(v@) == Err::<Seq<char>, serde_json::Error>(e),
        },
{
    serde_json::to_string(&to_serde_json(v))
}

/// Makes a `serde_json::Error` from a message with `serde::de::Error::custom`.
#[verifier::external_body]
pub(crate) fn json_error(msg: String) -> (e: serde_json::Error)
    ensures
        e == json_custom_error(msg@),
{
    <serde_json::Error as serde::de::Error>::custom(msg)
}

/// The text of the error `serde_json::from_value::<String>` gives for a value
/// that is not a string (such as "invalid type: integer `5`, expected a
/// string").
pub uninterp spec fn string_type_error(v: JsonData) -> Seq<char>;

/// The text of the error `serde_json::from_value::<Vec<serde_json::Value>>`
/// gives for a value that is not an array.
pub uninterp spec fn sequence_type_error(v: JsonData) -> Seq<char>;

/// The text of the error `serde_json::from_value::<bool>` gives for a value
/// that is not a boolean.
pub uninterp spec fn boolean_type_error(v: JsonData) -> Seq<char>;

/// The text of the error `serde_json::from_value::<i32>` gives for a value
/// that is not an integer in `i32`'s range.
pub uninterp spec fn i32_type_error(v: JsonData) -> Seq<char>;

/// Reads a value as a `String` with `serde_json::from_value`, which fails
/// on a value that is not a string; gives the `Display` text of the error.
#[verifier::external_body]
pub(crate) fn string_type_error_text(v: &JsonValue) -> (r: String)
    requires
        !(v@ is Str),
    ensures
        r@ == string_type_error(v@),
{
    match serde_json::from_value::<String>(to_serde_json(v)) {
        Err(e) => e.to_string(),
        Ok(_) => String::new(),
    }
}

/// Reads a value as a `Vec<serde_json::Value>` with
/// `serde_json::from_value`, which fails on a value that is not an array;
/// gives the `Display` text of the error.
#[verifier::external_body]
fn sequence_type_error_text(v: &JsonValue) -> (r: String)
    requires
        !(v@ is Array),
    ensures
        r@ == sequence_type_error(v@),
{
    match serde_json::from_value::<Vec<serde_json::Value>>(to_serde_json(v)) {
        Err(e) => e.to_string(),
        Ok(_) => String::new(),
    }
}

/// Reads a value as a `bool` with `serde_json::from_value`, which fails on a
/// value that is not a boolean; gives the `Display` text of the error.
#[verifier::external_body]
fn boolean_type_error_text(v: &JsonValue) -> (r: String)
    requires
        !(v@ is Bool),
    ensures
        r@ == boolean_type_error(v@),
{
    match serde_json::from_value::<bool>(to_serde_json(v)) {
        Err(e) => e.to_string(),
        Ok(_) => String::new(),
    }
}

/// Reads a value as an `i32` with `serde_json::from_value`, which fails on
/// a value that is not an integer in `i32`'s range; gives the `Display`
/// text of the error.
#[verifier::external_body]
pub(crate) fn i32_type_error_text(v: &JsonValue) -> (r: String)
    ensures
        r@ == i32_type_error(v@),
{
    match serde_json::from_value::<i32>(to_serde_json(v)) {
        Err(e) => e.to_string(),
        Ok(_) => String::new(),
    }
}

// ---------------------------------------------------------------------------
// Record separators
// ---------------------------------------------------------------------------

/// A text without the record separators at its end.
pub open spec fn trim_record_separators(s: Seq<char>) -> Seq<char>
    decreases s.len(),
{
    if s.len() > 0 && s.last() == RECORD_SEPARATOR {
        trim_record_separators(s.drop_last())
    } else {
        s
    }
}

/// The first `n` characters of `chars` as a string.
fn string_of_prefix(chars: &Vec<char>, n: usize) -> (r: String)
    requires
        n <= chars@.len(),
    ensures
        r@ == chars@.take(n as int),
{
    let mut r = String::new();
    let mut i: usize = 0;
    while i < n
        invariant
            i <= n,
            n <= chars@.len(),
            r@ == chars@.take(i as int),
        decreases n - i,
    {
        push_char(&mut r, chars[i]);
        i = i + 1;
        assert(r@ =~= chars@.take(i as int));
    }
    r
}

proof fn lemma_trim_prefix(s: Seq<char>, k: int)
    requires
        0 <= k <= s.len(),
        forall|j: int| k <= j < s.len() ==> s[j] == RECORD_SEPARATOR,
        k == 0 || s[k - 1] != RECORD_SEPARATOR,
    ensures
        trim_record_separators(s) == s.take(k),
    decreases s.len(),
{
    if s.len() > k {
        lemma_trim_prefix(s.drop_last(), k);
        assert(s.drop_last().take(k) =~= s.take(k));
    } else {
        assert(s.take(k) =~= s);
        if s.len() > 0 {
            assert(s.last() == s[k - 1]);
        }
    }
}

/// Removes the record separators at the end of a text.
pub fn strip_record_separators(data: &str) -> (r: String)
    ensures
        r@ == trim_record_separators(data@),
{
    let chars = chars_of(data);
    let mut end = chars.len();
    while end > 0 && chars[end - 1] == RECORD_SEPARATOR
        invariant
            end <= chars@.len(),
            forall|j: int| end <= j < chars@.len() ==> chars@[j] == RECORD_SEPARATOR,
        decreases end,
    {
        end = end - 1;
    }
    proof {
        lemma_trim_prefix(chars@, end as int);
    }
    string_of_prefix(&chars, end)
}

/// Ends a JSON text with the record separator.
pub fn append_record_separator(text: String) -> (r: String)
    ensures
        r@ == text@.push(RECORD_SEPARATOR),
{
    let mut r = text;
    push_char(&mut r, RECORD_SEPARATOR);
    r
}


// ---------------------------------------------------------------------------
// Decoding: JSON value -> hub message
// ---------------------------------------------------------------------------

/// The value stored under `key` in an object.
pub open spec fn entry_lookup(entries: Seq<(Seq<char>, JsonData)>, key: Seq<char>) -> Option<JsonData> {
    match object_key_index(entries, key) {
        Some(i) => Some(entries[i].1),
        None => None,
    }
}

/// The text of the error for a required field that is absent.
pub open spec fn missing_field(key: Seq<char>) -> Seq<char> {
    "missing field `"@ + key + "`"@
}

/// An optional string field: absent or `null` is none.
pub open spec fn dec_opt_string(entries: Seq<(Seq<char>, JsonData)>, key: Seq<char>) -> core::result::Result<Option<Seq<char>>, Seq<char>> {
    match entry_lookup(entries, key) {
        None => Ok(None),
        Some(JsonData::Null) => Ok(None),
        Some(JsonData::Str(s)) => Ok(Some(s)),
        Some(v) => Err(string_type_error(v)),
    }
}

/// A required string field.
pub open spec fn dec_string(entries: Seq<(Seq<char>, JsonData)>, key: Seq<char>) -> core::result::Result<Seq<char>, Seq<char>> {
    match entry_lookup(entries, key) {
        None => Err(missing_field(key)),
        Some(JsonData::Str(s)) => Ok(s),
        Some(v) => Err(string_type_error(v)),
    }
}

/// An array field that defaults to empty when absent.
pub open spec fn dec_arguments(entries: Seq<(Seq<char>, JsonData)>, key: Seq<char>) -> core::result::Result<Seq<JsonData>, Seq<char>> {
    match entry_lookup(entries, key) {
        None => Ok(seq![]),
        Some(JsonData::Array(xs)) => Ok(xs),
        Some(v) => Err(sequence_type_error(v)),
    }
}

/// The texts of a sequence of JSON values when all are strings; otherwise
/// the first value that is not.
pub open spec fn json_strings(xs: Seq<JsonData>) -> core::result::Result<Seq<Seq<char>>, JsonData>
    decreases xs.len(),
{
    if xs.len() == 0 {
        Ok(seq![])
    } else {
        match json_strings(xs.drop_last()) {
            Err(v) => Err(v),
            Ok(prefix) => match xs.last() {
                JsonData::Str(s) => Ok(prefix.push(s)),
                v => Err(v),
            },
        }
    }
}

/// An optional array of strings: absent or `null` is none.
pub open spec fn dec_opt_strings(entries: Seq<(Seq<char>, JsonData)>, key: Seq<char>) -> core::result::Result<Option<Seq<Seq<char>>>, Seq<char>> {
    match entry_lookup(entries, key) {
        None => Ok(None),
        Some(JsonData::Null) => Ok(None),
        Some(JsonData::Array(xs)) => match json_strings(xs) {
            Ok(ss) => Ok(Some(ss)),
            Err(v) => Err(string_type_error(v)),
        },
        Some(v) => Err(sequence_type_error(v)),
    }
}

/// A required field holding any JSON value.
pub open spec fn dec_value(entries: Seq<(Seq<char>, JsonData)>, key: Seq<char>) -> core::result::Result<JsonData, Seq<char>> {
    match entry_lookup(entries, key) {
        None => Err(missing_field(key)),
        Some(v) => Ok(v),
    }
}

/// An optional field holding any JSON value: absent or `null` is none.
pub open spec fn dec_opt_value(entries: Seq<(Seq<char>, JsonData)>, key: Seq<char>) -> Option<JsonData> {
    match entry_lookup(entries, key) {
        None => None,
        Some(JsonData::Null) => None,
        Some(v) => Some(v),
    }
}

/// An optional boolean field: absent or `null` is none.
pub open spec fn dec_opt_bool(entries: Seq<(Seq<char>, JsonData)>, key: Seq<char>) -> core::result::Result<Option<bool>, Seq<char>> {
    match entry_lookup(entries, key) {
        None => Ok(None),
        Some(JsonData::Null) => Ok(None),
        Some(JsonData::Bool(b)) => Ok(Some(b)),
        Some(v) => Err(boolean_type_error(v)),
    }
}

/// The `i64` a JSON number denotes, as serde_json's `as_i64` gives it.
pub open spec fn json_as_i64(n: JsonNumber) -> Option<i64> {
    match n {
        JsonNumber::PosInt(u) => if u <= i64::MAX {
            Some(u as i64)
        } else {
            None
        },
        JsonNumber::NegInt(i) => Some(i),
        JsonNumber::Float(_) => None,
    }
}

/// The number a run of decimal digits denotes, if every character is a digit.
pub open spec fn digits_value(s: Seq<char>) -> Option<nat>
    decreases s.len(),
{
    if s.len() == 0 {
        Some(0)
    } else {
        match digits_value(s.drop_last()) {
            Some(v) => if '0' <= s.last() <= '9' {
                Some(v * 10 + (s.last() as nat - 48) as nat)
            } else {
                None
            },
            None => None,
        }
    }
}

/// What `u8::from_str` gives: an optional `+`, then one or more digits, and a
/// value that fits.
pub open spec fn parse_u8_text(s: Seq<char>) -> Option<u8> {
    let digits = if s.len() > 0 && s[0] == '+' {
        s.drop_first()
    } else {
        s
    };
    if digits.len() == 0 {
        None
    } else {
        match digits_value(digits) {
            Some(v) => if v <= 255 {
                Some(v as u8)
            } else {
                None
            },
            None => None,
        }
    }
}

/// The message type a JSON object names in its `type` field: a number
/// (truncated to `u8`) or a numeral string.
pub open spec fn spec_message_type_code(entries: Seq<(Seq<char>, JsonData)>) -> core::result::Result<u8, Seq<char>> {
    match entry_lookup(entries, "type"@) {
        None => Err(missing_field("type"@)),
        Some(JsonData::Number(n)) if json_as_i64(n) is Some => Ok(json_as_i64(n).unwrap() as u8),
        Some(JsonData::Str(s)) => match parse_u8_text(s) {
            Some(b) => Ok(b),
            None => Err("Invalid type value"@),
        },
        Some(_) => Err("Type must be a number or string"@),
    }
}

/// An invocation read from its JSON object.
pub open spec fn spec_invocation_from_json(entries: Seq<(Seq<char>, JsonData)>) -> core::result::Result<MessageData, Seq<char>> {
    match dec_opt_string(entries, "invocationId"@) {
        Err(e) => Err(e),
        Ok(invocation_id) => match dec_string(entries, "target"@) {
            Err(e) => Err(e),
            Ok(target) => match dec_arguments(entries, "arguments"@) {
                Err(e) => Err(e),
                Ok(arguments) => match dec_opt_strings(entries, "streamIds"@) {
                    Err(e) => Err(e),
                    Ok(stream_ids) => Ok(MessageData::Invocation { invocation_id, target, arguments, stream_ids }),
                },
            },
        },
    }
}

/// A stream item read from its JSON object.
pub open spec fn spec_stream_item_from_json(entries: Seq<(Seq<char>, JsonData)>) -> core::result::Result<MessageData, Seq<char>> {
    match dec_string(entries, "invocationId"@) {
        Err(e) => Err(e),
        Ok(invocation_id) => match dec_value(entries, "item"@) {
            Err(e) => Err(e),
            Ok(item) => Ok(MessageData::StreamItem { invocation_id, item }),
        },
    }
}

/// A completion read from its JSON object.
pub open spec fn spec_completion_from_json(entries: Seq<(Seq<char>, JsonData)>) -> core::result::Result<MessageData, Seq<char>> {
    match dec_string(entries, "invocationId"@) {
        Err(e) => Err(e),
        Ok(invocation_id) => match dec_opt_string(entries, "error"@) {
            Err(e) => Err(e),
            Ok(error) => Ok(MessageData::Completion { invocation_id, result: dec_opt_value(entries, "result"@), error }),
        },
    }
}

/// A stream invocation read from its JSON object.
pub open spec fn spec_stream_invocation_from_json(entries: Seq<(Seq<char>, JsonData)>) -> core::result::Result<MessageData, Seq<char>> {
    match dec_string(entries, "invocationId"@) {
        Err(e) => Err(e),
        Ok(invocation_id) => match dec_string(entries, "target"@) {
            Err(e) => Err(e),
            Ok(target) => match dec_arguments(entries, "arguments"@) {
                Err(e) => Err(e),
                Ok(arguments) => match dec_opt_strings(entries, "streamIds"@) {
                    Err(e) => Err(e),
                    Ok(stream_ids) => Ok(MessageData::StreamInvocation { invocation_id, target, arguments, stream_ids }),
                },
            },
        },
    }
}

/// A cancel invocation read from its JSON object.
pub open spec fn spec_cancel_invocation_from_json(entries: Seq<(Seq<char>, JsonData)>) -> core::result::Result<MessageData, Seq<char>> {
    match dec_string(entries, "invocationId"@) {
        Err(e) => Err(e),
        Ok(invocation_id) => Ok(MessageData::CancelInvocation { invocation_id }),
    }
}

/// A close message read from its JSON object.
pub open spec fn spec_close_from_json(entries: Seq<(Seq<char>, JsonData)>) -> core::result::Result<MessageData, Seq<char>> {
    match dec_opt_string(entries, "error"@) {
        Err(e) => Err(e),
        Ok(error) => match dec_opt_bool(entries, "allowReconnect"@) {
            Err(e) => Err(e),
            Ok(allow_reconnect) => Ok(MessageData::Close { error, allow_reconnect }),
        },
    }
}

/// The hub message a JSON value stands for, or the text of the error.
pub open spec fn spec_message_from_json(d: JsonData) -> core::result::Result<MessageData, Seq<char>> {
    match d {
        JsonData::Object(entries) => match spec_message_type_code(entries) {
            Err(e) => Err(e),
            Ok(t) => if t == 1 {
                spec_invocation_from_json(entries)
            } else if t == 2 {
                spec_stream_item_from_json(entries)
            } else if t == 3 {
                spec_completion_from_json(entries)
            } else if t == 4 {
                spec_stream_invocation_from_json(entries)
            } else if t == 5 {
                spec_cancel_invocation_from_json(entries)
            } else if t == 6 {
                Ok(MessageData::Ping)
            } else if t == 7 {
                spec_close_from_json(entries)
            } else {
                Err("Unknown message type: "@ + decimal(t as nat))
            },
        },
        _ => Err("Expected object"@),
    }
}

// ---------------------------------------------------------------------------
// Decoding, executable
// ---------------------------------------------------------------------------

/// The position of `key` among an object's entries.
fn find_entry(entries: &Vec<(String, JsonValue)>, key: &str) -> (r: Option<usize>)
    ensures
        match r {
            Some(i) => i < entries@.len() && object_key_index(json_entries_data(entries@), key@) == Some(i as int),
            None => object_key_index(json_entries_data(entries@), key@) is None,
        },
{
    proof {
        lemma_json_entries_data_index(entries@);
    }
    let ghost d = json_entries_data(entries@);
    let k = String::from_str(key);
    let mut i: usize = 0;
    while i < entries.len()
        invariant
            i <= entries@.len(),
            k@ == key@,
            d == json_entries_data(entries@),
            d.len() == entries@.len(),
            forall|j: int| 0 <= j < entries@.len() ==> #[trigger] d[j] == (entries@[j].0@, json_data(entries@[j].1)),
            forall|j: int| 0 <= j < i ==> d[j].0 != key@,
        decreases entries@.len() - i,
    {
        if entries[i].0 == k {
            proof {
                lemma_object_key_index(d, key@, i as int);
            }
            return Some(i);
        }
        i = i + 1;
    }
    proof {
        lemma_object_key_index(d, key@, i as int);
    }
    None
}

/// The value stored under `key`.
pub(crate) fn lookup<'a>(entries: &'a Vec<(String, JsonValue)>, key: &str) -> (r: Option<&'a JsonValue>)
    ensures
        match r {
            Some(v) => entry_lookup(json_entries_data(entries@), key@) == Some(v@),
            None => entry_lookup(json_entries_data(entries@), key@) is None,
        },
{
    proof {
        lemma_json_entries_data_index(entries@);
    }
    match find_entry(entries, key) {
        Some(i) => Some(&entries[i].1),
        None => None,
    }
}

pub(crate) fn missing_field_text(key: &str) -> (r: String)
    ensures
        r@ == missing_field(key@),
{
    let mut r = prefixed("missing field `", key);
    r.append("`");
    r
}

fn decode_opt_string(entries: &Vec<(String, JsonValue)>, key: &str) -> (r: core::result::Result<Option<String>, String>)
    ensures
        match r {
            Ok(o) => dec_opt_string(json_entries_data(entries@), key@) == Ok::<Option<Seq<char>>, Seq<char>>(opt_string_view(o)),
            Err(t) => dec_opt_string(json_entries_data(entries@), key@) == Err::<Option<Seq<char>>, Seq<char>>(t@),
        },
{
    match lookup(entries, key) {
        None => Ok(None),
        Some(JsonValue::Null) => Ok(None),
        Some(JsonValue::String(s)) => Ok(Some(s.clone())),
        Some(v) => Err(string_type_error_text(v)),
    }
}

pub(crate) fn decode_string(entries: &Vec<(String, JsonValue)>, key: &str) -> (r: core::result::Result<String, String>)
    ensures
        match r {
            Ok(s) => dec_string(json_entries_data(entries@), key@) == Ok::<Seq<char>, Seq<char>>(s@),
            Err(t) => dec_string(json_entries_data(entries@), key@) == Err::<Seq<char>, Seq<char>>(t@),
        },
{
    match lookup(entries, key) {
        None => Err(missing_field_text(key)),
        Some(JsonValue::String(s)) => Ok(s.clone()),
        Some(v) => Err(string_type_error_text(v)),
    }
}

fn decode_arguments(entries: &Vec<(String, JsonValue)>, key: &str) -> (r: core::result::Result<Vec<JsonValue>, String>)
    ensures
        match r {
            Ok(xs) => dec_arguments(json_entries_data(entries@), key@) == Ok::<Seq<JsonData>, Seq<char>>(json_data_seq(xs@)),
            Err(t) => dec_arguments(json_entries_data(entries@), key@) == Err::<Seq<JsonData>, Seq<char>>(t@),
        },
{
    match lookup(entries, key) {
        None => {
            let xs: Vec<JsonValue> = Vec::new();
            assert(json_data_seq(xs@) =~= Seq::<JsonData>::empty());
            Ok(xs)
        },
        Some(JsonValue::Array(xs)) => Ok(json_values_clone(xs)),
        Some(v) => Err(sequence_type_error_text(v)),
    }
}

proof fn lemma_json_strings_error_prefix(xs: Seq<JsonData>, k: nat)
    requires
        k <= xs.len(),
        json_strings(xs.take(k as int)) is Err,
    ensures
        json_strings(xs) == json_strings(xs.take(k as int)),
    decreases xs.len() - k,
{
    if k < xs.len() {
        let t = xs.take((k + 1) as int);
        assert(t.drop_last() =~= xs.take(k as int));
        lemma_json_strings_error_prefix(xs, k + 1);
    } else {
        assert(xs.take(k as int) =~= xs);
    }
}

/// The strings of an array when every item is a string; otherwise the text
/// of the error for the first item that is not.
fn decode_strings(items: &Vec<JsonValue>) -> (r: core::result::Result<Vec<String>, String>)
    ensures
        match r {
            Ok(v) => json_strings(json_data_seq(items@)) == Ok::<Seq<Seq<char>>, JsonData>(strings_view(v@)),
            Err(t) => json_strings(json_data_seq(items@)) matches Err(x) && t@ == string_type_error(x),
        },
{
    proof {
        lemma_json_data_seq_index(items@);
    }
    let ghost d = json_data_seq(items@);
    let mut out: Vec<String> = Vec::new();
    let mut i: usize = 0;
    assert(d.take(0) =~= Seq::<JsonData>::empty());
    assert(strings_view(out@) =~= Seq::<Seq<char>>::empty());
    while i < items.len()
        invariant
            i <= items@.len(),
            d == json_data_seq(items@),
            d.len() == items@.len(),
            forall|j: int| 0 <= j < items@.len() ==> #[trigger] d[j] == json_data(items@[j]),
            json_strings(d.take(i as int)) == Ok::<Seq<Seq<char>>, JsonData>(strings_view(out@)),
        decreases items@.len() - i,
    {
        let ghost t1 = d.take(i + 1);
        assert(t1.drop_last() =~= d.take(i as int));
        assert(t1.last() == d[i as int]);
        match &items[i] {
            JsonValue::String(s) => {
                let ghost before = out@;
                out.push(s.clone());
                assert(strings_view(out@) =~= strings_view(before).push(s@));
            },
            other => {
                proof {
                    lemma_json_strings_error_prefix(d, (i + 1) as nat);
                }
                return Err(string_type_error_text(other));
            },
        }
        i = i + 1;
    }
    assert(d.take(items@.len() as int) =~= d);
    Ok(out)
}

fn decode_opt_strings(entries: &Vec<(String, JsonValue)>, key: &str) -> (r: core::result::Result<Option<Vec<String>>, String>)
    ensures
        match r {
            Ok(o) => dec_opt_strings(json_entries_data(entries@), key@) == Ok::<Option<Seq<Seq<char>>>, Seq<char>>(opt_strings_view(o)),
            Err(t) => dec_opt_strings(json_entries_data(entries@), key@) == Err::<Option<Seq<Seq<char>>>, Seq<char>>(t@),
        },
{
    match lookup(entries, key) {
        None => Ok(None),
        Some(JsonValue::Null) => Ok(None),
        Some(JsonValue::Array(xs)) => match decode_strings(xs) {
            Ok(v) => Ok(Some(v)),
            Err(t) => Err(t),
        },
        Some(v) => Err(sequence_type_error_text(v)),
    }
}

fn decode_value(entries: &Vec<(String, JsonValue)>, key: &str) -> (r: core::result::Result<JsonValue, String>)
    ensures
        match r {
            Ok(v) => dec_value(json_entries_data(entries@), key@) == Ok::<JsonData, Seq<char>>(v@),
            Err(t) => dec_value(json_entries_data(entries@), key@) == Err::<JsonData, Seq<char>>(t@),
        },
{
    match lookup(entries, key) {
        None => Err(missing_field_text(key)),
        Some(v) => Ok(json_value_clone(v)),
    }
}

fn decode_opt_value(entries: &Vec<(String, JsonValue)>, key: &str) -> (r: Option<JsonValue>)
    ensures
        opt_json_view(r) == dec_opt_value(json_entries_data(entries@), key@),
{
    match lookup(entries, key) {
        None => None,
        Some(JsonValue::Null) => None,
        Some(v) => Some(json_value_clone(v)),
    }
}

fn decode_opt_bool(entries: &Vec<(String, JsonValue)>, key: &str) -> (r: core::result::Result<Option<bool>, String>)
    ensures
        match r {
            Ok(o) => dec_opt_bool(json_entries_data(entries@), key@) == Ok::<Option<bool>, Seq<char>>(o),
            Err(t) => dec_opt_bool(json_entries_data(entries@), key@) == Err::<Option<bool>, Seq<char>>(t@),
        },
{
    match lookup(entries, key) {
        None => Ok(None),
        Some(JsonValue::Null) => Ok(None),
        Some(JsonValue::Bool(b)) => Ok(Some(*b)),
        Some(v) => Err(boolean_type_error_text(v)),
    }
}

/// The `i64` a JSON number denotes (`serde_json::Number::as_i64`).
fn number_as_i64(n: &JsonNumber) -> (r: Option<i64>)
    ensures
        r == json_as_i64(*n),
{
    match n {
        JsonNumber::PosInt(u) => if *u <= 0x7fff_ffff_ffff_ffffu64 {
            Some(*u as i64)
        } else {
            None
        },
        JsonNumber::NegInt(i) => Some(*i),
        JsonNumber::Float(_) => None,
    }
}

proof fn lemma_digits_prefix(s: Seq<char>, k: nat)
    requires
        k <= s.len(),
    ensures
        digits_value(s.take(k as int)) is None ==> digits_value(s) is None,
        digits_value(s) is Some ==> digits_value(s.take(k as int)) is Some
            && digits_value(s.take(k as int)).unwrap() <= digits_value(s).unwrap(),
    decreases s.len() - k,
{
    if k < s.len() {
        lemma_digits_prefix(s, k + 1);
        let t = s.take((k + 1) as int);
        assert(t.drop_last() =~= s.take(k as int));
    } else {
        assert(s.take(k as int) =~= s);
    }
}

/// What `u8::from_str` gives for a text.
fn parse_u8(text: &str) -> (r: Option<u8>)
    ensures
        r == parse_u8_text(text@),
{
    let chars = chars_of(text);
    let start: usize = if chars.len() > 0 && chars[0] == '+' {
        1
    } else {
        0
    };
    let ghost digits = if chars@.len() > 0 && chars@[0] == '+' {
        chars@.drop_first()
    } else {
        chars@
    };
    assert(digits =~= chars@.subrange(start as int, chars@.len() as int));
    if start == chars.len() {
        return None;
    }
    let mut value: u64 = 0;
    let mut i: usize = start;
    assert(digits.take(0) =~= Seq::<char>::empty());
    while i < chars.len()
        invariant
            start <= i <= chars@.len(),
            start < chars@.len(),
            chars@ == text@,
            digits == (if text@.len() > 0 && text@[0] == '+' {
                text@.drop_first()
            } else {
                text@
            }),
            digits =~= chars@.subrange(start as int, chars@.len() as int),
            digits_value(digits.take(i - start)) == Some(value as nat),
            value <= 255,
        decreases chars@.len() - i,
    {
        let c = chars[i];
        let ghost t1 = digits.take(i - start + 1);
        assert(t1.drop_last() =~= digits.take(i - start));
        assert(t1.last() == c);
        if c < '0' || c > '9' {
            proof {
                lemma_digits_prefix(digits, (i - start + 1) as nat);
            }
            return None;
        }
        let d: u64 = (c as u64) - 48;
        value = value * 10 + d;
        if value > 255 {
            proof {
                lemma_digits_prefix(digits, (i - start + 1) as nat);
            }
            return None;
        }
        i = i + 1;
    }
    assert(digits.take(i - start) =~= digits);
    Some(value as u8)
}

/// The message type a JSON object names.
fn decode_message_type(entries: &Vec<(String, JsonValue)>) -> (r: core::result::Result<u8, String>)
    ensures
        match r {
            Ok(t) => spec_message_type_code(json_entries_data(entries@)) == Ok::<u8, Seq<char>>(t),
            Err(e) => spec_message_type_code(json_entries_data(entries@)) == Err::<u8, Seq<char>>(e@),
        },
{
    match lookup(entries, "type") {
        None => Err(missing_field_text("type")),
        Some(JsonValue::Number(n)) => match number_as_i64(n) {
            Some(i) => Ok(i as u8),
            None => Err(String::from_str("Type must be a number or string")),
        },
        Some(JsonValue::String(s)) => match parse_u8(s.as_str()) {
            Some(b) => Ok(b),
            None => Err(String::from_str("Invalid type value")),
        },
        Some(_) => Err(String::from_str("Type must be a number or string")),
    }
}

/// Whether a decoding result agrees with the hub message (or error text)
/// that the specification gives.
pub open spec fn json_decodes_to(r: core::result::Result<HubMessage, String>, s: core::result::Result<MessageData, Seq<char>>) -> bool {
    match r {
        Ok(m) => s == Ok::<MessageData, Seq<char>>(m@),
        Err(t) => s == Err::<MessageData, Seq<char>>(t@),
    }
}

fn decode_invocation(entries: &Vec<(String, JsonValue)>) -> (r: core::result::Result<HubMessage, String>)
    ensures
        json_decodes_to(r, spec_invocation_from_json(json_entries_data(entries@))),
{
    let invocation_id = match decode_opt_string(entries, "invocationId") {
        Ok(v) => v,
        Err(e) => return Err(e),
    };
    let target = match decode_string(entries, "target") {
        Ok(v) => v,
        Err(e) => return Err(e),
    };
    let arguments = match decode_arguments(entries, "arguments") {
        Ok(v) => v,
        Err(e) => return Err(e),
    };
    let stream_ids = match decode_opt_strings(entries, "streamIds") {
        Ok(v) => v,
        Err(e) => return Err(e),
    };
    Ok(HubMessage::Invocation(InvocationMessage { invocation_id, target, arguments, stream_ids }))
}

fn decode_stream_item(entries: &Vec<(String, JsonValue)>) -> (r: core::result::Result<HubMessage, String>)
    ensures
        json_decodes_to(r, spec_stream_item_from_json(json_entries_data(entries@))),
{
    let invocation_id = match decode_string(entries, "invocationId") {
        Ok(v) => v,
        Err(e) => return Err(e),
    };
    let item = match decode_value(entries, "item") {
        Ok(v) => v,
        Err(e) => return Err(e),
    };
    Ok(HubMessage::StreamItem(StreamItemMessage { invocation_id, item }))
}

fn decode_completion(entries: &Vec<(String, JsonValue)>) -> (r: core::result::Result<HubMessage, String>)
    ensures
        json_decodes_to(r, spec_completion_from_json(json_entries_data(entries@))),
{
    let invocation_id = match decode_string(entries, "invocationId") {
        Ok(v) => v,
        Err(e) => return Err(e),
    };
    let result = decode_opt_value(entries, "result");
    let error = match decode_opt_string(entries, "error") {
        Ok(v) => v,
        Err(e) => return Err(e),
    };
    Ok(HubMessage::Completion(CompletionMessage { invocation_id, result, error }))
}

fn decode_stream_invocation(entries: &Vec<(String, JsonValue)>) -> (r: core::result::Result<HubMessage, String>)
    ensures
        json_decodes_to(r, spec_stream_invocation_from_json(json_entries_data(entries@))),
{
    let invocation_id = match decode_string(entries, "invocationId") {
        Ok(v) => v,
        Err(e) => return Err(e),
    };
    let target = match decode_string(entries, "target") {
        Ok(v) => v,
        Err(e) => return Err(e),
    };
    let arguments = match decode_arguments(entries, "arguments") {
        Ok(v) => v,
        Err(e) => return Err(e),
    };
    let stream_ids = match decode_opt_strings(entries, "streamIds") {
        Ok(v) => v,
        Err(e) => return Err(e),
    };
    Ok(HubMessage::StreamInvocation(StreamInvocationMessage { invocation_id, target, arguments, stream_ids }))
}

fn decode_cancel_invocation(entries: &Vec<(String, JsonValue)>) -> (r: core::result::Result<HubMessage, String>)
    ensures
        json_decodes_to(r, spec_cancel_invocation_from_json(json_entries_data(entries@))),
{
    match decode_string(entries, "invocationId") {
        Ok(invocation_id) => Ok(HubMessage::CancelInvocation(CancelInvocationMessage { invocation_id })),
        Err(e) => Err(e),
    }
}

fn decode_close(entries: &Vec<(String, JsonValue)>) -> (r: core::result::Result<HubMessage, String>)
    ensures
        json_decodes_to(r, spec_close_from_json(json_entries_data(entries@))),
{
    let error = match decode_opt_string(entries, "error") {
        Ok(v) => v,
        Err(e) => return Err(e),
    };
    let allow_reconnect = match decode_opt_bool(entries, "allowReconnect") {
        Ok(v) => v,
        Err(e) => return Err(e),
    };
    Ok(HubMessage::Close(CloseMessage { error, allow_reconnect }))
}

/// Reads a hub message from a JSON value: an object whose `type` field (a
/// number, or a numeral in a string) names the kind of message, and whose
/// other fields are that message's fields. On failure, gives the text of the
/// error.
pub fn hub_message_from_json(value: &JsonValue) -> (r: core::result::Result<HubMessage, String>)
    ensures
        json_decodes_to(r, spec_message_from_json(value@)),
{
    let entries = match value {
        JsonValue::Object(entries) => entries,
        _ => return Err(String::from_str("Expected object")),
    };
    let t = match decode_message_type(entries) {
        Ok(t) => t,
        Err(e) => return Err(e),
    };
    if t == 1 {
        decode_invocation(entries)
    } else if t == 2 {
        decode_stream_item(entries)
    } else if t == 3 {
        decode_completion(entries)
    } else if t == 4 {
        decode_stream_invocation(entries)
    } else if t == 5 {
        decode_cancel_invocation(entries)
    } else if t == 6 {
        Ok(HubMessage::Ping(PingMessage {}))
    } else if t == 7 {
        decode_close(entries)
    } else {
        let mut text = String::from_str("Unknown message type: ");
        append_decimal(&mut text, t as u64);
        Err(text)
    }
}

/// The hub message a JSON text holds, after the record separators at its
/// end are removed; the error is serde_json's.
pub open spec fn spec_parse_message(text: Seq<char>) -> core::result::Result<MessageData, serde_json::Error> {
    match json_text_value(trim_record_separators(text)) {
        Err(e) => Err(e),
        Ok((d, end)) => match spec_message_from_json(d) {
            Err(t) => Err(json_custom_error(t)),
            Ok(m) => match end {
                Some(e) => Err(e),
                None => Ok(m),
            },
        },
    }
}

/// Parse a SignalR message from JSON.
pub fn parse_message(data: &str) -> (r: Result<HubMessage>)
    ensures
        match r {
            Ok(m) => spec_parse_message(data@) == Ok::<MessageData, serde_json::Error>(m@),
            Err(SignalRError::Json(e)) => spec_parse_message(data@) == Err::<MessageData, serde_json::Error>(e),
            Err(_) => false,
        },
{
    let text = strip_record_separators(data);
    let (value, end) = match parse_json_text(text.as_str()) {
        Ok(parsed) => parsed,
        Err(e) => return Err(SignalRError::Json(e)),
    };
    match hub_message_from_json(&value) {
        Ok(m) => match end {
            Some(e) => Err(SignalRError::Json(e)),
            None => Ok(m),
        },
        Err(t) => Err(SignalRError::Json(json_error(t))),
    }
}

// ---------------------------------------------------------------------------
// Encoding: hub message -> JSON value
// ---------------------------------------------------------------------------

/// A non-negative JSON integer.
pub open spec fn int_json(n: u64) -> JsonData {
    JsonData::Number(JsonNumber::PosInt(n))
}

/// A JSON array of strings.
pub open spec fn strings_json(ss: Seq<Seq<char>>) -> JsonData {
    JsonData::Array(ss.map_values(|s: Seq<char>| JsonData::Str(s)))
}

/// An entry that is written only when its value is present.
pub open spec fn opt_entry(key: Seq<char>, v: Option<JsonData>) -> Seq<(Seq<char>, JsonData)> {
    match v {
        Some(x) => seq![(key, x)],
        None => seq![],
    }
}

/// A string, when present.
pub open spec fn opt_str_json(o: Option<Seq<char>>) -> Option<JsonData> {
    match o {
        Some(s) => Some(JsonData::Str(s)),
        None => None,
    }
}

/// An array of strings, when present.
pub open spec fn opt_strings_json(o: Option<Seq<Seq<char>>>) -> Option<JsonData> {
    match o {
        Some(ss) => Some(strings_json(ss)),
        None => None,
    }
}

/// A boolean, when present.
pub open spec fn opt_bool_json(o: Option<bool>) -> Option<JsonData> {
    match o {
        Some(b) => Some(JsonData::Bool(b)),
        None => None,
    }
}

/// The entries of the JSON object for a hub message: `type` first, then
/// the message's fields in a fixed order, absent optional fields left out.
pub open spec fn message_json_entries(m: MessageData) -> Seq<(Seq<char>, JsonData)> {
        match m {
            MessageData::Invocation { invocation_id, target, arguments, stream_ids } => seq![
                ("type"@, int_json(1)),
            ] + opt_entry("invocationId"@, opt_str_json(invocation_id)) + seq![
                ("target"@, JsonData::Str(target)),
                ("arguments"@, JsonData::Array(arguments)),
            ] + opt_entry("streamIds"@, opt_strings_json(stream_ids)),
            MessageData::StreamItem { invocation_id, item } => seq![
                ("type"@, int_json(2)),
                ("invocationId"@, JsonData::Str(invocation_id)),
                ("item"@, item),
            ],
            MessageData::Completion { invocation_id, result, error } => seq![
                ("type"@, int_json(3)),
                ("invocationId"@, JsonData::Str(invocation_id)),
            ] + opt_entry("error"@, opt_str_json(error)) + opt_entry("result"@, result),
            MessageData::StreamInvocation { invocation_id, target, arguments, stream_ids } => seq![
                ("type"@, int_json(4)),
                ("invocationId"@, JsonData::Str(invocation_id)),
                ("target"@, JsonData::Str(target)),
                ("arguments"@, JsonData::Array(arguments)),
            ] + opt_entry("streamIds"@, opt_strings_json(stream_ids)),
            MessageData::CancelInvocation { invocation_id } => seq![
                ("type"@, int_json(5)),
                ("invocationId"@, JsonData::Str(invocation_id)),
            ],
            MessageData::Ping => seq![("type"@, int_json(6))],
            MessageData::Close { error, allow_reconnect } => seq![("type"@, int_json(7))]
                + opt_entry("error"@, opt_str_json(error)) + opt_entry(
                "allowReconnect"@,
                opt_bool_json(allow_reconnect),
            ),
        }
}

/// The JSON object for a hub message.
pub open spec fn spec_message_to_json(m: MessageData) -> JsonData {
    JsonData::Object(message_json_entries(m))
}

pub(crate) fn push_entry(entries: &mut Vec<(String, JsonValue)>, key: &str, v: JsonValue)
    ensures
        json_entries_data(final(entries)@) == json_entries_data(old(entries)@).push((key@, v@)),
{
    let ghost before = entries@;
    entries.push((String::from_str(key), v));
    assert(entries@.subrange(0, entries@.len() - 1) =~= before);
}

fn int_value(n: u64) -> (r: JsonValue)
    ensures
        r@ == int_json(n),
{
    JsonValue::Number(JsonNumber::PosInt(n))
}

/// A JSON array of strings.
fn strings_to_json(v: &Vec<String>) -> (r: JsonValue)
    ensures
        r@ == strings_json(strings_view(v@)),
{
    let mut out: Vec<JsonValue> = Vec::new();
    let mut i: usize = 0;
    while i < v.len()
        invariant
            i <= v@.len(),
            out@.len() == i,
            forall|j: int| 0 <= j < i ==> #[trigger] json_data(out@[j]) == JsonData::Str(v@[j]@),
        decreases v@.len() - i,
    {
        out.push(JsonValue::String(v[i].clone()));
        i = i + 1;
    }
    proof {
        lemma_json_data_seq_index(out@);
        assert(json_data_seq(out@) =~= strings_view(v@).map_values(|s: Seq<char>| JsonData::Str(s)));
    }
    JsonValue::Array(out)
}

/// The JSON object for a hub message.
pub fn message_to_json_value(message: &HubMessage) -> (r: JsonValue)
    ensures
        r@ == spec_message_to_json(message@),
{
    let mut e: Vec<(String, JsonValue)> = Vec::new();
    assert(json_entries_data(e@) =~= Seq::<(Seq<char>, JsonData)>::empty());
    match message {
        HubMessage::Invocation(m) => {
            push_entry(&mut e, "type", int_value(1));
            if let Some(id) = &m.invocation_id {
                push_entry(&mut e, "invocationId", JsonValue::String(id.clone()));
            }
            push_entry(&mut e, "target", JsonValue::String(m.target.clone()));
            push_entry(&mut e, "arguments", JsonValue::Array(json_values_clone(&m.arguments)));
            if let Some(ids) = &m.stream_ids {
                push_entry(&mut e, "streamIds", strings_to_json(ids));
            }
            assert(json_entries_data(e@) =~= message_json_entries(message@));
        },
        HubMessage::StreamItem(m) => {
            push_entry(&mut e, "type", int_value(2));
            push_entry(&mut e, "invocationId", JsonValue::String(m.invocation_id.clone()));
            push_entry(&mut e, "item", json_value_clone(&m.item));
            assert(json_entries_data(e@) =~= message_json_entries(message@));
        },
        HubMessage::Completion(m) => {
            push_entry(&mut e, "type", int_value(3));
            push_entry(&mut e, "invocationId", JsonValue::String(m.invocation_id.clone()));
            if let Some(error) = &m.error {
                push_entry(&mut e, "error", JsonValue::String(error.clone()));
            }
            if let Some(result) = &m.result {
                push_entry(&mut e, "result", json_value_clone(result));
            }
            assert(json_entries_data(e@) =~= message_json_entries(message@));
        },
        HubMessage::StreamInvocation(m) => {
            push_entry(&mut e, "type", int_value(4));
            push_entry(&mut e, "invocationId", JsonValue::String(m.invocation_id.clone()));
            push_entry(&mut e, "target", JsonValue::String(m.target.clone()));
            push_entry(&mut e, "arguments", JsonValue::Array(json_values_clone(&m.arguments)));
            if let Some(ids) = &m.stream_ids {
                push_entry(&mut e, "streamIds", strings_to_json(ids));
            }
            assert(json_entries_data(e@) =~= message_json_entries(message@));
        },
        HubMessage::CancelInvocation(m) => {
            push_entry(&mut e, "type", int_value(5));
            push_entry(&mut e, "invocationId", JsonValue::String(m.invocation_id.clone()));
            assert(json_entries_data(e@) =~= message_json_entries(message@));
        },
        HubMessage::Ping(_) => {
            push_entry(&mut e, "type", int_value(6));
            assert(json_entries_data(e@) =~= message_json_entries(message@));
        },
        HubMessage::Close(m) => {
            push_entry(&mut e, "type", int_value(7));
            if let Some(error) = &m.error {
                push_entry(&mut e, "error", JsonValue::String(error.clone()));
            }
            if let Some(b) = m.allow_reconnect {
                push_entry(&mut e, "allowReconnect", JsonValue::Bool(b));
            }
            assert(json_entries_data(e@) =~= message_json_entries(message@));
        },
    }
    JsonValue::Object(e)
}

/// The JSON text for a hub message, ended by the record separator.
pub open spec fn spec_serialize_message(m: MessageData) -> core::result::Result<Seq<char>, serde_json::Error> {
    match json_text_of(spec_message_to_json(m)) {
        Ok(t) => Ok(t.push(RECORD_SEPARATOR)),
        Err(e) => Err(e),
    }
}

/// Serialize a SignalR message to JSON with record separator.
pub fn serialize_message(message: &HubMessage) -> (r: Result<String>)
    ensures
        r is Ok,
        match r {
            Ok(t) => spec_serialize_message(message@) == Ok::<Seq<char>, serde_json::Error>(t@)
                && t@.len() >= 3 && t@.last() == RECORD_SEPARATOR && t@[0] == '{' && t@[t@.len() - 2] == '}'
                && (forall|i: int| 0 <= i < t@.len() - 1 ==> t@[i] != RECORD_SEPARATOR)
                && (message_wf_json(message@) && message_payloads_ok(message@) ==> spec_parse_message(t@)
                    == Ok::<MessageData, serde_json::Error>(message@)),
            Err(SignalRError::Json(e)) => spec_serialize_message(message@) == Err::<Seq<char>, serde_json::Error>(e),
            Err(_) => false,
        },
{
    let value = message_to_json_value(message);
    match write_json_text(&value) {
        Ok(text) => {
            proof {
                if message_wf_json(message@) && message_payloads_ok(message@) {
                    lemma_message_json_ok(message@);
                    lemma_trim_after_push(text@);
                    law_json_message_roundtrip(message@);
                }
            }
            Ok(append_record_separator(text))
        },
        Err(e) => Err(SignalRError::Json(e)),
    }
}


// ---------------------------------------------------------------------------
// A message's own fields as a JSON object
// ---------------------------------------------------------------------------

/// The entries of a message's own JSON object: its fields in declaration
/// order, without `type`, absent optional fields left out.
pub open spec fn message_body_entries(m: MessageData) -> Seq<(Seq<char>, JsonData)> {
    match m {
        MessageData::Invocation { invocation_id, target, arguments, stream_ids } => opt_entry(
            "invocationId"@,
            opt_str_json(invocation_id),
        ) + seq![("target"@, JsonData::Str(target)), ("arguments"@, JsonData::Array(arguments))]
            + opt_entry("streamIds"@, opt_strings_json(stream_ids)),
        MessageData::StreamItem { invocation_id, item } => seq![
            ("invocationId"@, JsonData::Str(invocation_id)),
            ("item"@, item),
        ],
        MessageData::Completion { invocation_id, result, error } => seq![
            ("invocationId"@, JsonData::Str(invocation_id)),
        ] + opt_entry("result"@, result) + opt_entry("error"@, opt_str_json(error)),
        MessageData::StreamInvocation { invocation_id, target, arguments, stream_ids } => seq![
            ("invocationId"@, JsonData::Str(invocation_id)),
            ("target"@, JsonData::Str(target)),
            ("arguments"@, JsonData::Array(arguments)),
        ] + opt_entry("streamIds"@, opt_strings_json(stream_ids)),
        MessageData::CancelInvocation { invocation_id } => seq![("invocationId"@, JsonData::Str(invocation_id))],
        MessageData::Ping => seq![],
        MessageData::Close { error, allow_reconnect } => opt_entry("error"@, opt_str_json(error)) + opt_entry(
            "allowReconnect"@,
            opt_bool_json(allow_reconnect),
        ),
    }
}

/// A message's own fields as a JSON object.
pub fn message_body_to_json_value(message: &HubMessage) -> (r: JsonValue)
    ensures
        r@ == JsonData::Object(message_body_entries(message@)),
{
    let mut e: Vec<(String, JsonValue)> = Vec::new();
    assert(json_entries_data(e@) =~= Seq::<(Seq<char>, JsonData)>::empty());
    match message {
        HubMessage::Invocation(m) => {
            if let Some(id) = &m.invocation_id {
                push_entry(&mut e, "invocationId", JsonValue::String(id.clone()));
            }
            push_entry(&mut e, "target", JsonValue::String(m.target.clone()));
            push_entry(&mut e, "arguments", JsonValue::Array(json_values_clone(&m.arguments)));
            if let Some(ids) = &m.stream_ids {
                push_entry(&mut e, "streamIds", strings_to_json(ids));
            }
            assert(json_entries_data(e@) =~= message_body_entries(message@));
        },
        HubMessage::StreamItem(m) => {
            push_entry(&mut e, "invocationId", JsonValue::String(m.invocation_id.clone()));
            push_entry(&mut e, "item", json_value_clone(&m.item));
            assert(json_entries_data(e@) =~= message_body_entries(message@));
        },
        HubMessage::Completion(m) => {
            push_entry(&mut e, "invocationId", JsonValue::String(m.invocation_id.clone()));
            if let Some(result) = &m.result {
                push_entry(&mut e, "result", json_value_clone(result));
            }
            if let Some(error) = &m.error {
                push_entry(&mut e, "error", JsonValue::String(error.clone()));
            }
            assert(json_entries_data(e@) =~= message_body_entries(message@));
        },
        HubMessage::StreamInvocation(m) => {
            push_entry(&mut e, "invocationId", JsonValue::String(m.invocation_id.clone()));
            push_entry(&mut e, "target", JsonValue::String(m.target.clone()));
            push_entry(&mut e, "arguments", JsonValue::Array(json_values_clone(&m.arguments)));
            if let Some(ids) = &m.stream_ids {
                push_entry(&mut e, "streamIds", strings_to_json(ids));
            }
            assert(json_entries_data(e@) =~= message_body_entries(message@));
        },
        HubMessage::CancelInvocation(m) => {
            push_entry(&mut e, "invocationId", JsonValue::String(m.invocation_id.clone()));
            assert(json_entries_data(e@) =~= message_body_entries(message@));
        },
        HubMessage::Ping(_) => {
            assert(json_entries_data(e@) =~= message_body_entries(message@));
        },
        HubMessage::Close(m) => {
            if let Some(error) = &m.error {
                push_entry(&mut e, "error", JsonValue::String(error.clone()));
            }
            if let Some(b) = m.allow_reconnect {
                push_entry(&mut e, "allowReconnect", JsonValue::Bool(b));
            }
            assert(json_entries_data(e@) =~= message_body_entries(message@));
        },
    }
    JsonValue::Object(e)
}

/// The JSON text of a message's own fields.
pub fn serialize_message_body(message: &HubMessage) -> (r: Result<String>)
    ensures
        r is Ok,
        match r {
            Ok(t) => json_text_of(JsonData::Object(message_body_entries(message@))) == Ok::<Seq<char>, serde_json::Error>(t@),
            Err(SignalRError::Json(e)) => json_text_of(JsonData::Object(message_body_entries(message@))) == Err::<Seq<char>, serde_json::Error>(e),
            Err(_) => false,
        },
{
    let value = message_body_to_json_value(message);
    match write_json_text(&value) {
        Ok(t) => Ok(t),
        Err(e) => Err(SignalRError::Json(e)),
    }
}

/// A message of the given kind read from a JSON object holding its own
/// fields.
pub open spec fn spec_message_body_from_json(t: MessageType, d: JsonData) -> core::result::Result<MessageData, Seq<char>> {
    match d {
        JsonData::Object(entries) => match t {
            MessageType::Invocation => spec_invocation_from_json(entries),
            MessageType::StreamItem => spec_stream_item_from_json(entries),
            MessageType::Completion => spec_completion_from_json(entries),
            MessageType::StreamInvocation => spec_stream_invocation_from_json(entries),
            MessageType::CancelInvocation => spec_cancel_invocation_from_json(entries),
            MessageType::Ping => Ok(MessageData::Ping),
            MessageType::Close => spec_close_from_json(entries),
        },
        _ => Err("Expected object"@),
    }
}

/// Reads a message of the given kind from a JSON object holding its own
/// fields; on failure, gives the text of the error.
pub fn message_body_from_json(message_type: MessageType, value: &JsonValue) -> (r: core::result::Result<HubMessage, String>)
    ensures
        json_decodes_to(r, spec_message_body_from_json(message_type, value@)),
{
    match value {
        JsonValue::Object(entries) => match message_type {
            MessageType::Invocation => decode_invocation(entries),
            MessageType::StreamItem => decode_stream_item(entries),
            MessageType::Completion => decode_completion(entries),
            MessageType::StreamInvocation => decode_stream_invocation(entries),
            MessageType::CancelInvocation => decode_cancel_invocation(entries),
            MessageType::Ping => Ok(HubMessage::Ping(PingMessage {})),
            MessageType::Close => decode_close(entries),
        },
        _ => Err(String::from_str("Expected object")),
    }
}

/// The message of the given kind a JSON text holds as its own fields; the
/// error is serde_json's.
pub open spec fn spec_parse_message_body(t: MessageType, text: Seq<char>) -> core::result::Result<MessageData, serde_json::Error> {
    match json_text_value(text) {
        Err(e) => Err(e),
        Ok((d, end)) => match spec_message_body_from_json(t, d) {
            Err(x) => Err(json_custom_error(x)),
            Ok(m) => match end {
                Some(e) => Err(e),
                None => Ok(m),
            },
        },
    }
}

/// Reads a message of the given kind from a JSON text holding its own
/// fields.
pub fn parse_message_body(message_type: MessageType, data: &str) -> (r: Result<HubMessage>)
    ensures
        match r {
            Ok(m) => spec_parse_message_body(message_type, data@) == Ok::<MessageData, serde_json::Error>(m@),
            Err(SignalRError::Json(e)) => spec_parse_message_body(message_type, data@) == Err::<MessageData, serde_json::Error>(e),
            Err(_) => false,
        },
{
    let (value, end) = match parse_json_text(data) {
        Ok(parsed) => parsed,
        Err(e) => return Err(SignalRError::Json(e)),
    };
    match message_body_from_json(message_type, &value) {
        Ok(m) => match end {
            Some(e) => Err(SignalRError::Json(e)),
            None => Ok(m),
        },
        Err(t) => Err(SignalRError::Json(json_error(t))),
    }
}


// ---------------------------------------------------------------------------
// Laws
// ---------------------------------------------------------------------------

/// A hub message that its JSON form carries exactly: a completion whose
/// result is `null` is read back as one without a result.
pub open spec fn message_wf_json(m: MessageData) -> bool {
    match m {
        MessageData::Completion { result, .. } => result != Some(JsonData::Null),
        _ => true,
    }
}

proof fn lemma_json_strings_of_strings(ss: Seq<Seq<char>>)
    ensures
        json_strings(ss.map_values(|s: Seq<char>| JsonData::Str(s))) == Ok::<Seq<Seq<char>>, JsonData>(ss),
    decreases ss.len(),
{
    let xs = ss.map_values(|s: Seq<char>| JsonData::Str(s));
    if ss.len() > 0 {
        lemma_json_strings_of_strings(ss.drop_last());
        assert(xs.drop_last() =~= ss.drop_last().map_values(|s: Seq<char>| JsonData::Str(s)));
        assert(ss.drop_last().push(ss.last()) =~= ss);
    } else {
        assert(ss =~= Seq::<Seq<char>>::empty());
    }
}

proof fn lemma_invocation_keys_distinct()
    ensures
        "type"@ != "invocationId"@,
        "type"@ != "target"@,
        "type"@ != "arguments"@,
        "type"@ != "streamIds"@,
        "invocationId"@ != "target"@,
        "invocationId"@ != "arguments"@,
        "invocationId"@ != "streamIds"@,
        "target"@ != "arguments"@,
        "target"@ != "streamIds"@,
        "arguments"@ != "streamIds"@,
{
    reveal_strlit("type");
    reveal_strlit("invocationId");
    reveal_strlit("target");
    reveal_strlit("arguments");
    reveal_strlit("streamIds");
    assert("type"@.len() == 4);
    assert("invocationId"@.len() == 12);
    assert("target"@.len() == 6);
    assert("arguments"@.len() == 9);
    assert("streamIds"@.len() == 9);
    assert("arguments"@[0] != "streamIds"@[0]);
}

proof fn lemma_invocation_json_roundtrip(m: MessageData)
    requires
        m is Invocation,
    ensures
        spec_message_from_json(spec_message_to_json(m)) == Ok::<MessageData, Seq<char>>(m),
{
    lemma_invocation_keys_distinct();
    reveal_with_fuel(object_key_index, 6);
    let e = message_json_entries(m);
    let invocation_id = m->Invocation_invocation_id;
    let target = m->Invocation_target;
    let arguments = m->Invocation_arguments;
    let stream_ids = m->Invocation_stream_ids;
    let t0 = ("type"@, int_json(1));
    let t2 = ("target"@, JsonData::Str(target));
    let t3 = ("arguments"@, JsonData::Array(arguments));
    match (invocation_id, stream_ids) {
        (Some(i), Some(ss)) => {
            lemma_json_strings_of_strings(ss);
            assert(e =~= seq![t0, ("invocationId"@, JsonData::Str(i)), t2, t3, ("streamIds"@, strings_json(ss))]);
            lemma_object_key_index(e, "streamIds"@, 4);
        },
        (Some(i), None) => {
            assert(e =~= seq![t0, ("invocationId"@, JsonData::Str(i)), t2, t3]);
            lemma_object_key_index(e, "streamIds"@, 4);
        },
        (None, Some(ss)) => {
            lemma_json_strings_of_strings(ss);
            assert(e =~= seq![t0, t2, t3, ("streamIds"@, strings_json(ss))]);
            lemma_object_key_index(e, "streamIds"@, 3);
        },
        (None, None) => {
            assert(e =~= seq![t0, t2, t3]);
            lemma_object_key_index(e, "streamIds"@, 3);
        },
    }
    assert(spec_message_type_code(e) == Ok::<u8, Seq<char>>(1u8));
    assert(dec_opt_string(e, "invocationId"@) == Ok::<Option<Seq<char>>, Seq<char>>(invocation_id));
    assert(dec_string(e, "target"@) == Ok::<Seq<char>, Seq<char>>(target));
    assert(dec_arguments(e, "arguments"@) == Ok::<Seq<JsonData>, Seq<char>>(arguments));
    assert(dec_opt_strings(e, "streamIds"@) == Ok::<Option<Seq<Seq<char>>>, Seq<char>>(stream_ids));
}

proof fn lemma_stream_invocation_json_roundtrip(m: MessageData)
    requires
        m is StreamInvocation,
    ensures
        spec_message_from_json(spec_message_to_json(m)) == Ok::<MessageData, Seq<char>>(m),
{
    lemma_invocation_keys_distinct();
    reveal_with_fuel(object_key_index, 6);
    let e = message_json_entries(m);
    let invocation_id = m->StreamInvocation_invocation_id;
    let target = m->StreamInvocation_target;
    let arguments = m->StreamInvocation_arguments;
    let stream_ids = m->StreamInvocation_stream_ids;
    let t0 = ("type"@, int_json(4));
    let t1 = ("invocationId"@, JsonData::Str(invocation_id));
    let t2 = ("target"@, JsonData::Str(target));
    let t3 = ("arguments"@, JsonData::Array(arguments));
    match stream_ids {
        Some(ss) => {
            lemma_json_strings_of_strings(ss);
            assert(e =~= seq![t0, t1, t2, t3, ("streamIds"@, strings_json(ss))]);
            lemma_object_key_index(e, "streamIds"@, 4);
        },
        None => {
            assert(e =~= seq![t0, t1, t2, t3]);
            lemma_object_key_index(e, "streamIds"@, 4);
        },
    }
    assert(spec_message_type_code(e) == Ok::<u8, Seq<char>>(4u8));
    assert(dec_string(e, "invocationId"@) == Ok::<Seq<char>, Seq<char>>(invocation_id));
    assert(dec_string(e, "target"@) == Ok::<Seq<char>, Seq<char>>(target));
    assert(dec_arguments(e, "arguments"@) == Ok::<Seq<JsonData>, Seq<char>>(arguments));
    assert(dec_opt_strings(e, "streamIds"@) == Ok::<Option<Seq<Seq<char>>>, Seq<char>>(stream_ids));
}

proof fn lemma_other_keys_distinct()
    ensures
        "type"@ != "invocationId"@,
        "type"@ != "item"@,
        "type"@ != "error"@,
        "type"@ != "result"@,
        "type"@ != "allowReconnect"@,
        "invocationId"@ != "item"@,
        "invocationId"@ != "error"@,
        "invocationId"@ != "result"@,
        "error"@ != "result"@,
        "error"@ != "allowReconnect"@,
{
    reveal_strlit("type");
    reveal_strlit("invocationId");
    reveal_strlit("item");
    reveal_strlit("error");
    reveal_strlit("result");
    reveal_strlit("allowReconnect");
    assert("type"@.len() == 4);
    assert("invocationId"@.len() == 12);
    assert("item"@.len() == 4);
    assert("error"@.len() == 5);
    assert("result"@.len() == 6);
    assert("allowReconnect"@.len() == 14);
    assert("type"@[0] != "item"@[0]);
}

proof fn lemma_completion_json_roundtrip(m: MessageData)
    requires
        m is Completion,
        message_wf_json(m),
    ensures
        spec_message_from_json(spec_message_to_json(m)) == Ok::<MessageData, Seq<char>>(m),
{
    lemma_other_keys_distinct();
    reveal_with_fuel(object_key_index, 5);
    let e = message_json_entries(m);
    let invocation_id = m->Completion_invocation_id;
    let result = m->Completion_result;
    let error = m->Completion_error;
    let t0 = ("type"@, int_json(3));
    let t1 = ("invocationId"@, JsonData::Str(invocation_id));
    match (error, result) {
        (Some(x), Some(v)) => {
            assert(e =~= seq![t0, t1, ("error"@, JsonData::Str(x)), ("result"@, v)]);
            lemma_object_key_index(e, "result"@, 3);
        },
        (Some(x), None) => {
            assert(e =~= seq![t0, t1, ("error"@, JsonData::Str(x))]);
            lemma_object_key_index(e, "result"@, 3);
        },
        (None, Some(v)) => {
            assert(e =~= seq![t0, t1, ("result"@, v)]);
            lemma_object_key_index(e, "result"@, 2);
        },
        (None, None) => {
            assert(e =~= seq![t0, t1]);
            lemma_object_key_index(e, "result"@, 2);
        },
    }
    assert(spec_message_type_code(e) == Ok::<u8, Seq<char>>(3u8));
    assert(dec_string(e, "invocationId"@) == Ok::<Seq<char>, Seq<char>>(invocation_id));
    assert(dec_opt_string(e, "error"@) == Ok::<Option<Seq<char>>, Seq<char>>(error));
    assert(dec_opt_value(e, "result"@) == result);
}

proof fn lemma_close_json_roundtrip(m: MessageData)
    requires
        m is Close,
    ensures
        spec_message_from_json(spec_message_to_json(m)) == Ok::<MessageData, Seq<char>>(m),
{
    lemma_other_keys_distinct();
    reveal_with_fuel(object_key_index, 5);
    let e = message_json_entries(m);
    let error = m->Close_error;
    let allow_reconnect = m->Close_allow_reconnect;
    let t0 = ("type"@, int_json(7));
    match (error, allow_reconnect) {
        (Some(x), Some(b)) => {
            assert(e =~= seq![t0, ("error"@, JsonData::Str(x)), ("allowReconnect"@, JsonData::Bool(b))]);
        },
        (Some(x), None) => {
            assert(e =~= seq![t0, ("error"@, JsonData::Str(x))]);
        },
        (None, Some(b)) => {
            assert(e =~= seq![t0, ("allowReconnect"@, JsonData::Bool(b))]);
        },
        (None, None) => {
            assert(e =~= seq![t0]);
        },
    }
    assert(spec_message_type_code(e) == Ok::<u8, Seq<char>>(7u8));
    assert(dec_opt_string(e, "error"@) == Ok::<Option<Seq<char>>, Seq<char>>(error));
    assert(dec_opt_bool(e, "allowReconnect"@) == Ok::<Option<bool>, Seq<char>>(allow_reconnect));
}

/// Reading back the JSON object written for a hub message gives the
/// message, except that a `null` completion result is read as none.
pub proof fn law_json_message_roundtrip(m: MessageData)
    requires
        message_wf_json(m),
    ensures
        spec_message_from_json(spec_message_to_json(m)) == Ok::<MessageData, Seq<char>>(m),
{
    match m {
        MessageData::Invocation { .. } => lemma_invocation_json_roundtrip(m),
        MessageData::StreamInvocation { .. } => lemma_stream_invocation_json_roundtrip(m),
        MessageData::Completion { .. } => lemma_completion_json_roundtrip(m),
        MessageData::Close { .. } => lemma_close_json_roundtrip(m),
        _ => {
            lemma_other_keys_distinct();
            reveal_with_fuel(object_key_index, 4);
        },
    }
}

/// A JSON payload that reads back exactly from its text when it stands `n`
/// levels below the top: well-formed (see `json_wf`), without floats, and
/// nested at most `n` deep.
pub open spec fn json_payload_ok(d: JsonData, n: nat) -> bool {
    json_wf(d) && json_float_free(d) && json_nesting_within(d, n)
}

/// Every JSON payload of a hub message reads back exactly from its text:
/// an argument sits two levels inside the message object (in the arguments
/// array), an item or result one level, and the whole stays within
/// serde_json's 127 levels.
pub open spec fn message_payloads_ok(m: MessageData) -> bool {
    match m {
        MessageData::Invocation { arguments, .. } => forall|i: int|
            0 <= i < arguments.len() ==> json_payload_ok(#[trigger] arguments[i], 125),
        MessageData::StreamInvocation { arguments, .. } => forall|i: int|
            0 <= i < arguments.len() ==> json_payload_ok(#[trigger] arguments[i], 125),
        MessageData::StreamItem { item, .. } => json_payload_ok(item, 126),
        MessageData::Completion { result, .. } => match result {
            Some(v) => json_payload_ok(v, 126),
            None => true,
        },
        _ => true,
    }
}

proof fn lemma_strings_json_ok(ss: Seq<Seq<char>>)
    ensures
        json_payload_ok(strings_json(ss), 126),
{
    let xs = ss.map_values(|s: Seq<char>| JsonData::Str(s));
    assert forall|i: int| 0 <= i < xs.len() implies json_wf(#[trigger] xs[i]) by {}
    assert forall|i: int| 0 <= i < xs.len() implies json_float_free(#[trigger] xs[i]) by {}
    assert forall|i: int| 0 <= i < xs.len() implies json_nesting_within(#[trigger] xs[i], 125) by {}
}

proof fn lemma_arguments_json_ok(args: Seq<JsonData>)
    requires
        forall|i: int| 0 <= i < args.len() ==> json_payload_ok(#[trigger] args[i], 125),
    ensures
        json_payload_ok(JsonData::Array(args), 126),
{
    assert forall|i: int| 0 <= i < args.len() implies json_wf(#[trigger] args[i]) by {}
    assert forall|i: int| 0 <= i < args.len() implies json_float_free(#[trigger] args[i]) by {}
    assert forall|i: int| 0 <= i < args.len() implies json_nesting_within(#[trigger] args[i], 125) by {}
}

/// The entries of a JSON object make an object whose text reads back when
/// their keys differ and each value reads back one level further down.
proof fn lemma_object_ok(e: Seq<(Seq<char>, JsonData)>)
    requires
        forall|i: int| 0 <= i < e.len() ==> json_payload_ok(#[trigger] e[i].1, 126),
        forall|i: int, j: int| 0 <= i < j < e.len() ==> #[trigger] e[i].0 != #[trigger] e[j].0,
    ensures
        json_payload_ok(JsonData::Object(e), 127),
{
    assert forall|i: int| 0 <= i < e.len() implies json_wf(#[trigger] e[i].1) by {}
    assert forall|i: int| 0 <= i < e.len() implies json_float_free(#[trigger] e[i].1) by {}
    assert forall|i: int| 0 <= i < e.len() implies json_nesting_within(#[trigger] e[i].1, 126) by {}
}

proof fn lemma_message_json_ok(m: MessageData)
    requires
        message_payloads_ok(m),
    ensures
        json_payload_ok(spec_message_to_json(m), 127),
{
    lemma_invocation_keys_distinct();
    lemma_other_keys_distinct();
    let e = message_json_entries(m);
    match m {
        MessageData::Invocation { invocation_id, target, arguments, stream_ids } => {
            lemma_arguments_json_ok(arguments);
            let t0 = ("type"@, int_json(1));
            let t2 = ("target"@, JsonData::Str(target));
            let t3 = ("arguments"@, JsonData::Array(arguments));
            match (invocation_id, stream_ids) {
                (Some(i), Some(ss)) => {
                    lemma_strings_json_ok(ss);
                    assert(e =~= seq![t0, ("invocationId"@, JsonData::Str(i)), t2, t3, ("streamIds"@, strings_json(ss))]);
                },
                (Some(i), None) => {
                    assert(e =~= seq![t0, ("invocationId"@, JsonData::Str(i)), t2, t3]);
                },
                (None, Some(ss)) => {
                    lemma_strings_json_ok(ss);
                    assert(e =~= seq![t0, t2, t3, ("streamIds"@, strings_json(ss))]);
                },
                (None, None) => {
                    assert(e =~= seq![t0, t2, t3]);
                },
            }
        },
        MessageData::StreamInvocation { invocation_id, target, arguments, stream_ids } => {
            lemma_arguments_json_ok(arguments);
            let t0 = ("type"@, int_json(4));
            let t1 = ("invocationId"@, JsonData::Str(invocation_id));
            let t2 = ("target"@, JsonData::Str(target));
            let t3 = ("arguments"@, JsonData::Array(arguments));
            match stream_ids {
                Some(ss) => {
                    lemma_strings_json_ok(ss);
                    assert(e =~= seq![t0, t1, t2, t3, ("streamIds"@, strings_json(ss))]);
                },
                None => {
                    assert(e =~= seq![t0, t1, t2, t3]);
                },
            }
        },
        MessageData::StreamItem { invocation_id, item } => {
            assert(json_payload_ok(item, 126));
            assert(e =~= seq![("type"@, int_json(2)), ("invocationId"@, JsonData::Str(invocation_id)), ("item"@, item)]);
        },
        MessageData::Completion { invocation_id, result, error } => {
            let t0 = ("type"@, int_json(3));
            let t1 = ("invocationId"@, JsonData::Str(invocation_id));
            match (error, result) {
                (Some(x), Some(v)) => {
                    assert(json_payload_ok(v, 126));
                    assert(e =~= seq![t0, t1, ("error"@, JsonData::Str(x)), ("result"@, v)]);
                },
                (Some(x), None) => {
                    assert(e =~= seq![t0, t1, ("error"@, JsonData::Str(x))]);
                },
                (None, Some(v)) => {
                    assert(json_payload_ok(v, 126));
                    assert(e =~= seq![t0, t1, ("result"@, v)]);
                },
                (None, None) => {
                    assert(e =~= seq![t0, t1]);
                },
            }
        },
        MessageData::CancelInvocation { invocation_id } => {
            assert(e =~= seq![("type"@, int_json(5)), ("invocationId"@, JsonData::Str(invocation_id))]);
        },
        MessageData::Ping => {
            assert(e =~= seq![("type"@, int_json(6))]);
        },
        MessageData::Close { error, allow_reconnect } => {
            let t0 = ("type"@, int_json(7));
            match (error, allow_reconnect) {
                (Some(x), Some(b)) => {
                    assert(e =~= seq![t0, ("error"@, JsonData::Str(x)), ("allowReconnect"@, JsonData::Bool(b))]);
                },
                (Some(x), None) => {
                    assert(e =~= seq![t0, ("error"@, JsonData::Str(x))]);
                },
                (None, Some(b)) => {
                    assert(e =~= seq![t0, ("allowReconnect"@, JsonData::Bool(b))]);
                },
                (None, None) => {
                    assert(e =~= seq![t0]);
                },
            }
        },
    }
    lemma_object_ok(e);
}

proof fn lemma_trim_after_push(t: Seq<char>)
    requires
        forall|i: int| 0 <= i < t.len() ==> t[i] != RECORD_SEPARATOR,
    ensures
        trim_record_separators(t.push(RECORD_SEPARATOR)) == t,
{
    let u = t.push(RECORD_SEPARATOR);
    if t.len() > 0 {
        assert(u[t.len() - 1] == t[t.len() - 1]);
    }
    lemma_trim_prefix(u, t.len() as int);
    assert(u.take(t.len() as int) =~= t);
}

/// A text without record separators is its own trimmed form.
pub proof fn lemma_text_without_separator(t: Seq<char>)
    requires
        forall|i: int| 0 <= i < t.len() ==> t[i] != RECORD_SEPARATOR,
    ensures
        trim_record_separators(t) == t,
{
    if t.len() > 0 {
        assert(t[t.len() - 1] != RECORD_SEPARATOR);
    }
    lemma_trim_prefix(t, t.len() as int);
    assert(t.take(t.len() as int) =~= t);
}

/// Whether the entries of a JSON object hold each key once.
pub open spec fn keys_distinct(entries: Seq<(Seq<char>, JsonData)>) -> bool {
    forall|i: int, j: int| 0 <= i < j < entries.len() ==> #[trigger] entries[i].0 != #[trigger] entries[j].0
}

/// In an object whose keys differ, a key names the value of the entry that
/// holds it, wherever that entry stands.
pub proof fn lemma_entry_lookup_finds(entries: Seq<(Seq<char>, JsonData)>, i: int)
    requires
        keys_distinct(entries),
        0 <= i < entries.len(),
    ensures
        entry_lookup(entries, entries[i].0) == Some(entries[i].1),
{
    let key = entries[i].0;
    assert forall|j: int| 0 <= j < i implies entries[j].0 != key by {
        assert(entries[j].0 != entries[i].0);
    }
    lemma_object_key_index(entries, key, i);
}

/// A key that no entry holds names nothing.
pub proof fn lemma_entry_lookup_absent(entries: Seq<(Seq<char>, JsonData)>, key: Seq<char>)
    requires
        forall|j: int| 0 <= j < entries.len() ==> entries[j].0 != key,
    ensures
        entry_lookup(entries, key) is None,
{
    lemma_object_key_index(entries, key, entries.len() as int);
}

/// Two objects with distinct keys and the same entries, in any order, look
/// up every key alike.
pub proof fn lemma_same_entries_same_lookups(e1: Seq<(Seq<char>, JsonData)>, e2: Seq<(Seq<char>, JsonData)>)
    requires
        keys_distinct(e1),
        keys_distinct(e2),
        forall|i: int| 0 <= i < e1.len() ==> e2.contains(#[trigger] e1[i]),
        forall|i: int| 0 <= i < e2.len() ==> e1.contains(#[trigger] e2[i]),
    ensures
        forall|key: Seq<char>| #[trigger] entry_lookup(e1, key) == entry_lookup(e2, key),
{
    assert forall|key: Seq<char>| #[trigger] entry_lookup(e1, key) == entry_lookup(e2, key) by {
        if exists|i: int| 0 <= i < e1.len() && e1[i].0 == key {
            let i = choose|i: int| 0 <= i < e1.len() && e1[i].0 == key;
            lemma_entry_lookup_finds(e1, i);
            assert(e2.contains(e1[i]));
            let j = choose|j: int| 0 <= j < e2.len() && e2[j] == e1[i];
            lemma_entry_lookup_finds(e2, j);
        } else {
            lemma_entry_lookup_absent(e1, key);
            assert forall|j: int| 0 <= j < e2.len() implies e2[j].0 != key by {
                assert(e1.contains(e2[j]));
                let i = choose|i: int| 0 <= i < e1.len() && e1[i] == e2[j];
                assert(e1[i].0 == e2[j].0);
            }
            lemma_entry_lookup_absent(e2, key);
        }
    }
}

/// Decoding a hub message from a JSON object does not depend on the order of
/// its entries: two objects with distinct keys and the same entries give the
/// same message, or the same error. In particular the message type is read
/// from the `type` entry wherever it stands.
pub proof fn law_json_decoding_ignores_entry_order(e1: Seq<(Seq<char>, JsonData)>, e2: Seq<(Seq<char>, JsonData)>)
    requires
        keys_distinct(e1),
        keys_distinct(e2),
        forall|i: int| 0 <= i < e1.len() ==> e2.contains(#[trigger] e1[i]),
        forall|i: int| 0 <= i < e2.len() ==> e1.contains(#[trigger] e2[i]),
    ensures
        spec_message_from_json(JsonData::Object(e1)) == spec_message_from_json(JsonData::Object(e2)),
{
    lemma_same_entries_same_lookups(e1, e2);
    assert(entry_lookup(e1, "type"@) == entry_lookup(e2, "type"@));
    assert(entry_lookup(e1, "invocationId"@) == entry_lookup(e2, "invocationId"@));
    assert(entry_lookup(e1, "target"@) == entry_lookup(e2, "target"@));
    assert(entry_lookup(e1, "arguments"@) == entry_lookup(e2, "arguments"@));
    assert(entry_lookup(e1, "streamIds"@) == entry_lookup(e2, "streamIds"@));
    assert(entry_lookup(e1, "item"@) == entry_lookup(e2, "item"@));
    assert(entry_lookup(e1, "result"@) == entry_lookup(e2, "result"@));
    assert(entry_lookup(e1, "error"@) == entry_lookup(e2, "error"@));
    assert(entry_lookup(e1, "allowReconnect"@) == entry_lookup(e2, "allowReconnect"@));
}

} // verus!
