//! The MessagePack hub protocol: hub messages as MessagePack arrays, bodies
//! encoded and decoded by rmpv, and bodies carried in length-prefixed frames.

use vstd::prelude::*;
use crate::error::Result;
use crate::error::SignalRError;
use crate::message::HubMessage;
use crate::message::MessageData;
use crate::text::decimal;
use crate::value::JsonData;
use crate::value::MpData;
use crate::value::MpInteger;
use crate::value::MpValue;
use crate::value::mp_data;
use crate::value::mp_data_seq;
use crate::value::mp_pairs_data;
use crate::value::spec_json_seq_to_mp;
use crate::value::spec_json_to_mp;
use crate::value::spec_json_entries_to_mp;
use crate::value::json_wf;
use crate::value::law_json_messagepack_roundtrip;
use crate::value::lemma_json_seq_roundtrip;
use crate::value::spec_mp_seq_to_json;
use crate::value::spec_mp_to_json;
use crate::value::json_array_to_messagepack;
use crate::value::json_to_messagepack_value;
use crate::value::json_data_seq;
use crate::value::lemma_mp_data_seq_index;
use crate::value::protocol_error;
use crate::value::JsonValue;
use crate::framing::MESSAGEPACK_MAX_FRAME_LENGTH;
use crate::framing::frame_messagepack_payload;
use crate::framing::split_messagepack_frames;
use crate::framing::spec_frame;
use crate::framing::spec_split_frames;
use crate::framing::slice_views;
use crate::value::messagepack_to_json_value;
use crate::value::lemma_mp_pairs_data_index;
use crate::error::prefixed;
use crate::text::append_decimal;
use crate::message::InvocationMessage;
use crate::message::StreamItemMessage;
use crate::message::StreamInvocationMessage;
use crate::message::CancelInvocationMessage;
use crate::message::PingMessage;
use crate::message::CloseMessage;
use crate::message::CompletionMessage;
use crate::message::opt_string_view;
use crate::message::opt_strings_view;
use crate::message::strings_view;
use crate::value::json_floats_convert;
use crate::value::rmpv_is_f64;
use crate::framing::spec_frames;
use crate::framing::law_split_frames_inverts_framing;
use crate::framing::law_split_frames_concatenate;

verus! {

/// Completion result kind: the invocation failed with an error message.
pub const MESSAGEPACK_RESULT_KIND_ERROR: u64 = 1;

/// Completion result kind: the invocation produced no value.
pub const MESSAGEPACK_RESULT_KIND_VOID: u64 = 2;

/// Completion result kind: the invocation produced a value.
pub const MESSAGEPACK_RESULT_KIND_NON_VOID: u64 = 3;

// ---------------------------------------------------------------------------
// Encoding: hub message -> MessagePack value
// ---------------------------------------------------------------------------

/// A non-negative MessagePack integer.
pub open spec fn int_mp(n: u64) -> MpData {
    MpData::Integer(MpInteger::PosInt(n))
}

/// The empty header map every message with headers carries.
pub open spec fn empty_headers_mp() -> MpData {
    MpData::MapEntries(seq![])
}

/// A string, or `nil` when absent.
pub open spec fn opt_str_mp(o: Option<Seq<char>>) -> MpData {
    match o {
        Some(s) => MpData::Str(Some(s)),
        None => MpData::Nil,
    }
}

/// A string array; an absent array is written as an empty one.
pub open spec fn strings_mp(o: Option<Seq<Seq<char>>>) -> MpData {
    match o {
        Some(v) => MpData::Array(v.map_values(|s: Seq<char>| MpData::Str(Some(s)))),
        None => MpData::Array(seq![]),
    }
}

/// The MessagePack array that stands for a hub message.
pub open spec fn spec_message_to_mp(m: MessageData) -> core::result::Result<MpData, Seq<char>> {
    match m {
        MessageData::Invocation { invocation_id, target, arguments, stream_ids } => match spec_json_seq_to_mp(arguments) {
            Err(e) => Err(e),
            Ok(args) => Ok(
                MpData::Array(
                    seq![
                        int_mp(1),
                        empty_headers_mp(),
                        opt_str_mp(invocation_id),
                        MpData::Str(Some(target)),
                        MpData::Array(args),
                        strings_mp(stream_ids),
                    ],
                ),
            ),
        },
        MessageData::StreamItem { invocation_id, item } => match spec_json_to_mp(item) {
            Err(e) => Err(e),
            Ok(x) => Ok(
                MpData::Array(
                    seq![int_mp(2), empty_headers_mp(), MpData::Str(Some(invocation_id)), x],
                ),
            ),
        },
        MessageData::Completion { invocation_id, result, error } => {
            let head = seq![int_mp(3), empty_headers_mp(), MpData::Str(Some(invocation_id))];
            if error is Some && result is Some {
                Err("Completion message cannot contain both result and error"@)
            } else {
                match error {
                    Some(e) => Ok(MpData::Array(head + seq![int_mp(1), MpData::Str(Some(e))])),
                    None => match result {
                        Some(r) => match spec_json_to_mp(r) {
                            Err(e) => Err(e),
                            Ok(x) => Ok(MpData::Array(head + seq![int_mp(3), x])),
                        },
                        None => Ok(MpData::Array(head.push(int_mp(2)))),
                    },
                }
            }
        },
        MessageData::StreamInvocation { invocation_id, target, arguments, stream_ids } => match spec_json_seq_to_mp(arguments) {
            Err(e) => Err(e),
            Ok(args) => Ok(
                MpData::Array(
                    seq![
                        int_mp(4),
                        empty_headers_mp(),
                        MpData::Str(Some(invocation_id)),
                        MpData::Str(Some(target)),
                        MpData::Array(args),
                        strings_mp(stream_ids),
                    ],
                ),
            ),
        },
        MessageData::CancelInvocation { invocation_id } => Ok(
            MpData::Array(seq![int_mp(5), empty_headers_mp(), MpData::Str(Some(invocation_id))]),
        ),
        MessageData::Ping => Ok(MpData::Array(seq![int_mp(6)])),
        MessageData::Close { error, allow_reconnect } => Ok(
            MpData::Array(
                match allow_reconnect {
                    Some(b) => seq![int_mp(7), opt_str_mp(error), MpData::Boolean(b)],
                    None => seq![int_mp(7), opt_str_mp(error)],
                },
            ),
        ),
    }
}

// ---------------------------------------------------------------------------
// Decoding: MessagePack value -> hub message
// ---------------------------------------------------------------------------

/// The `u64` an integer item denotes, if it has one.
pub open spec fn mp_as_u64(d: MpData) -> Option<u64> {
    match d {
        MpData::Integer(MpInteger::PosInt(n)) => Some(n),
        MpData::Integer(MpInteger::NegInt(i)) => if i >= 0 {
            Some(i as u64)
        } else {
            None
        },
        _ => None,
    }
}

/// The text of a valid string item.
pub open spec fn mp_as_str(d: MpData) -> Option<Seq<char>> {
    match d {
        MpData::Str(Some(s)) => Some(s),
        _ => None,
    }
}

/// The error text for a malformed field.
pub open spec fn field_error(field: Seq<char>, complaint: Seq<char>) -> Seq<char> {
    "MessagePack field '"@ + field + "' "@ + complaint
}

/// The non-negative integer at position `i`, or the field error.
pub open spec fn spec_item_u64(items: Seq<MpData>, i: int, field: Seq<char>) -> core::result::Result<
    u64,
    Seq<char>,
> {
    if 0 <= i < items.len() && mp_as_u64(items[i]) is Some {
        Ok(mp_as_u64(items[i]).unwrap())
    } else {
        Err(field_error(field, "must be an integer"@))
    }
}

/// The string at position `i`, or the field error.
pub open spec fn spec_item_string(items: Seq<MpData>, i: int, field: Seq<char>) -> core::result::Result<
    Seq<char>,
    Seq<char>,
> {
    if 0 <= i < items.len() && mp_as_str(items[i]) is Some {
        Ok(mp_as_str(items[i]).unwrap())
    } else {
        Err(field_error(field, "must be a string"@))
    }
}

/// An optional string: `nil` is absent.
pub open spec fn spec_value_opt_string(d: MpData, field: Seq<char>) -> core::result::Result<
    Option<Seq<char>>,
    Seq<char>,
> {
    match d {
        MpData::Nil => Ok(None),
        _ => match mp_as_str(d) {
            Some(s) => Ok(Some(s)),
            None => Err(field_error(field, "must be a string"@)),
        },
    }
}

/// The optional string at position `i`: missing or `nil` is absent.
pub open spec fn spec_item_opt_string(items: Seq<MpData>, i: int, field: Seq<char>) -> core::result::Result<
    Option<Seq<char>>,
    Seq<char>,
> {
    if i < 0 || i >= items.len() {
        Ok(None)
    } else {
        match items[i] {
            MpData::Nil => Ok(None),
            _ => match spec_item_string(items, i, field) {
                Ok(s) => Ok(Some(s)),
                Err(e) => Err(e),
            },
        }
    }
}

/// The optional boolean at position `i`: missing or `nil` is absent.
pub open spec fn spec_item_opt_bool(items: Seq<MpData>, i: int, field: Seq<char>) -> core::result::Result<
    Option<bool>,
    Seq<char>,
> {
    if i < 0 || i >= items.len() {
        Ok(None)
    } else {
        match items[i] {
            MpData::Nil => Ok(None),
            MpData::Boolean(b) => Ok(Some(b)),
            _ => Err(field_error(field, "must be a boolean"@)),
        }
    }
}

/// The array at position `i`, decoded as JSON values.
pub open spec fn spec_item_json_array(items: Seq<MpData>, i: int, field: Seq<char>) -> core::result::Result<
    Seq<JsonData>,
    Seq<char>,
> {
    if 0 <= i < items.len() && items[i] is Array {
        spec_mp_seq_to_json(items[i]->Array_0)
    } else {
        Err(field_error(field, "must be an array"@))
    }
}

/// The strings of an array, if every item is one.
pub open spec fn spec_strings_of(values: Seq<MpData>, field: Seq<char>) -> core::result::Result<
    Seq<Seq<char>>,
    Seq<char>,
>
    decreases values.len(),
{
    if values.len() == 0 {
        Ok(seq![])
    } else {
        match spec_strings_of(values.drop_last(), field) {
            Err(e) => Err(e),
            Ok(prefix) => match mp_as_str(values.last()) {
                Some(s) => Ok(prefix.push(s)),
                None => Err(field_error(field, "must contain only strings"@)),
            },
        }
    }
}

/// The optional string array at position `i`: missing, `nil` or empty is absent.
pub open spec fn spec_item_opt_string_array(items: Seq<MpData>, i: int, field: Seq<char>) -> core::result::Result<
    Option<Seq<Seq<char>>>,
    Seq<char>,
> {
    if i < 0 || i >= items.len() {
        Ok(None)
    } else {
        match items[i] {
            MpData::Nil => Ok(None),
            MpData::Array(values) => if values.len() == 0 {
                Ok(None)
            } else {
                match spec_strings_of(values, field) {
                    Ok(ss) => Ok(Some(ss)),
                    Err(e) => Err(e),
                }
            },
            _ => Err(field_error(field, "must be an array"@)),
        }
    }
}

/// Headers are a map from strings to strings.
pub open spec fn spec_headers_ok(items: Seq<MpData>, i: int) -> core::result::Result<(), Seq<char>> {
    if 0 <= i < items.len() && items[i] is MapEntries {
        let pairs = items[i]->MapEntries_0;
        if forall|j: int|
            0 <= j < pairs.len() ==> mp_as_str(#[trigger] pairs[j].0) is Some && mp_as_str(
                pairs[j].1,
            ) is Some {
            Ok(())
        } else {
            Err("MessagePack headers must be string key-value pairs"@)
        }
    } else {
        Err("MessagePack headers must be a map"@)
    }
}

/// The error text for an array of the wrong size.
pub open spec fn count_error(name: Seq<char>, len: nat, min: nat, max: nat) -> Seq<char> {
    name + " MessagePack message has "@ + decimal(len) + " items; expected "@ + decimal(min) + (
    if min == max {
        Seq::<char>::empty()
    } else {
        "-"@ + decimal(max)
    })
}

/// Whether a message has between `min` and `max` items.
pub open spec fn spec_count_ok(items: Seq<MpData>, min: nat, max: nat, name: Seq<char>) -> core::result::Result<
    (),
    Seq<char>,
> {
    if items.len() < min || items.len() > max {
        Err(count_error(name, items.len(), min, max))
    } else {
        Ok(())
    }
}


/// An invocation read from its MessagePack array.
pub open spec fn spec_parse_invocation(items: Seq<MpData>) -> core::result::Result<MessageData, Seq<char>> {
    match spec_count_ok(items, 5, 6, "Invocation"@) {
        Err(e) => Err(e),
        Ok(_) => match spec_headers_ok(items, 1) {
            Err(e) => Err(e),
            Ok(_) => match spec_value_opt_string(items[2], "invocationId"@) {
                Err(e) => Err(e),
                Ok(invocation_id) => match spec_item_string(items, 3, "target"@) {
                    Err(e) => Err(e),
                    Ok(target) => match spec_item_json_array(items, 4, "arguments"@) {
                        Err(e) => Err(e),
                        Ok(arguments) => match spec_item_opt_string_array(items, 5, "streamIds"@) {
                            Err(e) => Err(e),
                            Ok(stream_ids) => Ok(
                                MessageData::Invocation { invocation_id, target, arguments, stream_ids },
                            ),
                        },
                    },
                },
            },
        },
    }
}

/// A stream item read from its MessagePack array.
pub open spec fn spec_parse_stream_item(items: Seq<MpData>) -> core::result::Result<MessageData, Seq<char>> {
    match spec_count_ok(items, 4, 4, "StreamItem"@) {
        Err(e) => Err(e),
        Ok(_) => match spec_headers_ok(items, 1) {
            Err(e) => Err(e),
            Ok(_) => match spec_item_string(items, 2, "invocationId"@) {
                Err(e) => Err(e),
                Ok(invocation_id) => match spec_mp_to_json(items[3]) {
                    Err(e) => Err(e),
                    Ok(item) => Ok(MessageData::StreamItem { invocation_id, item }),
                },
            },
        },
    }
}

/// A completion read from its MessagePack array.
pub open spec fn spec_parse_completion(items: Seq<MpData>) -> core::result::Result<MessageData, Seq<char>> {
    match spec_count_ok(items, 4, 5, "Completion"@) {
        Err(e) => Err(e),
        Ok(_) => match spec_headers_ok(items, 1) {
            Err(e) => Err(e),
            Ok(_) => match spec_item_string(items, 2, "invocationId"@) {
                Err(e) => Err(e),
                Ok(invocation_id) => match spec_item_u64(items, 3, "resultKind"@) {
                    Err(e) => Err(e),
                    Ok(kind) => if kind == MESSAGEPACK_RESULT_KIND_ERROR {
                        match spec_count_ok(items, 5, 5, "Completion error"@) {
                            Err(e) => Err(e),
                            Ok(_) => match spec_item_string(items, 4, "error"@) {
                                Err(e) => Err(e),
                                Ok(error) => Ok(
                                    MessageData::Completion { invocation_id, result: None, error: Some(error) },
                                ),
                            },
                        }
                    } else if kind == MESSAGEPACK_RESULT_KIND_VOID {
                        match spec_count_ok(items, 4, 4, "Completion void"@) {
                            Err(e) => Err(e),
                            Ok(_) => Ok(
                                MessageData::Completion { invocation_id, result: None, error: None },
                            ),
                        }
                    } else if kind == MESSAGEPACK_RESULT_KIND_NON_VOID {
                        match spec_count_ok(items, 5, 5, "Completion result"@) {
                            Err(e) => Err(e),
                            Ok(_) => match spec_mp_to_json(items[4]) {
                                Err(e) => Err(e),
                                Ok(result) => Ok(
                                    MessageData::Completion { invocation_id, result: Some(result), error: None },
                                ),
                            },
                        }
                    } else {
                        Err("Invalid MessagePack completion result kind: "@ + decimal(kind as nat))
                    },
                },
            },
        },
    }
}

/// A stream invocation read from its MessagePack array.
pub open spec fn spec_parse_stream_invocation(items: Seq<MpData>) -> core::result::Result<
    MessageData,
    Seq<char>,
> {
    match spec_count_ok(items, 5, 6, "StreamInvocation"@) {
        Err(e) => Err(e),
        Ok(_) => match spec_headers_ok(items, 1) {
            Err(e) => Err(e),
            Ok(_) => match spec_item_string(items, 2, "invocationId"@) {
                Err(e) => Err(e),
                Ok(invocation_id) => match spec_item_string(items, 3, "target"@) {
                    Err(e) => Err(e),
                    Ok(target) => match spec_item_json_array(items, 4, "arguments"@) {
                        Err(e) => Err(e),
                        Ok(arguments) => match spec_item_opt_string_array(items, 5, "streamIds"@) {
                            Err(e) => Err(e),
                            Ok(stream_ids) => Ok(
                                MessageData::StreamInvocation { invocation_id, target, arguments, stream_ids },
                            ),
                        },
                    },
                },
            },
        },
    }
}

/// A cancel invocation read from its MessagePack array.
pub open spec fn spec_parse_cancel_invocation(items: Seq<MpData>) -> core::result::Result<
    MessageData,
    Seq<char>,
> {
    match spec_count_ok(items, 3, 3, "CancelInvocation"@) {
        Err(e) => Err(e),
        Ok(_) => match spec_headers_ok(items, 1) {
            Err(e) => Err(e),
            Ok(_) => match spec_item_string(items, 2, "invocationId"@) {
                Err(e) => Err(e),
                Ok(invocation_id) => Ok(MessageData::CancelInvocation { invocation_id }),
            },
        },
    }
}

/// A ping read from its MessagePack array.
pub open spec fn spec_parse_ping(items: Seq<MpData>) -> core::result::Result<MessageData, Seq<char>> {
    match spec_count_ok(items, 1, 1, "Ping"@) {
        Err(e) => Err(e),
        Ok(_) => Ok(MessageData::Ping),
    }
}

/// A close message read from its MessagePack array.
pub open spec fn spec_parse_close(items: Seq<MpData>) -> core::result::Result<MessageData, Seq<char>> {
    match spec_count_ok(items, 1, 3, "Close"@) {
        Err(e) => Err(e),
        Ok(_) => match spec_item_opt_string(items, 1, "error"@) {
            Err(e) => Err(e),
            Ok(error) => match spec_item_opt_bool(items, 2, "allowReconnect"@) {
                Err(e) => Err(e),
                Ok(allow_reconnect) => Ok(MessageData::Close { error, allow_reconnect }),
            },
        },
    }
}

/// The hub message a MessagePack value stands for.
pub open spec fn spec_message_from_mp(d: MpData) -> core::result::Result<MessageData, Seq<char>> {
    match d {
        MpData::Array(items) => match spec_item_u64(items, 0, "message type"@) {
            Err(e) => Err(e),
            Ok(t) => if t == 1 {
                spec_parse_invocation(items)
            } else if t == 2 {
                spec_parse_stream_item(items)
            } else if t == 3 {
                spec_parse_completion(items)
            } else if t == 4 {
                spec_parse_stream_invocation(items)
            } else if t == 5 {
                spec_parse_cancel_invocation(items)
            } else if t == 6 {
                spec_parse_ping(items)
            } else if t == 7 {
                spec_parse_close(items)
            } else {
                Err("Unknown MessagePack message type: "@ + decimal(t as nat))
            },
        },
        _ => Err("MessagePack hub message must be an array"@),
    }
}


/// Packs values into a MessagePack array.
fn mp_array(items: Vec<MpValue>) -> (r: MpValue)
    ensures
        r@ == MpData::Array(mp_data_seq(items@)),
        mp_data_seq(items@).len() == items@.len(),
        forall|j: int| 0 <= j < items@.len() ==> #[trigger] mp_data_seq(items@)[j] == mp_data(items@[j]),
{
    proof {
        lemma_mp_data_seq_index(items@);
    }
    MpValue::Array(items)
}

/// The empty header map.
fn empty_messagepack_headers() -> (r: MpValue)
    ensures
        r@ == empty_headers_mp(),
{
    let pairs: Vec<(MpValue, MpValue)> = Vec::new();
    assert(mp_pairs_data(pairs@) =~= Seq::<(MpData, MpData)>::empty());
    MpValue::MapEntries(pairs)
}

/// A non-negative integer value.
fn messagepack_uint(n: u64) -> (r: MpValue)
    ensures
        r@ == int_mp(n),
{
    MpValue::Integer(MpInteger::PosInt(n))
}

/// A string value.
fn messagepack_string(s: &String) -> (r: MpValue)
    ensures
        r@ == MpData::Str(Some(s@)),
{
    MpValue::String(Some(s.clone()))
}

/// A string, or `nil` when absent.
fn optional_string_to_messagepack(value: &Option<String>) -> (r: MpValue)
    ensures
        r@ == opt_str_mp(opt_string_view(*value)),
{
    match value {
        Some(s) => messagepack_string(s),
        None => MpValue::Nil,
    }
}

/// A string array; an absent array is written as an empty one.
fn string_array_to_messagepack(values: &Option<Vec<String>>) -> (r: MpValue)
    ensures
        r@ == strings_mp(opt_strings_view(*values)),
{
    let mut out: Vec<MpValue> = Vec::new();
    match values {
        Some(v) => {
            let mut i: usize = 0;
            while i < v.len()
                invariant
                    i <= v@.len(),
                    out@.len() == i,
                    forall|j: int| 0 <= j < i ==> #[trigger] mp_data(out@[j]) == MpData::Str(Some(v@[j]@)),
                decreases v@.len() - i,
            {
                out.push(messagepack_string(&v[i]));
                i = i + 1;
            }
            let r = mp_array(out);
            assert(mp_data_seq(out@) =~= strings_view(v@).map_values(|s: Seq<char>| MpData::Str(Some(s))));
            r
        },
        None => {
            let r = mp_array(out);
            assert(mp_data_seq(out@) =~= Seq::<MpData>::empty());
            r
        },
    }
}

/// Encodes a completion message.
fn completion_to_messagepack(message: &CompletionMessage) -> (r: Result<MpValue>)
    ensures
        match r {
            Ok(v) => spec_message_to_mp(HubMessage::Completion(*message)@) == Ok::<MpData, Seq<char>>(v@),
            Err(SignalRError::Protocol(t)) => spec_message_to_mp(HubMessage::Completion(*message)@) == Err::<MpData, Seq<char>>(t@),
            Err(_) => false,
        },
        r is Ok <==> !completion_has_result_and_error(HubMessage::Completion(*message)@),
        r is Ok ==> message_floats_convert(HubMessage::Completion(*message)@),
{
    if message.error.is_some() && message.result.is_some() {
        return Err(protocol_error("Completion message cannot contain both result and error"));
    }
    let ghost head = seq![int_mp(3), empty_headers_mp(), MpData::Str(Some(message.invocation_id@))];
    let mut items: Vec<MpValue> = Vec::new();
    items.push(messagepack_uint(3));
    items.push(empty_messagepack_headers());
    items.push(messagepack_string(&message.invocation_id));
    match &message.error {
        Some(error) => {
            items.push(messagepack_uint(MESSAGEPACK_RESULT_KIND_ERROR));
            items.push(messagepack_string(error));
            let r = mp_array(items);
            assert(mp_data_seq(items@) =~= head + seq![int_mp(1), MpData::Str(Some(error@))]);
            Ok(r)
        },
        None => match &message.result {
            Some(result) => {
                let converted = json_to_messagepack_value(result);
                match converted {
                    Ok(x) => {
                        items.push(messagepack_uint(MESSAGEPACK_RESULT_KIND_NON_VOID));
                        let ghost xd = x@;
                        items.push(x);
                        let r = mp_array(items);
                        assert(mp_data_seq(items@) =~= head + seq![int_mp(3), xd]);
                        Ok(r)
                    },
                    Err(e) => Err(e),
                }
            },
            None => {
                items.push(messagepack_uint(MESSAGEPACK_RESULT_KIND_VOID));
                let r = mp_array(items);
                assert(mp_data_seq(items@) =~= head.push(int_mp(2)));
                Ok(r)
            },
        },
    }
}

/// Encodes a close message.
fn close_to_messagepack(message: &CloseMessage) -> (r: MpValue)
    ensures
        spec_message_to_mp(HubMessage::Close(*message)@) == Ok::<MpData, Seq<char>>(r@),
{
    let mut items: Vec<MpValue> = Vec::new();
    items.push(messagepack_uint(7));
    items.push(optional_string_to_messagepack(&message.error));
    match message.allow_reconnect {
        Some(b) => {
            items.push(MpValue::Boolean(b));
            let r = mp_array(items);
            assert(mp_data_seq(items@) =~= seq![int_mp(7), opt_str_mp(opt_string_view(message.error)), MpData::Boolean(b)]);
            r
        },
        None => {
            let r = mp_array(items);
            assert(mp_data_seq(items@) =~= seq![int_mp(7), opt_str_mp(opt_string_view(message.error))]);
            r
        },
    }
}

/// Encodes a hub message as the MessagePack array that stands for it.
pub fn message_to_messagepack_value(message: &HubMessage) -> (r: Result<MpValue>)
    ensures
        match r {
            Ok(v) => spec_message_to_mp(message@) == Ok::<MpData, Seq<char>>(v@),
            Err(SignalRError::Protocol(t)) => spec_message_to_mp(message@) == Err::<MpData, Seq<char>>(t@),
            Err(_) => false,
        },
        r is Ok <==> !completion_has_result_and_error(message@),
        r is Ok ==> message_floats_convert(message@),
        r matches Ok(v) ==> (message_wf_mp(message@) ==> spec_message_from_mp(v@) == Ok::<MessageData, Seq<char>>(
            message@,
        )),
{
    let r = match message {
        HubMessage::Invocation(m) => {
            let args = match json_array_to_messagepack(&m.arguments) {
                Ok(a) => a,
                Err(e) => return Err(e),
            };
            let mut items: Vec<MpValue> = Vec::new();
            items.push(messagepack_uint(1));
            items.push(empty_messagepack_headers());
            items.push(optional_string_to_messagepack(&m.invocation_id));
            items.push(messagepack_string(&m.target));
            let ghost ad = args@;
            items.push(args);
            items.push(string_array_to_messagepack(&m.stream_ids));
            let r = mp_array(items);
            assert(mp_data_seq(items@) =~= seq![
                int_mp(1),
                empty_headers_mp(),
                opt_str_mp(opt_string_view(m.invocation_id)),
                MpData::Str(Some(m.target@)),
                ad,
                strings_mp(opt_strings_view(m.stream_ids)),
            ]);
            Ok(r)
        },
        HubMessage::StreamItem(m) => {
            let x = match json_to_messagepack_value(&m.item) {
                Ok(x) => x,
                Err(e) => return Err(e),
            };
            let mut items: Vec<MpValue> = Vec::new();
            items.push(messagepack_uint(2));
            items.push(empty_messagepack_headers());
            items.push(messagepack_string(&m.invocation_id));
            let ghost xd = x@;
            items.push(x);
            let r = mp_array(items);
            assert(mp_data_seq(items@) =~= seq![
                int_mp(2),
                empty_headers_mp(),
                MpData::Str(Some(m.invocation_id@)),
                xd,
            ]);
            Ok(r)
        },
        HubMessage::Completion(m) => completion_to_messagepack(m),
        HubMessage::StreamInvocation(m) => {
            let args = match json_array_to_messagepack(&m.arguments) {
                Ok(a) => a,
                Err(e) => return Err(e),
            };
            let mut items: Vec<MpValue> = Vec::new();
            items.push(messagepack_uint(4));
            items.push(empty_messagepack_headers());
            items.push(messagepack_string(&m.invocation_id));
            items.push(messagepack_string(&m.target));
            let ghost ad = args@;
            items.push(args);
            items.push(string_array_to_messagepack(&m.stream_ids));
            let r = mp_array(items);
            assert(mp_data_seq(items@) =~= seq![
                int_mp(4),
                empty_headers_mp(),
                MpData::Str(Some(m.invocation_id@)),
                MpData::Str(Some(m.target@)),
                ad,
                strings_mp(opt_strings_view(m.stream_ids)),
            ]);
            Ok(r)
        },
        HubMessage::CancelInvocation(m) => {
            let mut items: Vec<MpValue> = Vec::new();
            items.push(messagepack_uint(5));
            items.push(empty_messagepack_headers());
            items.push(messagepack_string(&m.invocation_id));
            let r = mp_array(items);
            assert(mp_data_seq(items@) =~= seq![
                int_mp(5),
                empty_headers_mp(),
                MpData::Str(Some(m.invocation_id@)),
            ]);
            Ok(r)
        },
        HubMessage::Ping(_) => {
            let mut items: Vec<MpValue> = Vec::new();
            items.push(messagepack_uint(6));
            let r = mp_array(items);
            assert(mp_data_seq(items@) =~= seq![int_mp(6)]);
            Ok(r)
        },
        HubMessage::Close(m) => Ok(close_to_messagepack(m)),
    };
    proof {
        if r is Ok && message_wf_mp(message@) {
            law_messagepack_message_roundtrip(message@);
        }
    }
    r
}


/// The error for a malformed field.
fn field_error_value(field: &str, complaint: &str) -> (e: SignalRError)
    ensures
        e matches SignalRError::Protocol(t) && t@ == field_error(field@, complaint@),
{
    let mut t = String::from_str("MessagePack field '");
    t.append(field);
    t.append("' ");
    t.append(complaint);
    SignalRError::Protocol(t)
}

fn mp_value_as_u64(v: &MpValue) -> (r: Option<u64>)
    ensures
        r == mp_as_u64(v@),
{
    match v {
        MpValue::Integer(MpInteger::PosInt(n)) => Some(*n),
        MpValue::Integer(MpInteger::NegInt(i)) => if *i >= 0 {
            Some(*i as u64)
        } else {
            None
        },
        _ => None,
    }
}

fn mp_value_as_str(v: &MpValue) -> (r: Option<&String>)
    ensures
        match r {
            Some(s) => mp_as_str(v@) == Some(s@),
            None => mp_as_str(v@) is None,
        },
{
    match v {
        MpValue::String(Some(s)) => Some(s),
        _ => None,
    }
}

/// Reads the integer at `index`.
fn messagepack_item_as_u64(items: &Vec<MpValue>, index: usize, field: &str) -> (r: Result<u64>)
    ensures
        match r {
            Ok(n) => spec_item_u64(mp_data_seq(items@), index as int, field@) == Ok::<u64, Seq<char>>(n),
            Err(SignalRError::Protocol(t)) => spec_item_u64(mp_data_seq(items@), index as int, field@)
                == Err::<u64, Seq<char>>(t@),
            Err(_) => false,
        },
{
    proof {
        lemma_mp_data_seq_index(items@);
    }
    if index < items.len() {
        if let Some(n) = mp_value_as_u64(&items[index]) {
            return Ok(n);
        }
    }
    Err(field_error_value(field, "must be an integer"))
}

/// Reads the string at `index`.
fn messagepack_item_as_string(items: &Vec<MpValue>, index: usize, field: &str) -> (r: Result<String>)
    ensures
        match r {
            Ok(s) => spec_item_string(mp_data_seq(items@), index as int, field@) == Ok::<Seq<char>, Seq<char>>(s@),
            Err(SignalRError::Protocol(t)) => spec_item_string(mp_data_seq(items@), index as int, field@)
                == Err::<Seq<char>, Seq<char>>(t@),
            Err(_) => false,
        },
{
    proof {
        lemma_mp_data_seq_index(items@);
    }
    if index < items.len() {
        if let Some(s) = mp_value_as_str(&items[index]) {
            return Ok(s.clone());
        }
    }
    Err(field_error_value(field, "must be a string"))
}

/// Reads an optional string held in `value`: `nil` is absent.
fn optional_messagepack_string(value: &MpValue, field: &str) -> (r: Result<Option<String>>)
    ensures
        match r {
            Ok(s) => spec_value_opt_string(value@, field@) == Ok::<Option<Seq<char>>, Seq<char>>(opt_string_view(s)),
            Err(SignalRError::Protocol(t)) => spec_value_opt_string(value@, field@) == Err::<Option<Seq<char>>, Seq<char>>(t@),
            Err(_) => false,
        },
{
    match value {
        MpValue::Nil => Ok(None),
        _ => match mp_value_as_str(value) {
            Some(s) => Ok(Some(s.clone())),
            None => Err(field_error_value(field, "must be a string")),
        },
    }
}

/// Reads the optional string at `index`: absent or `nil` is `None`.
fn optional_messagepack_item_as_string(items: &Vec<MpValue>, index: usize, field: &str) -> (r: Result<Option<String>>)
    ensures
        match r {
            Ok(s) => spec_item_opt_string(mp_data_seq(items@), index as int, field@) == Ok::<Option<Seq<char>>, Seq<char>>(opt_string_view(s)),
            Err(SignalRError::Protocol(t)) => spec_item_opt_string(mp_data_seq(items@), index as int, field@) == Err::<Option<Seq<char>>, Seq<char>>(t@),
            Err(_) => false,
        },
{
    proof {
        lemma_mp_data_seq_index(items@);
    }
    if index >= items.len() {
        return Ok(None);
    }
    match &items[index] {
        MpValue::Nil => Ok(None),
        _ => match messagepack_item_as_string(items, index, field) {
            Ok(s) => Ok(Some(s)),
            Err(e) => Err(e),
        },
    }
}

/// Reads the optional boolean at `index`: absent or `nil` is `None`.
fn optional_messagepack_item_as_bool(items: &Vec<MpValue>, index: usize, field: &str) -> (r: Result<Option<bool>>)
    ensures
        match r {
            Ok(b) => spec_item_opt_bool(mp_data_seq(items@), index as int, field@) == Ok::<Option<bool>, Seq<char>>(b),
            Err(SignalRError::Protocol(t)) => spec_item_opt_bool(mp_data_seq(items@), index as int, field@) == Err::<Option<bool>, Seq<char>>(t@),
            Err(_) => false,
        },
{
    proof {
        lemma_mp_data_seq_index(items@);
    }
    if index >= items.len() {
        return Ok(None);
    }
    match &items[index] {
        MpValue::Nil => Ok(None),
        MpValue::Boolean(b) => Ok(Some(*b)),
        _ => Err(field_error_value(field, "must be a boolean")),
    }
}

/// Reads the array of JSON values at `index`.
fn messagepack_item_as_json_array(items: &Vec<MpValue>, index: usize, field: &str) -> (r: Result<Vec<JsonValue>>)
    ensures
        match r {
            Ok(v) => spec_item_json_array(mp_data_seq(items@), index as int, field@) == Ok::<Seq<JsonData>, Seq<char>>(json_data_seq(v@)),
            Err(SignalRError::Protocol(t)) => spec_item_json_array(mp_data_seq(items@), index as int, field@) == Err::<Seq<JsonData>, Seq<char>>(t@),
            Err(_) => false,
        },
{
    proof {
        lemma_mp_data_seq_index(items@);
    }
    if index < items.len() {
        if let MpValue::Array(values) = &items[index] {
            match messagepack_to_json_value(&items[index]) {
                Ok(JsonValue::Array(out)) => {
                    return Ok(out);
                },
                Ok(_) => {
                    assert(false);
                    return Err(field_error_value(field, "must be an array"));
                },
                Err(e) => {
                    return Err(e);
                },
            }
        }
    }
    Err(field_error_value(field, "must be an array"))
}

#[verifier::loop_isolation(false)]
/// Reads the optional string array at `index`: absent, `nil` or empty is
/// `None`.
fn optional_messagepack_string_array(items: &Vec<MpValue>, index: usize, field: &str) -> (r: Result<Option<Vec<String>>>)
    ensures
        match r {
            Ok(v) => spec_item_opt_string_array(mp_data_seq(items@), index as int, field@) == Ok::<Option<Seq<Seq<char>>>, Seq<char>>(opt_strings_view(v)),
            Err(SignalRError::Protocol(t)) => spec_item_opt_string_array(mp_data_seq(items@), index as int, field@) == Err::<Option<Seq<Seq<char>>>, Seq<char>>(t@),
            Err(_) => false,
        },
{
    proof {
        lemma_mp_data_seq_index(items@);
    }
    if index >= items.len() {
        return Ok(None);
    }
    match &items[index] {
        MpValue::Nil => Ok(None),
        MpValue::Array(values) => {
            proof {
                lemma_mp_data_seq_index(values@);
            }
            if values.len() == 0 {
                return Ok(None);
            }
            let ghost vd = mp_data_seq(values@);
            let mut out: Vec<String> = Vec::new();
            let mut i: usize = 0;
            assert(mp_data_seq(items@)[index as int] == MpData::Array(vd));
            assert(vd.take(0) =~= Seq::<MpData>::empty());
            assert(strings_view(out@) =~= Seq::<Seq<char>>::empty());
            while i < values.len()
                invariant
                    i <= values@.len(),
                    vd == mp_data_seq(values@),
                    vd.len() == values@.len(),
                    forall|j: int| 0 <= j < values@.len() ==> #[trigger] vd[j] == mp_data(values@[j]),
                    spec_strings_of(vd.take(i as int), field@) == Ok::<Seq<Seq<char>>, Seq<char>>(strings_view(out@)),
                decreases values@.len() - i,
            {
                let ghost t1 = vd.take(i + 1);
                assert(t1.drop_last() =~= vd.take(i as int));
                assert(t1.last() == vd[i as int]);
                match mp_value_as_str(&values[i]) {
                    Some(s) => {
                        let ghost before = out@;
                        out.push(s.clone());
                        assert(strings_view(out@) =~= strings_view(before).push(s@));
                    },
                    None => {
                        proof {
                            assert(mp_as_str(vd[i as int]) is None);
                            lemma_strings_of_error_prefix(vd, field@, (i + 1) as nat);
                            assert(mp_data_seq(items@)[index as int] == MpData::Array(vd));
                        }
                        return Err(field_error_value(field, "must contain only strings"));
                    },
                }
                i = i + 1;
            }
            assert(vd.take(values@.len() as int) =~= vd);
            Ok(Some(out))
        },
        _ => Err(field_error_value(field, "must be an array")),
    }
}

proof fn lemma_strings_of_error_prefix(s: Seq<MpData>, field: Seq<char>, k: nat)
    requires
        k <= s.len(),
        spec_strings_of(s.take(k as int), field) is Err,
    ensures
        spec_strings_of(s, field) == spec_strings_of(s.take(k as int), field),
    decreases s.len() - k,
{
    if k < s.len() {
        let t = s.take((k + 1) as int);
        assert(t.drop_last() =~= s.take(k as int));
        lemma_strings_of_error_prefix(s, field, k + 1);
    } else {
        assert(s.take(k as int) =~= s);
    }
}

#[verifier::loop_isolation(false)]
/// Checks that the item at `index` is a map of string headers.
fn validate_messagepack_headers(items: &Vec<MpValue>, index: usize) -> (r: Result<()>)
    ensures
        match r {
            Ok(u) => spec_headers_ok(mp_data_seq(items@), index as int) == Ok::<(), Seq<char>>(u),
            Err(SignalRError::Protocol(t)) => spec_headers_ok(mp_data_seq(items@), index as int) == Err::<(), Seq<char>>(t@),
            Err(_) => false,
        },
{
    proof {
        lemma_mp_data_seq_index(items@);
    }
    if index < items.len() {
        if let MpValue::MapEntries(headers) = &items[index] {
            proof {
                lemma_mp_pairs_data_index(headers@);
            }
            let ghost hd = mp_pairs_data(headers@);
            assert(mp_data_seq(items@)[index as int] == MpData::MapEntries(hd));
            let mut i: usize = 0;
            while i < headers.len()
                invariant
                    i <= headers@.len(),
                    hd == mp_pairs_data(headers@),
                    hd.len() == headers@.len(),
                    forall|j: int| 0 <= j < headers@.len() ==> #[trigger] hd[j] == (mp_data(headers@[j].0), mp_data(headers@[j].1)),
                    forall|j: int| 0 <= j < i ==> mp_as_str(#[trigger] hd[j].0) is Some && mp_as_str(hd[j].1) is Some,
                decreases headers@.len() - i,
            {
                let k = mp_value_as_str(&headers[i].0);
                let v = mp_value_as_str(&headers[i].1);
                if k.is_none() || v.is_none() {
                    assert(!(mp_as_str(hd[i as int].0) is Some && mp_as_str(hd[i as int].1) is Some));
                    assert(mp_data_seq(items@)[index as int] == MpData::MapEntries(hd));
                    return Err(protocol_error("MessagePack headers must be string key-value pairs"));
                }
                i = i + 1;
            }
            return Ok(());
        }
    }
    Err(protocol_error("MessagePack headers must be a map"))
}

/// Checks that a message array has between `min` and `max` items.
fn validate_messagepack_item_count(items: &Vec<MpValue>, min: usize, max: usize, name: &str) -> (r: Result<()>)
    ensures
        match r {
            Ok(u) => spec_count_ok(mp_data_seq(items@), min as nat, max as nat, name@) == Ok::<(), Seq<char>>(u),
            Err(SignalRError::Protocol(t)) => spec_count_ok(mp_data_seq(items@), min as nat, max as nat, name@) == Err::<(), Seq<char>>(t@),
            Err(_) => false,
        },
{
    proof {
        lemma_mp_data_seq_index(items@);
    }
    if items.len() < min || items.len() > max {
        let mut t = String::from_str(name);
        t.append(" MessagePack message has ");
        append_decimal(&mut t, items.len() as u64);
        t.append(" items; expected ");
        append_decimal(&mut t, min as u64);
        if min != max {
            t.append("-");
            append_decimal(&mut t, max as u64);
        }
        assert(t@ =~= count_error(name@, items@.len(), min as nat, max as nat));
        return Err(SignalRError::Protocol(t));
    }
    Ok(())
}


/// Whether a decoding result agrees with its specification.
pub open spec fn decodes_to(r: Result<HubMessage>, s: core::result::Result<MessageData, Seq<char>>) -> bool {
    match r {
        Ok(m) => s == Ok::<MessageData, Seq<char>>(m@),
        Err(SignalRError::Protocol(t)) => s == Err::<MessageData, Seq<char>>(t@),
        Err(_) => false,
    }
}

fn parse_messagepack_invocation(items: &Vec<MpValue>) -> (r: Result<HubMessage>)
    ensures
        decodes_to(r, spec_parse_invocation(mp_data_seq(items@))),
{
    proof {
        lemma_mp_data_seq_index(items@);
    }
    match validate_messagepack_item_count(items, 5, 6, "Invocation") {
        Ok(_) => {},
        Err(e) => return Err(e),
    }
    match validate_messagepack_headers(items, 1) {
        Ok(_) => {},
        Err(e) => return Err(e),
    }
    let invocation_id = match optional_messagepack_string(&items[2], "invocationId") {
        Ok(v) => v,
        Err(e) => return Err(e),
    };
    let target = match messagepack_item_as_string(items, 3, "target") {
        Ok(v) => v,
        Err(e) => return Err(e),
    };
    let arguments = match messagepack_item_as_json_array(items, 4, "arguments") {
        Ok(v) => v,
        Err(e) => return Err(e),
    };
    let stream_ids = match optional_messagepack_string_array(items, 5, "streamIds") {
        Ok(v) => v,
        Err(e) => return Err(e),
    };
    Ok(HubMessage::Invocation(InvocationMessage { invocation_id, target, arguments, stream_ids }))
}

fn parse_messagepack_stream_item(items: &Vec<MpValue>) -> (r: Result<HubMessage>)
    ensures
        decodes_to(r, spec_parse_stream_item(mp_data_seq(items@))),
{
    proof {
        lemma_mp_data_seq_index(items@);
    }
    match validate_messagepack_item_count(items, 4, 4, "StreamItem") {
        Ok(_) => {},
        Err(e) => return Err(e),
    }
    match validate_messagepack_headers(items, 1) {
        Ok(_) => {},
        Err(e) => return Err(e),
    }
    let invocation_id = match messagepack_item_as_string(items, 2, "invocationId") {
        Ok(v) => v,
        Err(e) => return Err(e),
    };
    let item = match messagepack_to_json_value(&items[3]) {
        Ok(v) => v,
        Err(e) => return Err(e),
    };
    Ok(HubMessage::StreamItem(StreamItemMessage { invocation_id, item }))
}

fn parse_messagepack_completion(items: &Vec<MpValue>) -> (r: Result<HubMessage>)
    ensures
        decodes_to(r, spec_parse_completion(mp_data_seq(items@))),
{
    proof {
        lemma_mp_data_seq_index(items@);
    }
    match validate_messagepack_item_count(items, 4, 5, "Completion") {
        Ok(_) => {},
        Err(e) => return Err(e),
    }
    match validate_messagepack_headers(items, 1) {
        Ok(_) => {},
        Err(e) => return Err(e),
    }
    let invocation_id = match messagepack_item_as_string(items, 2, "invocationId") {
        Ok(v) => v,
        Err(e) => return Err(e),
    };
    let result_kind = match messagepack_item_as_u64(items, 3, "resultKind") {
        Ok(v) => v,
        Err(e) => return Err(e),
    };
    if result_kind == MESSAGEPACK_RESULT_KIND_ERROR {
        match validate_messagepack_item_count(items, 5, 5, "Completion error") {
            Ok(_) => {},
            Err(e) => return Err(e),
        }
        let error = match messagepack_item_as_string(items, 4, "error") {
            Ok(v) => v,
            Err(e) => return Err(e),
        };
        Ok(HubMessage::Completion(CompletionMessage { invocation_id, result: None, error: Some(error) }))
    } else if result_kind == MESSAGEPACK_RESULT_KIND_VOID {
        match validate_messagepack_item_count(items, 4, 4, "Completion void") {
            Ok(_) => {},
            Err(e) => return Err(e),
        }
        Ok(HubMessage::Completion(CompletionMessage { invocation_id, result: None, error: None }))
    } else if result_kind == MESSAGEPACK_RESULT_KIND_NON_VOID {
        match validate_messagepack_item_count(items, 5, 5, "Completion result") {
            Ok(_) => {},
            Err(e) => return Err(e),
        }
        let result = match messagepack_to_json_value(&items[4]) {
            Ok(v) => v,
            Err(e) => return Err(e),
        };
        Ok(HubMessage::Completion(CompletionMessage { invocation_id, result: Some(result), error: None }))
    } else {
        let mut t = String::from_str("Invalid MessagePack completion result kind: ");
        append_decimal(&mut t, result_kind);
        Err(SignalRError::Protocol(t))
    }
}

fn parse_messagepack_stream_invocation(items: &Vec<MpValue>) -> (r: Result<HubMessage>)
    ensures
        decodes_to(r, spec_parse_stream_invocation(mp_data_seq(items@))),
{
    proof {
        lemma_mp_data_seq_index(items@);
    }
    match validate_messagepack_item_count(items, 5, 6, "StreamInvocation") {
        Ok(_) => {},
        Err(e) => return Err(e),
    }
    match validate_messagepack_headers(items, 1) {
        Ok(_) => {},
        Err(e) => return Err(e),
    }
    let invocation_id = match messagepack_item_as_string(items, 2, "invocationId") {
        Ok(v) => v,
        Err(e) => return Err(e),
    };
    let target = match messagepack_item_as_string(items, 3, "target") {
        Ok(v) => v,
        Err(e) => return Err(e),
    };
    let arguments = match messagepack_item_as_json_array(items, 4, "arguments") {
        Ok(v) => v,
        Err(e) => return Err(e),
    };
    let stream_ids = match optional_messagepack_string_array(items, 5, "streamIds") {
        Ok(v) => v,
        Err(e) => return Err(e),
    };
    Ok(HubMessage::StreamInvocation(StreamInvocationMessage { invocation_id, target, arguments, stream_ids }))
}

fn parse_messagepack_cancel_invocation(items: &Vec<MpValue>) -> (r: Result<HubMessage>)
    ensures
        decodes_to(r, spec_parse_cancel_invocation(mp_data_seq(items@))),
{
    match validate_messagepack_item_count(items, 3, 3, "CancelInvocation") {
        Ok(_) => {},
        Err(e) => return Err(e),
    }
    match validate_messagepack_headers(items, 1) {
        Ok(_) => {},
        Err(e) => return Err(e),
    }
    let invocation_id = match messagepack_item_as_string(items, 2, "invocationId") {
        Ok(v) => v,
        Err(e) => return Err(e),
    };
    Ok(HubMessage::CancelInvocation(CancelInvocationMessage { invocation_id }))
}

fn parse_messagepack_ping(items: &Vec<MpValue>) -> (r: Result<HubMessage>)
    ensures
        decodes_to(r, spec_parse_ping(mp_data_seq(items@))),
{
    match validate_messagepack_item_count(items, 1, 1, "Ping") {
        Ok(_) => {},
        Err(e) => return Err(e),
    }
    Ok(HubMessage::Ping(PingMessage {}))
}

fn parse_messagepack_close(items: &Vec<MpValue>) -> (r: Result<HubMessage>)
    ensures
        decodes_to(r, spec_parse_close(mp_data_seq(items@))),
{
    match validate_messagepack_item_count(items, 1, 3, "Close") {
        Ok(_) => {},
        Err(e) => return Err(e),
    }
    let error = match optional_messagepack_item_as_string(items, 1, "error") {
        Ok(v) => v,
        Err(e) => return Err(e),
    };
    let allow_reconnect = match optional_messagepack_item_as_bool(items, 2, "allowReconnect") {
        Ok(v) => v,
        Err(e) => return Err(e),
    };
    Ok(HubMessage::Close(CloseMessage { error, allow_reconnect }))
}

/// Decodes the hub message a MessagePack value stands for.
pub fn messagepack_value_to_message(value: &MpValue) -> (r: Result<HubMessage>)
    ensures
        decodes_to(r, spec_message_from_mp(value@)),
{
    let items = match value {
        MpValue::Array(items) => items,
        _ => {
            return Err(protocol_error("MessagePack hub message must be an array"));
        },
    };
    let message_type = match messagepack_item_as_u64(items, 0, "message type") {
        Ok(v) => v,
        Err(e) => return Err(e),
    };
    if message_type == 1 {
        parse_messagepack_invocation(items)
    } else if message_type == 2 {
        parse_messagepack_stream_item(items)
    } else if message_type == 3 {
        parse_messagepack_completion(items)
    } else if message_type == 4 {
        parse_messagepack_stream_invocation(items)
    } else if message_type == 5 {
        parse_messagepack_cancel_invocation(items)
    } else if message_type == 6 {
        parse_messagepack_ping(items)
    } else if message_type == 7 {
        parse_messagepack_close(items)
    } else {
        let mut t = String::from_str("Unknown MessagePack message type: ");
        append_decimal(&mut t, message_type);
        Err(SignalRError::Protocol(t))
    }
}


// ---------------------------------------------------------------------------
// Bodies: MessagePack values <-> bytes, through rmpv
// ---------------------------------------------------------------------------

/// Every string in the value is valid UTF-8 text.
pub open spec fn mp_strings_valid(d: MpData) -> bool
    decreases d,
{
    match d {
        MpData::Str(s) => s is Some,
        MpData::Array(items) => forall|i: int| 0 <= i < items.len() ==> mp_strings_valid(#[trigger] items[i]),
        MpData::MapEntries(pairs) => forall|i: int|
            0 <= i < pairs.len() ==> mp_strings_valid(#[trigger] pairs[i].0) && mp_strings_valid(pairs[i].1),
        _ => true,
    }
}

proof fn lemma_json_to_mp_strings_valid(d: JsonData)
    ensures
        spec_json_to_mp(d) matches Ok(v) ==> mp_strings_valid(v),
    decreases d,
{
    match d {
        JsonData::Array(items) => lemma_json_seq_to_mp_strings_valid(items),
        JsonData::Object(entries) => lemma_json_entries_to_mp_strings_valid(entries),
        _ => {},
    }
}

proof fn lemma_json_seq_to_mp_strings_valid(s: Seq<JsonData>)
    ensures
        spec_json_seq_to_mp(s) matches Ok(xs) ==> forall|i: int| 0 <= i < xs.len() ==> mp_strings_valid(#[trigger] xs[i]),
    decreases s,
{
    if s.len() > 0 {
        lemma_json_seq_to_mp_strings_valid(s.subrange(0, s.len() - 1));
        lemma_json_to_mp_strings_valid(s[s.len() - 1]);
    }
}

proof fn lemma_json_entries_to_mp_strings_valid(s: Seq<(Seq<char>, JsonData)>)
    ensures
        spec_json_entries_to_mp(s) matches Ok(xs) ==> forall|i: int|
            0 <= i < xs.len() ==> mp_strings_valid(#[trigger] xs[i].0) && mp_strings_valid(xs[i].1),
    decreases s,
{
    if s.len() > 0 {
        lemma_json_entries_to_mp_strings_valid(s.subrange(0, s.len() - 1));
        lemma_json_to_mp_strings_valid(s[s.len() - 1].1);
    }
}

proof fn lemma_strings_mp_valid(o: Option<Seq<Seq<char>>>)
    ensures
        mp_strings_valid(strings_mp(o)),
{
    if let Some(v) = o {
        let items = v.map_values(|s: Seq<char>| MpData::Str(Some(s)));
        assert forall|i: int| 0 <= i < items.len() implies mp_strings_valid(#[trigger] items[i]) by {
            assert(items[i] == MpData::Str(Some(v[i])));
        }
    }
}

proof fn lemma_call_array_valid(
    head: MpData,
    id: MpData,
    target: Seq<char>,
    args: Seq<MpData>,
    ids: MpData,
)
    requires
        id is Nil || id matches MpData::Str(Some(_)),
        head matches MpData::Integer(_),
        forall|i: int| 0 <= i < args.len() ==> mp_strings_valid(#[trigger] args[i]),
        mp_strings_valid(ids),
    ensures
        mp_strings_valid(
            MpData::Array(
                seq![head, empty_headers_mp(), id, MpData::Str(Some(target)), MpData::Array(args), ids],
            ),
        ),
{
    let items = seq![head, empty_headers_mp(), id, MpData::Str(Some(target)), MpData::Array(args), ids];
    assert forall|i: int| 0 <= i < items.len() implies mp_strings_valid(#[trigger] items[i]) by {
        if i == 4 {
            assert(mp_strings_valid(MpData::Array(args)));
        }
    }
}

proof fn lemma_valid_array(items: Seq<MpData>)
    requires
        forall|i: int| 0 <= i < items.len() ==> mp_strings_valid(#[trigger] items[i]),
    ensures
        mp_strings_valid(MpData::Array(items)),
{
}

proof fn lemma_message_to_mp_strings_valid(m: MessageData)
    ensures
        spec_message_to_mp(m) matches Ok(v) ==> mp_strings_valid(v),
{
    assert(mp_strings_valid(empty_headers_mp()));
    match m {
        MessageData::Invocation { invocation_id, target, arguments, stream_ids } => {
            lemma_json_seq_to_mp_strings_valid(arguments);
            lemma_strings_mp_valid(stream_ids);
            if let Ok(args) = spec_json_seq_to_mp(arguments) {
                lemma_call_array_valid(int_mp(1), opt_str_mp(invocation_id), target, args, strings_mp(stream_ids));
            }
        },
        MessageData::StreamInvocation { invocation_id, target, arguments, stream_ids } => {
            lemma_json_seq_to_mp_strings_valid(arguments);
            lemma_strings_mp_valid(stream_ids);
            if let Ok(args) = spec_json_seq_to_mp(arguments) {
                lemma_call_array_valid(int_mp(4), MpData::Str(Some(invocation_id)), target, args, strings_mp(stream_ids));
            }
        },
        MessageData::StreamItem { invocation_id, item } => {
            lemma_json_to_mp_strings_valid(item);
            if let Ok(x) = spec_json_to_mp(item) {
                let items = seq![int_mp(2), empty_headers_mp(), MpData::Str(Some(invocation_id)), x];
                assert forall|i: int| 0 <= i < items.len() implies mp_strings_valid(#[trigger] items[i]) by {}
                lemma_valid_array(items);
            }
        },
        MessageData::Completion { invocation_id, result, error } => {
            let head = seq![int_mp(3), empty_headers_mp(), MpData::Str(Some(invocation_id))];
            match error {
                Some(e) => {
                    let items = head + seq![int_mp(1), MpData::Str(Some(e))];
                    assert forall|i: int| 0 <= i < items.len() implies mp_strings_valid(#[trigger] items[i]) by {}
                    lemma_valid_array(items);
                },
                None => match result {
                    Some(r) => {
                        lemma_json_to_mp_strings_valid(r);
                        if let Ok(x) = spec_json_to_mp(r) {
                            let items = head + seq![int_mp(3), x];
                            assert forall|i: int| 0 <= i < items.len() implies mp_strings_valid(#[trigger] items[i]) by {}
                            lemma_valid_array(items);
                        }
                    },
                    None => {
                        let items = head.push(int_mp(2));
                        assert forall|i: int| 0 <= i < items.len() implies mp_strings_valid(#[trigger] items[i]) by {}
                        lemma_valid_array(items);
                    },
                },
            }
        },
        MessageData::CancelInvocation { invocation_id } => {
            let items = seq![int_mp(5), empty_headers_mp(), MpData::Str(Some(invocation_id))];
            assert forall|i: int| 0 <= i < items.len() implies mp_strings_valid(#[trigger] items[i]) by {}
            lemma_valid_array(items);
        },
        MessageData::Ping => {
            let items = seq![int_mp(6)];
            assert forall|i: int| 0 <= i < items.len() implies mp_strings_valid(#[trigger] items[i]) by {}
            lemma_valid_array(items);
        },
        MessageData::Close { error, allow_reconnect } => {
            let items = match allow_reconnect {
                Some(b) => seq![int_mp(7), opt_str_mp(error), MpData::Boolean(b)],
                None => seq![int_mp(7), opt_str_mp(error)],
            };
            assert forall|i: int| 0 <= i < items.len() implies mp_strings_valid(#[trigger] items[i]) by {}
            lemma_valid_array(items);
        },
    }
}

/// What `rmpv::decode::read_value` reads from the front of `data`: the value
/// and how many bytes it took, or the `Display` text of its error.
pub uninterp spec fn messagepack_read(data: Seq<u8>) -> core::result::Result<(MpData, nat), Seq<char>>;

/// The bytes `rmpv::encode::write_value` writes for a value, or the
/// `Display` text of its error.
pub uninterp spec fn messagepack_write(v: MpData) -> core::result::Result<Seq<u8>, Seq<char>>;

#[verifier::external_type_specification]
#[verifier::external_body]
pub struct ExMessagePackInteger(rmpv::Integer);

/// Moves an `rmpv::Value` into the library's model, variant by variant.
#[verifier::external_body]
fn from_rmpv(value: rmpv::Value) -> MpValue {
    match value {
        rmpv::Value::Array(items) => MpValue::Array(items.into_iter().map(from_rmpv).collect()),
        rmpv::Value::Map(pairs) => MpValue::MapEntries(pairs.into_iter().map(|(k, v)| (from_rmpv(k), from_rmpv(v))).collect()),
        scalar => from_rmpv_scalar(scalar),
    }
}

/// Moves an `rmpv::Value` that is neither an array nor a map into the
/// library's model.
#[verifier::external_body]
fn from_rmpv_scalar(value: rmpv::Value) -> MpValue {
    match value {
        rmpv::Value::Nil => MpValue::Nil,
        rmpv::Value::Boolean(b) => MpValue::Boolean(b),
        rmpv::Value::Integer(i) => MpValue::Integer(from_rmpv_integer(i)),
        rmpv::Value::String(s) => MpValue::String(s.into_str()),
        rmpv::Value::Binary(b) => MpValue::Binary(b),
        rmpv::Value::Ext(tag, data) => MpValue::Ext(tag, data),
        float => MpValue::Float(float),
    }
}

/// Moves an `rmpv::Integer` into the library's model, by the representation
/// rmpv keeps it in (`as_u64`, else the negative `as_i64`; rmpv keeps every
/// integer as one of the two, so the last arm is never taken).
#[verifier::external_body]
fn from_rmpv_integer(i: rmpv::Integer) -> MpInteger {
    match (i.as_u64(), i.as_i64()) {
        (Some(u), _) => MpInteger::PosInt(u),
        (None, Some(n)) => MpInteger::NegInt(n),
        (None, None) => MpInteger::NegInt(i64::MIN),
    }
}

/// Builds the `rmpv::Value` for a value of the library's model, variant by
/// variant; the caller never passes a string that is not UTF-8.
#[verifier::external_body]
fn to_rmpv(value: &MpValue) -> rmpv::Value {
    match value {
        MpValue::Array(items) => rmpv::Value::Array(items.iter().map(to_rmpv).collect()),
        MpValue::MapEntries(pairs) => rmpv::Value::Map(pairs.iter().map(|(k, v)| (to_rmpv(k), to_rmpv(v))).collect()),
        scalar => to_rmpv_scalar(scalar),
    }
}

/// Builds the `rmpv::Value` for a value that is neither an array nor a map.
#[verifier::external_body]
fn to_rmpv_scalar(value: &MpValue) -> rmpv::Value {
    match value {
        MpValue::Boolean(b) => rmpv::Value::Boolean(*b),
        MpValue::Integer(i) => rmpv::Value::Integer(to_rmpv_integer(i)),
        MpValue::Float(float) => float.clone(),
        MpValue::String(Some(s)) => rmpv::Value::from(s.as_str()),
        MpValue::Binary(b) => rmpv::Value::Binary(b.clone()),
        MpValue::Ext(tag, data) => rmpv::Value::Ext(*tag, data.clone()),
        _ => rmpv::Value::Nil,
    }
}

/// Builds the `rmpv::Integer` for an integer of the library's model.
#[verifier::external_body]
fn to_rmpv_integer(i: &MpInteger) -> rmpv::Integer {
    match i {
        MpInteger::PosInt(u) => rmpv::Integer::from(*u),
        MpInteger::NegInt(n) => rmpv::Integer::from(*n),
    }
}

/// Reads one value from the front of `data` with `rmpv::decode::read_value`.
/// The value, the bytes it took and the error text are a function of `data`
/// alone.
#[verifier::external_body]
fn read_messagepack_value(data: &[u8]) -> (r: core::result::Result<(MpValue, u64), String>)
    ensures
        match r {
            Ok((v, n)) => messagepack_read(data@) == Ok::<(MpData, nat), Seq<char>>((v@, n as nat)),
            Err(t) => messagepack_read(data@) == Err::<(MpData, nat), Seq<char>>(t@),
        },
{
    let mut cursor = std::io::Cursor::new(data);
    match rmpv::decode::read_value(&mut cursor) {
        Ok(value) => Ok((from_rmpv(value), cursor.position())),
        Err(error) => Err(format!("{}", error)),
    }
}

/// A MessagePack value that rmpv reads back exactly as it wrote it: every
/// float an `F64`, as the encoder of JSON numbers makes them (another rmpv
/// value in the float variant would be written as what it is, and read back
/// as that), every string valid UTF-8 and under 2^30 characters (so under 2^32 bytes),
/// byte arrays, extension data, arrays and maps under 2^32 entries (rmpv
/// writes these lengths as `u32`), negative integers only in rmpv's negative
/// form, and arrays and maps nested at most `n` deep.
pub open spec fn mp_read_back_ok(d: MpData, n: nat) -> bool
    decreases d,
{
    match d {
        MpData::Integer(MpInteger::NegInt(i)) => i < 0,
        MpData::Float(v) => rmpv_is_f64(v),
        MpData::Str(s) => s matches Some(t) && t.len() < 0x4000_0000,
        MpData::Binary(b) => b.len() < 0x1_0000_0000,
        MpData::Ext(_, b) => b.len() < 0x1_0000_0000,
        MpData::Array(items) => n > 0 && items.len() < 0x1_0000_0000 && forall|i: int|
            0 <= i < items.len() ==> mp_read_back_ok(#[trigger] items[i], (n - 1) as nat),
        MpData::MapEntries(pairs) => n > 0 && pairs.len() < 0x1_0000_0000 && forall|i: int|
            0 <= i < pairs.len() ==> mp_read_back_ok(#[trigger] pairs[i].0, (n - 1) as nat)
                && mp_read_back_ok(pairs[i].1, (n - 1) as nat),
        _ => true,
    }
}

/// Writes a value with `rmpv::encode::write_value` into a fresh buffer. The
/// bytes and the error text are a function of the value alone.
///
/// Writing into a `Vec` does not fail (rmpv's errors come from the writer
/// only). `rmpv::decode::read_value` reads the bytes back as the same value,
/// taking all of them, when the value meets `mp_read_back_ok` at 510 levels:
/// an `F64` is written as eight bytes and read back bit for bit, and the
/// reader's depth budget of 1024 takes two steps per array or map level and
/// at most three for the value at the bottom.
#[verifier::external_body]
fn write_messagepack_value(value: &MpValue) -> (r: core::result::Result<Vec<u8>, String>)
    requires
        mp_strings_valid(value@),
    ensures
        r is Ok,
        match r {
            Ok(b) => messagepack_write(value@) == Ok::<Seq<u8>, Seq<char>>(b@) && (mp_read_back_ok(value@, 510)
                ==> messagepack_read(b@) == Ok::<(MpData, nat), Seq<char>>((value@, b@.len()))),
            Err(t) => messagepack_write(value@) == Err::<Seq<u8>, Seq<char>>(t@),
        },
{
    let mut bytes = Vec::new();
    match rmpv::encode::write_value(&mut bytes, &to_rmpv(value)) {
        Ok(()) => Ok(bytes),
        Err(error) => Err(format!("{}", error)),
    }
}

/// The hub message a MessagePack body holds.
pub open spec fn spec_parse_messagepack_body(data: Seq<u8>) -> core::result::Result<MessageData, Seq<char>> {
    match messagepack_read(data) {
        Err(t) => Err("MessagePack decode error: "@ + t),
        Ok((v, n)) => if n != data.len() {
            Err("MessagePack message contained trailing bytes"@)
        } else {
            spec_message_from_mp(v)
        },
    }
}

/// The MessagePack body for a hub message.
pub open spec fn spec_serialize_messagepack_body(m: MessageData) -> core::result::Result<Seq<u8>, Seq<char>> {
    match spec_message_to_mp(m) {
        Err(e) => Err(e),
        Ok(v) => match messagepack_write(v) {
            Ok(b) => Ok(b),
            Err(t) => Err("MessagePack encode error: "@ + t),
        },
    }
}

/// The framed MessagePack bytes for a hub message.
pub open spec fn spec_serialize_message_messagepack(m: MessageData) -> core::result::Result<Seq<u8>, Seq<char>> {
    match spec_serialize_messagepack_body(m) {
        Err(e) => Err(e),
        Ok(b) => if b.len() > MESSAGEPACK_MAX_FRAME_LENGTH {
            Err("MessagePack payload exceeds maximum frame length"@)
        } else {
            Ok(spec_frame(b))
        },
    }
}

/// Decoding frame payloads one after another; the first failure wins.
pub open spec fn spec_parse_bodies(frames: Seq<Seq<u8>>) -> core::result::Result<Seq<MessageData>, Seq<char>>
    decreases frames.len(),
{
    if frames.len() == 0 {
        Ok(seq![])
    } else {
        match spec_parse_bodies(frames.drop_last()) {
            Err(e) => Err(e),
            Ok(prefix) => match spec_parse_messagepack_body(frames.last()) {
                Err(e) => Err(e),
                Ok(m) => Ok(prefix.push(m)),
            },
        }
    }
}

/// The hub messages a buffer of MessagePack frames holds.
pub open spec fn spec_parse_messages_messagepack(data: Seq<u8>) -> core::result::Result<Seq<MessageData>, Seq<char>> {
    match spec_split_frames(data) {
        Err(e) => Err(e),
        Ok(frames) => spec_parse_bodies(frames),
    }
}

/// The single hub message a buffer of MessagePack frames holds.
pub open spec fn spec_parse_message_messagepack(data: Seq<u8>) -> core::result::Result<MessageData, Seq<char>> {
    match spec_parse_messages_messagepack(data) {
        Err(e) => Err(e),
        Ok(ms) => if ms.len() == 0 {
            Err("No MessagePack message found"@)
        } else if ms.len() > 1 {
            Err("Expected a single MessagePack message"@)
        } else {
            Ok(ms[0])
        },
    }
}

/// Views of a sequence of messages.
pub open spec fn messages_view(ms: Seq<HubMessage>) -> Seq<MessageData> {
    ms.map_values(|m: HubMessage| m@)
}

fn parse_messagepack_body(data: &[u8]) -> (r: Result<HubMessage>)
    ensures
        decodes_to(r, spec_parse_messagepack_body(data@)),
{
    let (value, position) = match read_messagepack_value(data) {
        Ok(pair) => pair,
        Err(t) => {
            return Err(SignalRError::Protocol(prefixed("MessagePack decode error: ", t.as_str())));
        },
    };
    if position != data.len() as u64 {
        return Err(protocol_error("MessagePack message contained trailing bytes"));
    }
    messagepack_value_to_message(&value)
}

fn serialize_messagepack_body(message: &HubMessage) -> (r: Result<Vec<u8>>)
    ensures
        match r {
            Ok(b) => spec_serialize_messagepack_body(message@) == Ok::<Seq<u8>, Seq<char>>(b@) && (
            message_wf_mp(message@) && message_mp_within(message@) ==> spec_parse_messagepack_body(b@)
                == Ok::<MessageData, Seq<char>>(message@)),
            Err(SignalRError::Protocol(t)) => spec_serialize_messagepack_body(message@) == Err::<Seq<u8>, Seq<char>>(t@),
            Err(_) => false,
        },
        r is Ok <==> !completion_has_result_and_error(message@),
{
    let value = match message_to_messagepack_value(message) {
        Ok(v) => v,
        Err(e) => return Err(e),
    };
    proof {
        lemma_message_to_mp_strings_valid(message@);
    }
    match write_messagepack_value(&value) {
        Ok(bytes) => {
            proof {
                if message_wf_mp(message@) && message_mp_within(message@) {
                    lemma_message_to_mp_read_back(message@);
                    law_messagepack_message_roundtrip(message@);
                }
            }
            Ok(bytes)
        },
        Err(t) => Err(SignalRError::Protocol(prefixed("MessagePack encode error: ", t.as_str()))),
    }
}

/// Parses every frame of a MessagePack buffer into a hub message.
pub fn parse_messages_messagepack(data: &[u8]) -> (r: Result<Vec<HubMessage>>)
    ensures
        match r {
            Ok(ms) => spec_parse_messages_messagepack(data@) == Ok::<Seq<MessageData>, Seq<char>>(messages_view(ms@)),
            Err(SignalRError::Protocol(t)) => spec_parse_messages_messagepack(data@) == Err::<Seq<MessageData>, Seq<char>>(t@),
            Err(_) => false,
        },
{
    let frames = match split_messagepack_frames(data) {
        Ok(f) => f,
        Err(e) => return Err(e),
    };
    let ghost fv = slice_views(frames@);
    let mut messages: Vec<HubMessage> = Vec::new();
    let mut i: usize = 0;
    assert(fv.take(0) =~= Seq::<Seq<u8>>::empty());
    assert(messages_view(messages@) =~= Seq::<MessageData>::empty());
    while i < frames.len()
        invariant
            i <= frames@.len(),
            fv == slice_views(frames@),
            fv.len() == frames@.len(),
            spec_split_frames(data@) == Ok::<Seq<Seq<u8>>, Seq<char>>(fv),
            spec_parse_bodies(fv.take(i as int)) == Ok::<Seq<MessageData>, Seq<char>>(messages_view(messages@)),
        decreases frames@.len() - i,
    {
        let ghost t1 = fv.take(i + 1);
        assert(t1.drop_last() =~= fv.take(i as int));
        assert(t1.last() == frames@[i as int]@);
        match parse_messagepack_body(frames[i]) {
            Ok(m) => {
                let ghost before = messages@;
                messages.push(m);
                assert(messages_view(messages@) =~= messages_view(before).push(m@));
            },
            Err(e) => {
                proof {
                    lemma_parse_bodies_error_prefix(fv, (i + 1) as nat);
                }
                return Err(e);
            },
        }
        i = i + 1;
    }
    assert(fv.take(frames@.len() as int) =~= fv);
    Ok(messages)
}

proof fn lemma_parse_bodies_error_prefix(s: Seq<Seq<u8>>, k: nat)
    requires
        k <= s.len(),
        spec_parse_bodies(s.take(k as int)) is Err,
    ensures
        spec_parse_bodies(s) == spec_parse_bodies(s.take(k as int)),
    decreases s.len() - k,
{
    if k < s.len() {
        let t = s.take((k + 1) as int);
        assert(t.drop_last() =~= s.take(k as int));
        lemma_parse_bodies_error_prefix(s, k + 1);
    } else {
        assert(s.take(k as int) =~= s);
    }
}

/// Parse a single SignalR message from MessagePack binary framing.
pub fn parse_message_messagepack(data: &[u8]) -> (r: Result<HubMessage>)
    ensures
        decodes_to(r, spec_parse_message_messagepack(data@)),
{
    let mut messages = match parse_messages_messagepack(data) {
        Ok(ms) => ms,
        Err(e) => return Err(e),
    };
    if messages.len() == 0 {
        return Err(protocol_error("No MessagePack message found"));
    }
    if messages.len() > 1 {
        return Err(protocol_error("Expected a single MessagePack message"));
    }
    let ghost before = messages@;
    let message = messages.pop().unwrap();
    assert(messages_view(before)[0] == message@);
    Ok(message)
}

/// Serialize a SignalR message to MessagePack binary framing.
pub fn serialize_message_messagepack(message: &HubMessage) -> (r: Result<Vec<u8>>)
    ensures
        match r {
            Ok(b) => spec_serialize_message_messagepack(message@) == Ok::<Seq<u8>, Seq<char>>(b@) && (
            message_wf_mp(message@) && message_mp_within(message@) ==> spec_parse_message_messagepack(b@)
                == Ok::<MessageData, Seq<char>>(message@) && exists|body: Seq<u8>|
                #![trigger spec_frame(body)]
                b@ == spec_frame(body) && body.len() <= MESSAGEPACK_MAX_FRAME_LENGTH
                    && spec_parse_messagepack_body(body) == Ok::<MessageData, Seq<char>>(message@)),
            Err(SignalRError::Protocol(t)) => spec_serialize_message_messagepack(message@) == Err::<Seq<u8>, Seq<char>>(t@),
            Err(_) => false,
        },
        completion_has_result_and_error(message@) ==> (r matches Err(SignalRError::Protocol(t)) && t@
            == "Completion message cannot contain both result and error"@),
        !completion_has_result_and_error(message@) && r is Err ==> (r matches Err(SignalRError::Protocol(t))
            && t@ == "MessagePack payload exceeds maximum frame length"@),
{
    let body = match serialize_messagepack_body(message) {
        Ok(b) => b,
        Err(e) => return Err(e),
    };
    let framed = frame_messagepack_payload(body.as_slice());
    match framed {
        Ok(f) => {
            let n = f.len();
            proof {
                if message_wf_mp(message@) && message_mp_within(message@) {
                    let b = body@;
                    let ps = seq![b];
                    assert(ps.drop_first() =~= Seq::<Seq<u8>>::empty());
                    assert(spec_frames(Seq::<Seq<u8>>::empty()) == Seq::<u8>::empty());
                    assert(ps[0] == b);
                    assert(spec_frames(ps) =~= spec_frame(b));
                    law_split_frames_inverts_framing(ps);
                    assert(ps.drop_last() =~= Seq::<Seq<u8>>::empty());
                    assert(ps.last() == b);
                    assert(spec_parse_bodies(Seq::<Seq<u8>>::empty()) == Ok::<Seq<MessageData>, Seq<char>>(seq![]));
                    assert(Seq::<MessageData>::empty().push(message@) =~= seq![message@]);
                    assert(spec_parse_bodies(ps) == Ok::<Seq<MessageData>, Seq<char>>(seq![message@]));
                    assert(f@ == spec_frame(b));
                }
            }
            Ok(f)
        },
        Err(e) => Err(e),
    }
}


// ---------------------------------------------------------------------------
// Laws
// ---------------------------------------------------------------------------

/// A completion that carries both a result and an error, which has no
/// MessagePack form.
pub open spec fn completion_has_result_and_error(m: MessageData) -> bool {
    m matches MessageData::Completion { result, error, .. } && result is Some && error is Some
}

/// Every float in a hub message's JSON payloads converts (see
/// `json_floats_convert`); the encoder establishes this of every message it
/// encodes.
pub open spec fn message_floats_convert(m: MessageData) -> bool {
    match m {
        MessageData::Invocation { arguments, .. } => forall|i: int|
            0 <= i < arguments.len() ==> json_floats_convert(#[trigger] arguments[i]),
        MessageData::StreamInvocation { arguments, .. } => forall|i: int|
            0 <= i < arguments.len() ==> json_floats_convert(#[trigger] arguments[i]),
        MessageData::StreamItem { item, .. } => json_floats_convert(item),
        MessageData::Completion { result, .. } => result matches Some(r) ==> json_floats_convert(r),
        _ => true,
    }
}

/// A text that rmpv can write with a `u32` length: under 2^30 characters,
/// so under 2^32 bytes.
pub open spec fn text_fits_mp(s: Seq<char>) -> bool {
    s.len() < 0x4000_0000
}

/// An optional string list whose MessagePack array rmpv can write.
pub open spec fn strings_fit_mp(o: Option<Seq<Seq<char>>>) -> bool {
    o matches Some(v) ==> v.len() < 0x1_0000_0000 && forall|i: int| 0 <= i < v.len() ==> text_fits_mp(#[trigger] v[i])
}

/// A JSON value whose MessagePack form rmpv writes and reads within its
/// limits when it stands `n` levels above the reader's depth limit: strings
/// and keys that fit (see `text_fits_mp`), arrays and objects under 2^32
/// entries, nested at most `n` deep.
pub open spec fn json_mp_within(d: JsonData, n: nat) -> bool
    decreases d,
{
    match d {
        JsonData::Str(s) => text_fits_mp(s),
        JsonData::Array(items) => n > 0 && items.len() < 0x1_0000_0000 && forall|i: int|
            0 <= i < items.len() ==> json_mp_within(#[trigger] items[i], (n - 1) as nat),
        JsonData::Object(entries) => n > 0 && entries.len() < 0x1_0000_0000 && (forall|i: int|
            0 <= i < entries.len() ==> text_fits_mp(#[trigger] entries[i].0)) && forall|i: int|
            0 <= i < entries.len() ==> json_mp_within(#[trigger] entries[i].1, (n - 1) as nat),
        _ => true,
    }
}

/// A hub message whose MessagePack array stays within rmpv's limits: its
/// texts fit, its lists hold under 2^32 entries, and its payloads nest at
/// most 510 levels in all (an argument sits two levels down, in the message
/// array and the arguments array; an item or result one level).
pub open spec fn message_mp_within(m: MessageData) -> bool {
    match m {
        MessageData::Invocation { invocation_id, target, arguments, stream_ids } => (invocation_id matches Some(
            i,
        ) ==> text_fits_mp(i)) && text_fits_mp(target) && arguments.len() < 0x1_0000_0000 && (forall|i: int|
            0 <= i < arguments.len() ==> json_mp_within(#[trigger] arguments[i], 508)) && strings_fit_mp(stream_ids),
        MessageData::StreamInvocation { invocation_id, target, arguments, stream_ids } => text_fits_mp(invocation_id)
            && text_fits_mp(target) && arguments.len() < 0x1_0000_0000 && (forall|i: int|
            0 <= i < arguments.len() ==> json_mp_within(#[trigger] arguments[i], 508)) && strings_fit_mp(stream_ids),
        MessageData::StreamItem { invocation_id, item } => text_fits_mp(invocation_id) && json_mp_within(item, 509),
        MessageData::Completion { invocation_id, result, error } => text_fits_mp(invocation_id) && (error matches Some(
            e,
        ) ==> text_fits_mp(e)) && (result matches Some(r) ==> json_mp_within(r, 509)),
        MessageData::CancelInvocation { invocation_id } => text_fits_mp(invocation_id),
        MessageData::Ping => true,
        MessageData::Close { error, .. } => error matches Some(e) ==> text_fits_mp(e),
    }
}

/// A hub message that its MessagePack form carries exactly: JSON values as
/// serde_json holds them (see `json_wf`), no empty stream-ID list (an empty
/// list is read back as none), and no completion with both a result and an
/// error.
pub open spec fn message_wf_mp(m: MessageData) -> bool {
    match m {
        MessageData::Invocation { arguments, stream_ids, .. } => (forall|i: int|
            0 <= i < arguments.len() ==> json_wf(#[trigger] arguments[i])) && !(stream_ids matches Some(v)
            && v.len() == 0),
        MessageData::StreamInvocation { arguments, stream_ids, .. } => (forall|i: int|
            0 <= i < arguments.len() ==> json_wf(#[trigger] arguments[i])) && !(stream_ids matches Some(v)
            && v.len() == 0),
        MessageData::StreamItem { item, .. } => json_wf(item),
        MessageData::Completion { result, error, .. } => !(result is Some && error is Some) && (
        result matches Some(r) ==> json_wf(r)),
        _ => true,
    }
}

proof fn lemma_strings_roundtrip(v: Seq<Seq<char>>, field: Seq<char>)
    ensures
        spec_strings_of(v.map_values(|s: Seq<char>| MpData::Str(Some(s))), field) == Ok::<
            Seq<Seq<char>>,
            Seq<char>,
        >(v),
    decreases v.len(),
{
    let items = v.map_values(|s: Seq<char>| MpData::Str(Some(s)));
    if v.len() > 0 {
        let p = v.drop_last();
        lemma_strings_roundtrip(p, field);
        assert(items.drop_last() =~= p.map_values(|s: Seq<char>| MpData::Str(Some(s))));
        assert(p.push(v.last()) =~= v);
    } else {
        assert(v =~= Seq::<Seq<char>>::empty());
    }
}

proof fn lemma_opt_strings_roundtrip(o: Option<Seq<Seq<char>>>, items: Seq<MpData>, field: Seq<char>)
    requires
        items.len() == 6,
        items[5] == strings_mp(o),
        !(o matches Some(v) && v.len() == 0),
    ensures
        spec_item_opt_string_array(items, 5, field) == Ok::<Option<Seq<Seq<char>>>, Seq<char>>(o),
{
    match o {
        Some(v) => {
            lemma_strings_roundtrip(v, field);
        },
        None => {},
    }
}

/// Decoding the MessagePack form of a well-formed hub message gives the
/// message back, float payloads included.
#[verifier::spinoff_prover]
#[verifier::rlimit(40)]
pub proof fn law_messagepack_message_roundtrip(m: MessageData)
    requires
        message_wf_mp(m),
        message_floats_convert(m),
    ensures
        match spec_message_to_mp(m) {
            Ok(v) => spec_message_from_mp(v) == Ok::<MessageData, Seq<char>>(m),
            Err(_) => false,
        },
{
    match m {
        MessageData::Invocation { invocation_id, target, arguments, stream_ids } => {
            lemma_json_seq_roundtrip(arguments);
            let args = spec_json_seq_to_mp(arguments)->Ok_0;
            let items = seq![
                int_mp(1),
                empty_headers_mp(),
                opt_str_mp(invocation_id),
                MpData::Str(Some(target)),
                MpData::Array(args),
                strings_mp(stream_ids),
            ];
            lemma_opt_strings_roundtrip(stream_ids, items, "streamIds"@);
            assert(spec_headers_ok(items, 1) == Ok::<(), Seq<char>>(()));
        },
        MessageData::StreamInvocation { invocation_id, target, arguments, stream_ids } => {
            lemma_json_seq_roundtrip(arguments);
            let args = spec_json_seq_to_mp(arguments)->Ok_0;
            let items = seq![
                int_mp(4),
                empty_headers_mp(),
                MpData::Str(Some(invocation_id)),
                MpData::Str(Some(target)),
                MpData::Array(args),
                strings_mp(stream_ids),
            ];
            lemma_opt_strings_roundtrip(stream_ids, items, "streamIds"@);
            assert(spec_headers_ok(items, 1) == Ok::<(), Seq<char>>(()));
        },
        MessageData::StreamItem { invocation_id, item } => {
            law_json_messagepack_roundtrip(item);
            let x = spec_json_to_mp(item)->Ok_0;
            let items = seq![int_mp(2), empty_headers_mp(), MpData::Str(Some(invocation_id)), x];
            assert(spec_headers_ok(items, 1) == Ok::<(), Seq<char>>(()));
        },
        MessageData::Completion { invocation_id, result, error } => {
            let head = seq![int_mp(3), empty_headers_mp(), MpData::Str(Some(invocation_id))];
            match error {
                Some(e) => {
                    let items = head + seq![int_mp(1), MpData::Str(Some(e))];
                    assert(items[1] == empty_headers_mp());
                    assert(spec_headers_ok(items, 1) == Ok::<(), Seq<char>>(()));
                    assert(items[2] == MpData::Str(Some(invocation_id)));
                    assert(items[3] == int_mp(1));
                    assert(items[4] == MpData::Str(Some(e)));
                },
                None => match result {
                    Some(r) => {
                        law_json_messagepack_roundtrip(r);
                        let x = spec_json_to_mp(r)->Ok_0;
                        let items = head + seq![int_mp(3), x];
                        assert(items[1] == empty_headers_mp());
                        assert(spec_headers_ok(items, 1) == Ok::<(), Seq<char>>(()));
                        assert(items[2] == MpData::Str(Some(invocation_id)));
                        assert(items[3] == int_mp(3));
                        assert(items[4] == x);
                    },
                    None => {
                        let items = head.push(int_mp(2));
                        assert(items[1] == empty_headers_mp());
                        assert(spec_headers_ok(items, 1) == Ok::<(), Seq<char>>(()));
                        assert(items[2] == MpData::Str(Some(invocation_id)));
                        assert(items[3] == int_mp(2));
                    },
                },
            }
        },
        MessageData::CancelInvocation { invocation_id } => {
            let items = seq![int_mp(5), empty_headers_mp(), MpData::Str(Some(invocation_id))];
            assert(spec_headers_ok(items, 1) == Ok::<(), Seq<char>>(()));
        },
        MessageData::Ping => {},
        MessageData::Close { error, allow_reconnect } => {},
    }
}

proof fn lemma_json_to_mp_read_back(d: JsonData, n: nat)
    requires
        json_wf(d),
        json_floats_convert(d),
        json_mp_within(d, n),
    ensures
        spec_json_to_mp(d) matches Ok(v) && mp_read_back_ok(v, n),
    decreases d,
{
    match d {
        JsonData::Array(items) => {
            lemma_json_seq_to_mp_read_back(items, (n - 1) as nat);
        },
        JsonData::Object(entries) => {
            lemma_json_entries_to_mp_read_back(entries, (n - 1) as nat);
        },
        _ => {},
    }
}

proof fn lemma_json_seq_to_mp_read_back(s: Seq<JsonData>, n: nat)
    requires
        forall|i: int| 0 <= i < s.len() ==> json_wf(#[trigger] s[i]),
        forall|i: int| 0 <= i < s.len() ==> json_floats_convert(#[trigger] s[i]),
        forall|i: int| 0 <= i < s.len() ==> json_mp_within(#[trigger] s[i], n),
    ensures
        spec_json_seq_to_mp(s) matches Ok(xs) && xs.len() == s.len() && forall|i: int|
            0 <= i < xs.len() ==> mp_read_back_ok(#[trigger] xs[i], n),
    decreases s,
{
    if s.len() > 0 {
        let p = s.subrange(0, s.len() - 1);
        assert forall|i: int| 0 <= i < p.len() implies json_wf(#[trigger] p[i]) && json_floats_convert(p[i])
            && json_mp_within(p[i], n) by {
            assert(p[i] == s[i]);
        }
        lemma_json_seq_to_mp_read_back(p, n);
        lemma_json_to_mp_read_back(s[s.len() - 1], n);
    }
}

proof fn lemma_json_entries_to_mp_read_back(s: Seq<(Seq<char>, JsonData)>, n: nat)
    requires
        forall|i: int| 0 <= i < s.len() ==> json_wf(#[trigger] s[i].1),
        forall|i: int| 0 <= i < s.len() ==> json_floats_convert(#[trigger] s[i].1),
        forall|i: int| 0 <= i < s.len() ==> text_fits_mp(#[trigger] s[i].0),
        forall|i: int| 0 <= i < s.len() ==> json_mp_within(#[trigger] s[i].1, n),
    ensures
        spec_json_entries_to_mp(s) matches Ok(xs) && xs.len() == s.len() && forall|i: int|
            0 <= i < xs.len() ==> mp_read_back_ok(#[trigger] xs[i].0, n) && mp_read_back_ok(xs[i].1, n),
    decreases s,
{
    if s.len() > 0 {
        let p = s.subrange(0, s.len() - 1);
        assert forall|i: int| 0 <= i < p.len() implies json_wf(#[trigger] p[i].1) && json_floats_convert(p[i].1)
            && text_fits_mp(p[i].0) && json_mp_within(p[i].1, n) by {
            assert(p[i] == s[i]);
        }
        lemma_json_entries_to_mp_read_back(p, n);
        lemma_json_to_mp_read_back(s[s.len() - 1].1, n);
    }
}

proof fn lemma_arguments_read_back(args: Seq<JsonData>)
    requires
        args.len() < 0x1_0000_0000,
        forall|i: int| 0 <= i < args.len() ==> json_wf(#[trigger] args[i]),
        forall|i: int| 0 <= i < args.len() ==> json_floats_convert(#[trigger] args[i]),
        forall|i: int| 0 <= i < args.len() ==> json_mp_within(#[trigger] args[i], 508),
    ensures
        spec_json_seq_to_mp(args) matches Ok(xs) && mp_read_back_ok(MpData::Array(xs), 509),
{
    lemma_json_seq_to_mp_read_back(args, 508);
}

proof fn lemma_strings_read_back(o: Option<Seq<Seq<char>>>)
    requires
        strings_fit_mp(o),
    ensures
        mp_read_back_ok(strings_mp(o), 509),
{
    if let Some(v) = o {
        let items = v.map_values(|s: Seq<char>| MpData::Str(Some(s)));
        assert forall|i: int| 0 <= i < items.len() implies mp_read_back_ok(#[trigger] items[i], 508) by {
            assert(text_fits_mp(v[i]));
        }
    }
}

/// The MessagePack array for a well-formed message within rmpv's limits
/// reads back exactly itself.
proof fn lemma_message_to_mp_read_back(m: MessageData)
    requires
        message_wf_mp(m),
        message_floats_convert(m),
        message_mp_within(m),
    ensures
        spec_message_to_mp(m) matches Ok(v) && mp_read_back_ok(v, 510),
{
    match m {
        MessageData::Invocation { invocation_id, target, arguments, stream_ids } => {
            lemma_arguments_read_back(arguments);
            lemma_strings_read_back(stream_ids);
            let xs = spec_json_seq_to_mp(arguments)->Ok_0;
            let items = seq![
                int_mp(1),
                empty_headers_mp(),
                opt_str_mp(invocation_id),
                MpData::Str(Some(target)),
                MpData::Array(xs),
                strings_mp(stream_ids),
            ];
            assert forall|i: int| 0 <= i < items.len() implies mp_read_back_ok(#[trigger] items[i], 509) by {}
        },
        MessageData::StreamInvocation { invocation_id, target, arguments, stream_ids } => {
            lemma_arguments_read_back(arguments);
            lemma_strings_read_back(stream_ids);
            let xs = spec_json_seq_to_mp(arguments)->Ok_0;
            let items = seq![
                int_mp(4),
                empty_headers_mp(),
                MpData::Str(Some(invocation_id)),
                MpData::Str(Some(target)),
                MpData::Array(xs),
                strings_mp(stream_ids),
            ];
            assert forall|i: int| 0 <= i < items.len() implies mp_read_back_ok(#[trigger] items[i], 509) by {}
        },
        MessageData::StreamItem { invocation_id, item } => {
            lemma_json_to_mp_read_back(item, 509);
            let items = seq![int_mp(2), empty_headers_mp(), MpData::Str(Some(invocation_id)), spec_json_to_mp(item)->Ok_0];
            assert forall|i: int| 0 <= i < items.len() implies mp_read_back_ok(#[trigger] items[i], 509) by {}
        },
        MessageData::Completion { invocation_id, result, error } => {
            let head = seq![int_mp(3), empty_headers_mp(), MpData::Str(Some(invocation_id))];
            match error {
                Some(e) => {
                    let items = head + seq![int_mp(1), MpData::Str(Some(e))];
                    assert forall|i: int| 0 <= i < items.len() implies mp_read_back_ok(#[trigger] items[i], 509) by {}
                },
                None => match result {
                    Some(r) => {
                        lemma_json_to_mp_read_back(r, 509);
                        let items = head + seq![int_mp(3), spec_json_to_mp(r)->Ok_0];
                        assert forall|i: int| 0 <= i < items.len() implies mp_read_back_ok(#[trigger] items[i], 509) by {}
                    },
                    None => {
                        let items = head.push(int_mp(2));
                        assert forall|i: int| 0 <= i < items.len() implies mp_read_back_ok(#[trigger] items[i], 509) by {}
                    },
                },
            }
        },
        MessageData::CancelInvocation { invocation_id } => {
            let items = seq![int_mp(5), empty_headers_mp(), MpData::Str(Some(invocation_id))];
            assert forall|i: int| 0 <= i < items.len() implies mp_read_back_ok(#[trigger] items[i], 509) by {}
        },
        MessageData::Ping => {
            let items = seq![int_mp(6)];
            assert forall|i: int| 0 <= i < items.len() implies mp_read_back_ok(#[trigger] items[i], 509) by {}
        },
        MessageData::Close { error, allow_reconnect } => {
            let items = match allow_reconnect {
                Some(b) => seq![int_mp(7), opt_str_mp(error), MpData::Boolean(b)],
                None => seq![int_mp(7), opt_str_mp(error)],
            };
            assert forall|i: int| 0 <= i < items.len() implies mp_read_back_ok(#[trigger] items[i], 509) by {}
        },
    }
}

proof fn lemma_parse_bodies_all(bodies: Seq<Seq<u8>>, ms: Seq<MessageData>)
    requires
        bodies.len() == ms.len(),
        forall|i: int| 0 <= i < bodies.len() ==> spec_parse_messagepack_body(#[trigger] bodies[i]) == Ok::<
            MessageData,
            Seq<char>,
        >(ms[i]),
    ensures
        spec_parse_bodies(bodies) == Ok::<Seq<MessageData>, Seq<char>>(ms),
    decreases bodies.len(),
{
    if bodies.len() > 0 {
        let bs = bodies.drop_last();
        let m0 = ms.drop_last();
        assert forall|i: int| 0 <= i < bs.len() implies spec_parse_messagepack_body(#[trigger] bs[i]) == Ok::<
            MessageData,
            Seq<char>,
        >(m0[i]) by {
            assert(bs[i] == bodies[i]);
            assert(m0[i] == ms[i]);
        }
        lemma_parse_bodies_all(bs, m0);
        assert(spec_parse_messagepack_body(bodies.last()) == Ok::<MessageData, Seq<char>>(ms.last())) by {
            assert(bodies.last() == bodies[bodies.len() - 1]);
        }
        assert(m0.push(ms.last()) =~= ms);
    } else {
        assert(ms =~= Seq::<MessageData>::empty());
    }
}

/// Several messages written into one buffer, each in its own frame, are
/// read back in order.
pub proof fn law_messagepack_frames_read_back(bodies: Seq<Seq<u8>>, ms: Seq<MessageData>)
    requires
        bodies.len() == ms.len(),
        forall|i: int| 0 <= i < bodies.len() ==> (#[trigger] bodies[i]).len() <= MESSAGEPACK_MAX_FRAME_LENGTH,
        forall|i: int| 0 <= i < bodies.len() ==> spec_parse_messagepack_body(#[trigger] bodies[i]) == Ok::<
            MessageData,
            Seq<char>,
        >(ms[i]),
        spec_frames(bodies).len() <= usize::MAX,
    ensures
        spec_parse_messages_messagepack(spec_frames(bodies)) == Ok::<Seq<MessageData>, Seq<char>>(ms),
{
    law_split_frames_inverts_framing(bodies);
    lemma_parse_bodies_all(bodies, ms);
}

proof fn lemma_parse_bodies_append(fa: Seq<Seq<u8>>, fb: Seq<Seq<u8>>, xs: Seq<MessageData>, ys: Seq<MessageData>)
    requires
        spec_parse_bodies(fa) == Ok::<Seq<MessageData>, Seq<char>>(xs),
        spec_parse_bodies(fb) == Ok::<Seq<MessageData>, Seq<char>>(ys),
    ensures
        spec_parse_bodies(fa + fb) == Ok::<Seq<MessageData>, Seq<char>>(xs + ys),
    decreases fb.len(),
{
    if fb.len() == 0 {
        assert(fa + fb =~= fa);
        assert(ys =~= Seq::<MessageData>::empty());
        assert(xs + ys =~= xs);
    } else {
        let ys0 = spec_parse_bodies(fb.drop_last())->Ok_0;
        let m = spec_parse_messagepack_body(fb.last())->Ok_0;
        lemma_parse_bodies_append(fa, fb.drop_last(), xs, ys0);
        let all = fa + fb;
        assert(all.drop_last() =~= fa + fb.drop_last());
        assert(all.last() == fb.last());
        assert((xs + ys0).push(m) =~= xs + ys);
    }
}

/// Two buffers of MessagePack frames written one after the other hold the
/// messages of the first followed by those of the second.
pub proof fn law_messagepack_buffers_concatenate(a: Seq<u8>, b: Seq<u8>, xs: Seq<MessageData>, ys: Seq<MessageData>)
    requires
        spec_parse_messages_messagepack(a) == Ok::<Seq<MessageData>, Seq<char>>(xs),
        spec_parse_messages_messagepack(b) == Ok::<Seq<MessageData>, Seq<char>>(ys),
        a.len() + b.len() <= usize::MAX,
    ensures
        spec_parse_messages_messagepack(a + b) == Ok::<Seq<MessageData>, Seq<char>>(xs + ys),
{
    let fa = spec_split_frames(a)->Ok_0;
    let fb = spec_split_frames(b)->Ok_0;
    law_split_frames_concatenate(a, b, fa, fb);
    lemma_parse_bodies_append(fa, fb, xs, ys);
}

/// The header map for string key-value pairs.
pub open spec fn headers_mp(headers: Seq<(Seq<char>, Seq<char>)>) -> MpData {
    MpData::MapEntries(
        headers.map_values(|h: (Seq<char>, Seq<char>)| (MpData::Str(Some(h.0)), MpData::Str(Some(h.1)))),
    )
}

/// An invocation array of five items (type 1, string headers, the
/// invocation ID or `nil`, the target and the arguments) with no stream-ID
/// item, as the JavaScript client writes it, decodes to that invocation with
/// no stream IDs.
pub proof fn law_messagepack_invocation_without_stream_ids(
    headers: Seq<(Seq<char>, Seq<char>)>,
    invocation_id: Option<Seq<char>>,
    target: Seq<char>,
    args: Seq<MpData>,
    arguments: Seq<JsonData>,
)
    requires
        spec_mp_seq_to_json(args) == Ok::<Seq<JsonData>, Seq<char>>(arguments),
    ensures
        spec_message_from_mp(
            MpData::Array(
                seq![
                    int_mp(1),
                    headers_mp(headers),
                    opt_str_mp(invocation_id),
                    MpData::Str(Some(target)),
                    MpData::Array(args),
                ],
            ),
        ) == Ok::<MessageData, Seq<char>>(
            MessageData::Invocation { invocation_id, target, arguments, stream_ids: None },
        ),
{
    let items = seq![
        int_mp(1),
        headers_mp(headers),
        opt_str_mp(invocation_id),
        MpData::Str(Some(target)),
        MpData::Array(args),
    ];
    let pairs = items[1]->MapEntries_0;
    assert forall|j: int| 0 <= j < pairs.len() implies mp_as_str(#[trigger] pairs[j].0) is Some && mp_as_str(
        pairs[j].1,
    ) is Some by {}
    assert(spec_headers_ok(items, 1) == Ok::<(), Seq<char>>(()));
    assert(spec_count_ok(items, 5, 6, "Invocation"@) == Ok::<(), Seq<char>>(()));
}

/// The stream-ID item of an invocation or a stream invocation may be left
/// out: such an array of five items decodes exactly as the same array with
/// `nil` as a sixth item, to the same message or the same error.
pub proof fn law_messagepack_invocation_stream_ids_optional(items: Seq<MpData>)
    requires
        items.len() == 5,
        items[0] == int_mp(1) || items[0] == int_mp(4),
    ensures
        spec_message_from_mp(MpData::Array(items)) == spec_message_from_mp(MpData::Array(items.push(MpData::Nil))),
{
    let longer = items.push(MpData::Nil);
    assert(longer[0] == items[0]);
    assert(longer[1] == items[1]);
    assert(longer[2] == items[2]);
    assert(longer[3] == items[3]);
    assert(longer[4] == items[4]);
    assert(spec_headers_ok(longer, 1) == spec_headers_ok(items, 1));
    assert(spec_item_string(longer, 2, "invocationId"@) == spec_item_string(items, 2, "invocationId"@));
    assert(spec_item_string(longer, 3, "target"@) == spec_item_string(items, 3, "target"@));
    assert(spec_item_json_array(longer, 4, "arguments"@) == spec_item_json_array(items, 4, "arguments"@));
    assert(spec_item_opt_string_array(longer, 5, "streamIds"@) == Ok::<Option<Seq<Seq<char>>>, Seq<char>>(None));
    assert(spec_item_opt_string_array(items, 5, "streamIds"@) == Ok::<Option<Seq<Seq<char>>>, Seq<char>>(None));
}

} // verus!
