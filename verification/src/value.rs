//! Value models: the JSON values that hub messages carry as arguments and
//! results, the MessagePack values of the binary protocol, and the
//! conversions between them.

use vstd::prelude::*;
use crate::error::Result;
use crate::error::SignalRError;

verus! {

#[verifier::external_type_specification]
#[verifier::external_body]
pub struct ExJsonNumber(serde_json::Number);

#[verifier::external_type_specification]
#[verifier::external_body]
pub struct ExMessagePackValue(rmpv::Value);

/// `serde_json::Number`'s `Clone` is derived over plain data: the copy is the
/// same number.
pub assume_specification[ <serde_json::Number as Clone>::clone ](n: &serde_json::Number) -> (r:
    serde_json::Number)
    ensures
        r == *n,
;

/// `rmpv::Value`'s `Clone` is derived over plain data: the copy is the same
/// value.
pub assume_specification[ <rmpv::Value as Clone>::clone ](v: &rmpv::Value) -> (r: rmpv::Value)
    ensures
        r == *v,
;

/// A JSON number, in the three representations serde_json keeps apart.
#[derive(Debug, Clone, PartialEq)]
pub enum JsonNumber {
    /// A non-negative integer.
    PosInt(u64),
    /// A negative integer.
    NegInt(i64),
    /// A finite floating-point number, carried as serde_json holds it.
    Float(serde_json::Number),
}

/// A JSON value; objects keep their entries in order.
#[derive(Debug, PartialEq)]
pub enum JsonValue {
    /// `null`
    Null,
    /// `true` or `false`
    Bool(bool),
    /// A number
    Number(JsonNumber),
    /// A string
    String(String),
    /// An array
    Array(Vec<JsonValue>),
    /// An object, as its key-value entries in order
    Object(Vec<(String, JsonValue)>),
}

/// The mathematical content of a [`JsonValue`].
pub enum JsonData {
    Null,
    Bool(bool),
    Number(JsonNumber),
    Str(Seq<char>),
    Array(Seq<JsonData>),
    Object(Seq<(Seq<char>, JsonData)>),
}

/// A MessagePack integer, in the two representations rmpv keeps apart.
#[derive(Debug, Clone, Copy, PartialEq)]
pub enum MpInteger {
    /// A non-negative integer.
    PosInt(u64),
    /// A negative integer.
    NegInt(i64),
}

/// A MessagePack value.
#[derive(Debug, PartialEq)]
pub enum MpValue {
    /// `nil`
    Nil,
    /// A boolean
    Boolean(bool),
    /// An integer
    Integer(MpInteger),
    /// A 32- or 64-bit float, carried as rmpv holds it.
    Float(rmpv::Value),
    /// A string; `None` when its bytes are not valid UTF-8.
    String(Option<String>),
    /// A byte array
    Binary(Vec<u8>),
    /// An array
    Array(Vec<MpValue>),
    /// A map, as its key-value pairs in order
    MapEntries(Vec<(MpValue, MpValue)>),
    /// An extension value: type tag and bytes
    Ext(i8, Vec<u8>),
}

/// The mathematical content of an [`MpValue`].
pub enum MpData {
    Nil,
    Boolean(bool),
    Integer(MpInteger),
    Float(rmpv::Value),
    Str(Option<Seq<char>>),
    Binary(Seq<u8>),
    Array(Seq<MpData>),
    MapEntries(Seq<(MpData, MpData)>),
    Ext(i8, Seq<u8>),
}

/// The content of a JSON value.
pub open spec fn json_data(v: JsonValue) -> JsonData
    decreases v,
{
    match v {
        JsonValue::Null => JsonData::Null,
        JsonValue::Bool(b) => JsonData::Bool(b),
        JsonValue::Number(n) => JsonData::Number(n),
        JsonValue::String(s) => JsonData::Str(s@),
        JsonValue::Array(items) => JsonData::Array(json_data_seq(items@)),
        JsonValue::Object(entries) => JsonData::Object(json_entries_data(entries@)),
    }
}

/// The contents of a sequence of JSON values.
pub open spec fn json_data_seq(s: Seq<JsonValue>) -> Seq<JsonData>
    decreases s,
{
    if s.len() == 0 {
        seq![]
    } else {
        json_data_seq(s.subrange(0, s.len() - 1)).push(json_data(s[s.len() - 1]))
    }
}

/// The contents of a JSON object's entries.
pub open spec fn json_entries_data(s: Seq<(String, JsonValue)>) -> Seq<(Seq<char>, JsonData)>
    decreases s,
{
    if s.len() == 0 {
        seq![]
    } else {
        json_entries_data(s.subrange(0, s.len() - 1)).push(
            (s[s.len() - 1].0@, json_data(s[s.len() - 1].1)),
        )
    }
}

impl View for JsonValue {
    type V = JsonData;

    open spec fn view(&self) -> JsonData {
        json_data(*self)
    }
}

/// The content of a MessagePack value.
pub open spec fn mp_data(v: MpValue) -> MpData
    decreases v,
{
    match v {
        MpValue::Nil => MpData::Nil,
        MpValue::Boolean(b) => MpData::Boolean(b),
        MpValue::Integer(i) => MpData::Integer(i),
        MpValue::Float(f) => MpData::Float(f),
        MpValue::String(s) => MpData::Str(
            match s {
                Some(t) => Some(t@),
                None => None,
            },
        ),
        MpValue::Binary(b) => MpData::Binary(b@),
        MpValue::Array(items) => MpData::Array(mp_data_seq(items@)),
        MpValue::MapEntries(pairs) => MpData::MapEntries(mp_pairs_data(pairs@)),
        MpValue::Ext(tag, b) => MpData::Ext(tag, b@),
    }
}

/// The contents of a sequence of MessagePack values.
pub open spec fn mp_data_seq(s: Seq<MpValue>) -> Seq<MpData>
    decreases s,
{
    if s.len() == 0 {
        seq![]
    } else {
        mp_data_seq(s.subrange(0, s.len() - 1)).push(mp_data(s[s.len() - 1]))
    }
}

/// The contents of a MessagePack map's pairs.
pub open spec fn mp_pairs_data(s: Seq<(MpValue, MpValue)>) -> Seq<(MpData, MpData)>
    decreases s,
{
    if s.len() == 0 {
        seq![]
    } else {
        mp_pairs_data(s.subrange(0, s.len() - 1)).push(
            (mp_data(s[s.len() - 1].0), mp_data(s[s.len() - 1].1)),
        )
    }
}

impl View for MpValue {
    type V = MpData;

    open spec fn view(&self) -> MpData {
        mp_data(*self)
    }
}


/// What rmpv's float value is for a JSON floating-point number (its `f64`
/// widened into `rmpv::Value::F64`), if serde_json gives one.
pub uninterp spec fn float_value_of_json_number(n: serde_json::Number) -> Option<rmpv::Value>;

/// What `serde_json::Number::from_f64` gives for a MessagePack float value
/// (an `F32` widened to `f64`): `None` for a non-finite float.
pub uninterp spec fn json_number_of_float_value(v: rmpv::Value) -> Option<serde_json::Number>;

/// Whether serde_json keeps a number as a float (`serde_json::Number::is_f64`).
pub uninterp spec fn number_holds_float(n: serde_json::Number) -> bool;

/// Whether an rmpv value is a 64-bit float (`rmpv::Value::is_f64`).
pub uninterp spec fn rmpv_is_f64(v: rmpv::Value) -> bool;

/// Calls `serde_json::Number::as_f64` and wraps the float as
/// `rmpv::Value::F64`; the result is a function of the number alone.
///
/// `as_f64` gives a float for every number, and the result is an `F64`. For
/// a number serde_json keeps
/// as a float, `Number::from_f64` of that same finite float (which rmpv's
/// `as_f64` reads back out of `F64`) is the number itself.
#[verifier::external_body]
fn messagepack_float_from_json_number(n: &serde_json::Number) -> (r: Option<rmpv::Value>)
    ensures
        r == float_value_of_json_number(*n),
        r is Some,
        rmpv_is_f64(r->Some_0),
        number_holds_float(*n) ==> json_number_of_float_value(r->Some_0) == Some(*n),
{
    n.as_f64().map(rmpv::Value::F64)
}

/// Calls `serde_json::Number::from_f64` on the float an `rmpv::Value`
/// holds (read with `rmpv::Value::as_f64`); the result is a function of the
/// value alone, and a number it gives is kept as a float.
#[verifier::external_body]
fn json_number_from_messagepack_float(v: &rmpv::Value) -> (r: Option<serde_json::Number>)
    ensures
        r == json_number_of_float_value(*v),
        r matches Some(m) ==> number_holds_float(m),
{
    v.as_f64().and_then(serde_json::Number::from_f64)
}

/// The JSON number serde_json makes from an `i64`.
pub open spec fn json_number_from_i64(i: i64) -> JsonNumber {
    if i < 0 {
        JsonNumber::NegInt(i)
    } else {
        JsonNumber::PosInt(i as u64)
    }
}

/// The MessagePack integer rmpv makes from an `i64`.
pub open spec fn mp_integer_from_i64(i: i64) -> MpInteger {
    if i < 0 {
        MpInteger::NegInt(i)
    } else {
        MpInteger::PosInt(i as u64)
    }
}

/// Encoding a JSON number as MessagePack.
pub open spec fn spec_json_number_to_mp(n: JsonNumber) -> core::result::Result<MpData, Seq<char>> {
    match n {
        JsonNumber::PosInt(u) => Ok(MpData::Integer(MpInteger::PosInt(u))),
        JsonNumber::NegInt(i) => Ok(MpData::Integer(mp_integer_from_i64(i))),
        JsonNumber::Float(f) => match float_value_of_json_number(f) {
            Some(v) => Ok(MpData::Float(v)),
            None => Err("Unsupported JSON number for MessagePack encoding"@),
        },
    }
}

/// Encoding a JSON value as MessagePack.
pub open spec fn spec_json_to_mp(d: JsonData) -> core::result::Result<MpData, Seq<char>>
    decreases d,
{
    match d {
        JsonData::Null => Ok(MpData::Nil),
        JsonData::Bool(b) => Ok(MpData::Boolean(b)),
        JsonData::Number(n) => spec_json_number_to_mp(n),
        JsonData::Str(s) => Ok(MpData::Str(Some(s))),
        JsonData::Array(items) => match spec_json_seq_to_mp(items) {
            Ok(xs) => Ok(MpData::Array(xs)),
            Err(e) => Err(e),
        },
        JsonData::Object(entries) => match spec_json_entries_to_mp(entries) {
            Ok(xs) => Ok(MpData::MapEntries(xs)),
            Err(e) => Err(e),
        },
    }
}

/// Encoding JSON values one after another; the first failure wins.
pub open spec fn spec_json_seq_to_mp(s: Seq<JsonData>) -> core::result::Result<
    Seq<MpData>,
    Seq<char>,
>
    decreases s,
{
    if s.len() == 0 {
        Ok(seq![])
    } else {
        match spec_json_seq_to_mp(s.subrange(0, s.len() - 1)) {
            Err(e) => Err(e),
            Ok(prefix) => match spec_json_to_mp(s[s.len() - 1]) {
                Err(e) => Err(e),
                Ok(x) => Ok(prefix.push(x)),
            },
        }
    }
}

/// Encoding JSON object entries as MessagePack map pairs with string keys.
pub open spec fn spec_json_entries_to_mp(s: Seq<(Seq<char>, JsonData)>) -> core::result::Result<
    Seq<(MpData, MpData)>,
    Seq<char>,
>
    decreases s,
{
    if s.len() == 0 {
        Ok(seq![])
    } else {
        match spec_json_entries_to_mp(s.subrange(0, s.len() - 1)) {
            Err(e) => Err(e),
            Ok(prefix) => match spec_json_to_mp(s[s.len() - 1].1) {
                Err(e) => Err(e),
                Ok(x) => Ok(prefix.push((MpData::Str(Some(s[s.len() - 1].0)), x))),
            },
        }
    }
}

/// The index of `key` among an object's entries, if it occurs.
pub open spec fn object_key_index(entries: Seq<(Seq<char>, JsonData)>, key: Seq<char>) -> Option<int>
    decreases entries.len(),
{
    if entries.len() == 0 {
        None
    } else if entries[0].0 == key {
        Some(0)
    } else {
        match object_key_index(entries.drop_first(), key) {
            Some(i) => Some(i + 1),
            None => None,
        }
    }
}

/// Inserting into a JSON object: an existing key keeps its place and takes
/// the new value; a new key goes last.
pub open spec fn object_insert(entries: Seq<(Seq<char>, JsonData)>, key: Seq<char>, v: JsonData) -> Seq<
    (Seq<char>, JsonData),
> {
    match object_key_index(entries, key) {
        Some(i) => entries.update(i, (key, v)),
        None => entries.push((key, v)),
    }
}

/// Bytes of a MessagePack binary value as a JSON array of numbers.
pub open spec fn binary_as_json(b: Seq<u8>) -> Seq<JsonData> {
    Seq::new(b.len(), |i: int| JsonData::Number(JsonNumber::PosInt(b[i] as u64)))
}

/// Decoding a MessagePack value as JSON.
pub open spec fn spec_mp_to_json(d: MpData) -> core::result::Result<JsonData, Seq<char>>
    decreases d,
{
    match d {
        MpData::Nil => Ok(JsonData::Null),
        MpData::Boolean(b) => Ok(JsonData::Bool(b)),
        MpData::Integer(MpInteger::PosInt(u)) => Ok(JsonData::Number(JsonNumber::PosInt(u))),
        MpData::Integer(MpInteger::NegInt(i)) => Ok(JsonData::Number(json_number_from_i64(i))),
        MpData::Float(v) => match json_number_of_float_value(v) {
            Some(n) => Ok(JsonData::Number(JsonNumber::Float(n))),
            None => Err("MessagePack float is not finite"@),
        },
        MpData::Str(Some(s)) => Ok(JsonData::Str(s)),
        MpData::Str(None) => Err("MessagePack string is not UTF-8"@),
        MpData::Binary(b) => Ok(JsonData::Array(binary_as_json(b))),
        MpData::Array(items) => match spec_mp_seq_to_json(items) {
            Ok(xs) => Ok(JsonData::Array(xs)),
            Err(e) => Err(e),
        },
        MpData::MapEntries(pairs) => match spec_mp_pairs_to_json(pairs) {
            Ok(entries) => Ok(JsonData::Object(entries)),
            Err(e) => Err(e),
        },
        MpData::Ext(_, _) => Err("MessagePack extension values are not supported"@),
    }
}

/// Decoding MessagePack values one after another; the first failure wins.
pub open spec fn spec_mp_seq_to_json(s: Seq<MpData>) -> core::result::Result<
    Seq<JsonData>,
    Seq<char>,
>
    decreases s,
{
    if s.len() == 0 {
        Ok(seq![])
    } else {
        match spec_mp_seq_to_json(s.subrange(0, s.len() - 1)) {
            Err(e) => Err(e),
            Ok(prefix) => match spec_mp_to_json(s[s.len() - 1]) {
                Err(e) => Err(e),
                Ok(x) => Ok(prefix.push(x)),
            },
        }
    }
}

/// Decoding MessagePack map pairs into a JSON object: keys must be valid
/// strings, and each pair is inserted in turn.
pub open spec fn spec_mp_pairs_to_json(s: Seq<(MpData, MpData)>) -> core::result::Result<
    Seq<(Seq<char>, JsonData)>,
    Seq<char>,
>
    decreases s,
{
    if s.len() == 0 {
        Ok(seq![])
    } else {
        match spec_mp_pairs_to_json(s.subrange(0, s.len() - 1)) {
            Err(e) => Err(e),
            Ok(entries) => match s[s.len() - 1].0 {
                MpData::Str(Some(key)) => match spec_mp_to_json(s[s.len() - 1].1) {
                    Err(e) => Err(e),
                    Ok(v) => Ok(object_insert(entries, key, v)),
                },
                _ => Err("MessagePack map keys must be UTF-8 strings"@),
            },
        }
    }
}


/// A protocol error with the given text.
pub fn protocol_error(text: &str) -> (e: SignalRError)
    ensures
        e matches SignalRError::Protocol(t) && t@ == text@,
{
    SignalRError::Protocol(String::from_str(text))
}

/// Encodes a JSON number as a MessagePack value.
pub fn json_number_to_messagepack(n: &JsonNumber) -> (r: Result<MpValue>)
    ensures
        match r {
            Ok(m) => spec_json_number_to_mp(*n) == Ok::<MpData, Seq<char>>(m@),
            Err(SignalRError::Protocol(t)) => spec_json_number_to_mp(*n) == Err::<MpData, Seq<char>>(t@),
            Err(_) => false,
        },
        r is Ok,
        *n matches JsonNumber::Float(f) ==> float_converts(f),
{
    match n {
        JsonNumber::PosInt(u) => Ok(MpValue::Integer(MpInteger::PosInt(*u))),
        JsonNumber::NegInt(i) => {
            if *i < 0 {
                Ok(MpValue::Integer(MpInteger::NegInt(*i)))
            } else {
                Ok(MpValue::Integer(MpInteger::PosInt(*i as u64)))
            }
        },
        JsonNumber::Float(f) => match messagepack_float_from_json_number(f) {
            Some(v) => Ok(MpValue::Float(v)),
            None => Err(protocol_error("Unsupported JSON number for MessagePack encoding")),
        },
    }
}

/// Encodes a JSON value as a MessagePack value.
#[verifier::loop_isolation(false)]
pub fn json_to_messagepack_value(v: &JsonValue) -> (r: Result<MpValue>)
    ensures
        match r {
            Ok(m) => spec_json_to_mp(v@) == Ok::<MpData, Seq<char>>(m@),
            Err(SignalRError::Protocol(t)) => spec_json_to_mp(v@) == Err::<MpData, Seq<char>>(t@),
            Err(_) => false,
        },
        r is Ok,
        json_floats_convert(v@),
        json_wf(v@) ==> spec_mp_to_json(r->Ok_0@) == Ok::<JsonData, Seq<char>>(v@),
    decreases v,
{
    let r = match v {
        JsonValue::Null => Ok(MpValue::Nil),
        JsonValue::Bool(b) => Ok(MpValue::Boolean(*b)),
        JsonValue::Number(n) => json_number_to_messagepack(n),
        JsonValue::String(text) => Ok(MpValue::String(Some(text.clone()))),
        JsonValue::Array(items) => json_array_to_messagepack(items),
        JsonValue::Object(entries) => {
            let mut pairs: Vec<(MpValue, MpValue)> = Vec::new();
            let mut i: usize = 0;
            while i < entries.len()
                invariant
                    i <= entries@.len(),
                    spec_json_entries_to_mp(json_entries_data(entries@.take(i as int))) == Ok::<
                        Seq<(MpData, MpData)>,
                        Seq<char>,
                    >(mp_pairs_data(pairs@)),
                    forall|j: int| 0 <= j < i ==> json_floats_convert(json_data(#[trigger] entries@[j].1)),
                decreases entries@.len() - i,
            {
                proof {
                    assert(decreases_to!(v => entries));
                    assert(decreases_to!(entries => entries@));
                    assert(decreases_to!(entries@ => entries@[i as int]));
                    assert(decreases_to!(entries@[i as int] => entries@[i as int].1));
                }
                let converted = json_to_messagepack_value(&entries[i].1);
                let ghost t = entries@.take(i as int);
                let ghost t1 = entries@.take(i + 1);
                proof {
                    assert(t1.subrange(0, t1.len() - 1) =~= t);
                    assert(t1[t1.len() - 1] == entries@[i as int]);
                    let d = json_entries_data(t1);
                    assert(d.subrange(0, d.len() - 1) =~= json_entries_data(t));
                }
                match converted {
                    Ok(m) => {
                        let ghost before = pairs@;
                        let key = entries[i].0.clone();
                        let ghost md = m@;
                        pairs.push((MpValue::String(Some(key)), m));
                        proof {
                            assert(pairs@.subrange(0, pairs@.len() - 1) =~= before);
                            assert(mp_data(MpValue::String(Some(key))) == MpData::Str(
                                Some(entries@[i as int].0@),
                            ));
                            assert(mp_pairs_data(pairs@) == mp_pairs_data(before).push(
                                (MpData::Str(Some(entries@[i as int].0@)), md),
                            ));
                        }
                    },
                    Err(e) => {
                        proof {
                            lemma_json_entries_error_prefix(entries@, (i + 1) as nat);
                        }
                        return Err(e);
                    },
                }
                i = i + 1;
            }
            assert(entries@.take(entries@.len() as int) =~= entries@);
            proof {
                lemma_json_entries_data_index(entries@);
            }
            Ok(MpValue::MapEntries(pairs))
        },
    };
    proof {
        if json_wf(v@) {
            law_json_messagepack_roundtrip(v@);
        }
    }
    r
}

proof fn lemma_json_entries_error_prefix(s: Seq<(String, JsonValue)>, k: nat)
    requires
        k <= s.len(),
        spec_json_entries_to_mp(json_entries_data(s.take(k as int))) is Err,
    ensures
        spec_json_entries_to_mp(json_entries_data(s)) == spec_json_entries_to_mp(
            json_entries_data(s.take(k as int)),
        ),
    decreases s.len() - k,
{
    if k < s.len() {
        let t = s.take((k + 1) as int);
        assert(t.subrange(0, t.len() - 1) =~= s.take(k as int));
        let d = json_entries_data(t);
        assert(d.subrange(0, d.len() - 1) =~= json_entries_data(s.take(k as int)));
        lemma_json_entries_error_prefix(s, k + 1);
    } else {
        assert(s.take(k as int) =~= s);
    }
}

proof fn lemma_json_seq_error_prefix(s: Seq<JsonValue>, k: nat)
    requires
        k <= s.len(),
        spec_json_seq_to_mp(json_data_seq(s.take(k as int))) is Err,
    ensures
        spec_json_seq_to_mp(json_data_seq(s)) == spec_json_seq_to_mp(
            json_data_seq(s.take(k as int)),
        ),
    decreases s.len() - k,
{
    if k < s.len() {
        let t = s.take((k + 1) as int);
        assert(t.subrange(0, t.len() - 1) =~= s.take(k as int));
        let d = json_data_seq(t);
        assert(d.subrange(0, d.len() - 1) =~= json_data_seq(s.take(k as int)));
        lemma_json_seq_error_prefix(s, k + 1);
    } else {
        assert(s.take(k as int) =~= s);
    }
}

/// Encodes an array of JSON values as a MessagePack array.
#[verifier::loop_isolation(false)]
pub fn json_array_to_messagepack(values: &Vec<JsonValue>) -> (r: Result<MpValue>)
    ensures
        match r {
            Ok(m) => spec_json_to_mp(JsonData::Array(json_data_seq(values@))) == Ok::<
                MpData,
                Seq<char>,
            >(m@),
            Err(SignalRError::Protocol(t)) => spec_json_to_mp(
                JsonData::Array(json_data_seq(values@)),
            ) == Err::<MpData, Seq<char>>(t@),
            Err(_) => false,
        },
        r is Ok,
        json_floats_convert(JsonData::Array(json_data_seq(values@))),
    decreases values,
{
    let mut out: Vec<MpValue> = Vec::new();
    let mut i: usize = 0;
    while i < values.len()
        invariant
            i <= values@.len(),
            spec_json_seq_to_mp(json_data_seq(values@.take(i as int))) == Ok::<
                Seq<MpData>,
                Seq<char>,
            >(mp_data_seq(out@)),
            forall|j: int| 0 <= j < i ==> json_floats_convert(json_data(#[trigger] values@[j])),
        decreases values@.len() - i,
    {
        proof {
            assert(decreases_to!(values => values@));
            assert(decreases_to!(values@ => values@[i as int]));
        }
        let converted = json_to_messagepack_value(&values[i]);
        let ghost t = values@.take(i as int);
        let ghost t1 = values@.take(i + 1);
        proof {
            assert(t1.subrange(0, t1.len() - 1) =~= t);
            assert(t1[t1.len() - 1] == values@[i as int]);
            let d = json_data_seq(t1);
            assert(d.subrange(0, d.len() - 1) =~= json_data_seq(t));
        }
        match converted {
            Ok(m) => {
                let ghost before = out@;
                out.push(m);
                proof {
                    assert(out@.subrange(0, out@.len() - 1) =~= before);
                }
            },
            Err(e) => {
                proof {
                    lemma_json_seq_error_prefix(values@, (i + 1) as nat);
                }
                return Err(e);
            },
        }
        i = i + 1;
    }
    assert(values@.take(values@.len() as int) =~= values@);
    proof {
        lemma_json_data_seq_index(values@);
    }
    Ok(MpValue::Array(out))
}


/// The content of a sequence of JSON values, item by item.
pub proof fn lemma_json_data_seq_index(s: Seq<JsonValue>)
    ensures
        json_data_seq(s).len() == s.len(),
        forall|j: int| 0 <= j < s.len() ==> #[trigger] json_data_seq(s)[j] == json_data(s[j]),
    decreases s.len(),
{
    if s.len() > 0 {
        let p = s.subrange(0, s.len() - 1);
        lemma_json_data_seq_index(p);
        assert forall|j: int| 0 <= j < s.len() implies #[trigger] json_data_seq(s)[j] == json_data(
            s[j],
        ) by {
            if j < s.len() - 1 {
                assert(p[j] == s[j]);
            }
        }
    }
}

/// The content of a JSON object's entries, entry by entry.
pub proof fn lemma_json_entries_data_index(s: Seq<(String, JsonValue)>)
    ensures
        json_entries_data(s).len() == s.len(),
        forall|j: int|
            0 <= j < s.len() ==> #[trigger] json_entries_data(s)[j] == (s[j].0@, json_data(s[j].1)),
    decreases s.len(),
{
    if s.len() > 0 {
        let p = s.subrange(0, s.len() - 1);
        lemma_json_entries_data_index(p);
        assert forall|j: int| 0 <= j < s.len() implies #[trigger] json_entries_data(s)[j] == (
            s[j].0@,
            json_data(s[j].1),
        ) by {
            if j < s.len() - 1 {
                assert(p[j] == s[j]);
            }
        }
    }
}

proof fn lemma_json_entries_data_update(s: Seq<(String, JsonValue)>, i: int, x: (String, JsonValue))
    requires
        0 <= i < s.len(),
    ensures
        json_entries_data(s.update(i, x)) =~= json_entries_data(s).update(i, (x.0@, json_data(x.1))),
{
    lemma_json_entries_data_index(s);
    lemma_json_entries_data_index(s.update(i, x));
}

/// Where a key first occurs, when the entries before position `i` hold other keys.
pub proof fn lemma_object_key_index(entries: Seq<(Seq<char>, JsonData)>, key: Seq<char>, i: int)
    requires
        0 <= i <= entries.len(),
        forall|j: int| 0 <= j < i ==> entries[j].0 != key,
    ensures
        i < entries.len() && entries[i].0 == key ==> object_key_index(entries, key) == Some(i),
        i == entries.len() ==> object_key_index(entries, key) is None,
    decreases i,
{
    if i > 0 {
        let rest = entries.drop_first();
        assert forall|j: int| 0 <= j < i - 1 implies rest[j].0 != key by {
            assert(rest[j] == entries[j + 1]);
        }
        lemma_object_key_index(rest, key, i - 1);
    }
}

/// Inserts `key` with `v` into a JSON object's entries, as serde_json's
/// order-preserving map does.
pub fn object_insert_entry(entries: &mut Vec<(String, JsonValue)>, key: String, v: JsonValue)
    ensures
        json_entries_data(final(entries)@) == object_insert(
            json_entries_data(old(entries)@),
            key@,
            v@,
        ),
{
    let ghost d = json_entries_data(entries@);
    proof {
        lemma_json_entries_data_index(entries@);
    }
    let mut i: usize = 0;
    while i < entries.len()
        invariant
            i <= entries@.len(),
            entries@ == old(entries)@,
            d == json_entries_data(entries@),
            d.len() == entries@.len(),
            forall|j: int| 0 <= j < i ==> d[j].0 != key@,
            forall|j: int| 0 <= j < entries@.len() ==> #[trigger] d[j] == (
                entries@[j].0@,
                json_data(entries@[j].1),
            ),
        decreases entries@.len() - i,
    {
        if entries[i].0 == key {
            proof {
                lemma_object_key_index(d, key@, i as int);
                lemma_json_entries_data_update(entries@, i as int, (key, v));
            }
            entries.set(i, (key, v));
            return ;
        }
        i = i + 1;
    }
    proof {
        lemma_object_key_index(d, key@, i as int);
    }
    let ghost before = entries@;
    entries.push((key, v));
    proof {
        assert(entries@.subrange(0, entries@.len() - 1) =~= before);
    }
}

/// Decodes a MessagePack value as JSON.
#[verifier::loop_isolation(false)]
pub fn messagepack_to_json_value(v: &MpValue) -> (r: Result<JsonValue>)
    ensures
        match r {
            Ok(j) => spec_mp_to_json(v@) == Ok::<JsonData, Seq<char>>(j@),
            Err(SignalRError::Protocol(t)) => spec_mp_to_json(v@) == Err::<JsonData, Seq<char>>(t@),
            Err(_) => false,
        },
    decreases v,
{
    match v {
        MpValue::Nil => Ok(JsonValue::Null),
        MpValue::Boolean(b) => Ok(JsonValue::Bool(*b)),
        MpValue::Integer(MpInteger::PosInt(u)) => Ok(JsonValue::Number(JsonNumber::PosInt(*u))),
        MpValue::Integer(MpInteger::NegInt(i)) => {
            if *i < 0 {
                Ok(JsonValue::Number(JsonNumber::NegInt(*i)))
            } else {
                Ok(JsonValue::Number(JsonNumber::PosInt(*i as u64)))
            }
        },
        MpValue::Float(f) => match json_number_from_messagepack_float(f) {
            Some(n) => Ok(JsonValue::Number(JsonNumber::Float(n))),
            None => Err(protocol_error("MessagePack float is not finite")),
        },
        MpValue::String(Some(text)) => Ok(JsonValue::String(text.clone())),
        MpValue::String(None) => Err(protocol_error("MessagePack string is not UTF-8")),
        MpValue::Binary(bytes) => {
            let mut out: Vec<JsonValue> = Vec::new();
            let mut i: usize = 0;
            while i < bytes.len()
                invariant
                    i <= bytes@.len(),
                    out@.len() == i,
                    forall|j: int|
                        0 <= j < i ==> #[trigger] out@[j] == JsonValue::Number(
                            JsonNumber::PosInt(bytes@[j] as u64),
                        ),
                decreases bytes@.len() - i,
            {
                out.push(JsonValue::Number(JsonNumber::PosInt(bytes[i] as u64)));
                i = i + 1;
            }
            proof {
                lemma_json_data_seq_index(out@);
                assert(json_data_seq(out@) =~= binary_as_json(bytes@));
            }
            Ok(JsonValue::Array(out))
        },
        MpValue::Array(items) => {
            let mut out: Vec<JsonValue> = Vec::new();
            let mut i: usize = 0;
            while i < items.len()
                invariant
                    i <= items@.len(),
                    spec_mp_seq_to_json(mp_data_seq(items@.take(i as int))) == Ok::<
                        Seq<JsonData>,
                        Seq<char>,
                    >(json_data_seq(out@)),
                decreases items@.len() - i,
            {
                proof {
                    assert(decreases_to!(v => items));
                    assert(decreases_to!(items => items@));
                    assert(decreases_to!(items@ => items@[i as int]));
                }
                let converted = messagepack_to_json_value(&items[i]);
                let ghost t = items@.take(i as int);
                let ghost t1 = items@.take(i + 1);
                proof {
                    assert(t1.subrange(0, t1.len() - 1) =~= t);
                    assert(t1[t1.len() - 1] == items@[i as int]);
                    let d = mp_data_seq(t1);
                    assert(d.subrange(0, d.len() - 1) =~= mp_data_seq(t));
                }
                match converted {
                    Ok(j) => {
                        let ghost before = out@;
                        out.push(j);
                        proof {
                            assert(out@.subrange(0, out@.len() - 1) =~= before);
                        }
                    },
                    Err(e) => {
                        proof {
                            lemma_mp_seq_error_prefix(items@, (i + 1) as nat);
                        }
                        return Err(e);
                    },
                }
                i = i + 1;
            }
            assert(items@.take(items@.len() as int) =~= items@);
            Ok(JsonValue::Array(out))
        },
        MpValue::MapEntries(pairs) => messagepack_map_to_json(pairs),
        MpValue::Ext(_, _) => Err(protocol_error("MessagePack extension values are not supported")),
    }
}

proof fn lemma_mp_seq_error_prefix(s: Seq<MpValue>, k: nat)
    requires
        k <= s.len(),
        spec_mp_seq_to_json(mp_data_seq(s.take(k as int))) is Err,
    ensures
        spec_mp_seq_to_json(mp_data_seq(s)) == spec_mp_seq_to_json(mp_data_seq(s.take(k as int))),
    decreases s.len() - k,
{
    if k < s.len() {
        let t = s.take((k + 1) as int);
        assert(t.subrange(0, t.len() - 1) =~= s.take(k as int));
        let d = mp_data_seq(t);
        assert(d.subrange(0, d.len() - 1) =~= mp_data_seq(s.take(k as int)));
        lemma_mp_seq_error_prefix(s, k + 1);
    } else {
        assert(s.take(k as int) =~= s);
    }
}

proof fn lemma_mp_pairs_error_prefix(s: Seq<(MpValue, MpValue)>, k: nat)
    requires
        k <= s.len(),
        spec_mp_pairs_to_json(mp_pairs_data(s.take(k as int))) is Err,
    ensures
        spec_mp_pairs_to_json(mp_pairs_data(s)) == spec_mp_pairs_to_json(
            mp_pairs_data(s.take(k as int)),
        ),
    decreases s.len() - k,
{
    if k < s.len() {
        let t = s.take((k + 1) as int);
        assert(t.subrange(0, t.len() - 1) =~= s.take(k as int));
        let d = mp_pairs_data(t);
        assert(d.subrange(0, d.len() - 1) =~= mp_pairs_data(s.take(k as int)));
        lemma_mp_pairs_error_prefix(s, k + 1);
    } else {
        assert(s.take(k as int) =~= s);
    }
}

/// Decodes MessagePack map pairs as a JSON object.
#[verifier::loop_isolation(false)]
pub fn messagepack_map_to_json(pairs: &Vec<(MpValue, MpValue)>) -> (r: Result<JsonValue>)
    ensures
        match r {
            Ok(j) => spec_mp_to_json(MpData::MapEntries(mp_pairs_data(pairs@))) == Ok::<
                JsonData,
                Seq<char>,
            >(j@),
            Err(SignalRError::Protocol(t)) => spec_mp_to_json(
                MpData::MapEntries(mp_pairs_data(pairs@)),
            ) == Err::<JsonData, Seq<char>>(t@),
            Err(_) => false,
        },
    decreases pairs,
{
    let mut entries: Vec<(String, JsonValue)> = Vec::new();
    let mut i: usize = 0;
    while i < pairs.len()
        invariant
            i <= pairs@.len(),
            spec_mp_pairs_to_json(mp_pairs_data(pairs@.take(i as int))) == Ok::<
                Seq<(Seq<char>, JsonData)>,
                Seq<char>,
            >(json_entries_data(entries@)),
        decreases pairs@.len() - i,
    {
        let ghost t = pairs@.take(i as int);
        let ghost t1 = pairs@.take(i + 1);
        proof {
            assert(t1.subrange(0, t1.len() - 1) =~= t);
            assert(t1[t1.len() - 1] == pairs@[i as int]);
            let d = mp_pairs_data(t1);
            assert(d.subrange(0, d.len() - 1) =~= mp_pairs_data(t));
            assert(d[d.len() - 1] == (mp_data(pairs@[i as int].0), mp_data(pairs@[i as int].1)));
        }
        let key = match &pairs[i].0 {
            MpValue::String(Some(k)) => k.clone(),
            _ => {
                proof {
                    assert(!(mp_data(pairs@[i as int].0) matches MpData::Str(Some(_))));
                    lemma_mp_pairs_error_prefix(pairs@, (i + 1) as nat);
                }
                return Err(protocol_error("MessagePack map keys must be UTF-8 strings"));
            },
        };
        proof {
            assert(decreases_to!(pairs => pairs@));
            assert(decreases_to!(pairs@ => pairs@[i as int]));
            assert(decreases_to!(pairs@[i as int] => pairs@[i as int].1));
        }
        let value = match messagepack_to_json_value(&pairs[i].1) {
            Ok(value) => value,
            Err(e) => {
                proof {
                    lemma_mp_pairs_error_prefix(pairs@, (i + 1) as nat);
                }
                return Err(e);
            },
        };
        object_insert_entry(&mut entries, key, value);
        i = i + 1;
    }
    assert(pairs@.take(pairs@.len() as int) =~= pairs@);
    Ok(JsonValue::Object(entries))
}


/// The content of a sequence of MessagePack values, item by item.
pub proof fn lemma_mp_data_seq_index(s: Seq<MpValue>)
    ensures
        mp_data_seq(s).len() == s.len(),
        forall|j: int| 0 <= j < s.len() ==> #[trigger] mp_data_seq(s)[j] == mp_data(s[j]),
    decreases s.len(),
{
    if s.len() > 0 {
        let p = s.subrange(0, s.len() - 1);
        lemma_mp_data_seq_index(p);
        assert forall|j: int| 0 <= j < s.len() implies #[trigger] mp_data_seq(s)[j] == mp_data(
            s[j],
        ) by {
            if j < s.len() - 1 {
                assert(p[j] == s[j]);
            }
        }
    }
}

/// The content of a MessagePack map's pairs, pair by pair.
pub proof fn lemma_mp_pairs_data_index(s: Seq<(MpValue, MpValue)>)
    ensures
        mp_pairs_data(s).len() == s.len(),
        forall|j: int|
            0 <= j < s.len() ==> #[trigger] mp_pairs_data(s)[j] == (mp_data(s[j].0), mp_data(s[j].1)),
    decreases s.len(),
{
    if s.len() > 0 {
        let p = s.subrange(0, s.len() - 1);
        lemma_mp_pairs_data_index(p);
        assert forall|j: int| 0 <= j < s.len() implies #[trigger] mp_pairs_data(s)[j] == (
            mp_data(s[j].0),
            mp_data(s[j].1),
        ) by {
            if j < s.len() - 1 {
                assert(p[j] == s[j]);
            }
        }
    }
}


/// A JSON value as serde_json holds one: integers in serde_json's own
/// representation, floats kept as floats, and objects without repeated keys.
pub open spec fn json_wf(d: JsonData) -> bool
    decreases d,
{
    match d {
        JsonData::Number(n) => match n {
            JsonNumber::PosInt(_) => true,
            JsonNumber::NegInt(i) => i < 0,
            JsonNumber::Float(f) => number_holds_float(f),
        },
        JsonData::Array(items) => forall|i: int| 0 <= i < items.len() ==> json_wf(#[trigger] items[i]),
        JsonData::Object(entries) => (forall|i: int| 0 <= i < entries.len() ==> json_wf(#[trigger] entries[i].1))
            && (forall|i: int, j: int| 0 <= i < j < entries.len() ==> #[trigger] entries[i].0 != #[trigger] entries[j].0),
        _ => true,
    }
}

/// A float that encodes as a 64-bit MessagePack float and, when serde_json keeps
/// it as a float, decodes back to itself.
pub open spec fn float_converts(n: serde_json::Number) -> bool {
    float_value_of_json_number(n) matches Some(v) && rmpv_is_f64(v) && (number_holds_float(n)
        ==> json_number_of_float_value(v) == Some(n))
}

/// Every float in a JSON value converts (see `float_converts`); the
/// encoder establishes this of every value it is given.
pub open spec fn json_floats_convert(d: JsonData) -> bool
    decreases d,
{
    match d {
        JsonData::Number(JsonNumber::Float(f)) => float_converts(f),
        JsonData::Array(items) => forall|i: int| 0 <= i < items.len() ==> json_floats_convert(#[trigger] items[i]),
        JsonData::Object(entries) => forall|i: int| 0 <= i < entries.len() ==> json_floats_convert(#[trigger] entries[i].1),
        _ => true,
    }
}

/// Decoding the MessagePack form of a well-formed JSON value gives the value
/// back, floats included.
pub proof fn law_json_messagepack_roundtrip(d: JsonData)
    requires
        json_wf(d),
        json_floats_convert(d),
    ensures
        match spec_json_to_mp(d) {
            Ok(x) => spec_mp_to_json(x) == Ok::<JsonData, Seq<char>>(d),
            Err(_) => false,
        },
    decreases d,
{
    match d {
        JsonData::Array(items) => {
            lemma_json_seq_roundtrip(items);
        },
        JsonData::Object(entries) => {
            lemma_json_entries_roundtrip(entries);
        },
        _ => {},
    }
}

/// Well-formed JSON values come back from their MessagePack form, one by one.
pub proof fn lemma_json_seq_roundtrip(s: Seq<JsonData>)
    requires
        forall|i: int| 0 <= i < s.len() ==> json_wf(#[trigger] s[i]),
        forall|i: int| 0 <= i < s.len() ==> json_floats_convert(#[trigger] s[i]),
    ensures
        match spec_json_seq_to_mp(s) {
            Ok(xs) => spec_mp_seq_to_json(xs) == Ok::<Seq<JsonData>, Seq<char>>(s) && xs.len() == s.len(),
            Err(_) => false,
        },
    decreases s,
{
    if s.len() > 0 {
        let p = s.subrange(0, s.len() - 1);
        assert forall|i: int| 0 <= i < p.len() implies json_wf(#[trigger] p[i]) && json_floats_convert(p[i]) by {
            assert(p[i] == s[i]);
        }
        lemma_json_seq_roundtrip(p);
        law_json_messagepack_roundtrip(s[s.len() - 1]);
        let xs_p = spec_json_seq_to_mp(p)->Ok_0;
        let x = spec_json_to_mp(s[s.len() - 1])->Ok_0;
        let xs = xs_p.push(x);
        assert(xs.subrange(0, xs.len() - 1) =~= xs_p);
        assert(xs[xs.len() - 1] == x);
        assert(p.push(s[s.len() - 1]) =~= s);
    } else {
        assert(s =~= Seq::<JsonData>::empty());
    }
}

proof fn lemma_json_entries_roundtrip(s: Seq<(Seq<char>, JsonData)>)
    requires
        forall|i: int| 0 <= i < s.len() ==> json_wf(#[trigger] s[i].1),
        forall|i: int| 0 <= i < s.len() ==> json_floats_convert(#[trigger] s[i].1),
        forall|i: int, j: int| 0 <= i < j < s.len() ==> #[trigger] s[i].0 != #[trigger] s[j].0,
    ensures
        match spec_json_entries_to_mp(s) {
            Ok(ps) => spec_mp_pairs_to_json(ps) == Ok::<Seq<(Seq<char>, JsonData)>, Seq<char>>(s)
                && ps.len() == s.len(),
            Err(_) => false,
        },
    decreases s,
{
    if s.len() > 0 {
        let n = s.len() - 1;
        let p = s.subrange(0, n);
        assert forall|i: int| 0 <= i < p.len() implies json_wf(#[trigger] p[i].1) && json_floats_convert(p[i].1) by {
            assert(p[i] == s[i]);
        }
        assert forall|i: int, j: int| 0 <= i < j < p.len() implies #[trigger] p[i].0 != #[trigger] p[j].0 by {
            assert(p[i] == s[i]);
            assert(p[j] == s[j]);
        }
        lemma_json_entries_roundtrip(p);
        law_json_messagepack_roundtrip(s[n].1);
        let ps_p = spec_json_entries_to_mp(p)->Ok_0;
        let x = spec_json_to_mp(s[n].1)->Ok_0;
        let ps = ps_p.push((MpData::Str(Some(s[n].0)), x));
        assert(ps.subrange(0, ps.len() - 1) =~= ps_p);
        assert forall|j: int| 0 <= j < p.len() implies p[j].0 != s[n].0 by {
            assert(p[j] == s[j]);
        }
        lemma_object_key_index(p, s[n].0, p.len() as int);
        assert(p.push((s[n].0, s[n].1)) =~= s);
    } else {
        assert(s =~= Seq::<(Seq<char>, JsonData)>::empty());
    }
}

/// A copy of a JSON number.
pub fn json_number_clone(n: &JsonNumber) -> (r: JsonNumber)
    ensures
        r == *n,
{
    match n {
        JsonNumber::PosInt(u) => JsonNumber::PosInt(*u),
        JsonNumber::NegInt(i) => JsonNumber::NegInt(*i),
        JsonNumber::Float(f) => JsonNumber::Float(f.clone()),
    }
}

/// A copy of a JSON value.
pub fn json_value_clone(v: &JsonValue) -> (r: JsonValue)
    ensures
        r@ == v@,
    decreases v,
{
    match v {
        JsonValue::Null => JsonValue::Null,
        JsonValue::Bool(b) => JsonValue::Bool(*b),
        JsonValue::Number(n) => JsonValue::Number(json_number_clone(n)),
        JsonValue::String(s) => JsonValue::String(s.clone()),
        JsonValue::Array(items) => {
            proof {
                assert(decreases_to!(v => items));
            }
            JsonValue::Array(json_values_clone(items))
        },
        JsonValue::Object(entries) => {
            proof {
                assert(decreases_to!(v => entries));
            }
            JsonValue::Object(json_entries_clone(entries))
        },
    }
}

/// A copy of a sequence of JSON values.
pub fn json_values_clone(items: &Vec<JsonValue>) -> (r: Vec<JsonValue>)
    ensures
        json_data_seq(r@) == json_data_seq(items@),
    decreases items,
{
    let mut out: Vec<JsonValue> = Vec::new();
    let mut i: usize = 0;
    while i < items.len()
        invariant
            i <= items@.len(),
            out@.len() == i,
            forall|j: int| 0 <= j < i ==> #[trigger] json_data(out@[j]) == json_data(items@[j]),
        decreases items@.len() - i,
    {
        proof {
            assert(decreases_to!(items => items@));
            assert(decreases_to!(items@ => items@[i as int]));
        }
        let c = json_value_clone(&items[i]);
        out.push(c);
        i = i + 1;
    }
    proof {
        lemma_json_data_seq_index(out@);
        lemma_json_data_seq_index(items@);
        assert(json_data_seq(out@) =~= json_data_seq(items@));
    }
    out
}

/// A copy of a JSON object's entries.
pub fn json_entries_clone(entries: &Vec<(String, JsonValue)>) -> (r: Vec<(String, JsonValue)>)
    ensures
        json_entries_data(r@) == json_entries_data(entries@),
    decreases entries,
{
    let mut out: Vec<(String, JsonValue)> = Vec::new();
    let mut i: usize = 0;
    while i < entries.len()
        invariant
            i <= entries@.len(),
            out@.len() == i,
            forall|j: int| 0 <= j < i ==> #[trigger] out@[j].0@ == entries@[j].0@ && json_data(out@[j].1) == json_data(entries@[j].1),
        decreases entries@.len() - i,
    {
        proof {
            assert(decreases_to!(entries => entries@));
            assert(decreases_to!(entries@ => entries@[i as int]));
            assert(decreases_to!(entries@[i as int] => entries@[i as int].1));
        }
        let k = entries[i].0.clone();
        let c = json_value_clone(&entries[i].1);
        out.push((k, c));
        i = i + 1;
    }
    proof {
        lemma_json_entries_data_index(out@);
        lemma_json_entries_data_index(entries@);
        assert(json_entries_data(out@) =~= json_entries_data(entries@));
    }
    out
}

impl Clone for JsonValue {
    fn clone(&self) -> (r: Self)
        ensures
            r@ == self@,
    {
        json_value_clone(self)
    }
}

} // verus!
