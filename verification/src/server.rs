//! Server-wide decisions: the negotiation answer, the metadata a new
//! connection carries, and the count of live connections that lets the
//! server drain on shutdown.

use vstd::prelude::*;
use crate::json::entry_lookup;
use crate::json::int_json;
use crate::json::lookup;
use crate::json::push_entry;
use crate::value::JsonData;
use crate::message::opt_string_view;
use crate::value::JsonNumber;
use crate::value::JsonValue;
use crate::value::json_entries_data;
use crate::value::lemma_json_entries_data_index;

verus! {

// ---------------------------------------------------------------------------
// Negotiation
// ---------------------------------------------------------------------------

/// A lowercase hexadecimal digit.
pub open spec fn is_lower_hex(c: char) -> bool {
    ('0' <= c <= '9') || ('a' <= c <= 'f')
}

/// The text of a random (version 4) UUID in hyphenated lowercase form.
pub open spec fn is_uuid_v4_text(t: Seq<char>) -> bool {
    &&& t.len() == 36
    &&& forall|i: int|
        0 <= i < 36 ==> if i == 8 || i == 13 || i == 18 || i == 23 {
            t[i] == '-'
        } else {
            is_lower_hex(#[trigger] t[i])
        }
    &&& t[14] == '4'
    &&& (t[19] == '8' || t[19] == '9' || t[19] == 'a' || t[19] == 'b')
}

/// A fresh connection token: `uuid::Uuid::new_v4` written with its
/// `Display` (hyphenated, lowercase). The UUID is random; what holds of
/// every outcome is its form, with the version digit 4 and the variant bits
/// of RFC 9562.
#[verifier::external_body]
fn new_connection_token() -> (r: String)
    ensures
        is_uuid_v4_text(r@),
{
    uuid::Uuid::new_v4().to_string()
}

/// The transports the server offers: WebSockets, in text and binary.
pub open spec fn transports_json() -> JsonData {
    JsonData::Array(
        seq![
            JsonData::Object(
                seq![
                    ("transport"@, JsonData::Str("WebSockets"@)),
                    ("transferFormats"@, JsonData::Array(seq![JsonData::Str("Text"@), JsonData::Str("Binary"@)])),
                ],
            ),
        ],
    )
}

/// The negotiation answer. Version 0 names the connection by
/// `connectionId` alone; any other version (1 when none is asked for)
/// gives both `connectionId` and `connectionToken` and says
/// `negotiateVersion` 1.
pub open spec fn spec_negotiate_response(negotiate_version: Option<i32>, token: Seq<char>) -> JsonData {
    if negotiate_version == Some(0i32) {
        JsonData::Object(
            seq![("connectionId"@, JsonData::Str(token)), ("availableTransports"@, transports_json())],
        )
    } else {
        JsonData::Object(
            seq![
                ("connectionId"@, JsonData::Str(token)),
                ("connectionToken"@, JsonData::Str(token)),
                ("negotiateVersion"@, int_json(1)),
                ("availableTransports"@, transports_json()),
            ],
        )
    }
}

fn transports_value() -> (r: JsonValue)
    ensures
        r@ == transports_json(),
{
    let mut formats: Vec<JsonValue> = Vec::new();
    formats.push(JsonValue::String(String::from_str("Text")));
    formats.push(JsonValue::String(String::from_str("Binary")));
    let ghost fv = formats@;
    proof {
        crate::value::lemma_json_data_seq_index(fv);
        assert(crate::value::json_data_seq(fv) =~= seq![JsonData::Str("Text"@), JsonData::Str("Binary"@)]);
    }
    let mut transport: Vec<(String, JsonValue)> = Vec::new();
    assert(json_entries_data(transport@) =~= Seq::<(Seq<char>, JsonData)>::empty());
    push_entry(&mut transport, "transport", JsonValue::String(String::from_str("WebSockets")));
    push_entry(&mut transport, "transferFormats", JsonValue::Array(formats));
    let ghost td = json_entries_data(transport@);
    assert(td =~= seq![
        ("transport"@, JsonData::Str("WebSockets"@)),
        ("transferFormats"@, JsonData::Array(seq![JsonData::Str("Text"@), JsonData::Str("Binary"@)])),
    ]);
    let t = JsonValue::Object(transport);
    assert(t@ == JsonData::Object(td));
    let mut all: Vec<JsonValue> = Vec::new();
    all.push(t);
    proof {
        crate::value::lemma_json_data_seq_index(all@);
        assert(crate::value::json_data_seq(all@) =~= seq![JsonData::Object(td)]);
    }
    JsonValue::Array(all)
}

/// The negotiation answer for a given connection token.
pub fn negotiate_response(negotiate_version: Option<i32>, connection_token: String) -> (r: JsonValue)
    ensures
        r@ == spec_negotiate_response(negotiate_version, connection_token@),
{
    let mut e: Vec<(String, JsonValue)> = Vec::new();
    assert(json_entries_data(e@) =~= Seq::<(Seq<char>, JsonData)>::empty());
    let version_zero = match negotiate_version {
        Some(v) => v == 0,
        None => false,
    };
    let ghost token = connection_token@;
    let tr = transports_value();
    if version_zero {
        push_entry(&mut e, "connectionId", JsonValue::String(connection_token));
        push_entry(&mut e, "availableTransports", tr);
        assert(json_entries_data(e@) =~= seq![("connectionId"@, JsonData::Str(token)), ("availableTransports"@, transports_json())]);
    } else {
        push_entry(&mut e, "connectionId", JsonValue::String(connection_token.clone()));
        push_entry(&mut e, "connectionToken", JsonValue::String(connection_token));
        push_entry(&mut e, "negotiateVersion", JsonValue::Number(JsonNumber::PosInt(1)));
        push_entry(&mut e, "availableTransports", tr);
        assert(json_entries_data(e@) =~= seq![
            ("connectionId"@, JsonData::Str(token)),
            ("connectionToken"@, JsonData::Str(token)),
            ("negotiateVersion"@, int_json(1)),
            ("availableTransports"@, transports_json()),
        ]);
    }
    JsonValue::Object(e)
}

/// Negotiation: a fresh random connection token, and the answer for the
/// version the client asked for.
pub fn negotiate(negotiate_version: Option<i32>) -> (r: JsonValue)
    ensures
        exists|token: Seq<char>| is_uuid_v4_text(token) && r@ == spec_negotiate_response(negotiate_version, token),
{
    let token = new_connection_token();
    let ghost t = token@;
    let r = negotiate_response(negotiate_version, token);
    assert(is_uuid_v4_text(t) && r@ == spec_negotiate_response(negotiate_version, t));
    r
}

// ---------------------------------------------------------------------------
// Connection metadata
// ---------------------------------------------------------------------------

/// The query parameters of an upgrade request, as text pairs.
pub open spec fn query_view(query: Seq<(String, String)>) -> Seq<(Seq<char>, Seq<char>)> {
    query.map_values(|p: (String, String)| (p.0@, p.1@))
}

/// The query parameters as JSON object entries.
pub open spec fn query_entries(q: Seq<(Seq<char>, Seq<char>)>) -> Seq<(Seq<char>, JsonData)> {
    q.map_values(|p: (Seq<char>, Seq<char>)| (p.0, JsonData::Str(p.1)))
}

/// The value of the first query parameter named `key`.
pub open spec fn query_get(q: Seq<(Seq<char>, Seq<char>)>, key: Seq<char>) -> Option<Seq<char>> {
    match entry_lookup(query_entries(q), key) {
        Some(JsonData::Str(v)) => Some(v),
        _ => None,
    }
}

/// The access token a client passes: `access_token`, else `token`.
pub open spec fn access_token_of(q: Seq<(Seq<char>, Seq<char>)>) -> Option<Seq<char>> {
    match query_get(q, "access_token"@) {
        Some(t) => Some(t),
        None => query_get(q, "token"@),
    }
}

/// The metadata a new connection carries: its query parameters, and the
/// access token (or `null`).
pub open spec fn spec_connection_metadata(q: Seq<(Seq<char>, Seq<char>)>) -> JsonData {
    JsonData::Object(
        seq![
            ("query"@, JsonData::Object(query_entries(q))),
            (
                "access_token"@,
                match access_token_of(q) {
                    Some(t) => JsonData::Str(t),
                    None => JsonData::Null,
                },
            ),
        ],
    )
}

fn query_value_of(entries: &Vec<(String, JsonValue)>, key: &str) -> (r: Option<String>)
    requires
        forall|i: int| 0 <= i < entries@.len() ==> (#[trigger] entries@[i]).1 is String,
    ensures
        opt_string_view(r) == (match entry_lookup(json_entries_data(entries@), key@) {
            Some(JsonData::Str(v)) => Some(v),
            _ => None,
        }),
{
    proof {
        lemma_json_entries_data_index(entries@);
    }
    match lookup(entries, key) {
        Some(JsonValue::String(v)) => Some(v.clone()),
        _ => None,
    }
}

/// The metadata for a new connection, from its query parameters (given in
/// the order the request's map yields them).
pub fn connection_metadata(query: &Vec<(String, String)>) -> (r: JsonValue)
    ensures
        r@ == spec_connection_metadata(query_view(query@)),
{
    let ghost q = query_view(query@);
    let mut qe: Vec<(String, JsonValue)> = Vec::new();
    let mut i: usize = 0;
    while i < query.len()
        invariant
            i <= query@.len(),
            q == query_view(query@),
            qe@.len() == i,
            forall|j: int| 0 <= j < i ==> (#[trigger] qe@[j]).0@ == query@[j].0@ && qe@[j].1 == JsonValue::String(query@[j].1),
        decreases query@.len() - i,
    {
        qe.push((query[i].0.clone(), JsonValue::String(query[i].1.clone())));
        i = i + 1;
    }
    proof {
        lemma_json_entries_data_index(qe@);
        assert(json_entries_data(qe@) =~= query_entries(q));
    }
    let token = match query_value_of(&qe, "access_token") {
        Some(t) => Some(t),
        None => query_value_of(&qe, "token"),
    };
    assert(opt_string_view(token) == access_token_of(q));
    let token_value = match token {
        Some(t) => JsonValue::String(t),
        None => JsonValue::Null,
    };
    let mut e: Vec<(String, JsonValue)> = Vec::new();
    assert(json_entries_data(e@) =~= Seq::<(Seq<char>, JsonData)>::empty());
    let ghost qd = json_entries_data(qe@);
    push_entry(&mut e, "query", JsonValue::Object(qe));
    let ghost tv = token_value@;
    push_entry(&mut e, "access_token", token_value);
    assert(json_entries_data(e@) =~= seq![
        ("query"@, JsonData::Object(query_entries(q))),
        ("access_token"@, match access_token_of(q) {
            Some(t) => JsonData::Str(t),
            None => JsonData::Null,
        }),
    ]);
    JsonValue::Object(e)
}

// ---------------------------------------------------------------------------
// Live connections
// ---------------------------------------------------------------------------

/// The server's count of live connections, and whether it is draining
/// (refusing new ones) on its way to shutting down.
pub struct ConnectionTracker {
    draining: bool,
    active: usize,
}

/// Registering a connection: refused while draining (or when the count is
/// full); otherwise the count goes up by one.
pub open spec fn spec_register(s: (bool, nat)) -> Option<(bool, nat)> {
    if s.0 || s.1 >= usize::MAX {
        None
    } else {
        Some((s.0, s.1 + 1))
    }
}

/// Releasing a connection: the count goes down by one.
pub open spec fn spec_release(s: (bool, nat)) -> (bool, nat) {
    (s.0, (s.1 - 1) as nat)
}

impl View for ConnectionTracker {
    type V = (bool, nat);

    closed spec fn view(&self) -> (bool, nat) {
        (self.draining, self.active as nat)
    }
}

impl ConnectionTracker {
    /// A tracker with no connections, accepting new ones.
    pub fn new() -> (r: Self)
        ensures
            r@ == (false, 0nat),
    {
        ConnectionTracker { draining: false, active: 0 }
    }

    /// Whether the server is draining.
    pub fn is_draining(&self) -> (r: bool)
        ensures
            r == self@.0,
    {
        self.draining
    }

    /// How many connections are live.
    pub fn active_connections(&self) -> (r: usize)
        ensures
            r == self@.1,
    {
        self.active
    }

    /// Registers a new connection, unless the server is draining.
    pub fn try_register(&mut self) -> (r: bool)
        ensures
            r == spec_register(old(self)@) is Some,
            r ==> final(self)@ == spec_register(old(self)@).unwrap(),
            !r ==> final(self)@ == old(self)@,
            !old(self)@.0 && old(self)@.1 < usize::MAX ==> r && final(self)@ == (false, old(self)@.1 + 1),
            old(self)@.0 ==> !r,
    {
        if self.draining || self.active == usize::MAX {
            false
        } else {
            self.active = self.active + 1;
            true
        }
    }

    /// Releases a connection; tells whether none is left.
    pub fn release(&mut self) -> (drained: bool)
        requires
            old(self)@.1 > 0,
        ensures
            final(self)@ == spec_release(old(self)@),
            drained == (final(self)@.1 == 0),
    {
        self.active = self.active - 1;
        self.active == 0
    }

    /// Starts draining; tells whether no connection is live.
    pub fn begin_shutdown(&mut self) -> (drained: bool)
        ensures
            final(self)@ == (true, old(self)@.1),
            drained == (old(self)@.1 == 0),
    {
        self.draining = true;
        self.active == 0
    }
}

/// Once the server drains, no connection can register.
pub proof fn law_draining_refuses(s: (bool, nat))
    requires
        s.0,
    ensures
        spec_register(s) is None,
{
}

/// While the server is not draining, registering always succeeds (short of
/// the counter's own limit) and counts exactly one more connection: there is
/// no cap on live connections.
pub proof fn law_register_while_open(s: (bool, nat))
    requires
        !s.0,
        s.1 < usize::MAX,
    ensures
        spec_register(s) == Some((false, s.1 + 1)),
{
}

/// Releasing a connection that was just registered gives the count back.
pub proof fn law_register_then_release(s: (bool, nat))
    requires
        spec_register(s) is Some,
    ensures
        spec_release(spec_register(s).unwrap()) == s,
{
}

} // verus!
