//! Connection identifiers: random (version 4) UUIDs.

use vstd::prelude::*;
use crate::server::is_uuid_v4_text;

verus! {

#[verifier::external_type_specification]
#[verifier::external_body]
pub struct ExUuid(uuid::Uuid);

/// The hyphenated lowercase text `uuid::Uuid`'s `Display` writes for a UUID
/// (a function of the UUID alone).
pub uninterp spec fn uuid_text(u: uuid::Uuid) -> Seq<char>;

/// A random UUID from `uuid::Uuid::new_v4`. Nothing is known of its bits
/// but the version (4) and the RFC 9562 variant, which its text shows.
#[verifier::external_body]
fn new_v4_uuid() -> (r: uuid::Uuid)
    ensures
        is_uuid_v4_text(uuid_text(r)),
{
    uuid::Uuid::new_v4()
}

/// Writes a UUID with its `Display` (hyphenated, lowercase).
#[verifier::external_body]
fn display_uuid(u: &uuid::Uuid) -> (r: String)
    ensures
        r@ == uuid_text(*u),
{
    u.to_string()
}

/// Unique identifier for a SignalR connection.
#[derive(Debug, Clone, Copy, PartialEq, Eq, Hash)]
pub struct ConnectionId(uuid::Uuid);

impl View for ConnectionId {
    type V = Seq<char>;

    /// The identifier's text.
    closed spec fn view(&self) -> Seq<char> {
        uuid_text(self.0)
    }
}

impl ConnectionId {
    /// Creates a new random connection ID.
    pub fn new() -> (r: Self)
        ensures
            is_uuid_v4_text(r@),
    {
        ConnectionId(new_v4_uuid())
    }

    /// Returns the underlying UUID value.
    pub fn as_uuid(&self) -> (r: &uuid::Uuid)
        ensures
            uuid_text(*r) == self@,
    {
        &self.0
    }

    /// The identifier's text: the UUID, hyphenated, in lowercase.
    pub fn to_string(&self) -> (r: String)
        ensures
            r@ == self@,
    {
        display_uuid(&self.0)
    }
}

impl Default for ConnectionId {
    fn default() -> (r: Self)
        ensures
            is_uuid_v4_text(r@),
    {
        ConnectionId::new()
    }
}

} // verus!
