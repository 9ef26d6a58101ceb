//! Identifiers and the presentation records handed back to callers.

use vstd::prelude::*;

verus! {

/// An opaque 128-bit identifier (the width of a UUID).
pub type Id = u128;

/// Relies on uuid's `Uuid::new_v4`: a freshly generated version-4 UUID,
/// carried as its 128-bit value. Random, so nothing is promised of it.
#[verifier::external_body]
pub(crate) fn fresh_id() -> Id {
    uuid::Uuid::new_v4().as_u128()
}

/// A user identifier.
#[derive(Clone, Copy, PartialEq, Eq, Structural, Debug)]
pub struct UserId(pub Id);

/// A queue identifier.
#[derive(Clone, Copy, PartialEq, Eq, Structural, Debug)]
pub struct QueueId(pub Id);

/// A registered user, as the account layer sees one.
#[allow(dead_code)]
#[derive(Debug)]
pub struct User {
    id: UserId,
    name: String,
    email: String,
    pwhash: String,
}

/// The public face of a user: identity and display name only.
#[derive(Debug)]
pub struct UserInfo {
    pub id: Id,
    pub name: String,
}

/// One member of a queue, as a listing presents it.
#[derive(Clone, Copy, PartialEq, Eq, Structural, Debug)]
pub struct MemberInfo {
    pub id: Id,
    pub order: i32,
    pub has_priority: bool,
    pub is_held: bool,
    pub joined_at: i64,
}

/// The public description of a queue.
#[derive(Debug)]
pub struct QueueInfo {
    pub id: Id,
    pub name: String,
    pub description: String,
    pub organizer_id: Id,
    pub created_at: i64,
    pub exists_before: i64,
}

} // verus!
