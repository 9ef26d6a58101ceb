//! The stored records: users, queues, and queue member entries.

use vstd::prelude::*;

use crate::domain::{Id, MemberInfo, QueueInfo, UserInfo};

verus! {

/// How long a new queue stays active: two years of seconds.
pub const QUEUE_LIFETIME_SECS: i64 = 730 * 86400;

/// A stored user record.
#[derive(Debug)]
pub struct UserDao {
    pub id: Id,
    pub name: String,
    pub email: String,
    pub pwhash: String,
}

/// A stored queue record. Immutable after creation except deletion.
#[derive(Debug)]
pub struct QueueDao {
    pub id: Id,
    pub name: String,
    pub description: String,
    pub organizer_id: Id,
    pub created_at: i64,
    pub exists_before: i64,
}

/// A stored member entry: the record of one user's place in one queue.
///
/// At most one entry exists per (queue_id, user_id) pair; `order` is the
/// rank used for relative ordering within the queue.
#[derive(Clone, Copy, PartialEq, Eq, Structural, Debug)]
pub struct QueueEntryDao {
    pub queue_id: Id,
    pub user_id: Id,
    pub order: i32,
    pub has_priority: bool,
    pub is_held: bool,
    pub joined_at: i64,
}

impl Clone for QueueDao {
    fn clone(&self) -> (res: Self)
        ensures
            res == *self,
    {
        QueueDao {
            id: self.id,
            name: self.name.clone(),
            description: self.description.clone(),
            organizer_id: self.organizer_id,
            created_at: self.created_at,
            exists_before: self.exists_before,
        }
    }
}

/// The public projection of a user record.
pub open spec fn user_info_of(u: UserDao) -> UserInfo {
    UserInfo { id: u.id, name: u.name }
}

/// The public projection of a queue record.
pub open spec fn queue_info_of(q: QueueDao) -> QueueInfo {
    QueueInfo {
        id: q.id,
        name: q.name,
        description: q.description,
        organizer_id: q.organizer_id,
        created_at: q.created_at,
        exists_before: q.exists_before,
    }
}

impl UserDao {
    /// The public projection of a user record: identity and name, without
    /// the credentials.
    pub fn to_info(&self) -> (r: UserInfo)
        ensures
            r == user_info_of(*self),
    {
        UserInfo { id: self.id, name: self.name.clone() }
    }
}

impl QueueDao {
    /// The public projection of a queue record.
    pub fn to_info(&self) -> (r: QueueInfo)
        ensures
            r == queue_info_of(*self),
    {
        QueueInfo {
            id: self.id,
            name: self.name.clone(),
            description: self.description.clone(),
            organizer_id: self.organizer_id,
            created_at: self.created_at,
            exists_before: self.exists_before,
        }
    }
}

/// The listing projection of a sequence of member entries, element for
/// element.
pub fn member_infos_of(entries: &Vec<QueueEntryDao>) -> (r: Vec<MemberInfo>)
    ensures
        r@.len() == entries@.len(),
        forall|i: int| 0 <= i < entries@.len() ==> #[trigger] r@[i] == member_info_of(entries@[i]),
{
    let mut out: Vec<MemberInfo> = Vec::new();
    let mut i: usize = 0;
    while i < entries.len()
        invariant
            i <= entries@.len(),
            out@.len() == i,
            forall|k: int| 0 <= k < i ==> #[trigger] out@[k] == member_info_of(entries@[k]),
        decreases entries@.len() - i,
    {
        out.push(entries[i].to_member_info());
        i = i + 1;
    }
    out
}

/// The public projection of a sequence of queue records, element for
/// element.
pub fn queue_infos_of(queues: &Vec<QueueDao>) -> (r: Vec<QueueInfo>)
    ensures
        r@.len() == queues@.len(),
        forall|i: int| 0 <= i < queues@.len() ==> #[trigger] r@[i] == queue_info_of(queues@[i]),
{
    let mut out: Vec<QueueInfo> = Vec::new();
    let mut i: usize = 0;
    while i < queues.len()
        invariant
            i <= queues@.len(),
            out@.len() == i,
            forall|k: int| 0 <= k < i ==> #[trigger] out@[k] == queue_info_of(queues@[k]),
        decreases queues@.len() - i,
    {
        out.push(queues[i].to_info());
        i = i + 1;
    }
    out
}

impl QueueEntryDao {
    /// The listing projection of a member entry: the queue id is implied by
    /// the listing, everything else is carried over.
    pub fn to_member_info(&self) -> (r: MemberInfo)
        ensures
            r == member_info_of(*self),
    {
        MemberInfo {
            id: self.user_id,
            order: self.order,
            has_priority: self.has_priority,
            is_held: self.is_held,
            joined_at: self.joined_at,
        }
    }
}

/// What a member entry looks like in a listing.
pub open spec fn member_info_of(e: QueueEntryDao) -> MemberInfo {
    MemberInfo {
        id: e.user_id,
        order: e.order,
        has_priority: e.has_priority,
        is_held: e.is_held,
        joined_at: e.joined_at,
    }
}

/// Builds a queue record owned by `organizer_id`, created at `now` and
/// expiring a fixed lifetime later.
pub fn make_queue(
    id: Id,
    name: String,
    description: String,
    organizer_id: Id,
    now: i64,
) -> (q: QueueDao)
    requires
        now + QUEUE_LIFETIME_SECS <= i64::MAX,
    ensures
        q.id == id,
        q.name@ == name@,
        q.description@ == description@,
        q.organizer_id == organizer_id,
        q.created_at == now,
        q.exists_before == now + QUEUE_LIFETIME_SECS,
{
    QueueDao {
        id,
        name,
        description,
        organizer_id,
        created_at: now,
        exists_before: now + QUEUE_LIFETIME_SECS,
    }
}

/// Builds the queue record a creation request commits: a fresh identifier
/// and the current time. `None` only when the clock stands so late that
/// the expiry would not fit.
pub fn create_queue(organizer_id: Id, name: String, description: String) -> (r: Option<QueueDao>)
    ensures
        (r matches Option::Some(q) ==> q.name@ == name@ && q.description@ == description@
            && q.organizer_id == organizer_id && q.exists_before == q.created_at
            + QUEUE_LIFETIME_SECS),
{
    let id = crate::domain::fresh_id();
    let now = crate::clock::now_timestamp();
    if now <= i64::MAX - QUEUE_LIFETIME_SECS {
        Some(make_queue(id, name, description, organizer_id, now))
    } else {
        None
    }
}

} // verus!
