//! The laws the membership core upholds, stated over the store's model
//! and proved once for all states.

use vstd::prelude::*;

use crate::domain::Id;
use crate::models::QueueEntryDao;
use crate::ordering::{max_rank_of, next_rank};
use crate::store::{
    has_member, join_entry, lemma_member_count, lemma_remove_member_len,
    lemma_remove_member_unique, lemma_unique_members_push, member_count, remove_member,
    unique_members, MembershipStore,
};

verus! {

/// Uniqueness: a well-formed store holds at most one member entry for any
/// (queue, user) pair. Every store operation ends in a well-formed store,
/// so this holds after any sequence of joins and leaves.
pub proof fn lemma_member_uniqueness(store: MembershipStore, queue_id: Id, user_id: Id)
    requires
        store.wf(),
    ensures
        member_count(store.entries_seq(), queue_id, user_id) <= 1,
{
    lemma_member_count(store.entries_seq(), queue_id, user_id);
}

/// Rank monotonicity under serialized joins: the rank a join to a queue
/// commits exceeds every rank the queue held, and once that entry stands,
/// the rank the next join receives grows strictly past it.
pub proof fn lemma_rank_monotonic(
    s: Seq<QueueEntryDao>,
    queue_id: Id,
    user_id: Id,
    joined_at: i64,
)
    requires
        (max_rank_of(s, queue_id) matches Option::Some(m) ==> m < i32::MAX),
    ensures
        forall|i: int|
            0 <= i < s.len() && (#[trigger] s[i]).queue_id == queue_id ==> s[i].order < next_rank(
                s,
                queue_id,
            ),
        next_rank(
            s.push(join_entry(queue_id, user_id, next_rank(s, queue_id) as i32, joined_at)),
            queue_id,
        ) == next_rank(s, queue_id) + 1,
{
    crate::ordering::lemma_next_rank_exceeds(s, queue_id);
    let r = next_rank(s, queue_id) as i32;
    let s2 = s.push(join_entry(queue_id, user_id, r, joined_at));
    assert(s2.drop_last() =~= s);
    assert(s2.last() == join_entry(queue_id, user_id, r, joined_at));
    crate::ordering::lemma_max_rank_of(s, queue_id);
}

/// Idempotent leave: once the entry for a pair is removed, the pair is no
/// member, and removing it again changes nothing.
pub proof fn lemma_leave_idempotent(s: Seq<QueueEntryDao>, queue_id: Id, user_id: Id)
    requires
        unique_members(s),
    ensures
        !has_member(remove_member(s, queue_id, user_id), queue_id, user_id),
        remove_member(remove_member(s, queue_id, user_id), queue_id, user_id) == remove_member(
            s,
            queue_id,
            user_id,
        ),
{
    broadcast use vstd::seq_lib::group_filter_ensures;

    let r = remove_member(s, queue_id, user_id);
    assert(!has_member(r, queue_id, user_id)) by {
        if has_member(r, queue_id, user_id) {
            let i = choose|i: int|
                0 <= i < r.len() && crate::store::is_member_entry(
                    #[trigger] r[i],
                    queue_id,
                    user_id,
                );
        }
    }
    lemma_remove_member_unique(s, queue_id, user_id);
    lemma_remove_member_len(r, queue_id, user_id);
}

/// Duplicate join rejected: a successful join leaves the pair a member
/// with exactly one entry, and a second join without an intervening leave
/// finds the pair a member, which the join operation refuses.
pub proof fn lemma_duplicate_join_rejected(
    s: Seq<QueueEntryDao>,
    queue_id: Id,
    user_id: Id,
    order: i32,
    joined_at: i64,
)
    requires
        unique_members(s),
        !has_member(s, queue_id, user_id),
    ensures
        has_member(s.push(join_entry(queue_id, user_id, order, joined_at)), queue_id, user_id),
        unique_members(s.push(join_entry(queue_id, user_id, order, joined_at))),
        member_count(
            s.push(join_entry(queue_id, user_id, order, joined_at)),
            queue_id,
            user_id,
        ) == 1,
{
    let e = join_entry(queue_id, user_id, order, joined_at);
    let s2 = s.push(e);
    assert(crate::store::is_member_entry(s2[s2.len() - 1], queue_id, user_id));
    lemma_unique_members_push(s, e);
    lemma_member_count(s2, queue_id, user_id);
}

} // verus!
