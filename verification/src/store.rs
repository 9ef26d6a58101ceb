//! The membership store: the per-queue set of member entries and the queue
//! records, with the atomic operations the ordering engine requires of
//! durable storage — append with computed rank, remove, read all ranked.
//!
//! This is an in-memory realization of that contract; it owns the
//! "read max rank, then insert" step as one unit, so two serialized joins
//! can never commit the same rank.

use vstd::prelude::*;

use crate::domain::Id;
use crate::models::{QueueDao, QueueEntryDao};
use crate::ordering::{
    compute_join_rank, entries_sorted, max_rank_of, next_rank, order_entries,
};

verus! {

/// The error taxonomy of the core: a missing queue or member, a duplicate
/// join, or a transient storage failure (only adapters over a fallible
/// store report the latter).
#[derive(Clone, Copy, PartialEq, Eq, Structural, Debug)]
pub enum StoreError {
    NotFound,
    Conflict,
    StorageUnavailable,
}

/// Does entry `e` record user `user_id` as a member of queue `queue_id`?
pub open spec fn is_member_entry(e: QueueEntryDao, queue_id: Id, user_id: Id) -> bool {
    e.queue_id == queue_id && e.user_id == user_id
}

/// Does some entry of `s` record (queue_id, user_id)?
pub open spec fn has_member(s: Seq<QueueEntryDao>, queue_id: Id, user_id: Id) -> bool {
    exists|i: int| 0 <= i < s.len() && is_member_entry(#[trigger] s[i], queue_id, user_id)
}

/// No two entries of `s` share a (queue id, user id) pair.
pub open spec fn unique_members(s: Seq<QueueEntryDao>) -> bool {
    forall|i: int, j: int|
        #![trigger s[i], s[j]]
        0 <= i < j < s.len() ==> !(s[i].queue_id == s[j].queue_id && s[i].user_id
            == s[j].user_id)
}

/// The entries of `s` that belong to queue `queue_id`, in stored order.
pub open spec fn entries_of(s: Seq<QueueEntryDao>, queue_id: Id) -> Seq<QueueEntryDao> {
    s.filter(|e: QueueEntryDao| e.queue_id == queue_id)
}

/// `s` without the entry for (queue_id, user_id).
pub open spec fn remove_member(s: Seq<QueueEntryDao>, queue_id: Id, user_id: Id) -> Seq<
    QueueEntryDao,
> {
    s.filter(|e: QueueEntryDao| !is_member_entry(e, queue_id, user_id))
}

/// The entries of `s` that record (queue_id, user_id).
pub open spec fn member_entries(s: Seq<QueueEntryDao>, queue_id: Id, user_id: Id) -> Seq<
    QueueEntryDao,
> {
    s.filter(|e: QueueEntryDao| is_member_entry(e, queue_id, user_id))
}

/// How many entries of `s` record (queue_id, user_id).
pub open spec fn member_count(s: Seq<QueueEntryDao>, queue_id: Id, user_id: Id) -> nat {
    member_entries(s, queue_id, user_id).len()
}

/// The entry a successful join commits: the computed rank, both status
/// flags clear, and the join time.
pub open spec fn join_entry(queue_id: Id, user_id: Id, order: i32, joined_at: i64) -> QueueEntryDao {
    QueueEntryDao {
        queue_id,
        user_id,
        order,
        has_priority: false,
        is_held: false,
        joined_at,
    }
}

/// Is some queue of `qs` identified by `queue_id`?
pub open spec fn has_queue(qs: Seq<QueueDao>, queue_id: Id) -> bool {
    exists|i: int| 0 <= i < qs.len() && (#[trigger] qs[i]).id == queue_id
}

/// No two queues of `qs` share an id.
pub open spec fn unique_queue_ids(qs: Seq<QueueDao>) -> bool {
    forall|i: int, j: int|
        #![trigger qs[i], qs[j]]
        0 <= i < j < qs.len() ==> qs[i].id != qs[j].id
}

/// The first queue of `qs` with the given id, if any.
pub open spec fn find_queue(qs: Seq<QueueDao>, queue_id: Id) -> Option<QueueDao>
    decreases qs.len(),
{
    if qs.len() == 0 {
        Option::None
    } else if qs[0].id == queue_id {
        Option::Some(qs[0])
    } else {
        find_queue(qs.drop_first(), queue_id)
    }
}

/// `qs` without the queue identified by `queue_id`.
pub open spec fn remove_queue(qs: Seq<QueueDao>, queue_id: Id) -> Seq<QueueDao> {
    qs.filter(|q: QueueDao| q.id != queue_id)
}

/// Unfolds `entries_of` over a push.
pub proof fn lemma_entries_of_push(s: Seq<QueueEntryDao>, queue_id: Id, e: QueueEntryDao)
    ensures
        entries_of(s.push(e), queue_id) == if e.queue_id == queue_id {
            entries_of(s, queue_id).push(e)
        } else {
            entries_of(s, queue_id)
        },
{
    reveal(Seq::filter);
    assert(s.push(e).drop_last() =~= s);
    assert(s.push(e).last() == e);
}

/// Unfolds `remove_member` over a push.
pub proof fn lemma_remove_member_push(
    s: Seq<QueueEntryDao>,
    queue_id: Id,
    user_id: Id,
    e: QueueEntryDao,
)
    ensures
        remove_member(s.push(e), queue_id, user_id) == if !is_member_entry(e, queue_id, user_id) {
            remove_member(s, queue_id, user_id).push(e)
        } else {
            remove_member(s, queue_id, user_id)
        },
{
    reveal(Seq::filter);
    assert(s.push(e).drop_last() =~= s);
    assert(s.push(e).last() == e);
}

/// Unfolds `remove_queue` over a push.
pub proof fn lemma_remove_queue_push(qs: Seq<QueueDao>, queue_id: Id, q: QueueDao)
    ensures
        remove_queue(qs.push(q), queue_id) == if q.id != queue_id {
            remove_queue(qs, queue_id).push(q)
        } else {
            remove_queue(qs, queue_id)
        },
{
    reveal(Seq::filter);
    assert(qs.push(q).drop_last() =~= qs);
    assert(qs.push(q).last() == q);
}

/// Restricting a sequence without a (queue, user) member leaves it as it
/// was; with one, under uniqueness, it drops exactly that one entry.
pub proof fn lemma_remove_member_len(s: Seq<QueueEntryDao>, queue_id: Id, user_id: Id)
    requires
        unique_members(s),
    ensures
        !has_member(s, queue_id, user_id) ==> remove_member(s, queue_id, user_id) == s,
        has_member(s, queue_id, user_id) ==> remove_member(s, queue_id, user_id).len() == s.len()
            - 1,
    decreases s.len(),
{
    reveal(Seq::filter);
    if s.len() > 0 {
        let prefix = s.drop_last();
        let e = s.last();
        assert(prefix.push(e) =~= s);
        assert(unique_members(prefix)) by {
            assert forall|i: int, j: int|
                #![trigger prefix[i], prefix[j]]
                0 <= i < j < prefix.len() implies !(prefix[i].queue_id == prefix[j].queue_id
                && prefix[i].user_id == prefix[j].user_id) by {
                assert(prefix[i] == s[i] && prefix[j] == s[j]);
            }
        }
        lemma_remove_member_len(prefix, queue_id, user_id);
        if is_member_entry(e, queue_id, user_id) {
            assert(has_member(s, queue_id, user_id)) by {
                assert(is_member_entry(s[s.len() - 1], queue_id, user_id));
            }
            assert(!has_member(prefix, queue_id, user_id)) by {
                if has_member(prefix, queue_id, user_id) {
                    let i = choose|i: int|
                        0 <= i < prefix.len() && is_member_entry(
                            #[trigger] prefix[i],
                            queue_id,
                            user_id,
                        );
                    assert(s[i] == prefix[i]);
                    assert(!(s[i].queue_id == s[s.len() - 1].queue_id && s[i].user_id == s[s.len()
                        - 1].user_id));
                }
            }
        } else {
            if has_member(s, queue_id, user_id) {
                let i = choose|i: int|
                    0 <= i < s.len() && is_member_entry(#[trigger] s[i], queue_id, user_id);
                assert(i < s.len() - 1);
                assert(prefix[i] == s[i]);
                assert(has_member(prefix, queue_id, user_id));
            } else {
                assert(!has_member(prefix, queue_id, user_id)) by {
                    if has_member(prefix, queue_id, user_id) {
                        let i = choose|i: int|
                            0 <= i < prefix.len() && is_member_entry(
                                #[trigger] prefix[i],
                                queue_id,
                                user_id,
                            );
                        assert(is_member_entry(s[i], queue_id, user_id));
                    }
                }
                assert(remove_member(s, queue_id, user_id) =~= s);
            }
        }
    }
}

/// A sequence of entries without duplicate members holds at most one entry
/// for any (queue, user) pair; exactly one when the pair is a member.
pub proof fn lemma_member_count(s: Seq<QueueEntryDao>, queue_id: Id, user_id: Id)
    requires
        unique_members(s),
    ensures
        member_count(s, queue_id, user_id) == if has_member(s, queue_id, user_id) {
            1nat
        } else {
            0nat
        },
    decreases s.len(),
{
    reveal(Seq::filter);
    if s.len() == 0 {
    } else {
        let prefix = s.drop_last();
        let e = s.last();
        assert(unique_members(prefix)) by {
            assert forall|i: int, j: int|
                #![trigger prefix[i], prefix[j]]
                0 <= i < j < prefix.len() implies !(prefix[i].queue_id == prefix[j].queue_id
                && prefix[i].user_id == prefix[j].user_id) by {
                assert(prefix[i] == s[i] && prefix[j] == s[j]);
            }
        }
        lemma_member_count(prefix, queue_id, user_id);
        if is_member_entry(e, queue_id, user_id) {
            assert(is_member_entry(s[s.len() - 1], queue_id, user_id));
            assert(!has_member(prefix, queue_id, user_id)) by {
                if has_member(prefix, queue_id, user_id) {
                    let i = choose|i: int|
                        0 <= i < prefix.len() && is_member_entry(
                            #[trigger] prefix[i],
                            queue_id,
                            user_id,
                        );
                    assert(s[i] == prefix[i]);
                    assert(!(s[i].queue_id == s[s.len() - 1].queue_id && s[i].user_id == s[s.len()
                        - 1].user_id));
                }
            }
        } else {
            if has_member(s, queue_id, user_id) {
                let i = choose|i: int|
                    0 <= i < s.len() && is_member_entry(#[trigger] s[i], queue_id, user_id);
                assert(i < s.len() - 1);
                assert(prefix[i] == s[i]);
                assert(has_member(prefix, queue_id, user_id));
            } else {
                assert(!has_member(prefix, queue_id, user_id)) by {
                    if has_member(prefix, queue_id, user_id) {
                        let i = choose|i: int|
                            0 <= i < prefix.len() && is_member_entry(
                                #[trigger] prefix[i],
                                queue_id,
                                user_id,
                            );
                        assert(is_member_entry(s[i], queue_id, user_id));
                    }
                }
            }
        }
    }
}

/// The queue records and member entries, with the operations the engine
/// requires storage to perform atomically.
pub struct MembershipStore {
    queues: Vec<QueueDao>,
    entries: Vec<QueueEntryDao>,
}

impl MembershipStore {
    /// The stored queue records, in creation order.
    pub closed spec fn queues_seq(self) -> Seq<QueueDao> {
        self.queues@
    }

    /// The stored member entries, in commit order.
    pub closed spec fn entries_seq(self) -> Seq<QueueEntryDao> {
        self.entries@
    }

    /// The store's invariant: queue ids are unique, and at most one entry
    /// exists per (queue id, user id) pair.
    pub open spec fn wf(self) -> bool {
        unique_queue_ids(self.queues_seq()) && unique_members(self.entries_seq())
    }

    /// An empty store.
    pub fn new() -> (s: Self)
        ensures
            s.wf(),
            s.queues_seq() == Seq::<QueueDao>::empty(),
            s.entries_seq() == Seq::<QueueEntryDao>::empty(),
    {
        MembershipStore { queues: Vec::new(), entries: Vec::new() }
    }

    /// Does a queue with this id exist?
    pub fn contains_queue(&self, queue_id: Id) -> (r: bool)
        ensures
            r == has_queue(self.queues_seq(), queue_id),
    {
        let mut i: usize = 0;
        while i < self.queues.len()
            invariant
                i <= self.queues@.len(),
                forall|k: int| 0 <= k < i ==> (#[trigger] self.queues@[k]).id != queue_id,
            decreases self.queues@.len() - i,
        {
            if self.queues[i].id == queue_id {
                return true;
            }
            i = i + 1;
        }
        false
    }

    /// Looks a queue up by id.
    pub fn queue_by_id(&self, queue_id: Id) -> (r: Option<QueueDao>)
        ensures
            r == find_queue(self.queues_seq(), queue_id),
    {
        let mut i: usize = 0;
        proof {
            assert(self.queues@.skip(0) =~= self.queues@);
        }
        while i < self.queues.len()
            invariant
                i <= self.queues@.len(),
                find_queue(self.queues@, queue_id) == find_queue(
                    self.queues@.skip(i as int),
                    queue_id,
                ),
            decreases self.queues@.len() - i,
        {
            proof {
                assert(self.queues@.skip(i as int)[0] == self.queues@[i as int]);
                assert(self.queues@.skip(i as int).drop_first() =~= self.queues@.skip(i + 1));
            }
            if self.queues[i].id == queue_id {
                return Some(self.queues[i].clone());
            }
            i = i + 1;
        }
        proof {
            assert(self.queues@.skip(self.queues@.len() as int) =~= Seq::<QueueDao>::empty());
        }
        None
    }

    /// Records a new queue. Fails with `Conflict` when a queue with the
    /// same id already exists; nothing changes then.
    pub fn add_queue(&mut self, queue: QueueDao) -> (r: Result<(), StoreError>)
        requires
            old(self).wf(),
        ensures
            final(self).wf(),
            final(self).entries_seq() == old(self).entries_seq(),
            has_queue(old(self).queues_seq(), queue.id) ==> r == Err::<(), StoreError>(
                StoreError::Conflict,
            ) && final(self).queues_seq() == old(self).queues_seq(),
            !has_queue(old(self).queues_seq(), queue.id) ==> r == Ok::<(), StoreError>(())
                && final(self).queues_seq() == old(self).queues_seq().push(queue),
    {
        if self.contains_queue(queue.id) {
            return Err(StoreError::Conflict);
        }
        proof {
            let qs = self.queues@;
            assert forall|i: int, j: int|
                #![trigger qs.push(queue)[i], qs.push(queue)[j]]
                0 <= i < j < qs.push(queue).len() implies qs.push(queue)[i].id != qs.push(
                queue,
            )[j].id by {
                if j < qs.len() {
                    assert(qs[i] == qs.push(queue)[i] && qs[j] == qs.push(queue)[j]);
                } else {
                    assert(qs.push(queue)[i] == qs[i]);
                    assert(!has_queue(qs, queue.id));
                }
            }
        }
        self.queues.push(queue);
        Ok(())
    }

    /// Deletes the queue with the given id. Fails with `NotFound` when no
    /// such queue exists; nothing changes then. Member entries of the
    /// deleted queue are kept: this core does not cascade.
    pub fn delete_queue(&mut self, queue_id: Id) -> (r: Result<(), StoreError>)
        requires
            old(self).wf(),
        ensures
            final(self).wf(),
            final(self).entries_seq() == old(self).entries_seq(),
            !has_queue(old(self).queues_seq(), queue_id) ==> r == Err::<(), StoreError>(
                StoreError::NotFound,
            ) && final(self).queues_seq() == old(self).queues_seq(),
            has_queue(old(self).queues_seq(), queue_id) ==> r == Ok::<(), StoreError>(())
                && final(self).queues_seq() == remove_queue(old(self).queues_seq(), queue_id),
    {
        if !self.contains_queue(queue_id) {
            return Err(StoreError::NotFound);
        }
        let ghost qs = self.queues@;
        let mut kept: Vec<QueueDao> = Vec::new();
        let mut i: usize = 0;
        while i < self.queues.len()
            invariant
                i <= qs.len(),
                self.queues@ == qs,
                kept@ == remove_queue(qs.take(i as int), queue_id),
            decreases qs.len() - i,
        {
            proof {
                assert(qs.take(i + 1) =~= qs.take(i as int).push(qs[i as int]));
                lemma_remove_queue_push(qs.take(i as int), queue_id, qs[i as int]);
            }
            if self.queues[i].id != queue_id {
                kept.push(self.queues[i].clone());
            }
            i = i + 1;
        }
        proof {
            assert(qs.take(qs.len() as int) =~= qs);
            assert(unique_queue_ids(remove_queue(qs, queue_id))) by {
                let kept_seq = remove_queue(qs, queue_id);
                assert forall|a: int, b: int|
                    #![trigger kept_seq[a], kept_seq[b]]
                    0 <= a < b < kept_seq.len() implies kept_seq[a].id != kept_seq[b].id by {
                    lemma_remove_queue_subseq(qs, queue_id, a, b);
                }
            }
        }
        self.queues = kept;
        Ok(())
    }
}

impl MembershipStore {
    /// Does an entry for (queue_id, user_id) exist?
    pub fn is_member(&self, queue_id: Id, user_id: Id) -> (r: bool)
        ensures
            r == has_member(self.entries_seq(), queue_id, user_id),
    {
        let mut i: usize = 0;
        while i < self.entries.len()
            invariant
                i <= self.entries@.len(),
                forall|k: int|
                    0 <= k < i ==> !is_member_entry(#[trigger] self.entries@[k], queue_id, user_id),
            decreases self.entries@.len() - i,
        {
            if self.entries[i].queue_id == queue_id && self.entries[i].user_id == user_id {
                return true;
            }
            i = i + 1;
        }
        false
    }

    /// The maximum rank recorded for a queue, or `None` when the queue has
    /// no entries.
    pub fn max_rank(&self, queue_id: Id) -> (r: Option<i32>)
        ensures
            r == max_rank_of(self.entries_seq(), queue_id),
    {
        let ghost es = self.entries@;
        let mut acc: Option<i32> = None;
        let mut i: usize = 0;
        while i < self.entries.len()
            invariant
                i <= es.len(),
                self.entries@ == es,
                acc == max_rank_of(es.take(i as int), queue_id),
            decreases es.len() - i,
        {
            proof {
                assert(es.take(i + 1).drop_last() =~= es.take(i as int));
                assert(es.take(i + 1).last() == es[i as int]);
            }
            let e = self.entries[i];
            if e.queue_id == queue_id {
                acc = match acc {
                    None => Some(e.order),
                    Some(m) => if e.order > m {
                        Some(e.order)
                    } else {
                        Some(m)
                    },
                };
            }
            i = i + 1;
        }
        proof {
            assert(es.take(es.len() as int) =~= es);
        }
        acc
    }

    /// Commits a fully formed entry, enforcing the uniqueness invariant:
    /// fails with `Conflict` when (queue_id, user_id) is already a member,
    /// and nothing changes then.
    pub fn insert_entry(&mut self, entry: QueueEntryDao) -> (r: Result<(), StoreError>)
        requires
            old(self).wf(),
        ensures
            final(self).wf(),
            final(self).queues_seq() == old(self).queues_seq(),
            has_member(old(self).entries_seq(), entry.queue_id, entry.user_id) ==> r == Err::<
                (),
                StoreError,
            >(StoreError::Conflict) && final(self).entries_seq() == old(self).entries_seq(),
            !has_member(old(self).entries_seq(), entry.queue_id, entry.user_id) ==> r == Ok::<
                (),
                StoreError,
            >(()) && final(self).entries_seq() == old(self).entries_seq().push(entry),
    {
        if self.is_member(entry.queue_id, entry.user_id) {
            return Err(StoreError::Conflict);
        }
        proof {
            lemma_unique_members_push(self.entries@, entry);
        }
        self.entries.push(entry);
        Ok(())
    }

    /// Removes the entry for (queue_id, user_id). Fails with `NotFound`
    /// when the pair is not a member; nothing changes then. Remaining
    /// ranks are not renumbered.
    pub fn leave(&mut self, queue_id: Id, user_id: Id) -> (r: Result<(), StoreError>)
        requires
            old(self).wf(),
        ensures
            final(self).wf(),
            final(self).queues_seq() == old(self).queues_seq(),
            !has_member(old(self).entries_seq(), queue_id, user_id) ==> r == Err::<
                (),
                StoreError,
            >(StoreError::NotFound) && final(self).entries_seq() == old(self).entries_seq(),
            has_member(old(self).entries_seq(), queue_id, user_id) ==> r == Ok::<(), StoreError>(())
                && final(self).entries_seq() == remove_member(
                old(self).entries_seq(),
                queue_id,
                user_id,
            ) && final(self).entries_seq().len() == old(self).entries_seq().len() - 1,
    {
        if !self.is_member(queue_id, user_id) {
            return Err(StoreError::NotFound);
        }
        let ghost es = self.entries@;
        let mut kept: Vec<QueueEntryDao> = Vec::new();
        let mut i: usize = 0;
        while i < self.entries.len()
            invariant
                i <= es.len(),
                self.entries@ == es,
                kept@ == remove_member(es.take(i as int), queue_id, user_id),
            decreases es.len() - i,
        {
            proof {
                assert(es.take(i + 1) =~= es.take(i as int).push(es[i as int]));
                lemma_remove_member_push(es.take(i as int), queue_id, user_id, es[i as int]);
            }
            let e = self.entries[i];
            if !(e.queue_id == queue_id && e.user_id == user_id) {
                kept.push(e);
            }
            i = i + 1;
        }
        proof {
            assert(es.take(es.len() as int) =~= es);
            lemma_remove_member_len(es, queue_id, user_id);
            lemma_remove_member_unique(es, queue_id, user_id);
        }
        self.entries = kept;
        Ok(())
    }

    /// Joins user `user_id` to queue `queue_id`: assigns the next rank and
    /// commits the entry as one atomic step. Fails with `NotFound` when the
    /// queue does not exist and with `Conflict` when the user is already a
    /// member; nothing changes in either case. On success the new entry's
    /// rank strictly exceeds every rank the queue held before.
    pub fn join(&mut self, queue_id: Id, user_id: Id, joined_at: i64) -> (r: Result<
        i32,
        StoreError,
    >)
        requires
            old(self).wf(),
            (max_rank_of(old(self).entries_seq(), queue_id) matches Option::Some(m) ==> m
                < i32::MAX),
        ensures
            final(self).wf(),
            final(self).queues_seq() == old(self).queues_seq(),
            !has_queue(old(self).queues_seq(), queue_id) ==> r == Err::<i32, StoreError>(
                StoreError::NotFound,
            ) && final(self).entries_seq() == old(self).entries_seq(),
            has_queue(old(self).queues_seq(), queue_id) && has_member(
                old(self).entries_seq(),
                queue_id,
                user_id,
            ) ==> r == Err::<i32, StoreError>(StoreError::Conflict) && final(self).entries_seq()
                == old(self).entries_seq(),
            has_queue(old(self).queues_seq(), queue_id) && !has_member(
                old(self).entries_seq(),
                queue_id,
                user_id,
            ) ==> r == Ok::<i32, StoreError>(
                next_rank(old(self).entries_seq(), queue_id) as i32,
            ) && final(self).entries_seq() == old(self).entries_seq().push(
                join_entry(
                    queue_id,
                    user_id,
                    next_rank(old(self).entries_seq(), queue_id) as i32,
                    joined_at,
                ),
            ),
            (r matches Ok(v) ==> forall|i: int|
                0 <= i < old(self).entries_seq().len() && (#[trigger] old(
                    self,
                ).entries_seq()[i]).queue_id == queue_id ==> old(self).entries_seq()[i].order < v),
    {
        if !self.contains_queue(queue_id) {
            return Err(StoreError::NotFound);
        }
        if self.is_member(queue_id, user_id) {
            return Err(StoreError::Conflict);
        }
        let max = self.max_rank(queue_id);
        let rank = compute_join_rank(max);
        let entry = QueueEntryDao {
            queue_id,
            user_id,
            order: rank,
            has_priority: false,
            is_held: false,
            joined_at,
        };
        proof {
            lemma_unique_members_push(self.entries@, entry);
            crate::ordering::lemma_next_rank_exceeds(self.entries@, queue_id);
        }
        self.entries.push(entry);
        Ok(rank)
    }

    /// Joins with the join time read from the wall clock, as the join
    /// request handler does. Apart from the join time, which depends on
    /// the clock, the committed entry and the result are those of `join`.
    pub fn join_now(&mut self, queue_id: Id, user_id: Id) -> (r: Result<i32, StoreError>)
        requires
            old(self).wf(),
            (max_rank_of(old(self).entries_seq(), queue_id) matches Option::Some(m) ==> m
                < i32::MAX),
        ensures
            final(self).wf(),
            final(self).queues_seq() == old(self).queues_seq(),
            !has_queue(old(self).queues_seq(), queue_id) ==> r == Err::<i32, StoreError>(
                StoreError::NotFound,
            ) && final(self).entries_seq() == old(self).entries_seq(),
            has_queue(old(self).queues_seq(), queue_id) && has_member(
                old(self).entries_seq(),
                queue_id,
                user_id,
            ) ==> r == Err::<i32, StoreError>(StoreError::Conflict) && final(self).entries_seq()
                == old(self).entries_seq(),
            has_queue(old(self).queues_seq(), queue_id) && !has_member(
                old(self).entries_seq(),
                queue_id,
                user_id,
            ) ==> r == Ok::<i32, StoreError>(next_rank(old(self).entries_seq(), queue_id) as i32)
                && exists|t: i64|
                final(self).entries_seq() == old(self).entries_seq().push(
                    #[trigger] join_entry(
                        queue_id,
                        user_id,
                        next_rank(old(self).entries_seq(), queue_id) as i32,
                        t,
                    ),
                ),
    {
        let t = crate::clock::now_timestamp();
        self.join(queue_id, user_id, t)
    }

    /// All entries of one queue, unordered (in commit order).
    pub fn list_entries(&self, queue_id: Id) -> (r: Vec<QueueEntryDao>)
        ensures
            r@ == entries_of(self.entries_seq(), queue_id),
    {
        let ghost es = self.entries@;
        let mut out: Vec<QueueEntryDao> = Vec::new();
        let mut i: usize = 0;
        while i < self.entries.len()
            invariant
                i <= es.len(),
                self.entries@ == es,
                out@ == entries_of(es.take(i as int), queue_id),
            decreases es.len() - i,
        {
            proof {
                assert(es.take(i + 1) =~= es.take(i as int).push(es[i as int]));
                lemma_entries_of_push(es.take(i as int), queue_id, es[i as int]);
            }
            let e = self.entries[i];
            if e.queue_id == queue_id {
                out.push(e);
            }
            i = i + 1;
        }
        proof {
            assert(es.take(es.len() as int) =~= es);
        }
        out
    }

    /// The canonical listing of one queue: its entries in presentation
    /// order (held first, then ascending rank). Fails with `NotFound` when
    /// the queue does not exist.
    pub fn list_ordered(&self, queue_id: Id) -> (r: Result<Vec<QueueEntryDao>, StoreError>)
        ensures
            !has_queue(self.queues_seq(), queue_id) ==> r == Err::<Vec<QueueEntryDao>, StoreError>(
                StoreError::NotFound,
            ),
            has_queue(self.queues_seq(), queue_id) ==> (r matches Ok(v) && v@.to_multiset()
                == entries_of(self.entries_seq(), queue_id).to_multiset() && v@.len() == entries_of(
                self.entries_seq(),
                queue_id,
            ).len() && entries_sorted(v@)),
    {
        if !self.contains_queue(queue_id) {
            return Err(StoreError::NotFound);
        }
        let unordered = self.list_entries(queue_id);
        Ok(order_entries(&unordered))
    }

    /// The queues the given user is a member of.
    pub fn queues_with_member(&self, user_id: Id) -> (r: Vec<QueueDao>)
        ensures
            r@ == member_queues(self.queues_seq(), self.entries_seq(), user_id),
    {
        let ghost qs = self.queues@;
        let mut out: Vec<QueueDao> = Vec::new();
        let mut i: usize = 0;
        while i < self.queues.len()
            invariant
                i <= qs.len(),
                self.queues@ == qs,
                self.entries@ == self.entries_seq(),
                out@ == member_queues(qs.take(i as int), self.entries_seq(), user_id),
            decreases qs.len() - i,
        {
            proof {
                assert(qs.take(i + 1) =~= qs.take(i as int).push(qs[i as int]));
                lemma_member_queues_push(
                    qs.take(i as int),
                    self.entries@,
                    user_id,
                    qs[i as int],
                );
            }
            if self.is_member(self.queues[i].id, user_id) {
                out.push(self.queues[i].clone());
            }
            i = i + 1;
        }
        proof {
            assert(qs.take(qs.len() as int) =~= qs);
        }
        out
    }

    /// The queues visible to a user: those the user organizes, then those
    /// the user is a member of, each queue listed once.
    pub fn available_queues(&self, user_id: Id) -> (r: Vec<QueueDao>)
        ensures
            r@ == dedup_queues(
                owned_queues(self.queues_seq(), user_id) + member_queues(
                    self.queues_seq(),
                    self.entries_seq(),
                    user_id,
                ),
                Set::empty(),
            ),
            unique_queue_ids(r@),
    {
        let ghost qs = self.queues@;
        let mut owned: Vec<QueueDao> = Vec::new();
        let mut i: usize = 0;
        while i < self.queues.len()
            invariant
                i <= qs.len(),
                self.queues@ == qs,
                owned@ == owned_queues(qs.take(i as int), user_id),
            decreases qs.len() - i,
        {
            proof {
                assert(qs.take(i + 1) =~= qs.take(i as int).push(qs[i as int]));
                lemma_owned_queues_push(qs.take(i as int), user_id, qs[i as int]);
            }
            if self.queues[i].organizer_id == user_id {
                owned.push(self.queues[i].clone());
            }
            i = i + 1;
        }
        proof {
            assert(qs.take(qs.len() as int) =~= qs);
        }
        let member_of = self.queues_with_member(user_id);
        available_queues(&owned, &member_of)
    }

    /// The stored entries, for inspection.
    pub fn all_entries(&self) -> (r: &Vec<QueueEntryDao>)
        ensures
            r@ == self.entries_seq(),
    {
        &self.entries
    }

    /// The stored queue records, for inspection.
    pub fn all_queues(&self) -> (r: &Vec<QueueDao>)
        ensures
            r@ == self.queues_seq(),
    {
        &self.queues
    }
}

/// Pushing an entry for a pair that is not yet a member preserves the
/// uniqueness of members.
pub(crate) proof fn lemma_unique_members_push(s: Seq<QueueEntryDao>, e: QueueEntryDao)
    requires
        unique_members(s),
        !has_member(s, e.queue_id, e.user_id),
    ensures
        unique_members(s.push(e)),
{
    let t = s.push(e);
    assert forall|i: int, j: int|
        #![trigger t[i], t[j]]
        0 <= i < j < t.len() implies !(t[i].queue_id == t[j].queue_id && t[i].user_id
        == t[j].user_id) by {
        if j < s.len() {
            assert(t[i] == s[i] && t[j] == s[j]);
        } else {
            assert(t[i] == s[i] && t[j] == e);
            assert(!is_member_entry(s[i], e.queue_id, e.user_id));
        }
    }
}

/// Removing a member from a duplicate-free entry sequence leaves it
/// duplicate-free.
pub(crate) proof fn lemma_remove_member_unique(s: Seq<QueueEntryDao>, queue_id: Id, user_id: Id)
    requires
        unique_members(s),
    ensures
        unique_members(remove_member(s, queue_id, user_id)),
    decreases s.len(),
{
    reveal(Seq::filter);
    if s.len() > 0 {
        let prefix = s.drop_last();
        let e = s.last();
        assert(unique_members(prefix)) by {
            assert forall|i: int, j: int|
                #![trigger prefix[i], prefix[j]]
                0 <= i < j < prefix.len() implies !(prefix[i].queue_id == prefix[j].queue_id
                && prefix[i].user_id == prefix[j].user_id) by {
                assert(prefix[i] == s[i] && prefix[j] == s[j]);
            }
        }
        lemma_remove_member_unique(prefix, queue_id, user_id);
        let kept = remove_member(s, queue_id, user_id);
        let kept_prefix = remove_member(prefix, queue_id, user_id);
        if !is_member_entry(e, queue_id, user_id) {
            assert(kept == kept_prefix.push(e));
            assert forall|i: int, j: int|
                #![trigger kept[i], kept[j]]
                0 <= i < j < kept.len() implies !(kept[i].queue_id == kept[j].queue_id
                && kept[i].user_id == kept[j].user_id) by {
                if j < kept.len() - 1 {
                    assert(kept[i] == kept_prefix[i] && kept[j] == kept_prefix[j]);
                } else {
                    assert(kept[j] == e);
                    assert(kept[i] == kept_prefix[i]);
                    lemma_remove_member_elem(prefix, queue_id, user_id, i);
                    let k = choose|k: int|
                        0 <= k < prefix.len() && #[trigger] prefix[k] == kept_prefix[i];
                    assert(s[k] == prefix[k]);
                    assert(!(s[k].queue_id == s[s.len() - 1].queue_id && s[k].user_id == s[s.len()
                        - 1].user_id));
                }
            }
        }
    }
}

/// Every element of a restricted entry sequence occurs in the original.
proof fn lemma_remove_member_elem(s: Seq<QueueEntryDao>, queue_id: Id, user_id: Id, a: int)
    requires
        0 <= a < remove_member(s, queue_id, user_id).len(),
    ensures
        exists|i: int|
            0 <= i < s.len() && #[trigger] s[i] == remove_member(s, queue_id, user_id)[a],
    decreases s.len(),
{
    reveal(Seq::filter);
    if s.len() > 0 {
        let prefix = s.drop_last();
        let e = s.last();
        let kept = remove_member(s, queue_id, user_id);
        let kept_prefix = remove_member(prefix, queue_id, user_id);
        if !is_member_entry(e, queue_id, user_id) && a == kept.len() - 1 {
            assert(s[s.len() - 1] == kept[a]);
        } else {
            lemma_remove_member_elem(prefix, queue_id, user_id, a);
            let i = choose|i: int| 0 <= i < prefix.len() && #[trigger] prefix[i] == kept_prefix[a];
            assert(s[i] == kept[a]);
        }
    }
}

/// Two distinct positions of a filtered queue sequence come from two
/// distinct positions of the original, so unique ids stay unique.
proof fn lemma_remove_queue_subseq(qs: Seq<QueueDao>, queue_id: Id, a: int, b: int)
    requires
        unique_queue_ids(qs),
        0 <= a < b < remove_queue(qs, queue_id).len(),
    ensures
        remove_queue(qs, queue_id)[a].id != remove_queue(qs, queue_id)[b].id,
    decreases qs.len(),
{
    reveal(Seq::filter);
    if qs.len() > 0 {
        let prefix = qs.drop_last();
        let q = qs.last();
        assert(unique_queue_ids(prefix)) by {
            assert forall|i: int, j: int|
                #![trigger prefix[i], prefix[j]]
                0 <= i < j < prefix.len() implies prefix[i].id != prefix[j].id by {
                assert(prefix[i] == qs[i] && prefix[j] == qs[j]);
            }
        }
        let kept = remove_queue(qs, queue_id);
        let kept_prefix = remove_queue(prefix, queue_id);
        if q.id != queue_id {
            assert(kept == kept_prefix.push(q));
            if b < kept.len() - 1 {
                lemma_remove_queue_subseq(prefix, queue_id, a, b);
            } else {
                assert(kept[b] == q);
                lemma_remove_queue_member(prefix, queue_id, a);
                let i = choose|i: int|
                    0 <= i < prefix.len() && #[trigger] prefix[i] == kept_prefix[a];
                assert(qs[i] == prefix[i]);
                assert(qs[i].id != qs[qs.len() - 1].id);
            }
        } else {
            lemma_remove_queue_subseq(prefix, queue_id, a, b);
        }
    }
}

/// Why a queue-deletion request is refused: no such queue, or the
/// requester does not organize it.
#[derive(Clone, Copy, PartialEq, Eq, Structural, Debug)]
pub enum DeleteQueueError {
    NotFound,
    NotOrganizer,
}

/// `find_queue` answers exactly when the id is present, with a queue
/// bearing that id.
pub proof fn lemma_find_queue(qs: Seq<QueueDao>, queue_id: Id)
    ensures
        (find_queue(qs, queue_id) matches Option::Some(q) ==> q.id == queue_id),
        find_queue(qs, queue_id) is Some <==> has_queue(qs, queue_id),
    decreases qs.len(),
{
    if qs.len() > 0 {
        lemma_find_queue(qs.drop_first(), queue_id);
        let rest = qs.drop_first();
        if qs[0].id == queue_id {
            assert(has_queue(qs, queue_id));
        } else {
            assert forall|i: int| 0 <= i < rest.len() implies #[trigger] rest[i] == qs[i + 1] by {}
            if has_queue(qs, queue_id) {
                let i = choose|i: int| 0 <= i < qs.len() && (#[trigger] qs[i]).id == queue_id;
                assert(rest[i - 1] == qs[i]);
                assert(has_queue(rest, queue_id));
            }
            if has_queue(rest, queue_id) {
                let i = choose|i: int| 0 <= i < rest.len() && (#[trigger] rest[i]).id == queue_id;
                assert(qs[i + 1] == rest[i]);
                assert(has_queue(qs, queue_id));
            }
        }
    }
}

impl MembershipStore {
    /// Deletes a queue on behalf of `requester`: only the organizer may
    /// delete a queue. Nothing changes when the request is refused.
    pub fn delete_queue_as(&mut self, queue_id: Id, requester: Id) -> (r: Result<
        (),
        DeleteQueueError,
    >)
        requires
            old(self).wf(),
        ensures
            final(self).wf(),
            final(self).entries_seq() == old(self).entries_seq(),
            find_queue(old(self).queues_seq(), queue_id) is None ==> r == Err::<
                (),
                DeleteQueueError,
            >(DeleteQueueError::NotFound) && final(self).queues_seq() == old(self).queues_seq(),
            (find_queue(old(self).queues_seq(), queue_id) matches Option::Some(q)
                && q.organizer_id != requester) ==> r == Err::<(), DeleteQueueError>(
                DeleteQueueError::NotOrganizer,
            ) && final(self).queues_seq() == old(self).queues_seq(),
            (find_queue(old(self).queues_seq(), queue_id) matches Option::Some(q)
                && q.organizer_id == requester) ==> r == Ok::<(), DeleteQueueError>(())
                && final(self).queues_seq() == remove_queue(old(self).queues_seq(), queue_id),
    {
        proof {
            lemma_find_queue(self.queues@, queue_id);
        }
        let queue = match self.queue_by_id(queue_id) {
            None => {
                return Err(DeleteQueueError::NotFound);
            },
            Some(q) => q,
        };
        if queue.organizer_id != requester {
            return Err(DeleteQueueError::NotOrganizer);
        }
        let _removed = self.delete_queue(queue_id);
        Ok(())
    }
}

/// The queues of `qs` organized by `user_id`.
pub open spec fn owned_queues(qs: Seq<QueueDao>, user_id: Id) -> Seq<QueueDao> {
    qs.filter(|q: QueueDao| q.organizer_id == user_id)
}

/// The queues of `qs` that `user_id` is a member of, judged by the entry
/// sequence `es`.
pub open spec fn member_queues(qs: Seq<QueueDao>, es: Seq<QueueEntryDao>, user_id: Id) -> Seq<
    QueueDao,
> {
    qs.filter(|q: QueueDao| has_member(es, q.id, user_id))
}

/// Unfolds `owned_queues` over a push.
proof fn lemma_owned_queues_push(qs: Seq<QueueDao>, user_id: Id, q: QueueDao)
    ensures
        owned_queues(qs.push(q), user_id) == if q.organizer_id == user_id {
            owned_queues(qs, user_id).push(q)
        } else {
            owned_queues(qs, user_id)
        },
{
    reveal(Seq::filter);
    assert(qs.push(q).drop_last() =~= qs);
    assert(qs.push(q).last() == q);
}

/// Unfolds `member_queues` over a push.
proof fn lemma_member_queues_push(
    qs: Seq<QueueDao>,
    es: Seq<QueueEntryDao>,
    user_id: Id,
    q: QueueDao,
)
    ensures
        member_queues(qs.push(q), es, user_id) == if has_member(es, q.id, user_id) {
            member_queues(qs, es, user_id).push(q)
        } else {
            member_queues(qs, es, user_id)
        },
{
    reveal(Seq::filter);
    assert(qs.push(q).drop_last() =~= qs);
    assert(qs.push(q).last() == q);
}

/// First-occurrence deduplication of queues by id: keeps each queue whose
/// id is neither in `seen` nor borne by an earlier queue of `qs`.
pub open spec fn dedup_queues(qs: Seq<QueueDao>, seen: Set<Id>) -> Seq<QueueDao>
    decreases qs.len(),
{
    if qs.len() == 0 {
        Seq::empty()
    } else if seen.contains(qs[0].id) {
        dedup_queues(qs.drop_first(), seen)
    } else {
        seq![qs[0]] + dedup_queues(qs.drop_first(), seen.insert(qs[0].id))
    }
}

/// What deduplication yields: ids are unique, an id appears exactly when
/// the input holds it outside `seen`, and every kept queue is one of the
/// input's.
pub proof fn lemma_dedup_queues(qs: Seq<QueueDao>, seen: Set<Id>)
    ensures
        unique_queue_ids(dedup_queues(qs, seen)),
        forall|id: Id| #[trigger]
            has_queue(dedup_queues(qs, seen), id) <==> (has_queue(qs, id) && !seen.contains(id)),
        forall|k: int|
            #![trigger dedup_queues(qs, seen)[k]]
            0 <= k < dedup_queues(qs, seen).len() ==> exists|i: int|
                0 <= i < qs.len() && #[trigger] qs[i] == dedup_queues(qs, seen)[k],
    decreases qs.len(),
{
    let out = dedup_queues(qs, seen);
    if qs.len() == 0 {
        assert forall|id: Id| #[trigger] has_queue(out, id) implies (has_queue(qs, id)
            && !seen.contains(id)) by {}
        assert forall|id: Id| has_queue(qs, id) && !seen.contains(id) implies #[trigger] has_queue(
            out,
            id,
        ) by {}
    } else {
        let rest = qs.drop_first();
        let q0 = qs[0];
        assert forall|id: Id| has_queue(qs, id) implies id == q0.id || has_queue(rest, id) by {
            let i = choose|i: int| 0 <= i < qs.len() && (#[trigger] qs[i]).id == id;
            if i > 0 {
                assert(rest[i - 1] == qs[i]);
            }
        }
        assert forall|id: Id| has_queue(rest, id) implies has_queue(qs, id) by {
            let i = choose|i: int| 0 <= i < rest.len() && (#[trigger] rest[i]).id == id;
            assert(qs[i + 1] == rest[i]);
        }
        assert(has_queue(qs, q0.id));
        if seen.contains(q0.id) {
            lemma_dedup_queues(rest, seen);
        } else {
            lemma_dedup_queues(rest, seen.insert(q0.id));
            let tail = dedup_queues(rest, seen.insert(q0.id));
            assert(out == seq![q0] + tail);
            assert(out[0] == q0);
            assert forall|k: int| 0 < k < out.len() implies out[k] == tail[k - 1] by {}
            assert(unique_queue_ids(out)) by {
                assert forall|i: int, j: int|
                    #![trigger out[i], out[j]]
                    0 <= i < j < out.len() implies out[i].id != out[j].id by {
                    if i == 0 {
                        assert(has_queue(tail, out[j].id)) by {
                            assert(tail[j - 1] == out[j]);
                        }
                    } else {
                        assert(out[i] == tail[i - 1] && out[j] == tail[j - 1]);
                    }
                }
            }
            assert forall|id: Id| #[trigger] has_queue(out, id) implies (has_queue(qs, id)
                && !seen.contains(id)) by {
                let k = choose|k: int| 0 <= k < out.len() && (#[trigger] out[k]).id == id;
                if k == 0 {
                } else {
                    assert(tail[k - 1] == out[k]);
                    assert(has_queue(tail, id));
                }
            }
            assert forall|id: Id| has_queue(qs, id) && !seen.contains(id) implies #[trigger]
                has_queue(out, id) by {
                if id == q0.id {
                    assert(out[0].id == id);
                } else {
                    assert(has_queue(rest, id) && !seen.insert(q0.id).contains(id));
                    assert(has_queue(tail, id));
                    let k = choose|k: int| 0 <= k < tail.len() && (#[trigger] tail[k]).id == id;
                    assert(out[k + 1] == tail[k]);
                }
            }
            assert forall|k: int| #![trigger out[k]] 0 <= k < out.len() implies exists|i: int|
                0 <= i < qs.len() && #[trigger] qs[i] == out[k] by {
                if k == 0 {
                    assert(qs[0] == out[0]);
                } else {
                    assert(tail[k - 1] == out[k]);
                    let i = choose|i: int| 0 <= i < rest.len() && #[trigger] rest[i] == tail[k - 1];
                    assert(qs[i + 1] == out[k]);
                }
            }
        }
    }
}

/// Is `id` one of the ids of `seen`?
fn id_seen(seen: &Vec<Id>, id: Id) -> (r: bool)
    ensures
        r == seen@.contains(id),
{
    let mut i: usize = 0;
    while i < seen.len()
        invariant
            i <= seen@.len(),
            forall|k: int| 0 <= k < i ==> seen@[k] != id,
        decreases seen@.len() - i,
    {
        if seen[i] == id {
            return true;
        }
        i = i + 1;
    }
    false
}

/// Merges the queues a user organizes with the queues the user is a member
/// of, keeping the first occurrence of each queue id: the merged listing
/// never shows a queue twice.
pub fn available_queues(owned: &Vec<QueueDao>, member_of: &Vec<QueueDao>) -> (r: Vec<QueueDao>)
    ensures
        r@ == dedup_queues(owned@ + member_of@, Set::empty()),
        unique_queue_ids(r@),
        forall|id: Id| #[trigger] has_queue(r@, id) <==> has_queue(owned@ + member_of@, id),
{
    let ghost all_seq = owned@ + member_of@;
    let mut all: Vec<QueueDao> = Vec::new();
    let mut i: usize = 0;
    while i < owned.len()
        invariant
            i <= owned@.len(),
            all@ == owned@.take(i as int),
        decreases owned@.len() - i,
    {
        proof {
            assert(owned@.take(i + 1) =~= owned@.take(i as int).push(owned@[i as int]));
        }
        all.push(owned[i].clone());
        i = i + 1;
    }
    proof {
        assert(owned@.take(owned@.len() as int) =~= owned@);
    }
    let mut j: usize = 0;
    while j < member_of.len()
        invariant
            j <= member_of@.len(),
            all@ == owned@ + member_of@.take(j as int),
        decreases member_of@.len() - j,
    {
        proof {
            assert(owned@ + member_of@.take(j + 1) =~= (owned@ + member_of@.take(j as int)).push(
                member_of@[j as int],
            ));
        }
        all.push(member_of[j].clone());
        j = j + 1;
    }
    proof {
        assert(member_of@.take(member_of@.len() as int) =~= member_of@);
        assert(all@ == all_seq);
    }
    let mut out: Vec<QueueDao> = Vec::new();
    let mut seen: Vec<Id> = Vec::new();
    let mut k: usize = 0;
    proof {
        assert(all_seq.skip(0) =~= all_seq);
        assert(seen@.to_set() =~= Set::<Id>::empty());
    }
    while k < all.len()
        invariant
            k <= all_seq.len(),
            all@ == all_seq,
            dedup_queues(all_seq, Set::empty()) == out@ + dedup_queues(
                all_seq.skip(k as int),
                seen@.to_set(),
            ),
        decreases all_seq.len() - k,
    {
        proof {
            assert(all_seq.skip(k as int)[0] == all_seq[k as int]);
            assert(all_seq.skip(k as int).drop_first() =~= all_seq.skip(k + 1));
        }
        let q = &all[k];
        if !id_seen(&seen, q.id) {
            proof {
                assert(!seen@.to_set().contains(all_seq[k as int].id));
                Seq::lemma_push_to_set_commute(seen@, all_seq[k as int].id);
                assert((out@ + (seq![all_seq[k as int]] + dedup_queues(
                    all_seq.skip(k + 1),
                    seen@.to_set().insert(all_seq[k as int].id),
                ))) =~= out@.push(all_seq[k as int]) + dedup_queues(
                    all_seq.skip(k + 1),
                    seen@.to_set().insert(all_seq[k as int].id),
                ));
            }
            let qid = q.id;
            out.push(all[k].clone());
            seen.push(qid);
            proof {
                assert(seen@.to_set() == seen@.drop_last().to_set().insert(all_seq[k as int].id))
                    by {
                    assert(seen@.drop_last().push(all_seq[k as int].id) =~= seen@);
                    Seq::lemma_push_to_set_commute(
                        seen@.drop_last(),
                        all_seq[k as int].id,
                    );
                }
            }
        } else {
            proof {
                assert(seen@.to_set().contains(all_seq[k as int].id));
            }
        }
        k = k + 1;
    }
    proof {
        assert(all_seq.skip(all_seq.len() as int) =~= Seq::<QueueDao>::empty());
        assert(dedup_queues(Seq::empty(), seen@.to_set()) == Seq::<QueueDao>::empty());
        assert(out@ + Seq::<QueueDao>::empty() =~= out@);
        lemma_dedup_queues(all_seq, Set::empty());
    }
    out
}

/// Every element of the filtered queue sequence occurs in the original.
proof fn lemma_remove_queue_member(qs: Seq<QueueDao>, queue_id: Id, a: int)
    requires
        0 <= a < remove_queue(qs, queue_id).len(),
    ensures
        exists|i: int| 0 <= i < qs.len() && #[trigger] qs[i] == remove_queue(qs, queue_id)[a],
    decreases qs.len(),
{
    reveal(Seq::filter);
    if qs.len() > 0 {
        let prefix = qs.drop_last();
        let q = qs.last();
        let kept = remove_queue(qs, queue_id);
        let kept_prefix = remove_queue(prefix, queue_id);
        if q.id != queue_id && a == kept.len() - 1 {
            assert(qs[qs.len() - 1] == kept[a]);
        } else {
            lemma_remove_queue_member(prefix, queue_id, a);
            let i = choose|i: int| 0 <= i < prefix.len() && #[trigger] prefix[i] == kept_prefix[a];
            assert(qs[i] == kept[a]);
        }
    }
}

} // verus!
