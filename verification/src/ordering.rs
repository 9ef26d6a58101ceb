//! The ordering rule: held entries first, then ascending rank, with
//! deterministic tie-breaking, and the rank assigned to a new join.

use vstd::prelude::*;

use crate::domain::Id;
use crate::models::QueueEntryDao;

verus! {

/// The total order on member entries: held entries sort before non-held
/// ones; within a group, ascending rank; ties broken by join time, then by
/// (queue id, user id).
pub open spec fn entry_le(a: QueueEntryDao, b: QueueEntryDao) -> bool {
    if a.is_held != b.is_held {
        a.is_held
    } else if a.order != b.order {
        a.order < b.order
    } else if a.joined_at != b.joined_at {
        a.joined_at < b.joined_at
    } else if a.queue_id != b.queue_id {
        a.queue_id < b.queue_id
    } else {
        a.user_id <= b.user_id
    }
}

/// A sequence of entries in canonical presentation order.
pub open spec fn entries_sorted(s: Seq<QueueEntryDao>) -> bool {
    forall|i: int, j: int| 0 <= i < j < s.len() ==> #[trigger] entry_le(s[i], s[j])
}

/// Any two entries are comparable under `entry_le`.
pub proof fn lemma_entry_le_total(a: QueueEntryDao, b: QueueEntryDao)
    ensures
        entry_le(a, b) || entry_le(b, a),
{
}

/// `entry_le` is transitive.
pub proof fn lemma_entry_le_trans(a: QueueEntryDao, b: QueueEntryDao, c: QueueEntryDao)
    requires
        entry_le(a, b),
        entry_le(b, c),
    ensures
        entry_le(a, c),
{
}

/// The ordering rule, spelled out: in a sorted sequence every held entry
/// stands before every non-held entry, and within each of the two groups
/// ranks are non-decreasing.
pub proof fn lemma_ordering_rule(s: Seq<QueueEntryDao>)
    requires
        entries_sorted(s),
    ensures
        forall|i: int, j: int|
            #![trigger s[i], s[j]]
            0 <= i < j < s.len() && s[j].is_held ==> s[i].is_held,
        forall|i: int, j: int|
            #![trigger s[i], s[j]]
            0 <= i < j < s.len() && s[i].is_held == s[j].is_held ==> s[i].order <= s[j].order,
{
    assert forall|i: int, j: int|
        #![trigger s[i], s[j]]
        0 <= i < j < s.len() && s[j].is_held implies s[i].is_held by {
        assert(entry_le(s[i], s[j]));
    }
    assert forall|i: int, j: int|
        #![trigger s[i], s[j]]
        0 <= i < j < s.len() && s[i].is_held == s[j].is_held implies s[i].order <= s[j].order by {
        assert(entry_le(s[i], s[j]));
    }
}

/// Executable comparison deciding `entry_le`.
fn entry_le_exec(a: &QueueEntryDao, b: &QueueEntryDao) -> (r: bool)
    ensures
        r == entry_le(*a, *b),
{
    if a.is_held != b.is_held {
        a.is_held
    } else if a.order != b.order {
        a.order < b.order
    } else if a.joined_at != b.joined_at {
        a.joined_at < b.joined_at
    } else if a.queue_id != b.queue_id {
        a.queue_id < b.queue_id
    } else {
        a.user_id <= b.user_id
    }
}

/// Sorts an unordered collection of member entries into the canonical
/// presentation order. Pure: the input is not changed, and the output holds
/// exactly the input's entries.
pub fn order_entries(entries: &Vec<QueueEntryDao>) -> (r: Vec<QueueEntryDao>)
    ensures
        r@.to_multiset() == entries@.to_multiset(),
        r@.len() == entries@.len(),
        entries_sorted(r@),
{
    broadcast use vstd::seq_lib::group_to_multiset_ensures;

    let mut out: Vec<QueueEntryDao> = Vec::new();
    let mut i: usize = 0;
    while i < entries.len()
        invariant
            i <= entries@.len(),
            out@.len() == i,
            out@.to_multiset() == entries@.take(i as int).to_multiset(),
            entries_sorted(out@),
        decreases entries@.len() - i,
    {
        let e = entries[i];
        let mut j: usize = 0;
        while j < out.len() && entry_le_exec(&out[j], &e)
            invariant
                j <= out@.len(),
                forall|k: int| 0 <= k < j ==> entry_le(#[trigger] out@[k], e),
            decreases out@.len() - j,
        {
            j = j + 1;
        }
        proof {
            if j < out@.len() {
                lemma_entry_le_total(out@[j as int], e);
            }
            assert forall|k: int| j <= k < out@.len() implies entry_le(
                e,
                #[trigger] out@[k],
            ) by {
                if j < k {
                    assert(entry_le(out@[j as int], out@[k]));
                    lemma_entry_le_trans(e, out@[j as int], out@[k]);
                }
            }
        }
        let ghost prev = out@;
        out.insert(j, e);
        proof {
            assert(entries@.take(i + 1) =~= entries@.take(i as int).push(e));
            assert(out@ == prev.insert(j as int, e));
            vstd::seq_lib::to_multiset_insert(prev, j as int, e);
            vstd::seq_lib::to_multiset_build(entries@.take(i as int), e);
            assert(out@.to_multiset() == entries@.take(i + 1).to_multiset());
            assert forall|p: int, q: int| 0 <= p < q < out@.len() implies #[trigger] entry_le(
                out@[p],
                out@[q],
            ) by {
                if q < j {
                    assert(entry_le(prev[p], prev[q]));
                } else if p > j {
                    assert(entry_le(prev[p - 1], prev[q - 1]));
                } else if p < j && q == j {
                    assert(entry_le(prev[p], e));
                } else if p == j && q > j {
                    assert(entry_le(e, prev[q - 1]));
                } else if p < j && q > j {
                    assert(entry_le(prev[p], prev[q - 1]));
                }
            }
        }
        i = i + 1;
    }
    proof {
        assert(entries@.take(entries@.len() as int) =~= entries@);
    }
    out
}

/// The rank a join is assigned, given the queue's current maximum rank:
/// one past the maximum, or 0 for a queue with no entries.
pub open spec fn next_rank_from(max_rank: Option<i32>) -> int {
    match max_rank {
        Option::None => 0,
        Option::Some(m) => m + 1,
    }
}

/// Computes the rank for a new join from the queue's current maximum rank.
///
/// The caller must read the maximum and commit the new entry as one atomic
/// unit; two joins computing from the same stale maximum would collide.
pub fn compute_join_rank(max_rank: Option<i32>) -> (r: i32)
    requires
        max_rank matches Option::Some(m) ==> m < i32::MAX,
    ensures
        r == next_rank_from(max_rank),
        max_rank matches Option::Some(m) ==> r > m,
{
    match max_rank {
        Option::None => 0,
        Option::Some(m) => m + 1,
    }
}

/// The maximum rank among the entries of one queue, or `None` when the
/// queue has no entries.
pub open spec fn max_rank_of(s: Seq<QueueEntryDao>, queue_id: Id) -> Option<i32>
    decreases s.len(),
{
    if s.len() == 0 {
        Option::None
    } else {
        let rest = max_rank_of(s.drop_last(), queue_id);
        let e = s.last();
        if e.queue_id != queue_id {
            rest
        } else {
            match rest {
                Option::None => Option::Some(e.order),
                Option::Some(m) => if e.order > m {
                    Option::Some(e.order)
                } else {
                    Option::Some(m)
                },
            }
        }
    }
}

/// The rank the next successful join to `queue_id` receives.
pub open spec fn next_rank(s: Seq<QueueEntryDao>, queue_id: Id) -> int {
    next_rank_from(max_rank_of(s, queue_id))
}

/// The maximum rank is witnessed by an entry of the queue and bounds every
/// entry of the queue.
pub proof fn lemma_max_rank_of(s: Seq<QueueEntryDao>, queue_id: Id)
    ensures
        max_rank_of(s, queue_id) matches Option::Some(m) ==> exists|i: int|
            0 <= i < s.len() && (#[trigger] s[i]).queue_id == queue_id && s[i].order == m,
        forall|i: int|
            0 <= i < s.len() && (#[trigger] s[i]).queue_id == queue_id
                ==> (max_rank_of(s, queue_id) matches Option::Some(m) && s[i].order <= m),
    decreases s.len(),
{
    if s.len() > 0 {
        lemma_max_rank_of(s.drop_last(), queue_id);
        assert forall|i: int|
            0 <= i < s.len() && (#[trigger] s[i]).queue_id == queue_id
                implies (max_rank_of(s, queue_id) matches Option::Some(m) && s[i].order <= m) by {
            if i < s.len() - 1 {
                assert(s.drop_last()[i] == s[i]);
            }
        }
        match max_rank_of(s, queue_id) {
            Option::None => {},
            Option::Some(m) => {
                if s.last().queue_id == queue_id && s.last().order == m {
                    assert(s[s.len() - 1].queue_id == queue_id && s[s.len() - 1].order == m);
                } else {
                    let i = choose|i: int|
                        0 <= i < s.drop_last().len() && (#[trigger] s.drop_last()[i]).queue_id
                            == queue_id && s.drop_last()[i].order == m;
                    assert(s[i].queue_id == queue_id && s[i].order == m);
                }
            },
        }
    }
}

/// Every rank already present for a queue is strictly below the rank the
/// next join to that queue receives.
pub proof fn lemma_next_rank_exceeds(s: Seq<QueueEntryDao>, queue_id: Id)
    ensures
        forall|i: int|
            0 <= i < s.len() && (#[trigger] s[i]).queue_id == queue_id
                ==> s[i].order < next_rank(s, queue_id),
{
    lemma_max_rank_of(s, queue_id);
}

} // verus!
