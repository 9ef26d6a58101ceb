use oqueue::models::{make_queue, QueueEntryDao};
use oqueue::store::{DeleteQueueError, MembershipStore, StoreError};

fn queue_fixture(id: u128, organizer: u128) -> oqueue::models::QueueDao {
    make_queue(
        id,
        format!("queue-{}", id),
        "a waiting line".to_string(),
        organizer,
        1_000,
    )
}

#[test]
fn scenario_join_hold_leave_rejoin() {
    let mut s = MembershipStore::new();
    assert!(s.add_queue(queue_fixture(1, 9)).is_ok());

    // empty queue: first join gets rank 0, second rank 1
    assert_eq!(s.join(1, 10, 100), Ok(0));
    assert_eq!(s.join(1, 11, 101), Ok(1));
    let listed = s.list_ordered(1).unwrap();
    assert_eq!(listed.len(), 2);
    assert_eq!((listed[0].user_id, listed[0].order), (10, 0));
    assert_eq!((listed[1].user_id, listed[1].order), (11, 1));

    // mark the second member held, through the raw gateway operations
    assert_eq!(s.leave(1, 11), Ok(()));
    let held = QueueEntryDao {
        queue_id: 1,
        user_id: 11,
        order: 1,
        has_priority: false,
        is_held: true,
        joined_at: 101,
    };
    assert_eq!(s.insert_entry(held), Ok(()));
    let listed = s.list_ordered(1).unwrap();
    assert_eq!((listed[0].user_id, listed[0].is_held), (11, true));
    assert_eq!((listed[1].user_id, listed[1].is_held), (10, false));

    // the first member leaves; only the held member remains
    assert_eq!(s.leave(1, 10), Ok(()));
    let listed = s.list_ordered(1).unwrap();
    assert_eq!(listed.len(), 1);
    assert_eq!(listed[0].user_id, 11);

    // rejoining does not reuse rank 0: the next rank is 2
    assert_eq!(s.join(1, 10, 102), Ok(2));
    let listed = s.list_ordered(1).unwrap();
    assert_eq!((listed[0].user_id, listed[0].order), (11, 1));
    assert_eq!((listed[1].user_id, listed[1].order), (10, 2));
}

#[test]
fn duplicate_join_is_rejected_and_leaves_one_entry() {
    let mut s = MembershipStore::new();
    s.add_queue(queue_fixture(1, 9)).unwrap();
    assert_eq!(s.join(1, 10, 100), Ok(0));
    assert_eq!(s.join(1, 10, 200), Err(StoreError::Conflict));
    assert_eq!(s.all_entries().len(), 1);
    assert_eq!(s.all_entries()[0].joined_at, 100);
}

#[test]
fn leave_twice_reports_not_member_and_changes_nothing() {
    let mut s = MembershipStore::new();
    s.add_queue(queue_fixture(1, 9)).unwrap();
    s.join(1, 10, 100).unwrap();
    s.join(1, 11, 101).unwrap();
    assert_eq!(s.leave(1, 10), Ok(()));
    let after_first: Vec<QueueEntryDao> = s.all_entries().clone();
    assert_eq!(s.leave(1, 10), Err(StoreError::NotFound));
    assert_eq!(s.all_entries(), &after_first);
    assert_eq!(after_first.len(), 1);
}

#[test]
fn at_most_one_entry_per_pair_after_mixed_operations() {
    let mut s = MembershipStore::new();
    s.add_queue(queue_fixture(1, 9)).unwrap();
    s.add_queue(queue_fixture(2, 9)).unwrap();
    let _ = s.join(1, 10, 100);
    let _ = s.join(1, 11, 101);
    let _ = s.join(2, 10, 102);
    let _ = s.join(1, 10, 103); // rejected: already a member
    let _ = s.leave(1, 11);
    let _ = s.join(1, 11, 104);
    let _ = s.join(2, 10, 105); // rejected: already a member
    for a in s.all_entries() {
        let copies = s
            .all_entries()
            .iter()
            .filter(|b| b.queue_id == a.queue_id && b.user_id == a.user_id)
            .count();
        assert_eq!(copies, 1);
    }
    assert_eq!(s.all_entries().len(), 3);
}

#[test]
fn join_unknown_queue_is_not_found() {
    let mut s = MembershipStore::new();
    assert_eq!(s.join(7, 10, 100), Err(StoreError::NotFound));
    assert_eq!(s.all_entries().len(), 0);
}

#[test]
fn list_ordered_unknown_queue_is_not_found() {
    let s = MembershipStore::new();
    assert_eq!(s.list_ordered(7), Err(StoreError::NotFound));
}

#[test]
fn add_queue_with_taken_id_conflicts() {
    let mut s = MembershipStore::new();
    assert_eq!(s.add_queue(queue_fixture(1, 9)), Ok(()));
    assert_eq!(s.add_queue(queue_fixture(1, 8)), Err(StoreError::Conflict));
    assert_eq!(s.all_queues().len(), 1);
}

#[test]
fn only_the_organizer_deletes_a_queue() {
    let mut s = MembershipStore::new();
    s.add_queue(queue_fixture(1, 9)).unwrap();
    s.join(1, 10, 100).unwrap();
    assert_eq!(s.delete_queue_as(2, 9), Err(DeleteQueueError::NotFound));
    assert_eq!(s.delete_queue_as(1, 10), Err(DeleteQueueError::NotOrganizer));
    assert_eq!(s.all_queues().len(), 1);
    assert_eq!(s.delete_queue_as(1, 9), Ok(()));
    assert_eq!(s.all_queues().len(), 0);
    // no cascade: the member entry survives the queue
    assert_eq!(s.all_entries().len(), 1);
}

#[test]
fn ranks_stay_monotonic_across_gaps() {
    let mut s = MembershipStore::new();
    s.add_queue(queue_fixture(1, 9)).unwrap();
    assert_eq!(s.join(1, 10, 100), Ok(0));
    assert_eq!(s.join(1, 11, 101), Ok(1));
    assert_eq!(s.join(1, 12, 102), Ok(2));
    s.leave(1, 12).unwrap();
    s.leave(1, 10).unwrap();
    // the maximum present rank is 1; the next join still gets 2
    assert_eq!(s.join(1, 13, 103), Ok(2));
    assert_eq!(s.join(1, 10, 104), Ok(3));
}

#[test]
fn ranks_are_tracked_per_queue() {
    let mut s = MembershipStore::new();
    s.add_queue(queue_fixture(1, 9)).unwrap();
    s.add_queue(queue_fixture(2, 9)).unwrap();
    assert_eq!(s.join(1, 10, 100), Ok(0));
    assert_eq!(s.join(1, 11, 101), Ok(1));
    assert_eq!(s.join(2, 10, 102), Ok(0));
    assert_eq!(s.join(2, 11, 103), Ok(1));
}

#[test]
fn max_rank_reports_the_queue_maximum() {
    let mut s = MembershipStore::new();
    s.add_queue(queue_fixture(1, 9)).unwrap();
    assert_eq!(s.max_rank(1), None);
    s.join(1, 10, 100).unwrap();
    s.join(1, 11, 101).unwrap();
    assert_eq!(s.max_rank(1), Some(1));
    assert_eq!(s.max_rank(2), None);
}

#[test]
fn insert_entry_enforces_uniqueness() {
    let mut s = MembershipStore::new();
    let e = QueueEntryDao {
        queue_id: 1,
        user_id: 10,
        order: 5,
        has_priority: false,
        is_held: false,
        joined_at: 100,
    };
    assert_eq!(s.insert_entry(e), Ok(()));
    let mut again = e;
    again.order = 9;
    assert_eq!(s.insert_entry(again), Err(StoreError::Conflict));
    assert_eq!(s.all_entries().len(), 1);
    assert_eq!(s.all_entries()[0].order, 5);
}

#[test]
fn join_now_assigns_sequential_ranks() {
    let mut s = MembershipStore::new();
    s.add_queue(queue_fixture(1, 9)).unwrap();
    assert_eq!(s.join_now(1, 10), Ok(0));
    assert_eq!(s.join_now(1, 11), Ok(1));
    let e = &s.all_entries()[0];
    assert!(!e.is_held && !e.has_priority);
}

#[test]
fn queue_listings_respect_membership_and_ownership() {
    let mut s = MembershipStore::new();
    s.add_queue(queue_fixture(1, 9)).unwrap(); // organized by 9
    s.add_queue(queue_fixture(2, 7)).unwrap(); // organized by 7, 9 joins
    s.add_queue(queue_fixture(3, 9)).unwrap(); // organized by 9, 9 joins too
    s.add_queue(queue_fixture(4, 7)).unwrap(); // unrelated to 9
    s.join(2, 9, 100).unwrap();
    s.join(3, 9, 101).unwrap();

    let member_of = s.queues_with_member(9);
    let member_ids: Vec<u128> = member_of.iter().map(|q| q.id).collect();
    assert_eq!(member_ids, vec![2, 3]);

    // owned queues come first, and queue 3 is not listed twice
    let available = s.available_queues(9);
    let ids: Vec<u128> = available.iter().map(|q| q.id).collect();
    assert_eq!(ids, vec![1, 3, 2]);
}

#[test]
fn available_queues_merges_without_duplicates() {
    let owned = vec![queue_fixture(1, 9), queue_fixture(3, 9)];
    let member_of = vec![queue_fixture(3, 9), queue_fixture(2, 7)];
    let merged = oqueue::store::available_queues(&owned, &member_of);
    let ids: Vec<u128> = merged.iter().map(|q| q.id).collect();
    assert_eq!(ids, vec![1, 3, 2]);
}

#[test]
fn queue_lookup_finds_and_misses() {
    let mut s = MembershipStore::new();
    s.add_queue(queue_fixture(5, 9)).unwrap();
    let q = s.queue_by_id(5).unwrap();
    assert_eq!(q.id, 5);
    assert_eq!(q.organizer_id, 9);
    assert!(s.queue_by_id(6).is_none());
    assert!(s.contains_queue(5));
    assert!(!s.contains_queue(6));
}
