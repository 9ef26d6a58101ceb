use oqueue::models::QueueEntryDao;
use oqueue::ordering::{compute_join_rank, order_entries};

fn entry(user_id: u128, order: i32, is_held: bool, joined_at: i64) -> QueueEntryDao {
    QueueEntryDao {
        queue_id: 1,
        user_id,
        order,
        has_priority: false,
        is_held,
        joined_at,
    }
}

#[test]
fn held_entries_come_before_all_others() {
    let input = vec![
        entry(10, 0, false, 100),
        entry(11, 1, true, 101),
        entry(12, 2, false, 102),
        entry(13, 3, true, 103),
    ];
    let ordered = order_entries(&input);
    let users: Vec<u128> = ordered.iter().map(|e| e.user_id).collect();
    assert_eq!(users, vec![11, 13, 10, 12]);
    assert!(ordered[0].is_held && ordered[1].is_held);
    assert!(!ordered[2].is_held && !ordered[3].is_held);
}

#[test]
fn within_a_group_ranks_ascend() {
    let input = vec![
        entry(10, 7, false, 100),
        entry(11, 2, false, 101),
        entry(12, 5, false, 102),
    ];
    let ordered = order_entries(&input);
    let ranks: Vec<i32> = ordered.iter().map(|e| e.order).collect();
    assert_eq!(ranks, vec![2, 5, 7]);
}

#[test]
fn equal_ranks_break_ties_by_join_time_then_user() {
    let input = vec![
        entry(12, 1, false, 300),
        entry(10, 1, false, 200),
        entry(11, 1, false, 200),
        entry(9, 1, false, 100),
    ];
    let ordered = order_entries(&input);
    let users: Vec<u128> = ordered.iter().map(|e| e.user_id).collect();
    assert_eq!(users, vec![9, 10, 11, 12]);
}

#[test]
fn ordering_is_pure_and_keeps_every_entry() {
    let input = vec![entry(10, 3, false, 100), entry(11, 0, true, 101)];
    let before = input.clone();
    let ordered = order_entries(&input);
    assert_eq!(input, before);
    assert_eq!(ordered.len(), 2);
    assert!(ordered.contains(&input[0]));
    assert!(ordered.contains(&input[1]));
}

#[test]
fn ordering_an_empty_collection_yields_nothing() {
    let ordered = order_entries(&Vec::new());
    assert!(ordered.is_empty());
}

#[test]
fn join_rank_is_zero_on_empty_and_max_plus_one_otherwise() {
    assert_eq!(compute_join_rank(None), 0);
    assert_eq!(compute_join_rank(Some(0)), 1);
    assert_eq!(compute_join_rank(Some(5)), 6);
    assert_eq!(compute_join_rank(Some(-3)), -2);
}
