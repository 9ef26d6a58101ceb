use oqueue::account::{check_user_name, normalize_email};
use oqueue::auth::token_expiry;
use oqueue::models::{
    make_queue, member_infos_of, queue_infos_of, QueueEntryDao, UserDao, QUEUE_LIFETIME_SECS,
};

#[test]
fn user_names_must_fit_the_length_rule() {
    assert!(check_user_name("abcd").is_err());
    assert!(check_user_name("abcde").is_ok());
    assert!(check_user_name(&"x".repeat(35)).is_ok());
    assert!(check_user_name(&"x".repeat(36)).is_err());
    assert!(check_user_name("").is_err());
}

#[test]
fn emails_are_lowercased() {
    assert_eq!(normalize_email("USER@Example.COM"), "user@example.com");
    assert_eq!(normalize_email("plain@host"), "plain@host");
    assert_eq!(normalize_email(""), "");
}

#[test]
fn tokens_expire_a_day_after_issue() {
    assert_eq!(token_expiry(0), 86_400);
    assert_eq!(token_expiry(1_700_000_000), 1_700_086_400);
}

#[test]
fn new_queues_expire_two_years_after_creation() {
    let q = make_queue(1, "reading".to_string(), "weekly".to_string(), 9, 1_000);
    assert_eq!(q.created_at, 1_000);
    assert_eq!(q.exists_before, 1_000 + QUEUE_LIFETIME_SECS);
    assert_eq!(QUEUE_LIFETIME_SECS, 730 * 86_400);
    assert_eq!(q.organizer_id, 9);
}

#[test]
fn created_queues_carry_the_request_and_a_lifetime() {
    let q = oqueue::models::create_queue(9, "standup".to_string(), "daily".to_string())
        .expect("the clock is nowhere near the end of the epoch");
    assert_eq!(q.organizer_id, 9);
    assert_eq!(q.name, "standup");
    assert_eq!(q.description, "daily");
    assert_eq!(q.exists_before - q.created_at, QUEUE_LIFETIME_SECS);
}

#[test]
fn projections_carry_fields_and_hide_credentials() {
    let user = UserDao {
        id: 42,
        name: "carol".to_string(),
        email: "carol@example.com".to_string(),
        pwhash: "not-a-real-hash".to_string(),
    };
    let info = user.to_info();
    assert_eq!(info.id, 42);
    assert_eq!(info.name, "carol");

    let q = make_queue(7, "office".to_string(), "hours".to_string(), 42, 50);
    let infos = queue_infos_of(&vec![q]);
    assert_eq!(infos.len(), 1);
    assert_eq!(infos[0].id, 7);
    assert_eq!(infos[0].organizer_id, 42);
    assert_eq!(infos[0].exists_before, 50 + QUEUE_LIFETIME_SECS);

    let e = QueueEntryDao {
        queue_id: 7,
        user_id: 42,
        order: 3,
        has_priority: false,
        is_held: true,
        joined_at: 60,
    };
    let members = member_infos_of(&vec![e]);
    assert_eq!(members.len(), 1);
    assert_eq!(members[0].id, 42);
    assert_eq!(members[0].order, 3);
    assert!(members[0].is_held);
    assert!(!members[0].has_priority);
    assert_eq!(members[0].joined_at, 60);
}

#[test]
fn the_constant_true_is_true() {
    assert!(oqueue::true_value());
}
