use kipp::access::{guild_authorized, password_accepted};
use kipp::date::Date;
use kipp::render::{display_status, display_status_now, DisplayStatus};
use kipp::store::{Status, Store};

#[test]
fn date_order_is_lexicographic() {
    let a = Date { year: 2024, month: 1, day: 2 };
    let b = Date { year: 2024, month: 1, day: 3 };
    let c = Date { year: 2024, month: 2, day: 1 };
    let d = Date { year: 2025, month: 1, day: 1 };
    assert!(a.is_before(&b));
    assert!(b.is_before(&c));
    assert!(c.is_before(&d));
    assert!(!b.is_before(&a));
    assert!(!a.is_before(&a));
}

#[test]
fn absent_fields_render_as_sentinels() {
    let mut store = Store::new();
    store.add(1, "bare".to_string(), None, None, None);
    let tasks = store.list(1, None);
    assert_eq!(tasks[0].description_text(), "no description");
    assert_eq!(tasks[0].member_text(), "unassigned");
    assert_eq!(tasks[0].deadline_text(), "no deadline");
}

#[test]
fn present_fields_render_as_themselves() {
    let mut store = Store::new();
    store.add(
        1,
        "full".to_string(),
        Some("details".to_string()),
        Some("9001".to_string()),
        Some("2024-01-01".to_string()),
    );
    let tasks = store.list(1, None);
    assert_eq!(tasks[0].description_text(), "details");
    assert_eq!(tasks[0].member_text(), "9001");
    assert_eq!(tasks[0].deadline_text(), "2024-01-01");
}

#[test]
fn overdue_is_computed_not_stored() {
    let mut store = Store::new();
    let id = store.add(
        1,
        "t".to_string(),
        None,
        None,
        Some("2024-06-15".to_string()),
    );
    assert!(store.set_status(1, id, Status::InProgress));
    let tasks = store.list(1, None);
    let t = &tasks[0];

    let before = Date { year: 2024, month: 6, day: 10 };
    let same_day = Date { year: 2024, month: 6, day: 15 };
    let after = Date { year: 2024, month: 6, day: 20 };
    assert_eq!(display_status(t, &before), DisplayStatus::InProgress);
    assert_eq!(display_status(t, &same_day), DisplayStatus::InProgress);
    assert_eq!(display_status(t, &after), DisplayStatus::Overdue);
    // the stored row is untouched by where "today" falls
    assert_eq!(t.status, Status::InProgress);
    assert_eq!(t.deadline, Some(Date { year: 2024, month: 6, day: 15 }));
}

#[test]
fn absent_deadline_never_shows_overdue() {
    let mut store = Store::new();
    store.add(1, "t".to_string(), None, None, None);
    let tasks = store.list(1, None);
    let far_future = Date { year: 9999, month: 12, day: 31 };
    assert_eq!(display_status(&tasks[0], &far_future), DisplayStatus::InProgress);
}

#[test]
fn done_and_not_started_ignore_the_deadline() {
    let mut store = Store::new();
    let id = store.add(1, "t".to_string(), None, None, Some("2000-01-01".to_string()));
    let day = Date { year: 2024, month: 1, day: 1 };
    assert!(store.set_status(1, id, Status::Done));
    assert_eq!(display_status(&store.list(1, None)[0], &day), DisplayStatus::Done);
    assert!(store.set_status(1, id, Status::NotStarted));
    assert_eq!(
        display_status(&store.list(1, None)[0], &day),
        DisplayStatus::NotStarted
    );
}

#[test]
fn display_status_now_yields_a_status() {
    let mut store = Store::new();
    store.add(1, "t".to_string(), None, None, Some("2000-01-01".to_string()));
    let tasks = store.list(1, None);
    let shown = display_status_now(&tasks[0]);
    assert!(shown == DisplayStatus::InProgress || shown == DisplayStatus::Overdue);
}

#[test]
fn relation_names_are_decimal_and_distinct() {
    assert_eq!(kipp::naming::relation_name(0), "0");
    assert_eq!(kipp::naming::relation_name(7), "7");
    assert_eq!(kipp::naming::relation_name(10), "10");
    assert_eq!(
        kipp::naming::relation_name(1201023200998469662),
        "1201023200998469662"
    );
    assert_eq!(kipp::naming::relation_name(u64::MAX), "18446744073709551615");
    assert_ne!(kipp::naming::relation_name(10), kipp::naming::relation_name(100));
}

#[test]
fn guild_gate_is_a_single_equality() {
    assert!(guild_authorized(123, 123));
    assert!(!guild_authorized(123, 124));
}

#[test]
fn password_gate_compares_exactly() {
    assert!(password_accepted(&"open sesame".to_string(), &"open sesame".to_string()));
    assert!(!password_accepted(&"open".to_string(), &"open sesame".to_string()));
    assert!(!password_accepted(&"".to_string(), &"x".to_string()));
}
