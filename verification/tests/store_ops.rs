use kipp::date::Date;
use kipp::store::{Status, Store};

fn member(s: &str) -> Option<String> {
    Some(s.to_string())
}

#[test]
fn add_then_list_returns_matching_fields() {
    let mut store = Store::new();
    let id = store.add(
        7,
        "write report".to_string(),
        Some("quarterly summary".to_string()),
        member("1234"),
        Some("2024-01-01".to_string()),
    );
    let tasks = store.list(7, None);
    assert_eq!(tasks.len(), 1);
    let t = &tasks[0];
    assert_eq!(t.id, id);
    assert_eq!(t.name, "write report");
    assert_eq!(t.description.as_deref(), Some("quarterly summary"));
    assert_eq!(t.member.as_deref(), Some("1234"));
    assert_eq!(t.deadline, Some(Date { year: 2024, month: 1, day: 1 }));
    assert_eq!(t.status, Status::InProgress);
}

#[test]
fn unparsable_deadline_is_stored_as_absent() {
    let mut store = Store::new();
    store.add(1, "a".to_string(), None, None, Some("tomorrow".to_string()));
    store.add(1, "b".to_string(), None, None, Some("2024-13-40".to_string()));
    store.add(1, "c".to_string(), None, None, Some("2024-02-29".to_string()));
    let tasks = store.list(1, None);
    assert_eq!(tasks[0].deadline, None);
    assert_eq!(tasks[1].deadline, None);
    assert_eq!(tasks[2].deadline, Some(Date { year: 2024, month: 2, day: 29 }));
}

#[test]
fn relation_exists_iff_it_holds_a_task() {
    let mut store = Store::new();
    assert!(!store.has_relation(5));
    let id1 = store.add(5, "one".to_string(), None, None, None);
    let id2 = store.add(5, "two".to_string(), None, None, None);
    assert!(store.has_relation(5));
    assert!(store.delete(5, id1));
    assert!(store.has_relation(5));
    assert!(store.delete(5, id2));
    assert!(!store.has_relation(5));
    assert_eq!(store.list(5, None).len(), 0);
}

#[test]
fn delete_missing_id_is_not_an_error() {
    let mut store = Store::new();
    let id = store.add(3, "t".to_string(), None, None, None);
    assert!(!store.delete(3, id + 100));
    assert!(!store.delete(99, id));
    assert!(store.has_relation(3));
    assert_eq!(store.list(3, None).len(), 1);
}

#[test]
fn ids_are_never_reused_after_relation_drop() {
    let mut store = Store::new();
    let id1 = store.add(4, "one".to_string(), None, None, None);
    assert!(store.delete(4, id1));
    assert!(!store.has_relation(4));
    let id2 = store.add(4, "two".to_string(), None, None, None);
    assert_ne!(id1, id2);
}

#[test]
fn set_status_touches_only_the_status() {
    let mut store = Store::new();
    let id = store.add(
        2,
        "task".to_string(),
        Some("d".to_string()),
        member("42"),
        Some("2030-06-15".to_string()),
    );
    assert!(store.set_status(2, id, Status::Done));
    let tasks = store.list(2, None);
    assert_eq!(tasks[0].status, Status::Done);
    assert_eq!(tasks[0].name, "task");
    assert_eq!(tasks[0].description.as_deref(), Some("d"));
    assert_eq!(tasks[0].member.as_deref(), Some("42"));
    assert_eq!(tasks[0].deadline, Some(Date { year: 2030, month: 6, day: 15 }));
    assert!(!store.set_status(2, id + 7, Status::Done));
}

#[test]
fn list_filters_by_member() {
    let mut store = Store::new();
    store.add(9, "a".to_string(), None, member("alice"), None);
    store.add(9, "b".to_string(), None, member("bob"), None);
    store.add(9, "c".to_string(), None, member("alice"), None);
    store.add(9, "d".to_string(), None, None, None);
    let alice = "alice".to_string();
    let filtered = store.list(9, Some(&alice));
    assert_eq!(filtered.len(), 2);
    assert_eq!(filtered[0].name, "a");
    assert_eq!(filtered[1].name, "c");
    assert_eq!(store.list(9, None).len(), 4);
}

#[test]
fn counts_cover_every_relation() {
    let mut store = Store::new();
    store.add(1, "a".to_string(), None, member("u"), None);
    store.add(1, "b".to_string(), None, None, None);
    store.add(2, "c".to_string(), None, member("u"), None);
    let all = store.count_all();
    assert_eq!(all, vec![(1, 2), (2, 1)]);
    let by_u = store.count_by_member(&"u".to_string());
    assert_eq!(by_u, vec![(1, 1), (2, 1)]);
    let by_other = store.count_by_member(&"nobody".to_string());
    assert_eq!(by_other, vec![(1, 0), (2, 0)]);
}

#[test]
fn prune_drops_relations_of_dead_channels() {
    let mut store = Store::new();
    store.add(10, "a".to_string(), None, None, None);
    store.add(20, "b".to_string(), None, None, None);
    store.add(30, "c".to_string(), None, None, None);
    let live = vec![10, 30];
    let removed = store.prune(&live);
    assert_eq!(removed, 1);
    assert!(store.has_relation(10));
    assert!(!store.has_relation(20));
    assert!(store.has_relation(30));
    assert_eq!(store.list(10, None).len(), 1);
    assert_eq!(store.list(30, None).len(), 1);
}

#[test]
fn channels_are_isolated() {
    let mut store = Store::new();
    let id_a = store.add(100, "in a".to_string(), None, None, None);
    store.add(200, "in b".to_string(), None, None, None);
    assert!(store.delete(100, id_a));
    assert!(!store.has_relation(100));
    assert!(store.has_relation(200));
    assert_eq!(store.list(200, None).len(), 1);
}
