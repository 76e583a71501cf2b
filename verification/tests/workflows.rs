use kipp::confirm::{delete_task_interactive, ConfirmOutcome, CONFIRM_BUDGET, CONFIRM_NO, CONFIRM_YES};
use kipp::status_flow::{set_status_interactive, StatusOutcome, STATUS_BUDGET};
use kipp::store::{Status, Store};
use kipp::waiter::{Event, PromptSession, SessionState, WaitOutcome};

#[test]
fn confirmation_decline_leaves_store_unchanged() {
    let mut store = Store::new();
    let id = store.add(1, "t".to_string(), None, None, None);
    let events = vec![Event { time: 5, value: CONFIRM_NO }];
    let rep = delete_task_interactive(&mut store, 1, id, 0, &events);
    assert_eq!(rep.outcome, ConfirmOutcome::Declined);
    assert_eq!(rep.delete_calls, 0);
    assert!(rep.prompt_retracted);
    assert!(store.has_relation(1));
    assert_eq!(store.list(1, None).len(), 1);
}

#[test]
fn confirmation_timeout_retracts_prompt_and_mutates_nothing() {
    let mut store = Store::new();
    let id = store.add(1, "t".to_string(), None, None, None);
    let events: Vec<Event> = Vec::new();
    let rep = delete_task_interactive(&mut store, 1, id, 100, &events);
    assert_eq!(rep.outcome, ConfirmOutcome::TimedOut);
    assert_eq!(rep.delete_calls, 0);
    assert!(rep.prompt_retracted);
    assert_eq!(store.list(1, None).len(), 1);
}

#[test]
fn confirmation_late_answer_is_a_timeout() {
    let mut store = Store::new();
    let id = store.add(1, "t".to_string(), None, None, None);
    let events = vec![Event { time: 100 + CONFIRM_BUDGET, value: CONFIRM_YES }];
    let rep = delete_task_interactive(&mut store, 1, id, 100, &events);
    assert_eq!(rep.outcome, ConfirmOutcome::TimedOut);
    assert_eq!(rep.delete_calls, 0);
    assert_eq!(store.list(1, None).len(), 1);
}

#[test]
fn confirmation_unrecognized_choice_mutates_nothing() {
    let mut store = Store::new();
    let id = store.add(1, "t".to_string(), None, None, None);
    let events = vec![Event { time: 1, value: 77 }];
    let rep = delete_task_interactive(&mut store, 1, id, 0, &events);
    assert_eq!(rep.outcome, ConfirmOutcome::Unrecognized);
    assert_eq!(rep.delete_calls, 0);
    assert!(rep.prompt_retracted);
    assert_eq!(store.list(1, None).len(), 1);
}

#[test]
fn confirmed_delete_of_last_task_drops_relation() {
    let mut store = Store::new();
    let id = store.add(42, "only".to_string(), None, None, None);
    let events = vec![Event { time: 3, value: CONFIRM_YES }];
    let rep = delete_task_interactive(&mut store, 42, id, 0, &events);
    assert_eq!(
        rep.outcome,
        ConfirmOutcome::Confirmed { deleted: true, relation_removed: true }
    );
    assert_eq!(rep.delete_calls, 1);
    assert!(!store.has_relation(42));
    assert_eq!(store.list(42, None).len(), 0);
}

#[test]
fn confirmed_delete_keeps_relation_with_remaining_tasks() {
    let mut store = Store::new();
    let id1 = store.add(42, "one".to_string(), None, None, None);
    store.add(42, "two".to_string(), None, None, None);
    let events = vec![Event { time: 3, value: CONFIRM_YES }];
    let rep = delete_task_interactive(&mut store, 42, id1, 0, &events);
    assert_eq!(
        rep.outcome,
        ConfirmOutcome::Confirmed { deleted: true, relation_removed: false }
    );
    assert!(store.has_relation(42));
    assert_eq!(store.list(42, None).len(), 1);
}

#[test]
fn confirmed_delete_of_missing_id_reports_nothing_deleted() {
    let mut store = Store::new();
    let id = store.add(42, "one".to_string(), None, None, None);
    let events = vec![Event { time: 3, value: CONFIRM_YES }];
    let rep = delete_task_interactive(&mut store, 42, id + 9, 0, &events);
    assert_eq!(
        rep.outcome,
        ConfirmOutcome::Confirmed { deleted: false, relation_removed: false }
    );
    assert_eq!(rep.delete_calls, 1);
    assert_eq!(store.list(42, None).len(), 1);
}

#[test]
fn status_selecting_done_applies_exactly_once() {
    let mut store = Store::new();
    let id = store.add(8, "t".to_string(), None, None, None);
    // a second, late-arriving selection against the same prompt is ignored
    let events = vec![Event { time: 2, value: 0 }, Event { time: 4, value: 2 }];
    let rep = set_status_interactive(&mut store, 8, id, 0, &events);
    assert_eq!(
        rep.outcome,
        StatusOutcome::Applied { status: Status::Done, updated: true }
    );
    assert_eq!(rep.set_status_calls, 1);
    assert!(rep.prompt_retracted);
    let tasks = store.list(8, None);
    assert_eq!(tasks[0].status, Status::Done);
}

#[test]
fn status_timeout_applies_nothing() {
    let mut store = Store::new();
    let id = store.add(8, "t".to_string(), None, None, None);
    let events = vec![Event { time: STATUS_BUDGET, value: 0 }];
    let rep = set_status_interactive(&mut store, 8, id, 0, &events);
    assert_eq!(rep.outcome, StatusOutcome::TimedOut);
    assert_eq!(rep.set_status_calls, 0);
    assert!(rep.prompt_retracted);
    assert_eq!(store.list(8, None)[0].status, Status::InProgress);
}

#[test]
fn status_unrecognized_choice_applies_nothing() {
    let mut store = Store::new();
    let id = store.add(8, "t".to_string(), None, None, None);
    let events = vec![Event { time: 1, value: 9 }];
    let rep = set_status_interactive(&mut store, 8, id, 0, &events);
    assert_eq!(rep.outcome, StatusOutcome::Unrecognized);
    assert_eq!(rep.set_status_calls, 0);
    assert_eq!(store.list(8, None)[0].status, Status::InProgress);
}

#[test]
fn status_applies_to_concurrently_deleted_task_as_not_updated() {
    let mut store = Store::new();
    let id = store.add(8, "t".to_string(), None, None, None);
    assert!(store.delete(8, id));
    let events = vec![Event { time: 1, value: 1 }];
    let rep = set_status_interactive(&mut store, 8, id, 0, &events);
    assert_eq!(
        rep.outcome,
        StatusOutcome::Applied { status: Status::NotStarted, updated: false }
    );
    assert_eq!(rep.set_status_calls, 1);
}

#[test]
fn waiter_honors_only_the_first_event() {
    let options = vec![1, 0];
    let mut session = PromptSession::present(options, 10, 20);
    let events = vec![
        Event { time: 12, value: 0 },
        Event { time: 13, value: 1 },
        Event { time: 14, value: 1 },
    ];
    let outcome = session.await_choice(&events);
    assert_eq!(outcome, WaitOutcome::Chosen { value: 0 });
    assert_eq!(session.state, SessionState::Chosen { value: 0 });
    assert!(session.retracted);
}

#[test]
fn waiter_times_out_without_events() {
    let mut session = PromptSession::present(vec![1, 0], 0, 20);
    let events: Vec<Event> = Vec::new();
    let outcome = session.await_choice(&events);
    assert_eq!(outcome, WaitOutcome::TimedOut);
    assert_eq!(session.state, SessionState::TimedOut);
    assert!(session.retracted);
}

#[test]
fn waiter_event_at_deadline_is_a_timeout() {
    let mut session = PromptSession::present(vec![1, 0], 0, 20);
    let events = vec![Event { time: 20, value: 1 }];
    let outcome = session.await_choice(&events);
    assert_eq!(outcome, WaitOutcome::TimedOut);
    assert!(session.retracted);
}

#[test]
fn waiter_reports_unrecognized_values_distinctly() {
    let mut session = PromptSession::present(vec![1, 0], 0, 20);
    let events = vec![Event { time: 5, value: 3 }];
    let outcome = session.await_choice(&events);
    assert_eq!(outcome, WaitOutcome::Unrecognized);
    assert_eq!(session.state, SessionState::Unrecognized);
    assert!(session.retracted);
}

#[test]
fn full_scenario_add_list_confirmed_delete() {
    let mut store = Store::new();
    assert!(!store.has_relation(777));
    let id = store.add(
        777,
        "write report".to_string(),
        None,
        None,
        Some("2024-01-01".to_string()),
    );
    let tasks = store.list(777, None);
    assert_eq!(tasks.len(), 1);
    assert_eq!(tasks[0].status, Status::InProgress);
    assert_eq!(
        tasks[0].deadline,
        Some(kipp::date::Date { year: 2024, month: 1, day: 1 })
    );
    let events = vec![Event { time: 1, value: CONFIRM_YES }];
    let rep = delete_task_interactive(&mut store, 777, id, 0, &events);
    match rep.outcome {
        ConfirmOutcome::Confirmed { deleted, relation_removed } => {
            assert!(deleted);
            assert!(relation_removed);
        },
        _ => panic!("expected a confirmed deletion"),
    }
    assert!(!store.has_relation(777));
    let after = store.list(777, None);
    assert!(after.is_empty());
}
