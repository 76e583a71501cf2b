use kipp::retry::{
    write_action_of, write_protocol_step, StoreReply, WriteAction, WriteState,
};

fn run(replies: &[StoreReply]) -> (WriteState, u32, u32) {
    let mut state = WriteState::FirstAttempt;
    let mut writes = 0;
    let mut creates = 0;
    for reply in replies {
        match write_action_of(state) {
            WriteAction::AttemptWrite => writes += 1,
            WriteAction::CreateRelation => creates += 1,
            WriteAction::Stop => break,
        }
        state = write_protocol_step(state, *reply);
    }
    (state, writes, creates)
}

#[test]
fn write_lands_first_try_without_creation() {
    let (state, writes, creates) = run(&[StoreReply::Accepted]);
    assert_eq!(state, WriteState::Succeeded);
    assert_eq!(writes, 1);
    assert_eq!(creates, 0);
}

#[test]
fn missing_relation_is_created_and_the_write_retried_once() {
    let (state, writes, creates) = run(&[
        StoreReply::MissingRelation,
        StoreReply::Accepted,
        StoreReply::Accepted,
    ]);
    assert_eq!(state, WriteState::Succeeded);
    assert_eq!(writes, 2);
    assert_eq!(creates, 1);
}

#[test]
fn losing_the_creation_race_still_retries_the_write() {
    let (state, writes, creates) = run(&[
        StoreReply::MissingRelation,
        StoreReply::AlreadyExists,
        StoreReply::Accepted,
    ]);
    assert_eq!(state, WriteState::Succeeded);
    assert_eq!(writes, 2);
    assert_eq!(creates, 1);
}

#[test]
fn creation_failure_after_a_miss_is_fatal() {
    let (state, writes, creates) = run(&[
        StoreReply::MissingRelation,
        StoreReply::Failure,
        StoreReply::Accepted,
    ]);
    assert_eq!(state, WriteState::Failed);
    assert_eq!(writes, 1);
    assert_eq!(creates, 1);
}

#[test]
fn a_second_miss_is_never_retried() {
    let (state, writes, creates) = run(&[
        StoreReply::MissingRelation,
        StoreReply::Accepted,
        StoreReply::MissingRelation,
        StoreReply::Accepted,
    ]);
    assert_eq!(state, WriteState::Failed);
    assert_eq!(writes, 2);
    assert_eq!(creates, 1);
}

#[test]
fn a_plain_write_failure_is_fatal_immediately() {
    let (state, writes, creates) = run(&[StoreReply::Failure, StoreReply::Accepted]);
    assert_eq!(state, WriteState::Failed);
    assert_eq!(writes, 1);
    assert_eq!(creates, 0);
}

#[test]
fn terminal_states_absorb_further_replies() {
    let (state, writes, creates) = run(&[
        StoreReply::Accepted,
        StoreReply::Failure,
        StoreReply::Failure,
    ]);
    assert_eq!(state, WriteState::Succeeded);
    assert_eq!(writes, 1);
    assert_eq!(creates, 0);
}
