//! The optimistic write protocol of the relation registry.
//!
//! A write to a channel's relation is attempted without checking that the
//! relation exists. If the store reports the relation missing, the relation
//! is created and the write retried exactly once; a concurrent creator
//! winning the race reads as "already exists" and counts as created. Any
//! other failure, and a second miss, are fatal to the operation — no
//! partial state is left behind. The driver performing the statements
//! feeds each reply back into [`write_protocol_step`].

use vstd::prelude::*;

verus! {

/// What the driver should do next for the pending write.
#[derive(Clone, Copy, PartialEq, Eq, Structural, Debug)]
pub enum WriteAction {
    /// Attempt the write statement.
    AttemptWrite,
    /// Create the channel's relation.
    CreateRelation,
    /// Nothing: the protocol is finished.
    Stop,
}

/// What the store replied to the last statement.
#[derive(Clone, Copy, PartialEq, Eq, Structural, Debug)]
pub enum StoreReply {
    /// The statement succeeded.
    Accepted,
    /// The write failed because the relation does not exist.
    MissingRelation,
    /// The creation failed because the relation already exists (a
    /// concurrent add won the race; the pending write can proceed).
    AlreadyExists,
    /// The statement failed for any other reason.
    Failure,
}

/// Where the protocol stands.
#[derive(Clone, Copy, PartialEq, Eq, Structural, Debug)]
pub enum WriteState {
    /// About to attempt the write for the first time.
    FirstAttempt,
    /// The first attempt hit a missing relation; about to create it.
    Creating,
    /// The relation is in place; about to retry the write once.
    RetryAttempt,
    /// The write landed.
    Succeeded,
    /// The operation failed; nothing more is attempted.
    Failed,
}

/// What each state asks of the driver.
pub open spec fn action_of_spec(s: WriteState) -> WriteAction {
    match s {
        WriteState::FirstAttempt => WriteAction::AttemptWrite,
        WriteState::Creating => WriteAction::CreateRelation,
        WriteState::RetryAttempt => WriteAction::AttemptWrite,
        WriteState::Succeeded => WriteAction::Stop,
        WriteState::Failed => WriteAction::Stop,
    }
}

/// The protocol table: a miss on the first write leads to one creation and
/// one retry; a creation that finds the relation already there proceeds to
/// the retry; everything else that fails is fatal, and a terminal state
/// absorbs every reply.
pub open spec fn write_step_spec(s: WriteState, r: StoreReply) -> WriteState {
    match s {
        WriteState::FirstAttempt => match r {
            StoreReply::Accepted => WriteState::Succeeded,
            StoreReply::MissingRelation => WriteState::Creating,
            StoreReply::AlreadyExists => WriteState::Failed,
            StoreReply::Failure => WriteState::Failed,
        },
        WriteState::Creating => match r {
            StoreReply::Accepted => WriteState::RetryAttempt,
            StoreReply::AlreadyExists => WriteState::RetryAttempt,
            StoreReply::MissingRelation => WriteState::Failed,
            StoreReply::Failure => WriteState::Failed,
        },
        WriteState::RetryAttempt => match r {
            StoreReply::Accepted => WriteState::Succeeded,
            StoreReply::MissingRelation => WriteState::Failed,
            StoreReply::AlreadyExists => WriteState::Failed,
            StoreReply::Failure => WriteState::Failed,
        },
        WriteState::Succeeded => WriteState::Succeeded,
        WriteState::Failed => WriteState::Failed,
    }
}

/// Whether the protocol is finished.
pub open spec fn write_terminal(s: WriteState) -> bool {
    s is Succeeded || s is Failed
}

/// What each state asks of the driver.
pub fn write_action_of(s: WriteState) -> (a: WriteAction)
    ensures
        a == action_of_spec(s),
{
    match s {
        WriteState::FirstAttempt => WriteAction::AttemptWrite,
        WriteState::Creating => WriteAction::CreateRelation,
        WriteState::RetryAttempt => WriteAction::AttemptWrite,
        WriteState::Succeeded => WriteAction::Stop,
        WriteState::Failed => WriteAction::Stop,
    }
}

/// Advance the protocol by one store reply.
pub fn write_protocol_step(s: WriteState, r: StoreReply) -> (s2: WriteState)
    ensures
        s2 == write_step_spec(s, r),
{
    match s {
        WriteState::FirstAttempt => match r {
            StoreReply::Accepted => WriteState::Succeeded,
            StoreReply::MissingRelation => WriteState::Creating,
            StoreReply::AlreadyExists => WriteState::Failed,
            StoreReply::Failure => WriteState::Failed,
        },
        WriteState::Creating => match r {
            StoreReply::Accepted => WriteState::RetryAttempt,
            StoreReply::AlreadyExists => WriteState::RetryAttempt,
            StoreReply::MissingRelation => WriteState::Failed,
            StoreReply::Failure => WriteState::Failed,
        },
        WriteState::RetryAttempt => match r {
            StoreReply::Accepted => WriteState::Succeeded,
            StoreReply::MissingRelation => WriteState::Failed,
            StoreReply::AlreadyExists => WriteState::Failed,
            StoreReply::Failure => WriteState::Failed,
        },
        WriteState::Succeeded => WriteState::Succeeded,
        WriteState::Failed => WriteState::Failed,
    }
}

/// How often a run over `replies` asks for the write, starting from `s`.
pub open spec fn write_attempts(s: WriteState, replies: Seq<StoreReply>) -> int
    decreases replies.len(),
{
    if write_terminal(s) || replies.len() == 0 {
        0
    } else {
        (if action_of_spec(s) == WriteAction::AttemptWrite {
            1int
        } else {
            0int
        }) + write_attempts(write_step_spec(s, replies[0]), replies.drop_first())
    }
}

/// How often a run over `replies` asks for the relation's creation.
pub open spec fn create_attempts(s: WriteState, replies: Seq<StoreReply>) -> int
    decreases replies.len(),
{
    if write_terminal(s) || replies.len() == 0 {
        0
    } else {
        (if action_of_spec(s) == WriteAction::CreateRelation {
            1int
        } else {
            0int
        }) + create_attempts(write_step_spec(s, replies[0]), replies.drop_first())
    }
}

/// The tolerant-retry policy, stated of every reply sequence: a full run
/// attempts the write at most twice and the creation at most once, and it
/// retries only after a first miss answered by a creation (or by finding
/// the relation already created concurrently). A missing relation on the
/// first attempt is never what fails the run.
pub proof fn lemma_write_protocol_bounds(replies: Seq<StoreReply>)
    ensures
        write_attempts(WriteState::FirstAttempt, replies) <= 2,
        create_attempts(WriteState::FirstAttempt, replies) <= 1,
        write_attempts(WriteState::FirstAttempt, replies) == 2 ==> replies.len() >= 2
            && replies[0] == StoreReply::MissingRelation && (replies[1] == StoreReply::Accepted
            || replies[1] == StoreReply::AlreadyExists),
{
    lemma_write_protocol_tail(WriteState::FirstAttempt, replies);
}

/// Attempt counts from each state, by induction over the reply sequence.
proof fn lemma_write_protocol_tail(s: WriteState, replies: Seq<StoreReply>)
    ensures
        write_terminal(s) ==> write_attempts(s, replies) == 0 && create_attempts(s, replies)
            == 0,
        s is RetryAttempt ==> write_attempts(s, replies) <= 1 && create_attempts(s, replies)
            == 0,
        s is Creating ==> write_attempts(s, replies) <= 1 && create_attempts(s, replies) <= 1,
        s is FirstAttempt ==> write_attempts(s, replies) <= 2 && create_attempts(s, replies)
            <= 1,
        s is FirstAttempt && write_attempts(s, replies) == 2 ==> replies.len() >= 2
            && replies[0] == StoreReply::MissingRelation && (replies[1] == StoreReply::Accepted
            || replies[1] == StoreReply::AlreadyExists),
    decreases replies.len(),
{
    if replies.len() > 0 {
        lemma_write_protocol_tail(write_step_spec(s, replies[0]), replies.drop_first());
        if s is FirstAttempt && replies[0] == StoreReply::MissingRelation && replies.len() >= 2 {
            lemma_write_protocol_tail(
                write_step_spec(WriteState::Creating, replies[1]),
                replies.drop_first().drop_first(),
            );
            assert(replies.drop_first()[0] == replies[1]);
        }
    }
}

} // verus!
