//! The status workflow: present the status enumeration, wait for one
//! selection, and apply it through the store's update — at most once.
//!
//! The menu presents the closed set of status codes; a timeout or an
//! unrecognized selection applies nothing.

use vstd::prelude::*;

use crate::store::{status_code_spec, Status, Store};
use crate::waiter::{events_ordered, Event, PromptSession, WaitOutcome, wait_outcome_spec};

verus! {

/// How many ticks a status prompt waits for a selection.
pub const STATUS_BUDGET: u64 = 60;

/// The status codes the menu presents, in menu order: in progress, not
/// started, done.
pub open spec fn status_options() -> Seq<u64> {
    seq![2u64, 1u64, 0u64]
}

/// How a status workflow ended. All three outcomes are terminal.
#[derive(Clone, Copy, PartialEq, Eq, Structural, Debug)]
pub enum StatusOutcome {
    /// The chosen status was applied: `updated` says whether the row still
    /// existed at mutation time (it may have been deleted concurrently).
    Applied { status: Status, updated: bool },
    /// No selection arrived before the deadline; nothing was mutated.
    TimedOut,
    /// The first selection named no presented option; nothing was mutated.
    Unrecognized,
}

/// What one status run did: its outcome, how often the store's update was
/// invoked, and that the prompt came down again.
pub struct StatusReport {
    pub outcome: StatusOutcome,
    pub set_status_calls: u64,
    pub prompt_retracted: bool,
}

/// Run the status workflow for `task_id` in `channel`, starting at tick
/// `now`, against the selections in `events` (in time order). The store's
/// update runs exactly once if the first qualifying selection names a
/// presented status code, with exactly that status, and never otherwise.
pub fn set_status_interactive(
    store: &mut Store,
    channel: u64,
    task_id: u64,
    now: u64,
    events: &Vec<Event>,
) -> (rep: StatusReport)
    requires
        old(store)@.inv(),
        now + STATUS_BUDGET <= u64::MAX,
        events_ordered(events@),
    ensures
        rep.prompt_retracted,
        rep.set_status_calls <= 1,
        rep.set_status_calls == 1 <==> rep.outcome is Applied,
        !(rep.outcome is Applied) ==> final(store)@ == old(store)@,
        final(store)@.inv(),
        old(store)@.no_empty_relations() ==> final(store)@.no_empty_relations(),
        ({
            let w = wait_outcome_spec(status_options(), (now + STATUS_BUDGET) as u64, events@);
            &&& (rep.outcome is Applied <==> w is Chosen)
            &&& (rep.outcome is TimedOut <==> w is TimedOut)
            &&& (rep.outcome is Unrecognized <==> w is Unrecognized)
            &&& (rep.outcome matches StatusOutcome::Applied { status, updated }
                ==> w matches WaitOutcome::Chosen { value } && status_code_spec(status)
                == value as int)
        }),
        rep.outcome matches StatusOutcome::Applied { status, updated } ==> final(store)@ == old(
            store,
        )@.set_status_trans(channel, task_id, status) && updated == old(store)@.has_task(
            channel,
            task_id,
        ),
{
    let mut options: Vec<u64> = Vec::new();
    options.push(2);
    options.push(1);
    options.push(0);
    proof {
        assert(options@ =~= status_options());
    }
    let mut session = PromptSession::present(options, now, STATUS_BUDGET);
    let w = session.await_choice(events);
    let retracted = session.retracted;
    match w {
        WaitOutcome::Chosen { value } => {
            proof {
                assert(status_options().contains(value));
                assert(status_options()[0] == 2u64);
                assert(status_options()[1] == 1u64);
                assert(status_options()[2] == 0u64);
                assert(value <= 2);
            }
            match Status::from_code(value as u8) {
                Some(status) => {
                    let updated = store.set_status(channel, task_id, status);
                    StatusReport {
                        outcome: StatusOutcome::Applied { status, updated },
                        set_status_calls: 1,
                        prompt_retracted: retracted,
                    }
                },
                None => {
                    proof {
                        assert(false);
                    }
                    StatusReport {
                        outcome: StatusOutcome::Unrecognized,
                        set_status_calls: 0,
                        prompt_retracted: retracted,
                    }
                },
            }
        },
        WaitOutcome::Unrecognized => StatusReport {
            outcome: StatusOutcome::Unrecognized,
            set_status_calls: 0,
            prompt_retracted: retracted,
        },
        WaitOutcome::TimedOut => StatusReport {
            outcome: StatusOutcome::TimedOut,
            set_status_calls: 0,
            prompt_retracted: retracted,
        },
    }
}

} // verus!
