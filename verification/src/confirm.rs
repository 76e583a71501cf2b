//! The confirmation workflow: a yes/no gate in front of the store's delete.
//!
//! The workflow presents two buttons, waits a fixed budget for the first
//! qualifying answer, always retracts the prompt, and invokes the store's
//! delete at most once — only on the confirming edge. Decline, timeout and
//! an unrecognized choice all leave the store untouched.

use vstd::prelude::*;

use crate::store::Store;
use crate::waiter::{events_ordered, Event, PromptSession, WaitOutcome, wait_outcome_spec};

verus! {

/// The option value of the confirming button.
pub const CONFIRM_YES: u64 = 1;

/// The option value of the declining button.
pub const CONFIRM_NO: u64 = 0;

/// How many ticks a confirmation prompt waits for an answer.
pub const CONFIRM_BUDGET: u64 = 20;

/// The two options a confirmation prompt presents, in button order.
pub open spec fn confirm_options() -> Seq<u64> {
    seq![CONFIRM_YES, CONFIRM_NO]
}

/// How a confirmation workflow ended. All four outcomes are terminal.
#[derive(Clone, Copy, PartialEq, Eq, Structural, Debug)]
pub enum ConfirmOutcome {
    /// The deletion was confirmed and attempted: `deleted` says whether a
    /// row was actually removed, `relation_removed` whether removing it
    /// emptied the channel's relation and dropped it too.
    Confirmed { deleted: bool, relation_removed: bool },
    /// The decline button was pressed; nothing was mutated.
    Declined,
    /// No answer arrived before the deadline; nothing was mutated.
    TimedOut,
    /// The first answer named no presented option; nothing was mutated.
    Unrecognized,
}

/// What one confirmation run did: its outcome, how often the store's
/// delete was invoked, and that the prompt came down again.
pub struct ConfirmReport {
    pub outcome: ConfirmOutcome,
    pub delete_calls: u64,
    pub prompt_retracted: bool,
}

/// Run the deletion gate for `task_id` in `channel`, starting at tick
/// `now`, against the answers in `events` (in time order). The store's
/// delete runs exactly once if the first qualifying answer is the
/// confirming button, and never otherwise.
pub fn delete_task_interactive(
    store: &mut Store,
    channel: u64,
    task_id: u64,
    now: u64,
    events: &Vec<Event>,
) -> (rep: ConfirmReport)
    requires
        old(store)@.inv(),
        now + CONFIRM_BUDGET <= u64::MAX,
        events_ordered(events@),
    ensures
        rep.prompt_retracted,
        rep.delete_calls <= 1,
        rep.delete_calls == 1 <==> rep.outcome is Confirmed,
        !(rep.outcome is Confirmed) ==> final(store)@ == old(store)@,
        rep.outcome is Confirmed ==> final(store)@ == old(store)@.delete_trans(channel, task_id),
        final(store)@.inv(),
        old(store)@.no_empty_relations() ==> final(store)@.no_empty_relations(),
        ({
            let w = wait_outcome_spec(confirm_options(), (now + CONFIRM_BUDGET) as u64, events@);
            &&& (rep.outcome is Confirmed <==> w == WaitOutcome::Chosen { value: CONFIRM_YES })
            &&& (rep.outcome is Declined <==> w == WaitOutcome::Chosen { value: CONFIRM_NO })
            &&& (rep.outcome is TimedOut <==> w is TimedOut)
            &&& (rep.outcome is Unrecognized <==> w is Unrecognized)
        }),
        rep.outcome matches ConfirmOutcome::Confirmed { deleted, relation_removed } ==> deleted
            == old(store)@.has_task(channel, task_id) && relation_removed == (deleted && old(
            store,
        )@.tasks_of(channel).len() == 1),
{
    let mut options: Vec<u64> = Vec::new();
    options.push(CONFIRM_YES);
    options.push(CONFIRM_NO);
    proof {
        assert(options@ =~= confirm_options());
    }
    let mut session = PromptSession::present(options, now, CONFIRM_BUDGET);
    let w = session.await_choice(events);
    let retracted = session.retracted;
    match w {
        WaitOutcome::Chosen { value } => {
            if value == CONFIRM_YES {
                let ghost pre = store@;
                let deleted = store.delete(channel, task_id);
                let relation_removed = deleted && !store.has_relation(channel);
                proof {
                    if deleted {
                        let j = pre.task_idx(channel, task_id);
                        assert(pre.tasks_of(channel).len() >= 1);
                    }
                }
                ConfirmReport {
                    outcome: ConfirmOutcome::Confirmed { deleted, relation_removed },
                    delete_calls: 1,
                    prompt_retracted: retracted,
                }
            } else {
                proof {
                    assert(confirm_options().contains(value));
                    assert(confirm_options()[0] == CONFIRM_YES);
                    assert(confirm_options()[1] == CONFIRM_NO);
                    assert(value == CONFIRM_NO);
                }
                ConfirmReport {
                    outcome: ConfirmOutcome::Declined,
                    delete_calls: 0,
                    prompt_retracted: retracted,
                }
            }
        },
        WaitOutcome::Unrecognized => ConfirmReport {
            outcome: ConfirmOutcome::Unrecognized,
            delete_calls: 0,
            prompt_retracted: retracted,
        },
        WaitOutcome::TimedOut => ConfirmReport {
            outcome: ConfirmOutcome::TimedOut,
            delete_calls: 0,
            prompt_retracted: retracted,
        },
    }
}

} // verus!
