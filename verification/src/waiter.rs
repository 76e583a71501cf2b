//! The interaction waiter: publish a prompt with a closed set of options,
//! honor exactly the first qualifying choice before a deadline, and always
//! take the prompt down again.
//!
//! Time is the caller's monotone tick count; a choice arriving at or after
//! the deadline counts as a timeout, and any event after the first changes
//! nothing (first writer wins).

use vstd::prelude::*;

use crate::store::vec_contains_u64;

verus! {

/// A choice event: at `time`, a participant picked the option `value`.
#[derive(Clone, Copy, PartialEq, Eq, Structural, Debug)]
pub struct Event {
    pub time: u64,
    pub value: u64,
}

/// Where a prompt stands: still open, resolved by the first choice of a
/// presented option, resolved by a choice outside the option set, or
/// expired unanswered.
#[derive(Clone, Copy, PartialEq, Eq, Structural, Debug)]
pub enum SessionState {
    Open,
    Chosen { value: u64 },
    Unrecognized,
    TimedOut,
}

/// A published prompt: its closed option set, the tick at which it expires,
/// what it resolved to so far, and whether the message was retracted.
pub struct PromptSession {
    pub options: Vec<u64>,
    pub deadline: u64,
    pub state: SessionState,
    pub retracted: bool,
}

/// How one event moves a prompt: the first event resolves an open prompt —
/// to the chosen option, to `Unrecognized` for a value outside the option
/// set, or to `TimedOut` when it arrives at or after the deadline — and
/// every later event changes nothing.
pub open spec fn deliver_trans(
    state: SessionState,
    options: Seq<u64>,
    deadline: u64,
    e: Event,
) -> SessionState {
    if !(state is Open) {
        state
    } else if e.time >= deadline {
        SessionState::TimedOut
    } else if options.contains(e.value) {
        SessionState::Chosen { value: e.value }
    } else {
        SessionState::Unrecognized
    }
}

/// The outcome a finished wait reports.
#[derive(Clone, Copy, PartialEq, Eq, Structural, Debug)]
pub enum WaitOutcome {
    Chosen { value: u64 },
    Unrecognized,
    TimedOut,
}

/// The outcome an ordered event sequence determines: the first event, if it
/// arrives before the deadline, decides; otherwise the wait times out.
pub open spec fn wait_outcome_spec(options: Seq<u64>, deadline: u64, events: Seq<Event>) -> WaitOutcome {
    if events.len() > 0 && events[0].time < deadline {
        if options.contains(events[0].value) {
            WaitOutcome::Chosen { value: events[0].value }
        } else {
            WaitOutcome::Unrecognized
        }
    } else {
        WaitOutcome::TimedOut
    }
}

/// Events arrive in time order.
pub open spec fn events_ordered(events: Seq<Event>) -> bool {
    forall|i: int, j: int| 0 <= i < j < events.len() ==> events[i].time <= events[j].time
}

/// Only the first event counts: a late event appended to a non-empty
/// sequence never changes the outcome of the wait.
pub proof fn lemma_first_writer_wins(
    options: Seq<u64>,
    deadline: u64,
    events: Seq<Event>,
    late: Event,
)
    requires
        events.len() > 0,
    ensures
        wait_outcome_spec(options, deadline, events.push(late)) == wait_outcome_spec(
            options,
            deadline,
            events,
        ),
{
    assert(events.push(late)[0] == events[0]);
}

impl PromptSession {
    /// A resolved choice always names one of the presented options, and a
    /// retracted prompt is never still open.
    pub open spec fn inv(self) -> bool {
        &&& (self.state matches SessionState::Chosen { value } ==> self.options@.contains(value))
        &&& (self.retracted ==> !(self.state is Open))
    }

    /// Publish a prompt that presents `options` and waits `budget` ticks
    /// from `now`.
    pub fn present(options: Vec<u64>, now: u64, budget: u64) -> (s: PromptSession)
        requires
            now + budget <= u64::MAX,
        ensures
            s.options@ == options@,
            s.deadline == now + budget,
            s.state is Open,
            !s.retracted,
            s.inv(),
    {
        PromptSession {
            options,
            deadline: now + budget,
            state: SessionState::Open,
            retracted: false,
        }
    }

    /// Feed one incoming choice event to the prompt.
    pub fn deliver(&mut self, e: Event)
        requires
            old(self).inv(),
        ensures
            final(self).inv(),
            final(self).options@ == old(self).options@,
            final(self).deadline == old(self).deadline,
            final(self).retracted == old(self).retracted,
            final(self).state == deliver_trans(
                old(self).state,
                old(self).options@,
                old(self).deadline,
                e,
            ),
    {
        match self.state {
            SessionState::Open => {
                if e.time >= self.deadline {
                    self.state = SessionState::TimedOut;
                } else if vec_contains_u64(&self.options, e.value) {
                    self.state = SessionState::Chosen { value: e.value };
                } else {
                    self.state = SessionState::Unrecognized;
                }
            },
            _ => {},
        }
    }

    /// Let the clock reach `now`: an open prompt whose deadline has arrived
    /// times out; anything else stays as it is.
    pub fn expire(&mut self, now: u64)
        requires
            old(self).inv(),
        ensures
            final(self).inv(),
            final(self).options@ == old(self).options@,
            final(self).deadline == old(self).deadline,
            final(self).retracted == old(self).retracted,
            final(self).state == if old(self).state is Open && now >= old(self).deadline {
                SessionState::TimedOut
            } else {
                old(self).state
            },
    {
        match self.state {
            SessionState::Open => {
                if now >= self.deadline {
                    self.state = SessionState::TimedOut;
                }
            },
            _ => {},
        }
    }

    /// Take the prompt message down; only a settled prompt is retracted.
    pub fn retract(&mut self)
        requires
            old(self).inv(),
            !(old(self).state is Open),
        ensures
            final(self).inv(),
            final(self).options@ == old(self).options@,
            final(self).deadline == old(self).deadline,
            final(self).state == old(self).state,
            final(self).retracted,
    {
        self.retracted = true;
    }

    /// Wait the prompt out: feed every event in time order, let the
    /// deadline pass, and retract the prompt. Exactly the first qualifying
    /// event is honored, and the prompt is retracted on every path — on a
    /// choice, on an unrecognized choice, and on a timeout alike.
    pub fn await_choice(&mut self, events: &Vec<Event>) -> (r: WaitOutcome)
        requires
            old(self).inv(),
            old(self).state is Open,
            !old(self).retracted,
            events_ordered(events@),
        ensures
            r == wait_outcome_spec(old(self).options@, old(self).deadline, events@),
            final(self).retracted,
            final(self).inv(),
            final(self).options@ == old(self).options@,
            final(self).deadline == old(self).deadline,
            r matches WaitOutcome::Chosen { value } ==> old(self).options@.contains(value),
            final(self).state == (match r {
                WaitOutcome::Chosen { value } => SessionState::Chosen { value },
                WaitOutcome::Unrecognized => SessionState::Unrecognized,
                WaitOutcome::TimedOut => SessionState::TimedOut,
            }),
    {
        let ghost opts = self.options@;
        let ghost dl = self.deadline;
        let n = events.len();
        let mut k: usize = 0;
        while k < n
            invariant
                self.options@ == opts,
                self.deadline == dl,
                !self.retracted,
                self.inv(),
                n == events@.len(),
                k <= n,
                events_ordered(events@),
                k == 0 ==> self.state is Open,
                k > 0 ==> self.state == deliver_trans(SessionState::Open, opts, dl, events@[0]),
            decreases n - k,
        {
            let ghost st = self.state;
            self.deliver(events[k]);
            proof {
                if k > 0 {
                    assert(!(st is Open));
                    assert(self.state == st);
                }
            }
            k += 1;
        }
        let at_deadline = self.deadline;
        self.expire(at_deadline);
        proof {
            assert(!(self.state is Open));
        }
        self.retract();
        match self.state {
            SessionState::Chosen { value } => WaitOutcome::Chosen { value },
            SessionState::Unrecognized => WaitOutcome::Unrecognized,
            SessionState::TimedOut => WaitOutcome::TimedOut,
            SessionState::Open => {
                proof {
                    assert(false);
                }
                WaitOutcome::TimedOut
            },
        }
    }
}

} // verus!
