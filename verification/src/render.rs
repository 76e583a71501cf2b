//! Read-time presentation of a task: sentinel texts for absent optional
//! fields, and the computed display status.
//!
//! Nothing here is stored: an in-progress task shows as overdue purely as a
//! function of its deadline and the day it is looked at.

use vstd::prelude::*;

use crate::date::{Date, date_lt, format_ymd, today, valid_date, ymd_text_of};
use crate::store::{Status, Task, TaskModel};

verus! {

/// What a task shows as its status once the deadline is taken into account.
#[derive(Clone, Copy, PartialEq, Eq, Structural, Debug)]
pub enum DisplayStatus {
    Done,
    NotStarted,
    InProgress,
    Overdue,
}

/// The display status of a task on a given day: an in-progress task whose
/// deadline lies strictly before that day shows as overdue. The value is
/// computed at read time and never stored.
pub open spec fn display_status_spec(t: TaskModel, on: Date) -> DisplayStatus {
    match t.status {
        Status::Done => DisplayStatus::Done,
        Status::NotStarted => DisplayStatus::NotStarted,
        Status::InProgress => match t.deadline {
            Some(d) => if date_lt(d, on) {
                DisplayStatus::Overdue
            } else {
                DisplayStatus::InProgress
            },
            None => DisplayStatus::InProgress,
        },
    }
}

/// The display status of `t` as of the day `on`.
pub fn display_status(t: &Task, on: &Date) -> (r: DisplayStatus)
    ensures
        r == display_status_spec(t@, *on),
{
    match t.status {
        Status::Done => DisplayStatus::Done,
        Status::NotStarted => DisplayStatus::NotStarted,
        Status::InProgress => match &t.deadline {
            Some(d) => if d.is_before(on) {
                DisplayStatus::Overdue
            } else {
                DisplayStatus::InProgress
            },
            None => DisplayStatus::InProgress,
        },
    }
}

/// The display status of `t` as of today's local date, whatever day that
/// turns out to be.
pub fn display_status_now(t: &Task) -> (r: DisplayStatus)
    ensures
        exists|on: Date| valid_date(on) && r == display_status_spec(t@, on),
{
    let on = today();
    display_status(t, &on)
}

/// An in-progress task whose deadline has passed displays differently from
/// one whose deadline is still ahead or absent: the first shows overdue,
/// the second plain in-progress.
pub proof fn lemma_overdue_distinct(t1: TaskModel, t2: TaskModel, on: Date)
    requires
        t1.status == Status::InProgress,
        t2.status == Status::InProgress,
        t1.deadline matches Some(d1) && date_lt(d1, on),
        t2.deadline is None || (t2.deadline matches Some(d2) && !date_lt(d2, on)),
    ensures
        display_status_spec(t1, on) == DisplayStatus::Overdue,
        display_status_spec(t2, on) == DisplayStatus::InProgress,
        display_status_spec(t1, on) != display_status_spec(t2, on),
{
}

/// Moving only the day of observation across a task's deadline flips the
/// computed display status while the stored task stays exactly the same.
pub proof fn lemma_overdue_flips_with_day(t: TaskModel, day1: Date, day2: Date)
    requires
        t.status == Status::InProgress,
        t.deadline matches Some(d) && date_lt(d, day1) && !date_lt(d, day2),
    ensures
        display_status_spec(t, day1) == DisplayStatus::Overdue,
        display_status_spec(t, day2) == DisplayStatus::InProgress,
        display_status_spec(t, day1) != display_status_spec(t, day2),
{
}

impl Task {
    /// The description shown to users: the stored text, or the sentinel
    /// for a task created without one.
    pub fn description_text(&self) -> (r: String)
        ensures
            self@.description matches Some(d) ==> r@ == d,
            self@.description is None ==> r@ == "no description"@,
    {
        match &self.description {
            Some(d) => d.clone(),
            None => "no description".to_string(),
        }
    }

    /// The assignee shown to users: the stored member identifier, or the
    /// sentinel for an unassigned task.
    pub fn member_text(&self) -> (r: String)
        ensures
            self@.member matches Some(m) ==> r@ == m,
            self@.member is None ==> r@ == "unassigned"@,
    {
        match &self.member {
            Some(m) => m.clone(),
            None => "unassigned".to_string(),
        }
    }

    /// The deadline shown to users: the date in year-month-day form, or the
    /// sentinel for a task without one — and the sentinel appears exactly
    /// for a task without one.
    pub fn deadline_text(&self) -> (r: String)
        requires
            self@.deadline matches Some(d) ==> valid_date(d),
        ensures
            self@.deadline matches Some(d) ==> r@ == ymd_text_of(
                d.year as int,
                d.month as int,
                d.day as int,
            ),
            self@.deadline is None ==> r@ == "no deadline"@,
            r@ == "no deadline"@ <==> self@.deadline is None,
    {
        match &self.deadline {
            Some(d) => {
                let s = format_ymd(d);
                proof {
                    reveal_strlit("no deadline");
                    assert("no deadline"@[0] == 'n');
                    assert(s@[0] != 'n');
                    assert(s@ != "no deadline"@);
                }
                s
            },
            None => "no deadline".to_string(),
        }
    }
}

} // verus!
