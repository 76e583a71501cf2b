//! The channel-scoped task store and its relation registry.
//!
//! A [`Store`] owns one relation per channel that currently holds at least
//! one task. Relations are materialized lazily by the add path and dropped
//! by the delete path as soon as they become empty, so a relation exists if
//! and only if it holds a task. Task identifiers are allocated from a
//! store-wide counter and are never reused.

use vstd::prelude::*;

use crate::date::{Date, valid_date, ymd_of};

verus! {

/// The status of a task. Freshly added tasks are `InProgress`.
#[derive(Clone, Copy, PartialEq, Eq, Structural, Debug)]
pub enum Status {
    Done,
    NotStarted,
    InProgress,
}

/// The numeric code a status is stored under.
pub open spec fn status_code_spec(s: Status) -> int {
    match s {
        Status::Done => 0,
        Status::NotStarted => 1,
        Status::InProgress => 2,
    }
}

impl Status {
    /// The numeric code of this status.
    pub fn code(&self) -> (r: u8)
        ensures
            r as int == status_code_spec(*self),
    {
        match self {
            Status::Done => 0,
            Status::NotStarted => 1,
            Status::InProgress => 2,
        }
    }

    /// The status a numeric code names, if any.
    pub fn from_code(c: u8) -> (r: Option<Status>)
        ensures
            r matches Some(s) ==> status_code_spec(s) == c as int,
            r is Some <==> c <= 2,
    {
        if c == 0 {
            Some(Status::Done)
        } else if c == 1 {
            Some(Status::NotStarted)
        } else if c == 2 {
            Some(Status::InProgress)
        } else {
            None
        }
    }
}

/// One task record.
pub struct Task {
    pub id: u64,
    pub name: String,
    pub description: Option<String>,
    pub member: Option<String>,
    pub deadline: Option<Date>,
    pub status: Status,
}

/// The mathematical value of a task: its text fields as character sequences.
pub ghost struct TaskModel {
    pub id: u64,
    pub name: Seq<char>,
    pub description: Option<Seq<char>>,
    pub member: Option<Seq<char>>,
    pub deadline: Option<Date>,
    pub status: Status,
}

impl View for Task {
    type V = TaskModel;

    open spec fn view(&self) -> TaskModel {
        TaskModel {
            id: self.id,
            name: self.name@,
            description: match self.description {
                Some(d) => Some(d@),
                None => None,
            },
            member: match self.member {
                Some(m) => Some(m@),
                None => None,
            },
            deadline: self.deadline,
            status: self.status,
        }
    }
}

impl Clone for Task {
    fn clone(&self) -> (r: Task)
        ensures
            r@ == self@,
    {
        Task {
            id: self.id,
            name: self.name.clone(),
            description: match &self.description {
                Some(d) => Some(d.clone()),
                None => None,
            },
            member: match &self.member {
                Some(m) => Some(m.clone()),
                None => None,
            },
            deadline: self.deadline,
            status: self.status,
        }
    }
}

/// A channel's relation: the tasks it currently holds.
pub struct Relation {
    pub channel: u64,
    pub tasks: Vec<Task>,
}

/// The mathematical value of a relation.
pub ghost struct RelationModel {
    pub channel: u64,
    pub tasks: Seq<TaskModel>,
}

impl View for Relation {
    type V = RelationModel;

    open spec fn view(&self) -> RelationModel {
        RelationModel { channel: self.channel, tasks: self.tasks@.map_values(|t: Task| t@) }
    }
}

/// The store: every channel's relation, and the next task id to hand out.
pub struct Store {
    pub relations: Vec<Relation>,
    pub next_id: u64,
}

/// The mathematical value of a store.
pub ghost struct StoreModel {
    pub relations: Seq<RelationModel>,
    pub next_id: u64,
}

impl View for Store {
    type V = StoreModel;

    open spec fn view(&self) -> StoreModel {
        StoreModel {
            relations: self.relations@.map_values(|r: Relation| r@),
            next_id: self.next_id,
        }
    }
}

/// Whether the relation list holds a relation for `ch`.
pub open spec fn rels_has(rels: Seq<RelationModel>, ch: u64) -> bool {
    exists|i: int| 0 <= i < rels.len() && rels[i].channel == ch
}

/// The index of the relation for `ch` (meaningful only when it exists).
pub open spec fn rels_idx(rels: Seq<RelationModel>, ch: u64) -> int {
    choose|i: int| 0 <= i < rels.len() && rels[i].channel == ch
}

/// The tasks of channel `ch`; a channel without a relation holds none.
pub open spec fn rels_tasks(rels: Seq<RelationModel>, ch: u64) -> Seq<TaskModel> {
    if rels_has(rels, ch) {
        rels[rels_idx(rels, ch)].tasks
    } else {
        Seq::empty()
    }
}

/// No two relations serve the same channel.
pub open spec fn channels_unique(rels: Seq<RelationModel>) -> bool {
    forall|i: int, j: int| 0 <= i < j < rels.len() ==> rels[i].channel != rels[j].channel
}

/// Per-relation soundness: ids unique and below the store's counter, and
/// every stored deadline a valid calendar date.
pub open spec fn rel_inv(r: RelationModel, next_id: u64) -> bool {
    &&& forall|a: int, b: int| 0 <= a < b < r.tasks.len() ==> r.tasks[a].id != r.tasks[b].id
    &&& forall|a: int| 0 <= a < r.tasks.len() ==> r.tasks[a].id < next_id
    &&& forall|a: int|
        0 <= a < r.tasks.len() ==> (#[trigger] r.tasks[a].deadline matches Some(d)
            ==> valid_date(d))
}

/// A relation sound for one id counter is sound for any larger one.
pub proof fn lemma_rel_inv_mono(r: RelationModel, n1: u64, n2: u64)
    requires
        rel_inv(r, n1),
        n1 <= n2,
    ensures
        rel_inv(r, n2),
{
}

impl StoreModel {
    /// Whether a relation for `ch` exists.
    pub open spec fn has_rel(self, ch: u64) -> bool {
        rels_has(self.relations, ch)
    }

    /// The index of the relation for `ch` (meaningful only when it exists).
    pub open spec fn rel_idx(self, ch: u64) -> int {
        rels_idx(self.relations, ch)
    }

    /// The tasks of channel `ch`; a channel without a relation holds none.
    pub open spec fn tasks_of(self, ch: u64) -> Seq<TaskModel> {
        rels_tasks(self.relations, ch)
    }

    /// Whether channel `ch` holds a task with identifier `id`.
    pub open spec fn has_task(self, ch: u64, id: u64) -> bool {
        exists|j: int| 0 <= j < self.tasks_of(ch).len() && self.tasks_of(ch)[j].id == id
    }

    /// The position of task `id` in channel `ch` (meaningful only when present).
    pub open spec fn task_idx(self, ch: u64, id: u64) -> int {
        choose|j: int| 0 <= j < self.tasks_of(ch).len() && self.tasks_of(ch)[j].id == id
    }

    /// Structural soundness: unique channels, and every relation internally
    /// sound with respect to the id counter.
    pub open spec fn inv(self) -> bool {
        &&& channels_unique(self.relations)
        &&& forall|i: int|
            0 <= i < self.relations.len() ==> rel_inv(
                #[trigger] self.relations[i],
                self.next_id,
            )
    }

    /// The registry discipline: no relation persists empty.
    pub open spec fn no_empty_relations(self) -> bool {
        forall|i: int| 0 <= i < self.relations.len() ==> self.relations[i].tasks.len() >= 1
    }

    /// Full well-formedness of a store at rest.
    pub open spec fn wf(self) -> bool {
        self.inv() && self.no_empty_relations()
    }
}

/// If some relation at index `i` serves `ch` and channels are unique, then
/// `rels_idx` is exactly `i`.
pub proof fn lemma_rels_idx_is(rels: Seq<RelationModel>, ch: u64, i: int)
    requires
        channels_unique(rels),
        0 <= i < rels.len(),
        rels[i].channel == ch,
    ensures
        rels_has(rels, ch),
        rels_idx(rels, ch) == i,
        rels_tasks(rels, ch) == rels[i].tasks,
{
    assert(rels_has(rels, ch));
    let j = rels_idx(rels, ch);
    if j != i {
        assert(false);
    }
}

/// Updating the tasks of the relation at `i` leaves every other channel's
/// relation and tasks as they were.
pub proof fn lemma_update_tasks(rels: Seq<RelationModel>, i: int, tasks: Seq<TaskModel>, c: u64)
    requires
        channels_unique(rels),
        0 <= i < rels.len(),
    ensures
        ({
            let rels2 = rels.update(i, RelationModel { channel: rels[i].channel, tasks });
            &&& channels_unique(rels2)
            &&& rels_has(rels2, c) == rels_has(rels, c)
            &&& (c == rels[i].channel ==> rels_tasks(rels2, c) == tasks)
            &&& (c != rels[i].channel ==> rels_tasks(rels2, c) == rels_tasks(rels, c))
        }),
{
    let rels2 = rels.update(i, RelationModel { channel: rels[i].channel, tasks });
    assert(forall|k: int| 0 <= k < rels.len() ==> rels2[k].channel == rels[k].channel);
    if c == rels[i].channel {
        lemma_rels_idx_is(rels2, c, i);
    } else {
        if rels_has(rels, c) {
            let j = rels_idx(rels, c);
            assert(j != i);
            lemma_rels_idx_is(rels2, c, j);
        } else {
            assert(!rels_has(rels2, c));
        }
    }
}

/// Appending a relation for a fresh channel leaves every other channel's
/// relation and tasks as they were.
pub proof fn lemma_push_rel(rels: Seq<RelationModel>, r: RelationModel, c: u64)
    requires
        channels_unique(rels),
        !rels_has(rels, r.channel),
    ensures
        ({
            let rels2 = rels.push(r);
            &&& channels_unique(rels2)
            &&& rels_has(rels2, r.channel)
            &&& (c == r.channel ==> rels_tasks(rels2, c) == r.tasks)
            &&& (c != r.channel ==> rels_has(rels2, c) == rels_has(rels, c) && rels_tasks(
                rels2,
                c,
            ) == rels_tasks(rels, c))
        }),
{
    let rels2 = rels.push(r);
    assert(rels2[rels.len() as int] == r);
    assert(forall|k: int| 0 <= k < rels.len() ==> rels2[k] == rels[k]);
    if c == r.channel {
        lemma_rels_idx_is(rels2, c, rels.len() as int);
    } else {
        if rels_has(rels, c) {
            let j = rels_idx(rels, c);
            lemma_rels_idx_is(rels2, c, j);
        } else {
            assert(!rels_has(rels2, c));
        }
    }
}

/// Removing the relation at `i` leaves every other channel's relation and
/// tasks as they were, and leaves its own channel without a relation.
pub proof fn lemma_remove_rel(rels: Seq<RelationModel>, i: int, c: u64)
    requires
        channels_unique(rels),
        0 <= i < rels.len(),
    ensures
        ({
            let rels2 = rels.remove(i);
            &&& channels_unique(rels2)
            &&& !rels_has(rels2, rels[i].channel)
            &&& (c != rels[i].channel ==> rels_has(rels2, c) == rels_has(rels, c) && rels_tasks(
                rels2,
                c,
            ) == rels_tasks(rels, c))
        }),
{
    let rels2 = rels.remove(i);
    assert(forall|k: int| 0 <= k < i ==> rels2[k] == rels[k]);
    assert(forall|k: int| i <= k < rels2.len() ==> rels2[k] == rels[k + 1]);
    assert(channels_unique(rels2));
    if rels_has(rels2, rels[i].channel) {
        let j = rels_idx(rels2, rels[i].channel);
        if j < i {
            assert(rels[j].channel == rels[i].channel);
            assert(false);
        } else {
            assert(rels[j + 1].channel == rels[i].channel);
            assert(false);
        }
    }
    if c != rels[i].channel {
        if rels_has(rels, c) {
            let j = rels_idx(rels, c);
            assert(j != i);
            if j < i {
                lemma_rels_idx_is(rels2, c, j);
            } else {
                assert(rels2[j - 1] == rels[j]);
                lemma_rels_idx_is(rels2, c, j - 1);
            }
        } else {
            if rels_has(rels2, c) {
                let j = rels_idx(rels2, c);
                if j < i {
                    assert(rels[j].channel == c);
                } else {
                    assert(rels[j + 1].channel == c);
                }
                assert(false);
            }
        }
    }
}

/// The record `add` appends: status starts `InProgress`.
pub open spec fn new_task_model(
    id: u64,
    name: Seq<char>,
    description: Option<Seq<char>>,
    member: Option<Seq<char>>,
    deadline: Option<Date>,
) -> TaskModel {
    TaskModel { id, name, description, member, deadline, status: Status::InProgress }
}

/// The text of an optional string argument.
pub open spec fn opt_text(o: Option<String>) -> Option<Seq<char>> {
    match o {
        Some(s) => Some(s@),
        None => None,
    }
}

/// The deadline an optional text argument denotes: absent, or whatever the
/// date parser makes of the text (unparsable text degrades to no deadline).
pub open spec fn deadline_of_text(o: Option<String>) -> Option<Date> {
    match o {
        Some(s) => ymd_of(s@),
        None => None,
    }
}

impl StoreModel {
    /// What `add` does: append the new task to the channel's relation,
    /// materializing the relation first if the channel has none.
    pub open spec fn add_trans(
        self,
        ch: u64,
        name: Seq<char>,
        description: Option<Seq<char>>,
        member: Option<Seq<char>>,
        deadline: Option<Date>,
    ) -> StoreModel {
        let t = new_task_model(self.next_id, name, description, member, deadline);
        let rels = if self.has_rel(ch) {
            let i = self.rel_idx(ch);
            self.relations.update(
                i,
                RelationModel { channel: ch, tasks: self.relations[i].tasks.push(t) },
            )
        } else {
            self.relations.push(RelationModel { channel: ch, tasks: seq![t] })
        };
        StoreModel { relations: rels, next_id: (self.next_id + 1) as u64 }
    }

    /// What `delete` does: remove the row, then drop the relation if that
    /// left it empty; a miss changes nothing.
    pub open spec fn delete_trans(self, ch: u64, id: u64) -> StoreModel {
        if self.has_task(ch, id) {
            let i = self.rel_idx(ch);
            let ts = self.relations[i].tasks.remove(self.task_idx(ch, id));
            if ts.len() == 0 {
                StoreModel { relations: self.relations.remove(i), next_id: self.next_id }
            } else {
                StoreModel {
                    relations: self.relations.update(i, RelationModel { channel: ch, tasks: ts }),
                    next_id: self.next_id,
                }
            }
        } else {
            self
        }
    }

    /// What `set_status` does: replace the status of the addressed row and
    /// nothing else; a miss changes nothing.
    pub open spec fn set_status_trans(self, ch: u64, id: u64, st: Status) -> StoreModel {
        if self.has_task(ch, id) {
            let i = self.rel_idx(ch);
            let j = self.task_idx(ch, id);
            let t = self.relations[i].tasks[j];
            let t2 = TaskModel {
                id: t.id,
                name: t.name,
                description: t.description,
                member: t.member,
                deadline: t.deadline,
                status: st,
            };
            StoreModel {
                relations: self.relations.update(
                    i,
                    RelationModel { channel: ch, tasks: self.relations[i].tasks.update(j, t2) },
                ),
                next_id: self.next_id,
            }
        } else {
            self
        }
    }
}

/// Whether a task matches an optional member filter.
pub open spec fn member_matches(t: TaskModel, f: Option<Seq<char>>) -> bool {
    match f {
        None => true,
        Some(m) => t.member == Some(m),
    }
}

/// The subsequence of `ts` that matches the member filter, in order.
pub open spec fn filter_member(ts: Seq<TaskModel>, f: Option<Seq<char>>) -> Seq<TaskModel>
    decreases ts.len(),
{
    if ts.len() == 0 {
        Seq::empty()
    } else {
        let rest = filter_member(ts.drop_last(), f);
        if member_matches(ts.last(), f) {
            rest.push(ts.last())
        } else {
            rest
        }
    }
}

/// The text of an optional borrowed string argument.
pub open spec fn opt_ref_text(o: Option<&String>) -> Option<Seq<char>> {
    match o {
        Some(s) => Some(s@),
        None => None,
    }
}

/// The relations whose channel is still live, in stored order.
pub open spec fn keep_live(rels: Seq<RelationModel>, live: Seq<u64>) -> Seq<RelationModel>
    decreases rels.len(),
{
    if rels.len() == 0 {
        Seq::empty()
    } else {
        let rest = keep_live(rels.drop_last(), live);
        if live.contains(rels.last().channel) {
            rest.push(rels.last())
        } else {
            rest
        }
    }
}

/// What pruning keeps: every kept relation is one of the old ones and its
/// channel is live; live channels keep their relation and tasks unchanged,
/// dead channels lose theirs.
pub proof fn lemma_keep_live(rels: Seq<RelationModel>, live: Seq<u64>)
    requires
        channels_unique(rels),
    ensures
        ({
            let kept = keep_live(rels, live);
            &&& kept.len() <= rels.len()
            &&& channels_unique(kept)
            &&& forall|k: int| 0 <= k < kept.len() ==> rels.contains(#[trigger] kept[k])
            &&& forall|c: u64|
                !live.contains(c) ==> !rels_has(kept, c)
            &&& forall|c: u64|
                live.contains(c) ==> rels_has(kept, c) == rels_has(rels, c) && rels_tasks(
                    kept,
                    c,
                ) == rels_tasks(rels, c)
        }),
    decreases rels.len(),
{
    let kept = keep_live(rels, live);
    if rels.len() == 0 {
        assert forall|c: u64| !rels_has(kept, c) by {
            if rels_has(kept, c) {
                let j = rels_idx(kept, c);
            }
        }
    } else {
        let head = rels.drop_last();
        let last = rels.last();
        lemma_keep_live(head, live);
        let kd = keep_live(head, live);
        assert(forall|k: int| 0 <= k < head.len() ==> head[k] == rels[k]);
        assert(forall|k: int|
            0 <= k < kd.len() ==> rels.contains(#[trigger] kd[k])) by {
            assert forall|k: int| 0 <= k < kd.len() implies rels.contains(#[trigger] kd[k]) by {
                let c = choose|c: int| 0 <= c < head.len() && head[c] == kd[k];
                assert(rels[c] == kd[k]);
            }
        }
        // a kept relation's channel never equals the dropped-context channel
        // of `last` unless `last` itself was kept, thanks to uniqueness
        assert forall|k: int| 0 <= k < kd.len() implies kd[k].channel != last.channel by {
            let c = choose|c: int| 0 <= c < head.len() && head[c] == kd[k];
            assert(rels[c] == kd[k]);
            assert(rels[rels.len() - 1] == last);
        }
        if live.contains(last.channel) {
            assert(kept == kd.push(last));
            assert(channels_unique(kept)) by {
                assert(forall|k: int| 0 <= k < kd.len() ==> kept[k] == kd[k]);
                assert(kept[kd.len() as int] == last);
            }
            assert forall|k: int| 0 <= k < kept.len() implies rels.contains(#[trigger] kept[k]) by {
                if k < kd.len() {
                    assert(kept[k] == kd[k]);
                } else {
                    assert(kept[k] == last);
                    assert(rels[rels.len() - 1] == last);
                }
            }
            assert forall|c: u64| !live.contains(c) implies !rels_has(kept, c) by {
                if rels_has(kept, c) {
                    let j = rels_idx(kept, c);
                    if j < kd.len() {
                        assert(kd[j].channel == c);
                        assert(rels_has(kd, c));
                    } else {
                        assert(kept[j] == last);
                    }
                    assert(false);
                }
            }
            assert forall|c: u64| live.contains(c) implies rels_has(kept, c) == rels_has(rels, c)
                && rels_tasks(kept, c) == rels_tasks(rels, c) by {
                if c == last.channel {
                    lemma_rels_idx_is(kept, c, kd.len() as int);
                    lemma_rels_idx_is(rels, c, rels.len() - 1);
                } else {
                    assert(rels_has(kept, c) == rels_has(kd, c)) by {
                        if rels_has(kd, c) {
                            let j = rels_idx(kd, c);
                            assert(kept[j] == kd[j]);
                            assert(rels_has(kept, c));
                        }
                        if rels_has(kept, c) {
                            let j = rels_idx(kept, c);
                            assert(j < kd.len());
                            assert(kd[j].channel == c);
                            assert(rels_has(kd, c));
                        }
                    }
                    assert(rels_has(rels, c) == rels_has(head, c)) by {
                        if rels_has(rels, c) {
                            let j = rels_idx(rels, c);
                            assert(j < head.len());
                            assert(head[j].channel == c);
                            assert(rels_has(head, c));
                        }
                        if rels_has(head, c) {
                            let j = rels_idx(head, c);
                            assert(rels[j].channel == c);
                            assert(rels_has(rels, c));
                        }
                    }
                    if rels_has(kept, c) {
                        let j = rels_idx(kd, c);
                        lemma_rels_idx_is(kept, c, j);
                        let j2 = rels_idx(head, c);
                        lemma_rels_idx_is(rels, c, j2);
                    }
                }
            }
        } else {
            assert(kept == kd);
            assert forall|c: u64| !live.contains(c) implies !rels_has(kept, c) by {}
            assert forall|c: u64| live.contains(c) implies rels_has(kept, c) == rels_has(rels, c)
                && rels_tasks(kept, c) == rels_tasks(rels, c) by {
                assert(c != last.channel);
                assert(rels_has(rels, c) == rels_has(head, c)) by {
                    if rels_has(rels, c) {
                        let j = rels_idx(rels, c);
                        assert(j < head.len());
                        assert(head[j].channel == c);
                        assert(rels_has(head, c));
                    }
                    if rels_has(head, c) {
                        let j = rels_idx(head, c);
                        assert(rels[j].channel == c);
                        assert(rels_has(rels, c));
                    }
                }
                if rels_has(rels, c) {
                    let j2 = rels_idx(head, c);
                    lemma_rels_idx_is(rels, c, j2);
                }
            }
        }
    }
}

/// If channel `ch` exists, its ids are unique, and position `j` holds `id`,
/// then `task_idx` is exactly `j`.
pub proof fn lemma_task_idx_is(m: StoreModel, ch: u64, id: u64, j: int)
    requires
        m.inv(),
        m.has_rel(ch),
        0 <= j < m.tasks_of(ch).len(),
        m.tasks_of(ch)[j].id == id,
    ensures
        m.has_task(ch, id),
        m.task_idx(ch, id) == j,
{
    lemma_rels_idx_is(m.relations, ch, m.rel_idx(ch));
    assert(m.has_task(ch, id));
    let k = m.task_idx(ch, id);
    if k != j {
        let i = m.rel_idx(ch);
        assert(rel_inv(m.relations[i], m.next_id));
        assert(m.relations[i].tasks[k].id == m.relations[i].tasks[j].id);
        assert(false);
    }
}

impl Store {
    /// An empty store: no relations, ids start at zero.
    pub fn new() -> (r: Store)
        ensures
            r@.relations == Seq::<RelationModel>::empty(),
            r@.next_id == 0,
            r@.wf(),
    {
        let s = Store { relations: Vec::new(), next_id: 0 };
        proof {
            assert(s@.relations =~= Seq::<RelationModel>::empty());
        }
        s
    }

    /// The index of the relation for `channel`, if one exists.
    fn find_rel(&self, channel: u64) -> (r: Option<usize>)
        ensures
            match r {
                Some(i) => i < self@.relations.len() && self@.relations[i as int].channel
                    == channel,
                None => !self@.has_rel(channel),
            },
    {
        let mut i: usize = 0;
        while i < self.relations.len()
            invariant
                i <= self@.relations.len(),
                forall|k: int| 0 <= k < i ==> self@.relations[k].channel != channel,
            decreases self@.relations.len() - i,
        {
            if self.relations[i].channel == channel {
                return Some(i);
            }
            i += 1;
        }
        None
    }

    /// Whether a relation for `channel` currently exists.
    pub fn has_relation(&self, channel: u64) -> (r: bool)
        ensures
            r == self@.has_rel(channel),
    {
        match self.find_rel(channel) {
            Some(i) => {
                proof {
                    assert(self@.has_rel(channel));
                }
                true
            },
            None => false,
        }
    }

    /// Make sure a relation for `channel` exists; idempotent, so the add
    /// path may call it without checking first. Returns the relation's
    /// index. A freshly created relation is empty until the pending write
    /// lands, so only the caller restores the no-empty-relation discipline.
    pub fn ensure_relation(&mut self, channel: u64) -> (i: usize)
        requires
            old(self)@.inv(),
        ensures
            final(self)@.inv(),
            final(self)@.next_id == old(self)@.next_id,
            i < final(self)@.relations.len(),
            final(self)@.relations[i as int].channel == channel,
            final(self)@.has_rel(channel),
            old(self)@.has_rel(channel) ==> final(self)@ == old(self)@,
            !old(self)@.has_rel(channel) ==> final(self)@.relations == old(self)@.relations.push(
                RelationModel { channel, tasks: Seq::empty() },
            ),
    {
        match self.find_rel(channel) {
            Some(i) => i,
            None => {
                let ghost pre = self@;
                let i = self.relations.len();
                self.relations.push(Relation { channel, tasks: Vec::new() });
                proof {
                    let empty_rel = RelationModel { channel, tasks: Seq::empty() };
                    assert(self@.relations[i as int].tasks =~= Seq::<TaskModel>::empty());
                    assert(self@.relations =~= pre.relations.push(empty_rel));
                    lemma_push_rel(pre.relations, empty_rel, channel);
                    assert(self@.inv());
                }
                i
            },
        }
    }

    /// Drop the relation for `channel` if it exists and holds no task;
    /// otherwise change nothing. The delete path calls this after every
    /// removal, which is what keeps no relation around empty.
    pub fn drop_if_empty(&mut self, channel: u64)
        requires
            old(self)@.inv(),
        ensures
            final(self)@.inv(),
            final(self)@.next_id == old(self)@.next_id,
            old(self)@.has_rel(channel) && old(self)@.tasks_of(channel).len() == 0 ==> final(self)@.relations == old(self)@.relations.remove(old(self)@.rel_idx(channel)),
            !(old(self)@.has_rel(channel) && old(self)@.tasks_of(channel).len() == 0) ==> final(self)@ == old(self)@,
            !final(self)@.has_rel(channel) || final(self)@.tasks_of(channel).len() >= 1,
            forall|c: u64|
                c != channel ==> final(self)@.has_rel(c) == old(self)@.has_rel(c) && final(self)@.tasks_of(c) == old(self)@.tasks_of(c),
    {
        let ghost pre = self@;
        match self.find_rel(channel) {
            Some(i) => {
                proof {
                    lemma_rels_idx_is(pre.relations, channel, i as int);
                }
                if self.relations[i].tasks.len() == 0 {
                    let _ = self.relations.remove(i);
                    proof {
                        assert(self@.relations =~= pre.relations.remove(i as int));
                        lemma_remove_rel(pre.relations, i as int, channel);
                        assert forall|c: u64| c != channel implies final(self)@.has_rel(c) == pre
                            .has_rel(c) && final(self)@.tasks_of(c) == pre.tasks_of(c) by {
                            lemma_remove_rel(pre.relations, i as int, c);
                        }
                        let m2 = self@;
                        assert forall|k: int|
                            0 <= k < m2.relations.len() implies rel_inv(
                            #[trigger] m2.relations[k],
                            m2.next_id,
                        ) by {
                            if k < i as int {
                                assert(m2.relations[k] == pre.relations[k]);
                                assert(rel_inv(pre.relations[k], pre.next_id));
                            } else {
                                assert(m2.relations[k] == pre.relations[k + 1]);
                                assert(rel_inv(pre.relations[k + 1], pre.next_id));
                            }
                        }
                        assert(self@.inv());
                    }
                }
            },
            None => {},
        }
    }

    /// Insert a task: allocate the next id, parse the optional deadline
    /// text (unparsable text is stored as no deadline rather than rejected),
    /// materialize the channel's relation if needed, and append the record
    /// with status `InProgress`. Returns the new task's id.
    pub fn add(
        &mut self,
        channel: u64,
        name: String,
        description: Option<String>,
        member: Option<String>,
        deadline: Option<String>,
    ) -> (r: u64)
        requires
            old(self)@.inv(),
            old(self)@.next_id < u64::MAX,
        ensures
            final(self)@ == old(self)@.add_trans(
                channel,
                name@,
                opt_text(description),
                opt_text(member),
                deadline_of_text(deadline),
            ),
            final(self)@.inv(),
            old(self)@.no_empty_relations() ==> final(self)@.no_empty_relations(),
            r == old(self)@.next_id,
            final(self)@.next_id == old(self)@.next_id + 1,
            final(self)@.has_rel(channel),
            final(self)@.tasks_of(channel) == old(self)@.tasks_of(channel).push(
                new_task_model(
                    old(self)@.next_id,
                    name@,
                    opt_text(description),
                    opt_text(member),
                    deadline_of_text(deadline),
                ),
            ),
            forall|c: u64|
                c != channel ==> final(self)@.has_rel(c) == old(self)@.has_rel(c) && final(self)@.tasks_of(c) == old(self)@.tasks_of(c),
    {
        let ghost pre = self@;
        let deadline_date: Option<Date> = match &deadline {
            Some(s) => crate::date::parse_ymd(s.as_str()),
            None => None,
        };
        let id = self.next_id;
        self.next_id = id + 1;
        let i = self.ensure_relation(channel);
        let ghost mid = self@;
        let task = Task {
            id,
            name,
            description,
            member,
            deadline: deadline_date,
            status: Status::InProgress,
        };
        let ghost tm = new_task_model(
            pre.next_id,
            name@,
            opt_text(description),
            opt_text(member),
            deadline_of_text(deadline),
        );
        proof {
            assert(task@ == tm);
        }
        let rel = &mut self.relations[i];
        let ghost rel_pre = *rel;
        rel.tasks.push(task);
        proof {
            assert(rel_pre@.channel == channel);
            assert(final(rel)@.tasks =~= rel_pre@.tasks.push(tm));
            assert(self@.relations =~= mid.relations.update(
                i as int,
                RelationModel { channel, tasks: mid.relations[i as int].tasks.push(tm) },
            ));
            if pre.has_rel(channel) {
                lemma_rels_idx_is(pre.relations, channel, i as int);
                assert(self@.relations =~= pre.add_trans(
                    channel,
                    name@,
                    opt_text(description),
                    opt_text(member),
                    deadline_of_text(deadline),
                ).relations);
            } else {
                assert(mid.relations == pre.relations.push(
                    RelationModel { channel, tasks: Seq::empty() },
                ));
                assert(mid.relations[i as int].tasks.push(tm) =~= seq![tm]);
                assert(self@.relations =~= pre.relations.push(
                    RelationModel { channel, tasks: seq![tm] },
                ));
            }
            lemma_update_tasks(mid.relations, i as int, mid.relations[i as int].tasks.push(tm), channel);
            assert forall|c: u64| c != channel implies self@.has_rel(c) == pre.has_rel(c)
                && self@.tasks_of(c) == pre.tasks_of(c) by {
                lemma_update_tasks(
                    mid.relations,
                    i as int,
                    mid.relations[i as int].tasks.push(tm),
                    c,
                );
                if !pre.has_rel(channel) {
                    lemma_push_rel(
                        pre.relations,
                        RelationModel { channel, tasks: Seq::empty() },
                        c,
                    );
                }
            }
            if pre.has_rel(channel) {
                lemma_update_tasks(
                    mid.relations,
                    i as int,
                    mid.relations[i as int].tasks.push(tm),
                    channel,
                );
                assert(self@.tasks_of(channel) == pre.tasks_of(channel).push(tm));
            } else {
                lemma_push_rel(pre.relations, RelationModel { channel, tasks: Seq::empty() }, channel);
                lemma_update_tasks(
                    mid.relations,
                    i as int,
                    mid.relations[i as int].tasks.push(tm),
                    channel,
                );
                assert(pre.tasks_of(channel) =~= Seq::<TaskModel>::empty());
                assert(self@.tasks_of(channel) =~= pre.tasks_of(channel).push(tm));
            }
            let m2 = self@;
            assert forall|k: int|
                0 <= k < m2.relations.len() implies rel_inv(
                #[trigger] m2.relations[k],
                m2.next_id,
            ) by {
                if k != i as int {
                    assert(m2.relations[k] == mid.relations[k]);
                    if k < pre.relations.len() {
                        assert(mid.relations[k] == pre.relations[k]);
                        assert(rel_inv(pre.relations[k], pre.next_id));
                        lemma_rel_inv_mono(pre.relations[k], pre.next_id, m2.next_id);
                    }
                } else {
                    let old_tasks = mid.relations[i as int].tasks;
                    let new_tasks = m2.relations[k].tasks;
                    assert(new_tasks == old_tasks.push(tm));
                    if i < pre.relations.len() {
                        assert(rel_inv(pre.relations[i as int], pre.next_id));
                    }
                    assert(forall|a: int| 0 <= a < old_tasks.len() ==> old_tasks[a].id < pre.next_id);
                    assert(forall|a: int| 0 <= a < new_tasks.len() ==> new_tasks[a] == if a
                        < old_tasks.len() {
                        old_tasks[a]
                    } else {
                        tm
                    });
                    assert(rel_inv(m2.relations[k], m2.next_id));
                }
            }
            assert(self@.inv());
        }
        id
    }

    /// The position of the task with identifier `task_id` in the relation at
    /// index `i`, if present.
    fn find_task(&self, i: usize, task_id: u64) -> (r: Option<usize>)
        requires
            i < self@.relations.len(),
        ensures
            match r {
                Some(j) => j < self@.relations[i as int].tasks.len() && self@.relations[
                    i as int
                ].tasks[j as int].id == task_id,
                None => forall|k: int|
                    0 <= k < self@.relations[i as int].tasks.len() ==> self@.relations[
                        i as int
                    ].tasks[k].id != task_id,
            },
    {
        let n = self.relations[i].tasks.len();
        let mut j: usize = 0;
        while j < n
            invariant
                i < self@.relations.len(),
                n == self@.relations[i as int].tasks.len(),
                j <= n,
                forall|k: int|
                    0 <= k < j ==> self@.relations[i as int].tasks[k].id != task_id,
            decreases n - j,
        {
            if self.relations[i].tasks[j].id == task_id {
                return Some(j);
            }
            j += 1;
        }
        None
    }

    /// Remove the task `task_id` from `channel`'s relation. Returns whether
    /// a row was actually removed (a missing id is not an error). Deleting
    /// the last row drops the relation itself in the same operation.
    pub fn delete(&mut self, channel: u64, task_id: u64) -> (r: bool)
        requires
            old(self)@.inv(),
        ensures
            final(self)@ == old(self)@.delete_trans(channel, task_id),
            final(self)@.inv(),
            old(self)@.no_empty_relations() ==> final(self)@.no_empty_relations(),
            r == old(self)@.has_task(channel, task_id),
            final(self)@.next_id == old(self)@.next_id,
            !r ==> final(self)@ == old(self)@,
            r ==> final(self)@.tasks_of(channel) == old(self)@.tasks_of(channel).remove(
                old(self)@.task_idx(channel, task_id),
            ),
            r && old(self)@.tasks_of(channel).len() == 1 ==> !final(self)@.has_rel(channel),
            r && old(self)@.tasks_of(channel).len() > 1 ==> final(self)@.has_rel(channel),
            forall|c: u64|
                c != channel ==> final(self)@.has_rel(c) == old(self)@.has_rel(c)
                    && final(self)@.tasks_of(c) == old(self)@.tasks_of(c),
    {
        let ghost pre = self@;
        let i = match self.find_rel(channel) {
            Some(i) => i,
            None => {
                proof {
                    assert(pre.tasks_of(channel) =~= Seq::<TaskModel>::empty());
                    assert(!pre.has_task(channel, task_id));
                }
                return false;
            },
        };
        proof {
            lemma_rels_idx_is(pre.relations, channel, i as int);
        }
        let j = match self.find_task(i, task_id) {
            Some(j) => j,
            None => {
                proof {
                    assert(!pre.has_task(channel, task_id));
                }
                return false;
            },
        };
        proof {
            lemma_task_idx_is(pre, channel, task_id, j as int);
        }
        let rel = &mut self.relations[i];
        let ghost rel_pre = *rel;
        let _ = rel.tasks.remove(j);
        let ghost mid = self@;
        let ghost ts = pre.tasks_of(channel).remove(j as int);
        proof {
            assert(final(rel)@.tasks =~= rel_pre@.tasks.remove(j as int));
            assert(mid.relations =~= pre.relations.update(
                i as int,
                RelationModel { channel, tasks: ts },
            ));
            lemma_update_tasks(pre.relations, i as int, ts, channel);
            lemma_rels_idx_is(mid.relations, channel, i as int);
            // ids stay unique and bounded, deadlines stay valid: every
            // surviving row is one of the old rows
            assert(forall|k: int| 0 <= k < ts.len() ==> ts[k] == if k < j {
                pre.relations[i as int].tasks[k]
            } else {
                pre.relations[i as int].tasks[k + 1]
            });
            assert forall|k: int|
                0 <= k < mid.relations.len() implies rel_inv(
                #[trigger] mid.relations[k],
                mid.next_id,
            ) by {
                if k != i as int {
                    assert(mid.relations[k] == pre.relations[k]);
                    assert(rel_inv(pre.relations[k], pre.next_id));
                } else {
                    assert(rel_inv(pre.relations[i as int], pre.next_id));
                    assert(mid.relations[k].tasks == ts);
                    assert forall|a: int, b: int|
                        0 <= a < b < ts.len() implies ts[a].id != ts[b].id by {
                        if b < j {
                        } else if a < j {
                            assert(ts[b] == pre.relations[i as int].tasks[b + 1]);
                        } else {
                            assert(ts[a] == pre.relations[i as int].tasks[a + 1]);
                            assert(ts[b] == pre.relations[i as int].tasks[b + 1]);
                        }
                    }
                    assert(rel_inv(mid.relations[k], mid.next_id));
                }
            }
            assert(mid.inv());
        }
        self.drop_if_empty(channel);
        proof {
            if ts.len() == 0 {
                assert(self@.relations =~= pre.relations.update(
                    i as int,
                    RelationModel { channel, tasks: ts },
                ).remove(i as int));
                assert(self@.relations =~= pre.delete_trans(channel, task_id).relations);
                assert(self@.tasks_of(channel) =~= Seq::<TaskModel>::empty());
                assert(self@.tasks_of(channel) =~= ts);
            } else {
                assert(self@ == mid);
                assert(self@.tasks_of(channel) == ts);
            }
            assert(self@ == pre.delete_trans(channel, task_id));
            assert forall|c: u64| c != channel implies self@.has_rel(c) == pre.has_rel(c)
                && self@.tasks_of(c) == pre.tasks_of(c) by {
                lemma_update_tasks(pre.relations, i as int, ts, c);
            }
        }
        true
    }

    /// Set the status of task `task_id` in `channel`'s relation, touching
    /// nothing else. Returns whether a row was affected.
    pub fn set_status(&mut self, channel: u64, task_id: u64, status: Status) -> (r: bool)
        requires
            old(self)@.inv(),
        ensures
            final(self)@ == old(self)@.set_status_trans(channel, task_id, status),
            final(self)@.inv(),
            old(self)@.no_empty_relations() ==> final(self)@.no_empty_relations(),
            r == old(self)@.has_task(channel, task_id),
            final(self)@.next_id == old(self)@.next_id,
            !r ==> final(self)@ == old(self)@,
            r ==> final(self)@.tasks_of(channel) == old(self)@.tasks_of(channel).update(
                old(self)@.task_idx(channel, task_id),
                TaskModel {
                    status,
                    ..old(self)@.tasks_of(channel)[old(self)@.task_idx(channel, task_id)]
                },
            ),
            forall|c: u64|
                c != channel ==> final(self)@.has_rel(c) == old(self)@.has_rel(c)
                    && final(self)@.tasks_of(c) == old(self)@.tasks_of(c),
    {
        let ghost pre = self@;
        let i = match self.find_rel(channel) {
            Some(i) => i,
            None => {
                proof {
                    assert(pre.tasks_of(channel) =~= Seq::<TaskModel>::empty());
                    assert(!pre.has_task(channel, task_id));
                }
                return false;
            },
        };
        proof {
            lemma_rels_idx_is(pre.relations, channel, i as int);
        }
        let j = match self.find_task(i, task_id) {
            Some(j) => j,
            None => {
                proof {
                    assert(!pre.has_task(channel, task_id));
                }
                return false;
            },
        };
        proof {
            lemma_task_idx_is(pre, channel, task_id, j as int);
        }
        let rel = &mut self.relations[i];
        let ghost rel_pre = *rel;
        let t = &mut rel.tasks[j];
        t.status = status;
        let ghost t2 = TaskModel { status, ..pre.tasks_of(channel)[j as int] };
        let ghost ts = pre.tasks_of(channel).update(j as int, t2);
        proof {
            assert(final(rel)@.tasks =~= rel_pre@.tasks.update(j as int, t2));
            assert(self@.relations =~= pre.relations.update(
                i as int,
                RelationModel { channel, tasks: ts },
            ));
            assert(self@ == pre.set_status_trans(channel, task_id, status));
            lemma_update_tasks(pre.relations, i as int, ts, channel);
            assert forall|c: u64| c != channel implies self@.has_rel(c) == pre.has_rel(c)
                && self@.tasks_of(c) == pre.tasks_of(c) by {
                lemma_update_tasks(pre.relations, i as int, ts, c);
            }
            assert(forall|k: int| 0 <= k < ts.len() ==> ts[k] == if k == j {
                t2
            } else {
                pre.relations[i as int].tasks[k]
            });
            assert(forall|k: int| 0 <= k < ts.len() ==> ts[k].id == pre.relations[
                i as int
            ].tasks[k].id && ts[k].deadline == pre.relations[i as int].tasks[k].deadline);
            let m2 = self@;
            assert forall|k: int|
                0 <= k < m2.relations.len() implies rel_inv(
                #[trigger] m2.relations[k],
                m2.next_id,
            ) by {
                if k != i as int {
                    assert(m2.relations[k] == pre.relations[k]);
                    assert(rel_inv(pre.relations[k], pre.next_id));
                } else {
                    assert(rel_inv(pre.relations[i as int], pre.next_id));
                    assert(m2.relations[k].tasks == ts);
                    assert(forall|a: int|
                        0 <= a < ts.len() ==> ts[a].id == pre.relations[i as int].tasks[a].id
                            && ts[a].deadline == pre.relations[i as int].tasks[a].deadline);
                    assert(rel_inv(m2.relations[k], m2.next_id));
                }
            }
            assert(self@.inv());
        }
        true
    }

    /// The tasks of `channel`, optionally narrowed to one member, in stored
    /// order. A channel without a relation yields the empty sequence, not an
    /// error.
    pub fn list(&self, channel: u64, member_filter: Option<&String>) -> (r: Vec<Task>)
        requires
            self@.inv(),
        ensures
            r@.map_values(|t: Task| t@) == filter_member(
                self@.tasks_of(channel),
                opt_ref_text(member_filter),
            ),
    {
        let ghost f = opt_ref_text(member_filter);
        let ghost ts = self@.tasks_of(channel);
        let mut out: Vec<Task> = Vec::new();
        let i = match self.find_rel(channel) {
            Some(i) => i,
            None => {
                proof {
                    assert(ts =~= Seq::<TaskModel>::empty());
                    assert(out@.map_values(|t: Task| t@) =~= filter_member(ts, f));
                }
                return out;
            },
        };
        proof {
            lemma_rels_idx_is(self@.relations, channel, i as int);
        }
        let n = self.relations[i].tasks.len();
        let mut j: usize = 0;
        while j < n
            invariant
                i < self@.relations.len(),
                ts == self@.relations[i as int].tasks,
                f == opt_ref_text(member_filter),
                n == ts.len(),
                j <= n,
                out@.map_values(|t: Task| t@) == filter_member(ts.take(j as int), f),
            decreases n - j,
        {
            let task = &self.relations[i].tasks[j];
            let selected = match member_filter {
                None => true,
                Some(m) => match &task.member {
                    Some(tm) => *tm == *m,
                    None => false,
                },
            };
            proof {
                assert(selected == member_matches(task@, f));
                assert(ts.take(j + 1).drop_last() =~= ts.take(j as int));
                assert(ts.take(j + 1).last() == ts[j as int]);
            }
            if selected {
                out.push(task.clone());
                proof {
                    assert(out@.map_values(|t: Task| t@) =~= filter_member(
                        ts.take(j as int),
                        f,
                    ).push(ts[j as int]));
                }
            }
            j += 1;
        }
        proof {
            assert(ts.take(n as int) =~= ts);
        }
        out
    }

    /// How many tasks every known channel holds, one entry per relation, in
    /// stored order.
    pub fn count_all(&self) -> (r: Vec<(u64, usize)>)
        ensures
            r@.len() == self@.relations.len(),
            forall|k: int|
                0 <= k < r@.len() ==> r@[k].0 == self@.relations[k].channel && r@[k].1
                    == self@.relations[k].tasks.len(),
    {
        let mut out: Vec<(u64, usize)> = Vec::new();
        let n = self.relations.len();
        let mut i: usize = 0;
        while i < n
            invariant
                n == self@.relations.len(),
                i <= n,
                out@.len() == i,
                forall|k: int|
                    0 <= k < i ==> out@[k].0 == self@.relations[k].channel && out@[k].1
                        == self@.relations[k].tasks.len(),
            decreases n - i,
        {
            let c = self.relations[i].channel;
            let cnt = self.relations[i].tasks.len();
            out.push((c, cnt));
            i += 1;
        }
        out
    }

    /// How many tasks every known channel holds for one member, one entry
    /// per relation, in stored order.
    pub fn count_by_member(&self, member: &String) -> (r: Vec<(u64, usize)>)
        ensures
            r@.len() == self@.relations.len(),
            forall|k: int|
                0 <= k < r@.len() ==> r@[k].0 == self@.relations[k].channel && r@[k].1
                    == filter_member(self@.relations[k].tasks, Some(member@)).len(),
    {
        let mut out: Vec<(u64, usize)> = Vec::new();
        let n = self.relations.len();
        let mut i: usize = 0;
        while i < n
            invariant
                n == self@.relations.len(),
                i <= n,
                out@.len() == i,
                forall|k: int|
                    0 <= k < i ==> out@[k].0 == self@.relations[k].channel && out@[k].1
                        == filter_member(self@.relations[k].tasks, Some(member@)).len(),
            decreases n - i,
        {
            let ghost ts = self@.relations[i as int].tasks;
            let c = self.relations[i].channel;
            let m = self.relations[i].tasks.len();
            let mut cnt: usize = 0;
            let mut j: usize = 0;
            while j < m
                invariant
                    i < self@.relations.len(),
                    ts == self@.relations[i as int].tasks,
                    m == ts.len(),
                    j <= m,
                    cnt == filter_member(ts.take(j as int), Some(member@)).len(),
                    cnt <= j,
                decreases m - j,
            {
                let task = &self.relations[i].tasks[j];
                let selected = match &task.member {
                    Some(tm) => *tm == *member,
                    None => false,
                };
                proof {
                    assert(selected == member_matches(task@, Some(member@)));
                    assert(ts.take(j + 1).drop_last() =~= ts.take(j as int));
                    assert(ts.take(j + 1).last() == ts[j as int]);
                }
                if selected {
                    cnt += 1;
                }
                j += 1;
            }
            proof {
                assert(ts.take(m as int) =~= ts);
            }
            out.push((c, cnt));
            i += 1;
        }
        out
    }

    /// Drop every relation whose channel is no longer live (the channel or
    /// thread was deleted on the platform side). Returns how many relations
    /// were dropped.
    pub fn prune(&mut self, live: &Vec<u64>) -> (removed: usize)
        requires
            old(self)@.inv(),
        ensures
            final(self)@.relations == keep_live(old(self)@.relations, live@),
            final(self)@.next_id == old(self)@.next_id,
            final(self)@.inv(),
            old(self)@.no_empty_relations() ==> final(self)@.no_empty_relations(),
            removed == old(self)@.relations.len() - final(self)@.relations.len(),
            forall|c: u64| !live@.contains(c) ==> !final(self)@.has_rel(c),
            forall|c: u64|
                live@.contains(c) ==> final(self)@.has_rel(c) == old(self)@.has_rel(c)
                    && final(self)@.tasks_of(c) == old(self)@.tasks_of(c),
    {
        let ghost orig = self@.relations;
        let n0 = self.relations.len();
        proof {
            assert(orig.len() == n0);
        }
        let mut kept: Vec<Relation> = Vec::new();
        let mut removed: usize = 0;
        proof {
            assert(orig.take(0) =~= Seq::<RelationModel>::empty());
            assert(kept@.map_values(|r: Relation| r@) =~= keep_live(orig.take(0), live@));
            assert(orig.skip(0) =~= orig);
        }
        while self.relations.len() > 0
            invariant
                self.next_id == old(self).next_id,
                removed <= orig.len() - self@.relations.len(),
                orig.len() >= self@.relations.len(),
                orig.len() == n0,
                ({
                    let p: int = orig.len() - self@.relations.len();
                    &&& self@.relations == orig.skip(p)
                    &&& kept@.map_values(|r: Relation| r@) == keep_live(orig.take(p), live@)
                    &&& removed == p - kept@.len()
                }),
            decreases self@.relations.len(),
        {
            let ghost p: int = orig.len() - self@.relations.len();
            let ghost before = orig.skip(p);
            let r = self.relations.remove(0);
            proof {
                assert(r@ == before[0]);
                assert(before[0] == orig[p]);
                assert(self@.relations.len() == before.len() - 1);
                assert(self@.relations.len() == orig.skip(p + 1).len());
                assert forall|k: int|
                    0 <= k < self@.relations.len() implies self@.relations[k] == orig.skip(
                    p + 1,
                )[k] by {
                    assert(self@.relations[k] == before.remove(0)[k]);
                    assert(before.remove(0)[k] == before[k + 1]);
                    assert(before[k + 1] == orig[p + 1 + k]);
                    assert(orig.skip(p + 1)[k] == orig[p + 1 + k]);
                }
                assert(self@.relations =~= orig.skip(p + 1));
                assert(orig.take(p + 1).drop_last() =~= orig.take(p));
                assert(orig.take(p + 1).last() == orig[p]);
            }
            if vec_contains_u64(live, r.channel) {
                kept.push(r);
                proof {
                    assert(kept@.map_values(|r2: Relation| r2@) =~= keep_live(
                        orig.take(p),
                        live@,
                    ).push(orig[p]));
                }
            } else {
                removed += 1;
            }
        }
        let ghost n: int = orig.len() as int;
        proof {
            assert(orig.take(n) =~= orig);
        }
        self.relations = kept;
        proof {
            lemma_keep_live(orig, live@);
            let m2 = self@;
            assert forall|k: int|
                0 <= k < m2.relations.len() implies rel_inv(
                #[trigger] m2.relations[k],
                m2.next_id,
            ) by {
                assert(orig.contains(m2.relations[k]));
                let c = choose|c: int| 0 <= c < orig.len() && orig[c] == m2.relations[k];
                assert(rel_inv(orig[c], old(self)@.next_id));
            }
            assert(self@.inv());
            if old(self)@.no_empty_relations() {
                assert forall|k: int|
                    0 <= k < m2.relations.len() implies m2.relations[k].tasks.len() >= 1 by {
                    assert(orig.contains(m2.relations[k]));
                    let c = choose|c: int| 0 <= c < orig.len() && orig[c] == m2.relations[k];
                }
            }
        }
        removed
    }
}

/// A filter that names no member keeps every task.
pub proof fn lemma_filter_none(ts: Seq<TaskModel>)
    ensures
        filter_member(ts, None) == ts,
    decreases ts.len(),
{
    if ts.len() > 0 {
        lemma_filter_none(ts.drop_last());
        assert(ts.drop_last().push(ts.last()) =~= ts);
    }
}

/// In a well-formed store a channel has a relation exactly when it
/// currently holds at least one task: relations are created by the first
/// add and dropped with the last delete, so none persists empty.
pub proof fn lemma_relation_iff_nonempty(m: StoreModel, ch: u64)
    requires
        m.wf(),
    ensures
        m.has_rel(ch) <==> m.tasks_of(ch).len() >= 1,
{
    if m.has_rel(ch) {
        let i = m.rel_idx(ch);
        assert(m.relations[i].tasks.len() >= 1);
    }
}

/// Deleting the only task of a channel removes the channel's relation in
/// the same operation.
pub proof fn lemma_delete_last_drops_relation(m: StoreModel, ch: u64, id: u64)
    requires
        m.wf(),
        m.has_task(ch, id),
        m.tasks_of(ch).len() == 1,
    ensures
        !m.delete_trans(ch, id).has_rel(ch),
{
    assert(m.has_rel(ch));
    let i = m.rel_idx(ch);
    let j = m.task_idx(ch, id);
    assert(m.relations[i].tasks.remove(j).len() == 0);
    lemma_remove_rel(m.relations, i, ch);
}

/// What `add_trans` does to the task lists: the new task goes to the end
/// of its channel's list and every other channel keeps its list.
pub proof fn lemma_add_trans_tasks(
    m: StoreModel,
    ch: u64,
    name: Seq<char>,
    description: Option<Seq<char>>,
    member: Option<Seq<char>>,
    deadline: Option<Date>,
)
    requires
        m.inv(),
    ensures
        ({
            let m2 = m.add_trans(ch, name, description, member, deadline);
            let t = new_task_model(m.next_id, name, description, member, deadline);
            &&& m2.has_rel(ch)
            &&& m2.tasks_of(ch) == m.tasks_of(ch).push(t)
            &&& forall|c: u64|
                c != ch ==> m2.has_rel(c) == m.has_rel(c) && m2.tasks_of(c) == m.tasks_of(c)
        }),
{
    let m2 = m.add_trans(ch, name, description, member, deadline);
    let t = new_task_model(m.next_id, name, description, member, deadline);
    if m.has_rel(ch) {
        let i = m.rel_idx(ch);
        assert(m.relations[i].channel == ch);
        lemma_update_tasks(m.relations, i, m.relations[i].tasks.push(t), ch);
        assert(m2.tasks_of(ch) == m.tasks_of(ch).push(t));
        assert forall|c: u64| c != ch implies m2.has_rel(c) == m.has_rel(c) && m2.tasks_of(c)
            == m.tasks_of(c) by {
            lemma_update_tasks(m.relations, i, m.relations[i].tasks.push(t), c);
        }
    } else {
        let r = RelationModel { channel: ch, tasks: seq![t] };
        lemma_push_rel(m.relations, r, ch);
        assert(m.tasks_of(ch) =~= Seq::<TaskModel>::empty());
        assert(m2.tasks_of(ch) =~= m.tasks_of(ch).push(t));
        assert forall|c: u64| c != ch implies m2.has_rel(c) == m.has_rel(c) && m2.tasks_of(c)
            == m.tasks_of(c) by {
            lemma_push_rel(m.relations, r, c);
        }
    }
}

/// Adding a task and then listing the channel without a filter returns the
/// old list with exactly one new entry at the end, whose fields are the
/// inputs unchanged and whose status is `InProgress`.
pub proof fn lemma_add_then_list(
    m: StoreModel,
    ch: u64,
    name: Seq<char>,
    description: Option<Seq<char>>,
    member: Option<Seq<char>>,
    deadline: Option<Date>,
)
    requires
        m.inv(),
    ensures
        ({
            let m2 = m.add_trans(ch, name, description, member, deadline);
            let listed = filter_member(m2.tasks_of(ch), None);
            &&& listed.len() == m.tasks_of(ch).len() + 1
            &&& listed == m.tasks_of(ch).push(
                new_task_model(m.next_id, name, description, member, deadline),
            )
            &&& listed.last().id == m.next_id
            &&& listed.last().name == name
            &&& listed.last().description == description
            &&& listed.last().member == member
            &&& listed.last().deadline == deadline
            &&& listed.last().status == Status::InProgress
        }),
{
    let m2 = m.add_trans(ch, name, description, member, deadline);
    lemma_add_trans_tasks(m, ch, name, description, member, deadline);
    lemma_filter_none(m2.tasks_of(ch));
}

/// The id the store will hand out next is not in use anywhere: ids are
/// allocated from a counter that only grows, so an id is never reused,
/// even after its task — or its whole relation — is gone.
pub proof fn lemma_next_id_fresh(m: StoreModel, ch: u64)
    requires
        m.inv(),
    ensures
        !m.has_task(ch, m.next_id),
{
    if m.has_task(ch, m.next_id) {
        let j = m.task_idx(ch, m.next_id);
        if m.has_rel(ch) {
            let i = m.rel_idx(ch);
            assert(rel_inv(m.relations[i], m.next_id));
            assert(m.relations[i].tasks[j].id < m.next_id);
        } else {
            assert(m.tasks_of(ch) =~= Seq::<TaskModel>::empty());
        }
        assert(false);
    }
}

/// Whether a plain vector of channel identifiers holds `x`.
pub fn vec_contains_u64(v: &Vec<u64>, x: u64) -> (r: bool)
    ensures
        r == v@.contains(x),
{
    let mut i: usize = 0;
    while i < v.len()
        invariant
            i <= v@.len(),
            forall|k: int| 0 <= k < i ==> v@[k] != x,
        decreases v@.len() - i,
    {
        if v[i] == x {
            return true;
        }
        i += 1;
    }
    false
}

} // verus!
