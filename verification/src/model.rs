use crate::order::{
    entry_lt, insert_sorted, lemma_entry_lt_asymmetric, lemma_entry_lt_irreflexive,
    lemma_insert_sorted_keeps_order,
    lemma_insert_sorted_members, lemma_rank_of_member, lemma_remove_entry,
    lemma_sorted_same_members, remove_entry, sorted, Entry,
};
use crate::timer::{target_delay, timer_rule, TimerAction, TimerState};
use vstd::prelude::*;

verus! {

/// A task as contracts see it: the instant it is due and its command, the
/// command's name first.
pub struct TaskView {
    pub timestamp: u64,
    pub args: Seq<Seq<char>>,
}

/// One line of a schedule's listing: due instant, identifier, command.
pub type Row = (u64, Seq<char>, Seq<Seq<char>>);

/// A schedule as contracts see it: the timetable, front to back, and the tasks
/// by identifier.
pub struct ScheduleView {
    pub timetable: Seq<Entry>,
    pub tasks: Map<Seq<char>, TaskView>,
}

impl ScheduleView {
    /// The schedule without tasks.
    pub open spec fn empty() -> ScheduleView {
        ScheduleView { timetable: Seq::empty(), tasks: Map::empty() }
    }

    /// The timetable is strictly ascending, every entry of it names a task that is
    /// due at the entry's instant, and every task has its entry.
    pub open spec fn well_formed(self) -> bool {
        &&& sorted(self.timetable)
        &&& forall|e: Entry| #[trigger]
            self.timetable.contains(e) ==> self.tasks.contains_key(e.1) && self.tasks[e.1].timestamp
                == e.0
        &&& forall|id: Seq<char>| #[trigger]
            self.tasks.contains_key(id) ==> self.timetable.contains((self.tasks[id].timestamp, id))
    }

    /// The schedule without the task `id`; itself where there is no such task.
    pub open spec fn without(self, id: Seq<char>) -> ScheduleView {
        if self.tasks.contains_key(id) {
            ScheduleView {
                timetable: remove_entry(self.timetable, (self.tasks[id].timestamp, id)),
                tasks: self.tasks.remove(id),
            }
        } else {
            self
        }
    }

    /// The schedule with the task `id` due at `timestamp`, in place of any task
    /// that had the identifier before.
    pub open spec fn add(self, timestamp: u64, id: Seq<char>, args: Seq<Seq<char>>) -> ScheduleView {
        let base = self.without(id);
        ScheduleView {
            timetable: insert_sorted(base.timetable, (timestamp, id)),
            tasks: base.tasks.insert(id, TaskView { timestamp, args }),
        }
    }

    /// The schedule with the task `id` moved to `timestamp`; itself where there is
    /// no such task.
    pub open spec fn reschedule(self, id: Seq<char>, timestamp: u64) -> ScheduleView {
        if self.tasks.contains_key(id) {
            self.add(timestamp, id, self.tasks[id].args)
        } else {
            self
        }
    }

    /// The earliest due instant, if there is a task.
    pub open spec fn min_due(self) -> Option<u64> {
        if self.timetable.len() == 0 {
            None
        } else {
            Some(self.timetable[0].0)
        }
    }

    /// The line of the listing that belongs to a timetable entry.
    pub open spec fn row_of(self, e: Entry) -> Row {
        (e.0, e.1, self.tasks[e.1].args)
    }

    /// The listing: one line for each timetable entry, in the timetable's order.
    pub open spec fn ordered_list(self) -> Seq<Row> {
        Seq::new(self.timetable.len(), |i: int| self.row_of(self.timetable[i]))
    }

    /// Whether the first task is due at `cutoff`.
    pub open spec fn first_is_due(self, cutoff: u64) -> bool {
        self.timetable.len() > 0 && self.timetable[0].0 <= cutoff
    }

    /// The schedule without its first task.
    pub open spec fn pop_front(self) -> ScheduleView
        recommends
            self.timetable.len() > 0,
    {
        ScheduleView {
            timetable: self.timetable.drop_first(),
            tasks: self.tasks.remove(self.timetable[0].1),
        }
    }

    /// The lines of the tasks that are due at `cutoff`, in the order in which
    /// draining hands them out.
    pub open spec fn due_rows(self, cutoff: u64) -> Seq<Row>
        decreases self.timetable.len(),
    {
        if self.first_is_due(cutoff) {
            seq![self.row_of(self.timetable[0])] + self.pop_front().due_rows(cutoff)
        } else {
            Seq::empty()
        }
    }

    /// The schedule that draining at `cutoff` leaves.
    pub open spec fn after_drain(self, cutoff: u64) -> ScheduleView
        decreases self.timetable.len(),
    {
        if self.first_is_due(cutoff) {
            self.pop_front().after_drain(cutoff)
        } else {
            self
        }
    }

    /// The schedule that holds the tasks of `rows`, a later line replacing an
    /// earlier one with the same identifier.
    pub open spec fn from_rows(rows: Seq<Row>) -> ScheduleView
        decreases rows.len(),
    {
        if rows.len() == 0 {
            ScheduleView::empty()
        } else {
            let last = rows.last();
            ScheduleView::from_rows(rows.drop_last()).add(last.0, last.1, last.2)
        }
    }
}

/// The schedule without tasks is well formed.
pub proof fn lemma_empty_well_formed()
    ensures
        ScheduleView::empty().well_formed(),
{
}

/// Removing a task keeps the schedule well formed, and the task is gone.
pub proof fn lemma_without_well_formed(s: ScheduleView, id: Seq<char>)
    requires
        s.well_formed(),
    ensures
        s.without(id).well_formed(),
        !s.without(id).tasks.contains_key(id),
        forall|e: Entry| #[trigger] s.without(id).timetable.contains(e) ==> e.1 != id,
{
    let t = s.without(id);
    if s.tasks.contains_key(id) {
        let gone = (s.tasks[id].timestamp, id);
        lemma_remove_entry(s.timetable, gone);
        assert forall|e: Entry| #[trigger] t.timetable.contains(e) implies e.1 != id
            && t.tasks.contains_key(e.1) && t.tasks[e.1].timestamp == e.0 by {
            assert(s.timetable.contains(e));
            if e.1 == id {
                assert(e == gone);
            }
        }
        assert forall|other: Seq<char>| #[trigger] t.tasks.contains_key(other) implies
            t.timetable.contains((t.tasks[other].timestamp, other)) by {
            assert(s.tasks.contains_key(other));
            assert(s.timetable.contains((s.tasks[other].timestamp, other)));
        }
    } else {
        assert forall|e: Entry| #[trigger] t.timetable.contains(e) implies e.1 != id by {
            assert(s.timetable.contains(e));
        }
    }
}

/// Adding a task keeps the schedule well formed; the task is then held, due at the instant
/// given, and every other task is as before.
pub proof fn lemma_add_well_formed(s: ScheduleView, timestamp: u64, id: Seq<char>, args: Seq<Seq<char>>)
    requires
        s.well_formed(),
    ensures
        s.add(timestamp, id, args).well_formed(),
        s.add(timestamp, id, args).tasks == s.tasks.insert(id, TaskView { timestamp, args }),
        s.add(timestamp, id, args).timetable.contains((timestamp, id)),
{
    let base = s.without(id);
    let t = s.add(timestamp, id, args);
    let e = (timestamp, id);
    lemma_without_well_formed(s, id);
    if base.timetable.contains(e) {
        assert(e.1 != id);
    }
    lemma_insert_sorted_members(base.timetable, e);
    lemma_insert_sorted_keeps_order(base.timetable, e);
    assert(t.tasks =~= s.tasks.insert(id, TaskView { timestamp, args }));
    assert forall|x: Entry| #[trigger] t.timetable.contains(x) implies t.tasks.contains_key(x.1)
        && t.tasks[x.1].timestamp == x.0 by {
        if x != e {
            assert(base.timetable.contains(x));
        }
    }
    assert forall|other: Seq<char>| #[trigger] t.tasks.contains_key(other) implies
        t.timetable.contains((t.tasks[other].timestamp, other)) by {
        if other != id {
            assert(base.tasks.contains_key(other));
            assert(base.timetable.contains((base.tasks[other].timestamp, other)));
        }
    }
}

/// Moving a task keeps the schedule well formed.
pub proof fn lemma_reschedule_well_formed(s: ScheduleView, id: Seq<char>, timestamp: u64)
    requires
        s.well_formed(),
    ensures
        s.reschedule(id, timestamp).well_formed(),
{
    if s.tasks.contains_key(id) {
        lemma_add_well_formed(s, timestamp, id, s.tasks[id].args);
    }
}

/// Taking the first task off is the same as removing it by its identifier.
pub proof fn lemma_pop_front_is_without(s: ScheduleView)
    requires
        s.well_formed(),
        s.timetable.len() > 0,
    ensures
        s.pop_front() == s.without(s.timetable[0].1),
        s.pop_front().well_formed(),
{
    let first = s.timetable[0];
    assert(s.timetable.contains(first));
    lemma_rank_of_member(s.timetable, 0);
    assert(s.timetable.remove(0) =~= s.timetable.drop_first());
    lemma_without_well_formed(s, first.1);
}

/// A change to a schedule.
pub enum Operation {
    /// Add a task, or replace the one with the same identifier.
    Add { timestamp: u64, id: Seq<char>, args: Seq<Seq<char>> },
    /// Remove a task.
    Remove { id: Seq<char> },
    /// Move a task to another instant.
    Reschedule { id: Seq<char>, timestamp: u64 },
    /// Take out every task that is due at `cutoff`.
    Drain { cutoff: u64 },
}

impl ScheduleView {
    /// The schedule after one change.
    pub open spec fn apply(self, op: Operation) -> ScheduleView {
        match op {
            Operation::Add { timestamp, id, args } => self.add(timestamp, id, args),
            Operation::Remove { id } => self.without(id),
            Operation::Reschedule { id, timestamp } => self.reschedule(id, timestamp),
            Operation::Drain { cutoff } => self.after_drain(cutoff),
        }
    }

    /// The schedule after the changes `ops`, the first of them first.
    pub open spec fn apply_all(self, ops: Seq<Operation>) -> ScheduleView
        decreases ops.len(),
    {
        if ops.len() == 0 {
            self
        } else {
            self.apply_all(ops.drop_last()).apply(ops.last())
        }
    }
}

/// The tasks decide the timetable: two well-formed schedules with the same tasks
/// are the same schedule.
pub proof fn lemma_tasks_decide_timetable(a: ScheduleView, b: ScheduleView)
    requires
        a.well_formed(),
        b.well_formed(),
        a.tasks == b.tasks,
    ensures
        a == b,
{
    assert forall|e: Entry| a.timetable.contains(e) <==> b.timetable.contains(e) by {
        if a.timetable.contains(e) {
            assert(b.tasks.contains_key(e.1));
            assert(b.timetable.contains((b.tasks[e.1].timestamp, e.1)));
        }
        if b.timetable.contains(e) {
            assert(a.tasks.contains_key(e.1));
            assert(a.timetable.contains((a.tasks[e.1].timestamp, e.1)));
        }
    }
    lemma_sorted_same_members(a.timetable, b.timetable);
}

/// No two entries of a well-formed timetable name the same task.
pub proof fn lemma_identifiers_distinct(s: ScheduleView, i: int, j: int)
    requires
        s.well_formed(),
        0 <= i < s.timetable.len(),
        0 <= j < s.timetable.len(),
        i != j,
    ensures
        s.timetable[i].1 != s.timetable[j].1,
{
    let a = s.timetable[i];
    let b = s.timetable[j];
    assert(s.timetable.contains(a));
    assert(s.timetable.contains(b));
    if a.1 == b.1 {
        assert(a == b);
        lemma_entry_lt_irreflexive(a);
        if i < j {
            assert(entry_lt(s.timetable[i], s.timetable[j]));
        } else {
            assert(entry_lt(s.timetable[j], s.timetable[i]));
        }
    }
}

/// Tasks with different identifiers can be added in either order.
pub proof fn lemma_add_commutes(s: ScheduleView, a: Row, b: Row)
    requires
        s.well_formed(),
        a.1 != b.1,
    ensures
        s.add(a.0, a.1, a.2).add(b.0, b.1, b.2) == s.add(b.0, b.1, b.2).add(a.0, a.1, a.2),
{
    let sa = s.add(a.0, a.1, a.2);
    let sb = s.add(b.0, b.1, b.2);
    lemma_add_well_formed(s, a.0, a.1, a.2);
    lemma_add_well_formed(s, b.0, b.1, b.2);
    lemma_add_well_formed(sa, b.0, b.1, b.2);
    lemma_add_well_formed(sb, a.0, a.1, a.2);
    assert(sa.add(b.0, b.1, b.2).tasks =~= sb.add(a.0, a.1, a.2).tasks);
    lemma_tasks_decide_timetable(sa.add(b.0, b.1, b.2), sb.add(a.0, a.1, a.2));
}

/// The listing has one line for each task, the line of a task holds the task's
/// instant and command, and the lines ascend by instant and, among equal
/// instants, by identifier.
pub proof fn lemma_listing(s: ScheduleView)
    requires
        s.well_formed(),
    ensures
        s.ordered_list().len() == s.timetable.len(),
        forall|i: int|
            0 <= i < s.ordered_list().len() ==> {
                let row = #[trigger] s.ordered_list()[i];
                s.tasks.contains_key(row.1) && s.tasks[row.1] == TaskView {
                    timestamp: row.0,
                    args: row.2,
                }
            },
        forall|id: Seq<char>| #[trigger]
            s.tasks.contains_key(id) ==> s.ordered_list().contains(
                (s.tasks[id].timestamp, id, s.tasks[id].args),
            ),
        forall|i: int, j: int|
            0 <= i < j < s.ordered_list().len() ==> entry_lt(
                ((#[trigger] s.ordered_list()[i]).0, s.ordered_list()[i].1),
                ((#[trigger] s.ordered_list()[j]).0, s.ordered_list()[j].1),
            ),
{
    let list = s.ordered_list();
    assert forall|i: int| 0 <= i < list.len() implies {
        let row = #[trigger] list[i];
        s.tasks.contains_key(row.1) && s.tasks[row.1] == TaskView { timestamp: row.0, args: row.2 }
    } by {
        assert(s.timetable.contains(s.timetable[i]));
    }
    assert forall|id: Seq<char>| #[trigger] s.tasks.contains_key(id) implies list.contains(
        (s.tasks[id].timestamp, id, s.tasks[id].args),
    ) by {
        let e = (s.tasks[id].timestamp, id);
        assert(s.timetable.contains(e));
        let k = choose|k: int| 0 <= k < s.timetable.len() && s.timetable[k] == e;
        assert(list[k] == (s.tasks[id].timestamp, id, s.tasks[id].args));
    }
    assert forall|i: int, j: int| 0 <= i < j < list.len() implies entry_lt(
        ((#[trigger] list[i]).0, list[i].1),
        ((#[trigger] list[j]).0, list[j].1),
    ) by {
        assert(entry_lt(s.timetable[i], s.timetable[j]));
    }
}

/// Without its first task a schedule lists what it listed before, but for the
/// first line.
pub proof fn lemma_pop_front_listing(s: ScheduleView)
    requires
        s.well_formed(),
        s.timetable.len() > 0,
    ensures
        s.pop_front().ordered_list() == s.ordered_list().drop_first(),
{
    let t = s.pop_front();
    assert forall|i: int| 0 <= i < t.timetable.len() implies t.row_of(t.timetable[i]) == s.row_of(
        s.timetable[i + 1],
    ) by {
        lemma_identifiers_distinct(s, 0, i + 1);
    }
    assert(t.ordered_list() =~= s.ordered_list().drop_first());
}

/// Draining hands out the front of the listing: the lines of the tasks that
/// are due, all of them, in the listing's order. What stays is well formed and
/// holds the tasks that are not yet due, unchanged.
pub proof fn lemma_drain(s: ScheduleView, cutoff: u64)
    requires
        s.well_formed(),
    ensures
        s.due_rows(cutoff).len() <= s.timetable.len(),
        s.due_rows(cutoff) == s.ordered_list().take(s.due_rows(cutoff).len() as int),
        forall|i: int|
            0 <= i < s.timetable.len() ==> ((#[trigger] s.timetable[i]).0 <= cutoff <==> i
                < s.due_rows(cutoff).len()),
        s.after_drain(cutoff).well_formed(),
        s.after_drain(cutoff).timetable == s.timetable.skip(s.due_rows(cutoff).len() as int),
        forall|id: Seq<char>| #[trigger]
            s.after_drain(cutoff).tasks.contains_key(id) <==> s.tasks.contains_key(id)
                && s.tasks[id].timestamp > cutoff,
        forall|id: Seq<char>| #[trigger]
            s.after_drain(cutoff).tasks.contains_key(id) ==> s.after_drain(cutoff).tasks[id]
                == s.tasks[id],
    decreases s.timetable.len(),
{
    let n = s.due_rows(cutoff).len() as int;
    if s.first_is_due(cutoff) {
        let t = s.pop_front();
        let first = s.timetable[0];
        lemma_pop_front_is_without(s);
        lemma_pop_front_listing(s);
        lemma_drain(t, cutoff);
        let m = t.due_rows(cutoff).len() as int;
        assert(n == m + 1);
        assert(s.due_rows(cutoff) =~= s.ordered_list().take(n));
        assert(s.timetable.skip(n) =~= t.timetable.skip(m));
        assert forall|i: int| 0 <= i < s.timetable.len() implies ((#[trigger] s.timetable[i]).0
            <= cutoff <==> i < n) by {
            if i > 0 {
                assert(s.timetable[i] == t.timetable[i - 1]);
            }
        }
        assert(s.timetable.contains(first));
        assert forall|id: Seq<char>| #[trigger]
            s.after_drain(cutoff).tasks.contains_key(id) <==> s.tasks.contains_key(id)
                && s.tasks[id].timestamp > cutoff by {
            if id == first.1 {
                assert(!t.tasks.contains_key(id));
            }
        }
    } else {
        assert(s.due_rows(cutoff) =~= s.ordered_list().take(0));
        assert(s.timetable.skip(0) =~= s.timetable);
        assert forall|i: int| 0 <= i < s.timetable.len() implies (#[trigger] s.timetable[i]).0
            > cutoff by {
            if i > 0 {
                assert(entry_lt(s.timetable[0], s.timetable[i]));
            }
        }
        assert forall|id: Seq<char>| s.tasks.contains_key(id) implies s.tasks[id].timestamp
            > cutoff by {
            let e = (s.tasks[id].timestamp, id);
            assert(s.timetable.contains(e));
            let k = choose|k: int| 0 <= k < s.timetable.len() && s.timetable[k] == e;
            assert(s.timetable[k].0 > cutoff);
        }
    }
}

/// Of two tasks that are due at `cutoff`, draining hands out first the one with
/// the earlier instant, and of two with the same instant the one with the
/// smaller identifier, whatever the order in which they were added.
pub proof fn lemma_drain_order(s: ScheduleView, cutoff: u64, a: Seq<char>, b: Seq<char>)
    requires
        s.well_formed(),
        s.tasks.contains_key(a),
        s.tasks.contains_key(b),
        entry_lt((s.tasks[a].timestamp, a), (s.tasks[b].timestamp, b)),
        s.tasks[b].timestamp <= cutoff,
    ensures
        exists|i: int, j: int|
            0 <= i < j < s.due_rows(cutoff).len() && s.due_rows(cutoff)[i] == (
                s.tasks[a].timestamp,
                a,
                s.tasks[a].args,
            ) && s.due_rows(cutoff)[j] == (s.tasks[b].timestamp, b, s.tasks[b].args),
{
    let ea = (s.tasks[a].timestamp, a);
    let eb = (s.tasks[b].timestamp, b);
    assert(s.timetable.contains(ea));
    assert(s.timetable.contains(eb));
    let i = choose|i: int| 0 <= i < s.timetable.len() && s.timetable[i] == ea;
    let j = choose|j: int| 0 <= j < s.timetable.len() && s.timetable[j] == eb;
    lemma_entry_lt_irreflexive(ea);
    if j < i {
        assert(entry_lt(s.timetable[j], s.timetable[i]));
        lemma_entry_lt_asymmetric(ea, eb);
    }
    lemma_drain(s, cutoff);
    assert(s.timetable[j].0 <= cutoff);
    assert(s.due_rows(cutoff)[i] == s.ordered_list()[i]);
    assert(s.due_rows(cutoff)[j] == s.ordered_list()[j]);
}

/// Where every task is due, draining hands out the whole listing and leaves the
/// schedule without tasks.
pub proof fn lemma_drain_everything(s: ScheduleView, cutoff: u64)
    requires
        s.well_formed(),
        forall|i: int| 0 <= i < s.timetable.len() ==> (#[trigger] s.timetable[i]).0 <= cutoff,
    ensures
        s.due_rows(cutoff) == s.ordered_list(),
        s.after_drain(cutoff) == ScheduleView::empty(),
{
    lemma_drain(s, cutoff);
    let n = s.due_rows(cutoff).len() as int;
    if n < s.timetable.len() {
        assert(s.timetable[n].0 <= cutoff);
    }
    assert(s.ordered_list().take(n) =~= s.ordered_list());
    assert(s.after_drain(cutoff).timetable =~= Seq::<Entry>::empty());
    assert forall|id: Seq<char>| !s.after_drain(cutoff).tasks.contains_key(id) by {
        if s.tasks.contains_key(id) {
            let e = (s.tasks[id].timestamp, id);
            assert(s.timetable.contains(e));
            let k = choose|k: int| 0 <= k < s.timetable.len() && s.timetable[k] == e;
            assert(s.timetable[k].0 <= cutoff);
        }
    }
    assert(s.after_drain(cutoff).tasks =~= Map::<Seq<char>, TaskView>::empty());
}

/// The schedule that holds the three tasks `x`, `y` and `z`, added in that order.
pub open spec fn three_tasks(x: Row, y: Row, z: Row) -> ScheduleView {
    ScheduleView::empty().add(x.0, x.1, x.2).add(y.0, y.1, y.2).add(z.0, z.1, z.2)
}

/// Three tasks with instants `a.0 < b.0 < c.0`, all due at `cutoff`, are handed
/// out as `a`, `b`, `c`, in whichever of the six orders they were added.
pub proof fn lemma_three_tasks_any_order(a: Row, b: Row, c: Row, cutoff: u64)
    requires
        a.0 < b.0 < c.0 <= cutoff,
        a.1 != b.1,
        a.1 != c.1,
        b.1 != c.1,
    ensures
        three_tasks(a, b, c).due_rows(cutoff) == seq![a, b, c],
        three_tasks(a, c, b).due_rows(cutoff) == seq![a, b, c],
        three_tasks(b, a, c).due_rows(cutoff) == seq![a, b, c],
        three_tasks(b, c, a).due_rows(cutoff) == seq![a, b, c],
        three_tasks(c, a, b).due_rows(cutoff) == seq![a, b, c],
        three_tasks(c, b, a).due_rows(cutoff) == seq![a, b, c],
        three_tasks(a, b, c).after_drain(cutoff) == ScheduleView::empty(),
{
    let e = ScheduleView::empty();
    let ea = e.add(a.0, a.1, a.2);
    let eb = e.add(b.0, b.1, b.2);
    let ec = e.add(c.0, c.1, c.2);
    lemma_add_well_formed(e, a.0, a.1, a.2);
    lemma_add_well_formed(e, b.0, b.1, b.2);
    lemma_add_well_formed(e, c.0, c.1, c.2);
    lemma_add_commutes(ea, b, c);
    lemma_add_commutes(e, a, b);
    lemma_add_commutes(eb, c, a);
    lemma_add_commutes(e, a, c);
    lemma_add_commutes(ec, a, b);
    let s = three_tasks(a, b, c);
    assert(three_tasks(a, c, b) == s);
    assert(three_tasks(b, a, c) == s);
    assert(three_tasks(b, c, a) == s);
    assert(three_tasks(c, a, b) == s);
    assert(three_tasks(c, b, a) == s);
    let eab = ea.add(b.0, b.1, b.2);
    lemma_add_well_formed(ea, b.0, b.1, b.2);
    lemma_add_well_formed(eab, c.0, c.1, c.2);
    let entries = seq![(a.0, a.1), (b.0, b.1), (c.0, c.1)];
    let t = ScheduleView { timetable: entries, tasks: s.tasks };
    assert(t.tasks.contains_key(a.1) && t.tasks.contains_key(b.1) && t.tasks.contains_key(c.1));
    assert(t.tasks[a.1] == TaskView { timestamp: a.0, args: a.2 });
    assert(t.tasks[b.1] == TaskView { timestamp: b.0, args: b.2 });
    assert(t.tasks[c.1] == TaskView { timestamp: c.0, args: c.2 });
    assert(entries[0] == (a.0, a.1) && entries[1] == (b.0, b.1) && entries[2] == (c.0, c.1));
    assert forall|id: Seq<char>| #[trigger] t.tasks.contains_key(id) implies t.timetable.contains(
        (t.tasks[id].timestamp, id),
    ) by {
        if id == a.1 {
            assert(entries[0] == (t.tasks[id].timestamp, id));
        } else if id == b.1 {
            assert(entries[1] == (t.tasks[id].timestamp, id));
        } else {
            assert(id == c.1);
            assert(entries[2] == (t.tasks[id].timestamp, id));
        }
    }
    assert(t.well_formed());
    lemma_tasks_decide_timetable(s, t);
    assert(s.ordered_list() =~= seq![a, b, c]);
    lemma_drain_everything(s, cutoff);
}

/// Removing a task a second time finds nothing and changes nothing.
pub proof fn lemma_remove_twice(s: ScheduleView, id: Seq<char>)
    requires
        s.well_formed(),
    ensures
        s.without(id).well_formed(),
        !s.without(id).tasks.contains_key(id),
        s.without(id).without(id) == s.without(id),
{
    lemma_without_well_formed(s, id);
}

/// A task that was moved is due at the new instant with the command it had; its
/// old timetable entry is gone and the new one is there; every other task is as
/// it was.
pub proof fn lemma_reschedule(s: ScheduleView, id: Seq<char>, timestamp: u64)
    requires
        s.well_formed(),
        s.tasks.contains_key(id),
    ensures
        s.reschedule(id, timestamp).well_formed(),
        s.reschedule(id, timestamp).tasks == s.tasks.insert(
            id,
            TaskView { timestamp, args: s.tasks[id].args },
        ),
        s.reschedule(id, timestamp).timetable.contains((timestamp, id)),
        timestamp != s.tasks[id].timestamp ==> !s.reschedule(id, timestamp).timetable.contains(
            (s.tasks[id].timestamp, id),
        ),
        s.reschedule(id, timestamp).timetable.len() == s.timetable.len(),
{
    let t = s.reschedule(id, timestamp);
    let old_entry = (s.tasks[id].timestamp, id);
    lemma_add_well_formed(s, timestamp, id, s.tasks[id].args);
    if t.timetable.contains(old_entry) {
        assert(t.tasks[id].timestamp == old_entry.0);
    }
    assert(s.timetable.contains(old_entry));
    lemma_remove_entry(s.timetable, old_entry);
    lemma_insert_sorted_members(s.without(id).timetable, (timestamp, id));
}

/// Whether one of the first `k` entries names the task `id`.
pub open spec fn named_before(timetable: Seq<Entry>, k: int, id: Seq<char>) -> bool {
    exists|i: int| 0 <= i < k && i < timetable.len() && (#[trigger] timetable[i]).1 == id
}

/// Rebuilding from any lines gives a well-formed schedule.
pub proof fn lemma_from_rows_well_formed(rows: Seq<Row>)
    ensures
        ScheduleView::from_rows(rows).well_formed(),
    decreases rows.len(),
{
    if rows.len() > 0 {
        let last = rows.last();
        lemma_from_rows_well_formed(rows.drop_last());
        lemma_add_well_formed(ScheduleView::from_rows(rows.drop_last()), last.0, last.1, last.2);
    }
}

/// Rebuilding from the first `k` lines of a listing gives the tasks that those
/// lines name, as the schedule holds them.
pub proof fn lemma_round_trip_prefix(s: ScheduleView, k: int)
    requires
        s.well_formed(),
        0 <= k <= s.timetable.len(),
    ensures
        forall|id: Seq<char>| #[trigger]
            ScheduleView::from_rows(s.ordered_list().take(k)).tasks.contains_key(id)
                <==> named_before(s.timetable, k, id),
        forall|id: Seq<char>| #[trigger]
            ScheduleView::from_rows(s.ordered_list().take(k)).tasks.contains_key(id)
                ==> ScheduleView::from_rows(s.ordered_list().take(k)).tasks[id] == s.tasks[id],
    decreases k,
{
    let rows = s.ordered_list().take(k);
    let r = ScheduleView::from_rows(rows);
    if k > 0 {
        let before = s.ordered_list().take(k - 1);
        let prev = ScheduleView::from_rows(before);
        lemma_round_trip_prefix(s, k - 1);
        lemma_from_rows_well_formed(before);
        assert(rows.drop_last() =~= before);
        let e = s.timetable[k - 1];
        assert(rows.last() == s.row_of(e));
        assert(s.timetable.contains(e));
        lemma_add_well_formed(prev, e.0, e.1, s.tasks[e.1].args);
        assert(r.tasks == prev.tasks.insert(e.1, s.tasks[e.1]));
        assert forall|id: Seq<char>| #[trigger] r.tasks.contains_key(id) <==> named_before(
            s.timetable,
            k,
            id,
        ) by {
            if r.tasks.contains_key(id) {
                if id == e.1 {
                    assert(s.timetable[k - 1].1 == id);
                } else {
                    assert(prev.tasks.contains_key(id));
                    assert(named_before(s.timetable, k - 1, id));
                    let i = choose|i: int|
                        0 <= i < k - 1 && i < s.timetable.len() && (#[trigger] s.timetable[i]).1
                            == id;
                    assert(s.timetable[i].1 == id);
                }
            }
            if named_before(s.timetable, k, id) {
                let i = choose|i: int|
                    0 <= i < k && i < s.timetable.len() && (#[trigger] s.timetable[i]).1 == id;
                if i < k - 1 {
                    assert(named_before(s.timetable, k - 1, id));
                    assert(prev.tasks.contains_key(id));
                }
            }
        }
    } else {
        assert(rows =~= Seq::<Row>::empty());
    }
}

/// A schedule that is rebuilt from its own listing is the schedule it was.
pub proof fn lemma_round_trip(s: ScheduleView)
    requires
        s.well_formed(),
    ensures
        ScheduleView::from_rows(s.ordered_list()) == s,
        ScheduleView::from_rows(s.ordered_list()).ordered_list() == s.ordered_list(),
{
    let n = s.timetable.len() as int;
    let r = ScheduleView::from_rows(s.ordered_list());
    assert(s.ordered_list().take(n) =~= s.ordered_list());
    lemma_round_trip_prefix(s, n);
    lemma_from_rows_well_formed(s.ordered_list());
    assert forall|id: Seq<char>| r.tasks.contains_key(id) <==> s.tasks.contains_key(id) by {
        if r.tasks.contains_key(id) {
            assert(named_before(s.timetable, n, id));
            let i = choose|i: int|
                0 <= i < n && i < s.timetable.len() && (#[trigger] s.timetable[i]).1 == id;
            assert(s.timetable.contains(s.timetable[i]));
        }
        if s.tasks.contains_key(id) {
            let e = (s.tasks[id].timestamp, id);
            assert(s.timetable.contains(e));
            let i = choose|i: int| 0 <= i < s.timetable.len() && s.timetable[i] == e;
            assert(s.timetable[i].1 == id);
            assert(named_before(s.timetable, n, id));
        }
    }
    assert(r.tasks =~= s.tasks);
    lemma_tasks_decide_timetable(r, s);
}

/// Whatever changes are made to a well-formed schedule, in whatever order, it is
/// well formed after each of them.
pub proof fn lemma_changes_keep_well_formed(s: ScheduleView, ops: Seq<Operation>, k: int)
    requires
        s.well_formed(),
        0 <= k <= ops.len(),
    ensures
        s.apply_all(ops.take(k)).well_formed(),
    decreases k,
{
    if k > 0 {
        let upto = ops.take(k);
        assert(upto.drop_last() =~= ops.take(k - 1));
        lemma_changes_keep_well_formed(s, ops, k - 1);
        let before = s.apply_all(ops.take(k - 1));
        match upto.last() {
            Operation::Add { timestamp, id, args } => {
                lemma_add_well_formed(before, timestamp, id, args);
            },
            Operation::Remove { id } => {
                lemma_without_well_formed(before, id);
            },
            Operation::Reschedule { id, timestamp } => {
                lemma_reschedule_well_formed(before, id, timestamp);
            },
            Operation::Drain { cutoff } => {
                lemma_drain(before, cutoff);
            },
        }
    }
}

/// A schedule that was rebuilt from its listing has no wake-up yet. Where it holds
/// tasks, the rule of the wake-up then arms one for the schedule's earliest due
/// instant, or at once where that instant has passed; where it holds none,
/// nothing is armed.
pub proof fn lemma_reload_arms_for_minimum(s: ScheduleView, now: u64, remaining: Option<u64>)
    requires
        s.well_formed(),
    ensures
        timer_rule(
            TimerState::NoTimer,
            ScheduleView::from_rows(s.ordered_list()).min_due(),
            now,
            remaining,
        ) == if s.timetable.len() > 0 {
            TimerAction::Arm { cancel: None, delay: target_delay(s.timetable[0].0, now) }
        } else {
            TimerAction::Keep
        },
        forall|i: int|
            0 <= i < s.timetable.len() ==> s.timetable[0].0 <= (#[trigger] s.timetable[i]).0,
{
    lemma_round_trip(s);
    assert forall|i: int| 0 <= i < s.timetable.len() implies s.timetable[0].0 <= (
        #[trigger] s.timetable[i]
    ).0 by {
        if i > 0 {
            assert(entry_lt(s.timetable[0], s.timetable[i]));
        }
    }
}

} // verus!
