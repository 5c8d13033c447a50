use crate::model::{
    lemma_add_well_formed, lemma_pop_front_is_without, lemma_without_well_formed, Row,
    ScheduleView, TaskView,
};
use crate::order::lemma_rank_of_member;
use crate::skiplist_ext::{
    skiplist_front, skiplist_insert, skiplist_items, skiplist_new,
    skiplist_pop_front, skiplist_remove, skiplist_remove_first, timetable_entries,
};
use crate::timer::TimerState;
use skiplist::OrderedSkipList;
use vstd::hash_map::StringHashMap;
use vstd::prelude::*;

verus! {

/// A deferred command and the instant at which it is due. The command's name
/// is the first of `args`.
#[derive(Debug, PartialEq, Eq)]
pub struct Task {
    pub timestamp: u64,
    pub args: Vec<String>,
}

impl View for Task {
    type V = TaskView;

    open spec fn view(&self) -> TaskView {
        TaskView { timestamp: self.timestamp, args: self.args.deep_view() }
    }
}

/// The instant `value` after `timestamp`, or the largest instant there is where
/// the sum would pass it.
pub open spec fn later_by(timestamp: u64, value: u64) -> u64 {
    if timestamp + value > u64::MAX {
        u64::MAX
    } else {
        (timestamp + value) as u64
    }
}

/// The instant `value` before `timestamp`, or instant zero where `value` is the
/// larger.
pub open spec fn earlier_by(timestamp: u64, value: u64) -> u64 {
    if timestamp < value {
        0
    } else {
        (timestamp - value) as u64
    }
}

/// A copy of a command.
pub(crate) fn clone_args(args: &Vec<String>) -> (copy: Vec<String>)
    ensures
        copy.deep_view() == args.deep_view(),
{
    let mut copy: Vec<String> = Vec::with_capacity(args.len());
    let mut i: usize = 0;
    while i < args.len()
        invariant
            i <= args.len(),
            copy.len() == i,
            forall|j: int| 0 <= j < i ==> copy@[j]@ == args@[j]@,
        decreases args.len() - i,
    {
        copy.push(args[i].clone());
        i += 1;
    }
    assert(copy.deep_view() =~= args.deep_view());
    copy
}

/// The tasks of one schedule: a timetable of `(due instant, identifier)` kept in
/// ascending order, the tasks by identifier, and the state of the schedule's one
/// wake-up.
pub struct ScheduleDataType {
    timetable: OrderedSkipList<(u64, String)>,
    tasks: StringHashMap<Task>,
    timer: TimerState,
}

impl View for ScheduleDataType {
    type V = ScheduleView;

    closed spec fn view(&self) -> ScheduleView {
        ScheduleView {
            timetable: timetable_entries(self.timetable),
            tasks: self.tasks@.map_values(|t: Task| t@),
        }
    }
}

impl ScheduleDataType {
    /// Timetable and tasks agree: see [`ScheduleView::well_formed`].
    pub open spec fn wf(&self) -> bool {
        self@.well_formed()
    }

    /// The state of the schedule's wake-up.
    pub closed spec fn timer_state(&self) -> TimerState {
        self.timer
    }

    /// A schedule without tasks and without a wake-up.
    pub fn new() -> (schedule: ScheduleDataType)
        ensures
            schedule.wf(),
            schedule@ == ScheduleView::empty(),
            schedule.timer_state() == TimerState::NoTimer,
    {
        let schedule = ScheduleDataType {
            timetable: skiplist_new(),
            tasks: StringHashMap::new(),
            timer: TimerState::NoTimer,
        };
        assert(schedule@.tasks =~= Map::empty());
        schedule
    }

    /// The state of the schedule's wake-up.
    pub fn timer(&self) -> (state: TimerState)
        ensures
            state == self.timer_state(),
    {
        self.timer
    }

    /// Records the state of the schedule's wake-up. The tasks stay as they are.
    pub fn set_timer(&mut self, state: TimerState)
        ensures
            final(self).timer_state() == state,
            final(self)@ == old(self)@,
    {
        self.timer = state;
    }

    /// Puts the task `task_id` in, due at `timestamp`. A task that had the
    /// identifier before is replaced, and its timetable entry with it.
    pub fn add_task(&mut self, timestamp: u64, task_id: String, args: Vec<String>)
        requires
            old(self).wf(),
        ensures
            final(self).wf(),
            final(self)@ == old(self)@.add(timestamp, task_id@, args.deep_view()),
            final(self).timer_state() == old(self).timer_state(),
    {
        proof {
            lemma_add_well_formed(self@, timestamp, task_id@, args.deep_view());
        }
        let stale = match self.tasks.get(task_id.as_str()) {
            Some(task) => Some(task.timestamp),
            None => None,
        };
        if let Some(due) = stale {
            let entry = (due, task_id.clone());
            proof {
                assert(self@.timetable.contains(entry@));
                let k = choose|k: int| 0 <= k < self@.timetable.len() && self@.timetable[k] == entry@;
                lemma_rank_of_member(self@.timetable, k);
            }
            let _ = skiplist_remove(&mut self.timetable, &entry);
        }
        skiplist_insert(&mut self.timetable, (timestamp, task_id.clone()));
        self.tasks.insert(task_id, Task { timestamp, args });
        assert(self@.tasks =~= old(self)@.add(timestamp, task_id@, args.deep_view()).tasks);
    }

    /// Takes the task `task_id` out and returns it; nothing where there is no such
    /// task.
    pub fn del_task(&mut self, task_id: String) -> (removed: Option<Task>)
        requires
            old(self).wf(),
        ensures
            final(self).wf(),
            final(self)@ == old(self)@.without(task_id@),
            final(self).timer_state() == old(self).timer_state(),
            match removed {
                Some(task) => old(self)@.tasks.contains_key(task_id@) && task@ == old(
                    self,
                )@.tasks[task_id@],
                None => !old(self)@.tasks.contains_key(task_id@),
            },
    {
        proof {
            lemma_without_well_formed(self@, task_id@);
        }
        let found = match self.tasks.get(task_id.as_str()) {
            Some(task) => Some(Task { timestamp: task.timestamp, args: clone_args(&task.args) }),
            None => None,
        };
        match found {
            Some(task) => {
                self.tasks.remove(task_id.as_str());
                let entry = (task.timestamp, task_id);
                let _ = skiplist_remove(&mut self.timetable, &entry);
                assert(self@.tasks =~= old(self)@.without(task_id@).tasks);
                Some(task)
            },
            None => None,
        }
    }

    /// The earliest due instant, if there is a task.
    pub fn get_min_timestamp(&self) -> (min: Option<u64>)
        ensures
            min == self@.min_due(),
    {
        match skiplist_front(&self.timetable) {
            Some(entry) => Some(entry.0),
            None => None,
        }
    }

    /// The number of tasks.
    pub fn len(&self) -> (n: usize)
        ensures
            n == self@.tasks.len(),
    {
        let n = self.tasks.len();
        assert(self@.tasks.dom() =~= self.tasks@.dom());
        n
    }

    /// Takes the first task out and returns its line, if it is due at `limit`;
    /// otherwise the schedule stays as it is.
    pub fn pop_by_timestamp(&mut self, limit: u64) -> (popped: Option<(u64, String, Vec<String>)>)
        requires
            old(self).wf(),
        ensures
            final(self).wf(),
            final(self).timer_state() == old(self).timer_state(),
            match popped {
                Some(row) => old(self)@.first_is_due(limit) && row.deep_view() == old(self)@.row_of(
                    old(self)@.timetable[0],
                ) && final(self)@ == old(self)@.pop_front(),
                None => !old(self)@.first_is_due(limit) && final(self)@ == old(self)@,
            },
    {
        let due = match skiplist_front(&self.timetable) {
            Some(entry) => entry.0 <= limit,
            None => false,
        };
        if !due {
            return None;
        }
        proof {
            lemma_pop_front_is_without(self@);
            assert(self@.timetable.contains(self@.timetable[0]));
        }
        match skiplist_pop_front(&mut self.timetable) {
            Some((timestamp, task_id)) => {
                let args = match self.tasks.get(task_id.as_str()) {
                    Some(task) => clone_args(&task.args),
                    None => Vec::new(),
                };
                self.tasks.remove(task_id.as_str());
                assert(self@.tasks =~= old(self)@.pop_front().tasks);
                Some((timestamp, task_id, args))
            },
            None => None,
        }
    }

    /// The timetable, front to back.
    pub fn timetable_iter(&self) -> (entries: Vec<(u64, String)>)
        ensures
            entries.deep_view() == self@.timetable,
    {
        skiplist_items(&self.timetable)
    }

    /// Moves the task `task_id` to the instant that `callback` makes of its due
    /// instant, and returns the new instant; nothing where there is no such task.
    pub fn change_timestamp_by<F: Fn(u64) -> u64>(&mut self, task_id: String, callback: F) -> (moved:
        Option<u64>)
        requires
            old(self).wf(),
            old(self)@.tasks.contains_key(task_id@) ==> call_requires(
                callback,
                (old(self)@.tasks[task_id@].timestamp,),
            ),
        ensures
            final(self).wf(),
            final(self).timer_state() == old(self).timer_state(),
            match moved {
                Some(timestamp) => old(self)@.tasks.contains_key(task_id@) && call_ensures(
                    callback,
                    (old(self)@.tasks[task_id@].timestamp,),
                    timestamp,
                ) && final(self)@ == old(self)@.reschedule(task_id@, timestamp),
                None => !old(self)@.tasks.contains_key(task_id@) && final(self)@ == old(self)@,
            },
    {
        let found = match self.tasks.get(task_id.as_str()) {
            Some(task) => Some(Task { timestamp: task.timestamp, args: clone_args(&task.args) }),
            None => None,
        };
        match found {
            Some(task) => {
                let entry = (task.timestamp, task_id.clone());
                proof {
                    lemma_add_well_formed(self@, task.timestamp, task_id@, task.args.deep_view());
                    assert(self@.timetable.contains(entry@));
                    let k = choose|k: int|
                        0 <= k < self@.timetable.len() && self@.timetable[k] == entry@;
                    lemma_rank_of_member(self@.timetable, k);
                }
                let _ = skiplist_remove_first(&mut self.timetable, &entry);
                let timestamp = callback(task.timestamp);
                proof {
                    lemma_add_well_formed(old(self)@, timestamp, task_id@, task.args.deep_view());
                }
                skiplist_insert(&mut self.timetable, (timestamp, task_id.clone()));
                self.tasks.insert(task_id, Task { timestamp, args: task.args });
                assert(self@.tasks =~= old(self)@.reschedule(task_id@, timestamp).tasks);
                Some(timestamp)
            },
            None => None,
        }
    }

    /// Moves the task `task_id` later by `value`, stopping at the largest instant
    /// there is, and returns the new instant; nothing where there is no such task.
    pub fn incr(&mut self, task_id: String, value: u64) -> (moved: Option<u64>)
        requires
            old(self).wf(),
        ensures
            final(self).wf(),
            final(self).timer_state() == old(self).timer_state(),
            match moved {
                Some(timestamp) => old(self)@.tasks.contains_key(task_id@) && timestamp
                    == later_by(old(self)@.tasks[task_id@].timestamp, value) && final(self)@ == old(
                    self,
                )@.reschedule(task_id@, timestamp),
                None => !old(self)@.tasks.contains_key(task_id@) && final(self)@ == old(self)@,
            },
    {
        let shift = |x: u64| -> (y: u64)
            ensures
                y == later_by(x, value),
            { x.saturating_add(value) };
        self.change_timestamp_by(task_id, shift)
    }

    /// Moves the task `task_id` earlier by `value`, stopping at instant zero, and
    /// returns the new instant; nothing where there is no such task.
    pub fn decr(&mut self, task_id: String, value: u64) -> (moved: Option<u64>)
        requires
            old(self).wf(),
        ensures
            final(self).wf(),
            final(self).timer_state() == old(self).timer_state(),
            match moved {
                Some(timestamp) => old(self)@.tasks.contains_key(task_id@) && timestamp
                    == earlier_by(old(self)@.tasks[task_id@].timestamp, value) && final(self)@
                    == old(self)@.reschedule(task_id@, timestamp),
                None => !old(self)@.tasks.contains_key(task_id@) && final(self)@ == old(self)@,
            },
    {
        let shift = |x: u64| -> (y: u64)
            ensures
                y == earlier_by(x, value),
            { x.saturating_sub(value) };
        self.change_timestamp_by(task_id, shift)
    }

    /// Takes out every task that is due at `cutoff` and returns their lines, the
    /// earliest first and equal instants by identifier.
    pub fn drain_due(&mut self, cutoff: u64) -> (drained: Vec<(u64, String, Vec<String>)>)
        requires
            old(self).wf(),
        ensures
            final(self).wf(),
            final(self).timer_state() == old(self).timer_state(),
            drained.deep_view() == old(self)@.due_rows(cutoff),
            final(self)@ == old(self)@.after_drain(cutoff),
    {
        let mut drained: Vec<(u64, String, Vec<String>)> = Vec::new();
        assert(drained.deep_view() =~= Seq::<Row>::empty());
        loop
            invariant
                self.wf(),
                self.timer_state() == old(self).timer_state(),
                old(self)@.due_rows(cutoff) == drained.deep_view() + self@.due_rows(cutoff),
                old(self)@.after_drain(cutoff) == self@.after_drain(cutoff),
            ensures
                !self@.first_is_due(cutoff),
            decreases self@.timetable.len(),
        {
            let ghost before = self@;
            let ghost so_far = drained.deep_view();
            match self.pop_by_timestamp(cutoff) {
                Some(row) => {
                    drained.push(row);
                    assert(drained.deep_view() =~= so_far.push(row.deep_view()));
                    assert(so_far.push(row.deep_view()) + self@.due_rows(cutoff) =~= so_far
                        + before.due_rows(cutoff));
                },
                None => {
                    break ;
                },
            }
        }
        assert(drained.deep_view() =~= old(self)@.due_rows(cutoff));
        drained
    }

    /// The schedule that holds the tasks of `rows`, without a wake-up. Of two
    /// lines with one identifier the later one counts.
    pub fn from_vec(rows: &Vec<(u64, String, Vec<String>)>) -> (schedule: ScheduleDataType)
        ensures
            schedule.wf(),
            schedule@ == ScheduleView::from_rows(rows.deep_view()),
            schedule.timer_state() == TimerState::NoTimer,
    {
        let mut schedule = ScheduleDataType::new();
        let mut i: usize = 0;
        while i < rows.len()
            invariant
                i <= rows.len(),
                schedule.wf(),
                schedule.timer_state() == TimerState::NoTimer,
                schedule@ == ScheduleView::from_rows(rows.deep_view().take(i as int)),
            decreases rows.len() - i,
        {
            let task_id = rows[i].1.clone();
            let args = clone_args(&rows[i].2);
            proof {
                let upto = rows.deep_view().take(i + 1);
                assert(upto.drop_last() =~= rows.deep_view().take(i as int));
                assert(upto.last() == (rows[i as int].0, task_id@, args.deep_view()));
            }
            schedule.add_task(rows[i].0, task_id, args);
            i += 1;
        }
        assert(rows.deep_view().take(rows.len() as int) =~= rows.deep_view());
        schedule
    }

    /// The listing of the schedule: one line for each task, in the timetable's
    /// order. The schedule stays as it is.
    pub fn to_vec(&self) -> (rows: Vec<(u64, String, Vec<String>)>)
        requires
            self.wf(),
        ensures
            rows.deep_view() == self@.ordered_list(),
    {
        let entries = skiplist_items(&self.timetable);
        let mut rows: Vec<(u64, String, Vec<String>)> = Vec::with_capacity(entries.len());
        let mut i: usize = 0;
        while i < entries.len()
            invariant
                i <= entries.len(),
                rows.len() == i,
                self.wf(),
                entries.deep_view() == self@.timetable,
                forall|j: int| 0 <= j < i ==> (#[trigger] rows@[j]).deep_view() == self@.row_of(
                    self@.timetable[j],
                ),
            decreases entries.len() - i,
        {
            let timestamp = entries[i].0;
            let task_id = entries[i].1.clone();
            assert(entries.deep_view()[i as int] == (timestamp, task_id@));
            proof {
                assert(self@.timetable.contains(self@.timetable[i as int]));
            }
            let args = match self.tasks.get(task_id.as_str()) {
                Some(task) => clone_args(&task.args),
                None => Vec::new(),
            };
            let row = (timestamp, task_id, args);
            assert(row.deep_view() == self@.row_of(self@.timetable[i as int]));
            rows.push(row);
            i += 1;
        }
        assert(rows.deep_view() =~= self@.ordered_list());
        rows
    }
}

} // verus!
