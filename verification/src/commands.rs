use crate::data_types::{clone_args, earlier_by, later_by, ScheduleDataType, Task};
use crate::timer::{timer_fired, timer_rule, update_timer, TimerAction, TimerState};
use uuid::Uuid;
use vstd::prelude::*;

verus! {

/// Why a request was turned down.
#[derive(Clone, Copy, Debug, PartialEq, Eq, Structural)]
pub enum ScheduleError {
    /// An argument is missing or is not of the kind asked for.
    MalformedInput,
    /// A snapshot could not be written or read.
    PersistenceFailure,
}

/// What a passive replica is to be told so that it ends in the same state.
#[derive(Debug, PartialEq, Eq)]
pub enum Replication {
    /// The request, as it was received.
    Verbatim,
    /// Add the task `task_id`, due at `timestamp`.
    AddTask { timestamp: u64, task_id: String, command: Vec<String> },
    /// Remove the task `task_id`.
    RemoveTask { task_id: String },
    /// Run `command`, its name first.
    Command { command: Vec<String> },
}

/// A replication record as contracts see it.
pub enum ReplicationView {
    Verbatim,
    AddTask { timestamp: u64, task_id: Seq<char>, command: Seq<Seq<char>> },
    RemoveTask { task_id: Seq<char> },
    Command { command: Seq<Seq<char>> },
}

impl View for Replication {
    type V = ReplicationView;

    open spec fn view(&self) -> ReplicationView {
        match self {
            Replication::Verbatim => ReplicationView::Verbatim,
            Replication::AddTask { timestamp, task_id, command } => ReplicationView::AddTask {
                timestamp: *timestamp,
                task_id: task_id@,
                command: command.deep_view(),
            },
            Replication::RemoveTask { task_id } => ReplicationView::RemoveTask { task_id: task_id@ },
            Replication::Command { command } => ReplicationView::Command {
                command: command.deep_view(),
            },
        }
    }
}

/// `Uuid::new_v4`, written out by `to_hyphenated`: a random identifier of 32
/// hexadecimal digits in five groups, 36 characters with the hyphens. Nothing is
/// said of which identifier comes. The call panics where the operating system
/// gives no random bytes.
#[verifier::external_body]
fn fresh_task_id() -> (id: String)
    ensures
        id@.len() == 36,
{
    Uuid::new_v4().to_hyphenated().to_string()
}

/// Adds a task due at `timestamp` under the identifier given, or under a fresh
/// random one where none is given, and returns the identifier with the record
/// for the replicas. A task that had the identifier before is replaced.
pub fn add_task_helper_to_schedule(
    schedule: &mut ScheduleDataType,
    timestamp: u64,
    delayed_command: Vec<String>,
    task_id: Option<String>,
) -> (added: (String, Replication))
    requires
        old(schedule).wf(),
    ensures
        final(schedule).wf(),
        final(schedule).timer_state() == old(schedule).timer_state(),
        match task_id {
            Some(given) => added.0@ == given@,
            None => added.0@.len() == 36,
        },
        final(schedule)@ == old(schedule)@.add(timestamp, added.0@, delayed_command.deep_view()),
        added.1@ == (ReplicationView::AddTask {
            timestamp,
            task_id: added.0@,
            command: delayed_command.deep_view(),
        }),
{
    let task_id = match task_id {
        Some(given) => given,
        None => fresh_task_id(),
    };
    let command = clone_args(&delayed_command);
    schedule.add_task(timestamp, task_id.clone(), delayed_command);
    let record = Replication::AddTask { timestamp, task_id: task_id.clone(), command };
    (task_id, record)
}

/// Registers `delayed_command` to run `delay` seconds after `now`, under a fresh
/// identifier, which is returned with the record for the replicas. The due
/// instant stops at the largest instant there is. An empty command is turned
/// down.
pub fn add(schedule: &mut ScheduleDataType, now: u64, delay: u64, delayed_command: Vec<String>) -> (added:
    Result<(String, Replication), ScheduleError>)
    requires
        old(schedule).wf(),
    ensures
        final(schedule).wf(),
        final(schedule).timer_state() == old(schedule).timer_state(),
        match added {
            Ok((task_id, record)) => {
                &&& delayed_command.len() > 0
                &&& task_id@.len() == 36
                &&& final(schedule)@ == old(schedule)@.add(
                    later_by(now, delay),
                    task_id@,
                    delayed_command.deep_view(),
                )
                &&& record@ == (ReplicationView::AddTask {
                    timestamp: later_by(now, delay),
                    task_id: task_id@,
                    command: delayed_command.deep_view(),
                })
            },
            Err(error) => {
                &&& delayed_command.len() == 0
                &&& error == ScheduleError::MalformedInput
                &&& final(schedule)@ == old(schedule)@
            },
        },
{
    if delayed_command.len() == 0 {
        return Err(ScheduleError::MalformedInput);
    }
    let timestamp = now.saturating_add(delay);
    Ok(add_task_helper_to_schedule(schedule, timestamp, delayed_command, None))
}

/// Registers `delayed_command` under the identifier and the due instant that the
/// active node chose. An empty command is turned down.
pub fn replicate(
    schedule: &mut ScheduleDataType,
    timestamp: u64,
    task_id: String,
    delayed_command: Vec<String>,
) -> (added: Result<(String, Replication), ScheduleError>)
    requires
        old(schedule).wf(),
    ensures
        final(schedule).wf(),
        final(schedule).timer_state() == old(schedule).timer_state(),
        match added {
            Ok((id, record)) => {
                &&& delayed_command.len() > 0
                &&& id@ == task_id@
                &&& final(schedule)@ == old(schedule)@.add(
                    timestamp,
                    task_id@,
                    delayed_command.deep_view(),
                )
                &&& record@ == (ReplicationView::AddTask {
                    timestamp,
                    task_id: task_id@,
                    command: delayed_command.deep_view(),
                })
            },
            Err(error) => {
                &&& delayed_command.len() == 0
                &&& error == ScheduleError::MalformedInput
                &&& final(schedule)@ == old(schedule)@
            },
        },
{
    if delayed_command.len() == 0 {
        return Err(ScheduleError::MalformedInput);
    }
    Ok(add_task_helper_to_schedule(schedule, timestamp, delayed_command, Some(task_id)))
}

/// Cancels the task `task_id` and returns it, or nothing where there is no such
/// task. The request is replicated as it came either way.
pub fn rem(schedule: &mut ScheduleDataType, task_id: String) -> (removed: (
    Option<Task>,
    Replication,
))
    requires
        old(schedule).wf(),
    ensures
        final(schedule).wf(),
        final(schedule).timer_state() == old(schedule).timer_state(),
        final(schedule)@ == old(schedule)@.without(task_id@),
        match removed.0 {
            Some(task) => old(schedule)@.tasks.contains_key(task_id@) && task@ == old(schedule)@.tasks[task_id@],
            None => !old(schedule)@.tasks.contains_key(task_id@),
        },
        removed.1@ == ReplicationView::Verbatim,
{
    let task = schedule.del_task(task_id);
    (task, Replication::Verbatim)
}

/// Takes the task `task_id` out of the schedule so that it can be run now, and
/// returns it; nothing where there is no such task.
pub fn exec(schedule: &mut ScheduleDataType, task_id: String) -> (task: Option<Task>)
    requires
        old(schedule).wf(),
    ensures
        final(schedule).wf(),
        final(schedule).timer_state() == old(schedule).timer_state(),
        final(schedule)@ == old(schedule)@.without(task_id@),
        match task {
            Some(task) => old(schedule)@.tasks.contains_key(task_id@) && task@ == old(schedule)@.tasks[task_id@],
            None => !old(schedule)@.tasks.contains_key(task_id@),
        },
{
    schedule.del_task(task_id)
}

/// What the replicas are told once a task that was taken out has been handed to
/// the executor: that the task is gone, and, where the executor succeeded, the
/// task's command. A task whose command failed is gone all the same and is not
/// tried again.
pub open spec fn execution_records(
    task_id: Seq<char>,
    command: Seq<Seq<char>>,
    succeeded: bool,
) -> Seq<ReplicationView> {
    if succeeded {
        seq![ReplicationView::RemoveTask { task_id }, ReplicationView::Command { command }]
    } else {
        seq![ReplicationView::RemoveTask { task_id }]
    }
}

/// The view of each record.
pub open spec fn records_view(records: Seq<Replication>) -> Seq<ReplicationView> {
    Seq::new(records.len(), |i: int| records[i]@)
}

/// The records for the replicas once the executor has returned for the task
/// `task_id`: see [`execution_records`].
pub fn execute_schedule_task(task_id: String, command: Vec<String>, succeeded: bool) -> (records:
    Vec<Replication>)
    ensures
        records_view(records@) == execution_records(task_id@, command.deep_view(), succeeded),
{
    let mut records: Vec<Replication> = Vec::with_capacity(2);
    records.push(Replication::RemoveTask { task_id });
    if succeeded {
        records.push(Replication::Command { command });
    }
    assert(records_view(records@) =~= execution_records(
        task_id@,
        command.deep_view(),
        succeeded,
    ));
    records
}

/// Takes out every task that is due at `timestamp` and returns them in the order
/// in which they are to be run: the earliest first, equal instants by
/// identifier.
pub fn exec_due(schedule: &mut ScheduleDataType, timestamp: u64) -> (due: Vec<
    (u64, String, Vec<String>),
>)
    requires
        old(schedule).wf(),
    ensures
        final(schedule).wf(),
        final(schedule).timer_state() == old(schedule).timer_state(),
        due.deep_view() == old(schedule)@.due_rows(timestamp),
        final(schedule)@ == old(schedule)@.after_drain(timestamp),
{
    schedule.drain_due(timestamp)
}

/// The listing of the schedule, in the timetable's order.
pub fn scan(schedule: &ScheduleDataType) -> (rows: Vec<(u64, String, Vec<String>)>)
    requires
        schedule.wf(),
    ensures
        rows.deep_view() == schedule@.ordered_list(),
{
    schedule.to_vec()
}

/// What `incrby` and `decrby` hand back for a task that was moved to `moved`, or
/// was not found: the wake-up is looked at again only where a task was moved.
pub open spec fn timer_after_move(
    moved: Option<u64>,
    state: TimerState,
    min_due: Option<u64>,
    now: u64,
    remaining: Option<u64>,
) -> TimerAction {
    if moved is Some {
        timer_rule(state, min_due, now, remaining)
    } else {
        TimerAction::Keep
    }
}

/// Moves the task `task_id` later by `inc_size` seconds and returns the new due
/// instant, or nothing where there is no such task, with the record for the
/// replicas and what is to be done about the wake-up.
pub fn incrby(
    schedule: &mut ScheduleDataType,
    task_id: String,
    inc_size: u64,
    now: u64,
    remaining: Option<u64>,
) -> (moved: (Option<u64>, Replication, TimerAction))
    requires
        old(schedule).wf(),
    ensures
        final(schedule).wf(),
        final(schedule).timer_state() == old(schedule).timer_state(),
        match moved.0 {
            Some(timestamp) => old(schedule)@.tasks.contains_key(task_id@) && timestamp
                == later_by(old(schedule)@.tasks[task_id@].timestamp, inc_size) && final(schedule)@
                == old(schedule)@.reschedule(task_id@, timestamp),
            None => !old(schedule)@.tasks.contains_key(task_id@) && final(schedule)@ == old(schedule)@,
        },
        moved.1@ == ReplicationView::Verbatim,
        moved.2 == timer_after_move(
            moved.0,
            old(schedule).timer_state(),
            final(schedule)@.min_due(),
            now,
            remaining,
        ),
{
    let timestamp = schedule.incr(task_id, inc_size);
    let action = match timestamp {
        Some(_) => update_timer(schedule, now, remaining),
        None => TimerAction::Keep,
    };
    (timestamp, Replication::Verbatim, action)
}

/// Moves the task `task_id` earlier by `dec_size` seconds, stopping at instant
/// zero, and returns the new due instant, or nothing where there is no such
/// task, with the record for the replicas and what is to be done about the
/// wake-up.
pub fn decrby(
    schedule: &mut ScheduleDataType,
    task_id: String,
    dec_size: u64,
    now: u64,
    remaining: Option<u64>,
) -> (moved: (Option<u64>, Replication, TimerAction))
    requires
        old(schedule).wf(),
    ensures
        final(schedule).wf(),
        final(schedule).timer_state() == old(schedule).timer_state(),
        match moved.0 {
            Some(timestamp) => old(schedule)@.tasks.contains_key(task_id@) && timestamp
                == earlier_by(old(schedule)@.tasks[task_id@].timestamp, dec_size)
                && final(schedule)@ == old(schedule)@.reschedule(task_id@, timestamp),
            None => !old(schedule)@.tasks.contains_key(task_id@) && final(schedule)@ == old(schedule)@,
        },
        moved.1@ == ReplicationView::Verbatim,
        moved.2 == timer_after_move(
            moved.0,
            old(schedule).timer_state(),
            final(schedule)@.min_due(),
            now,
            remaining,
        ),
{
    let timestamp = schedule.decr(task_id, dec_size);
    let action = match timestamp {
        Some(_) => update_timer(schedule, now, remaining),
        None => TimerAction::Keep,
    };
    (timestamp, Replication::Verbatim, action)
}

/// Whether a node is a passive replica, by what the server says of itself: it is
/// one where the cluster is switched on and its role is not that of the master.
/// What the server does not say counts as cluster off and as master.
pub open spec fn replica_by(cluster_enabled: Option<Seq<char>>, role: Option<Seq<char>>) -> bool {
    cluster_enabled == Some("1"@) && role is Some && role != Some("master"@)
}

/// Whether a node is a passive replica: see [`replica_by`].
pub fn is_replica_node(cluster_enabled: &Option<String>, role: &Option<String>) -> (replica: bool)
    ensures
        replica == replica_by(
            match cluster_enabled {
                Some(text) => Some(text@),
                None => None,
            },
            match role {
                Some(text) => Some(text@),
                None => None,
            },
        ),
{
    let enabled = match cluster_enabled {
        Some(text) => text.as_str().to_owned() == "1".to_owned(),
        None => false,
    };
    let master = match role {
        Some(text) => text.as_str().to_owned() == "master".to_owned(),
        None => true,
    };
    enabled && !master
}

/// The wake-up of the schedule has fired at the instant `now`. On an active node
/// every task that is due is taken out and returned, in the order in which it is
/// to be run. A passive replica takes nothing out and returns nothing: it waits
/// for what the active node tells it. Either way no wake-up is outstanding
/// afterwards.
pub fn exec_due_tasks(schedule: &mut ScheduleDataType, is_replica: bool, now: u64) -> (due: Option<
    Vec<(u64, String, Vec<String>)>,
>)
    requires
        old(schedule).wf(),
    ensures
        final(schedule).wf(),
        final(schedule).timer_state() == TimerState::NoTimer,
        match due {
            Some(rows) => !is_replica && rows.deep_view() == old(schedule)@.due_rows(now) && final(schedule)@ == old(schedule)@.after_drain(now),
            None => is_replica && final(schedule)@ == old(schedule)@,
        },
{
    timer_fired(schedule);
    if is_replica {
        None
    } else {
        Some(exec_due(schedule, now))
    }
}

/// The kinds of keyspace event that the storage layer reports.
#[derive(Clone, Copy, Debug, PartialEq, Eq, Structural)]
pub enum NotifyEvent {
    /// A command that works on any kind of key.
    Generic,
    /// A key was loaded from a snapshot.
    Loaded,
    /// Any other kind.
    Other,
}

/// Whether an event says that a schedule has come back from a snapshot, so that
/// its wake-up has to be armed anew: a generic `restore` or a `loaded`.
pub fn event_is_restore(event_type: NotifyEvent, event: &str) -> (restored: bool)
    ensures
        restored == ((event_type == NotifyEvent::Generic && event@ == "restore"@) || (event_type
            == NotifyEvent::Loaded && event@ == "loaded"@)),
{
    match event_type {
        NotifyEvent::Generic => event.to_owned() == "restore".to_owned(),
        NotifyEvent::Loaded => event.to_owned() == "loaded".to_owned(),
        NotifyEvent::Other => false,
    }
}

} // verus!
