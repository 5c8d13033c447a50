use redelay::commands::{
    event_is_restore, exec_due_tasks, execute_schedule_task, is_replica_node, NotifyEvent,
};
use redelay::timer::update_timer;
use redelay::{
    add, decrby, exec, exec_due, incrby, rem, replicate, scan, Replication, ScheduleDataType,
    ScheduleError, TimerAction, TimerState,
};

fn command(words: &[&str]) -> Vec<String> {
    words.iter().map(|w| w.to_string()).collect()
}

#[test]
fn add_assigns_a_fresh_identifier() {
    let mut schedule = ScheduleDataType::new();
    let (first, record) = add(&mut schedule, 100, 3, command(&["rpush", "L", "x"])).unwrap();
    let (second, _) = add(&mut schedule, 100, 3, command(&["rpush", "L", "x"])).unwrap();
    assert_eq!(first.len(), 36);
    assert_eq!(first.matches('-').count(), 4);
    assert_ne!(first, second);
    assert_eq!(
        record,
        Replication::AddTask {
            timestamp: 103,
            task_id: first.clone(),
            command: command(&["rpush", "L", "x"]),
        }
    );
    assert_eq!(schedule.len(), 2);
    assert_eq!(schedule.get_min_timestamp(), Some(103));
}

#[test]
fn add_rejects_an_empty_command() {
    let mut schedule = ScheduleDataType::new();
    assert_eq!(
        add(&mut schedule, 100, 3, vec![]),
        Err(ScheduleError::MalformedInput)
    );
    assert_eq!(schedule.len(), 0);
}

#[test]
fn add_stops_at_the_largest_instant() {
    let mut schedule = ScheduleDataType::new();
    add(&mut schedule, u64::MAX - 1, 5, command(&["PING"])).unwrap();
    assert_eq!(schedule.get_min_timestamp(), Some(u64::MAX));
}

#[test]
fn replicate_keeps_the_identifier() {
    let mut schedule = ScheduleDataType::new();
    let (id, record) = replicate(&mut schedule, 42, "task-1".to_string(), command(&["PING"])).unwrap();
    assert_eq!(id, "task-1");
    assert_eq!(
        record,
        Replication::AddTask {
            timestamp: 42,
            task_id: "task-1".to_string(),
            command: command(&["PING"]),
        }
    );
    assert_eq!(scan(&schedule), vec![(42, "task-1".to_string(), command(&["PING"]))]);
    assert_eq!(
        replicate(&mut schedule, 42, "task-2".to_string(), vec![]),
        Err(ScheduleError::MalformedInput)
    );
}

#[test]
fn rem_is_replicated_as_it_came() {
    let mut schedule = ScheduleDataType::new();
    replicate(&mut schedule, 42, "task-1".to_string(), command(&["PING"])).unwrap();
    let (task, record) = rem(&mut schedule, "task-1".to_string());
    assert_eq!(task.map(|t| (t.timestamp, t.args)), Some((42, command(&["PING"]))));
    assert_eq!(record, Replication::Verbatim);
    let (again, record) = rem(&mut schedule, "task-1".to_string());
    assert!(again.is_none());
    assert_eq!(record, Replication::Verbatim);
    assert_eq!(scan(&schedule), vec![]);
}

#[test]
fn exec_takes_the_task_out() {
    let mut schedule = ScheduleDataType::new();
    replicate(&mut schedule, 42, "task-1".to_string(), command(&["rpush", "L", "x"])).unwrap();
    let task = exec(&mut schedule, "task-1".to_string()).unwrap();
    assert_eq!(task.args, command(&["rpush", "L", "x"]));
    assert!(exec(&mut schedule, "task-1".to_string()).is_none());
    assert_eq!(schedule.len(), 0);
}

#[test]
fn a_task_that_ran_is_removed_then_replayed() {
    let records = execute_schedule_task("task-1".to_string(), command(&["rpush", "L", "x"]), true);
    assert_eq!(
        records,
        vec![
            Replication::RemoveTask { task_id: "task-1".to_string() },
            Replication::Command { command: command(&["rpush", "L", "x"]) },
        ]
    );
}

#[test]
fn a_task_that_failed_is_only_removed() {
    let records = execute_schedule_task("task-1".to_string(), command(&["rpush", "L", "x"]), false);
    assert_eq!(
        records,
        vec![Replication::RemoveTask { task_id: "task-1".to_string() }]
    );
}

#[test]
fn three_tasks_run_in_order_of_their_instants() {
    let now = 1_000;
    let mut schedule = ScheduleDataType::new();
    replicate(&mut schedule, now + 3, "first".to_string(), command(&["rpush", "L", "x"])).unwrap();
    replicate(&mut schedule, now + 2, "second".to_string(), command(&["rpush", "L", "y"])).unwrap();
    replicate(&mut schedule, now + 1, "third".to_string(), command(&["rpush", "L", "z"])).unwrap();
    assert_eq!(scan(&schedule).len(), 3);

    assert_eq!(exec_due(&mut schedule, now), vec![]);
    let due = exec_due(&mut schedule, now + 3);
    let pushed: Vec<String> = due.iter().map(|row| row.2[2].clone()).collect();
    assert_eq!(pushed, command(&["z", "y", "x"]));
    assert_eq!(scan(&schedule), vec![]);
}

#[test]
fn incrby_moves_the_task_and_looks_at_the_timer() {
    let mut schedule = ScheduleDataType::new();
    replicate(&mut schedule, 10, "a".to_string(), command(&["PING"])).unwrap();
    let (moved, record, action) = incrby(&mut schedule, "a".to_string(), 5, 2, None);
    assert_eq!(moved, Some(15));
    assert_eq!(record, Replication::Verbatim);
    assert_eq!(action, TimerAction::Arm { cancel: None, delay: 13 });
    assert_eq!(schedule.timetable_iter(), vec![(15, "a".to_string())]);

    let (moved, record, action) = incrby(&mut schedule, "missing".to_string(), 5, 2, None);
    assert_eq!(moved, None);
    assert_eq!(record, Replication::Verbatim);
    assert_eq!(action, TimerAction::Keep);
}

#[test]
fn decrby_moves_the_task_and_stops_at_zero() {
    let mut schedule = ScheduleDataType::new();
    replicate(&mut schedule, 600, "a".to_string(), command(&["PING"])).unwrap();
    let (moved, _, action) = decrby(&mut schedule, "a".to_string(), 1, 100, None);
    assert_eq!(moved, Some(599));
    assert_eq!(action, TimerAction::Arm { cancel: None, delay: 499 });
    let (moved, _, action) = decrby(&mut schedule, "a".to_string(), 1_000, 100, None);
    assert_eq!(moved, Some(0));
    assert_eq!(action, TimerAction::Arm { cancel: None, delay: 0 });
    let (moved, _, action) = decrby(&mut schedule, "b".to_string(), 1, 100, None);
    assert_eq!(moved, None);
    assert_eq!(action, TimerAction::Keep);
}

#[test]
fn a_replica_is_a_cluster_node_that_is_not_master() {
    let one = Some("1".to_string());
    let zero = Some("0".to_string());
    let master = Some("master".to_string());
    let slave = Some("slave".to_string());
    assert!(is_replica_node(&one, &slave));
    assert!(!is_replica_node(&one, &master));
    assert!(!is_replica_node(&one, &None));
    assert!(!is_replica_node(&zero, &slave));
    assert!(!is_replica_node(&None, &slave));
    assert!(!is_replica_node(&None, &None));
}

#[test]
fn a_wake_up_drains_on_the_active_node_only() {
    let mut schedule = ScheduleDataType::new();
    replicate(&mut schedule, 5, "a".to_string(), command(&["PING"])).unwrap();
    replicate(&mut schedule, 9, "b".to_string(), command(&["PING"])).unwrap();
    schedule.set_timer(TimerState::Armed { fire_at: 5, handle: 7 });

    let mut replica = ScheduleDataType::from_vec(&schedule.to_vec());
    replica.set_timer(TimerState::Armed { fire_at: 5, handle: 7 });
    assert_eq!(exec_due_tasks(&mut replica, true, 6), None);
    assert_eq!(replica.len(), 2);
    assert_eq!(replica.timer(), TimerState::NoTimer);

    let due = exec_due_tasks(&mut schedule, false, 6);
    assert_eq!(due, Some(vec![(5, "a".to_string(), command(&["PING"]))]));
    assert_eq!(schedule.timer(), TimerState::NoTimer);
    assert_eq!(
        update_timer(&schedule, 6, None),
        TimerAction::Arm { cancel: None, delay: 3 }
    );
}

#[test]
fn restore_and_loaded_events_call_for_a_timer() {
    assert!(event_is_restore(NotifyEvent::Generic, "restore"));
    assert!(event_is_restore(NotifyEvent::Loaded, "loaded"));
    assert!(!event_is_restore(NotifyEvent::Generic, "loaded"));
    assert!(!event_is_restore(NotifyEvent::Loaded, "restore"));
    assert!(!event_is_restore(NotifyEvent::Generic, "del"));
    assert!(!event_is_restore(NotifyEvent::Other, "restore"));
}
