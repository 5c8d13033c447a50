use redelay::ScheduleDataType;

#[test]
fn get_min_timestamp() {
    let mut schedule = ScheduleDataType::new();

    schedule.add_task(10, "task-a".to_string(), vec![]);
    assert_eq!(schedule.get_min_timestamp(), Some(10));

    schedule.add_task(1, "task-b".to_string(), vec![]);
    assert_eq!(schedule.get_min_timestamp(), Some(1));

    schedule.pop_by_timestamp(5);
    assert_eq!(schedule.get_min_timestamp(), Some(10));
}

#[test]
fn odering() {
    let mut schedule = ScheduleDataType::new();
    schedule.add_task(10, "task-a".to_string(), vec![]);
    schedule.add_task(1, "task-b".to_string(), vec![]);
    schedule.add_task(100, "task-c".to_string(), vec![]);

    let name = |x: (u64, String, Vec<String>)| x.1;

    assert_eq!(
        schedule.pop_by_timestamp(200).map(name),
        Some("task-b".into())
    );
    assert_eq!(
        schedule.pop_by_timestamp(200).map(name),
        Some("task-a".into())
    );
    assert_eq!(
        schedule.pop_by_timestamp(200).map(name),
        Some("task-c".into())
    );

    assert_eq!(schedule.pop_by_timestamp(200), None);
}

#[test]
fn del() {
    let mut schedule = ScheduleDataType::new();
    schedule.add_task(10, "task-a".to_string(), vec!["A".to_string()]);
    schedule.add_task(1, "task-b".to_string(), vec!["B".to_string()]);
    schedule.add_task(100, "task-c".to_string(), vec!["C".to_string()]);
    assert_eq!(schedule.len(), 3);

    let task_b = schedule.del_task("task-b".to_string());
    assert_eq!(task_b.unwrap().args, vec!["B".to_string()]);
    assert_eq!(schedule.len(), 2);
}

#[test]
fn incr() {
    let mut schedule = ScheduleDataType::new();

    schedule.add_task(10, "task-a".to_string(), vec!["A".to_string()]);
    schedule.add_task(1, "task-b".to_string(), vec!["B".to_string()]);
    assert_eq!(schedule.get_min_timestamp(), Some(1));

    assert_eq!(schedule.incr("task-b".to_string(), 5), Some(6));
    assert_eq!(schedule.get_min_timestamp(), Some(6));
    assert_eq!(schedule.len(), 2);
}

#[test]
fn decr() {
    let mut schedule = ScheduleDataType::new();

    schedule.add_task(10, "task-a".to_string(), vec!["A".to_string()]);
    schedule.add_task(6, "task-b".to_string(), vec!["B".to_string()]);

    assert_eq!(schedule.get_min_timestamp(), Some(6));

    assert_eq!(schedule.decr("task-b".to_string(), 5), Some(1));
    assert_eq!(schedule.get_min_timestamp(), Some(1));
    assert_eq!(schedule.len(), 2);
}

#[test]
fn add_task_replaces_a_task_with_the_same_identifier() {
    let mut schedule = ScheduleDataType::new();
    schedule.add_task(10, "task-a".to_string(), vec!["A".to_string()]);
    schedule.add_task(3, "task-a".to_string(), vec!["B".to_string()]);
    assert_eq!(schedule.len(), 1);
    assert_eq!(
        schedule.to_vec(),
        vec![(3, "task-a".to_string(), vec!["B".to_string()])]
    );
    assert_eq!(schedule.timetable_iter(), vec![(3, "task-a".to_string())]);
}

#[test]
fn equal_instants_drain_by_identifier() {
    let mut schedule = ScheduleDataType::new();
    schedule.add_task(7, "b".to_string(), vec!["second".to_string()]);
    schedule.add_task(7, "a".to_string(), vec!["first".to_string()]);
    let drained = schedule.drain_due(7);
    assert_eq!(
        drained,
        vec![
            (7, "a".to_string(), vec!["first".to_string()]),
            (7, "b".to_string(), vec!["second".to_string()]),
        ]
    );
    assert_eq!(schedule.len(), 0);
    assert_eq!(schedule.get_min_timestamp(), None);
}

#[test]
fn a_prefix_comes_before_the_longer_identifier() {
    let mut schedule = ScheduleDataType::new();
    schedule.add_task(7, "ab".to_string(), vec![]);
    schedule.add_task(7, "a".to_string(), vec![]);
    schedule.add_task(7, "B".to_string(), vec![]);
    assert_eq!(
        schedule.timetable_iter(),
        vec![
            (7, "B".to_string()),
            (7, "a".to_string()),
            (7, "ab".to_string()),
        ]
    );
}

#[test]
fn drain_due_stops_at_the_cutoff() {
    let mut schedule = ScheduleDataType::new();
    schedule.add_task(30, "c".to_string(), vec!["C".to_string()]);
    schedule.add_task(10, "a".to_string(), vec!["A".to_string()]);
    schedule.add_task(20, "b".to_string(), vec!["B".to_string()]);
    let drained = schedule.drain_due(20);
    assert_eq!(
        drained,
        vec![
            (10, "a".to_string(), vec!["A".to_string()]),
            (20, "b".to_string(), vec!["B".to_string()]),
        ]
    );
    assert_eq!(
        schedule.to_vec(),
        vec![(30, "c".to_string(), vec!["C".to_string()])]
    );
    assert_eq!(schedule.drain_due(29), vec![]);
}

#[test]
fn removing_twice_finds_nothing_the_second_time() {
    let mut schedule = ScheduleDataType::new();
    schedule.add_task(10, "a".to_string(), vec!["A".to_string()]);
    schedule.add_task(20, "b".to_string(), vec!["B".to_string()]);
    let first = schedule.del_task("a".to_string());
    assert_eq!(first.map(|t| t.timestamp), Some(10));
    assert!(schedule.del_task("a".to_string()).is_none());
    assert_eq!(
        schedule.to_vec(),
        vec![(20, "b".to_string(), vec!["B".to_string()])]
    );
}

#[test]
fn incr_moves_the_timetable_entry() {
    let mut schedule = ScheduleDataType::new();
    schedule.add_task(10, "a".to_string(), vec!["A".to_string()]);
    assert_eq!(schedule.incr("a".to_string(), 5), Some(15));
    assert_eq!(schedule.timetable_iter(), vec![(15, "a".to_string())]);
    assert_eq!(schedule.incr("missing".to_string(), 5), None);
}

#[test]
fn incr_and_decr_stop_at_the_ends() {
    let mut schedule = ScheduleDataType::new();
    schedule.add_task(10, "a".to_string(), vec![]);
    assert_eq!(schedule.decr("a".to_string(), 11), Some(0));
    assert_eq!(schedule.incr("a".to_string(), u64::MAX), Some(u64::MAX));
    assert_eq!(schedule.incr("a".to_string(), 1), Some(u64::MAX));
    assert_eq!(schedule.decr("missing".to_string(), 1), None);
}

#[test]
fn change_timestamp_by_applies_the_callback() {
    let mut schedule = ScheduleDataType::new();
    schedule.add_task(10, "a".to_string(), vec!["A".to_string()]);
    schedule.add_task(12, "b".to_string(), vec!["B".to_string()]);
    assert_eq!(schedule.change_timestamp_by("a".to_string(), |x| x * 2), Some(20));
    assert_eq!(
        schedule.to_vec(),
        vec![
            (12, "b".to_string(), vec!["B".to_string()]),
            (20, "a".to_string(), vec!["A".to_string()]),
        ]
    );
}

#[test]
fn from_vec_rebuilds_the_listing() {
    let mut schedule = ScheduleDataType::new();
    schedule.add_task(10, "task-a".to_string(), vec!["A".to_string()]);
    schedule.add_task(6, "task-b".to_string(), vec!["B".to_string()]);
    let rows = schedule.to_vec();
    let rebuilt = ScheduleDataType::from_vec(&rows);
    assert_eq!(rebuilt.to_vec(), rows);
    assert_eq!(rebuilt.get_min_timestamp(), Some(6));
}
