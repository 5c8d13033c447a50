use redelay::timer::update_timer;
use redelay::{
    de_skiplist, rdb_load, rdb_save, ser_skiplist, ScheduleDataType, ScheduleError, TimerAction,
    TimerState,
};

#[test]
fn serde() {
    let mut schedule = ScheduleDataType::new();
    schedule.add_task(10, "task-a".to_string(), vec!["A".to_string()]);
    schedule.add_task(6, "task-b".to_string(), vec!["B".to_string()]);

    let ser_schedule = rdb_save(&schedule).unwrap();
    let de_schedule: ScheduleDataType = rdb_load(&ser_schedule).unwrap();
    assert_eq!(schedule.to_vec(), de_schedule.to_vec());
    assert_eq!(schedule.timetable_iter(), de_schedule.timetable_iter());
}

#[test]
fn serialize() {
    let list = de_skiplist(&vec![
        (10, "10".to_string()),
        (5, "5".to_string()),
        (1, "1".to_string()),
    ]);

    let ser_list = serde_json::to_string(&ser_skiplist(&list)).unwrap();
    assert_eq!(ser_list, "[[1,\"1\"],[5,\"5\"],[10,\"10\"]]");
}

#[test]
fn deserialize() {
    let items: Vec<(u64, String)> =
        serde_json::from_str("[[1,\"1\"],[5,\"5\"],[10,\"10\"]]").unwrap();
    let mut list = de_skiplist(&items);
    assert_eq!(list.pop_front(), Some((1, "1".to_string())));
    assert_eq!(list.pop_front(), Some((5, "5".to_string())));
    assert_eq!(list.pop_front(), Some((10, "10".to_string())));
    assert_eq!(list.pop_front(), None);
}

#[test]
fn a_snapshot_is_the_listing_as_json() {
    let mut schedule = ScheduleDataType::new();
    schedule.add_task(10, "task-a".to_string(), vec!["rpush".to_string(), "L".to_string()]);
    schedule.add_task(6, "task-b".to_string(), vec!["PING".to_string()]);
    schedule.set_timer(TimerState::Armed { fire_at: 6, handle: 1 });
    assert_eq!(
        rdb_save(&schedule),
        Ok("[[6,\"task-b\",[\"PING\"]],[10,\"task-a\",[\"rpush\",\"L\"]]]".to_string())
    );
    assert_eq!(rdb_save(&ScheduleDataType::new()), Ok("[]".to_string()));
}

#[test]
fn a_snapshot_is_loaded_in_any_order_and_without_a_timer() {
    let loaded = rdb_load("[[10,\"task-a\",[\"A\"]],[6,\"task-b\",[\"B\"]]]").unwrap();
    assert_eq!(
        loaded.to_vec(),
        vec![
            (6, "task-b".to_string(), vec!["B".to_string()]),
            (10, "task-a".to_string(), vec!["A".to_string()]),
        ]
    );
    assert_eq!(loaded.timer(), TimerState::NoTimer);
    assert_eq!(
        update_timer(&loaded, 2, None),
        TimerAction::Arm { cancel: None, delay: 4 }
    );
}

#[test]
fn a_later_line_replaces_an_earlier_one_with_the_same_identifier() {
    let loaded = rdb_load("[[10,\"task-a\",[\"A\"]],[6,\"task-a\",[\"B\"]]]").unwrap();
    assert_eq!(
        loaded.to_vec(),
        vec![(6, "task-a".to_string(), vec!["B".to_string()])]
    );
}

#[test]
fn a_broken_snapshot_gives_an_error() {
    assert_eq!(rdb_load("not json").err(), Some(ScheduleError::PersistenceFailure));
    assert_eq!(rdb_load("[[1,2,3]]").err(), Some(ScheduleError::PersistenceFailure));
    assert_eq!(rdb_load("{\"timetable\":[]}").err(), Some(ScheduleError::PersistenceFailure));
    assert_eq!(rdb_load("[[-1,\"a\",[]]]").err(), Some(ScheduleError::PersistenceFailure));
}

#[test]
fn de_skiplist_keeps_equal_items() {
    let list = de_skiplist(&vec![
        (5, "b".to_string()),
        (5, "a".to_string()),
        (5, "b".to_string()),
        (1, "z".to_string()),
    ]);
    assert_eq!(
        ser_skiplist(&list),
        vec![
            (1, "z".to_string()),
            (5, "a".to_string()),
            (5, "b".to_string()),
            (5, "b".to_string()),
        ]
    );
}
