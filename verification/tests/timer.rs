use redelay::timer::{decide_timer, settle_timer, timer_fired, timer_updated, update_timer};
use redelay::{ScheduleDataType, TimerAction, TimerState};

#[test]
fn no_task_and_no_timer_needs_nothing() {
    assert_eq!(decide_timer(TimerState::NoTimer, None, 0, None), TimerAction::Keep);
}

#[test]
fn a_timer_without_tasks_is_cancelled() {
    let state = TimerState::Armed { fire_at: 10, handle: 3 };
    assert_eq!(decide_timer(state, None, 0, Some(10)), TimerAction::Cancel { handle: 3 });
    assert_eq!(
        settle_timer(state, TimerAction::Cancel { handle: 3 }, 0, 0),
        TimerState::NoTimer
    );
}

#[test]
fn a_task_without_timer_arms_one() {
    assert_eq!(
        decide_timer(TimerState::NoTimer, Some(10), 4, None),
        TimerAction::Arm { cancel: None, delay: 6 }
    );
    assert_eq!(
        settle_timer(TimerState::NoTimer, TimerAction::Arm { cancel: None, delay: 6 }, 4, 9),
        TimerState::Armed { fire_at: 10, handle: 9 }
    );
}

#[test]
fn a_task_in_the_past_fires_at_once() {
    assert_eq!(
        decide_timer(TimerState::NoTimer, Some(10), 40, None),
        TimerAction::Arm { cancel: None, delay: 0 }
    );
}

#[test]
fn a_later_timer_is_replaced() {
    let state = TimerState::Armed { fire_at: 10, handle: 3 };
    assert_eq!(
        decide_timer(state, Some(5), 0, Some(10)),
        TimerAction::Arm { cancel: Some(3), delay: 5 }
    );
}

#[test]
fn an_earlier_or_equal_timer_stays() {
    let state = TimerState::Armed { fire_at: 5, handle: 3 };
    assert_eq!(decide_timer(state, Some(5), 0, Some(5)), TimerAction::Keep);
    assert_eq!(decide_timer(state, Some(10), 0, Some(5)), TimerAction::Keep);
    assert_eq!(decide_timer(state, Some(10), 0, Some(0)), TimerAction::Keep);
    assert_eq!(settle_timer(state, TimerAction::Keep, 0, 0), state);
}

#[test]
fn an_unknown_timer_is_replaced() {
    let state = TimerState::Armed { fire_at: 5, handle: 3 };
    assert_eq!(
        decide_timer(state, Some(5), 0, None),
        TimerAction::Arm { cancel: Some(3), delay: 5 }
    );
}

#[test]
fn one_timer_follows_the_earliest_task() {
    let now = 0;
    let mut schedule = ScheduleDataType::new();
    let mut armed: Vec<(u64, u64)> = Vec::new();
    let mut next_handle = 1;
    let mut cancelled: Vec<u64> = Vec::new();

    for (due, id) in [(10, "ten"), (5, "five"), (20, "twenty")] {
        schedule.add_task(due, id.to_string(), vec!["PING".to_string()]);
        let remaining = armed.last().map(|(_, fire_at)| fire_at - now);
        let action = update_timer(&schedule, now, remaining);
        if let TimerAction::Arm { cancel, delay } = action {
            if let Some(handle) = cancel {
                cancelled.push(handle);
                armed.retain(|(h, _)| *h != handle);
            }
            armed.push((next_handle, now + delay));
            timer_updated(&mut schedule, action, now, next_handle);
            next_handle += 1;
        }
    }
    assert_eq!(armed, vec![(2, 5)]);
    assert_eq!(cancelled, vec![1]);
    assert_eq!(schedule.timer(), TimerState::Armed { fire_at: 5, handle: 2 });

    schedule.del_task("five".to_string());
    assert_eq!(update_timer(&schedule, now, Some(5)), TimerAction::Keep);
    assert_eq!(schedule.timer(), TimerState::Armed { fire_at: 5, handle: 2 });

    let now = 5;
    timer_fired(&mut schedule);
    assert_eq!(schedule.drain_due(now), vec![]);
    let action = update_timer(&schedule, now, None);
    assert_eq!(action, TimerAction::Arm { cancel: None, delay: 5 });
    timer_updated(&mut schedule, action, now, 3);
    assert_eq!(schedule.timer(), TimerState::Armed { fire_at: 10, handle: 3 });
}

#[test]
fn the_fire_instant_stops_at_the_largest_instant() {
    assert_eq!(
        settle_timer(
            TimerState::NoTimer,
            TimerAction::Arm { cancel: None, delay: u64::MAX },
            2,
            1
        ),
        TimerState::Armed { fire_at: u64::MAX, handle: 1 }
    );
}
