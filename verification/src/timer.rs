use crate::data_types::ScheduleDataType;
use vstd::prelude::*;

verus! {

/// Whether a schedule has a wake-up outstanding.
#[derive(Clone, Copy, Debug, PartialEq, Eq, Structural)]
pub enum TimerState {
    /// No wake-up is outstanding.
    NoTimer,
    /// One wake-up is outstanding: `handle` names it to the timer service, and it
    /// was armed to fire at the instant `fire_at`.
    Armed { fire_at: u64, handle: u64 },
}

/// What is to be done about a schedule's wake-up.
#[derive(Clone, Copy, Debug, PartialEq, Eq, Structural)]
pub enum TimerAction {
    /// Nothing: what is outstanding, if anything, is right.
    Keep,
    /// Cancel the wake-up `handle`; none is needed.
    Cancel { handle: u64 },
    /// Arm a wake-up that fires after `delay` seconds, zero meaning as soon as the
    /// timer service can; before that, cancel the wake-up `cancel` if there is one.
    Arm { cancel: Option<u64>, delay: u64 },
}

/// The seconds from `now` until `next`, zero where `next` has passed.
pub open spec fn target_delay(next: u64, now: u64) -> u64 {
    if next <= now {
        0
    } else {
        (next - now) as u64
    }
}

/// The rule of the wake-up: with no task, an outstanding wake-up is cancelled;
/// with a task and no wake-up, one is armed for the earliest due instant; with
/// both, the wake-up stays unless the timer service does not know it or says that
/// it fires later than the earliest due instant, in which case it is replaced.
/// `remaining` is what the timer service says of the outstanding wake-up: the
/// seconds until it fires, or nothing where it does not know the handle.
pub open spec fn timer_rule(
    state: TimerState,
    min_due: Option<u64>,
    now: u64,
    remaining: Option<u64>,
) -> TimerAction {
    match min_due {
        None => match state {
            TimerState::NoTimer => TimerAction::Keep,
            TimerState::Armed { handle, .. } => TimerAction::Cancel { handle },
        },
        Some(next) => match state {
            TimerState::NoTimer => TimerAction::Arm { cancel: None, delay: target_delay(next, now) },
            TimerState::Armed { handle, .. } => if remaining is Some && remaining->0
                <= target_delay(next, now) {
                TimerAction::Keep
            } else {
                TimerAction::Arm { cancel: Some(handle), delay: target_delay(next, now) }
            },
        },
    }
}

/// The state once `action` has been carried out at the instant `now`, `handle`
/// being the name that the timer service gave to a wake-up armed for it.
pub open spec fn timer_after(
    state: TimerState,
    action: TimerAction,
    now: u64,
    handle: u64,
) -> TimerState {
    match action {
        TimerAction::Keep => state,
        TimerAction::Cancel { .. } => TimerState::NoTimer,
        TimerAction::Arm { delay, .. } => TimerState::Armed {
            fire_at: if now + delay > u64::MAX {
                u64::MAX
            } else {
                (now + delay) as u64
            },
            handle,
        },
    }
}

/// Decides by the rule what is to be done about a wake-up.
pub fn decide_timer(
    state: TimerState,
    min_due: Option<u64>,
    now: u64,
    remaining: Option<u64>,
) -> (action: TimerAction)
    ensures
        action == timer_rule(state, min_due, now, remaining),
{
    match min_due {
        None => match state {
            TimerState::NoTimer => TimerAction::Keep,
            TimerState::Armed { fire_at: _, handle } => TimerAction::Cancel { handle },
        },
        Some(next) => {
            let delay: u64 = if next <= now {
                0
            } else {
                next - now
            };
            match state {
                TimerState::NoTimer => TimerAction::Arm { cancel: None, delay },
                TimerState::Armed { fire_at: _, handle } => {
                    let fits = match remaining {
                        Some(left) => left <= delay,
                        None => false,
                    };
                    if fits {
                        TimerAction::Keep
                    } else {
                        TimerAction::Arm { cancel: Some(handle), delay }
                    }
                },
            }
        },
    }
}

/// The state once `action` has been carried out: see [`timer_after`].
pub fn settle_timer(state: TimerState, action: TimerAction, now: u64, handle: u64) -> (next:
    TimerState)
    ensures
        next == timer_after(state, action, now, handle),
{
    match action {
        TimerAction::Keep => state,
        TimerAction::Cancel { handle: _ } => TimerState::NoTimer,
        TimerAction::Arm { cancel: _, delay } => TimerState::Armed {
            fire_at: now.saturating_add(delay),
            handle,
        },
    }
}

/// Decides what is to be done about the schedule's wake-up at the instant `now`.
/// It is to be called after every change to the schedule and after the schedule
/// has been loaded. `remaining` is what the timer service says of the
/// outstanding wake-up: the seconds until it fires, or nothing where there is
/// none or the service does not know it.
pub fn update_timer(schedule: &ScheduleDataType, now: u64, remaining: Option<u64>) -> (action:
    TimerAction)
    ensures
        action == timer_rule(schedule.timer_state(), schedule@.min_due(), now, remaining),
{
    decide_timer(schedule.timer(), schedule.get_min_timestamp(), now, remaining)
}

/// Records that `action` has been carried out at the instant `now`; `handle` is
/// the name that the timer service gave to a wake-up armed for it.
pub fn timer_updated(schedule: &mut ScheduleDataType, action: TimerAction, now: u64, handle: u64)
    ensures
        final(schedule).timer_state() == timer_after(old(schedule).timer_state(), action, now, handle),
        final(schedule)@ == old(schedule)@,
{
    let next = settle_timer(schedule.timer(), action, now, handle);
    schedule.set_timer(next);
}

/// Records that the schedule's wake-up has fired, or that the schedule is given
/// up: no wake-up is outstanding any more.
pub fn timer_fired(schedule: &mut ScheduleDataType)
    ensures
        final(schedule).timer_state() == TimerState::NoTimer,
        final(schedule)@ == old(schedule)@,
{
    schedule.set_timer(TimerState::NoTimer);
}

/// After the rule has been followed, a schedule without tasks has no wake-up, and
/// a schedule with tasks has exactly one. A wake-up that was armed anew fires at
/// the earliest due instant, or at once where that instant has passed, and the
/// wake-up that it replaces was cancelled first. A wake-up that stayed fires no
/// later than that.
pub proof fn lemma_timer_rule(
    state: TimerState,
    min_due: Option<u64>,
    now: u64,
    remaining: Option<u64>,
    handle: u64,
)
    ensures
        ({
            let action = timer_rule(state, min_due, now, remaining);
            let next = timer_after(state, action, now, handle);
            &&& min_due is None ==> next == TimerState::NoTimer
            &&& min_due is None && state is Armed ==> action == TimerAction::Cancel {
                handle: state->handle,
            }
            &&& min_due is Some ==> next is Armed
            &&& min_due is Some && action is Arm ==> {
                &&& action->delay == target_delay(min_due->0, now)
                &&& next == TimerState::Armed {
                    fire_at: if min_due->0 <= now {
                        now
                    } else {
                        min_due->0
                    },
                    handle,
                }
                &&& state is Armed ==> action->cancel == Some(state->handle)
                &&& state is NoTimer ==> action->cancel == None::<u64>
            }
            &&& min_due is Some && action is Keep ==> {
                &&& next == state
                &&& remaining is Some
                &&& remaining->0 <= target_delay(min_due->0, now)
            }
            &&& !(min_due is Some && action is Cancel)
        }),
{
}

/// Removing tasks never calls for arming: where a wake-up stays under the rule for
/// an earliest due instant, it stays for every later one.
pub proof fn lemma_later_minimum_keeps_timer(
    state: TimerState,
    before: u64,
    after: u64,
    now: u64,
    remaining: Option<u64>,
)
    requires
        before <= after,
        timer_rule(state, Some(before), now, remaining) == TimerAction::Keep,
    ensures
        timer_rule(state, Some(after), now, remaining) == TimerAction::Keep,
{
}

} // verus!
