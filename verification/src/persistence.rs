use crate::commands::ScheduleError;
use crate::data_types::ScheduleDataType;
use crate::model::{Row, ScheduleView};
use crate::timer::TimerState;
use vstd::prelude::*;

verus! {

/// `serde_json::Error`, carried as an opaque value.
#[verifier::external_type_specification]
#[verifier::external_body]
pub struct ExJsonError(serde_json::Error);

/// The JSON text that `serde_json::to_string` writes for a listing, where it
/// writes one.
pub uninterp spec fn json_of_rows(rows: Seq<Row>) -> Option<Seq<char>>;

/// The listing that `serde_json::from_str` reads from a text, where it reads
/// one.
pub uninterp spec fn rows_of_json(text: Seq<char>) -> Option<Seq<Row>>;

/// `serde_json::to_string` on a listing: the JSON text of an array with one
/// array of instant, identifier and command for each line, or the error that the
/// writer reports.
#[verifier::external_body]
fn rows_to_json(rows: &Vec<(u64, String, Vec<String>)>) -> (written: Result<
    String,
    serde_json::Error,
>)
    ensures
        match written {
            Ok(text) => json_of_rows(rows.deep_view()) == Some(text@),
            Err(_) => json_of_rows(rows.deep_view()) is None,
        },
{
    serde_json::to_string(rows)
}

/// `serde_json::from_str` for a listing: the lines that the text holds, or the
/// error that the reader reports where the text is no JSON or has another shape.
#[verifier::external_body]
fn rows_from_json(text: &str) -> (read: Result<Vec<(u64, String, Vec<String>)>, serde_json::Error>)
    ensures
        match read {
            Ok(rows) => rows_of_json(text@) == Some(rows.deep_view()),
            Err(_) => rows_of_json(text@) is None,
        },
{
    serde_json::from_str(text)
}

/// The snapshot of a schedule: its listing as JSON text. The state of the wake-up
/// is not part of it.
pub fn rdb_save(schedule: &ScheduleDataType) -> (saved: Result<String, ScheduleError>)
    requires
        schedule.wf(),
    ensures
        match saved {
            Ok(text) => json_of_rows(schedule@.ordered_list()) == Some(text@),
            Err(error) => json_of_rows(schedule@.ordered_list()) is None && error
                == ScheduleError::PersistenceFailure,
        },
{
    let rows = schedule.to_vec();
    match rows_to_json(&rows) {
        Ok(text) => Ok(text),
        Err(_) => Err(ScheduleError::PersistenceFailure),
    }
}

/// The schedule that a snapshot holds: timetable and tasks are built anew from
/// the lines, and no wake-up is outstanding, so the wake-up has to be looked at
/// next. A text that cannot be read gives an error and no schedule.
pub fn rdb_load(data: &str) -> (loaded: Result<ScheduleDataType, ScheduleError>)
    ensures
        match loaded {
            Ok(schedule) => {
                &&& rows_of_json(data@) is Some
                &&& schedule@ == ScheduleView::from_rows(rows_of_json(data@)->0)
                &&& schedule.wf()
                &&& schedule.timer_state() == TimerState::NoTimer
            },
            Err(error) => rows_of_json(data@) is None && error == ScheduleError::PersistenceFailure,
        },
{
    match rows_from_json(data) {
        Ok(rows) => Ok(ScheduleDataType::from_vec(&rows)),
        Err(_) => Err(ScheduleError::PersistenceFailure),
    }
}

} // verus!
