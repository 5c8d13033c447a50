//! A schedule of deferred commands: each task is a command with the instant at
//! which it is due. Tasks are kept in the order of their due instants, handed
//! out once when they are due, and a single wake-up per schedule is kept armed
//! for the earliest of them.

pub mod command_validation;
pub mod commands;
pub mod data_types;
pub mod model;
pub mod order;
pub mod persistence;
pub mod skiplist_ext;
pub mod timer;

pub use commands::{
    add, decrby, exec, exec_due, incrby, rem, replicate, scan, Replication, ScheduleError,
};
pub use data_types::{ScheduleDataType, Task};
pub use persistence::{rdb_load, rdb_save};
pub use skiplist_ext::{de_skiplist, ser_skiplist};
pub use timer::{TimerAction, TimerState};
