//! Cron-style schedules: a verified parser for six- and seven-field
//! expressions and a verified search for the next matching calendar time.
//!
//! An expression names, for each of seconds, minutes, hours, days of the
//! month, months, days of the week and, if it likes, years, the values at
//! which the schedule fires. `Schedule::from_str` reads one; `includes` tells
//! whether the schedule fires at an instant, `next_after` and `upcoming` find
//! the instants at which it fires next.

pub mod calendar;
pub mod error;
pub mod grammar;
pub mod ordinal;
pub mod parsing;
pub mod queries;
pub mod schedule;
pub mod search;
pub mod specifier;
pub mod time_unit;
pub mod unit_field;

pub use crate::error::Error;
pub use crate::schedule::Schedule;
