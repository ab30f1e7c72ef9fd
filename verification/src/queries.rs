//! The state of one search for the next matching time.
//!
//! A search starts at a calendar time. The first time that it asks for the
//! lower bound of a unit it gets that unit's value of the start; once the
//! unit above has moved on, or the bound was used, it gets the least value of
//! the unit.

use vstd::prelude::*;
use crate::calendar::CivilTime;
use crate::calendar::civil_from_unix;
use crate::calendar::unix_civil;
use crate::ordinal::Ordinal;
use crate::time_unit::TimeUnit;

verus! {

/// Whether a unit still starts at the value that the start of the search has for it.
#[derive(Clone, Copy, Debug, PartialEq, Eq, Structural)]
pub enum FieldPass {
    NotYetConsumed,
    Reset,
}

/// The second at which the search behind an instant starts: the next whole
/// second after the instant, which is given in nanoseconds since 1970.
pub open spec fn start_second(after: u64) -> i64 {
    (after / 1_000_000_000 + 1) as i64
}

pub struct NextAfterQuery {
    pub initial_datetime: CivilTime,
    pub month: FieldPass,
    pub day_of_month: FieldPass,
    pub hour: FieldPass,
    pub minute: FieldPass,
    pub second: FieldPass,
}

impl NextAfterQuery {
    /// The least time that the search may still give: for each unit the value
    /// of the start where the unit was not yet consumed, else its least value.
    pub open spec fn lower_bound(&self) -> CivilTime {
        CivilTime {
            year: self.initial_datetime.year,
            month: if self.month == FieldPass::NotYetConsumed {
                self.initial_datetime.month
            } else {
                TimeUnit::Months.min()
            },
            day: if self.day_of_month == FieldPass::NotYetConsumed {
                self.initial_datetime.day
            } else {
                TimeUnit::DaysOfMonth.min()
            },
            hour: if self.hour == FieldPass::NotYetConsumed {
                self.initial_datetime.hour
            } else {
                TimeUnit::Hours.min()
            },
            minute: if self.minute == FieldPass::NotYetConsumed {
                self.initial_datetime.minute
            } else {
                TimeUnit::Minutes.min()
            },
            second: if self.second == FieldPass::NotYetConsumed {
                self.initial_datetime.second
            } else {
                TimeUnit::Seconds.min()
            },
        }
    }

    /// The query of a search that starts at a calendar time.
    pub fn starting_at(initial_datetime: CivilTime) -> (r: NextAfterQuery)
        ensures
            r == (NextAfterQuery {
                initial_datetime,
                month: FieldPass::NotYetConsumed,
                day_of_month: FieldPass::NotYetConsumed,
                hour: FieldPass::NotYetConsumed,
                minute: FieldPass::NotYetConsumed,
                second: FieldPass::NotYetConsumed,
            }),
            r.lower_bound() == initial_datetime,
    {
        NextAfterQuery {
            initial_datetime,
            month: FieldPass::NotYetConsumed,
            day_of_month: FieldPass::NotYetConsumed,
            hour: FieldPass::NotYetConsumed,
            minute: FieldPass::NotYetConsumed,
            second: FieldPass::NotYetConsumed,
        }
    }

    /// The query of a search behind an instant in nanoseconds since 1970: it
    /// starts at the calendar time of the next whole second.
    pub fn from(after: &u64) -> (r: NextAfterQuery)
        ensures
            unix_civil(start_second(*after)) == Some(r.initial_datetime),
            r.lower_bound() == r.initial_datetime,
            r.month == FieldPass::NotYetConsumed,
            r.day_of_month == FieldPass::NotYetConsumed,
            r.hour == FieldPass::NotYetConsumed,
            r.minute == FieldPass::NotYetConsumed,
            r.second == FieldPass::NotYetConsumed,
    {
        let rem: u64 = *after % 1_000_000;
        let secs: u64 = ((*after - rem) / 1_000_000_000) + 1;
        assert(secs == *after / 1_000_000_000 + 1) by {
            vstd::arithmetic::div_mod::lemma_fundamental_div_mod(*after as int, 1_000_000_000);
            vstd::arithmetic::div_mod::lemma_fundamental_div_mod(
                (*after - rem) as int,
                1_000_000_000,
            );
        }
        match civil_from_unix(secs as i64) {
            Some(initial_datetime) => NextAfterQuery::starting_at(initial_datetime),
            None => vstd::pervasive::unreached(),
        }
    }

    pub fn year_lower_bound(&self) -> (r: Ordinal)
        ensures
            r == self.lower_bound().year,
    {
        // Unlike the other units, years never wrap around.
        self.initial_datetime.year
    }

    pub fn month_lower_bound(&mut self) -> (r: Ordinal)
        ensures
            r == old(self).lower_bound().month,
            *final(self) == (NextAfterQuery { month: FieldPass::Reset, ..*old(self) }),
    {
        match self.month {
            FieldPass::NotYetConsumed => {
                self.month = FieldPass::Reset;
                self.initial_datetime.month
            },
            FieldPass::Reset => TimeUnit::Months.inclusive_min(),
        }
    }

    pub fn reset_month(&mut self)
        ensures
            *final(self) == (NextAfterQuery {
                initial_datetime: old(self).initial_datetime,
                month: FieldPass::Reset,
                day_of_month: FieldPass::Reset,
                hour: FieldPass::Reset,
                minute: FieldPass::Reset,
                second: FieldPass::Reset,
            }),
    {
        self.month = FieldPass::Reset;
        self.reset_day_of_month();
    }

    pub fn day_of_month_lower_bound(&mut self) -> (r: Ordinal)
        ensures
            r == old(self).lower_bound().day,
            *final(self) == (NextAfterQuery { day_of_month: FieldPass::Reset, ..*old(self) }),
    {
        match self.day_of_month {
            FieldPass::NotYetConsumed => {
                self.day_of_month = FieldPass::Reset;
                self.initial_datetime.day
            },
            FieldPass::Reset => TimeUnit::DaysOfMonth.inclusive_min(),
        }
    }

    pub fn reset_day_of_month(&mut self)
        ensures
            *final(self) == (NextAfterQuery {
                day_of_month: FieldPass::Reset,
                hour: FieldPass::Reset,
                minute: FieldPass::Reset,
                second: FieldPass::Reset,
                ..*old(self)
            }),
    {
        self.day_of_month = FieldPass::Reset;
        self.reset_hour();
    }

    pub fn hour_lower_bound(&mut self) -> (r: Ordinal)
        ensures
            r == old(self).lower_bound().hour,
            *final(self) == (NextAfterQuery { hour: FieldPass::Reset, ..*old(self) }),
    {
        match self.hour {
            FieldPass::NotYetConsumed => {
                self.hour = FieldPass::Reset;
                self.initial_datetime.hour
            },
            FieldPass::Reset => TimeUnit::Hours.inclusive_min(),
        }
    }

    pub fn reset_hour(&mut self)
        ensures
            *final(self) == (NextAfterQuery {
                hour: FieldPass::Reset,
                minute: FieldPass::Reset,
                second: FieldPass::Reset,
                ..*old(self)
            }),
    {
        self.hour = FieldPass::Reset;
        self.reset_minute();
    }

    pub fn minute_lower_bound(&mut self) -> (r: Ordinal)
        ensures
            r == old(self).lower_bound().minute,
            *final(self) == (NextAfterQuery { minute: FieldPass::Reset, ..*old(self) }),
    {
        match self.minute {
            FieldPass::NotYetConsumed => {
                self.minute = FieldPass::Reset;
                self.initial_datetime.minute
            },
            FieldPass::Reset => TimeUnit::Minutes.inclusive_min(),
        }
    }

    pub fn reset_minute(&mut self)
        ensures
            *final(self) == (NextAfterQuery {
                minute: FieldPass::Reset,
                second: FieldPass::Reset,
                ..*old(self)
            }),
    {
        self.minute = FieldPass::Reset;
        self.reset_second();
    }

    pub fn second_lower_bound(&mut self) -> (r: Ordinal)
        ensures
            r == old(self).lower_bound().second,
            *final(self) == (NextAfterQuery { second: FieldPass::Reset, ..*old(self) }),
    {
        match self.second {
            FieldPass::NotYetConsumed => {
                self.second = FieldPass::Reset;
                self.initial_datetime.second
            },
            FieldPass::Reset => TimeUnit::Seconds.inclusive_min(),
        }
    }

    pub fn reset_second(&mut self)
        ensures
            *final(self) == (NextAfterQuery { second: FieldPass::Reset, ..*old(self) }),
    {
        self.second = FieldPass::Reset;
    }
}

} // verus!
