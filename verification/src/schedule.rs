//! Schedules: the seven resolved fields of an expression, and the times that they match.

use vstd::prelude::*;
use crate::calendar::CivilTime;
use crate::calendar::calendar_weekday;
use crate::calendar::civil_from_unix;
use crate::calendar::civil_unix;
use crate::calendar::unix_civil;
use crate::calendar::unix_from_civil;
use crate::calendar::weekday_of;
use crate::error::Error;
use crate::grammar;
use crate::parsing::schedule;
use crate::queries::NextAfterQuery;
use crate::queries::start_second;
use crate::search::first_from;
use crate::time_unit::TimeUnit;
use crate::unit_field::DaysOfMonth;
use crate::unit_field::DaysOfWeek;
use crate::unit_field::Hours;
use crate::unit_field::Minutes;
use crate::unit_field::Months;
use crate::unit_field::Seconds;
use crate::unit_field::Years;
use crate::unit_field::fits;

verus! {

/// The seven sets of a schedule.
pub struct ScheduleFieldsView {
    pub seconds: Set<int>,
    pub minutes: Set<int>,
    pub hours: Set<int>,
    pub days_of_month: Set<int>,
    pub months: Set<int>,
    pub days_of_week: Set<int>,
    pub years: Set<int>,
}

impl ScheduleFieldsView {
    /// No set is empty and none leaves the domain of its unit.
    pub open spec fn wf(self) -> bool {
        &&& fits(TimeUnit::Seconds, self.seconds)
        &&& fits(TimeUnit::Minutes, self.minutes)
        &&& fits(TimeUnit::Hours, self.hours)
        &&& fits(TimeUnit::DaysOfMonth, self.days_of_month)
        &&& fits(TimeUnit::Months, self.months)
        &&& fits(TimeUnit::DaysOfWeek, self.days_of_week)
        &&& fits(TimeUnit::Years, self.years)
    }

    /// Whether the time of day is one of the schedule.
    pub open spec fn time_matches(self, time: CivilTime) -> bool {
        &&& self.hours.contains(time.hour as int)
        &&& self.minutes.contains(time.minute as int)
        &&& self.seconds.contains(time.second as int)
    }

    /// Whether the day exists and is one of the schedule: its number in the
    /// month and its weekday must both be members of their sets.
    pub open spec fn day_matches(self, time: CivilTime) -> bool {
        &&& self.days_of_month.contains(time.day as int)
        &&& calendar_weekday(time.year, time.month, time.day) matches Some(w)
            && self.days_of_week.contains(w as int)
    }

    /// Whether the schedule holds the time: each of its numbers is a member of
    /// the set of its unit, and so is the weekday of its day.
    pub open spec fn matches(self, time: CivilTime) -> bool {
        &&& self.years.contains(time.year as int)
        &&& self.months.contains(time.month as int)
        &&& self.day_matches(time)
        &&& self.time_matches(time)
    }
}

/// The seven resolved fields of a schedule.
#[derive(Debug)]
pub struct ScheduleFields {
    seconds: Seconds,
    minutes: Minutes,
    hours: Hours,
    days_of_month: DaysOfMonth,
    months: Months,
    days_of_week: DaysOfWeek,
    years: Years,
}

impl View for ScheduleFields {
    type V = ScheduleFieldsView;

    closed spec fn view(&self) -> ScheduleFieldsView {
        ScheduleFieldsView {
            seconds: self.seconds@,
            minutes: self.minutes@,
            hours: self.hours@,
            days_of_month: self.days_of_month@,
            months: self.months@,
            days_of_week: self.days_of_week@,
            years: self.years@,
        }
    }
}

impl ScheduleFields {
    /// Each field is a proper field of its unit.
    pub closed spec fn wf(&self) -> bool {
        &&& self.seconds.wf()
        &&& self.minutes.wf()
        &&& self.hours.wf()
        &&& self.days_of_month.wf()
        &&& self.months.wf()
        &&& self.days_of_week.wf()
        &&& self.years.wf()
    }

    /// The sets of proper fields are proper sets.
    pub proof fn lemma_wf_view(&self)
        requires
            self.wf(),
        ensures
            self@.wf(),
    {
        self.seconds.lemma_wf_fits();
        self.minutes.lemma_wf_fits();
        self.hours.lemma_wf_fits();
        self.days_of_month.lemma_wf_fits();
        self.months.lemma_wf_fits();
        self.days_of_week.lemma_wf_fits();
        self.years.lemma_wf_fits();
    }

    /// A schedule at hand is a proper one.
    pub(crate) fn validity(&self)
        ensures
            self.wf(),
            self@.wf(),
    {
        proof {
            use_type_invariant(&self.seconds);
            use_type_invariant(&self.minutes);
            use_type_invariant(&self.hours);
            use_type_invariant(&self.days_of_month);
            use_type_invariant(&self.months);
            use_type_invariant(&self.days_of_week);
            use_type_invariant(&self.years);
            self.lemma_wf_view();
        }
    }

    pub fn new(
        seconds: Seconds,
        minutes: Minutes,
        hours: Hours,
        days_of_month: DaysOfMonth,
        months: Months,
        days_of_week: DaysOfWeek,
        years: Years,
    ) -> (r: ScheduleFields)
        ensures
            r.wf(),
            r@ == (ScheduleFieldsView {
                seconds: seconds@,
                minutes: minutes@,
                hours: hours@,
                days_of_month: days_of_month@,
                months: months@,
                days_of_week: days_of_week@,
                years: years@,
            }),
    {
        proof {
            use_type_invariant(&seconds);
            use_type_invariant(&minutes);
            use_type_invariant(&hours);
            use_type_invariant(&days_of_month);
            use_type_invariant(&months);
            use_type_invariant(&days_of_week);
            use_type_invariant(&years);
        }
        ScheduleFields { seconds, minutes, hours, days_of_month, months, days_of_week, years }
    }

    pub fn seconds(&self) -> (r: &Seconds)
        ensures
            r@ == self@.seconds,
    {
        &self.seconds
    }

    pub fn minutes(&self) -> (r: &Minutes)
        ensures
            r@ == self@.minutes,
    {
        &self.minutes
    }

    pub fn hours(&self) -> (r: &Hours)
        ensures
            r@ == self@.hours,
    {
        &self.hours
    }

    pub fn days_of_month(&self) -> (r: &DaysOfMonth)
        ensures
            r@ == self@.days_of_month,
    {
        &self.days_of_month
    }

    pub fn months(&self) -> (r: &Months)
        ensures
            r@ == self@.months,
    {
        &self.months
    }

    pub fn days_of_week(&self) -> (r: &DaysOfWeek)
        ensures
            r@ == self@.days_of_week,
    {
        &self.days_of_week
    }

    pub fn years(&self) -> (r: &Years)
        ensures
            r@ == self@.years,
    {
        &self.years
    }

    /// Whether the two have the same sets.
    pub fn same_as(&self, other: &ScheduleFields) -> (r: bool)
        ensures
            r == (self@ == other@),
    {
        self.seconds.ordinals().same_as(other.seconds.ordinals()) && self.minutes.ordinals().same_as(
            other.minutes.ordinals(),
        ) && self.hours.ordinals().same_as(other.hours.ordinals())
            && self.days_of_month.ordinals().same_as(other.days_of_month.ordinals())
            && self.months.ordinals().same_as(other.months.ordinals())
            && self.days_of_week.ordinals().same_as(other.days_of_week.ordinals())
            && self.years.ordinals().same_as(other.years.ordinals())
    }
}

impl PartialEq for ScheduleFields {
    fn eq(&self, other: &ScheduleFields) -> (r: bool) {
        self.same_as(other)
    }
}

impl vstd::std_specs::cmp::PartialEqSpecImpl for ScheduleFields {
    open spec fn obeys_eq_spec() -> bool {
        true
    }

    open spec fn eq_spec(&self, other: &ScheduleFields) -> bool {
        self@ == other@
    }
}

/// The instant, in nanoseconds since 1970, that lies a count of seconds
/// after the start of 1970; nothing where there is no count, or where the
/// instant lies before 1970 or beyond what 64 bits hold.
pub open spec fn nanoseconds(seconds: Option<i64>) -> Option<u64> {
    match seconds {
        Some(s) => if 0 <= s <= 18_446_744_073 {
            Some((s * 1_000_000_000) as u64)
        } else {
            None
        },
        None => None,
    }
}

/// The instant of a count of seconds where it lies behind `after`, else nothing.
pub open spec fn later_instant(seconds: Option<i64>, after: u64) -> Option<u64> {
    match nanoseconds(seconds) {
        Some(t) => if t > after {
            Some(t)
        } else {
            None
        },
        None => None,
    }
}

/// The first instant behind `after` that the schedule matches: the search
/// starts at the calendar time of the next whole second, and what it finds
/// is turned into an instant again, which must lie behind `after`.
pub open spec fn next_instant(v: ScheduleFieldsView, after: u64) -> Option<u64> {
    match unix_civil(start_second(after)) {
        Some(start) => match first_from(v, start) {
            Some(t) => later_instant(civil_unix(t), after),
            None => None,
        },
        None => None,
    }
}

/// Whether the schedule matches the calendar time of the second in which the instant lies.
pub open spec fn includes_instant(v: ScheduleFieldsView, instant: u64) -> bool {
    unix_civil((instant / 1_000_000_000) as i64) matches Some(t) && v.matches(t)
}

/// For an instant at a whole second, the schedule includes the instant
/// exactly where the search behind the tick before it finds the calendar time
/// of the instant; what `next_after` then gives is that time as an instant.
pub proof fn lemma_includes_agrees_with_search(v: ScheduleFieldsView, instant: u64, time: CivilTime)
    requires
        instant > 0,
        instant % 1_000_000_000 == 0,
        unix_civil((instant / 1_000_000_000) as i64) == Some(time),
    ensures
        start_second((instant - 1) as u64) == (instant / 1_000_000_000) as i64,
        includes_instant(v, instant) <==> first_from(v, time) == Some(time),
        includes_instant(v, instant) ==> next_instant(v, (instant - 1) as u64) == later_instant(
            civil_unix(time),
            (instant - 1) as u64,
        ),
{
    crate::search::lemma_match_is_first_from_itself(v, time);
}

/// Turns a count of seconds since 1970 into an instant in nanoseconds.
pub fn instant_from_seconds(seconds: Option<i64>) -> (r: Option<u64>)
    ensures
        r == nanoseconds(seconds),
{
    match seconds {
        Some(s) => {
            if 0 <= s && s <= 18_446_744_073 {
                Some((s as u64) * 1_000_000_000)
            } else {
                None
            }
        },
        None => None,
    }
}

impl ScheduleFields {
    /// Whether the schedule matches the calendar time.
    pub fn includes(&self, time: &CivilTime) -> (r: bool)
        ensures
            r == self@.matches(*time),
    {
        self.validity();
        if !self.years.includes(time.year) {
            return false;
        }
        proof {
            assert(TimeUnit::Years.domain().contains(time.year as int));
        }
        let on_schedule: bool = match weekday_of(time.year, time.month, time.day) {
            Some(weekday) => self.days_of_week.includes(weekday),
            None => false,
        };
        on_schedule && self.months.includes(time.month) && self.days_of_month.includes(time.day)
            && self.hours.includes(time.hour) && self.minutes.includes(time.minute)
            && self.seconds.includes(time.second)
    }

    /// The first calendar time at or after `start` that the schedule matches.
    pub fn next_from(&self, start: &CivilTime) -> (r: Option<CivilTime>)
        ensures
            crate::search::first_match(self@, *start, r),
            r == first_from(self@, *start),
    {
        let mut query = NextAfterQuery::starting_at(*start);
        self.next_match(&mut query)
    }

    /// The first instant behind `after` that the schedule matches, both in
    /// nanoseconds since 1970.
    pub fn next_after(&self, after: &u64) -> (r: Option<u64>)
        ensures
            r == next_instant(self@, *after),
            r matches Some(t) ==> t > *after,
    {
        let mut query = NextAfterQuery::from(after);
        match self.next_match(&mut query) {
            Some(t) => {
                self.validity();
                proof {
                    assert(TimeUnit::Years.domain().contains(t.year as int));
                }
                match instant_from_seconds(unix_from_civil(&t)) {
                    Some(found) => {
                        if found > *after {
                            Some(found)
                        } else {
                            None
                        }
                    },
                    None => None,
                }
            },
            None => None,
        }
    }
}

/// A schedule: an expression and the fields that it stands for.
#[derive(Debug)]
pub struct Schedule {
    source: String,
    fields: ScheduleFields,
}

impl View for Schedule {
    type V = ScheduleFieldsView;

    closed spec fn view(&self) -> ScheduleFieldsView {
        self.fields@
    }
}

impl Schedule {
    /// The fields are proper ones, and they are what the expression stands for.
    #[verifier::type_invariant]
    pub closed spec fn wf(&self) -> bool {
        self.fields.wf() && grammar::schedule(self.source@) == Ok::<ScheduleFieldsView, Error>(
            self.fields@,
        )
    }

    /// The expression that the schedule was made from.
    pub closed spec fn source_text(&self) -> Seq<char> {
        self.source@
    }

    /// Reading the expression of a schedule again gives the fields of the schedule.
    pub proof fn lemma_source_gives_fields(&self)
        requires
            self.wf(),
        ensures
            grammar::schedule(self.source_text()) == Ok::<ScheduleFieldsView, Error>(self@),
            self@.wf(),
    {
        self.fields.lemma_wf_view();
    }

    /// Schedules made from the same text have the same fields.
    pub proof fn lemma_same_text_same_fields(&self, other: &Schedule)
        requires
            self.wf(),
            other.wf(),
            self.source_text() == other.source_text(),
        ensures
            self@ == other@,
    {
    }

    /// The schedule that an expression stands for, or why it stands for none.
    pub fn from_str(expression: &str) -> (r: Result<Schedule, Error>)
        ensures
            match grammar::schedule(expression@) {
                Ok(sets) => r matches Ok(made) && made.wf() && made@ == sets && made.source_text()
                    == expression@,
                Err(e) => r matches Err(x) && x == e,
            },
    {
        match schedule(expression) {
            Ok((_, fields)) => Ok(Schedule { source: expression.to_owned(), fields }),
            Err(e) => Err(e),
        }
    }

    /// The expression that the schedule was made from.
    pub fn source(&self) -> (r: &str)
        ensures
            r@ == self.source_text(),
    {
        self.source.as_str()
    }

    /// The fields of the schedule.
    pub fn fields(&self) -> (r: &ScheduleFields)
        ensures
            r@ == self@,
            r.wf(),
    {
        self.fields.validity();
        &self.fields
    }

    /// Whether the schedule matches the second in which an instant lies; the
    /// instant is given in nanoseconds since 1970.
    pub fn includes(&self, instant: &u64) -> (r: bool)
        ensures
            r == includes_instant(self@, *instant),
    {
        let seconds: u64 = *instant / 1_000_000_000;
        match civil_from_unix(seconds as i64) {
            Some(time) => self.fields.includes(&time),
            None => false,
        }
    }

    /// The first instant behind `after` that the schedule matches, both in
    /// nanoseconds since 1970.
    pub fn next_after(&self, after: &u64) -> (r: Option<u64>)
        ensures
            r == next_instant(self@, *after),
            r matches Some(t) ==> t > *after,
    {
        self.fields.next_after(after)
    }

    /// The instants behind `after` that the schedule matches, in rising order.
    pub fn upcoming(&self, after: u64) -> (r: ScheduleIterator<'_>)
        ensures
            r.schedule_view() == self@,
            r.previous() == after,
    {
        ScheduleIterator { schedule: self, previous: after }
    }
}

impl std::str::FromStr for Schedule {
    type Err = Error;

    fn from_str(expression: &str) -> (r: Result<Schedule, Error>)
        ensures
            match grammar::schedule(expression@) {
                Ok(sets) => r matches Ok(made) && made.wf() && made@ == sets && made.source_text()
                    == expression@,
                Err(e) => r matches Err(x) && x == e,
            },
    {
        Schedule::from_str(expression)
    }
}

/// The instants that a schedule matches, one after the other.
pub struct ScheduleIterator<'a> {
    schedule: &'a Schedule,
    previous: u64,
}

impl<'a> ScheduleIterator<'a> {
    /// The fields of the schedule that is walked.
    pub closed spec fn schedule_view(&self) -> ScheduleFieldsView {
        self.schedule@
    }

    /// The instant behind which the next one is looked for.
    pub closed spec fn previous(&self) -> u64 {
        self.previous
    }

    /// The next instant: the first one behind the last that was given. The
    /// instants rise; where the search gives none the walk has ended and
    /// stays where it is.
    pub fn next(&mut self) -> (r: Option<u64>)
        ensures
            final(self).schedule_view() == old(self).schedule_view(),
            r == next_instant(old(self).schedule_view(), old(self).previous()),
            final(self).previous() == match r {
                Some(t) => t,
                None => old(self).previous(),
            },
            r matches Some(t) ==> t > old(self).previous(),
    {
        match self.schedule.next_after(&self.previous) {
            Some(t) => {
                self.previous = t;
                Some(t)
            },
            None => None,
        }
    }

    /// The next instants, `count` of them at most: fewer where the walk ends before.
    pub fn take(&mut self, count: usize) -> (r: Vec<u64>)
        ensures
            final(self).schedule_view() == old(self).schedule_view(),
            r.len() <= count,
            forall|i: int| 0 <= i < r.len() ==> #[trigger] r[i] > old(self).previous(),
            forall|i: int, j: int| 0 <= i < j < r.len() ==> r[i] < r[j],
            forall|i: int|
                0 <= i < r.len() ==> Some(#[trigger] r[i]) == next_instant(
                    old(self).schedule_view(),
                    if i == 0 {
                        old(self).previous()
                    } else {
                        r[i - 1]
                    },
                ),
            r.len() > 0 ==> final(self).previous() == r[r.len() - 1],
            r.len() == 0 ==> final(self).previous() == old(self).previous(),
            r.len() < count ==> next_instant(old(self).schedule_view(), final(self).previous())
                is None,
    {
        let mut found: Vec<u64> = Vec::new();
        while found.len() < count
            invariant
                self.schedule_view() == old(self).schedule_view(),
                found.len() <= count,
                forall|i: int| 0 <= i < found.len() ==> #[trigger] found[i] > old(self).previous(),
                forall|i: int, j: int| 0 <= i < j < found.len() ==> found[i] < found[j],
                forall|i: int|
                    0 <= i < found.len() ==> Some(#[trigger] found[i]) == next_instant(
                        old(self).schedule_view(),
                        if i == 0 {
                            old(self).previous()
                        } else {
                            found[i - 1]
                        },
                    ),
                found.len() > 0 ==> self.previous() == found[found.len() - 1],
                found.len() == 0 ==> self.previous() == old(self).previous(),
            decreases count - found.len(),
        {
            match self.next() {
                Some(t) => {
                    found.push(t);
                },
                None => {
                    return found;
                },
            }
        }
        found
    }
}

} // verus!
