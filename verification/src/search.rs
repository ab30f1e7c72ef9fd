//! The search for the first time at or after a lower bound that a schedule matches.
//!
//! Times are ordered as the calendar orders them: by year, then month, day,
//! hour, minute and second. The search walks the units from the year down.
//! In each unit it tries the members of the schedule's set in rising order,
//! from the lower bound of the unit on; where the units below have nothing to
//! offer it moves on to the next member, and the units below start over from
//! their least values.

use vstd::prelude::*;
use crate::calendar::CivilTime;
use crate::calendar::weekday_of;
use crate::queries::FieldPass;
use crate::queries::NextAfterQuery;
use crate::schedule::ScheduleFields;
use crate::schedule::ScheduleFieldsView;
use crate::time_unit::MAX_YEAR;

verus! {

/// The place of a time among the times of its hour.
pub open spec fn key_minute(t: CivilTime) -> int {
    t.minute * 0x1_0000_0000 + t.second
}

/// The place of a time among the times of its day.
pub open spec fn key_hour(t: CivilTime) -> int {
    t.hour * 0x1_0000_0000_0000_0000 + key_minute(t)
}

/// The place of a time among the times of its month.
pub open spec fn key_day(t: CivilTime) -> int {
    t.day * 0x1_0000_0000_0000_0000_0000_0000 + key_hour(t)
}

/// The place of a time among the times of its year.
pub open spec fn key_month(t: CivilTime) -> int {
    t.month * 0x1_0000_0000_0000_0000_0000_0000_0000_0000 + key_day(t)
}

/// The place of a time among all times: a time comes before another exactly
/// where its key is the smaller one.
pub open spec fn key(t: CivilTime) -> int {
    t.year * 0x1_0000_0000_0000_0000_0000_0000_0000_0000_0000_0000 + key_month(t)
}

pub open spec fn second_fits(v: ScheduleFieldsView, t: CivilTime) -> bool {
    v.seconds.contains(t.second as int)
}

pub open spec fn minute_fits(v: ScheduleFieldsView, t: CivilTime) -> bool {
    v.minutes.contains(t.minute as int) && second_fits(v, t)
}

pub open spec fn hour_fits(v: ScheduleFieldsView, t: CivilTime) -> bool {
    v.hours.contains(t.hour as int) && minute_fits(v, t)
}

pub open spec fn day_fits(v: ScheduleFieldsView, t: CivilTime) -> bool {
    v.day_matches(t) && hour_fits(v, t)
}

pub open spec fn month_fits(v: ScheduleFieldsView, t: CivilTime) -> bool {
    v.months.contains(t.month as int) && day_fits(v, t)
}

/// Whether `found` is the least second of the schedule from that of `low` on.
pub open spec fn least_second(v: ScheduleFieldsView, low: CivilTime, found: Option<CivilTime>) -> bool {
    match found {
        Some(t) => second_fits(v, t) && t.second >= low.second && forall|o: CivilTime| #[trigger]
            second_fits(v, o) && o.second >= low.second ==> o.second >= t.second,
        None => forall|o: CivilTime| #[trigger] second_fits(v, o) ==> o.second < low.second,
    }
}

/// Whether `found` is the least minute and second of the schedule from those of `low` on.
pub open spec fn least_minute(v: ScheduleFieldsView, low: CivilTime, found: Option<CivilTime>) -> bool {
    match found {
        Some(t) => minute_fits(v, t) && key_minute(t) >= key_minute(low) && forall|o: CivilTime|
            #[trigger] minute_fits(v, o) && key_minute(o) >= key_minute(low) ==> key_minute(o)
                >= key_minute(t),
        None => forall|o: CivilTime| #[trigger] minute_fits(v, o) ==> key_minute(o) < key_minute(low),
    }
}

/// Whether `found` is the least time of day of the schedule from that of `low` on.
pub open spec fn least_hour(v: ScheduleFieldsView, low: CivilTime, found: Option<CivilTime>) -> bool {
    match found {
        Some(t) => hour_fits(v, t) && key_hour(t) >= key_hour(low) && forall|o: CivilTime| #[trigger]
            hour_fits(v, o) && key_hour(o) >= key_hour(low) ==> key_hour(o) >= key_hour(t),
        None => forall|o: CivilTime| #[trigger] hour_fits(v, o) ==> key_hour(o) < key_hour(low),
    }
}

/// Whether two times lie in the same month of the same year.
pub open spec fn same_month(a: CivilTime, b: CivilTime) -> bool {
    a.year == b.year && a.month == b.month
}

/// Whether `found` is the least time of the schedule in the month of `at`
/// from the day and time of `low` on.
pub open spec fn least_day(
    v: ScheduleFieldsView,
    at: CivilTime,
    low: CivilTime,
    found: Option<CivilTime>,
) -> bool {
    match found {
        Some(t) => same_month(t, at) && day_fits(v, t) && key_day(t) >= key_day(low) && forall|
            o: CivilTime,
        | #[trigger]
            day_fits(v, o) && same_month(o, at) && key_day(o) >= key_day(low) ==> key_day(o)
                >= key_day(t),
        None => forall|o: CivilTime| #[trigger]
            day_fits(v, o) && same_month(o, at) ==> key_day(o) < key_day(low),
    }
}

/// Whether `found` is the least time of the schedule in the year of `at`
/// from the month, day and time of `low` on.
pub open spec fn least_month(
    v: ScheduleFieldsView,
    at: CivilTime,
    low: CivilTime,
    found: Option<CivilTime>,
) -> bool {
    match found {
        Some(t) => t.year == at.year && month_fits(v, t) && key_month(t) >= key_month(low)
            && forall|o: CivilTime| #[trigger]
            month_fits(v, o) && o.year == at.year && key_month(o) >= key_month(low) ==> key_month(o)
                >= key_month(t),
        None => forall|o: CivilTime| #[trigger]
            month_fits(v, o) && o.year == at.year ==> key_month(o) < key_month(low),
    }
}

/// Whether `found` is the first time at or after `low` that the schedule
/// matches, or nothing where it matches no such time.
pub open spec fn first_match(v: ScheduleFieldsView, low: CivilTime, found: Option<CivilTime>) -> bool {
    match found {
        Some(t) => v.matches(t) && key(t) >= key(low) && forall|o: CivilTime| #[trigger]
            v.matches(o) && key(o) >= key(low) ==> key(o) >= key(t),
        None => forall|o: CivilTime| #[trigger] v.matches(o) ==> key(o) < key(low),
    }
}


/// Whether `a` comes before `b` in the calendar.
pub open spec fn precedes(a: CivilTime, b: CivilTime) -> bool {
    a.year < b.year || (a.year == b.year && (a.month < b.month || (a.month == b.month && (a.day
        < b.day || (a.day == b.day && (a.hour < b.hour || (a.hour == b.hour && (a.minute < b.minute
        || (a.minute == b.minute && a.second < b.second)))))))))
}

/// Keys order the times as the calendar does, and no two times share a key.
pub proof fn lemma_key_orders_times(a: CivilTime, b: CivilTime)
    ensures
        key(a) < key(b) <==> precedes(a, b),
        key(a) == key(b) <==> a == b,
{
    lemma_place_orders(a.minute as int, a.second as int, b.minute as int, b.second as int, 0x1_0000_0000int);
    lemma_place_orders(
        a.hour as int,
        key_minute(a),
        b.hour as int,
        key_minute(b),
        0x1_0000_0000_0000_0000int,
    );
    lemma_place_orders(
        a.day as int,
        key_hour(a),
        b.day as int,
        key_hour(b),
        0x1_0000_0000_0000_0000_0000_0000int,
    );
    lemma_place_orders(
        a.month as int,
        key_day(a),
        b.month as int,
        key_day(b),
        0x1_0000_0000_0000_0000_0000_0000_0000_0000int,
    );
    lemma_place_orders(
        a.year as int,
        key_month(a),
        b.year as int,
        key_month(b),
        0x1_0000_0000_0000_0000_0000_0000_0000_0000_0000_0000int,
    );
}

/// Numbers written with a high and a low part compare by the high part first.
proof fn lemma_place_orders(high_a: int, low_a: int, high_b: int, low_b: int, base: int)
    requires
        0 <= low_a < base,
        0 <= low_b < base,
        0 <= high_a < 0x1_0000_0000,
        0 <= high_b < 0x1_0000_0000,
    ensures
        high_a * base + low_a < high_b * base + low_b <==> high_a < high_b || (high_a == high_b
            && low_a < low_b),
        high_a * base + low_a == high_b * base + low_b <==> high_a == high_b && low_a == low_b,
        0 <= high_a * base + low_a < 0x1_0000_0000 * base,
        0 <= high_b * base + low_b < 0x1_0000_0000 * base,
{
    assert(high_a < high_b ==> high_a * base + base <= high_b * base) by (nonlinear_arith)
        requires
            base > 0,
    ;
    assert(high_b < high_a ==> high_b * base + base <= high_a * base) by (nonlinear_arith)
        requires
            base > 0,
    ;
    assert(high_a * base + base <= 0x1_0000_0000 * base) by (nonlinear_arith)
        requires
            base > 0,
            high_a < 0x1_0000_0000,
    ;
    assert(high_b * base + base <= 0x1_0000_0000 * base) by (nonlinear_arith)
        requires
            base > 0,
            high_b < 0x1_0000_0000,
    ;
    assert(0 <= high_a * base && 0 <= high_b * base) by (nonlinear_arith)
        requires
            base > 0,
            high_a >= 0,
            high_b >= 0,
    ;
}

/// The first time at or after `low` that the schedule matches.
pub open spec fn first_from(v: ScheduleFieldsView, low: CivilTime) -> Option<CivilTime> {
    choose|found: Option<CivilTime>| first_match(v, low, found)
}

/// A schedule has one first match from a lower bound on, or none.
pub proof fn lemma_first_match_is_unique(
    v: ScheduleFieldsView,
    low: CivilTime,
    a: Option<CivilTime>,
    b: Option<CivilTime>,
)
    requires
        first_match(v, low, a),
        first_match(v, low, b),
    ensures
        a == b,
        a == first_from(v, low),
{
    lemma_one_first_match(v, low, a, b);
    lemma_one_first_match(v, low, a, first_from(v, low));
}

proof fn lemma_one_first_match(
    v: ScheduleFieldsView,
    low: CivilTime,
    a: Option<CivilTime>,
    b: Option<CivilTime>,
)
    requires
        first_match(v, low, a),
        first_match(v, low, b),
    ensures
        a == b,
{
    match (a, b) {
        (Some(x), Some(y)) => {
            assert(v.matches(x) && key(x) >= key(low));
            assert(v.matches(y) && key(y) >= key(low));
            lemma_key_orders_times(x, y);
        },
        (Some(x), None) => {
            assert(v.matches(x));
        },
        (None, Some(y)) => {
            assert(v.matches(y));
        },
        (None, None) => {},
    }
}

/// Below a match at or after `low` lies a first one.
proof fn lemma_least_match(v: ScheduleFieldsView, low: CivilTime, o: CivilTime)
    requires
        v.matches(o),
        key(o) >= key(low),
    ensures
        exists|t: CivilTime| first_match(v, low, Some(t)),
    decreases key(o) - key(low),
{
    if forall|p: CivilTime| #[trigger] v.matches(p) && key(p) >= key(low) ==> key(p) >= key(o) {
        assert(first_match(v, low, Some(o)));
    } else {
        let p = choose|p: CivilTime| #[trigger]
            v.matches(p) && key(p) >= key(low) && !(key(p) >= key(o));
        lemma_least_match(v, low, p);
    }
}

/// Every schedule has a first match from a lower bound on, or none at all:
/// `first_from` is that answer.
pub proof fn lemma_first_match_exists(v: ScheduleFieldsView, low: CivilTime)
    ensures
        first_match(v, low, first_from(v, low)),
{
    if exists|o: CivilTime| #[trigger] v.matches(o) && key(o) >= key(low) {
        let o = choose|o: CivilTime| #[trigger] v.matches(o) && key(o) >= key(low);
        lemma_least_match(v, low, o);
        let t = choose|t: CivilTime| first_match(v, low, Some(t));
        assert(first_match(v, low, Some(t)));
    } else {
        assert(first_match(v, low, None));
    }
}

/// A time that the schedule matches is the first match from itself on, and
/// the first match from a time on is that time only where the schedule
/// matches it.
pub proof fn lemma_match_is_found_at_once(
    v: ScheduleFieldsView,
    time: CivilTime,
    found: Option<CivilTime>,
)
    requires
        first_match(v, time, found),
    ensures
        v.matches(time) <==> found == Some(time),
{
    if v.matches(time) {
        match found {
            Some(t) => {
                assert(key(time) >= key(t));
                lemma_key_orders_times(time, t);
            },
            None => {},
        }
    }
}

/// The schedule matches a time exactly where the search that starts at the
/// time gives the time itself.
pub proof fn lemma_match_is_first_from_itself(v: ScheduleFieldsView, time: CivilTime)
    ensures
        v.matches(time) <==> first_from(v, time) == Some(time),
{
    lemma_first_match_exists(v, time);
    lemma_match_is_found_at_once(v, time, first_from(v, time));
}

/// What the search finds lies at or after its lower bound, and the schedule
/// matches no time between the two.
pub proof fn lemma_nothing_is_skipped(
    v: ScheduleFieldsView,
    low: CivilTime,
    found: CivilTime,
    other: CivilTime,
)
    requires
        first_match(v, low, Some(found)),
        !precedes(other, low),
        precedes(other, found),
    ensures
        !precedes(found, low),
        !v.matches(other),
{
    lemma_key_orders_times(other, low);
    lemma_key_orders_times(other, found);
    lemma_key_orders_times(found, low);
    if v.matches(other) {
        assert(key(other) >= key(found));
    }
}

/// The day of a time whose day fits the schedule is a day of the month.
pub proof fn lemma_day_is_in_domain(v: ScheduleFieldsView, o: CivilTime)
    requires
        v.wf(),
        day_fits(v, o),
    ensures
        1 <= o.day <= 31,
{
    assert(crate::time_unit::TimeUnit::DaysOfMonth.domain().contains(o.day as int));
}

/// The month of a time whose month fits the schedule is a month of the year.
pub proof fn lemma_month_is_in_domain(v: ScheduleFieldsView, o: CivilTime)
    requires
        v.wf(),
        month_fits(v, o),
    ensures
        1 <= o.month <= 12,
{
    assert(crate::time_unit::TimeUnit::Months.domain().contains(o.month as int));
}

/// The least time of day on the first day that has one is the least time of the month.
proof fn lemma_day_found(
    v: ScheduleFieldsView,
    at: CivilTime,
    low: CivilTime,
    below: CivilTime,
    day: u32,
    t: CivilTime,
)
    requires
        v.wf(),
        least_hour(v, below, Some(t)),
        t == (CivilTime { hour: t.hour, minute: t.minute, second: t.second, day, ..at }),
        v.days_of_month.contains(day as int),
        crate::calendar::calendar_weekday(at.year, at.month, day) matches Some(w)
            && v.days_of_week.contains(w as int),
        day >= low.day,
        day == low.day ==> below.hour == low.hour && below.minute == low.minute && below.second
            == low.second,
        day > low.day ==> below.hour == 0 && below.minute == 0 && below.second == 0,
        forall|o: CivilTime| #[trigger]
            day_fits(v, o) && same_month(o, at) && key_day(o) >= key_day(low) ==> o.day >= day,
    ensures
        least_day(v, at, low, Some(t)),
{
    assert forall|o: CivilTime| #[trigger]
        day_fits(v, o) && same_month(o, at) && key_day(o) >= key_day(low) implies key_day(o)
        >= key_day(t) by {
        assert(o.day >= day);
        if o.day == day {
            assert(hour_fits(v, o));
            assert(key_hour(o) >= key_hour(below));
        }
    }
}

/// The least time in the first month that has one is the least time of the year.
proof fn lemma_month_found(
    v: ScheduleFieldsView,
    at: CivilTime,
    low: CivilTime,
    below: CivilTime,
    month: u32,
    t: CivilTime,
)
    requires
        v.wf(),
        least_day(v, CivilTime { month, ..at }, below, Some(t)),
        v.months.contains(month as int),
        month >= low.month,
        month == low.month ==> below.day == low.day && below.hour == low.hour && below.minute
            == low.minute && below.second == low.second,
        month > low.month ==> below.day == 1 && below.hour == 0 && below.minute == 0
            && below.second == 0,
        forall|o: CivilTime| #[trigger]
            month_fits(v, o) && o.year == at.year && key_month(o) >= key_month(low) ==> o.month
                >= month,
    ensures
        least_month(v, at, low, Some(t)),
{
    let here = CivilTime { month, ..at };
    assert forall|o: CivilTime| #[trigger]
        month_fits(v, o) && o.year == at.year && key_month(o) >= key_month(low) implies key_month(o)
        >= key_month(t) by {
        assert(o.month >= month);
        if o.month == month {
            assert(day_fits(v, o) && same_month(o, here));
            lemma_day_is_in_domain(v, o);
            assert(key_day(o) >= key_day(below));
        }
    }
}

/// The least time in the first year that has one is the first match.
proof fn lemma_year_found(
    v: ScheduleFieldsView,
    low: CivilTime,
    below: CivilTime,
    year: u32,
    t: CivilTime,
)
    requires
        v.wf(),
        least_month(
            v,
            CivilTime { year, month: 1, day: 1, hour: 0, minute: 0, second: 0 },
            below,
            Some(t),
        ),
        v.years.contains(year as int),
        year >= low.year,
        year == low.year ==> below == low,
        year > low.year ==> below.month == 1 && below.day == 1 && below.hour == 0 && below.minute
            == 0 && below.second == 0,
        forall|o: CivilTime| #[trigger] v.matches(o) && key(o) >= key(low) ==> o.year >= year,
    ensures
        first_match(v, low, Some(t)),
{
    assert forall|o: CivilTime| #[trigger] v.matches(o) && key(o) >= key(low) implies key(o) >= key(
        t,
    ) by {
        assert(o.year >= year);
        if o.year == year {
            assert(month_fits(v, o));
            lemma_day_is_in_domain(v, o);
            lemma_month_is_in_domain(v, o);
            assert(key_month(o) >= key_month(below));
        }
    }
}

impl ScheduleFields {
    /// The least second of the schedule from the query's lower bound on, set into `at`.
    pub fn next_second(&self, query: &mut NextAfterQuery, at: CivilTime) -> (r: Option<CivilTime>)
        ensures
            *final(query) == (NextAfterQuery { second: FieldPass::Reset, ..*old(query) }),
            least_second(self@, old(query).lower_bound(), r),
            r matches Some(t) ==> t == (CivilTime { second: t.second, ..at }),
    {
        self.validity();
        let start: u32 = query.second_lower_bound();
        match self.seconds().first_at_or_after(start) {
            Some(second) => Some(CivilTime { second, ..at }),
            None => None,
        }
    }

    /// The least minute and second of the schedule from the query's lower bound on, set into `at`.
    pub fn next_minute(&self, query: &mut NextAfterQuery, at: CivilTime) -> (r: Option<CivilTime>)
        ensures
            *final(query) == (NextAfterQuery {
                minute: FieldPass::Reset,
                second: FieldPass::Reset,
                ..*old(query)
            }),
            least_minute(self@, old(query).lower_bound(), r),
            r matches Some(t) ==> t == (CivilTime { minute: t.minute, second: t.second, ..at }),
    {
        let ghost low = query.lower_bound();
        let ghost v = self@;
        self.validity();
        let start: u32 = query.minute_lower_bound();
        if !self.minutes().includes(start) {
            query.reset_minute();
        }
        let mut next: Option<u32> = self.minutes().first_at_or_after(start);
        loop
            invariant
                self.wf(),
                v == self@,
                low == old(query).lower_bound(),
                start == low.minute,
                query.initial_datetime == old(query).initial_datetime,
                query.month == old(query).month,
                query.day_of_month == old(query).day_of_month,
                query.hour == old(query).hour,
                query.minute == FieldPass::Reset,
                next matches Some(m) ==> m >= start && v.minutes.contains(m as int) && m <= 59 && (
                    m == start ==> query.second == old(query).second) && (m > start
                    ==> query.second == FieldPass::Reset),
                next is None ==> query.second == FieldPass::Reset || !v.minutes.contains(start as int),
                forall|o: CivilTime| #[trigger]
                    minute_fits(v, o) && key_minute(o) >= key_minute(low) ==> (next matches Some(m)
                        && o.minute >= m),
            decreases
                    (match next {
                        Some(m) => 60 - m,
                        None => 0,
                    }),
        {
            let minute: u32 = match next {
                Some(m) => m,
                None => {
                    query.reset_minute();
                    return None;
                },
            };
            match self.next_second(query, CivilTime { minute, ..at }) {
                Some(t) => {
                    return Some(t);
                },
                None => {},
            }
            query.reset_minute();
            next = self.minutes().first_at_or_after(minute + 1);
        }
    }

    /// The least time of day of the schedule from the query's lower bound on, set into `at`.
    pub fn next_hour(&self, query: &mut NextAfterQuery, at: CivilTime) -> (r: Option<CivilTime>)
        ensures
            *final(query) == (NextAfterQuery {
                hour: FieldPass::Reset,
                minute: FieldPass::Reset,
                second: FieldPass::Reset,
                ..*old(query)
            }),
            least_hour(self@, old(query).lower_bound(), r),
            r matches Some(t) ==> t == (CivilTime {
                hour: t.hour,
                minute: t.minute,
                second: t.second,
                ..at
            }),
    {
        let ghost low = query.lower_bound();
        let ghost v = self@;
        self.validity();
        let start: u32 = query.hour_lower_bound();
        if !self.hours().includes(start) {
            query.reset_hour();
        }
        let mut next: Option<u32> = self.hours().first_at_or_after(start);
        loop
            invariant
                self.wf(),
                v == self@,
                low == old(query).lower_bound(),
                start == low.hour,
                query.initial_datetime == old(query).initial_datetime,
                query.month == old(query).month,
                query.day_of_month == old(query).day_of_month,
                query.hour == FieldPass::Reset,
                next matches Some(h) ==> h >= start && v.hours.contains(h as int) && h <= 23 && (h
                    == start ==> query.minute == old(query).minute && query.second == old(
                    query,
                ).second) && (h > start ==> query.minute == FieldPass::Reset && query.second
                    == FieldPass::Reset),
                forall|o: CivilTime| #[trigger]
                    hour_fits(v, o) && key_hour(o) >= key_hour(low) ==> (next matches Some(h)
                        && o.hour >= h),
            decreases
                    (match next {
                        Some(h) => 24 - h,
                        None => 0,
                    }),
        {
            let hour: u32 = match next {
                Some(h) => h,
                None => {
                    query.reset_hour();
                    return None;
                },
            };
            match self.next_minute(query, CivilTime { hour, ..at }) {
                Some(t) => {
                    return Some(t);
                },
                None => {},
            }
            query.reset_hour();
            next = self.hours().first_at_or_after(hour + 1);
        }
    }

    /// The least time of the schedule in the month of `at` from the day and
    /// time of the query's lower bound on.
    pub fn next_day(&self, query: &mut NextAfterQuery, at: CivilTime) -> (r: Option<CivilTime>)
        requires
            at.year <= MAX_YEAR,
        ensures
            *final(query) == (NextAfterQuery {
                day_of_month: FieldPass::Reset,
                hour: FieldPass::Reset,
                minute: FieldPass::Reset,
                second: FieldPass::Reset,
                ..*old(query)
            }),
            least_day(self@, at, old(query).lower_bound(), r),
    {
        let ghost low = query.lower_bound();
        let ghost v = self@;
        self.validity();
        let start: u32 = query.day_of_month_lower_bound();
        if !self.days_of_month().includes(start) {
            query.reset_day_of_month();
        }
        let mut next: Option<u32> = self.days_of_month().first_at_or_after(start);
        loop
            invariant
                self.wf(),
                v == self@,
                v.wf(),
                at.year <= MAX_YEAR,
                low == old(query).lower_bound(),
                start == low.day,
                query.initial_datetime == old(query).initial_datetime,
                query.month == old(query).month,
                query.day_of_month == FieldPass::Reset,
                next matches Some(d) ==> d >= start && v.days_of_month.contains(d as int) && d
                    <= 31 && (d == start ==> query.hour == old(query).hour && query.minute == old(
                    query,
                ).minute && query.second == old(query).second) && (d > start ==> query.hour
                    == FieldPass::Reset && query.minute == FieldPass::Reset && query.second
                    == FieldPass::Reset),
                forall|o: CivilTime| #[trigger]
                    day_fits(v, o) && same_month(o, at) && key_day(o) >= key_day(low) ==> (
                    next matches Some(d) && o.day >= d),
            decreases
                    (match next {
                        Some(d) => 32 - d,
                        None => 0,
                    }),
        {
            let day: u32 = match next {
                Some(d) => d,
                None => {
                    query.reset_day_of_month();
                    return None;
                },
            };
            let ghost below = query.lower_bound();
            let on_schedule: bool = match weekday_of(at.year, at.month, day) {
                Some(weekday) => self.days_of_week().includes(weekday),
                None => false,
            };
            if on_schedule {
                let found: Option<CivilTime> = self.next_hour(query, CivilTime { day, ..at });
                match found {
                    Some(t) => {
                        proof {
                            lemma_day_found(v, at, low, below, day, t);
                        }
                        return Some(t);
                    },
                    None => {},
                }
            }
            query.reset_day_of_month();
            next = self.days_of_month().first_at_or_after(day + 1);
            proof {
                assert forall|o: CivilTime| #[trigger]
                    day_fits(v, o) && same_month(o, at) && key_day(o) >= key_day(low) implies (
                next matches Some(d) && o.day >= d) by {
                    assert(o.day >= day);
                    if o.day == day {
                        if on_schedule {
                            assert(hour_fits(v, o));
                            assert(key_hour(o) < key_hour(below));
                        }
                    }
                }
            }
        }
    }

    /// The least time of the schedule in the year of `at` from the month, day
    /// and time of the query's lower bound on.
    pub fn next_month(&self, query: &mut NextAfterQuery, at: CivilTime) -> (r: Option<CivilTime>)
        requires
            at.year <= MAX_YEAR,
        ensures
            *final(query) == (NextAfterQuery {
                initial_datetime: old(query).initial_datetime,
                month: FieldPass::Reset,
                day_of_month: FieldPass::Reset,
                hour: FieldPass::Reset,
                minute: FieldPass::Reset,
                second: FieldPass::Reset,
            }),
            least_month(self@, at, old(query).lower_bound(), r),
    {
        let ghost low = query.lower_bound();
        let ghost v = self@;
        self.validity();
        let start: u32 = query.month_lower_bound();
        if !self.months().includes(start) {
            query.reset_month();
        }
        let mut next: Option<u32> = self.months().first_at_or_after(start);
        loop
            invariant
                self.wf(),
                v == self@,
                v.wf(),
                at.year <= MAX_YEAR,
                low == old(query).lower_bound(),
                start == low.month,
                query.initial_datetime == old(query).initial_datetime,
                query.month == FieldPass::Reset,
                next matches Some(m) ==> m >= start && v.months.contains(m as int) && m <= 12 && (
                    m == start ==> query.day_of_month == old(query).day_of_month && query.hour
                    == old(query).hour && query.minute == old(query).minute && query.second == old(
                    query,
                ).second) && (m > start ==> query.day_of_month == FieldPass::Reset && query.hour
                    == FieldPass::Reset && query.minute == FieldPass::Reset && query.second
                    == FieldPass::Reset),
                forall|o: CivilTime| #[trigger]
                    month_fits(v, o) && o.year == at.year && key_month(o) >= key_month(low) ==> (
                    next matches Some(m) && o.month >= m),
            decreases
                    (match next {
                        Some(m) => 13 - m,
                        None => 0,
                    }),
        {
            let month: u32 = match next {
                Some(m) => m,
                None => {
                    query.reset_month();
                    return None;
                },
            };
            let ghost below = query.lower_bound();
            let ghost here = CivilTime { month, ..at };
            let found: Option<CivilTime> = self.next_day(query, CivilTime { month, ..at });
            match found {
                Some(t) => {
                    proof {
                        lemma_month_found(v, at, low, below, month, t);
                    }
                    return Some(t);
                },
                None => {},
            }
            query.reset_month();
            next = self.months().first_at_or_after(month + 1);
            proof {
                assert forall|o: CivilTime| #[trigger]
                    month_fits(v, o) && o.year == at.year && key_month(o) >= key_month(
                        low,
                    ) implies (next matches Some(m) && o.month >= m) by {
                    assert(o.month >= month);
                    if o.month == month {
                        assert(day_fits(v, o) && same_month(o, here));
                        assert(key_day(o) < key_day(below));
                        lemma_day_is_in_domain(v, o);
                    }
                }
            }
        }
    }

    /// The first time at or after the query's lower bound that the schedule
    /// matches; nothing where no year of the schedule holds one.
    pub fn next_match(&self, query: &mut NextAfterQuery) -> (r: Option<CivilTime>)
        ensures
            *final(query) == (NextAfterQuery {
                initial_datetime: old(query).initial_datetime,
                month: FieldPass::Reset,
                day_of_month: FieldPass::Reset,
                hour: FieldPass::Reset,
                minute: FieldPass::Reset,
                second: FieldPass::Reset,
            }),
            first_match(self@, old(query).lower_bound(), r),
            r == first_from(self@, old(query).lower_bound()),
    {
        let ghost low = query.lower_bound();
        let ghost v = self@;
        self.validity();
        let start: u32 = query.year_lower_bound();
        if !self.years().includes(start) {
            // A later year: where the start stood within its own year is of no account.
            query.reset_month();
        }
        let mut next: Option<u32> = self.years().first_at_or_after(start);
        loop
            invariant
                self.wf(),
                v == self@,
                v.wf(),
                low == old(query).lower_bound(),
                start == low.year,
                query.initial_datetime == old(query).initial_datetime,
                next matches Some(y) ==> y >= start && v.years.contains(y as int) && y <= MAX_YEAR
                    && (y == start ==> *query == *old(query)) && (y > start ==> query.month
                    == FieldPass::Reset && query.day_of_month == FieldPass::Reset && query.hour
                    == FieldPass::Reset && query.minute == FieldPass::Reset && query.second
                    == FieldPass::Reset),
                next is None ==> query.month == FieldPass::Reset && query.day_of_month
                    == FieldPass::Reset && query.hour == FieldPass::Reset && query.minute
                    == FieldPass::Reset && query.second == FieldPass::Reset,
                forall|o: CivilTime| #[trigger]
                    v.matches(o) && key(o) >= key(low) ==> (next matches Some(y) && o.year >= y),
            decreases
                    (match next {
                        Some(y) => MAX_YEAR + 1 - y,
                        None => 0,
                    }),
        {
            let year: u32 = match next {
                Some(y) => y,
                None => {
                    proof {
                        lemma_first_match_is_unique(v, low, None, None);
                    }
                    return None;
                },
            };
            let ghost below = query.lower_bound();
            let at = CivilTime { year, month: 1, day: 1, hour: 0, minute: 0, second: 0 };
            let found: Option<CivilTime> = self.next_month(query, at);
            match found {
                Some(t) => {
                    proof {
                        lemma_year_found(v, low, below, year, t);
                        lemma_first_match_is_unique(v, low, Some(t), Some(t));
                    }
                    return Some(t);
                },
                None => {},
            }
            next = self.years().first_at_or_after(year + 1);
            proof {
                assert forall|o: CivilTime| #[trigger] v.matches(o) && key(o) >= key(low) implies (
                next matches Some(y) && o.year >= y) by {
                    assert(o.year >= year);
                    if o.year == year {
                        assert(month_fits(v, o) && o.year == at.year);
                        assert(key_month(o) < key_month(below));
                        lemma_day_is_in_domain(v, o);
                        lemma_month_is_in_domain(v, o);
                    }
                }
            }
        }
    }
}

} // verus!
