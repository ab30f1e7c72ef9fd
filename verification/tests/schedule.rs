use cron_schedule::calendar::CivilTime;
use cron_schedule::error::Error;
use cron_schedule::ordinal::OrdinalSet;
use cron_schedule::parsing::Field;
use cron_schedule::queries::FieldPass;
use cron_schedule::queries::NextAfterQuery;
use cron_schedule::schedule::instant_from_seconds;
use cron_schedule::schedule::Schedule;
use cron_schedule::schedule::ScheduleFields;
use cron_schedule::specifier::RootSpecifier;
use cron_schedule::specifier::Specifier;
use cron_schedule::time_unit::TimeUnit;
use cron_schedule::unit_field::Seconds;
use cron_schedule::unit_field::Years;

const SECOND: u64 = 1_000_000_000;

fn instant(year: i32, month: u32, day: u32, hour: u32, minute: u32, second: u32) -> u64 {
    let seconds = chrono::NaiveDate::from_ymd_opt(year, month, day)
        .unwrap()
        .and_hms_opt(hour, minute, second)
        .unwrap()
        .and_utc()
        .timestamp();
    seconds as u64 * SECOND
}

fn civil(year: u32, month: u32, day: u32, hour: u32, minute: u32, second: u32) -> CivilTime {
    CivilTime { year, month, day, hour, minute, second }
}

#[test]
fn upcoming_gives_the_first_ten_fire_times() {
    let schedule = Schedule::from_str("0 30 9,12,15 1,15 May-Aug Mon,Wed,Fri 2018/2").unwrap();
    let found = schedule.upcoming(instant(2018, 5, 1, 0, 0, 0)).take(10);
    let expected = vec![
        instant(2018, 6, 1, 9, 30, 0),
        instant(2018, 6, 1, 12, 30, 0),
        instant(2018, 6, 1, 15, 30, 0),
        instant(2018, 6, 15, 9, 30, 0),
        instant(2018, 6, 15, 12, 30, 0),
        instant(2018, 6, 15, 15, 30, 0),
        instant(2018, 8, 1, 9, 30, 0),
        instant(2018, 8, 1, 12, 30, 0),
        instant(2018, 8, 1, 15, 30, 0),
        instant(2018, 8, 15, 9, 30, 0),
    ];
    assert_eq!(found, expected);
}

#[test]
fn upcoming_with_wide_spacing_in_the_expression() {
    let expression = "0   30   9,12,15     1,15       May-Aug  Mon,Wed,Fri  2018/2";
    let schedule = Schedule::from_str(expression).unwrap();
    assert_eq!(schedule.source(), expression);
    let mut walk = schedule.upcoming(instant(2018, 5, 1, 0, 0, 0));
    assert_eq!(walk.next(), Some(instant(2018, 6, 1, 9, 30, 0)));
    assert_eq!(walk.next(), Some(instant(2018, 6, 1, 12, 30, 0)));
}

#[test]
fn upcoming_skips_the_odd_years() {
    let schedule = Schedule::from_str("0 30 9,12,15 1,15 May-Aug Mon,Wed,Fri 2018/2").unwrap();
    let found = schedule.upcoming(instant(2018, 8, 15, 15, 30, 0)).take(1);
    // 2020-05-01 is a Friday.
    assert_eq!(found, vec![instant(2020, 5, 1, 9, 30, 0)]);
}

#[test]
fn upcoming_rises_strictly() {
    let schedule = Schedule::from_str("*/7 * * * * *").unwrap();
    let found = schedule.upcoming(instant(2021, 12, 31, 23, 59, 50)).take(40);
    assert_eq!(found.len(), 40);
    for pair in found.windows(2) {
        assert!(pair[0] < pair[1]);
    }
    assert_eq!(found[0], instant(2021, 12, 31, 23, 59, 56));
    assert_eq!(found[1], instant(2022, 1, 1, 0, 0, 0));
    assert_eq!(found[2], instant(2022, 1, 1, 0, 0, 7));
}

#[test]
fn next_after_starts_at_the_next_whole_second() {
    let schedule = Schedule::from_str("* * * * * *").unwrap();
    let base = instant(2020, 2, 28, 23, 59, 59);
    assert_eq!(schedule.next_after(&base), Some(instant(2020, 2, 29, 0, 0, 0)));
    assert_eq!(schedule.next_after(&(base + 1)), Some(instant(2020, 2, 29, 0, 0, 0)));
    assert_eq!(schedule.next_after(&(base + SECOND - 1)), Some(instant(2020, 2, 29, 0, 0, 0)));
    assert_eq!(schedule.next_after(&(base - 1)), Some(base));
    assert_eq!(schedule.next_after(&0), Some(SECOND));
}

#[test]
fn next_after_carries_through_every_unit() {
    let schedule = Schedule::from_str("5 4 3 2 1 * *").unwrap();
    assert_eq!(
        schedule.next_after(&instant(2019, 1, 2, 3, 4, 5)),
        Some(instant(2020, 1, 2, 3, 4, 5))
    );
    assert_eq!(
        schedule.next_after(&instant(2019, 1, 2, 3, 4, 4)),
        Some(instant(2019, 1, 2, 3, 4, 5))
    );
    assert_eq!(
        schedule.next_after(&instant(2019, 12, 31, 23, 59, 59)),
        Some(instant(2020, 1, 2, 3, 4, 5))
    );
}

#[test]
fn next_after_knows_leap_days() {
    let schedule = Schedule::from_str("0 0 0 29 2 * *").unwrap();
    assert_eq!(
        schedule.next_after(&instant(2021, 1, 1, 0, 0, 0)),
        Some(instant(2024, 2, 29, 0, 0, 0))
    );
    assert_eq!(
        schedule.next_after(&instant(2096, 3, 1, 0, 0, 0)),
        Some(instant(2104, 2, 29, 0, 0, 0))
    );
}

#[test]
fn next_after_takes_day_of_month_and_weekday_together() {
    let schedule = Schedule::from_str("0 0 0 13 * Fri").unwrap();
    assert_eq!(
        schedule.next_after(&instant(2023, 1, 14, 0, 0, 0)),
        Some(instant(2023, 10, 13, 0, 0, 0))
    );
}

#[test]
fn next_after_gives_nothing_for_a_day_that_never_comes() {
    let schedule = Schedule::from_str("0 0 0 30 2 * *").unwrap();
    assert_eq!(schedule.next_after(&instant(2020, 1, 1, 0, 0, 0)), None);
    let mut walk = schedule.upcoming(instant(2020, 1, 1, 0, 0, 0));
    assert_eq!(walk.next(), None);
    assert_eq!(walk.take(3), Vec::<u64>::new());
}

#[test]
fn next_after_gives_nothing_behind_the_last_year() {
    let schedule = Schedule::from_str("0 0 0 1 1 * 2019").unwrap();
    assert_eq!(
        schedule.next_after(&instant(2018, 6, 1, 0, 0, 0)),
        Some(instant(2019, 1, 1, 0, 0, 0))
    );
    assert_eq!(schedule.next_after(&instant(2019, 1, 1, 0, 0, 0)), None);
}

#[test]
fn next_after_gives_nothing_beyond_what_an_instant_holds() {
    let schedule = Schedule::from_str("0 0 0 1 1 * 3000").unwrap();
    assert_eq!(schedule.next_after(&instant(2020, 1, 1, 0, 0, 0)), None);
    let found = schedule.fields().next_from(&civil(2020, 1, 1, 0, 0, 0));
    assert_eq!(found, Some(civil(3000, 1, 1, 0, 0, 0)));
}

#[test]
fn next_from_gives_the_start_itself_where_it_matches() {
    let schedule = Schedule::from_str("0 30 9 * * *").unwrap();
    let start = civil(2022, 3, 4, 9, 30, 0);
    assert_eq!(schedule.fields().next_from(&start), Some(start));
    assert_eq!(
        schedule.fields().next_from(&civil(2022, 3, 4, 9, 30, 1)),
        Some(civil(2022, 3, 5, 9, 30, 0))
    );
    assert_eq!(
        schedule.fields().next_from(&civil(2022, 12, 31, 10, 0, 0)),
        Some(civil(2023, 1, 1, 9, 30, 0))
    );
}

#[test]
fn includes_agrees_with_the_search() {
    let schedule = Schedule::from_str("0 */15 8-17 * * Mon-Fri").unwrap();
    let mut at = instant(2024, 7, 5, 16, 0, 0);
    let end = instant(2024, 7, 8, 9, 0, 0);
    while at < end {
        let found = schedule.next_after(&(at - 1)) == Some(at);
        assert_eq!(schedule.includes(&at), found);
        at += 15 * 60 * SECOND / 2;
    }
}

#[test]
fn includes_reads_the_second_of_an_instant() {
    let schedule = Schedule::from_str("30 * * * * *").unwrap();
    let at = instant(2024, 7, 5, 16, 0, 30);
    assert!(schedule.includes(&at));
    assert!(schedule.includes(&(at + SECOND - 1)));
    assert!(!schedule.includes(&(at + SECOND)));
    assert!(!schedule.includes(&(at - 1)));
}

#[test]
fn includes_counts_weekdays_from_sunday() {
    let sunday = Schedule::from_str("* * * * * 1").unwrap();
    let saturday = Schedule::from_str("* * * * * Sat").unwrap();
    // 2024-09-01 was a Sunday.
    assert!(sunday.includes(&instant(2024, 9, 1, 12, 0, 0)));
    assert!(!sunday.includes(&instant(2024, 9, 2, 12, 0, 0)));
    assert!(saturday.includes(&instant(2024, 8, 31, 12, 0, 0)));
    assert!(!saturday.includes(&instant(2024, 9, 1, 12, 0, 0)));
    assert!(sunday.fields().includes(&civil(2024, 9, 1, 0, 0, 0)));
    assert!(!sunday.fields().includes(&civil(2024, 2, 30, 0, 0, 0)));
}

#[test]
fn parsing_twice_gives_equal_fields() {
    let expression = "0 30 9,12,15 1,15 May-Aug Mon,Wed,Fri 2018/2";
    let first = Schedule::from_str(expression).unwrap();
    let second = Schedule::from_str(first.source()).unwrap();
    assert_eq!(first.fields(), second.fields());
    assert_eq!(first.source(), second.source());
}

#[test]
fn any_is_all() {
    let any = Schedule::from_str("* * * ? * ?").unwrap();
    let all = Schedule::from_str("* * * * * *").unwrap();
    assert_eq!(any.fields(), all.fields());
}

#[test]
fn weekly_is_its_expansion() {
    let short = Schedule::from_str("@weekly").unwrap();
    let long = Schedule::from_str("0 0 0 * * 1 *").unwrap();
    assert_eq!(short.fields(), long.fields());
    let other = Schedule::from_str("0 0 0 * * 2 *").unwrap();
    assert_ne!(short.fields(), other.fields());
}

#[test]
fn shorthands_are_their_expansions() {
    let pairs = [
        ("@yearly", "0 0 0 1 1 * *"),
        ("@monthly", "0 0 0 1 * * *"),
        ("@daily", "0 0 0 * * * *"),
        ("@hourly", "0 0 * * * * *"),
    ];
    for (short, long) in pairs {
        let short = Schedule::from_str(short).unwrap();
        let long = Schedule::from_str(long).unwrap();
        assert_eq!(short.fields(), long.fields());
    }
}

#[test]
fn errors_say_what_went_wrong() {
    let error = |expression: &str| Schedule::from_str(expression).unwrap_err();
    assert_eq!(error("0-65 * * * * *"), Error::Domain { value: 65 });
    assert_eq!(error("103,12 * * * * *"), Error::Domain { value: 103 });
    assert_eq!(error("* * * 0 * *"), Error::Domain { value: 0 });
    assert_eq!(error("* * * * 13 *"), Error::Domain { value: 13 });
    assert_eq!(error("* * * * * 8"), Error::Domain { value: 8 });
    assert_eq!(error("* * 24 * * *"), Error::Domain { value: 24 });
    assert_eq!(error("*/0 * * * * *"), Error::Domain { value: 0 });
    assert_eq!(error("70/2 * * * * *"), Error::Domain { value: 70 });
    assert_eq!(error("* * * * * * 262143"), Error::Domain { value: 262143 });
    assert_eq!(error("* * * * * *foo"), Error::Syntax);
    assert_eq!(error("* * * * * * * foo"), Error::Syntax);
    assert_eq!(error("? * * * * *"), Error::Syntax);
    assert_eq!(error("* * * * * * ?"), Error::Syntax);
    assert_eq!(error("*,* * * * * *!"), Error::Syntax);
    assert_eq!(error("1,2* * * * *"), Error::Syntax);
    assert_eq!(error("@yearly "), Error::Syntax);
    assert_eq!(error("@minutely"), Error::Syntax);
    assert_eq!(error("* * * *"), Error::FieldCount { found: 4 });
    assert_eq!(error("99 99 99 99"), Error::FieldCount { found: 4 });
    assert_eq!(error("a b c d"), Error::FieldCount { found: 4 });
    assert_eq!(error("* * * * *"), Error::FieldCount { found: 5 });
    assert_eq!(error(""), Error::FieldCount { found: 0 });
    assert_eq!(error("  \n"), Error::FieldCount { found: 0 });
    assert_eq!(error("* * * * * MON,TURTLE"), Error::Name);
    assert_eq!(error("* * * * * BEAR-OWL"), Error::Name);
    assert_eq!(error("* * Mon * * *"), Error::Name);
    assert_eq!(error("* * * * * * Jan"), Error::Name);
    assert_eq!(error("30-10 * * * * *"), Error::RangeOrder { start: 30, end: 10 });
    assert_eq!(error("* * * * Aug-May *"), Error::RangeOrder { start: 8, end: 5 });
    assert_eq!(error("* * * * * Fri-Mon/2"), Error::RangeOrder { start: 6, end: 2 });
}

#[test]
fn the_first_failure_decides() {
    let error = |expression: &str| Schedule::from_str(expression).unwrap_err();
    assert_eq!(error("61 62 * * * *"), Error::Domain { value: 61 });
    assert_eq!(error("1,61,5-2 * * * * *"), Error::Domain { value: 61 });
    assert_eq!(error("1,5-2,61 * * * * *"), Error::RangeOrder { start: 5, end: 2 });
    assert_eq!(error("* * * * Foo 9"), Error::Name);
    assert_eq!(error("61 * * * * *foo"), Error::Syntax);
}

#[test]
fn from_field_list_counts_before_it_resolves() {
    let bad = || Field { specifiers: vec![RootSpecifier::Specifier(Specifier::Point(99))] };
    for count in [0usize, 1, 4, 5, 8] {
        let fields: Vec<Field> = (0..count).map(|_| bad()).collect();
        assert_eq!(
            ScheduleFields::from_field_list(fields).unwrap_err(),
            Error::FieldCount { found: count }
        );
    }
    let fields: Vec<Field> = (0..6).map(|_| bad()).collect();
    assert_eq!(
        ScheduleFields::from_field_list(fields).unwrap_err(),
        Error::Domain { value: 99 }
    );
    let mut fields: Vec<Field> = (0..6)
        .map(|_| Field { specifiers: vec![RootSpecifier::Specifier(Specifier::All)] })
        .collect();
    fields[2] = Field { specifiers: vec![] };
    assert_eq!(ScheduleFields::from_field_list(fields).unwrap_err(), Error::Syntax);
}

#[test]
fn from_field_list_defaults_to_every_year() {
    let all = || Field { specifiers: vec![RootSpecifier::from(Specifier::All)] };
    let six = ScheduleFields::from_field_list((0..6).map(|_| all()).collect()).unwrap();
    let seven = ScheduleFields::from_field_list((0..7).map(|_| all()).collect()).unwrap();
    assert_eq!(six, seven);
    assert!(six.years().includes(0));
    assert!(six.years().includes(262_142));
    assert!(!six.years().includes(262_143));
    assert_eq!(*six.years(), Years::all());
}

#[test]
fn periods_run_to_the_end_of_the_domain() {
    let schedule = Schedule::from_str("10-20/25 */20 5/6 * * *").unwrap();
    let fields = schedule.fields();
    let members = |set: &OrdinalSet, max: u32| -> Vec<u32> {
        (0..=max).filter(|o| set.contains(*o)).collect()
    };
    assert_eq!(members(fields.seconds().ordinals(), 100), vec![10, 35]);
    assert_eq!(members(fields.minutes().ordinals(), 100), vec![0, 20, 40]);
    assert_eq!(members(fields.hours().ordinals(), 100), vec![5, 11, 17, 23]);
    assert_eq!(
        *fields.seconds(),
        Seconds::from_ordinal_set(OrdinalSet::from_ordinals(vec![35, 10, 35])).unwrap()
    );
}

#[test]
fn names_ignore_case() {
    let upper = Schedule::from_str("* * * * JANUARY-sep SUNDAY,tues,Thurs").unwrap();
    let plain = Schedule::from_str("* * * * 1-9 1,3,5").unwrap();
    assert_eq!(upper.fields(), plain.fields());
    assert_eq!(TimeUnit::Months.ordinal_from_name("dEc"), Ok(12));
    assert_eq!(TimeUnit::DaysOfWeek.ordinal_from_name("Saturday"), Ok(7));
    assert_eq!(TimeUnit::DaysOfWeek.ordinal_from_name("Sat."), Err(Error::Name));
    assert_eq!(TimeUnit::Hours.ordinal_from_name("jan"), Err(Error::Name));
}

#[test]
fn unit_bounds() {
    let bounds = |unit: TimeUnit| (unit.inclusive_min(), unit.inclusive_max());
    assert_eq!(bounds(TimeUnit::Seconds), (0, 59));
    assert_eq!(bounds(TimeUnit::Minutes), (0, 59));
    assert_eq!(bounds(TimeUnit::Hours), (0, 23));
    assert_eq!(bounds(TimeUnit::DaysOfMonth), (1, 31));
    assert_eq!(bounds(TimeUnit::Months), (1, 12));
    assert_eq!(bounds(TimeUnit::DaysOfWeek), (1, 7));
    assert_eq!(bounds(TimeUnit::Years), (0, 262_142));
    assert_eq!(TimeUnit::Hours.validate_ordinal(23), Ok(23));
    assert_eq!(TimeUnit::Hours.validate_ordinal(24), Err(Error::Domain { value: 24 }));
}

#[test]
fn unit_fields_turn_down_what_does_not_fit() {
    assert_eq!(Seconds::from_ordinal(60).unwrap_err(), Error::Domain { value: 60 });
    assert_eq!(Seconds::from_ordinal_set(OrdinalSet::new()).unwrap_err(), Error::Syntax);
    assert_eq!(
        Seconds::from_ordinal_set(OrdinalSet::from_ordinals(vec![3, 77])).unwrap_err(),
        Error::Domain { value: 77 }
    );
    assert_eq!(Seconds::all(), Seconds::from_ordinal_set(OrdinalSet::from_range(0, 59)).unwrap());
}

#[test]
fn ordinal_sets_are_sets() {
    let a = OrdinalSet::from_ordinals(vec![5, 1, 3, 1]);
    let b = OrdinalSet::new().including_run(1, 6, 2);
    assert_eq!(a, b);
    assert!(a.contains(3) && !a.contains(2) && !a.contains(7));
    assert_eq!(a.first_at_or_after(0), Some(1));
    assert_eq!(a.first_at_or_after(2), Some(3));
    assert_eq!(a.first_at_or_after(5), Some(5));
    assert_eq!(a.first_at_or_after(6), None);
    assert!(OrdinalSet::new().is_empty() && !a.is_empty());
    assert_ne!(a, OrdinalSet::from_range(1, 5));
    let high = OrdinalSet::new().including_run(4_294_967_290, u32::MAX, 4);
    assert_eq!(high.first_at_or_after(4_294_967_291), Some(4_294_967_294));
    assert_eq!(high.first_at_or_after(4_294_967_295), None);
    assert_eq!(high, OrdinalSet::from_ordinals(vec![4_294_967_294, 4_294_967_290]));
}

#[test]
fn a_query_hands_out_each_start_value_once() {
    let mut query = NextAfterQuery::from(&(instant(2018, 5, 17, 13, 46, 29) + 999_999_999));
    assert_eq!(query.initial_datetime, civil(2018, 5, 17, 13, 46, 30));
    assert_eq!(query.year_lower_bound(), 2018);
    assert_eq!(query.month_lower_bound(), 5);
    assert_eq!(query.month_lower_bound(), 1);
    assert_eq!(query.day_of_month_lower_bound(), 17);
    assert_eq!(query.day_of_month_lower_bound(), 1);
    assert_eq!(query.hour_lower_bound(), 13);
    assert_eq!(query.hour_lower_bound(), 0);
    assert_eq!(query.minute_lower_bound(), 46);
    assert_eq!(query.minute_lower_bound(), 0);
    assert_eq!(query.second_lower_bound(), 30);
    assert_eq!(query.second_lower_bound(), 0);
    assert_eq!(query.year_lower_bound(), 2018);
}

#[test]
fn a_reset_reaches_the_units_below() {
    let fresh = || NextAfterQuery::starting_at(civil(2018, 5, 17, 13, 46, 30));
    let mut query = fresh();
    query.reset_hour();
    assert_eq!(query.month, FieldPass::NotYetConsumed);
    assert_eq!(query.day_of_month, FieldPass::NotYetConsumed);
    assert_eq!(query.hour_lower_bound(), 0);
    assert_eq!(query.minute_lower_bound(), 0);
    assert_eq!(query.second_lower_bound(), 0);
    assert_eq!(query.day_of_month_lower_bound(), 17);
    let mut query = fresh();
    query.reset_month();
    assert_eq!(query.month_lower_bound(), 1);
    assert_eq!(query.day_of_month_lower_bound(), 1);
    let mut query = fresh();
    query.reset_second();
    assert_eq!(query.minute_lower_bound(), 46);
    assert_eq!(query.second_lower_bound(), 0);
    let mut query = fresh();
    query.reset_minute();
    assert_eq!(query.hour_lower_bound(), 13);
    assert_eq!(query.minute_lower_bound(), 0);
    let mut query = fresh();
    query.reset_day_of_month();
    assert_eq!(query.month_lower_bound(), 5);
    assert_eq!(query.day_of_month_lower_bound(), 1);
    assert_eq!(query.hour_lower_bound(), 0);
}

#[test]
fn a_query_for_the_last_instant_still_starts() {
    let query = NextAfterQuery::from(&u64::MAX);
    assert_eq!(query.initial_datetime, civil(2554, 7, 21, 23, 34, 34));
}

#[test]
fn instants_are_nanoseconds() {
    assert_eq!(instant_from_seconds(Some(0)), Some(0));
    assert_eq!(instant_from_seconds(Some(1_525_132_800)), Some(1_525_132_800_000_000_000));
    assert_eq!(instant_from_seconds(Some(18_446_744_073)), Some(18_446_744_073_000_000_000));
    assert_eq!(instant_from_seconds(Some(18_446_744_074)), None);
    assert_eq!(instant_from_seconds(Some(-1)), None);
    assert_eq!(instant_from_seconds(None), None);
}

#[test]
fn a_schedule_parses_from_text() {
    let parsed: Schedule = "0 0 12 * * *".parse().unwrap();
    assert_eq!(parsed.fields(), Schedule::from_str("0 0 12 * * *").unwrap().fields());
    assert_eq!("0 0 25 * * *".parse::<Schedule>().unwrap_err(), Error::Domain { value: 25 });
}
