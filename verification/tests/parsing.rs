use cron_schedule::ordinal::OrdinalSet;
use cron_schedule::parsing::field;
use cron_schedule::parsing::field_with_any;
use cron_schedule::parsing::longhand;
use cron_schedule::parsing::named_point;
use cron_schedule::parsing::named_range;
use cron_schedule::parsing::period;
use cron_schedule::parsing::period_with_any;
use cron_schedule::parsing::point;
use cron_schedule::parsing::range;
use cron_schedule::parsing::schedule;
use cron_schedule::parsing::shorthand;
use cron_schedule::parsing::Field;
use cron_schedule::schedule::ScheduleFields;
use cron_schedule::specifier::RootSpecifier;
use cron_schedule::specifier::Specifier;
use cron_schedule::unit_field::DaysOfMonth;
use cron_schedule::unit_field::DaysOfWeek;
use cron_schedule::unit_field::Hours;
use cron_schedule::unit_field::Minutes;
use cron_schedule::unit_field::Months;
use cron_schedule::unit_field::Seconds;
use cron_schedule::unit_field::Years;

#[test]
fn test_nom_valid_number() {
    let expression = "  1997\n\n\t";
    let (input, s) = point(expression).unwrap();
    assert!(input.is_empty());
    assert_eq!(s, Specifier::Point(1997));
}

#[test]
fn test_nom_invalid_point() {
    let expression = "a";
    assert!(point(expression).is_err());
}

#[test]
fn test_nom_valid_named_point() {
    let expression = "WED";
    let (input, s) = named_point(expression).unwrap();
    assert!(input.is_empty());
    assert_eq!(s, RootSpecifier::NamedPoint(expression.to_owned()));
}

#[test]
fn test_nom_invalid_named_point() {
    let expression = "8";
    assert!(named_point(expression).is_err());
}

#[test]
fn test_nom_valid_period() {
    let expression = "1/2";
    let (input, s) = period(expression).unwrap();
    assert!(input.is_empty());
    assert_eq!(s, RootSpecifier::Period(Specifier::Point(1), 2));
}

#[test]
fn test_nom_invalid_period() {
    let expression = "Wed/4";
    assert!(period(expression).is_err());
}

#[test]
fn test_nom_valid_number_list() {
    let expression = " \n1 , 2   *\n";
    let (input, f) = field(expression).unwrap();

    let (input, f1) = field(input).unwrap();
    assert!(input.is_empty());
    assert_eq!(
        f,
        Field {
            specifiers: vec![
                RootSpecifier::Specifier(Specifier::Point(1)),
                RootSpecifier::Specifier(Specifier::Point(2)),
            ],
        }
    );
    assert_eq!(
        f1,
        Field {
            specifiers: vec![RootSpecifier::Specifier(Specifier::All)]
        }
    );
    let (input, f) = field_with_any(expression).unwrap();
    let (input, f1) = field_with_any(input).unwrap();

    assert!(input.is_empty());
    assert_eq!(
        f,
        Field {
            specifiers: vec![
                RootSpecifier::Specifier(Specifier::Point(1)),
                RootSpecifier::Specifier(Specifier::Point(2)),
            ],
        }
    );
    assert_eq!(
        f1,
        Field {
            specifiers: vec![RootSpecifier::Specifier(Specifier::All)]
        }
    );
}

#[test]
fn test_nom_invalid_number_list() {
    let expression = ",1,2";
    assert!(field(expression).is_err());
    assert!(field_with_any(expression).is_err());
}

#[test]
fn test_nom_field_with_any_valid_any() {
    let expression = "?";
    let (input, f) = field_with_any(expression).unwrap();
    assert!(input.is_empty());
    assert_eq!(
        f,
        Field {
            specifiers: vec![RootSpecifier::Specifier(Specifier::All)]
        }
    );
}

#[test]
fn test_nom_field_invalid_any() {
    let expression = "?";
    assert!(field(expression).is_err());
}

#[test]
fn test_nom_valid_range_field() {
    let expression = "1-4";
    let (input, f) = range(expression).unwrap();
    assert!(input.is_empty());
    assert_eq!(f, Specifier::Range(1, 4))
}

#[test]
fn test_nom_valid_period_all() {
    let expression = "*/2";
    let (input, s) = period(expression).unwrap();
    assert!(input.is_empty());
    assert_eq!(s, RootSpecifier::Period(Specifier::All, 2))
}

#[test]
fn test_nom_valid_period_range() {
    let expression = "10-20/2";
    let (input, s) = period(expression).unwrap();
    assert!(input.is_empty());
    assert_eq!(s, RootSpecifier::Period(Specifier::Range(10, 20), 2))
}

#[test]
fn test_nom_valid_period_named_range() {
    let expression = "Mon-Thurs/2";
    let (input, s) = period(expression).unwrap();
    assert!(input.is_empty());
    assert_eq!(
        s,
        RootSpecifier::Period(
            Specifier::NamedRange("Mon".to_owned(), "Thurs".to_owned()),
            2
        )
    );

    let expression = "February-November/2";
    let (input, s) = period(expression).unwrap();
    assert!(input.is_empty());
    assert_eq!(
        s,
        RootSpecifier::Period(
            Specifier::NamedRange("February".to_owned(), "November".to_owned()),
            2
        )
    );
}

#[test]
fn test_nom_valid_period_point() {
    let expression = "10/2";
    let (input, s) = period(expression).unwrap();
    assert!(input.is_empty());
    assert_eq!(s, RootSpecifier::Period(Specifier::Point(10), 2));
}

#[test]
fn test_nom_invalid_period_any() {
    let expression = "?/2";
    assert!(period(expression).is_err());
}

#[test]
fn test_nom_invalid_period_named_point() {
    let expression = "Tues/2";
    assert!(period(expression).is_err());

    let expression = "February/2";
    assert!(period(expression).is_err());
}

#[test]
fn test_nom_invalid_period_specifier_range() {
    let expression = "10-12/*";
    assert!(period(expression).is_err());
}

#[test]
fn test_nom_valid_period_with_any_all() {
    let expression = "*/2";
    let (input, s) = period_with_any(expression).unwrap();
    assert!(input.is_empty());
    assert_eq!(s, RootSpecifier::Period(Specifier::All, 2));
}

#[test]
fn test_nom_valid_period_with_any_range() {
    let expression = "10-20/2";
    let (input, s) = period_with_any(expression).unwrap();
    assert!(input.is_empty());
    assert_eq!(s, RootSpecifier::Period(Specifier::Range(10, 20), 2));
}

#[test]
fn test_nom_valid_period_with_any_named_range() {
    let expression = "Mon-Thurs/2";
    let (input, s) = period_with_any(expression).unwrap();
    assert!(input.is_empty());
    assert_eq!(
        s,
        RootSpecifier::Period(
            Specifier::NamedRange("Mon".to_owned(), "Thurs".to_owned()),
            2
        )
    );

    let expression = "February-November/2";
    let (input, s) = period_with_any(expression).unwrap();
    assert!(input.is_empty());
    assert_eq!(
        s,
        RootSpecifier::Period(
            Specifier::NamedRange("February".to_owned(), "November".to_owned()),
            2
        )
    );
}

#[test]
fn test_nom_valid_period_with_any_point() {
    let expression = "10/2";
    let (input, s) = period_with_any(expression).unwrap();
    assert!(input.is_empty());
    assert_eq!(s, RootSpecifier::Period(Specifier::Point(10), 2))
}

#[test]
fn test_nom_valid_period_with_any_any() {
    let expression = "?/2";
    let (input, s) = period_with_any(expression).unwrap();
    assert!(input.is_empty());
    assert_eq!(s, RootSpecifier::Period(Specifier::All, 2))
}

#[test]
fn test_nom_invalid_period_with_any_named_point() {
    let expression = "Tues/2";
    assert!(period_with_any(expression).is_err());

    let expression = "February/2";
    assert!(period_with_any(expression).is_err());
}

#[test]
fn test_nom_invalid_period_with_any_specifier_range() {
    let expression = "10-12/*";
    assert!(period_with_any(expression).is_err());
}

#[test]
fn test_nom_invalid_range_field() {
    let expression = "-4";
    assert!(range(expression).is_err());
}

#[test]
fn test_nom_valid_named_range_field() {
    let expression = "TUES-THURS";
    let (input, s) = named_range(expression).unwrap();
    assert!(input.is_empty());
    assert_eq!(
        s,
        Specifier::NamedRange("TUES".to_owned(), "THURS".to_owned())
    );
}

#[test]
fn test_nom_invalid_named_range_field() {
    let expression = "3-THURS";
    assert!(named_range(expression).is_err());
}

#[test]
fn test_valid_shorthands() {
    let expression = "@hourly";
    let (input, hourly) = shorthand(expression).unwrap();
    assert!(input.is_empty());
    assert_eq!(
        hourly,
        ScheduleFields::new(
            Seconds::from_ordinal(0).unwrap(),
            Minutes::from_ordinal(0).unwrap(),
            Hours::all(),
            DaysOfMonth::all(),
            Months::all(),
            DaysOfWeek::all(),
            Years::all()
        )
    );

    let expression = "@daily";
    let (input, daily) = shorthand(expression).unwrap();
    assert!(input.is_empty());
    assert_eq!(
        daily,
        ScheduleFields::new(
            Seconds::from_ordinal(0).unwrap(),
            Minutes::from_ordinal(0).unwrap(),
            Hours::from_ordinal(0).unwrap(),
            DaysOfMonth::all(),
            Months::all(),
            DaysOfWeek::all(),
            Years::all()
        )
    );

    let expression = "@weekly";
    let (input, weekly) = shorthand(expression).unwrap();
    assert!(input.is_empty());
    assert_eq!(
        weekly,
        ScheduleFields::new(
            Seconds::from_ordinal(0).unwrap(),
            Minutes::from_ordinal(0).unwrap(),
            Hours::from_ordinal(0).unwrap(),
            DaysOfMonth::all(),
            Months::all(),
            DaysOfWeek::from_ordinal(1).unwrap(),
            Years::all()
        )
    );

    let expression = "@monthly";
    let (input, monthly) = shorthand(expression).unwrap();
    assert!(input.is_empty());
    assert_eq!(
        monthly,
        ScheduleFields::new(
            Seconds::from_ordinal(0).unwrap(),
            Minutes::from_ordinal(0).unwrap(),
            Hours::from_ordinal(0).unwrap(),
            DaysOfMonth::from_ordinal(1).unwrap(),
            Months::all(),
            DaysOfWeek::all(),
            Years::all()
        )
    );

    let expression = "@yearly";
    let (input, yearly) = shorthand(expression).unwrap();
    assert!(input.is_empty());
    assert_eq!(
        yearly,
        ScheduleFields::new(
            Seconds::from_ordinal(0).unwrap(),
            Minutes::from_ordinal(0).unwrap(),
            Hours::from_ordinal(0).unwrap(),
            DaysOfMonth::from_ordinal(1).unwrap(),
            Months::from_ordinal(1).unwrap(),
            DaysOfWeek::all(),
            Years::all()
        )
    );
}

#[test]
fn test_invalid_shorthand() {
    // wrong format
    let expression = "@minutely";
    assert!(shorthand(expression).is_err());

    let expression = "bad_format";
    assert!(shorthand(expression).is_err());

    // with extra symbols
    let expression = "@yearly ";
    assert!(shorthand(expression).is_err());

    let expression = " @yearly";
    assert!(shorthand(expression).is_err());
}

#[test]
fn test_valid_longhand_with_year() {
    let expression = "* * * * * * *";
    let res = longhand(expression).unwrap();
    assert_eq!(
        res,
        (
            "",
            ScheduleFields::new(
                Seconds::all(),
                Minutes::all(),
                Hours::all(),
                DaysOfMonth::all(),
                Months::all(),
                DaysOfWeek::all(),
                Years::all()
            )
        )
    )
}

#[test]
fn test_valid_longhand_without_year() {
    let expression = "* * * * * *";
    let res = longhand(expression).unwrap();
    assert_eq!(
        res,
        (
            "",
            ScheduleFields::new(
                Seconds::all(),
                Minutes::all(),
                Hours::all(),
                DaysOfMonth::all(),
                Months::all(),
                DaysOfWeek::all(),
                Years::all()
            )
        )
    )
}

#[test]
fn test_nom_valid_schedule() {
    let expression = "* * * * * *";
    let res = schedule(expression).unwrap();
    assert_eq!(
        res,
        (
            "",
            ScheduleFields::new(
                Seconds::all(),
                Minutes::all(),
                Hours::all(),
                DaysOfMonth::all(),
                Months::all(),
                DaysOfWeek::all(),
                Years::all()
            )
        )
    )
}

#[test]
fn test_nom_invalid_schedule() {
    let expression = "* * * *";
    assert!(schedule(expression).is_err());
}

#[test]
fn test_nom_valid_seconds_list() {
    let expression = "0,20,40 * * * * *";
    let res = schedule(expression).unwrap();
    assert_eq!(
        res,
        (
            "",
            ScheduleFields::new(
                Seconds::from_ordinal_set(OrdinalSet::from_ordinals(vec![0, 20, 40])).unwrap(),
                Minutes::all(),
                Hours::all(),
                DaysOfMonth::all(),
                Months::all(),
                DaysOfWeek::all(),
                Years::all()
            )
        )
    )
}

#[test]
fn test_nom_valid_seconds_range() {
    let expression = "0-40 * * * * *";
    let res = schedule(expression).unwrap();
    assert_eq!(
        res,
        (
            "",
            ScheduleFields::new(
                Seconds::from_ordinal_set(OrdinalSet::from_range(0, 40)).unwrap(),
                Minutes::all(),
                Hours::all(),
                DaysOfMonth::all(),
                Months::all(),
                DaysOfWeek::all(),
                Years::all()
            )
        )
    )
}

#[test]
fn test_nom_valid_seconds_mix() {
    let expression = "0-5,58 * * * * *";
    let res = schedule(expression).unwrap();
    assert_eq!(
        res,
        (
            "",
            ScheduleFields::new(
                Seconds::from_ordinal_set(OrdinalSet::from_range(0, 5).including(58)).unwrap(),
                Minutes::all(),
                Hours::all(),
                DaysOfMonth::all(),
                Months::all(),
                DaysOfWeek::all(),
                Years::all()
            )
        )
    )
}

#[test]
fn test_nom_invalid_seconds_range() {
    let expression = "0-65 * * * * *";
    assert!(schedule(expression).is_err());
}

#[test]
fn test_nom_invalid_seconds_list() {
    let expression = "103,12 * * * * *";
    assert!(schedule(expression).is_err());
}

#[test]
fn test_nom_invalid_seconds_mix() {
    let expression = "0-5,102 * * * * *";
    assert!(schedule(expression).is_err());
}

#[test]
fn test_nom_valid_days_of_week_list() {
    let expression = "* * * * * MON,WED,FRI";
    let res = schedule(expression).unwrap();
    assert_eq!(
        res,
        (
            "",
            ScheduleFields::new(
                Seconds::all(),
                Minutes::all(),
                Hours::all(),
                DaysOfMonth::all(),
                Months::all(),
                DaysOfWeek::from_ordinal_set(OrdinalSet::from_ordinals(vec![2, 4, 6])).unwrap(),
                Years::all()
            )
        )
    )
}

#[test]
fn test_nom_invalid_days_of_week_list() {
    let expression = "* * * * * MON,TURTLE";
    assert!(schedule(expression).is_err());
}

#[test]
fn test_nom_valid_days_of_week_range() {
    let expression = "* * * * * MON-FRI";
    let res = schedule(expression).unwrap();
    assert_eq!(
        res,
        (
            "",
            ScheduleFields::new(
                Seconds::all(),
                Minutes::all(),
                Hours::all(),
                DaysOfMonth::all(),
                Months::all(),
                DaysOfWeek::from_ordinal_set(OrdinalSet::from_range(2, 6)).unwrap(),
                Years::all()
            )
        )
    )
}

#[test]
fn test_nom_invalid_days_of_week_range() {
    let expression = "* * * * * BEAR-OWL";
    assert!(schedule(expression).is_err());
}

#[test]
fn test_nom_invalid_period_with_range_specifier() {
    let expression = "10-12/10-12 * * * * ?";
    // is_space
    assert!(schedule(expression).is_err());
}

#[test]
fn test_nom_valid_days_of_month_any() {
    let expression = "* * * ? * *";
    let res = schedule(expression).unwrap();
    assert_eq!(
        res,
        (
            "",
            ScheduleFields::new(
                Seconds::all(),
                Minutes::all(),
                Hours::all(),
                DaysOfMonth::all(),
                Months::all(),
                DaysOfWeek::all(),
                Years::all()
            )
        )
    )
}

#[test]
fn test_nom_valid_days_of_week_any() {
    let expression = "* * * * * ?";
    let res = schedule(expression).unwrap();
    assert_eq!(
        res,
        (
            "",
            ScheduleFields::new(
                Seconds::all(),
                Minutes::all(),
                Hours::all(),
                DaysOfMonth::all(),
                Months::all(),
                DaysOfWeek::all(),
                Years::all()
            )
        )
    )
}

#[test]
fn test_nom_valid_days_of_month_any_days_of_week_specific() {
    let expression = "* * * ? * Mon,Thu";
    let res = schedule(expression).unwrap();
    assert_eq!(
        res,
        (
            "",
            ScheduleFields::new(
                Seconds::all(),
                Minutes::all(),
                Hours::all(),
                DaysOfMonth::all(),
                Months::all(),
                DaysOfWeek::from_ordinal_set(OrdinalSet::from_ordinals(vec![2,5])).unwrap(),
                Years::all()
            )
        )
    )
}

#[test]
fn test_nom_valid_days_of_week_any_days_of_month_specific() {
    let expression = "* * * 1,2 * ?";
    let res = schedule(expression).unwrap();
    assert_eq!(
        res,
        (
            "",
            ScheduleFields::new(
                Seconds::all(),
                Minutes::all(),
                Hours::all(),
                DaysOfMonth::from_ordinal_set(OrdinalSet::from_ordinals(vec![1,2])).unwrap(),
                Months::all(),
                DaysOfWeek::all(),
                Years::all()
            )
        )
    )
}

#[test]
fn test_nom_valid_dom_and_dow_any() {
    let expression = "* * * ? * ?";
    let res = schedule(expression).unwrap();
    assert_eq!(
        res,
        (
            "",
            ScheduleFields::new(
                Seconds::all(),
                Minutes::all(),
                Hours::all(),
                DaysOfMonth::all(),
                Months::all(),
                DaysOfWeek::all(),
                Years::all()
            )
        )
    )
}

#[test]
fn test_nom_invalid_other_fields_any() {
    let expression = "? * * * * *";
    assert!(schedule(expression).is_err());

    let expression = "* ? * * * *";
    assert!(schedule(expression).is_err());

    let expression = "* * ? * * *";
    assert!(schedule(expression).is_err());

    let expression = "* * * * ? *";
    assert!(schedule(expression).is_err());
}

#[test]
fn test_nom_invalid_trailing_characters() {
    let expression = "* * * * * *foo *";
    assert!(schedule(expression).is_err());

    let expression = "* * * * * * * foo";
    assert!(schedule(expression).is_err());
}
