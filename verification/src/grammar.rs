//! The grammar of schedule expressions, as functions on sequences of characters.
//!
//! Every production takes the text and a position and gives, where it
//! matches, what it read and the position behind it. Alternatives are tried
//! in the order in which they are written and the first that matches is
//! taken; a list stops in front of the first comma that no term follows.

use vstd::prelude::*;
use crate::error::Error;
use crate::ordinal::Ordinal;
use crate::schedule::ScheduleFieldsView;
use crate::specifier::RootSpecifierView;
use crate::specifier::SpecifierView;
use crate::time_unit::TimeUnit;

verus! {

pub open spec fn is_space(c: char) -> bool {
    c == ' ' || c == '\t' || c == '\n' || c == '\r'
}

pub open spec fn is_digit(c: char) -> bool {
    '0' <= c <= '9'
}

pub open spec fn is_letter(c: char) -> bool {
    ('a' <= c <= 'z') || ('A' <= c <= 'Z')
}

/// Whether the character `c` stands at `pos`.
pub open spec fn has(s: Seq<char>, pos: int, c: char) -> bool {
    0 <= pos < s.len() && s[pos] == c
}

/// The first position from `pos` on at which no white space stands.
pub open spec fn after_spaces(s: Seq<char>, pos: int) -> int
    decreases s.len() - pos,
{
    if 0 <= pos < s.len() && is_space(s[pos]) {
        after_spaces(s, pos + 1)
    } else {
        pos
    }
}

/// The first position from `pos` on at which no digit stands.
pub open spec fn after_digits(s: Seq<char>, pos: int) -> int
    decreases s.len() - pos,
{
    if 0 <= pos < s.len() && is_digit(s[pos]) {
        after_digits(s, pos + 1)
    } else {
        pos
    }
}

/// The first position from `pos` on at which no letter stands.
pub open spec fn after_letters(s: Seq<char>, pos: int) -> int
    decreases s.len() - pos,
{
    if 0 <= pos < s.len() && is_letter(s[pos]) {
        after_letters(s, pos + 1)
    } else {
        pos
    }
}

/// The number that the digits from `from` up to `to` write in base ten.
pub open spec fn decimal(s: Seq<char>, from: int, to: int) -> int
    decreases to - from,
{
    if from >= to {
        0
    } else {
        decimal(s, from, to - 1) * 10 + (s[to - 1] as int - '0' as int)
    }
}

/// A number that fits an ordinal, with the white space around it.
pub open spec fn ordinal_at(s: Seq<char>, pos: int) -> Option<(Ordinal, int)> {
    let start = after_spaces(s, pos);
    let end = after_digits(s, start);
    if start < end && decimal(s, start, end) <= u32::MAX {
        Some((decimal(s, start, end) as u32, after_spaces(s, end)))
    } else {
        None
    }
}

/// A word of letters, with the white space around it.
pub open spec fn name_at(s: Seq<char>, pos: int) -> Option<(Seq<char>, int)> {
    let start = after_spaces(s, pos);
    let end = after_letters(s, start);
    if start < end {
        Some((s.subrange(start, end), after_spaces(s, end)))
    } else {
        None
    }
}

/// `*`
pub open spec fn all_at(s: Seq<char>, pos: int) -> Option<(SpecifierView, int)> {
    if has(s, pos, '*') {
        Some((SpecifierView::All, pos + 1))
    } else {
        None
    }
}

/// `?`, which says what `*` says.
pub open spec fn any_at(s: Seq<char>, pos: int) -> Option<(SpecifierView, int)> {
    if has(s, pos, '?') {
        Some((SpecifierView::All, pos + 1))
    } else {
        None
    }
}

/// A number.
pub open spec fn point_at(s: Seq<char>, pos: int) -> Option<(SpecifierView, int)> {
    match ordinal_at(s, pos) {
        Some((n, end)) => Some((SpecifierView::Point(n), end)),
        None => None,
    }
}

/// Two numbers with `-` between them.
pub open spec fn range_at(s: Seq<char>, pos: int) -> Option<(SpecifierView, int)> {
    match ordinal_at(s, pos) {
        Some((a, dash)) => if has(s, dash, '-') {
            match ordinal_at(s, dash + 1) {
                Some((b, end)) => Some((SpecifierView::Range(a, b), end)),
                None => None,
            }
        } else {
            None
        },
        None => None,
    }
}

/// Two names with `-` between them.
pub open spec fn named_range_at(s: Seq<char>, pos: int) -> Option<(SpecifierView, int)> {
    match name_at(s, pos) {
        Some((a, dash)) => if has(s, dash, '-') {
            match name_at(s, dash + 1) {
                Some((b, end)) => Some((SpecifierView::NamedRange(a, b), end)),
                None => None,
            }
        } else {
            None
        },
        None => None,
    }
}

/// `*`, a range, a number or a range of names; with `with_any`, `?` before them.
pub open spec fn specifier_at(s: Seq<char>, pos: int, with_any: bool) -> Option<
    (SpecifierView, int),
> {
    if with_any && any_at(s, pos) is Some {
        any_at(s, pos)
    } else if all_at(s, pos) is Some {
        all_at(s, pos)
    } else if range_at(s, pos) is Some {
        range_at(s, pos)
    } else if point_at(s, pos) is Some {
        point_at(s, pos)
    } else {
        named_range_at(s, pos)
    }
}

/// A specifier, `/` and the step.
pub open spec fn period_at(s: Seq<char>, pos: int, with_any: bool) -> Option<
    (RootSpecifierView, int),
> {
    match specifier_at(s, pos, with_any) {
        Some((base, slash)) => if has(s, slash, '/') {
            match ordinal_at(s, slash + 1) {
                Some((step, end)) => Some((RootSpecifierView::Period(base, step), end)),
                None => None,
            }
        } else {
            None
        },
        None => None,
    }
}

/// A name standing alone.
pub open spec fn named_point_at(s: Seq<char>, pos: int) -> Option<(RootSpecifierView, int)> {
    match name_at(s, pos) {
        Some((name, end)) => Some((RootSpecifierView::NamedPoint(name), end)),
        None => None,
    }
}

/// One term: a period, else a specifier, else a name.
pub open spec fn root_specifier_at(s: Seq<char>, pos: int, with_any: bool) -> Option<
    (RootSpecifierView, int),
> {
    if period_at(s, pos, with_any) is Some {
        period_at(s, pos, with_any)
    } else {
        match specifier_at(s, pos, with_any) {
            Some((specifier, end)) => Some((RootSpecifierView::Specifier(specifier), end)),
            None => named_point_at(s, pos),
        }
    }
}

/// The terms that follow one already read, each behind a comma, and where they end.
pub open spec fn more_terms(s: Seq<char>, pos: int, with_any: bool) -> (Seq<RootSpecifierView>, int)
    decreases s.len() - pos,
{
    if has(s, pos, ',') {
        match root_specifier_at(s, pos + 1, with_any) {
            Some((term, next)) => if pos < next <= s.len() {
                (
                    seq![term] + more_terms(s, next, with_any).0,
                    more_terms(s, next, with_any).1,
                )
            } else {
                (Seq::empty(), pos)
            },
            None => (Seq::empty(), pos),
        }
    } else {
        (Seq::empty(), pos)
    }
}

/// One term or more, with commas between them.
pub open spec fn root_specifier_list_at(s: Seq<char>, pos: int, with_any: bool) -> Option<
    (Seq<RootSpecifierView>, int),
> {
    match root_specifier_at(s, pos, with_any) {
        Some((term, next)) => Some(
            (seq![term] + more_terms(s, next, with_any).0, more_terms(s, next, with_any).1),
        ),
        None => None,
    }
}

/// A field: a list of terms with the white space around it.
pub open spec fn field_at(s: Seq<char>, pos: int, with_any: bool) -> Option<
    (Seq<RootSpecifierView>, int),
> {
    match root_specifier_list_at(s, after_spaces(s, pos), with_any) {
        Some((terms, end)) => Some((terms, after_spaces(s, end))),
        None => None,
    }
}

/// The schedule that a list of written fields stands for: six or seven of
/// them, each resolved for its unit in the order seconds, minutes, hours,
/// days of the month, months, days of the week and years; without a seventh
/// field every year is meant. The first field that fails decides the error.
pub open spec fn resolve_fields(fields: Seq<Seq<RootSpecifierView>>) -> Result<
    ScheduleFieldsView,
    Error,
> {
    if fields.len() != 6 && fields.len() != 7 {
        Err(Error::FieldCount { found: fields.len() as usize })
    } else {
        match TimeUnit::Seconds.resolve(fields[0]) {
            Err(e) => Err(e),
            Ok(seconds) => match TimeUnit::Minutes.resolve(fields[1]) {
                Err(e) => Err(e),
                Ok(minutes) => match TimeUnit::Hours.resolve(fields[2]) {
                    Err(e) => Err(e),
                    Ok(hours) => match TimeUnit::DaysOfMonth.resolve(fields[3]) {
                        Err(e) => Err(e),
                        Ok(days_of_month) => match TimeUnit::Months.resolve(fields[4]) {
                            Err(e) => Err(e),
                            Ok(months) => match TimeUnit::DaysOfWeek.resolve(fields[5]) {
                                Err(e) => Err(e),
                                Ok(days_of_week) => match resolve_years(fields) {
                                    Err(e) => Err(e),
                                    Ok(years) => Ok(
                                        ScheduleFieldsView {
                                            seconds,
                                            minutes,
                                            hours,
                                            days_of_month,
                                            months,
                                            days_of_week,
                                            years,
                                        },
                                    ),
                                },
                            },
                        },
                    },
                },
            },
        }
    }
}

/// The years of a list of written fields: those of the seventh, or all.
pub open spec fn resolve_years(fields: Seq<Seq<RootSpecifierView>>) -> Result<Set<int>, Error> {
    if fields.len() >= 7 {
        TimeUnit::Years.resolve(fields[6])
    } else {
        Ok(TimeUnit::Years.domain())
    }
}

/// Whether `?` may stand in the field with this index.
pub open spec fn takes_any(index: int) -> bool {
    index == 3 || index == 5
}

/// The fields of an expression from the field with number `index` on, which
/// starts at `pos`. Fields are read until the text ends. A field must be
/// parted from the one before it by white space, and behind the seventh
/// nothing may follow.
pub open spec fn fields_from(s: Seq<char>, pos: int, index: int) -> Result<
    Seq<Seq<RootSpecifierView>>,
    Error,
>
    decreases 7 - index,
{
    if after_spaces(s, pos) >= s.len() {
        Ok(Seq::empty())
    } else if index >= 7 {
        Err(Error::Syntax)
    } else if index >= 1 && !(pos >= 1 && is_space(s[pos - 1])) {
        Err(Error::Syntax)
    } else {
        match field_at(s, pos, takes_any(index)) {
            None => Err(Error::Syntax),
            Some((terms, next)) => match fields_from(s, next, index + 1) {
                Err(e) => Err(e),
                Ok(rest) => Ok(seq![terms] + rest),
            },
        }
    }
}

/// The schedule that an expression written out in fields stands for.
pub open spec fn longhand(s: Seq<char>) -> Result<ScheduleFieldsView, Error> {
    match fields_from(s, 0, 0) {
        Err(e) => Err(e),
        Ok(fields) => resolve_fields(fields),
    }
}

/// The set that holds one ordinal.
pub open spec fn only(ordinal: int) -> Set<int> {
    Set::<int>::empty().insert(ordinal)
}

/// The schedule that a shorthand stands for.
pub open spec fn shorthand(s: Seq<char>) -> Option<ScheduleFieldsView> {
    let every = ScheduleFieldsView {
        seconds: TimeUnit::Seconds.domain(),
        minutes: TimeUnit::Minutes.domain(),
        hours: TimeUnit::Hours.domain(),
        days_of_month: TimeUnit::DaysOfMonth.domain(),
        months: TimeUnit::Months.domain(),
        days_of_week: TimeUnit::DaysOfWeek.domain(),
        years: TimeUnit::Years.domain(),
    };
    let hourly = ScheduleFieldsView { seconds: only(0), minutes: only(0), ..every };
    let daily = ScheduleFieldsView { hours: only(0), ..hourly };
    if s == "@yearly"@ {
        Some(ScheduleFieldsView { days_of_month: only(1), months: only(1), ..daily })
    } else if s == "@monthly"@ {
        Some(ScheduleFieldsView { days_of_month: only(1), ..daily })
    } else if s == "@weekly"@ {
        Some(ScheduleFieldsView { days_of_week: only(1), ..daily })
    } else if s == "@daily"@ {
        Some(daily)
    } else if s == "@hourly"@ {
        Some(hourly)
    } else {
        None
    }
}

/// The schedule that an expression stands for: that of the shorthand that it
/// is, else that of its fields.
pub open spec fn schedule(s: Seq<char>) -> Result<ScheduleFieldsView, Error> {
    match shorthand(s) {
        Some(fields) => Ok(fields),
        None => longhand(s),
    }
}

/// No field starts with `@`.
pub proof fn lemma_no_field_at_sign(s: Seq<char>)
    requires
        has(s, 0, '@'),
    ensures
        fields_from(s, 0, 0) == Err::<Seq<Seq<RootSpecifierView>>, Error>(Error::Syntax),
        longhand(s) == Err::<ScheduleFieldsView, Error>(Error::Syntax),
{
    assert(after_spaces(s, 0) == 0);
    assert(after_digits(s, 0) == 0);
    assert(after_letters(s, 0) == 0);
    assert(ordinal_at(s, 0) is None);
    assert(name_at(s, 0) is None);
    assert(specifier_at(s, 0, false) is None);
    assert(root_specifier_at(s, 0, false) is None);
    assert(field_at(s, 0, false) is None);
}

/// A shorthand is not an expression written in fields.
pub proof fn lemma_shorthand_has_no_fields(s: Seq<char>)
    requires
        shorthand(s) is Some,
    ensures
        fields_from(s, 0, 0) is Err,
{
    reveal_strlit("@yearly");
    reveal_strlit("@monthly");
    reveal_strlit("@weekly");
    reveal_strlit("@daily");
    reveal_strlit("@hourly");
    lemma_no_field_at_sign(s);
}

/// An expression is never read as more than seven fields.
pub proof fn lemma_at_most_seven_fields(s: Seq<char>, pos: int, index: int)
    requires
        0 <= index <= 7,
    ensures
        fields_from(s, pos, index) matches Ok(fields) ==> fields.len() <= 7 - index,
    decreases 7 - index,
{
    if after_spaces(s, pos) >= s.len() {
    } else if index >= 7 {
    } else if index >= 1 && !(pos >= 1 && is_space(s[pos - 1])) {
    } else {
        match field_at(s, pos, takes_any(index)) {
            None => {},
            Some((terms, next)) => {
                lemma_at_most_seven_fields(s, next, index + 1);
            },
        }
    }
}

/// An expression that is written in fields, but not in six or seven of
/// them, fails with their number, whatever the fields hold.
pub proof fn lemma_wrong_number_of_fields(s: Seq<char>, fields: Seq<Seq<RootSpecifierView>>)
    requires
        fields_from(s, 0, 0) == Ok::<Seq<Seq<RootSpecifierView>>, Error>(fields),
        fields.len() != 6 && fields.len() != 7,
    ensures
        fields.len() < 6,
        schedule(s) == Err::<ScheduleFieldsView, Error>(
            Error::FieldCount { found: fields.len() as usize },
        ),
{
    lemma_at_most_seven_fields(s, 0, 0);
    if shorthand(s) is Some {
        lemma_shorthand_has_no_fields(s);
    }
}

/// A run of digits ends inside the text and holds digits only.
pub proof fn lemma_after_digits_bounds(s: Seq<char>, pos: int)
    requires
        0 <= pos <= s.len(),
    ensures
        pos <= after_digits(s, pos) <= s.len(),
        forall|i: int| pos <= i < after_digits(s, pos) ==> is_digit(#[trigger] s[i]),
    decreases s.len() - pos,
{
    if pos < s.len() && is_digit(s[pos]) {
        lemma_after_digits_bounds(s, pos + 1);
    }
}

} // verus!
