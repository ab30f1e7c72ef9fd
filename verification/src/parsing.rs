//! Reading schedule expressions.

use vstd::prelude::*;
use vstd::string::StrSliceExecFns;
use crate::error::Error;
use crate::grammar;
use crate::ordinal::Ordinal;
use crate::schedule::ScheduleFields;
use crate::schedule::ScheduleFieldsView;
use crate::specifier::RootSpecifier;
use crate::specifier::RootSpecifierView;
use crate::specifier::Specifier;
use crate::unit_field::DaysOfMonth;
use crate::unit_field::DaysOfWeek;
use crate::unit_field::Hours;
use crate::unit_field::Minutes;
use crate::unit_field::Months;
use crate::unit_field::Seconds;
use crate::unit_field::Years;

verus! {

/// One field of an expression: its terms in the order in which they were written.
#[derive(Debug, PartialEq, Eq)]
pub struct Field {
    pub specifiers: Vec<RootSpecifier>,
}

impl View for Field {
    type V = Seq<RootSpecifierView>;

    open spec fn view(&self) -> Seq<RootSpecifierView> {
        self.specifiers@.map_values(|s: RootSpecifier| s@)
    }
}

/// Whether what was read, and how far, is what the grammar says.
pub open spec fn reads<T: View>(found: Option<(T, usize)>, expected: Option<(T::V, int)>) -> bool {
    match (found, expected) {
        (Some((value, end)), Some((model, at))) => value@ == model && end == at,
        (None, None) => true,
        _ => false,
    }
}

/// Whether what was read lies behind `pos` and inside a text of `len` characters.
pub open spec fn ends_within<T>(found: Option<(T, usize)>, pos: usize, len: nat) -> bool {
    found matches Some((_, end)) ==> pos < end <= len
}

fn skip_spaces(text: &str, pos: usize) -> (r: usize)
    requires
        pos <= text@.len(),
    ensures
        r == grammar::after_spaces(text@, pos as int),
        pos <= r <= text@.len(),
{
    let n: usize = text.unicode_len();
    let mut i: usize = pos;
    while i < n
        invariant
            pos <= i <= n,
            n == text@.len(),
            grammar::after_spaces(text@, i as int) == grammar::after_spaces(text@, pos as int),
        decreases n - i,
    {
        let c: char = text.get_char(i);
        if !(c == ' ' || c == '\t' || c == '\n' || c == '\r') {
            return i;
        }
        i += 1;
    }
    i
}

fn skip_digits(text: &str, pos: usize) -> (r: usize)
    requires
        pos <= text@.len(),
    ensures
        r == grammar::after_digits(text@, pos as int),
        pos <= r <= text@.len(),
{
    let n: usize = text.unicode_len();
    let mut i: usize = pos;
    while i < n
        invariant
            pos <= i <= n,
            n == text@.len(),
            grammar::after_digits(text@, i as int) == grammar::after_digits(text@, pos as int),
        decreases n - i,
    {
        let c: char = text.get_char(i);
        if !('0' <= c && c <= '9') {
            return i;
        }
        i += 1;
    }
    i
}

fn skip_letters(text: &str, pos: usize) -> (r: usize)
    requires
        pos <= text@.len(),
    ensures
        r == grammar::after_letters(text@, pos as int),
        pos <= r <= text@.len(),
{
    let n: usize = text.unicode_len();
    let mut i: usize = pos;
    while i < n
        invariant
            pos <= i <= n,
            n == text@.len(),
            grammar::after_letters(text@, i as int) == grammar::after_letters(text@, pos as int),
        decreases n - i,
    {
        let c: char = text.get_char(i);
        if !(('a' <= c && c <= 'z') || ('A' <= c && c <= 'Z')) {
            return i;
        }
        i += 1;
    }
    i
}

/// Whether the character `c` stands at `pos`.
fn stands_at(text: &str, pos: usize, c: char) -> (r: bool)
    requires
        pos <= text@.len(),
    ensures
        r == grammar::has(text@, pos as int, c),
        r ==> pos < usize::MAX,
{
    pos < text.unicode_len() && text.get_char(pos) == c
}

fn ordinal_at(text: &str, pos: usize) -> (r: Option<(Ordinal, usize)>)
    requires
        pos <= text@.len(),
    ensures
        reads(r, grammar::ordinal_at(text@, pos as int)),
        ends_within(r, pos, text@.len()),
{
    let start: usize = skip_spaces(text, pos);
    let end: usize = skip_digits(text, start);
    if start >= end {
        return None;
    }
    proof {
        grammar::lemma_after_digits_bounds(text@, start as int);
    }
    let mut value: u64 = 0;
    let mut fits: bool = true;
    let mut i: usize = start;
    while i < end
        invariant
            start <= i <= end <= text@.len(),
            forall|k: int| start <= k < end ==> grammar::is_digit(#[trigger] text@[k]),
            fits ==> value == grammar::decimal(text@, start as int, i as int) && value
                <= u32::MAX,
            !fits ==> grammar::decimal(text@, start as int, i as int) > u32::MAX,
        decreases end - i,
    {
        let c: char = text.get_char(i);
        assert(grammar::is_digit(text@[i as int]));
        let digit: u32 = c as u32 - '0' as u32;
        if fits {
            let next: u64 = value * 10 + digit as u64;
            if next > u32::MAX as u64 {
                fits = false;
            } else {
                value = next;
            }
        }
        i += 1;
    }
    if !fits {
        return None;
    }
    let after: usize = skip_spaces(text, end);
    Some((value as u32, after))
}

fn name_at(text: &str, pos: usize) -> (r: Option<(String, usize)>)
    requires
        pos <= text@.len(),
    ensures
        reads(r, grammar::name_at(text@, pos as int)),
        ends_within(r, pos, text@.len()),
{
    let start: usize = skip_spaces(text, pos);
    let end: usize = skip_letters(text, start);
    if start >= end {
        return None;
    }
    let name: String = text.substring_char(start, end).to_owned();
    let after: usize = skip_spaces(text, end);
    Some((name, after))
}

fn point_at(text: &str, pos: usize) -> (r: Option<(Specifier, usize)>)
    requires
        pos <= text@.len(),
    ensures
        reads(r, grammar::point_at(text@, pos as int)),
        ends_within(r, pos, text@.len()),
{
    match ordinal_at(text, pos) {
        Some((n, end)) => Some((Specifier::Point(n), end)),
        None => None,
    }
}

fn range_at(text: &str, pos: usize) -> (r: Option<(Specifier, usize)>)
    requires
        pos <= text@.len(),
    ensures
        reads(r, grammar::range_at(text@, pos as int)),
        ends_within(r, pos, text@.len()),
{
    match ordinal_at(text, pos) {
        Some((a, dash)) => {
            if !stands_at(text, dash, '-') {
                return None;
            }
            match ordinal_at(text, dash + 1) {
                Some((b, end)) => Some((Specifier::Range(a, b), end)),
                None => None,
            }
        },
        None => None,
    }
}

fn named_range_at(text: &str, pos: usize) -> (r: Option<(Specifier, usize)>)
    requires
        pos <= text@.len(),
    ensures
        reads(r, grammar::named_range_at(text@, pos as int)),
        ends_within(r, pos, text@.len()),
{
    match name_at(text, pos) {
        Some((a, dash)) => {
            if !stands_at(text, dash, '-') {
                return None;
            }
            match name_at(text, dash + 1) {
                Some((b, end)) => Some((Specifier::NamedRange(a, b), end)),
                None => None,
            }
        },
        None => None,
    }
}

fn specifier_at(text: &str, pos: usize, with_any: bool) -> (r: Option<(Specifier, usize)>)
    requires
        pos <= text@.len(),
    ensures
        reads(r, grammar::specifier_at(text@, pos as int, with_any)),
        ends_within(r, pos, text@.len()),
{
    if with_any && stands_at(text, pos, '?') {
        return Some((Specifier::All, pos + 1));
    }
    if stands_at(text, pos, '*') {
        return Some((Specifier::All, pos + 1));
    }
    match range_at(text, pos) {
        Some(found) => {
            return Some(found);
        },
        None => {},
    }
    match point_at(text, pos) {
        Some(found) => {
            return Some(found);
        },
        None => {},
    }
    named_range_at(text, pos)
}

fn period_at(text: &str, pos: usize, with_any: bool) -> (r: Option<(RootSpecifier, usize)>)
    requires
        pos <= text@.len(),
    ensures
        reads(r, grammar::period_at(text@, pos as int, with_any)),
        ends_within(r, pos, text@.len()),
{
    match specifier_at(text, pos, with_any) {
        Some((base, slash)) => {
            if !stands_at(text, slash, '/') {
                return None;
            }
            match ordinal_at(text, slash + 1) {
                Some((step, end)) => Some((RootSpecifier::Period(base, step), end)),
                None => None,
            }
        },
        None => None,
    }
}

fn named_point_at(text: &str, pos: usize) -> (r: Option<(RootSpecifier, usize)>)
    requires
        pos <= text@.len(),
    ensures
        reads(r, grammar::named_point_at(text@, pos as int)),
        ends_within(r, pos, text@.len()),
{
    match name_at(text, pos) {
        Some((name, end)) => Some((RootSpecifier::NamedPoint(name), end)),
        None => None,
    }
}

fn root_specifier_at(text: &str, pos: usize, with_any: bool) -> (r: Option<(RootSpecifier, usize)>)
    requires
        pos <= text@.len(),
    ensures
        reads(r, grammar::root_specifier_at(text@, pos as int, with_any)),
        ends_within(r, pos, text@.len()),
{
    match period_at(text, pos, with_any) {
        Some(found) => {
            return Some(found);
        },
        None => {},
    }
    match specifier_at(text, pos, with_any) {
        Some((specifier, end)) => Some((RootSpecifier::Specifier(specifier), end)),
        None => named_point_at(text, pos),
    }
}

fn root_specifier_list_at(text: &str, pos: usize, with_any: bool) -> (r: Option<(Field, usize)>)
    requires
        pos <= text@.len(),
    ensures
        reads(r, grammar::root_specifier_list_at(text@, pos as int, with_any)),
        ends_within(r, pos, text@.len()),
{
    let (first, start) = match root_specifier_at(text, pos, with_any) {
        Some(found) => found,
        None => {
            return None;
        },
    };
    let ghost whole = grammar::root_specifier_list_at(text@, pos as int, with_any).unwrap();
    let mut terms: Vec<RootSpecifier> = Vec::new();
    terms.push(first);
    let mut at: usize = start;
    assert(terms@.map_values(|s: RootSpecifier| s@) =~= seq![first@]);
    loop
        invariant
            pos < at <= text@.len(),
            grammar::root_specifier_list_at(text@, pos as int, with_any) == Some(whole),
            terms@.map_values(|s: RootSpecifier| s@) + grammar::more_terms(
                text@,
                at as int,
                with_any,
            ).0 == whole.0,
            grammar::more_terms(text@, at as int, with_any).1 == whole.1,
        decreases text@.len() - at,
    {
        if !stands_at(text, at, ',') {
            assert(terms@.map_values(|s: RootSpecifier| s@) + Seq::<RootSpecifierView>::empty()
                =~= terms@.map_values(|s: RootSpecifier| s@));
            return Some((Field { specifiers: terms }, at));
        }
        match root_specifier_at(text, at + 1, with_any) {
            Some((term, next)) => {
                let ghost before = terms@.map_values(|s: RootSpecifier| s@);
                let ghost tail = grammar::more_terms(text@, next as int, with_any).0;
                terms.push(term);
                proof {
                    assert(terms@.map_values(|s: RootSpecifier| s@) =~= before.push(term@));
                    assert(before.push(term@) + tail =~= before + (seq![term@] + tail));
                }
                at = next;
            },
            None => {
                assert(terms@.map_values(|s: RootSpecifier| s@) + Seq::<
                    RootSpecifierView,
                >::empty() =~= terms@.map_values(|s: RootSpecifier| s@));
                return Some((Field { specifiers: terms }, at));
            },
        }
    }
}

fn field_at(text: &str, pos: usize, with_any: bool) -> (r: Option<(Field, usize)>)
    requires
        pos <= text@.len(),
    ensures
        reads(r, grammar::field_at(text@, pos as int, with_any)),
        ends_within(r, pos, text@.len()),
{
    let start: usize = skip_spaces(text, pos);
    match root_specifier_list_at(text, start, with_any) {
        Some((terms, end)) => {
            let after: usize = skip_spaces(text, end);
            Some((terms, after))
        },
        None => None,
    }
}

/// Whether `r` hands on what the grammar reads at the start of `x`, with the
/// text behind it, and is a syntax error where the grammar reads nothing.
pub open spec fn parsed<T: View>(
    r: Result<(&str, T), Error>,
    x: Seq<char>,
    expected: Option<(T::V, int)>,
) -> bool {
    match expected {
        Some((model, end)) => r matches Ok((rest, value)) && value@ == model && rest@
            == x.subrange(end, x.len() as int),
        None => r matches Err(e) && e == Error::Syntax,
    }
}

fn with_rest<'a, T: View>(x: &'a str, found: Option<(T, usize)>) -> (r: Result<
    (&'a str, T),
    Error,
>)
    requires
        found matches Some((_, end)) ==> end <= x@.len(),
    ensures
        match found {
            Some((value, end)) => r matches Ok((rest, v)) && v == value && rest@ == x@.subrange(
                end as int,
                x@.len() as int,
            ),
            None => r matches Err(e) && e == Error::Syntax,
        },
{
    match found {
        Some((value, end)) => {
            let rest: &str = x.substring_char(end, x.unicode_len());
            Ok((rest, value))
        },
        None => Err(Error::Syntax),
    }
}

/// Reads a number standing alone.
pub fn point(x: &str) -> (r: Result<(&str, Specifier), Error>)
    ensures
        parsed(r, x@, grammar::point_at(x@, 0)),
{
    with_rest(x, point_at(x, 0))
}

/// Reads a name standing alone.
pub fn named_point(x: &str) -> (r: Result<(&str, RootSpecifier), Error>)
    ensures
        parsed(r, x@, grammar::named_point_at(x@, 0)),
{
    with_rest(x, named_point_at(x, 0))
}

/// Reads a period: a specifier, `/` and the step.
pub fn period(x: &str) -> (r: Result<(&str, RootSpecifier), Error>)
    ensures
        parsed(r, x@, grammar::period_at(x@, 0, false)),
{
    with_rest(x, period_at(x, 0, false))
}

/// Reads a period whose base may be `?`.
pub fn period_with_any(x: &str) -> (r: Result<(&str, RootSpecifier), Error>)
    ensures
        parsed(r, x@, grammar::period_at(x@, 0, true)),
{
    with_rest(x, period_at(x, 0, true))
}

/// Reads two numbers with `-` between them.
pub fn range(x: &str) -> (r: Result<(&str, Specifier), Error>)
    ensures
        parsed(r, x@, grammar::range_at(x@, 0)),
{
    with_rest(x, range_at(x, 0))
}

/// Reads two names with `-` between them.
pub fn named_range(x: &str) -> (r: Result<(&str, Specifier), Error>)
    ensures
        parsed(r, x@, grammar::named_range_at(x@, 0)),
{
    with_rest(x, named_range_at(x, 0))
}

/// Reads one field.
pub fn field(x: &str) -> (r: Result<(&str, Field), Error>)
    ensures
        parsed(r, x@, grammar::field_at(x@, 0, false)),
{
    with_rest(x, field_at(x, 0, false))
}

/// Reads one field in which `?` may stand.
pub fn field_with_any(x: &str) -> (r: Result<(&str, Field), Error>)
    ensures
        parsed(r, x@, grammar::field_at(x@, 0, true)),
{
    with_rest(x, field_at(x, 0, true))
}

/// The fields of a list as the grammar knows them.
pub open spec fn models(fields: Seq<Field>) -> Seq<Seq<RootSpecifierView>> {
    fields.map_values(|f: Field| f@)
}

/// Whether `r` is the proper schedule that was expected, or the error that was.
pub open spec fn resolved(
    r: Result<ScheduleFields, Error>,
    expected: Result<ScheduleFieldsView, Error>,
) -> bool {
    match expected {
        Ok(sets) => r matches Ok(fields) && fields.wf() && fields@ == sets,
        Err(e) => r matches Err(x) && x == e,
    }
}

/// Whether `r` is the proper schedule that was expected with nothing left of
/// the text, or the error that was.
pub open spec fn resolved_whole(
    r: Result<(&str, ScheduleFields), Error>,
    expected: Result<ScheduleFieldsView, Error>,
) -> bool {
    match expected {
        Ok(sets) => r matches Ok((rest, fields)) && rest@ == Seq::<char>::empty() && fields.wf()
            && fields@ == sets,
        Err(e) => r matches Err(x) && x == e,
    }
}

impl ScheduleFields {
    /// The schedule of six or seven written fields.
    pub fn from_field_list(fields: Vec<Field>) -> (r: Result<ScheduleFields, Error>)
        ensures
            resolved(r, grammar::resolve_fields(models(fields@))),
            fields.len() != 6 && fields.len() != 7 ==> r == Err::<ScheduleFields, Error>(
                Error::FieldCount { found: fields.len() },
            ),
    {
        let number_of_fields: usize = fields.len();
        if number_of_fields != 6 && number_of_fields != 7 {
            return Err(Error::FieldCount { found: number_of_fields });
        }
        let seconds = match Seconds::from_field(&fields[0]) {
            Ok(field) => field,
            Err(e) => {
                return Err(e);
            },
        };
        let minutes = match Minutes::from_field(&fields[1]) {
            Ok(field) => field,
            Err(e) => {
                return Err(e);
            },
        };
        let hours = match Hours::from_field(&fields[2]) {
            Ok(field) => field,
            Err(e) => {
                return Err(e);
            },
        };
        let days_of_month = match DaysOfMonth::from_field(&fields[3]) {
            Ok(field) => field,
            Err(e) => {
                return Err(e);
            },
        };
        let months = match Months::from_field(&fields[4]) {
            Ok(field) => field,
            Err(e) => {
                return Err(e);
            },
        };
        let days_of_week = match DaysOfWeek::from_field(&fields[5]) {
            Ok(field) => field,
            Err(e) => {
                return Err(e);
            },
        };
        let years = if number_of_fields == 7 {
            match Years::from_field(&fields[6]) {
                Ok(field) => field,
                Err(e) => {
                    return Err(e);
                },
            }
        } else {
            Years::all()
        };
        Ok(ScheduleFields::new(seconds, minutes, hours, days_of_month, months, days_of_week, years))
    }
}

/// Reads the fields of an expression to the end of the text.
fn fields_of(text: &str) -> (r: Result<Vec<Field>, Error>)
    ensures
        match grammar::fields_from(text@, 0, 0) {
            Ok(expected) => r matches Ok(fields) && models(fields@) == expected,
            Err(e) => r matches Err(x) && x == e,
        },
{
    let n: usize = text.unicode_len();
    let ghost whole = grammar::fields_from(text@, 0, 0);
    let mut fields: Vec<Field> = Vec::new();
    let mut pos: usize = 0;
    assert(models(fields@) =~= Seq::<Seq<RootSpecifierView>>::empty());
    loop
        invariant
            n == text@.len(),
            pos <= n,
            fields.len() <= 7,
            fields.len() >= 1 ==> pos >= 1,
            whole == grammar::fields_from(text@, 0, 0),
            match grammar::fields_from(text@, pos as int, fields.len() as int) {
                Ok(rest) => whole == Ok::<Seq<Seq<RootSpecifierView>>, Error>(
                    models(fields@) + rest,
                ),
                Err(e) => whole == Err::<Seq<Seq<RootSpecifierView>>, Error>(e),
            },
        decreases 7 - fields.len(),
    {
        let index: usize = fields.len();
        if skip_spaces(text, pos) >= n {
            assert(models(fields@) + Seq::<Seq<RootSpecifierView>>::empty() =~= models(fields@));
            return Ok(fields);
        }
        if index >= 7 {
            return Err(Error::Syntax);
        }
        if index >= 1 {
            let before: char = text.get_char(pos - 1);
            if !(before == ' ' || before == '\t' || before == '\n' || before == '\r') {
                return Err(Error::Syntax);
            }
        }
        match field_at(text, pos, index == 3 || index == 5) {
            Some((field, next)) => {
                let ghost earlier = models(fields@);
                let ghost rest = grammar::fields_from(text@, next as int, index + 1);
                fields.push(field);
                proof {
                    assert(models(fields@) =~= earlier.push(field@));
                    match rest {
                        Ok(later) => {
                            assert(earlier.push(field@) + later =~= earlier + (seq![field@]
                                + later));
                        },
                        Err(_) => {},
                    }
                }
                pos = next;
            },
            None => {
                return Err(Error::Syntax);
            },
        }
    }
}

/// Whether the two texts are the same.
fn same_text(a: &str, b: &str) -> (r: bool)
    ensures
        r == (a@ == b@),
{
    let n: usize = a.unicode_len();
    if n != b.unicode_len() {
        return false;
    }
    let mut i: usize = 0;
    while i < n
        invariant
            i <= n,
            n == a@.len(),
            n == b@.len(),
            forall|j: int| 0 <= j < i ==> a@[j] == b@[j],
        decreases n - i,
    {
        if a.get_char(i) != b.get_char(i) {
            return false;
        }
        i += 1;
    }
    assert(a@ =~= b@);
    true
}

/// The schedule of a shorthand.
fn shorthand_fields(text: &str) -> (r: Option<ScheduleFields>)
    ensures
        match grammar::shorthand(text@) {
            Some(sets) => r matches Some(fields) && fields.wf() && fields@ == sets,
            None => r is None,
        },
{
    if same_text(text, "@yearly") {
        Some(
            ScheduleFields::new(
                Seconds::single(0),
                Minutes::single(0),
                Hours::single(0),
                DaysOfMonth::single(1),
                Months::single(1),
                DaysOfWeek::all(),
                Years::all(),
            ),
        )
    } else if same_text(text, "@monthly") {
        Some(
            ScheduleFields::new(
                Seconds::single(0),
                Minutes::single(0),
                Hours::single(0),
                DaysOfMonth::single(1),
                Months::all(),
                DaysOfWeek::all(),
                Years::all(),
            ),
        )
    } else if same_text(text, "@weekly") {
        Some(
            ScheduleFields::new(
                Seconds::single(0),
                Minutes::single(0),
                Hours::single(0),
                DaysOfMonth::all(),
                Months::all(),
                DaysOfWeek::single(1),
                Years::all(),
            ),
        )
    } else if same_text(text, "@daily") {
        Some(
            ScheduleFields::new(
                Seconds::single(0),
                Minutes::single(0),
                Hours::single(0),
                DaysOfMonth::all(),
                Months::all(),
                DaysOfWeek::all(),
                Years::all(),
            ),
        )
    } else if same_text(text, "@hourly") {
        Some(
            ScheduleFields::new(
                Seconds::single(0),
                Minutes::single(0),
                Hours::all(),
                DaysOfMonth::all(),
                Months::all(),
                DaysOfWeek::all(),
                Years::all(),
            ),
        )
    } else {
        None
    }
}

/// The schedule with the empty text that is left behind a whole expression.
fn whole<'a>(x: &'a str, fields: ScheduleFields) -> (r: Result<(&'a str, ScheduleFields), Error>)
    ensures
        r matches Ok((rest, f)) && rest@ == Seq::<char>::empty() && f == fields,
{
    let n: usize = x.unicode_len();
    let rest: &str = x.substring_char(n, n);
    assert(rest@ =~= Seq::<char>::empty());
    Ok((rest, fields))
}

/// Reads a shorthand: one of `@yearly`, `@monthly`, `@weekly`, `@daily` and
/// `@hourly`, with nothing before or behind it.
pub fn shorthand(x: &str) -> (r: Result<(&str, ScheduleFields), Error>)
    ensures
        resolved_whole(
            r,
            match grammar::shorthand(x@) {
                Some(sets) => Ok(sets),
                None => Err(Error::Syntax),
            },
        ),
{
    match shorthand_fields(x) {
        Some(fields) => whole(x, fields),
        None => Err(Error::Syntax),
    }
}

/// Reads an expression of six or seven fields.
pub fn longhand(x: &str) -> (r: Result<(&str, ScheduleFields), Error>)
    ensures
        resolved_whole(r, grammar::longhand(x@)),
{
    let fields = match fields_of(x) {
        Ok(fields) => fields,
        Err(e) => {
            return Err(e);
        },
    };
    match ScheduleFields::from_field_list(fields) {
        Ok(fields) => whole(x, fields),
        Err(e) => Err(e),
    }
}

/// Reads an expression: a shorthand, or six or seven fields.
pub fn schedule(x: &str) -> (r: Result<(&str, ScheduleFields), Error>)
    ensures
        resolved_whole(r, grammar::schedule(x@)),
{
    match shorthand_fields(x) {
        Some(fields) => whole(x, fields),
        None => longhand(x),
    }
}

} // verus!
