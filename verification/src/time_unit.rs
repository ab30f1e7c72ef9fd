//! The seven time units: their bounds, their names, and how a written term
//! becomes a set of ordinals.

use vstd::prelude::*;
use vstd::string::StrSliceExecFns;
use crate::error::Error;
use crate::ordinal::Ordinal;
use crate::ordinal::OrdinalRun;
use crate::ordinal::progression;
use crate::specifier::RootSpecifier;
use crate::specifier::RootSpecifierView;
use crate::specifier::Specifier;
use crate::specifier::SpecifierView;

verus! {

/// The last year that the calendar can express.
pub const MAX_YEAR: Ordinal = 262_142;

/// The code of a character with the upper-case Latin letters folded onto the lower-case ones.
pub open spec fn folded(c: char) -> u32 {
    if 'A' <= c <= 'Z' {
        (c as u32 + 32) as u32
    } else {
        c as u32
    }
}

/// Whether `name` is `word` but for the case of its letters; `word` is written in lower case.
pub open spec fn spells(name: Seq<char>, word: Seq<char>) -> bool {
    name.len() == word.len() && forall|i: int|
        0 <= i < name.len() ==> folded(#[trigger] name[i]) == word[i] as u32
}

fn fold(c: char) -> (r: u32)
    ensures
        r == folded(c),
{
    if 'A' <= c && c <= 'Z' {
        c as u32 + 32
    } else {
        c as u32
    }
}

fn is_word(name: &str, word: &str) -> (r: bool)
    ensures
        r == spells(name@, word@),
{
    let n: usize = name.unicode_len();
    if n != word.unicode_len() {
        return false;
    }
    let mut i: usize = 0;
    while i < n
        invariant
            i <= n,
            n == name@.len(),
            n == word@.len(),
            forall|j: int| 0 <= j < i ==> folded(#[trigger] name@[j]) == word@[j] as u32,
        decreases n - i,
    {
        if fold(name.get_char(i)) != word.get_char(i) as u32 {
            return false;
        }
        i += 1;
    }
    true
}

/// The number of the month that `name` spells, January being 1.
pub open spec fn month_named(name: Seq<char>) -> Option<Ordinal> {
    if spells(name, "jan"@) || spells(name, "january"@) {
        Some(1u32)
    } else if spells(name, "feb"@) || spells(name, "february"@) {
        Some(2u32)
    } else if spells(name, "mar"@) || spells(name, "march"@) {
        Some(3u32)
    } else if spells(name, "apr"@) || spells(name, "april"@) {
        Some(4u32)
    } else if spells(name, "may"@) {
        Some(5u32)
    } else if spells(name, "jun"@) || spells(name, "june"@) {
        Some(6u32)
    } else if spells(name, "jul"@) || spells(name, "july"@) {
        Some(7u32)
    } else if spells(name, "aug"@) || spells(name, "august"@) {
        Some(8u32)
    } else if spells(name, "sep"@) || spells(name, "september"@) {
        Some(9u32)
    } else if spells(name, "oct"@) || spells(name, "october"@) {
        Some(10u32)
    } else if spells(name, "nov"@) || spells(name, "november"@) {
        Some(11u32)
    } else if spells(name, "dec"@) || spells(name, "december"@) {
        Some(12u32)
    } else {
        None
    }
}

/// The number of the weekday that `name` spells, Sunday being 1 and Saturday 7.
pub open spec fn weekday_named(name: Seq<char>) -> Option<Ordinal> {
    if spells(name, "sun"@) || spells(name, "sunday"@) {
        Some(1u32)
    } else if spells(name, "mon"@) || spells(name, "monday"@) {
        Some(2u32)
    } else if spells(name, "tue"@) || spells(name, "tues"@) || spells(name, "tuesday"@) {
        Some(3u32)
    } else if spells(name, "wed"@) || spells(name, "wednesday"@) {
        Some(4u32)
    } else if spells(name, "thu"@) || spells(name, "thurs"@) || spells(name, "thursday"@) {
        Some(5u32)
    } else if spells(name, "fri"@) || spells(name, "friday"@) {
        Some(6u32)
    } else if spells(name, "sat"@) || spells(name, "saturday"@) {
        Some(7u32)
    } else {
        None
    }
}

fn month_from_name(name: &str) -> (r: Option<Ordinal>)
    ensures
        r == month_named(name@),
{
    if is_word(name, "jan") || is_word(name, "january") {
        Some(1)
    } else if is_word(name, "feb") || is_word(name, "february") {
        Some(2)
    } else if is_word(name, "mar") || is_word(name, "march") {
        Some(3)
    } else if is_word(name, "apr") || is_word(name, "april") {
        Some(4)
    } else if is_word(name, "may") {
        Some(5)
    } else if is_word(name, "jun") || is_word(name, "june") {
        Some(6)
    } else if is_word(name, "jul") || is_word(name, "july") {
        Some(7)
    } else if is_word(name, "aug") || is_word(name, "august") {
        Some(8)
    } else if is_word(name, "sep") || is_word(name, "september") {
        Some(9)
    } else if is_word(name, "oct") || is_word(name, "october") {
        Some(10)
    } else if is_word(name, "nov") || is_word(name, "november") {
        Some(11)
    } else if is_word(name, "dec") || is_word(name, "december") {
        Some(12)
    } else {
        None
    }
}

fn weekday_from_name(name: &str) -> (r: Option<Ordinal>)
    ensures
        r == weekday_named(name@),
{
    if is_word(name, "sun") || is_word(name, "sunday") {
        Some(1)
    } else if is_word(name, "mon") || is_word(name, "monday") {
        Some(2)
    } else if is_word(name, "tue") || is_word(name, "tues") || is_word(name, "tuesday") {
        Some(3)
    } else if is_word(name, "wed") || is_word(name, "wednesday") {
        Some(4)
    } else if is_word(name, "thu") || is_word(name, "thurs") || is_word(name, "thursday") {
        Some(5)
    } else if is_word(name, "fri") || is_word(name, "friday") {
        Some(6)
    } else if is_word(name, "sat") || is_word(name, "saturday") {
        Some(7)
    } else {
        None
    }
}

/// A time unit of a schedule.
#[derive(Clone, Copy, Debug, PartialEq, Eq, Structural)]
pub enum TimeUnit {
    Seconds,
    Minutes,
    Hours,
    DaysOfMonth,
    Months,
    DaysOfWeek,
    Years,
}

impl TimeUnit {
    /// The least ordinal of the unit.
    pub open spec fn min(self) -> Ordinal {
        match self {
            TimeUnit::Seconds | TimeUnit::Minutes | TimeUnit::Hours | TimeUnit::Years => 0,
            TimeUnit::DaysOfMonth | TimeUnit::Months | TimeUnit::DaysOfWeek => 1,
        }
    }

    /// The greatest ordinal of the unit.
    pub open spec fn max(self) -> Ordinal {
        match self {
            TimeUnit::Seconds | TimeUnit::Minutes => 59,
            TimeUnit::Hours => 23,
            TimeUnit::DaysOfMonth => 31,
            TimeUnit::Months => 12,
            TimeUnit::DaysOfWeek => 7,
            TimeUnit::Years => MAX_YEAR,
        }
    }

    /// Every ordinal of the unit.
    pub open spec fn domain(self) -> Set<int> {
        progression(self.min() as int, self.max() as int, 1)
    }

    /// The ordinal that a name stands for in this unit.
    pub open spec fn named(self, name: Seq<char>) -> Option<Ordinal> {
        match self {
            TimeUnit::Months => month_named(name),
            TimeUnit::DaysOfWeek => weekday_named(name),
            _ => None,
        }
    }

    pub open spec fn admits(self, ordinal: Ordinal) -> bool {
        self.min() <= ordinal <= self.max()
    }

    /// The ends of the range between two names, or why there is none.
    pub open spec fn named_bounds(self, from: Seq<char>, to: Seq<char>) -> Result<
        (Ordinal, Ordinal),
        Error,
    > {
        match (self.named(from), self.named(to)) {
            (Some(a), Some(b)) => if a > b {
                Err(Error::RangeOrder { start: a, end: b })
            } else {
                Ok((a, b))
            },
            _ => Err(Error::Name),
        }
    }

    /// The least and the greatest ordinal that a specifier stands for, or why it stands for none.
    pub open spec fn bounds(self, specifier: SpecifierView) -> Result<(Ordinal, Ordinal), Error> {
        match specifier {
            SpecifierView::All => Ok((self.min(), self.max())),
            SpecifierView::Point(n) => if self.admits(n) {
                Ok((n, n))
            } else {
                Err(Error::Domain { value: n })
            },
            SpecifierView::Range(a, b) => if a > b {
                Err(Error::RangeOrder { start: a, end: b })
            } else if !self.admits(a) {
                Err(Error::Domain { value: a })
            } else if !self.admits(b) {
                Err(Error::Domain { value: b })
            } else {
                Ok((a, b))
            },
            SpecifierView::NamedRange(from, to) => self.named_bounds(from, to),
        }
    }

    /// The progression that a term stands for, or why it stands for none.
    ///
    /// A period starts at the least ordinal of its base and runs in steps to
    /// the end of the unit's domain; a step of zero is out of bounds.
    pub open spec fn run(self, term: RootSpecifierView) -> Result<OrdinalRun, Error> {
        match term {
            RootSpecifierView::Specifier(s) => match self.bounds(s) {
                Ok((a, b)) => Ok(OrdinalRun { first: a, last: b, step: 1 }),
                Err(e) => Err(e),
            },
            RootSpecifierView::Period(s, step) => match self.bounds(s) {
                Ok((a, b)) => if step == 0 {
                    Err(Error::Domain { value: 0 })
                } else {
                    Ok(OrdinalRun { first: a, last: self.max(), step })
                },
                Err(e) => Err(e),
            },
            RootSpecifierView::NamedPoint(name) => match self.named(name) {
                Some(n) => Ok(OrdinalRun { first: n, last: n, step: 1 }),
                None => Err(Error::Name),
            },
        }
    }

    /// The union of what the terms stand for, or the first reason why one stands for nothing.
    pub open spec fn union_of(self, terms: Seq<RootSpecifierView>) -> Result<Set<int>, Error>
        decreases terms.len(),
    {
        if terms.len() == 0 {
            Ok(Set::empty())
        } else {
            match self.union_of(terms.drop_last()) {
                Err(e) => Err(e),
                Ok(earlier) => match self.run(terms.last()) {
                    Err(e) => Err(e),
                    Ok(run) => Ok(
                        earlier.union(
                            progression(run.first as int, run.last as int, run.step as int),
                        ),
                    ),
                },
            }
        }
    }

    /// The set that a field stands for: the whole domain for a lone `*`,
    /// otherwise the union of its terms. A field without terms is no field.
    pub open spec fn resolve(self, terms: Seq<RootSpecifierView>) -> Result<Set<int>, Error> {
        if terms.len() == 0 {
            Err(Error::Syntax)
        } else if terms.len() == 1 && terms[0] == RootSpecifierView::Specifier(SpecifierView::All) {
            Ok(self.domain())
        } else {
            self.union_of(terms)
        }
    }

    pub fn inclusive_min(self) -> (r: Ordinal)
        ensures
            r == self.min(),
    {
        match self {
            TimeUnit::Seconds | TimeUnit::Minutes | TimeUnit::Hours | TimeUnit::Years => 0,
            TimeUnit::DaysOfMonth | TimeUnit::Months | TimeUnit::DaysOfWeek => 1,
        }
    }

    pub fn inclusive_max(self) -> (r: Ordinal)
        ensures
            r == self.max(),
    {
        match self {
            TimeUnit::Seconds | TimeUnit::Minutes => 59,
            TimeUnit::Hours => 23,
            TimeUnit::DaysOfMonth => 31,
            TimeUnit::Months => 12,
            TimeUnit::DaysOfWeek => 7,
            TimeUnit::Years => MAX_YEAR,
        }
    }

    /// The ordinal itself where the unit admits it.
    pub fn validate_ordinal(self, ordinal: Ordinal) -> (r: Result<Ordinal, Error>)
        ensures
            r == if self.admits(ordinal) {
                Ok::<Ordinal, Error>(ordinal)
            } else {
                Err::<Ordinal, Error>(Error::Domain { value: ordinal })
            },
    {
        if ordinal < self.inclusive_min() || ordinal > self.inclusive_max() {
            Err(Error::Domain { value: ordinal })
        } else {
            Ok(ordinal)
        }
    }

    /// The ordinal that a name stands for; the case of its letters is of no account.
    pub fn ordinal_from_name(self, name: &str) -> (r: Result<Ordinal, Error>)
        ensures
            r == match self.named(name@) {
                Some(n) => Ok::<Ordinal, Error>(n),
                None => Err::<Ordinal, Error>(Error::Name),
            },
            r matches Ok(n) ==> self.admits(n),
    {
        let found: Option<Ordinal> = match self {
            TimeUnit::Months => month_from_name(name),
            TimeUnit::DaysOfWeek => weekday_from_name(name),
            _ => None,
        };
        match found {
            Some(n) => Ok(n),
            None => Err(Error::Name),
        }
    }

    /// The least and the greatest ordinal that a specifier stands for.
    pub fn ordinals_from_specifier(self, specifier: &Specifier) -> (r: Result<
        (Ordinal, Ordinal),
        Error,
    >)
        ensures
            r == self.bounds(specifier@),
            r matches Ok(b) ==> self.min() <= b.0 <= b.1 <= self.max(),
    {
        match specifier {
            Specifier::All => Ok((self.inclusive_min(), self.inclusive_max())),
            Specifier::Point(n) => {
                match self.validate_ordinal(*n) {
                    Ok(v) => Ok((v, v)),
                    Err(e) => Err(e),
                }
            },
            Specifier::Range(a, b) => {
                if *a > *b {
                    return Err(Error::RangeOrder { start: *a, end: *b });
                }
                match self.validate_ordinal(*a) {
                    Ok(_) => {},
                    Err(e) => {
                        return Err(e);
                    },
                }
                match self.validate_ordinal(*b) {
                    Ok(_) => {},
                    Err(e) => {
                        return Err(e);
                    },
                }
                Ok((*a, *b))
            },
            Specifier::NamedRange(from, to) => {
                let a: Ordinal = match self.ordinal_from_name(from.as_str()) {
                    Ok(n) => n,
                    Err(e) => {
                        return Err(e);
                    },
                };
                let b: Ordinal = match self.ordinal_from_name(to.as_str()) {
                    Ok(n) => n,
                    Err(e) => {
                        return Err(e);
                    },
                };
                if a > b {
                    return Err(Error::RangeOrder { start: a, end: b });
                }
                Ok((a, b))
            },
        }
    }

    /// The progression that a term stands for.
    pub fn ordinals_from_root_specifier(self, term: &RootSpecifier) -> (r: Result<
        OrdinalRun,
        Error,
    >)
        ensures
            r == self.run(term@),
            r matches Ok(run) ==> run.wf() && self.min() <= run.first && run.last <= self.max(),
    {
        match term {
            RootSpecifier::Specifier(s) => {
                match self.ordinals_from_specifier(s) {
                    Ok((a, b)) => Ok(OrdinalRun { first: a, last: b, step: 1 }),
                    Err(e) => Err(e),
                }
            },
            RootSpecifier::Period(s, step) => {
                match self.ordinals_from_specifier(s) {
                    Ok((a, _)) => {
                        if *step == 0 {
                            Err(Error::Domain { value: 0 })
                        } else {
                            Ok(OrdinalRun { first: a, last: self.inclusive_max(), step: *step })
                        }
                    },
                    Err(e) => Err(e),
                }
            },
            RootSpecifier::NamedPoint(name) => {
                match self.ordinal_from_name(name.as_str()) {
                    Ok(n) => Ok(OrdinalRun { first: n, last: n, step: 1 }),
                    Err(e) => Err(e),
                }
            },
        }
    }
}

} // verus!
