//! The resolved field of one time unit: a set of ordinals of that unit that
//! is never empty and never leaves the unit's domain.

use vstd::prelude::*;
use crate::error::Error;
use crate::ordinal::Ordinal;
use crate::ordinal::OrdinalRun;
use crate::ordinal::OrdinalSet;
use crate::ordinal::progression;
use crate::parsing::Field;
use crate::specifier::RootSpecifier;
use crate::specifier::RootSpecifierView;
use crate::specifier::Specifier;
use crate::time_unit::TimeUnit;

verus! {

/// The unit that a code stands for.
pub open spec fn unit_of(code: u8) -> TimeUnit {
    if code == 0 {
        TimeUnit::Seconds
    } else if code == 1 {
        TimeUnit::Minutes
    } else if code == 2 {
        TimeUnit::Hours
    } else if code == 3 {
        TimeUnit::DaysOfMonth
    } else if code == 4 {
        TimeUnit::Months
    } else if code == 5 {
        TimeUnit::DaysOfWeek
    } else {
        TimeUnit::Years
    }
}

/// Whether a set can be the field of a unit.
pub open spec fn fits(unit: TimeUnit, ordinals: Set<int>) -> bool {
    ordinals != Set::<int>::empty() && ordinals.subset_of(unit.domain())
}

/// The resolved field of the unit with code `U`.
#[derive(Debug)]
pub struct TimeUnitField<const U: u8> {
    ordinals: OrdinalSet,
}

pub type Seconds = TimeUnitField<0>;

pub type Minutes = TimeUnitField<1>;

pub type Hours = TimeUnitField<2>;

pub type DaysOfMonth = TimeUnitField<3>;

pub type Months = TimeUnitField<4>;

pub type DaysOfWeek = TimeUnitField<5>;

pub type Years = TimeUnitField<6>;

impl<const U: u8> View for TimeUnitField<U> {
    type V = Set<int>;

    closed spec fn view(&self) -> Set<int> {
        self.ordinals@
    }
}

/// A progression inside a domain is a subset of it and has a member.
proof fn lemma_run_fits(unit: TimeUnit, run: OrdinalRun)
    requires
        run.wf(),
        unit.min() <= run.first,
        run.last <= unit.max(),
    ensures
        progression(run.first as int, run.last as int, run.step as int).subset_of(unit.domain()),
        progression(run.first as int, run.last as int, run.step as int).contains(run.first as int),
{
    vstd::arithmetic::div_mod::lemma_small_mod(0, run.step as nat);
    assert forall|x: int|
        progression(run.first as int, run.last as int, run.step as int).contains(
            x,
        ) implies unit.domain().contains(x) by {
        vstd::arithmetic::div_mod::lemma_mod_pos_bound(x - unit.min(), 1);
    }
}

/// Once a term has failed, the terms behind it change nothing.
proof fn lemma_first_failure_stands(unit: TimeUnit, terms: Seq<RootSpecifierView>, n: int)
    requires
        0 <= n <= terms.len(),
        unit.union_of(terms.take(n)) is Err,
    ensures
        unit.union_of(terms) == unit.union_of(terms.take(n)),
    decreases terms.len() - n,
{
    if n == terms.len() {
        assert(terms.take(n) =~= terms);
    } else {
        assert(terms.drop_last().take(n) =~= terms.take(n));
        lemma_first_failure_stands(unit, terms.drop_last(), n);
    }
}

impl TimeUnit {
    /// The set that the terms of a field stand for.
    pub fn ordinals_from_field(self, field: &Field) -> (r: Result<OrdinalSet, Error>)
        ensures
            match self.resolve(field@) {
                Ok(set) => r matches Ok(found) && found@ == set && fits(self, set),
                Err(e) => r matches Err(x) && x == e,
            },
    {
        let n: usize = field.specifiers.len();
        if n == 0 {
            return Err(Error::Syntax);
        }
        if n == 1 {
            match &field.specifiers[0] {
                RootSpecifier::Specifier(Specifier::All) => {
                    let whole = OrdinalRun {
                        first: self.inclusive_min(),
                        last: self.inclusive_max(),
                        step: 1,
                    };
                    proof {
                        lemma_run_fits(self, whole);
                        assert(field@[0] == field.specifiers[0]@);
                    }
                    return Ok(OrdinalSet::from_range(whole.first, whole.last));
                },
                _ => {
                    assert(field@[0] == field.specifiers[0]@);
                },
            }
        }
        let ghost terms = field@;
        let mut found = OrdinalSet::new();
        let mut i: usize = 0;
        proof {
            assert(terms.take(0) =~= Seq::<RootSpecifierView>::empty());
        }
        while i < n
            invariant
                i <= n,
                n == field.specifiers.len(),
                terms == field@,
                self.union_of(terms.take(i as int)) == Ok::<Set<int>, Error>(found@),
                found@.subset_of(self.domain()),
                i > 0 ==> found@ != Set::<int>::empty(),
            decreases n - i,
        {
            proof {
                assert(terms.take(i + 1).drop_last() =~= terms.take(i as int));
                assert(terms.take(i + 1).last() == field.specifiers[i as int]@);
            }
            match self.ordinals_from_root_specifier(&field.specifiers[i]) {
                Ok(run) => {
                    proof {
                        lemma_run_fits(self, run);
                    }
                    found = found.including_run(run.first, run.last, run.step);
                    proof {
                        assert(found@.contains(run.first as int));
                    }
                },
                Err(e) => {
                    proof {
                        lemma_first_failure_stands(self, terms, i + 1);
                    }
                    return Err(e);
                },
            }
            i += 1;
        }
        proof {
            assert(terms.take(n as int) =~= terms);
        }
        Ok(found)
    }
}

impl<const U: u8> TimeUnitField<U> {
    /// The set is not empty and lies within the unit's domain.
    #[verifier::type_invariant]
    pub closed spec fn wf(&self) -> bool {
        self.ordinals.wf() && fits(unit_of(U), self.ordinals@)
    }

    /// What `wf` says of the members.
    pub proof fn lemma_wf_fits(&self)
        requires
            self.wf(),
        ensures
            fits(Self::unit(), self@),
    {
    }

    /// The unit of the field.
    pub open spec fn unit() -> TimeUnit {
        unit_of(U)
    }

    pub fn time_unit() -> (r: TimeUnit)
        ensures
            r == Self::unit(),
    {
        let code: u8 = U;
        if code == 0 {
            TimeUnit::Seconds
        } else if code == 1 {
            TimeUnit::Minutes
        } else if code == 2 {
            TimeUnit::Hours
        } else if code == 3 {
            TimeUnit::DaysOfMonth
        } else if code == 4 {
            TimeUnit::Months
        } else if code == 5 {
            TimeUnit::DaysOfWeek
        } else {
            TimeUnit::Years
        }
    }

    pub fn inclusive_min() -> (r: Ordinal)
        ensures
            r == Self::unit().min(),
    {
        Self::time_unit().inclusive_min()
    }

    pub fn inclusive_max() -> (r: Ordinal)
        ensures
            r == Self::unit().max(),
    {
        Self::time_unit().inclusive_max()
    }

    /// The field that holds every ordinal of the unit.
    pub fn all() -> (r: Self)
        ensures
            r.wf(),
            r@ == Self::unit().domain(),
    {
        let unit = Self::time_unit();
        let whole = OrdinalRun { first: unit.inclusive_min(), last: unit.inclusive_max(), step: 1 };
        proof {
            lemma_run_fits(unit, whole);
        }
        TimeUnitField { ordinals: OrdinalSet::from_range(whole.first, whole.last) }
    }

    /// The field that holds one ordinal of the unit.
    pub fn single(ordinal: Ordinal) -> (r: Self)
        requires
            Self::unit().admits(ordinal),
        ensures
            r.wf(),
            r@ == Set::<int>::empty().insert(ordinal as int),
    {
        let set = OrdinalSet::new().including(ordinal);
        proof {
            lemma_run_fits(Self::unit(), OrdinalRun { first: ordinal, last: ordinal, step: 1 });
            assert(set@.contains(ordinal as int));
        }
        TimeUnitField { ordinals: set }
    }

    /// The field that holds one ordinal, where the unit admits it.
    pub fn from_ordinal(ordinal: Ordinal) -> (r: Result<Self, Error>)
        ensures
            match r {
                Ok(field) => Self::unit().admits(ordinal) && field.wf() && field@ == Set::<
                    int,
                >::empty().insert(ordinal as int),
                Err(e) => !Self::unit().admits(ordinal) && e == (Error::Domain { value: ordinal }),
            },
    {
        match Self::time_unit().validate_ordinal(ordinal) {
            Ok(_) => Ok(Self::single(ordinal)),
            Err(e) => Err(e),
        }
    }

    /// The field with the members of `ordinals`, where they can be a field of the unit:
    /// an empty set is no field, and the least member outside the domain is named in the error.
    pub fn from_ordinal_set(ordinals: OrdinalSet) -> (r: Result<Self, Error>)
        ensures
            match r {
                Ok(field) => fits(Self::unit(), ordinals@) && field.wf() && field@ == ordinals@,
                Err(Error::Syntax) => ordinals@ == Set::<int>::empty(),
                Err(Error::Domain { value }) => ordinals@.contains(value as int)
                    && !Self::unit().admits(value) && forall|x: int|
                    ordinals@.contains(x) && x < value ==> Self::unit().domain().contains(x),
                Err(_) => false,
            },
    {
        let unit = Self::time_unit();
        let least: Ordinal = match ordinals.first_at_or_after(0) {
            Some(v) => v,
            None => {
                proof {
                    assert forall|x: int| !ordinals@.contains(x) by {
                        if ordinals@.contains(x) {
                            ordinals.lemma_members_are_ordinals(x);
                        }
                    }
                    assert(ordinals@ =~= Set::<int>::empty());
                }
                return Err(Error::Syntax);
            },
        };
        if least < unit.inclusive_min() {
            proof {
                assert forall|x: int| ordinals@.contains(x) && x < least implies unit.domain().contains(
                    x,
                ) by {
                    ordinals.lemma_members_are_ordinals(x);
                }
            }
            return Err(Error::Domain { value: least });
        }
        if unit.inclusive_max() < u32::MAX {
            match ordinals.first_at_or_after(unit.inclusive_max() + 1) {
                Some(v) => {
                    proof {
                        assert forall|x: int| ordinals@.contains(x) && x < v implies unit.domain().contains(
                            x,
                        ) by {
                            ordinals.lemma_members_are_ordinals(x);
                            vstd::arithmetic::div_mod::lemma_mod_pos_bound(x - unit.min(), 1);
                        }
                    }
                    return Err(Error::Domain { value: v });
                },
                None => {},
            }
        }
        proof {
            assert forall|x: int| ordinals@.contains(x) implies unit.domain().contains(x) by {
                ordinals.lemma_members_are_ordinals(x);
                vstd::arithmetic::div_mod::lemma_mod_pos_bound(x - unit.min(), 1);
            }
            assert(ordinals@.contains(least as int));
            use_type_invariant(&ordinals);
        }
        Ok(TimeUnitField { ordinals })
    }

    /// The field that the terms of a written field stand for.
    pub fn from_field(field: &Field) -> (r: Result<Self, Error>)
        ensures
            match Self::unit().resolve(field@) {
                Ok(set) => r matches Ok(found) && found.wf() && found@ == set,
                Err(e) => r matches Err(x) && x == e,
            },
    {
        match Self::time_unit().ordinals_from_field(field) {
            Ok(ordinals) => {
                proof {
                    use_type_invariant(&ordinals);
                }
                Ok(TimeUnitField { ordinals })
            },
            Err(e) => Err(e),
        }
    }

    /// The members of the field.
    pub fn ordinals(&self) -> (r: &OrdinalSet)
        ensures
            r@ == self@,
    {
        &self.ordinals
    }

    /// Whether the field holds the ordinal.
    pub fn includes(&self, ordinal: Ordinal) -> (r: bool)
        ensures
            r == self@.contains(ordinal as int),
    {
        self.ordinals.contains(ordinal)
    }

    /// The least member that is not below `bound`.
    pub fn first_at_or_after(&self, bound: Ordinal) -> (r: Option<Ordinal>)
        ensures
            match r {
                Some(v) => self@.contains(v as int) && bound <= v && Self::unit().admits(v)
                    && forall|x: int| bound <= x < v ==> !self@.contains(x),
                None => forall|x: int| bound <= x ==> !self@.contains(x),
            },
    {
        proof {
            use_type_invariant(self);
        }
        let r = self.ordinals.first_at_or_after(bound);
        proof {
            match r {
                Some(v) => {
                    assert(Self::unit().domain().contains(v as int));
                },
                None => {},
            }
        }
        r
    }
}

impl<const U: u8> PartialEq for TimeUnitField<U> {
    fn eq(&self, other: &TimeUnitField<U>) -> (r: bool) {
        self.ordinals.same_as(&other.ordinals)
    }
}

impl<const U: u8> vstd::std_specs::cmp::PartialEqSpecImpl for TimeUnitField<U> {
    open spec fn obeys_eq_spec() -> bool {
        true
    }

    open spec fn eq_spec(&self, other: &TimeUnitField<U>) -> bool {
        self@ == other@
    }
}

} // verus!
