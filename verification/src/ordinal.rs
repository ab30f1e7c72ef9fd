//! Ordinals and sets of ordinals.
//!
//! An ordinal is one value of a time unit: a second, a weekday, a year. A set
//! of ordinals is kept as a union of arithmetic progressions, so that "every
//! year" or "every second year from 2018 on" costs one entry however large the
//! unit's domain is. Contracts speak of the mathematical set only.

use vstd::prelude::*;
use vstd::arithmetic::div_mod::lemma_fundamental_div_mod;
use vstd::arithmetic::div_mod::lemma_mod_multiples_vanish;
use vstd::arithmetic::div_mod::lemma_small_mod;

verus! {

/// One value of a time unit.
pub type Ordinal = u32;

/// The members of the progression `first, first + step, ...` that do not exceed `last`.
pub open spec fn progression(first: int, last: int, step: int) -> Set<int> {
    Set::new(|x: int| first <= x <= last && (x - first) % step == 0)
}

/// An arithmetic progression of ordinals.
#[derive(Clone, Copy, Debug)]
pub struct OrdinalRun {
    pub first: Ordinal,
    pub last: Ordinal,
    pub step: Ordinal,
}

impl OrdinalRun {
    /// A run has a positive step and is not empty.
    pub open spec fn wf(&self) -> bool {
        self.step >= 1 && self.first <= self.last
    }

    pub open spec fn holds(&self, x: int) -> bool {
        progression(self.first as int, self.last as int, self.step as int).contains(x)
    }

    pub fn contains(&self, x: Ordinal) -> (r: bool)
        requires
            self.wf(),
        ensures
            r == self.holds(x as int),
    {
        x >= self.first && x <= self.last && (x - self.first) % self.step == 0
    }

    /// The least member that is not below `bound`.
    pub fn first_at_or_after(&self, bound: Ordinal) -> (r: Option<Ordinal>)
        requires
            self.wf(),
        ensures
            match r {
                Some(v) => self.holds(v as int) && bound <= v && forall|x: int|
                    bound <= x < v ==> !self.holds(x),
                None => forall|x: int| bound <= x ==> !self.holds(x),
            },
    {
        if bound <= self.first {
            proof {
                lemma_small_mod(0, self.step as nat);
            }
            return Some(self.first);
        }
        if bound > self.last {
            return None;
        }
        let offset: u32 = bound - self.first;
        let over: u32 = offset % self.step;
        if over == 0 {
            return Some(bound);
        }
        let gap: u32 = self.step - over;
        proof {
            lemma_gap_is_free(
                self.first as int,
                self.last as int,
                self.step as int,
                bound as int,
                gap as int,
            );
        }
        if gap > self.last - bound {
            None
        } else {
            Some(bound + gap)
        }
    }
}

/// A set of ordinals.
#[derive(Debug)]
pub struct OrdinalSet {
    runs: Vec<OrdinalRun>,
}

impl View for OrdinalSet {
    type V = Set<int>;

    closed spec fn view(&self) -> Set<int> {
        Set::new(|x: int| exists|i: int| 0 <= i < self.runs.len() && #[trigger] self.runs[i].holds(x))
    }
}

impl OrdinalSet {
    /// Every progression that the set is made of is a proper one.
    #[verifier::type_invariant]
    pub closed spec fn wf(&self) -> bool {
        forall|i: int| 0 <= i < self.runs.len() ==> #[trigger] self.runs[i].wf()
    }

    /// A member of a set is an ordinal.
    pub proof fn lemma_members_are_ordinals(&self, x: int)
        requires
            self@.contains(x),
        ensures
            0 <= x <= u32::MAX,
    {
    }

    pub fn new() -> (r: OrdinalSet)
        ensures
            r.wf(),
            r@ == Set::<int>::empty(),
    {
        let r = OrdinalSet { runs: Vec::new() };
        assert(r@ =~= Set::<int>::empty());
        r
    }

    /// The set with the members of `progression(first, last, step)` added.
    pub fn including_run(self, first: Ordinal, last: Ordinal, step: Ordinal) -> (r: OrdinalSet)
        requires
            step >= 1,
            first <= last,
        ensures
            r.wf(),
            r@ == self@.union(progression(first as int, last as int, step as int)),
    {
        proof {
            use_type_invariant(&self);
        }
        let run = OrdinalRun { first, last, step };
        let ghost before = self.runs@;
        let mut runs = self.runs;
        runs.push(run);
        let r = OrdinalSet { runs };
        proof {
            let after = r.runs@;
            assert forall|x: int| #[trigger]
                r@.contains(x) == (self@.contains(x) || run.holds(x)) by {
                if r@.contains(x) {
                    let i = choose|i: int| 0 <= i < after.len() && #[trigger] after[i].holds(x);
                    if i < before.len() {
                        assert(before[i].holds(x));
                    }
                }
                if self@.contains(x) {
                    let i = choose|i: int| 0 <= i < before.len() && #[trigger] before[i].holds(x);
                    assert(after[i].holds(x));
                }
                if run.holds(x) {
                    assert(after[before.len() as int].holds(x));
                }
            }
            assert(r@ =~= self@.union(progression(first as int, last as int, step as int)));
        }
        r
    }

    /// The set with one ordinal added.
    pub fn including(self, ordinal: Ordinal) -> (r: OrdinalSet)
        ensures
            r.wf(),
            r@ == self@.insert(ordinal as int),
    {
        let r = self.including_run(ordinal, ordinal, 1);
        proof {
            assert forall|x: int| #[trigger]
                progression(ordinal as int, ordinal as int, 1).contains(x) == (x == ordinal) by {
                if x == ordinal {
                    lemma_small_mod(0, 1);
                }
            }
            assert(r@ =~= self@.insert(ordinal as int));
        }
        r
    }

    pub fn contains(&self, ordinal: Ordinal) -> (r: bool)
        ensures
            r == self@.contains(ordinal as int),
    {
        proof {
            use_type_invariant(self);
        }
        let mut i: usize = 0;
        while i < self.runs.len()
            invariant
                i <= self.runs.len(),
                self.wf(),
                forall|j: int| 0 <= j < i ==> !(#[trigger] self.runs[j].holds(ordinal as int)),
            decreases self.runs.len() - i,
        {
            if self.runs[i].contains(ordinal) {
                return true;
            }
            i += 1;
        }
        false
    }

    /// The least member that is not below `bound`.
    pub fn first_at_or_after(&self, bound: Ordinal) -> (r: Option<Ordinal>)
        ensures
            match r {
                Some(v) => self@.contains(v as int) && bound <= v && forall|x: int|
                    bound <= x < v ==> !self@.contains(x),
                None => forall|x: int| bound <= x ==> !self@.contains(x),
            },
    {
        proof {
            use_type_invariant(self);
        }
        let mut best: Option<Ordinal> = None;
        let mut i: usize = 0;
        while i < self.runs.len()
            invariant
                i <= self.runs.len(),
                self.wf(),
                match best {
                    Some(v) => bound <= v && (exists|j: int|
                        0 <= j < i && #[trigger] self.runs[j].holds(v as int)) && forall|
                        j: int,
                        x: int,
                    |
                        0 <= j < i && bound <= x < v ==> !(#[trigger] self.runs[j].holds(x)),
                    None => forall|j: int, x: int|
                        0 <= j < i && bound <= x ==> !(#[trigger] self.runs[j].holds(x)),
                },
            decreases self.runs.len() - i,
        {
            let found: Option<Ordinal> = self.runs[i].first_at_or_after(bound);
            match found {
                Some(v) => {
                    let better: bool = match best {
                        Some(w) => v < w,
                        None => true,
                    };
                    if better {
                        best = Some(v);
                    }
                },
                None => {},
            }
            i += 1;
        }
        best
    }

    pub fn is_empty(&self) -> (r: bool)
        ensures
            r == (self@ == Set::<int>::empty()),
    {
        proof {
            use_type_invariant(self);
        }
        let r: bool = self.runs.len() == 0;
        proof {
            if r {
                assert(self@ =~= Set::<int>::empty());
            } else {
                let first = self.runs[0].first as int;
                assert(self.runs[0].wf());
                lemma_small_mod(0, self.runs[0].step as nat);
                assert(self.runs[0].holds(first));
                assert(self@.contains(first));
            }
        }
        r
    }
}

impl OrdinalSet {
    /// The set that holds every ordinal from `first` to `last`.
    pub fn from_range(first: Ordinal, last: Ordinal) -> (r: OrdinalSet)
        requires
            first <= last,
        ensures
            r.wf(),
            r@ == progression(first as int, last as int, 1),
    {
        let r = OrdinalSet::new().including_run(first, last, 1);
        assert(r@ =~= progression(first as int, last as int, 1));
        r
    }

    /// The set of the ordinals listed.
    pub fn from_ordinals(ordinals: Vec<Ordinal>) -> (r: OrdinalSet)
        ensures
            r.wf(),
            r@ == ordinals@.map_values(|o: Ordinal| o as int).to_set(),
    {
        let ghost listed = ordinals@.map_values(|o: Ordinal| o as int);
        let mut r = OrdinalSet::new();
        let mut i: usize = 0;
        while i < ordinals.len()
            invariant
                i <= ordinals.len(),
                listed == ordinals@.map_values(|o: Ordinal| o as int),
                r.wf(),
                r@ == listed.take(i as int).to_set(),
            decreases ordinals.len() - i,
        {
            r = r.including(ordinals[i]);
            proof {
                let next = listed.take(i + 1);
                assert(next.drop_last() =~= listed.take(i as int));
                assert(next.last() == ordinals[i as int] as int);
                assert forall|x: int| #[trigger]
                    next.to_set().contains(x) == (listed.take(i as int).to_set().contains(x) || x
                        == ordinals[i as int]) by {
                    if next.to_set().contains(x) {
                        let k = choose|k: int| 0 <= k < next.len() && next[k] == x;
                        if k < i {
                            assert(listed.take(i as int)[k] == x);
                        }
                    }
                    if listed.take(i as int).to_set().contains(x) {
                        let k = choose|k: int| 0 <= k < i && listed.take(i as int)[k] == x;
                        assert(next[k] == x);
                    }
                    if x == ordinals[i as int] {
                        assert(next[i as int] == x);
                    }
                }
                assert(r@ =~= next.to_set());
            }
            i += 1;
        }
        assert(listed.take(ordinals.len() as int) =~= listed);
        r
    }

    /// Whether the two sets have the same members.
    pub fn same_as(&self, other: &OrdinalSet) -> (r: bool)
        ensures
            r == (self@ == other@),
    {
        let mut cursor: Ordinal = 0;
        loop
            invariant
                forall|x: int| 0 <= x < cursor ==> self@.contains(x) == other@.contains(x),
            decreases u32::MAX - cursor,
        {
            let mine: Option<Ordinal> = self.first_at_or_after(cursor);
            let theirs: Option<Ordinal> = other.first_at_or_after(cursor);
            let next: Ordinal = match (mine, theirs) {
                (None, None) => {
                    proof {
                        lemma_agreeing_sets_are_equal(self, other, cursor as int);
                    }
                    return true;
                },
                (Some(a), Some(b)) => {
                    if a != b {
                        proof {
                            let least = if a < b {
                                a as int
                            } else {
                                b as int
                            };
                            assert(self@.contains(least) != other@.contains(least));
                        }
                        return false;
                    }
                    a
                },
                (Some(a), None) => {
                    assert(self@.contains(a as int) != other@.contains(a as int));
                    return false;
                },
                (None, Some(b)) => {
                    assert(self@.contains(b as int) != other@.contains(b as int));
                    return false;
                },
            };
            if next == u32::MAX {
                proof {
                    lemma_agreeing_sets_are_equal(self, other, u32::MAX + 1);
                }
                return true;
            }
            cursor = next + 1;
        }
    }
}

/// Two sets that agree below a point beyond which neither has a member are equal.
proof fn lemma_agreeing_sets_are_equal(a: &OrdinalSet, b: &OrdinalSet, from: int)
    requires
        forall|x: int| 0 <= x < from ==> a@.contains(x) == b@.contains(x),
        forall|x: int| from <= x <= u32::MAX ==> !a@.contains(x) && !b@.contains(x),
    ensures
        a@ == b@,
{
    assert forall|x: int| a@.contains(x) == b@.contains(x) by {
        if a@.contains(x) {
            a.lemma_members_are_ordinals(x);
        }
        if b@.contains(x) {
            b.lemma_members_are_ordinals(x);
        }
    }
    assert(a@ =~= b@);
}

impl PartialEq for OrdinalSet {
    fn eq(&self, other: &OrdinalSet) -> (r: bool) {
        self.same_as(other)
    }
}

impl vstd::std_specs::cmp::PartialEqSpecImpl for OrdinalSet {
    open spec fn obeys_eq_spec() -> bool {
        true
    }

    open spec fn eq_spec(&self, other: &OrdinalSet) -> bool {
        self@ == other@
    }
}

/// Between a bound that lies `step - gap` past a member and the point `gap`
/// further on there is no member, and that point is one unless it exceeds `last`.
proof fn lemma_gap_is_free(first: int, last: int, step: int, bound: int, gap: int)
    requires
        step >= 1,
        first <= bound <= last,
        0 < gap < step,
        (bound - first) % step == step - gap,
    ensures
        bound + gap <= last ==> progression(first, last, step).contains(bound + gap),
        forall|x: int|
            bound <= x < bound + gap ==> !(#[trigger] progression(first, last, step).contains(x)),
{
    let d = bound - first;
    let q = d / step;
    lemma_fundamental_div_mod(d, step);
    assert(d == step * q + (step - gap));
    assert(bound + gap - first == step * (q + 1)) by (nonlinear_arith)
        requires
            d == step * q + (step - gap),
            d == bound - first,
    ;
    lemma_mod_multiples_vanish(q + 1, 0, step);
    lemma_small_mod(0, step as nat);
    assert((step * (q + 1) + 0) % step == 0int % step);
    assert forall|x: int| bound <= x < bound + gap implies !(#[trigger] progression(
        first,
        last,
        step,
    ).contains(x)) by {
        let r = (step - gap) + (x - bound);
        assert(0 < r < step);
        assert(x - first == step * q + r);
        lemma_mod_multiples_vanish(q, r, step);
        lemma_small_mod(r as nat, step as nat);
    }
}

} // verus!
