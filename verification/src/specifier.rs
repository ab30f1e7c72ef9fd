//! What one comma-separated term of a field says, as it was written.

use vstd::prelude::*;
use crate::ordinal::Ordinal;

verus! {

/// A term that may stand alone or be the base of a period.
#[derive(Clone, Debug, PartialEq, Eq)]
pub enum Specifier {
    All,
    Point(Ordinal),
    Range(Ordinal, Ordinal),
    NamedRange(String, String),
}

/// A term of a field.
#[derive(Clone, Debug, PartialEq, Eq)]
pub enum RootSpecifier {
    Specifier(Specifier),
    Period(Specifier, Ordinal),
    NamedPoint(String),
}

/// A `Specifier` with its names as sequences of characters.
pub enum SpecifierView {
    All,
    Point(Ordinal),
    Range(Ordinal, Ordinal),
    NamedRange(Seq<char>, Seq<char>),
}

/// A `RootSpecifier` with its names as sequences of characters.
pub enum RootSpecifierView {
    Specifier(SpecifierView),
    Period(SpecifierView, Ordinal),
    NamedPoint(Seq<char>),
}

impl View for Specifier {
    type V = SpecifierView;

    open spec fn view(&self) -> SpecifierView {
        match self {
            Specifier::All => SpecifierView::All,
            Specifier::Point(n) => SpecifierView::Point(*n),
            Specifier::Range(a, b) => SpecifierView::Range(*a, *b),
            Specifier::NamedRange(a, b) => SpecifierView::NamedRange(a@, b@),
        }
    }
}

impl View for RootSpecifier {
    type V = RootSpecifierView;

    open spec fn view(&self) -> RootSpecifierView {
        match self {
            RootSpecifier::Specifier(s) => RootSpecifierView::Specifier(s@),
            RootSpecifier::Period(s, step) => RootSpecifierView::Period(s@, *step),
            RootSpecifier::NamedPoint(n) => RootSpecifierView::NamedPoint(n@),
        }
    }
}

impl RootSpecifier {
    /// A specifier standing alone as a term.
    pub fn from(specifier: Specifier) -> (r: RootSpecifier)
        ensures
            r@ == RootSpecifierView::Specifier(specifier@),
    {
        RootSpecifier::Specifier(specifier)
    }
}

} // verus!
