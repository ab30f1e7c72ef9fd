//! Why an expression was turned down.

use vstd::prelude::*;

verus! {

/// The ways in which reading or resolving an expression fails.
#[derive(Clone, Copy, Debug, PartialEq, Eq, Structural)]
pub enum Error {
    /// The expression has `found` fields, which is neither six nor seven.
    FieldCount { found: usize },
    /// The text does not follow the grammar, or something is left behind the last field.
    Syntax,
    /// `value` lies outside the bounds of the unit it was written for.
    Domain { value: u32 },
    /// A name that the unit does not know.
    Name,
    /// A range that starts after it ends.
    RangeOrder { start: u32, end: u32 },
}

} // verus!
