//! Why a collection cannot be described.

use vstd::prelude::*;

verus! {

/// Why a collection cannot be described.
#[derive(Clone, Copy, Debug, PartialEq, Eq, Structural)]
pub enum Fault {
    /// A key makes a pattern that is no regular expression, or a key or the name
    /// of a variable makes one that is too large.
    Pattern,
    /// The closing mark of a section begins before its opening mark ends.
    Section,
    /// A segment of a path begins with a character outside the ASCII range.
    Segment,
    /// A value spells a number that is not finite.
    Number,
    /// An identifier comes again more often than can be counted.
    Count,
}

/// The view of a result.
pub open spec fn outcome<T: DeepView>(r: Result<T, Fault>) -> Result<T::V, Fault> {
    match r {
        Ok(t) => Ok(t.deep_view()),
        Err(f) => Err(f),
    }
}

/// The view of a result that leaves a value behind: `after` where there is no fault.
pub open spec fn reached<W>(r: Result<(), Fault>, after: W) -> Result<W, Fault> {
    match r {
        Ok(_) => Ok(after),
        Err(f) => Err(f),
    }
}

} // verus!
