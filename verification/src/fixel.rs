//! The classification vocabulary for root probing: how a sampled region
//! of a relation `f(x, y)` is judged. The sampling itself works on
//! floating-point values and lives in the application layer; these are the
//! verdicts it hands around and maps to colors.

use vstd::prelude::*;

verus! {

/// What a region's samples show when no root was found in it: nothing
/// sampled yet, or values of a single sign throughout.
#[derive(Clone, Copy, Debug, PartialEq)]
pub enum Mood {
    NoData,
    Positive,
    Negative,
}

/// The verdict for a region: a root is present, none is, or the relation
/// is undefined somewhere inside it.
#[derive(Clone, Copy, Debug, PartialEq)]
pub enum RootType {
    NoRoot,
    Root,
    OutOfDomain,
}

/// How a single probe of the relation came out.
pub enum ProbeType {
    ExactRoot,
    Positive,
    Negative,
    OutOfDomain,
}

} // verus!
