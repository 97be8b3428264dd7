//! The types of the `comm` clone: where its two inputs come from, and which
//! of the three columns a line belongs to.

use vstd::prelude::*;

verus! {

/// The two inputs; at most one of them may be the standard input.
#[derive(Debug, Clone, PartialEq, Eq, PartialOrd, Ord, Hash)]
pub enum Input {
    BothFile(String, String),
    FirstStdin(String),
    SecondStdin(String),
}

/// Which column a line belongs to: only in the first input, only in the
/// second, or in both.
#[derive(Debug, Clone, Copy, PartialEq, Eq, Structural, PartialOrd, Ord, Hash)]
pub enum Property {
    FirstExclusive,
    SecondExclusive,
    Mutual,
}

} // verus!
