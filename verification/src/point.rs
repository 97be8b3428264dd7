//! The input type of the point-tagging tool.

use vstd::prelude::*;

verus! {

/// Where the point records come from.
#[derive(Debug, Clone, PartialEq, Eq, PartialOrd, Ord, Hash)]
pub enum Input {
    File(String),
    Stdin,
}

} // verus!
