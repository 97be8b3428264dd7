//! The input type of the `grep` clone.

use vstd::prelude::*;

verus! {

/// Where the searched text comes from.
#[derive(Debug, Clone, PartialEq, Eq, PartialOrd, Ord, Hash)]
pub enum Input {
    Stdin,
    Files(Vec<String>),
}

} // verus!
