//! The types of the `find` clone: the entry kinds a search can ask for, and
//! an error carrying the path it happened on.

use vstd::prelude::*;

verus! {

/// The kind of directory entry a search matches.
#[derive(Debug, Clone, Copy, PartialEq, Eq, Structural, PartialOrd, Ord, Hash)]
pub enum EntryType {
    Dir,
    File,
    Link,
}

/// An error message together with the path it arose on, when one is known.
#[derive(Debug, Clone, PartialEq, Eq, Hash)]
pub struct IoErrorWithPath {
    pub path: Option<String>,
    pub error: String,
}

} // verus!
