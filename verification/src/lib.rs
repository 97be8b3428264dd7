//! Verified kernels of a collection of small text utilities.
//!
//! The centrepiece is the selector-range engine in [`cut`]: a validating
//! parser for `cut`-style range lists, and extractors that apply the parsed
//! ranges to characters, bytes or fields of a record.  The other modules
//! hold the pure logic of the remaining utilities: a nibble-swap hex codec,
//! an XPM2 image parser, word/line/byte counting, head/tail slicing, line
//! deduplication, and assorted list helpers.  All I/O, argument handling and
//! randomness live outside this crate; every function here is verified.

pub mod comm;
pub mod cut;
pub mod digits;
pub mod doubling;
pub mod find;
pub mod grep;
pub mod head;
pub mod hex;
pub mod joining;
pub mod negatives;
pub mod point;
pub mod quoting;
pub mod svg;
pub mod tail;
pub mod text;
pub mod tuples;
pub mod uniq;
pub mod wc;
pub mod xpm2;
