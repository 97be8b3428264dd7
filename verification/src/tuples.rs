//! Zipping two number lists into pairs, padding the shorter list with zeros
//! or truncating to the shorter one.

use vstd::prelude::*;

verus! {

/// The element at `i`, or zero past the end.
pub open spec fn spec_get_or_zero(s: Seq<i32>, i: int) -> i32 {
    if 0 <= i < s.len() {
        s[i]
    } else {
        0
    }
}

fn pack_number_tuple_internal(first: &[i32], second: &[i32], min: bool) -> (r: Vec<(i32, i32)>)
    ensures
        r@.len() == if min {
            if first@.len() < second@.len() {
                first@.len()
            } else {
                second@.len()
            }
        } else {
            if first@.len() > second@.len() {
                first@.len()
            } else {
                second@.len()
            }
        },
        forall|i: int|
            0 <= i < r@.len() ==> #[trigger] r@[i] == (
            spec_get_or_zero(first@, i),
            spec_get_or_zero(second@, i),
            ),
{
    let max: usize = if min {
        if first.len() < second.len() {
            first.len()
        } else {
            second.len()
        }
    } else {
        if first.len() > second.len() {
            first.len()
        } else {
            second.len()
        }
    };

    let mut result: Vec<(i32, i32)> = Vec::new();
    let mut index: usize = 0;

    while index < max
        invariant
            index <= max,
            result@.len() == index,
            forall|i: int|
                0 <= i < index ==> #[trigger] result@[i] == (
                spec_get_or_zero(first@, i),
                spec_get_or_zero(second@, i),
                ),
        decreases max - index,
    {
        let a = if index < first.len() {
            first[index]
        } else {
            0
        };
        let b = if index < second.len() {
            second[index]
        } else {
            0
        };
        result.push((a, b));
        index = index + 1;
    }

    result
}

/// Pairs up to the longer list, filling the shorter one with zeros.
pub fn pack_number_tuples(first: &[i32], second: &[i32]) -> (r: Vec<(i32, i32)>)
    ensures
        r@.len() == if first@.len() > second@.len() {
            first@.len()
        } else {
            second@.len()
        },
        forall|i: int|
            0 <= i < r@.len() ==> #[trigger] r@[i] == (
            spec_get_or_zero(first@, i),
            spec_get_or_zero(second@, i),
            ),
{
    pack_number_tuple_internal(first, second, false)
}

/// Pairs up to the shorter list; the rest of the longer one is dropped.
pub fn pack_number_tuples_s(first: &[i32], second: &[i32]) -> (r: Vec<(i32, i32)>)
    ensures
        r@.len() == if first@.len() < second@.len() {
            first@.len()
        } else {
            second@.len()
        },
        forall|i: int|
            0 <= i < r@.len() ==> #[trigger] r@[i] == (
            spec_get_or_zero(first@, i),
            spec_get_or_zero(second@, i),
            ),
{
    pack_number_tuple_internal(first, second, true)
}

} // verus!
