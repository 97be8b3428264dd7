//! Counting negatives and doubling every element of a list, once with a
//! loop and once by recursion.

use vstd::prelude::*;

verus! {

/// How many elements are negative.
pub open spec fn spec_count_negative(s: Seq<i64>) -> nat
    decreases s.len(),
{
    if s.len() == 0 {
        0
    } else {
        spec_count_negative(s.drop_last()) + if s.last() < 0 {
            1nat
        } else {
            0nat
        }
    }
}

pub proof fn lemma_count_negative_le_len(s: Seq<i64>)
    ensures
        spec_count_negative(s) <= s.len(),
    decreases s.len(),
{
    if s.len() > 0 {
        lemma_count_negative_le_len(s.drop_last());
    }
}

/// The number of negative elements.
pub fn count_negative(v: &[i64]) -> (r: usize)
    ensures
        r == spec_count_negative(v@),
{
    let mut count: usize = 0;
    let mut i: usize = 0;
    while i < v.len()
        invariant
            i <= v@.len(),
            count == spec_count_negative(v@.take(i as int)),
        decreases v@.len() - i,
    {
        proof {
            assert(v@.take(i + 1 as int).drop_last() =~= v@.take(i as int));
            lemma_count_negative_le_len(v@.take(i as int));
        }
        if v[i] < 0 {
            count = count + 1;
        }
        i = i + 1;
    }
    assert(v@.take(v@.len() as int) =~= v@);
    count
}

/// Every element doubled, in order.
pub fn doubles(v: &[i64]) -> (r: Vec<i64>)
    requires
        forall|i: int| 0 <= i < v@.len() ==> i64::MIN / 2 <= #[trigger] v@[i] <= i64::MAX / 2,
    ensures
        r@.len() == v@.len(),
        forall|i: int| 0 <= i < v@.len() ==> r@[i] == 2 * v@[i],
{
    let mut result: Vec<i64> = Vec::new();
    let mut i: usize = 0;
    while i < v.len()
        invariant
            i <= v@.len(),
            forall|j: int| 0 <= j < v@.len() ==> i64::MIN / 2 <= #[trigger] v@[j] <= i64::MAX / 2,
            result@.len() == i,
            forall|j: int| 0 <= j < i ==> result@[j] == 2 * v@[j],
        decreases v@.len() - i,
    {
        result.push(2 * v[i]);
        i = i + 1;
    }
    result
}

/// The recursive worker: extends `result` with the doubles of `v[index..]`.
fn doubles_recursion(v: &[i64], result: Vec<i64>, index: usize) -> (r: Vec<i64>)
    requires
        index <= v@.len(),
        forall|i: int| 0 <= i < v@.len() ==> i64::MIN / 2 <= #[trigger] v@[i] <= i64::MAX / 2,
    ensures
        r@.len() == result@.len() + v@.len() - index,
        forall|j: int| 0 <= j < result@.len() ==> r@[j] == result@[j],
        forall|j: int|
            index <= j < v@.len() ==> r@[result@.len() + j - index] == 2 * #[trigger] v@[j],
    decreases v@.len() - index,
{
    if index == v.len() {
        result
    } else {
        let mut result = result;
        result.push(2 * v[index]);
        doubles_recursion(v, result, index + 1)
    }
}

/// Every element doubled, computed without a loop.
pub fn doubles_recursion_start(v: &[i64]) -> (r: Vec<i64>)
    requires
        forall|i: int| 0 <= i < v@.len() ==> i64::MIN / 2 <= #[trigger] v@[i] <= i64::MAX / 2,
    ensures
        r@.len() == v@.len(),
        forall|i: int| 0 <= i < v@.len() ==> r@[i] == 2 * v@[i],
{
    doubles_recursion(v, Vec::new(), 0)
}

} // verus!
