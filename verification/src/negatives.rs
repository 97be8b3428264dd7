//! Keeping the non-negative values of a list, once with a loop, once by
//! recursion, and once splitting the list in two.

use vstd::prelude::*;

verus! {

/// The non-negative values, in order, as unsigned numbers.
pub open spec fn spec_non_negatives(s: Seq<isize>) -> Seq<usize>
    decreases s.len(),
{
    if s.len() == 0 {
        Seq::empty()
    } else {
        spec_non_negatives(s.drop_last()) + if s.last() >= 0 {
            seq![s.last() as usize]
        } else {
            Seq::<usize>::empty()
        }
    }
}

/// The negative values, in order.
pub open spec fn spec_negatives(s: Seq<isize>) -> Seq<isize>
    decreases s.len(),
{
    if s.len() == 0 {
        Seq::empty()
    } else {
        spec_negatives(s.drop_last()) + if s.last() < 0 {
            seq![s.last()]
        } else {
            Seq::<isize>::empty()
        }
    }
}

/// The non-negative values of the list, in order.
pub fn extract_non_negatives(nums: &[isize]) -> (r: Vec<usize>)
    ensures
        r@ == spec_non_negatives(nums@),
{
    let mut positives: Vec<usize> = Vec::new();
    let mut i: usize = 0;
    while i < nums.len()
        invariant
            i <= nums@.len(),
            positives@ == spec_non_negatives(nums@.take(i as int)),
        decreases nums@.len() - i,
    {
        proof {
            assert(nums@.take(i + 1 as int).drop_last() =~= nums@.take(i as int));
        }
        if nums[i] >= 0 {
            positives.push(nums[i] as usize);
        }
        i = i + 1;
    }
    assert(nums@.take(nums@.len() as int) =~= nums@);
    positives
}

/// The non-negative values of the list, computed without a loop.
pub fn extract_non_negatives_r(nums: &[isize]) -> (r: Vec<usize>)
    ensures
        r@ == spec_non_negatives(nums@),
    decreases nums@.len(),
{
    if nums.len() > 0 {
        let last = nums[nums.len() - 1];
        let mut previous = extract_non_negatives_r(&nums[0..nums.len() - 1]);
        proof {
            assert(nums@.subrange(0, nums@.len() - 1) =~= nums@.drop_last());
        }
        if last >= 0 {
            previous.push(last as usize);
        }
        previous
    } else {
        Vec::new()
    }
}

/// The non-negative and the negative values, each in order.
pub fn split_non_negatives(nums: &[isize]) -> (r: (Vec<usize>, Vec<isize>))
    ensures
        r.0@ == spec_non_negatives(nums@),
        r.1@ == spec_negatives(nums@),
{
    let mut positives: Vec<usize> = Vec::new();
    let mut negatives: Vec<isize> = Vec::new();
    let mut i: usize = 0;
    while i < nums.len()
        invariant
            i <= nums@.len(),
            positives@ == spec_non_negatives(nums@.take(i as int)),
            negatives@ == spec_negatives(nums@.take(i as int)),
        decreases nums@.len() - i,
    {
        proof {
            assert(nums@.take(i + 1 as int).drop_last() =~= nums@.take(i as int));
        }
        if nums[i] >= 0 {
            positives.push(nums[i] as usize);
        } else {
            negatives.push(nums[i]);
        }
        i = i + 1;
    }
    assert(nums@.take(nums@.len() as int) =~= nums@);
    (positives, negatives)
}

} // verus!
