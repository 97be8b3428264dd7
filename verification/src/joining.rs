//! Joining strings or numbers with a separator pattern.

use vstd::prelude::*;

use crate::text::dec_repr_int;
use crate::text::fmt_i64;
use vstd::string::StringExecFns;

verus! {

/// The items joined with the separator between neighbours.
pub open spec fn spec_join(items: Seq<Seq<char>>, sep: Seq<char>) -> Seq<char>
    decreases items.len(),
{
    if items.len() == 0 {
        Seq::empty()
    } else if items.len() == 1 {
        items[0]
    } else {
        items[0] + sep + spec_join(items.drop_first(), sep)
    }
}

proof fn lemma_join_push(items: Seq<Seq<char>>, sep: Seq<char>, x: Seq<char>)
    ensures
        spec_join(items.push(x), sep) == if items.len() == 0 {
            x
        } else {
            spec_join(items, sep) + sep + x
        },
    decreases items.len(),
{
    let pushed = items.push(x);
    if items.len() == 0 {
        assert(pushed.len() == 1);
        assert(pushed[0] == x);
    } else {
        assert(pushed[0] == items[0]);
        assert(pushed.drop_first() =~= items.drop_first().push(x));
        lemma_join_push(items.drop_first(), sep, x);
        if items.len() == 1 {
            assert(items[0] + sep + x =~= spec_join(items, sep) + sep + x);
        } else {
            assert(items[0] + sep + (spec_join(items.drop_first(), sep) + sep + x) =~= (items[0]
                + sep + spec_join(items.drop_first(), sep)) + sep + x);
        }
    }
}

fn join_strings_internal(items: &Vec<String>, pattern: &str) -> (r: String)
    ensures
        r@ == spec_join(items.deep_view(), pattern@),
{
    let ghost items_v = items.deep_view();
    let mut result = String::new();
    let mut i: usize = 0;
    assert(items_v.take(0) =~= Seq::<Seq<char>>::empty());
    while i < items.len()
        invariant
            items_v == items.deep_view(),
            items_v.len() == items@.len(),
            forall|j: int| 0 <= j < items@.len() ==> items_v[j] == #[trigger] items@[j]@,
            i <= items_v.len(),
            result@ == spec_join(items_v.take(i as int), pattern@) + if 0 < i < items_v.len() {
                pattern@
            } else {
                Seq::<char>::empty()
            },
        decreases items_v.len() - i,
    {
        result.append(items[i].as_str());
        if i != items.len() - 1 {
            result.append(pattern);
        }
        proof {
            lemma_join_push(items_v.take(i as int), pattern@, items_v[i as int]);
            assert(items_v.take(i + 1 as int) =~= items_v.take(i as int).push(items_v[i as int]));
            if i == 0 {
                assert(Seq::<char>::empty() + spec_join(items_v.take(0), pattern@)
                    =~= Seq::<char>::empty());
            }
            if i + 1 < items_v.len() {
                assert(result@ =~= spec_join(items_v.take(i + 1 as int), pattern@) + pattern@);
            } else {
                assert(result@ =~= spec_join(items_v.take(i + 1 as int), pattern@));
            }
        }
        i = i + 1;
    }
    assert(items_v.take(items_v.len() as int) =~= items_v);
    result
}

/// Join the strings with the pattern between neighbours.
pub fn join_strings(str: &[&str], pattern: &str) -> (r: String)
    ensures
        r@ == spec_join(str.deep_view(), pattern@),
{
    let mut owned: Vec<String> = Vec::new();
    let mut i: usize = 0;
    while i < str.len()
        invariant
            i <= str@.len(),
            owned@.len() == i,
            forall|j: int| 0 <= j < i ==> (#[trigger] owned@[j])@ == str@[j]@,
        decreases str@.len() - i,
    {
        owned.push(String::from_str(str[i]));
        i = i + 1;
    }
    let r = join_strings_internal(&owned, pattern);
    assert(owned.deep_view() =~~= str.deep_view());
    r
}

/// Join the numbers' decimal numerals with the pattern between neighbours.
pub fn join_numbers(nums: &[i32], pattern: &str) -> (r: String)
    ensures
        r@ == spec_join(nums@.map_values(|n: i32| dec_repr_int(n as int)), pattern@),
{
    let mut owned: Vec<String> = Vec::new();
    let mut i: usize = 0;
    while i < nums.len()
        invariant
            i <= nums@.len(),
            owned@.len() == i,
            forall|j: int| 0 <= j < i ==> (#[trigger] owned@[j])@ == dec_repr_int(nums@[j] as int),
        decreases nums@.len() - i,
    {
        owned.push(fmt_i64(nums[i] as i64));
        i = i + 1;
    }
    let r = join_strings_internal(&owned, pattern);
    assert(owned.deep_view() =~~= nums@.map_values(|n: i32| dec_repr_int(n as int)));
    r
}

} // verus!
