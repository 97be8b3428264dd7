//! Wrapping strings in a quote character, once with a loop and once by
//! recursion.

use vstd::prelude::*;

use crate::text::push_char;
use vstd::string::StringExecFns;

verus! {

/// A string wrapped in the quote character.
pub open spec fn spec_quote(s: Seq<char>, c: char) -> Seq<char> {
    seq![c] + s + seq![c]
}

/// Wrap one string in the quote character.
pub fn quote(s: &str, c: char) -> (r: String)
    ensures
        r@ == spec_quote(s@, c),
{
    let mut r = String::new();
    push_char(&mut r, c);
    r.append(s);
    push_char(&mut r, c);
    assert((Seq::<char>::empty().push(c) + s@).push(c) =~= spec_quote(s@, c));
    r
}

/// Wrap every string in the quote character, in order.
pub fn quote_list(v: &[&str], c: char) -> (r: Vec<String>)
    ensures
        r@.len() == v@.len(),
        forall|i: int| 0 <= i < v@.len() ==> (#[trigger] r@[i])@ == spec_quote(v@[i]@, c),
{
    let mut result: Vec<String> = Vec::new();
    let mut i: usize = 0;
    while i < v.len()
        invariant
            i <= v@.len(),
            result@.len() == i,
            forall|j: int| 0 <= j < i ==> (#[trigger] result@[j])@ == spec_quote(v@[j]@, c),
        decreases v@.len() - i,
    {
        result.push(quote(v[i], c));
        i = i + 1;
    }
    result
}

/// The recursive worker: extends `result` with the quoted `v[index..]`.
fn quote_list_recursion(v: &[&str], c: char, result: Vec<String>, index: usize) -> (r: Vec<String>)
    requires
        index <= v@.len(),
    ensures
        r@.len() == result@.len() + v@.len() - index,
        forall|j: int| 0 <= j < result@.len() ==> r@[j] == result@[j],
        forall|j: int|
            index <= j < v@.len() ==> (#[trigger] r@[result@.len() + j - index])@ == spec_quote(
                v@[j]@,
                c,
            ),
    decreases v@.len() - index,
{
    if index == v.len() {
        result
    } else {
        let ghost result0 = result@;
        let mut result = result;
        result.push(quote(v[index], c));
        let r = quote_list_recursion(v, c, result, index + 1);
        proof {
            assert forall|j: int|
                index <= j < v@.len() implies (#[trigger] r@[result0.len() + j - index])@
                == spec_quote(v@[j]@, c) by {
                if j == index {
                    assert(r@[result0.len() as int] == result@[result0.len() as int]);
                } else {
                    assert(r@[(result0.len() + 1) + j - (index + 1)]@ == spec_quote(v@[j]@, c));
                }
            }
        }
        r
    }
}

/// Wrap every string in the quote character, computed without a loop.
pub fn quote_list_recursion_start(v: &[&str], c: char) -> (r: Vec<String>)
    ensures
        r@.len() == v@.len(),
        forall|i: int| 0 <= i < v@.len() ==> (#[trigger] r@[i])@ == spec_quote(v@[i]@, c),
{
    let r = quote_list_recursion(v, c, Vec::new(), 0);
    assert forall|i: int| 0 <= i < v@.len() implies (#[trigger] r@[i])@ == spec_quote(
        v@[i]@,
        c,
    ) by {
        assert(r@[0 + i - 0]@ == spec_quote(v@[i]@, c));
    }
    r
}

} // verus!
