//! Counting decimal digits in a string, in total and per word.

use vstd::prelude::*;

use crate::text::char_is_digit;
use crate::text::char_is_space;
use crate::text::is_digit_char;
use crate::text::is_space_char;
use crate::text::lemma_split_ws_word;
use crate::text::split_ws;
use crate::text::to_chars;
use vstd::string::StrSliceExecFns;

verus! {

/// How many characters are ASCII decimal digits.
pub open spec fn spec_count_digit(s: Seq<char>) -> nat
    decreases s.len(),
{
    if s.len() == 0 {
        0
    } else {
        spec_count_digit(s.drop_last()) + if is_digit_char(s.last()) {
            1nat
        } else {
            0nat
        }
    }
}

pub proof fn lemma_count_digit_le_len(s: Seq<char>)
    ensures
        spec_count_digit(s) <= s.len(),
    decreases s.len(),
{
    if s.len() > 0 {
        lemma_count_digit_le_len(s.drop_last());
    }
}

proof fn lemma_count_digit_skip(s: Seq<char>, i: int)
    requires
        0 <= i < s.len(),
    ensures
        spec_count_digit(s.skip(i)) == spec_count_digit(s.skip(i + 1)) + if is_digit_char(
            s[i],
        ) {
            1nat
        } else {
            0nat
        },
    decreases s.len() - i,
{
    if i + 1 == s.len() {
        assert(s.skip(i) =~= seq![s[i]]);
        assert(s.skip(i + 1) =~= Seq::<char>::empty());
        assert(seq![s[i]].drop_last() =~= Seq::<char>::empty());
    } else {
        lemma_count_digit_skip(s, i + 1);
        assert(s.skip(i).drop_last() =~= s.skip(i + 1).drop_last().insert(0, s[i]));
        lemma_count_digit_insert_front(s.skip(i + 1).drop_last(), s[i]);
        assert(s.skip(i).last() == s.skip(i + 1).last());
    }
}

proof fn lemma_count_digit_insert_front(s: Seq<char>, c: char)
    ensures
        spec_count_digit(s.insert(0, c)) == spec_count_digit(s) + if is_digit_char(c) {
            1nat
        } else {
            0nat
        },
    decreases s.len(),
{
    if s.len() == 0 {
        assert(s.insert(0, c) =~= seq![c]);
        assert(seq![c].drop_last() =~= Seq::<char>::empty());
        assert(spec_count_digit(Seq::<char>::empty()) == 0);
        assert(seq![c].last() == c);
        assert(spec_count_digit(seq![c]) == if is_digit_char(c) {
            1nat
        } else {
            0nat
        });
    } else {
        assert(s.insert(0, c).drop_last() =~= s.drop_last().insert(0, c));
        assert(s.insert(0, c).last() == s.last());
        lemma_count_digit_insert_front(s.drop_last(), c);
        assert(spec_count_digit(s.insert(0, c)) == spec_count_digit(s.insert(0, c).drop_last())
            + if is_digit_char(s.insert(0, c).last()) {
            1nat
        } else {
            0nat
        });
    }
}

/// The number of decimal digits in the string.
pub fn count_digit(str: &str) -> (r: usize)
    ensures
        r == spec_count_digit(str@),
{
    let chars = to_chars(str);
    let mut digit_count: usize = 0;
    let mut i: usize = 0;
    while i < chars.len()
        invariant
            chars@ == str@,
            i <= chars@.len(),
            digit_count == spec_count_digit(str@.take(i as int)),
        decreases chars@.len() - i,
    {
        proof {
            assert(str@.take(i + 1 as int).drop_last() =~= str@.take(i as int));
            lemma_count_digit_le_len(str@.take(i as int));
        }
        if char_is_digit(chars[i]) {
            digit_count = digit_count + 1;
        }
        i = i + 1;
    }
    assert(str@.take(str@.len() as int) =~= str@);
    digit_count
}

fn count_digit_from(chars: &[char], i: usize) -> (r: usize)
    requires
        i <= chars@.len(),
    ensures
        r == spec_count_digit(chars@.skip(i as int)),
    decreases chars@.len() - i,
{
    if i == chars.len() {
        assert(chars@.skip(i as int) =~= Seq::<char>::empty());
        0
    } else {
        proof {
            lemma_count_digit_skip(chars@, i as int);
            lemma_count_digit_le_len(chars@.skip(i + 1 as int));
        }
        let rest = count_digit_from(chars, i + 1);
        rest + if char_is_digit(chars[i]) {
            1
        } else {
            0
        }
    }
}

/// The number of decimal digits in the string, computed by recursion.
pub fn count_digit_r(str: &str) -> (r: usize)
    ensures
        r == spec_count_digit(str@),
{
    let chars = to_chars(str);
    let r = count_digit_from(chars.as_slice(), 0);
    assert(str@.skip(0) =~= str@);
    r
}

/// Each whitespace-separated word of the string, paired with its number of
/// decimal digits, in order.
pub fn count_digit_v2<'a>(str: &'a str) -> (r: Vec<(&'a str, usize)>)
    ensures
        r@.len() == split_ws(str@).len(),
        forall|k: int|
            0 <= k < r@.len() ==> (#[trigger] r@[k]).0@ == split_ws(str@)[k] && r@[k].1
                == spec_count_digit(split_ws(str@)[k]),
{
    let chars = to_chars(str);
    let n = chars.len();
    let ghost words = split_ws(str@);
    let mut result: Vec<(&'a str, usize)> = Vec::new();
    let mut i: usize = 0;
    assert(str@.skip(0) =~= str@);
    while i < n
        invariant
            chars@ == str@,
            n == str@.len(),
            i <= n,
            words == split_ws(str@),
            result@.len() + split_ws(str@.skip(i as int)).len() == words.len(),
            forall|k: int|
                0 <= k < result@.len() ==> (#[trigger] result@[k]).0@ == words[k] && result@[k].1
                    == spec_count_digit(words[k]),
            forall|k: int|
                result@.len() <= k < words.len() ==> words[k] == split_ws(str@.skip(i as int))[k
                    - result@.len()],
        decreases n - i,
    {
        if char_is_space(chars[i]) {
            proof {
                assert(str@.skip(i as int).drop_first() =~= str@.skip(i + 1 as int));
            }
            i = i + 1;
        } else {
            let mut j = i + 1;
            while j < n && !char_is_space(chars[j])
                invariant
                    chars@ == str@,
                    n == str@.len(),
                    i < j <= n,
                    forall|k: int| i <= k < j ==> !is_space_char(str@[k]),
                decreases n - j,
            {
                j = j + 1;
            }
            let word = str.substring_char(i, j);
            let word_chars = to_chars(word);
            let count = count_digit_from(word_chars.as_slice(), 0);
            proof {
                assert(word_chars@.skip(0) =~= word@);
                let tail = str@.skip(i as int);
                assert forall|k: int| 0 <= k < j - i implies !is_space_char(tail[k]) by {
                    assert(tail[k] == str@[i + k]);
                }
                assert(j == n || is_space_char(tail[j - i]));
                lemma_split_ws_word(tail, j - i);
                assert(tail.take(j - i) =~= str@.subrange(i as int, j as int));
                assert(tail.skip(j - i) =~= str@.skip(j as int));
            }
            result.push((word, count));
            i = j;
        }
    }
    proof {
        assert(str@.skip(n as int) =~= Seq::<char>::empty());
    }
    result
}

} // verus!
