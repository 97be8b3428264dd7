//! Counting lines, words and characters or bytes, the way the `wc` clone
//! scans its input: one step handles a line ending (`\r`, `\r\n` or `\n`), a
//! whitespace run, or a word run.

use vstd::prelude::*;

use crate::text::char_is_space;
use crate::text::is_space_char;
use crate::text::to_chars;
use vstd::string::StrSliceExecFns;
use vstd::utf8::encode_utf8;

verus! {

/// Where the input comes from.
#[derive(Debug, Clone, PartialEq, Eq, PartialOrd, Ord, Hash)]
pub enum Input {
    Files(Vec<String>),
    Stdin,
}

/// Whether characters or bytes are counted.
#[derive(Debug, Clone, Copy, PartialEq, Eq, Structural, PartialOrd, Ord, Hash)]
pub enum CharacterCounting {
    ByChars,
    ByBytes,
}

/// Which counts the caller asked for.
#[derive(Debug, Clone, Copy, PartialEq, Eq, Structural, PartialOrd, Ord, Hash)]
pub struct CountingConfig {
    pub count_line: bool,
    pub count_word: bool,
    pub character_counting: Option<CharacterCounting>,
}

/// The input choice and the counting choices together.
#[derive(Debug, Clone, PartialEq, Eq, PartialOrd, Ord, Hash)]
pub struct Argument {
    pub input: Input,
    pub counting_config: CountingConfig,
}

/// The counts; a field is `None` when that count was not asked for.
#[derive(Debug, Clone, Copy, PartialEq, Eq, Structural, PartialOrd, Ord, Hash, Default)]
pub struct Counting {
    pub line_count: Option<usize>,
    pub word_count: Option<usize>,
    pub character_or_byte_count: Option<usize>,
}

/// The first index at or after `i` that does not hold whitespace.
pub open spec fn skip_spaces(s: Seq<char>, i: int) -> int
    decreases s.len() - i,
{
    if 0 <= i < s.len() && is_space_char(s[i]) {
        skip_spaces(s, i + 1)
    } else {
        i
    }
}

/// The first index at or after `i` that holds whitespace.
pub open spec fn skip_word(s: Seq<char>, i: int) -> int
    decreases s.len() - i,
{
    if 0 <= i < s.len() && !is_space_char(s[i]) {
        skip_word(s, i + 1)
    } else {
        i
    }
}

proof fn lemma_skip_spaces_bounds(s: Seq<char>, i: int)
    requires
        0 <= i <= s.len(),
    ensures
        i <= skip_spaces(s, i) <= s.len(),
    decreases s.len() - i,
{
    if i < s.len() && is_space_char(s[i]) {
        lemma_skip_spaces_bounds(s, i + 1);
    }
}

proof fn lemma_skip_word_bounds(s: Seq<char>, i: int)
    requires
        0 <= i <= s.len(),
    ensures
        i <= skip_word(s, i) <= s.len(),
    decreases s.len() - i,
{
    if i < s.len() && !is_space_char(s[i]) {
        lemma_skip_word_bounds(s, i + 1);
    }
}

/// One scanning step at index `i`: the line increment, the word increment,
/// and the index where the next step starts.
pub open spec fn wc_step(s: Seq<char>, i: int) -> (int, int, int) {
    if s[i] == '\r' {
        if i + 1 < s.len() && s[i + 1] == '\n' {
            (1, 0, i + 2)
        } else {
            (1, 0, i + 1)
        }
    } else if s[i] == '\n' {
        (1, 0, i + 1)
    } else if is_space_char(s[i]) {
        (0, 0, skip_spaces(s, i + 1))
    } else {
        (0, 1, skip_word(s, i + 1))
    }
}

/// Where the next step starts, kept inside the bounds that every real scan
/// observes (the clamping is vacuous for indices reached by a scan).
pub open spec fn wc_next(s: Seq<char>, i: int) -> int {
    let nx = wc_step(s, i).2;
    if nx < i + 1 {
        i + 1
    } else if nx > s.len() {
        s.len() as int
    } else {
        nx
    }
}

/// The line and word counts accumulated from index `i` to the end.
pub open spec fn wc_counts(s: Seq<char>, i: int) -> (int, int)
    decreases s.len() - i,
{
    if i < 0 || i >= s.len() {
        (0, 0)
    } else {
        let step = wc_step(s, i);
        let rest = wc_counts(s, wc_next(s, i));
        (step.0 + rest.0, step.1 + rest.1)
    }
}

proof fn lemma_wc_counts_bounds(s: Seq<char>, i: int)
    requires
        0 <= i <= s.len(),
    ensures
        0 <= wc_counts(s, i).0 <= s.len() - i,
        0 <= wc_counts(s, i).1 <= s.len() - i,
    decreases s.len() - i,
{
    if i < s.len() {
        lemma_wc_counts_bounds(s, wc_next(s, i));
    }
}

impl Counting {
    /// Advance one step: consume a line ending, a whitespace run or a word
    /// run starting at `*pos`, and add what it contributes to the counts the
    /// configuration asks for.  Returns false when the input is exhausted.
    pub fn scan(&mut self, chars: &[char], pos: &mut usize, counting_config: CountingConfig) -> (r:
        bool)
        requires
            *old(pos) <= chars@.len(),
            counting_config.count_line ==> old(self).line_count is Some && old(
                self,
            ).line_count->0 < usize::MAX,
            counting_config.count_word ==> old(self).word_count is Some && old(
                self,
            ).word_count->0 < usize::MAX,
        ensures
            r == (*old(pos) < chars@.len()),
            !r ==> *final(pos) == *old(pos) && *final(self) == *old(self),
            r ==> *final(pos) == wc_next(chars@, *old(pos) as int),
            r ==> *old(pos) < *final(pos) <= chars@.len(),
            r ==> final(self).character_or_byte_count == old(self).character_or_byte_count,
            r && counting_config.count_line ==> final(self).line_count == Some(
                (old(self).line_count->0 + wc_step(chars@, *old(pos) as int).0) as usize,
            ),
            r && !counting_config.count_line ==> final(self).line_count == old(self).line_count,
            r && counting_config.count_word ==> final(self).word_count == Some(
                (old(self).word_count->0 + wc_step(chars@, *old(pos) as int).1) as usize,
            ),
            r && !counting_config.count_word ==> final(self).word_count == old(self).word_count,
    {
        let i = *pos;
        if i == chars.len() {
            return false;
        }
        let ghost s = chars@;
        let c = chars[i];
        if c == '\r' {
            if counting_config.count_line {
                self.line_count = Some(self.line_count.unwrap() + 1);
            }
            if i + 1 < chars.len() && chars[i + 1] == '\n' {
                *pos = i + 2;
            } else {
                *pos = i + 1;
            }
        } else if c == '\n' {
            if counting_config.count_line {
                self.line_count = Some(self.line_count.unwrap() + 1);
            }
            *pos = i + 1;
        } else if char_is_space(c) {
            let mut j = i + 1;
            while j < chars.len() && char_is_space(chars[j])
                invariant
                    s == chars@,
                    i + 1 <= j <= s.len(),
                    skip_spaces(s, i + 1) == skip_spaces(s, j as int),
                decreases s.len() - j,
            {
                j = j + 1;
            }
            proof {
                lemma_skip_spaces_bounds(s, i + 1);
            }
            *pos = j;
        } else {
            if counting_config.count_word {
                self.word_count = Some(self.word_count.unwrap() + 1);
            }
            let mut j = i + 1;
            while j < chars.len() && !char_is_space(chars[j])
                invariant
                    s == chars@,
                    i + 1 <= j <= s.len(),
                    skip_word(s, i + 1) == skip_word(s, j as int),
                decreases s.len() - j,
            {
                j = j + 1;
            }
            proof {
                lemma_skip_word_bounds(s, i + 1);
            }
            *pos = j;
        }
        true
    }

    /// Count the text's lines and words by scanning, and its characters or
    /// bytes directly, as the configuration asks.
    pub fn count_from_str(str: &str, counting_config: CountingConfig) -> (r: Counting)
        ensures
            r.line_count == if counting_config.count_line {
                Some(wc_counts(str@, 0).0 as usize)
            } else {
                None::<usize>
            },
            r.word_count == if counting_config.count_word {
                Some(wc_counts(str@, 0).1 as usize)
            } else {
                None::<usize>
            },
            r.character_or_byte_count == match counting_config.character_counting {
                Some(CharacterCounting::ByChars) => Some(str@.len() as usize),
                Some(CharacterCounting::ByBytes) => Some(encode_utf8(str@).len() as usize),
                None => None::<usize>,
            },
    {
        let chars = to_chars(str);
        let n = chars.len();
        let mut counting = Counting {
            line_count: if counting_config.count_line {
                Some(0)
            } else {
                None
            },
            word_count: if counting_config.count_word {
                Some(0)
            } else {
                None
            },
            character_or_byte_count: match counting_config.character_counting {
                Some(CharacterCounting::ByChars) => Some(str.unicode_len()),
                Some(CharacterCounting::ByBytes) => Some(str.len()),
                None => None,
            },
        };

        let ghost s = str@;
        let mut pos: usize = 0;
        proof {
            lemma_wc_counts_bounds(s, 0);
        }
        while pos < n
            invariant
                chars@ == s,
                n == s.len(),
                pos <= n,
                counting.line_count is Some <==> counting_config.count_line,
                counting.word_count is Some <==> counting_config.count_word,
                counting_config.count_line ==> counting.line_count->0 + wc_counts(
                    s,
                    pos as int,
                ).0 == wc_counts(s, 0).0 && counting.line_count->0 <= pos,
                counting_config.count_word ==> counting.word_count->0 + wc_counts(
                    s,
                    pos as int,
                ).1 == wc_counts(s, 0).1 && counting.word_count->0 <= pos,
                counting.character_or_byte_count == match counting_config.character_counting {
                    Some(CharacterCounting::ByChars) => Some(s.len() as usize),
                    Some(CharacterCounting::ByBytes) => Some(encode_utf8(s).len() as usize),
                    None => None::<usize>,
                },
            decreases n - pos,
        {
            proof {
                lemma_wc_counts_bounds(s, pos as int);
                lemma_wc_counts_bounds(s, wc_next(s, pos as int));
            }
            let _ = counting.scan(chars.as_slice(), &mut pos, counting_config);
        }
        counting
    }
}

} // verus!
