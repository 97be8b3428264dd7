//! The last lines or bytes of a text, as the `tail` utility selects them:
//! a signed count is parsed from the command line, turned into an index
//! range over the lines or bytes, and the selected slice is produced.

use vstd::prelude::*;

use crate::text::i64_value;
use crate::text::parse_i64;
use crate::text::parses_as_i64;
use crate::text::split_chars;
use crate::text::split_on;
use crate::text::to_chars;
use crate::text::utf8_lossy;
use crate::text::utf8_lossy_string;
use vstd::utf8::encode_utf8;

verus! {

/// How many units to keep: `+0` means everything from the start; a signed
/// number counts from the start (positive) or from the end (negative).
#[derive(Debug, Clone, Copy, PartialEq, Eq, Structural, PartialOrd, Ord, Hash)]
pub enum TakeValue {
    PlusZero,
    TakeNum(i64),
}

/// Whether lines or raw bytes are shown.
#[derive(Debug, Clone, Copy, PartialEq, Eq, Structural, PartialOrd, Ord, Hash)]
pub enum DisplayMode {
    Bytes,
    Lines,
}

/// A count argument that is not a number.
#[derive(Debug, Clone, Copy, PartialEq, Eq, Structural, Hash)]
pub struct TakeValueError;

/// What `parse_take_value` yields: `+0` is the whole input; an explicit `+`
/// keeps the parsed value, anything else is negated (so plain numbers count
/// from the end).
pub open spec fn spec_take_value(s: Seq<char>) -> Result<TakeValue, TakeValueError> {
    if s == "+0"@ {
        Ok(TakeValue::PlusZero)
    } else if s.len() > 0 && s[0] == '+' {
        if parses_as_i64(s.skip(1)) {
            Ok(TakeValue::TakeNum(i64_value(s.skip(1)) as i64))
        } else {
            Err(TakeValueError)
        }
    } else {
        if parses_as_i64(s) {
            Ok(TakeValue::TakeNum((-i64_value(s)) as i64))
        } else {
            Err(TakeValueError)
        }
    }
}

/// Parse a take-value argument.  The one value whose negation does not fit
/// in the type is excluded: negating it would overflow.
pub fn parse_take_value(str: &str) -> (r: Result<TakeValue, TakeValueError>)
    requires
        (parses_as_i64(str@) && !(str@.len() > 0 && str@[0] == '+')) ==> i64_value(str@)
            != i64::MIN as int,
    ensures
        r == spec_take_value(str@),
{
    let chars = to_chars(str);
    proof {
        reveal_strlit("+0");
    }
    if chars.len() == 2 && chars[0] == '+' && chars[1] == '0' {
        assert(str@ =~= "+0"@);
        return Ok(TakeValue::PlusZero);
    }
    assert(str@ != "+0"@);
    if chars.len() > 0 && chars[0] == '+' {
        match parse_i64(&chars.as_slice()[1..chars.len()]) {
            Some(n) => {
                assert(chars@.subrange(1, chars@.len() as int) =~= str@.skip(1));
                Ok(TakeValue::TakeNum(n))
            },
            None => {
                assert(chars@.subrange(1, chars@.len() as int) =~= str@.skip(1));
                Err(TakeValueError)
            },
        }
    } else {
        match parse_i64(chars.as_slice()) {
            Some(n) => Ok(TakeValue::TakeNum(-n)),
            None => Err(TakeValueError),
        }
    }
}

/// The number of lines `str::lines` yields: one per `\n`-separated part,
/// except that a final empty part (a trailing newline) does not count.
pub open spec fn spec_line_count(s: Seq<char>) -> nat {
    let parts = split_on(s, '\n');
    if parts.last().len() == 0 {
        (parts.len() - 1) as nat
    } else {
        parts.len()
    }
}

/// Line and byte counts of a text.
#[derive(Debug, Clone, Copy, PartialEq, Eq, Structural, PartialOrd, Ord, Hash)]
pub struct Metadata {
    pub line_count: usize,
    pub byte_count: usize,
}

impl Metadata {
    /// Count the lines and the bytes of the text.
    pub fn get(str: &str) -> (r: Metadata)
        ensures
            r.line_count == spec_line_count(str@),
            r.byte_count == encode_utf8(str@).len(),
    {
        let chars = to_chars(str);
        let parts = split_chars(chars.as_slice(), '\n');
        let ghost parts_v = split_on(str@, '\n');
        proof {
            crate::text::lemma_split_on_nonempty(str@, '\n');
            assert(parts@[parts@.len() - 1].deep_view() == parts_v[parts_v.len() - 1]);
            assert(parts@[parts@.len() - 1]@ =~= parts_v[parts_v.len() - 1]);
        }
        let n = parts.len();
        let line_count = if parts[n - 1].len() == 0 {
            n - 1
        } else {
            n
        };
        let byte_count = str.as_bytes().len();
        Metadata { line_count, byte_count }
    }
}

/// The half-open index range that a take-value selects out of `upper_bound`
/// units: everything for `+0`, a start offset from the front for a
/// non-negative count, and the last `-n` units for a negative one.
pub open spec fn spec_take_range(take_value: TakeValue, upper_bound: usize) -> (usize, usize) {
    match take_value {
        TakeValue::PlusZero => (0, upper_bound),
        TakeValue::TakeNum(n) => if n >= 0 {
            if n <= upper_bound {
                (n as usize, upper_bound)
            } else {
                (upper_bound, upper_bound)
            }
        } else {
            if upper_bound + n >= 0 {
                ((upper_bound + n) as usize, upper_bound)
            } else {
                (0, upper_bound)
            }
        },
    }
}

/// Turn a take-value into the selected index range.
pub fn parse_take_value_to_range(take_value: TakeValue, upper_bound: usize) -> (r: (usize, usize))
    ensures
        r == spec_take_range(take_value, upper_bound),
        r.0 <= r.1 == upper_bound,
{
    match take_value {
        TakeValue::PlusZero => (0, upper_bound),
        TakeValue::TakeNum(n) => {
            if n >= 0 {
                if (n as u64) <= (upper_bound as u64) {
                    (n as usize, upper_bound)
                } else {
                    (upper_bound, upper_bound)
                }
            } else {
                let start = (upper_bound as i128) + (n as i128);
                if start >= 0 {
                    (start as usize, upper_bound)
                } else {
                    (0, upper_bound)
                }
            }
        },
    }
}

/// The byte ranges of the lines of a text, endings included: a line ends at
/// `\n` or `\r\n` or a lone `\r`, and a last unterminated line reaches the
/// end.  `start` is where the current line began, `i` where the scan stands.
pub open spec fn line_ranges(bytes: Seq<u8>, start: int, i: int) -> Seq<(int, int)>
    decreases bytes.len() - i,
{
    if i < 0 || i >= bytes.len() {
        if start != bytes.len() {
            seq![(start, bytes.len() as int)]
        } else {
            Seq::empty()
        }
    } else if bytes[i] == 10 {
        seq![(start, i + 1)] + line_ranges(bytes, i + 1, i + 1)
    } else if bytes[i] == 13 {
        if i + 1 < bytes.len() && bytes[i + 1] == 10 {
            seq![(start, i + 2)] + line_ranges(bytes, i + 2, i + 2)
        } else {
            seq![(start, i + 1)] + line_ranges(bytes, i + 1, i + 1)
        }
    } else {
        line_ranges(bytes, start, i + 1)
    }
}

proof fn lemma_line_ranges_wf(bytes: Seq<u8>, start: int, i: int)
    requires
        0 <= start <= i <= bytes.len(),
    ensures
        forall|k: int|
            0 <= k < line_ranges(bytes, start, i).len() ==> start <= (#[trigger] line_ranges(
                bytes,
                start,
                i,
            )[k]).0 < line_ranges(bytes, start, i)[k].1 <= bytes.len(),
    decreases bytes.len() - i,
{
    let rr = line_ranges(bytes, start, i);
    if i < bytes.len() {
        if bytes[i] == 10 {
            lemma_line_ranges_wf(bytes, i + 1, i + 1);
            let sub = line_ranges(bytes, i + 1, i + 1);
            assert forall|k: int| 0 <= k < rr.len() implies start <= (#[trigger] rr[k]).0
                < rr[k].1 <= bytes.len() by {
                if k > 0 {
                    assert(rr[k] == sub[k - 1]);
                }
            }
        } else if bytes[i] == 13 {
            if i + 1 < bytes.len() && bytes[i + 1] == 10 {
                lemma_line_ranges_wf(bytes, i + 2, i + 2);
                let sub = line_ranges(bytes, i + 2, i + 2);
                assert forall|k: int| 0 <= k < rr.len() implies start <= (#[trigger] rr[k]).0
                    < rr[k].1 <= bytes.len() by {
                    if k > 0 {
                        assert(rr[k] == sub[k - 1]);
                    }
                }
            } else {
                lemma_line_ranges_wf(bytes, i + 1, i + 1);
                let sub = line_ranges(bytes, i + 1, i + 1);
                assert forall|k: int| 0 <= k < rr.len() implies start <= (#[trigger] rr[k]).0
                    < rr[k].1 <= bytes.len() by {
                    if k > 0 {
                        assert(rr[k] == sub[k - 1]);
                    }
                }
            }
        } else {
            lemma_line_ranges_wf(bytes, start, i + 1);
            let sub = line_ranges(bytes, start, i + 1);
            assert forall|k: int| 0 <= k < rr.len() implies start <= (#[trigger] rr[k]).0
                < rr[k].1 <= bytes.len() by {
                assert(rr[k] == sub[k]);
            }
        }
    }
}

/// The integer views of a vector of index pairs.
pub open spec fn pair_views(v: Seq<(usize, usize)>) -> Seq<(int, int)> {
    v.map_values(|p: (usize, usize)| (p.0 as int, p.1 as int))
}

/// The byte range of every line of the text, in order.
pub fn get_line_byte_positions(text: &str) -> (r: Vec<(usize, usize)>)
    ensures
        pair_views(r@) == line_ranges(encode_utf8(text@), 0, 0),
        forall|k: int|
            0 <= k < r@.len() ==> (#[trigger] r@[k]).0 < r@[k].1 <= encode_utf8(text@).len(),
{
    let all_bytes = text.as_bytes();
    let ghost bytes_v = encode_utf8(text@);
    let n = all_bytes.len();
    let mut results: Vec<(usize, usize)> = Vec::new();
    let mut current_position: usize = 0;
    let mut i: usize = 0;
    assert(pair_views(results@) =~= Seq::<(int, int)>::empty());
    while i < n
        invariant
            all_bytes@ == bytes_v,
            n == bytes_v.len(),
            current_position <= i <= n,
            pair_views(results@) + line_ranges(bytes_v, current_position as int, i as int)
                =~= line_ranges(bytes_v, 0, 0),
            forall|k: int|
                0 <= k < results@.len() ==> (#[trigger] results@[k]).0 < results@[k].1 <= n,
        decreases n - i,
    {
        let ghost old_results = results@;
        let b = all_bytes[i];
        if b == 10 {
            results.push((current_position, i + 1));
            proof {
                assert(pair_views(results@) =~= pair_views(old_results).push(
                    (current_position as int, i + 1 as int),
                ));
            }
            current_position = i + 1;
            i = i + 1;
        } else if b == 13 {
            if i + 1 < n && all_bytes[i + 1] == 10 {
                results.push((current_position, i + 2));
                proof {
                    assert(pair_views(results@) =~= pair_views(old_results).push(
                        (current_position as int, i + 2 as int),
                    ));
                }
                current_position = i + 2;
                i = i + 2;
            } else {
                results.push((current_position, i + 1));
                proof {
                    assert(pair_views(results@) =~= pair_views(old_results).push(
                        (current_position as int, i + 1 as int),
                    ));
                }
                current_position = i + 1;
                i = i + 1;
            }
        } else {
            i = i + 1;
        }
    }
    if current_position != n {
        let ghost old_results = results@;
        results.push((current_position, n));
        proof {
            assert(pair_views(results@) =~= pair_views(old_results).push(
                (current_position as int, n as int),
            ));
        }
    }
    results
}

/// The bytes of the selected ranges, concatenated in order.
pub open spec fn cat_ranges(bytes: Seq<u8>, ranges: Seq<(int, int)>, from: int, to: int) -> Seq<
    u8,
>
    decreases to - from,
{
    if from < 0 || to <= from || to > ranges.len() {
        Seq::empty()
    } else {
        cat_ranges(bytes, ranges, from, to - 1) + bytes.subrange(
            ranges[to - 1].0,
            ranges[to - 1].1,
        )
    }
}

/// The bytes that a take-value selects when whole lines are kept.
pub open spec fn spec_lines_selection(s: Seq<char>, take_value: TakeValue) -> Seq<u8> {
    let bytes = encode_utf8(s);
    let ranges = line_ranges(bytes, 0, 0);
    let rg = spec_take_range(take_value, ranges.len() as usize);
    cat_ranges(bytes, ranges, rg.0 as int, rg.1 as int)
}

/// The last (or first) lines of the text, endings included, decoded lossily.
pub fn get_lines(str: &str, take_value: TakeValue) -> (r: String)
    ensures
        r@ == utf8_lossy(spec_lines_selection(str@, take_value)),
{
    let all_bytes = str.as_bytes();
    let ghost bytes_v = encode_utf8(str@);
    let line_positions = get_line_byte_positions(str);
    let ghost ranges_v = line_ranges(bytes_v, 0, 0);
    let range = parse_take_value_to_range(take_value, line_positions.len());
    let mut selected: Vec<u8> = Vec::new();
    let mut k = range.0;
    assert(cat_ranges(bytes_v, ranges_v, range.0 as int, k as int) =~= Seq::<u8>::empty());
    while k < range.1
        invariant
            all_bytes@ == bytes_v,
            pair_views(line_positions@) == ranges_v,
            line_positions@.len() == ranges_v.len(),
            forall|j: int|
                0 <= j < line_positions@.len() ==> (#[trigger] line_positions@[j]).0
                    < line_positions@[j].1 <= bytes_v.len(),
            range.0 <= k <= range.1 <= line_positions@.len(),
            selected@ == cat_ranges(bytes_v, ranges_v, range.0 as int, k as int),
        decreases range.1 - k,
    {
        let (a, b) = line_positions[k];
        assert(ranges_v[k as int] == (a as int, b as int));
        selected.extend_from_slice(&all_bytes[a..b]);
        k = k + 1;
    }
    utf8_lossy_string(selected.as_slice())
}

/// The last (or first) bytes of the text, decoded lossily.
pub fn get_bytes(str: &str, take_value: TakeValue) -> (r: String)
    ensures
        r@ == utf8_lossy(
            encode_utf8(str@).subrange(
                spec_take_range(take_value, encode_utf8(str@).len() as usize).0 as int,
                spec_take_range(take_value, encode_utf8(str@).len() as usize).1 as int,
            ),
        ),
{
    let all_bytes = str.as_bytes();
    let range = parse_take_value_to_range(take_value, all_bytes.len());
    utf8_lossy_string(&all_bytes[range.0..range.1])
}

} // verus!
