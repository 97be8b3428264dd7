//! The selector-range engine: a validating parser for `cut`-style range
//! lists (`"1,3-5"`), and extractors that apply the parsed ranges to the
//! characters, bytes or fields of one record.
//!
//! A selector is split on `,` into tokens; each token is either a single
//! positive number `n` (one-based, yielding the half-open range `n-1..n`) or
//! a pair `lower-upper` (yielding `lower-1..upper`).  Zero bounds, stray `+`
//! signs, inverted pairs and anything that is not a number are rejected, and
//! the first bad token fails the whole parse.  Extraction walks the ranges
//! in selector order and skips — never clips — any range that does not fit
//! inside the record.

use vstd::prelude::*;

use crate::text::chars_contain;
use crate::text::dec_repr;
use crate::text::dec_value;
use crate::text::from_chars;
use crate::text::has_char;
use crate::text::parse_usize;
use crate::text::parses_as_usize;
use crate::text::push_char;
use crate::text::push_usize;
use crate::text::split_chars;
use crate::text::split_on;
use crate::text::to_chars;
use crate::text::unsigned_digits;
use crate::text::utf8_lossy;
use crate::text::utf8_lossy_string;
use vstd::string::StringExecFns;

verus! {

// ---------------------------------------------------------------------------
// Spans
// ---------------------------------------------------------------------------
/// A half-open range of zero-based indices into a record.  The parser only
/// ever produces well-formed spans (`start < end`); `Span::new` is the one
/// checked constructor for callers that build spans by hand.
#[derive(Debug, Clone, Copy, PartialEq, Eq, Structural, Hash)]
pub struct Span {
    pub start: usize,
    pub end: usize,
}

impl Span {
    /// A span is well formed when it is neither empty nor inverted.
    pub open spec fn wf(self) -> bool {
        self.start < self.end
    }

    pub fn new(start: usize, end: usize) -> (r: Span)
        requires
            start < end,
        ensures
            r == (Span { start, end }),
    {
        Span { start, end }
    }
}

/// The granularity at which ranges are applied to a record.
#[derive(Debug, Clone, Copy, PartialEq, Eq, PartialOrd, Ord, Hash)]
pub enum ExtractKind {
    Fields,
    Bytes,
    Chars,
}

/// One extraction request: a granularity and the parsed ranges.
#[derive(Debug, Clone, PartialEq, Eq, Hash)]
pub struct Extract {
    pub kind: ExtractKind,
    pub ranges: Vec<Span>,
}

/// Where the records come from.
#[derive(Debug, Clone, PartialEq, Eq, PartialOrd, Ord, Hash)]
pub enum Input {
    Files(Vec<String>),
    Stdin,
}

// ---------------------------------------------------------------------------
// Parsing: specification
// ---------------------------------------------------------------------------
/// The ways a selector token can be rejected.  `Illegal` carries the text
/// shown in the message: the offending token, or `"0"` for a zero bound of
/// a dashed pair.
pub enum RangeIssue {
    Illegal(Seq<char>),
    Inverted(nat, nat),
}

/// The user-visible message for a rejected selector.
pub open spec fn issue_message(e: RangeIssue) -> Seq<char> {
    match e {
        RangeIssue::Illegal(t) => "illegal list value: \""@ + t + "\""@,
        RangeIssue::Inverted(lo, hi) => "First number in range ("@ + dec_repr(lo)
            + ") must be lower than second number ("@ + dec_repr(hi) + ")"@,
    }
}

/// What one selector token means.  A dashed token must be exactly two
/// `+`-free numerals with positive, ordered values; a plain token must be a
/// single `+`-free positive numeral.
pub open spec fn classify_token(t: Seq<char>) -> Result<Span, RangeIssue> {
    if has_char(t, '-') {
        let parts = split_on(t, '-');
        if parts.len() != 2 {
            Err(RangeIssue::Illegal(t))
        } else if has_char(parts[0], '+') || has_char(parts[1], '+') {
            Err(RangeIssue::Illegal(t))
        } else if !parses_as_usize(parts[0]) || !parses_as_usize(parts[1]) {
            Err(RangeIssue::Illegal(t))
        } else {
            let lo = dec_value(parts[0]);
            let hi = dec_value(parts[1]);
            if lo == 0 || hi == 0 {
                Err(RangeIssue::Illegal(dec_repr(0)))
            } else if lo > hi {
                Err(RangeIssue::Inverted(lo, hi))
            } else {
                Ok(Span { start: (lo - 1) as usize, end: hi as usize })
            }
        }
    } else {
        if has_char(t, '+') {
            Err(RangeIssue::Illegal(t))
        } else if !parses_as_usize(t) || dec_value(t) == 0 {
            Err(RangeIssue::Illegal(t))
        } else {
            Ok(Span { start: (dec_value(t) - 1) as usize, end: dec_value(t) as usize })
        }
    }
}

/// Tokens are handled left to right; the first bad one fails the parse.
pub open spec fn parse_tokens(tokens: Seq<Seq<char>>) -> Result<Seq<Span>, RangeIssue>
    decreases tokens.len(),
{
    if tokens.len() == 0 {
        Ok(Seq::empty())
    } else {
        match classify_token(tokens[0]) {
            Err(e) => Err(e),
            Ok(sp) => match parse_tokens(tokens.drop_first()) {
                Err(e) => Err(e),
                Ok(rest) => Ok(seq![sp] + rest),
            },
        }
    }
}

/// What `parse_range` returns on a whole selector string.
pub open spec fn spec_parse_range(s: Seq<char>) -> Result<Seq<Span>, RangeIssue> {
    parse_tokens(split_on(s, ','))
}

proof fn lemma_parse_tokens_all_ok(tokens: Seq<Seq<char>>)
    requires
        forall|j: int| 0 <= j < tokens.len() ==> #[trigger] classify_token(tokens[j]) is Ok,
    ensures
        parse_tokens(tokens) is Ok,
        parse_tokens(tokens)->Ok_0.len() == tokens.len(),
        forall|j: int|
            0 <= j < tokens.len() ==> parse_tokens(tokens)->Ok_0[j] == #[trigger] classify_token(
                tokens[j],
            )->Ok_0,
    decreases tokens.len(),
{
    if tokens.len() > 0 {
        let rest = tokens.drop_first();
        assert forall|j: int| 0 <= j < rest.len() implies #[trigger] classify_token(
            rest[j],
        ) is Ok by {
            assert(rest[j] == tokens[j + 1]);
        }
        lemma_parse_tokens_all_ok(rest);
        assert forall|j: int|
            0 <= j < tokens.len() implies parse_tokens(tokens)->Ok_0[j] == #[trigger] classify_token(
            tokens[j],
        )->Ok_0 by {
            if j > 0 {
                assert(rest[j - 1] == tokens[j]);
                assert(parse_tokens(tokens)->Ok_0[j] == parse_tokens(rest)->Ok_0[j - 1]);
            }
        }
    }
}

proof fn lemma_parse_tokens_first_err(tokens: Seq<Seq<char>>, k: int)
    requires
        0 <= k < tokens.len(),
        forall|j: int| 0 <= j < k ==> #[trigger] classify_token(tokens[j]) is Ok,
        classify_token(tokens[k]) is Err,
    ensures
        parse_tokens(tokens) == Err::<Seq<Span>, RangeIssue>(classify_token(tokens[k])->Err_0),
    decreases k,
{
    if k > 0 {
        let rest = tokens.drop_first();
        assert forall|j: int| 0 <= j < k - 1 implies #[trigger] classify_token(
            rest[j],
        ) is Ok by {
            assert(rest[j] == tokens[j + 1]);
        }
        assert(rest[k - 1] == tokens[k]);
        lemma_parse_tokens_first_err(rest, k - 1);
    }
}

// ---------------------------------------------------------------------------
// Parsing: executable
// ---------------------------------------------------------------------------
/// A rejected selector.  The zero-bound case of a dashed pair is reported as
/// `IllegalListValue` carrying the text `"0"`.
#[derive(Debug, Clone, PartialEq, Eq, Hash)]
pub enum ParseRangeError {
    IllegalListValue(String),
    InvertedRange(usize, usize),
}

impl View for ParseRangeError {
    type V = RangeIssue;

    open spec fn view(&self) -> RangeIssue {
        match self {
            ParseRangeError::IllegalListValue(t) => RangeIssue::Illegal(t@),
            ParseRangeError::InvertedRange(lo, hi) => RangeIssue::Inverted(
                *lo as nat,
                *hi as nat,
            ),
        }
    }
}

impl ParseRangeError {
    /// The stable display string of the error.
    pub fn message(&self) -> (r: String)
        ensures
            r@ == issue_message(self@),
    {
        match self {
            ParseRangeError::IllegalListValue(t) => {
                let mut m = String::from_str("illegal list value: \"");
                m.append(t.as_str());
                m.append("\"");
                m
            },
            ParseRangeError::InvertedRange(lo, hi) => {
                let mut m = String::from_str("First number in range (");
                push_usize(&mut m, *lo);
                m.append(") must be lower than second number (");
                push_usize(&mut m, *hi);
                m.append(")");
                m
            },
        }
    }
}

fn illegal_token(token: &[char]) -> (r: ParseRangeError)
    ensures
        r@ == RangeIssue::Illegal(token@),
{
    ParseRangeError::IllegalListValue(from_chars(token))
}

fn parse_token(token: &[char]) -> (r: Result<Span, ParseRangeError>)
    ensures
        match r {
            Ok(sp) => classify_token(token@) == Ok::<Span, RangeIssue>(sp) && sp.wf(),
            Err(e) => classify_token(token@) is Err && e@ == classify_token(token@)->Err_0,
        },
{
    if chars_contain(token, '-') {
        let parts = split_chars(token, '-');
        let ghost parts_v = split_on(token@, '-');
        proof {
            assert(parts@.len() == parts_v.len());
        }
        if parts.len() != 2 {
            return Err(illegal_token(token));
        }
        assert(parts@[0].deep_view() == parts_v[0] && parts@[1].deep_view() == parts_v[1]);
        assert(parts@[0]@ =~= parts_v[0] && parts@[1]@ =~= parts_v[1]);
        if chars_contain(parts[0].as_slice(), '+') || chars_contain(parts[1].as_slice(), '+') {
            return Err(illegal_token(token));
        }
        let lo = match parse_usize(parts[0].as_slice()) {
            Some(n) => n,
            None => {
                return Err(illegal_token(token));
            },
        };
        let hi = match parse_usize(parts[1].as_slice()) {
            Some(n) => n,
            None => {
                return Err(illegal_token(token));
            },
        };
        proof {
            assert(unsigned_digits(parts_v[0]) =~= parts_v[0]);
            assert(unsigned_digits(parts_v[1]) =~= parts_v[1]);
        }
        if lo == 0 || hi == 0 {
            let mut zero = String::new();
            push_char(&mut zero, '0');
            proof {
                assert(Seq::<char>::empty().push('0') =~= dec_repr(0));
            }
            return Err(ParseRangeError::IllegalListValue(zero));
        }
        if lo > hi {
            return Err(ParseRangeError::InvertedRange(lo, hi));
        }
        Ok(Span { start: lo - 1, end: hi })
    } else {
        if chars_contain(token, '+') {
            return Err(illegal_token(token));
        }
        let n = match parse_usize(token) {
            Some(n) => n,
            None => {
                return Err(illegal_token(token));
            },
        };
        proof {
            assert(unsigned_digits(token@) =~= token@);
        }
        if n == 0 {
            return Err(illegal_token(token));
        }
        Ok(Span { start: n - 1, end: n })
    }
}

/// Parse a whole selector string into spans, one per token, in token order.
/// The parse fails on the first bad token, with the documented message; on
/// success every span is well formed.
pub fn parse_range(range_str: &str) -> (r: Result<Vec<Span>, ParseRangeError>)
    ensures
        match r {
            Ok(v) => spec_parse_range(range_str@) == Ok::<Seq<Span>, RangeIssue>(v@) && forall|
                i: int,
            |
                0 <= i < v@.len() ==> (#[trigger] v@[i]).wf(),
            Err(e) => spec_parse_range(range_str@) is Err && e@ == spec_parse_range(
                range_str@,
            )->Err_0,
        },
{
    let chars = to_chars(range_str);
    let tokens = split_chars(chars.as_slice(), ',');
    let ghost tokens_v = split_on(range_str@, ',');
    let mut result: Vec<Span> = Vec::new();
    let mut k: usize = 0;
    while k < tokens.len()
        invariant
            tokens_v == split_on(range_str@, ','),
            tokens.deep_view() == tokens_v,
            k <= tokens_v.len(),
            result@.len() == k,
            forall|j: int| 0 <= j < k ==> #[trigger] classify_token(tokens_v[j]) is Ok,
            forall|j: int|
                0 <= j < k ==> result@[j] == classify_token(tokens_v[j])->Ok_0 && (
                #[trigger] result@[j]).wf(),
        decreases tokens_v.len() - k,
    {
        assert(tokens@[k as int].deep_view() == tokens_v[k as int]);
        assert(tokens@[k as int]@ =~= tokens_v[k as int]);
        match parse_token(tokens[k].as_slice()) {
            Ok(sp) => {
                result.push(sp);
            },
            Err(e) => {
                proof {
                    lemma_parse_tokens_first_err(tokens_v, k as int);
                }
                return Err(e);
            },
        }
        k = k + 1;
    }
    proof {
        lemma_parse_tokens_all_ok(tokens_v);
        assert(result@ =~= parse_tokens(tokens_v)->Ok_0);
    }
    Ok(result)
}

// ---------------------------------------------------------------------------
// Extraction
// ---------------------------------------------------------------------------
/// What one span contributes: the selected units when the span fits inside
/// the record, and nothing at all otherwise.
pub open spec fn span_units<A>(units: Seq<A>, sp: Span) -> Seq<A> {
    if sp.start <= sp.end && sp.end <= units.len() {
        units.subrange(sp.start as int, sp.end as int)
    } else {
        Seq::empty()
    }
}

/// Extraction: the concatenation of every span's contribution, in selector
/// order.  Out-of-range spans are skipped entirely, never clipped.
pub open spec fn spec_extract<A>(units: Seq<A>, ranges: Seq<Span>) -> Seq<A>
    decreases ranges.len(),
{
    if ranges.len() == 0 {
        Seq::empty()
    } else {
        span_units(units, ranges[0]) + spec_extract(units, ranges.drop_first())
    }
}

proof fn lemma_spec_extract_push<A>(units: Seq<A>, ranges: Seq<Span>, sp: Span)
    ensures
        spec_extract(units, ranges.push(sp)) == spec_extract(units, ranges) + span_units(
            units,
            sp,
        ),
    decreases ranges.len(),
{
    let pushed = ranges.push(sp);
    if ranges.len() == 0 {
        assert(pushed[0] == sp);
        assert(pushed.drop_first() =~= Seq::<Span>::empty());
        assert(spec_extract(units, pushed.drop_first()) == Seq::<A>::empty());
        assert(spec_extract(units, pushed) == span_units(units, sp) + Seq::<A>::empty());
        assert(spec_extract(units, pushed) =~= spec_extract(units, ranges) + span_units(
            units,
            sp,
        ));
    } else {
        assert(pushed[0] == ranges[0]);
        assert(pushed.drop_first() =~= ranges.drop_first().push(sp));
        lemma_spec_extract_push(units, ranges.drop_first(), sp);
        assert(spec_extract(units, pushed) == span_units(units, ranges[0]) + spec_extract(
            units,
            ranges.drop_first().push(sp),
        ));
        assert(spec_extract(units, pushed) =~= spec_extract(units, ranges) + span_units(
            units,
            sp,
        ));
    }
}

/// Extract characters: the selected characters, concatenated in selector
/// order with no separator.
pub fn extract_chars(line: &str, char_ranges: &[Span]) -> (r: String)
    ensures
        r@ == spec_extract(line@, char_ranges@),
{
    let all_chars = to_chars(line);
    let mut result = String::new();
    let mut k: usize = 0;
    assert(char_ranges@.take(0) =~= Seq::<Span>::empty());
    while k < char_ranges.len()
        invariant
            all_chars@ == line@,
            k <= char_ranges@.len(),
            result@ == spec_extract(line@, char_ranges@.take(k as int)),
        decreases char_ranges@.len() - k,
    {
        let range = char_ranges[k];
        if range.end <= all_chars.len() && range.start <= range.end {
            let mut i = range.start;
            while i < range.end
                invariant
                    all_chars@ == line@,
                    range.start <= i <= range.end,
                    range.end <= line@.len(),
                    result@ == spec_extract(line@, char_ranges@.take(k as int)) + line@.subrange(
                        range.start as int,
                        i as int,
                    ),
                decreases range.end - i,
            {
                push_char(&mut result, all_chars[i]);
                assert(line@.subrange(range.start as int, i + 1 as int) =~= line@.subrange(
                    range.start as int,
                    i as int,
                ).push(line@[i as int]));
                i = i + 1;
            }
        }
        proof {
            lemma_spec_extract_push(line@, char_ranges@.take(k as int), char_ranges@[k as int]);
            assert(char_ranges@.take(k + 1 as int) =~= char_ranges@.take(k as int).push(
                char_ranges@[k as int],
            ));
        }
        k = k + 1;
    }
    assert(char_ranges@.take(char_ranges@.len() as int) =~= char_ranges@);
    result
}

/// Extract bytes: the selected bytes of the line's UTF-8 encoding,
/// concatenated in selector order, then decoded lossily (a cut that splits a
/// multi-byte character yields replacement characters, not an error).
pub fn extract_bytes(line: &str, byte_ranges: &[Span]) -> (r: String)
    ensures
        r@ == utf8_lossy(spec_extract(vstd::utf8::encode_utf8(line@), byte_ranges@)),
{
    let all_bytes = line.as_bytes();
    let ghost units = vstd::utf8::encode_utf8(line@);
    let mut bytes: Vec<u8> = Vec::new();
    let mut k: usize = 0;
    assert(byte_ranges@.take(0) =~= Seq::<Span>::empty());
    while k < byte_ranges.len()
        invariant
            all_bytes@ == units,
            k <= byte_ranges@.len(),
            bytes@ == spec_extract(units, byte_ranges@.take(k as int)),
        decreases byte_ranges@.len() - k,
    {
        let range = byte_ranges[k];
        if range.end <= all_bytes.len() && range.start <= range.end {
            let mut i = range.start;
            while i < range.end
                invariant
                    all_bytes@ == units,
                    range.start <= i <= range.end,
                    range.end <= units.len(),
                    bytes@ == spec_extract(units, byte_ranges@.take(k as int)) + units.subrange(
                        range.start as int,
                        i as int,
                    ),
                decreases range.end - i,
            {
                bytes.push(all_bytes[i]);
                assert(units.subrange(range.start as int, i + 1 as int) =~= units.subrange(
                    range.start as int,
                    i as int,
                ).push(units[i as int]));
                i = i + 1;
            }
        }
        proof {
            lemma_spec_extract_push(units, byte_ranges@.take(k as int), byte_ranges@[k as int]);
            assert(byte_ranges@.take(k + 1 as int) =~= byte_ranges@.take(k as int).push(
                byte_ranges@[k as int],
            ));
        }
        k = k + 1;
    }
    assert(byte_ranges@.take(byte_ranges@.len() as int) =~= byte_ranges@);
    utf8_lossy_string(bytes.as_slice())
}

/// Extract fields: the selected fields of an already-decoded record, in
/// selector order.  Joining them is left to the caller.
pub fn extract_fields(record: &Vec<String>, field_ranges: &[Span]) -> (r: Vec<String>)
    ensures
        r.deep_view() == spec_extract(record.deep_view(), field_ranges@),
{
    let ghost units = record.deep_view();
    let mut result: Vec<String> = Vec::new();
    let mut k: usize = 0;
    assert(field_ranges@.take(0) =~= Seq::<Span>::empty());
    assert(result.deep_view() =~= spec_extract(units, field_ranges@.take(0)));
    while k < field_ranges.len()
        invariant
            units == record.deep_view(),
            units.len() == record@.len(),
            forall|j: int| 0 <= j < record@.len() ==> units[j] == #[trigger] record@[j]@,
            k <= field_ranges@.len(),
            result.deep_view() == spec_extract(units, field_ranges@.take(k as int)),
        decreases field_ranges@.len() - k,
    {
        let range = field_ranges[k];
        if range.end <= record.len() && range.start <= range.end {
            let mut i = range.start;
            while i < range.end
                invariant
                    units == record.deep_view(),
                    units.len() == record@.len(),
                    forall|j: int| 0 <= j < record@.len() ==> units[j] == #[trigger] record@[j]@,
                    range.start <= i <= range.end,
                    range.end <= units.len(),
                    result.deep_view() == spec_extract(units, field_ranges@.take(k as int))
                        + units.subrange(range.start as int, i as int),
                decreases range.end - i,
            {
                let ghost old_result = result.deep_view();
                result.push(record[i].clone());
                proof {
                    assert(result.deep_view() =~~= old_result.push(units[i as int]));
                    assert(units.subrange(range.start as int, i + 1 as int) =~= units.subrange(
                        range.start as int,
                        i as int,
                    ).push(units[i as int]));
                }
                i = i + 1;
            }
        }
        proof {
            lemma_spec_extract_push(units, field_ranges@.take(k as int), field_ranges@[k as int]);
            assert(field_ranges@.take(k + 1 as int) =~= field_ranges@.take(k as int).push(
                field_ranges@[k as int],
            ));
        }
        k = k + 1;
    }
    assert(field_ranges@.take(field_ranges@.len() as int) =~= field_ranges@);
    result
}

// ---------------------------------------------------------------------------
// Stated laws
// ---------------------------------------------------------------------------
/// Parsing is deterministic: the outcome, ranges and their order included,
/// is a function of the selector text alone.
pub proof fn lemma_parse_range_deterministic(s1: Seq<char>, s2: Seq<char>)
    requires
        s1 == s2,
    ensures
        spec_parse_range(s1) == spec_parse_range(s2),
{
}

/// Extraction never clips: a range whose upper bound exceeds the record's
/// length contributes zero units, so removing it changes nothing, even if
/// part of the range would have fit.
pub proof fn lemma_out_of_range_contributes_nothing<A>(units: Seq<A>, ranges: Seq<Span>, k: int)
    requires
        0 <= k < ranges.len(),
        ranges[k].end > units.len(),
    ensures
        spec_extract(units, ranges) == spec_extract(units, ranges.remove(k)),
    decreases ranges.len(),
{
    if k == 0 {
        assert(ranges.remove(0) =~= ranges.drop_first());
    } else {
        lemma_out_of_range_contributes_nothing(units, ranges.drop_first(), k - 1);
        assert(ranges.remove(k).drop_first() =~= ranges.drop_first().remove(k - 1));
        assert(ranges.remove(k)[0] == ranges[0]);
    }
}

/// Extraction is idempotent: it has no state, so the same ranges applied to
/// the same record always reproduce the same output.
pub proof fn lemma_extract_deterministic<A>(
    units1: Seq<A>,
    units2: Seq<A>,
    ranges1: Seq<Span>,
    ranges2: Seq<Span>,
)
    requires
        units1 == units2,
        ranges1 == ranges2,
    ensures
        spec_extract(units1, ranges1) == spec_extract(units2, ranges2),
{
}

} // verus!
