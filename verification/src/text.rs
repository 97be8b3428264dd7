//! Shared verified text helpers: character classes, conversions between
//! strings and character vectors, splitting on a separator, and decimal
//! parsing and formatting.

use vstd::prelude::*;

verus! {

// ---------------------------------------------------------------------------
// Character classes
// ---------------------------------------------------------------------------
/// An ASCII decimal digit.
pub open spec fn is_digit_char(c: char) -> bool {
    48 <= c as u32 && c as u32 <= 57
}

/// The numeric value of an ASCII decimal digit.
pub open spec fn digit_val(c: char) -> nat {
    (c as u32 - 48) as nat
}

pub fn char_is_digit(c: char) -> (r: bool)
    ensures
        r == is_digit_char(c),
{
    let u = c as u32;
    48 <= u && u <= 57
}

// ---------------------------------------------------------------------------
// Conversions between &str and Vec<char>
// ---------------------------------------------------------------------------
/// Relies on `String::push`: appends one character to the end of the string.
#[verifier::external_body]
pub(crate) fn push_char(s: &mut String, c: char)
    ensures
        final(s)@ == old(s)@.push(c),
{
    s.push(c)
}

/// The characters of a string slice, as a vector.
pub fn to_chars(s: &str) -> (r: Vec<char>)
    ensures
        r@ == s@,
{
    let n = s.unicode_len();
    let mut r: Vec<char> = Vec::new();
    let mut i: usize = 0;
    while i < n
        invariant
            n == s@.len(),
            i <= n,
            r@ == s@.take(i as int),
        decreases n - i,
    {
        r.push(s.get_char(i));
        assert(s@.take(i + 1 as int) =~= s@.take(i as int).push(s@[i as int]));
        i = i + 1;
    }
    assert(s@.take(n as int) =~= s@);
    r
}

/// The string made of the given characters.
pub fn from_chars(v: &[char]) -> (r: String)
    ensures
        r@ == v@,
{
    let mut r = String::new();
    let mut i: usize = 0;
    while i < v.len()
        invariant
            i <= v@.len(),
            r@ == v@.take(i as int),
        decreases v@.len() - i,
    {
        push_char(&mut r, v[i]);
        assert(v@.take(i + 1 as int) =~= v@.take(i as int).push(v@[i as int]));
        i = i + 1;
    }
    assert(v@.take(v@.len() as int) =~= v@);
    r
}

/// A Unicode whitespace character, as `char::is_whitespace` classifies them:
/// the `White_Space` property.
pub open spec fn is_space_char(c: char) -> bool {
    let u = c as u32;
    (9 <= u && u <= 13) || u == 0x20 || u == 0x85 || u == 0xA0 || u == 0x1680 || (0x2000 <= u && u
        <= 0x200A) || u == 0x2028 || u == 0x2029 || u == 0x202F || u == 0x205F || u == 0x3000
}

/// `char::is_whitespace`, written out over the `White_Space` code points.
pub fn char_is_space(c: char) -> (r: bool)
    ensures
        r == is_space_char(c),
{
    let u = c as u32;
    (9 <= u && u <= 13) || u == 0x20 || u == 0x85 || u == 0xA0 || u == 0x1680 || (0x2000 <= u && u
        <= 0x200A) || u == 0x2028 || u == 0x2029 || u == 0x202F || u == 0x205F || u == 0x3000
}

// ---------------------------------------------------------------------------
// Whitespace-separated words
// ---------------------------------------------------------------------------
/// The whitespace-separated words of a sequence, as `str::split_whitespace`
/// yields them: maximal runs of non-whitespace characters, with no empty
/// words.
pub open spec fn split_ws(s: Seq<char>) -> Seq<Seq<char>>
    decreases s.len(),
{
    if s.len() == 0 {
        Seq::empty()
    } else if is_space_char(s[0]) {
        split_ws(s.drop_first())
    } else {
        let rest = split_ws(s.drop_first());
        if s.len() > 1 && !is_space_char(s[1]) {
            rest.update(0, seq![s[0]] + rest[0])
        } else {
            seq![seq![s[0]]] + rest
        }
    }
}

/// A word of `split_ws` can be peeled off whole: if `s` starts with a word
/// that runs up to index `j`, the split is that word followed by the split of
/// the rest.
pub proof fn lemma_split_ws_word(s: Seq<char>, j: int)
    requires
        0 < j <= s.len(),
        forall|k: int| 0 <= k < j ==> !is_space_char(s[k]),
        j == s.len() || is_space_char(s[j]),
    ensures
        split_ws(s) == seq![s.take(j)] + split_ws(s.skip(j)),
    decreases j,
{
    let rest = s.drop_first();
    if j == 1 {
        if s.len() == 1 {
            assert(s.take(1) =~= s);
            assert(s.skip(1) =~= Seq::<char>::empty());
            assert(split_ws(s) =~= seq![seq![s[0]]] + split_ws(s.skip(1)));
            assert(seq![s[0]] =~= s.take(1));
        } else {
            assert(is_space_char(s[1]));
            assert(split_ws(s) == seq![seq![s[0]]] + split_ws(rest));
            assert(s.skip(1) =~= rest);
            assert(seq![s[0]] =~= s.take(1));
            assert(seq![seq![s[0]]] =~= seq![s.take(1)]);
        }
    } else {
        assert(!is_space_char(s[1]));
        assert forall|k: int| 0 <= k < j - 1 implies !is_space_char(rest[k]) by {
            assert(rest[k] == s[k + 1]);
        }
        assert(j - 1 == rest.len() || is_space_char(rest[j - 1]));
        lemma_split_ws_word(rest, j - 1);
        let inner = split_ws(rest);
        assert(inner == seq![rest.take(j - 1)] + split_ws(rest.skip(j - 1)));
        assert(inner[0] == rest.take(j - 1));
        assert(split_ws(s) == inner.update(0, seq![s[0]] + inner[0]));
        assert(seq![s[0]] + rest.take(j - 1) =~= s.take(j));
        assert(rest.skip(j - 1) =~= s.skip(j));
        assert(inner.update(0, seq![s[0]] + inner[0]) =~= seq![s.take(j)] + split_ws(s.skip(j)));
    }
}

/// What `str::split_whitespace` yields on the characters.
pub fn split_whitespace_chars(s: &[char]) -> (r: Vec<Vec<char>>)
    ensures
        r.deep_view() == split_ws(s@),
{
    let n = s.len();
    let mut result: Vec<Vec<char>> = Vec::new();
    let mut i: usize = 0;
    assert(s@.skip(0) =~= s@);
    while i < n
        invariant
            n == s@.len(),
            i <= n,
            result.deep_view() + split_ws(s@.skip(i as int)) =~~= split_ws(s@),
        decreases n - i,
    {
        if char_is_space(s[i]) {
            proof {
                assert(s@.skip(i as int).drop_first() =~= s@.skip(i + 1 as int));
            }
            i = i + 1;
        } else {
            let mut j = i + 1;
            while j < n && !char_is_space(s[j])
                invariant
                    n == s@.len(),
                    i < j <= n,
                    forall|k: int| i <= k < j ==> !is_space_char(s@[k]),
                decreases n - j,
            {
                j = j + 1;
            }
            let mut word: Vec<char> = Vec::new();
            let mut k = i;
            while k < j
                invariant
                    n == s@.len(),
                    i <= k <= j <= n,
                    word@ == s@.subrange(i as int, k as int),
                decreases j - k,
            {
                word.push(s[k]);
                assert(s@.subrange(i as int, k + 1 as int) =~= s@.subrange(i as int, k as int).push(
                    s@[k as int],
                ));
                k = k + 1;
            }
            proof {
                let tail = s@.skip(i as int);
                assert forall|m: int| 0 <= m < j - i implies !is_space_char(tail[m]) by {
                    assert(tail[m] == s@[i + m]);
                }
                assert(j == n || is_space_char(tail[j - i]));
                lemma_split_ws_word(tail, j - i);
                assert(tail.take(j - i) =~= s@.subrange(i as int, j as int));
                assert(tail.skip(j - i) =~= s@.skip(j as int));
            }
            let ghost old_view = result.deep_view();
            result.push(word);
            proof {
                assert(result.deep_view() =~~= old_view.push(s@.subrange(i as int, j as int)));
            }
            i = j;
        }
    }
    proof {
        assert(s@.skip(n as int) =~= Seq::<char>::empty());
        assert(result.deep_view() + Seq::<Seq<char>>::empty() =~~= result.deep_view());
    }
    result
}

// ---------------------------------------------------------------------------
// Hexadecimal digits
// ---------------------------------------------------------------------------
/// An ASCII hexadecimal digit, either case.
pub open spec fn is_hex_digit_char(c: char) -> bool {
    let u = c as u32;
    (48 <= u && u <= 57) || (97 <= u && u <= 102) || (65 <= u && u <= 70)
}

/// The value of an ASCII hexadecimal digit.
pub open spec fn hex_val(c: char) -> nat {
    let u = c as u32;
    if 48 <= u && u <= 57 {
        (u - 48) as nat
    } else if 97 <= u && u <= 102 {
        (u - 87) as nat
    } else {
        (u - 55) as nat
    }
}

/// Whether `u8::from_str_radix` with radix 16 accepts a two-character pair:
/// two hexadecimal digits, or a `+` followed by one.
pub open spec fn parses_as_hex_pair(s: Seq<char>) -> bool {
    s.len() == 2 && ((is_hex_digit_char(s[0]) && is_hex_digit_char(s[1])) || (s[0] == '+'
        && is_hex_digit_char(s[1])))
}

/// The value of an accepted two-character pair.
pub open spec fn hex_pair_value(s: Seq<char>) -> nat {
    if s[0] == '+' {
        hex_val(s[1])
    } else {
        hex_val(s[0]) * 16 + hex_val(s[1])
    }
}

fn char_hex_val(c: char) -> (r: Option<u8>)
    ensures
        r is Some <==> is_hex_digit_char(c),
        r is Some ==> r->0 == hex_val(c) && r->0 < 16,
{
    let u = c as u32;
    if 48 <= u && u <= 57 {
        Some((u - 48) as u8)
    } else if 97 <= u && u <= 102 {
        Some((u - 87) as u8)
    } else if 65 <= u && u <= 70 {
        Some((u - 55) as u8)
    } else {
        None
    }
}

/// What `u8::from_str_radix(.., 16)` returns on a two-character slice.
pub fn parse_hex_pair(s: &[char]) -> (r: Option<u8>)
    requires
        s@.len() == 2,
    ensures
        r is Some <==> parses_as_hex_pair(s@),
        r is Some ==> r->0 == hex_pair_value(s@) && hex_pair_value(s@) < 256,
{
    if s[0] == '+' {
        match char_hex_val(s[1]) {
            Some(v) => Some(v),
            None => None,
        }
    } else {
        match (char_hex_val(s[0]), char_hex_val(s[1])) {
            (Some(hi), Some(lo)) => Some(hi * 16 + lo),
            _ => None,
        }
    }
}

// ---------------------------------------------------------------------------
// Hexadecimal formatting
// ---------------------------------------------------------------------------
/// The upper-case hexadecimal character for one digit value.
pub open spec fn hex_digit_char(d: nat) -> char {
    if d == 0 {
        '0'
    } else if d == 1 {
        '1'
    } else if d == 2 {
        '2'
    } else if d == 3 {
        '3'
    } else if d == 4 {
        '4'
    } else if d == 5 {
        '5'
    } else if d == 6 {
        '6'
    } else if d == 7 {
        '7'
    } else if d == 8 {
        '8'
    } else if d == 9 {
        '9'
    } else if d == 10 {
        'A'
    } else if d == 11 {
        'B'
    } else if d == 12 {
        'C'
    } else if d == 13 {
        'D'
    } else if d == 14 {
        'E'
    } else {
        'F'
    }
}

/// A byte as exactly two upper-case hexadecimal characters.
pub open spec fn hex_byte_repr(b: u8) -> Seq<char> {
    seq![hex_digit_char((b >> 4) as nat), hex_digit_char((b & 0x0F) as nat)]
}

fn hex_digit_to_char(d: u8) -> (r: char)
    requires
        d < 16,
    ensures
        r == hex_digit_char(d as nat),
{
    match d {
        0 => '0',
        1 => '1',
        2 => '2',
        3 => '3',
        4 => '4',
        5 => '5',
        6 => '6',
        7 => '7',
        8 => '8',
        9 => '9',
        10 => 'A',
        11 => 'B',
        12 => 'C',
        13 => 'D',
        14 => 'E',
        _ => 'F',
    }
}

/// Append a byte as two upper-case hexadecimal characters, as the format
/// `{:02X}` renders it.
pub fn push_hex_byte(out: &mut String, b: u8)
    ensures
        final(out)@ == old(out)@ + hex_byte_repr(b),
{
    let hi = b >> 4;
    let lo = b & 0x0F;
    assert(hi < 16 && lo < 16) by (bit_vector)
        requires
            hi == b >> 4,
            lo == b & 0x0F,
    ;
    push_char(out, hex_digit_to_char(hi));
    push_char(out, hex_digit_to_char(lo));
    assert(old(out)@.push(hex_digit_char(hi as nat)).push(hex_digit_char(lo as nat)) =~= old(out)@
        + hex_byte_repr(b));
}

// ---------------------------------------------------------------------------
// Lossy UTF-8 decoding
// ---------------------------------------------------------------------------
/// The characters that lossy UTF-8 decoding yields on arbitrary bytes.  The
/// substitution of replacement characters for ill-formed sequences follows a
/// fixed rule of the encoding standard, so the result is a function of the
/// bytes alone; on well-formed input it is the plain decoding (see the
/// trusted wrapper below).
pub uninterp spec fn utf8_lossy(bytes: Seq<u8>) -> Seq<char>;

/// Relies on `String::from_utf8_lossy`: the result depends on the bytes
/// alone, and valid UTF-8 is decoded exactly, with no replacement made.
#[verifier::external_body]
pub(crate) fn utf8_lossy_string(bytes: &[u8]) -> (r: String)
    ensures
        r@ == utf8_lossy(bytes@),
        vstd::utf8::valid_utf8(bytes@) ==> r@ == vstd::utf8::decode_utf8(bytes@),
{
    String::from_utf8_lossy(bytes).into_owned()
}

// ---------------------------------------------------------------------------
// Membership and splitting
// ---------------------------------------------------------------------------
/// Whether the character occurs in the sequence.
pub open spec fn has_char(s: Seq<char>, c: char) -> bool {
    exists|i: int| 0 <= i < s.len() && s[i] == c
}

pub fn chars_contain(s: &[char], c: char) -> (r: bool)
    ensures
        r == has_char(s@, c),
{
    let mut i: usize = 0;
    while i < s.len()
        invariant
            i <= s@.len(),
            forall|j: int| 0 <= j < i ==> s@[j] != c,
        decreases s@.len() - i,
    {
        if s[i] == c {
            return true;
        }
        i = i + 1;
    }
    false
}

/// Splitting on a separator character, as `str::split` does: the result has
/// one part per stretch between separators, and splitting the empty sequence
/// yields one empty part.
pub open spec fn split_on(s: Seq<char>, sep: char) -> Seq<Seq<char>>
    decreases s.len(),
{
    if s.len() == 0 {
        seq![Seq::<char>::empty()]
    } else if s[0] == sep {
        seq![Seq::<char>::empty()] + split_on(s.drop_first(), sep)
    } else {
        let rest = split_on(s.drop_first(), sep);
        rest.update(0, seq![s[0]] + rest[0])
    }
}

pub proof fn lemma_split_on_nonempty(s: Seq<char>, sep: char)
    ensures
        split_on(s, sep).len() >= 1,
    decreases s.len(),
{
    if s.len() != 0 && s[0] != sep {
        lemma_split_on_nonempty(s.drop_first(), sep);
    }
}

/// The first part of a split, extended at the front.
pub open spec fn prepend_first(parts: Seq<Seq<char>>, p: Seq<char>) -> Seq<Seq<char>> {
    parts.update(0, p + parts[0])
}

pub fn split_chars(s: &[char], sep: char) -> (r: Vec<Vec<char>>)
    ensures
        r.deep_view() == split_on(s@, sep),
{
    let mut out: Vec<Vec<char>> = Vec::new();
    let mut cur: Vec<char> = Vec::new();
    let mut i: usize = 0;
    proof {
        lemma_split_on_nonempty(s@, sep);
        assert(s@.skip(0) =~= s@);
        assert(prepend_first(split_on(s@, sep), cur@) =~~= split_on(s@, sep));
    }
    while i < s.len()
        invariant
            i <= s@.len(),
            split_on(s@.skip(i as int), sep).len() >= 1,
            out.deep_view() + prepend_first(split_on(s@.skip(i as int), sep), cur@) =~~= split_on(
                s@,
                sep,
            ),
        decreases s@.len() - i,
    {
        proof {
            assert(s@.skip(i as int).drop_first() =~= s@.skip(i + 1 as int));
            lemma_split_on_nonempty(s@.skip(i + 1 as int), sep);
        }
        let ghost prev = split_on(s@.skip(i as int), sep);
        let ghost next = split_on(s@.skip(i + 1 as int), sep);
        if s[i] == sep {
            assert(prev =~~= seq![Seq::<char>::empty()] + next);
            let ghost old_out = out.deep_view();
            let ghost old_cur = cur@;
            out.push(cur);
            cur = Vec::new();
            proof {
                assert(out.deep_view() =~~= old_out.push(old_cur));
                assert(old_out.push(old_cur) + prepend_first(next, cur@) =~~= old_out
                    + prepend_first(prev, old_cur));
            }
        } else {
            proof {
                assert(prev =~~= prepend_first(next, seq![s@[i as int]]));
                assert(prepend_first(prepend_first(next, seq![s@[i as int]]), cur@)
                    =~~= prepend_first(next, cur@.push(s@[i as int])));
            }
            cur.push(s[i]);
        }
        i = i + 1;
    }
    proof {
        assert(s@.skip(s@.len() as int) =~= Seq::<char>::empty());
        assert(prepend_first(split_on(Seq::<char>::empty(), sep), cur@) =~~= seq![cur@]);
    }
    let ghost old_out = out.deep_view();
    let ghost last_cur = cur@;
    out.push(cur);
    proof {
        assert(out.deep_view() =~~= old_out.push(last_cur));
        assert(old_out.push(last_cur) =~~= old_out + seq![last_cur]);
        assert(out.deep_view() =~~= split_on(s@, sep));
    }
    out
}

// ---------------------------------------------------------------------------
// Decimal parsing
// ---------------------------------------------------------------------------
/// All characters are ASCII decimal digits.
pub open spec fn all_digits(s: Seq<char>) -> bool {
    forall|i: int| 0 <= i < s.len() ==> is_digit_char(s[i])
}

/// The value of a sequence of decimal digits.
pub open spec fn dec_value(s: Seq<char>) -> nat
    decreases s.len(),
{
    if s.len() == 0 {
        0
    } else {
        dec_value(s.drop_last()) * 10 + digit_val(s.last())
    }
}

/// The digits of an unsigned numeral: an optional leading `+` is allowed, as
/// `str::parse` allows for the unsigned integer types.
pub open spec fn unsigned_digits(s: Seq<char>) -> Seq<char> {
    if s.len() > 0 && s[0] == '+' {
        s.drop_first()
    } else {
        s
    }
}

/// Whether `str::parse::<usize>` accepts the sequence.
pub open spec fn parses_as_usize(s: Seq<char>) -> bool {
    let d = unsigned_digits(s);
    d.len() > 0 && all_digits(d) && dec_value(d) <= usize::MAX
}

/// Extending a digit string cannot decrease its value.
pub proof fn lemma_dec_value_prefix(s: Seq<char>, i: int)
    requires
        0 <= i <= s.len(),
    ensures
        dec_value(s.take(i)) <= dec_value(s),
    decreases s.len() - i,
{
    if i < s.len() {
        let t = s.take(i + 1);
        assert(t.drop_last() =~= s.take(i));
        assert(dec_value(s.take(i)) <= dec_value(s.take(i)) * 10 + digit_val(t.last()));
        lemma_dec_value_prefix(s, i + 1);
        assert(s.take(s.len() as int) =~= s);
    } else {
        assert(s.take(i) =~= s);
    }
}

/// What `str::parse::<usize>` returns on the characters.
pub fn parse_usize(s: &[char]) -> (r: Option<usize>)
    ensures
        match r {
            Some(n) => parses_as_usize(s@) && n == dec_value(unsigned_digits(s@)),
            None => !parses_as_usize(s@),
        },
{
    let ghost d = unsigned_digits(s@);
    let start: usize = if s.len() > 0 && s[0] == '+' {
        1
    } else {
        0
    };
    proof {
        assert(d =~= s@.skip(start as int));
    }
    if s.len() == start {
        return None;
    }
    let mut acc: usize = 0;
    let mut i: usize = start;
    while i < s.len()
        invariant
            start <= i <= s@.len(),
            d == unsigned_digits(s@),
            d == s@.skip(start as int),
            all_digits(d.take(i - start)),
            acc == dec_value(d.take(i - start)),
        decreases s@.len() - i,
    {
        let c = s[i];
        if !char_is_digit(c) {
            assert(d[i - start] == c);
            return None;
        }
        let u = c as u32;
        let dv: usize = (u - 48) as usize;
        let ghost pre = d.take(i - start);
        proof {
            assert(d.take(i + 1 - start).drop_last() =~= pre);
            assert(d.take(i + 1 - start).last() == c);
        }
        let next = match acc.checked_mul(10) {
            Some(m) => m.checked_add(dv),
            None => None,
        };
        match next {
            Some(v) => {
                acc = v;
            },
            None => {
                proof {
                    lemma_dec_value_prefix(d, i + 1 - start);
                }
                return None;
            },
        }
        i = i + 1;
    }
    proof {
        assert(d.take(d.len() as int) =~= d);
    }
    Some(acc)
}

/// The digits of a signed numeral: an optional leading `+` or `-` is
/// allowed, as `str::parse` allows for the signed integer types.
pub open spec fn signed_digits(s: Seq<char>) -> Seq<char> {
    if s.len() > 0 && (s[0] == '+' || s[0] == '-') {
        s.drop_first()
    } else {
        s
    }
}

/// The sign of a signed numeral.
pub open spec fn sign_of(s: Seq<char>) -> int {
    if s.len() > 0 && s[0] == '-' {
        -1
    } else {
        1
    }
}

/// Whether `str::parse::<i64>` accepts the sequence.
pub open spec fn parses_as_i64(s: Seq<char>) -> bool {
    let d = signed_digits(s);
    d.len() > 0 && all_digits(d) && i64::MIN <= sign_of(s) * dec_value(d) <= i64::MAX
}

/// The value `str::parse::<i64>` yields.
pub open spec fn i64_value(s: Seq<char>) -> int {
    sign_of(s) * dec_value(signed_digits(s))
}

/// What `str::parse::<i64>` returns on the characters.
pub fn parse_i64(s: &[char]) -> (r: Option<i64>)
    ensures
        match r {
            Some(n) => parses_as_i64(s@) && n as int == i64_value(s@),
            None => !parses_as_i64(s@),
        },
{
    let ghost d = signed_digits(s@);
    let negative = s.len() > 0 && s[0] == '-';
    let start: usize = if s.len() > 0 && (s[0] == '+' || s[0] == '-') {
        1
    } else {
        0
    };
    proof {
        assert(d =~= s@.skip(start as int));
    }
    if s.len() == start {
        return None;
    }
    let mut mag: u64 = 0;
    let mut i: usize = start;
    while i < s.len()
        invariant
            start <= i <= s@.len(),
            d == signed_digits(s@),
            d == s@.skip(start as int),
            negative == (s@.len() > 0 && s@[0] == '-'),
            all_digits(d.take(i - start)),
            mag == dec_value(d.take(i - start)),
        decreases s@.len() - i,
    {
        let c = s[i];
        if !char_is_digit(c) {
            assert(d[i - start] == c);
            return None;
        }
        let u = c as u32;
        let dv: u64 = (u - 48) as u64;
        let ghost pre = d.take(i - start);
        proof {
            assert(d.take(i + 1 - start).drop_last() =~= pre);
            assert(d.take(i + 1 - start).last() == c);
        }
        let next = match mag.checked_mul(10) {
            Some(m) => m.checked_add(dv),
            None => None,
        };
        match next {
            Some(v) => {
                mag = v;
            },
            None => {
                proof {
                    lemma_dec_value_prefix(d, i + 1 - start);
                }
                return None;
            },
        }
        i = i + 1;
    }
    proof {
        assert(d.take(d.len() as int) =~= d);
    }
    if negative {
        if mag == 9223372036854775808u64 {
            Some(i64::MIN)
        } else if mag <= 9223372036854775807u64 {
            Some(-(mag as i64))
        } else {
            None
        }
    } else {
        if mag <= 9223372036854775807u64 {
            Some(mag as i64)
        } else {
            None
        }
    }
}

// ---------------------------------------------------------------------------
// Decimal formatting
// ---------------------------------------------------------------------------
/// The ASCII character for one decimal digit.
pub open spec fn digit_char(d: nat) -> char {
    if d == 0 {
        '0'
    } else if d == 1 {
        '1'
    } else if d == 2 {
        '2'
    } else if d == 3 {
        '3'
    } else if d == 4 {
        '4'
    } else if d == 5 {
        '5'
    } else if d == 6 {
        '6'
    } else if d == 7 {
        '7'
    } else if d == 8 {
        '8'
    } else {
        '9'
    }
}

/// The decimal numeral of a natural number, without leading zeros.
pub open spec fn dec_repr(n: nat) -> Seq<char>
    decreases n,
{
    if n < 10 {
        seq![digit_char(n)]
    } else {
        dec_repr(n / 10).push(digit_char(n % 10))
    }
}

/// The decimal numeral of an integer, with a sign for negative values.
pub open spec fn dec_repr_int(n: int) -> Seq<char> {
    if n < 0 {
        seq!['-'] + dec_repr((-n) as nat)
    } else {
        dec_repr(n as nat)
    }
}

fn digit_to_char(d: usize) -> (r: char)
    requires
        d < 10,
    ensures
        r == digit_char(d as nat),
{
    match d {
        0 => '0',
        1 => '1',
        2 => '2',
        3 => '3',
        4 => '4',
        5 => '5',
        6 => '6',
        7 => '7',
        8 => '8',
        _ => '9',
    }
}

fn digit_to_char_u64(d: u64) -> (r: char)
    requires
        d < 10,
    ensures
        r == digit_char(d as nat),
{
    digit_to_char(d as usize)
}

/// Append the decimal numeral of `n` to `out`.
pub fn push_u64(out: &mut String, n: u64)
    ensures
        final(out)@ == old(out)@ + dec_repr(n as nat),
    decreases n,
{
    if n < 10 {
        push_char(out, digit_to_char_u64(n));
        assert(old(out)@.push(digit_char(n as nat)) =~= old(out)@ + dec_repr(n as nat));
    } else {
        push_u64(out, n / 10);
        push_char(out, digit_to_char_u64(n % 10));
        assert((old(out)@ + dec_repr((n / 10) as nat)).push(digit_char((n % 10) as nat))
            =~= old(out)@ + dec_repr(n as nat));
    }
}

/// Append the decimal numeral of `n` to `out`.
pub fn push_usize(out: &mut String, n: usize)
    ensures
        final(out)@ == old(out)@ + dec_repr(n as nat),
{
    push_u64(out, n as u64)
}

/// The decimal numeral of `n`, as a string.
pub fn fmt_usize(n: usize) -> (r: String)
    ensures
        r@ == dec_repr(n as nat),
{
    let mut out = String::new();
    push_usize(&mut out, n);
    assert(Seq::<char>::empty() + dec_repr(n as nat) =~= dec_repr(n as nat));
    out
}

/// The decimal numeral of a signed number, as a string.
pub fn fmt_i64(n: i64) -> (r: String)
    ensures
        r@ == dec_repr_int(n as int),
{
    if n >= 0 {
        fmt_u64(n as u64)
    } else {
        let mag: u64 = (-(n as i128)) as u64;
        let mut out = String::new();
        push_char(&mut out, '-');
        push_u64(&mut out, mag);
        assert(Seq::<char>::empty().push('-') =~= seq!['-']);
        assert(seq!['-'] + dec_repr(mag as nat) =~= dec_repr_int(n as int));
        out
    }
}

/// The decimal numeral of `n`, as a string.
pub fn fmt_u64(n: u64) -> (r: String)
    ensures
        r@ == dec_repr(n as nat),
{
    let mut out = String::new();
    push_u64(&mut out, n);
    assert(Seq::<char>::empty() + dec_repr(n as nat) =~= dec_repr(n as nat));
    out
}

} // verus!
