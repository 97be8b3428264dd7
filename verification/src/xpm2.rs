//! An XPM2 image parser and an SVG renderer for the parsed image.
//!
//! An XPM2 file is a `! XPM2` header line, a values line `width height
//! color-count 1`, one palette line `<char> c #RRGGBB` per color, and one
//! row of palette characters per pixel row.  Only one character per pixel
//! is supported; rows must be exactly `width` bytes of palette characters;
//! anything after the last row is an error.

use vstd::prelude::*;

use crate::text::dec_value;
use crate::text::from_chars;
use crate::text::hex_pair_value;
use crate::text::parse_hex_pair;
use crate::text::parse_usize;
use crate::text::parses_as_hex_pair;
use crate::text::parses_as_usize;
use crate::text::split_chars;
use crate::text::split_on;
use crate::text::split_whitespace_chars;
use crate::text::dec_repr;
use crate::text::hex_byte_repr;
use crate::text::push_hex_byte;
use crate::text::push_u64;
use crate::text::push_usize;
use crate::text::split_ws;
use crate::text::to_chars;
use crate::text::unsigned_digits;
use vstd::string::StringExecFns;
use vstd::utf8::encode_utf8;

verus! {

/// An opaque RGB color of the palette.
#[derive(Debug, Clone, Copy, PartialEq, Eq, Structural, PartialOrd, Ord, Hash)]
pub struct Color {
    pub r: u8,
    pub g: u8,
    pub b: u8,
}

/// A parsed image: the palette in file order (later duplicates replace
/// earlier entries in place), and one string of palette characters per row.
#[derive(Debug, Clone, PartialEq, Eq)]
pub struct Xpm2 {
    pub colors: Vec<(char, Color)>,
    pub pixels: Vec<String>,
}

/// The ways a file can be rejected.
#[derive(Debug, Clone, Copy, PartialEq, Eq, Structural, Hash)]
pub enum ReadError {
    InvalidHeaderFormat,
    NotEnoughData,
    InvalidValues,
    InvalidColorFormat,
    ExtraneousData,
    ZeroDimension,
    InvalidPixel,
}

impl ReadError {
    /// The display string of the error.
    pub fn message(&self) -> (r: String)
        ensures
            r@ == spec_read_error_message(*self),
    {
        match self {
            ReadError::InvalidHeaderFormat => String::from_str("expected `! XPM2` header"),
            ReadError::NotEnoughData => String::from_str("The file contain insufficient data"),
            ReadError::InvalidValues => String::from_str("The file contains invalid values"),
            ReadError::InvalidColorFormat => String::from_str(
                "The file contains invalid color format",
            ),
            ReadError::ExtraneousData => String::from_str("The file contains extraneous data"),
            ReadError::ZeroDimension => String::from_str(
                "Image with zero dimension is not allowed",
            ),
            ReadError::InvalidPixel => String::from_str("The file contains invalid pixel data"),
        }
    }
}

pub open spec fn spec_read_error_message(e: ReadError) -> Seq<char> {
    match e {
        ReadError::InvalidHeaderFormat => "expected `! XPM2` header"@,
        ReadError::NotEnoughData => "The file contain insufficient data"@,
        ReadError::InvalidValues => "The file contains invalid values"@,
        ReadError::InvalidColorFormat => "The file contains invalid color format"@,
        ReadError::ExtraneousData => "The file contains extraneous data"@,
        ReadError::ZeroDimension => "Image with zero dimension is not allowed"@,
        ReadError::InvalidPixel => "The file contains invalid pixel data"@,
    }
}

// ---------------------------------------------------------------------------
// Lines
// ---------------------------------------------------------------------------
/// One line as a reader yields it: the trailing carriage return is dropped.
pub open spec fn strip_cr(l: Seq<char>) -> Seq<char> {
    if l.len() > 0 && l.last() == '\r' {
        l.drop_last()
    } else {
        l
    }
}

/// The lines of a text as `BufRead::lines` yields them: split at `\n`, a
/// final empty piece (a trailing newline) dropped, carriage returns at line
/// ends dropped.
pub open spec fn spec_lines_of(s: Seq<char>) -> Seq<Seq<char>> {
    let parts = split_on(s, '\n');
    let kept = if parts.last().len() == 0 {
        parts.drop_last()
    } else {
        parts
    };
    kept.map_values(|l: Seq<char>| strip_cr(l))
}

fn content_lines(content: &str) -> (r: Vec<Vec<char>>)
    ensures
        r.deep_view() == spec_lines_of(content@),
{
    let chars = to_chars(content);
    let mut parts = split_chars(chars.as_slice(), '\n');
    let ghost parts_v = split_on(content@, '\n');
    proof {
        crate::text::lemma_split_on_nonempty(content@, '\n');
        assert(parts@[parts@.len() - 1].deep_view() == parts_v[parts_v.len() - 1]);
        assert(parts@[parts@.len() - 1]@ =~= parts_v[parts_v.len() - 1]);
    }
    let n = parts.len();
    if parts[n - 1].len() == 0 {
        let _ = parts.pop();
    }
    let ghost kept = if parts_v.last().len() == 0 {
        parts_v.drop_last()
    } else {
        parts_v
    };
    proof {
        assert(parts.deep_view() =~~= kept);
    }
    let mut result: Vec<Vec<char>> = Vec::new();
    let mut i: usize = 0;
    while i < parts.len()
        invariant
            parts.deep_view() == kept,
            parts@.len() == kept.len(),
            i <= kept.len(),
            result.deep_view() =~~= kept.take(i as int).map_values(|l: Seq<char>| strip_cr(l)),
        decreases kept.len() - i,
    {
        assert(parts@[i as int].deep_view() == kept[i as int]);
        assert(parts@[i as int]@ =~= kept[i as int]);
        let line = &parts[i];
        let m = line.len();
        let mut stripped: Vec<char> = Vec::new();
        let keep: usize = if m > 0 && line[m - 1] == '\r' {
            m - 1
        } else {
            m
        };
        let mut k: usize = 0;
        while k < keep
            invariant
                keep <= line@.len(),
                k <= keep,
                stripped@ == line@.subrange(0, k as int),
            decreases keep - k,
        {
            stripped.push(line[k]);
            assert(line@.subrange(0, k + 1 as int) =~= line@.subrange(0, k as int).push(
                line@[k as int],
            ));
            k = k + 1;
        }
        proof {
            assert(stripped@ =~= strip_cr(kept[i as int]));
        }
        let ghost old_view = result.deep_view();
        result.push(stripped);
        proof {
            assert(result.deep_view() =~~= old_view.push(strip_cr(kept[i as int])));
            assert(kept.take(i + 1 as int) =~= kept.take(i as int).push(kept[i as int]));
        }
        i = i + 1;
    }
    assert(kept.take(kept.len() as int) =~= kept);
    result
}

// ---------------------------------------------------------------------------
// Reading: specification
// ---------------------------------------------------------------------------
/// What the values line must hold: four whitespace-separated numerals, the
/// last exactly 1 (one character per pixel), nothing more, and no zero
/// dimension.
pub open spec fn parse_values_line(l: Seq<char>) -> Result<(nat, nat, nat), ReadError> {
    let ws = split_ws(l);
    if ws.len() < 4 {
        Err(ReadError::InvalidValues)
    } else if !(parses_as_usize(ws[0]) && parses_as_usize(ws[1]) && parses_as_usize(ws[2])
        && parses_as_usize(ws[3])) {
        Err(ReadError::InvalidValues)
    } else if dec_value(unsigned_digits(ws[3])) != 1 {
        Err(ReadError::InvalidValues)
    } else if ws.len() > 4 {
        Err(ReadError::InvalidValues)
    } else if dec_value(unsigned_digits(ws[0])) == 0 || dec_value(unsigned_digits(ws[1])) == 0 {
        Err(ReadError::ZeroDimension)
    } else {
        Ok(
            (
                dec_value(unsigned_digits(ws[0])),
                dec_value(unsigned_digits(ws[1])),
                dec_value(unsigned_digits(ws[2])),
            ),
        )
    }
}

/// What one palette line must hold: a single-character name, the letter `c`,
/// and `#` followed by six hexadecimal digits (each pair as the radix-16
/// byte parser accepts it).
pub open spec fn parse_color_line(l: Seq<char>) -> Result<(char, Color), ReadError> {
    let ws = split_ws(l);
    if ws.len() < 1 {
        Err(ReadError::InvalidColorFormat)
    } else if ws[0].len() != 1 {
        Err(ReadError::InvalidColorFormat)
    } else if ws.len() < 2 {
        Err(ReadError::NotEnoughData)
    } else if ws[1] != "c"@ {
        Err(ReadError::InvalidColorFormat)
    } else if ws.len() < 3 {
        Err(ReadError::InvalidColorFormat)
    } else {
        let hex = ws[2];
        if encode_utf8(hex).len() != 7 || hex.len() != 7 {
            Err(ReadError::InvalidColorFormat)
        } else if hex[0] != '#' {
            Err(ReadError::InvalidColorFormat)
        } else if !(parses_as_hex_pair(hex.subrange(1, 3)) && parses_as_hex_pair(
            hex.subrange(3, 5),
        ) && parses_as_hex_pair(hex.subrange(5, 7))) {
            Err(ReadError::InvalidColorFormat)
        } else {
            Ok(
                (
                    ws[0][0],
                    Color {
                        r: hex_pair_value(hex.subrange(1, 3)) as u8,
                        g: hex_pair_value(hex.subrange(3, 5)) as u8,
                        b: hex_pair_value(hex.subrange(5, 7)) as u8,
                    },
                ),
            )
        }
    }
}

/// A later palette entry for the same character replaces the earlier one in
/// place; a new character is appended.
pub open spec fn upsert_color(
    acc: Seq<(char, Color)>,
    c: char,
    col: Color,
) -> Seq<(char, Color)>
    decreases acc.len(),
{
    if acc.len() == 0 {
        seq![(c, col)]
    } else if acc[0].0 == c {
        seq![(c, col)] + acc.drop_first()
    } else {
        seq![acc[0]] + upsert_color(acc.drop_first(), c, col)
    }
}

/// Whether the palette has an entry for the character.
pub open spec fn has_color_key(acc: Seq<(char, Color)>, c: char) -> bool {
    exists|i: int| 0 <= i < acc.len() && acc[i].0 == c
}

/// Read `remaining` palette lines starting at line `i`.
pub open spec fn read_colors(
    ls: Seq<Seq<char>>,
    i: int,
    remaining: nat,
    acc: Seq<(char, Color)>,
) -> Result<(Seq<(char, Color)>, int), ReadError>
    decreases remaining,
{
    if remaining == 0 {
        Ok((acc, i))
    } else if i < 0 || i >= ls.len() {
        Err(ReadError::NotEnoughData)
    } else {
        match parse_color_line(ls[i]) {
            Err(e) => Err(e),
            Ok((c, col)) => read_colors(
                ls,
                i + 1,
                (remaining - 1) as nat,
                upsert_color(acc, c, col),
            ),
        }
    }
}

/// Every character of the row is in the palette.
pub open spec fn row_chars_known(l: Seq<char>, colors: Seq<(char, Color)>) -> bool {
    forall|k: int| 0 <= k < l.len() ==> has_color_key(colors, #[trigger] l[k])
}

/// Read `remaining` pixel rows starting at line `i`: each row must be
/// exactly `width` bytes of palette characters.
pub open spec fn read_pixels(
    ls: Seq<Seq<char>>,
    i: int,
    remaining: nat,
    width: nat,
    colors: Seq<(char, Color)>,
    acc: Seq<Seq<char>>,
) -> Result<(Seq<Seq<char>>, int), ReadError>
    decreases remaining,
{
    if remaining == 0 {
        Ok((acc, i))
    } else if i < 0 || i >= ls.len() {
        Err(ReadError::NotEnoughData)
    } else if encode_utf8(ls[i]).len() != width {
        Err(ReadError::InvalidPixel)
    } else if !row_chars_known(ls[i], colors) {
        Err(ReadError::InvalidPixel)
    } else {
        read_pixels(ls, i + 1, (remaining - 1) as nat, width, colors, acc.push(ls[i]))
    }
}

/// What `Xpm2::read` yields on a whole file.
pub open spec fn spec_read(s: Seq<char>) -> Result<(Seq<(char, Color)>, Seq<Seq<char>>), ReadError> {
    let ls = spec_lines_of(s);
    if ls.len() < 1 {
        Err(ReadError::NotEnoughData)
    } else if ls[0] != "! XPM2"@ {
        Err(ReadError::InvalidHeaderFormat)
    } else if ls.len() < 2 {
        Err(ReadError::NotEnoughData)
    } else {
        match parse_values_line(ls[1]) {
            Err(e) => Err(e),
            Ok((w, h, cc)) => match read_colors(ls, 2, cc, Seq::empty()) {
                Err(e) => Err(e),
                Ok((colors, i)) => match read_pixels(ls, i, h, w, colors, Seq::empty()) {
                    Err(e) => Err(e),
                    Ok((pixels, j)) => if j < ls.len() {
                        Err(ReadError::ExtraneousData)
                    } else {
                        Ok((colors, pixels))
                    },
                },
            },
        }
    }
}

// ---------------------------------------------------------------------------
// Reading: executable
// ---------------------------------------------------------------------------
fn parse_values_line_exec(l: &[char]) -> (r: Result<(usize, usize, usize), ReadError>)
    ensures
        match r {
            Ok(v) => parse_values_line(l@) == Ok::<(nat, nat, nat), ReadError>(
                (v.0 as nat, v.1 as nat, v.2 as nat),
            ),
            Err(e) => parse_values_line(l@) == Err::<(nat, nat, nat), ReadError>(e),
        },
{
    let ws = split_whitespace_chars(l);
    let ghost ws_v = split_ws(l@);
    if ws.len() < 4 {
        return Err(ReadError::InvalidValues);
    }
    assert(ws@[0].deep_view() == ws_v[0] && ws@[1].deep_view() == ws_v[1] && ws@[2].deep_view()
        == ws_v[2] && ws@[3].deep_view() == ws_v[3]);
    assert(ws@[0]@ =~= ws_v[0] && ws@[1]@ =~= ws_v[1] && ws@[2]@ =~= ws_v[2] && ws@[3]@
        =~= ws_v[3]);
    let w = parse_usize(ws[0].as_slice());
    let h = parse_usize(ws[1].as_slice());
    let cc = parse_usize(ws[2].as_slice());
    let per = parse_usize(ws[3].as_slice());
    match (w, h, cc, per) {
        (Some(w), Some(h), Some(cc), Some(per)) => {
            if per != 1 {
                return Err(ReadError::InvalidValues);
            }
            if ws.len() > 4 {
                return Err(ReadError::InvalidValues);
            }
            if w == 0 || h == 0 {
                return Err(ReadError::ZeroDimension);
            }
            Ok((w, h, cc))
        },
        _ => Err(ReadError::InvalidValues),
    }
}

fn parse_color_line_exec(l: &[char]) -> (r: Result<(char, Color), ReadError>)
    ensures
        parse_color_line(l@) == match r {
            Ok(v) => Ok::<(char, Color), ReadError>(v),
            Err(e) => Err::<(char, Color), ReadError>(e),
        },
{
    let ws = split_whitespace_chars(l);
    let ghost ws_v = split_ws(l@);
    if ws.len() < 1 {
        return Err(ReadError::InvalidColorFormat);
    }
    assert(ws@[0].deep_view() == ws_v[0]);
    assert(ws@[0]@ =~= ws_v[0]);
    if ws[0].len() != 1 {
        return Err(ReadError::InvalidColorFormat);
    }
    if ws.len() < 2 {
        return Err(ReadError::NotEnoughData);
    }
    assert(ws@[1].deep_view() == ws_v[1]);
    assert(ws@[1]@ =~= ws_v[1]);
    proof {
        reveal_strlit("c");
    }
    if !(ws[1].len() == 1 && ws[1].as_slice()[0] == 'c') {
        assert(ws_v[1] != "c"@);
        return Err(ReadError::InvalidColorFormat);
    }
    assert(ws_v[1] =~= "c"@);
    if ws.len() < 3 {
        return Err(ReadError::InvalidColorFormat);
    }
    assert(ws@[2].deep_view() == ws_v[2]);
    assert(ws@[2]@ =~= ws_v[2]);
    let hex = &ws[2];
    let ghost hex_v = ws_v[2];
    let hex_string = from_chars(hex.as_slice());
    if hex_string.as_str().as_bytes().len() != 7 || hex.len() != 7 {
        return Err(ReadError::InvalidColorFormat);
    }
    if hex.as_slice()[0] != '#' {
        return Err(ReadError::InvalidColorFormat);
    }
    let rr = parse_hex_pair(&hex.as_slice()[1..3]);
    let gg = parse_hex_pair(&hex.as_slice()[3..5]);
    let bb = parse_hex_pair(&hex.as_slice()[5..7]);
    assert(hex@.subrange(1, 3) =~= hex_v.subrange(1, 3) && hex@.subrange(3, 5) =~= hex_v.subrange(
        3,
        5,
    ) && hex@.subrange(5, 7) =~= hex_v.subrange(5, 7));
    match (rr, gg, bb) {
        (Some(r), Some(g), Some(b)) => Ok((ws[0].as_slice()[0], Color { r, g, b })),
        _ => Err(ReadError::InvalidColorFormat),
    }
}

impl Xpm2 {
    /// Look the character up in the palette; later entries replaced earlier
    /// ones when the file repeated a character.
    pub fn color_of(&self, c: char) -> (r: Option<Color>)
        ensures
            r is Some <==> has_color_key(self.colors@, c),
            r is Some ==> exists|i: int|
                0 <= i < self.colors@.len() && self.colors@[i] == (c, r->0),
    {
        let mut i: usize = 0;
        while i < self.colors.len()
            invariant
                i <= self.colors@.len(),
                forall|j: int| 0 <= j < i ==> (#[trigger] self.colors@[j]).0 != c,
            decreases self.colors@.len() - i,
        {
            if self.colors[i].0 == c {
                return Some(self.colors[i].1);
            }
            i = i + 1;
        }
        None
    }

    /// Parse a whole XPM2 file.
    pub fn read(content: &str) -> (r: Result<Xpm2, ReadError>)
        ensures
            match r {
                Ok(x) => spec_read(content@) == Ok::<_, ReadError>(
                    (x.colors@, x.pixels.deep_view()),
                ) && x.pixels@.len() > 0,
                Err(e) => spec_read(content@) == Err::<(Seq<(char, Color)>, Seq<Seq<char>>), _>(e),
            },
    {
        let lines = content_lines(content);
        let ghost ls = spec_lines_of(content@);
        assert(lines@.len() == ls.len());
        if lines.len() < 1 {
            return Err(ReadError::NotEnoughData);
        }
        assert(lines@[0].deep_view() == ls[0]);
        assert(lines@[0]@ =~= ls[0]);
        proof {
            reveal_strlit("! XPM2");
        }
        let header = &lines[0];
        let header_ok = header.len() == 6 && header.as_slice()[0] == '!' && header.as_slice()[1]
            == ' ' && header.as_slice()[2] == 'X' && header.as_slice()[3] == 'P'
            && header.as_slice()[4] == 'M' && header.as_slice()[5] == '2';
        if !header_ok {
            assert(ls[0] != "! XPM2"@);
            return Err(ReadError::InvalidHeaderFormat);
        }
        assert(ls[0] =~= "! XPM2"@);
        if lines.len() < 2 {
            return Err(ReadError::NotEnoughData);
        }
        assert(lines@[1].deep_view() == ls[1]);
        assert(lines@[1]@ =~= ls[1]);
        let (width, height, color_count) = match parse_values_line_exec(lines[1].as_slice()) {
            Ok(v) => v,
            Err(e) => {
                return Err(e);
            },
        };

        // Palette lines.
        let mut colors: Vec<(char, Color)> = Vec::new();
        let mut i: usize = 2;
        let mut remaining = color_count;
        while remaining > 0
            invariant
                ls == spec_lines_of(content@),
                lines.deep_view() == ls,
                lines@.len() == ls.len(),
                ls.len() >= 2,
                ls[0] == "! XPM2"@,
                parse_values_line(ls[1]) == Ok::<(nat, nat, nat), ReadError>(
                    (width as nat, height as nat, color_count as nat),
                ),
                2 <= i,
                read_colors(ls, 2, color_count as nat, Seq::empty()) == read_colors(
                    ls,
                    i as int,
                    remaining as nat,
                    colors@,
                ),
            decreases remaining,
        {
            if i >= lines.len() {
                return Err(ReadError::NotEnoughData);
            }
            assert(lines@[i as int].deep_view() == ls[i as int]);
            assert(lines@[i as int]@ =~= ls[i as int]);
            let (c, col) = match parse_color_line_exec(lines[i].as_slice()) {
                Ok(v) => v,
                Err(e) => {
                    return Err(e);
                },
            };
            upsert_color_exec(&mut colors, c, col);
            i = i + 1;
            remaining = remaining - 1;
        }
        let ghost colors_done = colors@;
        let ghost after_colors = i as int;
        assert(read_colors(ls, 2, color_count as nat, Seq::empty()) == Ok::<_, ReadError>(
            (colors_done, after_colors),
        ));

        // Pixel rows.
        let mut pixels: Vec<String> = Vec::new();
        let mut remaining_rows = height;
        assert(pixels.deep_view() =~~= Seq::<Seq<char>>::empty());
        while remaining_rows > 0
            invariant
                ls == spec_lines_of(content@),
                lines.deep_view() == ls,
                lines@.len() == ls.len(),
                ls.len() >= 2,
                ls[0] == "! XPM2"@,
                parse_values_line(ls[1]) == Ok::<(nat, nat, nat), ReadError>(
                    (width as nat, height as nat, color_count as nat),
                ),
                read_colors(ls, 2, color_count as nat, Seq::empty()) == Ok::<_, ReadError>(
                    (colors_done, after_colors),
                ),
                colors@ == colors_done,
                0 <= i,
                pixels@.len() + remaining_rows == height,
                read_pixels(ls, after_colors, height as nat, width as nat, colors_done, Seq::empty())
                    == read_pixels(
                    ls,
                    i as int,
                    remaining_rows as nat,
                    width as nat,
                    colors_done,
                    pixels.deep_view(),
                ),
            decreases remaining_rows,
        {
            if i >= lines.len() {
                return Err(ReadError::NotEnoughData);
            }
            assert(lines@[i as int].deep_view() == ls[i as int]);
            assert(lines@[i as int]@ =~= ls[i as int]);
            let line = from_chars(lines[i].as_slice());
            if line.as_str().as_bytes().len() != width {
                return Err(ReadError::InvalidPixel);
            }
            assert(encode_utf8(ls[i as int]).len() == width as nat);
            let line_chars = &lines[i];
            let mut all_known = true;
            let mut k: usize = 0;
            while k < line_chars.len()
                invariant
                    colors@ == colors_done,
                    line_chars@ == ls[i as int],
                    0 <= i < ls.len(),
                    lines.deep_view() == ls,
                    lines@.len() == ls.len(),
                    k <= line_chars@.len(),
                    all_known <==> forall|m: int|
                        0 <= m < k ==> has_color_key(colors_done, #[trigger] line_chars@[m]),
                decreases line_chars@.len() - k,
            {
                if !contains_color_key(&colors, line_chars[k]) {
                    all_known = false;
                }
                k = k + 1;
            }
            if !all_known {
                assert(!row_chars_known(ls[i as int], colors_done));
                return Err(ReadError::InvalidPixel);
            }
            assert(row_chars_known(ls[i as int], colors_done));
            let ghost old_pixels = pixels.deep_view();
            pixels.push(line);
            proof {
                assert(pixels.deep_view() =~~= old_pixels.push(ls[i as int]));
            }
            i = i + 1;
            remaining_rows = remaining_rows - 1;
        }
        assert(read_pixels(ls, after_colors, height as nat, width as nat, colors_done, Seq::empty())
            == Ok::<_, ReadError>((pixels.deep_view(), i as int)));

        if i < lines.len() {
            return Err(ReadError::ExtraneousData);
        }

        Ok(Xpm2 { colors, pixels })
    }
}

// ---------------------------------------------------------------------------
// SVG rendering
// ---------------------------------------------------------------------------
/// The opening `<svg>` line for the given total size.
pub open spec fn svg_header_line(w: nat, h: nat) -> Seq<char> {
    "<svg width=\""@ + dec_repr(w) + "\" height=\""@ + dec_repr(h)
        + "\" xmlns=\"http://www.w3.org/2000/svg\">\n"@
}

/// One palette entry as a CSS rule.
pub open spec fn svg_color_line(c: char, col: Color) -> Seq<char> {
    "\t\trect.c"@ + dec_repr((c as u32) as nat) + " { fill: #"@ + hex_byte_repr(col.r)
        + hex_byte_repr(col.g) + hex_byte_repr(col.b) + " }\n"@
}

/// The first `upto` palette entries as CSS rules.
pub open spec fn svg_color_lines(colors: Seq<(char, Color)>, upto: int) -> Seq<char>
    decreases upto,
{
    if upto <= 0 {
        Seq::empty()
    } else {
        svg_color_lines(colors, upto - 1) + svg_color_line(
            colors[upto - 1].0,
            colors[upto - 1].1,
        )
    }
}

/// One pixel as a rectangle element.
pub open spec fn svg_rect_line(c: char, x: nat, y: nat, ps: nat) -> Seq<char> {
    "\t<rect class=\"c"@ + dec_repr((c as u32) as nat) + "\", x=\""@ + dec_repr(x) + "\", y=\""@
        + dec_repr(y) + "\", width=\""@ + dec_repr(ps) + "\", height=\""@ + dec_repr(ps)
        + "\" />\n"@
}

/// The first `upto` pixels of one row as rectangles.
pub open spec fn svg_row_rects(line: Seq<char>, line_num: nat, ps: nat, upto: int) -> Seq<char>
    decreases upto,
{
    if upto <= 0 {
        Seq::empty()
    } else {
        svg_row_rects(line, line_num, ps, upto - 1) + svg_rect_line(
            line[upto - 1],
            ((upto - 1) * ps) as nat,
            line_num * ps,
            ps,
        )
    }
}

/// The rectangles of the first `upto` rows.
pub open spec fn svg_all_rects(pixels: Seq<Seq<char>>, ps: nat, upto: int) -> Seq<char>
    decreases upto,
{
    if upto <= 0 {
        Seq::empty()
    } else {
        svg_all_rects(pixels, ps, upto - 1) + svg_row_rects(
            pixels[upto - 1],
            (upto - 1) as nat,
            ps,
            pixels[upto - 1].len() as int,
        )
    }
}

/// The whole SVG document for an image: header, style block with one rule
/// per palette entry, one rectangle per pixel, and the footer, with the
/// style block's closing tag repeated before it.
pub open spec fn spec_svg(colors: Seq<(char, Color)>, pixels: Seq<Seq<char>>, ps: nat) -> Seq<
    char,
> {
    svg_header_line(encode_utf8(pixels[0]).len() * ps, pixels.len() * ps)
        + "\t<style type=\"text/css\">\n"@ + "\t\trect { stroke: #00FFFF } \n"@ + svg_color_lines(
        colors,
        colors.len() as int,
    ) + "\t</style>\n"@ + svg_all_rects(pixels, ps, pixels.len() as int) + "\t</style>\n"@
        + "</svg>\n"@
}

fn push_svg_color_line(out: &mut String, c: char, col: Color)
    ensures
        final(out)@ == old(out)@ + svg_color_line(c, col),
{
    out.append("\t\trect.c");
    push_u64(out, (c as u32) as u64);
    out.append(" { fill: #");
    push_hex_byte(out, col.r);
    push_hex_byte(out, col.g);
    push_hex_byte(out, col.b);
    out.append(" }\n");
    assert(out@ =~= old(out)@ + svg_color_line(c, col));
}

fn push_svg_rect_line(out: &mut String, c: char, x: usize, y: usize, ps: usize)
    ensures
        final(out)@ == old(out)@ + svg_rect_line(c, x as nat, y as nat, ps as nat),
{
    out.append("\t<rect class=\"c");
    push_u64(out, (c as u32) as u64);
    out.append("\", x=\"");
    push_usize(out, x);
    out.append("\", y=\"");
    push_usize(out, y);
    out.append("\", width=\"");
    push_usize(out, ps);
    out.append("\", height=\"");
    push_usize(out, ps);
    out.append("\" />\n");
    assert(out@ =~= old(out)@ + svg_rect_line(c, x as nat, y as nat, ps as nat));
}

impl Xpm2 {
    /// Render the image as an SVG document, one rectangle per pixel, each
    /// `pixel_size` units across.  The size limits only keep the coordinate
    /// arithmetic inside the machine's integers.
    pub fn write_as_svg(&self, pixel_size: usize) -> (r: String)
        requires
            self.pixels@.len() > 0,
            self.pixels@.len() * pixel_size <= usize::MAX,
            encode_utf8(self.pixels@[0]@).len() * pixel_size <= usize::MAX,
            forall|i: int|
                0 <= i < self.pixels@.len() ==> (#[trigger] self.pixels@[i])@.len() * pixel_size
                    <= usize::MAX,
        ensures
            r@ == spec_svg(self.colors@, self.pixels.deep_view(), pixel_size as nat),
    {
        let ghost pixels_v = self.pixels.deep_view();
        let ghost colors_v = self.colors@;
        proof {
            assert(pixels_v.len() == self.pixels@.len());
            assert(pixels_v[0] == self.pixels@[0]@);
        }
        let mut out = String::new();
        let first_row_bytes = self.pixels[0].as_str().as_bytes();
        proof {
            assert(first_row_bytes@ == encode_utf8(pixels_v[0]));
        }
        let total_width = first_row_bytes.len() * pixel_size;
        let total_height = self.pixels.len() * pixel_size;
        out.append("<svg width=\"");
        push_usize(&mut out, total_width);
        out.append("\" height=\"");
        push_usize(&mut out, total_height);
        out.append("\" xmlns=\"http://www.w3.org/2000/svg\">\n");
        let ghost pre_style = svg_header_line(
            encode_utf8(pixels_v[0]).len() * pixel_size as nat,
            pixels_v.len() * pixel_size as nat,
        );
        assert(out@ =~= pre_style);
        out.append("\t<style type=\"text/css\">\n");
        out.append("\t\trect { stroke: #00FFFF } \n");
        let ghost pre_colors = pre_style + "\t<style type=\"text/css\">\n"@
            + "\t\trect { stroke: #00FFFF } \n"@;
        assert(out@ =~= pre_colors);

        let mut ci: usize = 0;
        while ci < self.colors.len()
            invariant
                colors_v == self.colors@,
                out@ == pre_colors + svg_color_lines(colors_v, ci as int),
                ci <= colors_v.len(),
            decreases colors_v.len() - ci,
        {
            let (c, col) = self.colors[ci];
            push_svg_color_line(&mut out, c, col);
            assert(out@ =~= pre_colors + svg_color_lines(colors_v, ci + 1 as int));
            ci = ci + 1;
        }
        out.append("\t</style>\n");
        let ghost pre_rects = pre_colors + svg_color_lines(colors_v, colors_v.len() as int)
            + "\t</style>\n"@;
        assert(out@ =~= pre_rects);

        let mut line_num: usize = 0;
        while line_num < self.pixels.len()
            invariant
                pixels_v == self.pixels.deep_view(),
                pixels_v.len() == self.pixels@.len(),
                forall|i: int|
                    0 <= i < self.pixels@.len() ==> (#[trigger] self.pixels@[i])@.len()
                        * pixel_size <= usize::MAX,
                pixels_v.len() * pixel_size <= usize::MAX,
                line_num <= pixels_v.len(),
                out@ == pre_rects + svg_all_rects(pixels_v, pixel_size as nat, line_num as int),
            decreases pixels_v.len() - line_num,
        {
            assert(pixels_v[line_num as int] == self.pixels@[line_num as int]@);
            let line = crate::text::to_chars(self.pixels[line_num].as_str());
            proof {
                vstd::arithmetic::mul::lemma_mul_inequality(
                    line_num as int,
                    pixels_v.len() as int,
                    pixel_size as int,
                );
            }
            let y = line_num * pixel_size;
            let mut index: usize = 0;
            let ghost row_pre = out@;
            while index < line.len()
                invariant
                    line@ == pixels_v[line_num as int],
                    line@.len() * pixel_size <= usize::MAX,
                    line_num < pixels_v.len(),
                    y == line_num * pixel_size,
                    pixels_v.len() * pixel_size <= usize::MAX,
                    index <= line@.len(),
                    out@ == row_pre + svg_row_rects(
                        pixels_v[line_num as int],
                        line_num as nat,
                        pixel_size as nat,
                        index as int,
                    ),
                decreases line@.len() - index,
            {
                proof {
                    vstd::arithmetic::mul::lemma_mul_inequality(
                        index as int,
                        line@.len() as int,
                        pixel_size as int,
                    );
                }
                let x = index * pixel_size;
                push_svg_rect_line(&mut out, line[index], x, y, pixel_size);
                assert(out@ =~= row_pre + svg_row_rects(
                    pixels_v[line_num as int],
                    line_num as nat,
                    pixel_size as nat,
                    index + 1 as int,
                ));
                index = index + 1;
            }
            assert(out@ =~= pre_rects + svg_all_rects(
                pixels_v,
                pixel_size as nat,
                line_num + 1 as int,
            ));
            line_num = line_num + 1;
        }

        out.append("\t</style>\n");
        out.append("</svg>\n");
        assert(out@ =~= spec_svg(colors_v, pixels_v, pixel_size as nat));
        out
    }
}

fn contains_color_key(colors: &Vec<(char, Color)>, c: char) -> (r: bool)
    ensures
        r == has_color_key(colors@, c),
{
    let mut i: usize = 0;
    while i < colors.len()
        invariant
            i <= colors@.len(),
            forall|j: int| 0 <= j < i ==> (#[trigger] colors@[j]).0 != c,
        decreases colors@.len() - i,
    {
        if colors[i].0 == c {
            return true;
        }
        i = i + 1;
    }
    false
}

fn upsert_color_exec(colors: &mut Vec<(char, Color)>, c: char, col: Color)
    ensures
        final(colors)@ == upsert_color(old(colors)@, c, col),
{
    let ghost orig = colors@;
    let mut i: usize = 0;
    while i < colors.len()
        invariant
            orig == old(colors)@,
            colors@ == orig,
            i <= orig.len(),
            forall|j: int| 0 <= j < i ==> (#[trigger] orig[j]).0 != c,
        decreases orig.len() - i,
    {
        if colors[i].0 == c {
            colors.remove(i);
            colors.insert(i, (c, col));
            proof {
                lemma_upsert_found(orig, c, col, i as int);
                assert(colors@ =~= orig.update(i as int, (c, col)));
            }
            return ;
        }
        i = i + 1;
    }
    colors.push((c, col));
    proof {
        lemma_upsert_missing(orig, c, col);
    }
}

proof fn lemma_upsert_found(acc: Seq<(char, Color)>, c: char, col: Color, i: int)
    requires
        0 <= i < acc.len(),
        acc[i].0 == c,
        forall|j: int| 0 <= j < i ==> (#[trigger] acc[j]).0 != c,
    ensures
        upsert_color(acc, c, col) == acc.update(i, (c, col)),
    decreases acc.len(),
{
    if i == 0 {
        assert(seq![(c, col)] + acc.drop_first() =~= acc.update(0, (c, col)));
    } else {
        let rest = acc.drop_first();
        assert forall|j: int| 0 <= j < i - 1 implies (#[trigger] rest[j]).0 != c by {
            assert(rest[j] == acc[j + 1]);
        }
        assert(rest[i - 1] == acc[i]);
        lemma_upsert_found(rest, c, col, i - 1);
        assert(seq![acc[0]] + rest.update(i - 1, (c, col)) =~= acc.update(i, (c, col)));
    }
}

proof fn lemma_upsert_missing(acc: Seq<(char, Color)>, c: char, col: Color)
    requires
        forall|j: int| 0 <= j < acc.len() ==> (#[trigger] acc[j]).0 != c,
    ensures
        upsert_color(acc, c, col) == acc.push((c, col)),
    decreases acc.len(),
{
    if acc.len() == 0 {
        assert(seq![(c, col)] =~= acc.push((c, col)));
    } else {
        let rest = acc.drop_first();
        assert forall|j: int| 0 <= j < rest.len() implies (#[trigger] rest[j]).0 != c by {
            assert(rest[j] == acc[j + 1]);
        }
        lemma_upsert_missing(rest, c, col);
        assert(seq![acc[0]] + rest.push((c, col)) =~= acc.push((c, col)));
    }
}

} // verus!
