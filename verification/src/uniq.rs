//! Collapsing consecutive duplicate lines, each with its repeat count, and
//! rendering the result as the `uniq` utility prints it.

use vstd::prelude::*;

use crate::text::dec_repr;
use crate::text::from_chars;
use crate::text::push_char;
use crate::text::split_chars;
use crate::text::split_on;
use crate::text::to_chars;
use vstd::string::StringExecFns;

verus! {

/// What the caller chose: an input file, an output file, whether to count.
#[derive(Debug, Clone, PartialEq, Eq, PartialOrd, Ord, Hash)]
pub struct Argument {
    pub input: Option<String>,
    pub output: Option<String>,
    pub count: bool,
}

/// One line with the number of consecutive occurrences.
#[derive(Debug, Clone, PartialEq, Eq, PartialOrd, Ord, Hash)]
pub struct Line {
    pub value: String,
    pub count: usize,
}

impl View for Line {
    type V = (Seq<char>, nat);

    open spec fn view(&self) -> (Seq<char>, nat) {
        (self.value@, self.count as nat)
    }
}

/// The views of a vector of lines.
pub open spec fn lines_view(v: Seq<Line>) -> Seq<(Seq<char>, nat)> {
    v.map_values(|l: Line| l@)
}

/// One more token folded into the grouping: it either extends the last run
/// or starts a new one.
pub open spec fn spec_push_line(
    acc: Seq<(Seq<char>, nat)>,
    t: Seq<char>,
) -> Seq<(Seq<char>, nat)> {
    if acc.len() > 0 && acc.last().0 == t {
        acc.update(acc.len() - 1, (t, (acc.last().1 + 1) as nat))
    } else {
        acc.push((t, 1nat))
    }
}

/// Consecutive equal tokens grouped into (value, count) runs, in order.
pub open spec fn spec_group(tokens: Seq<Seq<char>>) -> Seq<(Seq<char>, nat)>
    decreases tokens.len(),
{
    if tokens.len() == 0 {
        Seq::empty()
    } else {
        spec_push_line(spec_group(tokens.drop_last()), tokens.last())
    }
}

impl Line {
    /// Group the `\n`-separated lines of the text: consecutive equal lines
    /// collapse into one entry whose count says how often they repeat.
    pub fn from_reader(content: &str) -> (r: Vec<Line>)
        ensures
            lines_view(r@) == spec_group(split_on(content@, '\n')),
    {
        let chars = to_chars(content);
        let tokens = split_chars(chars.as_slice(), '\n');
        let ghost tokens_v = split_on(content@, '\n');
        let mut lines: Vec<Line> = Vec::new();
        let mut k: usize = 0;
        assert(tokens_v.take(0) =~= Seq::<Seq<char>>::empty());
        assert(lines_view(lines@) =~= spec_group(tokens_v.take(0)));
        while k < tokens.len()
            invariant
                tokens.deep_view() == tokens_v,
                tokens@.len() == tokens_v.len(),
                k <= tokens_v.len(),
                lines_view(lines@) == spec_group(tokens_v.take(k as int)),
                forall|j: int| 0 <= j < lines@.len() ==> (#[trigger] lines@[j]).count <= k,
            decreases tokens_v.len() - k,
        {
            assert(tokens@[k as int].deep_view() == tokens_v[k as int]);
            assert(tokens@[k as int]@ =~= tokens_v[k as int]);
            let token = from_chars(tokens[k].as_slice());
            let n = lines.len();
            let ghost old_lines = lines@;
            proof {
                assert(tokens_v.take(k + 1 as int).drop_last() =~= tokens_v.take(k as int));
            }
            let mut extends_last = false;
            if n > 0 {
                if lines[n - 1].value == token {
                    extends_last = true;
                }
            }
            if extends_last {
                let prev = lines.pop().unwrap();
                lines.push(Line { value: token, count: prev.count + 1 });
                proof {
                    assert(lines_view(lines@) =~= spec_push_line(
                        lines_view(old_lines),
                        tokens_v[k as int],
                    ));
                }
            } else {
                lines.push(Line { value: token, count: 1 });
                proof {
                    assert(lines_view(lines@) =~= spec_push_line(
                        lines_view(old_lines),
                        tokens_v[k as int],
                    ));
                }
            }
            k = k + 1;
        }
        assert(tokens_v.take(tokens_v.len() as int) =~= tokens_v);
        lines
    }
}

/// A run of space characters.
pub open spec fn spaces(n: nat) -> Seq<char> {
    Seq::new(n, |i: int| ' ')
}

/// A count right-aligned to at least four characters, as `{:>4}` pads it.
pub open spec fn padded_count(n: nat) -> Seq<char> {
    let digits = dec_repr(n);
    if digits.len() >= 4 {
        digits
    } else {
        spaces((4 - digits.len()) as nat) + digits
    }
}

/// What one grouped line renders to: an optional padded count, the line
/// itself, and a newline unless the last line stands alone.
pub open spec fn spec_rendered_line(
    lines: Seq<(Seq<char>, nat)>,
    j: int,
    count: bool,
) -> Seq<char> {
    let l = lines[j];
    let prefix = if count && !(l.0.len() == 0 && j == lines.len() - 1) {
        padded_count(l.1) + seq![' ']
    } else {
        Seq::<char>::empty()
    };
    let newline = if j < lines.len() - 1 || l.1 > 1 {
        seq!['\n']
    } else {
        Seq::<char>::empty()
    };
    prefix + l.0 + newline
}

/// The whole rendering, line by line.
pub open spec fn spec_render(lines: Seq<(Seq<char>, nat)>, upto: int, count: bool) -> Seq<char>
    decreases upto,
{
    if upto <= 0 {
        Seq::empty()
    } else {
        spec_render(lines, upto - 1, count) + spec_rendered_line(lines, upto - 1, count)
    }
}

fn push_padded_count(out: &mut String, n: usize)
    ensures
        final(out)@ == old(out)@ + padded_count(n as nat),
{
    let digits = crate::text::fmt_usize(n);
    let len = digits.unicode_len();
    let mut pad: usize = 0;
    while pad + len < 4
        invariant
            digits@ == dec_repr(n as nat),
            len == digits@.len(),
            pad == 0 || pad + len <= 4,
            out@ == old(out)@ + spaces(pad as nat),
        decreases 4 - pad - len,
    {
        push_char(out, ' ');
        assert((old(out)@ + spaces(pad as nat)).push(' ') =~= old(out)@ + spaces((pad + 1) as nat));
        pad = pad + 1;
    }
    assert(old(out)@ + spaces(0) =~= old(out)@);
    out.append(digits.as_str());
    proof {
        if len >= 4 {
            assert(old(out)@ + spaces(0) + dec_repr(n as nat) =~= old(out)@ + padded_count(
                n as nat,
            ));
        } else {
            assert(old(out)@ + spaces((4 - len) as nat) + dec_repr(n as nat) =~= old(out)@
                + padded_count(n as nat));
        }
    }
}

/// Render the grouped lines the way `uniq` prints them: with counts when
/// asked, except for a trailing empty line, and with a final newline only
/// when the last line repeats.
pub fn write_to_buffer(lines: &Vec<Line>, count: bool) -> (r: String)
    ensures
        r@ == spec_render(lines_view(lines@), lines@.len() as int, count),
{
    let ghost lines_v = lines_view(lines@);
    let mut buffer = String::new();
    let mut index: usize = 0;
    while index < lines.len()
        invariant
            lines_v == lines_view(lines@),
            lines_v.len() == lines@.len(),
            index <= lines@.len(),
            buffer@ == spec_render(lines_v, index as int, count),
        decreases lines@.len() - index,
    {
        let line = &lines[index];
        assert(lines_v[index as int] == line@);
        let ghost before = buffer@;
        let mut wrote_prefix = false;
        if count && !(line.value.as_str().is_empty() && index == lines.len() - 1) {
            push_padded_count(&mut buffer, line.count);
            push_char(&mut buffer, ' ');
            wrote_prefix = true;
            assert(buffer@ =~= before + (padded_count(line.count as nat) + seq![' ']));
        }
        buffer.append(line.value.as_str());
        if (index < lines.len() - 1) || (line.count > 1) {
            push_char(&mut buffer, '\n');
            assert(buffer@ =~= before + spec_rendered_line(lines_v, index as int, count));
        } else {
            assert(buffer@ + Seq::<char>::empty() =~= buffer@);
            assert(buffer@ =~= before + spec_rendered_line(lines_v, index as int, count));
        }
        index = index + 1;
    }
    buffer
}

} // verus!
