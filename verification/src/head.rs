//! The first lines or bytes of a text, as the `head` utility shows them.

use vstd::prelude::*;

use crate::text::dec_value;
use crate::text::parse_usize;
use crate::text::parses_as_usize;
use crate::text::push_char;
use crate::text::to_chars;
use crate::text::unsigned_digits;
use crate::text::utf8_lossy;
use crate::text::utf8_lossy_string;
use vstd::string::StringExecFns;
use vstd::utf8::encode_utf8;

verus! {

/// How much of the input to show: a number of lines or a number of bytes.
#[derive(Debug, Clone, Copy, PartialEq, Eq, Structural, PartialOrd, Ord)]
pub enum Output {
    Line(usize),
    Byte(usize),
}

/// Where the text comes from.
#[derive(Debug, Clone, PartialEq, Eq, PartialOrd, Ord)]
pub enum Input {
    Files(Vec<String>),
    Stdin,
}

/// The two choices together.
#[derive(Debug, Clone, PartialEq, Eq, PartialOrd, Ord)]
pub struct Argument {
    pub input: Input,
    pub output: Output,
}

/// A count argument that is not a positive number.
#[derive(Debug, Clone, PartialEq, Eq, Hash)]
pub struct CountError {
    pub argument_name: String,
    pub number_string: String,
}

/// The display string of a bad count: `head: illegal <name> count -- <text>`.
pub open spec fn count_error_message(name: Seq<char>, text: Seq<char>) -> Seq<char> {
    "head: illegal "@ + name + " count -- "@ + text
}

impl CountError {
    pub fn message(&self) -> (r: String)
        ensures
            r@ == count_error_message(self.argument_name@, self.number_string@),
    {
        let mut m = String::from_str("head: illegal ");
        m.append(self.argument_name.as_str());
        m.append(" count -- ");
        m.append(self.number_string.as_str());
        m
    }
}

impl Argument {
    /// Parse a count argument: any positive number is accepted (`str::parse`
    /// tolerates a leading `+`); zero and everything else is rejected with
    /// the argument's name in the message.
    pub fn parse_number(number_string: &str, argument_name: &str) -> (r: Result<usize, CountError>)
        ensures
            match r {
                Ok(n) => parses_as_usize(number_string@) && n == dec_value(
                    unsigned_digits(number_string@),
                ) && n > 0,
                Err(e) => (!parses_as_usize(number_string@) || dec_value(
                    unsigned_digits(number_string@),
                ) == 0) && e.argument_name@ == argument_name@ && e.number_string@
                    == number_string@,
            },
    {
        let chars = to_chars(number_string);
        match parse_usize(chars.as_slice()) {
            Some(n) if n != 0 => Ok(n),
            _ => Err(
                CountError {
                    argument_name: String::from_str(argument_name),
                    number_string: String::from_str(number_string),
                },
            ),
        }
    }
}

/// Where the first `remaining` lines of `s` end, counting `\n` and `\r\n`
/// (but not a lone `\r`) as line endings, starting the scan at `i`.
pub open spec fn head_line_end(s: Seq<char>, i: int, remaining: nat) -> int
    decreases s.len() - i,
{
    if i < 0 || i >= s.len() || remaining == 0 {
        i
    } else if s[i] == '\r' && i + 1 < s.len() && s[i + 1] == '\n' {
        head_line_end(s, i + 2, (remaining - 1) as nat)
    } else if s[i] == '\n' {
        head_line_end(s, i + 1, (remaining - 1) as nat)
    } else {
        head_line_end(s, i + 1, remaining)
    }
}

/// What `head` prints: the first `n` lines (endings included), or the first
/// `n` bytes decoded lossily.
pub open spec fn spec_head_output(s: Seq<char>, output: Output) -> Seq<char> {
    match output {
        Output::Line(n) => s.take(head_line_end(s, 0, n as nat)),
        Output::Byte(n) => {
            let bytes = encode_utf8(s);
            let upper = if n <= bytes.len() {
                n as int
            } else {
                bytes.len() as int
            };
            utf8_lossy(bytes.take(upper))
        },
    }
}

/// The text that `head` shows for the requested output choice.
pub fn head_output(text: &str, output: Output) -> (r: String)
    ensures
        r@ == spec_head_output(text@, output),
{
    match output {
        Output::Line(line_number) => {
            let chars = to_chars(text);
            let n = chars.len();
            let mut result = String::new();
            let mut encountered: usize = 0;
            let mut index: usize = 0;
            while index < n && encountered < line_number
                invariant
                    chars@ == text@,
                    n == text@.len(),
                    index <= n,
                    encountered <= line_number,
                    result@ == text@.take(index as int),
                    head_line_end(text@, 0, line_number as nat) == head_line_end(
                        text@,
                        index as int,
                        (line_number - encountered) as nat,
                    ),
                decreases n - index,
        {
                let c = chars[index];
                if c == '\r' && index + 1 < n && chars[index + 1] == '\n' {
                    push_char(&mut result, '\r');
                    push_char(&mut result, '\n');
                    proof {
                        assert(text@.take(index + 2 as int) =~= text@.take(index as int).push(
                            text@[index as int],
                        ).push(text@[index + 1 as int]));
                    }
                    encountered = encountered + 1;
                    index = index + 2;
                } else {
                    push_char(&mut result, c);
                    proof {
                        assert(text@.take(index + 1 as int) =~= text@.take(index as int).push(
                            text@[index as int],
                        ));
                    }
                    if c == '\n' {
                        encountered = encountered + 1;
                    }
                    index = index + 1;
                }
            }
            result
        },
        Output::Byte(byte_numbers) => {
            let all_bytes = text.as_bytes();
            let upper_bound = if byte_numbers < all_bytes.len() {
                byte_numbers
            } else {
                all_bytes.len()
            };
            let r = utf8_lossy_string(&all_bytes[0..upper_bound]);
            proof {
                let bytes = encode_utf8(text@);
                let upper = if byte_numbers <= bytes.len() {
                    byte_numbers as int
                } else {
                    bytes.len() as int
                };
                assert(bytes.subrange(0, upper_bound as int) =~= bytes.take(upper));
            }
            r
        },
    }
}

} // verus!
