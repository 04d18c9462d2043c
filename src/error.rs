use vstd::prelude::*;
use vstd::string::*;
use crate::intrinsic::Intrinsic;
use crate::util::{chars_to_string, error_message, spec_error_message};

verus! {

/// Why an input could not be tokenized or parsed. Positions count the
/// characters before the place; every character before a token is ASCII, so
/// they are byte offsets too.
#[derive(Debug, PartialEq)]
#[allow(inconsistent_fields)]
pub enum ParseError {
    /// A character that starts no token; for a malformed number, the
    /// character after it.
    UnexpectedToken { pos: usize, ch: char },
    /// A bracket at `pos` without its partner: an `(` that is never
    /// closed, or a `)` that closes nothing.
    UnbalancedBrackets { pos: usize },
    /// An expression was required and no token was left.
    NoInput,
    /// A token (or, with `None`, the end of the input) where a number,
    /// argument, call or bracket was expected.
    ExpectedPrimary { pos: Option<usize> },
    /// A call's argument followed by neither `,` nor `)`: the token there,
    /// or (`None`) the end of the input.
    ExpectedSeparator { pos: Option<usize> },
    /// A call of an intrinsic with the wrong number of arguments; `start` and
    /// `end` are the positions of its brackets.
    ArgumentCount { intrinsic: Intrinsic, provided: usize, start: usize, end: usize },
    /// A token after a complete statement that is not `&`.
    TrailingInput { pos: usize },
    /// An error inside the bracket group from `start` to `end`.
    InBrackets { start: usize, end: usize, inner: Box<ParseError> },
}

/// The input line with the characters `start..=end` highlighted, when that
/// range lies in the input; nothing otherwise.
pub open spec fn highlight(input: Seq<char>, start: int, end: int) -> Seq<char> {
    if 0 <= start <= end < input.len() {
        spec_error_message(input, start, end)
    } else {
        seq![]
    }
}

/// The decimal digits of `n`.
pub open spec fn decimal(n: nat) -> Seq<char>
    decreases n,
{
    let digits = seq!['0', '1', '2', '3', '4', '5', '6', '7', '8', '9'];
    if n < 10 {
        seq![digits[n as int]]
    } else {
        decimal(n / 10).push(digits[(n % 10) as int])
    }
}

/// The lines that describe an error, outermost context first.
pub open spec fn messages_spec(e: ParseError, input: Seq<char>) -> Seq<Seq<char>>
    decreases e,
{
    match e {
        ParseError::UnexpectedToken { pos, ch } => seq![
            "unexpected token: '"@ + seq![ch] + "'"@ + highlight(input, pos as int, pos as int),
        ],
        ParseError::UnbalancedBrackets { pos } => seq!["brackets not balanced"@ + highlight(input, pos as int, pos as int)],
        ParseError::NoInput => seq!["no input provided"@],
        ParseError::ExpectedPrimary { pos } => {
            let p = match pos {
                Some(p) => p as int,
                None => input.len() - 1,
            };
            seq!["expected number or open bracket"@ + highlight(input, p, p)]
        },
        ParseError::ExpectedSeparator { pos } => {
            let p = match pos {
                Some(p) => p as int,
                None => input.len() - 1,
            };
            seq!["expected ',' or ')'"@ + highlight(input, p, p)]
        },
        ParseError::ArgumentCount { intrinsic, provided, start, end } => seq![
            "incorrect argument count for '"@ + intrinsic.spec_name() + "' call, "@ + decimal(
                provided as nat,
            ) + " provided, "@ + decimal(intrinsic.spec_arg_count() as nat) + " expected"@
                + highlight(input, start as int, end as int),
        ],
        ParseError::TrailingInput { pos } => seq!["unexpected token"@ + highlight(input, pos as int, pos as int)],
        ParseError::InBrackets { start, end, inner } => seq![
            "while evaluating brackets"@ + highlight(input, start as int, end as int),
        ] + messages_spec(*inner, input),
    }
}

fn highlight_text(input: &str, start: usize, end: usize) -> (r: String)
    ensures
        r@ == highlight(input@, start as int, end as int),
{
    if start <= end && end < input.unicode_len() {
        error_message(input, start, end)
    } else {
        String::new()
    }
}

fn push_decimal(n: usize, out: &mut Vec<char>)
    ensures
        final(out)@ == old(out)@ + decimal(n as nat),
    decreases n,
{
    let digits = ['0', '1', '2', '3', '4', '5', '6', '7', '8', '9'];
    let ghost spec_digits = seq!['0', '1', '2', '3', '4', '5', '6', '7', '8', '9'];
    assert(digits@ =~= spec_digits);
    if n >= 10 {
        push_decimal(n / 10, out);
    }
    out.push(digits[n % 10]);
    assert(out@ =~= old(out)@ + decimal(n as nat));
}

fn decimal_text(n: usize) -> (r: String)
    ensures
        r@ == decimal(n as nat),
{
    let mut v: Vec<char> = Vec::new();
    push_decimal(n, &mut v);
    assert(v@ =~= decimal(n as nat));
    chars_to_string(v.as_slice())
}

fn joined(parts: Vec<String>) -> (r: String)
    ensures
        r@ == concat_all(parts@),
{
    let mut out = String::new();
    let mut k: usize = 0;
    while k < parts.len()
        invariant
            k <= parts@.len(),
            out@ == concat_all(parts@.subrange(0, k as int)),
        decreases parts.len() - k,
    {
        out.append(parts[k].as_str());
        assert(parts@.subrange(0, k + 1).drop_last() =~= parts@.subrange(0, k as int));
        k = k + 1;
    }
    assert(parts@.subrange(0, k as int) =~= parts@);
    out
}

/// The characters of `parts`, one after another.
pub open spec fn concat_all(parts: Seq<String>) -> Seq<char>
    decreases parts.len(),
{
    if parts.len() == 0 {
        seq![]
    } else {
        concat_all(parts.drop_last()) + parts.last()@
    }
}

impl ParseError {
    /// The lines that describe the error for `input`, outermost context
    /// first; each names the problem and, where the error has a position,
    /// shows the input with that range in red.
    pub fn messages(&self, input: &str) -> (r: Vec<String>)
        ensures
            r@.map_values(|s: String| s@) == messages_spec(*self, input@),
        decreases self,
    {
        proof {
            reveal_with_fuel(concat_all, 9);
        }
        let line = match self {
            ParseError::UnexpectedToken { pos, ch } => {
                let parts = vec![
                    String::from_str("unexpected token: '"),
                    chars_to_string(vec![*ch].as_slice()),
                    String::from_str("'"),
                    highlight_text(input, *pos, *pos),
                ];
                joined(parts)
            },
            ParseError::UnbalancedBrackets { pos } => joined(
                vec![String::from_str("brackets not balanced"), highlight_text(input, *pos, *pos)],
            ),
            ParseError::NoInput => String::from_str("no input provided"),
            ParseError::ExpectedPrimary { pos } => {
                let h = match pos {
                    Some(p) => highlight_text(input, *p, *p),
                    None => {
                        let n = input.unicode_len();
                        if n >= 1 {
                            highlight_text(input, n - 1, n - 1)
                        } else {
                            String::new()
                        }
                    },
                };
                joined(vec![String::from_str("expected number or open bracket"), h])
            },
            ParseError::ExpectedSeparator { pos } => {
                let h = match pos {
                    Some(p) => highlight_text(input, *p, *p),
                    None => {
                        let n = input.unicode_len();
                        if n >= 1 {
                            highlight_text(input, n - 1, n - 1)
                        } else {
                            String::new()
                        }
                    },
                };
                joined(vec![String::from_str("expected ',' or ')'"), h])
            },
            ParseError::ArgumentCount { intrinsic, provided, start, end } => {
                let parts = vec![
                    String::from_str("incorrect argument count for '"),
                    String::from_str(intrinsic.name()),
                    String::from_str("' call, "),
                    decimal_text(*provided),
                    String::from_str(" provided, "),
                    decimal_text(intrinsic.proto().arg_count as usize),
                    String::from_str(" expected"),
                    highlight_text(input, *start, *end),
                ];
                joined(parts)
            },
            ParseError::TrailingInput { pos } => joined(vec![String::from_str("unexpected token"), highlight_text(input, *pos, *pos)]),
            ParseError::InBrackets { start, end, inner } => {
                joined(vec![String::from_str("while evaluating brackets"), highlight_text(input, *start, *end)])
            },
        };
        assert(line@ == messages_spec(*self, input@)[0]);
        let ghost line_v = line@;
        let mut out = vec![line];
        if let ParseError::InBrackets { inner, .. } = self {
            let mut rest = inner.messages(input);
            let ghost rest_v = rest@;
            out.append(&mut rest);
            assert(out@.map_values(|s: String| s@) =~= seq![line_v] + rest_v.map_values(|s: String| s@));
        } else {
            assert(out@.map_values(|s: String| s@) =~= seq![line_v]);
        }
        out
    }
}

} // verus!
