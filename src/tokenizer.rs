use vstd::prelude::*;
use vstd::string::*;
use crate::error::ParseError;
use crate::util::chars_to_string;

verus! {

/// A token, with the byte offset at which it starts. A number keeps its
/// decimal text.
#[derive(Debug, PartialEq)]
pub enum MathToken {
    Add(usize),
    Sub(usize),
    Div(usize),
    Mul(usize),
    Open(usize),
    Close(usize),
    Exp(usize),
    Num(usize, String),
    Id(usize, char),
    Delim(usize),
    Eq(usize),
    Chain(usize),
}

/// The model of a `MathToken`: a number's text as a character sequence.
pub enum Tok {
    Add(usize),
    Sub(usize),
    Div(usize),
    Mul(usize),
    Open(usize),
    Close(usize),
    Exp(usize),
    Num(usize, Seq<char>),
    Id(usize, char),
    Delim(usize),
    Eq(usize),
    Chain(usize),
}

impl Tok {
    pub open spec fn pos(self) -> usize {
        match self {
            Tok::Add(p) => p,
            Tok::Sub(p) => p,
            Tok::Div(p) => p,
            Tok::Mul(p) => p,
            Tok::Open(p) => p,
            Tok::Close(p) => p,
            Tok::Exp(p) => p,
            Tok::Num(p, _) => p,
            Tok::Id(p, _) => p,
            Tok::Delim(p) => p,
            Tok::Eq(p) => p,
            Tok::Chain(p) => p,
        }
    }
}

impl MathToken {
    pub open spec fn view(&self) -> Tok {
        match self {
            MathToken::Add(p) => Tok::Add(*p),
            MathToken::Sub(p) => Tok::Sub(*p),
            MathToken::Div(p) => Tok::Div(*p),
            MathToken::Mul(p) => Tok::Mul(*p),
            MathToken::Open(p) => Tok::Open(*p),
            MathToken::Close(p) => Tok::Close(*p),
            MathToken::Exp(p) => Tok::Exp(*p),
            MathToken::Num(p, s) => Tok::Num(*p, s@),
            MathToken::Id(p, c) => Tok::Id(*p, *c),
            MathToken::Delim(p) => Tok::Delim(*p),
            MathToken::Eq(p) => Tok::Eq(*p),
            MathToken::Chain(p) => Tok::Chain(*p),
        }
    }

    /// The byte offset at which the token starts.
    pub fn position(&self) -> (r: usize)
        ensures
            r == self.view().pos(),
    {
        match self {
            MathToken::Add(x)
            | MathToken::Sub(x)
            | MathToken::Mul(x)
            | MathToken::Div(x)
            | MathToken::Exp(x)
            | MathToken::Open(x)
            | MathToken::Close(x)
            | MathToken::Id(x, _)
            | MathToken::Delim(x)
            | MathToken::Eq(x)
            | MathToken::Num(x, _)
            | MathToken::Chain(x) => *x,
        }
    }
}

pub open spec fn toks_view(v: Seq<MathToken>) -> Seq<Tok> {
    v.map_values(|t: MathToken| t.view())
}

pub open spec fn is_digit(c: char) -> bool {
    '0' <= c && c <= '9'
}

pub open spec fn is_letter(c: char) -> bool {
    ('a' <= c && c <= 'z') || ('A' <= c && c <= 'Z')
}

pub open spec fn is_numeric_char(c: char) -> bool {
    is_digit(c) || c == '.'
}

/// The token that a single punctuation character or letter stands for.
pub open spec fn single_token(c: char, p: usize) -> Option<Tok> {
    if c == '+' {
        Some(Tok::Add(p))
    } else if c == '-' {
        Some(Tok::Sub(p))
    } else if c == '*' {
        Some(Tok::Mul(p))
    } else if c == '/' {
        Some(Tok::Div(p))
    } else if c == '^' {
        Some(Tok::Exp(p))
    } else if c == '(' {
        Some(Tok::Open(p))
    } else if c == ')' {
        Some(Tok::Close(p))
    } else if c == ',' {
        Some(Tok::Delim(p))
    } else if c == '=' {
        Some(Tok::Eq(p))
    } else if c == '&' {
        Some(Tok::Chain(p))
    } else if is_letter(c) {
        Some(Tok::Id(p, c))
    } else {
        None
    }
}

/// The end of the run of digits and dots that starts at `k`.
pub open spec fn numeral_end(s: Seq<char>, k: int) -> int
    decreases s.len() - k,
{
    if 0 <= k < s.len() && is_numeric_char(s[k]) {
        numeral_end(s, k + 1)
    } else {
        k
    }
}

pub open spec fn count_dots(t: Seq<char>) -> nat
    decreases t.len(),
{
    if t.len() == 0 {
        0
    } else {
        count_dots(t.drop_last()) + if t.last() == '.' { 1nat } else { 0nat }
    }
}

pub open spec fn count_digits(t: Seq<char>) -> nat
    decreases t.len(),
{
    if t.len() == 0 {
        0
    } else {
        count_digits(t.drop_last()) + if is_digit(t.last()) { 1nat } else { 0nat }
    }
}

/// A run of digits and dots that reads as a decimal number: at least one
/// digit and at most one dot.
pub open spec fn is_numeral(t: Seq<char>) -> bool {
    count_digits(t) >= 1 && count_dots(t) <= 1
}

/// The tokens of `s[k..]`, after the tokens `acc` of `s[..k]`.
pub open spec fn lex_from(s: Seq<char>, k: int, acc: Seq<Tok>) -> Result<Seq<Tok>, ParseError>
    decreases s.len() - k,
{
    if k < 0 || k >= s.len() {
        Ok(acc)
    } else if s[k] == ' ' {
        lex_from(s, k + 1, acc)
    } else if single_token(s[k], k as usize) is Some {
        let acc1 = if s[k] == '(' && acc.len() > 0 && acc.last() is Num {
            acc.push(Tok::Mul(k as usize))
        } else {
            acc
        };
        lex_from(s, k + 1, acc1.push(single_token(s[k], k as usize)->0))
    } else if is_numeric_char(s[k]) {
        let e = numeral_end(s, k);
        proof {
            lemma_numeral_end(s, k + 1);
        }
        if is_numeral(s.subrange(k, e)) {
            lex_from(s, e, acc.push(Tok::Num(k as usize, s.subrange(k, e))))
        } else {
            Err(ParseError::UnexpectedToken { pos: k as usize, ch: if e < s.len() { s[e] } else { s[e - 1] } })
        }
    } else {
        Err(ParseError::UnexpectedToken { pos: k as usize, ch: s[k] })
    }
}

/// The tokens of a whole input.
pub open spec fn lex(s: Seq<char>) -> Result<Seq<Tok>, ParseError> {
    lex_from(s, 0, seq![])
}

pub open spec fn lex_view(r: Result<Vec<MathToken>, ParseError>) -> Result<Seq<Tok>, ParseError> {
    match r {
        Ok(v) => Ok(toks_view(v@)),
        Err(e) => Err(e),
    }
}

pub proof fn lemma_numeral_end(s: Seq<char>, k: int)
    requires
        0 <= k <= s.len(),
    ensures
        k <= numeral_end(s, k) <= s.len(),
        forall|j: int| k <= j < numeral_end(s, k) ==> is_numeric_char(#[trigger] s[j]),
    decreases s.len() - k,
{
    if k < s.len() && is_numeric_char(s[k]) {
        lemma_numeral_end(s, k + 1);
    }
}

/// Reads the run of digits and dots at `k`: its end, its text, and whether it
/// is a number.
fn read_numeral(s: &str, n: usize, k: usize) -> (r: (usize, Vec<char>, bool))
    requires
        n == s@.len(),
        k < n,
    ensures
        r.0 == numeral_end(s@, k as int),
        r.1@ == s@.subrange(k as int, r.0 as int),
        r.2 == is_numeral(r.1@),
{
    let mut e = k;
    let mut text: Vec<char> = Vec::new();
    let mut dots: usize = 0;
    let mut digits: usize = 0;
    proof {
        lemma_numeral_end(s@, k as int);
    }
    while e < n && (is_ascii_digit(s.get_char(e)) || s.get_char(e) == '.')
        invariant
            n == s@.len(),
            k <= e <= numeral_end(s@, k as int) <= n,
            numeral_end(s@, e as int) == numeral_end(s@, k as int),
            text@ == s@.subrange(k as int, e as int),
            dots == count_dots(text@),
            digits == count_digits(text@),
            dots <= e - k,
            digits <= e - k,
        decreases n - e,
    {
        let c = s.get_char(e);
        let ghost old_text = text@;
        text.push(c);
        assert(text@.drop_last() == old_text);
        if c == '.' {
            dots = dots + 1;
        } else {
            digits = digits + 1;
        }
        proof {
            lemma_numeral_end(s@, e + 1);
        }
        e = e + 1;
        assert(text@ == s@.subrange(k as int, e as int));
    }
    (e, text, digits >= 1 && dots <= 1)
}

fn is_ascii_digit(c: char) -> (r: bool)
    ensures
        r == is_digit(c),
{
    '0' <= c && c <= '9'
}

fn is_ascii_letter(c: char) -> (r: bool)
    ensures
        r == is_letter(c),
{
    ('a' <= c && c <= 'z') || ('A' <= c && c <= 'Z')
}

fn single(c: char, p: usize) -> (r: Option<MathToken>)
    ensures
        match r {
            Some(t) => single_token(c, p) == Some(t.view()),
            None => single_token(c, p) is None,
        },
{
    if c == '+' {
        Some(MathToken::Add(p))
    } else if c == '-' {
        Some(MathToken::Sub(p))
    } else if c == '*' {
        Some(MathToken::Mul(p))
    } else if c == '/' {
        Some(MathToken::Div(p))
    } else if c == '^' {
        Some(MathToken::Exp(p))
    } else if c == '(' {
        Some(MathToken::Open(p))
    } else if c == ')' {
        Some(MathToken::Close(p))
    } else if c == ',' {
        Some(MathToken::Delim(p))
    } else if c == '=' {
        Some(MathToken::Eq(p))
    } else if c == '&' {
        Some(MathToken::Chain(p))
    } else if is_ascii_letter(c) {
        Some(MathToken::Id(p, c))
    } else {
        None
    }
}

impl MathToken {
    /// Splits `input` into tokens: spaces are skipped, punctuation and each
    /// letter give one token, a run of digits and dots gives a number, and a
    /// `*` is inserted between a number and an `(` that follows it.
    pub fn try_new(input: String) -> (r: Result<Vec<MathToken>, ParseError>)
        ensures
            lex_view(r) == lex(input@),
    {
        let s = input.as_str();
        let n = s.unicode_len();
        let mut tokens: Vec<MathToken> = Vec::new();
        let mut k: usize = 0;
        assert(toks_view(tokens@) =~= seq![]);
        while k < n
            invariant
                n == s@.len(),
                s@ == input@,
                k <= n,
                lex_from(s@, k as int, toks_view(tokens@)) == lex(input@),
            decreases n - k,
        {
            let c = s.get_char(k);
            if c == ' ' {
                k = k + 1;
                continue;
            }
            let t = single(c, k);
            if let Some(tok) = t {
                let ghost acc = toks_view(tokens@);
                if c == '(' && tokens.len() > 0 {
                    let last_is_num = match &tokens[tokens.len() - 1] {
                        MathToken::Num(_, _) => true,
                        _ => false,
                    };
                    assert(acc.last() == tokens@.last().view());
                    if last_is_num {
                        tokens.push(MathToken::Mul(k));
                        assert(toks_view(tokens@) =~= acc.push(Tok::Mul(k)));
                    }
                }
                let ghost before = tokens@;
                tokens.push(tok);
                assert(toks_view(tokens@) =~= toks_view(before).push(tok.view()));
                k = k + 1;
                continue;
            }
            if is_ascii_digit(c) || c == '.' {
                let (e, text, ok) = read_numeral(s, n, k);
                proof {
                    lemma_numeral_end(s@, k as int);
                }
                if ok {
                    let lexeme = chars_to_string(text.as_slice());
                    let ghost before = tokens@;
                    tokens.push(MathToken::Num(k, lexeme));
                    assert(toks_view(tokens@) =~= toks_view(before).push(Tok::Num(k, s@.subrange(k as int, e as int))));
                    k = e;
                    continue;
                }
                let ch = if e < n { s.get_char(e) } else { s.get_char(e - 1) };
                return Err(ParseError::UnexpectedToken { pos: k, ch });
            }
            return Err(ParseError::UnexpectedToken { pos: k, ch: c });
        }
        Ok(tokens)
    }
}

} // verus!
