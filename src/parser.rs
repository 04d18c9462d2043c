use vstd::prelude::*;
use vstd::string::*;
use crate::error::ParseError;
use crate::grammar::{
    at, call, call_args, close_of, expr, expr_tail, exp, exp_tail, formals, full_func, id_end, ids,
    inner, lemma_close_of, lemma_id_end, primary, program, statement, chain_rest, term, term_tail, unary,
    FnDef, Stmt,
};
use crate::intrinsic::lookup_intrinsic;
use crate::ops::{Ast, MathOp};
use crate::tokenizer::{lex, toks_view, MathToken, Tok};
use crate::util::{chars_to_string, string_chars};

verus! {

/// A user-defined function: its name, its formal parameters in order, and
/// its body.
#[derive(Debug, PartialEq)]
pub struct Function {
    pub name: String,
    pub args: Vec<char>,
    pub body: MathOp,
}

/// One statement of an input: an expression to evaluate, or definitions to
/// install.
#[derive(Debug, PartialEq)]
pub enum ParseOutput {
    Body(MathOp),
    Functions(Vec<Function>),
}

impl Function {
    pub open spec fn view(&self) -> FnDef {
        FnDef { name: self.name@, args: self.args@, body: self.body.view() }
    }
}

pub open spec fn fns_view(v: Seq<Function>) -> Seq<FnDef> {
    v.map_values(|f: Function| f.view())
}

pub open spec fn ops_view(v: Seq<MathOp>) -> Seq<Ast> {
    v.map_values(|o: MathOp| o.view())
}

impl ParseOutput {
    pub open spec fn view(&self) -> Stmt {
        match self {
            ParseOutput::Body(op) => Stmt::Body(op.view()),
            ParseOutput::Functions(fs) => Stmt::Functions(fns_view(fs@)),
        }
    }
}

pub open spec fn outputs_view(v: Seq<ParseOutput>) -> Seq<Stmt> {
    v.map_values(|o: ParseOutput| o.view())
}

/// How a token is written back out.
pub open spec fn tok_text(t: Tok) -> Seq<char> {
    match t {
        Tok::Add(_) => seq![' ', '+', ' '],
        Tok::Sub(_) => seq![' ', '-', ' '],
        Tok::Div(_) => seq![' ', '/', ' '],
        Tok::Mul(_) => seq![' ', '*', ' '],
        Tok::Exp(_) => seq![' ', '^', ' '],
        Tok::Open(_) => seq!['('],
        Tok::Close(_) => seq![')'],
        Tok::Id(_, c) => seq![c],
        Tok::Delim(_) => seq![',', ' '],
        Tok::Eq(_) => seq![' ', '=', ' '],
        Tok::Num(_, x) => x,
        Tok::Chain(_) => seq![' ', '&', ' '],
    }
}

/// The texts of `s`, one after another.
pub open spec fn toks_text(s: Seq<Tok>) -> Seq<char>
    decreases s.len(),
{
    if s.len() == 0 {
        seq![]
    } else {
        toks_text(s.drop_last()) + tok_text(s.last())
    }
}

/// `t` without its leading spaces.
pub open spec fn trim_start(t: Seq<char>) -> Seq<char>
    decreases t.len(),
{
    if t.len() > 0 && t[0] == ' ' {
        trim_start(t.drop_first())
    } else {
        t
    }
}

/// `t` without its trailing spaces.
pub open spec fn trim_end(t: Seq<char>) -> Seq<char>
    decreases t.len(),
{
    if t.len() > 0 && t.last() == ' ' {
        trim_end(t.drop_last())
    } else {
        t
    }
}

pub open spec fn op_result(r: Result<(MathOp, usize), ParseError>) -> Result<(Ast, int), ParseError> {
    match r {
        Ok((op, j)) => Ok((op.view(), j as int)),
        Err(e) => Err(e),
    }
}

pub open spec fn parse_result(r: Result<Vec<ParseOutput>, ParseError>) -> Result<Seq<Stmt>, ParseError> {
    match r {
        Ok(v) => Ok(outputs_view(v@)),
        Err(e) => Err(e),
    }
}

/// A recursive-descent parser over the tokens of one input.
#[derive(Debug)]
pub struct Parser {
    tokens: Vec<MathToken>,
    original_string: String,
}

impl Parser {
    /// The model of the parser's tokens.
    pub closed spec fn toks(&self) -> Seq<Tok> {
        toks_view(self.tokens@)
    }

    /// The input the parser was made from.
    pub closed spec fn source(&self) -> Seq<char> {
        self.original_string@
    }

    /// Tokenizes `input` and makes a parser over its tokens.
    pub fn new(input: &str) -> (r: Result<Parser, ParseError>)
        ensures
            match r {
                Ok(p) => lex(input@) == Ok::<Seq<Tok>, ParseError>(p.toks()) && p.source() == input@,
                Err(e) => lex(input@) == Err::<Seq<Tok>, ParseError>(e),
            },
    {
        match MathToken::try_new(String::from_str(input)) {
            Ok(tokens) => Ok(Parser { tokens, original_string: String::from_str(input) }),
            Err(e) => Err(e),
        }
    }

    /// The tokens of the input.
    pub fn original_tokens(&self) -> (r: &[MathToken])
        ensures
            toks_view(r@) == self.toks(),
    {
        self.tokens.as_slice()
    }

    /// The input the parser was made from.
    pub fn original_string(&self) -> (r: &str)
        ensures
            r@ == self.source(),
    {
        self.original_string.as_str()
    }

    /// The tokens written back out, operators spaced and numbers as
    /// written, without spaces at either end.
    pub fn to_text(&self) -> (r: String)
        ensures
            r@ == trim_end(trim_start(toks_text(self.toks()))),
    {
        let mut text: Vec<char> = Vec::new();
        let mut k: usize = 0;
        while k < self.tokens.len()
            invariant
                k <= self.tokens@.len(),
                text@ == toks_text(self.toks().subrange(0, k as int)),
            decreases self.tokens.len() - k,
        {
            let ghost before = text@;
            match &self.tokens[k] {
                MathToken::Add(_) => {
                    text.push(' ');
                    text.push('+');
                    text.push(' ');
                },
                MathToken::Sub(_) => {
                    text.push(' ');
                    text.push('-');
                    text.push(' ');
                },
                MathToken::Div(_) => {
                    text.push(' ');
                    text.push('/');
                    text.push(' ');
                },
                MathToken::Mul(_) => {
                    text.push(' ');
                    text.push('*');
                    text.push(' ');
                },
                MathToken::Exp(_) => {
                    text.push(' ');
                    text.push('^');
                    text.push(' ');
                },
                MathToken::Open(_) => {
                    text.push('(');
                },
                MathToken::Close(_) => {
                    text.push(')');
                },
                MathToken::Id(_, c) => {
                    text.push(*c);
                },
                MathToken::Delim(_) => {
                    text.push(',');
                    text.push(' ');
                },
                MathToken::Eq(_) => {
                    text.push(' ');
                    text.push('=');
                    text.push(' ');
                },
                MathToken::Num(_, x) => {
                    let digits = string_chars(x.as_str());
                    let mut d: usize = 0;
                    while d < digits.len()
                        invariant
                            d <= digits@.len(),
                            text@ == before + digits@.subrange(0, d as int),
                        decreases digits.len() - d,
                    {
                        text.push(digits[d]);
                        d = d + 1;
                        assert(text@ =~= before + digits@.subrange(0, d as int));
                    }
                    assert(digits@.subrange(0, d as int) =~= digits@);
                },
                MathToken::Chain(_) => {
                    text.push(' ');
                    text.push('&');
                    text.push(' ');
                },
            }
            assert(self.toks().subrange(0, k + 1).drop_last() =~= self.toks().subrange(0, k as int));
            assert(text@ =~= before + tok_text(self.toks()[k as int]));
            k = k + 1;
        }
        assert(self.toks().subrange(0, k as int) =~= self.toks());
        let ghost full = text@;
        let mut a: usize = 0;
        assert(full.subrange(0, full.len() as int) =~= full);
        while a < text.len() && text[a] == ' '
            invariant
                a <= text@.len(),
                text@ == full,
                trim_start(full) == trim_start(full.subrange(a as int, full.len() as int)),
            decreases text.len() - a,
        {
            assert(full.subrange(a as int, full.len() as int).drop_first() =~= full.subrange(a + 1, full.len() as int));
            a = a + 1;
        }
        let ghost start = full.subrange(a as int, full.len() as int);
        assert(trim_start(full) == start);
        let mut b: usize = text.len();
        while b > a && text[b - 1] == ' '
            invariant
                a <= b <= text@.len(),
                text@ == full,
                trim_end(start) == trim_end(full.subrange(a as int, b as int)),
            decreases b,
        {
            assert(full.subrange(a as int, b as int).drop_last() =~= full.subrange(a as int, b - 1));
            b = b - 1;
        }
        let ghost kept = full.subrange(a as int, b as int);
        assert(trim_end(kept) == kept);
        let mut out: Vec<char> = Vec::new();
        let mut m: usize = a;
        while m < b
            invariant
                a <= m <= b <= text@.len(),
                text@ == full,
                out@ == full.subrange(a as int, m as int),
            decreases b - m,
        {
            out.push(text[m]);
            m = m + 1;
            assert(out@ =~= full.subrange(a as int, m as int));
        }
        chars_to_string(out.as_slice())
    }

    fn peek(&self, i: usize, hi: usize) -> (r: Option<&MathToken>)
        requires
            hi <= self.tokens@.len(),
        ensures
            match r {
                Some(t) => at(self.toks(), i as int, hi as int) == Some(t.view()),
                None => at(self.toks(), i as int, hi as int) is None,
            },
    {
        if i < hi {
            Some(&self.tokens[i])
        } else {
            None
        }
    }

    fn parse_inner_func(&self, i: usize, hi: usize) -> (r: Result<(MathOp, usize), ParseError>)
        requires
            i <= hi <= self.tokens@.len(),
        ensures
            op_result(r) == inner(self.toks(), i as int, hi as int),
            r matches Ok((_, j)) ==> i < j <= hi,
        decreases hi - i, 20int,
    {
        if i >= hi {
            return Err(ParseError::NoInput);
        }
        self.parse_expr(i, hi)
    }

    fn parse_expr(&self, i: usize, hi: usize) -> (r: Result<(MathOp, usize), ParseError>)
        requires
            i <= hi <= self.tokens@.len(),
        ensures
            op_result(r) == expr(self.toks(), i as int, hi as int),
            r matches Ok((_, j)) ==> i < j <= hi,
        decreases hi - i, 18int,
    {
        match self.parse_term(i, hi) {
            Ok((l, j)) => self.expr_tail(i, l, j, hi),
            Err(e) => Err(e),
        }
    }

    fn expr_tail(&self, i: usize, lhs: MathOp, j: usize, hi: usize) -> (r: Result<(MathOp, usize), ParseError>)
        requires
            i < j <= hi <= self.tokens@.len(),
        ensures
            op_result(r) == expr_tail(self.toks(), i as int, lhs.view(), j as int, hi as int),
            r matches Ok((_, k)) ==> j <= k <= hi,
        decreases hi - i, 16int,
    {
        let t = self.peek(j, hi);
        if let Some(MathToken::Add(_)) = t {
            match self.parse_term(j + 1, hi) {
                Ok((r, k)) => self.expr_tail(j + 1, MathOp::Add { lhs: Box::new(lhs), rhs: Box::new(r) }, k, hi),
                Err(e) => Err(e),
            }
        } else if let Some(MathToken::Sub(_)) = t {
            match self.parse_term(j + 1, hi) {
                Ok((r, k)) => self.expr_tail(j + 1, MathOp::Sub { lhs: Box::new(lhs), rhs: Box::new(r) }, k, hi),
                Err(e) => Err(e),
            }
        } else {
            Ok((lhs, j))
        }
    }

    fn parse_term(&self, i: usize, hi: usize) -> (r: Result<(MathOp, usize), ParseError>)
        requires
            i <= hi <= self.tokens@.len(),
        ensures
            op_result(r) == term(self.toks(), i as int, hi as int),
            r matches Ok((_, j)) ==> i < j <= hi,
        decreases hi - i, 14int,
    {
        match self.parse_unary(i, hi) {
            Ok((l, j)) => self.term_tail(i, l, j, hi),
            Err(e) => Err(e),
        }
    }

    fn term_tail(&self, i: usize, lhs: MathOp, j: usize, hi: usize) -> (r: Result<(MathOp, usize), ParseError>)
        requires
            i < j <= hi <= self.tokens@.len(),
        ensures
            op_result(r) == term_tail(self.toks(), i as int, lhs.view(), j as int, hi as int),
            r matches Ok((_, k)) ==> j <= k <= hi,
        decreases hi - i, 12int,
    {
        let t = self.peek(j, hi);
        if let Some(MathToken::Mul(_)) = t {
            match self.parse_unary(j + 1, hi) {
                Ok((r, k)) => self.term_tail(j + 1, MathOp::Mul { lhs: Box::new(lhs), rhs: Box::new(r) }, k, hi),
                Err(e) => Err(e),
            }
        } else if let Some(MathToken::Div(_)) = t {
            match self.parse_unary(j + 1, hi) {
                Ok((r, k)) => self.term_tail(j + 1, MathOp::Div { lhs: Box::new(lhs), rhs: Box::new(r) }, k, hi),
                Err(e) => Err(e),
            }
        } else {
            Ok((lhs, j))
        }
    }

    fn parse_unary(&self, i: usize, hi: usize) -> (r: Result<(MathOp, usize), ParseError>)
        requires
            i <= hi <= self.tokens@.len(),
        ensures
            op_result(r) == unary(self.toks(), i as int, hi as int),
            r matches Ok((_, j)) ==> i < j <= hi,
        decreases hi - i, 11int,
    {
        if let Some(MathToken::Sub(_)) = self.peek(i, hi) {
            match self.parse_unary(i + 1, hi) {
                Ok((a, j)) => Ok((MathOp::Neg(Box::new(a)), j)),
                Err(e) => Err(e),
            }
        } else {
            self.parse_exp(i, hi)
        }
    }

    fn parse_exp(&self, i: usize, hi: usize) -> (r: Result<(MathOp, usize), ParseError>)
        requires
            i <= hi <= self.tokens@.len(),
        ensures
            op_result(r) == exp(self.toks(), i as int, hi as int),
            r matches Ok((_, j)) ==> i < j <= hi,
        decreases hi - i, 10int,
    {
        match self.parse_primary(i, hi) {
            Ok((l, j)) => self.exp_tail(i, l, j, hi),
            Err(e) => Err(e),
        }
    }

    fn exp_tail(&self, i: usize, lhs: MathOp, j: usize, hi: usize) -> (r: Result<(MathOp, usize), ParseError>)
        requires
            i < j <= hi <= self.tokens@.len(),
        ensures
            op_result(r) == exp_tail(self.toks(), i as int, lhs.view(), j as int, hi as int),
            r matches Ok((_, k)) ==> j <= k <= hi,
        decreases hi - i, 8int,
    {
        if let Some(MathToken::Exp(_)) = self.peek(j, hi) {
            match self.parse_unary(j + 1, hi) {
                Ok((r, k)) => Ok((MathOp::Exp { lhs: Box::new(lhs), rhs: Box::new(r) }, k)),
                Err(e) => Err(e),
            }
        } else {
            Ok((lhs, j))
        }
    }

    /// The index of the `)` that closes the group whose contents start at `k0`.
    fn find_close(&self, k0: usize, hi: usize) -> (r: Option<usize>)
        requires
            1 <= k0 <= hi <= self.tokens@.len(),
        ensures
            match r {
                Some(c) => close_of(self.toks(), k0 as int, hi as int, 1) == Some(c as int),
                None => close_of(self.toks(), k0 as int, hi as int, 1) is None,
            },
    {
        let mut k = k0;
        let mut depth: usize = 1;
        while k < hi
            invariant
                k0 <= k <= hi <= self.tokens@.len(),
                1 <= k0,
                1 <= depth <= k - k0 + 1,
                close_of(self.toks(), k0 as int, hi as int, 1) == close_of(self.toks(), k as int, hi as int, depth as nat),
            decreases hi - k,
        {
            match &self.tokens[k] {
                MathToken::Close(_) => {
                    if depth <= 1 {
                        return Some(k);
                    }
                    depth = depth - 1;
                },
                MathToken::Open(_) => {
                    depth = depth + 1;
                },
                _ => {},
            }
            k = k + 1;
        }
        None
    }

    fn parse_primary(&self, i: usize, hi: usize) -> (r: Result<(MathOp, usize), ParseError>)
        requires
            i <= hi <= self.tokens@.len(),
        ensures
            op_result(r) == primary(self.toks(), i as int, hi as int),
            r matches Ok((_, j)) ==> i < j <= hi,
        decreases hi - i, 6int,
    {
        match self.peek(i, hi) {
            Some(MathToken::Open(_)) => self.parse_group(i, hi),
            Some(MathToken::Num(_, _)) => self.parse_number(i, hi),
            Some(MathToken::Id(_, c)) => {
                let c = *c;
                match self.parse_primary_func_call(i, hi) {
                    Ok(Some(x)) => Ok(x),
                    Ok(None) => Ok((MathOp::Arg(c), i + 1)),
                    Err(e) => Err(e),
                }
            },
            Some(t) => Err(ParseError::ExpectedPrimary { pos: Some(t.position()) }),
            None => Err(ParseError::ExpectedPrimary { pos: None }),
        }
    }

    /// A bracket group at `i`: its contents, parsed as an expression.
    fn parse_group(&self, i: usize, hi: usize) -> (r: Result<(MathOp, usize), ParseError>)
        requires
            i <= hi <= self.tokens@.len(),
            at(self.toks(), i as int, hi as int) matches Some(Tok::Open(_)),
        ensures
            op_result(r) == primary(self.toks(), i as int, hi as int),
            r matches Ok((_, j)) ==> i < j <= hi,
        decreases hi - i, 5int,
    {
        let start = self.tokens[i].position();
        match self.find_close(i + 1, hi) {
            None => Err(ParseError::UnbalancedBrackets { pos: start }),
            Some(c) => {
                proof {
                    lemma_close_of(self.toks(), i + 1, hi as int, 1);
                }
                if let Some(MathToken::Close(extra)) = self.peek(c + 1, hi) {
                    Err(ParseError::UnbalancedBrackets { pos: *extra })
                } else {
                    match self.parse_inner_func(i + 1, c) {
                        Ok((a, j)) => if j < c {
                            Err(
                                ParseError::InBrackets {
                                    start,
                                    end: self.tokens[c].position(),
                                    inner: Box::new(ParseError::TrailingInput { pos: self.tokens[j].position() }),
                                },
                            )
                        } else {
                            Ok((a, c + 1))
                        },
                        Err(e) => Err(
                            ParseError::InBrackets {
                                start,
                                end: self.tokens[c].position(),
                                inner: Box::new(e),
                            },
                        ),
                    }
                }
            },
        }
    }

    /// A number at `i`, times the primary that follows when that starts with
    /// `(` or a letter.
    fn parse_number(&self, i: usize, hi: usize) -> (r: Result<(MathOp, usize), ParseError>)
        requires
            i <= hi <= self.tokens@.len(),
            at(self.toks(), i as int, hi as int) matches Some(Tok::Num(_, _)),
        ensures
            op_result(r) == primary(self.toks(), i as int, hi as int),
            r matches Ok((_, j)) ==> i < j <= hi,
        decreases hi - i, 5int,
    {
        let x = match &self.tokens[i] {
            MathToken::Num(_, x) => x.clone(),
            _ => String::new(),
        };
        assert(self.toks()[i as int] == self.tokens@[i as int].view());
        assert(self.toks()[i as int] matches Tok::Num(_, y) && y == x@);
        let multiplies = match self.peek(i + 1, hi) {
            Some(MathToken::Open(_)) => true,
            Some(MathToken::Id(_, _)) => true,
            _ => false,
        };
        if multiplies {
            match self.parse_primary(i + 1, hi) {
                Ok((rhs, j)) => {
                    let num = MathOp::Num(x);
                    assert(num.view() == Ast::Num(x@));
                    Ok((MathOp::Mul { lhs: Box::new(num), rhs: Box::new(rhs) }, j))
                },
                Err(e) => Err(e),
            }
        } else {
            Ok((MathOp::Num(x), i + 1))
        }
    }

    /// The identifiers from `i`: where they end, and the name they spell.
    fn read_name(&self, i: usize, hi: usize) -> (r: (usize, Vec<char>))
        requires
            i <= hi <= self.tokens@.len(),
        ensures
            r.0 == id_end(self.toks(), i as int, hi as int),
            r.1@ == ids(self.toks(), i as int, r.0 as int),
            i <= r.0 <= hi,
    {
        let mut name: Vec<char> = Vec::new();
        let mut e = i;
        proof {
            lemma_id_end(self.toks(), i as int, hi as int);
        }
        loop
            invariant
                i <= e <= hi <= self.tokens@.len(),
                id_end(self.toks(), e as int, hi as int) == id_end(self.toks(), i as int, hi as int),
                name@ == ids(self.toks(), i as int, e as int),
            ensures
                e == id_end(self.toks(), i as int, hi as int),
                name@ == ids(self.toks(), i as int, e as int),
                i <= e <= hi,
            decreases hi - e,
        {
            if e >= hi {
                break;
            }
            match &self.tokens[e] {
                MathToken::Id(_, c) => {
                    name.push(*c);
                    e = e + 1;
                    assert(name@ =~= ids(self.toks(), i as int, e as int));
                },
                _ => {
                    break;
                },
            }
        }
        (e, name)
    }

    fn parse_primary_func_call(&self, i: usize, hi: usize) -> (r: Result<Option<(MathOp, usize)>, ParseError>)
        requires
            i <= hi <= self.tokens@.len(),
        ensures
            match r {
                Ok(Some((op, j))) => call(self.toks(), i as int, hi as int) == Ok::<Option<(Ast, int)>, ParseError>(Some((op.view(), j as int))),
                Ok(None) => call(self.toks(), i as int, hi as int) == Ok::<Option<(Ast, int)>, ParseError>(None),
                Err(e) => call(self.toks(), i as int, hi as int) == Err::<Option<(Ast, int)>, ParseError>(e),
            },
            r matches Ok(Some((_, j))) ==> i < j <= hi,
        decreases hi - i, 4int,
    {
        let (e, name) = self.read_name(i, hi);
        match self.peek(e, hi) {
            Some(MathToken::Open(start)) => {
                let start = *start;
                let empty: Vec<MathOp> = Vec::new();
                assert(ops_view(empty@) =~= seq![]);
                match self.parse_call_args(e, empty, e + 1, hi) {
                    Ok((args, c)) => {
                        let ghost args_v = ops_view(args@);
                        let n_args = args.len();
                        let intr = lookup_intrinsic(name.as_slice());
                        let found = MathOp::Call { name: chars_to_string(name.as_slice()), args };
                        proof {
                            let v = found.view();
                            assert(v->Call_1 =~= args_v);
                            assert(v->Call_0 =~= ids(self.toks(), i as int, e as int));
                        }
                        match intr {
                            Some(f) => {
                                if f.proto().arg_count as usize != n_args {
                                    Err(
                                        ParseError::ArgumentCount {
                                            intrinsic: f,
                                            provided: n_args,
                                            start,
                                            end: self.tokens[c].position(),
                                        },
                                    )
                                } else {
                                    Ok(Some((found, c + 1)))
                                }
                            },
                            None => Ok(Some((found, c + 1))),
                        }
                    },
                    Err(err) => Err(err),
                }
            },
            _ => {
                if e > i {
                    if let Some(f) = lookup_intrinsic(name.as_slice()) {
                        if f.proto().arg_count == 0 {
                            let args: Vec<MathOp> = Vec::new();
                            let found = MathOp::Call { name: chars_to_string(name.as_slice()), args };
                            proof {
                                let v = found.view();
                                assert(v->Call_1 =~= Seq::<Ast>::empty());
                                assert(v->Call_0 =~= ids(self.toks(), i as int, e as int));
                            }
                            return Ok(Some((found, e)));
                        }
                    }
                }
                Ok(None)
            },
        }
    }

    fn parse_call_args(&self, prev: usize, args: Vec<MathOp>, k: usize, hi: usize) -> (r: Result<(Vec<MathOp>, usize), ParseError>)
        requires
            prev < k <= hi <= self.tokens@.len(),
        ensures
            match r {
                Ok((v, c)) => call_args(self.toks(), prev as int, ops_view(args@), k as int, hi as int) == Ok::<(Seq<Ast>, int), ParseError>((ops_view(v@), c as int)) && k <= c < hi,
                Err(e) => call_args(self.toks(), prev as int, ops_view(args@), k as int, hi as int) == Err::<(Seq<Ast>, int), ParseError>(e),
            },
        decreases hi - prev, 0int,
    {
        if args.len() == 0 {
            if let Some(MathToken::Close(_)) = self.peek(k, hi) {
                return Ok((args, k));
            }
        }
        match self.parse_expr(k, hi) {
            Ok((a, j)) => {
                let ghost before = args@;
                let ghost a_v = a.view();
                let mut args = args;
                args.push(a);
                assert(ops_view(args@) =~= ops_view(before).push(a_v));
                match self.peek(j, hi) {
                    Some(MathToken::Close(_)) => Ok((args, j)),
                    Some(MathToken::Delim(_)) => self.parse_call_args(k, args, j + 1, hi),
                    Some(t) => Err(ParseError::ExpectedSeparator { pos: Some(t.position()) }),
                    None => Err(ParseError::ExpectedSeparator { pos: None }),
                }
            },
            Err(e) => Err(e),
        }
    }

    /// The formal parameters from `k0`; see `formals`.
    fn read_formals(&self, k0: usize, hi: usize) -> (r: Option<(Vec<char>, usize)>)
        requires
            k0 <= hi <= self.tokens@.len(),
        ensures
            match r {
                Some((args, k)) => formals(self.toks(), seq![], k0 as int, hi as int) == Some((args@, k as int)) && k0 <= k <= hi,
                None => formals(self.toks(), seq![], k0 as int, hi as int) is None,
            },
    {
        let mut args: Vec<char> = Vec::new();
        let mut k = k0;
        loop
            invariant
                k0 <= k <= hi <= self.tokens@.len(),
                formals(self.toks(), seq![], k0 as int, hi as int) == formals(self.toks(), args@, k as int, hi as int),
            decreases hi - k,
        {
            match self.peek(k, hi) {
                Some(MathToken::Id(_, c)) => {
                    let c = *c;
                    match self.peek(k + 1, hi) {
                        Some(MathToken::Delim(_)) => {
                            if let Some(MathToken::Id(_, _)) = self.peek(k + 2, hi) {
                                args.push(c);
                                k = k + 2;
                            } else {
                                return None;
                            }
                        },
                        Some(MathToken::Close(_)) => {
                            args.push(c);
                            return Some((args, k + 1));
                        },
                        _ => {
                            return None;
                        },
                    }
                },
                _ => {
                    return Some((args, k));
                },
            }
        }
    }

    fn parse_full_func(&self, i: usize, hi: usize) -> (r: Result<Option<(ParseOutput, usize)>, ParseError>)
        requires
            i <= hi <= self.tokens@.len(),
        ensures
            match r {
                Ok(Some((o, j))) => full_func(self.toks(), i as int, hi as int) == Ok::<Option<(Stmt, int)>, ParseError>(Some((o.view(), j as int))) && i < j <= hi,
                Ok(None) => full_func(self.toks(), i as int, hi as int) == Ok::<Option<(Stmt, int)>, ParseError>(None),
                Err(e) => full_func(self.toks(), i as int, hi as int) == Err::<Option<(Stmt, int)>, ParseError>(e),
            },
    {
        let (e, name) = self.read_name(i, hi);
        if e <= i {
            return Ok(None);
        }
        if let Some(MathToken::Open(_)) = self.peek(e, hi) {
            match self.read_formals(e + 1, hi) {
                Some((args, k)) => {
                    let closes = match self.peek(k, hi) {
                        Some(MathToken::Close(_)) => true,
                        _ => false,
                    };
                    let assigns = closes && match self.peek(k + 1, hi) {
                        Some(MathToken::Eq(_)) => true,
                        _ => false,
                    };
                    if closes && assigns {
                        match self.parse_inner_func(k + 2, hi) {
                            Ok((body, j)) => {
                                let f = Function { name: chars_to_string(name.as_slice()), args, body };
                                let fs = vec![f];
                                let out = ParseOutput::Functions(fs);
                                assert(fns_view(fs@) =~= seq![f.view()]);
                                Ok(Some((out, j)))
                            },
                            Err(err) => Err(err),
                        }
                    } else {
                        Ok(None)
                    }
                },
                None => Ok(None),
            }
        } else {
            Ok(None)
        }
    }

    fn parse_expression_chain_single(&self, i: usize, hi: usize) -> (r: Result<(ParseOutput, usize), ParseError>)
        requires
            i <= hi <= self.tokens@.len(),
        ensures
            match r {
                Ok((o, j)) => statement(self.toks(), i as int, hi as int) == Ok::<(Stmt, int), ParseError>((o.view(), j as int)) && i < j <= hi,
                Err(e) => statement(self.toks(), i as int, hi as int) == Err::<(Stmt, int), ParseError>(e),
            },
    {
        match self.parse_full_func(i, hi) {
            Err(e) => Err(e),
            Ok(Some(x)) => Ok(x),
            Ok(None) => match self.parse_inner_func(i, hi) {
                Ok((a, j)) => Ok((ParseOutput::Body(a), j)),
                Err(e) => Err(e),
            },
        }
    }

    /// Parses the whole input: statements separated by `&`, each a function
    /// definition where the tokens make one and an expression otherwise, with
    /// nothing left over.
    pub fn parse(&self) -> (r: Result<Vec<ParseOutput>, ParseError>)
        ensures
            parse_result(r) == program(self.toks()),
    {
        let n = self.tokens.len();
        let (first, mut k) = match self.parse_expression_chain_single(0, n) {
            Ok(x) => x,
            Err(e) => {
                return Err(e);
            },
        };
        let mut out: Vec<ParseOutput> = Vec::new();
        out.push(first);
        assert(outputs_view(out@) =~= seq![first.view()]);
        let mut prev: usize = 0;
        loop
            invariant
                n == self.tokens@.len(),
                prev < k <= n,
                program(self.toks()) == chain_rest(self.toks(), prev as int, outputs_view(out@), k as int),
            decreases n - k,
        {
            if let Some(MathToken::Chain(_)) = self.peek(k, n) {
                match self.parse_expression_chain_single(k + 1, n) {
                    Ok((st, j)) => {
                        let ghost before = outputs_view(out@);
                        let ghost sv = st.view();
                        out.push(st);
                        assert(outputs_view(out@) =~= before.push(sv));
                        prev = k;
                        k = j;
                    },
                    Err(e) => {
                        return Err(e);
                    },
                }
            } else if k < n {
                return match &self.tokens[k] {
                    MathToken::Close(p) => Err(ParseError::UnbalancedBrackets { pos: *p }),
                    t => Err(ParseError::TrailingInput { pos: t.position() }),
                };
            } else {
                return Ok(out);
            }
        }
    }
}

} // verus!
