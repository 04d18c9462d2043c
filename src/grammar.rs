use vstd::prelude::*;
use crate::error::ParseError;
use crate::intrinsic::intrinsic_named;
use crate::ops::Ast;
use crate::tokenizer::Tok;

verus! {

/// The model of a function definition.
pub struct FnDef {
    pub name: Seq<char>,
    pub args: Seq<char>,
    pub body: Ast,
}

/// The model of one statement of a chain.
pub enum Stmt {
    Body(Ast),
    Functions(Seq<FnDef>),
}

/// The token at `i` of the window `s[..hi]`, if there is one.
pub open spec fn at(s: Seq<Tok>, i: int, hi: int) -> Option<Tok> {
    if 0 <= i < hi && hi <= s.len() {
        Some(s[i])
    } else {
        None
    }
}

pub open spec fn id_char(t: Tok) -> char {
    match t {
        Tok::Id(_, c) => c,
        _ => ' ',
    }
}

/// The end of the run of identifier tokens that starts at `k`.
pub open spec fn id_end(s: Seq<Tok>, k: int, hi: int) -> int
    decreases hi - k,
{
    if at(s, k, hi) matches Some(Tok::Id(_, _)) {
        id_end(s, k + 1, hi)
    } else {
        k
    }
}

/// The name spelled by the identifier tokens `s[i..e]`.
pub open spec fn ids(s: Seq<Tok>, i: int, e: int) -> Seq<char> {
    Seq::new((e - i) as nat, |t: int| id_char(s[i + t]))
}

/// The index of the `)` that closes a group, scanning from `k` with `depth`
/// groups open.
pub open spec fn close_of(s: Seq<Tok>, k: int, hi: int, depth: nat) -> Option<int>
    decreases hi - k,
{
    match at(s, k, hi) {
        None => None,
        Some(Tok::Close(_)) => if depth <= 1 {
            Some(k)
        } else {
            close_of(s, k + 1, hi, (depth - 1) as nat)
        },
        Some(Tok::Open(_)) => close_of(s, k + 1, hi, depth + 1),
        Some(_) => close_of(s, k + 1, hi, depth),
    }
}

pub proof fn lemma_close_of(s: Seq<Tok>, k: int, hi: int, depth: nat)
    requires
        0 <= k,
    ensures
        close_of(s, k, hi, depth) matches Some(c) ==> k <= c < hi && hi <= s.len() && s[c] is Close,
    decreases hi - k,
{
    match at(s, k, hi) {
        None => {},
        Some(Tok::Close(_)) => if depth > 1 {
            lemma_close_of(s, k + 1, hi, (depth - 1) as nat);
        },
        Some(Tok::Open(_)) => lemma_close_of(s, k + 1, hi, depth + 1),
        Some(_) => lemma_close_of(s, k + 1, hi, depth),
    }
}

pub proof fn lemma_id_end(s: Seq<Tok>, k: int, hi: int)
    ensures
        k <= id_end(s, k, hi),
        k <= hi ==> id_end(s, k, hi) <= hi,
        forall|j: int| k <= j < id_end(s, k, hi) ==> 0 <= j < hi <= s.len() && #[trigger] s[j] is Id,
    decreases hi - k,
{
    if at(s, k, hi) matches Some(Tok::Id(_, _)) {
        lemma_id_end(s, k + 1, hi);
    }
}

/// Whether a token after a number multiplies it: an `(` or a letter.
pub open spec fn follows_number(t: Option<Tok>) -> bool {
    match t {
        Some(Tok::Open(_)) => true,
        Some(Tok::Id(_, _)) => true,
        _ => false,
    }
}

/// An expression, or the error `NoInput` on an empty window.
pub open spec fn inner(s: Seq<Tok>, i: int, hi: int) -> Result<(Ast, int), ParseError>
    decreases hi - i, 12int,
{
    if i >= hi {
        Err(ParseError::NoInput)
    } else {
        expr(s, i, hi)
    }
}

/// `expr := term (('+' | '-') term)*`
pub open spec fn expr(s: Seq<Tok>, i: int, hi: int) -> Result<(Ast, int), ParseError>
    decreases hi - i, 11int,
{
    match term(s, i, hi) {
        Ok((l, j)) => expr_tail(s, i, l, j, hi),
        Err(e) => Err(e),
    }
}

/// The additive operators after `lhs`, which spans `s[i..j]`, folded to the left.
pub open spec fn expr_tail(s: Seq<Tok>, i: int, lhs: Ast, j: int, hi: int) -> Result<(Ast, int), ParseError>
    decreases hi - i, 10int when i < j <= hi
{
    if at(s, j, hi) matches Some(Tok::Add(_)) {
        match term(s, j + 1, hi) {
            Ok((r, k)) => expr_tail(s, j + 1, Ast::Add(Box::new(lhs), Box::new(r)), k, hi),
            Err(e) => Err(e),
        }
    } else if at(s, j, hi) matches Some(Tok::Sub(_)) {
        match term(s, j + 1, hi) {
            Ok((r, k)) => expr_tail(s, j + 1, Ast::Sub(Box::new(lhs), Box::new(r)), k, hi),
            Err(e) => Err(e),
        }
    } else {
        Ok((lhs, j))
    }
}

/// `term := unary (('*' | '/') unary)*`
pub open spec fn term(s: Seq<Tok>, i: int, hi: int) -> Result<(Ast, int), ParseError>
    decreases hi - i, 9int,
{
    match unary(s, i, hi) {
        Ok((l, j)) => term_tail(s, i, l, j, hi),
        Err(e) => Err(e),
    }
}

/// The multiplicative operators after `lhs`, which spans `s[i..j]`, folded to
/// the left.
pub open spec fn term_tail(s: Seq<Tok>, i: int, lhs: Ast, j: int, hi: int) -> Result<(Ast, int), ParseError>
    decreases hi - i, 8int when i < j <= hi
{
    if at(s, j, hi) matches Some(Tok::Mul(_)) {
        match unary(s, j + 1, hi) {
            Ok((r, k)) => term_tail(s, j + 1, Ast::Mul(Box::new(lhs), Box::new(r)), k, hi),
            Err(e) => Err(e),
        }
    } else if at(s, j, hi) matches Some(Tok::Div(_)) {
        match unary(s, j + 1, hi) {
            Ok((r, k)) => term_tail(s, j + 1, Ast::Div(Box::new(lhs), Box::new(r)), k, hi),
            Err(e) => Err(e),
        }
    } else {
        Ok((lhs, j))
    }
}

/// `unary := '-' unary | exp`: a minus negates the power that follows it,
/// binding tighter than `*` and `+` and looser than `^`.
pub open spec fn unary(s: Seq<Tok>, i: int, hi: int) -> Result<(Ast, int), ParseError>
    decreases hi - i, 7int,
{
    if at(s, i, hi) matches Some(Tok::Sub(_)) {
        match unary(s, i + 1, hi) {
            Ok((a, j)) => Ok((Ast::Neg(Box::new(a)), j)),
            Err(e) => Err(e),
        }
    } else {
        exp(s, i, hi)
    }
}

/// `exp := primary ('^' unary)?`, so that `^` groups to the right.
pub open spec fn exp(s: Seq<Tok>, i: int, hi: int) -> Result<(Ast, int), ParseError>
    decreases hi - i, 6int,
{
    match primary(s, i, hi) {
        Ok((l, j)) => exp_tail(s, i, l, j, hi),
        Err(e) => Err(e),
    }
}

/// The exponent after the base `lhs`, which spans `s[i..j]`.
pub open spec fn exp_tail(s: Seq<Tok>, i: int, lhs: Ast, j: int, hi: int) -> Result<(Ast, int), ParseError>
    decreases hi - i, 5int when i < j <= hi
{
    if at(s, j, hi) matches Some(Tok::Exp(_)) {
        match unary(s, j + 1, hi) {
            Ok((r, k)) => Ok((Ast::Exp(Box::new(lhs), Box::new(r)), k)),
            Err(e) => Err(e),
        }
    } else {
        Ok((lhs, j))
    }
}

/// `primary := '(' expr ')' | NUM | NUM primary | call | id`; a number
/// followed by `(` or a letter multiplies what follows.
pub open spec fn primary(s: Seq<Tok>, i: int, hi: int) -> Result<(Ast, int), ParseError>
    decreases hi - i, 4int,
{
    match at(s, i, hi) {
        Some(Tok::Open(start)) => match close_of(s, i + 1, hi, 1) {
            None => Err(ParseError::UnbalancedBrackets { pos: start }),
            Some(c) => {
                proof {
                    lemma_close_of(s, i + 1, hi, 1);
                }
                match at(s, c + 1, hi) {
                    Some(Tok::Close(extra)) => Err(ParseError::UnbalancedBrackets { pos: extra }),
                    _ => match inner(s, i + 1, c) {
                        Ok((a, j)) => if j < c {
                            Err(
                                ParseError::InBrackets {
                                    start,
                                    end: s[c].pos(),
                                    inner: Box::new(ParseError::TrailingInput { pos: s[j].pos() }),
                                },
                            )
                        } else {
                            Ok((a, c + 1))
                        },
                        Err(e) => Err(ParseError::InBrackets { start, end: s[c].pos(), inner: Box::new(e) }),
                    },
                }
            },
        },
        Some(Tok::Num(_, x)) => {
            if follows_number(at(s, i + 1, hi)) {
                match primary(s, i + 1, hi) {
                    Ok((r, j)) => Ok((Ast::Mul(Box::new(Ast::Num(x)), Box::new(r)), j)),
                    Err(e) => Err(e),
                }
            } else {
                Ok((Ast::Num(x), i + 1))
            }
        },
        Some(Tok::Id(_, c)) => match call(s, i, hi) {
            Ok(Some(x)) => Ok(x),
            Ok(None) => Ok((Ast::Arg(c), i + 1)),
            Err(e) => Err(e),
        },
        Some(t) => Err(ParseError::ExpectedPrimary { pos: Some(t.pos()) }),
        None => Err(ParseError::ExpectedPrimary { pos: None }),
    }
}

/// `call := id+ '(' [expr (',' expr)*] ')'`, or
/// the bare name of an intrinsic without parameters (`pi`); `None` otherwise.
/// A call of an intrinsic must pass as many arguments as the intrinsic takes.
pub open spec fn call(s: Seq<Tok>, i: int, hi: int) -> Result<Option<(Ast, int)>, ParseError>
    decreases hi - i, 3int,
{
    proof {
        lemma_id_end(s, i, hi);
    }
    let e = id_end(s, i, hi);
    match at(s, e, hi) {
        Some(Tok::Open(start)) => match call_args(s, e, seq![], e + 1, hi) {
            Ok((args, c)) => {
                let name = ids(s, i, e);
                let found = Ok(Some((Ast::Call(name, args), c + 1)));
                match intrinsic_named(name) {
                    Some(f) => if f.spec_arg_count() != args.len() {
                        Err(
                            ParseError::ArgumentCount {
                                intrinsic: f,
                                provided: args.len() as usize,
                                start,
                                end: s[c].pos(),
                            },
                        )
                    } else {
                        found
                    },
                    None => found,
                }
            },
            Err(err) => Err(err),
        },
        _ => match intrinsic_named(ids(s, i, e)) {
            Some(f) => if e > i && f.spec_arg_count() == 0 {
                Ok(Some((Ast::Call(ids(s, i, e), seq![]), e)))
            } else {
                Ok(None)
            },
            None => Ok(None),
        },
    }
}

/// The arguments of a call from `k` up to its `)`, after `args`: expressions
/// separated by commas, none when the `)` comes first. `prev` is a position
/// before `k`. Returns the arguments and the index of the `)`.
pub open spec fn call_args(s: Seq<Tok>, prev: int, args: Seq<Ast>, k: int, hi: int) -> Result<(Seq<Ast>, int), ParseError>
    decreases hi - prev, 0int when prev < k <= hi
{
    if args.len() == 0 && at(s, k, hi) matches Some(Tok::Close(_)) {
        Ok((args, k))
    } else {
        match expr(s, k, hi) {
            Ok((a, j)) => match at(s, j, hi) {
                Some(Tok::Close(_)) => Ok((args.push(a), j)),
                Some(Tok::Delim(_)) => call_args(s, k, args.push(a), j + 1, hi),
                Some(t) => Err(ParseError::ExpectedSeparator { pos: Some(t.pos()) }),
                None => Err(ParseError::ExpectedSeparator { pos: None }),
            },
            Err(e) => Err(e),
        }
    }
}

/// The formal parameters from `k`, after `args`: identifiers separated by
/// commas. Returns them with the index where the list stops, or `None` when an
/// identifier is followed by neither `,` nor `)`, or a `,` by no identifier.
pub open spec fn formals(s: Seq<Tok>, args: Seq<char>, k: int, hi: int) -> Option<(Seq<char>, int)>
    decreases hi - k,
{
    match at(s, k, hi) {
        Some(Tok::Id(_, c)) => if at(s, k + 1, hi) matches Some(Tok::Delim(_)) {
            if at(s, k + 2, hi) matches Some(Tok::Id(_, _)) {
                formals(s, args.push(c), k + 2, hi)
            } else {
                None
            }
        } else if at(s, k + 1, hi) matches Some(Tok::Close(_)) {
            Some((args.push(c), k + 1))
        } else {
            None
        },
        _ => Some((args, k)),
    }
}

/// `funcdef := id+ '(' formals ')' '=' expr`; `None` when the tokens at `i` do
/// not start a definition.
pub open spec fn full_func(s: Seq<Tok>, i: int, hi: int) -> Result<Option<(Stmt, int)>, ParseError> {
    let e = id_end(s, i, hi);
    if e > i && at(s, e, hi) matches Some(Tok::Open(_)) {
        match formals(s, seq![], e + 1, hi) {
            Some((args, k)) => {
                if at(s, k, hi) matches Some(Tok::Close(_)) && at(s, k + 1, hi) matches Some(Tok::Eq(_)) {
                    match inner(s, k + 2, hi) {
                        Ok((body, j)) => Ok(Some((Stmt::Functions(seq![FnDef { name: ids(s, i, e), args, body }]), j))),
                        Err(err) => Err(err),
                    }
                } else {
                    Ok(None)
                }
            },
            None => Ok(None),
        }
    } else {
        Ok(None)
    }
}

/// One statement: a definition if the tokens start one, else an expression.
pub open spec fn statement(s: Seq<Tok>, i: int, hi: int) -> Result<(Stmt, int), ParseError> {
    match full_func(s, i, hi) {
        Err(e) => Err(e),
        Ok(Some(x)) => Ok(x),
        Ok(None) => match inner(s, i, hi) {
            Ok((a, j)) => Ok((Stmt::Body(a), j)),
            Err(e) => Err(e),
        },
    }
}

/// The statements after `acc`, from `k`, where `prev < k`: each further one
/// follows a `&`, and nothing else may follow: a `)` left over has no `(`.
pub open spec fn chain_rest(s: Seq<Tok>, prev: int, acc: Seq<Stmt>, k: int) -> Result<Seq<Stmt>, ParseError>
    decreases s.len() - prev when prev < k <= s.len()
{
    if at(s, k, s.len() as int) matches Some(Tok::Chain(_)) {
        match statement(s, k + 1, s.len() as int) {
            Ok((st, j)) => chain_rest(s, k, acc.push(st), j),
            Err(e) => Err(e),
        }
    } else if k < s.len() {
        match s[k] {
            Tok::Close(p) => Err(ParseError::UnbalancedBrackets { pos: p }),
            t => Err(ParseError::TrailingInput { pos: t.pos() }),
        }
    } else {
        Ok(acc)
    }
}

/// `program := stmt ('&' stmt)*`, over the whole token sequence.
pub open spec fn program(s: Seq<Tok>) -> Result<Seq<Stmt>, ParseError> {
    match statement(s, 0, s.len() as int) {
        Ok((st, j)) => chain_rest(s, 0, seq![st], j),
        Err(e) => Err(e),
    }
}

} // verus!
