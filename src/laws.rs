use vstd::prelude::*;
use crate::env::{define, define_all, find, lemma_define, lemma_find, names_unique, repl_name};
use crate::grammar::{
    at, call, call_args, chain_rest, exp, exp_tail, expr, expr_tail, follows_number, full_func, id_end, ids, inner,
    primary, program, statement, term, term_tail, unary, FnDef, Stmt,
};
use crate::error::ParseError;
use crate::intrinsic::{intrinsic_named, Intrinsic};
use crate::ops::Ast;
use crate::tokenizer::Tok;
use crate::jit::{stmt_defs, without_repl};

verus! {

/// Defining a function twice leaves exactly one function of that name in the
/// environment, and a call of the name reaches the second definition; no
/// other name becomes duplicated.
pub proof fn law_redefinition_keeps_one(env: Seq<FnDef>, first: FnDef, second: FnDef)
    requires
        names_unique(env),
        first.name == second.name,
    ensures
        define_all(env, seq![first, second]) == define(define(env, first), second),
        names_unique(define(define(env, first), second)),
        find(define(define(env, first), second), second.name) matches Some(k)
            && define(define(env, first), second)[k] == second,
        forall|m: int|
            0 <= m < define(define(env, first), second).len()
                && (#[trigger] define(define(env, first), second)[m]).name == second.name
                ==> define(define(env, first), second)[m] == second,
{
    let fs = seq![first, second];
    assert(fs.drop_last() =~= seq![first]);
    assert(seq![first].drop_last() =~= Seq::<FnDef>::empty());
    assert(define_all(env, Seq::<FnDef>::empty()) == env);
    let e1 = define(env, first);
    assert(define_all(env, seq![first]) == e1);
    lemma_define(env, first);
    lemma_define(e1, second);
}

/// Installing definitions in order: every name that they define is then
/// reached by its last definition among them.
pub proof fn law_last_definition_wins(env: Seq<FnDef>, fs: Seq<FnDef>, j: int)
    requires
        names_unique(env),
        0 <= j < fs.len(),
        forall|m: int| j < m < fs.len() ==> fs[m].name != fs[j].name,
    ensures
        find(define_all(env, fs), fs[j].name) matches Some(k) && define_all(env, fs)[k] == fs[j],
    decreases fs.len(),
{
    let prefix = fs.drop_last();
    crate::env::lemma_define_all_unique(env, prefix);
    let e = define_all(env, prefix);
    lemma_define(e, fs.last());
    if j == fs.len() - 1 {
    } else {
        law_last_definition_wins(env, prefix, j);
        let k = find(e, fs[j].name)->0;
        lemma_find(e, fs[j].name);
        lemma_find(define(e, fs.last()), fs[j].name);
        assert(define(e, fs.last())[k] == e[k]);
    }
}

/// No function is named like the `_repl` wrapper.
pub open spec fn free_of_repl(env: Seq<FnDef>) -> bool {
    forall|k: int| 0 <= k < env.len() ==> #[trigger] env[k].name != repl_name()
}

/// The interpreter's environment after a statement: definitions are
/// installed, an expression leaves it as it is.
pub open spec fn interpreter_after(env: Seq<FnDef>, st: Stmt) -> Seq<FnDef> {
    match st {
        Stmt::Body(_) => env,
        Stmt::Functions(fs) => define_all(env, fs),
    }
}

proof fn lemma_without_repl_free(env: Seq<FnDef>)
    ensures
        free_of_repl(without_repl(env)),
        free_of_repl(env) ==> without_repl(env) == env,
    decreases env.len(),
{
    if env.len() > 0 {
        lemma_without_repl_free(env.drop_last());
        if free_of_repl(env) {
            assert(free_of_repl(env.drop_last()));
            assert(env.drop_last().push(env.last()) =~= env);
        }
    }
}

proof fn lemma_define_all_free(env: Seq<FnDef>, fs: Seq<FnDef>)
    requires
        free_of_repl(env),
        free_of_repl(fs),
    ensures
        free_of_repl(define_all(env, fs)),
    decreases fs.len(),
{
    if fs.len() > 0 {
        assert(free_of_repl(fs.drop_last()));
        lemma_define_all_free(env, fs.drop_last());
        let e = define_all(env, fs.drop_last());
        let f = fs[fs.len() - 1];
        assert(f.name != repl_name());
        let d = define(e, f);
        lemma_find(e, f.name);
        assert forall|k: int| 0 <= k < d.len() implies #[trigger] d[k].name != repl_name() by {
            match find(e, f.name) {
                Some(j) => {
                    if k != j {
                        assert(d[k] == e[k]);
                    }
                },
                None => {
                    if k < e.len() {
                        assert(d[k] == e[k]);
                    }
                },
            }
        }
    }
}

/// Both backends install the same definitions: when the compiling backend's
/// functions other than its `_repl` wrapper are the interpreter's functions,
/// they still are after both take the same statement. (A definition's name is
/// made of letters, so none is named `_repl`.)
pub proof fn law_backends_share_definitions(interpreter: Seq<FnDef>, compiled: Seq<FnDef>, st: Stmt)
    requires
        without_repl(compiled) == interpreter,
        st matches Stmt::Functions(fs) ==> free_of_repl(fs),
    ensures
        without_repl(define_all(without_repl(compiled), stmt_defs(st))) == interpreter_after(interpreter, st),
{
    lemma_without_repl_free(compiled);
    let w = without_repl(compiled);
    match st {
        Stmt::Body(a) => {
            let wrapper = FnDef { name: repl_name(), args: seq![], body: a };
            let defs = seq![wrapper];
            assert(defs.drop_last() =~= Seq::<FnDef>::empty());
            assert(define_all(w, Seq::<FnDef>::empty()) == w);
            assert(define_all(w, defs) == define(w, wrapper));
            lemma_find(w, repl_name());
            assert(find(w, repl_name()) is None);
            let d = w.push(wrapper);
            assert(d.drop_last() =~= w);
            assert(without_repl(d) == without_repl(w));
            lemma_without_repl_free(w);
        },
        Stmt::Functions(fs) => {
            lemma_define_all_free(w, fs);
            lemma_without_repl_free(define_all(w, fs));
        },
    }
}

/// A number written right before a one-letter parameter multiplies it: the
/// tokens of `2x` form one expression, `2 * x`.
pub proof fn law_number_times_argument(p: usize, digits: Seq<char>, q: usize, x: char)
    ensures
        program(seq![Tok::Num(p, digits), Tok::Id(q, x)]) == Ok::<Seq<Stmt>, ParseError>(
            seq![Stmt::Body(Ast::Mul(Box::new(Ast::Num(digits)), Box::new(Ast::Arg(x))))],
        ),
{
    let s = seq![Tok::Num(p, digits), Tok::Id(q, x)];
    let prod = Ast::Mul(Box::new(Ast::Num(digits)), Box::new(Ast::Arg(x)));
    assert(id_end(s, 0, 2) == 0);
    assert(full_func(s, 0, 2) == Ok::<Option<(Stmt, int)>, ParseError>(None));
    assert(id_end(s, 2, 2) == 2);
    assert(id_end(s, 1, 2) == 2);
    assert(ids(s, 1, 2) =~= seq![x]);
    assert(intrinsic_named(seq![x]) is None);
    assert(call(s, 1, 2) == Ok::<Option<(Ast, int)>, ParseError>(None));
    assert(primary(s, 1, 2) == Ok::<(Ast, int), ParseError>((Ast::Arg(x), 2)));
    assert(primary(s, 0, 2) == Ok::<(Ast, int), ParseError>((prod, 2)));
    assert(exp_tail(s, 0, prod, 2, 2) == Ok::<(Ast, int), ParseError>((prod, 2)));
    assert(exp(s, 0, 2) == Ok::<(Ast, int), ParseError>((prod, 2)));
    assert(term_tail(s, 0, prod, 2, 2) == Ok::<(Ast, int), ParseError>((prod, 2)));
    assert(term(s, 0, 2) == Ok::<(Ast, int), ParseError>((prod, 2)));
    assert(expr_tail(s, 0, prod, 2, 2) == Ok::<(Ast, int), ParseError>((prod, 2)));
    assert(expr(s, 0, 2) == Ok::<(Ast, int), ParseError>((prod, 2)));
    assert(inner(s, 0, 2) == Ok::<(Ast, int), ParseError>((prod, 2)));
    assert(statement(s, 0, 2) == Ok::<(Stmt, int), ParseError>((Stmt::Body(prod), 2)));
    assert(chain_rest(s, 0, seq![Stmt::Body(prod)], 2) == Ok::<Seq<Stmt>, ParseError>(seq![Stmt::Body(prod)]));
}

/// A letter that is followed by neither a letter nor `(` is a parameter.
proof fn lemma_letter_operand(s: Seq<Tok>, i: int, hi: int, q: usize, x: char)
    requires
        0 <= i < hi <= s.len(),
        s[i] == Tok::Id(q, x),
        !(at(s, i + 1, hi) matches Some(Tok::Id(_, _))),
        !(at(s, i + 1, hi) matches Some(Tok::Open(_))),
    ensures
        primary(s, i, hi) == Ok::<(Ast, int), ParseError>((Ast::Arg(x), i + 1)),
{
    assert(id_end(s, i + 1, hi) == i + 1);
    assert(id_end(s, i, hi) == i + 1);
    assert(ids(s, i, i + 1) =~= seq![x]);
    assert(intrinsic_named(seq![x]) is None);
    assert(call(s, i, hi) == Ok::<Option<(Ast, int)>, ParseError>(None));
}

/// Multiplication binds tighter than addition: the tokens of `a+b*c`, for
/// any one-letter operands, form `a + (b * c)`.
pub proof fn law_product_binds_tighter(pa: usize, a: char, p1: usize, pb: usize, b: char, p2: usize, pc: usize, c: char)
    ensures
        program(seq![Tok::Id(pa, a), Tok::Add(p1), Tok::Id(pb, b), Tok::Mul(p2), Tok::Id(pc, c)])
            == Ok::<Seq<Stmt>, ParseError>(
            seq![
                Stmt::Body(
                    Ast::Add(
                        Box::new(Ast::Arg(a)),
                        Box::new(Ast::Mul(Box::new(Ast::Arg(b)), Box::new(Ast::Arg(c)))),
                    ),
                ),
            ],
        ),
{
    let s = seq![Tok::Id(pa, a), Tok::Add(p1), Tok::Id(pb, b), Tok::Mul(p2), Tok::Id(pc, c)];
    let (xa, xb, xc) = (Ast::Arg(a), Ast::Arg(b), Ast::Arg(c));
    let bc = Ast::Mul(Box::new(xb), Box::new(xc));
    let all = Ast::Add(Box::new(xa), Box::new(bc));
    assert(id_end(s, 1, 5) == 1);
    assert(id_end(s, 0, 5) == 1);
    assert(full_func(s, 0, 5) == Ok::<Option<(Stmt, int)>, ParseError>(None));
    lemma_letter_operand(s, 0, 5, pa, a);
    lemma_letter_operand(s, 2, 5, pb, b);
    lemma_letter_operand(s, 4, 5, pc, c);
    assert(exp(s, 0, 5) == Ok::<(Ast, int), ParseError>((xa, 1)));
    assert(term(s, 0, 5) == Ok::<(Ast, int), ParseError>((xa, 1)));
    assert(exp(s, 2, 5) == Ok::<(Ast, int), ParseError>((xb, 3)));
    assert(exp(s, 4, 5) == Ok::<(Ast, int), ParseError>((xc, 5)));
    assert(term_tail(s, 4, bc, 5, 5) == Ok::<(Ast, int), ParseError>((bc, 5)));
    assert(term_tail(s, 2, xb, 3, 5) == Ok::<(Ast, int), ParseError>((bc, 5)));
    assert(term(s, 2, 5) == Ok::<(Ast, int), ParseError>((bc, 5)));
    assert(expr_tail(s, 2, all, 5, 5) == Ok::<(Ast, int), ParseError>((all, 5)));
    assert(expr_tail(s, 0, xa, 1, 5) == Ok::<(Ast, int), ParseError>((all, 5)));
    assert(expr(s, 0, 5) == Ok::<(Ast, int), ParseError>((all, 5)));
    assert(statement(s, 0, 5) == Ok::<(Stmt, int), ParseError>((Stmt::Body(all), 5)));
    assert(chain_rest(s, 0, seq![Stmt::Body(all)], 5) == Ok::<Seq<Stmt>, ParseError>(seq![Stmt::Body(all)]));
}

/// Powers group to the right: the tokens of `a^b^c`, for any one-letter
/// operands, form `a ^ (b ^ c)`.
pub proof fn law_power_groups_right(pa: usize, a: char, p1: usize, pb: usize, b: char, p2: usize, pc: usize, c: char)
    ensures
        program(seq![Tok::Id(pa, a), Tok::Exp(p1), Tok::Id(pb, b), Tok::Exp(p2), Tok::Id(pc, c)])
            == Ok::<Seq<Stmt>, ParseError>(
            seq![
                Stmt::Body(
                    Ast::Exp(
                        Box::new(Ast::Arg(a)),
                        Box::new(Ast::Exp(Box::new(Ast::Arg(b)), Box::new(Ast::Arg(c)))),
                    ),
                ),
            ],
        ),
{
    let s = seq![Tok::Id(pa, a), Tok::Exp(p1), Tok::Id(pb, b), Tok::Exp(p2), Tok::Id(pc, c)];
    let (xa, xb, xc) = (Ast::Arg(a), Ast::Arg(b), Ast::Arg(c));
    let bc = Ast::Exp(Box::new(xb), Box::new(xc));
    let all = Ast::Exp(Box::new(xa), Box::new(bc));
    assert(id_end(s, 1, 5) == 1);
    assert(id_end(s, 0, 5) == 1);
    assert(full_func(s, 0, 5) == Ok::<Option<(Stmt, int)>, ParseError>(None));
    lemma_letter_operand(s, 0, 5, pa, a);
    lemma_letter_operand(s, 2, 5, pb, b);
    lemma_letter_operand(s, 4, 5, pc, c);
    assert(exp_tail(s, 4, xc, 5, 5) == Ok::<(Ast, int), ParseError>((xc, 5)));
    assert(exp(s, 4, 5) == Ok::<(Ast, int), ParseError>((xc, 5)));
    assert(exp_tail(s, 2, xb, 3, 5) == Ok::<(Ast, int), ParseError>((bc, 5)));
    assert(exp(s, 2, 5) == Ok::<(Ast, int), ParseError>((bc, 5)));
    assert(exp_tail(s, 0, xa, 1, 5) == Ok::<(Ast, int), ParseError>((all, 5)));
    assert(exp(s, 0, 5) == Ok::<(Ast, int), ParseError>((all, 5)));
    assert(term_tail(s, 0, all, 5, 5) == Ok::<(Ast, int), ParseError>((all, 5)));
    assert(term(s, 0, 5) == Ok::<(Ast, int), ParseError>((all, 5)));
    assert(expr_tail(s, 0, all, 5, 5) == Ok::<(Ast, int), ParseError>((all, 5)));
    assert(expr(s, 0, 5) == Ok::<(Ast, int), ParseError>((all, 5)));
    assert(statement(s, 0, 5) == Ok::<(Stmt, int), ParseError>((Stmt::Body(all), 5)));
    assert(chain_rest(s, 0, seq![Stmt::Body(all)], 5) == Ok::<Seq<Stmt>, ParseError>(seq![Stmt::Body(all)]));
}

/// A leading minus negates the whole power: the tokens of `-a^b`, for any
/// one-letter operands, form `-(a ^ b)`.
pub proof fn law_minus_covers_power(p0: usize, pa: usize, a: char, p1: usize, pb: usize, b: char)
    ensures
        program(seq![Tok::Sub(p0), Tok::Id(pa, a), Tok::Exp(p1), Tok::Id(pb, b)])
            == Ok::<Seq<Stmt>, ParseError>(
            seq![Stmt::Body(Ast::Neg(Box::new(Ast::Exp(Box::new(Ast::Arg(a)), Box::new(Ast::Arg(b))))))],
        ),
{
    let s = seq![Tok::Sub(p0), Tok::Id(pa, a), Tok::Exp(p1), Tok::Id(pb, b)];
    let (xa, xb) = (Ast::Arg(a), Ast::Arg(b));
    let ab = Ast::Exp(Box::new(xa), Box::new(xb));
    let all = Ast::Neg(Box::new(ab));
    assert(id_end(s, 0, 4) == 0);
    assert(full_func(s, 0, 4) == Ok::<Option<(Stmt, int)>, ParseError>(None));
    lemma_letter_operand(s, 1, 4, pa, a);
    lemma_letter_operand(s, 3, 4, pb, b);
    assert(exp_tail(s, 3, xb, 4, 4) == Ok::<(Ast, int), ParseError>((xb, 4)));
    assert(exp(s, 3, 4) == Ok::<(Ast, int), ParseError>((xb, 4)));
    assert(exp_tail(s, 1, xa, 2, 4) == Ok::<(Ast, int), ParseError>((ab, 4)));
    assert(exp(s, 1, 4) == Ok::<(Ast, int), ParseError>((ab, 4)));
    assert(term_tail(s, 1, ab, 4, 4) == Ok::<(Ast, int), ParseError>((ab, 4)));
    assert(term(s, 1, 4) == Ok::<(Ast, int), ParseError>((ab, 4)));
    assert(expr_tail(s, 1, ab, 4, 4) == Ok::<(Ast, int), ParseError>((ab, 4)));
    assert(expr(s, 1, 4) == Ok::<(Ast, int), ParseError>((ab, 4)));
    assert(expr(s, 0, 4) == Ok::<(Ast, int), ParseError>((all, 4)));
    assert(statement(s, 0, 4) == Ok::<(Stmt, int), ParseError>((Stmt::Body(all), 4)));
    assert(chain_rest(s, 0, seq![Stmt::Body(all)], 4) == Ok::<Seq<Stmt>, ParseError>(seq![Stmt::Body(all)]));
}

/// A number that is followed by neither a letter nor `(` is a leaf.
proof fn lemma_number_operand(s: Seq<Tok>, i: int, hi: int, p: usize, d: Seq<char>)
    requires
        0 <= i < hi <= s.len(),
        s[i] == Tok::Num(p, d),
        !follows_number(at(s, i + 1, hi)),
    ensures
        primary(s, i, hi) == Ok::<(Ast, int), ParseError>((Ast::Num(d), i + 1)),
        at(s, i + 1, hi) matches Some(Tok::Exp(_)) || (
            exp(s, i, hi) == Ok::<(Ast, int), ParseError>((Ast::Num(d), i + 1))
            && unary(s, i, hi) == Ok::<(Ast, int), ParseError>((Ast::Num(d), i + 1))
        ),
{
}

/// A leading minus negates only the operand after it, not the sum: the
/// tokens of `-1+2`, for any numbers, form `(-1) + 2`.
pub proof fn law_minus_binds_tighter_than_sum(p0: usize, p1: usize, d1: Seq<char>, p2: usize, p3: usize, d2: Seq<char>)
    ensures
        program(seq![Tok::Sub(p0), Tok::Num(p1, d1), Tok::Add(p2), Tok::Num(p3, d2)])
            == Ok::<Seq<Stmt>, ParseError>(
            seq![Stmt::Body(Ast::Add(Box::new(Ast::Neg(Box::new(Ast::Num(d1)))), Box::new(Ast::Num(d2))))],
        ),
{
    let s = seq![Tok::Sub(p0), Tok::Num(p1, d1), Tok::Add(p2), Tok::Num(p3, d2)];
    let (n1, n2) = (Ast::Num(d1), Ast::Num(d2));
    let neg = Ast::Neg(Box::new(n1));
    let all = Ast::Add(Box::new(neg), Box::new(n2));
    assert(id_end(s, 0, 4) == 0);
    assert(full_func(s, 0, 4) == Ok::<Option<(Stmt, int)>, ParseError>(None));
    lemma_number_operand(s, 1, 4, p1, d1);
    lemma_number_operand(s, 3, 4, p3, d2);
    assert(unary(s, 0, 4) == Ok::<(Ast, int), ParseError>((neg, 2)));
    assert(term_tail(s, 0, neg, 2, 4) == Ok::<(Ast, int), ParseError>((neg, 2)));
    assert(term(s, 0, 4) == Ok::<(Ast, int), ParseError>((neg, 2)));
    assert(term_tail(s, 3, n2, 4, 4) == Ok::<(Ast, int), ParseError>((n2, 4)));
    assert(term(s, 3, 4) == Ok::<(Ast, int), ParseError>((n2, 4)));
    assert(expr_tail(s, 3, all, 4, 4) == Ok::<(Ast, int), ParseError>((all, 4)));
    assert(expr_tail(s, 0, neg, 2, 4) == Ok::<(Ast, int), ParseError>((all, 4)));
    assert(expr(s, 0, 4) == Ok::<(Ast, int), ParseError>((all, 4)));
    assert(statement(s, 0, 4) == Ok::<(Stmt, int), ParseError>((Stmt::Body(all), 4)));
    assert(chain_rest(s, 0, seq![Stmt::Body(all)], 4) == Ok::<Seq<Stmt>, ParseError>(seq![Stmt::Body(all)]));
}

/// A minus after `*` negates only the factor after it: the tokens of
/// `2*-3+4`, for any numbers, form `(2 * (-3)) + 4`.
pub proof fn law_minus_binds_tighter_than_product(
    p0: usize,
    a: Seq<char>,
    p1: usize,
    p2: usize,
    p3: usize,
    b: Seq<char>,
    p4: usize,
    p5: usize,
    c: Seq<char>,
)
    ensures
        program(seq![Tok::Num(p0, a), Tok::Mul(p1), Tok::Sub(p2), Tok::Num(p3, b), Tok::Add(p4), Tok::Num(p5, c)])
            == Ok::<Seq<Stmt>, ParseError>(
            seq![
                Stmt::Body(
                    Ast::Add(
                        Box::new(
                            Ast::Mul(Box::new(Ast::Num(a)), Box::new(Ast::Neg(Box::new(Ast::Num(b))))),
                        ),
                        Box::new(Ast::Num(c)),
                    ),
                ),
            ],
        ),
{
    let s = seq![Tok::Num(p0, a), Tok::Mul(p1), Tok::Sub(p2), Tok::Num(p3, b), Tok::Add(p4), Tok::Num(p5, c)];
    let (na, nb, nc) = (Ast::Num(a), Ast::Num(b), Ast::Num(c));
    let neg = Ast::Neg(Box::new(nb));
    let prod = Ast::Mul(Box::new(na), Box::new(neg));
    let all = Ast::Add(Box::new(prod), Box::new(nc));
    assert(id_end(s, 0, 6) == 0);
    assert(full_func(s, 0, 6) == Ok::<Option<(Stmt, int)>, ParseError>(None));
    lemma_number_operand(s, 0, 6, p0, a);
    lemma_number_operand(s, 3, 6, p3, b);
    lemma_number_operand(s, 5, 6, p5, c);
    assert(unary(s, 2, 6) == Ok::<(Ast, int), ParseError>((neg, 4)));
    assert(term_tail(s, 2, prod, 4, 6) == Ok::<(Ast, int), ParseError>((prod, 4)));
    assert(term_tail(s, 0, na, 1, 6) == Ok::<(Ast, int), ParseError>((prod, 4)));
    assert(term(s, 0, 6) == Ok::<(Ast, int), ParseError>((prod, 4)));
    assert(term_tail(s, 5, nc, 6, 6) == Ok::<(Ast, int), ParseError>((nc, 6)));
    assert(term(s, 5, 6) == Ok::<(Ast, int), ParseError>((nc, 6)));
    assert(expr_tail(s, 5, all, 6, 6) == Ok::<(Ast, int), ParseError>((all, 6)));
    assert(expr_tail(s, 0, prod, 4, 6) == Ok::<(Ast, int), ParseError>((all, 6)));
    assert(expr(s, 0, 6) == Ok::<(Ast, int), ParseError>((all, 6)));
    assert(statement(s, 0, 6) == Ok::<(Stmt, int), ParseError>((Stmt::Body(all), 6)));
    assert(chain_rest(s, 0, seq![Stmt::Body(all)], 6) == Ok::<Seq<Stmt>, ParseError>(seq![Stmt::Body(all)]));
}

proof fn lemma_id_run(s: Seq<Tok>, k: int, e: int, hi: int)
    requires
        0 <= k <= e < hi <= s.len(),
        forall|j: int| k <= j < e ==> #[trigger] s[j] is Id,
        !(s[e] is Id),
    ensures
        id_end(s, k, hi) == e,
    decreases e - k,
{
    if k < e {
        lemma_id_run(s, k + 1, e, hi);
    }
}

/// A call of an intrinsic is rejected while parsing exactly when it passes a
/// number of arguments other than the intrinsic's arity. For a program that
/// is one call `name(...)` of the intrinsic `f`, with arguments that parse and
/// no `=`: parsing fails with the arity error that names `f`, the count and
/// the brackets when the count differs, and gives the call otherwise.
pub proof fn law_intrinsic_arity(s: Seq<Tok>, f: Intrinsic, e: int, args: Seq<Ast>)
    requires
        0 < e < s.len(),
        forall|j: int| 0 <= j < e ==> #[trigger] s[j] is Id,
        ids(s, 0, e) == f.spec_name(),
        s[e] is Open,
        call_args(s, e, seq![], e + 1, s.len() as int) == Ok::<(Seq<Ast>, int), ParseError>((args, s.len() - 1)),
        forall|j: int| 0 <= j < s.len() ==> !(#[trigger] s[j] is Eq),
    ensures
        args.len() != f.spec_arg_count() ==> program(s) == Err::<Seq<Stmt>, ParseError>(
            ParseError::ArgumentCount {
                intrinsic: f,
                provided: args.len() as usize,
                start: s[e].pos(),
                end: s[s.len() - 1].pos(),
            },
        ),
        args.len() == f.spec_arg_count() ==> program(s) == Ok::<Seq<Stmt>, ParseError>(
            seq![Stmt::Body(Ast::Call(f.spec_name(), args))],
        ),
{
    let n = s.len() as int;
    lemma_id_run(s, 0, e, n);
    assert(intrinsic_named(f.spec_name()) == Some(f));
    assert(full_func(s, 0, n) == Ok::<Option<(Stmt, int)>, ParseError>(None));
    let c = Ast::Call(f.spec_name(), args);
    if args.len() != f.spec_arg_count() {
        let err = ParseError::ArgumentCount {
            intrinsic: f,
            provided: args.len() as usize,
            start: s[e].pos(),
            end: s[n - 1].pos(),
        };
        assert(call(s, 0, n) == Err::<Option<(Ast, int)>, ParseError>(err));
        assert(primary(s, 0, n) == Err::<(Ast, int), ParseError>(err));
        assert(unary(s, 0, n) == Err::<(Ast, int), ParseError>(err));
        assert(term(s, 0, n) == Err::<(Ast, int), ParseError>(err));
        assert(expr(s, 0, n) == Err::<(Ast, int), ParseError>(err));
        assert(statement(s, 0, n) == Err::<(Stmt, int), ParseError>(err));
    } else {
        assert(call(s, 0, n) == Ok::<Option<(Ast, int)>, ParseError>(Some((c, n))));
        assert(primary(s, 0, n) == Ok::<(Ast, int), ParseError>((c, n)));
        assert(exp_tail(s, 0, c, n, n) == Ok::<(Ast, int), ParseError>((c, n)));
        assert(unary(s, 0, n) == Ok::<(Ast, int), ParseError>((c, n)));
        assert(term_tail(s, 0, c, n, n) == Ok::<(Ast, int), ParseError>((c, n)));
        assert(term(s, 0, n) == Ok::<(Ast, int), ParseError>((c, n)));
        assert(expr_tail(s, 0, c, n, n) == Ok::<(Ast, int), ParseError>((c, n)));
        assert(expr(s, 0, n) == Ok::<(Ast, int), ParseError>((c, n)));
        assert(statement(s, 0, n) == Ok::<(Stmt, int), ParseError>((Stmt::Body(c), n)));
        assert(chain_rest(s, 0, seq![Stmt::Body(c)], n) == Ok::<Seq<Stmt>, ParseError>(seq![Stmt::Body(c)]));
    }
}

/// Wherever a call of an intrinsic stands in a program, it is rejected
/// exactly when it passes a number of arguments other than the intrinsic's
/// arity. At any position `i` where the identifiers `s[i..e]` name the
/// intrinsic `f` and are followed by `(` and arguments that parse up to the
/// `)` at `c`, the operand parsed there is the arity error that names `f`, the
/// count and the brackets when the count differs, and the call otherwise.
pub proof fn law_intrinsic_arity_anywhere(s: Seq<Tok>, i: int, hi: int, f: Intrinsic, e: int, args: Seq<Ast>, c: int)
    requires
        0 <= i < e < hi <= s.len(),
        forall|j: int| i <= j < e ==> #[trigger] s[j] is Id,
        ids(s, i, e) == f.spec_name(),
        s[e] is Open,
        call_args(s, e, seq![], e + 1, hi) == Ok::<(Seq<Ast>, int), ParseError>((args, c)),
    ensures
        args.len() != f.spec_arg_count() ==> primary(s, i, hi) == Err::<(Ast, int), ParseError>(
            ParseError::ArgumentCount {
                intrinsic: f,
                provided: args.len() as usize,
                start: s[e].pos(),
                end: s[c].pos(),
            },
        ),
        args.len() == f.spec_arg_count() ==> primary(s, i, hi) == Ok::<(Ast, int), ParseError>(
            (Ast::Call(f.spec_name(), args), c + 1),
        ),
{
    lemma_id_run(s, i, e, hi);
    assert(intrinsic_named(f.spec_name()) == Some(f));
    assert(s[i] is Id);
    if args.len() != f.spec_arg_count() {
        let err = ParseError::ArgumentCount {
            intrinsic: f,
            provided: args.len() as usize,
            start: s[e].pos(),
            end: s[c].pos(),
        };
        assert(call(s, i, hi) == Err::<Option<(Ast, int)>, ParseError>(err));
    } else {
        let found = (Ast::Call(f.spec_name(), args), c + 1);
        assert(call(s, i, hi) == Ok::<Option<(Ast, int)>, ParseError>(Some(found)));
    }
}

} // verus!
