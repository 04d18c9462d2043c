use vstd::prelude::*;
use crate::grammar::{FnDef, Stmt};
use crate::intrinsic::{intrinsic_named, lookup_intrinsic, Intrinsic};
use crate::ops::MathOp;
use crate::parser::{fns_view, Function, ParseOutput};
use crate::util::string_chars;

verus! {

/// The first index at or after `k` of a function called `name`.
pub open spec fn find_from(env: Seq<FnDef>, name: Seq<char>, k: int) -> Option<int>
    decreases env.len() - k,
{
    if k < 0 || k >= env.len() {
        None
    } else if env[k].name == name {
        Some(k)
    } else {
        find_from(env, name, k + 1)
    }
}

/// The index of the function called `name`: the first one, if any.
pub open spec fn find(env: Seq<FnDef>, name: Seq<char>) -> Option<int> {
    find_from(env, name, 0)
}

/// The environment after installing `f`: it replaces the function of the same
/// name in place, or comes last.
pub open spec fn define(env: Seq<FnDef>, f: FnDef) -> Seq<FnDef> {
    match find(env, f.name) {
        Some(k) => env.update(k, f),
        None => env.push(f),
    }
}

/// The environment after installing `fs` in order.
pub open spec fn define_all(env: Seq<FnDef>, fs: Seq<FnDef>) -> Seq<FnDef>
    decreases fs.len(),
{
    if fs.len() == 0 {
        env
    } else {
        define(define_all(env, fs.drop_last()), fs.last())
    }
}

/// No two functions share a name.
pub open spec fn names_unique(env: Seq<FnDef>) -> bool {
    forall|a: int, b: int| 0 <= a < b < env.len() ==> env[a].name != env[b].name
}

/// The index of the first occurrence of `c` in `args` at or after `k`.
pub open spec fn arg_position_from(args: Seq<char>, c: char, k: int) -> Option<int>
    decreases args.len() - k,
{
    if k < 0 || k >= args.len() {
        None
    } else if args[k] == c {
        Some(k)
    } else {
        arg_position_from(args, c, k + 1)
    }
}

/// The index of the first occurrence of `c` in `args`.
pub open spec fn arg_position(args: Seq<char>, c: char) -> Option<int> {
    arg_position_from(args, c, 0)
}

pub proof fn lemma_find_from(env: Seq<FnDef>, name: Seq<char>, k: int)
    requires
        0 <= k,
    ensures
        match find_from(env, name, k) {
            Some(j) => k <= j < env.len() && env[j].name == name && forall|m: int| k <= m < j ==> env[m].name != name,
            None => forall|m: int| k <= m < env.len() ==> env[m].name != name,
        },
    decreases env.len() - k,
{
    if k < env.len() && env[k].name != name {
        lemma_find_from(env, name, k + 1);
    }
}

pub proof fn lemma_find(env: Seq<FnDef>, name: Seq<char>)
    ensures
        match find(env, name) {
            Some(j) => 0 <= j < env.len() && env[j].name == name && forall|m: int| 0 <= m < j ==> env[m].name != name,
            None => forall|m: int| 0 <= m < env.len() ==> env[m].name != name,
        },
{
    lemma_find_from(env, name, 0);
}

/// Installing a function keeps the names unique, and leaves exactly one
/// function of its name: itself.
pub proof fn lemma_define(env: Seq<FnDef>, f: FnDef)
    requires
        names_unique(env),
    ensures
        names_unique(define(env, f)),
        find(define(env, f), f.name) matches Some(k) && define(env, f)[k] == f,
        forall|m: int| 0 <= m < define(env, f).len() && #[trigger] define(env, f)[m].name == f.name ==> define(env, f)[m] == f,
        forall|m: int| 0 <= m < env.len() && env[m].name != f.name ==> #[trigger] define(env, f)[m] == env[m],
        find(env, f.name) is Some ==> define(env, f).len() == env.len(),
        find(env, f.name) is None ==> define(env, f).len() == env.len() + 1,
{
    let d = define(env, f);
    lemma_find(env, f.name);
    lemma_find(d, f.name);
    match find(env, f.name) {
        Some(k) => {
            assert(d[k] == f);
            match find(d, f.name) {
                Some(j) => {
                    if j < k {
                        assert(d[j] == env[j]);
                    }
                    assert(j == k);
                },
                None => {
                    assert(d[k].name == f.name);
                },
            }
        },
        None => {
            assert(d[env.len() as int] == f);
            match find(d, f.name) {
                Some(j) => {
                    if j < env.len() {
                        assert(d[j] == env[j]);
                    }
                },
                None => {
                    assert(d[env.len() as int].name == f.name);
                },
            }
        },
    }
}

pub proof fn lemma_define_all_unique(env: Seq<FnDef>, fs: Seq<FnDef>)
    requires
        names_unique(env),
    ensures
        names_unique(define_all(env, fs)),
    decreases fs.len(),
{
    if fs.len() > 0 {
        lemma_define_all_unique(env, fs.drop_last());
        lemma_define(define_all(env, fs.drop_last()), fs.last());
    }
}

/// Why an evaluation failed.
#[derive(Debug, Clone, Copy, PartialEq, Eq, Structural)]
pub enum EvalError {
    /// A call of a name that is neither a user function nor an intrinsic.
    UnknownFunction,
    /// A parameter that the function does not declare, or that the call did
    /// not pass.
    UnboundArgument(char),
    /// `sum` with no user function defined.
    NoSumFunction,
    /// `sum` over a function that does not take exactly one argument.
    SumArity,
}

/// The name of the function that wraps a top-level expression.
pub open spec fn repl_name() -> Seq<char> {
    seq!['_', 'r', 'e', 'p', 'l']
}

/// The index of the last function of `env[..n]` that is not the `_repl`
/// wrapper: the function that `sum` iterates.
pub open spec fn last_user_from(env: Seq<FnDef>, n: int) -> Option<int>
    decreases n,
{
    if n <= 0 || n > env.len() {
        None
    } else if env[n - 1].name != repl_name() {
        Some(n - 1)
    } else {
        last_user_from(env, n - 1)
    }
}

pub open spec fn last_user(env: Seq<FnDef>) -> Option<int> {
    last_user_from(env, env.len() as int)
}

/// The function that `sum` iterates, which must take one argument.
pub open spec fn sum_target_spec(env: Seq<FnDef>) -> Result<int, EvalError> {
    match last_user(env) {
        None => Err(EvalError::NoSumFunction),
        Some(k) => if env[k].args.len() == 1 {
            Ok(k)
        } else {
            Err(EvalError::SumArity)
        },
    }
}

/// Where a call's name leads.
#[derive(Debug, Clone, Copy, PartialEq, Eq, Structural)]
pub enum Callee {
    /// The user function at this index of the environment.
    User(usize),
    Intrinsic(Intrinsic),
    Unknown,
}

/// What a call of `name` resolves to: a user function first, then an
/// intrinsic.
pub open spec fn resolve_spec(env: Seq<FnDef>, name: Seq<char>) -> Callee {
    match find(env, name) {
        Some(k) => Callee::User(k as usize),
        None => match intrinsic_named(name) {
            Some(i) => Callee::Intrinsic(i),
            None => Callee::Unknown,
        },
    }
}

/// The first index of a function called `name` in `fns`.
pub fn find_function(fns: &Vec<Function>, name: &String) -> (r: Option<usize>)
    ensures
        match r {
            Some(k) => find(fns_view(fns@), name@) == Some(k as int) && k < fns@.len(),
            None => find(fns_view(fns@), name@) is None,
        },
{
    let ghost env = fns_view(fns@);
    let mut k: usize = 0;
    while k < fns.len()
        invariant
            env == fns_view(fns@),
            k <= fns.len(),
            find(env, name@) == find_from(env, name@, k as int),
        decreases fns.len() - k,
    {
        if fns[k].name == *name {
            return Some(k);
        }
        k = k + 1;
    }
    None
}

/// The index of the first occurrence of `c` among a function's formal
/// parameters: where a call passes the value of `c`.
pub fn arg_index(func: &Function, c: char) -> (r: Option<usize>)
    ensures
        match r {
            Some(k) => arg_position(func.args@, c) == Some(k as int),
            None => arg_position(func.args@, c) is None,
        },
{
    let mut k: usize = 0;
    while k < func.args.len()
        invariant
            k <= func.args.len(),
            arg_position(func.args@, c) == arg_position_from(func.args@, c, k as int),
        decreases func.args.len() - k,
    {
        if func.args[k] == c {
            return Some(k);
        }
        k = k + 1;
    }
    None
}

/// The index of the function that `sum` iterates: the last one in the
/// environment's order other than the `_repl` wrapper, which must take one
/// argument.
pub fn sum_target(fns: &Vec<Function>) -> (r: Result<usize, EvalError>)
    ensures
        match r {
            Ok(k) => sum_target_spec(fns_view(fns@)) == Ok::<int, EvalError>(k as int) && k < fns@.len(),
            Err(e) => sum_target_spec(fns_view(fns@)) == Err::<int, EvalError>(e),
        },
{
    let ghost env = fns_view(fns@);
    proof {
        reveal_strlit("_repl");
    }
    let repl = String::from_str("_repl");
    let mut n: usize = fns.len();
    while n > 0
        invariant
            env == fns_view(fns@),
            n <= fns@.len(),
            repl@ == repl_name(),
            last_user(env) == last_user_from(env, n as int),
        decreases n,
    {
        if fns[n - 1].name != repl {
            if fns[n - 1].args.len() == 1 {
                return Ok(n - 1);
            }
            return Err(EvalError::SumArity);
        }
        n = n - 1;
    }
    Err(EvalError::NoSumFunction)
}

/// Where a call passes the value of the parameter `c` of `func`, given that
/// it passed `passed` values.
pub fn bind_arg(func: &Function, c: char, passed: usize) -> (r: Result<usize, EvalError>)
    ensures
        match r {
            Ok(k) => arg_position(func.args@, c) == Some(k as int) && k < passed,
            Err(e) => e == EvalError::UnboundArgument(c) && !(arg_position(func.args@, c) matches Some(k) && k < passed),
        },
{
    match arg_index(func, c) {
        Some(k) => if k < passed {
            Ok(k)
        } else {
            Err(EvalError::UnboundArgument(c))
        },
        None => Err(EvalError::UnboundArgument(c)),
    }
}

/// Installs `f` into `fns`: it replaces the function of the same name in
/// place, or comes last.
pub fn install_function(fns: &mut Vec<Function>, f: Function)
    ensures
        fns_view(final(fns)@) == define(fns_view(old(fns)@), f.view()),
{
    let ghost fv = f.view();
    let ghost env = fns_view(fns@);
    match find_function(fns, &f.name) {
        Some(k) => {
            fns.set(k, f);
            assert(fns_view(fns@) =~= env.update(k as int, fv));
        },
        None => {
            fns.push(f);
            assert(fns_view(fns@) =~= env.push(fv));
        },
    }
}

/// The tree-walking backend's environment: the user functions, in the order
/// in which they were first defined.
#[derive(Debug)]
pub struct AstInterpreter {
    pub functions: Vec<Function>,
}

impl AstInterpreter {
    pub open spec fn env(&self) -> Seq<FnDef> {
        fns_view(self.functions@)
    }

    /// No two user functions share a name.
    pub open spec fn well_formed(&self) -> bool {
        names_unique(self.env())
    }

    /// An interpreter with no user functions.
    pub fn new() -> (r: AstInterpreter)
        ensures
            r.env() == Seq::<FnDef>::empty(),
            r.well_formed(),
    {
        let r = AstInterpreter { functions: Vec::new() };
        assert(r.env() =~= Seq::<FnDef>::empty());
        r
    }

    /// Installs `f`: it replaces the function of the same name in place, or
    /// comes last.
    pub fn define(&mut self, f: Function)
        ensures
            final(self).env() == define(old(self).env(), f.view()),
            old(self).well_formed() ==> final(self).well_formed(),
    {
        proof {
            if self.well_formed() {
                lemma_define(self.env(), f.view());
            }
        }
        install_function(&mut self.functions, f);
    }

    /// Installs the definitions of `fs` in order.
    pub fn define_all(&mut self, fs: Vec<Function>)
        ensures
            final(self).env() == define_all(old(self).env(), fns_view(fs@)),
            old(self).well_formed() ==> final(self).well_formed(),
    {
        proof {
            if self.well_formed() {
                lemma_define_all_unique(self.env(), fns_view(fs@));
            }
        }
        let ghost env0 = self.env();
        let ghost all = fns_view(fs@);
        let mut fs = fs;
        let mut done: usize = 0;
        assert(all.subrange(0, 0) =~= Seq::<FnDef>::empty());
        assert(fns_view(fs@) =~= all.subrange(0, all.len() as int));
        let n0 = fs.len();
        assert(all.len() == n0);
        while fs.len() > 0
            invariant
                all.len() <= usize::MAX,
                done + fs@.len() == all.len(),
                fns_view(fs@) =~= all.subrange(done as int, all.len() as int),
                self.env() == define_all(env0, all.subrange(0, done as int)),
            decreases fs.len(),
        {
            let ghost before = fs@;
            let f = fs.remove(0);
            assert(fns_view(before)[0] == all[done as int]);
            assert(f.view() == all[done as int]);
            self.define(f);
            assert(all.subrange(0, done + 1).drop_last() =~= all.subrange(0, done as int));
            done = done + 1;
            assert forall|m: int| 0 <= m < fs@.len() implies fns_view(fs@)[m] == all.subrange(done as int, all.len() as int)[m] by {
                assert(fs@[m] == before[m + 1]);
                assert(fns_view(before)[m + 1] == all[done + m]);
            }
            assert(fns_view(fs@) =~= all.subrange(done as int, all.len() as int));
        }
        assert(all.subrange(0, done as int) =~= all);
    }

    /// Takes one statement: installs its definitions, or hands back the
    /// expression to evaluate against the environment as it stands.
    pub fn accept(&mut self, ops: ParseOutput) -> (r: Option<MathOp>)
        ensures
            match ops.view() {
                Stmt::Body(a) => r matches Some(op) && op.view() == a && final(self).env() == old(self).env(),
                Stmt::Functions(fs) => r is None && final(self).env() == define_all(old(self).env(), fs),
            },
            old(self).well_formed() ==> final(self).well_formed(),
    {
        match ops {
            ParseOutput::Body(op) => Some(op),
            ParseOutput::Functions(fs) => {
                self.define_all(fs);
                None
            },
        }
    }

    /// What a call of `name` resolves to.
    pub fn resolve(&self, name: &String) -> (r: Callee)
        ensures
            r == resolve_spec(self.env(), name@),
    {
        match find_function(&self.functions, name) {
            Some(k) => Callee::User(k),
            None => {
                let chars = string_chars(name);
                match lookup_intrinsic(chars.as_slice()) {
                    Some(i) => Callee::Intrinsic(i),
                    None => Callee::Unknown,
                }
            },
        }
    }
}

} // verus!
