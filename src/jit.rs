use vstd::prelude::*;
use crate::env::{
    define_all, find, find_function, install_function, lemma_define_all_unique, names_unique, repl_name,
};
use crate::grammar::{FnDef, Stmt};
use crate::parser::{fns_view, Function, ParseOutput};

verus! {

/// `env` without the `_repl` wrapper.
pub open spec fn without_repl(env: Seq<FnDef>) -> Seq<FnDef>
    decreases env.len(),
{
    if env.len() == 0 {
        env
    } else if env.last().name == repl_name() {
        without_repl(env.drop_last())
    } else {
        without_repl(env.drop_last()).push(env.last())
    }
}

/// Removing the wrapper keeps every other function, and the names unique.
pub proof fn lemma_without_repl(env: Seq<FnDef>)
    ensures
        forall|k: int| 0 <= k < without_repl(env).len() ==> exists|j: int| 0 <= j < env.len() && #[trigger] without_repl(env)[k] == env[j],
        names_unique(env) ==> names_unique(without_repl(env)),
    decreases env.len(),
{
    if env.len() > 0 {
        let prev = env.drop_last();
        lemma_without_repl(prev);
        let w = without_repl(prev);
        assert forall|k: int| 0 <= k < w.len() implies exists|j: int| 0 <= j < env.len() && #[trigger] w[k] == env[j] by {
            let j = choose|j: int| 0 <= j < prev.len() && w[k] == prev[j];
            assert(w[k] == env[j]);
        }
        if env.last().name != repl_name() {
            let x = w.push(env.last());
            assert(x[w.len() as int] == env[env.len() - 1]);
            if names_unique(env) {
                assert(names_unique(prev));
                assert forall|a: int, b: int| 0 <= a < b < x.len() implies x[a].name != x[b].name by {
                    if b == w.len() {
                        let j = choose|j: int| 0 <= j < prev.len() && w[a] == prev[j];
                        assert(x[a] == env[j]);
                    }
                }
            }
        }
    }
}

/// The definitions that a statement installs: an expression is wrapped in a
/// function called `_repl` without parameters.
pub open spec fn stmt_defs(st: Stmt) -> Seq<FnDef> {
    match st {
        Stmt::Body(a) => seq![FnDef { name: repl_name(), args: seq![], body: a }],
        Stmt::Functions(fs) => fs,
    }
}

/// The names among `fs` that replace a function already present when they
/// are installed, in order.
pub open spec fn changed_names(env: Seq<FnDef>, fs: Seq<FnDef>) -> Seq<Seq<char>>
    decreases fs.len(),
{
    if fs.len() == 0 {
        seq![]
    } else if find(define_all(env, fs.drop_last()), fs.last().name) is Some {
        changed_names(env, fs.drop_last()).push(fs.last().name)
    } else {
        changed_names(env, fs.drop_last())
    }
}

/// Whether function `k` must be compiled: its name changed this round, or
/// the module does not hold it yet.
pub open spec fn must_compile(env: Seq<FnDef>, changed: Seq<Seq<char>>, present: Seq<bool>, k: int) -> bool {
    changed.contains(env[k].name) || !present[k]
}

/// The indices below `n` of the functions that must be compiled, in order.
pub open spec fn compile_list(env: Seq<FnDef>, changed: Seq<Seq<char>>, present: Seq<bool>, n: int) -> Seq<usize>
    decreases n,
{
    if n <= 0 {
        seq![]
    } else if must_compile(env, changed, present, n - 1) {
        compile_list(env, changed, present, n - 1).push((n - 1) as usize)
    } else {
        compile_list(env, changed, present, n - 1)
    }
}

pub open spec fn names_view(v: Seq<String>) -> Seq<Seq<char>> {
    v.map_values(|s: String| s@)
}

/// What a round of the compiling backend has to do after installing a
/// statement.
#[derive(Debug)]
pub struct Install {
    /// Whether the statement was an expression, to be run through `_repl`.
    pub exec_last: bool,
    /// The names of the functions that replaced one of the same name.
    pub changed: Vec<String>,
}

/// The state that the compiling backend keeps between evaluations: the user
/// functions, and the bitcode of the last module that was built when no
/// function had changed.
#[derive(Debug)]
pub struct JitSession {
    pub functions: Vec<Function>,
    pub cached_module: Option<Vec<u8>>,
}

impl JitSession {
    pub open spec fn env(&self) -> Seq<FnDef> {
        fns_view(self.functions@)
    }

    /// No two functions share a name.
    pub open spec fn well_formed(&self) -> bool {
        names_unique(self.env())
    }

    /// A session with no functions and no cached module.
    pub fn new() -> (r: JitSession)
        ensures
            r.env() == Seq::<FnDef>::empty(),
            r.cached_module is None,
            r.well_formed(),
    {
        let r = JitSession { functions: Vec::new(), cached_module: None };
        assert(r.env() =~= Seq::<FnDef>::empty());
        r
    }

    /// Removes the `_repl` wrapper of the previous round.
    pub fn remove_repl(&mut self)
        ensures
            final(self).env() == without_repl(old(self).env()),
            final(self).cached_module == old(self).cached_module,
    {
        let ghost all = self.env();
        proof {
            reveal_strlit("_repl");
        }
        let repl = String::from_str("_repl");
        let mut rest: Vec<Function> = Vec::new();
        std::mem::swap(&mut rest, &mut self.functions);
        let n0 = rest.len();
        let mut done: usize = 0;
        assert(all.subrange(0, 0) =~= Seq::<FnDef>::empty());
        assert(self.env() =~= without_repl(Seq::<FnDef>::empty()));
        assert(fns_view(rest@) =~= all.subrange(0, all.len() as int));
        while rest.len() > 0
            invariant
                all.len() == n0,
                done + rest@.len() == n0,
                repl@ == repl_name(),
                fns_view(rest@) =~= all.subrange(done as int, all.len() as int),
                self.env() == without_repl(all.subrange(0, done as int)),
                self.cached_module == old(self).cached_module,
            decreases rest.len(),
        {
            let ghost before = rest@;
            let f = rest.remove(0);
            assert(fns_view(before)[0] == all[done as int]);
            let ghost env_before = self.env();
            if f.name != repl {
                self.functions.push(f);
                assert(self.env() =~= env_before.push(all[done as int]));
            }
            assert(all.subrange(0, done + 1).drop_last() =~= all.subrange(0, done as int));
            done = done + 1;
            assert forall|m: int| 0 <= m < rest@.len() implies fns_view(rest@)[m] == all.subrange(done as int, all.len() as int)[m] by {
                assert(rest@[m] == before[m + 1]);
                assert(fns_view(before)[m + 1] == all[done + m]);
            }
        }
        assert(all.subrange(0, done as int) =~= all);
    }

    /// Installs a statement's definitions after removing the previous
    /// `_repl`, and says what the round must do.
    pub fn install(&mut self, ops: ParseOutput) -> (r: Install)
        ensures
            final(self).env() == define_all(without_repl(old(self).env()), stmt_defs(ops.view())),
            names_view(r.changed@) == changed_names(without_repl(old(self).env()), stmt_defs(ops.view())),
            r.exec_last == ops is Body,
            final(self).cached_module == old(self).cached_module,
            old(self).well_formed() ==> final(self).well_formed(),
    {
        proof {
            lemma_without_repl(self.env());
            if self.well_formed() {
                lemma_define_all_unique(without_repl(self.env()), stmt_defs(ops.view()));
            }
        }
        self.remove_repl();
        let ghost env0 = self.env();
        let ghost defs = stmt_defs(ops.view());
        let exec_last = match ops {
            ParseOutput::Body(_) => true,
            ParseOutput::Functions(_) => false,
        };
        let mut fs: Vec<Function> = match ops {
            ParseOutput::Body(body) => {
                proof {
                    reveal_strlit("_repl");
                }
                let ghost bv = body.view();
                let f = Function { name: String::from_str("_repl"), args: Vec::new(), body };
                assert(f.args@ =~= Seq::<char>::empty());
                assert(f.name@ =~= repl_name());
                assert(f.view() == FnDef { name: repl_name(), args: seq![], body: bv });
                let v = vec![f];
                assert(fns_view(v@) =~= seq![f.view()]);
                v
            },
            ParseOutput::Functions(fs) => fs,
        };
        assert(fns_view(fs@) == defs);
        let mut changed: Vec<String> = Vec::new();
        let n0 = fs.len();
        let mut done: usize = 0;
        assert(defs.subrange(0, 0) =~= Seq::<FnDef>::empty());
        assert(fns_view(fs@) =~= defs.subrange(0, defs.len() as int));
        assert(names_view(changed@) =~= Seq::<Seq<char>>::empty());
        while fs.len() > 0
            invariant
                defs.len() == n0,
                done + fs@.len() == n0,
                fns_view(fs@) =~= defs.subrange(done as int, defs.len() as int),
                self.env() == define_all(env0, defs.subrange(0, done as int)),
                names_view(changed@) == changed_names(env0, defs.subrange(0, done as int)),
                self.cached_module == old(self).cached_module,
            decreases fs.len(),
        {
            let ghost before = fs@;
            let f = fs.remove(0);
            assert(fns_view(before)[0] == defs[done as int]);
            let ghost prefix = defs.subrange(0, done + 1);
            assert(prefix.drop_last() =~= defs.subrange(0, done as int));
            let ghost names_before = names_view(changed@);
            if find_function(&self.functions, &f.name).is_some() {
                changed.push(f.name.clone());
                assert(names_view(changed@) =~= names_before.push(f.name@));
            }
            install_function(&mut self.functions, f);
            done = done + 1;
            assert forall|m: int| 0 <= m < fs@.len() implies fns_view(fs@)[m] == defs.subrange(done as int, defs.len() as int)[m] by {
                assert(fs@[m] == before[m + 1]);
                assert(fns_view(before)[m + 1] == defs[done + m]);
            }
        }
        assert(defs.subrange(0, done as int) =~= defs);
        Install { exec_last, changed }
    }

    /// The indices of the functions to compile into a module that already
    /// holds function `k` where `present[k]`.
    pub fn to_compile(&self, changed: &Vec<String>, present: &Vec<bool>) -> (r: Vec<usize>)
        requires
            present@.len() == self.functions@.len(),
        ensures
            r@ == compile_list(self.env(), names_view(changed@), present@, self.functions@.len() as int),
    {
        let mut out: Vec<usize> = Vec::new();
        let mut k: usize = 0;
        while k < self.functions.len()
            invariant
                present@.len() == self.functions@.len(),
                k <= self.functions@.len(),
                out@ == compile_list(self.env(), names_view(changed@), present@, k as int),
            decreases self.functions.len() - k,
        {
            let mut listed = false;
            let mut c: usize = 0;
            while c < changed.len()
                invariant
                    c <= changed@.len(),
                    k < self.functions@.len(),
                    listed == exists|m: int| 0 <= m < c && changed@[m]@ == self.functions@[k as int].name@,
                decreases changed.len() - c,
            {
                if changed[c] == self.functions[k].name {
                    listed = true;
                }
                c = c + 1;
            }
            assert(self.env()[k as int].name == self.functions@[k as int].name@);
            assert(listed == names_view(changed@).contains(self.env()[k as int].name)) by {
                if listed {
                    let m = choose|m: int| 0 <= m < c && changed@[m]@ == self.functions@[k as int].name@;
                    assert(names_view(changed@)[m] == self.env()[k as int].name);
                }
                if names_view(changed@).contains(self.env()[k as int].name) {
                    let m = choose|m: int| 0 <= m < names_view(changed@).len() && names_view(changed@)[m] == self.env()[k as int].name;
                    assert(changed@[m]@ == self.functions@[k as int].name@);
                }
            }
            if listed || !present[k] {
                out.push(k);
            }
            k = k + 1;
        }
        out
    }

    /// The index of the `_repl` wrapper, which the round runs when the
    /// statement was an expression.
    pub fn entry(&self) -> (r: Option<usize>)
        ensures
            match r {
                Some(k) => find(self.env(), repl_name()) == Some(k as int) && k < self.functions@.len(),
                None => find(self.env(), repl_name()) is None,
            },
    {
        proof {
            reveal_strlit("_repl");
        }
        let repl = String::from_str("_repl");
        assert(repl@ =~= repl_name());
        find_function(&self.functions, &repl)
    }

    /// Keeps the bitcode of the module built this round when no function
    /// changed; otherwise drops the cache, so that the next round rebuilds
    /// every function.
    pub fn store_module(&mut self, changed: &Vec<String>, bitcode: Vec<u8>)
        ensures
            final(self).functions == old(self).functions,
            changed@.len() == 0 ==> final(self).cached_module == Some(bitcode),
            changed@.len() > 0 ==> final(self).cached_module is None,
    {
        if changed.len() == 0 {
            self.cached_module = Some(bitcode);
        } else {
            self.cached_module = None;
        }
    }
}

} // verus!
