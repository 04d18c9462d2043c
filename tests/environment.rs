use mathjit::env::{bind_arg, find_function, sum_target, AstInterpreter, Callee, EvalError};
use mathjit::intrinsic::Intrinsic;
use mathjit::jit::JitSession;
use mathjit::ops::MathOp;
use mathjit::parser::{Function, ParseOutput, Parser};

fn func(name: &str, args: &[char], body: &str) -> Function {
    let out = Parser::new(body).unwrap().parse().unwrap();
    let op = match out.into_iter().next().unwrap() {
        ParseOutput::Body(op) => op,
        _ => panic!("not an expression"),
    };
    Function { name: name.to_string(), args: args.to_vec(), body: op }
}

fn statements(input: &str) -> Vec<ParseOutput> {
    Parser::new(input).unwrap().parse().unwrap()
}

#[test]
fn define_appends_new_names() {
    let mut env = AstInterpreter::new();
    env.define(func("f", &['x'], "x"));
    env.define(func("g", &['y'], "y*2"));
    let names: Vec<&str> = env.functions.iter().map(|f| f.name.as_str()).collect();
    assert_eq!(names, vec!["f", "g"]);
}

#[test]
fn redefinition_replaces_in_place_and_keeps_one() {
    let mut env = AstInterpreter::new();
    for st in statements("f(x)=x & g(y)=y & f(x)=x+1") {
        assert!(env.accept(st).is_none());
    }
    let names: Vec<&str> = env.functions.iter().map(|f| f.name.as_str()).collect();
    assert_eq!(names, vec!["f", "g"]);
    assert_eq!(env.functions[0], func("f", &['x'], "x+1"));
}

#[test]
fn accept_hands_back_expressions_untouched() {
    let mut env = AstInterpreter::new();
    let mut sts = statements("f(3)");
    let op = env.accept(sts.remove(0)).unwrap();
    assert_eq!(op, MathOp::Call { name: "f".to_string(), args: vec![MathOp::Num("3".to_string())] });
    assert!(env.functions.is_empty());
}

#[test]
fn resolve_prefers_user_functions_over_intrinsics() {
    let mut env = AstInterpreter::new();
    assert_eq!(env.resolve(&"sqrt".to_string()), Callee::Intrinsic(Intrinsic::Sqrt));
    assert_eq!(env.resolve(&"nope".to_string()), Callee::Unknown);
    env.define(func("g", &['x'], "x"));
    env.define(func("sqrt", &['x'], "x"));
    assert_eq!(env.resolve(&"sqrt".to_string()), Callee::User(1));
    assert_eq!(env.resolve(&"g".to_string()), Callee::User(0));
    assert_eq!(find_function(&env.functions, &"h".to_string()), None);
}

#[test]
fn arguments_bind_by_first_position() {
    let f = func("f", &['x', 'y', 'x'], "x");
    assert_eq!(bind_arg(&f, 'x', 3), Ok(0));
    assert_eq!(bind_arg(&f, 'y', 3), Ok(1));
    assert_eq!(bind_arg(&f, 'y', 1), Err(EvalError::UnboundArgument('y')));
    assert_eq!(bind_arg(&f, 'z', 3), Err(EvalError::UnboundArgument('z')));
}

#[test]
fn sum_iterates_the_last_function() {
    let mut env = AstInterpreter::new();
    assert_eq!(sum_target(&env.functions), Err(EvalError::NoSumFunction));
    env.define(func("g", &['x'], "x"));
    env.define(func("h", &['x', 'y'], "x"));
    assert_eq!(sum_target(&env.functions), Err(EvalError::SumArity));
    env.define(func("k", &['t'], "t"));
    assert_eq!(sum_target(&env.functions), Ok(2));
}

#[test]
fn sum_skips_the_repl_wrapper() {
    let mut session = JitSession::new();
    session.install(statements("g(x)=x").remove(0));
    session.install(statements("sum(1,10,1)").remove(0));
    assert_eq!(session.functions.len(), 2);
    assert_eq!(session.functions[1].name, "_repl");
    assert_eq!(sum_target(&session.functions), Ok(0));
}

#[test]
fn session_wraps_expressions_and_drops_the_old_wrapper() {
    let mut session = JitSession::new();
    let plan = session.install(statements("1+2").remove(0));
    assert!(plan.exec_last);
    assert!(plan.changed.is_empty());
    assert_eq!(session.entry(), Some(0));
    let plan = session.install(statements("f(x)=x").remove(0));
    assert!(!plan.exec_last);
    let names: Vec<&str> = session.functions.iter().map(|f| f.name.as_str()).collect();
    assert_eq!(names, vec!["f"]);
    assert_eq!(session.entry(), None);
}

#[test]
fn session_reports_changed_functions() {
    let mut session = JitSession::new();
    let plan = session.install(statements("f(x)=x").remove(0));
    assert!(plan.changed.is_empty());
    let plan = session.install(statements("f(x)=x+1").remove(0));
    assert_eq!(plan.changed, vec!["f".to_string()]);
    assert_eq!(session.functions.len(), 1);
}

#[test]
fn session_compiles_changed_and_missing_functions() {
    let mut session = JitSession::new();
    session.install(statements("f(x)=x").remove(0));
    session.install(statements("g(x)=x").remove(0));
    session.install(statements("h(x)=x").remove(0));
    let changed = vec!["g".to_string()];
    assert_eq!(session.to_compile(&changed, &vec![true, true, false]), vec![1, 2]);
    assert_eq!(session.to_compile(&vec![], &vec![true, true, true]), Vec::<usize>::new());
    assert_eq!(session.to_compile(&vec![], &vec![false, false, false]), vec![0, 1, 2]);
}

#[test]
fn session_caches_only_unchanged_rounds() {
    let mut session = JitSession::new();
    assert_eq!(session.cached_module, None);
    session.store_module(&vec![], vec![1, 2, 3]);
    assert_eq!(session.cached_module, Some(vec![1, 2, 3]));
    session.store_module(&vec!["f".to_string()], vec![4]);
    assert_eq!(session.cached_module, None);
}

#[test]
fn both_backends_hold_the_same_definitions() {
    let input = "f(x)=x & 1+1 & g(y)=y*2 & f(x)=x+1 & g(2)";
    let mut interp = AstInterpreter::new();
    let mut session = JitSession::new();
    for st in statements(input) {
        interp.accept(st);
    }
    for st in statements(input) {
        session.install(st);
    }
    let compiled: Vec<&Function> = session.functions.iter().filter(|f| f.name != "_repl").collect();
    let interpreted: Vec<&Function> = interp.functions.iter().collect();
    assert_eq!(compiled, interpreted);
    assert_eq!(session.functions.last().unwrap().name, "_repl");
}
