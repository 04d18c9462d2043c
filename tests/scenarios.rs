//! End-to-end runs of the tree-walking evaluation with `f64` numbers, built on
//! the library's parser, environment and name resolution.

use mathjit::env::{bind_arg, sum_target, AstInterpreter, Callee, EvalError};
use mathjit::intrinsic::Intrinsic;
use mathjit::ops::MathOp;
use mathjit::parser::{Function, Parser};

fn eval(env: &AstInterpreter, op: &MathOp, func: Option<&Function>, args: &[f64]) -> Result<f64, EvalError> {
    Ok(match op {
        MathOp::Add { lhs, rhs } => eval(env, lhs, func, args)? + eval(env, rhs, func, args)?,
        MathOp::Sub { lhs, rhs } => eval(env, lhs, func, args)? - eval(env, rhs, func, args)?,
        MathOp::Mul { lhs, rhs } => eval(env, lhs, func, args)? * eval(env, rhs, func, args)?,
        MathOp::Div { lhs, rhs } => eval(env, lhs, func, args)? / eval(env, rhs, func, args)?,
        MathOp::Exp { lhs, rhs } => eval(env, lhs, func, args)?.powf(eval(env, rhs, func, args)?),
        MathOp::Neg(x) => -eval(env, x, func, args)?,
        MathOp::Num(text) => text.parse::<f64>().unwrap(),
        MathOp::Arg(c) => match func {
            Some(f) => args[bind_arg(f, *c, args.len())?],
            None => return Err(EvalError::UnboundArgument(*c)),
        },
        MathOp::Call { name, args: call_args } => {
            let mut values = Vec::new();
            for a in call_args {
                values.push(eval(env, a, func, args)?);
            }
            match env.resolve(name) {
                Callee::User(k) => {
                    let f = &env.functions[k];
                    eval(env, &f.body, Some(f), &values)?
                }
                Callee::Intrinsic(Intrinsic::Sqrt) => values[0].sqrt(),
                Callee::Intrinsic(Intrinsic::Sin) => values[0].sin(),
                Callee::Intrinsic(Intrinsic::Cos) => values[0].cos(),
                Callee::Intrinsic(Intrinsic::Pi) => std::f64::consts::PI,
                Callee::Intrinsic(Intrinsic::Sum) => {
                    let f = &env.functions[sum_target(&env.functions)?];
                    let (start, stop, step) = (values[0], values[1], values[2]);
                    let mut total = 0.0;
                    let mut i = start;
                    loop {
                        total += eval(env, &f.body, Some(f), &[i])?;
                        i += step;
                        if i > stop {
                            break;
                        }
                    }
                    total
                }
                Callee::Unknown => return Err(EvalError::UnknownFunction),
            }
        }
    })
}

/// What the evaluator prints for each statement of `input`.
fn run_on(env: &mut AstInterpreter, input: &str) -> Vec<String> {
    let statements = Parser::new(input).unwrap().parse().unwrap();
    let mut printed = Vec::new();
    for st in statements {
        match env.accept(st) {
            None => printed.push("Ok".to_string()),
            Some(op) => printed.push(format!("{}", eval(env, &op, None, &[]).unwrap())),
        }
    }
    printed
}

fn run(input: &str) -> Vec<String> {
    run_on(&mut AstInterpreter::new(), input)
}

#[test]
fn precedence_of_addition_and_multiplication() {
    assert_eq!(run("1+2*3"), vec!["7"]);
}

#[test]
fn power_tower_groups_right() {
    assert_eq!(run("2^3^2"), vec!["512"]);
}

#[test]
fn negated_square_of_bracket() {
    assert_eq!(run("-(2+3)^2"), vec!["-25"]);
}

#[test]
fn square_root_of_two() {
    assert_eq!(run("sqrt(2)"), vec!["1.4142135623730951"]);
}

#[test]
fn pi_constant() {
    assert_eq!(run("pi"), vec!["3.141592653589793"]);
}

#[test]
fn square_function() {
    assert_eq!(run("f(x)=x*x & f(5)"), vec!["Ok", "25"]);
}

#[test]
fn sum_over_last_function() {
    assert_eq!(run("g(x)=x & sum(1,10,1)"), vec!["Ok", "55"]);
}

#[test]
fn cosine_plus_sine_at_zero() {
    assert_eq!(run("cos(0) + sin(0)"), vec!["1"]);
}

#[test]
fn unary_minus_binds_tighter_than_sum_and_product() {
    assert_eq!(run("-1+2"), vec!["1"]);
    assert_eq!(run("2*-3+4"), vec!["-2"]);
    assert_eq!(run("-2^2"), vec!["-4"]);
    assert_eq!(run("2^-1"), vec!["0.5"]);
}

#[test]
fn implicit_multiplication_values() {
    assert_eq!(run("2(3+4)"), vec!["14"]);
    assert_eq!(run("d(x)=2x & d(21)"), vec!["Ok", "42"]);
}

#[test]
fn chain_defines_before_use() {
    assert_eq!(run("f(x)=x+1 & f(3)"), vec!["Ok", "4"]);
}

#[test]
fn redefinition_takes_the_last_body() {
    let mut env = AstInterpreter::new();
    assert_eq!(run_on(&mut env, "f(x)=x & f(x)=x+1 & f(1)"), vec!["Ok", "Ok", "2"]);
    assert_eq!(env.functions.iter().filter(|f| f.name == "f").count(), 1);
}

#[test]
fn sum_depends_on_definition_order() {
    assert_eq!(run("g(x)=x & h(x)=2x & sum(1,3,1)"), vec!["Ok", "Ok", "12"]);
    assert_eq!(run("h(x)=2x & g(x)=x & sum(1,3,1)"), vec!["Ok", "Ok", "6"]);
}

#[test]
fn division_by_zero_follows_ieee() {
    assert_eq!(run("1/0"), vec!["inf"]);
    assert_eq!(run("-1/0"), vec!["-inf"]);
}

#[test]
fn unknown_function_is_an_error() {
    let mut env = AstInterpreter::new();
    let op = env.accept(Parser::new("nope(1)").unwrap().parse().unwrap().remove(0)).unwrap();
    assert_eq!(eval(&env, &op, None, &[]), Err(EvalError::UnknownFunction));
}

#[test]
fn argument_outside_a_function_is_an_error() {
    let mut env = AstInterpreter::new();
    let op = env.accept(Parser::new("x+1").unwrap().parse().unwrap().remove(0)).unwrap();
    assert_eq!(eval(&env, &op, None, &[]), Err(EvalError::UnboundArgument('x')));
}
