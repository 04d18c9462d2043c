use mathjit::error::ParseError;
use mathjit::intrinsic::{lookup_intrinsic, standard_intrinsics, Intrinsic};
use mathjit::ops::MathOp;
use mathjit::parser::{Function, ParseOutput, Parser};
use mathjit::util::error_message;

fn parse(input: &str) -> Result<Vec<ParseOutput>, ParseError> {
    Parser::new(input)?.parse()
}

fn body(input: &str) -> MathOp {
    let mut out = parse(input).unwrap();
    assert_eq!(out.len(), 1);
    match out.remove(0) {
        ParseOutput::Body(op) => op,
        other => panic!("expected an expression, got {other:?}"),
    }
}

fn b(op: MathOp) -> Box<MathOp> {
    Box::new(op)
}

fn n(text: &str) -> MathOp {
    MathOp::Num(text.to_string())
}

fn arg(c: char) -> MathOp {
    MathOp::Arg(c)
}

fn add(l: MathOp, r: MathOp) -> MathOp {
    MathOp::Add { lhs: b(l), rhs: b(r) }
}

fn mul(l: MathOp, r: MathOp) -> MathOp {
    MathOp::Mul { lhs: b(l), rhs: b(r) }
}

fn exp(l: MathOp, r: MathOp) -> MathOp {
    MathOp::Exp { lhs: b(l), rhs: b(r) }
}

fn call(name: &str, args: Vec<MathOp>) -> MathOp {
    MathOp::Call { name: name.to_string(), args }
}

#[test]
fn multiplication_binds_tighter_than_addition() {
    assert_eq!(body("a+b*c"), add(arg('a'), mul(arg('b'), arg('c'))));
}

#[test]
fn exponent_groups_to_the_right() {
    assert_eq!(body("a^b^c"), exp(arg('a'), exp(arg('b'), arg('c'))));
}

#[test]
fn leading_minus_covers_the_power() {
    assert_eq!(body("-a^b"), MathOp::Neg(b(exp(arg('a'), arg('b')))));
}

#[test]
fn minus_bracket_power_parses_as_negated_power() {
    assert_eq!(body("-(2+3)^2"), MathOp::Neg(b(exp(add(n("2"), n("3")), n("2")))));
}

#[test]
fn leading_minus_negates_only_the_first_operand() {
    assert_eq!(body("-1+2"), add(MathOp::Neg(b(n("1"))), n("2")));
    assert_eq!(body("-a*b"), mul(MathOp::Neg(b(arg('a'))), arg('b')));
}

#[test]
fn minus_after_product_negates_one_factor() {
    assert_eq!(body("2*-3+4"), add(mul(n("2"), MathOp::Neg(b(n("3")))), n("4")));
    assert_eq!(body("--x"), MathOp::Neg(b(MathOp::Neg(b(arg('x'))))));
}

#[test]
fn exponent_may_be_negated() {
    assert_eq!(body("2^-1"), exp(n("2"), MathOp::Neg(b(n("1")))));
    assert_eq!(body("2^-1^2"), exp(n("2"), MathOp::Neg(b(exp(n("1"), n("2"))))));
}

#[test]
fn subtraction_and_division_fold_to_the_left() {
    let expected = MathOp::Sub {
        lhs: b(MathOp::Sub { lhs: b(n("8")), rhs: b(n("2")) }),
        rhs: b(MathOp::Div { lhs: b(MathOp::Div { lhs: b(n("6")), rhs: b(n("3")) }), rhs: b(n("1")) }),
    };
    assert_eq!(body("8-2-6/3/1"), expected);
}

#[test]
fn number_before_bracket_multiplies() {
    assert_eq!(body("2(3+4)"), mul(n("2"), add(n("3"), n("4"))));
}

#[test]
fn number_before_argument_multiplies() {
    assert_eq!(body("2x"), mul(n("2"), arg('x')));
}

#[test]
fn number_before_call_multiplies() {
    assert_eq!(body("2sqrt(4)"), mul(n("2"), call("sqrt", vec![n("4")])));
}

#[test]
fn calls_concatenate_identifiers_into_a_name() {
    assert_eq!(body("sum(1,10,1)"), call("sum", vec![n("1"), n("10"), n("1")]));
    assert_eq!(body("pi()"), call("pi", vec![]));
}

#[test]
fn bare_pi_is_a_call() {
    assert_eq!(body("pi"), call("pi", vec![]));
    assert_eq!(body("2pi"), mul(n("2"), call("pi", vec![])));
}

#[test]
fn bare_names_of_other_functions_are_arguments() {
    assert_eq!(body("x"), arg('x'));
    assert_eq!(parse("xy").unwrap_err(), ParseError::TrailingInput { pos: 1 });
    assert_eq!(parse("sin").unwrap_err(), ParseError::TrailingInput { pos: 1 });
}

#[test]
fn nested_brackets_and_calls() {
    assert_eq!(body("f((1+2), g(x))"), call("f", vec![add(n("1"), n("2")), call("g", vec![arg('x')])]));
}

#[test]
fn definition_then_expression_in_a_chain() {
    let out = parse("f(x)=x+1 & f(3)").unwrap();
    assert_eq!(
        out,
        vec![
            ParseOutput::Functions(vec![Function { name: "f".to_string(), args: vec!['x'], body: add(arg('x'), n("1")) }]),
            ParseOutput::Body(call("f", vec![n("3")])),
        ]
    );
}

#[test]
fn definition_with_several_parameters_and_long_name() {
    let out = parse("area(w, h) = w*h").unwrap();
    assert_eq!(
        out,
        vec![ParseOutput::Functions(vec![Function {
            name: "area".to_string(),
            args: vec!['w', 'h'],
            body: mul(arg('w'), arg('h')),
        }])]
    );
}

#[test]
fn redefinition_chain_parses_three_statements() {
    let out = parse("f(x)=x & f(x)=x+1 & f(1)").unwrap();
    assert_eq!(out.len(), 3);
    assert!(matches!(out[0], ParseOutput::Functions(_)));
    assert!(matches!(out[1], ParseOutput::Functions(_)));
    assert_eq!(out[2], ParseOutput::Body(call("f", vec![n("1")])));
}

#[test]
fn sqrt_without_arguments_is_rejected() {
    let err = parse("sqrt()").unwrap_err();
    assert_eq!(err, ParseError::ArgumentCount { intrinsic: Intrinsic::Sqrt, provided: 0, start: 4, end: 5 });
}

#[test]
fn sqrt_with_two_arguments_is_rejected() {
    let err = parse("sqrt(1,2)").unwrap_err();
    assert_eq!(err, ParseError::ArgumentCount { intrinsic: Intrinsic::Sqrt, provided: 2, start: 4, end: 8 });
}

#[test]
fn sum_needs_three_arguments() {
    let err = parse("sum(1,2)").unwrap_err();
    assert_eq!(err, ParseError::ArgumentCount { intrinsic: Intrinsic::Sum, provided: 2, start: 3, end: 7 });
}

#[test]
fn empty_input_is_rejected() {
    assert_eq!(parse("").unwrap_err(), ParseError::NoInput);
    assert_eq!(parse("f(x)=").unwrap_err(), ParseError::NoInput);
}

#[test]
fn missing_close_bracket_is_rejected() {
    assert_eq!(parse("(1+2").unwrap_err(), ParseError::UnbalancedBrackets { pos: 0 });
}

#[test]
fn extra_close_bracket_is_rejected() {
    assert_eq!(parse("(1+2))").unwrap_err(), ParseError::UnbalancedBrackets { pos: 5 });
}

#[test]
fn trailing_tokens_are_rejected() {
    assert_eq!(parse("1 2").unwrap_err(), ParseError::TrailingInput { pos: 2 });
}

#[test]
fn stray_close_bracket_is_unbalanced() {
    assert_eq!(parse("1+2)").unwrap_err(), ParseError::UnbalancedBrackets { pos: 3 });
    let err = parse("1)").unwrap_err();
    assert_eq!(err.messages("1)"), vec!["brackets not balanced\n1\u{1b}[31m)\u{1b}[0m".to_string()]);
}

#[test]
fn missing_operand_is_rejected() {
    assert_eq!(parse("1+").unwrap_err(), ParseError::ExpectedPrimary { pos: None });
    assert_eq!(parse("1+*2").unwrap_err(), ParseError::ExpectedPrimary { pos: Some(2) });
}

#[test]
fn error_inside_brackets_carries_the_group() {
    let err = parse("2*(1+)").unwrap_err();
    assert_eq!(
        err,
        ParseError::InBrackets { start: 2, end: 5, inner: Box::new(ParseError::ExpectedPrimary { pos: None }) }
    );
}

#[test]
fn tokenizer_errors_surface_from_new() {
    assert_eq!(Parser::new("1 # 2").unwrap_err(), ParseError::UnexpectedToken { pos: 2, ch: '#' });
}

#[test]
fn parser_keeps_tokens_and_source() {
    let p = Parser::new("1+x").unwrap();
    assert_eq!(p.original_tokens().len(), 3);
    assert_eq!(p.original_string(), "1+x");
}

#[test]
fn error_message_highlights_the_range_in_red() {
    assert_eq!(error_message("1+2*3", 2, 3), "\n1+\u{1b}[31m2*\u{1b}[0m3");
    assert_eq!(error_message("abc", 0, 2), "\n\u{1b}[31mabc\u{1b}[0m");
    assert_eq!(error_message("é+ü", 1, 1), "\né\u{1b}[31m+\u{1b}[0mü");
}

#[test]
fn messages_layer_context_over_the_cause() {
    let input = "2*(1+)";
    let err = parse(input).unwrap_err();
    assert_eq!(
        err.messages(input),
        vec![
            "while evaluating brackets\n2*\u{1b}[31m(1+)\u{1b}[0m".to_string(),
            "expected number or open bracket\n2*(1+\u{1b}[31m)\u{1b}[0m".to_string(),
        ]
    );
}

#[test]
fn arity_message_names_the_counts() {
    let input = "sqrt(1,2)";
    let err = parse(input).unwrap_err();
    assert_eq!(
        err.messages(input),
        vec!["incorrect argument count for 'sqrt' call, 2 provided, 1 expected\nsqrt\u{1b}[31m(1,2)\u{1b}[0m".to_string()]
    );
}

#[test]
fn unexpected_token_message() {
    let err = ParseError::UnexpectedToken { pos: 1, ch: '$' };
    assert_eq!(err.messages("1$"), vec!["unexpected token: '$'\n1\u{1b}[31m$\u{1b}[0m".to_string()]);
    let input = "2*é+1";
    let err = Parser::new(input).unwrap_err();
    assert_eq!(err.messages(input), vec!["unexpected token: 'é'\n2*\u{1b}[31mé\u{1b}[0m+1".to_string()]);
    assert_eq!(ParseError::NoInput.messages(""), vec!["no input provided".to_string()]);
}

#[test]
fn intrinsic_registry() {
    assert_eq!(
        standard_intrinsics(),
        vec![Intrinsic::Sqrt, Intrinsic::Pi, Intrinsic::Sin, Intrinsic::Cos, Intrinsic::Sum]
    );
    assert_eq!(lookup_intrinsic(&['c', 'o', 's']), Some(Intrinsic::Cos));
    assert_eq!(lookup_intrinsic(&['c', 'o']), None);
    assert_eq!(Intrinsic::Sum.proto().arg_count, 3);
    assert_eq!(Intrinsic::Pi.proto().arg_count, 0);
    assert_eq!(Intrinsic::Sin.name(), "sin");
}

#[test]
fn tokens_are_written_back_with_spacing() {
    assert_eq!(Parser::new("2(x+1)").unwrap().to_text(), "2 * (x + 1)");
    assert_eq!(Parser::new("  -f(a,b)=a^b & 1.50 ").unwrap().to_text(), "- f(a, b) = a ^ b & 1.50");
    assert_eq!(Parser::new("").unwrap().to_text(), "");
}

#[test]
fn trailing_comma_in_parameters_is_no_definition() {
    assert_eq!(parse("f(x,)=x").unwrap_err(), ParseError::ExpectedPrimary { pos: Some(4) });
    assert_eq!(parse("f(x y)=x").unwrap_err(), ParseError::ExpectedSeparator { pos: Some(4) });
    let out = parse("f()=1").unwrap();
    assert_eq!(out, vec![ParseOutput::Functions(vec![Function { name: "f".to_string(), args: vec![], body: n("1") }])]);
}

#[test]
fn call_arguments_need_commas() {
    assert_eq!(parse("f(1 2)").unwrap_err(), ParseError::ExpectedSeparator { pos: Some(4) });
    assert_eq!(parse("sum(1 10 1)").unwrap_err(), ParseError::ExpectedSeparator { pos: Some(6) });
    assert_eq!(parse("f(1,)").unwrap_err(), ParseError::ExpectedPrimary { pos: Some(4) });
    assert_eq!(parse("f(1").unwrap_err(), ParseError::ExpectedSeparator { pos: None });
    let input = "f(1 2)";
    assert_eq!(
        parse(input).unwrap_err().messages(input),
        vec!["expected ',' or ')'\nf(1 \u{1b}[31m2\u{1b}[0m)".to_string()]
    );
}

#[test]
fn leftover_inside_brackets_is_rejected() {
    assert_eq!(
        parse("(1 2)").unwrap_err(),
        ParseError::InBrackets { start: 0, end: 4, inner: Box::new(ParseError::TrailingInput { pos: 3 }) }
    );
}
