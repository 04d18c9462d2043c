use mathjit::error::ParseError;
use mathjit::tokenizer::MathToken;

fn num(pos: usize, text: &str) -> MathToken {
    MathToken::Num(pos, text.to_string())
}

#[test]
fn tokenizes_punctuation_letters_and_numbers() {
    let toks = MathToken::try_new("f(x, y) = x^2 & 3.5/y".to_string()).unwrap();
    assert_eq!(
        toks,
        vec![
            MathToken::Id(0, 'f'),
            MathToken::Open(1),
            MathToken::Id(2, 'x'),
            MathToken::Delim(3),
            MathToken::Id(5, 'y'),
            MathToken::Close(6),
            MathToken::Eq(8),
            MathToken::Id(10, 'x'),
            MathToken::Exp(11),
            num(12, "2"),
            MathToken::Chain(14),
            num(16, "3.5"),
            MathToken::Div(19),
            MathToken::Id(20, 'y'),
        ]
    );
}

#[test]
fn inserts_multiplication_between_number_and_bracket() {
    let toks = MathToken::try_new("2(3+4)".to_string()).unwrap();
    assert_eq!(
        toks,
        vec![
            num(0, "2"),
            MathToken::Mul(1),
            MathToken::Open(1),
            num(2, "3"),
            MathToken::Add(3),
            num(4, "4"),
            MathToken::Close(5),
        ]
    );
}

#[test]
fn no_multiplication_after_identifier() {
    let toks = MathToken::try_new("x(1)".to_string()).unwrap();
    assert_eq!(toks, vec![MathToken::Id(0, 'x'), MathToken::Open(1), num(2, "1"), MathToken::Close(3)]);
}

#[test]
fn numbers_may_start_or_end_with_a_dot() {
    let toks = MathToken::try_new(".5 + 1.".to_string()).unwrap();
    assert_eq!(toks, vec![num(0, ".5"), MathToken::Add(3), num(5, "1.")]);
}

#[test]
fn empty_and_blank_inputs_have_no_tokens() {
    assert_eq!(MathToken::try_new(String::new()).unwrap(), vec![]);
    assert_eq!(MathToken::try_new("   ".to_string()).unwrap(), vec![]);
}

#[test]
fn rejects_unknown_character() {
    let err = MathToken::try_new("1 + $".to_string()).unwrap_err();
    assert_eq!(err, ParseError::UnexpectedToken { pos: 4, ch: '$' });
}

#[test]
fn rejects_non_ascii_letter() {
    let err = MathToken::try_new("2*é".to_string()).unwrap_err();
    assert_eq!(err, ParseError::UnexpectedToken { pos: 2, ch: 'é' });
}

#[test]
fn rejects_number_with_two_dots() {
    let err = MathToken::try_new("1.2.3+4".to_string()).unwrap_err();
    assert_eq!(err, ParseError::UnexpectedToken { pos: 0, ch: '+' });
}

#[test]
fn rejects_lone_dot_at_end() {
    let err = MathToken::try_new("1+.".to_string()).unwrap_err();
    assert_eq!(err, ParseError::UnexpectedToken { pos: 2, ch: '.' });
}

#[test]
fn position_reports_start_offset() {
    let toks = MathToken::try_new("  12+ab".to_string()).unwrap();
    let positions: Vec<usize> = toks.iter().map(|t| t.position()).collect();
    assert_eq!(positions, vec![2, 4, 5, 6]);
}
