use convert::lexer::{lex, FloatInProg, Fixed, Token};

fn fixed_value(f: &Fixed) -> f64 {
    f.mantissa as f64 / 10f64.powi(f.scale as i32)
}

#[test]
fn simple_lex() {
    let lex_str = "3/4.7+2";
    let exp = vec![
        Token::Integer(3),
        Token::FactOp('/'),
        Token::Float(Fixed { mantissa: 47, scale: 1 }),
        Token::AddOp('+'),
        Token::Integer(2),
    ];
    let got = lex(lex_str).unwrap();
    assert_eq!(got, exp);
    match &got[2] {
        Token::Float(f) => assert_eq!(fixed_value(f), 4.7),
        other => panic!("expected a decimal, got {:?}", other),
    }
}

#[test]
fn string_lex() {
    let lex_str = "3 lbf+  2";
    let exp = vec![
        Token::Integer(3),
        Token::UnitString("lbf".to_string()),
        Token::AddOp('+'),
        Token::Integer(2),
    ];
    assert_eq!(lex(lex_str).unwrap(), exp);
}

#[test]
fn whitespace_does_not_split_tokens() {
    assert_eq!(lex("1 2").unwrap(), vec![Token::Integer(12)]);
    assert_eq!(lex("k m").unwrap(), vec![Token::UnitString("km".to_string())]);
    assert_eq!(lex(" \t\n").unwrap(), vec![]);
    assert_eq!(lex("1\u{a0}2").unwrap(), vec![Token::Integer(12)]);
    assert_eq!(lex("").unwrap(), vec![]);
}

#[test]
fn parentheses_and_operators_are_single_tokens() {
    assert_eq!(
        lex("(1-2)*3").unwrap(),
        vec![
            Token::OpenParen,
            Token::Integer(1),
            Token::AddOp('-'),
            Token::Integer(2),
            Token::CloseParen,
            Token::FactOp('*'),
            Token::Integer(3),
        ]
    );
}

#[test]
fn decimals_keep_their_digits() {
    assert_eq!(lex("0.05").unwrap(), vec![Token::Float(Fixed { mantissa: 5, scale: 2 })]);
    assert_eq!(lex("3.").unwrap(), vec![Token::Float(Fixed { mantissa: 3, scale: 0 })]);
    assert_eq!(lex("12.500").unwrap(), vec![Token::Float(Fixed { mantissa: 12500, scale: 3 })]);
}

#[test]
fn unit_names_run_on_letters_then_numbers_follow() {
    assert_eq!(
        lex("m2s").unwrap(),
        vec![Token::UnitString("m".to_string()), Token::Integer(2), Token::UnitString("s".to_string())]
    );
    assert_eq!(lex("mé").unwrap(), vec![Token::UnitString("mé".to_string())]);
}

#[test]
fn unknown_character_is_a_lex_error() {
    assert!(lex("3 $").is_err());
    assert!(lex("é").is_err());
    assert!(lex(".5").is_err());
}

#[test]
fn second_decimal_point_is_a_lex_error() {
    assert!(lex("1.2.3").is_err());
}

#[test]
fn integer_too_large_is_a_lex_error() {
    assert_eq!(lex("9223372036854775807").unwrap(), vec![Token::Integer(i64::MAX)]);
    assert!(lex("9223372036854775808").is_err());
}

#[test]
fn token_continuation_rules() {
    assert!(Token::UnitString("k".to_string()).is_continuation('g'));
    assert!(!Token::UnitString("k".to_string()).is_continuation('2'));
    assert!(Token::Integer(1).is_continuation('0'));
    assert!(Token::Integer(1).is_continuation('.'));
    let ip = Token::FloatIp(FloatInProg { value: Fixed { mantissa: 1, scale: 0 }, depth: 1 });
    assert!(ip.is_continuation('5'));
    assert!(!ip.is_continuation('.'));
    assert!(!Token::AddOp('+').is_continuation('1'));
}

#[test]
fn token_growth() {
    assert_eq!(Token::Integer(4).add('2').unwrap(), Token::Integer(42));
    assert_eq!(
        Token::Integer(4).add('.').unwrap(),
        Token::FloatIp(FloatInProg { value: Fixed { mantissa: 4, scale: 0 }, depth: 1 })
    );
    let ip = Token::FloatIp(FloatInProg { value: Fixed { mantissa: 4, scale: 0 }, depth: 1 });
    assert_eq!(
        ip.add('7').unwrap(),
        Token::FloatIp(FloatInProg { value: Fixed { mantissa: 47, scale: 1 }, depth: 2 })
    );
    assert_eq!(
        Token::UnitString("lb".to_string()).add('f').unwrap(),
        Token::UnitString("lbf".to_string())
    );
    assert!(Token::Integer(4).add('x').is_err());
    assert!(Token::OpenParen.add('1').is_err());
}

#[test]
fn tokens_begin_from_characters() {
    assert_eq!(Token::from('q'), Token::UnitString("q".to_string()));
    assert_eq!(Token::from('7'), Token::Integer(7));
    assert_eq!(Token::from('-'), Token::AddOp('-'));
    assert_eq!(Token::from('/'), Token::FactOp('/'));
    assert_eq!(Token::from(')'), Token::CloseParen);
    assert_eq!(Token::from('%'), Token::NoToken);
}

fn rebuilt(s: &str) -> String {
    lex(s).unwrap().iter().map(|t| t.text()).collect()
}

#[test]
fn lexing_keeps_everything_but_whitespace() {
    assert_eq!(rebuilt("3 lbf+  2"), "3lbf+2");
    assert_eq!(rebuilt("(1.50 - 0.05) * km 2 / hr"), "(1.50-0.05)*km2/hr");
    assert_eq!(rebuilt("3/4.7+2"), "3/4.7+2");
    assert_eq!(rebuilt("10.0 m"), "10.0m");
    assert_eq!(rebuilt("7."), "7.");
}

#[test]
fn redundant_leading_zeros_are_not_kept() {
    assert_eq!(rebuilt("007"), "7");
}

#[test]
fn token_text_writes_each_kind() {
    assert_eq!(Token::Float(Fixed { mantissa: 5, scale: 2 }).text(), "0.05");
    assert_eq!(Token::Float(Fixed { mantissa: -5, scale: 1 }).text(), "-0.5");
    assert_eq!(Token::Integer(-12).text(), "-12");
    assert_eq!(Token::Integer(i64::MIN).text(), "-9223372036854775808");
    assert_eq!(
        Token::FloatIp(FloatInProg { value: Fixed { mantissa: 4, scale: 0 }, depth: 1 }).text(),
        "4."
    );
    assert_eq!(Token::UnitString("kg".to_string()).text(), "kg");
    assert_eq!(Token::FactOp('*').text(), "*");
    assert_eq!(Token::AddOp('-').text(), "-");
    assert_eq!(Token::OpenParen.text(), "(");
    assert_eq!(Token::CloseParen.text(), ")");
    assert_eq!(Token::NoToken.text(), "");
}
