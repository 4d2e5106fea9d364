use convert::lexer::{lex, Fixed, Token};
use convert::parser::{parse, Expression};

fn b(e: Expression) -> Box<Expression> {
    Box::new(e)
}

#[test]
fn simple_parse() {
    let in_str = "3 + 0.27";
    let lexed = lex(in_str).unwrap();
    let parsed = parse(lexed).unwrap();
    let exp = Expression::Binary(
        b(Expression::PrimaryInt(3)),
        '+',
        b(Expression::PrimaryFloat(Fixed { mantissa: 27, scale: 2 })),
    );
    assert_eq!(*parsed, exp);
}

#[test]
fn paren_parse() {
    let in_str = "1 / (2 + 3)";
    let lexed = lex(in_str).unwrap();
    let parsed = parse(lexed).unwrap();
    let lower = Expression::Binary(b(Expression::PrimaryInt(2)), '+', b(Expression::PrimaryInt(3)));
    let exp = Expression::Binary(b(Expression::PrimaryInt(1)), '/', b(lower));
    assert_eq!(exp, *parsed);
}

#[test]
fn same_level_operators_group_to_the_left() {
    let parsed = parse(lex("1-2-3").unwrap()).unwrap();
    let inner = Expression::Binary(b(Expression::PrimaryInt(1)), '-', b(Expression::PrimaryInt(2)));
    assert_eq!(*parsed, Expression::Binary(b(inner), '-', b(Expression::PrimaryInt(3))));
    let parsed = parse(lex("8/4/2").unwrap()).unwrap();
    let inner = Expression::Binary(b(Expression::PrimaryInt(8)), '/', b(Expression::PrimaryInt(4)));
    assert_eq!(*parsed, Expression::Binary(b(inner), '/', b(Expression::PrimaryInt(2))));
}

#[test]
fn products_bind_tighter_than_sums() {
    let parsed = parse(lex("1+2*3").unwrap()).unwrap();
    let inner = Expression::Binary(b(Expression::PrimaryInt(2)), '*', b(Expression::PrimaryInt(3)));
    assert_eq!(*parsed, Expression::Binary(b(Expression::PrimaryInt(1)), '+', b(inner)));
}

#[test]
fn unit_suffixes_wrap_quantities() {
    let parsed = parse(lex("3 kg 1 m 2").unwrap()).unwrap();
    let first =
        Expression::Quantity(b(Expression::PrimaryInt(3)), b(Expression::UnitPow("kg".to_string(), 1)));
    assert_eq!(*parsed, Expression::Quantity(b(first), b(Expression::UnitPow("m".to_string(), 2))));
}

#[test]
fn unit_names_written_apart_are_one_name() {
    let parsed = parse(lex("3 kg m").unwrap()).unwrap();
    assert_eq!(
        *parsed,
        Expression::Quantity(b(Expression::PrimaryInt(3)), b(Expression::Unit("kgm".to_string())))
    );
}

#[test]
fn bare_unit_is_a_primary() {
    let parsed = parse(lex("ft").unwrap()).unwrap();
    assert_eq!(*parsed, Expression::Unit("ft".to_string()));
}

#[test]
fn malformed_token_sequences_are_parse_errors() {
    assert!(parse(lex("(1+2").unwrap()).is_err());
    assert!(parse(lex("1+2)").unwrap()).is_err());
    assert!(parse(lex("").unwrap()).is_err());
    assert!(parse(lex("*3").unwrap()).is_err());
    assert!(parse(lex("1+").unwrap()).is_err());
    assert!(parse(vec![Token::Integer(1), Token::NoToken]).is_err());
}
