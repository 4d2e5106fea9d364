use convert::calculator::run;
use convert::evaluator::evaluate;
use convert::lexer::Fixed;
use convert::parser::Expression;
use convert::units::{Magnitude, SiUnit, SiValue};

fn magnitude(m: &Magnitude) -> f64 {
    match m {
        Magnitude::Literal(f) => f.mantissa as f64 / 10f64.powi(f.scale as i32),
        Magnitude::Product(a, b) => magnitude(a) * magnitude(b),
        Magnitude::Sum(a, b) => magnitude(a) + magnitude(b),
        Magnitude::Power(a, k) => magnitude(a).powi(*k as i32),
    }
}

fn close(a: f64, b: f64) -> bool {
    (a - b).abs() <= 1e-12 * b.abs().max(1.0)
}

fn dims(m: i64, s: i64, mol: i64, a: i64, k: i64, cd: i64, kg: i64) -> SiUnit {
    SiUnit { meter: m, second: s, mole: mol, ampere: a, kelvin: k, candela: cd, kilogram: kg }
}

fn none() -> SiUnit {
    dims(0, 0, 0, 0, 0, 0, 0)
}

#[test]
fn parentheses_change_grouping() {
    let v = run("1 / (2 + 3)").unwrap();
    assert_eq!(v.unit, none());
    assert!(close(magnitude(&v.real), 0.2));
    let v = run("1 / 2 + 3").unwrap();
    assert!(close(magnitude(&v.real), 3.5));
}

#[test]
fn literal_arithmetic_follows_precedence() {
    assert!(close(magnitude(&run("2 + 3 * 4").unwrap().real), 14.0));
    assert!(close(magnitude(&run("10 - 4 - 3").unwrap().real), 3.0));
    assert!(close(magnitude(&run("3/4.7+2").unwrap().real), 3.0 / 4.7 + 2.0));
    assert!(close(magnitude(&run("(1.5 - 0.5) * 8 / 2").unwrap().real), 4.0));
}

#[test]
fn adding_different_dimensions_fails() {
    assert!(run("1 m + 1 s").is_err());
    assert!(run("1 m - 1 kg").is_err());
}

#[test]
fn adding_equal_dimensions_succeeds() {
    let v = run("1 m + 1 ft").unwrap();
    assert_eq!(v.unit, dims(1, 0, 0, 0, 0, 0, 0));
    assert!(close(magnitude(&v.real), 1.3048));
    let v = run("1 hr - 30 day / 720").unwrap();
    assert_eq!(v.unit, dims(0, 1, 0, 0, 0, 0, 0));
    assert!(close(magnitude(&v.real), 0.0));
}

#[test]
fn conversion_constants_are_exact() {
    let v = run("1 ft").unwrap();
    assert_eq!(v.unit, dims(1, 0, 0, 0, 0, 0, 0));
    assert_eq!(magnitude(&v.real), 0.3048);
    let v = run("1 km").unwrap();
    assert_eq!(v.unit, dims(1, 0, 0, 0, 0, 0, 0));
    assert_eq!(magnitude(&v.real), 1000.0);
    let v = run("1 yr").unwrap();
    assert_eq!(v.unit, dims(0, 1, 0, 0, 0, 0, 0));
    assert!(close(magnitude(&v.real), 31_557_600.0));
}

#[test]
fn powers_scale_dimensions() {
    let v = run("2 m 3").unwrap();
    assert_eq!(v.unit, dims(3, 0, 0, 0, 0, 0, 0));
    assert!(close(magnitude(&v.real), 2.0));
    let v = run("1 mL").unwrap();
    assert_eq!(v.unit, dims(3, 0, 0, 0, 0, 0, 0));
    assert!(close(magnitude(&v.real), 1e-6));
    let v = run("1 cm 3").unwrap();
    assert_eq!(v.unit, dims(3, 0, 0, 0, 0, 0, 0));
    assert!(close(magnitude(&v.real), 1e-6));
}

#[test]
fn division_subtracts_dimensions() {
    let v = run("100 km / 2 hr").unwrap();
    assert_eq!(v.unit, dims(1, -1, 0, 0, 0, 0, 0));
    assert!(close(magnitude(&v.real), 100_000.0 / 7200.0));
}

#[test]
fn derived_units_compose() {
    let v = run("1 Pa").unwrap();
    assert_eq!(v.unit, dims(-1, -2, 0, 0, 0, 0, 1));
    let v = run("2 kW").unwrap();
    assert_eq!(v.unit, dims(2, -3, 0, 0, 0, 0, 1));
    assert!(close(magnitude(&v.real), 2000.0));
    let v = run("1 lbf").unwrap();
    assert_eq!(v.unit, dims(1, -2, 0, 0, 0, 0, 1));
    assert!(close(magnitude(&v.real), 4.448));
    let v = run("1 mph").unwrap();
    assert_eq!(v.unit, dims(1, -1, 0, 0, 0, 0, 0));
    assert!(close(magnitude(&v.real), 0.447));
}

#[test]
fn unknown_unit_is_an_error() {
    assert!(run("3 furlong").is_err());
    assert!(SiValue::try_from("furlong").is_err());
    assert!(SiValue::try_from("M").is_err());
}

#[test]
fn unknown_operator_is_an_error() {
    let e = Expression::Binary(Box::new(Expression::PrimaryInt(1)), '%', Box::new(Expression::PrimaryInt(2)));
    assert!(evaluate(Box::new(e)).is_err());
    assert!(evaluate(Box::new(Expression::NoExp)).is_err());
}

#[test]
fn exponent_overflow_is_an_error() {
    assert!(run("m 9223372036854775807 * m").is_err());
    assert!(run("m 9223372036854775807").is_ok());
}

#[test]
fn evaluate_literal() {
    let v = evaluate(Box::new(Expression::PrimaryFloat(Fixed { mantissa: 25, scale: 1 }))).unwrap();
    assert_eq!(v.unit, none());
    assert_eq!(magnitude(&v.real), 2.5);
}

#[test]
fn errors_name_their_stage() {
    let e = run("3 $").unwrap_err();
    assert!(e.message.starts_with("convert_error: lex_error: "));
    let e = run("(1").unwrap_err();
    assert!(e.message.starts_with("convert_error: parse_error: "));
    let e = run("1 m + 1 s").unwrap_err();
    assert!(e.message.starts_with("convert_error: evaluate_error: unit_error: "));
    let e = SiValue::try_from("furlong").unwrap_err();
    assert_eq!(e.message, "unit_error: unimplemented unit: furlong");
    let e = run("1 % 2").unwrap_err();
    assert!(e.message.starts_with("convert_error: lex_error: "));
}
