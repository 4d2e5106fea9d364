//! Evaluation of expression trees to quantities.
use crate::lexer::token::{prefixed, Fixed};
use crate::parser::{ExprModel, Expression};
use crate::registry::{lemma_symbols_name_units, resolved, symbol, table, unit_value, UnitName};
use crate::units::{
    dimensionless, dims, power, product, ratio_of, same_value, scalar, scaled, sum, unit_sum,
    Magnitude, Ratio, SiValue, UnitError,
};
use vstd::arithmetic::mul::lemma_mul_is_distributive_add_other_way;
use vstd::arithmetic::power::{lemma_pow0, lemma_pow1, lemma_pow_positive, pow};
use vstd::prelude::*;

verus! {

/// Why an expression could not be evaluated.
#[derive(Clone, Debug)]
pub struct EvaluateError {
    pub message: String,
}

impl EvaluateError {
    /// An evaluation error with the given message.
    pub fn new(x: &str) -> (r: EvaluateError)
        ensures
            r.message@ == "evaluate_error: "@ + x@,
    {
        EvaluateError { message: prefixed("evaluate_error: ", x) }
    }

    /// The evaluation error that carries a unit error.
    pub fn from(e: UnitError) -> (r: EvaluateError)
        ensures
            r.message@ == "evaluate_error: "@ + e.message@,
    {
        EvaluateError { message: prefixed("evaluate_error: ", e.message.as_str()) }
    }
}

/// The number minus one.
pub open spec fn minus_one() -> Fixed {
    Fixed { mantissa: -1i64, scale: 0 }
}

/// The result of the binary operation `op` on the quantities `a` and `b`.
///
/// Subtraction adds the negated right operand; division multiplies by the
/// right operand raised to the power minus one.
pub open spec fn combined(a: SiValue, op: char, b: SiValue) -> Option<SiValue> {
    if op == '+' {
        sum(a, b)
    } else if op == '-' {
        sum(a, scaled(b, minus_one()))
    } else if op == '*' {
        product(a, b)
    } else if op == '/' {
        match power(b, -1i64) {
            Some(inverse) => product(a, inverse),
            None => None,
        }
    } else {
        None
    }
}

/// The quantity that the expression `e` denotes, or `None` where evaluating
/// it fails: an unknown unit, a sum of different dimensions, an exponent out
/// of range, an unknown operator or an empty expression.
pub open spec fn evaluated(e: ExprModel) -> Option<SiValue>
    decreases e,
{
    match e {
        ExprModel::PrimaryInt(i) => Some(scalar(Fixed { mantissa: i, scale: 0 })),
        ExprModel::PrimaryFloat(f) => Some(scalar(f)),
        ExprModel::Unit(u) => resolved(u),
        ExprModel::UnitPow(u, i) => match resolved(u) {
            Some(v) => power(v, i),
            None => None,
        },
        ExprModel::Quantity(x, y) => match (evaluated(*x), evaluated(*y)) {
            (Some(a), Some(b)) => product(a, b),
            _ => None,
        },
        ExprModel::Binary(x, op, y) => match (evaluated(*x), evaluated(*y)) {
            (Some(a), Some(b)) => combined(a, op, b),
            _ => None,
        },
        ExprModel::NoExp => None,
    }
}

/// Whether `e` is built from number literals and the four arithmetic
/// operators alone.
pub open spec fn literal_only(e: ExprModel) -> bool
    decreases e,
{
    match e {
        ExprModel::PrimaryInt(_) => true,
        ExprModel::PrimaryFloat(_) => true,
        ExprModel::Binary(x, op, y) => (op == '+' || op == '-' || op == '*' || op == '/')
            && literal_only(*x) && literal_only(*y),
        _ => false,
    }
}

/// The value of `e` by the ordinary rules of arithmetic on rationals; `None`
/// where it divides by zero or is no arithmetic expression.
pub open spec fn arithmetic(e: ExprModel) -> Option<Ratio>
    decreases e,
{
    match e {
        ExprModel::PrimaryInt(i) => Some(Ratio { num: i as int, den: 1 }),
        ExprModel::PrimaryFloat(f) => Some(ratio_of(f)),
        ExprModel::Binary(x, op, y) => match (arithmetic(*x), arithmetic(*y)) {
            (Some(a), Some(b)) => if op == '+' {
                Some(Ratio { num: a.num * b.den + b.num * a.den, den: a.den * b.den })
            } else if op == '-' {
                Some(Ratio { num: a.num * b.den - b.num * a.den, den: a.den * b.den })
            } else if op == '*' {
                Some(Ratio { num: a.num * b.num, den: a.den * b.den })
            } else if op == '/' {
                if b.num == 0 {
                    None
                } else {
                    Some(Ratio { num: a.num * b.den, den: a.den * b.num })
                }
            } else {
                None
            },
            _ => None,
        },
        _ => None,
    }
}

proof fn lemma_sum_congruent(an: int, ad: int, xn: int, xd: int, bn: int, bd: int, yn: int, yd: int)
    requires
        an * xd == xn * ad,
        bn * yd == yn * bd,
    ensures
        (an * bd + bn * ad) * (xd * yd) == (xn * yd + yn * xd) * (ad * bd),
{
    lemma_mul_is_distributive_add_other_way(xd * yd, an * bd, bn * ad);
    lemma_mul_is_distributive_add_other_way(ad * bd, xn * yd, yn * xd);
    assert((an * bd) * (xd * yd) == (an * xd) * (bd * yd)) by (nonlinear_arith);
    assert((bn * ad) * (xd * yd) == (bn * yd) * (ad * xd)) by (nonlinear_arith);
    assert((xn * yd) * (ad * bd) == (xn * ad) * (yd * bd)) by (nonlinear_arith);
    assert((yn * xd) * (ad * bd) == (yn * bd) * (xd * ad)) by (nonlinear_arith);
    assert((an * xd) * (bd * yd) == (xn * ad) * (yd * bd)) by (nonlinear_arith)
        requires
            an * xd == xn * ad,
    ;
    assert((bn * yd) * (ad * xd) == (yn * bd) * (xd * ad)) by (nonlinear_arith)
        requires
            bn * yd == yn * bd,
    ;
}

proof fn lemma_product_congruent(an: int, ad: int, xn: int, xd: int, bn: int, bd: int, yn: int, yd: int)
    requires
        an * xd == xn * ad,
        bn * yd == yn * bd,
    ensures
        (an * bn) * (xd * yd) == (xn * yn) * (ad * bd),
{
    assert((an * bn) * (xd * yd) == (an * xd) * (bn * yd)) by (nonlinear_arith);
    assert((xn * yn) * (ad * bd) == (xn * ad) * (yn * bd)) by (nonlinear_arith);
}

proof fn lemma_nonzero_product(a: int, b: int)
    requires
        a != 0,
        b != 0,
    ensures
        a * b != 0,
{
    assert(a * b != 0) by (nonlinear_arith)
        requires
            a != 0,
            b != 0,
    ;
}

/// Evaluating an expression made of number literals and `+ - * /` alone
/// always succeeds, gives a dimensionless quantity, and its magnitude is
/// exactly the value that ordinary arithmetic gives the same tree (both are
/// undefined together, where a divisor is zero). With the grammar of the
/// parser, which binds `*` and `/` tighter than `+` and `-` and groups each
/// level to the left, lexing, parsing and evaluating such a text is ordinary
/// calculator arithmetic.
pub proof fn lemma_literal_arithmetic(e: ExprModel)
    requires
        literal_only(e),
    ensures
        evaluated(e) is Some,
        evaluated(e)->Some_0.unit == dimensionless(),
        same_value(evaluated(e)->Some_0.real.value(), arithmetic(e)),
    decreases e,
{
    match e {
        ExprModel::PrimaryInt(i) => {
            lemma_pow0(10);
        },
        ExprModel::PrimaryFloat(f) => {
            lemma_pow_positive(10, f.scale as nat);
        },
        ExprModel::Binary(x, op, y) => {
            lemma_literal_arithmetic(*x);
            lemma_literal_arithmetic(*y);
            let a = evaluated(*x)->Some_0;
            let b = evaluated(*y)->Some_0;
            let va = a.real.value()->Some_0;
            let vb = b.real.value()->Some_0;
            let xa = arithmetic(*x)->Some_0;
            let yb = arithmetic(*y)->Some_0;
            if a.real.value() is Some && b.real.value() is Some {
                lemma_nonzero_product(va.den, vb.den);
                lemma_nonzero_product(xa.den, yb.den);
            }
            if op == '+' {
                if a.real.value() is Some && b.real.value() is Some {
                    lemma_sum_congruent(va.num, va.den, xa.num, xa.den, vb.num, vb.den, yb.num, yb.den);
                }
            } else if op == '-' {
                lemma_pow0(10);
                let nb = scaled(b, minus_one());
                assert(Magnitude::Literal(minus_one()).value() == Some(Ratio { num: -1, den: 1 }));
                if a.real.value() is Some && b.real.value() is Some {
                    let vn = nb.real.value()->Some_0;
                    assert(vn.num == -vb.num && vn.den == vb.den) by (nonlinear_arith)
                        requires
                            vn.num == vb.num * -1,
                            vn.den == vb.den * 1,
                    ;
                    assert(vn.num * yb.den == -yb.num * vn.den) by (nonlinear_arith)
                        requires
                            vb.num * yb.den == yb.num * vb.den,
                            vn.num == -vb.num,
                            vn.den == vb.den,
                    ;
                    lemma_sum_congruent(va.num, va.den, xa.num, xa.den, vn.num, vn.den, -yb.num, yb.den);
                    assert(-yb.num * xa.den == -(yb.num * xa.den)) by (nonlinear_arith);
                    assert(xa.num * yb.den + -yb.num * xa.den == xa.num * yb.den - yb.num * xa.den);
                }
            } else if op == '*' {
                if a.real.value() is Some && b.real.value() is Some {
                    lemma_product_congruent(va.num, va.den, xa.num, xa.den, vb.num, vb.den, yb.num, yb.den);
                }
            } else {
                assert(op == '/');
                let inv = power(b, -1i64)->Some_0;
                if a.real.value() is Some && b.real.value() is Some {
                    assert(vb.num == 0 <==> yb.num == 0) by (nonlinear_arith)
                        requires
                            vb.num * yb.den == yb.num * vb.den,
                            vb.den != 0,
                            yb.den != 0,
                    ;
                    if vb.num != 0 {
                        lemma_pow1(vb.den);
                        lemma_pow1(vb.num);
                        let vi = inv.real.value()->Some_0;
                        assert(vi.num == vb.den && vi.den == vb.num);
                        lemma_nonzero_product(va.den, vb.num);
                        lemma_nonzero_product(xa.den, yb.num);
                        assert(vb.den * yb.num == yb.den * vb.num) by (nonlinear_arith)
                            requires
                                vb.num * yb.den == yb.num * vb.den,
                        ;
                        lemma_product_congruent(va.num, va.den, xa.num, xa.den, vb.den, vb.num, yb.den, yb.num);
                    }
                }
            }
        },
        _ => {},
    }
}

/// Adding or subtracting two expressions that both evaluate succeeds exactly
/// when their dimension vectors are equal, and keeps that dimension.
pub proof fn lemma_addition_needs_equal_dimensions(x: ExprModel, op: char, y: ExprModel)
    requires
        evaluated(x) is Some,
        evaluated(y) is Some,
        op == '+' || op == '-',
    ensures
        evaluated(ExprModel::Binary(Box::new(x), op, Box::new(y))) is Some
            <==> evaluated(x)->Some_0.unit == evaluated(y)->Some_0.unit,
        evaluated(ExprModel::Binary(Box::new(x), op, Box::new(y))) is Some ==> evaluated(
            ExprModel::Binary(Box::new(x), op, Box::new(y)),
        )->Some_0.unit == evaluated(x)->Some_0.unit,
{
}

/// Each unit of the registry, written after the number one, evaluates to its
/// dimension in the table and to exactly its scale factor in the table: `1 ft`
/// is `3048/10000` of a meter and `1 km` is `1000` meters.
pub proof fn lemma_units_evaluate_exactly(u: UnitName)
    ensures
        evaluated(
            ExprModel::Quantity(
                Box::new(ExprModel::PrimaryInt(1)),
                Box::new(ExprModel::Unit(symbol(u))),
            ),
        ) matches Some(v) && v.unit == table(u).dims && same_value(
            v.real.value(),
            Some(ratio_of(table(u).factor)),
        ),
        u == UnitName::Ft ==> ratio_of(table(u).factor) == (Ratio { num: 3048, den: 10000 })
            && table(u).dims == dims(1, 0, 0, 0, 0, 0, 0),
        u == UnitName::Km ==> ratio_of(table(u).factor) == (Ratio { num: 1000, den: 1 })
            && table(u).dims == dims(1, 0, 0, 0, 0, 0, 0),
{
    lemma_symbols_name_units(u);
    lemma_pow0(10);
    let f = table(u).factor;
    lemma_pow_positive(10, f.scale as nat);
    let m = f.mantissa as int;
    let d = pow(10, f.scale as nat);
    assert((1 * m) * d == m * (1 * d)) by (nonlinear_arith);
    assert(1 * d != 0) by (nonlinear_arith)
        requires
            d > 0,
    ;
    let one = Fixed { mantissa: 1, scale: 0 };
    let e = ExprModel::Quantity(
        Box::new(ExprModel::PrimaryInt(1)),
        Box::new(ExprModel::Unit(symbol(u))),
    );
    assert(resolved(symbol(u)) == Some(unit_value(u)));
    assert(evaluated(*Box::new(ExprModel::PrimaryInt(1))) == Some(scalar(one)));
    assert(evaluated(*Box::new(ExprModel::Unit(symbol(u)))) == Some(unit_value(u)));
    assert(unit_sum(dimensionless(), table(u).dims) == table(u).dims);
    let v = product(scalar(one), unit_value(u))->Some_0;
    assert(evaluated(e) == Some(v));
    assert(Magnitude::Literal(one).value() == Some(Ratio { num: 1, den: 1 }));
    assert(Magnitude::Literal(f).value() == Some(Ratio { num: m, den: d }));
    assert(v.real.value() == Some(Ratio { num: 1 * m, den: 1 * d }));
    reveal_with_fuel(pow, 5);
}

/// Evaluates an expression tree to a quantity.
///
/// Succeeds exactly when [`evaluated`] gives a quantity, and returns it.
pub fn evaluate(input: Box<Expression>) -> (r: Result<SiValue, EvaluateError>)
    ensures
        r is Ok <==> evaluated(input@) is Some,
        r is Ok ==> r->Ok_0 == evaluated(input@)->Some_0,
    decreases input,
{
    match *input {
        Expression::PrimaryInt(i) => Ok(SiValue::from(Fixed { mantissa: i, scale: 0 })),
        Expression::PrimaryFloat(f) => Ok(SiValue::from(f)),
        Expression::Unit(u) => match SiValue::try_from(u.as_str()) {
            Ok(v) => Ok(v),
            Err(e) => Err(EvaluateError::from(e)),
        },
        Expression::UnitPow(u, i) => match SiValue::try_from(u.as_str()) {
            Ok(v) => match v.pow(i) {
                Ok(p) => Ok(p),
                Err(e) => Err(EvaluateError::from(e)),
            },
            Err(e) => Err(EvaluateError::from(e)),
        },
        Expression::Quantity(x, y) => {
            let a = evaluate(x)?;
            let b = evaluate(y)?;
            match a.mul(b) {
                Ok(p) => Ok(p),
                Err(e) => Err(EvaluateError::from(e)),
            }
        },
        Expression::Binary(x, op, y) => {
            if op != '+' && op != '-' && op != '*' && op != '/' {
                return Err(EvaluateError::new("bad operator"));
            }
            let a = evaluate(x)?;
            let b = evaluate(y)?;
            let r = if op == '+' {
                a.add(b)
            } else if op == '-' {
                a.add(b.scale(Fixed { mantissa: -1, scale: 0 }))
            } else if op == '*' {
                a.mul(b)
            } else {
                match b.pow(-1) {
                    Ok(inverse) => a.mul(inverse),
                    Err(e) => Err(e),
                }
            };
            match r {
                Ok(v) => Ok(v),
                Err(e) => Err(EvaluateError::from(e)),
            }
        },
        Expression::NoExp => Err(EvaluateError::new("encountered an empty expression")),
    }
}

} // verus!
