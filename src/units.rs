//! Quantities: a magnitude paired with a vector of SI dimension exponents,
//! and the fixed registry of named units.
use crate::lexer::token::{fits_i64, int_text, prefixed, push_char, push_digits, Fixed};
use crate::registry::{definition, lookup, named, resolved};
use vstd::arithmetic::power::pow;
use vstd::prelude::*;
use vstd::string::StringExecFns;

verus! {

/// The exponents of the seven SI base dimensions.
#[derive(Clone, Copy, Debug, PartialEq, Eq, Structural)]
pub struct SiUnit {
    pub meter: i64,
    pub second: i64,
    pub mole: i64,
    pub ampere: i64,
    pub kelvin: i64,
    pub candela: i64,
    pub kilogram: i64,
}

/// A magnitude as an exact arithmetic term over decimal literals.
#[derive(Debug, PartialEq)]
pub enum Magnitude {
    Literal(Fixed),
    Product(Box<Magnitude>, Box<Magnitude>),
    Sum(Box<Magnitude>, Box<Magnitude>),
    /// The first term raised to an integer power.
    Power(Box<Magnitude>, i64),
}

/// A physical quantity: a magnitude with its dimension exponents.
#[derive(Debug, PartialEq)]
pub struct SiValue {
    pub real: Magnitude,
    pub unit: SiUnit,
}

/// Why a unit could not be resolved or two quantities could not be combined.
#[derive(Clone, Debug)]
pub struct UnitError {
    pub message: String,
}

impl UnitError {
    /// A unit error with the given message.
    pub fn new(x: &str) -> (r: UnitError)
        ensures
            r.message@ == "unit_error: "@ + x@,
    {
        UnitError { message: prefixed("unit_error: ", x) }
    }
}

/// An exact rational number `num / den`.
pub struct Ratio {
    pub num: int,
    pub den: int,
}

/// Whether two optional rationals are both undefined, or both defined and
/// equal as numbers.
pub open spec fn same_value(a: Option<Ratio>, b: Option<Ratio>) -> bool {
    match (a, b) {
        (None, None) => true,
        (Some(x), Some(y)) => x.den != 0 && y.den != 0 && x.num * y.den == y.num * x.den,
        _ => false,
    }
}

/// The number that the decimal `f` stands for.
pub open spec fn ratio_of(f: Fixed) -> Ratio {
    Ratio { num: f.mantissa as int, den: pow(10, f.scale as nat) }
}

impl Magnitude {
    /// The exact number this term stands for; `None` where it divides by
    /// zero (raises zero to a negative power).
    pub open spec fn value(&self) -> Option<Ratio>
        decreases self,
    {
        match self {
            Magnitude::Literal(f) => Some(ratio_of(*f)),
            Magnitude::Product(a, b) => match ((**a).value(), (**b).value()) {
                (Some(x), Some(y)) => Some(Ratio { num: x.num * y.num, den: x.den * y.den }),
                _ => None,
            },
            Magnitude::Sum(a, b) => match ((**a).value(), (**b).value()) {
                (Some(x), Some(y)) => Some(
                    Ratio { num: x.num * y.den + y.num * x.den, den: x.den * y.den },
                ),
                _ => None,
            },
            Magnitude::Power(a, k) => match (**a).value() {
                Some(x) => if *k >= 0 {
                    Some(Ratio { num: pow(x.num, *k as nat), den: pow(x.den, *k as nat) })
                } else if x.num == 0 {
                    None
                } else {
                    Some(Ratio { num: pow(x.den, (-*k) as nat), den: pow(x.num, (-*k) as nat) })
                },
                None => None,
            },
        }
    }
}

/// The exponent vector with no dimension.
pub open spec fn dimensionless() -> SiUnit {
    SiUnit { meter: 0, second: 0, mole: 0, ampere: 0, kelvin: 0, candela: 0, kilogram: 0 }
}

/// The exponent vector with the given exponents of meter, second, mole,
/// ampere, kelvin, candela and kilogram.
pub open spec fn dims(m: int, s: int, mol: int, a: int, k: int, cd: int, kg: int) -> SiUnit {
    SiUnit {
        meter: m as i64,
        second: s as i64,
        mole: mol as i64,
        ampere: a as i64,
        kelvin: k as i64,
        candela: cd as i64,
        kilogram: kg as i64,
    }
}

/// Whether the exponentwise sum of `a` and `b` fits in machine integers.
pub open spec fn sum_fits(a: SiUnit, b: SiUnit) -> bool {
    &&& fits_i64(a.meter + b.meter)
    &&& fits_i64(a.second + b.second)
    &&& fits_i64(a.mole + b.mole)
    &&& fits_i64(a.ampere + b.ampere)
    &&& fits_i64(a.kelvin + b.kelvin)
    &&& fits_i64(a.candela + b.candela)
    &&& fits_i64(a.kilogram + b.kilogram)
}

/// The exponentwise sum of `a` and `b`: the dimension of a product.
pub open spec fn unit_sum(a: SiUnit, b: SiUnit) -> SiUnit {
    SiUnit {
        meter: (a.meter + b.meter) as i64,
        second: (a.second + b.second) as i64,
        mole: (a.mole + b.mole) as i64,
        ampere: (a.ampere + b.ampere) as i64,
        kelvin: (a.kelvin + b.kelvin) as i64,
        candela: (a.candela + b.candela) as i64,
        kilogram: (a.kilogram + b.kilogram) as i64,
    }
}

/// Whether every exponent of `a` times `k` fits in machine integers.
pub open spec fn scale_fits(a: SiUnit, k: int) -> bool {
    &&& fits_i64(a.meter * k)
    &&& fits_i64(a.second * k)
    &&& fits_i64(a.mole * k)
    &&& fits_i64(a.ampere * k)
    &&& fits_i64(a.kelvin * k)
    &&& fits_i64(a.candela * k)
    &&& fits_i64(a.kilogram * k)
}

/// Every exponent of `a` times `k`: the dimension of a `k`-th power.
pub open spec fn unit_scaled(a: SiUnit, k: int) -> SiUnit {
    SiUnit {
        meter: (a.meter * k) as i64,
        second: (a.second * k) as i64,
        mole: (a.mole * k) as i64,
        ampere: (a.ampere * k) as i64,
        kelvin: (a.kelvin * k) as i64,
        candela: (a.candela * k) as i64,
        kilogram: (a.kilogram * k) as i64,
    }
}

/// The product of two quantities; `None` where an exponent leaves `i64`.
pub open spec fn product(a: SiValue, b: SiValue) -> Option<SiValue> {
    if sum_fits(a.unit, b.unit) {
        Some(
            SiValue {
                real: Magnitude::Product(Box::new(a.real), Box::new(b.real)),
                unit: unit_sum(a.unit, b.unit),
            },
        )
    } else {
        None
    }
}

/// The sum of two quantities; `None` unless their dimensions are equal.
pub open spec fn sum(a: SiValue, b: SiValue) -> Option<SiValue> {
    if a.unit == b.unit {
        Some(SiValue { real: Magnitude::Sum(Box::new(a.real), Box::new(b.real)), unit: a.unit })
    } else {
        None
    }
}

/// The quantity `a` raised to the power `k`; `None` where an exponent leaves
/// `i64`.
pub open spec fn power(a: SiValue, k: i64) -> Option<SiValue> {
    if scale_fits(a.unit, k as int) {
        Some(
            SiValue {
                real: Magnitude::Power(Box::new(a.real), k),
                unit: unit_scaled(a.unit, k as int),
            },
        )
    } else {
        None
    }
}

/// The quantity `a` with its magnitude multiplied by the number `f`.
pub open spec fn scaled(a: SiValue, f: Fixed) -> SiValue {
    SiValue {
        real: Magnitude::Product(Box::new(a.real), Box::new(Magnitude::Literal(f))),
        unit: a.unit,
    }
}

/// The dimensionless quantity of magnitude `f`.
pub open spec fn scalar(f: Fixed) -> SiValue {
    SiValue { real: Magnitude::Literal(f), unit: dimensionless() }
}

/// The text of one dimension: nothing for exponent zero, otherwise a space,
/// the symbol and the exponent.
pub open spec fn part_text(symbol: Seq<char>, e: i64) -> Seq<char> {
    if e == 0 {
        Seq::empty()
    } else {
        seq![' '] + symbol + int_text(e as int)
    }
}

/// The text of the dimensions of `u`, in the order meter, second, mole,
/// ampere, kelvin, candela, kilogram, as in ` m1 s-2`.
pub open spec fn suffix_text(u: SiUnit) -> Seq<char> {
    part_text(seq!['m'], u.meter) + part_text(seq!['s'], u.second) + part_text(
        seq!['m', 'o', 'l'],
        u.mole,
    ) + part_text(seq!['A'], u.ampere) + part_text(seq!['K'], u.kelvin) + part_text(
        seq!['c', 'd'],
        u.candela,
    ) + part_text(seq!['k', 'g'], u.kilogram)
}

/// Appends the text of one dimension.
fn push_part(s: &mut String, symbol: &str, e: i64)
    ensures
        final(s)@ == old(s)@ + part_text(symbol@, e),
{
    if e == 0 {
        assert(s@ =~= old(s)@ + part_text(symbol@, e));
        return;
    }
    push_char(s, ' ');
    s.append(symbol);
    if e < 0 {
        push_char(s, '-');
        let n: u64 = if e == i64::MIN {
            9_223_372_036_854_775_808u64
        } else {
            (-e) as u64
        };
        push_digits(s, n);
    } else {
        push_digits(s, e as u64);
    }
    assert(s@ =~= old(s)@ + part_text(symbol@, e));
}

/// `a + b` where it fits in an `i64`.
fn add_exponent(a: i64, b: i64) -> (r: Option<i64>)
    ensures
        r is Some <==> fits_i64(a + b),
        r is Some ==> r->Some_0 == a + b,
{
    a.checked_add(b)
}

/// `a * k` where it fits in an `i64`.
fn scale_exponent(a: i64, k: i64) -> (r: Option<i64>)
    ensures
        r is Some <==> fits_i64(a * k),
        r is Some ==> r->Some_0 == a * k,
{
    a.checked_mul(k)
}

impl SiUnit {
    /// The exponent vector with the given exponents.
    pub(crate) fn of(m: i64, s: i64, mol: i64, a: i64, k: i64, cd: i64, kg: i64) -> (r: SiUnit)
        ensures
            r == dims(m as int, s as int, mol as int, a as int, k as int, cd as int, kg as int),
    {
        SiUnit { meter: m, second: s, mole: mol, ampere: a, kelvin: k, candela: cd, kilogram: kg }
    }

    /// The text of these dimensions: for each nonzero exponent, in the order
    /// meter, second, mole, ampere, kelvin, candela, kilogram, a space, the
    /// unit's symbol and the exponent (` m1 s-2`).
    pub fn suffix(&self) -> (r: String)
        ensures
            r@ == suffix_text(*self),
    {
        proof {
            reveal_strlit("m");
            reveal_strlit("s");
            reveal_strlit("mol");
            reveal_strlit("A");
            reveal_strlit("K");
            reveal_strlit("cd");
            reveal_strlit("kg");
            assert("m"@ =~= seq!['m']);
            assert("s"@ =~= seq!['s']);
            assert("mol"@ =~= seq!['m', 'o', 'l']);
            assert("A"@ =~= seq!['A']);
            assert("K"@ =~= seq!['K']);
            assert("cd"@ =~= seq!['c', 'd']);
            assert("kg"@ =~= seq!['k', 'g']);
        }
        let mut s = String::new();
        push_part(&mut s, "m", self.meter);
        push_part(&mut s, "s", self.second);
        push_part(&mut s, "mol", self.mole);
        push_part(&mut s, "A", self.ampere);
        push_part(&mut s, "K", self.kelvin);
        push_part(&mut s, "cd", self.candela);
        push_part(&mut s, "kg", self.kilogram);
        assert(s@ =~= suffix_text(*self));
        s
    }

    /// The exponentwise sum, or `None` where an exponent leaves `i64`.
    pub fn plus(&self, o: &SiUnit) -> (r: Option<SiUnit>)
        ensures
            r is Some <==> sum_fits(*self, *o),
            r is Some ==> r->Some_0 == unit_sum(*self, *o),
    {
        let meter = add_exponent(self.meter, o.meter)?;
        let second = add_exponent(self.second, o.second)?;
        let mole = add_exponent(self.mole, o.mole)?;
        let ampere = add_exponent(self.ampere, o.ampere)?;
        let kelvin = add_exponent(self.kelvin, o.kelvin)?;
        let candela = add_exponent(self.candela, o.candela)?;
        let kilogram = add_exponent(self.kilogram, o.kilogram)?;
        Some(SiUnit { meter, second, mole, ampere, kelvin, candela, kilogram })
    }

    /// Every exponent times `k`, or `None` where one leaves `i64`.
    pub fn times(&self, k: i64) -> (r: Option<SiUnit>)
        ensures
            r is Some <==> scale_fits(*self, k as int),
            r is Some ==> r->Some_0 == unit_scaled(*self, k as int),
    {
        let meter = scale_exponent(self.meter, k)?;
        let second = scale_exponent(self.second, k)?;
        let mole = scale_exponent(self.mole, k)?;
        let ampere = scale_exponent(self.ampere, k)?;
        let kelvin = scale_exponent(self.kelvin, k)?;
        let candela = scale_exponent(self.candela, k)?;
        let kilogram = scale_exponent(self.kilogram, k)?;
        Some(SiUnit { meter, second, mole, ampere, kelvin, candela, kilogram })
    }
}

impl Default for SiUnit {
    /// No dimension: every exponent zero.
    fn default() -> (r: SiUnit)
        ensures
            r == dimensionless(),
    {
        SiUnit { meter: 0, second: 0, mole: 0, ampere: 0, kelvin: 0, candela: 0, kilogram: 0 }
    }
}

impl SiValue {
    /// The dimensionless quantity of magnitude `f`.
    pub fn from(f: Fixed) -> (r: SiValue)
        ensures
            r == scalar(f),
    {
        SiValue { real: Magnitude::Literal(f), unit: SiUnit::default() }
    }

    /// This quantity raised to the integer power `i`: the exponents are
    /// multiplied by `i`, the magnitude raised to the `i`-th power.
    pub fn pow(self, i: i64) -> (r: Result<SiValue, UnitError>)
        ensures
            r is Ok <==> power(self, i) is Some,
            r is Ok ==> r->Ok_0 == power(self, i)->Some_0,
    {
        match self.unit.times(i) {
            Some(unit) => Ok(SiValue { real: Magnitude::Power(Box::new(self.real), i), unit }),
            None => Err(UnitError::new("dimension exponent out of range")),
        }
    }

    /// The product of two quantities: magnitudes multiply, exponents add.
    pub fn mul(self, rhs: SiValue) -> (r: Result<SiValue, UnitError>)
        ensures
            r is Ok <==> product(self, rhs) is Some,
            r is Ok ==> r->Ok_0 == product(self, rhs)->Some_0,
    {
        match self.unit.plus(&rhs.unit) {
            Some(unit) => Ok(
                SiValue { real: Magnitude::Product(Box::new(self.real), Box::new(rhs.real)), unit },
            ),
            None => Err(UnitError::new("dimension exponent out of range")),
        }
    }

    /// This quantity with its magnitude multiplied by the number `f`.
    pub fn scale(self, f: Fixed) -> (r: SiValue)
        ensures
            r == scaled(self, f),
    {
        SiValue {
            real: Magnitude::Product(Box::new(self.real), Box::new(Magnitude::Literal(f))),
            unit: self.unit,
        }
    }

    /// The quantity that the unit written `name` stands for; an error where
    /// the registry has no such unit.
    pub fn try_from(name: &str) -> (r: Result<SiValue, UnitError>)
        ensures
            r is Ok <==> named(name@) is Some,
            r is Ok ==> r->Ok_0 == resolved(name@)->Some_0,
    {
        match lookup(name) {
            Some(u) => {
                let d = definition(u);
                Ok(SiValue { real: Magnitude::Literal(d.factor), unit: d.dims })
            },
            None => Err(UnitError { message: prefixed("unit_error: unimplemented unit: ", name) }),
        }
    }

    /// The sum of two quantities of equal dimension; an error otherwise.
    pub fn add(self, rhs: SiValue) -> (r: Result<SiValue, UnitError>)
        ensures
            r is Ok <==> self.unit == rhs.unit,
            r is Ok ==> r->Ok_0 == sum(self, rhs)->Some_0,
    {
        if self.unit == rhs.unit {
            Ok(SiValue { real: Magnitude::Sum(Box::new(self.real), Box::new(rhs.real)), unit: self.unit })
        } else {
            Err(UnitError::new("cannot add quantities of different dimensions"))
        }
    }
}


/// Raising a quantity to an integer power `k` that keeps its exponents in
/// range multiplies each dimension exponent by `k` and raises the magnitude to
/// the `k`-th power.
pub proof fn lemma_power_scales(v: SiValue, k: i64)
    requires
        scale_fits(v.unit, k as int),
    ensures
        power(v, k) matches Some(p) && {
            &&& p.unit.meter == v.unit.meter * k
            &&& p.unit.second == v.unit.second * k
            &&& p.unit.mole == v.unit.mole * k
            &&& p.unit.ampere == v.unit.ampere * k
            &&& p.unit.kelvin == v.unit.kelvin * k
            &&& p.unit.candela == v.unit.candela * k
            &&& p.unit.kilogram == v.unit.kilogram * k
        },
        k >= 0 && v.real.value() is Some ==> power(v, k)->Some_0.real.value() == Some(
            Ratio {
                num: pow(v.real.value()->Some_0.num, k as nat),
                den: pow(v.real.value()->Some_0.den, k as nat),
            },
        ),
{
}

} // verus!
