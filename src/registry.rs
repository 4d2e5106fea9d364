//! The registry of named units: each unit's exact scale factor relative to
//! the SI base units and its dimension exponents. Derived units are composed
//! from units defined before them, and the composition is checked against the
//! table of exact values.
use crate::lexer::token::Fixed;
use crate::units::{dims, ratio_of, unit_scaled, unit_sum, Magnitude, Ratio, SiUnit, SiValue};
use vstd::arithmetic::power::pow;
use vstd::prelude::*;
use vstd::string::StrSliceExecFns;

verus! {

/// The decimal one.
pub open spec fn one() -> Fixed {
    Fixed { mantissa: 1, scale: 0 }
}

/// The exact product of two decimals.
pub open spec fn fixed_times(a: Fixed, b: Fixed) -> Fixed {
    Fixed { mantissa: (a.mantissa * b.mantissa) as i64, scale: (a.scale + b.scale) as u32 }
}

/// The decimal `a` raised to the power `k`.
pub open spec fn fixed_pow(a: Fixed, k: nat) -> Fixed
    decreases k,
{
    if k == 0 {
        one()
    } else {
        fixed_times(fixed_pow(a, (k - 1) as nat), a)
    }
}

/// A unit of the registry: its exact scale factor relative to the SI base
/// units, and its dimension exponents.
#[derive(Clone, Copy, Debug, PartialEq, Eq, Structural)]
pub struct UnitDef {
    pub factor: Fixed,
    pub dims: SiUnit,
}

/// Whether every exponent of `u` lies within `-b ..= b`.
pub open spec fn dims_within(u: SiUnit, b: int) -> bool {
    &&& -b <= u.meter <= b
    &&& -b <= u.second <= b
    &&& -b <= u.mole <= b
    &&& -b <= u.ampere <= b
    &&& -b <= u.kelvin <= b
    &&& -b <= u.candela <= b
    &&& -b <= u.kilogram <= b
}

/// Whether a definition is small enough to compose without overflow.
pub open spec fn modest(d: UnitDef) -> bool {
    &&& 0 < d.factor.mantissa <= 3_000_000_000
    &&& d.factor.scale <= 10
    &&& dims_within(d.dims, 10)
}

impl UnitDef {
    /// A base unit: factor one with the given dimension.
    fn base(dims: SiUnit) -> (r: UnitDef)
        ensures
            r == (UnitDef { factor: one(), dims }),
    {
        UnitDef { factor: Fixed { mantissa: 1, scale: 0 }, dims }
    }

    /// The product of two definitions.
    fn times(&self, o: &UnitDef) -> (r: UnitDef)
        requires
            modest(*self),
            modest(*o),
        ensures
            r == (UnitDef {
                factor: fixed_times(self.factor, o.factor),
                dims: unit_sum(self.dims, o.dims),
            }),
            self.factor.mantissa == 1 ==> r.factor.mantissa == o.factor.mantissa,
            o.factor.mantissa == 1 ==> r.factor.mantissa == self.factor.mantissa,
    {
        assert(1 * o.factor.mantissa == o.factor.mantissa) by (nonlinear_arith);
        assert(self.factor.mantissa * 1 == self.factor.mantissa) by (nonlinear_arith);
        assert(0 < self.factor.mantissa * o.factor.mantissa <= 3_000_000_000 * 3_000_000_000)
            by (nonlinear_arith)
            requires
                0 < self.factor.mantissa <= 3_000_000_000,
                0 < o.factor.mantissa <= 3_000_000_000,
        ;
        UnitDef {
            factor: Fixed {
                mantissa: self.factor.mantissa * o.factor.mantissa,
                scale: self.factor.scale + o.factor.scale,
            },
            dims: SiUnit {
                meter: self.dims.meter + o.dims.meter,
                second: self.dims.second + o.dims.second,
                mole: self.dims.mole + o.dims.mole,
                ampere: self.dims.ampere + o.dims.ampere,
                kelvin: self.dims.kelvin + o.dims.kelvin,
                candela: self.dims.candela + o.dims.candela,
                kilogram: self.dims.kilogram + o.dims.kilogram,
            },
        }
    }

    /// This definition scaled by the decimal `f`.
    fn scaled(&self, f: Fixed) -> (r: UnitDef)
        requires
            modest(*self),
            0 < f.mantissa <= 3_000_000_000,
            f.scale <= 10,
        ensures
            r == (UnitDef { factor: fixed_times(self.factor, f), dims: self.dims }),
    {
        let r = self.times(&UnitDef { factor: f, dims: SiUnit::default() });
        assert(r.dims == self.dims);
        r
    }

    /// This definition raised to the power `k`; a negative power only of a
    /// unit whose factor is one.
    fn pow(&self, k: i64) -> (r: UnitDef)
        requires
            modest(*self),
            -3 <= k <= 3,
            k < 0 ==> self.factor == one(),
            k > 1 ==> self.factor.mantissa <= 1000 && self.factor.scale <= 3 && dims_within(self.dims, 3),
        ensures
            r == (UnitDef {
                factor: if k < 0 { one() } else { fixed_pow(self.factor, k as nat) },
                dims: unit_scaled(self.dims, k as int),
            }),
    {
        if k <= 0 {
            assert(fixed_pow(self.factor, 0) == one());
            UnitDef {
                factor: Fixed { mantissa: 1, scale: 0 },
                dims: SiUnit {
                    meter: small_product(self.dims.meter, k),
                    second: small_product(self.dims.second, k),
                    mole: small_product(self.dims.mole, k),
                    ampere: small_product(self.dims.ampere, k),
                    kelvin: small_product(self.dims.kelvin, k),
                    candela: small_product(self.dims.candela, k),
                    kilogram: small_product(self.dims.kilogram, k),
                },
            }
        } else {
            proof {
                reveal_with_fuel(fixed_pow, 4);
                assert(fixed_pow(self.factor, 0) == one());
                assert(1 * self.factor.mantissa == self.factor.mantissa) by (nonlinear_arith);
                assert(fixed_times(one(), self.factor) == self.factor);
                assert(fixed_pow(self.factor, 1) == fixed_times(fixed_pow(self.factor, 0), self.factor));
                assert(fixed_pow(self.factor, 1) == self.factor);
                assert(fixed_pow(self.factor, 2) == fixed_times(self.factor, self.factor));
                assert(fixed_pow(self.factor, 3) == fixed_times(
                    fixed_times(self.factor, self.factor),
                    self.factor,
                ));
            }
            if k == 1 {
                *self
            } else {
                proof {
                    assert(0 < self.factor.mantissa * self.factor.mantissa <= 1_000_000)
                        by (nonlinear_arith)
                        requires
                            0 < self.factor.mantissa <= 1000,
                    ;
                }
                let square = self.times(self);
                assert(square.dims == unit_scaled(self.dims, 2));
                if k == 2 {
                    square
                } else {
                    let cube = square.times(self);
                    assert(cube.dims == unit_scaled(self.dims, 3));
                    assert(cube.factor == fixed_pow(self.factor, 3));
                    cube
                }
            }
        }
    }
}

/// `a * k` for small factors.
fn small_product(a: i64, k: i64) -> (r: i64)
    requires
        -10 <= a <= 10,
        -3 <= k <= 3,
    ensures
        r == a * k,
{
    assert(-30 <= a * k <= 30) by (nonlinear_arith)
        requires
            -10 <= a <= 10,
            -3 <= k <= 3,
    ;
    a * k
}

/// Whether the strings `a` and `b` hold the same characters.
fn same_chars(a: &str, b: &str) -> (r: bool)
    ensures
        r == (a@ == b@),
{
    let n = a.unicode_len();
    if n != b.unicode_len() {
        return false;
    }
    let mut i: usize = 0;
    while i < n
        invariant
            n == a@.len() == b@.len(),
            i <= n,
            a@.subrange(0, i as int) == b@.subrange(0, i as int),
        decreases n - i,
    {
        if a.get_char(i) != b.get_char(i) {
            return false;
        }
        assert(a@.subrange(0, i + 1) =~= a@.subrange(0, i as int).push(a@[i as int]));
        assert(b@.subrange(0, i + 1) =~= b@.subrange(0, i as int).push(b@[i as int]));
        i = i + 1;
    }
    assert(a@ =~= a@.subrange(0, n as int));
    assert(b@ =~= b@.subrange(0, n as int));
    true
}

/// The names of the registry's units.
#[derive(Clone, Copy, Debug, PartialEq, Eq, Structural)]
pub enum UnitName {
    M,
    S,
    Mol,
    A,
    K,
    Cd,
    Kg,
    Pa,
    N,
    J,
    W,
    KW,
    MW,
    Km,
    Cm,
    Mm,
    ML,
    L,
    Ms,
    Us,
    Hr,
    Day,
    Yr,
    Ft,
    Lbf,
    In,
    Thou,
    Mile,
    Mph,
}

/// The written symbol of each unit.
pub open spec fn symbol(u: UnitName) -> Seq<char> {
    match u {
        UnitName::M => seq!['m'],
        UnitName::S => seq!['s'],
        UnitName::Mol => seq!['m', 'o', 'l'],
        UnitName::A => seq!['A'],
        UnitName::K => seq!['K'],
        UnitName::Cd => seq!['c', 'd'],
        UnitName::Kg => seq!['k', 'g'],
        UnitName::Pa => seq!['P', 'a'],
        UnitName::N => seq!['N'],
        UnitName::J => seq!['J'],
        UnitName::W => seq!['W'],
        UnitName::KW => seq!['k', 'W'],
        UnitName::MW => seq!['M', 'W'],
        UnitName::Km => seq!['k', 'm'],
        UnitName::Cm => seq!['c', 'm'],
        UnitName::Mm => seq!['m', 'm'],
        UnitName::ML => seq!['m', 'L'],
        UnitName::L => seq!['L'],
        UnitName::Ms => seq!['m', 's'],
        UnitName::Us => seq!['u', 's'],
        UnitName::Hr => seq!['h', 'r'],
        UnitName::Day => seq!['d', 'a', 'y'],
        UnitName::Yr => seq!['y', 'r'],
        UnitName::Ft => seq!['f', 't'],
        UnitName::Lbf => seq!['l', 'b', 'f'],
        UnitName::In => seq!['i', 'n'],
        UnitName::Thou => seq!['t', 'h', 'o', 'u'],
        UnitName::Mile => seq!['m', 'i', 'l', 'e'],
        UnitName::Mph => seq!['m', 'p', 'h'],
    }
}

/// The unit written `s`, if the registry has one.
pub open spec fn named(s: Seq<char>) -> Option<UnitName> {
    if s == seq!['m'] {
        Some(UnitName::M)
    } else if s == seq!['s'] {
        Some(UnitName::S)
    } else if s == seq!['m', 'o', 'l'] {
        Some(UnitName::Mol)
    } else if s == seq!['A'] {
        Some(UnitName::A)
    } else if s == seq!['K'] {
        Some(UnitName::K)
    } else if s == seq!['c', 'd'] {
        Some(UnitName::Cd)
    } else if s == seq!['k', 'g'] {
        Some(UnitName::Kg)
    } else if s == seq!['P', 'a'] {
        Some(UnitName::Pa)
    } else if s == seq!['N'] {
        Some(UnitName::N)
    } else if s == seq!['J'] {
        Some(UnitName::J)
    } else if s == seq!['W'] {
        Some(UnitName::W)
    } else if s == seq!['k', 'W'] {
        Some(UnitName::KW)
    } else if s == seq!['M', 'W'] {
        Some(UnitName::MW)
    } else if s == seq!['k', 'm'] {
        Some(UnitName::Km)
    } else if s == seq!['c', 'm'] {
        Some(UnitName::Cm)
    } else if s == seq!['m', 'm'] {
        Some(UnitName::Mm)
    } else if s == seq!['m', 'L'] {
        Some(UnitName::ML)
    } else if s == seq!['L'] {
        Some(UnitName::L)
    } else if s == seq!['m', 's'] {
        Some(UnitName::Ms)
    } else if s == seq!['u', 's'] {
        Some(UnitName::Us)
    } else if s == seq!['h', 'r'] {
        Some(UnitName::Hr)
    } else if s == seq!['d', 'a', 'y'] {
        Some(UnitName::Day)
    } else if s == seq!['y', 'r'] {
        Some(UnitName::Yr)
    } else if s == seq!['f', 't'] {
        Some(UnitName::Ft)
    } else if s == seq!['l', 'b', 'f'] {
        Some(UnitName::Lbf)
    } else if s == seq!['i', 'n'] {
        Some(UnitName::In)
    } else if s == seq!['t', 'h', 'o', 'u'] {
        Some(UnitName::Thou)
    } else if s == seq!['m', 'i', 'l', 'e'] {
        Some(UnitName::Mile)
    } else if s == seq!['m', 'p', 'h'] {
        Some(UnitName::Mph)
    } else {
        None
    }
}

/// How many definitions lie beneath a unit's own: base units have none,
/// and each derived unit is defined only through units of lower rank.
pub open spec fn rank(u: UnitName) -> nat {
    match u {
        UnitName::M => 0,
        UnitName::S => 0,
        UnitName::Mol => 0,
        UnitName::A => 0,
        UnitName::K => 0,
        UnitName::Cd => 0,
        UnitName::Kg => 0,
        UnitName::Pa => 2,
        UnitName::N => 1,
        UnitName::J => 2,
        UnitName::W => 3,
        UnitName::KW => 4,
        UnitName::MW => 4,
        UnitName::Km => 1,
        UnitName::Cm => 1,
        UnitName::Mm => 1,
        UnitName::ML => 2,
        UnitName::L => 3,
        UnitName::Ms => 1,
        UnitName::Us => 2,
        UnitName::Hr => 1,
        UnitName::Day => 2,
        UnitName::Yr => 3,
        UnitName::Ft => 1,
        UnitName::Lbf => 2,
        UnitName::In => 1,
        UnitName::Thou => 2,
        UnitName::Mile => 1,
        UnitName::Mph => 1,
    }
}

/// The registry: each unit's exact scale factor relative to the SI base
/// units, and its dimension exponents.
pub open spec fn table(u: UnitName) -> UnitDef {
    match u {
        UnitName::M => UnitDef { factor: Fixed { mantissa: 1, scale: 0 }, dims: dims(1, 0, 0, 0, 0, 0, 0) },
        UnitName::S => UnitDef { factor: Fixed { mantissa: 1, scale: 0 }, dims: dims(0, 1, 0, 0, 0, 0, 0) },
        UnitName::Mol => UnitDef { factor: Fixed { mantissa: 1, scale: 0 }, dims: dims(0, 0, 1, 0, 0, 0, 0) },
        UnitName::A => UnitDef { factor: Fixed { mantissa: 1, scale: 0 }, dims: dims(0, 0, 0, 1, 0, 0, 0) },
        UnitName::K => UnitDef { factor: Fixed { mantissa: 1, scale: 0 }, dims: dims(0, 0, 0, 0, 1, 0, 0) },
        UnitName::Cd => UnitDef { factor: Fixed { mantissa: 1, scale: 0 }, dims: dims(0, 0, 0, 0, 0, 1, 0) },
        UnitName::Kg => UnitDef { factor: Fixed { mantissa: 1, scale: 0 }, dims: dims(0, 0, 0, 0, 0, 0, 1) },
        UnitName::Pa => UnitDef { factor: Fixed { mantissa: 1, scale: 0 }, dims: dims(-1, -2, 0, 0, 0, 0, 1) },
        UnitName::N => UnitDef { factor: Fixed { mantissa: 1, scale: 0 }, dims: dims(1, -2, 0, 0, 0, 0, 1) },
        UnitName::J => UnitDef { factor: Fixed { mantissa: 1, scale: 0 }, dims: dims(2, -2, 0, 0, 0, 0, 1) },
        UnitName::W => UnitDef { factor: Fixed { mantissa: 1, scale: 0 }, dims: dims(2, -3, 0, 0, 0, 0, 1) },
        UnitName::KW => UnitDef { factor: Fixed { mantissa: 1000, scale: 0 }, dims: dims(2, -3, 0, 0, 0, 0, 1) },
        UnitName::MW => UnitDef { factor: Fixed { mantissa: 1000000, scale: 0 }, dims: dims(2, -3, 0, 0, 0, 0, 1) },
        UnitName::Km => UnitDef { factor: Fixed { mantissa: 1000, scale: 0 }, dims: dims(1, 0, 0, 0, 0, 0, 0) },
        UnitName::Cm => UnitDef { factor: Fixed { mantissa: 1, scale: 2 }, dims: dims(1, 0, 0, 0, 0, 0, 0) },
        UnitName::Mm => UnitDef { factor: Fixed { mantissa: 1, scale: 3 }, dims: dims(1, 0, 0, 0, 0, 0, 0) },
        UnitName::ML => UnitDef { factor: Fixed { mantissa: 1, scale: 6 }, dims: dims(3, 0, 0, 0, 0, 0, 0) },
        UnitName::L => UnitDef { factor: Fixed { mantissa: 1000, scale: 6 }, dims: dims(3, 0, 0, 0, 0, 0, 0) },
        UnitName::Ms => UnitDef { factor: Fixed { mantissa: 1, scale: 3 }, dims: dims(0, 1, 0, 0, 0, 0, 0) },
        UnitName::Us => UnitDef { factor: Fixed { mantissa: 1, scale: 6 }, dims: dims(0, 1, 0, 0, 0, 0, 0) },
        UnitName::Hr => UnitDef { factor: Fixed { mantissa: 3600, scale: 0 }, dims: dims(0, 1, 0, 0, 0, 0, 0) },
        UnitName::Day => UnitDef { factor: Fixed { mantissa: 86400, scale: 0 }, dims: dims(0, 1, 0, 0, 0, 0, 0) },
        UnitName::Yr => UnitDef { factor: Fixed { mantissa: 3155760000, scale: 2 }, dims: dims(0, 1, 0, 0, 0, 0, 0) },
        UnitName::Ft => UnitDef { factor: Fixed { mantissa: 3048, scale: 4 }, dims: dims(1, 0, 0, 0, 0, 0, 0) },
        UnitName::Lbf => UnitDef { factor: Fixed { mantissa: 4448, scale: 3 }, dims: dims(1, -2, 0, 0, 0, 0, 1) },
        UnitName::In => UnitDef { factor: Fixed { mantissa: 254, scale: 4 }, dims: dims(1, 0, 0, 0, 0, 0, 0) },
        UnitName::Thou => UnitDef { factor: Fixed { mantissa: 254, scale: 7 }, dims: dims(1, 0, 0, 0, 0, 0, 0) },
        UnitName::Mile => UnitDef { factor: Fixed { mantissa: 1609, scale: 0 }, dims: dims(1, 0, 0, 0, 0, 0, 0) },
        UnitName::Mph => UnitDef { factor: Fixed { mantissa: 447, scale: 3 }, dims: dims(1, -1, 0, 0, 0, 0, 0) },
    }
}

/// The quantity that the registry's unit `u` stands for.
pub open spec fn unit_value(u: UnitName) -> SiValue {
    SiValue { real: Magnitude::Literal(table(u).factor), unit: table(u).dims }
}

/// The quantity that the unit written `name` stands for, if the registry has
/// such a unit.
pub open spec fn resolved(name: Seq<char>) -> Option<SiValue> {
    match named(name) {
        Some(u) => Some(unit_value(u)),
        None => None,
    }
}

/// Each unit's symbol names that unit in the registry.
pub proof fn lemma_symbols_name_units(u: UnitName)
    ensures
        named(symbol(u)) == Some(u),
{
    match u {
        UnitName::M => {
            assert(symbol(u) == seq!['m']);
        },
        UnitName::S => {
            assert(symbol(u) == seq!['s']);
            assert(seq!['s'][0] != seq!['m'][0]);
        },
        UnitName::Mol => {
            assert(symbol(u) == seq!['m', 'o', 'l']);
        },
        UnitName::A => {
            assert(symbol(u) == seq!['A']);
            assert(seq!['A'][0] != seq!['m'][0]);
            assert(seq!['A'][0] != seq!['s'][0]);
        },
        UnitName::K => {
            assert(symbol(u) == seq!['K']);
            assert(seq!['K'][0] != seq!['m'][0]);
            assert(seq!['K'][0] != seq!['s'][0]);
            assert(seq!['K'][0] != seq!['A'][0]);
        },
        UnitName::Cd => {
            assert(symbol(u) == seq!['c', 'd']);
        },
        UnitName::Kg => {
            assert(symbol(u) == seq!['k', 'g']);
            assert(seq!['k', 'g'][0] != seq!['c', 'd'][0]);
        },
        UnitName::Pa => {
            assert(symbol(u) == seq!['P', 'a']);
            assert(seq!['P', 'a'][0] != seq!['c', 'd'][0]);
            assert(seq!['P', 'a'][0] != seq!['k', 'g'][0]);
        },
        UnitName::N => {
            assert(symbol(u) == seq!['N']);
            assert(seq!['N'][0] != seq!['m'][0]);
            assert(seq!['N'][0] != seq!['s'][0]);
            assert(seq!['N'][0] != seq!['A'][0]);
            assert(seq!['N'][0] != seq!['K'][0]);
        },
        UnitName::J => {
            assert(symbol(u) == seq!['J']);
            assert(seq!['J'][0] != seq!['m'][0]);
            assert(seq!['J'][0] != seq!['s'][0]);
            assert(seq!['J'][0] != seq!['A'][0]);
            assert(seq!['J'][0] != seq!['K'][0]);
            assert(seq!['J'][0] != seq!['N'][0]);
        },
        UnitName::W => {
            assert(symbol(u) == seq!['W']);
            assert(seq!['W'][0] != seq!['m'][0]);
            assert(seq!['W'][0] != seq!['s'][0]);
            assert(seq!['W'][0] != seq!['A'][0]);
            assert(seq!['W'][0] != seq!['K'][0]);
            assert(seq!['W'][0] != seq!['N'][0]);
            assert(seq!['W'][0] != seq!['J'][0]);
        },
        UnitName::KW => {
            assert(symbol(u) == seq!['k', 'W']);
            assert(seq!['k', 'W'][0] != seq!['c', 'd'][0]);
            assert(seq!['k', 'W'][1] != seq!['k', 'g'][1]);
            assert(seq!['k', 'W'][0] != seq!['P', 'a'][0]);
        },
        UnitName::MW => {
            assert(symbol(u) == seq!['M', 'W']);
            assert(seq!['M', 'W'][0] != seq!['c', 'd'][0]);
            assert(seq!['M', 'W'][0] != seq!['k', 'g'][0]);
            assert(seq!['M', 'W'][0] != seq!['P', 'a'][0]);
            assert(seq!['M', 'W'][0] != seq!['k', 'W'][0]);
        },
        UnitName::Km => {
            assert(symbol(u) == seq!['k', 'm']);
            assert(seq!['k', 'm'][0] != seq!['c', 'd'][0]);
            assert(seq!['k', 'm'][1] != seq!['k', 'g'][1]);
            assert(seq!['k', 'm'][0] != seq!['P', 'a'][0]);
            assert(seq!['k', 'm'][1] != seq!['k', 'W'][1]);
            assert(seq!['k', 'm'][0] != seq!['M', 'W'][0]);
        },
        UnitName::Cm => {
            assert(symbol(u) == seq!['c', 'm']);
            assert(seq!['c', 'm'][1] != seq!['c', 'd'][1]);
            assert(seq!['c', 'm'][0] != seq!['k', 'g'][0]);
            assert(seq!['c', 'm'][0] != seq!['P', 'a'][0]);
            assert(seq!['c', 'm'][0] != seq!['k', 'W'][0]);
            assert(seq!['c', 'm'][0] != seq!['M', 'W'][0]);
            assert(seq!['c', 'm'][0] != seq!['k', 'm'][0]);
        },
        UnitName::Mm => {
            assert(symbol(u) == seq!['m', 'm']);
            assert(seq!['m', 'm'][0] != seq!['c', 'd'][0]);
            assert(seq!['m', 'm'][0] != seq!['k', 'g'][0]);
            assert(seq!['m', 'm'][0] != seq!['P', 'a'][0]);
            assert(seq!['m', 'm'][0] != seq!['k', 'W'][0]);
            assert(seq!['m', 'm'][0] != seq!['M', 'W'][0]);
            assert(seq!['m', 'm'][0] != seq!['k', 'm'][0]);
            assert(seq!['m', 'm'][0] != seq!['c', 'm'][0]);
        },
        UnitName::ML => {
            assert(symbol(u) == seq!['m', 'L']);
            assert(seq!['m', 'L'][0] != seq!['c', 'd'][0]);
            assert(seq!['m', 'L'][0] != seq!['k', 'g'][0]);
            assert(seq!['m', 'L'][0] != seq!['P', 'a'][0]);
            assert(seq!['m', 'L'][0] != seq!['k', 'W'][0]);
            assert(seq!['m', 'L'][0] != seq!['M', 'W'][0]);
            assert(seq!['m', 'L'][0] != seq!['k', 'm'][0]);
            assert(seq!['m', 'L'][0] != seq!['c', 'm'][0]);
            assert(seq!['m', 'L'][1] != seq!['m', 'm'][1]);
        },
        UnitName::L => {
            assert(symbol(u) == seq!['L']);
            assert(seq!['L'][0] != seq!['m'][0]);
            assert(seq!['L'][0] != seq!['s'][0]);
            assert(seq!['L'][0] != seq!['A'][0]);
            assert(seq!['L'][0] != seq!['K'][0]);
            assert(seq!['L'][0] != seq!['N'][0]);
            assert(seq!['L'][0] != seq!['J'][0]);
            assert(seq!['L'][0] != seq!['W'][0]);
        },
        UnitName::Ms => {
            assert(symbol(u) == seq!['m', 's']);
            assert(seq!['m', 's'][0] != seq!['c', 'd'][0]);
            assert(seq!['m', 's'][0] != seq!['k', 'g'][0]);
            assert(seq!['m', 's'][0] != seq!['P', 'a'][0]);
            assert(seq!['m', 's'][0] != seq!['k', 'W'][0]);
            assert(seq!['m', 's'][0] != seq!['M', 'W'][0]);
            assert(seq!['m', 's'][0] != seq!['k', 'm'][0]);
            assert(seq!['m', 's'][0] != seq!['c', 'm'][0]);
            assert(seq!['m', 's'][1] != seq!['m', 'm'][1]);
            assert(seq!['m', 's'][1] != seq!['m', 'L'][1]);
        },
        UnitName::Us => {
            assert(symbol(u) == seq!['u', 's']);
            assert(seq!['u', 's'][0] != seq!['c', 'd'][0]);
            assert(seq!['u', 's'][0] != seq!['k', 'g'][0]);
            assert(seq!['u', 's'][0] != seq!['P', 'a'][0]);
            assert(seq!['u', 's'][0] != seq!['k', 'W'][0]);
            assert(seq!['u', 's'][0] != seq!['M', 'W'][0]);
            assert(seq!['u', 's'][0] != seq!['k', 'm'][0]);
            assert(seq!['u', 's'][0] != seq!['c', 'm'][0]);
            assert(seq!['u', 's'][0] != seq!['m', 'm'][0]);
            assert(seq!['u', 's'][0] != seq!['m', 'L'][0]);
            assert(seq!['u', 's'][0] != seq!['m', 's'][0]);
        },
        UnitName::Hr => {
            assert(symbol(u) == seq!['h', 'r']);
            assert(seq!['h', 'r'][0] != seq!['c', 'd'][0]);
            assert(seq!['h', 'r'][0] != seq!['k', 'g'][0]);
            assert(seq!['h', 'r'][0] != seq!['P', 'a'][0]);
            assert(seq!['h', 'r'][0] != seq!['k', 'W'][0]);
            assert(seq!['h', 'r'][0] != seq!['M', 'W'][0]);
            assert(seq!['h', 'r'][0] != seq!['k', 'm'][0]);
            assert(seq!['h', 'r'][0] != seq!['c', 'm'][0]);
            assert(seq!['h', 'r'][0] != seq!['m', 'm'][0]);
            assert(seq!['h', 'r'][0] != seq!['m', 'L'][0]);
            assert(seq!['h', 'r'][0] != seq!['m', 's'][0]);
            assert(seq!['h', 'r'][0] != seq!['u', 's'][0]);
        },
        UnitName::Day => {
            assert(symbol(u) == seq!['d', 'a', 'y']);
            assert(seq!['d', 'a', 'y'][0] != seq!['m', 'o', 'l'][0]);
        },
        UnitName::Yr => {
            assert(symbol(u) == seq!['y', 'r']);
            assert(seq!['y', 'r'][0] != seq!['c', 'd'][0]);
            assert(seq!['y', 'r'][0] != seq!['k', 'g'][0]);
            assert(seq!['y', 'r'][0] != seq!['P', 'a'][0]);
            assert(seq!['y', 'r'][0] != seq!['k', 'W'][0]);
            assert(seq!['y', 'r'][0] != seq!['M', 'W'][0]);
            assert(seq!['y', 'r'][0] != seq!['k', 'm'][0]);
            assert(seq!['y', 'r'][0] != seq!['c', 'm'][0]);
            assert(seq!['y', 'r'][0] != seq!['m', 'm'][0]);
            assert(seq!['y', 'r'][0] != seq!['m', 'L'][0]);
            assert(seq!['y', 'r'][0] != seq!['m', 's'][0]);
            assert(seq!['y', 'r'][0] != seq!['u', 's'][0]);
            assert(seq!['y', 'r'][0] != seq!['h', 'r'][0]);
        },
        UnitName::Ft => {
            assert(symbol(u) == seq!['f', 't']);
            assert(seq!['f', 't'][0] != seq!['c', 'd'][0]);
            assert(seq!['f', 't'][0] != seq!['k', 'g'][0]);
            assert(seq!['f', 't'][0] != seq!['P', 'a'][0]);
            assert(seq!['f', 't'][0] != seq!['k', 'W'][0]);
            assert(seq!['f', 't'][0] != seq!['M', 'W'][0]);
            assert(seq!['f', 't'][0] != seq!['k', 'm'][0]);
            assert(seq!['f', 't'][0] != seq!['c', 'm'][0]);
            assert(seq!['f', 't'][0] != seq!['m', 'm'][0]);
            assert(seq!['f', 't'][0] != seq!['m', 'L'][0]);
            assert(seq!['f', 't'][0] != seq!['m', 's'][0]);
            assert(seq!['f', 't'][0] != seq!['u', 's'][0]);
            assert(seq!['f', 't'][0] != seq!['h', 'r'][0]);
            assert(seq!['f', 't'][0] != seq!['y', 'r'][0]);
        },
        UnitName::Lbf => {
            assert(symbol(u) == seq!['l', 'b', 'f']);
            assert(seq!['l', 'b', 'f'][0] != seq!['m', 'o', 'l'][0]);
            assert(seq!['l', 'b', 'f'][0] != seq!['d', 'a', 'y'][0]);
        },
        UnitName::In => {
            assert(symbol(u) == seq!['i', 'n']);
            assert(seq!['i', 'n'][0] != seq!['c', 'd'][0]);
            assert(seq!['i', 'n'][0] != seq!['k', 'g'][0]);
            assert(seq!['i', 'n'][0] != seq!['P', 'a'][0]);
            assert(seq!['i', 'n'][0] != seq!['k', 'W'][0]);
            assert(seq!['i', 'n'][0] != seq!['M', 'W'][0]);
            assert(seq!['i', 'n'][0] != seq!['k', 'm'][0]);
            assert(seq!['i', 'n'][0] != seq!['c', 'm'][0]);
            assert(seq!['i', 'n'][0] != seq!['m', 'm'][0]);
            assert(seq!['i', 'n'][0] != seq!['m', 'L'][0]);
            assert(seq!['i', 'n'][0] != seq!['m', 's'][0]);
            assert(seq!['i', 'n'][0] != seq!['u', 's'][0]);
            assert(seq!['i', 'n'][0] != seq!['h', 'r'][0]);
            assert(seq!['i', 'n'][0] != seq!['y', 'r'][0]);
            assert(seq!['i', 'n'][0] != seq!['f', 't'][0]);
        },
        UnitName::Thou => {
            assert(symbol(u) == seq!['t', 'h', 'o', 'u']);
        },
        UnitName::Mile => {
            assert(symbol(u) == seq!['m', 'i', 'l', 'e']);
            assert(seq!['m', 'i', 'l', 'e'][0] != seq!['t', 'h', 'o', 'u'][0]);
        },
        UnitName::Mph => {
            assert(symbol(u) == seq!['m', 'p', 'h']);
            assert(seq!['m', 'p', 'h'][1] != seq!['m', 'o', 'l'][1]);
            assert(seq!['m', 'p', 'h'][0] != seq!['d', 'a', 'y'][0]);
            assert(seq!['m', 'p', 'h'][0] != seq!['l', 'b', 'f'][0]);
        },
    }
}

/// The millilitre is the centimetre cubed: three times its exponent of
/// length, and its scale factor cubed.
pub proof fn lemma_millilitre_is_cubic_centimetre()
    ensures
        table(UnitName::ML).dims == unit_scaled(table(UnitName::Cm).dims, 3),
        table(UnitName::ML).dims.meter == 3,
        ratio_of(table(UnitName::ML).factor) == (Ratio {
            num: pow(ratio_of(table(UnitName::Cm).factor).num, 3),
            den: pow(ratio_of(table(UnitName::Cm).factor).den, 3),
        }),
{
    reveal_with_fuel(pow, 7);
    assert(pow(10, 2) == 100);
    assert(pow(100, 3) == 1_000_000);
    assert(pow(10, 6) == 1_000_000);
    assert(pow(1, 3) == 1);
}

/// The definition of the unit `u`, composed from the units it is defined
/// through.
pub(crate) fn definition(u: UnitName) -> (r: UnitDef)
    ensures
        r == table(u),
    decreases rank(u), 1nat,
{
    match u {
        UnitName::M | UnitName::S | UnitName::Mol | UnitName::A | UnitName::K | UnitName::Cd | UnitName::Kg => base_definition(u),
        UnitName::Pa | UnitName::N | UnitName::J | UnitName::W | UnitName::KW | UnitName::MW => mechanical_definition(u),
        UnitName::Km | UnitName::Cm | UnitName::Mm | UnitName::ML | UnitName::L | UnitName::Ms | UnitName::Us => metric_definition(u),
        UnitName::Hr | UnitName::Day | UnitName::Yr | UnitName::Ft | UnitName::Lbf | UnitName::In | UnitName::Thou | UnitName::Mile | UnitName::Mph => customary_definition(u),
    }
}

/// The definition of a base unit.
#[verifier::spinoff_prover]
fn base_definition(u: UnitName) -> (r: UnitDef)
    requires
        u == UnitName::M
            || u == UnitName::S
            || u == UnitName::Mol
            || u == UnitName::A
            || u == UnitName::K
            || u == UnitName::Cd
            || u == UnitName::Kg,
    ensures
        r == table(u),
    decreases rank(u), 0nat,
{
    match u {
        UnitName::M => UnitDef::base(SiUnit::of(1, 0, 0, 0, 0, 0, 0)),
        UnitName::S => UnitDef::base(SiUnit::of(0, 1, 0, 0, 0, 0, 0)),
        UnitName::Mol => UnitDef::base(SiUnit::of(0, 0, 1, 0, 0, 0, 0)),
        UnitName::A => UnitDef::base(SiUnit::of(0, 0, 0, 1, 0, 0, 0)),
        UnitName::K => UnitDef::base(SiUnit::of(0, 0, 0, 0, 1, 0, 0)),
        UnitName::Cd => UnitDef::base(SiUnit::of(0, 0, 0, 0, 0, 1, 0)),
        UnitName::Kg => UnitDef::base(SiUnit::of(0, 0, 0, 0, 0, 0, 1)),
        _ => UnitDef::base(SiUnit::default()),
    }
}

/// The definition of a unit of force, pressure, energy or power.
#[verifier::spinoff_prover]
fn mechanical_definition(u: UnitName) -> (r: UnitDef)
    requires
        u == UnitName::Pa
            || u == UnitName::N
            || u == UnitName::J
            || u == UnitName::W
            || u == UnitName::KW
            || u == UnitName::MW,
    ensures
        r == table(u),
    decreases rank(u), 0nat,
{
    match u {
        UnitName::Pa => definition(UnitName::N).times(&definition(UnitName::M).pow(-2)),
        UnitName::N => definition(UnitName::Kg).times(&definition(UnitName::M)).times(&definition(UnitName::S).pow(-2)),
        UnitName::J => definition(UnitName::N).times(&definition(UnitName::M)),
        UnitName::W => definition(UnitName::J).times(&definition(UnitName::S).pow(-1)),
        UnitName::KW => definition(UnitName::W).scaled(Fixed { mantissa: 1000, scale: 0 }),
        UnitName::MW => definition(UnitName::W).scaled(Fixed { mantissa: 1_000_000, scale: 0 }),
        _ => UnitDef::base(SiUnit::default()),
    }
}

/// The definition of a metric multiple of the meter or the second.
#[verifier::spinoff_prover]
fn metric_definition(u: UnitName) -> (r: UnitDef)
    requires
        u == UnitName::Km
            || u == UnitName::Cm
            || u == UnitName::Mm
            || u == UnitName::ML
            || u == UnitName::L
            || u == UnitName::Ms
            || u == UnitName::Us,
    ensures
        r == table(u),
    decreases rank(u), 0nat,
{
    match u {
        UnitName::Km => definition(UnitName::M).scaled(Fixed { mantissa: 1000, scale: 0 }),
        UnitName::Cm => definition(UnitName::M).scaled(Fixed { mantissa: 1, scale: 2 }),
        UnitName::Mm => definition(UnitName::M).scaled(Fixed { mantissa: 1, scale: 3 }),
        UnitName::ML => {
            let r = definition(UnitName::Cm).pow(3);
            proof {
                reveal_with_fuel(fixed_pow, 4);
            }
            assert(r == table(u));
            r
        },
        UnitName::L => definition(UnitName::ML).scaled(Fixed { mantissa: 1000, scale: 0 }),
        UnitName::Ms => definition(UnitName::S).scaled(Fixed { mantissa: 1, scale: 3 }),
        UnitName::Us => definition(UnitName::Ms).scaled(Fixed { mantissa: 1, scale: 3 }),
        _ => UnitDef::base(SiUnit::default()),
    }
}

/// The definition of a customary unit of time, length, force or speed.
#[verifier::spinoff_prover]
fn customary_definition(u: UnitName) -> (r: UnitDef)
    requires
        u == UnitName::Hr
            || u == UnitName::Day
            || u == UnitName::Yr
            || u == UnitName::Ft
            || u == UnitName::Lbf
            || u == UnitName::In
            || u == UnitName::Thou
            || u == UnitName::Mile
            || u == UnitName::Mph,
    ensures
        r == table(u),
    decreases rank(u), 0nat,
{
    match u {
        UnitName::Hr => definition(UnitName::S).scaled(Fixed { mantissa: 3600, scale: 0 }),
        UnitName::Day => definition(UnitName::Hr).scaled(Fixed { mantissa: 24, scale: 0 }),
        UnitName::Yr => definition(UnitName::Day).scaled(Fixed { mantissa: 36525, scale: 2 }),
        UnitName::Ft => definition(UnitName::M).scaled(Fixed { mantissa: 3048, scale: 4 }),
        UnitName::Lbf => definition(UnitName::N).scaled(Fixed { mantissa: 4448, scale: 3 }),
        UnitName::In => definition(UnitName::M).scaled(Fixed { mantissa: 254, scale: 4 }),
        UnitName::Thou => definition(UnitName::In).scaled(Fixed { mantissa: 1, scale: 3 }),
        UnitName::Mile => definition(UnitName::M).scaled(Fixed { mantissa: 1609, scale: 0 }),
        UnitName::Mph => definition(UnitName::M).times(&definition(UnitName::S).pow(-1)).scaled(Fixed { mantissa: 447, scale: 3 }),
        _ => UnitDef::base(SiUnit::default()),
    }
}

/// The unit written `name`, if the registry has one.
pub(crate) fn lookup(name: &str) -> (r: Option<UnitName>)
    ensures
        r == named(name@),
{
    proof {
        reveal_strlit("m");
        assert("m"@ =~= seq!['m']);
        reveal_strlit("s");
        assert("s"@ =~= seq!['s']);
        reveal_strlit("mol");
        assert("mol"@ =~= seq!['m', 'o', 'l']);
        reveal_strlit("A");
        assert("A"@ =~= seq!['A']);
        reveal_strlit("K");
        assert("K"@ =~= seq!['K']);
        reveal_strlit("cd");
        assert("cd"@ =~= seq!['c', 'd']);
        reveal_strlit("kg");
        assert("kg"@ =~= seq!['k', 'g']);
        reveal_strlit("Pa");
        assert("Pa"@ =~= seq!['P', 'a']);
        reveal_strlit("N");
        assert("N"@ =~= seq!['N']);
        reveal_strlit("J");
        assert("J"@ =~= seq!['J']);
        reveal_strlit("W");
        assert("W"@ =~= seq!['W']);
        reveal_strlit("kW");
        assert("kW"@ =~= seq!['k', 'W']);
        reveal_strlit("MW");
        assert("MW"@ =~= seq!['M', 'W']);
        reveal_strlit("km");
        assert("km"@ =~= seq!['k', 'm']);
        reveal_strlit("cm");
        assert("cm"@ =~= seq!['c', 'm']);
        reveal_strlit("mm");
        assert("mm"@ =~= seq!['m', 'm']);
        reveal_strlit("mL");
        assert("mL"@ =~= seq!['m', 'L']);
        reveal_strlit("L");
        assert("L"@ =~= seq!['L']);
        reveal_strlit("ms");
        assert("ms"@ =~= seq!['m', 's']);
        reveal_strlit("us");
        assert("us"@ =~= seq!['u', 's']);
        reveal_strlit("hr");
        assert("hr"@ =~= seq!['h', 'r']);
        reveal_strlit("day");
        assert("day"@ =~= seq!['d', 'a', 'y']);
        reveal_strlit("yr");
        assert("yr"@ =~= seq!['y', 'r']);
        reveal_strlit("ft");
        assert("ft"@ =~= seq!['f', 't']);
        reveal_strlit("lbf");
        assert("lbf"@ =~= seq!['l', 'b', 'f']);
        reveal_strlit("in");
        assert("in"@ =~= seq!['i', 'n']);
        reveal_strlit("thou");
        assert("thou"@ =~= seq!['t', 'h', 'o', 'u']);
        reveal_strlit("mile");
        assert("mile"@ =~= seq!['m', 'i', 'l', 'e']);
        reveal_strlit("mph");
        assert("mph"@ =~= seq!['m', 'p', 'h']);
    }
    if same_chars(name, "m") {
        return Some(UnitName::M);
    }
    if same_chars(name, "s") {
        return Some(UnitName::S);
    }
    if same_chars(name, "mol") {
        return Some(UnitName::Mol);
    }
    if same_chars(name, "A") {
        return Some(UnitName::A);
    }
    if same_chars(name, "K") {
        return Some(UnitName::K);
    }
    if same_chars(name, "cd") {
        return Some(UnitName::Cd);
    }
    if same_chars(name, "kg") {
        return Some(UnitName::Kg);
    }
    if same_chars(name, "Pa") {
        return Some(UnitName::Pa);
    }
    if same_chars(name, "N") {
        return Some(UnitName::N);
    }
    if same_chars(name, "J") {
        return Some(UnitName::J);
    }
    if same_chars(name, "W") {
        return Some(UnitName::W);
    }
    if same_chars(name, "kW") {
        return Some(UnitName::KW);
    }
    if same_chars(name, "MW") {
        return Some(UnitName::MW);
    }
    if same_chars(name, "km") {
        return Some(UnitName::Km);
    }
    if same_chars(name, "cm") {
        return Some(UnitName::Cm);
    }
    if same_chars(name, "mm") {
        return Some(UnitName::Mm);
    }
    if same_chars(name, "mL") {
        return Some(UnitName::ML);
    }
    if same_chars(name, "L") {
        return Some(UnitName::L);
    }
    if same_chars(name, "ms") {
        return Some(UnitName::Ms);
    }
    if same_chars(name, "us") {
        return Some(UnitName::Us);
    }
    if same_chars(name, "hr") {
        return Some(UnitName::Hr);
    }
    if same_chars(name, "day") {
        return Some(UnitName::Day);
    }
    if same_chars(name, "yr") {
        return Some(UnitName::Yr);
    }
    if same_chars(name, "ft") {
        return Some(UnitName::Ft);
    }
    if same_chars(name, "lbf") {
        return Some(UnitName::Lbf);
    }
    if same_chars(name, "in") {
        return Some(UnitName::In);
    }
    if same_chars(name, "thou") {
        return Some(UnitName::Thou);
    }
    if same_chars(name, "mile") {
        return Some(UnitName::Mile);
    }
    if same_chars(name, "mph") {
        return Some(UnitName::Mph);
    }
    None
}

} // verus!
