use convert::lexer::Fixed;
use convert::units::{Magnitude, SiUnit, SiValue};

fn magnitude(m: &Magnitude) -> f64 {
    match m {
        Magnitude::Literal(f) => f.mantissa as f64 / 10f64.powi(f.scale as i32),
        Magnitude::Product(a, b) => magnitude(a) * magnitude(b),
        Magnitude::Sum(a, b) => magnitude(a) + magnitude(b),
        Magnitude::Power(a, k) => magnitude(a).powi(*k as i32),
    }
}

fn meters(n: i64) -> SiUnit {
    SiUnit { meter: n, ..SiUnit::default() }
}

#[test]
fn registry_resolves_base_units() {
    for (name, unit) in [
        ("m", meters(1)),
        ("s", SiUnit { second: 1, ..SiUnit::default() }),
        ("mol", SiUnit { mole: 1, ..SiUnit::default() }),
        ("A", SiUnit { ampere: 1, ..SiUnit::default() }),
        ("K", SiUnit { kelvin: 1, ..SiUnit::default() }),
        ("cd", SiUnit { candela: 1, ..SiUnit::default() }),
        ("kg", SiUnit { kilogram: 1, ..SiUnit::default() }),
    ] {
        let v = SiValue::try_from(name).unwrap();
        assert_eq!(v.unit, unit);
        assert_eq!(magnitude(&v.real), 1.0);
    }
}

#[test]
fn registry_scales_are_exact_decimals() {
    let v = SiValue::try_from("ft").unwrap();
    assert_eq!(v.real, Magnitude::Literal(Fixed { mantissa: 3048, scale: 4 }));
    let v = SiValue::try_from("thou").unwrap();
    assert_eq!(v.real, Magnitude::Literal(Fixed { mantissa: 254, scale: 7 }));
    let v = SiValue::try_from("yr").unwrap();
    assert_eq!(v.real, Magnitude::Literal(Fixed { mantissa: 3_155_760_000, scale: 2 }));
    let v = SiValue::try_from("mL").unwrap();
    assert_eq!(v.real, Magnitude::Literal(Fixed { mantissa: 1, scale: 6 }));
    assert_eq!(v.unit, meters(3));
}

#[test]
fn pow_scales_exponents_and_magnitude() {
    let cm = SiValue::try_from("cm").unwrap();
    let v = cm.pow(3).unwrap();
    assert_eq!(v.unit, meters(3));
    assert!((magnitude(&v.real) - 1e-6).abs() < 1e-18);
    let s = SiValue::try_from("s").unwrap().pow(-2).unwrap();
    assert_eq!(s.unit, SiUnit { second: -2, ..SiUnit::default() });
}

#[test]
fn mul_adds_exponents() {
    let n = SiValue::try_from("N").unwrap();
    let m = SiValue::try_from("m").unwrap();
    let j = n.mul(m).unwrap();
    assert_eq!(j.unit, SiValue::try_from("J").unwrap().unit);
}

#[test]
fn add_needs_equal_dimensions() {
    let a = SiValue::try_from("m").unwrap();
    let b = SiValue::try_from("ft").unwrap();
    let c = a.add(b).unwrap();
    assert!((magnitude(&c.real) - 1.3048).abs() < 1e-12);
    let a = SiValue::try_from("m").unwrap();
    let s = SiValue::try_from("s").unwrap();
    assert!(a.add(s).is_err());
}

#[test]
fn scale_keeps_dimension() {
    let v = SiValue::try_from("km").unwrap().scale(Fixed { mantissa: -1, scale: 0 });
    assert_eq!(v.unit, meters(1));
    assert_eq!(magnitude(&v.real), -1000.0);
}

#[test]
fn scalars_are_dimensionless() {
    let v = SiValue::from(Fixed { mantissa: 7, scale: 0 });
    assert_eq!(v.unit, SiUnit::default());
    assert_eq!(magnitude(&v.real), 7.0);
}

#[test]
fn suffix_lists_nonzero_exponents_in_order() {
    let u = SiUnit { meter: 1, second: -2, kilogram: 1, ..SiUnit::default() };
    assert_eq!(u.suffix(), " m1 s-2 kg1");
    assert_eq!(SiUnit::default().suffix(), "");
    let u = SiUnit { mole: 12, ampere: -1, kelvin: 3, candela: 2, ..SiUnit::default() };
    assert_eq!(u.suffix(), " mol12 A-1 K3 cd2");
    let u = SiUnit { meter: i64::MIN, ..SiUnit::default() };
    assert_eq!(u.suffix(), " m-9223372036854775808");
}
