use o3json5::binary64::to_i64;
use o3json5::bridge::val_to_python;
use o3json5::host::HostValue;
use o3json5::value::Val;

fn number(x: f64) -> Val {
    Val::Number(x.to_bits())
}

fn float(x: f64) -> HostValue {
    HostValue::Float(x.to_bits())
}

/// The same decision, made in floating point: 2^63 is exact as a double, so
/// the comparison below is the exact range test.
fn reference(x: f64) -> Option<i64> {
    if x.is_finite() && x.fract() == 0.0 && x >= -9223372036854775808.0 && x < 9223372036854775808.0
    {
        Some(x as i64)
    } else {
        None
    }
}

#[test]
fn one_point_zero_is_the_integer_one() {
    assert_eq!(val_to_python(&number(1.0)), HostValue::Int(1));
}

#[test]
fn one_point_five_stays_a_float() {
    assert_eq!(val_to_python(&number(1.5)), float(1.5));
}

#[test]
fn both_zeros_are_the_integer_zero() {
    assert_eq!(val_to_python(&number(0.0)), HostValue::Int(0));
    assert_eq!(val_to_python(&number(-0.0)), HostValue::Int(0));
}

#[test]
fn negative_whole_numbers_are_integers() {
    assert_eq!(val_to_python(&number(-1.0)), HostValue::Int(-1));
    assert_eq!(val_to_python(&number(-42.0)), HostValue::Int(-42));
}

#[test]
fn two_to_the_63_is_a_float() {
    let x = 9223372036854775808.0_f64;
    assert_eq!(val_to_python(&number(x)), float(x));
    assert_eq!(to_i64(x.to_bits()), None);
}

#[test]
fn largest_double_below_two_to_the_63_is_an_integer() {
    let x = f64::from_bits(9223372036854775808.0_f64.to_bits() - 1);
    assert_eq!(x, 9223372036854774784.0);
    assert_eq!(val_to_python(&number(x)), HostValue::Int(9223372036854774784));
}

#[test]
fn minus_two_to_the_63_is_the_least_integer() {
    let x = -9223372036854775808.0_f64;
    assert_eq!(val_to_python(&number(x)), HostValue::Int(i64::MIN));
}

#[test]
fn below_minus_two_to_the_63_is_a_float() {
    let x = f64::from_bits((-9223372036854775808.0_f64).to_bits() + 1);
    assert_eq!(x, -9223372036854777856.0);
    assert_eq!(val_to_python(&number(x)), float(x));
}

#[test]
fn nan_and_infinities_stay_floats() {
    for x in [f64::NAN, f64::INFINITY, f64::NEG_INFINITY] {
        assert_eq!(to_i64(x.to_bits()), None);
        assert_eq!(val_to_python(&number(x)), HostValue::Float(x.to_bits()));
    }
    let quiet_negative_nan = 0xfff8_0000_0000_0001_u64;
    assert_eq!(to_i64(quiet_negative_nan), None);
}

#[test]
fn subnormals_and_small_fractions_stay_floats() {
    assert_eq!(to_i64(1), None);
    assert_eq!(to_i64(f64::MIN_POSITIVE.to_bits()), None);
    assert_eq!(to_i64(0.5_f64.to_bits()), None);
    assert_eq!(to_i64((-0.25_f64).to_bits()), None);
    assert_eq!(to_i64(f64::EPSILON.to_bits()), None);
}

#[test]
fn whole_numbers_around_two_to_the_52_and_53() {
    assert_eq!(to_i64(4503599627370496.0_f64.to_bits()), Some(4503599627370496));
    assert_eq!(to_i64(4503599627370497.0_f64.to_bits()), Some(4503599627370497));
    assert_eq!(to_i64(4503599627370495.5_f64.to_bits()), None);
    assert_eq!(to_i64(9007199254740992.0_f64.to_bits()), Some(9007199254740992));
    assert_eq!(to_i64(9007199254740994.0_f64.to_bits()), Some(9007199254740994));
    assert_eq!(to_i64((-9007199254740994.0_f64).to_bits()), Some(-9007199254740994));
}

#[test]
fn huge_doubles_stay_floats() {
    assert_eq!(to_i64(1e19_f64.to_bits()), None);
    assert_eq!(to_i64(1e300_f64.to_bits()), None);
    assert_eq!(to_i64(f64::MAX.to_bits()), None);
    assert_eq!(to_i64(f64::MIN.to_bits()), None);
}

#[test]
fn small_whole_numbers_are_exact() {
    for i in -1000_i64..=1000 {
        assert_eq!(to_i64((i as f64).to_bits()), Some(i));
    }
    assert_eq!(to_i64(2.0_f64.to_bits()), Some(2));
    assert_eq!(to_i64(3.0_f64.to_bits()), Some(3));
    assert_eq!(to_i64(1e15_f64.to_bits()), Some(1_000_000_000_000_000));
    assert_eq!(to_i64(1000000000000000.5_f64.to_bits()), None);
}

#[test]
fn every_power_of_two_is_decided_exactly() {
    for e in 0..63 {
        let x = (1u64 << e) as f64;
        assert_eq!(to_i64(x.to_bits()), Some(1i64 << e));
        assert_eq!(to_i64((-x).to_bits()), Some(-(1i64 << e)));
        let half = x / 2.0 + 0.25;
        assert_eq!(to_i64(half.to_bits()), reference(half));
    }
}

#[test]
fn agrees_with_floating_point_on_many_patterns() {
    let mut state: u64 = 0x9e37_79b9_7f4a_7c15;
    for _ in 0..200_000 {
        state = state.wrapping_mul(6364136223846793005).wrapping_add(1442695040888963407);
        let bits = state ^ (state >> 29);
        assert_eq!(to_i64(bits), reference(f64::from_bits(bits)), "bits {:#018x}", bits);
    }
}

#[test]
fn agrees_with_floating_point_near_the_integers() {
    let mut state: u64 = 12345;
    for _ in 0..200_000 {
        state = state.wrapping_mul(6364136223846793005).wrapping_add(1442695040888963407);
        let exponent = 1020 + (state >> 57);
        let fraction = if state & 1 == 0 {
            (state >> 6) & 0xf_ffff_ffff_ffff
        } else {
            ((state >> 6) & 0xf_ffff_ffff_ffff) & !((1u64 << ((state >> 1) % 53)) - 1)
        };
        let sign = (state >> 5) & 1;
        let bits = (sign << 63) | (exponent << 52) | fraction;
        assert_eq!(to_i64(bits), reference(f64::from_bits(bits)), "bits {:#018x}", bits);
    }
}
