//! The IEEE 754 binary64 format, read from its 64-bit pattern.
//!
//! A JSON5 number is carried through the library as the bit pattern of a
//! double. Everything the decoder has to decide about a number (is it finite,
//! is it a whole number, does it fit a signed 64-bit integer) is decided here
//! on the bits alone, in exact integer arithmetic: the value of a finite
//! double is `± magnitude / 2^1074`, where `magnitude` is a natural number.

use vstd::arithmetic::div_mod::*;
use vstd::arithmetic::mul::*;
use vstd::arithmetic::power2::*;
use vstd::bits::*;
use vstd::prelude::*;

verus! {

/// `2^52`: the weight of the implicit leading bit of a normal significand.
pub const HIDDEN_BIT: u64 = 0x10_0000_0000_0000;

/// `2^63`: the sign bit of the pattern.
pub const SIGN_BIT: u64 = 0x8000_0000_0000_0000;

/// The biased exponent that marks infinities and NaNs.
pub const EXPONENT_SPECIAL: u64 = 0x7ff;

/// The biased exponent at which the significand counts whole units: a normal
/// double with this exponent is `significand * 2^0`.
pub const EXPONENT_OF_UNITS: u64 = 1075;

/// The sign bit is set. It is set for `-0.0` too.
pub open spec fn is_negative(bits: u64) -> bool {
    bits >= SIGN_BIT
}

/// The eleven exponent bits, as stored.
pub open spec fn biased_exponent(bits: u64) -> nat {
    ((bits as nat) / (HIDDEN_BIT as nat)) % 0x800
}

/// The fifty-two fraction bits, as stored.
pub open spec fn fraction(bits: u64) -> nat {
    (bits as nat) % (HIDDEN_BIT as nat)
}

/// Neither an infinity nor a NaN.
pub open spec fn is_finite(bits: u64) -> bool {
    biased_exponent(bits) != EXPONENT_SPECIAL
}

/// Not a number: special exponent with a non-zero fraction.
pub open spec fn is_nan(bits: u64) -> bool {
    biased_exponent(bits) == EXPONENT_SPECIAL && fraction(bits) != 0
}

/// Positive or negative infinity: special exponent with a zero fraction.
pub open spec fn is_infinite(bits: u64) -> bool {
    biased_exponent(bits) == EXPONENT_SPECIAL && fraction(bits) == 0
}

/// The significand as a natural number: the fraction bits, with the implicit
/// leading bit in front unless the number is zero or subnormal.
pub open spec fn significand(bits: u64) -> nat {
    if biased_exponent(bits) == 0 {
        fraction(bits)
    } else {
        (HIDDEN_BIT as nat) + fraction(bits)
    }
}

/// How many binary places the significand stands above the smallest unit
/// `2^-1074` of the format.
pub open spec fn places(bits: u64) -> nat {
    if biased_exponent(bits) == 0 {
        0
    } else {
        (biased_exponent(bits) - 1) as nat
    }
}

/// The absolute value of a finite double, in units of `2^-1074`.
pub open spec fn magnitude(bits: u64) -> nat {
    significand(bits) * pow2(places(bits))
}

/// The double is finite and its value is a whole number.
pub open spec fn is_integral(bits: u64) -> bool {
    is_finite(bits) && magnitude(bits) % pow2(1074) == 0
}

/// The value of an integral double, as a mathematical integer. Both zeros
/// have the value 0.
pub open spec fn integer_value(bits: u64) -> int {
    let whole = (magnitude(bits) / pow2(1074)) as int;
    if is_negative(bits) {
        -whole
    } else {
        whole
    }
}

/// The signed 64-bit integer that the double equals exactly, if there is one:
/// the double is finite, has no fractional part, and lies in
/// `[-2^63, 2^63 - 1]`.
pub open spec fn exact_i64(bits: u64) -> Option<i64> {
    if is_integral(bits) && i64::MIN <= integer_value(bits) <= i64::MAX {
        Some(integer_value(bits) as i64)
    } else {
        None
    }
}

/// `1 << k` is `2^k` as long as the bit stays inside the word.
proof fn lemma_one_shl(k: u64)
    requires
        k < 64,
    ensures
        (1u64 << k) == pow2(k as nat),
        0 < pow2(k as nat) <= u64::MAX,
{
    lemma_u64_pow2_no_overflow(k as nat);
    lemma_u64_shl_is_mul(1u64, k);
}

/// A normal double whose exponent is at or above the exponent of units is
/// the whole number `significand * 2^up`.
pub proof fn lemma_scaled_up(bits: u64, up: nat)
    requires
        biased_exponent(bits) == EXPONENT_OF_UNITS + up,
    ensures
        magnitude(bits) % pow2(1074) == 0,
        magnitude(bits) / pow2(1074) == significand(bits) * pow2(up),
{
    let m = significand(bits) as int;
    let unit = pow2(1074) as int;
    let p = pow2(up) as int;
    lemma_pow2_pos(1074);
    lemma_pow2_adds(up, 1074);
    assert(places(bits) == up + 1074);
    lemma_mul_is_associative(m, p, unit);
    assert(magnitude(bits) as int == (m * p) * unit);
    lemma_mod_multiples_basic(m * p, unit);
    lemma_div_multiples_vanish(m * p, unit);
    lemma_mul_is_commutative(m * p, unit);
}

/// A normal double whose exponent is `down` below the exponent of units is
/// `significand / 2^down`: whole exactly when `2^down` divides the
/// significand.
pub proof fn lemma_scaled_down(bits: u64, down: nat)
    requires
        1 <= biased_exponent(bits),
        biased_exponent(bits) + down == EXPONENT_OF_UNITS,
    ensures
        (magnitude(bits) % pow2(1074) == 0) <==> (significand(bits) % pow2(down) == 0),
        magnitude(bits) / pow2(1074) == significand(bits) / pow2(down),
{
    let m = significand(bits) as int;
    let low = pow2(places(bits)) as int;
    let d = pow2(down) as int;
    lemma_pow2_pos(places(bits));
    lemma_pow2_pos(down);
    lemma_pow2_adds(places(bits), down);
    assert(places(bits) + down == 1074);
    assert(pow2(1074) as int == low * d);
    lemma_mul_is_commutative(m, low);
    assert(magnitude(bits) as int == low * m);
    lemma_truncate_middle(m, low, d);
    lemma_div_multiples_vanish_quotient(low, m, d);
    assert((low * (m % d) == 0) <==> (m % d == 0)) by (nonlinear_arith)
        requires
            low > 0,
    ;
}

/// The signed 64-bit integer that a double equals exactly, if there is one.
///
/// `bits` is the bit pattern of the double. The answer is `Some` exactly for a
/// finite double without fractional part whose value lies in
/// `[-2^63, 2^63 - 1]`; the bound is compared exactly, so `2^63` itself has no
/// such integer, and both zeros give `0`.
pub fn to_i64(bits: u64) -> (out: Option<i64>)
    ensures
        out == exact_i64(bits),
{
    let negative: bool = bits >= SIGN_BIT;
    let exponent: u64 = (bits >> 52) & 0x7ff;
    let fraction: u64 = bits & 0xf_ffff_ffff_ffff;
    proof {
        assert((bits >> 52) & 0x7ff == (bits / 0x10_0000_0000_0000) % 0x800) by (bit_vector);
        assert(bits & 0xf_ffff_ffff_ffff == bits % 0x10_0000_0000_0000) by (bit_vector);
        lemma2_to64();
        lemma2_to64_rest();
        lemma_pow2_pos(1074);
    }
    if exponent == EXPONENT_SPECIAL {
        return None;
    }
    if exponent == 0 {
        proof {
            lemma_pow2_strictly_increases(52, 1074);
            assert(magnitude(bits) == fraction * pow2(0));
            if fraction != 0 {
                lemma_small_mod(fraction as nat, pow2(1074));
            } else {
                lemma_basic_div(0, pow2(1074) as int);
            }
        }
        return if fraction == 0 {
            Some(0)
        } else {
            None
        };
    }
    let m: u64 = HIDDEN_BIT + fraction;
    if exponent >= EXPONENT_OF_UNITS {
        let up: u64 = exponent - EXPONENT_OF_UNITS;
        proof {
            lemma_scaled_up(bits, up as nat);
            lemma_pow2_pos(up as nat);
        }
        if up <= 10 {
            proof {
                lemma_one_shl(up);
                if up < 10 {
                    lemma_pow2_strictly_increases(up as nat, 10);
                }
                lemma_mul_upper_bound(m as int, 0x20_0000_0000_0000 - 1, pow2(up as nat) as int, 1024);
            }
            let whole: u64 = m * (1u64 << up);
            if negative {
                Some(-(whole as i64))
            } else {
                Some(whole as i64)
            }
        } else if up == 11 && negative && fraction == 0 {
            Some(i64::MIN)
        } else {
            proof {
                let whole = (m as int) * (pow2(up as nat) as int);
                if up == 11 {
                    assert(whole == m * 2048);
                } else {
                    lemma_pow2_strictly_increases(11, up as nat);
                    lemma_mul_strict_inequality(2048, pow2(up as nat) as int, m as int);
                    lemma_mul_is_commutative(m as int, pow2(up as nat) as int);
                    assert(whole > m * 2048);
                }
                assert(whole >= 0x8000_0000_0000_0000);
                assert(!negative || whole > 0x8000_0000_0000_0000);
            }
            None
        }
    } else {
        let down: u64 = EXPONENT_OF_UNITS - exponent;
        proof {
            lemma_scaled_down(bits, down as nat);
            lemma_pow2_pos(down as nat);
        }
        if down > 52 {
            proof {
                if down > 53 {
                    lemma_pow2_strictly_increases(53, down as nat);
                }
                lemma_small_mod(m as nat, pow2(down as nat));
            }
            None
        } else {
            proof {
                lemma_one_shl(down);
            }
            let unit: u64 = 1u64 << down;
            if m % unit != 0 {
                None
            } else {
                let whole: u64 = m / unit;
                proof {
                    lemma_div_is_ordered_by_denominator(m as int, 1, unit as int);
                }
                if negative {
                    Some(-(whole as i64))
                } else {
                    Some(whole as i64)
                }
            }
        }
    }
}

} // verus!
