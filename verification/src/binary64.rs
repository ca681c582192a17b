//! Exact meaning of IEEE 754 binary64 encodings.
//!
//! A finite binary64 value is an integer multiple of `2^-1074`. Values are
//! modelled here as integers in units of `2^-1075`, so that every finite
//! value is an even integer and the midpoint of two values is an integer too.

use vstd::arithmetic::div_mod::*;
use vstd::arithmetic::mul::*;
use vstd::arithmetic::power2::*;
use vstd::prelude::*;

verus! {

/// The sign bit of a binary64 encoding.
pub const SIGN_BIT: u64 = 0x8000_0000_0000_0000;

/// `2^52`: the span of the fraction field.
pub const FRACTION_SPAN: u64 = 0x0010_0000_0000_0000;

/// Encoding of positive infinity; every finite magnitude encodes below it.
pub const INFINITY_MAGNITUDE: u64 = 0x7FF0_0000_0000_0000;

/// The encoding without its sign bit.
pub open spec fn magnitude_bits(bits: u64) -> nat {
    (bits % SIGN_BIT) as nat
}

/// Whether the sign bit is set.
pub open spec fn sign_is_negative(bits: u64) -> bool {
    bits >= SIGN_BIT
}

/// Whether the encoding denotes a finite number (neither infinite nor NaN).
pub open spec fn is_finite_bits(bits: u64) -> bool {
    magnitude_bits(bits) < INFINITY_MAGNITUDE
}

/// Magnitude, in units of `2^-1075`, of a sign-less finite encoding.
pub open spec fn magnitude_value(low: nat) -> nat {
    let exponent = low / (FRACTION_SPAN as nat);
    let fraction = low % (FRACTION_SPAN as nat);
    if exponent == 0 {
        2 * fraction
    } else {
        (fraction + FRACTION_SPAN as nat) * pow2(exponent)
    }
}

/// The exact value of a finite encoding, in units of `2^-1075`.
pub open spec fn binary64_value(bits: u64) -> int {
    let m = magnitude_value(magnitude_bits(bits)) as int;
    if sign_is_negative(bits) {
        -m
    } else {
        m
    }
}

/// An integer key whose order is the numeric order of finite encodings.
pub open spec fn order_key_spec(bits: u64) -> int {
    if sign_is_negative(bits) {
        -(magnitude_bits(bits) as int)
    } else {
        magnitude_bits(bits) as int
    }
}

/// Computes [`order_key_spec`].
pub fn order_key(bits: u64) -> (key: i64)
    ensures
        key == order_key_spec(bits),
{
    let low = bits % SIGN_BIT;
    if bits >= SIGN_BIT {
        -(low as i64)
    } else {
        low as i64
    }
}

/// Whether `bits` encodes a finite number.
pub fn is_finite(bits: u64) -> (finite: bool)
    ensures
        finite == is_finite_bits(bits),
{
    bits % SIGN_BIT < INFINITY_MAGNITUDE
}

/// Sign-less encodings order magnitudes strictly.
pub proof fn lemma_magnitude_strictly_increasing(low1: nat, low2: nat)
    requires
        low1 < low2,
        low2 < INFINITY_MAGNITUDE,
    ensures
        magnitude_value(low1) < magnitude_value(low2),
{
    let k = FRACTION_SPAN as nat;
    let e1 = low1 / k;
    let f1 = low1 % k;
    let e2 = low2 / k;
    let f2 = low2 % k;
    lemma_fundamental_div_mod(low1 as int, k as int);
    lemma_fundamental_div_mod(low2 as int, k as int);
    lemma_div_is_ordered(low1 as int, low2 as int, k as int);
    if e1 == e2 {
        assert(f1 < f2);
        if e1 != 0 {
            lemma_pow2_pos(e1);
            lemma_mul_strict_inequality((f1 + k) as int, (f2 + k) as int, pow2(e1) as int);
        }
    } else {
        assert(e1 < e2);
        lemma_pow2_pos(e1);
        lemma_pow2_unfold(e2);
        if e1 == 0 {
            // 2 * f1 < 2 * k <= k * pow2(e2)
            assert(pow2((e2 - 1) as nat) >= 1) by {
                lemma_pow2_pos((e2 - 1) as nat);
            }
            lemma_mul_inequality(1, pow2((e2 - 1) as nat) as int, 2 * k as int);
            lemma_mul_inequality(k as int, (f2 + k) as int, pow2(e2) as int);
            assert(k * pow2(e2) == 2 * k * pow2((e2 - 1) as nat)) by {
                lemma_mul_is_associative(2, k as int, pow2((e2 - 1) as nat) as int);
                lemma_mul_is_commutative(2, k as int);
                lemma_mul_is_associative(k as int, 2, pow2((e2 - 1) as nat) as int);
            }
        } else {
            // (f1 + k) * pow2(e1) < 2k * pow2(e1) <= k * pow2(e2) <= (f2 + k) * pow2(e2)
            lemma_mul_strict_inequality((f1 + k) as int, 2 * k as int, pow2(e1) as int);
            if e1 + 1 < e2 {
                lemma_pow2_strictly_increases(e1, (e2 - 1) as nat);
            }
            assert(pow2(e1) <= pow2((e2 - 1) as nat));
            lemma_mul_inequality(pow2(e1) as int, pow2((e2 - 1) as nat) as int, 2 * k as int);
            lemma_mul_is_commutative(pow2(e1) as int, 2 * k as int);
            lemma_mul_is_commutative(pow2((e2 - 1) as nat) as int, 2 * k as int);
            lemma_mul_inequality(k as int, (f2 + k) as int, pow2(e2) as int);
            assert(k * pow2(e2) == 2 * k * pow2((e2 - 1) as nat)) by {
                lemma_mul_is_associative(2, k as int, pow2((e2 - 1) as nat) as int);
                lemma_mul_is_commutative(2, k as int);
                lemma_mul_is_associative(k as int, 2, pow2((e2 - 1) as nat) as int);
            }
        }
    }
}

/// Only the zero encodings have zero magnitude.
pub proof fn lemma_magnitude_zero(low: nat)
    requires
        low < INFINITY_MAGNITUDE,
    ensures
        (magnitude_value(low) == 0) == (low == 0),
{
    if low > 0 {
        lemma_magnitude_strictly_increasing(0, low);
    }
}

/// On finite encodings, the order key orders exactly as the denoted values.
pub proof fn lemma_order_key(a: u64, b: u64)
    requires
        is_finite_bits(a),
        is_finite_bits(b),
    ensures
        (binary64_value(a) < binary64_value(b)) == (order_key_spec(a) < order_key_spec(b)),
        (binary64_value(a) == binary64_value(b)) == (order_key_spec(a) == order_key_spec(b)),
{
    let la = magnitude_bits(a);
    let lb = magnitude_bits(b);
    lemma_magnitude_zero(la);
    lemma_magnitude_zero(lb);
    if la < lb {
        lemma_magnitude_strictly_increasing(la, lb);
    } else if lb < la {
        lemma_magnitude_strictly_increasing(lb, la);
    }
}

/// Every finite value is an even number of `2^-1075` units.
pub proof fn lemma_value_even(bits: u64)
    ensures
        binary64_value(bits) % 2 == 0,
{
    let low = magnitude_bits(bits);
    let k = FRACTION_SPAN as nat;
    let e = low / k;
    let f = low % k;
    if e != 0 {
        lemma_pow2_unfold(e);
        lemma_mul_is_associative((f + k) as int, 2, pow2((e - 1) as nat) as int);
        lemma_mul_is_commutative((f + k) as int, 2);
        lemma_mul_is_associative(2, (f + k) as int, pow2((e - 1) as nat) as int);
    }
}

} // verus!
