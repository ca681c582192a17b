//! Exact arithmetic on the values denoted by binary64 encodings.

use crate::binary64::{binary64_value, lemma_value_even, FRACTION_SPAN, SIGN_BIT};
use crate::model::Point2;
use num_bigint::BigInt;
use vstd::arithmetic::power2::pow2;
use vstd::prelude::*;

verus! {

#[verifier::external_type_specification]
#[verifier::external_body]
pub struct ExBigInt(BigInt);

/// The integer held by a `num_bigint::BigInt`.
pub uninterp spec fn big_int_value(value: BigInt) -> int;

/// `num_bigint::BigInt::from(u64)`: the result holds the same integer.
#[verifier::external_body]
pub(crate) fn big_from_u64(value: u64) -> (result: BigInt)
    ensures
        big_int_value(result) == value as int,
{
    BigInt::from(value)
}

/// `num_bigint::BigInt << usize`: the result is the value times `2^shift`.
#[verifier::external_body]
pub(crate) fn big_shl(value: BigInt, shift: u64) -> (result: BigInt)
    requires
        shift < 4096,
    ensures
        big_int_value(result) == big_int_value(value) * pow2(shift as nat),
{
    value << (shift as usize)
}

/// `num_bigint::BigInt >> 1`: the result is half the value rounded toward
/// negative infinity; num-bigint rounds a negative value down when the shift
/// drops a one bit.
#[verifier::external_body]
pub(crate) fn big_half(value: &BigInt) -> (result: BigInt)
    ensures
        big_int_value(result) == big_int_value(*value) / 2,
{
    value >> 1usize
}

/// Unary `-` on `num_bigint::BigInt`: the result is the negated value.
#[verifier::external_body]
pub(crate) fn big_neg(value: BigInt) -> (result: BigInt)
    ensures
        big_int_value(result) == -big_int_value(value),
{
    -value
}

/// `&BigInt + &BigInt` in num-bigint: the result is the exact sum.
#[verifier::external_body]
pub(crate) fn big_add(a: &BigInt, b: &BigInt) -> (result: BigInt)
    ensures
        big_int_value(result) == big_int_value(*a) + big_int_value(*b),
{
    a + b
}

/// `&BigInt - &BigInt` in num-bigint: the result is the exact difference.
#[verifier::external_body]
pub(crate) fn big_sub(a: &BigInt, b: &BigInt) -> (result: BigInt)
    ensures
        big_int_value(result) == big_int_value(*a) - big_int_value(*b),
{
    a - b
}

/// `&BigInt * &BigInt` in num-bigint: the result is the exact product.
#[verifier::external_body]
pub(crate) fn big_mul(a: &BigInt, b: &BigInt) -> (result: BigInt)
    ensures
        big_int_value(result) == big_int_value(*a) * big_int_value(*b),
{
    a * b
}

/// `&BigInt < &BigInt` in num-bigint: whether the first value is smaller.
#[verifier::external_body]
pub(crate) fn big_lt(a: &BigInt, b: &BigInt) -> (result: bool)
    ensures
        result == (big_int_value(*a) < big_int_value(*b)),
{
    a < b
}

/// `num_bigint::BigInt::clone`: the copy holds the same integer.
#[verifier::external_body]
pub(crate) fn big_clone(value: &BigInt) -> (result: BigInt)
    ensures
        big_int_value(result) == big_int_value(*value),
{
    value.clone()
}

/// The sign (-1, 0 or 1) of an integer.
pub open spec fn sign_of(value: int) -> int {
    if value > 0 {
        1
    } else if value < 0 {
        -1
    } else {
        0
    }
}

/// Twice the signed area of the triangle `a, b, c`.
pub open spec fn cross(a: (int, int), b: (int, int), c: (int, int)) -> int {
    (b.0 - a.0) * (c.1 - a.1) - (b.1 - a.1) * (c.0 - a.0)
}

/// Exact orientation: 1 for a left turn, -1 for a right turn, 0 when collinear.
pub open spec fn orientation_spec(a: (int, int), b: (int, int), c: (int, int)) -> int {
    sign_of(cross(a, b, c))
}

/// The exact midpoint of two points.
pub open spec fn midpoint_spec(a: (int, int), b: (int, int)) -> (int, int) {
    ((a.0 + b.0) / 2, (a.1 + b.1) / 2)
}

/// The value denoted by an encoding, as an arbitrary-precision integer.
pub fn exact_coordinate(bits: u64) -> (result: BigInt)
    ensures
        big_int_value(result) == binary64_value(bits),
{
    let low = bits % SIGN_BIT;
    let exponent = low / FRACTION_SPAN;
    let fraction = low % FRACTION_SPAN;
    let magnitude = if exponent == 0 {
        big_from_u64(2 * fraction)
    } else {
        big_shl(big_from_u64(fraction + FRACTION_SPAN), exponent)
    };
    if bits >= SIGN_BIT {
        big_neg(magnitude)
    } else {
        magnitude
    }
}

/// A point with arbitrary-precision coordinates in units of `2^-1075`.
pub struct ExactPoint {
    /// Exact x coordinate.
    pub x: BigInt,
    /// Exact y coordinate.
    pub y: BigInt,
}

impl View for ExactPoint {
    type V = (int, int);

    open spec fn view(&self) -> (int, int) {
        (big_int_value(self.x), big_int_value(self.y))
    }
}

impl ExactPoint {
    /// A copy of this point.
    pub fn copy(&self) -> (result: ExactPoint)
        ensures
            result@ == self@,
    {
        ExactPoint { x: big_clone(&self.x), y: big_clone(&self.y) }
    }

    /// The exact value of a point.
    pub fn from_point(point: Point2) -> (result: ExactPoint)
        ensures
            result@ == point@,
    {
        ExactPoint { x: exact_coordinate(point.x()), y: exact_coordinate(point.y()) }
    }

    /// The midpoint of two exact points, rounded toward negative infinity
    /// when it is not an integer.
    pub fn midpoint_of(a: &ExactPoint, b: &ExactPoint) -> (result: ExactPoint)
        ensures
            result@ == midpoint_spec(a@, b@),
    {
        let sx = big_add(&a.x, &b.x);
        let sy = big_add(&a.y, &b.y);
        ExactPoint { x: big_half(&sx), y: big_half(&sy) }
    }

    /// The exact midpoint of two points.
    pub fn midpoint(a: Point2, b: Point2) -> (result: ExactPoint)
        ensures
            result@ == midpoint_spec(a@, b@),
            2 * result@.0 == a@.0 + b@.0,
            2 * result@.1 == a@.1 + b@.1,
    {
        proof {
            lemma_value_even(a.x_bits());
            lemma_value_even(b.x_bits());
            lemma_value_even(a.y_bits());
            lemma_value_even(b.y_bits());
        }
        let a = ExactPoint::from_point(a);
        let b = ExactPoint::from_point(b);
        let sx = big_add(&a.x, &b.x);
        let sy = big_add(&a.y, &b.y);
        ExactPoint { x: big_half(&sx), y: big_half(&sy) }
    }
}

/// Exact sign of an arbitrary-precision integer.
pub fn big_sign(value: &BigInt) -> (sign: i8)
    ensures
        sign == sign_of(big_int_value(*value)),
{
    let zero = big_from_u64(0);
    if big_lt(&zero, value) {
        1
    } else if big_lt(value, &zero) {
        -1
    } else {
        0
    }
}

/// `a <= b` on arbitrary-precision integers.
pub fn big_le(a: &BigInt, b: &BigInt) -> (result: bool)
    ensures
        result == (big_int_value(*a) <= big_int_value(*b)),
{
    !big_lt(b, a)
}

/// `a == b` on arbitrary-precision integers.
pub fn big_eq(a: &BigInt, b: &BigInt) -> (result: bool)
    ensures
        result == (big_int_value(*a) == big_int_value(*b)),
{
    !big_lt(a, b) && !big_lt(b, a)
}

/// Exact orientation of three exact points.
pub fn exact_orientation(a: &ExactPoint, b: &ExactPoint, c: &ExactPoint) -> (turn: i8)
    ensures
        turn == orientation_spec(a@, b@, c@),
{
    let bax = big_sub(&b.x, &a.x);
    let cay = big_sub(&c.y, &a.y);
    let bay = big_sub(&b.y, &a.y);
    let cax = big_sub(&c.x, &a.x);
    let left = big_mul(&bax, &cay);
    let right = big_mul(&bay, &cax);
    let difference = big_sub(&left, &right);
    big_sign(&difference)
}

/// Exact orientation of three finite points.
pub fn orientation(a: Point2, b: Point2, c: Point2) -> (turn: i8)
    ensures
        turn == orientation_spec(a@, b@, c@),
{
    exact_orientation(
        &ExactPoint::from_point(a),
        &ExactPoint::from_point(b),
        &ExactPoint::from_point(c),
    )
}

/// Exact sign of the determinant `a * d - b * c` of four finite values.
pub fn determinant_sign(a: u64, b: u64, c: u64, d: u64) -> (sign: i8)
    ensures
        sign == sign_of(
            binary64_value(a) * binary64_value(d) - binary64_value(b) * binary64_value(c),
        ),
{
    let ea = exact_coordinate(a);
    let eb = exact_coordinate(b);
    let ec = exact_coordinate(c);
    let ed = exact_coordinate(d);
    let left = big_mul(&ea, &ed);
    let right = big_mul(&eb, &ec);
    let difference = big_sub(&left, &right);
    big_sign(&difference)
}

} // verus!
