//! Trusted bridge to arbitrary-precision integers.
//!
//! Every wrapper below relies on `num_bigint::BigInt`, whose operations are
//! exact integer arithmetic with no overflow.  `big_val` names the integer a
//! `BigInt` holds; each wrapper states the arithmetic it performs over that
//! name.

use vstd::prelude::*;

verus! {

/// The integer value held by an arbitrary-precision integer.
pub uninterp spec fn big_val(b: num_bigint::BigInt) -> int;

#[verifier::external_type_specification]
#[verifier::external_body]
pub struct ExBigInt(num_bigint::BigInt);

/// Relies on `num_bigint::BigInt::from(i64)`: the result holds exactly the
/// given value.
#[verifier::external_body]
pub(crate) fn big_from_i64(x: i64) -> (r: num_bigint::BigInt)
    ensures
        big_val(r) == x as int,
{
    num_bigint::BigInt::from(x)
}

/// Relies on `num_bigint::BigInt::clone`: the copy holds the same value.
#[verifier::external_body]
pub(crate) fn big_clone(a: &num_bigint::BigInt) -> (r: num_bigint::BigInt)
    ensures
        big_val(r) == big_val(*a),
{
    a.clone()
}

/// Relies on `Add` for `&num_bigint::BigInt`: exact integer addition.
#[verifier::external_body]
pub(crate) fn big_add(a: &num_bigint::BigInt, b: &num_bigint::BigInt) -> (r: num_bigint::BigInt)
    ensures
        big_val(r) == big_val(*a) + big_val(*b),
{
    a + b
}

/// Relies on `Sub` for `&num_bigint::BigInt`: exact integer subtraction.
#[verifier::external_body]
pub(crate) fn big_sub(a: &num_bigint::BigInt, b: &num_bigint::BigInt) -> (r: num_bigint::BigInt)
    ensures
        big_val(r) == big_val(*a) - big_val(*b),
{
    a - b
}

/// Relies on `Mul` for `&num_bigint::BigInt`: exact integer multiplication.
#[verifier::external_body]
pub(crate) fn big_mul(a: &num_bigint::BigInt, b: &num_bigint::BigInt) -> (r: num_bigint::BigInt)
    ensures
        big_val(r) == big_val(*a) * big_val(*b),
{
    a * b
}

/// Relies on `Neg` for `&num_bigint::BigInt`: exact integer negation.
#[verifier::external_body]
pub(crate) fn big_neg(a: &num_bigint::BigInt) -> (r: num_bigint::BigInt)
    ensures
        big_val(r) == -big_val(*a),
{
    -a
}

/// Relies on `PartialEq` for `num_bigint::BigInt`: equality of the held
/// values.
#[verifier::external_body]
pub(crate) fn big_eq(a: &num_bigint::BigInt, b: &num_bigint::BigInt) -> (r: bool)
    ensures
        r <==> big_val(*a) == big_val(*b),
{
    a == b
}

/// Relies on `PartialOrd` for `num_bigint::BigInt`: order of the held
/// values.
#[verifier::external_body]
pub(crate) fn big_le(a: &num_bigint::BigInt, b: &num_bigint::BigInt) -> (r: bool)
    ensures
        r <==> big_val(*a) <= big_val(*b),
{
    a <= b
}

/// Relies on `PartialOrd` for `num_bigint::BigInt`: strict order of the held
/// values.
#[verifier::external_body]
pub(crate) fn big_lt(a: &num_bigint::BigInt, b: &num_bigint::BigInt) -> (r: bool)
    ensures
        r <==> big_val(*a) < big_val(*b),
{
    a < b
}

/// Relies on `Shr<u32>` for `&num_bigint::BigInt`: for a non-negative value
/// a right shift by one halves it, rounding down.
#[verifier::external_body]
pub(crate) fn big_half(a: &num_bigint::BigInt) -> (r: num_bigint::BigInt)
    requires
        big_val(*a) >= 0,
    ensures
        big_val(r) == big_val(*a) / 2,
{
    a >> 1u32
}

} // verus!
