//! `num_bigint::BigUint` as seen by the verifier: an opaque value whose
//! little-endian base-2^32 digits are named, and the arithmetic that the
//! evaluator needs, each with a contract over the value those digits denote.

use num_bigint::BigUint;
use num_traits::cast::ToPrimitive;
use num_traits::pow::Pow;
use vstd::arithmetic::power::pow;
use vstd::prelude::*;

verus! {

#[verifier::external_type_specification]
#[verifier::external_body]
pub struct ExBigUint(BigUint);

/// The little-endian base-2^32 digits held by a `BigUint`
/// (what `BigUint::to_u32_digits` hands out).
pub uninterp spec fn digits_of(b: BigUint) -> Seq<u32>;

/// The natural number denoted by little-endian base-2^32 digits.
pub open spec fn digits_value(d: Seq<u32>) -> nat
    decreases d.len(),
{
    if d.len() == 0 {
        0
    } else {
        d[0] as nat + 0x1_0000_0000 * digits_value(d.subrange(1, d.len() as int))
    }
}

/// The natural number that a `BigUint` stands for.
pub open spec fn value_of(b: BigUint) -> nat {
    digits_value(digits_of(b))
}

/// Relies on `impl From<u32> for BigUint`: the result denotes `v`.
#[verifier::external_body]
pub(crate) fn from_u32(v: u32) -> (r: BigUint)
    ensures
        digits_value(digits_of(r)) == v,
{
    BigUint::from(v)
}

/// Relies on `impl Clone for BigUint`: the copy holds the same digits.
#[verifier::external_body]
pub(crate) fn big_clone(a: &BigUint) -> (r: BigUint)
    ensures
        digits_value(digits_of(r)) == digits_value(digits_of(*a)),
{
    a.clone()
}

/// Relies on `impl PartialEq for BigUint`: digits are kept normalised, so two
/// values compare equal exactly when they denote the same number.
#[verifier::external_body]
pub(crate) fn big_eq(a: &BigUint, b: &BigUint) -> (r: bool)
    ensures
        r == (digits_value(digits_of(*a)) == digits_value(digits_of(*b))),
{
    a == b
}

/// Relies on `impl Add<BigUint> for BigUint`: the exact sum.
#[verifier::external_body]
pub(crate) fn big_add(a: BigUint, b: BigUint) -> (r: BigUint)
    ensures
        digits_value(digits_of(r)) == digits_value(digits_of(a)) + digits_value(digits_of(b)),
{
    a + b
}

/// Relies on `impl Sub<BigUint> for BigUint`: the exact difference; it
/// panics when `b` exceeds `a`, so that case is excluded.
#[verifier::external_body]
pub(crate) fn big_sub(a: BigUint, b: BigUint) -> (r: BigUint)
    requires
        digits_value(digits_of(b)) <= digits_value(digits_of(a)),
    ensures
        digits_value(digits_of(r)) == digits_value(digits_of(a)) - digits_value(digits_of(b)),
{
    a - b
}

/// Relies on `impl Mul<BigUint> for BigUint`: the exact product.
#[verifier::external_body]
pub(crate) fn big_mul(a: BigUint, b: BigUint) -> (r: BigUint)
    ensures
        digits_value(digits_of(r)) == digits_value(digits_of(a)) * digits_value(digits_of(b)),
{
    a * b
}

/// Relies on `impl Pow<u128> for &BigUint`: `base` raised to `e`, in full
/// precision.
#[verifier::external_body]
pub(crate) fn big_pow(base: &BigUint, e: u128) -> (r: BigUint)
    ensures
        digits_value(digits_of(r)) == pow(digits_value(digits_of(*base)) as int, e as nat),
{
    Pow::pow(base, e)
}

/// Relies on `ToPrimitive::to_u32` for `BigUint` (through `to_u64`): `Some`
/// exactly when the number fits in a `u32`.
#[verifier::external_body]
pub(crate) fn big_to_u32(a: &BigUint) -> (r: Option<u32>)
    ensures
        r == (if digits_value(digits_of(*a)) <= u32::MAX {
            Some(digits_value(digits_of(*a)) as u32)
        } else {
            None::<u32>
        }),
{
    a.to_u32()
}

/// Relies on `ToPrimitive::to_u128` for `BigUint`: `Some` exactly when the
/// number fits in a `u128`.
#[verifier::external_body]
pub(crate) fn big_to_u128(a: &BigUint) -> (r: Option<u128>)
    ensures
        r == (if digits_value(digits_of(*a)) <= u128::MAX {
            Some(digits_value(digits_of(*a)) as u128)
        } else {
            None::<u128>
        }),
{
    a.to_u128()
}

} // verus!
