//! Arbitrary-precision integers.
//!
//! The integers of a value tree are `num_bigint::BigInt`s. Verus sees such a
//! number only through [`int_of`], the mathematical integer it stands for; the
//! functions below are the few operations of the big-integer crate that the
//! library relies on, each with the contract that it is trusted to keep.

use num_bigint::BigInt;
use num_traits::ToPrimitive;
use num_traits::Zero;
use vstd::prelude::*;

verus! {

/// `num_bigint::BigInt`, carried as it is: nothing is claimed of what is
/// inside.
#[verifier::external_type_specification]
#[verifier::external_body]
pub struct ExBigInt(num_bigint::BigInt);

/// The mathematical integer that a big integer stands for.
pub uninterp spec fn int_of(n: BigInt) -> int;

/// The character of a decimal digit.
pub open spec fn digit_char(d: int) -> char
    recommends
        0 <= d < 10,
{
    ((48 + d) as u8) as char
}

/// The decimal digits of a natural number, most significant first, without
/// leading zeros; zero is `"0"`.
pub open spec fn digits_text(n: nat) -> Seq<char>
    decreases n,
{
    if n < 10 {
        seq![digit_char(n as int)]
    } else {
        digits_text(n / 10).push(digit_char((n % 10) as int))
    }
}

/// The decimal text of an integer: a minus sign for a negative number, then
/// the digits of its magnitude.
pub open spec fn decimal_text(n: int) -> Seq<char> {
    if n < 0 {
        seq!['-'] + digits_text((-n) as nat)
    } else {
        digits_text(n as nat)
    }
}

/// `BigInt::from` on an `i64`: the big integer with the same value.
#[verifier::external_body]
pub(crate) fn integer_from_i64(v: i64) -> (n: BigInt)
    ensures
        int_of(n) == v,
{
    BigInt::from(v)
}

/// `BigInt::from` on a `u64`: the big integer with the same value.
#[verifier::external_body]
pub(crate) fn integer_from_u64(v: u64) -> (n: BigInt)
    ensures
        int_of(n) == v,
{
    BigInt::from(v)
}

/// `ToPrimitive::to_i64` of a `BigInt`: the value where it lies within the
/// range of `i64`, nothing otherwise.
#[verifier::external_body]
pub(crate) fn integer_to_i64(n: &BigInt) -> (r: Option<i64>)
    ensures
        r == (if i64::MIN <= int_of(*n) <= i64::MAX {
            Some(int_of(*n) as i64)
        } else {
            None
        }),
{
    n.to_i64()
}

/// `ToPrimitive::to_u64` of a `BigInt`: the value where it lies within the
/// range of `u64`, nothing otherwise.
#[verifier::external_body]
pub(crate) fn integer_to_u64(n: &BigInt) -> (r: Option<u64>)
    ensures
        r == (if 0 <= int_of(*n) <= u64::MAX {
            Some(int_of(*n) as u64)
        } else {
            None
        }),
{
    n.to_u64()
}

/// `Zero::is_zero` of a `BigInt`: whether the number is zero.
#[verifier::external_body]
pub(crate) fn integer_is_zero(n: &BigInt) -> (r: bool)
    ensures
        r == (int_of(*n) == 0),
{
    n.is_zero()
}

/// `BigInt::eq`: two big integers are equal exactly when they stand for the
/// same number.
#[verifier::external_body]
pub(crate) fn integer_eq(a: &BigInt, b: &BigInt) -> (r: bool)
    ensures
        r == (int_of(*a) == int_of(*b)),
{
    a.eq(b)
}

/// `BigInt::clone`: a copy that stands for the same number.
#[verifier::external_body]
pub(crate) fn integer_clone(n: &BigInt) -> (r: BigInt)
    ensures
        int_of(r) == int_of(*n),
{
    n.clone()
}

/// `BigInt`'s `Display` through `to_string`: the decimal text of the number.
#[verifier::external_body]
pub(crate) fn integer_text(n: &BigInt) -> (r: String)
    ensures
        r@ == decimal_text(int_of(*n)),
{
    n.to_string()
}

} // verus!
