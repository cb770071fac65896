use vstd::prelude::*;

verus! {

/// `<u128 as num::Zero>::zero`: the additive identity of `u128`, which is 0.
#[verifier::external_body]
pub(crate) fn zero_u128() -> (r: u128)
    ensures
        r == 0,
{
    num::Zero::zero()
}

/// `<u32 as num::Zero>::zero`: the additive identity of `u32`, which is 0.
#[verifier::external_body]
pub(crate) fn zero_u32() -> (r: u32)
    ensures
        r == 0,
{
    num::Zero::zero()
}

/// `<u32 as num::One>::one`: the multiplicative identity of `u32`, which is 1.
#[verifier::external_body]
pub(crate) fn one_u32() -> (r: u32)
    ensures
        r == 1,
{
    num::One::one()
}

/// `<u128 as num::CheckedAdd>::checked_add`: the sum where it fits in a
/// `u128`, and `None` where it does not.
#[verifier::external_body]
pub(crate) fn checked_add_u128(a: u128, b: u128) -> (r: Option<u128>)
    ensures
        a + b <= u128::MAX ==> r == Some((a + b) as u128),
        a + b > u128::MAX ==> r.is_none(),
{
    num::CheckedAdd::checked_add(&a, &b)
}

/// `<u128 as num::CheckedSub>::checked_sub`: the difference where it is not
/// negative, and `None` where it is.
#[verifier::external_body]
pub(crate) fn checked_sub_u128(a: u128, b: u128) -> (r: Option<u128>)
    ensures
        a >= b ==> r == Some((a - b) as u128),
        a < b ==> r.is_none(),
{
    num::CheckedSub::checked_sub(&a, &b)
}

} // verus!
