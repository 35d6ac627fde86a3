//! Decimal arithmetic, carried out by `rust_decimal`.
//!
//! Every function here hands its arguments to `rust_decimal::Decimal` and
//! brings the result back as an [`Amount`]. Their contracts are taken on
//! trust from that crate; nothing in this file is proved.

use crate::amount::{dec_value, Amount, Dec};
use rust_decimal::prelude::ToPrimitive;
use rust_decimal::Decimal;
use vstd::prelude::*;

verus! {

/// What `Decimal::checked_add` returns for two amounts.
pub uninterp spec fn decimal_sum(a: Dec, b: Dec) -> Option<Dec>;

/// What `Decimal::checked_sub` returns for two amounts.
pub uninterp spec fn decimal_difference(a: Dec, b: Dec) -> Option<Dec>;

/// What `Decimal::checked_mul` returns for two amounts.
pub uninterp spec fn decimal_product(a: Dec, b: Dec) -> Option<Dec>;

/// What `Decimal::checked_div` returns for two amounts.
pub uninterp spec fn decimal_quotient(a: Dec, b: Dec) -> Option<Dec>;

/// `Decimal::from(n)` for an unsigned 64-bit integer: the whole number `n`,
/// with no fractional digits.
#[verifier::external_body]
pub(crate) fn from_u64(n: u64) -> (r: Amount)
    ensures
        r@ == Dec::integer(n as int),
{
    let d = Decimal::from(n);
    Amount { mantissa: d.mantissa(), scale: d.scale() }
}

/// `Decimal::checked_add`: the sum of two amounts, `None` on overflow.
/// Claimed: the result depends on the two arguments alone.
#[verifier::external_body]
pub(crate) fn checked_add(a: Amount, b: Amount) -> (r: Option<Amount>)
    requires
        a@.wf(),
        b@.wf(),
    ensures
        dec_value(r) == decimal_sum(a@, b@),
        r matches Some(sum) ==> sum@.wf(),
{
    let x = Decimal::from_i128_with_scale(a.mantissa, a.scale);
    let y = Decimal::from_i128_with_scale(b.mantissa, b.scale);
    x.checked_add(y).map(|d| Amount { mantissa: d.mantissa(), scale: d.scale() })
}

/// `Decimal::checked_sub`: the difference of two amounts, `None` on
/// overflow. Claimed: the result depends on the two arguments alone.
#[verifier::external_body]
pub(crate) fn checked_sub(a: Amount, b: Amount) -> (r: Option<Amount>)
    requires
        a@.wf(),
        b@.wf(),
    ensures
        dec_value(r) == decimal_difference(a@, b@),
        r matches Some(difference) ==> difference@.wf(),
{
    let x = Decimal::from_i128_with_scale(a.mantissa, a.scale);
    let y = Decimal::from_i128_with_scale(b.mantissa, b.scale);
    x.checked_sub(y).map(|d| Amount { mantissa: d.mantissa(), scale: d.scale() })
}

/// `Decimal::checked_mul`: the product of two amounts, `None` on overflow.
/// Claimed: a zero factor gives `Decimal::ZERO`; two non-zero factors whose
/// mantissas multiply to at most 96 bits and whose scales add up to at most
/// 28 give exactly that mantissa and that scale; otherwise the result
/// depends on the two arguments alone.
#[verifier::external_body]
pub(crate) fn checked_mul(a: Amount, b: Amount) -> (r: Option<Amount>)
    requires
        a@.wf(),
        b@.wf(),
    ensures
        dec_value(r) == decimal_product(a@, b@),
        r matches Some(product) ==> product@.wf(),
        a@.mantissa == 0 || b@.mantissa == 0 ==> dec_value(r) == Some(Dec::zero()),
        a@.mantissa != 0 && b@.mantissa != 0 && a@.product_is_exact(b@) ==> dec_value(r) == Some(
            a@.exact_product(b@),
        ),
{
    let x = Decimal::from_i128_with_scale(a.mantissa, a.scale);
    let y = Decimal::from_i128_with_scale(b.mantissa, b.scale);
    x.checked_mul(y).map(|d| Amount { mantissa: d.mantissa(), scale: d.scale() })
}

/// `Decimal::checked_div`: the quotient of two amounts. Claimed: a zero
/// divisor gives `None`; a zero dividend over a non-zero divisor gives
/// `Decimal::ZERO`; otherwise the result, `None` on overflow, depends on
/// the two arguments alone.
#[verifier::external_body]
pub(crate) fn checked_div(a: Amount, b: Amount) -> (r: Option<Amount>)
    requires
        a@.wf(),
        b@.wf(),
    ensures
        dec_value(r) == decimal_quotient(a@, b@),
        r matches Some(quotient) ==> quotient@.wf(),
        b@.mantissa == 0 ==> r.is_none(),
        b@.mantissa != 0 && a@.mantissa == 0 ==> dec_value(r) == Some(Dec::zero()),
{
    let x = Decimal::from_i128_with_scale(a.mantissa, a.scale);
    let y = Decimal::from_i128_with_scale(b.mantissa, b.scale);
    x.checked_div(y).map(|d| Amount { mantissa: d.mantissa(), scale: d.scale() })
}

/// `Decimal::to_i64`: the integer part, fractional digits cut off, or
/// `None` where that does not fit in 64 bits.
#[verifier::external_body]
pub(crate) fn to_i64(a: Amount) -> (r: Option<i64>)
    requires
        a@.wf(),
    ensures
        r == a@.whole_units(),
{
    Decimal::from_i128_with_scale(a.mantissa, a.scale).to_i64()
}

/// `Decimal`'s `==`: whether two amounts denote the same number, whatever
/// their scales.
#[verifier::external_body]
pub(crate) fn same_number(a: Amount, b: Amount) -> (r: bool)
    requires
        a@.wf(),
        b@.wf(),
    ensures
        r == a@.same_value(b@),
{
    let x = Decimal::from_i128_with_scale(a.mantissa, a.scale);
    let y = Decimal::from_i128_with_scale(b.mantissa, b.scale);
    x == y
}

} // verus!
