//! Exact decimal amounts: a signed 96-bit mantissa and a power-of-ten scale.

use crate::decimal::{
    checked_add, checked_div, checked_mul, checked_sub, decimal_difference, decimal_product,
    decimal_quotient, decimal_sum, from_u64, same_number, to_i64,
};
use vstd::prelude::*;
use vstd::std_specs::cmp::PartialEqSpecImpl;

verus! {

/// Largest magnitude of a mantissa: 2^96 - 1.
pub const MAX_MANTISSA: i128 = 79_228_162_514_264_337_593_543_950_335;

/// Largest number of fractional digits.
pub const MAX_SCALE: u32 = 28;

/// Ten to the power `n`.
pub open spec fn pow10(n: nat) -> int
    decreases n,
{
    if n == 0 {
        1
    } else {
        10 * pow10((n - 1) as nat)
    }
}

/// The mathematical content of an [`Amount`]: the number
/// `mantissa / 10^scale`.
pub struct Dec {
    pub mantissa: int,
    pub scale: nat,
}

impl Dec {
    /// Zero with no fractional digits.
    pub open spec fn zero() -> Dec {
        Dec { mantissa: 0, scale: 0 }
    }

    /// The whole number `n`.
    pub open spec fn integer(n: int) -> Dec {
        Dec { mantissa: n, scale: 0 }
    }

    /// The mantissa fits in 96 bits and the scale is at most 28.
    pub open spec fn wf(self) -> bool {
        &&& -MAX_MANTISSA <= self.mantissa <= MAX_MANTISSA
        &&& self.scale <= MAX_SCALE
    }

    /// The value in units of 10^-28, which every well-formed amount is a
    /// whole multiple of.
    pub open spec fn units(self) -> int
        recommends
            self.scale <= MAX_SCALE,
    {
        self.mantissa * pow10((MAX_SCALE - self.scale) as nat)
    }

    /// Two amounts denote the same number, whatever their scales.
    pub open spec fn same_value(self, other: Dec) -> bool {
        self.units() == other.units()
    }

    /// The magnitude of the mantissa.
    pub open spec fn magnitude(self) -> int {
        if self.mantissa >= 0 {
            self.mantissa
        } else {
            -self.mantissa
        }
    }

    /// The exact product of two amounts can be held without rounding.
    pub open spec fn product_is_exact(self, other: Dec) -> bool {
        &&& -MAX_MANTISSA <= self.mantissa * other.mantissa <= MAX_MANTISSA
        &&& self.scale + other.scale <= MAX_SCALE
    }

    /// The exact product of two amounts.
    pub open spec fn exact_product(self, other: Dec) -> Dec {
        Dec { mantissa: self.mantissa * other.mantissa, scale: self.scale + other.scale }
    }

    /// The product of two amounts: zero where either is zero, the exact
    /// product where it can be held, else what the decimal arithmetic rounds
    /// it to, `None` where it is out of range.
    pub open spec fn product(self, other: Dec) -> Option<Dec> {
        if self.mantissa == 0 || other.mantissa == 0 {
            Some(Dec::zero())
        } else if self.product_is_exact(other) {
            Some(self.exact_product(other))
        } else {
            decimal_product(self, other)
        }
    }

    /// The quotient of two amounts: `None` for a zero divisor, zero for a
    /// zero dividend, else what the decimal arithmetic gives, `None` where it
    /// is out of range.
    pub open spec fn quotient(self, other: Dec) -> Option<Dec> {
        if other.mantissa == 0 {
            None
        } else if self.mantissa == 0 {
            Some(Dec::zero())
        } else {
            decimal_quotient(self, other)
        }
    }

    /// The sum of two amounts as the decimal arithmetic gives it, `None`
    /// where it is out of range.
    pub open spec fn sum(self, other: Dec) -> Option<Dec> {
        decimal_sum(self, other)
    }

    /// The difference of two amounts as the decimal arithmetic gives it,
    /// `None` where it is out of range.
    pub open spec fn difference(self, other: Dec) -> Option<Dec> {
        decimal_difference(self, other)
    }

    /// The integer part where it fits in 64 bits.
    pub open spec fn whole_units(self) -> Option<i64> {
        if i64::MIN <= self.whole() <= i64::MAX {
            Some(self.whole() as i64)
        } else {
            None
        }
    }

    /// The integer part, fractional digits cut off (rounding toward zero).
    pub open spec fn whole(self) -> int {
        if self.mantissa >= 0 {
            self.mantissa / pow10(self.scale)
        } else {
            -((-self.mantissa) / pow10(self.scale))
        }
    }
}

/// The mathematical content of an optional amount.
pub open spec fn dec_value(r: Option<Amount>) -> Option<Dec> {
    match r {
        Some(a) => Some(a@),
        None => None,
    }
}

/// Ten to any power is positive.
pub proof fn lemma_pow10_positive(n: nat)
    ensures
        pow10(n) > 0,
    decreases n,
{
    if n > 0 {
        lemma_pow10_positive((n - 1) as nat);
    }
}

/// Ten to a sum of powers is the product of the powers of ten.
pub proof fn lemma_pow10_adds(a: nat, b: nat)
    ensures
        pow10(a + b) == pow10(a) * pow10(b),
    decreases a,
{
    if a > 0 {
        lemma_pow10_adds((a - 1) as nat, b);
        assert(10 * (pow10((a - 1) as nat) * pow10(b)) == (10 * pow10((a - 1) as nat)) * pow10(b))
            by (nonlinear_arith);
    }
}

/// An amount has no whole units exactly when it lies strictly between
/// minus one and one.
pub proof fn lemma_fraction_truncates(q: Dec)
    ensures
        q.whole() == 0 <==> q.magnitude() < pow10(q.scale),
        q.magnitude() < pow10(q.scale) ==> q.whole_units() == Some(0i64),
{
    lemma_pow10_positive(q.scale);
    let p = pow10(q.scale);
    let m = q.magnitude();
    assert((m / p == 0) <==> m < p) by (nonlinear_arith)
        requires
            m >= 0,
            p > 0,
    ;
}

/// What is left of an amount once its whole units are taken away lies
/// strictly between minus one and one, and so has no whole units itself.
pub proof fn lemma_whole_units_leave_a_fraction(q: Dec)
    ensures
        ({
            let rest = Dec { mantissa: q.mantissa - q.whole() * pow10(q.scale), scale: q.scale };
            &&& rest.magnitude() < pow10(q.scale)
            &&& rest.whole() == 0
        }),
{
    lemma_pow10_positive(q.scale);
    let p = pow10(q.scale);
    let m = q.magnitude();
    assert(0 <= m - (m / p) * p < p) by (nonlinear_arith)
        requires
            m >= 0,
            p > 0,
    ;
    let rest = Dec { mantissa: q.mantissa - q.whole() * p, scale: q.scale };
    if q.mantissa >= 0 {
        assert(rest.mantissa == m - (m / p) * p);
    } else {
        assert(q.whole() * p == -((m / p) * p)) by (nonlinear_arith)
            requires
                q.whole() == -(m / p),
        ;
        assert(rest.mantissa == -(m - (m / p) * p));
    }
    lemma_fraction_truncates(rest);
}

/// An exact product denotes the product of the two numbers: in units of
/// 10^-28, the product times 10^28 is the product of the factors.
pub proof fn lemma_exact_product_value(a: Dec, b: Dec)
    requires
        a.scale + b.scale <= MAX_SCALE,
    ensures
        a.exact_product(b).units() * pow10(MAX_SCALE as nat) == a.units() * b.units(),
{
    let sa = (MAX_SCALE - a.scale) as nat;
    let sb = (MAX_SCALE - b.scale) as nat;
    let sp = (MAX_SCALE - a.scale - b.scale) as nat;
    lemma_pow10_adds(sp, MAX_SCALE as nat);
    lemma_pow10_adds(sa, sb);
    assert(sp + MAX_SCALE == sa + sb);
    let x = a.mantissa;
    let y = b.mantissa;
    let pa = pow10(sa);
    let pb = pow10(sb);
    let pp = pow10(sp);
    let p28 = pow10(MAX_SCALE as nat);
    assert(((x * y) * pp) * p28 == (x * pa) * (y * pb)) by (nonlinear_arith)
        requires
            pp * p28 == pa * pb,
    ;
}

/// Where the product of two amounts can be held without rounding, it
/// denotes the product of the two numbers.
pub proof fn lemma_product_value(a: Dec, b: Dec)
    requires
        a.product_is_exact(b),
    ensures
        match a.product(b) {
            Some(value) => value.units() * pow10(MAX_SCALE as nat) == a.units() * b.units(),
            None => false,
        },
{
    if a.mantissa == 0 || b.mantissa == 0 {
        assert(a.units() * b.units() == 0) by (nonlinear_arith)
            requires
                a.units() == 0 || b.units() == 0,
        ;
    } else {
        lemma_exact_product_value(a, b);
    }
}

/// An exact decimal number `mantissa / 10^scale`.
#[derive(Clone, Copy, Debug)]
pub struct Amount {
    pub(crate) mantissa: i128,
    pub(crate) scale: u32,
}

impl View for Amount {
    type V = Dec;

    closed spec fn view(&self) -> Dec {
        Dec { mantissa: self.mantissa as int, scale: self.scale as nat }
    }
}

impl Amount {
    #[verifier::type_invariant]
    pub closed spec fn inv(self) -> bool {
        self@.wf()
    }

    /// The amount `num / 10^scale`.
    pub fn new(num: i64, scale: u32) -> (r: Amount)
        requires
            scale <= MAX_SCALE,
        ensures
            r@ == (Dec { mantissa: num as int, scale: scale as nat }),
    {
        Amount { mantissa: num as i128, scale }
    }

    /// The amount `num / 10^scale`, or `None` where the mantissa needs more
    /// than 96 bits or the scale is above 28.
    pub fn from_i128_with_scale(num: i128, scale: u32) -> (r: Option<Amount>)
        ensures
            match r {
                Some(a) => a@ == (Dec { mantissa: num as int, scale: scale as nat }) && a@.wf(),
                None => !(Dec { mantissa: num as int, scale: scale as nat }).wf(),
            },
    {
        if scale <= MAX_SCALE && -MAX_MANTISSA <= num && num <= MAX_MANTISSA {
            Some(Amount { mantissa: num, scale })
        } else {
            None
        }
    }

    /// Zero with no fractional digits.
    pub fn zero() -> (r: Amount)
        ensures
            r@ == Dec::zero(),
    {
        Amount { mantissa: 0, scale: 0 }
    }

    /// The mantissa.
    pub fn mantissa(&self) -> (r: i128)
        ensures
            r == self@.mantissa,
            -MAX_MANTISSA <= r <= MAX_MANTISSA,
    {
        proof {
            use_type_invariant(self);
        }
        self.mantissa
    }

    /// The number of fractional digits.
    pub fn scale(&self) -> (r: u32)
        ensures
            r == self@.scale,
            r <= MAX_SCALE,
    {
        proof {
            use_type_invariant(self);
        }
        self.scale
    }

    /// The whole number `n`.
    pub fn from_units(n: u64) -> (r: Amount)
        ensures
            r@ == Dec::integer(n as int),
    {
        from_u64(n)
    }

    /// The sum of two amounts, `None` where it is out of range.
    pub fn plus(self, other: Amount) -> (r: Option<Amount>)
        ensures
            dec_value(r) == self@.sum(other@),
    {
        proof {
            use_type_invariant(self);
            use_type_invariant(other);
        }
        checked_add(self, other)
    }

    /// The difference of two amounts, `None` where it is out of range.
    pub fn minus(self, other: Amount) -> (r: Option<Amount>)
        ensures
            dec_value(r) == self@.difference(other@),
    {
        proof {
            use_type_invariant(self);
            use_type_invariant(other);
        }
        checked_sub(self, other)
    }

    /// The product of two amounts, `None` where it is out of range.
    pub fn times(self, other: Amount) -> (r: Option<Amount>)
        ensures
            dec_value(r) == self@.product(other@),
    {
        proof {
            use_type_invariant(self);
            use_type_invariant(other);
        }
        checked_mul(self, other)
    }

    /// The quotient of two amounts, `None` for a zero divisor or where it
    /// is out of range.
    pub fn divided_by(self, other: Amount) -> (r: Option<Amount>)
        ensures
            dec_value(r) == self@.quotient(other@),
    {
        proof {
            use_type_invariant(self);
            use_type_invariant(other);
        }
        checked_div(self, other)
    }

    /// The integer part, fractional digits cut off, or `None` where it does
    /// not fit in 64 bits.
    pub fn to_whole_units(self) -> (r: Option<i64>)
        ensures
            r == self@.whole_units(),
    {
        proof {
            use_type_invariant(self);
        }
        to_i64(self)
    }

    /// Whether two amounts denote the same number.
    pub fn same_value(self, other: Amount) -> (r: bool)
        ensures
            r == self@.same_value(other@),
    {
        proof {
            use_type_invariant(self);
            use_type_invariant(other);
        }
        same_number(self, other)
    }

    /// Whether the amount is zero.
    pub fn is_zero(&self) -> (r: bool)
        ensures
            r == (self@.mantissa == 0),
    {
        self.mantissa == 0
    }
}

impl PartialEq for Amount {
    fn eq(&self, other: &Amount) -> (r: bool) {
        self.same_value(*other)
    }
}

impl PartialEqSpecImpl for Amount {
    open spec fn obeys_eq_spec() -> bool {
        true
    }

    open spec fn eq_spec(&self, other: &Amount) -> bool {
        self@.same_value(other@)
    }
}

impl Eq for Amount {}

} // verus!
