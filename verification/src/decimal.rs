//! Exact decimal amounts with the representation of `rust_decimal`:
//! a 96-bit signed mantissa, a scale of at most 28 and a sign flag.
//! Arithmetic is delegated to `rust_decimal`.

use vstd::prelude::*;
use crate::text::decimal_text;

verus! {

/// `10` raised to `n`.
pub open spec fn pow10(n: nat) -> int
    decreases n,
{
    if n == 0 {
        1
    } else {
        10 * pow10((n - 1) as nat)
    }
}

/// One more than the largest mantissa magnitude, `2^96`.
pub open spec fn mantissa_bound() -> int {
    0x1_0000_0000_0000_0000_0000_0000
}

/// Powers of ten are positive.
pub proof fn lemma_pow10_positive(n: nat)
    ensures
        pow10(n) >= 1,
    decreases n,
{
    if n > 0 {
        lemma_pow10_positive((n - 1) as nat);
    }
}

/// Powers of ten grow with the exponent.
pub proof fn lemma_pow10_monotone(a: nat, b: nat)
    requires
        a <= b,
    ensures
        pow10(a) <= pow10(b),
    decreases b,
{
    if a < b {
        lemma_pow10_monotone(a, (b - 1) as nat);
        lemma_pow10_positive((b - 1) as nat);
    }
}

/// `10^(a+b) == 10^a * 10^b`.
pub proof fn lemma_pow10_add(a: nat, b: nat)
    ensures
        pow10(a + b) == pow10(a) * pow10(b),
    decreases b,
{
    if b > 0 {
        lemma_pow10_add(a, (b - 1) as nat);
        assert(pow10(a + b) == 10 * pow10((a + b - 1) as nat));
        assert(pow10(a) * pow10(b) == pow10(a) * (10 * pow10((b - 1) as nat)));
        assert(pow10(a) * (10 * pow10((b - 1) as nat)) == 10 * (pow10(a) * pow10((b - 1) as nat))) by (nonlinear_arith);
    }
}

/// A decimal number `mantissa / 10^scale`; `negative` is the sign flag,
/// which a zero value may carry too.
#[derive(Clone, Copy, Debug)]
pub struct Decimal {
    mantissa: i128,
    scale: u32,
    negative: bool,
}

impl Decimal {
    /// The largest scale a decimal can have.
    pub const MAX_SCALE: u32 = 28;


    /// The mantissa fits 96 bits, the scale is at most 28, and the sign
    /// flag agrees with a nonzero mantissa.
    #[verifier::type_invariant]
    pub closed spec fn well_formed(self) -> bool {
        &&& -mantissa_bound() < self.mantissa < mantissa_bound()
        &&& self.scale <= 28
        &&& self.mantissa > 0 ==> !self.negative
        &&& self.mantissa < 0 ==> self.negative
    }

    /// The signed mantissa.
    pub closed spec fn mantissa_of(self) -> int {
        self.mantissa as int
    }

    /// The number of fractional digits.
    pub closed spec fn scale_of(self) -> nat {
        self.scale as nat
    }

    /// The sign flag.
    pub closed spec fn sign_negative(self) -> bool {
        self.negative
    }

    /// The value in units of `10^-28`; every decimal is a whole number of units.
    pub open spec fn units(self) -> int {
        self.mantissa_of() * pow10((28 - self.scale_of()) as nat)
    }

    /// The decimal `m / 10^s` with the sign flag set exactly when `m < 0`.
    pub closed spec fn spec_new(m: int, s: nat) -> Decimal {
        Decimal { mantissa: m as i128, scale: s as u32, negative: m < 0 }
    }

    /// The value zero, with scale zero.
    pub fn zero() -> (d: Decimal)
        ensures
            d.mantissa_of() == 0,
            d.scale_of() == 0,
            !d.sign_negative(),
            d.units() == 0,
            d == Decimal::spec_new(0, 0),
    {
        Decimal { mantissa: 0, scale: 0, negative: false }
    }

    /// `num / 10^scale`.
    pub fn new(num: i64, scale: u32) -> (d: Decimal)
        requires
            scale <= 28,
        ensures
            d.mantissa_of() == num,
            d.scale_of() == scale,
            d.sign_negative() == (num < 0),
            d == Decimal::spec_new(num as int, scale as nat),
    {
        Decimal { mantissa: num as i128, scale, negative: num < 0 }
    }

    /// `num / 10^scale` for a mantissa of at most 96 bits.
    pub fn from_i128_with_scale(num: i128, scale: u32) -> (d: Decimal)
        requires
            scale <= 28,
            -mantissa_bound() < num < mantissa_bound(),
        ensures
            d.mantissa_of() == num,
            d.scale_of() == scale,
            d.sign_negative() == (num < 0),
    {
        Decimal { mantissa: num, scale, negative: num < 0 }
    }

    /// The signed mantissa.
    pub fn mantissa(&self) -> (m: i128)
        ensures
            m == self.mantissa_of(),
    {
        self.mantissa
    }

    /// The number of fractional digits.
    pub fn scale(&self) -> (s: u32)
        ensures
            s == self.scale_of(),
            s <= 28,
    {
        proof { use_type_invariant(self); }
        self.scale
    }

    /// The sign flag.
    pub fn is_sign_negative(&self) -> (b: bool)
        ensures
            b == self.sign_negative(),
    {
        self.negative
    }

    /// Whether the value is zero.
    pub fn is_zero(&self) -> (b: bool)
        ensures
            b == (self.units() == 0),
            b == (self.mantissa_of() == 0),
    {
        proof {
            lemma_pow10_positive((28 - self.scale_of()) as nat);
            if self.mantissa_of() != 0 {
                assert(self.units() != 0) by (nonlinear_arith)
                    requires self.mantissa_of() != 0, pow10((28 - self.scale_of()) as nat) >= 1,
                        self.units() == self.mantissa_of() * pow10((28 - self.scale_of()) as nat);
            }
        }
        self.mantissa == 0
    }
}

/// The magnitude of `m / 10^k` rounded to a whole number, ties to even.
pub open spec fn round_half_even(m: nat, k: nat) -> nat {
    let p = pow10(k);
    let q = (m as int) / p;
    let r = (m as int) % p;
    if k == 0 {
        m
    } else if 2 * r > p || (2 * r == p && q % 2 == 1) {
        (q + 1) as nat
    } else {
        q as nat
    }
}

/// `|x|`.
pub open spec fn abs(x: int) -> nat {
    if x < 0 {
        (-x) as nat
    } else {
        x as nat
    }
}

/// The larger of `a` and `b`.
pub open spec fn max_nat(a: nat, b: nat) -> nat {
    if a >= b {
        a
    } else {
        b
    }
}

/// The exact sum of `a` and `b` fits the mantissa at the larger of the two
/// scales, so that adding them loses nothing.
pub open spec fn sum_is_exact(a: Decimal, b: Decimal) -> bool {
    abs(a.units() + b.units()) < mantissa_bound() * pow10(
        (28 - max_nat(a.scale_of(), b.scale_of())) as nat,
    )
}

/// The exact product of `a` and `b` fits the mantissa at the sum of the scales.
pub open spec fn product_is_exact(a: Decimal, b: Decimal) -> bool {
    &&& a.scale_of() + b.scale_of() <= 28
    &&& abs(a.mantissa_of() * b.mantissa_of()) < mantissa_bound()
}

/// What `rust_decimal::Decimal::checked_add` returns for `a` and `b`.
pub uninterp spec fn decimal_checked_add(a: Decimal, b: Decimal) -> Option<Decimal>;

/// What `rust_decimal::Decimal::checked_mul` returns for `a` and `b`.
pub uninterp spec fn decimal_checked_mul(a: Decimal, b: Decimal) -> Option<Decimal>;

/// What `rust_decimal::Decimal::checked_div` returns for `a` and `b`.
pub uninterp spec fn decimal_checked_div(a: Decimal, b: Decimal) -> Option<Decimal>;

/// `d` rounded to `dp` fractional digits, ties to even, as `rust_decimal`'s
/// `round_dp` does: a decimal with at most `dp` fractional digits is kept as
/// it is; otherwise the magnitude is rounded, the scale becomes `dp`, and a
/// sign flag survives on a nonzero result or on a zero input.
pub open spec fn rounded_dp(d: Decimal, r: Decimal, dp: nat) -> bool {
    if d.scale_of() <= dp {
        r == d
    } else {
        let q = round_half_even(abs(d.mantissa_of()), (d.scale_of() - dp) as nat);
        &&& r.mantissa_of() == (if d.mantissa_of() < 0 { -q } else { q as int })
        &&& r.scale_of() == dp
        &&& r.sign_negative() == (d.sign_negative() && (q != 0 || d.mantissa_of() == 0))
    }
}

impl Decimal {
    /// Calls `rust_decimal::Decimal::checked_add`. The result is named by
    /// `decimal_checked_add`; when the exact sum fits at the larger scale the
    /// crate adds exactly, with no rounding, so the result holds the exact sum
    /// at a scale no larger than that. What the crate rounds to when the exact
    /// sum does not fit is left unsaid.
    #[verifier::external_body]
    pub(crate) fn rd_checked_add(&self, other: &Decimal) -> (r: Option<Decimal>)
        ensures
            r == decimal_checked_add(*self, *other),
            sum_is_exact(*self, *other) ==> r is Some,
            sum_is_exact(*self, *other) ==> r->0.units() == self.units() + other.units(),
            sum_is_exact(*self, *other) ==> r->0.scale_of() <= max_nat(
                self.scale_of(),
                other.scale_of(),
            ),
    {
        let mut x = rust_decimal::Decimal::from_i128_with_scale(self.mantissa, self.scale);
        x.set_sign_negative(self.negative);
        let mut y = rust_decimal::Decimal::from_i128_with_scale(other.mantissa, other.scale);
        y.set_sign_negative(other.negative);
        x.checked_add(y).map(|z| Decimal { mantissa: z.mantissa(), scale: z.scale(), negative: z.is_sign_negative() })
    }

    /// Calls `rust_decimal::Decimal::checked_mul`. The result is named by
    /// `decimal_checked_mul`; when the exact product fits the mantissa at the
    /// sum of the scales it is returned exactly, at a scale no larger than that
    /// sum. A factor of magnitude at most one never overflows. Rounding beyond
    /// that is left unsaid.
    #[verifier::external_body]
    pub(crate) fn rd_checked_mul(&self, other: &Decimal) -> (r: Option<Decimal>)
        ensures
            r == decimal_checked_mul(*self, *other),
            product_is_exact(*self, *other) ==> r is Some,
            abs(other.units()) <= pow10(28) ==> r is Some,
            product_is_exact(*self, *other) ==> r->0.units() * pow10(28) == self.units()
                * other.units(),
            product_is_exact(*self, *other) ==> r->0.scale_of() <= self.scale_of()
                + other.scale_of(),
    {
        let mut x = rust_decimal::Decimal::from_i128_with_scale(self.mantissa, self.scale);
        x.set_sign_negative(self.negative);
        let mut y = rust_decimal::Decimal::from_i128_with_scale(other.mantissa, other.scale);
        y.set_sign_negative(other.negative);
        x.checked_mul(y).map(|z| Decimal { mantissa: z.mantissa(), scale: z.scale(), negative: z.is_sign_negative() })
    }

    /// Calls `rust_decimal::Decimal::checked_div`. The quotient, rounded to
    /// what the 96-bit mantissa holds, is named by `decimal_checked_div`.
    /// Stated of it: dividing by zero gives `None`; a quotient whose magnitude
    /// is at most `10^18` does not overflow; zero divided by a nonzero number is
    /// zero; a nonnegative number divided by a positive one is nonnegative.
    #[verifier::external_body]
    pub(crate) fn rd_checked_div(&self, other: &Decimal) -> (r: Option<Decimal>)
        ensures
            r == decimal_checked_div(*self, *other),
            other.units() == 0 ==> r is None,
            other.units() != 0 && abs(self.units()) <= abs(other.units()) * pow10(18) ==> r is Some,
            other.units() != 0 && self.units() == 0 ==> r is Some && r->0.units() == 0,
            r is Some && self.units() >= 0 && other.units() > 0 ==> r->0.units() >= 0,
    {
        let mut x = rust_decimal::Decimal::from_i128_with_scale(self.mantissa, self.scale);
        x.set_sign_negative(self.negative);
        let mut y = rust_decimal::Decimal::from_i128_with_scale(other.mantissa, other.scale);
        y.set_sign_negative(other.negative);
        x.checked_div(y).map(|z| Decimal { mantissa: z.mantissa(), scale: z.scale(), negative: z.is_sign_negative() })
    }

    /// Calls `rust_decimal::Decimal::round_dp`, which rounds the magnitude
    /// half to even ("banker's rounding") as `rounded_dp` states.
    #[verifier::external_body]
    pub(crate) fn rd_round_dp(&self, dp: u32) -> (r: Decimal)
        ensures
            rounded_dp(*self, r, dp as nat),
    {
        let mut x = rust_decimal::Decimal::from_i128_with_scale(self.mantissa, self.scale);
        x.set_sign_negative(self.negative);
        let z = x.round_dp(dp);
        Decimal { mantissa: z.mantissa(), scale: z.scale(), negative: z.is_sign_negative() }
    }

    /// Calls `rust_decimal`'s `>`, which compares by value.
    #[verifier::external_body]
    pub(crate) fn rd_gt(&self, other: &Decimal) -> (r: bool)
        ensures
            r == (self.units() > other.units()),
    {
        let mut x = rust_decimal::Decimal::from_i128_with_scale(self.mantissa, self.scale);
        x.set_sign_negative(self.negative);
        let mut y = rust_decimal::Decimal::from_i128_with_scale(other.mantissa, other.scale);
        y.set_sign_negative(other.negative);
        x > y
    }

    /// Calls `rust_decimal`'s `==`, which compares by value.
    #[verifier::external_body]
    pub(crate) fn rd_eq(&self, other: &Decimal) -> (r: bool)
        ensures
            r == (self.units() == other.units()),
    {
        let mut x = rust_decimal::Decimal::from_i128_with_scale(self.mantissa, self.scale);
        x.set_sign_negative(self.negative);
        let mut y = rust_decimal::Decimal::from_i128_with_scale(other.mantissa, other.scale);
        y.set_sign_negative(other.negative);
        x == y
    }
}

/// `n` zero characters.
pub open spec fn zeros(n: nat) -> Seq<char> {
    Seq::new(n, |i: int| '0')
}

/// The digits of `m`, with leading zeros so that there are more than
/// `scale` of them.
pub open spec fn padded_digits(m: nat, scale: nat) -> Seq<char> {
    let t = decimal_text(m);
    if t.len() <= scale {
        zeros((scale + 1 - t.len()) as nat) + t
    } else {
        t
    }
}

/// How a decimal is written: a `-` when the sign flag is set, then the
/// digits of the mantissa's magnitude with the decimal point `scale` digits
/// from the right (none when the scale is zero), and a `0` before the point
/// when no whole digit is left.
pub open spec fn decimal_display(d: Decimal) -> Seq<char> {
    let sign = if d.sign_negative() {
        seq!['-']
    } else {
        Seq::<char>::empty()
    };
    let s = d.scale_of();
    let p = padded_digits(abs(d.mantissa_of()), s);
    if s == 0 {
        sign + p
    } else {
        sign + p.take(p.len() - s) + seq!['.'] + p.skip(p.len() - s)
    }
}

impl Decimal {
    /// Calls `rust_decimal::Decimal`'s `to_string` (its `Display`, with no
    /// precision given), which writes the text `decimal_display` states.
    #[verifier::external_body]
    pub(crate) fn rd_to_string(&self) -> (t: String)
        ensures
            t@ == decimal_display(*self),
    {
        let mut x = rust_decimal::Decimal::from_i128_with_scale(self.mantissa, self.scale);
        x.set_sign_negative(self.negative);
        x.to_string()
    }

    /// The decimal's text, as `decimal_display` states it.
    pub fn to_string(&self) -> (t: String)
        ensures
            t@ == decimal_display(*self),
    {
        self.rd_to_string()
    }
}

/// Rounding to a number of fractional digits keeps a nonnegative value
/// nonnegative.
pub proof fn lemma_rounding_keeps_sign(d: Decimal, r: Decimal)
    requires
        d.units() >= 0,
        rounded_dp(d, r, 2),
    ensures
        r.units() >= 0,
{
    lemma_pow10_positive((28 - d.scale_of()) as nat);
    lemma_pow10_positive((28 - r.scale_of()) as nat);
    if d.mantissa_of() < 0 {
        assert(d.units() < 0) by (nonlinear_arith)
            requires
                d.mantissa_of() < 0,
                pow10((28 - d.scale_of()) as nat) >= 1,
                d.units() == d.mantissa_of() * pow10((28 - d.scale_of()) as nat),
        ;
    }
    assert(r.mantissa_of() >= 0);
    assert(r.units() >= 0) by (nonlinear_arith)
        requires
            r.mantissa_of() >= 0,
            pow10((28 - r.scale_of()) as nat) >= 1,
            r.units() == r.mantissa_of() * pow10((28 - r.scale_of()) as nat),
    ;
}

impl PartialEq for Decimal {
    fn eq(&self, other: &Decimal) -> (r: bool) {
        self.rd_eq(other)
    }
}

impl vstd::std_specs::cmp::PartialEqSpecImpl for Decimal {
    open spec fn obeys_eq_spec() -> bool {
        true
    }

    open spec fn eq_spec(&self, other: &Decimal) -> bool {
        self.units() == other.units()
    }
}

impl Eq for Decimal {}

impl Default for Decimal {
    /// Zero.
    fn default() -> (d: Decimal)
        ensures
            d == Decimal::spec_new(0, 0),
    {
        Decimal::zero()
    }
}

/// Rounds to two fractional digits, ties to even ("banker's rounding"), as
/// financial calculations require.
pub fn round_financial(d: Decimal) -> (r: Decimal)
    ensures
        rounded_dp(d, r, 2),
{
    d.rd_round_dp(2)
}

/// `numerator / denominator`, or zero when the denominator is zero. The
/// quotient must fit a decimal.
pub fn safe_div(numerator: Decimal, denominator: Decimal) -> (r: Decimal)
    requires
        denominator.units() == 0 || abs(numerator.units()) <= abs(denominator.units()) * pow10(
            18,
        ) || decimal_checked_div(numerator, denominator) is Some,
    ensures
        denominator.units() == 0 ==> r == Decimal::spec_new(0, 0),
        denominator.units() == 0 ==> r.units() == 0,
        denominator.units() != 0 ==> decimal_checked_div(numerator, denominator) == Some(r),
        numerator.units() >= 0 && denominator.units() > 0 ==> r.units() >= 0,
{
    if denominator.is_zero() {
        Decimal::zero()
    } else {
        match numerator.rd_checked_div(&denominator) {
            Some(q) => q,
            None => Decimal::zero(),
        }
    }
}

} // verus!
