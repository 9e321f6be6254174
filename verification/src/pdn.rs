//! The debt-burden ratio (PDN): monthly payments over monthly income, with
//! the credit-card 5%-of-limit rule and the confirmed-income gate.

use vstd::prelude::*;
use crate::decimal::{
    Decimal, abs, decimal_checked_add, decimal_checked_div, decimal_checked_mul, lemma_pow10_add,
    lemma_pow10_monotone, lemma_pow10_positive, mantissa_bound, max_nat, pow10, round_financial,
    rounded_dp, safe_div,
};

verus! {

/// Why an unconfirmed income is refused.
pub const UNCONFIRMED_INCOME_REJECTION: &'static str =
    "Unconfirmed income (Declared/Estimated) is not accepted per 6960-U / 7226-U; use Confirmed or FamilyTotal";

/// The larger of `a` and `b`.
pub open spec fn max_int(a: int, b: int) -> int {
    if a >= b {
        a
    } else {
        b
    }
}

/// The factor `0.05` applied to a credit limit.
pub open spec fn five_hundredths() -> Decimal {
    Decimal::spec_new(5, 2)
}

/// A single loan or credit-card obligation of a borrower.
#[derive(Clone, Debug, PartialEq, Eq)]
pub struct Obligation {
    /// Scheduled monthly payment.
    pub monthly_payment: Decimal,
    /// Whether this is a credit card.
    pub is_credit_card: bool,
    /// Credit limit, for credit cards.
    pub credit_limit: Option<Decimal>,
}

impl Obligation {
    /// The 5%-of-limit rule applies: a credit card with a known limit.
    pub open spec fn uses_limit(self) -> bool {
        self.is_credit_card && self.credit_limit is Some
    }

    /// The payment recognized for the ratio: for a credit card with a limit,
    /// the larger of the payment and 5% of the limit (5% of the limit when
    /// they are equal in value), otherwise the payment.
    pub open spec fn recognized(self) -> Decimal {
        if self.uses_limit() {
            let f = decimal_checked_mul(self.credit_limit->0, five_hundredths())->0;
            if self.monthly_payment.units() > f.units() {
                self.monthly_payment
            } else {
                f
            }
        } else {
            self.monthly_payment
        }
    }

    /// The value of the recognized payment, in units of `10^-28`.
    pub open spec fn recognized_units(self) -> int {
        if self.uses_limit() {
            max_int(self.monthly_payment.units(), self.credit_limit->0.units() / 20)
        } else {
            self.monthly_payment.units()
        }
    }

    /// The finest scale the recognized payment can have.
    pub open spec fn recognized_scale(self) -> nat {
        if self.uses_limit() {
            max_nat(self.monthly_payment.scale_of(), self.credit_limit->0.scale_of() + 2)
        } else {
            self.monthly_payment.scale_of()
        }
    }

    /// 5% of the limit is exactly representable.
    pub open spec fn limit_share_exact(self) -> bool {
        self.uses_limit() ==> crate::decimal::product_is_exact(
            self.credit_limit->0,
            five_hundredths(),
        )
    }

    /// The recognized payment amount for the ratio: credit cards count at
    /// least 5% of their credit limit.
    pub fn recognized_payment(&self) -> (r: Decimal)
        ensures
            r == self.recognized(),
            self.limit_share_exact() ==> r.units() == self.recognized_units() && r.scale_of()
                <= self.recognized_scale(),
    {
        if self.is_credit_card {
            if let Some(limit) = &self.credit_limit {
                let five = Decimal::new(5, 2);
                let share = limit.rd_checked_mul(&five);
                proof {
                    lemma_pow10_add(26, 2);
                    lemma_pow10_positive(26);
                    reveal_with_fuel(pow10, 3);
                    assert(five.units() == 5 * pow10(26));
                }
                let f = match share {
                    Some(f) => f,
                    None => Decimal::zero(),
                };
                proof {
                    if self.limit_share_exact() {
                        let l = limit.units();
                        let p = f.units();
                        let x = pow10(26);
                        assert(p * (x * 100) == l * (5 * x));
                        assert(p * 100 == l * 5) by (nonlinear_arith)
                            requires
                                p * (x * 100) == l * (5 * x),
                                x >= 1,
                        ;
                    }
                }
                if self.monthly_payment.rd_gt(&f) {
                    self.monthly_payment
                } else {
                    f
                }
            } else {
                self.monthly_payment
            }
        } else {
            self.monthly_payment
        }
    }
}

/// Source of income for the ratio.
#[derive(Clone, Debug, PartialEq, Eq)]
pub enum IncomeSource {
    /// Confirmed via the tax service or the pension fund.
    Confirmed(Decimal),
    /// Declared by the borrower.
    Declared(Decimal),
    /// Estimated from regional or industry averages; not confirmed income.
    Estimated(Decimal),
    /// Total family income.
    FamilyTotal(Decimal),
}

impl IncomeSource {
    /// The amount, whatever its source.
    pub open spec fn amount(self) -> Decimal {
        match self {
            IncomeSource::Confirmed(v) => v,
            IncomeSource::Declared(v) => v,
            IncomeSource::Estimated(v) => v,
            IncomeSource::FamilyTotal(v) => v,
        }
    }

    /// The regulator treats the income as confirmed.
    pub open spec fn confirmed(self) -> bool {
        self is Confirmed || self is FamilyTotal
    }

    /// The amount, whatever its source.
    pub fn value(&self) -> (v: Decimal)
        ensures
            v == self.amount(),
    {
        match self {
            IncomeSource::Confirmed(v) => *v,
            IncomeSource::Declared(v) => *v,
            IncomeSource::Estimated(v) => *v,
            IncomeSource::FamilyTotal(v) => *v,
        }
    }

    /// Does the regulator consider this income confirmed?
    pub fn is_confirmed(&self) -> (b: bool)
        ensures
            b == self.confirmed(),
    {
        match self {
            IncomeSource::Confirmed(_) => true,
            IncomeSource::FamilyTotal(_) => true,
            _ => false,
        }
    }
}

/// The result of a ratio calculation.
#[derive(Clone, Debug, PartialEq, Eq)]
pub struct PdnResult {
    /// Payments over income, rounded to two fractional digits.
    pub ratio: Decimal,
    /// Total recognized monthly payments, the new one included.
    pub total_payments: Decimal,
    /// The ratio exceeds `0.50`.
    pub is_risky: bool,
}

/// The running sum of the recognized payments, as `rust_decimal` adds them
/// starting from zero.
pub open spec fn sum_recognized(obs: Seq<Obligation>) -> Decimal
    decreases obs.len(),
{
    if obs.len() == 0 {
        Decimal::spec_new(0, 0)
    } else {
        decimal_checked_add(sum_recognized(obs.drop_last()), obs.last().recognized())->0
    }
}

/// The exact sum of the recognized payments, in units of `10^-28`.
pub open spec fn sum_recognized_units(obs: Seq<Obligation>) -> int
    decreases obs.len(),
{
    if obs.len() == 0 {
        0
    } else {
        sum_recognized_units(obs.drop_last()) + obs.last().recognized_units()
    }
}

/// The sum of the magnitudes of the recognized payments.
pub open spec fn sum_recognized_magnitudes(obs: Seq<Obligation>) -> int
    decreases obs.len(),
{
    if obs.len() == 0 {
        0
    } else {
        sum_recognized_magnitudes(obs.drop_last()) + abs(obs.last().recognized_units())
    }
}

/// The finest scale among the recognized payments.
pub open spec fn finest_recognized_scale(obs: Seq<Obligation>) -> nat
    decreases obs.len(),
{
    if obs.len() == 0 {
        0
    } else {
        max_nat(finest_recognized_scale(obs.drop_last()), obs.last().recognized_scale())
    }
}

/// The finest scale of all the payments summed.
pub open spec fn payments_scale(obs: Seq<Obligation>, new_payment: Decimal) -> nat {
    max_nat(finest_recognized_scale(obs), new_payment.scale_of())
}

/// Every partial sum of the payments is exact: each 5% share of a limit is
/// representable, and the magnitudes together fit the 96-bit mantissa at the
/// finest scale used.
pub open spec fn payments_fit(obs: Seq<Obligation>, new_payment: Decimal) -> bool {
    &&& forall|i: int| 0 <= i < obs.len() ==> #[trigger] obs[i].limit_share_exact()
    &&& payments_scale(obs, new_payment) <= 28
    &&& sum_recognized_magnitudes(obs) + abs(new_payment.units()) < mantissa_bound() * pow10(
        (28 - payments_scale(obs, new_payment)) as nat,
    )
}

/// The total, divided by the income, stays within `10^18` in magnitude, so
/// that the division cannot overflow.
pub open spec fn ratio_fits(total_units: int, income: Decimal) -> bool {
    income.units() == 0 || abs(total_units) <= abs(income.units()) * pow10(18)
}

/// Every addition and the division of the calculation succeed in
/// `rust_decimal`, whatever it rounds.
pub open spec fn pdn_steps_defined(obs: Seq<Obligation>, new_payment: Decimal, income: Decimal) -> bool {
    &&& forall|i: int|
        0 <= i < obs.len() ==> (#[trigger] decimal_checked_add(
            sum_recognized(obs.take(i)),
            obs[i].recognized(),
        )) is Some
    &&& decimal_checked_add(sum_recognized(obs), new_payment) is Some
    &&& income.units() == 0 || decimal_checked_div(pdn_total(obs, new_payment), income) is Some
}

/// The calculation does not overflow: the payments add up exactly and the
/// ratio is within bounds, or else every step succeeds as `rust_decimal`
/// computes it.
pub open spec fn pdn_computable(obs: Seq<Obligation>, new_payment: Decimal, income: Decimal) -> bool {
    ||| payments_fit(obs, new_payment) && ratio_fits(
        sum_recognized_units(obs) + new_payment.units(),
        income,
    )
    ||| pdn_steps_defined(obs, new_payment, income)
}

/// The total of the payments, as computed.
pub open spec fn pdn_total(obs: Seq<Obligation>, new_payment: Decimal) -> Decimal {
    decimal_checked_add(sum_recognized(obs), new_payment)->0
}

/// The unrounded ratio: zero for a zero income.
pub open spec fn raw_ratio(total: Decimal, income: Decimal) -> Decimal {
    if income.units() == 0 {
        Decimal::spec_new(0, 0)
    } else {
        decimal_checked_div(total, income)->0
    }
}

/// The threshold above which a ratio is risky, `0.50`, in units of `10^-28`.
pub open spec fn risky_threshold_units() -> int {
    50 * pow10(26)
}

proof fn lemma_prefix_sums(obs: Seq<Obligation>, i: int)
    requires
        0 <= i < obs.len(),
    ensures
        sum_recognized_units(obs.take(i + 1)) == sum_recognized_units(obs.take(i))
            + obs[i].recognized_units(),
        sum_recognized_magnitudes(obs.take(i + 1)) == sum_recognized_magnitudes(obs.take(i))
            + abs(obs[i].recognized_units()),
        finest_recognized_scale(obs.take(i + 1)) == max_nat(
            finest_recognized_scale(obs.take(i)),
            obs[i].recognized_scale(),
        ),
        sum_recognized(obs.take(i + 1)) == decimal_checked_add(
            sum_recognized(obs.take(i)),
            obs[i].recognized(),
        )->0,
{
    assert(obs.take(i + 1).drop_last() =~= obs.take(i));
    assert(obs.take(i + 1).last() == obs[i]);
}

proof fn lemma_magnitudes_bound(obs: Seq<Obligation>)
    ensures
        abs(sum_recognized_units(obs)) <= sum_recognized_magnitudes(obs),
        sum_recognized_magnitudes(obs) >= 0,
    decreases obs.len(),
{
    if obs.len() > 0 {
        lemma_magnitudes_bound(obs.drop_last());
    }
}

proof fn lemma_magnitudes_prefix(obs: Seq<Obligation>, i: int)
    requires
        0 <= i <= obs.len(),
    ensures
        sum_recognized_magnitudes(obs.take(i)) <= sum_recognized_magnitudes(obs),
        finest_recognized_scale(obs.take(i)) <= finest_recognized_scale(obs),
    decreases obs.len() - i,
{
    if i < obs.len() {
        lemma_magnitudes_prefix(obs, i + 1);
        lemma_prefix_sums(obs, i);
    } else {
        assert(obs.take(i) =~= obs);
    }
}

/// The debt-burden ratio calculator.
pub struct PdnCalculator;

impl PdnCalculator {
    /// The debt-burden ratio: total monthly payments over monthly income.
    /// Refuses an income that is not confirmed.
    pub fn calculate(
        existing_obligations: &[Obligation],
        income: &IncomeSource,
        new_payment: Decimal,
        _loan_amount: Decimal,
    ) -> (r: Result<PdnResult, &'static str>)
        requires
            income.confirmed() ==> pdn_computable(
                existing_obligations@,
                new_payment,
                income.amount(),
            ),
        ensures
            !income.confirmed() ==> r is Err && r->Err_0@ == UNCONFIRMED_INCOME_REJECTION@,
            income.confirmed() ==> r is Ok,
            r is Ok ==> r->Ok_0.total_payments == pdn_total(existing_obligations@, new_payment),
            r is Ok && payments_fit(existing_obligations@, new_payment)
                ==> r->Ok_0.total_payments.units() == sum_recognized_units(existing_obligations@)
                + new_payment.units(),
            r is Ok ==> rounded_dp(
                raw_ratio(r->Ok_0.total_payments, income.amount()),
                r->Ok_0.ratio,
                2,
            ),
            r is Ok ==> r->Ok_0.is_risky == (r->Ok_0.ratio.units() > risky_threshold_units()),
            r is Ok && income.amount().units() > 0 && r->Ok_0.total_payments.units() >= 0
                ==> r->Ok_0.ratio.units() >= 0,
    {
        if !income.is_confirmed() {
            return Err(UNCONFIRMED_INCOME_REJECTION);
        }
        let ghost obs = existing_obligations@;
        let ghost s = payments_scale(obs, new_payment);
        let ghost exact = payments_fit(obs, new_payment);
        let mut total_existing = Decimal::zero();
        let n = existing_obligations.len();
        let mut i: usize = 0;
        proof {
            assert(obs.take(0) =~= Seq::<Obligation>::empty());
            lemma_magnitudes_bound(obs);
        }
        while i < n
            invariant
                n == obs.len(),
                obs == existing_obligations@,
                0 <= i <= n,
                exact == payments_fit(obs, new_payment),
                exact || pdn_steps_defined(obs, new_payment, income.amount()),
                s == payments_scale(obs, new_payment),
                total_existing == sum_recognized(obs.take(i as int)),
                exact ==> total_existing.units() == sum_recognized_units(obs.take(i as int)),
                exact ==> total_existing.scale_of() <= finest_recognized_scale(obs.take(i as int)),
            decreases n - i,
        {
            let rp = existing_obligations[i].recognized_payment();
            proof {
                lemma_prefix_sums(obs, i as int);
                if exact {
                    lemma_magnitudes_prefix(obs, i as int + 1);
                    lemma_magnitudes_bound(obs.take(i as int + 1));
                    assert(obs[i as int].limit_share_exact());
                    let m = max_nat(total_existing.scale_of(), rp.scale_of());
                    assert(m <= s);
                    lemma_pow10_monotone((28 - s) as nat, (28 - m) as nat);
                    assert(mantissa_bound() * pow10((28 - s) as nat) <= mantissa_bound() * pow10(
                        (28 - m) as nat,
                    )) by (nonlinear_arith)
                        requires
                            pow10((28 - s) as nat) <= pow10((28 - m) as nat),
                            mantissa_bound() > 0,
                    ;
                    assert(crate::decimal::sum_is_exact(total_existing, rp));
                } else {
                    assert(obs.take(i as int + 1)[i as int] == obs[i as int]);
                    assert(decimal_checked_add(sum_recognized(obs.take(i as int)), obs[i as int].recognized()) is Some);
                }
            }
            let next = total_existing.rd_checked_add(&rp);
            total_existing = match next {
                Some(t) => t,
                None => Decimal::zero(),
            };
            i = i + 1;
        }
        proof {
            assert(obs.take(n as int) =~= obs);
            if exact {
                lemma_magnitudes_bound(obs);
                let m = max_nat(total_existing.scale_of(), new_payment.scale_of());
                assert(m <= s);
                lemma_pow10_monotone((28 - s) as nat, (28 - m) as nat);
                assert(mantissa_bound() * pow10((28 - s) as nat) <= mantissa_bound() * pow10(
                    (28 - m) as nat,
                )) by (nonlinear_arith)
                    requires
                        pow10((28 - s) as nat) <= pow10((28 - m) as nat),
                        mantissa_bound() > 0,
                ;
                assert(crate::decimal::sum_is_exact(total_existing, new_payment));
            }
        }
        let total_payments = match total_existing.rd_checked_add(&new_payment) {
            Some(t) => t,
            None => Decimal::zero(),
        };
        let inc_val = income.value();
        let raw = safe_div(total_payments, inc_val);
        let ratio = round_financial(raw);
        proof {
            if inc_val.units() > 0 && total_payments.units() >= 0 {
                crate::decimal::lemma_rounding_keeps_sign(raw, ratio);
            }
        }
        let threshold = Decimal::new(50, 2);
        proof {
            lemma_pow10_positive(26);
            assert(threshold.units() == 50 * pow10(26));
        }
        Ok(PdnResult { ratio, total_payments, is_risky: ratio.rd_gt(&threshold) })
    }
}

} // verus!
