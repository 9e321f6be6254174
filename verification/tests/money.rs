use rfe::decimal::{round_financial, safe_div, Decimal};
use rfe::pdn::{IncomeSource, Obligation, PdnCalculator, UNCONFIRMED_INCOME_REJECTION};

#[test]
fn safe_div_zero_denominator() {
    assert_eq!(safe_div(Decimal::new(100, 0), Decimal::zero()), Decimal::zero());
}

#[test]
fn safe_div_divides() {
    assert_eq!(safe_div(Decimal::new(25_000, 0), Decimal::new(60_000, 0)).to_string(), "0.4166666666666666666666666667");
    assert_eq!(safe_div(Decimal::new(1, 0), Decimal::new(4, 0)), Decimal::new(25, 2));
}

#[test]
fn round_financial_banker() {
    // 1.005 rounds to 1.00 with HALF_EVEN (banker's rounding)
    let d = Decimal::new(1005, 3); // 1.005
    let rounded = round_financial(d);
    assert_eq!(rounded.to_string(), "1.00");
}

#[test]
fn round_financial_ties_to_even() {
    assert_eq!(round_financial(Decimal::new(1015, 3)).to_string(), "1.02");
    assert_eq!(round_financial(Decimal::new(1025, 3)).to_string(), "1.02");
    assert_eq!(round_financial(Decimal::new(-1025, 3)).to_string(), "-1.02");
    assert_eq!(round_financial(Decimal::new(10251, 4)).to_string(), "1.03");
    assert_eq!(round_financial(Decimal::new(7, 0)).to_string(), "7");
}

#[test]
fn decimal_text() {
    assert_eq!(Decimal::new(0, 0).to_string(), "0");
    assert_eq!(Decimal::new(0, 2).to_string(), "0.00");
    assert_eq!(Decimal::new(5, 3).to_string(), "0.005");
    assert_eq!(Decimal::new(1234, 2).to_string(), "12.34");
    assert_eq!(Decimal::new(-5, 2).to_string(), "-0.05");
    assert_eq!(Decimal::new(20, 1).to_string(), "2.0");
    assert_eq!(Decimal::new(-42, 0).to_string(), "-42");
}

#[test]
fn decimal_equality_is_by_value() {
    assert_eq!(Decimal::new(50, 2), Decimal::new(5, 1));
    assert_ne!(Decimal::new(50, 2), Decimal::new(5, 2));
    assert_eq!(Decimal::default(), Decimal::zero());
    assert!(Decimal::new(0, 3).is_zero());
}

#[test]
fn calculate_pdn_standard_loan() {
    let existing = vec![Obligation {
        monthly_payment: Decimal::new(15_000, 0),
        is_credit_card: false,
        credit_limit: None,
    }];
    let income = IncomeSource::Confirmed(Decimal::new(60_000, 0));
    let new_payment = Decimal::new(10_000, 0);
    let loan_amount = Decimal::new(100_000, 0);

    let res = PdnCalculator::calculate(&existing, &income, new_payment, loan_amount).unwrap();
    assert_eq!(res.total_payments, Decimal::new(25_000, 0));
    assert_eq!(res.ratio, Decimal::new(42, 2)); // 25000/60000 = 0.4166.. -> 0.42
    assert!(!res.is_risky);
}

#[test]
fn calculate_pdn_credit_card_5_percent_limit() {
    // Payment is 1000, but limit is 100,000. 5% of 100k is 5,000.
    // It should use 5,000.
    let existing = vec![Obligation {
        monthly_payment: Decimal::new(1_000, 0),
        is_credit_card: true,
        credit_limit: Some(Decimal::new(100_000, 0)),
    }];
    let income = IncomeSource::Confirmed(Decimal::new(30_000, 0));
    let new_payment = Decimal::new(10_000, 0); // Total: 15,000
    let loan_amount = Decimal::new(80_000, 0);

    let res = PdnCalculator::calculate(&existing, &income, new_payment, loan_amount).unwrap();
    assert_eq!(res.total_payments, Decimal::new(15_000, 0));
    assert_eq!(res.ratio, Decimal::new(50, 2));
    assert!(!res.is_risky); // <= 0.50 is not risky, > 0.50 is
}

#[test]
fn pdn_zero_income_confirmed_safe() {
    let existing = vec![];
    let income = IncomeSource::Confirmed(Decimal::zero());
    let new_payment = Decimal::new(10_000, 0);
    let loan_amount = Decimal::new(100_000, 0);

    let res = PdnCalculator::calculate(&existing, &income, new_payment, loan_amount).unwrap();
    assert_eq!(res.ratio, Decimal::zero()); // safe_div returns zero
}

#[test]
fn pdn_rejects_declared_income_regardless_of_amount() {
    let existing = vec![];
    let income = IncomeSource::Declared(Decimal::new(40_000, 0));
    let new_payment = Decimal::new(5_000, 0);
    let loan_amount = Decimal::new(300_000, 0);

    // Fails because income is unconfirmed regardless of loan amount.
    let err =
        PdnCalculator::calculate(&existing, &income, new_payment, loan_amount).unwrap_err();
    assert!(err.contains("6960-U"));

    let income_official = IncomeSource::Confirmed(Decimal::new(40_000, 0));
    assert!(
        PdnCalculator::calculate(&existing, &income_official, new_payment, loan_amount).is_ok()
    );
}

#[test]
fn credit_card_5pct_rule_6960u_regression_vector() {
    let obligation = Obligation {
        monthly_payment: Decimal::zero(),
        is_credit_card: true,
        credit_limit: Some(Decimal::new(100_000, 0)),
    };

    assert_eq!(obligation.recognized_payment(), Decimal::new(5_000, 0));
}

#[test]
fn credit_card_uses_actual_payment_when_higher_than_5pct() {
    let obligation = Obligation {
        monthly_payment: Decimal::new(8_000, 0),
        is_credit_card: true,
        credit_limit: Some(Decimal::new(100_000, 0)),
    };
    assert_eq!(obligation.recognized_payment(), Decimal::new(8_000, 0));
}

#[test]
fn credit_card_without_limit_counts_its_payment() {
    let obligation = Obligation {
        monthly_payment: Decimal::new(700, 0),
        is_credit_card: true,
        credit_limit: None,
    };
    assert_eq!(obligation.recognized_payment(), Decimal::new(700, 0));
}

#[test]
fn pdn_above_half_is_risky() {
    let existing = vec![Obligation {
        monthly_payment: Decimal::new(20_000, 0),
        is_credit_card: false,
        credit_limit: None,
    }];
    let income = IncomeSource::FamilyTotal(Decimal::new(50_000, 0));
    let res = PdnCalculator::calculate(&existing, &income, Decimal::new(6_000, 0), Decimal::zero())
        .unwrap();
    assert_eq!(res.total_payments, Decimal::new(26_000, 0));
    assert_eq!(res.ratio, Decimal::new(52, 2));
    assert!(res.is_risky);
}

#[test]
fn pdn_estimated_income_refused() {
    let income = IncomeSource::Estimated(Decimal::new(90_000, 0));
    assert_eq!(
        PdnCalculator::calculate(&[], &income, Decimal::new(1, 0), Decimal::zero()).unwrap_err(),
        UNCONFIRMED_INCOME_REJECTION
    );
    assert!(!income.is_confirmed());
    assert_eq!(income.value(), Decimal::new(90_000, 0));
}
