use rfe::decimal::Decimal;
use rfe::ids::{ClientId, LoanId};
use rfe::lending::{
    advance_hash_at, BnplOrder, LoanApplication, PdnRiskTier, AML_IDENTIFICATION_REQUIRED,
    BNPL_BKI_LIMIT_EXCEEDED, BNPL_TERM_EXCEEDED, PDN_REJECTED, SCORING_REJECTED,
};
use rfe::digest::blake3_chain;
use rfe::lending::Hashable;

#[test]
fn full_happy_path() {
    let draft = LoanApplication::new(ClientId::new(), Decimal::new(10_000, 0));
    let scoring = draft.submit_to_scoring();
    let pdn = scoring.scoring_done(true).unwrap();
    let approved = pdn.pdn_done(false).unwrap();
    let disbursed = approved.disburse();
    let closed = disbursed.close();
    // hash must have mutated multiple times
    assert_ne!(closed.history_hash, [0u8; 32]);
}

#[test]
fn bnpl_term_enforcement() {
    assert!(BnplOrder::create_regulated(
        ClientId::new(),
        Decimal::new(5000, 0),
        4,
        false,
        true
    )
    .is_ok());
    assert!(BnplOrder::create_regulated(
        ClientId::new(),
        Decimal::new(5000, 0),
        7,
        false,
        true
    )
    .is_err());
}

#[test]
fn bnpl_bki_limit_enforcement() {
    // Allow > 50k if with BKI
    assert!(BnplOrder::create_regulated(
        ClientId::new(),
        Decimal::new(60_000, 0),
        4,
        false,
        true
    )
    .is_ok());
    // Fails if > 50k and without BKI
    assert!(BnplOrder::create_regulated(
        ClientId::new(),
        Decimal::new(60_000, 0),
        4,
        true,
        true
    )
    .is_err());
    // Allow <= 50k without BKI
    assert!(BnplOrder::create_regulated(
        ClientId::new(),
        Decimal::new(50_000, 0),
        4,
        true,
        true
    )
    .is_ok());
}

#[test]
fn bnpl_bki_report_required() {
    // Over 50k with BKI: must flag for mandatory BKI reporting per 6960-U
    let order =
        BnplOrder::create_regulated(ClientId::new(), Decimal::new(60_000, 0), 4, false, true)
            .unwrap();
    assert!(order.bki_report_required());

    // Under or equal to 50k: no mandatory BKI report required
    let order_small =
        BnplOrder::create_regulated(ClientId::new(), Decimal::new(50_000, 0), 4, true, true)
            .unwrap();
    assert!(!order_small.bki_report_required());
}

#[test]
fn aml_identification_threshold_enforced() {
    let err = LoanApplication::new_with_identification(
        ClientId::new(),
        Decimal::new(20_000, 0),
        false,
    )
    .unwrap_err();
    assert!(err.contains("15,000"));
}

#[test]
fn aml_threshold_is_inclusive() {
    assert!(LoanApplication::new_with_identification(ClientId::new(), Decimal::new(15_000, 0), false).is_ok());
    assert_eq!(
        LoanApplication::new_with_identification(ClientId::new(), Decimal::new(1_500_001, 2), false)
            .unwrap_err(),
        AML_IDENTIFICATION_REQUIRED
    );
    assert!(LoanApplication::new_with_identification(ClientId::new(), Decimal::new(20_000, 0), true).is_ok());
}

#[test]
fn transitions_chain_the_history_hash() {
    let id = LoanId::from_uuid([1; 16]);
    let client = ClientId::from_uuid([2; 16]);
    let draft = LoanApplication::new_with_identification_at(id, client, Decimal::new(100, 0), true, 1_000)
        .unwrap();
    let initial = blake3_chain(&[&[1u8; 16], &[2u8; 16], &1_000i64.to_le_bytes()]);
    assert_eq!(draft.history_hash, initial);
    let scoring = draft.submit_to_scoring_at(2_000);
    let expected = blake3_chain(&[&initial, &[1u8; 16], b"submit_scoring", &2_000i64.to_le_bytes()]);
    assert_eq!(scoring.history_hash, expected);
    assert_eq!(scoring.history_hash, advance_hash_at(initial, &[1u8; 16], "submit_scoring", 2_000));
    assert_eq!(scoring.id, id);
    assert_eq!(scoring.client_id, client);
    let pdn = scoring.scoring_done_at(true, 3_000).unwrap();
    let approved = pdn.pdn_done_tier_at(PdnRiskTier::Tier10x, 4_000).unwrap();
    let disbursed = approved.disburse_at(5_000);
    assert_eq!(disbursed.state.disbursed_at, 5_000);
    let before_close = disbursed.history_hash;
    let closed = disbursed.close_at(6_000);
    assert_eq!(closed.history_hash, advance_hash_at(before_close, &[1u8; 16], "close", 6_000));
}

#[test]
fn rejections_carry_their_reasons() {
    let draft = LoanApplication::new(ClientId::new(), Decimal::new(100, 0));
    let rejected = draft.clone().reject("no".to_string());
    assert_eq!(rejected.state.reason, "no");
    let failed = draft.clone().submit_to_scoring().scoring_done(false).unwrap_err();
    assert_eq!(failed.state.reason, SCORING_REJECTED);
    let risky = draft.clone().submit_to_scoring().scoring_done(true).unwrap().pdn_done(true).unwrap_err();
    assert_eq!(risky.state.reason, PDN_REJECTED);
    assert_eq!(risky.id, draft.id);
}

#[test]
fn pdn_tiers() {
    let mk = || LoanApplication::new(ClientId::new(), Decimal::new(100, 0)).submit_to_scoring().scoring_done(true).unwrap();
    assert!(mk().pdn_done_tier(PdnRiskTier::Tier10x).is_ok());
    assert!(mk().pdn_done_tier(PdnRiskTier::Tier15x).is_ok());
    assert!(mk().pdn_done_tier(PdnRiskTier::Tier30x).is_err());
    assert!(mk().pdn_done_tier(PdnRiskTier::Tier50x).is_err());
}

#[test]
fn bnpl_term_limit_changes_on_2028_04_01() {
    let reduction = 1_838_160_000_000_000i64;
    assert_eq!(BnplOrder::max_term_months_for_date(reduction - 1), 6);
    assert_eq!(BnplOrder::max_term_months_for_date(reduction), 4);
    assert_eq!(BnplOrder::max_term_months_for_date(0), BnplOrder::BNPL_MAX_TERM_UNTIL_2028_MONTHS);
    assert_eq!(BnplOrder::max_term_months_for_date(i64::MAX), BnplOrder::BNPL_MAX_TERM_FROM_2028_MONTHS);
}

#[test]
fn bnpl_rules_in_order() {
    let id = LoanId::from_uuid([3; 16]);
    let client = ClientId::from_uuid([4; 16]);
    let before = 1_700_000_000_000_000i64;
    let after = 1_900_000_000_000_000i64;
    assert!(BnplOrder::create_regulated_at(id, client, Decimal::new(5_000, 0), 6, false, true, before).is_ok());
    assert_eq!(
        BnplOrder::create_regulated_at(id, client, Decimal::new(5_000, 0), 6, false, true, after).unwrap_err(),
        BNPL_TERM_EXCEEDED
    );
    assert_eq!(
        BnplOrder::create_regulated_at(id, client, Decimal::new(60_000, 0), 9, true, false, before).unwrap_err(),
        BNPL_TERM_EXCEEDED
    );
    assert_eq!(
        BnplOrder::create_regulated_at(id, client, Decimal::new(60_000, 0), 4, true, false, before).unwrap_err(),
        BNPL_BKI_LIMIT_EXCEEDED
    );
    assert_eq!(
        BnplOrder::create_regulated_at(id, client, Decimal::new(20_000, 0), 4, false, false, before).unwrap_err(),
        AML_IDENTIFICATION_REQUIRED
    );
    let ok = BnplOrder::create_regulated_at(id, client, Decimal::new(20_000, 0), 4, true, true, before).unwrap();
    assert_eq!(ok.term_months, 4);
    assert!(ok.without_bki);
    assert_eq!(ok.inner.id, id);
}

#[test]
fn content_hash_is_the_history_hash() {
    let draft = LoanApplication::new(ClientId::new(), Decimal::new(100, 0));
    assert_eq!(draft.content_hash(), draft.history_hash);
}
