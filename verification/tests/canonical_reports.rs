use rfe::audit::SealInput;
use rfe::decimal::Decimal;
use rfe::report::{
    hash_canonical_reports, hash_raw_request, sort_reports, CanonicalHashError, ComplianceReport,
    FraudSign,
};

fn report(id: &str, recommendation: &str) -> ComplianceReport {
    ComplianceReport {
        transaction_id: id.to_string(),
        pdn_ratio: Decimal::zero(),
        is_pdn_risky: false,
        fraud_signs: vec![],
        recommendation: recommendation.to_string(),
        created_at_micros: 0,
    }
}

#[test]
fn test_seal_v1_determinism() {
    let nonce = [0xAAu8; 32];
    let chain_head_pre = [0x55u8; 32];

    // Request: Single line CSV
    let csv = b"TX001,100.00,500.00,1\n";
    let request_hash = hash_raw_request(csv);

    // Response: Single report
    let mut reports = vec![ComplianceReport {
        transaction_id: "TX001".to_string(),
        pdn_ratio: Decimal::new(2, 1), // 0.2
        is_pdn_risky: false,
        fraud_signs: vec![],
        recommendation: "APPROVE".to_string(),
        created_at_micros: 1712500000000,
    }];
    let result_hash = hash_canonical_reports(&mut reports).expect("canonical result hash");

    let seal_input = SealInput::new_v1(nonce, request_hash, result_hash, chain_head_pre);
    let seal_a = seal_input.compute_seal();

    // 1. Determinism check
    let seal_b = seal_input.compute_seal();
    assert_eq!(seal_a, seal_b, "Seal must be deterministic");

    // 2. Request perturbation (Dirty Bit Request)
    let csv_modified = b"TX001,100.01,500.00,1\n";
    let request_hash_mod = hash_raw_request(csv_modified);
    let seal_mod_req =
        SealInput::new_v1(nonce, request_hash_mod, result_hash, chain_head_pre).compute_seal();
    assert_ne!(seal_a, seal_mod_req, "Seal must reflect request changes");

    // 3. Result perturbation (Dirty Bit Result)
    let mut reports_mod = reports.clone();
    reports_mod[0].is_pdn_risky = true;
    let result_hash_mod = hash_canonical_reports(&mut reports_mod).expect("canonical result hash");
    let seal_mod_res =
        SealInput::new_v1(nonce, request_hash, result_hash_mod, chain_head_pre).compute_seal();
    assert_ne!(seal_a, seal_mod_res, "Seal must reflect result changes");

    // 4. Nonce perturbation
    let mut nonce_mod = nonce;
    nonce_mod[0] ^= 0xFF;
    let seal_mod_nonce =
        SealInput::new_v1(nonce_mod, request_hash, result_hash, chain_head_pre).compute_seal();
    assert_ne!(seal_a, seal_mod_nonce, "Seal must reflect nonce changes");
}

#[test]
fn test_canonical_sorting() {
    let mut reports = vec![
        ComplianceReport {
            transaction_id: "TX002".to_string(),
            pdn_ratio: Decimal::zero(),
            is_pdn_risky: false,
            fraud_signs: vec![],
            recommendation: "A".to_string(),
            created_at_micros: 0,
        },
        ComplianceReport {
            transaction_id: "TX001".to_string(),
            pdn_ratio: Decimal::zero(),
            is_pdn_risky: false,
            fraud_signs: vec![],
            recommendation: "B".to_string(),
            created_at_micros: 0,
        },
    ];

    let hash_a = hash_canonical_reports(&mut reports).expect("canonical result hash");

    // Shuffle and re-hash
    let mut reports_shuffled = vec![reports[1].clone(), reports[0].clone()];
    let hash_b = hash_canonical_reports(&mut reports_shuffled).expect("canonical result hash");

    assert_eq!(
        hash_a, hash_b,
        "Hash must be invariant to input insertion order due to canonical sorting"
    );
    assert_eq!(
        reports[0].transaction_id, "TX001",
        "Reports must be sorted in-place"
    );
}

#[test]
fn canonical_hash_is_blake3_of_compact_json() {
    let mut reports = vec![ComplianceReport {
        transaction_id: "TX001".to_string(),
        pdn_ratio: Decimal::new(2, 1),
        is_pdn_risky: false,
        fraud_signs: vec![],
        recommendation: "APPROVE".to_string(),
        created_at_micros: 1712500000000,
    }];
    let json = r#"[{"transaction_id":"TX001","pdn_ratio":"0.2","is_pdn_risky":false,"fraud_signs":[],"recommendation":"APPROVE","created_at_micros":1712500000000}]"#;
    assert_eq!(hash_canonical_reports(&mut reports).unwrap(), hash_raw_request(json.as_bytes()));
}

#[test]
fn canonical_json_escapes_and_lists_signs() {
    let mut reports = vec![
        ComplianceReport {
            transaction_id: "B\"\\\n\r\t\u{1}".to_string(),
            pdn_ratio: Decimal::new(-5, 2),
            is_pdn_risky: true,
            fraud_signs: vec![
                FraudSign::DeviceInDatabase,
                FraudSign::Other("x\"y".to_string()),
                FraudSign::ExternalOperatorSignal,
            ],
            recommendation: "ÜBER".to_string(),
            created_at_micros: 7,
        },
        report("A", "ok"),
    ];
    let json = format!(
        "{}{}",
        r#"[{"transaction_id":"A","pdn_ratio":"0","is_pdn_risky":false,"fraud_signs":[],"recommendation":"ok","created_at_micros":0},"#,
        r#"{"transaction_id":"B\"\\\n\r\t\u0001","pdn_ratio":"-0.05","is_pdn_risky":true,"fraud_signs":["DeviceInDatabase","x\"y","ExternalOperatorSignal"],"recommendation":"ÜBER","created_at_micros":7}]"#
    );
    assert_eq!(hash_canonical_reports(&mut reports).unwrap(), hash_raw_request(json.as_bytes()));
    assert_eq!(reports[0].transaction_id, "A");
}

#[test]
fn empty_report_list_hashes_empty_array() {
    let mut reports: Vec<ComplianceReport> = vec![];
    assert_eq!(hash_canonical_reports(&mut reports).unwrap(), hash_raw_request(b"[]"));
}

#[test]
fn sort_is_stable_for_equal_ids() {
    let mut reports = vec![report("T2", "first"), report("T1", "x"), report("T2", "second"), report("T0", "y")];
    sort_reports(&mut reports);
    let order: Vec<(&str, &str)> = reports
        .iter()
        .map(|r| (r.transaction_id.as_str(), r.recommendation.as_str()))
        .collect();
    assert_eq!(order, vec![("T0", "y"), ("T1", "x"), ("T2", "first"), ("T2", "second")]);
}

#[test]
fn sort_orders_by_code_point() {
    let mut reports = vec![report("b", ""), report("aa", ""), report("a", ""), report("B", ""), report("é", "")];
    sort_reports(&mut reports);
    let ids: Vec<&str> = reports.iter().map(|r| r.transaction_id.as_str()).collect();
    assert_eq!(ids, vec!["B", "a", "aa", "b", "é"]);
}

#[test]
fn reordering_distinct_ids_gives_same_hash() {
    let a = vec![report("T3", "c"), report("T1", "a"), report("T2", "b")];
    let mut x = a.clone();
    let mut y = vec![a[2].clone(), a[0].clone(), a[1].clone()];
    assert_eq!(hash_canonical_reports(&mut x).unwrap(), hash_canonical_reports(&mut y).unwrap());
    assert_eq!(x, y);
}

#[test]
fn raw_request_hash_is_blake3() {
    assert_eq!(hash_raw_request(b"abc"), rfe::digest::blake3_hash(b"abc"));
    assert_ne!(hash_raw_request(b"abc"), hash_raw_request(b"abd"));
}

#[test]
fn canonical_error_message() {
    assert_eq!(CanonicalHashError::SerializationFailed.message(), "canonical serialization failed");
}
