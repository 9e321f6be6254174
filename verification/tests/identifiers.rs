use rfe::ids::{ClientId, Inn, LoanId, Ogrn, RequestId, RfeError};

#[test]
fn inn_valid_10_digit() {
    let inn = Inn::parse("7700000000").unwrap();
    assert_eq!(inn.as_str(), "7700000000");
}

#[test]
fn inn_valid_12_digit() {
    let inn = Inn::parse("770000000001").unwrap();
    assert_eq!(inn.as_str(), "770000000001");
}

#[test]
fn inn_invalid_rejects() {
    assert!(Inn::parse("123").is_err());
    assert!(Inn::parse("12345678901234").is_err());
}

#[test]
fn ogrn_valid_13() {
    assert!(Ogrn::parse("1027700000")
        .or(Ogrn::parse("1027700000001"))
        .is_ok());
}

#[test]
fn inn_keeps_only_digits() {
    let inn = Inn::parse("77-00 000 000").unwrap();
    assert_eq!(inn.as_str(), "7700000000");
}

#[test]
fn inn_error_carries_input() {
    match Inn::parse("12a3") {
        Err(RfeError::InvalidInn(s)) => assert_eq!(s, "12a3"),
        other => panic!("expected InvalidInn, got {:?}", other.is_ok()),
    }
}

#[test]
fn ogrn_lengths() {
    assert_eq!(Ogrn::parse("1027700000001").unwrap().as_str(), "1027700000001");
    assert_eq!(Ogrn::parse("304500116000157").unwrap().as_str(), "304500116000157");
    match Ogrn::parse("1027700000") {
        Err(RfeError::InvalidOgrn(s)) => assert_eq!(s, "1027700000"),
        _ => panic!("expected InvalidOgrn"),
    }
}

#[test]
fn inn_new_unchecked_keeps_text() {
    let inn = Inn::new_unchecked("not digits");
    assert_eq!(inn.as_str(), "not digits");
}

#[test]
fn ids_nil_and_from_bytes() {
    assert_eq!(RequestId::nil().as_bytes(), &[0u8; 16]);
    assert_eq!(LoanId::default(), LoanId::nil());
    let bytes = [7u8; 16];
    assert_eq!(ClientId::from_uuid(bytes).as_bytes(), &bytes);
}

#[test]
fn fresh_ids_are_version_4() {
    let a = LoanId::new();
    let b = LoanId::new();
    assert_ne!(a, b);
    assert_eq!(a.as_bytes()[6] >> 4, 4);
    assert_eq!(a.as_bytes()[8] >> 6, 2);
}

#[test]
fn sensitive_values_are_redacted() {
    let s = rfe::ids::Sensitive("7700000000".to_string());
    assert_eq!(s.redacted(), "[REDACTED PII]");
}

#[test]
fn ids_display_as_hyphenated_uuids() {
    let bytes = [
        0x67, 0xe5, 0x50, 0x44, 0x10, 0xb1, 0x42, 0x6f, 0x92, 0x47, 0xbb, 0x68, 0x0e, 0x5f, 0xe0, 0xc8,
    ];
    assert_eq!(
        RequestId::from_uuid(bytes).to_string(),
        "67e55044-10b1-426f-9247-bb680e5fe0c8"
    );
    assert_eq!(LoanId::nil().to_string(), "00000000-0000-0000-0000-000000000000");
    let id = ClientId::new();
    assert_eq!(id.to_string(), uuid::Uuid::from_bytes(id.as_bytes().try_into().unwrap()).to_string());
}
