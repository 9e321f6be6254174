use rfe::audit::{
    audit_root_gost_export, build_signed_audit_export, AuditEntry, AuditSignatureAlgorithm,
    SealInput,
};
use rfe::digest::{blake3_chain, blake3_hash};
use rfe::ids::RequestId;
use rfe::smev::{SmevClient, SmevError};

#[test]
fn blake3_chain_deterministic() {
    let h1 = blake3_chain(&[b"hello", b"world"]);
    let h2 = blake3_chain(&[b"hello", b"world"]);
    assert_eq!(h1, h2);
    let h3 = blake3_chain(&[b"world", b"hello"]);
    assert_ne!(h1, h3);
}

#[test]
fn blake3_chain_is_hash_of_concatenation() {
    assert_eq!(blake3_chain(&[b"hello", b"world"]), blake3_hash(b"helloworld"));
    assert_eq!(blake3_chain(&[]), blake3_hash(b""));
}

#[test]
fn blake3_hash_known_vector() {
    let h = blake3_hash(b"");
    assert_eq!(h[0], 0xaf);
    assert_eq!(h[1], 0x13);
    assert_eq!(h[31], 0x62);
}

#[test]
fn audit_chain_verifies() {
    let genesis = AuditEntry::genesis(0, b"genesis payload", None);
    let next = genesis.next(100, b"test payload", None);
    assert!(next.verify_chain(&genesis));
    // Tampered parent fails
    let mut tampered = next.clone();
    tampered.parent_hash = [0xff; 32];
    assert!(!tampered.verify_chain(&genesis));
}

#[test]
fn chained_audit_links_to_previous_head() {
    let nonce = [7u8; 32];
    let first = AuditEntry::genesis(10, b"FIRST", Some(&nonce));
    let second = AuditEntry::next(&first, 20, b"SECOND", Some(&nonce));
    assert_eq!(second.parent_hash, first.entry_hash);
}

#[test]
fn genesis_is_a_root() {
    let g = AuditEntry::genesis(5, b"x", None);
    assert_eq!(g.parent_hash, [0u8; 32]);
    assert_eq!(g.payload_hash, blake3_hash(b"x"));
    assert_eq!(g.created_at_micros, 5);
    assert_eq!(g.request_id, RequestId::nil());
    assert_eq!(g.operator_binding_hash, [0u8; 32]);
}

#[test]
fn genesis_with_nonce_keeps_it() {
    let nonce = [9u8; 32];
    let g = AuditEntry::genesis(5, b"x", Some(&nonce));
    assert_eq!(g.session_nonce, nonce);
}

#[test]
fn entry_hash_hex_is_lowercase_and_64_long() {
    let g = AuditEntry::genesis(1, b"hex", None);
    let hex = g.hash_hex();
    assert_eq!(hex.len(), 64);
    let expected: String = g.entry_hash.iter().map(|b| format!("{:02x}", b)).collect();
    assert_eq!(hex, expected);
}

#[test]
fn seal_reflects_every_input() {
    let base = SealInput::new_v1([1; 32], [2; 32], [3; 32], [4; 32]);
    assert_eq!(base.version, 1);
    let s = base.compute_seal();
    assert_eq!(s, base.compute_seal());
    assert_ne!(s, SealInput::new_v1([9; 32], [2; 32], [3; 32], [4; 32]).compute_seal());
    assert_ne!(s, SealInput::new_v1([1; 32], [9; 32], [3; 32], [4; 32]).compute_seal());
    assert_ne!(s, SealInput::new_v1([1; 32], [2; 32], [9; 32], [4; 32]).compute_seal());
    assert_ne!(s, SealInput::new_v1([1; 32], [2; 32], [3; 32], [9; 32]).compute_seal());
}

#[test]
fn seal_is_hash_of_its_message() {
    let input = SealInput::new_v1([1; 32], [2; 32], [3; 32], [4; 32]);
    let mut msg: Vec<u8> = b"NORM_SEAL_V1".to_vec();
    msg.extend_from_slice(&1u32.to_le_bytes());
    msg.extend_from_slice(&[1; 32]);
    msg.extend_from_slice(&[2; 32]);
    msg.extend_from_slice(&[3; 32]);
    msg.extend_from_slice(&[4; 32]);
    assert_eq!(input.compute_seal(), blake3_hash(&msg));
}

#[test]
fn gost_export_rehashes_the_root() {
    let root = [5u8; 32];
    let export = audit_root_gost_export(&root);
    assert_eq!(export.blake3_root, root);
    assert_ne!(export.streebog_root, root);
    assert_eq!(export.streebog_hex().len(), 64);
    assert_eq!(audit_root_gost_export(&root).streebog_root, export.streebog_root);
}

#[test]
fn signed_export_carries_the_entry() {
    let entry = AuditEntry::genesis(42, b"payload", Some(&[3u8; 32]));
    let env = build_signed_audit_export(&entry).unwrap();
    assert_eq!(env.algorithm, AuditSignatureAlgorithm::Blake3DetachedV1);
    assert_eq!(env.entry_hash, entry.entry_hash);
    assert_eq!(env.seal, entry.seal);
    assert_eq!(env.blake3_root, entry.entry_hash);
    assert_eq!(env.streebog_root, audit_root_gost_export(&entry.entry_hash).streebog_root);
    assert_eq!(env.session_nonce, [3u8; 32]);
}

#[test]
fn fingerprint_is_deterministic() {
    let a = SmevClient::request_fingerprint(b"payload");
    let b = SmevClient::request_fingerprint(b"payload");
    let c = SmevClient::request_fingerprint(b"payload2");
    assert_eq!(a, b);
    assert_ne!(a, c);
}

#[test]
fn poll_outcome_audit_chains() {
    let ok: Result<String, SmevError> = Ok("<Response/>".to_string());
    let first = SmevClient::audit_poll_outcome(&ok, 10, [1; 32], None);
    assert_eq!(first.parent_hash, [0u8; 32]);
    assert_eq!(first.payload_hash, blake3_hash(b"<Response/>"));
    let timeout: Result<String, SmevError> = Err(SmevError::Timeout);
    let second = SmevClient::audit_poll_outcome(&timeout, 20, [1; 32], Some(&first));
    assert_eq!(second.parent_hash, first.entry_hash);
    assert_eq!(second.payload_hash, blake3_hash(b"SMEV_TIMEOUT"));
}

#[test]
fn signed_export_signature_covers_the_fields() {
    let entry = AuditEntry::genesis(42, b"payload", Some(&[3u8; 32]));
    let env = build_signed_audit_export(&entry).unwrap();
    let expected = blake3_chain(&[
        b"NORM_EXPORT_SIG_V1",
        &entry.entry_hash,
        &entry.seal,
        &env.streebog_root,
        &entry.operator_binding_hash,
        &entry.session_nonce,
        &entry.processing_time_micros.to_le_bytes(),
    ]);
    assert_eq!(env.signature, expected);
}

#[test]
fn signed_export_refuses_empty_hashes() {
    let mut entry = AuditEntry::genesis(1, b"p", None);
    entry.seal = [0u8; 32];
    assert_eq!(build_signed_audit_export(&entry).unwrap_err(), rfe::audit::AuditExportError::InvalidSeal);
    entry.entry_hash = [0u8; 32];
    assert_eq!(
        build_signed_audit_export(&entry).unwrap_err(),
        rfe::audit::AuditExportError::InvalidEntryHash
    );
    assert_eq!(rfe::audit::AuditExportError::InvalidSeal.message(), "invalid seal");
}
