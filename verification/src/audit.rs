//! The hash-chained audit trail and the protocol seal.

use vstd::prelude::*;
use crate::digest::{
    blake3_chain, blake3_hash, blake3_of, concat_parts, lemma_concat_parts_push, streebog256,
    streebog256_of, views_of,
};
use crate::ids::{RequestId, is_nil_uuid};
use crate::text::{hex_lower, hex_text};

verus! {

/// Domain prefix of the protocol seal: the ASCII bytes of `NORM_SEAL_V1`.
pub const SEAL_DOMAIN_PREFIX: [u8; 12] = [78, 79, 82, 77, 95, 83, 69, 65, 76, 95, 86, 49];

/// The bytes of the seal's domain prefix.
pub open spec fn seal_prefix_bytes() -> Seq<u8> {
    seq![78u8, 79, 82, 77, 95, 83, 69, 65, 76, 95, 86, 49]
}

fn seal_prefix() -> (p: [u8; 12])
    ensures
        p@ == seal_prefix_bytes(),
{
    let p = SEAL_DOMAIN_PREFIX;
    assert(p@ =~= seal_prefix_bytes());
    p
}

/// The `n` low-order bytes of `x`, least significant first.
pub open spec fn le_bytes(x: nat, n: nat) -> Seq<u8>
    decreases n,
{
    if n == 0 {
        Seq::empty()
    } else {
        seq![(x % 256) as u8] + le_bytes(x / 256, (n - 1) as nat)
    }
}

/// The little-endian bytes of a `u32`, as `to_le_bytes` gives them.
pub fn u32_le_bytes(x: u32) -> (b: [u8; 4])
    ensures
        b@ == le_bytes(x as nat, 4),
{
    let b = [(x % 256) as u8, (x / 256 % 256) as u8, (x / 65536 % 256) as u8, (x / 16777216) as u8];
    proof {
        reveal_with_fuel(le_bytes, 5);
        assert(x / 256 / 256 == x / 65536);
        assert(x / 65536 / 256 == x / 16777216);
        assert(x / 16777216 < 256);
        assert(b@ =~= le_bytes(x as nat, 4));
    }
    b
}

/// The little-endian bytes of a `u64`, as `to_le_bytes` gives them.
pub fn u64_le_bytes(x: u64) -> (b: [u8; 8])
    ensures
        b@ == le_bytes(x as nat, 8),
{
    let mut b = [0u8; 8];
    let mut y = x;
    let mut i: usize = 0;
    while i < 8
        invariant
            0 <= i <= 8,
            le_bytes(x as nat, 8) == b@.take(i as int) + le_bytes(y as nat, (8 - i) as nat),
        decreases 8 - i,
    {
        let ghost rest = le_bytes(y as nat, (8 - i) as nat);
        let ghost old_b = b@;
        assert(rest == seq![(y % 256) as u8] + le_bytes((y / 256) as nat, (8 - i - 1) as nat));
        b[i] = (y % 256) as u8;
        proof {
            assert(b@.take(i as int + 1) =~= old_b.take(i as int) + seq![(y % 256) as u8]);
        }
        y = y / 256;
        i = i + 1;
    }
    proof {
        assert(b@.take(8) =~= b@);
        assert(le_bytes(y as nat, 0) =~= Seq::<u8>::empty());
    }
    b
}

/// The input to the seal hash.
pub open spec fn seal_message(
    version: u32,
    nonce: Seq<u8>,
    request_hash: Seq<u8>,
    result_hash: Seq<u8>,
    chain_head_pre: Seq<u8>,
) -> Seq<u8> {
    seal_prefix_bytes() + le_bytes(version as nat, 4) + nonce + request_hash + result_hash
        + chain_head_pre
}

/// The seal input of protocol version 1. Its fields are frozen.
#[derive(Clone, Copy, Debug)]
pub struct SealInput {
    pub version: u32,
    pub nonce: [u8; 32],
    pub request_hash: [u8; 32],
    pub result_hash: [u8; 32],
    pub chain_head_pre: [u8; 32],
}

impl SealInput {
    /// The seal of this input: BLAKE3 over the domain prefix, the version in
    /// little-endian bytes, the nonce, the request and result hashes and the
    /// previous chain head.
    pub open spec fn seal(self) -> Seq<u8> {
        blake3_of(
            seal_message(
                self.version,
                self.nonce@,
                self.request_hash@,
                self.result_hash@,
                self.chain_head_pre@,
            ),
        )
    }

    /// A seal input of protocol version 1.
    pub fn new_v1(
        nonce: [u8; 32],
        request_hash: [u8; 32],
        result_hash: [u8; 32],
        chain_head_pre: [u8; 32],
    ) -> (s: SealInput)
        ensures
            s == (SealInput { version: 1, nonce, request_hash, result_hash, chain_head_pre }),
    {
        SealInput { version: 1, nonce, request_hash, result_hash, chain_head_pre }
    }

    /// Computes the seal.
    pub fn compute_seal(&self) -> (r: [u8; 32])
        ensures
            r@ == self.seal(),
    {
        let prefix = seal_prefix();
        let v = u32_le_bytes(self.version);
        let parts: [&[u8]; 6] = [
            prefix.as_slice(),
            v.as_slice(),
            self.nonce.as_slice(),
            self.request_hash.as_slice(),
            self.result_hash.as_slice(),
            self.chain_head_pre.as_slice(),
        ];
        let r = blake3_chain(parts.as_slice());
        proof {
            let e = Seq::<Seq<u8>>::empty();
            assert(views_of(parts@) =~= e.push(prefix@).push(v@).push(self.nonce@).push(
                self.request_hash@,
            ).push(self.result_hash@).push(self.chain_head_pre@));
            lemma_concat_parts_push(e, prefix@);
            lemma_concat_parts_push(e.push(prefix@), v@);
            lemma_concat_parts_push(e.push(prefix@).push(v@), self.nonce@);
            lemma_concat_parts_push(e.push(prefix@).push(v@).push(self.nonce@), self.request_hash@);
            lemma_concat_parts_push(
                e.push(prefix@).push(v@).push(self.nonce@).push(self.request_hash@),
                self.result_hash@,
            );
            lemma_concat_parts_push(
                e.push(prefix@).push(v@).push(self.nonce@).push(self.request_hash@).push(
                    self.result_hash@,
                ),
                self.chain_head_pre@,
            );
            assert(concat_parts(e) =~= Seq::<u8>::empty());
            assert(concat_parts(views_of(parts@)) =~= seal_message(
                self.version,
                self.nonce@,
                self.request_hash@,
                self.result_hash@,
                self.chain_head_pre@,
            ));
        }
        r
    }
}

/// Thirty-two zero bytes.
pub open spec fn zero_hash() -> Seq<u8> {
    Seq::new(32, |i: int| 0u8)
}

/// Whether two 32-byte values are equal.
pub fn hashes_equal(a: &[u8; 32], b: &[u8; 32]) -> (r: bool)
    ensures
        r == (a@ == b@),
{
    let mut i: usize = 0;
    while i < 32
        invariant
            0 <= i <= 32,
            a@.len() == 32,
            b@.len() == 32,
            forall|j: int| 0 <= j < i ==> a@[j] == b@[j],
        decreases 32 - i,
    {
        if a[i] != b[i] {
            return false;
        }
        i = i + 1;
    }
    proof {
        assert(a@ =~= b@);
    }
    true
}

/// An append-only audit entry, BLAKE3-chained to its parent for tamper
/// evidence.
#[derive(Clone, Debug)]
pub struct AuditEntry {
    pub request_id: RequestId,
    pub parent_hash: [u8; 32],
    pub payload_hash: [u8; 32],
    pub entry_hash: [u8; 32],
    pub seal: [u8; 32],
    pub created_at_micros: u64,
    pub processing_time_micros: u64,
    /// Operator identity binding hash (deterministic, non-personal).
    pub operator_binding_hash: [u8; 32],
    /// Operator session binding.
    pub session_nonce: [u8; 32],
}

/// The hash that identifies an entry: BLAKE3 over the previous head, the
/// payload hash twice, and the seal.
pub open spec fn entry_hash_of(head: Seq<u8>, payload_hash: Seq<u8>, seal: Seq<u8>) -> Seq<u8> {
    blake3_of(head + payload_hash + payload_hash + seal)
}

/// The nonce an entry takes: the given one, or else `fallback`.
pub open spec fn chosen_nonce(nonce: Option<&[u8; 32]>, fallback: Seq<u8>) -> Seq<u8> {
    match nonce {
        Some(n) => n@,
        None => fallback,
    }
}

impl AuditEntry {
    /// `self` follows `head` for a payload, nonce and operator binding: it
    /// records `head` as its parent, hashes the payload, seals it with the
    /// nonce over `head`, and chains its own hash from all of these.
    pub open spec fn extends(
        self,
        head: Seq<u8>,
        timestamp_micros: u64,
        payload: Seq<u8>,
        nonce: Seq<u8>,
        operator_binding_hash: Seq<u8>,
    ) -> bool {
        let ph = blake3_of(payload);
        let seal = blake3_of(seal_message(1, nonce, ph, ph, head));
        &&& is_nil_uuid(self.request_id.bytes())
        &&& self.parent_hash@ == head
        &&& self.payload_hash@ == ph
        &&& self.seal@ == seal
        &&& self.entry_hash@ == entry_hash_of(head, ph, seal)
        &&& self.created_at_micros == timestamp_micros
        &&& self.processing_time_micros == 0
        &&& self.operator_binding_hash@ == operator_binding_hash
        &&& self.session_nonce@ == nonce
    }

    /// `self` is linked to `parent`: it records the parent's hash.
    pub open spec fn links_to(self, parent: AuditEntry) -> bool {
        self.parent_hash@ == parent.entry_hash@
    }

    fn build(
        head: [u8; 32],
        timestamp_micros: u64,
        payload: &[u8],
        nonce: [u8; 32],
        operator_binding_hash: [u8; 32],
    ) -> (e: AuditEntry)
        ensures
            e.extends(head@, timestamp_micros, payload@, nonce@, operator_binding_hash@),
    {
        let payload_hash = blake3_hash(payload);
        let seal = SealInput::new_v1(nonce, payload_hash, payload_hash, head).compute_seal();
        let parts: [&[u8]; 4] = [
            head.as_slice(),
            payload_hash.as_slice(),
            payload_hash.as_slice(),
            seal.as_slice(),
        ];
        let entry_hash = blake3_chain(parts.as_slice());
        proof {
            let e = Seq::<Seq<u8>>::empty();
            assert(views_of(parts@) =~= e.push(head@).push(payload_hash@).push(payload_hash@).push(
                seal@,
            ));
            lemma_concat_parts_push(e, head@);
            lemma_concat_parts_push(e.push(head@), payload_hash@);
            lemma_concat_parts_push(e.push(head@).push(payload_hash@), payload_hash@);
            lemma_concat_parts_push(
                e.push(head@).push(payload_hash@).push(payload_hash@),
                seal@,
            );
            assert(concat_parts(e) =~= Seq::<u8>::empty());
            assert(concat_parts(views_of(parts@)) =~= head@ + payload_hash@ + payload_hash@
                + seal@);
        }
        AuditEntry {
            request_id: RequestId::nil(),
            parent_hash: head,
            payload_hash,
            entry_hash,
            seal,
            created_at_micros: timestamp_micros,
            processing_time_micros: 0,
            operator_binding_hash,
            session_nonce: nonce,
        }
    }

    /// The first entry of a chain: its parent hash is zero, its nonce the
    /// given one or zero.
    pub fn genesis(timestamp_micros: u64, payload: &[u8], nonce: Option<&[u8; 32]>) -> (e:
        AuditEntry)
        ensures
            e.extends(
                zero_hash(),
                timestamp_micros,
                payload@,
                chosen_nonce(nonce, zero_hash()),
                zero_hash(),
            ),
    {
        let nonce_val = match nonce {
            Some(n) => *n,
            None => [0u8; 32],
        };
        let zero = [0u8; 32];
        proof {
            assert(zero@ =~= zero_hash());
            assert(nonce_val@ =~= chosen_nonce(nonce, zero_hash()));
        }
        AuditEntry::build(zero, timestamp_micros, payload, nonce_val, zero)
    }

    /// The entry that follows `self`: chained to its hash, with the given
    /// nonce or else the session nonce of `self`, and the operator binding of
    /// `self`.
    pub fn next(&self, timestamp_micros: u64, payload: &[u8], nonce: Option<&[u8; 32]>) -> (e:
        AuditEntry)
        ensures
            e.extends(
                self.entry_hash@,
                timestamp_micros,
                payload@,
                chosen_nonce(nonce, self.session_nonce@),
                self.operator_binding_hash@,
            ),
    {
        let nonce_val = match nonce {
            Some(n) => *n,
            None => self.session_nonce,
        };
        AuditEntry::build(
            self.entry_hash,
            timestamp_micros,
            payload,
            nonce_val,
            self.operator_binding_hash,
        )
    }

    /// Whether `self` records `parent`'s hash as its parent.
    pub fn verify_chain(&self, parent: &AuditEntry) -> (b: bool)
        ensures
            b == self.links_to(*parent),
    {
        hashes_equal(&self.parent_hash, &parent.entry_hash)
    }

    /// The entry hash in lowercase hexadecimal, 64 digits.
    pub fn hash_hex(&self) -> (s: String)
        ensures
            s@ == hex_text(self.entry_hash@),
            s@.len() == 64,
    {
        hex_lower(self.entry_hash.as_slice())
    }
}

/// How every entry's hashes are formed: the payload hash is the BLAKE3 of
/// the payload; the seal is the BLAKE3 of the ASCII bytes `NORM_SEAL_V1`,
/// the version 1 as four little-endian bytes, the nonce, the payload hash
/// (as request hash) and again (as result hash), and the parent hash, in
/// that order; and the entry hash is the BLAKE3 of the parent hash, the
/// payload hash twice and the seal, in that order.
pub proof fn lemma_entry_hash_layout(
    e: AuditEntry,
    head: Seq<u8>,
    timestamp_micros: u64,
    payload: Seq<u8>,
    nonce: Seq<u8>,
    operator_binding_hash: Seq<u8>,
)
    requires
        e.extends(head, timestamp_micros, payload, nonce, operator_binding_hash),
    ensures
        e.parent_hash@ == head,
        e.payload_hash@ == blake3_of(payload),
        e.seal@ == blake3_of(
            seq![78u8, 79, 82, 77, 95, 83, 69, 65, 76, 95, 86, 49] + seq![1u8, 0, 0, 0] + nonce
                + e.payload_hash@ + e.payload_hash@ + e.parent_hash@,
        ),
        e.entry_hash@ == blake3_of(
            e.parent_hash@ + e.payload_hash@ + e.payload_hash@ + e.seal@,
        ),
{
    reveal_with_fuel(le_bytes, 5);
    assert(le_bytes(1, 4) =~= seq![1u8, 0, 0, 0]);
    assert(seal_prefix_bytes() =~= seq![78u8, 79, 82, 77, 95, 83, 69, 65, 76, 95, 86, 49]);
}

/// An entry made by `next` from a parent is linked to that parent, whatever
/// the timestamp, payload and nonce.
pub proof fn lemma_next_links_to_parent(
    child: AuditEntry,
    parent: AuditEntry,
    timestamp_micros: u64,
    payload: Seq<u8>,
    nonce: Seq<u8>,
)
    requires
        child.extends(
            parent.entry_hash@,
            timestamp_micros,
            payload,
            nonce,
            parent.operator_binding_hash@,
        ),
    ensures
        child.links_to(parent),
        child.parent_hash@ == parent.entry_hash@,
        child.seal@ == blake3_of(
            seal_message(
                1,
                nonce,
                blake3_of(payload),
                blake3_of(payload),
                parent.entry_hash@,
            ),
        ),
        child.operator_binding_hash@ == parent.operator_binding_hash@,
{
}

/// A genesis entry records thirty-two zero bytes as its parent hash and as
/// its operator binding.
pub proof fn lemma_genesis_is_root(
    root: AuditEntry,
    timestamp_micros: u64,
    payload: Seq<u8>,
    nonce: Seq<u8>,
)
    requires
        root.extends(zero_hash(), timestamp_micros, payload, nonce, zero_hash()),
    ensures
        root.parent_hash@ == zero_hash(),
        root.operator_binding_hash@ == zero_hash(),
        root.parent_hash@.len() == 32,
        forall|i: int| 0 <= i < 32 ==> root.parent_hash@[i] == 0u8,
        forall|i: int| 0 <= i < 32 ==> root.operator_binding_hash@[i] == 0u8,
{
}

/// Dual-hash audit root for regulatory export: the internal BLAKE3 chain
/// root and its Streebog-256 re-hash.
#[derive(Clone, Copy, Debug)]
pub struct ExportableAuditRoot {
    pub blake3_root: [u8; 32],
    pub streebog_root: [u8; 32],
}

/// The algorithm of an export signature.
#[derive(Clone, Copy, Debug, PartialEq, Eq)]
pub enum AuditSignatureAlgorithm {
    Blake3DetachedV1,
}

/// A signed export of one audit entry.
#[derive(Clone, Copy, Debug)]
pub struct SignedAuditExportEnvelope {
    pub algorithm: AuditSignatureAlgorithm,
    pub entry_hash: [u8; 32],
    pub seal: [u8; 32],
    pub blake3_root: [u8; 32],
    pub streebog_root: [u8; 32],
    pub operator_binding_hash: [u8; 32],
    pub session_nonce: [u8; 32],
    pub processing_time_micros: u64,
    pub signature: [u8; 32],
}

/// Why an entry cannot be exported.
#[derive(Clone, Copy, Debug, PartialEq, Eq)]
pub enum AuditExportError {
    /// The entry hash is all zeros.
    InvalidEntryHash,
    /// The seal is all zeros.
    InvalidSeal,
}

impl AuditExportError {
    /// The error message.
    pub fn message(&self) -> (s: &'static str)
        ensures
            *self == AuditExportError::InvalidEntryHash ==> s@ == "invalid audit entry hash"@,
            *self == AuditExportError::InvalidSeal ==> s@ == "invalid seal"@,
    {
        match self {
            AuditExportError::InvalidEntryHash => "invalid audit entry hash",
            AuditExportError::InvalidSeal => "invalid seal",
        }
    }
}

/// The export root of a BLAKE3 chain root: the root itself and its
/// Streebog-256 hash.
pub fn audit_root_gost_export(blake3_root: &[u8; 32]) -> (r: ExportableAuditRoot)
    ensures
        r.blake3_root == *blake3_root,
        r.streebog_root@ == streebog256_of(blake3_root@),
{
    ExportableAuditRoot { blake3_root: *blake3_root, streebog_root: streebog256(blake3_root) }
}

impl ExportableAuditRoot {
    /// The Streebog root in lowercase hexadecimal, 64 digits.
    pub fn streebog_hex(&self) -> (s: String)
        ensures
            s@ == hex_text(self.streebog_root@),
            s@.len() == 64,
    {
        hex_lower(self.streebog_root.as_slice())
    }
}

/// The domain prefix of export signatures: the ASCII bytes of
/// `NORM_EXPORT_SIG_V1`.
pub open spec fn export_sig_prefix_bytes() -> Seq<u8> {
    seq![78u8, 79, 82, 77, 95, 69, 88, 80, 79, 82, 84, 95, 83, 73, 71, 95, 86, 49]
}

fn export_sig_prefix() -> (p: [u8; 18])
    ensures
        p@ == export_sig_prefix_bytes(),
{
    let p: [u8; 18] = [78, 79, 82, 77, 95, 69, 88, 80, 79, 82, 84, 95, 83, 73, 71, 95, 86, 49];
    assert(p@ =~= export_sig_prefix_bytes());
    p
}

/// The signature over an export: BLAKE3 over the prefix, the entry hash, the
/// seal, the Streebog root, the operator binding, the session nonce and the
/// processing time in little-endian bytes.
pub open spec fn export_signature(e: AuditEntry, streebog_root: Seq<u8>) -> Seq<u8> {
    blake3_of(
        export_sig_prefix_bytes() + e.entry_hash@ + e.seal@ + streebog_root
            + e.operator_binding_hash@ + e.session_nonce@ + le_bytes(
            e.processing_time_micros as nat,
            8,
        ),
    )
}

/// Signs an entry for export. An entry whose hash, or else whose seal, is
/// all zeros is refused.
pub fn build_signed_audit_export(entry: &AuditEntry) -> (r: Result<
    SignedAuditExportEnvelope,
    AuditExportError,
>)
    ensures
        entry.entry_hash@ == zero_hash() ==> r == Err::<
            SignedAuditExportEnvelope,
            AuditExportError,
        >(AuditExportError::InvalidEntryHash),
        entry.entry_hash@ != zero_hash() && entry.seal@ == zero_hash() ==> r == Err::<
            SignedAuditExportEnvelope,
            AuditExportError,
        >(AuditExportError::InvalidSeal),
        entry.entry_hash@ != zero_hash() && entry.seal@ != zero_hash() ==> r is Ok,
        r is Ok ==> ({
            let env = r->Ok_0;
            &&& env.algorithm == AuditSignatureAlgorithm::Blake3DetachedV1
            &&& env.entry_hash == entry.entry_hash
            &&& env.seal == entry.seal
            &&& env.blake3_root == entry.entry_hash
            &&& env.streebog_root@ == streebog256_of(entry.entry_hash@)
            &&& env.operator_binding_hash == entry.operator_binding_hash
            &&& env.session_nonce == entry.session_nonce
            &&& env.processing_time_micros == entry.processing_time_micros
            &&& env.signature@ == export_signature(*entry, env.streebog_root@)
        }),
{
    let zero = [0u8; 32];
    proof {
        assert(zero@ =~= zero_hash());
    }
    if hashes_equal(&entry.entry_hash, &zero) {
        return Err(AuditExportError::InvalidEntryHash);
    }
    if hashes_equal(&entry.seal, &zero) {
        return Err(AuditExportError::InvalidSeal);
    }
    let roots = audit_root_gost_export(&entry.entry_hash);
    let prefix = export_sig_prefix();
    let time = u64_le_bytes(entry.processing_time_micros);
    let parts: [&[u8]; 7] = [
        prefix.as_slice(),
        entry.entry_hash.as_slice(),
        entry.seal.as_slice(),
        roots.streebog_root.as_slice(),
        entry.operator_binding_hash.as_slice(),
        entry.session_nonce.as_slice(),
        time.as_slice(),
    ];
    let signature = blake3_chain(parts.as_slice());
    proof {
        let e = Seq::<Seq<u8>>::empty();
        let s1 = e.push(prefix@);
        let s2 = s1.push(entry.entry_hash@);
        let s3 = s2.push(entry.seal@);
        let s4 = s3.push(roots.streebog_root@);
        let s5 = s4.push(entry.operator_binding_hash@);
        let s6 = s5.push(entry.session_nonce@);
        let s7 = s6.push(time@);
        assert(views_of(parts@) =~= s7);
        lemma_concat_parts_push(e, prefix@);
        lemma_concat_parts_push(s1, entry.entry_hash@);
        lemma_concat_parts_push(s2, entry.seal@);
        lemma_concat_parts_push(s3, roots.streebog_root@);
        lemma_concat_parts_push(s4, entry.operator_binding_hash@);
        lemma_concat_parts_push(s5, entry.session_nonce@);
        lemma_concat_parts_push(s6, time@);
        assert(concat_parts(e) =~= Seq::<u8>::empty());
        assert(concat_parts(s7) =~= export_sig_prefix_bytes() + entry.entry_hash@ + entry.seal@
            + roots.streebog_root@ + entry.operator_binding_hash@ + entry.session_nonce@
            + time@);
    }
    Ok(
        SignedAuditExportEnvelope {
            algorithm: AuditSignatureAlgorithm::Blake3DetachedV1,
            entry_hash: entry.entry_hash,
            seal: entry.seal,
            blake3_root: roots.blake3_root,
            streebog_root: roots.streebog_root,
            operator_binding_hash: entry.operator_binding_hash,
            session_nonce: entry.session_nonce,
            processing_time_micros: entry.processing_time_micros,
            signature,
        },
    )
}

} // verus!
