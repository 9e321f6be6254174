//! BLAKE3 and Streebog-256 digests, and lowercase hex rendering.

use vstd::prelude::*;
use streebog::Digest;

verus! {

/// The incremental hasher of `blake3`, carried opaquely.
#[verifier::external_type_specification]
#[verifier::external_body]
pub struct ExBlake3Hasher(blake3::Hasher);

/// The BLAKE3 hash of `data`.
pub uninterp spec fn blake3_of(data: Seq<u8>) -> Seq<u8>;

/// The bytes written so far into an incremental BLAKE3 hasher.
pub uninterp spec fn hasher_input(h: blake3::Hasher) -> Seq<u8>;

/// Calls `blake3::hash`.
#[verifier::external_body]
fn blake3_digest(data: &[u8]) -> (r: [u8; 32])
    ensures
        r@ == blake3_of(data@),
{
    *blake3::hash(data).as_bytes()
}

/// Calls `blake3::Hasher::new`: a hasher that has taken no input.
#[verifier::external_body]
pub(crate) fn hasher_new() -> (h: blake3::Hasher)
    ensures
        hasher_input(h) == Seq::<u8>::empty(),
{
    blake3::Hasher::new()
}

/// Calls `blake3::Hasher::update`, which appends `data` to the hashed input.
#[verifier::external_body]
pub(crate) fn hasher_update(h: &mut blake3::Hasher, data: &[u8])
    ensures
        hasher_input(*final(h)) == hasher_input(*old(h)) + data@,
{
    h.update(data);
}

/// Calls `blake3::Hasher::finalize`: the hash of everything written, the same
/// as `blake3::hash` of the concatenated input, as the crate documents.
#[verifier::external_body]
pub(crate) fn hasher_finalize(h: &blake3::Hasher) -> (r: [u8; 32])
    ensures
        r@ == blake3_of(hasher_input(*h)),
{
    *h.finalize().as_bytes()
}

/// The Streebog-256 (GOST R 34.11-2012) hash of `data`.
pub uninterp spec fn streebog256_of(data: Seq<u8>) -> Seq<u8>;

/// Calls `Streebog256::digest` from the `streebog` crate.
#[verifier::external_body]
pub(crate) fn streebog256(data: &[u8; 32]) -> (r: [u8; 32])
    ensures
        r@ == streebog256_of(data@),
{
    streebog::Streebog256::digest(data).into()
}

/// The concatenation of `parts`, in order.
pub open spec fn concat_parts(parts: Seq<Seq<u8>>) -> Seq<u8>
    decreases parts.len(),
{
    if parts.len() == 0 {
        Seq::empty()
    } else {
        concat_parts(parts.drop_last()) + parts.last()
    }
}

/// Appending a part appends its bytes to the concatenation.
pub proof fn lemma_concat_parts_push(s: Seq<Seq<u8>>, x: Seq<u8>)
    ensures
        concat_parts(s.push(x)) == concat_parts(s) + x,
{
    assert(s.push(x).drop_last() =~= s);
}

/// The views of a sequence of byte slices.
pub open spec fn views_of(parts: Seq<&[u8]>) -> Seq<Seq<u8>> {
    parts.map_values(|p: &[u8]| p@)
}

/// BLAKE3 hash of a single byte slice.
pub fn blake3_hash(data: &[u8]) -> (r: [u8; 32])
    ensures
        r@ == blake3_of(data@),
{
    blake3_digest(data)
}

/// BLAKE3 hash over several byte slices, in order: the hash of their
/// concatenation.
pub fn blake3_chain(parts: &[&[u8]]) -> (r: [u8; 32])
    ensures
        r@ == blake3_of(concat_parts(views_of(parts@))),
{
    let mut hasher = hasher_new();
    let n = parts.len();
    let mut i: usize = 0;
    while i < n
        invariant
            n == parts@.len(),
            0 <= i <= n,
            hasher_input(hasher) == concat_parts(views_of(parts@.take(i as int))),
        decreases n - i,
    {
        hasher_update(&mut hasher, parts[i]);
        proof {
            assert(views_of(parts@.take(i as int + 1)).drop_last() =~= views_of(parts@.take(i as int)));
        }
        i = i + 1;
    }
    proof {
        assert(parts@.take(n as int) =~= parts@);
    }
    hasher_finalize(&hasher)
}

} // verus!
