//! Key derivation: turning a passphrase into the initial 8-byte key block.

use vstd::prelude::*;

use crate::types::{DataChunk, CHUNK_SIZE};
use sha1::Digest;
use vstd::string::StringSliceAdditionalSpecFns;

verus! {

/// The whitening masks: bit `i` set for byte `i`.
pub const MASK_BITS: [u8; CHUNK_SIZE] = [1, 2, 4, 8, 16, 32, 64, 128];

/// The SHA-1 digest of a byte sequence, named but not written out here:
/// the digest is computed only by the outside hash implementation.
pub uninterp spec fn sha1_of(data: Seq<u8>) -> Seq<u8>;

/// Relies on sha1::Sha1 (via digest::Digest): the 20-byte digest is a
/// function of the input bytes alone.
#[verifier::external_body]
fn sha1_digest(data: &[u8]) -> (r: [u8; 20])
    ensures
        r@ == sha1_of(data@),
{
    let mut hasher = sha1::Sha1::new();
    hasher.update(data);
    let digest = hasher.finalize();
    let mut out = [0u8; 20];
    out.copy_from_slice(&digest);
    out
}

/// The 8-byte key block derived from the bytes of a passphrase: byte `i`
/// is the `i`-th SHA-1 digest byte whitened with the mask `1 << i`.
///
/// Same passphrase, same key, always: there is no salt and no randomness,
/// so that encrypt and decrypt runs with the same phrase interoperate.
pub open spec fn derive_key(phrase: Seq<u8>) -> Seq<u8> {
    Seq::new(8, |i: int| sha1_of(phrase)[i] ^ MASK_BITS@[i])
}

/// Derivation is a pure function of the passphrase bytes: two
/// derivations from the same phrase yield the same 8-byte key.
pub proof fn lemma_derive_key_deterministic(p1: Seq<u8>, p2: Seq<u8>)
    requires
        p1 == p2,
    ensures
        derive_key(p1) == derive_key(p2),
{
}

/// Builds the key chunk from a passphrase given as plain bytes.
pub fn derive_key_chunk(phrase: &[u8]) -> (r: DataChunk)
    ensures
        r@ == derive_key(phrase@),
{
    let digest = sha1_digest(phrase);
    let mut key = [0u8; CHUNK_SIZE];
    let mut i: usize = 0;
    while i < CHUNK_SIZE
        invariant
            0 <= i <= 8,
            digest@ == sha1_of(phrase@),
            forall|j: int| 0 <= j < i ==> key@[j] == sha1_of(phrase@)[j] ^ MASK_BITS@[j],
        decreases 8 - i,
    {
        key[i] = digest[i] ^ MASK_BITS[i];
        i += 1;
    }
    let r = DataChunk(key);
    proof {
        assert(r@ =~= derive_key(phrase@));
    }
    r
}

/// Types which can be initialized from a key.
pub trait KeyInit: Sized {
    /// The key material the new value starts with.
    spec fn initial_key(&self) -> Seq<u8>;

    /// Creates a new value with the given data chunk as key.
    fn with_key(key: DataChunk) -> (r: Self)
        ensures
            r.initial_key() == key@,
    ;

    /// Creates a new value with the key given as a plain byte array.
    fn with_key_from(key: [u8; CHUNK_SIZE]) -> (r: Self)
        ensures
            r.initial_key() == key@,
    {
        Self::with_key(DataChunk(key))
    }

    /// Creates a new value with the key derived from the given seed phrase.
    fn with_seed_phrase(phrase: &str) -> (r: Self)
        ensures
            r.initial_key() == derive_key(phrase.spec_bytes()),
    {
        Self::with_key(derive_key_chunk(phrase.as_bytes()))
    }
}

} // verus!
