//! The block transform: one reversible transform per 8-byte block.
//!
//! A transform instance owns an 8-byte key that evolves after every block
//! it processes, seeded with the XOR-sum of the plaintext block, so each
//! block's key depends on all data processed before it. `EncryptState` and
//! `DecryptState` are exact inverses when started from the same key and
//! fed the same block sequence in the same order.

use vstd::prelude::*;

use crate::key_init::KeyInit;
use crate::types::{DataChunk, CHUNK_SIZE};

verus! {

/// XOR of all bytes of a sequence.
pub open spec fn xor_fold(s: Seq<u8>) -> u8
    decreases s.len(),
{
    if s.len() == 0 {
        0u8
    } else {
        xor_fold(s.drop_last()) ^ s.last()
    }
}

/// Left rotation of a byte by `n mod 8` bit positions.
pub open spec fn rotl8(b: u8, n: u8) -> u8 {
    if n % 8 == 0 {
        b
    } else {
        (b << (n % 8)) | (b >> ((8 - n % 8) as u8))
    }
}

/// Right rotation of a byte by `n mod 8` bit positions.
pub open spec fn rotr8(b: u8, n: u8) -> u8 {
    if n % 8 == 0 {
        b
    } else {
        (b >> (n % 8)) | (b << ((8 - n % 8) as u8))
    }
}

/// One encrypted block: byte `i` is rotated left by `k_sum ^ k[i]` and
/// then XORed with `k[i]`, where `k_sum` is the XOR of all key bytes.
pub open spec fn enc_block(c: Seq<u8>, k: Seq<u8>) -> Seq<u8> {
    Seq::new(8, |i: int| rotl8(c[i], xor_fold(k) ^ k[i]) ^ k[i])
}

/// One decrypted block: byte `i` is XORed with `k[i]` and then rotated
/// right by `k_sum ^ k[i]`; the algebraic inverse of [`enc_block`].
pub open spec fn dec_block(c: Seq<u8>, k: Seq<u8>) -> Seq<u8> {
    Seq::new(8, |i: int| rotr8(c[i] ^ k[i], xor_fold(k) ^ k[i]))
}

/// The key after one block: byte `i` is XORed with the seed rotated left
/// by `i` bits, and the whole 8-byte array is then rotated left by one
/// position. The seed is the XOR-sum of the plaintext block.
pub open spec fn evolve_key(k: Seq<u8>, sum: u8) -> Seq<u8> {
    Seq::new(
        8,
        |i: int|
            if i < 7 {
                k[i + 1] ^ rotl8(sum, (i + 1) as u8)
            } else {
                k[0] ^ sum
            },
    )
}

/// Rotating left by one more bit is the same as rotating once by the sum
/// of the amounts.
proof fn lemma_rotl8_step(x: u8, i: u8)
    requires
        i < 8,
    ensures
        rotl8(rotl8(x, i), 1) == rotl8(x, (i + 1) as u8),
{
    assert(rotl8(rotl8(x, i), 1) == rotl8(x, (i + 1) as u8)) by (bit_vector)
        requires
            i < 8,
    ;
}

/// Decrypting one byte undoes encrypting it with the same key byte and
/// rotation amount.
pub proof fn lemma_byte_inverse(b: u8, k: u8, n: u8)
    ensures
        rotr8((rotl8(b, n) ^ k) ^ k, n) == b,
{
    assert(rotr8((rotl8(b, n) ^ k) ^ k, n) == b) by (bit_vector);
}

/// Encrypting a byte is injective: equal outputs force equal inputs.
proof fn lemma_byte_injective(x: u8, y: u8, k: u8, n: u8)
    requires
        rotl8(x, n) ^ k == rotl8(y, n) ^ k,
    ensures
        x == y,
{
    lemma_byte_inverse(x, k, n);
    lemma_byte_inverse(y, k, n);
}

/// Decrypting an encrypted block with the same key restores the block.
pub proof fn lemma_block_inverse(c: Seq<u8>, k: Seq<u8>)
    requires
        c.len() == 8,
        k.len() == 8,
    ensures
        dec_block(enc_block(c, k), k) == c,
{
    let e = enc_block(c, k);
    assert forall|i: int| 0 <= i < 8 implies dec_block(e, k)[i] == c[i] by {
        lemma_byte_inverse(c[i], k[i], xor_fold(k) ^ k[i]);
    }
    assert(dec_block(e, k) =~= c);
}

/// Within one block, a change to byte `i` of the plaintext changes byte
/// `i` of the ciphertext, and no other byte of that block.
pub proof fn lemma_block_sensitivity(c1: Seq<u8>, c2: Seq<u8>, k: Seq<u8>, i: int)
    requires
        c1.len() == 8,
        c2.len() == 8,
        k.len() == 8,
        0 <= i < 8,
        c1[i] != c2[i],
    ensures
        enc_block(c1, k)[i] != enc_block(c2, k)[i],
{
    if enc_block(c1, k)[i] == enc_block(c2, k)[i] {
        lemma_byte_injective(c1[i], c2[i], k[i], xor_fold(k) ^ k[i]);
    }
}

/// A transform that processes one 8-byte block per call and evolves its
/// key after each one.
///
/// The two associated spec functions say, as a function of the current
/// key and the incoming block alone, what the output block is and what
/// the key becomes; `process_chunk` is bound to them exactly.
pub trait Cipher: Sized {
    /// The current 8-byte key material of this transform instance.
    spec fn key(&self) -> Seq<u8>;

    /// The output block produced from key `k` and incoming block `c`.
    spec fn out_block(k: Seq<u8>, c: Seq<u8>) -> Seq<u8>;

    /// The key after processing incoming block `c` with key `k`.
    spec fn key_after(k: Seq<u8>, c: Seq<u8>) -> Seq<u8>;

    /// The key is always exactly 8 bytes.
    proof fn lemma_key_len(&self)
        ensures
            self.key().len() == 8,
    ;

    /// Output blocks and evolved keys are always exactly 8 bytes.
    proof fn lemma_out_block_len(k: Seq<u8>, c: Seq<u8>)
        requires
            k.len() == 8,
            c.len() == 8,
        ensures
            Self::out_block(k, c).len() == 8,
            Self::key_after(k, c).len() == 8,
    ;

    /// Transforms one block in place and evolves the key.
    fn process_chunk(&mut self, chunk: &mut DataChunk)
        ensures
            final(chunk)@ == Self::out_block(old(self).key(), old(chunk)@),
            final(self).key() == Self::key_after(old(self).key(), old(chunk)@),
    ;
}

/// The encrypting half of the reversible pair.
pub struct EncryptState {
    current_key: DataChunk,
}

/// The decrypting half of the reversible pair.
pub struct DecryptState {
    current_key: DataChunk,
}

/// XOR of all 8 bytes of a chunk.
pub fn calculate_sum(chunk: &DataChunk) -> (r: u8)
    ensures
        r == xor_fold(chunk@),
{
    let mut sum: u8 = 0;
    let mut i: usize = 0;
    while i < CHUNK_SIZE
        invariant
            0 <= i <= 8,
            sum == xor_fold(chunk@.take(i as int)),
        decreases 8 - i,
    {
        proof {
            assert(chunk@.take(i + 1).drop_last() =~= chunk@.take(i as int));
            assert(chunk@.take(i + 1).last() == chunk@[i as int]);
        }
        sum = sum ^ chunk.0[i];
        i += 1;
    }
    proof {
        assert(chunk@.take(8) =~= chunk@);
    }
    sum
}

/// Evolves the key in place: XOR pass with the rotating seed, then a
/// one-position left rotation of the byte array.
pub fn rotate_key(key: &mut DataChunk, sum: u8)
    ensures
        final(key)@ == evolve_key(old(key)@, sum),
{
    let mut s = sum;
    let mut i: usize = 0;
    while i < CHUNK_SIZE
        invariant
            0 <= i <= 8,
            s == rotl8(sum, i as u8),
            forall|j: int| 0 <= j < i ==> key.0@[j] == old(key)@[j] ^ rotl8(sum, j as u8),
            forall|j: int| i <= j < 8 ==> key.0@[j] == old(key)@[j],
        decreases 8 - i,
    {
        proof {
            assert(rotl8(sum, 0u8) == sum);
            lemma_rotl8_step(sum, i as u8);
        }
        key.0[i] = key.0[i] ^ s;
        s = rotl_exec(s, 1);
        i += 1;
    }
    let first = key.0[0];
    let mut j: usize = 0;
    let ghost mixed = key.0@;
    while j < CHUNK_SIZE - 1
        invariant
            0 <= j <= 7,
            first == mixed[0],
            forall|p: int| 0 <= p < j ==> key.0@[p] == mixed[p + 1],
            forall|p: int| j <= p < 8 ==> key.0@[p] == mixed[p],
        decreases 7 - j,
    {
        key.0[j] = key.0[j + 1];
        j += 1;
    }
    key.0[7] = first;
    proof {
        assert(key@ =~= evolve_key(old(key)@, sum));
    }
}

/// Left rotation of a byte by `n mod 8` bit positions.
fn rotl_exec(b: u8, n: u8) -> (r: u8)
    ensures
        r == rotl8(b, n),
{
    let s = n % 8;
    if s == 0 {
        b
    } else {
        (b << s) | (b >> (8 - s))
    }
}

/// Right rotation of a byte by `n mod 8` bit positions.
fn rotr_exec(b: u8, n: u8) -> (r: u8)
    ensures
        r == rotr8(b, n),
{
    let s = n % 8;
    if s == 0 {
        b
    } else {
        (b >> s) | (b << (8 - s))
    }
}

impl Cipher for EncryptState {
    closed spec fn key(&self) -> Seq<u8> {
        self.current_key@
    }

    open spec fn out_block(k: Seq<u8>, c: Seq<u8>) -> Seq<u8> {
        enc_block(c, k)
    }

    open spec fn key_after(k: Seq<u8>, c: Seq<u8>) -> Seq<u8> {
        evolve_key(k, xor_fold(c))
    }

    proof fn lemma_key_len(&self) {
    }

    proof fn lemma_out_block_len(k: Seq<u8>, c: Seq<u8>) {
    }

    fn process_chunk(&mut self, chunk: &mut DataChunk) {
        let c_sum = calculate_sum(chunk);
        let k_sum = calculate_sum(&self.current_key);
        let mut i: usize = 0;
        while i < CHUNK_SIZE
            invariant
                0 <= i <= 8,
                self.current_key == old(self).current_key,
                k_sum == xor_fold(self.current_key@),
                forall|j: int|
                    0 <= j < i ==> chunk.0@[j] == enc_block(old(chunk)@, old(self).current_key@)[j],
                forall|j: int| i <= j < 8 ==> chunk.0@[j] == old(chunk)@[j],
            decreases 8 - i,
        {
            let kb = self.current_key.0[i];
            let factor = k_sum ^ kb;
            chunk.0[i] = rotl_exec(chunk.0[i], factor) ^ kb;
            i += 1;
        }
        proof {
            assert(chunk@ =~= enc_block(old(chunk)@, old(self).current_key@));
        }
        rotate_key(&mut self.current_key, c_sum);
    }
}

impl KeyInit for EncryptState {
    open spec fn initial_key(&self) -> Seq<u8> {
        self.key()
    }

    fn with_key(key: DataChunk) -> (r: Self) {
        EncryptState { current_key: key }
    }
}

impl KeyInit for DecryptState {
    open spec fn initial_key(&self) -> Seq<u8> {
        self.key()
    }

    fn with_key(key: DataChunk) -> (r: Self) {
        DecryptState { current_key: key }
    }
}

impl Cipher for DecryptState {
    closed spec fn key(&self) -> Seq<u8> {
        self.current_key@
    }

    open spec fn out_block(k: Seq<u8>, c: Seq<u8>) -> Seq<u8> {
        dec_block(c, k)
    }

    open spec fn key_after(k: Seq<u8>, c: Seq<u8>) -> Seq<u8> {
        evolve_key(k, xor_fold(dec_block(c, k)))
    }

    proof fn lemma_key_len(&self) {
    }

    proof fn lemma_out_block_len(k: Seq<u8>, c: Seq<u8>) {
    }

    fn process_chunk(&mut self, chunk: &mut DataChunk) {
        let k_sum = calculate_sum(&self.current_key);
        let mut i: usize = 0;
        while i < CHUNK_SIZE
            invariant
                0 <= i <= 8,
                self.current_key == old(self).current_key,
                k_sum == xor_fold(self.current_key@),
                forall|j: int|
                    0 <= j < i ==> chunk.0@[j] == dec_block(old(chunk)@, old(self).current_key@)[j],
                forall|j: int| i <= j < 8 ==> chunk.0@[j] == old(chunk)@[j],
            decreases 8 - i,
        {
            let kb = self.current_key.0[i];
            let factor = k_sum ^ kb;
            chunk.0[i] = rotr_exec(chunk.0[i] ^ kb, factor);
            i += 1;
        }
        proof {
            assert(chunk@ =~= dec_block(old(chunk)@, old(self).current_key@));
        }
        let c_sum = calculate_sum(chunk);
        rotate_key(&mut self.current_key, c_sum);
    }
}

} // verus!
