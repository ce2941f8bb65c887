//! The stream orchestrator: drives the block loop from a source to a
//! destination, handles the short final block, and reports progress.

use vstd::prelude::*;

use crate::cipher::{
    dec_block, enc_block, evolve_key, lemma_block_inverse, lemma_block_sensitivity,
    lemma_byte_inverse, rotl8, xor_fold, Cipher, DecryptState, EncryptState,
};
use crate::types::{DataChunk, CHUNK_SIZE};

verus! {

/// A short block zero-padded to the full 8 bytes.
pub open spec fn pad_block(b: Seq<u8>) -> Seq<u8>
    recommends
        b.len() <= 8,
{
    b + Seq::new((8 - b.len()) as nat, |i: int| 0u8)
}

/// Every byte a transform produces over a byte stream: full 8-byte blocks
/// are transformed in sequence, and a short final block is zero-padded
/// before the transform and truncated back to its own length after it.
pub open spec fn stream_out<C: Cipher>(key: Seq<u8>, input: Seq<u8>) -> Seq<u8>
    decreases input.len(),
{
    if input.len() == 0 {
        Seq::empty()
    } else if input.len() < 8 {
        C::out_block(key, pad_block(input)).take(input.len() as int)
    } else {
        C::out_block(key, input.take(8)) + stream_out::<C>(
            C::key_after(key, input.take(8)),
            input.skip(8),
        )
    }
}

/// The key a transform holds after processing a whole byte stream:
/// the key evolves once per block, a short final block evolving it as
/// its zero-padded form.
pub open spec fn key_after_stream<C: Cipher>(key: Seq<u8>, input: Seq<u8>) -> Seq<u8>
    decreases input.len(),
{
    if input.len() == 0 {
        key
    } else if input.len() < 8 {
        C::key_after(key, pad_block(input))
    } else {
        key_after_stream::<C>(C::key_after(key, input.take(8)), input.skip(8))
    }
}

/// The output stream is exactly as long as the input stream: a short
/// input yields an output of the same length, never padding bytes.
pub proof fn lemma_stream_len<C: Cipher>(key: Seq<u8>, input: Seq<u8>)
    requires
        key.len() == 8,
    ensures
        stream_out::<C>(key, input).len() == input.len(),
    decreases input.len(),
{
    if input.len() == 0 {
    } else if input.len() < 8 {
        C::lemma_out_block_len(key, pad_block(input));
    } else {
        C::lemma_out_block_len(key, input.take(8));
        lemma_stream_len::<C>(C::key_after(key, input.take(8)), input.skip(8));
    }
}

/// Processing two streams in sequence with one transform instance is the
/// same as processing their concatenation, provided the first stream is
/// a whole number of blocks (as every fully used window is). This is
/// what lets the windowed and the streaming strategies produce the same
/// bytes through the same orchestrator.
pub proof fn lemma_stream_append<C: Cipher>(key: Seq<u8>, a: Seq<u8>, b: Seq<u8>)
    requires
        key.len() == 8,
        a.len() % 8 == 0,
    ensures
        stream_out::<C>(key, a + b) == stream_out::<C>(key, a) + stream_out::<C>(
            key_after_stream::<C>(key, a),
            b,
        ),
    decreases a.len(),
{
    if a.len() == 0 {
        assert(a + b =~= b);
        assert(stream_out::<C>(key, a + b) =~= stream_out::<C>(key, a) + stream_out::<C>(
            key_after_stream::<C>(key, a),
            b,
        ));
    } else {
        let a8 = a.take(8);
        let kn = C::key_after(key, a8);
        assert((a + b).take(8) =~= a8);
        assert((a + b).skip(8) =~= a.skip(8) + b);
        C::lemma_out_block_len(key, a8);
        lemma_stream_append::<C>(kn, a.skip(8), b);
        assert(stream_out::<C>(key, a + b) =~= stream_out::<C>(key, a) + stream_out::<C>(
            key_after_stream::<C>(key, a),
            b,
        ));
    }
}

/// Decrypting an encrypted stream with the same initial key restores the
/// input exactly, for every byte sequence and every 8-byte key.
pub proof fn lemma_stream_round_trip(key: Seq<u8>, input: Seq<u8>)
    requires
        key.len() == 8,
    ensures
        stream_out::<DecryptState>(key, stream_out::<EncryptState>(key, input)) == input,
    decreases input.len(),
{
    let e = stream_out::<EncryptState>(key, input);
    if input.len() == 0 {
        assert(stream_out::<DecryptState>(key, e) =~= input);
    } else if input.len() < 8 {
        let p = pad_block(input);
        let eb = enc_block(p, key);
        assert(e == eb.take(input.len() as int));
        let ep = pad_block(e);
        assert forall|i: int| 0 <= i < input.len() implies dec_block(ep, key)[i] == input[i] by {
            assert(ep[i] == eb[i]);
            assert(eb[i] == rotl8(p[i], xor_fold(key) ^ key[i]) ^ key[i]);
            assert(p[i] == input[i]);
            lemma_byte_inverse(input[i], key[i], xor_fold(key) ^ key[i]);
        }
        assert(stream_out::<DecryptState>(key, e) == dec_block(ep, key).take(input.len() as int));
        assert(stream_out::<DecryptState>(key, e) =~= input);
    } else {
        let b1 = input.take(8);
        let rest = input.skip(8);
        let e1 = enc_block(b1, key);
        let krest = evolve_key(key, xor_fold(b1));
        let erest = stream_out::<EncryptState>(krest, rest);
        assert(e == e1 + erest);
        assert(e.len() >= 8);
        assert(e.take(8) =~= e1);
        assert(e.skip(8) =~= erest);
        lemma_block_inverse(b1, key);
        lemma_stream_round_trip(krest, rest);
        assert(stream_out::<DecryptState>(key, e) == dec_block(e1, key) + stream_out::<
            DecryptState,
        >(evolve_key(key, xor_fold(dec_block(e1, key))), erest));
        assert(stream_out::<DecryptState>(key, e) =~= input);
    }
}

/// Two encryptions of the same bytes with the same key are byte-identical:
/// the transform draws on no randomness, time, or environment.
pub proof fn lemma_stream_deterministic(key: Seq<u8>, b1: Seq<u8>, b2: Seq<u8>)
    requires
        b1 == b2,
    ensures
        stream_out::<EncryptState>(key, b1) == stream_out::<EncryptState>(key, b2),
{
}

/// Changing input bytes at or after block `m` never changes the
/// ciphertext before block `m`: earlier output depends on earlier input
/// alone. Holds for any transform whose output and key evolution are
/// functions of the current key and block.
pub proof fn lemma_stream_prefix_stable<C: Cipher>(key: Seq<u8>, b1: Seq<u8>, b2: Seq<u8>, m: int)
    requires
        key.len() == 8,
        0 <= 8 * m <= b1.len(),
        8 * m <= b2.len(),
        b1.take(8 * m) == b2.take(8 * m),
    ensures
        stream_out::<C>(key, b1).take(8 * m) == stream_out::<C>(key, b2).take(8 * m),
    decreases m,
{
    if m == 0 {
        assert(stream_out::<C>(key, b1).take(0) =~= stream_out::<C>(key, b2).take(0));
    } else {
        let x1 = b1.take(8);
        let x2 = b2.take(8);
        assert(x1 =~= b1.take(8 * m).take(8));
        assert(x2 =~= b2.take(8 * m).take(8));
        C::lemma_out_block_len(key, x1);
        let kn = C::key_after(key, x1);
        let r1 = b1.skip(8);
        let r2 = b2.skip(8);
        assert(r1.take(8 * (m - 1)) =~= b1.take(8 * m).skip(8));
        assert(r2.take(8 * (m - 1)) =~= b2.take(8 * m).skip(8));
        lemma_stream_prefix_stable::<C>(kn, r1, r2, m - 1);
        lemma_stream_len::<C>(key, b1);
        lemma_stream_len::<C>(key, b2);
        lemma_stream_len::<C>(kn, r1);
        lemma_stream_len::<C>(kn, r2);
        let s1 = stream_out::<C>(key, b1);
        let s2 = stream_out::<C>(key, b2);
        assert(s1.take(8 * m) =~= C::out_block(key, x1) + stream_out::<C>(kn, r1).take(
            8 * (m - 1),
        ));
        assert(s2.take(8 * m) =~= C::out_block(key, x2) + stream_out::<C>(kn, r2).take(
            8 * (m - 1),
        ));
    }
}

/// Changing one input byte changes the ciphertext byte at the same
/// position, provided the inputs agree on all blocks before the one that
/// holds the change.
pub proof fn lemma_stream_sensitivity(key: Seq<u8>, b1: Seq<u8>, b2: Seq<u8>, m: int, i: int)
    requires
        key.len() == 8,
        b1.len() == b2.len(),
        0 <= m,
        8 * m <= i < 8 * m + 8,
        i < b1.len(),
        b1.take(8 * m) == b2.take(8 * m),
        b1[i] != b2[i],
    ensures
        stream_out::<EncryptState>(key, b1)[i] != stream_out::<EncryptState>(key, b2)[i],
    decreases m,
{
    if m == 0 {
        if b1.len() < 8 {
            let p1 = pad_block(b1);
            let p2 = pad_block(b2);
            assert(p1[i] == b1[i] && p2[i] == b2[i]);
            lemma_block_sensitivity(p1, p2, key, i);
            assert(stream_out::<EncryptState>(key, b1)[i] == enc_block(p1, key)[i]);
            assert(stream_out::<EncryptState>(key, b2)[i] == enc_block(p2, key)[i]);
        } else {
            lemma_block_sensitivity(b1.take(8), b2.take(8), key, i);
            assert(stream_out::<EncryptState>(key, b1)[i] == enc_block(b1.take(8), key)[i]);
            assert(stream_out::<EncryptState>(key, b2)[i] == enc_block(b2.take(8), key)[i]);
        }
    } else {
        let x1 = b1.take(8);
        let x2 = b2.take(8);
        assert(x1 =~= b1.take(8 * m).take(8));
        assert(x2 =~= b2.take(8 * m).take(8));
        let kn = evolve_key(key, xor_fold(x1));
        let r1 = b1.skip(8);
        let r2 = b2.skip(8);
        assert(r1.take(8 * (m - 1)) =~= b1.take(8 * m).skip(8));
        assert(r2.take(8 * (m - 1)) =~= b2.take(8 * m).skip(8));
        assert(r1[i - 8] == b1[i] && r2[i - 8] == b2[i]);
        lemma_stream_sensitivity(kn, r1, r2, m - 1, i - 8);
        lemma_stream_len::<EncryptState>(kn, r1);
        lemma_stream_len::<EncryptState>(kn, r2);
        assert(stream_out::<EncryptState>(key, b1) == enc_block(x1, key) + stream_out::<
            EncryptState,
        >(kn, r1));
        assert(stream_out::<EncryptState>(key, b2) == enc_block(x2, key) + stream_out::<
            EncryptState,
        >(kn, r2));
        assert(stream_out::<EncryptState>(key, b1)[i] == stream_out::<EncryptState>(kn, r1)[i - 8]);
        assert(stream_out::<EncryptState>(key, b2)[i] == stream_out::<EncryptState>(kn, r2)[i - 8]);
    }
}

/// Trait implemented by progress reporters for receiving statistics while
/// the data is processed.
///
/// The argument `n` is the length of bytes processed in this round, not
/// the cumulative total; the optional total size is passed through when
/// it is known. Reporters own all presentation, and nothing is assumed
/// about what they do.
pub trait ProgressReporter {
    /// Called after each block's bytes are committed.
    fn bytes_processed(&mut self, n: usize, total: Option<usize>);
}

/// A no-op [`ProgressReporter`], the free-of-effect default.
#[derive(Clone, Copy)]
pub struct NopReporter;

impl ProgressReporter for NopReporter {
    fn bytes_processed(&mut self, _n: usize, _total: Option<usize>) {
    }
}

/// A configurable pipeline to process data with some specified cipher.
pub struct Pipeline<R> {
    buffered: bool,
    progress_reporter: R,
}

impl Pipeline<NopReporter> {
    /// Creates a new pipeline with default configurations.
    pub fn new() -> (r: Pipeline<NopReporter>)
        ensures
            !r.is_buffered(),
    {
        Pipeline { buffered: false, progress_reporter: NopReporter }
    }
}

impl<R> Pipeline<R> {
    /// Whether the pipeline batches underlying reads and writes.
    ///
    /// Buffering only changes how I/O calls are batched by callers that
    /// drive real devices; it never changes the produced bytes or the
    /// block boundaries of the transform.
    pub closed spec fn is_buffered(&self) -> bool {
        self.buffered
    }

    /// Returns a buffered version of the current pipeline.
    pub fn with_buffer(self) -> (r: Pipeline<R>)
        ensures
            r.is_buffered(),
    {
        Pipeline { buffered: true, progress_reporter: self.progress_reporter }
    }

    /// Replaces the progress reporter for the current pipeline.
    pub fn with_progress_reporter<NR: ProgressReporter>(self, reporter: NR) -> (r: Pipeline<NR>)
        ensures
            r.is_buffered() == self.is_buffered(),
    {
        Pipeline { buffered: self.buffered, progress_reporter: reporter }
    }
}

/// Appends the first `n` bytes of a chunk to the output vector.
fn push_prefix(output: &mut Vec<u8>, chunk: &DataChunk, n: usize)
    requires
        n <= 8,
    ensures
        final(output)@ == old(output)@ + chunk@.take(n as int),
{
    let mut j: usize = 0;
    while j < n
        invariant
            j <= n,
            n <= 8,
            output@ == old(output)@ + chunk@.take(j as int),
        decreases n - j,
    {
        output.push(chunk.0[j]);
        proof {
            assert(old(output)@ + chunk@.take(j + 1) =~= (old(output)@ + chunk@.take(
                j as int,
            )).push(chunk@[j as int]));
        }
        j += 1;
    }
    proof {
        assert(output@ =~= old(output)@ + chunk@.take(n as int));
    }
}

impl<R: ProgressReporter> Pipeline<R> {
    /// Consumes the pipeline and processes the whole input, appending
    /// every transformed byte to `output` and reporting the length of
    /// each committed block to the progress reporter.
    ///
    /// Zero bytes in means zero bytes out: no block operation is invoked
    /// on an empty input.
    pub fn process<C: Cipher>(
        self,
        input: &[u8],
        output: &mut Vec<u8>,
        cipher: C,
        total_len: Option<usize>,
    )
        ensures
            final(output)@ == old(output)@ + stream_out::<C>(cipher.key(), input@),
    {
        let mut reporter = self.progress_reporter;
        Self::process_inner(input, output, cipher, &mut reporter, total_len);
    }

    /// The block loop: reads up to 8 bytes, zero-pads a short final
    /// block, transforms, and writes back only the bytes actually read.
    fn process_inner<C: Cipher>(
        input: &[u8],
        output: &mut Vec<u8>,
        cipher: C,
        reporter: &mut R,
        total_len: Option<usize>,
    )
        ensures
            final(output)@ == old(output)@ + stream_out::<C>(cipher.key(), input@),
    {
        let mut cipher = cipher;
        let ghost key0 = cipher.key();
        let ghost out0 = output@;
        proof {
            cipher.lemma_key_len();
            assert(input@.skip(0) == input@);
            assert(out0 + stream_out::<C>(key0, input@) =~= output@ + stream_out::<C>(
                cipher.key(),
                input@.skip(0),
            ));
        }
        let input_len = input.len();
        let mut pos: usize = 0;
        while pos < input_len
            invariant
                pos <= input_len,
                input_len == input@.len(),
                cipher.key().len() == 8,
                out0 + stream_out::<C>(key0, input@) == output@ + stream_out::<C>(
                    cipher.key(),
                    input@.skip(pos as int),
                ),
            decreases input_len - pos,
        {
            let ghost kcur = cipher.key();
            let ghost s = input@.skip(pos as int);
            let remain = input_len - pos;
            let n = if remain < CHUNK_SIZE {
                remain
            } else {
                CHUNK_SIZE
            };
            let mut chunk = DataChunk([0u8; CHUNK_SIZE]);
            let mut j: usize = 0;
            while j < n
                invariant
                    j <= n,
                    n <= 8,
                    pos + n <= input_len,
                    input_len == input@.len(),
                    forall|q: int| 0 <= q < j ==> chunk.0@[q] == input@[pos + q],
                    forall|q: int| j <= q < 8 ==> chunk.0@[q] == 0u8,
                decreases n - j,
            {
                chunk.0[j] = input[pos + j];
                j += 1;
            }
            proof {
                if n == 8 {
                    assert(chunk@ =~= s.take(8));
                } else {
                    assert(chunk@ =~= pad_block(s));
                }
            }
            let ghost c_in = chunk@;
            cipher.process_chunk(&mut chunk);
            proof {
                C::lemma_out_block_len(kcur, c_in);
            }
            let ghost outpre = output@;
            push_prefix(output, &chunk, n);
            reporter.bytes_processed(n, total_len);
            proof {
                if n == 8 {
                    assert(stream_out::<C>(kcur, s) == C::out_block(kcur, s.take(8))
                        + stream_out::<C>(C::key_after(kcur, s.take(8)), s.skip(8)));
                    assert(chunk@.take(8) =~= chunk@);
                    assert(s.skip(8) =~= input@.skip(pos + 8));
                    assert(outpre + stream_out::<C>(kcur, s) =~= output@ + stream_out::<C>(
                        cipher.key(),
                        input@.skip(pos + 8),
                    ));
                } else {
                    assert(s.len() < 8);
                    assert(stream_out::<C>(kcur, s) == C::out_block(kcur, pad_block(s)).take(
                        n as int,
                    ));
                    assert(input@.skip(pos + n as int) =~= Seq::<u8>::empty());
                    assert(outpre + stream_out::<C>(kcur, s) =~= output@ + stream_out::<C>(
                        cipher.key(),
                        input@.skip(pos + n as int),
                    ));
                }
                assert(out0 + stream_out::<C>(key0, input@) == output@ + stream_out::<C>(
                    cipher.key(),
                    input@.skip(pos + n as int),
                ));
            }
            pos += n;
        }
        proof {
            assert(input@.skip(pos as int) =~= Seq::<u8>::empty());
            assert(output@ =~= out0 + stream_out::<C>(key0, input@));
        }
    }
}

impl<R: Clone> Clone for Pipeline<R> {
    fn clone(&self) -> (r: Self) {
        Pipeline { buffered: self.buffered, progress_reporter: self.progress_reporter.clone() }
    }
}

} // verus!
