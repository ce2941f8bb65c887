//! Drivers supply blocks to a cipher and commit the transformed blocks.

pub mod in_mem;
pub mod statistics;
pub mod window;

use vstd::prelude::*;

use crate::cipher::Cipher;
use crate::pipeline::{key_after_stream, pad_block, stream_out};
use crate::types::DataChunk;

pub use in_mem::InMemoryDriver;
pub use statistics::Statistics;
pub use window::WindowBuffer;

verus! {

/// The next block served from a byte stream: the first 8 bytes, or the
/// whole remainder zero-padded when fewer than 8 bytes are left.
pub open spec fn next_block(s: Seq<u8>) -> Seq<u8>
    recommends
        s.len() > 0,
{
    if s.len() >= 8 {
        s.take(8)
    } else {
        pad_block(s)
    }
}

/// How many real bytes the next block carries: 8, or the short remainder.
pub open spec fn block_len(s: Seq<u8>) -> int {
    if s.len() >= 8 {
        8
    } else {
        s.len() as int
    }
}

/// Trait implemented by types that drive the encryption or decryption
/// process.
///
/// `pull_chunk` hands out the next block and `push_chunk` takes the
/// transformed block back. A pulled chunk is pushed before the next one
/// is pulled, so the driver alternates between the two: `ready` says a
/// pull may come next, and `inflight` is the number of real bytes of the
/// block currently out, the count that its push will commit.
pub trait Driver: Sized {
    type Error;

    /// Bytes not yet handed out by `pull_chunk`.
    spec fn pending(&self) -> Seq<u8>;

    /// Transformed bytes committed by `push_chunk` so far.
    spec fn committed(&self) -> Seq<u8>;

    /// Whether the driver may serve the next pull (no block is out).
    spec fn ready(&self) -> bool;

    /// Number of real bytes in the block currently out.
    spec fn inflight(&self) -> int;

    /// The driver's internal consistency.
    spec fn wf(&self) -> bool;

    /// Gets a chunk to process and advances the driver state.
    ///
    /// Returns `None` when there are no more chunks, indicating the
    /// whole process is finished. A short remainder is served zero-padded
    /// to the full 8 bytes.
    fn pull_chunk(&mut self) -> (r: Result<Option<DataChunk>, Self::Error>)
        requires
            old(self).wf(),
            old(self).ready(),
        ensures
            match r {
                Ok(Some(chunk)) => {
                    &&& old(self).pending().len() > 0
                    &&& final(self).wf()
                    &&& !final(self).ready()
                    &&& chunk@ == next_block(old(self).pending())
                    &&& final(self).inflight() == block_len(old(self).pending())
                    &&& final(self).pending() == old(self).pending().skip(
                        block_len(old(self).pending()),
                    )
                    &&& final(self).committed() == old(self).committed()
                },
                Ok(None) => {
                    &&& old(self).pending().len() == 0
                    &&& *final(self) == *old(self)
                },
                Err(_) => true,
            },
    ;

    /// Consumes a processed chunk, committing the real bytes of the
    /// block that was out: all 8, or only the short remainder's own
    /// length, never padding bytes.
    fn push_chunk(&mut self, chunk: DataChunk) -> (r: Result<(), Self::Error>)
        requires
            old(self).wf(),
            !old(self).ready(),
        ensures
            match r {
                Ok(_) => {
                    &&& final(self).wf()
                    &&& final(self).ready()
                    &&& final(self).committed() == old(self).committed() + chunk@.take(
                        old(self).inflight(),
                    )
                    &&& final(self).pending() == old(self).pending()
                },
                Err(_) => true,
            },
    ;

    /// Processes all pending data with the specified cipher: on success
    /// every pending byte has been pulled, transformed and committed,
    /// and the cipher holds the key evolved over exactly those bytes,
    /// so one cipher instance can continue over a following stream.
    fn process<C: Cipher>(&mut self, cipher: &mut C) -> (r: Result<(), Self::Error>)
        requires
            old(self).wf(),
            old(self).ready(),
        ensures
            r is Ok ==> {
                &&& final(self).wf()
                &&& final(self).ready()
                &&& final(self).committed() == old(self).committed() + stream_out::<C>(
                    old(cipher).key(),
                    old(self).pending(),
                )
                &&& final(self).pending().len() == 0
                &&& final(cipher).key() == key_after_stream::<C>(
                    old(cipher).key(),
                    old(self).pending(),
                )
            },
    {
        proof {
            cipher.lemma_key_len();
        }
        let ghost key0 = cipher.key();
        let ghost com0 = self.committed();
        let ghost pen0 = self.pending();
        loop
            invariant
                self.wf(),
                self.ready(),
                cipher.key().len() == 8,
                key0 == old(cipher).key(),
                com0 == old(self).committed(),
                pen0 == old(self).pending(),
                com0 + stream_out::<C>(key0, pen0) == self.committed() + stream_out::<C>(
                    cipher.key(),
                    self.pending(),
                ),
                key_after_stream::<C>(key0, pen0) == key_after_stream::<C>(
                    cipher.key(),
                    self.pending(),
                ),
            decreases self.pending().len(),
        {
            let ghost pen_pre = self.pending();
            let ghost com_pre = self.committed();
            let ghost kcur = cipher.key();
            let pulled = self.pull_chunk();
            match pulled {
                Err(e) => {
                    return Err(e);
                },
                Ok(None) => {
                    proof {
                        assert(stream_out::<C>(cipher.key(), self.pending())
                            =~= Seq::<u8>::empty());
                        assert(self.committed() =~= com0 + stream_out::<C>(key0, pen0));
                    }
                    return Ok(());
                },
                Ok(Some(chunk)) => {
                    let mut chunk = chunk;
                    cipher.process_chunk(&mut chunk);
                    let pushed = self.push_chunk(chunk);
                    match pushed {
                        Err(e) => {
                            return Err(e);
                        },
                        Ok(_) => {
                            proof {
                                C::lemma_out_block_len(kcur, next_block(pen_pre));
                                if pen_pre.len() >= 8 {
                                    assert(stream_out::<C>(kcur, pen_pre) == C::out_block(
                                        kcur,
                                        pen_pre.take(8),
                                    ) + stream_out::<C>(
                                        C::key_after(kcur, pen_pre.take(8)),
                                        pen_pre.skip(8),
                                    ));
                                    assert(chunk@.take(8) =~= chunk@);
                                } else {
                                    assert(stream_out::<C>(kcur, pen_pre) == C::out_block(
                                        kcur,
                                        pad_block(pen_pre),
                                    ).take(pen_pre.len() as int));
                                    assert(self.pending() =~= Seq::<u8>::empty());
                                }
                                assert(com0 + stream_out::<C>(key0, pen0) =~= self.committed()
                                    + stream_out::<C>(cipher.key(), self.pending()));
                            }
                        },
                    }
                },
            }
        }
    }
}

} // verus!
