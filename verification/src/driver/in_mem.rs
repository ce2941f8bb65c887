//! A driver implementation for processing in-memory data.

use vstd::prelude::*;

use super::{block_len, next_block, Driver};
use crate::types::{DataChunk, CHUNK_SIZE};

verus! {

/// A driver over one in-memory buffer: blocks are pulled from the front
/// of the unprocessed region and the transformed bytes are written back
/// over the bytes they came from, so the buffer is rewritten in place.
pub struct InMemoryDriver {
    buf: Vec<u8>,
    reader_cursor: usize,
    writer_cursor: usize,
}

impl InMemoryDriver {
    /// Creates a new `InMemoryDriver` with the specified buffer.
    pub fn new(buf: Vec<u8>) -> (r: Self)
        ensures
            r.wf(),
            r.ready(),
            r.pending() == buf@,
            r.committed().len() == 0,
    {
        let r = InMemoryDriver { buf, reader_cursor: 0, writer_cursor: 0 };
        proof {
            assert(r.pending() =~= r.buf@);
        }
        r
    }

    /// Extracts a slice containing the entire contents of the buffer.
    pub fn as_slice(&self) -> (r: &[u8])
        ensures
            self.wf() && self.ready() ==> r@ == self.committed() + self.pending(),
    {
        proof {
            if self.wf() && self.ready() {
                assert(self.buf@ =~= self.committed() + self.pending());
            }
        }
        self.buf.as_slice()
    }

    /// Consumes the driver and returns the inner buffer.
    pub fn into_vec(self) -> (r: Vec<u8>)
        ensures
            self.wf() && self.ready() ==> r@ == self.committed() + self.pending(),
    {
        proof {
            if self.wf() && self.ready() {
                assert(self.buf@ =~= self.committed() + self.pending());
            }
        }
        self.buf
    }
}

impl Driver for InMemoryDriver {
    type Error = ();

    closed spec fn pending(&self) -> Seq<u8> {
        self.buf@.skip(self.reader_cursor as int)
    }

    closed spec fn committed(&self) -> Seq<u8> {
        self.buf@.take(self.writer_cursor as int)
    }

    closed spec fn ready(&self) -> bool {
        self.reader_cursor == self.writer_cursor
    }

    closed spec fn inflight(&self) -> int {
        self.reader_cursor - self.writer_cursor
    }

    closed spec fn wf(&self) -> bool {
        &&& self.writer_cursor <= self.reader_cursor <= self.buf@.len()
        &&& (self.reader_cursor == self.writer_cursor || self.reader_cursor - self.writer_cursor
            == block_len(self.buf@.skip(self.writer_cursor as int)))
    }

    fn pull_chunk(&mut self) -> (r: Result<Option<DataChunk>, ()>)
        ensures
            r is Ok,
    {
        let cursor = self.reader_cursor;
        let remain_len = self.buf.len() - cursor;
        if remain_len == 0 {
            return Ok(None);
        }
        let read_len = if remain_len < CHUNK_SIZE {
            remain_len
        } else {
            CHUNK_SIZE
        };
        let mut bytes = DataChunk::zeroed();
        let mut j: usize = 0;
        while j < read_len
            invariant
                j <= read_len,
                read_len <= 8,
                self.buf@ == old(self).buf@,
                self.reader_cursor == old(self).reader_cursor,
                self.writer_cursor == old(self).writer_cursor,
                self.buf@.len() <= usize::MAX,
                cursor + read_len <= self.buf@.len(),
                forall|q: int| 0 <= q < j ==> bytes.0@[q] == self.buf@[cursor + q],
                forall|q: int| j <= q < 8 ==> bytes.0@[q] == 0u8,
            decreases read_len - j,
        {
            bytes.0[j] = self.buf[cursor + j];
            j += 1;
        }
        self.reader_cursor = cursor + read_len;
        proof {
            let pen = old(self).pending();
            assert(pen.len() == remain_len as int);
            assert(block_len(pen) == read_len as int);
            assert(bytes@ =~= next_block(pen));
            assert(self.pending() =~= pen.skip(block_len(pen)));
            assert(self.committed() == old(self).committed());
            assert(self.inflight() == read_len as int);
        }
        Ok(Some(bytes))
    }

    fn push_chunk(&mut self, chunk: DataChunk) -> (r: Result<(), ()>)
        ensures
            r is Ok,
    {
        let cursor = self.writer_cursor;
        let remain_len = self.buf.len() - cursor;
        let write_len = if remain_len < CHUNK_SIZE {
            remain_len
        } else {
            CHUNK_SIZE
        };
        proof {
            assert(write_len == old(self).inflight());
        }
        let mut j: usize = 0;
        while j < write_len
            invariant
                j <= write_len,
                write_len <= 8,
                self.buf@.len() <= usize::MAX,
                cursor + write_len <= self.buf@.len(),
                self.buf@.len() == old(self).buf@.len(),
                self.reader_cursor == old(self).reader_cursor,
                self.writer_cursor == old(self).writer_cursor,
                forall|q: int| 0 <= q < j ==> self.buf@[cursor + q] == chunk@[q],
                forall|q: int|
                    0 <= q < self.buf@.len() && !(cursor <= q < cursor + j) ==> self.buf@[q] == old(
                        self,
                    ).buf@[q],
            decreases write_len - j,
        {
            self.buf[cursor + j] = chunk.0[j];
            j += 1;
        }
        self.writer_cursor = cursor + write_len;
        proof {
            assert(self.committed() =~= old(self).committed() + chunk@.take(
                old(self).inflight(),
            ));
            assert(self.pending() =~= old(self).pending());
        }
        Ok(())
    }
}

} // verus!
