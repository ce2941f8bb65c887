//! The window of the buffered single-handle rewrite strategy.
//!
//! One large window buffer is reused across fills: a fill copies fresh
//! bytes to the front and zero-fills the tail, blocks are then served
//! sequentially out of the window, each transformed block is written back
//! over its own 8 bytes, and when the whole window has been consumed the
//! valid prefix is handed back for the write to the underlying file.
//! A new fill is only admitted once that write-back has been recorded,
//! because the same file offset range is both source and destination.

use vstd::prelude::*;

use crate::types::{DataChunk, CHUNK_SIZE};

verus! {

/// The in-memory window of the buffered rewrite strategy, with its read
/// cursor and its count of valid bytes pending write-back.
pub struct WindowBuffer {
    buf: Vec<u8>,
    reader_cursor: usize,
    writer_remains: usize,
}

impl WindowBuffer {
    /// The window's contents.
    pub closed spec fn window(&self) -> Seq<u8> {
        self.buf@
    }

    /// The read cursor: how many window bytes were already served.
    pub closed spec fn cursor(&self) -> int {
        self.reader_cursor as int
    }

    /// How many bytes of the window are real data pending write-back.
    pub closed spec fn valid_len(&self) -> int {
        self.writer_remains as int
    }

    /// The window's internal consistency: a whole number of blocks, a
    /// block-aligned cursor, and a valid prefix within the window.
    pub open spec fn wf(&self) -> bool {
        &&& self.window().len() % 8 == 0
        &&& self.window().len() > 0
        &&& self.cursor() % 8 == 0
        &&& self.cursor() <= self.window().len()
        &&& self.valid_len() <= self.window().len()
    }

    /// Allocates the window once; it starts fully consumed, so the first
    /// use must fill it.
    pub fn new(capacity: usize) -> (r: Self)
        requires
            capacity % 8 == 0,
            capacity > 0,
        ensures
            r.wf(),
            r.window().len() == capacity,
            r.cursor() == capacity,
            r.valid_len() == 0,
    {
        let mut buf: Vec<u8> = Vec::new();
        let mut i: usize = 0;
        while i < capacity
            invariant
                i <= capacity,
                buf@.len() == i,
            decreases capacity - i,
        {
            buf.push(0u8);
            i += 1;
        }
        WindowBuffer { buf, reader_cursor: capacity, writer_remains: 0 }
    }

    /// Whether every block of the window has been served, so the next
    /// pull needs a fresh fill.
    pub fn needs_refill(&self) -> (r: bool)
        ensures
            r == (self.cursor() >= self.window().len()),
    {
        self.reader_cursor >= self.buf.len()
    }

    /// The read cursor, as a plain value.
    pub fn position(&self) -> (r: usize)
        ensures
            r == self.cursor(),
    {
        self.reader_cursor
    }

    /// Fills the window with fresh bytes: the data moves to the front,
    /// the unused tail is zero-filled, the cursor is reset to the start,
    /// and the data's own length becomes the count pending write-back.
    ///
    /// The previous window's write-back must have been recorded first:
    /// the same offsets are both source and destination, so reading
    /// ahead before the write-back would lose data.
    pub fn refill(&mut self, data: &[u8])
        requires
            old(self).wf(),
            old(self).cursor() >= old(self).window().len(),
            old(self).valid_len() == 0,
            data@.len() <= old(self).window().len(),
        ensures
            final(self).wf(),
            final(self).window().len() == old(self).window().len(),
            final(self).window() == data@ + Seq::new(
                (old(self).window().len() - data@.len()) as nat,
                |i: int| 0u8,
            ),
            final(self).cursor() == 0,
            final(self).valid_len() == data@.len(),
    {
        let data_len = data.len();
        let total = self.buf.len();
        let mut i: usize = 0;
        while i < data_len
            invariant
                i <= data_len,
                data_len == data@.len(),
                data_len <= total,
                total == self.buf@.len(),
                self.buf@.len() == old(self).buf@.len(),
                self.reader_cursor == old(self).reader_cursor,
                self.writer_remains == old(self).writer_remains,
                forall|q: int| 0 <= q < i ==> self.buf@[q] == data@[q],
            decreases data_len - i,
        {
            self.buf[i] = data[i];
            i += 1;
        }
        let mut j: usize = data_len;
        while j < total
            invariant
                data_len <= j <= total,
                data_len == data@.len(),
                total == self.buf@.len(),
                self.buf@.len() == old(self).buf@.len(),
                self.reader_cursor == old(self).reader_cursor,
                self.writer_remains == old(self).writer_remains,
                forall|q: int| 0 <= q < data_len ==> self.buf@[q] == data@[q],
                forall|q: int| data_len <= q < j ==> self.buf@[q] == 0u8,
            decreases total - j,
        {
            self.buf[j] = 0u8;
            j += 1;
        }
        self.reader_cursor = 0;
        self.writer_remains = data_len;
        proof {
            assert(self.window() =~= data@ + Seq::new(
                (old(self).window().len() - data@.len()) as nat,
                |i: int| 0u8,
            ));
        }
    }

    /// Serves the next 8-byte block out of the window and advances the
    /// cursor past it.
    pub fn take_block(&mut self) -> (r: DataChunk)
        requires
            old(self).wf(),
            old(self).cursor() < old(self).window().len(),
        ensures
            final(self).wf(),
            r@ == old(self).window().subrange(old(self).cursor(), old(self).cursor() + 8),
            final(self).window() == old(self).window(),
            final(self).cursor() == old(self).cursor() + 8,
            final(self).valid_len() == old(self).valid_len(),
    {
        let cursor = self.reader_cursor;
        let total = self.buf.len();
        let mut bytes = DataChunk::zeroed();
        let mut j: usize = 0;
        while j < CHUNK_SIZE
            invariant
                j <= 8,
                self.buf@ == old(self).buf@,
                self.reader_cursor == old(self).reader_cursor,
                self.writer_remains == old(self).writer_remains,
                cursor == old(self).reader_cursor,
                total == self.buf@.len(),
                cursor + 8 <= self.buf@.len(),
                forall|q: int| 0 <= q < j ==> bytes.0@[q] == self.buf@[cursor + q],
            decreases 8 - j,
        {
            bytes.0[j] = self.buf[cursor + j];
            j += 1;
        }
        self.reader_cursor = cursor + CHUNK_SIZE;
        proof {
            assert(bytes@ =~= old(self).window().subrange(
                old(self).cursor(),
                old(self).cursor() + 8,
            ));
        }
        bytes
    }

    /// Writes a transformed block back over the 8 window bytes it was
    /// served from, the block the cursor last moved past. When nothing
    /// is pending write-back the chunk holds padding alone and is
    /// dropped unchanged.
    ///
    /// Returns whether the whole window has now been consumed, so the
    /// valid prefix is due to be written back to the file.
    pub fn commit_block(&mut self, chunk: DataChunk) -> (r: bool)
        requires
            old(self).wf(),
            old(self).cursor() >= 8,
        ensures
            final(self).wf(),
            final(self).window().len() == old(self).window().len(),
            final(self).cursor() == old(self).cursor(),
            final(self).valid_len() == old(self).valid_len(),
            old(self).valid_len() == 0 ==> final(self).window() == old(self).window(),
            old(self).valid_len() > 0 ==> final(self).window() == old(self).window().subrange(
                0,
                old(self).cursor() - 8,
            ) + chunk@ + old(self).window().skip(old(self).cursor()),
            r == (old(self).valid_len() > 0 && old(self).cursor() >= old(self).window().len()),
    {
        if self.writer_remains == 0 {
            return false;
        }
        let offset = self.reader_cursor - CHUNK_SIZE;
        let total = self.buf.len();
        let mut j: usize = 0;
        while j < CHUNK_SIZE
            invariant
                j <= 8,
                self.buf@.len() == old(self).buf@.len(),
                self.reader_cursor == old(self).reader_cursor,
                self.writer_remains == old(self).writer_remains,
                offset == old(self).reader_cursor - 8,
                total == self.buf@.len(),
                offset + 8 <= self.buf@.len(),
                forall|q: int| 0 <= q < j ==> self.buf@[offset + q] == chunk@[q],
                forall|q: int|
                    0 <= q < self.buf@.len() && !(offset <= q < offset + j) ==> self.buf@[q] == old(
                        self,
                    ).buf@[q],
            decreases 8 - j,
        {
            self.buf[offset + j] = chunk.0[j];
            j += 1;
        }
        proof {
            assert(self.window() =~= old(self).window().subrange(0, old(self).cursor() - 8)
                + chunk@ + old(self).window().skip(old(self).cursor()));
        }
        self.reader_cursor >= self.buf.len()
    }

    /// The whole window, the valid prefix of which is what a write-back
    /// hands to the file.
    pub fn as_bytes(&self) -> (r: &[u8])
        ensures
            r@ == self.window(),
    {
        self.buf.as_slice()
    }

    /// How many bytes of the window the pending write-back covers.
    pub fn flush_len(&self) -> (r: usize)
        ensures
            r == self.valid_len(),
    {
        self.writer_remains
    }

    /// Records that the valid prefix was written back, which admits the
    /// next fill.
    pub fn mark_flushed(&mut self)
        requires
            old(self).wf(),
        ensures
            final(self).wf(),
            final(self).window() == old(self).window(),
            final(self).cursor() == old(self).cursor(),
            final(self).valid_len() == 0,
    {
        self.writer_remains = 0;
    }
}

} // verus!
