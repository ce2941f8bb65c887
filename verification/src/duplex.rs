//! Accounting for a duplex channel: a read handle and a write handle on
//! the same underlying file, coordinated by two monotonically increasing
//! byte counters. The invariant is that cumulative written bytes never
//! exceed cumulative read bytes, so an in-place rewrite never overwrites
//! data that has not yet been consumed.

use vstd::prelude::*;

verus! {

/// An attempted write would exceed the bytes read so far: an ordering
/// error of the caller, not a transient I/O failure.
#[derive(Debug, Clone, Copy, PartialEq, Eq, Structural)]
pub struct OrderingViolation;

/// The shared counters of one duplex channel.
#[derive(Debug)]
pub struct DuplexState {
    rd_cnt: usize,
    wr_cnt: usize,
}

impl DuplexState {
    /// Total bytes read through the channel so far.
    pub closed spec fn bytes_read(&self) -> int {
        self.rd_cnt as int
    }

    /// Total bytes written through the channel so far.
    pub closed spec fn bytes_written(&self) -> int {
        self.wr_cnt as int
    }

    /// The duplex invariant: writes never overtake reads.
    pub open spec fn wf(&self) -> bool {
        self.bytes_written() <= self.bytes_read()
    }

    /// A fresh channel: nothing read, nothing written.
    pub fn new() -> (r: Self)
        ensures
            r.wf(),
            r.bytes_read() == 0,
            r.bytes_written() == 0,
    {
        DuplexState { rd_cnt: 0, wr_cnt: 0 }
    }

    /// The read counter, as a plain value.
    pub fn read_count(&self) -> (r: usize)
        ensures
            r == self.bytes_read(),
    {
        self.rd_cnt
    }

    /// The write counter, as a plain value.
    pub fn write_count(&self) -> (r: usize)
        ensures
            r == self.bytes_written(),
    {
        self.wr_cnt
    }

    /// Records that `n` more bytes were read; reads alone never break
    /// the invariant.
    pub fn record_read(&mut self, n: usize)
        requires
            old(self).bytes_read() + n <= usize::MAX,
        ensures
            final(self).bytes_read() == old(self).bytes_read() + n,
            final(self).bytes_written() == old(self).bytes_written(),
            old(self).wf() ==> final(self).wf(),
    {
        self.rd_cnt = self.rd_cnt + n;
    }

    /// Decides whether a write of `len` bytes may proceed: it is refused,
    /// if and only if it would make cumulative written bytes exceed
    /// cumulative read bytes. A refused write changes nothing: the
    /// counters are untouched, so no part of it is applied.
    pub fn check_write(&self, len: usize) -> (r: Result<(), OrderingViolation>)
        ensures
            r is Ok <==> self.bytes_written() + len <= self.bytes_read(),
    {
        if self.wr_cnt <= self.rd_cnt && len <= self.rd_cnt - self.wr_cnt {
            Ok(())
        } else {
            Err(OrderingViolation)
        }
    }

    /// Records that `n` more bytes were actually written, after a
    /// passing check admitted at least that many.
    pub fn record_write(&mut self, n: usize)
        requires
            old(self).bytes_written() + n <= old(self).bytes_read(),
        ensures
            final(self).bytes_written() == old(self).bytes_written() + n,
            final(self).bytes_read() == old(self).bytes_read(),
            final(self).wf(),
    {
        self.wr_cnt = self.wr_cnt + n;
    }
}

} // verus!
