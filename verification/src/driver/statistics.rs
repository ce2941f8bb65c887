//! A driver wrapper that reports statistics for its underlying driver.

use vstd::prelude::*;

use super::Driver;
use crate::types::{DataChunk, CHUNK_SIZE};

verus! {

/// Trait implemented by reporters for [`Statistics`] to receive the
/// statistics data. Reporters own all presentation; nothing is assumed
/// about what they do with the counts.
pub trait Reporter {
    /// Called when bytes of the given length are processed.
    fn bytes_processed(&mut self, n: usize);
}

/// A driver wrapper that reports the data statistics for its underlying
/// driver: every successfully pushed chunk is reported to the reporter.
pub struct Statistics<D, R> {
    driver: D,
    reporter: R,
}

impl<D, R> Statistics<D, R> {
    /// The wrapped driver.
    pub closed spec fn spec_driver(&self) -> D {
        self.driver
    }

    /// The wrapped reporter.
    pub closed spec fn spec_reporter(&self) -> R {
        self.reporter
    }

    /// Creates a new `Statistics` with the specified driver and reporter.
    pub fn new(driver: D, reporter: R) -> (r: Self)
        ensures
            r.spec_driver() == driver,
            r.spec_reporter() == reporter,
    {
        Statistics { driver, reporter }
    }

    /// Returns the reference of the underlying driver.
    pub fn driver(&self) -> (r: &D)
        ensures
            *r == self.spec_driver(),
    {
        &self.driver
    }

    /// Consumes the wrapper and returns the inner driver.
    pub fn into_driver(self) -> (r: D)
        ensures
            r == self.spec_driver(),
    {
        self.driver
    }

    /// Returns the reference of the reporter.
    pub fn reporter(&self) -> (r: &R)
        ensures
            *r == self.spec_reporter(),
    {
        &self.reporter
    }
}

impl<D: Driver, R: Reporter> Driver for Statistics<D, R> {
    type Error = <D as Driver>::Error;

    open spec fn pending(&self) -> Seq<u8> {
        self.spec_driver().pending()
    }

    open spec fn committed(&self) -> Seq<u8> {
        self.spec_driver().committed()
    }

    open spec fn ready(&self) -> bool {
        self.spec_driver().ready()
    }

    open spec fn inflight(&self) -> int {
        self.spec_driver().inflight()
    }

    open spec fn wf(&self) -> bool {
        self.spec_driver().wf()
    }

    fn pull_chunk(&mut self) -> (r: Result<Option<DataChunk>, Self::Error>) {
        let r = self.driver.pull_chunk();
        proof {
            assert(self.inflight() == self.spec_driver().inflight());
            assert(old(self).pending() == old(self).spec_driver().pending());
        }
        r
    }

    fn push_chunk(&mut self, chunk: DataChunk) -> (r: Result<(), Self::Error>) {
        let len = chunk.as_slice().len();
        let res = self.driver.push_chunk(chunk);
        proof {
            assert(old(self).inflight() == old(self).spec_driver().inflight());
            assert(self.committed() == self.spec_driver().committed());
        }
        match res {
            Ok(_) => {
                self.reporter.bytes_processed(len);
                Ok(())
            },
            Err(e) => Err(e),
        }
    }
}

} // verus!
