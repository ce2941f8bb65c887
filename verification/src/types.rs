//! The fixed-size block container moved between I/O and the transform.

use vstd::prelude::*;

verus! {

/// Number of bytes in one block, the atomic unit of the transform.
pub const CHUNK_SIZE: usize = 8;

/// A fixed-length 8-byte data chunk, the atomic unit of the transform.
///
/// A short final read is zero-padded to 8 bytes before the transform and
/// truncated back to its original length when written out.
#[derive(Debug, Clone, Copy)]
pub struct DataChunk(pub [u8; CHUNK_SIZE]);

impl View for DataChunk {
    type V = Seq<u8>;

    open spec fn view(&self) -> Seq<u8> {
        self.0@
    }
}

impl DataChunk {
    /// Extracts a reference to the underlying byte array.
    pub fn as_slice(&self) -> (r: &[u8; CHUNK_SIZE])
        ensures
            r@ == self@,
    {
        &self.0
    }

    /// Extracts a mutable reference to the underlying byte array.
    pub fn as_mut_slice(&mut self) -> (r: &mut [u8; CHUNK_SIZE])
        ensures
            r@ == old(self)@,
            final(self)@ == final(r)@,
    {
        &mut self.0
    }

    /// A chunk of eight zero bytes.
    pub fn zeroed() -> (r: DataChunk)
        ensures
            r@ == Seq::new(8, |i: int| 0u8),
    {
        let a = [0u8; CHUNK_SIZE];
        let r = DataChunk(a);
        proof {
            let fill = vstd::array::spec_array_fill_for_copy_type::<u8, 8>(0u8);
            assert(a == fill);
            assert(forall|i: int| 0 <= i < 8 ==> fill@[i] == 0u8);
            assert(r@.len() == 8);
            assert(r@ =~= Seq::new(8, |i: int| 0u8));
        }
        r
    }
}

impl PartialEq for DataChunk {
    /// Two chunks are equal when all eight bytes agree.
    fn eq(&self, other: &DataChunk) -> (r: bool) {
        let mut i: usize = 0;
        while i < CHUNK_SIZE
            invariant
                0 <= i <= 8,
                forall|j: int| 0 <= j < i ==> self@[j] == other@[j],
            decreases 8 - i,
        {
            if self.0[i] != other.0[i] {
                return false;
            }
            i += 1;
        }
        proof {
            assert(self@ =~= other@);
        }
        true
    }
}

impl vstd::std_specs::cmp::PartialEqSpecImpl for DataChunk {
    open spec fn obeys_eq_spec() -> bool {
        true
    }

    open spec fn eq_spec(&self, other: &DataChunk) -> bool {
        self@ == other@
    }
}

impl Eq for DataChunk {

}

impl Default for DataChunk {
    /// The default chunk is all zeroes.
    fn default() -> (r: Self)
        ensures
            r@ == Seq::new(8, |i: int| 0u8),
    {
        DataChunk::zeroed()
    }
}

impl From<[u8; CHUNK_SIZE]> for DataChunk {
    fn from(value: [u8; CHUNK_SIZE]) -> (r: Self) {
        DataChunk(value)
    }
}

impl vstd::std_specs::convert::FromSpecImpl<[u8; CHUNK_SIZE]> for DataChunk {
    open spec fn obeys_from_spec() -> bool {
        true
    }

    open spec fn from_spec(value: [u8; CHUNK_SIZE]) -> Self {
        DataChunk(value)
    }
}

} // verus!
