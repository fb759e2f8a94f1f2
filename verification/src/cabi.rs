//! Values crossing the C ABI: the fixed-layout tensor descriptor and the
//! checks that turn it into a tensor description.
use crate::types::{DescView, Error, TensorDesc, MAX_RANK};
use vstd::prelude::*;

verus! {

/// Size in bytes of the C layout of `CTensorDesc`: four `u32` fields, the
/// `u64` offset and `MAX_RANK` `u64` dimensions.
pub const C_TENSOR_DESC_SIZE: u32 = 88;

/// The only element type: unsigned bytes.
pub const DTYPE_U8: u32 = 1;

/// A tensor descriptor as C callers fill it in. Dimensions past `rank` must
/// be zero.
pub struct CTensorDesc {
    pub struct_size: u32,
    pub dtype: u32,
    pub rank: u32,
    pub flags: u32,
    pub offset: u64,
    pub shape: [u64; MAX_RANK],
}

/// What a C descriptor denotes: a wrong size or a rank outside `1..=MAX_RANK`
/// is invalid, another element type or any flag is unsupported, a nonzero
/// dimension past the rank is invalid; otherwise the offset and the first
/// `rank` dimensions.
pub open spec fn c_desc_outcome(
    struct_size: u32,
    dtype: u32,
    rank: u32,
    flags: u32,
    offset: u64,
    shape: Seq<u64>,
) -> Result<DescView, Error> {
    if struct_size != C_TENSOR_DESC_SIZE || rank == 0 || rank > MAX_RANK {
        Err(Error::Invalid)
    } else if dtype != DTYPE_U8 || flags != 0 {
        Err(Error::Unsupported)
    } else if exists|i: int| rank <= i < shape.len() && shape[i] != 0 {
        Err(Error::Invalid)
    } else {
        Ok(DescView { offset, shape: shape.subrange(0, rank as int) })
    }
}

impl CTensorDesc {
    /// The description of this descriptor's fields.
    pub open spec fn outcome(&self) -> Result<DescView, Error> {
        c_desc_outcome(self.struct_size, self.dtype, self.rank, self.flags, self.offset, self.shape@)
    }

    /// Checks the descriptor and converts it.
    pub fn to_desc(&self) -> (r: Result<TensorDesc, Error>)
        ensures
            match r {
                Ok(d) => self.outcome() == Ok::<DescView, Error>(d@),
                Err(e) => self.outcome() == Err::<DescView, Error>(e),
            },
    {
        if self.struct_size != C_TENSOR_DESC_SIZE || self.rank == 0 || self.rank as usize
            > MAX_RANK {
            return Err(Error::Invalid);
        }
        if self.dtype != DTYPE_U8 || self.flags != 0 {
            return Err(Error::Unsupported);
        }
        let rank = self.rank as usize;
        let mut i: usize = rank;
        while i < MAX_RANK
            invariant
                rank <= i <= MAX_RANK,
                rank == self.rank,
                0 < self.rank <= MAX_RANK,
                self.struct_size == C_TENSOR_DESC_SIZE,
                self.dtype == DTYPE_U8,
                self.flags == 0,
                self.shape@.len() == MAX_RANK,
                forall|k: int| rank <= k < i ==> self.shape@[k] == 0,
            decreases MAX_RANK - i,
        {
            if self.shape[i] != 0 {
                assert(self.shape@[i as int] != 0);
                return Err(Error::Invalid);
            }
            i = i + 1;
        }
        let mut shape: Vec<u64> = Vec::with_capacity(rank);
        let mut j: usize = 0;
        while j < rank
            invariant
                j <= rank <= MAX_RANK,
                self.shape@.len() == MAX_RANK,
                shape@ =~= self.shape@.subrange(0, j as int),
            decreases rank - j,
        {
            shape.push(self.shape[j]);
            j = j + 1;
        }
        Ok(TensorDesc { offset: self.offset, shape })
    }
}


/// What a C buffer read reports once the bytes have arrived: their length is
/// handed back in every case; a destination with room for fewer bytes is
/// `NoMemory`, a missing destination `Invalid`; otherwise the bytes are
/// copied out.
pub fn copy_out_check(len: usize, capacity: u64, has_data: bool) -> (r: Result<(), Error>)
    ensures
        r == (if capacity < len {
            Err::<(), Error>(Error::NoMemory)
        } else if !has_data {
            Err(Error::Invalid)
        } else {
            Ok(())
        }),
{
    if capacity < len as u64 {
        Err(Error::NoMemory)
    } else if !has_data {
        Err(Error::Invalid)
    } else {
        Ok(())
    }
}

} // verus!
