//! Little-endian field encoding and a bounds-checked field decoder.
use crate::types::Error;
use vstd::bytes::{
    spec_u16_from_le_bytes, spec_u16_to_le_bytes, spec_u32_from_le_bytes, spec_u32_to_le_bytes,
    spec_u64_from_le_bytes, spec_u64_to_le_bytes,
};
use vstd::prelude::*;

verus! {

/// The four little-endian bytes of a `u32`.
pub open spec fn le32(value: u32) -> Seq<u8> {
    spec_u32_to_le_bytes(value)
}

/// The eight little-endian bytes of a `u64`.
pub open spec fn le64(value: u64) -> Seq<u8> {
    spec_u64_to_le_bytes(value)
}

/// The two little-endian bytes of a `u16`.
pub open spec fn le16(value: u16) -> Seq<u8> {
    spec_u16_to_le_bytes(value)
}

/// The `u32` whose little-endian bytes start at `at`.
pub open spec fn read32(bytes: Seq<u8>, at: int) -> u32 {
    spec_u32_from_le_bytes(bytes.subrange(at, at + 4))
}

/// The `u64` whose little-endian bytes start at `at`.
pub open spec fn read64(bytes: Seq<u8>, at: int) -> u64 {
    spec_u64_from_le_bytes(bytes.subrange(at, at + 8))
}

/// The `u16` whose little-endian bytes start at `at`.
pub open spec fn read16(bytes: Seq<u8>, at: int) -> u16 {
    spec_u16_from_le_bytes(bytes.subrange(at, at + 2))
}

/// Encoding then decoding a field gives the value back, and every encoding has
/// the width of its type.
pub proof fn lemma_le_roundtrip()
    ensures
        forall|v: u16| #[trigger] le16(v).len() == 2 && read16(le16(v), 0) == v,
        forall|v: u32| #[trigger] le32(v).len() == 4 && read32(le32(v), 0) == v,
        forall|v: u64| #[trigger] le64(v).len() == 8 && read64(le64(v), 0) == v,
{
    vstd::bytes::lemma_auto_spec_u16_to_from_le_bytes();
    vstd::bytes::lemma_auto_spec_u32_to_from_le_bytes();
    vstd::bytes::lemma_auto_spec_u64_to_from_le_bytes();
    assert forall|v: u16| #[trigger] le16(v).len() == 2 && read16(le16(v), 0) == v by {
        assert(le16(v).subrange(0, 2) =~= le16(v));
    }
    assert forall|v: u32| #[trigger] le32(v).len() == 4 && read32(le32(v), 0) == v by {
        assert(le32(v).subrange(0, 4) =~= le32(v));
    }
    assert forall|v: u64| #[trigger] le64(v).len() == 8 && read64(le64(v), 0) == v by {
        assert(le64(v).subrange(0, 8) =~= le64(v));
    }
}

/// Reading a field inside a longer sequence reads the bytes of that field only.
pub proof fn lemma_read_in_concat(a: Seq<u8>, b: Seq<u8>, at: int)
    ensures
        0 <= at && at + 4 <= a.len() ==> read32(a + b, at) == read32(a, at),
        0 <= at && at + 8 <= a.len() ==> read64(a + b, at) == read64(a, at),
        0 <= at && at + 2 <= a.len() ==> read16(a + b, at) == read16(a, at),
        0 <= at && at + 4 <= b.len() ==> read32(a + b, a.len() + at) == read32(b, at),
        0 <= at && at + 8 <= b.len() ==> read64(a + b, a.len() + at) == read64(b, at),
        0 <= at && at + 2 <= b.len() ==> read16(a + b, a.len() + at) == read16(b, at),
{
    if 0 <= at && at + 4 <= a.len() {
        assert((a + b).subrange(at, at + 4) =~= a.subrange(at, at + 4));
    }
    if 0 <= at && at + 8 <= a.len() {
        assert((a + b).subrange(at, at + 8) =~= a.subrange(at, at + 8));
    }
    if 0 <= at && at + 2 <= a.len() {
        assert((a + b).subrange(at, at + 2) =~= a.subrange(at, at + 2));
    }
    if 0 <= at && at + 4 <= b.len() {
        assert((a + b).subrange(a.len() + at, a.len() + at + 4) =~= b.subrange(at, at + 4));
    }
    if 0 <= at && at + 8 <= b.len() {
        assert((a + b).subrange(a.len() + at, a.len() + at + 8) =~= b.subrange(at, at + 8));
    }
    if 0 <= at && at + 2 <= b.len() {
        assert((a + b).subrange(a.len() + at, a.len() + at + 2) =~= b.subrange(at, at + 2));
    }
}

/// Appends `bytes` to `out`.
pub fn put_bytes(out: &mut Vec<u8>, bytes: &[u8])
    ensures
        final(out)@ == old(out)@ + bytes@,
{
    let ghost start = out@;
    let mut i: usize = 0;
    while i < bytes.len()
        invariant
            0 <= i <= bytes@.len(),
            out@ == start + bytes@.subrange(0, i as int),
        decreases bytes@.len() - i,
    {
        out.push(bytes[i]);
        assert(bytes@.subrange(0, i + 1) =~= bytes@.subrange(0, i as int).push(bytes@[i as int]));
        i = i + 1;
    }
    assert(bytes@.subrange(0, i as int) =~= bytes@);
}

/// Appends the little-endian bytes of `value` to `out`.
pub fn put16(out: &mut Vec<u8>, value: u16)
    ensures
        final(out)@ == old(out)@ + le16(value),
{
    let bytes = vstd::bytes::u16_to_le_bytes(value);
    put_bytes(out, bytes.as_slice());
}

/// Appends the little-endian bytes of `value` to `out`.
pub fn put32(out: &mut Vec<u8>, value: u32)
    ensures
        final(out)@ == old(out)@ + le32(value),
{
    let bytes = vstd::bytes::u32_to_le_bytes(value);
    put_bytes(out, bytes.as_slice());
}

/// Appends the little-endian bytes of `value` to `out`.
pub fn put64(out: &mut Vec<u8>, value: u64)
    ensures
        final(out)@ == old(out)@ + le64(value),
{
    let bytes = vstd::bytes::u64_to_le_bytes(value);
    put_bytes(out, bytes.as_slice());
}

/// The `u16` at `at` in `bytes`.
pub fn get16(bytes: &[u8], at: usize) -> (v: u16)
    requires
        at + 2 <= bytes@.len(),
    ensures
        v == read16(bytes@, at as int),
{
    let _len = bytes.len();
    vstd::bytes::u16_from_le_bytes(vstd::slice::slice_subrange(bytes, at, at + 2))
}

/// The `u32` at `at` in `bytes`.
pub fn get32(bytes: &[u8], at: usize) -> (v: u32)
    requires
        at + 4 <= bytes@.len(),
    ensures
        v == read32(bytes@, at as int),
{
    let _len = bytes.len();
    vstd::bytes::u32_from_le_bytes(vstd::slice::slice_subrange(bytes, at, at + 4))
}

/// The `u64` at `at` in `bytes`.
pub fn get64(bytes: &[u8], at: usize) -> (v: u64)
    requires
        at + 8 <= bytes@.len(),
    ensures
        v == read64(bytes@, at as int),
{
    let _len = bytes.len();
    vstd::bytes::u64_from_le_bytes(vstd::slice::slice_subrange(bytes, at, at + 8))
}

/// Consumes fields from the front of a payload, failing on truncation.
pub struct Decoder<'a> {
    data: &'a [u8],
    offset: usize,
}

impl<'a> Decoder<'a> {
    #[verifier::type_invariant]
    spec fn inv(self) -> bool {
        self.offset <= self.data@.len()
    }

    /// The whole payload being decoded.
    pub closed spec fn bytes(self) -> Seq<u8> {
        self.data@
    }

    /// How many bytes have been consumed.
    pub closed spec fn pos(self) -> int {
        self.offset as int
    }

    /// A decoder at the start of `data`.
    pub fn new(data: &'a [u8]) -> (d: Self)
        ensures
            d.bytes() == data@,
            d.pos() == 0,
    {
        Decoder { data, offset: 0 }
    }

    /// Consumes the next `size` bytes.
    pub fn take(&mut self, size: usize) -> (r: Result<&'a [u8], Error>)
        ensures
            final(self).bytes() == old(self).bytes(),
            0 <= old(self).pos() <= old(self).bytes().len(),
            0 <= final(self).pos() <= final(self).bytes().len(),
            r is Ok <==> old(self).pos() + size <= old(self).bytes().len(),
            r matches Ok(s) ==> s@ == old(self).bytes().subrange(
                old(self).pos(),
                old(self).pos() + size,
            ) && final(self).pos() == old(self).pos() + size,
            r matches Err(e) ==> e == Error::Invalid && final(self).pos() == old(self).pos(),
    {
        proof {
            use_type_invariant(&*self);
        }
        let _len = self.data.len();
        let end = match self.offset.checked_add(size) {
            Some(e) => e,
            None => {
                return Err(Error::Invalid);
            },
        };
        if end > self.data.len() {
            return Err(Error::Invalid);
        }
        let data = vstd::slice::slice_subrange(self.data, self.offset, end);
        self.offset = end;
        Ok(data)
    }

    /// Consumes a little-endian `u32`.
    pub fn u32(&mut self) -> (r: Result<u32, Error>)
        ensures
            final(self).bytes() == old(self).bytes(),
            0 <= old(self).pos() <= old(self).bytes().len(),
            0 <= final(self).pos() <= final(self).bytes().len(),
            r is Ok <==> old(self).pos() + 4 <= old(self).bytes().len(),
            r matches Ok(v) ==> v == read32(old(self).bytes(), old(self).pos())
                && final(self).pos() == old(self).pos() + 4,
            r matches Err(e) ==> e == Error::Invalid && final(self).pos() == old(self).pos(),
    {
        let bytes = self.take(4)?;
        Ok(vstd::bytes::u32_from_le_bytes(bytes))
    }

    /// Consumes a little-endian `u64`.
    pub fn u64(&mut self) -> (r: Result<u64, Error>)
        ensures
            final(self).bytes() == old(self).bytes(),
            0 <= old(self).pos() <= old(self).bytes().len(),
            0 <= final(self).pos() <= final(self).bytes().len(),
            r is Ok <==> old(self).pos() + 8 <= old(self).bytes().len(),
            r matches Ok(v) ==> v == read64(old(self).bytes(), old(self).pos())
                && final(self).pos() == old(self).pos() + 8,
            r matches Err(e) ==> e == Error::Invalid && final(self).pos() == old(self).pos(),
    {
        let bytes = self.take(8)?;
        Ok(vstd::bytes::u64_from_le_bytes(bytes))
    }

    /// Succeeds exactly when the whole payload has been consumed.
    pub fn finish(self) -> (r: Result<(), Error>)
        ensures
            r is Ok <==> self.pos() == self.bytes().len(),
            r matches Err(e) ==> e == Error::Invalid,
    {
        if self.offset == self.data.len() {
            Ok(())
        } else {
            Err(Error::Invalid)
        }
    }
}

} // verus!
