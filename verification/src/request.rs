//! Request messages and their exact little-endian payload encoding.
use crate::codec::{le32, le64, put32, put64, put_bytes, read32, read64, Decoder};
use crate::types::{DescView, Error, Handle, TensorDesc, MAX_BUFFER, MAX_RANK};
use vstd::prelude::*;
use vstd::string::StringSliceAdditionalSpecFns;
use vstd::utf8::{decode_utf8, encode_utf8, valid_utf8};

verus! {

/// Longest model name accepted by `MODEL_OPEN`, in UTF-8 bytes.
pub const MAX_MODEL_NAME: usize = 128;

/// Requests a client can send; each has an opcode and an exact payload layout.
#[derive(Debug, Clone)]
pub enum Request {
    Hello,
    Stats,
    ModelOpen(String),
    ModelClose(Handle),
    BufferAlloc(u32),
    BufferWrite { buffer: Handle, data: Vec<u8> },
    BufferRead(Handle),
    BufferFree(Handle),
    TensorCreate { buffer: Handle, desc: TensorDesc },
    TensorRelease(Handle),
    Submit { model: Handle, input: Handle, output: Handle, delay_ms: u32 },
    JobStatus(Handle),
    JobCancel(Handle),
    JobRelease(Handle),
}

/// The mathematical content of a request.
pub enum RequestView {
    Hello,
    Stats,
    ModelOpen(Seq<char>),
    ModelClose(Handle),
    BufferAlloc(u32),
    BufferWrite { buffer: Handle, data: Seq<u8> },
    BufferRead(Handle),
    BufferFree(Handle),
    TensorCreate { buffer: Handle, desc: DescView },
    TensorRelease(Handle),
    Submit { model: Handle, input: Handle, output: Handle, delay_ms: u32 },
    JobStatus(Handle),
    JobCancel(Handle),
    JobRelease(Handle),
}

impl View for Request {
    type V = RequestView;

    open spec fn view(&self) -> RequestView {
        match self {
            Request::Hello => RequestView::Hello,
            Request::Stats => RequestView::Stats,
            Request::ModelOpen(name) => RequestView::ModelOpen(name@),
            Request::ModelClose(h) => RequestView::ModelClose(*h),
            Request::BufferAlloc(n) => RequestView::BufferAlloc(*n),
            Request::BufferWrite { buffer, data } => RequestView::BufferWrite {
                buffer: *buffer,
                data: data@,
            },
            Request::BufferRead(h) => RequestView::BufferRead(*h),
            Request::BufferFree(h) => RequestView::BufferFree(*h),
            Request::TensorCreate { buffer, desc } => RequestView::TensorCreate {
                buffer: *buffer,
                desc: desc@,
            },
            Request::TensorRelease(h) => RequestView::TensorRelease(*h),
            Request::Submit { model, input, output, delay_ms } => RequestView::Submit {
                model: *model,
                input: *input,
                output: *output,
                delay_ms: *delay_ms,
            },
            Request::JobStatus(h) => RequestView::JobStatus(*h),
            Request::JobCancel(h) => RequestView::JobCancel(*h),
            Request::JobRelease(h) => RequestView::JobRelease(*h),
        }
    }
}

/// The concatenated little-endian encodings of the dimensions of a shape.
pub open spec fn encode_dims(shape: Seq<u64>) -> Seq<u8>
    decreases shape.len(),
{
    if shape.len() == 0 {
        Seq::empty()
    } else {
        encode_dims(shape.drop_last()) + le64(shape.last())
    }
}

/// The opcode and payload of a request.
pub open spec fn spec_encode(r: RequestView) -> (u16, Seq<u8>) {
    match r {
        RequestView::Hello => (1, Seq::empty()),
        RequestView::Stats => (2, Seq::empty()),
        RequestView::ModelOpen(name) => (
            10,
            le32(encode_utf8(name).len() as u32) + encode_utf8(name),
        ),
        RequestView::ModelClose(h) => (11, le64(h)),
        RequestView::BufferAlloc(n) => (20, le32(n)),
        RequestView::BufferWrite { buffer, data } => (
            21,
            le64(buffer) + le32(data.len() as u32) + data,
        ),
        RequestView::BufferRead(h) => (22, le64(h)),
        RequestView::BufferFree(h) => (23, le64(h)),
        RequestView::TensorCreate { buffer, desc } => (
            30,
            le64(buffer) + le64(desc.offset) + le32(desc.shape.len() as u32) + encode_dims(
                desc.shape,
            ),
        ),
        RequestView::TensorRelease(h) => (31, le64(h)),
        RequestView::Submit { model, input, output, delay_ms } => (
            40,
            le64(model) + le64(input) + le64(output) + le32(delay_ms),
        ),
        RequestView::JobStatus(h) => (41, le64(h)),
        RequestView::JobCancel(h) => (42, le64(h)),
        RequestView::JobRelease(h) => (43, le64(h)),
    }
}

/// A payload that is exactly one handle.
pub open spec fn decode_handle(b: Seq<u8>) -> Result<Handle, Error> {
    if b.len() == 8 {
        Ok(read64(b, 0))
    } else {
        Err(Error::Invalid)
    }
}

/// The dimensions of a `TENSOR_CREATE` payload of rank `rank`.
pub open spec fn decode_dims(b: Seq<u8>, rank: int) -> Seq<u64> {
    Seq::new(rank as nat, |i: int| read64(b, 20 + 8 * i))
}

/// The request that an opcode and payload denote. Unknown opcodes are
/// `Unsupported`; truncated, overlong or malformed payloads are `Invalid`.
pub open spec fn spec_decode(op: u16, b: Seq<u8>) -> Result<RequestView, Error> {
    if op == 1 {
        if b.len() == 0 {
            Ok(RequestView::Hello)
        } else {
            Err(Error::Invalid)
        }
    } else if op == 2 {
        if b.len() == 0 {
            Ok(RequestView::Stats)
        } else {
            Err(Error::Invalid)
        }
    } else if op == 10 {
        if b.len() >= 4 && read32(b, 0) <= MAX_MODEL_NAME && b.len() == 4 + read32(b, 0)
            && valid_utf8(b.subrange(4, b.len() as int)) {
            Ok(RequestView::ModelOpen(decode_utf8(b.subrange(4, b.len() as int))))
        } else {
            Err(Error::Invalid)
        }
    } else if op == 11 {
        match decode_handle(b) {
            Ok(h) => Ok(RequestView::ModelClose(h)),
            Err(e) => Err(e),
        }
    } else if op == 20 {
        if b.len() == 4 {
            Ok(RequestView::BufferAlloc(read32(b, 0)))
        } else {
            Err(Error::Invalid)
        }
    } else if op == 21 {
        if b.len() >= 12 && read32(b, 8) <= MAX_BUFFER && b.len() == 12 + read32(b, 8) {
            Ok(RequestView::BufferWrite { buffer: read64(b, 0), data: b.subrange(12, b.len() as int) })
        } else {
            Err(Error::Invalid)
        }
    } else if op == 22 {
        match decode_handle(b) {
            Ok(h) => Ok(RequestView::BufferRead(h)),
            Err(e) => Err(e),
        }
    } else if op == 23 {
        match decode_handle(b) {
            Ok(h) => Ok(RequestView::BufferFree(h)),
            Err(e) => Err(e),
        }
    } else if op == 30 {
        if b.len() >= 20 && 1 <= read32(b, 16) <= MAX_RANK && b.len() == 20 + 8 * read32(b, 16) {
            Ok(
                RequestView::TensorCreate {
                    buffer: read64(b, 0),
                    desc: DescView { offset: read64(b, 8), shape: decode_dims(b, read32(b, 16) as int) },
                },
            )
        } else {
            Err(Error::Invalid)
        }
    } else if op == 31 {
        match decode_handle(b) {
            Ok(h) => Ok(RequestView::TensorRelease(h)),
            Err(e) => Err(e),
        }
    } else if op == 40 {
        if b.len() == 28 {
            Ok(
                RequestView::Submit {
                    model: read64(b, 0),
                    input: read64(b, 8),
                    output: read64(b, 16),
                    delay_ms: read32(b, 24),
                },
            )
        } else {
            Err(Error::Invalid)
        }
    } else if op == 41 {
        match decode_handle(b) {
            Ok(h) => Ok(RequestView::JobStatus(h)),
            Err(e) => Err(e),
        }
    } else if op == 42 {
        match decode_handle(b) {
            Ok(h) => Ok(RequestView::JobCancel(h)),
            Err(e) => Err(e),
        }
    } else if op == 43 {
        match decode_handle(b) {
            Ok(h) => Ok(RequestView::JobRelease(h)),
            Err(e) => Err(e),
        }
    } else {
        Err(Error::Unsupported)
    }
}

/// `std::str::from_utf8`: the bytes are accepted exactly when they are valid
/// UTF-8, and the string returned then consists of exactly those bytes.
#[verifier::external_body]
fn str_from_utf8(bytes: &[u8]) -> (r: Option<&str>)
    ensures
        r is Some <==> valid_utf8(bytes@),
        r matches Some(s) ==> s.spec_bytes() == bytes@,
{
    std::str::from_utf8(bytes).ok()
}

proof fn lemma_encode_dims_len(shape: Seq<u64>)
    ensures
        encode_dims(shape).len() == 8 * shape.len(),
    decreases shape.len(),
{
    if shape.len() > 0 {
        lemma_encode_dims_len(shape.drop_last());
        crate::codec::lemma_le_roundtrip();
        assert(le64(shape.last()).len() == 8);
    }
}

proof fn lemma_encode_dims_read(shape: Seq<u64>, i: int)
    requires
        0 <= i < shape.len(),
    ensures
        read64(encode_dims(shape), 8 * i) == shape[i],
    decreases shape.len(),
{
    crate::codec::lemma_le_roundtrip();
    let prev = shape.drop_last();
    lemma_encode_dims_len(prev);
    assert(le64(shape.last()).len() == 8);
    if i == shape.len() - 1 {
        crate::codec::lemma_read_in_concat(encode_dims(prev), le64(shape.last()), 0);
        assert(read64(le64(shape.last()), 0) == shape.last());
    } else {
        lemma_encode_dims_read(prev, i);
        crate::codec::lemma_read_in_concat(encode_dims(prev), le64(shape.last()), 8 * i);
    }
}

impl Request {
    /// The opcode and exact payload of this request.
    pub fn encode(&self) -> (r: (u16, Vec<u8>))
        ensures
            (r.0, r.1@) == spec_encode(self@),
    {
        let mut b: Vec<u8> = Vec::new();
        let op: u16 = match self {
            Request::Hello => 1,
            Request::Stats => 2,
            Request::ModelOpen(name) => {
                let s = name.as_str();
                let bytes = s.as_bytes();
                put32(&mut b, bytes.len() as u32);
                put_bytes(&mut b, bytes);
                10
            },
            Request::ModelClose(h) => {
                put64(&mut b, *h);
                11
            },
            Request::BufferAlloc(n) => {
                put32(&mut b, *n);
                20
            },
            Request::BufferWrite { buffer, data } => {
                put64(&mut b, *buffer);
                put32(&mut b, data.len() as u32);
                put_bytes(&mut b, data.as_slice());
                21
            },
            Request::BufferRead(h) => {
                put64(&mut b, *h);
                22
            },
            Request::BufferFree(h) => {
                put64(&mut b, *h);
                23
            },
            Request::TensorCreate { buffer, desc } => {
                put64(&mut b, *buffer);
                put64(&mut b, desc.offset);
                put32(&mut b, desc.shape.len() as u32);
                let ghost head = b@;
                let mut i: usize = 0;
                while i < desc.shape.len()
                    invariant
                        0 <= i <= desc.shape@.len(),
                        b@ == head + encode_dims(desc.shape@.subrange(0, i as int)),
                    decreases desc.shape@.len() - i,
                {
                    put64(&mut b, desc.shape[i]);
                    proof {
                        let p = desc.shape@.subrange(0, i + 1);
                        assert(p.drop_last() =~= desc.shape@.subrange(0, i as int));
                        assert(head + encode_dims(desc.shape@.subrange(0, i as int)) + le64(
                            desc.shape@[i as int],
                        ) =~= head + encode_dims(p));
                    }
                    i = i + 1;
                }
                assert(desc.shape@.subrange(0, i as int) =~= desc.shape@);
                30
            },
            Request::TensorRelease(h) => {
                put64(&mut b, *h);
                31
            },
            Request::Submit { model, input, output, delay_ms } => {
                put64(&mut b, *model);
                put64(&mut b, *input);
                put64(&mut b, *output);
                put32(&mut b, *delay_ms);
                40
            },
            Request::JobStatus(h) => {
                put64(&mut b, *h);
                41
            },
            Request::JobCancel(h) => {
                put64(&mut b, *h);
                42
            },
            Request::JobRelease(h) => {
                put64(&mut b, *h);
                43
            },
        };
        proof {
            assert(b@ =~= spec_encode(self@).1);
        }
        (op, b)
    }

    /// The request denoted by an opcode and payload.
    pub fn decode(op: u16, bytes: &[u8]) -> (r: Result<Self, Error>)
        ensures
            match r {
                Ok(q) => spec_decode(op, bytes@) == Ok::<RequestView, Error>(q@),
                Err(e) => spec_decode(op, bytes@) == Err::<RequestView, Error>(e),
            },
    {
        let _len = bytes.len();
        let mut d = Decoder::new(bytes);
        let request = if op == 1 {
            Request::Hello
        } else if op == 2 {
            Request::Stats
        } else if op == 10 {
            let n = d.u32()? as usize;
            if n > MAX_MODEL_NAME {
                return Err(Error::Invalid);
            }
            let raw = d.take(n)?;
            let name = match str_from_utf8(raw) {
                Some(s) => s,
                None => {
                    proof {
                        assert(raw@ =~= bytes@.subrange(4, bytes@.len() as int) || bytes@.len()
                            != 4 + n);
                    }
                    return Err(Error::Invalid);
                },
            };
            proof {
                vstd::utf8::encode_utf8_decode_utf8(name@);
            }
            Request::ModelOpen(name.to_owned())
        } else if op == 11 {
            Request::ModelClose(d.u64()?)
        } else if op == 20 {
            Request::BufferAlloc(d.u32()?)
        } else if op == 21 {
            let buffer = d.u64()?;
            let n = d.u32()? as usize;
            if n > MAX_BUFFER {
                return Err(Error::Invalid);
            }
            let raw = d.take(n)?;
            Request::BufferWrite { buffer, data: vstd::slice::slice_to_vec(raw) }
        } else if op == 22 {
            Request::BufferRead(d.u64()?)
        } else if op == 23 {
            Request::BufferFree(d.u64()?)
        } else if op == 30 {
            let buffer = d.u64()?;
            let offset = d.u64()?;
            let rank = d.u32()? as usize;
            if rank == 0 || rank > MAX_RANK {
                return Err(Error::Invalid);
            }
            let mut shape: Vec<u64> = Vec::with_capacity(rank);
            let mut k: usize = 0;
            while k < rank
                invariant
                    1 <= rank <= MAX_RANK,
                    rank == read32(bytes@, 16),
                    op == 30,
                    bytes@.len() >= 20,
                    0 <= k <= rank,
                    d.bytes() == bytes@,
                    d.pos() == 20 + 8 * k,
                    0 <= d.pos() <= d.bytes().len(),
                    shape@ == decode_dims(bytes@, k as int),
                decreases rank - k,
            {
                let dim = d.u64()?;
                shape.push(dim);
                assert(shape@ =~= decode_dims(bytes@, k + 1));
                k = k + 1;
            }
            Request::TensorCreate { buffer, desc: TensorDesc { offset, shape } }
        } else if op == 31 {
            Request::TensorRelease(d.u64()?)
        } else if op == 40 {
            let model = d.u64()?;
            let input = d.u64()?;
            let output = d.u64()?;
            let delay_ms = d.u32()?;
            Request::Submit { model, input, output, delay_ms }
        } else if op == 41 {
            Request::JobStatus(d.u64()?)
        } else if op == 42 {
            Request::JobCancel(d.u64()?)
        } else if op == 43 {
            Request::JobRelease(d.u64()?)
        } else {
            return Err(Error::Unsupported);
        };
        d.finish()?;
        Ok(request)
    }
}

/// A request whose payload the decoder accepts: a model name of at most
/// `MAX_MODEL_NAME` bytes, written data of at most `MAX_BUFFER` bytes and a
/// tensor rank of 1 through `MAX_RANK`.
pub open spec fn request_ok(r: RequestView) -> bool {
    match r {
        RequestView::ModelOpen(name) => encode_utf8(name).len() <= MAX_MODEL_NAME,
        RequestView::BufferWrite { data, .. } => data.len() <= MAX_BUFFER,
        RequestView::TensorCreate { desc, .. } => 1 <= desc.shape.len() <= MAX_RANK,
        _ => true,
    }
}

proof fn lemma_dims_roundtrip(shape: Seq<u64>, head: Seq<u8>)
    requires
        head.len() == 20,
    ensures
        decode_dims(head + encode_dims(shape), shape.len() as int) == shape,
{
    lemma_encode_dims_len(shape);
    let b = head + encode_dims(shape);
    assert forall|i: int| 0 <= i < shape.len() implies #[trigger] decode_dims(b, shape.len() as int)[i]
        == shape[i] by {
        crate::codec::lemma_read_in_concat(head, encode_dims(shape), 8 * i);
        lemma_encode_dims_read(shape, i);
        assert(20 + 8 * i == head.len() + 8 * i);
    }
    assert(decode_dims(b, shape.len() as int) =~= shape);
}

proof fn lemma_dims_canonical(b: Seq<u8>, rank: int)
    requires
        0 <= rank,
        b.len() == 20 + 8 * rank,
    ensures
        encode_dims(decode_dims(b, rank)) == b.subrange(20, b.len() as int),
    decreases rank,
{
    vstd::bytes::lemma_auto_spec_u64_to_from_le_bytes();
    if rank == 0 {
        assert(decode_dims(b, 0) =~= Seq::<u64>::empty());
        assert(b.subrange(20, b.len() as int) =~= Seq::<u8>::empty());
    } else {
        let shorter = b.subrange(0, b.len() - 8);
        lemma_dims_canonical(shorter, rank - 1);
        assert(decode_dims(b, rank).drop_last() =~= decode_dims(shorter, rank - 1)) by {
            assert forall|i: int| 0 <= i < rank - 1 implies #[trigger] decode_dims(b, rank)[i]
                == decode_dims(shorter, rank - 1)[i] by {
                assert(b.subrange(20 + 8 * i, 20 + 8 * i + 8) =~= shorter.subrange(
                    20 + 8 * i,
                    20 + 8 * i + 8,
                ));
            }
        }
        let last = b.subrange(b.len() - 8, b.len() as int);
        assert(le64(decode_dims(b, rank).last()) == last);
        assert(b.subrange(20, b.len() as int) =~= shorter.subrange(20, shorter.len() as int)
            + last);
    }
}

/// Decoding the encoding of an acceptable request gives the request back.
pub proof fn lemma_request_roundtrip(r: RequestView)
    requires
        request_ok(r),
    ensures
        spec_decode(spec_encode(r).0, spec_encode(r).1) == Ok::<RequestView, Error>(r),
{
    crate::codec::lemma_le_roundtrip();
    let (op, b) = spec_encode(r);
    match r {
        RequestView::ModelOpen(name) => {
            let bytes = encode_utf8(name);
            let n = le32(bytes.len() as u32);
            crate::codec::lemma_read_in_concat(n, bytes, 0);
            assert(b.subrange(4, b.len() as int) =~= bytes);
            vstd::utf8::encode_utf8_valid_utf8(name);
            vstd::utf8::encode_utf8_decode_utf8(name);
        },
        RequestView::ModelClose(h) => {},
        RequestView::BufferAlloc(x) => {},
        RequestView::BufferWrite { buffer, data } => {
            let a = le64(buffer) + le32(data.len() as u32);
            crate::codec::lemma_read_in_concat(le64(buffer), le32(data.len() as u32), 0);
            crate::codec::lemma_read_in_concat(a, data, 0);
            crate::codec::lemma_read_in_concat(a, data, 8);
            assert(a.len() == 12);
            assert(read32(a, 8) == data.len() as u32) by {
                assert(a.subrange(8, 12) =~= le32(data.len() as u32));
                assert(le32(data.len() as u32).subrange(0, 4) =~= le32(data.len() as u32));
            }
            assert(b.subrange(12, b.len() as int) =~= data);
        },
        RequestView::BufferRead(h) => {},
        RequestView::BufferFree(h) => {},
        RequestView::TensorCreate { buffer, desc } => {
            let head = le64(buffer) + le64(desc.offset) + le32(desc.shape.len() as u32);
            lemma_encode_dims_len(desc.shape);
            assert(head.len() == 20);
            assert(b == head + encode_dims(desc.shape));
            assert(b.subrange(0, 8) =~= le64(buffer));
            assert(b.subrange(8, 16) =~= le64(desc.offset));
            assert(b.subrange(16, 20) =~= le32(desc.shape.len() as u32));
            assert(le64(buffer).subrange(0, 8) =~= le64(buffer));
            assert(le64(desc.offset).subrange(0, 8) =~= le64(desc.offset));
            assert(le32(desc.shape.len() as u32).subrange(0, 4) =~= le32(desc.shape.len() as u32));
            assert(read32(b, 16) == desc.shape.len());
            lemma_dims_roundtrip(desc.shape, head);
        },
        RequestView::TensorRelease(h) => {},
        RequestView::Submit { model, input, output, delay_ms } => {
            assert(b.subrange(0, 8) =~= le64(model));
            assert(b.subrange(8, 16) =~= le64(input));
            assert(b.subrange(16, 24) =~= le64(output));
            assert(b.subrange(24, 28) =~= le32(delay_ms));
            assert(le64(model).subrange(0, 8) =~= le64(model));
            assert(le64(input).subrange(0, 8) =~= le64(input));
            assert(le64(output).subrange(0, 8) =~= le64(output));
            assert(le32(delay_ms).subrange(0, 4) =~= le32(delay_ms));
        },
        RequestView::JobStatus(h) => {},
        RequestView::JobCancel(h) => {},
        RequestView::JobRelease(h) => {},
        RequestView::Hello => {},
        RequestView::Stats => {},
    }
}

/// Every accepted payload is the encoding of the request it decodes to: a
/// request has exactly one wire form.
pub proof fn lemma_request_canonical(op: u16, b: Seq<u8>)
    requires
        spec_decode(op, b) is Ok,
    ensures
        spec_encode(spec_decode(op, b)->Ok_0) == (op, b),
        request_ok(spec_decode(op, b)->Ok_0),
{
    vstd::bytes::lemma_auto_spec_u64_to_from_le_bytes();
    vstd::bytes::lemma_auto_spec_u32_to_from_le_bytes();
    let r = spec_decode(op, b)->Ok_0;
    if op == 10 {
        let body = b.subrange(4, b.len() as int);
        vstd::utf8::decode_utf8_encode_utf8(body);
        assert(b =~= b.subrange(0, 4) + body);
    } else if op == 11 || op == 22 || op == 23 || op == 31 || op == 41 || op == 42 || op == 43 {
        assert(b.subrange(0, 8) =~= b);
    } else if op == 20 {
        assert(b.subrange(0, 4) =~= b);
    } else if op == 21 {
        assert(b =~= b.subrange(0, 8) + b.subrange(8, 12) + b.subrange(12, b.len() as int));
    } else if op == 30 {
        let rank = read32(b, 16) as int;
        lemma_dims_canonical(b, rank);
        assert(b =~= b.subrange(0, 8) + b.subrange(8, 16) + b.subrange(16, 20) + b.subrange(
            20,
            b.len() as int,
        ));
    } else if op == 40 {
        assert(b =~= b.subrange(0, 8) + b.subrange(8, 16) + b.subrange(16, 24) + b.subrange(
            24,
            28,
        ));
    } else {
        assert(b =~= Seq::<u8>::empty());
    }
}

} // verus!
