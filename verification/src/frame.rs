//! Length-bounded frames: a 28-byte little-endian header followed by the payload.
use crate::codec::{
    get16, get32, get64, le16, le32, le64, put16, put32, put64, put_bytes, read16, read32, read64,
};
use crate::types::MAX_BUFFER;
use vstd::prelude::*;

verus! {

/// Wire major version.
pub const MAJOR: u16 = 1;

/// Wire minor version.
pub const MINOR: u16 = 0;

/// Header length in bytes.
pub const HEADER_SIZE: usize = 28;

/// Largest payload a frame may carry.
pub const MAX_PAYLOAD: usize = MAX_BUFFER + 128;

/// The response flag; every other flag bit is invalid.
pub const RESPONSE: u16 = 1;

/// Feature bit: inline buffers served by the mock backend.
pub const FEATURE_INLINE_MOCK: u64 = 1;

/// Features announced in the `HELLO` response.
pub const FEATURES: u64 = FEATURE_INLINE_MOCK;

/// Why a frame could not be read or written.
#[derive(Debug, Clone, Copy, PartialEq, Eq, Structural)]
pub enum FrameError {
    /// The input ended before the header or the payload was complete.
    Truncated,
    /// Bad magic, unsupported version, oversized payload or unknown flag bits.
    Invalid,
}

/// One frame of the wire protocol.
#[derive(Debug)]
pub struct Frame {
    pub id: u64,
    pub opcode: u16,
    pub flags: u16,
    pub status: i32,
    pub body: Vec<u8>,
}

/// The mathematical content of a frame.
pub struct FrameView {
    pub id: u64,
    pub opcode: u16,
    pub flags: u16,
    pub status: i32,
    pub body: Seq<u8>,
}

impl View for Frame {
    type V = FrameView;

    open spec fn view(&self) -> FrameView {
        FrameView {
            id: self.id,
            opcode: self.opcode,
            flags: self.flags,
            status: self.status,
            body: self.body@,
        }
    }
}

/// The ASCII magic `COGP`.
pub open spec fn magic() -> Seq<u8> {
    seq![0x43u8, 0x4fu8, 0x47u8, 0x50u8]
}

/// The header bytes of a frame carrying `len` payload bytes.
pub open spec fn spec_header(f: FrameView, len: nat) -> Seq<u8> {
    magic() + le16(MAJOR) + le16(MINOR) + le64(f.id) + le16(f.opcode) + le16(f.flags) + le32(
        len as u32,
    ) + le32(f.status as u32)
}

/// The bytes of a frame on the wire.
pub open spec fn spec_frame_bytes(f: FrameView) -> Seq<u8> {
    spec_header(f, f.body.len()) + f.body
}

/// A frame may be written when its payload is within bounds.
pub open spec fn frame_writable(f: FrameView) -> bool {
    f.body.len() <= MAX_PAYLOAD
}

/// The payload length announced by a header.
pub open spec fn header_len(h: Seq<u8>) -> u32 {
    read32(h, 20)
}

/// A header is acceptable when magic and version match, the payload is within
/// bounds and no flag other than the response flag is set.
pub open spec fn header_ok(h: Seq<u8>) -> bool {
    &&& h.subrange(0, 4) == magic()
    &&& read16(h, 4) == MAJOR
    &&& read16(h, 6) == MINOR
    &&& header_len(h) <= MAX_PAYLOAD
    &&& read16(h, 18) <= RESPONSE
}

/// What reading one frame from the front of `input` gives: the frame and the
/// number of bytes it occupies, or why it cannot be read.
pub open spec fn spec_read(input: Seq<u8>) -> Result<(FrameView, int), FrameError> {
    if input.len() < HEADER_SIZE {
        Err(FrameError::Truncated)
    } else if !header_ok(input) {
        Err(FrameError::Invalid)
    } else if input.len() < HEADER_SIZE + header_len(input) {
        Err(FrameError::Truncated)
    } else {
        Ok(
            (
                FrameView {
                    id: read64(input, 8),
                    opcode: read16(input, 16),
                    flags: read16(input, 18),
                    status: read32(input, 24) as i32,
                    body: input.subrange(
                        HEADER_SIZE as int,
                        HEADER_SIZE + header_len(input) as int,
                    ),
                },
                HEADER_SIZE + header_len(input) as int,
            ),
        )
    }
}

/// What reading leaves of `input`: what follows the frame; after a header
/// that fails its checks, what follows the 28 header bytes, which have been
/// taken in; after input that ends too early, nothing, since every byte there
/// was has been taken in.
pub open spec fn spec_rest(input: Seq<u8>) -> Seq<u8> {
    match spec_read(input) {
        Ok((_, n)) => input.subrange(n, input.len() as int),
        Err(FrameError::Invalid) => input.subrange(HEADER_SIZE as int, input.len() as int),
        Err(FrameError::Truncated) => Seq::empty(),
    }
}

proof fn lemma_flags_mask(flags: u16)
    ensures
        (flags & !1u16 != 0) == (flags > 1),
{
    assert((flags & !1u16 != 0) == (flags > 1)) by (bit_vector);
}

impl Frame {
    /// Reads one frame from the front of `reader`. The header is taken in
    /// first and checked before the payload: on success `reader` is advanced
    /// past the frame; a header that fails its checks is consumed and nothing
    /// more; input that ends before the header or the payload is complete is
    /// consumed to its end.
    pub fn read(reader: &mut &[u8]) -> (r: Result<Frame, FrameError>)
        ensures
            final(reader)@ == spec_rest(old(reader)@),
            match r {
                Ok(f) => spec_read(old(reader)@) == Ok::<(FrameView, int), FrameError>(
                    (f@, HEADER_SIZE + f.body@.len()),
                ),
                Err(e) => spec_read(old(reader)@) == Err::<(FrameView, int), FrameError>(e),
            },
    {
        let input: &[u8] = *reader;
        let total = input.len();
        if total < HEADER_SIZE {
            *reader = vstd::slice::slice_subrange(input, total, total);
            return Err(FrameError::Truncated);
        }
        let rest = vstd::slice::slice_subrange(input, HEADER_SIZE, total);
        let m0 = input[0];
        let m1 = input[1];
        let m2 = input[2];
        let m3 = input[3];
        let major = get16(input, 4);
        let minor = get16(input, 6);
        proof {
            assert(input@.subrange(0, 4) == magic() <==> (m0 == 0x43 && m1 == 0x4f && m2 == 0x47
                && m3 == 0x50)) by {
                if m0 == 0x43 && m1 == 0x4f && m2 == 0x47 && m3 == 0x50 {
                    assert(input@.subrange(0, 4) =~= magic());
                }
            }
        }
        if m0 != 0x43 || m1 != 0x4f || m2 != 0x47 || m3 != 0x50 || major != MAJOR || minor
            != MINOR {
            *reader = rest;
            return Err(FrameError::Invalid);
        }
        let len = get32(input, 20) as usize;
        if len > MAX_PAYLOAD {
            *reader = rest;
            return Err(FrameError::Invalid);
        }
        let flags = get16(input, 18);
        proof {
            lemma_flags_mask(flags);
        }
        if flags & !RESPONSE != 0 {
            *reader = rest;
            return Err(FrameError::Invalid);
        }
        if total - HEADER_SIZE < len {
            *reader = vstd::slice::slice_subrange(input, total, total);
            return Err(FrameError::Truncated);
        }
        let body = vstd::slice::slice_to_vec(
            vstd::slice::slice_subrange(input, HEADER_SIZE, HEADER_SIZE + len),
        );
        let frame = Frame {
            id: get64(input, 8),
            opcode: get16(input, 16),
            flags,
            status: get32(input, 24) as i32,
            body,
        };
        *reader = vstd::slice::slice_subrange(input, HEADER_SIZE + len, total);
        Ok(frame)
    }

    /// Checks the header at the front of `header` and returns the payload
    /// length it announces, so that a reader can refuse a bad frame before it
    /// takes in the payload.
    pub fn payload_len(header: &[u8]) -> (r: Result<usize, FrameError>)
        ensures
            header@.len() < HEADER_SIZE ==> r == Err::<usize, FrameError>(FrameError::Truncated),
            header@.len() >= HEADER_SIZE && !header_ok(header@) ==> r == Err::<usize, FrameError>(
                FrameError::Invalid,
            ),
            header@.len() >= HEADER_SIZE && header_ok(header@) ==> r == Ok::<usize, FrameError>(
                header_len(header@) as usize,
            ),
    {
        if header.len() < HEADER_SIZE {
            return Err(FrameError::Truncated);
        }
        let m0 = header[0];
        let m1 = header[1];
        let m2 = header[2];
        let m3 = header[3];
        proof {
            assert(header@.subrange(0, 4) == magic() <==> (m0 == 0x43 && m1 == 0x4f && m2 == 0x47
                && m3 == 0x50)) by {
                if m0 == 0x43 && m1 == 0x4f && m2 == 0x47 && m3 == 0x50 {
                    assert(header@.subrange(0, 4) =~= magic());
                }
            }
        }
        if m0 != 0x43 || m1 != 0x4f || m2 != 0x47 || m3 != 0x50 || get16(header, 4) != MAJOR
            || get16(header, 6) != MINOR {
            return Err(FrameError::Invalid);
        }
        let len = get32(header, 20) as usize;
        if len > MAX_PAYLOAD || get16(header, 18) > RESPONSE {
            return Err(FrameError::Invalid);
        }
        Ok(len)
    }

    /// Appends the header and payload of this frame to `writer`; a payload over
    /// `MAX_PAYLOAD` is refused and nothing is written.
    pub fn write(&self, writer: &mut Vec<u8>) -> (r: Result<(), FrameError>)
        ensures
            r is Ok <==> frame_writable(self@),
            r is Ok ==> final(writer)@ == old(writer)@ + spec_frame_bytes(self@),
            r matches Err(e) ==> e == FrameError::Invalid && final(writer)@ == old(writer)@,
    {
        let n = self.body.len();
        if n > MAX_PAYLOAD {
            return Err(FrameError::Invalid);
        }
        let ghost start = writer@;
        let mut h: Vec<u8> = Vec::with_capacity(HEADER_SIZE);
        h.push(0x43);
        h.push(0x4f);
        h.push(0x47);
        h.push(0x50);
        put16(&mut h, MAJOR);
        put16(&mut h, MINOR);
        put64(&mut h, self.id);
        put16(&mut h, self.opcode);
        put16(&mut h, self.flags);
        put32(&mut h, n as u32);
        put32(&mut h, self.status as u32);
        assert(h@ =~= spec_header(self@, self.body@.len()));
        put_bytes(writer, h.as_slice());
        put_bytes(writer, self.body.as_slice());
        assert(writer@ =~= start + spec_frame_bytes(self@));
        Ok(())
    }
}

/// Reading back the bytes `write` produced gives the same frame and consumes
/// exactly those bytes, whatever follows them: what follows is left unread.
pub proof fn lemma_frame_roundtrip(f: FrameView, rest: Seq<u8>)
    requires
        frame_writable(f),
        f.flags <= RESPONSE,
    ensures
        spec_read(spec_frame_bytes(f) + rest) == Ok::<(FrameView, int), FrameError>(
            (f, HEADER_SIZE + f.body.len()),
        ),
        spec_frame_bytes(f).len() == HEADER_SIZE + f.body.len(),
        spec_rest(spec_frame_bytes(f) + rest) == rest,
{
    crate::codec::lemma_le_roundtrip();
    let len = f.body.len();
    let h = spec_header(f, len);
    let input = spec_frame_bytes(f) + rest;
    let p0 = magic();
    let p1 = le16(MAJOR);
    let p2 = le16(MINOR);
    let p3 = le64(f.id);
    let p4 = le16(f.opcode);
    let p5 = le16(f.flags);
    let p6 = le32(len as u32);
    let p7 = le32(f.status as u32);
    assert(h.len() == 28);
    assert(input =~= h + (f.body + rest));
    assert(input.subrange(0, 4) =~= p0);
    assert(input.subrange(4, 6) =~= p1);
    assert(input.subrange(6, 8) =~= p2);
    assert(input.subrange(8, 16) =~= p3);
    assert(input.subrange(16, 18) =~= p4);
    assert(input.subrange(18, 20) =~= p5);
    assert(input.subrange(20, 24) =~= p6);
    assert(input.subrange(24, 28) =~= p7);
    assert(p1.subrange(0, 2) =~= p1);
    assert(p2.subrange(0, 2) =~= p2);
    assert(p3.subrange(0, 8) =~= p3);
    assert(p4.subrange(0, 2) =~= p4);
    assert(p5.subrange(0, 2) =~= p5);
    assert(p6.subrange(0, 4) =~= p6);
    assert(p7.subrange(0, 4) =~= p7);
    assert(read16(input, 4) == MAJOR);
    assert(read16(input, 6) == MINOR);
    assert(read64(input, 8) == f.id);
    assert(read16(input, 16) == f.opcode);
    assert(read16(input, 18) == f.flags);
    assert(header_len(input) == len as u32);
    assert(len as u32 == len);
    let st = f.status;
    assert(((st as u32) as i32) == st) by (bit_vector);
    assert(read32(input, 24) as i32 == f.status);
    assert(input.subrange(28, 28 + len as int) =~= f.body);
    assert(input.subrange(28 + len as int, input.len() as int) =~= rest);
}

} // verus!
