//! What the client reads back is what the daemon wrote: replies, handles,
//! job statuses, counters and the `HELLO` announcement.
use crate::client::{
    error_of, handle_outcome, hello_outcome, reply_outcome, stats_outcome, status_of,
    status_outcome,
};
use crate::codec::{le32, le64, lemma_le_roundtrip, lemma_read_in_concat, read32, read64};
use crate::connection::response;
use crate::frame::FrameView;
use crate::model::{error_number, hello_body};
use crate::types::{Error, Handle, JobStatus, Stats};
use vstd::prelude::*;

verus! {

/// Every error number decodes to the error it was written from.
pub proof fn lemma_error_numbers(e: Error)
    ensures
        error_of(e.to_code()) == Some(e),
        e.to_code() != 0,
{
}

/// Every status number decodes to the status it was written from.
pub proof fn lemma_status_numbers(s: JobStatus)
    ensures
        status_of(s.to_code()) == Some(s),
{
}

/// The client takes from the daemon's response exactly the result the daemon
/// served: the payload on success, the error otherwise.
pub proof fn lemma_reply_roundtrip(f: FrameView, result: Result<Seq<u8>, Error>)
    ensures
        reply_outcome(f.id, f.opcode, response(f, result)) == result,
{
    if let Err(e) = result {
        lemma_error_numbers(e);
    }
}

/// The client accepts the daemon's `HELLO` announcement.
pub proof fn lemma_hello_accepted()
    ensures
        hello_outcome(hello_body()) == Ok::<(), Error>(()),
{
    lemma_le_roundtrip();
    let a = le64(crate::frame::FEATURES);
    let b = le32(crate::types::MAX_BUFFER as u32);
    let c = le32(crate::types::MAX_RANK as u32);
    assert(read64(hello_body(), 0) == read64(a, 0)) by {
        lemma_read_in_concat(a, b, 0);
        lemma_read_in_concat(a + b, c, 0);
    }
    assert(read32(hello_body(), 8) == read32(b, 0)) by {
        lemma_read_in_concat(a, b, 0);
        lemma_read_in_concat(a + b, c, 8);
    }
    assert(read32(hello_body(), 12) == read32(c, 0)) by {
        lemma_read_in_concat(a + b, c, 0);
    }
}

/// A nonzero handle written by the daemon is the handle the client reads.
pub proof fn lemma_handle_roundtrip(h: Handle)
    requires
        h != 0,
    ensures
        handle_outcome(le64(h)) == Ok::<Handle, Error>(h),
{
    lemma_le_roundtrip();
}

/// A job status reply reads back as the status and error it was written from.
pub proof fn lemma_status_roundtrip(s: JobStatus, e: Option<Error>)
    ensures
        status_outcome(le32(s.to_code()) + le32(error_number(e))) == Ok::<
            (JobStatus, Option<Error>),
            Error,
        >((s, e)),
{
    lemma_le_roundtrip();
    let a = le32(s.to_code());
    let b = le32(error_number(e));
    lemma_read_in_concat(a, b, 0);
    if let Some(x) = e {
        lemma_error_numbers(x);
        assert(error_number(e) as i32 == x.to_code());
    }
}

/// A counters reply reads back as the counters it was written from.
pub proof fn lemma_stats_roundtrip(objects: u32, live_bytes: u64, jobs: u32)
    ensures
        stats_outcome(le32(objects) + le64(live_bytes) + le32(jobs)) == Ok::<Stats, Error>(
            Stats { objects, live_bytes, jobs },
        ),
{
    lemma_le_roundtrip();
    let a = le32(objects);
    let b = le64(live_bytes);
    let c = le32(jobs);
    lemma_read_in_concat(a + b, c, 0);
    lemma_read_in_concat(a, b, 0);
    lemma_read_in_concat(a + b, c, 4);
    assert(read32(a + b + c, 0) == objects);
    assert(read64(a + b + c, 4) == live_bytes);
    assert(read32(a + b + c, 12) == jobs) by {
        lemma_read_in_concat(a + b, c, 0);
    }
}


/// The opcodes of the protocol's requests.
pub open spec fn known_opcode(op: u16) -> bool {
    op == 1 || op == 2 || op == 10 || op == 11 || op == 20 || op == 21 || op == 22 || op == 23
        || op == 30 || op == 31 || op == 40 || op == 41 || op == 42 || op == 43
}

/// Once greeted, a well-formed request frame whose opcode the protocol does
/// not know is served, not refused: it is answered with the same id and
/// opcode, the response flag, the `Unsupported` error number and no payload,
/// and the connection goes on.
pub proof fn lemma_unknown_opcode_answered(last_id: u64, f: FrameView)
    requires
        f.flags == 0,
        f.status == 0,
        f.id > last_id,
        !known_opcode(f.opcode),
    ensures
        crate::connection::admission(last_id, true, f, false) == Some(
            Err::<crate::request::RequestView, Error>(Error::Unsupported),
        ),
        response(f, Err(Error::Unsupported)) == (FrameView {
            id: f.id,
            opcode: f.opcode,
            flags: crate::frame::RESPONSE,
            status: 10,
            body: Seq::empty(),
        }),
{
}

} // verus!
