//! The client side of the protocol: request ids, reply checks, payload
//! parsing and the argument rules checked before a request is sent.
use crate::codec::{read32, read64, Decoder};
use crate::frame::{Frame, FrameView, FEATURE_INLINE_MOCK, RESPONSE};
use crate::request::{spec_encode, Request, RequestView, MAX_MODEL_NAME};
use crate::types::{Error, Handle, JobStatus, Stats, TensorDesc, MAX_BUFFER, MAX_RANK};
use vstd::prelude::*;
use vstd::string::StringSliceAdditionalSpecFns;

verus! {

/// The error numbered `code`, if any.
pub open spec fn error_of(code: i32) -> Option<Error> {
    if code == 1 {
        Some(Error::Invalid)
    } else if code == 2 {
        Some(Error::NoMemory)
    } else if code == 3 {
        Some(Error::NoModel)
    } else if code == 4 {
        Some(Error::Busy)
    } else if code == 5 {
        Some(Error::Timeout)
    } else if code == 6 {
        Some(Error::Cancelled)
    } else if code == 7 {
        Some(Error::Permission)
    } else if code == 8 {
        Some(Error::Backend)
    } else if code == 9 {
        Some(Error::Io)
    } else if code == 10 {
        Some(Error::Unsupported)
    } else if code == 11 {
        Some(Error::Disconnected)
    } else {
        None
    }
}

/// The status numbered `code`, if any.
pub open spec fn status_of(code: u32) -> Option<JobStatus> {
    if code == 1 {
        Some(JobStatus::Queued)
    } else if code == 2 {
        Some(JobStatus::Running)
    } else if code == 3 {
        Some(JobStatus::Completed)
    } else if code == 4 {
        Some(JobStatus::Failed)
    } else if code == 5 {
        Some(JobStatus::Cancelled)
    } else {
        None
    }
}

/// What a `HELLO` reply body means to this client: it must announce exactly
/// the inline mock feature, the buffer limit and the rank limit it was built
/// with. A short field is malformed; a different value is unsupported.
pub open spec fn hello_outcome(b: Seq<u8>) -> Result<(), Error> {
    if b.len() < 8 {
        Err(Error::Invalid)
    } else if read64(b, 0) != FEATURE_INLINE_MOCK {
        Err(Error::Unsupported)
    } else if b.len() < 12 {
        Err(Error::Invalid)
    } else if read32(b, 8) != MAX_BUFFER as u32 {
        Err(Error::Unsupported)
    } else if b.len() < 16 {
        Err(Error::Invalid)
    } else if read32(b, 12) != MAX_RANK as u32 {
        Err(Error::Unsupported)
    } else if b.len() != 16 {
        Err(Error::Invalid)
    } else {
        Ok(())
    }
}

/// What a reply to the request `(id, opcode)` gives the caller. A reply for
/// another request, or without the response flag, or an error reply that
/// carries a payload or an unknown number, means the connection is unusable.
pub open spec fn reply_outcome(id: u64, opcode: u16, f: FrameView) -> Result<Seq<u8>, Error> {
    if f.id != id || f.opcode != opcode || f.flags != RESPONSE {
        Err(Error::Disconnected)
    } else if f.status != 0 {
        if f.body.len() != 0 {
            Err(Error::Disconnected)
        } else {
            match error_of(f.status) {
                Some(e) => Err(e),
                None => Err(Error::Disconnected),
            }
        }
    } else {
        Ok(f.body)
    }
}

/// A reply body that names a new handle: exactly one nonzero `u64`.
pub open spec fn handle_outcome(b: Seq<u8>) -> Result<Handle, Error> {
    if b.len() != 8 || read64(b, 0) == 0 {
        Err(Error::Invalid)
    } else {
        Ok(read64(b, 0))
    }
}

/// A `JOB_STATUS` reply body: a known status number, then 0 or a known error
/// number.
pub open spec fn status_outcome(b: Seq<u8>) -> Result<(JobStatus, Option<Error>), Error> {
    if b.len() != 8 {
        Err(Error::Invalid)
    } else {
        match status_of(read32(b, 0)) {
            None => Err(Error::Invalid),
            Some(s) => {
                let code = read32(b, 4) as i32;
                if code == 0 {
                    Ok((s, None))
                } else {
                    match error_of(code) {
                        Some(e) => Ok((s, Some(e))),
                        None => Err(Error::Invalid),
                    }
                }
            },
        }
    }
}

/// A `STATS` reply body: objects, live bytes and jobs, 16 bytes in all.
pub open spec fn stats_outcome(b: Seq<u8>) -> Result<Stats, Error> {
    if b.len() != 16 {
        Err(Error::Invalid)
    } else {
        Ok(Stats { objects: read32(b, 0), live_bytes: read64(b, 4), jobs: read32(b, 12) })
    }
}

/// What waiting makes of one status poll: a terminal status ends the wait,
/// with the job's error if it has one; otherwise the wait ends with
/// `Timeout` once its time is up (a zero timeout thus polls once), and keeps
/// going before. Timing out leaves the job alone.
pub open spec fn wait_outcome(status: JobStatus, error: Option<Error>, expired: bool) -> Option<
    Result<JobStatus, Error>,
> {
    if status.is_terminal() {
        match error {
            Some(e) => Some(Err(e)),
            None => Some(Ok(status)),
        }
    } else if expired {
        Some(Err(Error::Timeout))
    } else {
        None
    }
}

fn error_from(code: i32) -> (r: Option<Error>)
    ensures
        r == error_of(code),
{
    Error::from_code(code)
}

/// Checks the server's `HELLO` reply.
pub fn check_hello(body: &[u8]) -> (r: Result<(), Error>)
    ensures
        r is Ok <==> hello_outcome(body@) is Ok,
        r matches Err(e) ==> hello_outcome(body@) == Err::<(), Error>(e),
{
    let mut d = Decoder::new(body);
    let features = d.u64()?;
    if features != FEATURE_INLINE_MOCK {
        return Err(Error::Unsupported);
    }
    let max_buffer = d.u32()?;
    if max_buffer != MAX_BUFFER as u32 {
        return Err(Error::Unsupported);
    }
    let max_rank = d.u32()?;
    if max_rank != MAX_RANK as u32 {
        return Err(Error::Unsupported);
    }
    d.finish()
}

/// Checks the reply to the request frame `sent` and hands out its payload.
pub fn check_reply(sent: &Frame, reply: &Frame) -> (r: Result<Vec<u8>, Error>)
    ensures
        match r {
            Ok(b) => reply_outcome(sent.id, sent.opcode, reply@) == Ok::<Seq<u8>, Error>(b@),
            Err(e) => reply_outcome(sent.id, sent.opcode, reply@) == Err::<Seq<u8>, Error>(e),
        },
{
    if reply.id != sent.id || reply.opcode != sent.opcode || reply.flags != RESPONSE {
        return Err(Error::Disconnected);
    }
    if reply.status != 0 {
        if reply.body.len() != 0 {
            return Err(Error::Disconnected);
        }
        return match error_from(reply.status) {
            Some(e) => Err(e),
            None => Err(Error::Disconnected),
        };
    }
    Ok(reply.body.clone())
}

/// Reads the handle a request created.
pub fn parse_handle(body: &[u8]) -> (r: Result<Handle, Error>)
    ensures
        r == handle_outcome(body@),
{
    let mut d = Decoder::new(body);
    let h = d.u64()?;
    d.finish()?;
    if h == 0 {
        Err(Error::Invalid)
    } else {
        Ok(h)
    }
}

/// Accepts only an empty reply body.
pub fn parse_empty(body: &[u8]) -> (r: Result<(), Error>)
    ensures
        r is Ok <==> body@.len() == 0,
        r matches Err(e) ==> e == Error::Invalid,
{
    if body.len() == 0 {
        Ok(())
    } else {
        Err(Error::Invalid)
    }
}

/// Reads a job's status and terminal error.
pub fn parse_job_status(body: &[u8]) -> (r: Result<(JobStatus, Option<Error>), Error>)
    ensures
        r == status_outcome(body@),
{
    let mut d = Decoder::new(body);
    let status = JobStatus::from_code(d.u32()?)?;
    let code = d.u32()? as i32;
    d.finish()?;
    if code == 0 {
        Ok((status, None))
    } else {
        match error_from(code) {
            Some(e) => Ok((status, Some(e))),
            None => Err(Error::Invalid),
        }
    }
}

/// Reads a session's counters.
pub fn parse_stats(body: &[u8]) -> (r: Result<Stats, Error>)
    ensures
        r == stats_outcome(body@),
{
    let mut d = Decoder::new(body);
    let objects = d.u32()?;
    let live_bytes = d.u64()?;
    let jobs = d.u32()?;
    d.finish()?;
    Ok(Stats { objects, live_bytes, jobs })
}

/// Decides one poll of a wait, `expired` telling whether its time is up:
/// `Some` ends the wait with its result.
pub fn wait_step(status: JobStatus, error: Option<Error>, expired: bool) -> (r: Option<
    Result<JobStatus, Error>,
>)
    ensures
        r == wait_outcome(status, error, expired),
{
    if status.terminal() {
        match error {
            Some(e) => Some(Err(e)),
            None => Some(Ok(status)),
        }
    } else if expired {
        Some(Err(Error::Timeout))
    } else {
        None
    }
}

/// Whether a request may go out: only from the process that connected the
/// client (not after a fork) and only while its connection is open;
/// otherwise it fails `Disconnected` before anything is sent.
pub open spec fn send_outcome(same_process: bool, connected: bool) -> Result<(), Error> {
    if same_process && connected {
        Ok(())
    } else {
        Err(Error::Disconnected)
    }
}

/// Whether the connection stays open after an exchange: a `Disconnected`
/// result poisons it for good; any other result leaves it as it was.
pub open spec fn stays_connected(connected: bool, result: Option<Error>) -> bool {
    connected && result != Some(Error::Disconnected)
}

/// Whether the connection is open after a series of exchanges, each given
/// by its error (`None` for success).
pub open spec fn connected_after(connected: bool, results: Seq<Option<Error>>) -> bool
    decreases results.len(),
{
    if results.len() == 0 {
        connected
    } else {
        stays_connected(connected_after(connected, results.drop_last()), results.last())
    }
}

/// Decides whether a request may be sent.
pub fn send_gate(same_process: bool, connected: bool) -> (r: Result<(), Error>)
    ensures
        r == send_outcome(same_process, connected),
{
    if same_process && connected {
        Ok(())
    } else {
        Err(Error::Disconnected)
    }
}

/// The connection after an exchange that gave `result`.
pub fn keep_connection(connected: bool, result: &Result<Vec<u8>, Error>) -> (keep: bool)
    ensures
        keep == stays_connected(
            connected,
            match result {
                Ok(_) => None,
                Err(e) => Some(*e),
            },
        ),
{
    match result {
        Err(Error::Disconnected) => false,
        _ => connected,
    }
}

/// A poisoned client stays poisoned: once an exchange came back
/// `Disconnected`, the connection stays closed whatever follows, and every
/// later request fails `Disconnected` before anything is sent.
pub proof fn lemma_poison_sticks(connected: bool, results: Seq<Option<Error>>, same_process: bool)
    requires
        results.contains(Some(Error::Disconnected)),
    ensures
        !connected_after(connected, results),
        send_outcome(same_process, connected_after(connected, results)) == Err::<(), Error>(
            Error::Disconnected,
        ),
    decreases results.len(),
{
    let d = results.drop_last();
    if results.last() != Some(Error::Disconnected) {
        let k = choose|k: int| 0 <= k < results.len() && results[k] == Some(Error::Disconnected);
        assert(d[k] == Some(Error::Disconnected));
        lemma_poison_sticks(connected, d, same_process);
    }
}

/// `MODEL_OPEN` for `name`; names longer than the protocol allows are refused
/// before anything is sent.
pub fn model_open_request(name: &str) -> (r: Result<Request, Error>)
    ensures
        r is Err <==> name.spec_bytes().len() > MAX_MODEL_NAME,
        r matches Err(e) ==> e == Error::Invalid,
        r matches Ok(q) ==> q@ == RequestView::ModelOpen(name@),
{
    if name.as_bytes().len() > MAX_MODEL_NAME {
        return Err(Error::Invalid);
    }
    Ok(Request::ModelOpen(name.to_owned()))
}

/// `BUFFER_ALLOC` of `size` bytes; zero and oversized buffers are refused.
pub fn buffer_alloc_request(size: usize) -> (r: Result<Request, Error>)
    ensures
        r is Err <==> size == 0 || size > MAX_BUFFER,
        r matches Err(e) ==> e == Error::Invalid,
        r matches Ok(q) ==> q@ == RequestView::BufferAlloc(size as u32),
{
    if size == 0 || size > MAX_BUFFER {
        return Err(Error::Invalid);
    }
    Ok(Request::BufferAlloc(size as u32))
}

/// `BUFFER_WRITE` of `data` into `buffer`; oversized data is refused.
pub fn buffer_write_request(buffer: Handle, data: &[u8]) -> (r: Result<Request, Error>)
    ensures
        r is Err <==> data@.len() > MAX_BUFFER,
        r matches Err(e) ==> e == Error::Invalid,
        r matches Ok(q) ==> q@ == (RequestView::BufferWrite { buffer, data: data@ }),
{
    if data.len() > MAX_BUFFER {
        return Err(Error::Invalid);
    }
    Ok(Request::BufferWrite { buffer, data: vstd::slice::slice_to_vec(data) })
}

/// `TENSOR_CREATE` over `buffer`; a rank outside `1..=MAX_RANK` is refused.
pub fn tensor_create_request(buffer: Handle, desc: TensorDesc) -> (r: Result<Request, Error>)
    ensures
        r is Err <==> desc@.shape.len() == 0 || desc@.shape.len() > MAX_RANK,
        r matches Err(e) ==> e == Error::Invalid,
        r matches Ok(q) ==> q@ == (RequestView::TensorCreate { buffer, desc: desc@ }),
{
    if desc.shape.len() == 0 || desc.shape.len() > MAX_RANK {
        return Err(Error::Invalid);
    }
    Ok(Request::TensorCreate { buffer, desc })
}

/// Numbers the requests of one connection, starting at 1.
pub struct Calls {
    next: u64,
}

impl Calls {
    /// The id the next request will carry.
    pub closed spec fn next_id(&self) -> u64 {
        self.next
    }

    /// A connection that has sent nothing.
    pub fn new() -> (c: Self)
        ensures
            c.next_id() == 1,
    {
        Calls { next: 1 }
    }

    /// The frame that carries `request` under the next id. Once every id has
    /// been used the connection can send no more.
    pub fn frame(&mut self, request: &Request) -> (r: Result<Frame, Error>)
        ensures
            old(self).next_id() == u64::MAX ==> r == Err::<Frame, Error>(Error::Disconnected)
                && final(self).next_id() == old(self).next_id(),
            old(self).next_id() < u64::MAX ==> r is Ok && final(self).next_id() == old(
                self,
            ).next_id() + 1,
            r matches Ok(f) ==> f@ == (FrameView {
                id: old(self).next_id(),
                opcode: spec_encode(request@).0,
                flags: 0,
                status: 0,
                body: spec_encode(request@).1,
            }),
    {
        let id = self.next;
        match id.checked_add(1) {
            None => Err(Error::Disconnected),
            Some(n) => {
                self.next = n;
                let (opcode, body) = request.encode();
                Ok(Frame { id, opcode, flags: 0, status: 0, body })
            },
        }
    }
}

} // verus!
