//! The rules of the out-of-process MNIST worker backend: which model and
//! tensors it admits, the exchange with the worker process (request framing,
//! the ready line and the digit reply) and how a read of the worker's output
//! progresses. Spawning, pipes and clocks belong to the caller.
use crate::backend::{same_text, Backend};
use crate::codec::{le64, put64, put_bytes};
use crate::types::{DescView, Error, TensorDesc};
use vstd::prelude::*;

verus! {

/// The only model the worker serves.
pub const MNIST_MODEL: &'static str = "vision.mnist.v1";

/// Input bytes of one image: 28 by 28 grayscale.
pub const MNIST_INPUT: usize = 784;

/// Bytes of the worker's ready line.
pub const READY_LEN: usize = 5;

/// Bytes of one digit reply: tag, request id, digit.
pub const REPLY_LEN: usize = 13;

/// The characters of the worker's model name.
pub open spec fn mnist_model_name() -> Seq<char> {
    seq!['v', 'i', 's', 'i', 'o', 'n', '.', 'm', 'n', 'i', 's', 't', '.', 'v', '1']
}

/// The ready line `COGW1` a new worker prints.
pub open spec fn ready_line() -> Seq<u8> {
    seq![0x43u8, 0x4fu8, 0x47u8, 0x57u8, 0x31u8]
}

/// The reply tag `DIG1`.
pub open spec fn digit_tag() -> Seq<u8> {
    seq![0x44u8, 0x49u8, 0x47u8, 0x31u8]
}

/// Admission: the input is a 28 by 28 image, the output one byte, and the
/// worker takes no artificial delay.
pub open spec fn mnist_rule(input: DescView, output: DescView, delay_ms: u32) -> Result<(), Error> {
    if input.shape != seq![28u64, 28u64] || output.shape != seq![1u64] {
        Err(Error::Invalid)
    } else if delay_ms != 0 {
        Err(Error::Unsupported)
    } else {
        Ok(())
    }
}

/// Checks made before the worker is contacted: the input must be one image
/// and no delay may be asked; a job already cancelled is not sent.
pub open spec fn execute_precheck(input_len: int, delay_ms: u32, cancelled: bool) -> Result<
    (),
    Error,
> {
    if input_len != MNIST_INPUT || delay_ms != 0 {
        Err(Error::Invalid)
    } else if cancelled {
        Err(Error::Cancelled)
    } else {
        Ok(())
    }
}

/// The worker's answer to request `id`: the tag, the same id and a digit
/// from 0 to 9; anything else is a backend failure.
pub open spec fn digit_outcome(reply: Seq<u8>, id: u64) -> Result<Seq<u8>, Error> {
    if reply.subrange(0, 4) != digit_tag() || reply.subrange(4, 12) != le64(id) || reply[12] > 9 {
        Err(Error::Backend)
    } else {
        Ok(seq![reply[12]])
    }
}

/// Whether `artifact` names the worker's model.
pub fn mnist_supports(artifact: &str) -> (r: bool)
    ensures
        r == (artifact@ == mnist_model_name()),
{
    proof {
        reveal_strlit("vision.mnist.v1");
        assert(MNIST_MODEL@ =~= mnist_model_name());
    }
    same_text(artifact, MNIST_MODEL)
}

fn shape_is(shape: &Vec<u64>, expected: &[u64]) -> (r: bool)
    ensures
        r == (shape@ == expected@),
{
    if shape.len() != expected.len() {
        return false;
    }
    let mut i: usize = 0;
    while i < shape.len()
        invariant
            shape@.len() == expected@.len(),
            0 <= i <= shape@.len(),
            forall|k: int| 0 <= k < i ==> shape@[k] == expected@[k],
        decreases shape@.len() - i,
    {
        if shape[i] != expected[i] {
            return false;
        }
        i = i + 1;
    }
    assert(shape@ =~= expected@);
    true
}

/// Checks the worker's admission rule.
pub fn mnist_validate(input: &TensorDesc, output: &TensorDesc, delay_ms: u32) -> (r: Result<
    (),
    Error,
>)
    ensures
        r == mnist_rule(input@, output@, delay_ms),
{
    let image: [u64; 2] = [28, 28];
    let digit: [u64; 1] = [1];
    assert(image@ =~= seq![28u64, 28u64]);
    assert(digit@ =~= seq![1u64]);
    if !shape_is(&input.shape, &image) || !shape_is(&output.shape, &digit) {
        return Err(Error::Invalid);
    }
    if delay_ms != 0 {
        return Err(Error::Unsupported);
    }
    Ok(())
}

/// The checks made before the worker is contacted.
pub fn check_input(input: &[u8], delay_ms: u32, cancelled: bool) -> (r: Result<(), Error>)
    ensures
        r is Ok <==> execute_precheck(input@.len() as int, delay_ms, cancelled) is Ok,
        r matches Err(e) ==> execute_precheck(input@.len() as int, delay_ms, cancelled) == Err::<
            (),
            Error,
        >(e),
{
    if input.len() != MNIST_INPUT || delay_ms != 0 {
        return Err(Error::Invalid);
    }
    if cancelled {
        return Err(Error::Cancelled);
    }
    Ok(())
}

/// Whether a new worker announced itself correctly.
pub fn ready_ok(line: &[u8; READY_LEN]) -> (r: bool)
    ensures
        r == (line@ == ready_line()),
{
    let ok = line[0] == 0x43 && line[1] == 0x4f && line[2] == 0x47 && line[3] == 0x57 && line[4]
        == 0x31;
    proof {
        if ok {
            assert(line@ =~= ready_line());
        }
    }
    ok
}

/// Reads the worker's reply to request `id`.
pub fn parse_digit(reply: &[u8; REPLY_LEN], id: u64) -> (r: Result<Vec<u8>, Error>)
    ensures
        match r {
            Ok(b) => digit_outcome(reply@, id) == Ok::<Seq<u8>, Error>(b@),
            Err(e) => digit_outcome(reply@, id) == Err::<Seq<u8>, Error>(e),
        },
{
    let tag = reply[0] == 0x44 && reply[1] == 0x49 && reply[2] == 0x47 && reply[3] == 0x31;
    proof {
        if tag {
            assert(reply@.subrange(0, 4) =~= digit_tag());
        } else {
            assert(reply@.subrange(0, 4) != digit_tag()) by {
                if reply@.subrange(0, 4) == digit_tag() {
                    assert(reply@.subrange(0, 4)[0] == reply@[0]);
                    assert(reply@.subrange(0, 4)[1] == reply@[1]);
                    assert(reply@.subrange(0, 4)[2] == reply@[2]);
                    assert(reply@.subrange(0, 4)[3] == reply@[3]);
                }
            }
        }
    }
    if !tag {
        return Err(Error::Backend);
    }
    let mut expected: Vec<u8> = Vec::new();
    put64(&mut expected, id);
    proof {
        crate::codec::lemma_le_roundtrip();
    }
    let mut i: usize = 0;
    while i < 8
        invariant
            reply@.len() == REPLY_LEN,
            expected@ == le64(id),
            expected@.len() == 8,
            0 <= i <= 8,
            forall|k: int| 0 <= k < i ==> reply@[4 + k] == expected@[k],
        decreases 8 - i,
    {
        if reply[4 + i] != expected[i] {
            proof {
                assert(reply@.subrange(4, 12)[i as int] == reply@[4 + i]);
            }
            return Err(Error::Backend);
        }
        i = i + 1;
    }
    assert(reply@.subrange(4, 12) =~= le64(id));
    if reply[12] > 9 {
        return Err(Error::Backend);
    }
    let mut out: Vec<u8> = Vec::new();
    out.push(reply[12]);
    assert(out@ =~= seq![reply@[12]]);
    Ok(out)
}

/// The admission side of the MNIST worker backend.
pub struct MnistBackend;

impl Backend for MnistBackend {
    open spec fn spec_supports(&self, artifact: Seq<char>) -> bool {
        artifact == mnist_model_name()
    }

    open spec fn spec_validate(&self, input: DescView, output: DescView, delay_ms: u32) -> Result<
        (),
        Error,
    > {
        mnist_rule(input, output, delay_ms)
    }

    fn supports(&self, artifact: &str) -> (r: bool) {
        mnist_supports(artifact)
    }

    fn validate(&self, input: &TensorDesc, output: &TensorDesc, delay_ms: u32) -> (r: Result<
        (),
        Error,
    >) {
        mnist_validate(input, output, delay_ms)
    }
}

/// The request counter of one worker process; a new worker starts at 1.
pub struct WorkerLink {
    next: u64,
}

impl WorkerLink {
    /// The id the next request will carry.
    pub closed spec fn next_id(&self) -> u64 {
        self.next
    }

    /// The counter of a freshly started worker.
    pub fn new() -> (w: Self)
        ensures
            w.next_id() == 1,
    {
        WorkerLink { next: 1 }
    }

    /// The id and bytes of the next request: the id in little-endian order
    /// followed by the image. A worker whose ids are exhausted fails.
    pub fn request(&mut self, input: &[u8]) -> (r: Result<(u64, Vec<u8>), Error>)
        ensures
            old(self).next_id() == u64::MAX ==> r == Err::<(u64, Vec<u8>), Error>(Error::Backend)
                && final(self).next_id() == old(self).next_id(),
            old(self).next_id() < u64::MAX ==> r is Ok && final(self).next_id() == old(
                self,
            ).next_id() + 1,
            r matches Ok((id, bytes)) ==> id == old(self).next_id() && bytes@ == le64(id)
                + input@,
    {
        let id = self.next;
        match id.checked_add(1) {
            None => Err(Error::Backend),
            Some(n) => {
                self.next = n;
                let mut bytes: Vec<u8> = Vec::new();
                put64(&mut bytes, id);
                put_bytes(&mut bytes, input);
                Ok((id, bytes))
            },
        }
    }
}

/// What one attempt to read the worker's output gave.
pub enum ReadEvent {
    /// This many bytes arrived.
    Data(usize),
    /// Nothing is available yet; `exited` tells whether the worker is gone.
    Pending { exited: bool },
    /// The read was interrupted by a signal.
    Interrupted,
    /// The pipe failed.
    Failed,
}

/// Whether the worker is kept after an exchange: a failed exchange discards
/// it, with no retry, so that the next job starts a fresh worker; a
/// successful one keeps the worker it ran on.
pub fn keep_worker(had_worker: bool, result: &Result<Vec<u8>, Error>) -> (keep: bool)
    ensures
        keep == (had_worker && result is Ok),
{
    match result {
        Ok(_) => had_worker,
        Err(_) => false,
    }
}

/// Before each read: cancellation wins over the deadline.
pub fn read_gate(cancelled: bool, expired: bool) -> (r: Result<(), Error>)
    ensures
        cancelled ==> r == Err::<(), Error>(Error::Cancelled),
        !cancelled && expired ==> r == Err::<(), Error>(Error::Timeout),
        !cancelled && !expired ==> r is Ok,
{
    if cancelled {
        return Err(Error::Cancelled);
    }
    if expired {
        return Err(Error::Timeout);
    }
    Ok(())
}

/// The fill level after a read attempt: end of output or a failure ends the
/// exchange with a backend error, a worker that exited does too; otherwise
/// the bytes that arrived are counted and the caller tries again.
pub fn read_progress(filled: usize, event: ReadEvent) -> (r: Result<usize, Error>)
    requires
        event matches ReadEvent::Data(n) ==> filled + n <= usize::MAX,
    ensures
        match event {
            ReadEvent::Data(n) => if n == 0 {
                r == Err::<usize, Error>(Error::Backend)
            } else {
                r == Ok::<usize, Error>((filled + n) as usize)
            },
            ReadEvent::Pending { exited } => if exited {
                r == Err::<usize, Error>(Error::Backend)
            } else {
                r == Ok::<usize, Error>(filled)
            },
            ReadEvent::Interrupted => r == Ok::<usize, Error>(filled),
            ReadEvent::Failed => r == Err::<usize, Error>(Error::Backend),
        },
{
    match event {
        ReadEvent::Data(n) => if n == 0 {
            Err(Error::Backend)
        } else {
            Ok(filled + n)
        },
        ReadEvent::Pending { exited } => if exited {
            Err(Error::Backend)
        } else {
            Ok(filled)
        },
        ReadEvent::Interrupted => Ok(filled),
        ReadEvent::Failed => Err(Error::Backend),
    }
}


/// The worker's classification reaches the job unchanged: a reply made of
/// the bytes `DIG1`, the request's id and a digit from 0 to 9 gives exactly
/// that digit, every digit alike; a digit byte above 9, or the id of another
/// request, is a backend failure.
pub proof fn lemma_digit_reply(id: u64, other: u64, d: u8)
    ensures
        ({
            let reply = seq![0x44u8, 0x49u8, 0x47u8, 0x31u8] + le64(id) + seq![d];
            &&& d <= 9 ==> digit_outcome(reply, id) == Ok::<Seq<u8>, Error>(seq![d])
            &&& d > 9 ==> digit_outcome(reply, id) == Err::<Seq<u8>, Error>(Error::Backend)
            &&& other != id ==> digit_outcome(reply, other) == Err::<Seq<u8>, Error>(
                Error::Backend,
            )
        }),
{
    crate::codec::lemma_le_roundtrip();
    let reply = seq![0x44u8, 0x49u8, 0x47u8, 0x31u8] + le64(id) + seq![d];
    assert(reply.subrange(0, 4) =~= digit_tag());
    assert(reply.subrange(4, 12) =~= le64(id));
    let head = seq![0x44u8, 0x49u8, 0x47u8, 0x31u8] + le64(id);
    assert(le64(id).len() == 8);
    assert(head.len() == 12);
    assert(reply == head + seq![d]);
    assert(reply[12] == d);
    if other != id {
        assert(le64(other).len() == 8);
        assert(crate::codec::read64(le64(other), 0) == other);
        assert(crate::codec::read64(le64(id), 0) == id);
        assert(le64(other) != le64(id));
    }
}

} // verus!
