//! Values shared by the runtime, the wire protocol and the clients.
use vstd::prelude::*;

verus! {

/// A session-owned object identifier.
pub type Handle = u64;

/// Largest backing buffer, in bytes.
pub const MAX_BUFFER: usize = 1048576;

/// Largest tensor rank.
pub const MAX_RANK: usize = 8;

/// Largest test delay accepted on submission, in milliseconds.
pub const MAX_DELAY_MS: u32 = 5000;

/// Objects per session, across all handle types.
pub const MAX_OBJECTS: usize = 128;

/// Jobs per session, including retained terminal jobs.
pub const MAX_JOBS: usize = 16;

/// Concurrent sessions.
pub const MAX_SESSIONS: usize = 32;

/// Backing bytes per session.
pub const SESSION_MEMORY: usize = 8388608;

/// Backing bytes across the daemon.
pub const GLOBAL_MEMORY: usize = 67108864;

/// Error numbers shared by the wire protocol and the C ABI.
#[derive(Debug, Clone, Copy, PartialEq, Eq, Structural)]
pub enum Error {
    Invalid,
    NoMemory,
    NoModel,
    Busy,
    Timeout,
    Cancelled,
    Permission,
    Backend,
    Io,
    Unsupported,
    Disconnected,
}

impl Error {
    /// The wire number of an error.
    pub open spec fn to_code(self) -> i32 {
        match self {
            Error::Invalid => 1,
            Error::NoMemory => 2,
            Error::NoModel => 3,
            Error::Busy => 4,
            Error::Timeout => 5,
            Error::Cancelled => 6,
            Error::Permission => 7,
            Error::Backend => 8,
            Error::Io => 9,
            Error::Unsupported => 10,
            Error::Disconnected => 11,
        }
    }

    /// The wire number of this error.
    pub fn code(self) -> (c: i32)
        ensures
            c == self.to_code(),
            1 <= c <= 11,
    {
        match self {
            Error::Invalid => 1,
            Error::NoMemory => 2,
            Error::NoModel => 3,
            Error::Busy => 4,
            Error::Timeout => 5,
            Error::Cancelled => 6,
            Error::Permission => 7,
            Error::Backend => 8,
            Error::Io => 9,
            Error::Unsupported => 10,
            Error::Disconnected => 11,
        }
    }

    /// The error whose wire number is `code`; `None` for any other number.
    pub fn from_code(code: i32) -> (r: Option<Self>)
        ensures
            r is Some <==> 1 <= code <= 11,
            r matches Some(e) ==> e.to_code() == code,
    {
        match code {
            1 => Some(Error::Invalid),
            2 => Some(Error::NoMemory),
            3 => Some(Error::NoModel),
            4 => Some(Error::Busy),
            5 => Some(Error::Timeout),
            6 => Some(Error::Cancelled),
            7 => Some(Error::Permission),
            8 => Some(Error::Backend),
            9 => Some(Error::Io),
            10 => Some(Error::Unsupported),
            11 => Some(Error::Disconnected),
            _ => None,
        }
    }
}

/// Distinct errors have distinct wire numbers, and decoding a number gives back
/// the error it was encoded from.
pub proof fn lemma_error_code_roundtrip(e: Error, f: Error)
    ensures
        1 <= e.to_code() <= 11,
        e.to_code() == f.to_code() ==> e == f,
{
}

/// The life cycle of a submitted job.
#[derive(Debug, Clone, Copy, PartialEq, Eq, Structural)]
pub enum JobStatus {
    Queued,
    Running,
    Completed,
    Failed,
    Cancelled,
}

impl JobStatus {
    /// The wire number of a status.
    pub open spec fn to_code(self) -> u32 {
        match self {
            JobStatus::Queued => 1,
            JobStatus::Running => 2,
            JobStatus::Completed => 3,
            JobStatus::Failed => 4,
            JobStatus::Cancelled => 5,
        }
    }

    /// Completed, failed and cancelled jobs are terminal.
    pub open spec fn is_terminal(self) -> bool {
        self is Completed || self is Failed || self is Cancelled
    }

    /// The wire number of this status.
    pub fn code(self) -> (c: u32)
        ensures
            c == self.to_code(),
    {
        match self {
            JobStatus::Queued => 1,
            JobStatus::Running => 2,
            JobStatus::Completed => 3,
            JobStatus::Failed => 4,
            JobStatus::Cancelled => 5,
        }
    }

    /// Whether a job in this status will never change status again.
    pub fn terminal(self) -> (r: bool)
        ensures
            r == self.is_terminal(),
    {
        match self {
            JobStatus::Completed | JobStatus::Failed | JobStatus::Cancelled => true,
            _ => false,
        }
    }

    /// The status whose wire number is `code`; `Invalid` for any other number.
    pub fn from_code(code: u32) -> (r: Result<Self, Error>)
        ensures
            r is Ok <==> 1 <= code <= 5,
            r matches Ok(s) ==> s.to_code() == code,
            r matches Err(e) ==> e == Error::Invalid,
    {
        match code {
            1 => Ok(JobStatus::Queued),
            2 => Ok(JobStatus::Running),
            3 => Ok(JobStatus::Completed),
            4 => Ok(JobStatus::Failed),
            5 => Ok(JobStatus::Cancelled),
            _ => Err(Error::Invalid),
        }
    }
}

/// Distinct statuses have distinct wire numbers.
pub proof fn lemma_status_code_roundtrip(s: JobStatus, t: JobStatus)
    ensures
        1 <= s.to_code() <= 5,
        s.to_code() == t.to_code() ==> s == t,
{
}

/// A contiguous U8 tensor view. Offset and extents are measured in bytes.
#[derive(Debug, Clone, PartialEq, Eq)]
pub struct TensorDesc {
    pub offset: u64,
    pub shape: Vec<u64>,
}

/// The mathematical content of a tensor descriptor.
pub struct DescView {
    pub offset: u64,
    pub shape: Seq<u64>,
}

impl View for TensorDesc {
    type V = DescView;

    open spec fn view(&self) -> DescView {
        DescView { offset: self.offset, shape: self.shape@ }
    }
}

/// Product of the dimensions of a shape.
pub open spec fn shape_product(shape: Seq<u64>) -> int
    decreases shape.len(),
{
    if shape.len() == 0 {
        1
    } else {
        shape_product(shape.drop_last()) * shape.last()
    }
}

/// A shape names a tensor when its rank is 1 through `MAX_RANK`, every
/// dimension is nonzero and the element count fits in a `u64`.
pub open spec fn shape_ok(shape: Seq<u64>) -> bool {
    &&& 1 <= shape.len() <= MAX_RANK
    &&& forall|i: int| 0 <= i < shape.len() ==> shape[i] > 0
    &&& shape_product(shape) <= u64::MAX
}

/// A descriptor fits in a buffer of `capacity` bytes.
pub open spec fn desc_fits(d: DescView, capacity: int) -> bool {
    shape_ok(d.shape) && d.offset + shape_product(d.shape) <= capacity
}

proof fn lemma_product_monotone(shape: Seq<u64>, i: int)
    requires
        0 <= i <= shape.len(),
        forall|k: int| 0 <= k < shape.len() ==> shape[k] > 0,
    ensures
        0 <= shape_product(shape.subrange(0, i)) <= shape_product(shape),
        shape_product(shape.subrange(0, i)) >= 1,
    decreases shape.len() - i,
{
    if i == shape.len() {
        assert(shape.subrange(0, i) =~= shape);
        lemma_product_positive(shape);
    } else {
        lemma_product_monotone(shape, i + 1);
        let p = shape.subrange(0, i + 1);
        assert(p.drop_last() =~= shape.subrange(0, i));
        lemma_product_positive(shape.subrange(0, i));
        let a = shape_product(shape.subrange(0, i));
        let b = shape[i] as int;
        assert(a * b >= a) by (nonlinear_arith)
            requires
                a >= 1,
                b >= 1,
        ;
    }
}

pub proof fn lemma_product_positive(shape: Seq<u64>)
    requires
        forall|k: int| 0 <= k < shape.len() ==> shape[k] > 0,
    ensures
        shape_product(shape) >= 1,
    decreases shape.len(),
{
    if shape.len() > 0 {
        lemma_product_positive(shape.drop_last());
        let a = shape_product(shape.drop_last());
        let b = shape.last() as int;
        assert(a * b >= 1) by (nonlinear_arith)
            requires
                a >= 1,
                b >= 1,
        ;
    }
}

impl TensorDesc {
    /// The byte range that the tensor occupies in a buffer of `capacity` bytes.
    pub fn extent(&self, capacity: usize) -> (r: Result<core::ops::Range<usize>, Error>)
        ensures
            r is Ok <==> desc_fits(self@, capacity as int),
            r matches Ok(range) ==> range.start == self.offset && range.end == self.offset
                + shape_product(self.shape@),
            r matches Err(e) ==> e == Error::Invalid,
    {
        let n = self.shape.len();
        if n == 0 || n > MAX_RANK {
            return Err(Error::Invalid);
        }
        let mut count: u64 = 1;
        let mut i: usize = 0;
        while i < n
            invariant
                n == self.shape.len(),
                1 <= n <= MAX_RANK,
                0 <= i <= n,
                count == shape_product(self.shape@.subrange(0, i as int)),
                forall|k: int| 0 <= k < i ==> self.shape@[k] > 0,
            decreases n - i,
        {
            let dim = self.shape[i];
            proof {
                assert(self.shape@.subrange(0, i + 1).drop_last() =~= self.shape@.subrange(
                    0,
                    i as int,
                ));
            }
            if dim == 0 {
                return Err(Error::Invalid);
            }
            match count.checked_mul(dim) {
                Some(c) => {
                    count = c;
                },
                None => {
                    proof {
                        if forall|k: int| 0 <= k < n ==> self.shape@[k] > 0 {
                            lemma_product_monotone(self.shape@, i + 1);
                        }
                    }
                    return Err(Error::Invalid);
                },
            }
            i = i + 1;
        }
        assert(self.shape@.subrange(0, n as int) =~= self.shape@);
        let end = match self.offset.checked_add(count) {
            Some(e) => e,
            None => {
                return Err(Error::Invalid);
            },
        };
        if end > capacity as u64 {
            return Err(Error::Invalid);
        }
        Ok(core::ops::Range { start: self.offset as usize, end: end as usize })
    }
}

/// Per-session resource counters reported by `STATS`.
#[derive(Debug, Clone, Copy, PartialEq, Eq, Structural)]
pub struct Stats {
    pub objects: u32,
    pub live_bytes: u64,
    pub jobs: u32,
}

} // verus!
