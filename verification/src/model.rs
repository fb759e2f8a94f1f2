//! The mathematical model of the runtime: its state, what every operation does
//! to it, and the invariant that every operation keeps.
use crate::backend::Backend;
use crate::codec::{le32, le64};
use crate::frame::FEATURES;
use crate::request::RequestView;
use crate::types::{
    desc_fits, shape_product, DescView, Error, Handle, JobStatus, GLOBAL_MEMORY, MAX_BUFFER,
    MAX_DELAY_MS, MAX_JOBS, MAX_OBJECTS, MAX_RANK, MAX_SESSIONS, SESSION_MEMORY,
};
use vstd::prelude::*;

verus! {

/// What a handle names. Buffers, tensors and jobs are named by the handle
/// under which they were created.
#[derive(Debug, Clone, Copy, PartialEq, Eq, Structural)]
pub enum Object {
    Model,
    Buffer(u64),
    Tensor(u64),
    Job(u64),
}

/// One handle of one session.
#[derive(Debug, Clone, Copy, PartialEq, Eq, Structural)]
pub struct ObjEntry {
    pub owner: u64,
    pub handle: Handle,
    pub object: Object,
}

/// The input and output tensors an accepted job holds until backend access ends.
#[derive(Debug, Clone, Copy, PartialEq, Eq, Structural)]
pub struct Resources {
    pub input: u64,
    pub output: u64,
}

/// A submitted job.
#[derive(Debug, Clone, Copy, PartialEq, Eq, Structural)]
pub struct JobRec {
    pub id: u64,
    pub owner: u64,
    pub delay_ms: u32,
    pub status: JobStatus,
    pub error: Option<Error>,
    pub resources: Option<Resources>,
    pub cancelled: bool,
}

/// A retained backing buffer.
pub struct BufferView {
    pub id: u64,
    pub owner: u64,
    pub data: Seq<u8>,
    pub shared: bool,
}

/// A retained tensor view of a buffer.
pub struct TensorView {
    pub id: u64,
    pub buffer: u64,
    pub desc: DescView,
    pub start: int,
    pub end: int,
}

/// The whole runtime state.
#[verifier::ext_equal]
pub struct RuntimeView {
    pub next: u64,
    pub stopping: bool,
    pub sessions: Seq<u64>,
    pub objects: Seq<ObjEntry>,
    pub buffers: Seq<BufferView>,
    pub tensors: Seq<TensorView>,
    pub jobs: Seq<JobRec>,
    pub queue: Seq<u64>,
}

/// The outcome of an operation on the runtime.
pub type Outcome = (RuntimeView, Result<Seq<u8>, Error>);

// ---------------------------------------------------------------- lookups
pub open spec fn has_object(v: RuntimeView, owner: u64, h: Handle) -> bool {
    exists|i: int|
        0 <= i < v.objects.len() && v.objects[i].owner == owner && v.objects[i].handle == h
}

pub open spec fn object_index(v: RuntimeView, owner: u64, h: Handle) -> int {
    choose|i: int|
        0 <= i < v.objects.len() && v.objects[i].owner == owner && v.objects[i].handle == h
}

/// The object that `owner` names by `h`.
pub open spec fn lookup(v: RuntimeView, owner: u64, h: Handle) -> Option<Object> {
    if has_object(v, owner, h) {
        Some(v.objects[object_index(v, owner, h)].object)
    } else {
        None
    }
}

pub open spec fn has_buffer(v: RuntimeView, id: u64) -> bool {
    exists|i: int| 0 <= i < v.buffers.len() && v.buffers[i].id == id
}

pub open spec fn buffer_index(v: RuntimeView, id: u64) -> int {
    choose|i: int| 0 <= i < v.buffers.len() && v.buffers[i].id == id
}

pub open spec fn buffer(v: RuntimeView, id: u64) -> BufferView {
    v.buffers[buffer_index(v, id)]
}

pub open spec fn has_tensor(v: RuntimeView, id: u64) -> bool {
    exists|i: int| 0 <= i < v.tensors.len() && v.tensors[i].id == id
}

pub open spec fn tensor_index(v: RuntimeView, id: u64) -> int {
    choose|i: int| 0 <= i < v.tensors.len() && v.tensors[i].id == id
}

pub open spec fn tensor(v: RuntimeView, id: u64) -> TensorView {
    v.tensors[tensor_index(v, id)]
}

pub open spec fn has_job(v: RuntimeView, id: u64) -> bool {
    exists|i: int| 0 <= i < v.jobs.len() && v.jobs[i].id == id
}

pub open spec fn job_index(v: RuntimeView, id: u64) -> int {
    choose|i: int| 0 <= i < v.jobs.len() && v.jobs[i].id == id
}

pub open spec fn job(v: RuntimeView, id: u64) -> JobRec {
    v.jobs[job_index(v, id)]
}

/// A job holding resources pins the buffers of its input and output tensors.
pub open spec fn job_pins(v: RuntimeView, j: JobRec, b: u64) -> bool {
    j.resources matches Some(r) && (tensor(v, r.input).buffer == b || tensor(v, r.output).buffer
        == b)
}

/// Buffer `b` is pinned by an accepted, unfinished job.
pub open spec fn pinned(v: RuntimeView, b: u64) -> bool {
    exists|k: int| 0 <= k < v.jobs.len() && job_pins(v, v.jobs[k], b)
}

// ---------------------------------------------------------------- counters
/// The handles of session `owner`.
/// Handles held by session `owner`.
pub open spec fn owner_is(owner: u64) -> spec_fn(ObjEntry) -> bool {
    |e: ObjEntry| e.owner == owner
}

/// Job handles held by session `owner`.
pub open spec fn owner_job_is(owner: u64) -> spec_fn(ObjEntry) -> bool {
    |e: ObjEntry| e.owner == owner && e.object is Job
}

/// Buffers accounted to session `owner`.
pub open spec fn buffer_owner_is(owner: u64) -> spec_fn(BufferView) -> bool {
    |b: BufferView| b.owner == owner
}

pub open spec fn owned(v: RuntimeView, owner: u64) -> Seq<ObjEntry> {
    v.objects.filter(owner_is(owner))
}

/// The job handles of session `owner`.
pub open spec fn owned_jobs(v: RuntimeView, owner: u64) -> Seq<ObjEntry> {
    v.objects.filter(owner_job_is(owner))
}

/// Total size of a sequence of buffers.
pub open spec fn bytes_of(bufs: Seq<BufferView>) -> int
    decreases bufs.len(),
{
    if bufs.len() == 0 {
        0
    } else {
        bytes_of(bufs.drop_last()) + bufs.last().data.len()
    }
}

/// Backing bytes retained across the daemon.
pub open spec fn live_bytes(v: RuntimeView) -> int {
    bytes_of(v.buffers)
}

/// Backing bytes retained for session `owner`, counting buffers that only
/// tensors or jobs still hold.
pub open spec fn session_bytes(v: RuntimeView, owner: u64) -> int {
    bytes_of(v.buffers.filter(buffer_owner_is(owner)))
}

// ---------------------------------------------------------------- reclamation
pub open spec fn job_named(v: RuntimeView, id: u64) -> bool {
    exists|i: int| 0 <= i < v.objects.len() && v.objects[i].object == Object::Job(id)
}

pub open spec fn tensor_named(v: RuntimeView, id: u64) -> bool {
    exists|i: int| 0 <= i < v.objects.len() && v.objects[i].object == Object::Tensor(id)
}

pub open spec fn buffer_named(v: RuntimeView, id: u64) -> bool {
    exists|i: int| 0 <= i < v.objects.len() && v.objects[i].object == Object::Buffer(id)
}

/// A job is retained while a handle names it or it is queued or running.
pub open spec fn job_kept(v: RuntimeView, j: JobRec) -> bool {
    job_named(v, j.id) || j.status is Queued || j.status is Running
}

/// A tensor is retained while a handle names it or a retained job holds it.
pub open spec fn tensor_kept(v: RuntimeView, jobs: Seq<JobRec>, t: TensorView) -> bool {
    tensor_named(v, t.id) || exists|k: int|
        0 <= k < jobs.len() && (#[trigger] jobs[k].resources matches Some(r) && (r.input == t.id || r.output
            == t.id))
}

/// A buffer is retained while a handle names it or a retained tensor views it.
pub open spec fn buffer_kept(v: RuntimeView, tensors: Seq<TensorView>, b: BufferView) -> bool {
    buffer_named(v, b.id) || exists|k: int| 0 <= k < tensors.len() && tensors[k].buffer == b.id
}

pub open spec fn job_keep(v: RuntimeView) -> spec_fn(JobRec) -> bool {
    |j: JobRec| job_kept(v, j)
}

pub open spec fn tensor_keep(v: RuntimeView, jobs: Seq<JobRec>) -> spec_fn(TensorView) -> bool {
    |t: TensorView| tensor_kept(v, jobs, t)
}

pub open spec fn buffer_keep(v: RuntimeView, tensors: Seq<TensorView>) -> spec_fn(
    BufferView,
) -> bool {
    |b: BufferView| buffer_kept(v, tensors, b)
}

pub open spec fn kept_jobs(v: RuntimeView) -> Seq<JobRec> {
    v.jobs.filter(job_keep(v))
}

pub open spec fn kept_tensors(v: RuntimeView) -> Seq<TensorView> {
    v.tensors.filter(tensor_keep(v, kept_jobs(v)))
}

pub open spec fn kept_buffers(v: RuntimeView) -> Seq<BufferView> {
    v.buffers.filter(buffer_keep(v, kept_tensors(v)))
}

/// Drops every job, tensor and buffer that nothing retains any more; their
/// bytes return to the quotas.
pub open spec fn reclaim(v: RuntimeView) -> RuntimeView {
    RuntimeView {
        jobs: kept_jobs(v),
        tensors: kept_tensors(v),
        buffers: kept_buffers(v),
        ..v
    }
}

// ---------------------------------------------------------------- operations
/// Allocates the next identifier.
pub open spec fn fresh(v: RuntimeView) -> Result<u64, Error> {
    if v.next == u64::MAX {
        Err(Error::NoMemory)
    } else {
        Ok(v.next)
    }
}

/// Adds a handle naming `object` to session `owner`; on success the payload is
/// the new handle.
pub open spec fn insert(v: RuntimeView, owner: u64, object: Object) -> Outcome {
    if owned(v, owner).len() >= MAX_OBJECTS {
        (v, Err(Error::Busy))
    } else {
        match fresh(v) {
            Err(e) => (v, Err(e)),
            Ok(h) => (
                RuntimeView {
                    next: (h + 1) as u64,
                    objects: v.objects.push(ObjEntry { owner, handle: h, object }),
                    ..v
                },
                Ok(le64(h)),
            ),
        }
    }
}

pub open spec fn hello_body() -> Seq<u8> {
    le64(FEATURES) + le32(MAX_BUFFER as u32) + le32(MAX_RANK as u32)
}

pub open spec fn stats_body(v: RuntimeView, owner: u64) -> Seq<u8> {
    le32(owned(v, owner).len() as u32) + le64(session_bytes(v, owner) as u64) + le32(
        owned_jobs(v, owner).len() as u32,
    )
}

pub open spec fn spec_alloc(v: RuntimeView, owner: u64, size: u32) -> Outcome {
    if size == 0 || size > MAX_BUFFER {
        (v, Err(Error::Invalid))
    } else if session_bytes(v, owner) + size > SESSION_MEMORY || live_bytes(v) + size
        > GLOBAL_MEMORY {
        (v, Err(Error::NoMemory))
    } else {
        let (w, r) = insert(v, owner, Object::Buffer(v.next));
        if r is Ok {
            (
                RuntimeView {
                    buffers: w.buffers.push(
                        BufferView {
                            id: v.next,
                            owner,
                            data: Seq::new(size as nat, |i: int| 0u8),
                            shared: false,
                        },
                    ),
                    ..w
                },
                r,
            )
        } else {
            (w, r)
        }
    }
}

/// `data` replaces the contents of buffer `b`.
pub open spec fn with_data(v: RuntimeView, b: u64, data: Seq<u8>) -> RuntimeView {
    let i = buffer_index(v, b);
    RuntimeView {
        buffers: v.buffers.update(i, BufferView { data, ..v.buffers[i] }),
        ..v
    }
}

pub open spec fn spec_write(v: RuntimeView, owner: u64, h: Handle, data: Seq<u8>) -> Outcome {
    match lookup(v, owner, h) {
        Some(Object::Buffer(b)) => if pinned(v, b) {
            (v, Err(Error::Busy))
        } else if buffer(v, b).data.len() != data.len() {
            (v, Err(Error::Invalid))
        } else if buffer(v, b).shared {
            (v, Err(Error::Permission))
        } else {
            (with_data(v, b, data), Ok(Seq::empty()))
        },
        _ => (v, Err(Error::Invalid)),
    }
}

pub open spec fn spec_read(v: RuntimeView, owner: u64, h: Handle) -> Outcome {
    match lookup(v, owner, h) {
        Some(Object::Buffer(b)) => if pinned(v, b) {
            (v, Err(Error::Busy))
        } else {
            (v, Ok(buffer(v, b).data))
        },
        _ => (v, Err(Error::Invalid)),
    }
}

pub open spec fn spec_tensor(v: RuntimeView, owner: u64, h: Handle, desc: DescView) -> Outcome {
    match lookup(v, owner, h) {
        Some(Object::Buffer(b)) => if !desc_fits(desc, buffer(v, b).data.len() as int) {
            (v, Err(Error::Invalid))
        } else {
            let (w, r) = insert(v, owner, Object::Tensor(v.next));
            if r is Ok {
                (
                    RuntimeView {
                        tensors: w.tensors.push(
                            TensorView {
                                id: v.next,
                                buffer: b,
                                desc,
                                start: desc.offset as int,
                                end: desc.offset + shape_product(desc.shape),
                            },
                        ),
                        ..w
                    },
                    r,
                )
            } else {
                (w, r)
            }
        },
        _ => (v, Err(Error::Invalid)),
    }
}

pub open spec fn spec_submit<B: Backend>(
    v: RuntimeView,
    owner: u64,
    model: Handle,
    input: Handle,
    output: Handle,
    delay_ms: u32,
    backend: B,
) -> Outcome {
    if delay_ms > MAX_DELAY_MS {
        (v, Err(Error::Invalid))
    } else if lookup(v, owner, model) != Some(Object::Model) {
        (v, Err(Error::Invalid))
    } else {
        match (lookup(v, owner, input), lookup(v, owner, output)) {
            (Some(Object::Tensor(ti)), Some(Object::Tensor(to))) => {
                let (a, b) = (tensor(v, ti), tensor(v, to));
                if backend.spec_validate(a.desc, b.desc, delay_ms) is Err {
                    (v, Err(backend.spec_validate(a.desc, b.desc, delay_ms)->Err_0))
                } else if a.buffer == b.buffer {
                    (v, Err(Error::Invalid))
                } else if owned(v, owner).len() >= MAX_OBJECTS || owned_jobs(v, owner).len()
                    >= MAX_JOBS {
                    (v, Err(Error::Busy))
                } else if pinned(v, a.buffer) || pinned(v, b.buffer) {
                    (v, Err(Error::Busy))
                } else if buffer(v, b.buffer).shared {
                    (v, Err(Error::Permission))
                } else {
                    match fresh(v) {
                        Err(e) => (v, Err(e)),
                        Ok(id) => (
                            RuntimeView {
                                next: (id + 1) as u64,
                                objects: v.objects.push(
                                    ObjEntry { owner, handle: id, object: Object::Job(id) },
                                ),
                                jobs: v.jobs.push(
                                    JobRec {
                                        id,
                                        owner,
                                        delay_ms,
                                        status: JobStatus::Queued,
                                        error: None,
                                        resources: Some(Resources { input: ti, output: to }),
                                        cancelled: false,
                                    },
                                ),
                                queue: v.queue.push(id),
                                ..v
                            },
                            Ok(le64(id)),
                        ),
                    }
                }
            },
            (Some(Object::Tensor(_)), _) => (v, Err(Error::Invalid)),
            _ => (v, Err(Error::Invalid)),
        }
    }
}

/// The wire number of an optional terminal error; 0 for none.
pub open spec fn error_number(e: Option<Error>) -> u32 {
    match e {
        Some(e) => e.to_code() as u32,
        None => 0,
    }
}

pub open spec fn spec_status(v: RuntimeView, owner: u64, h: Handle) -> Outcome {
    match lookup(v, owner, h) {
        Some(Object::Job(j)) => (
            v,
            Ok(le32(job(v, j).status.to_code()) + le32(error_number(job(v, j).error))),
        ),
        _ => (v, Err(Error::Invalid)),
    }
}

/// Cancelling a record: terminal jobs are unchanged; otherwise the job is
/// flagged, and a queued job becomes cancelled and lets go of its resources.
pub open spec fn cancel_rec(j: JobRec) -> JobRec {
    if j.status.is_terminal() {
        j
    } else if j.status is Queued {
        JobRec {
            cancelled: true,
            resources: None,
            error: Some(Error::Cancelled),
            status: JobStatus::Cancelled,
            ..j
        }
    } else {
        JobRec { cancelled: true, ..j }
    }
}

pub open spec fn spec_cancel(v: RuntimeView, owner: u64, h: Handle) -> Outcome {
    match lookup(v, owner, h) {
        Some(Object::Job(j)) => {
            let i = job_index(v, j);
            (
                reclaim(
                    RuntimeView {
                        jobs: v.jobs.update(i, cancel_rec(v.jobs[i])),
                        queue: v.queue.filter(|q: u64| q != j),
                        ..v
                    },
                ),
                Ok(Seq::empty()),
            )
        },
        _ => (v, Err(Error::Invalid)),
    }
}

/// Which kind of object a closing request expects.
pub open spec fn close_matches(r: RequestView, o: Object) -> bool {
    match (r, o) {
        (RequestView::ModelClose(_), Object::Model) => true,
        (RequestView::BufferFree(_), Object::Buffer(_)) => true,
        (RequestView::TensorRelease(_), Object::Tensor(_)) => true,
        (RequestView::JobRelease(_), Object::Job(_)) => true,
        _ => false,
    }
}

pub open spec fn spec_close(v: RuntimeView, owner: u64, h: Handle, r: RequestView) -> Outcome {
    match lookup(v, owner, h) {
        None => (v, Err(Error::Invalid)),
        Some(o) => if !close_matches(r, o) {
            (v, Err(Error::Invalid))
        } else if o matches Object::Job(j) && !job(v, j).status.is_terminal() {
            (v, Err(Error::Busy))
        } else {
            (
                reclaim(
                    RuntimeView {
                        objects: v.objects.remove(object_index(v, owner, h)),
                        ..v
                    },
                ),
                Ok(Seq::empty()),
            )
        },
    }
}

/// What one request of session `owner` does.
pub open spec fn spec_request<B: Backend>(
    v: RuntimeView,
    owner: u64,
    r: RequestView,
    backend: B,
) -> Outcome {
    if !v.sessions.contains(owner) {
        (v, Err(Error::Disconnected))
    } else {
        match r {
            RequestView::Hello => (v, Ok(hello_body())),
            RequestView::Stats => (v, Ok(stats_body(v, owner))),
            RequestView::ModelOpen(name) => if !backend.spec_supports(name) {
                (v, Err(Error::NoModel))
            } else {
                insert(v, owner, Object::Model)
            },
            RequestView::BufferAlloc(size) => spec_alloc(v, owner, size),
            RequestView::BufferWrite { buffer, data } => spec_write(v, owner, buffer, data),
            RequestView::BufferRead(h) => spec_read(v, owner, h),
            RequestView::TensorCreate { buffer, desc } => spec_tensor(v, owner, buffer, desc),
            RequestView::Submit { model, input, output, delay_ms } => spec_submit(
                v,
                owner,
                model,
                input,
                output,
                delay_ms,
                backend,
            ),
            RequestView::JobStatus(h) => spec_status(v, owner, h),
            RequestView::JobCancel(h) => spec_cancel(v, owner, h),
            RequestView::ModelClose(h) => spec_close(v, owner, h, r),
            RequestView::BufferFree(h) => spec_close(v, owner, h, r),
            RequestView::TensorRelease(h) => spec_close(v, owner, h, r),
            RequestView::JobRelease(h) => spec_close(v, owner, h, r),
        }
    }
}

pub open spec fn spec_connect(v: RuntimeView) -> (RuntimeView, Result<u64, Error>) {
    if v.stopping {
        (v, Err(Error::Disconnected))
    } else if v.sessions.len() >= MAX_SESSIONS {
        (v, Err(Error::Busy))
    } else {
        match fresh(v) {
            Err(e) => (v, Err(e)),
            Ok(id) => (
                RuntimeView { next: (id + 1) as u64, sessions: v.sessions.push(id), ..v },
                Ok(id),
            ),
        }
    }
}

/// Sessions other than `owner`.
pub open spec fn other_session(owner: u64) -> spec_fn(u64) -> bool {
    |s: u64| s != owner
}

/// Session `owner` goes away: its handles are dropped, its jobs cancelled and
/// its queued work removed.
pub open spec fn spec_disconnect(v: RuntimeView, owner: u64) -> RuntimeView {
    if !v.sessions.contains(owner) {
        v
    } else {
        reclaim(
            RuntimeView {
                sessions: v.sessions.filter(other_session(owner)),
                objects: v.objects.filter(|e: ObjEntry| e.owner != owner),
                jobs: v.jobs.map_values(
                    |j: JobRec|
                        if owned_job(v, owner, j.id) {
                            cancel_rec(j)
                        } else {
                            j
                        },
                ),
                queue: v.queue.filter(|q: u64| job(v, q).owner != owner),
                ..v
            },
        )
    }
}

pub open spec fn owned_job(v: RuntimeView, owner: u64, id: u64) -> bool {
    exists|i: int|
        0 <= i < v.objects.len() && v.objects[i].owner == owner && v.objects[i].object
            == Object::Job(id)
}

/// The daemon stops: every named job is cancelled and all sessions and queued
/// work are dropped.
pub open spec fn spec_shutdown(v: RuntimeView) -> RuntimeView {
    reclaim(
        RuntimeView {
            stopping: true,
            sessions: Seq::empty(),
            objects: Seq::empty(),
            jobs: v.jobs.map_values(
                |j: JobRec|
                    if job_named(v, j.id) {
                        cancel_rec(j)
                    } else {
                        j
                    },
            ),
            queue: Seq::empty(),
            ..v
        },
    )
}

/// The bytes a job reads: its input tensor's range of its buffer.
pub open spec fn job_input(v: RuntimeView, j: JobRec) -> Seq<u8> {
    let t = tensor(v, j.resources->Some_0.input);
    buffer(v, t.buffer).data.subrange(t.start, t.end)
}

/// The worker takes the job at the front of the queue and starts it.
pub open spec fn spec_begin(v: RuntimeView) -> RuntimeView {
    if v.stopping || v.queue.len() == 0 {
        v
    } else {
        let i = job_index(v, v.queue[0]);
        RuntimeView {
            queue: v.queue.drop_first(),
            jobs: v.jobs.update(i, JobRec { status: JobStatus::Running, ..v.jobs[i] }),
            ..v
        }
    }
}

/// What the worker commits for a running job once backend access has ended:
/// a cancelled job reports cancellation whatever the backend returned; output
/// of the wrong length is a backend failure; otherwise the output tensor's
/// range of its buffer receives the bytes.
pub open spec fn finish_result(v: RuntimeView, j: JobRec, result: Result<Seq<u8>, Error>) -> Result<
    (),
    Error,
> {
    let t = tensor(v, j.resources->Some_0.output);
    if j.cancelled {
        Err(Error::Cancelled)
    } else {
        match result {
            Err(e) => Err(e),
            Ok(bytes) => if bytes.len() != t.end - t.start {
                Err(Error::Backend)
            } else if buffer(v, t.buffer).shared {
                Err(Error::Permission)
            } else {
                Ok(())
            },
        }
    }
}

/// The terminal status published for a job's outcome.
pub open spec fn terminal_status(r: Result<(), Error>) -> JobStatus {
    match r {
        Ok(_) => JobStatus::Completed,
        Err(Error::Cancelled) => JobStatus::Cancelled,
        Err(_) => JobStatus::Failed,
    }
}

pub open spec fn spec_finish(v: RuntimeView, id: u64, result: Result<Seq<u8>, Error>) -> RuntimeView {
    if !has_job(v, id) || !(job(v, id).status is Running) {
        v
    } else {
        let i = job_index(v, id);
        let j = v.jobs[i];
        let t = tensor(v, j.resources->Some_0.output);
        let r = finish_result(v, j, result);
        let written = if r is Ok {
            let old = buffer(v, t.buffer).data;
            with_data(
                v,
                t.buffer,
                old.subrange(0, t.start) + result->Ok_0 + old.subrange(t.end, old.len() as int),
            )
        } else {
            v
        };
        reclaim(
            RuntimeView {
                jobs: written.jobs.update(
                    i,
                    JobRec {
                        resources: None,
                        error: match r {
                            Ok(_) => None,
                            Err(e) => Some(e),
                        },
                        status: terminal_status(r),
                        ..j
                    },
                ),
                ..written
            },
        )
    }
}

pub open spec fn spec_export(v: RuntimeView, owner: u64, h: Handle) -> Result<Seq<u8>, Error> {
    if !v.sessions.contains(owner) {
        Err(Error::Disconnected)
    } else {
        match lookup(v, owner, h) {
            Some(Object::Buffer(b)) => if pinned(v, b) {
                Err(Error::Busy)
            } else {
                Ok(buffer(v, b).data)
            },
            _ => Err(Error::Invalid),
        }
    }
}

pub open spec fn spec_import(
    v: RuntimeView,
    owner: u64,
    size: u32,
    shared: Result<Seq<u8>, Error>,
) -> Outcome {
    if !v.sessions.contains(owner) {
        (v, Err(Error::Disconnected))
    } else if size == 0 || size > MAX_BUFFER {
        (v, Err(Error::Invalid))
    } else if owned(v, owner).len() >= MAX_OBJECTS {
        (v, Err(Error::Busy))
    } else if session_bytes(v, owner) + size > SESSION_MEMORY || live_bytes(v) + size
        > GLOBAL_MEMORY {
        (v, Err(Error::NoMemory))
    } else {
        match shared {
            Err(e) => (v, Err(e)),
            Ok(data) => if data.len() != size {
                (v, Err(Error::Invalid))
            } else {
                let (w, r) = insert(v, owner, Object::Buffer(v.next));
                if r is Ok {
                    (
                        RuntimeView {
                            buffers: w.buffers.push(
                                BufferView { id: v.next, owner, data, shared: true },
                            ),
                            ..w
                        },
                        r,
                    )
                } else {
                    (w, r)
                }
            },
        }
    }
}

// ---------------------------------------------------------------- invariant
pub open spec fn ids_unique(v: RuntimeView) -> bool {
    &&& v.sessions.no_duplicates()
    &&& v.queue.no_duplicates()
    &&& forall|i: int, k: int|
        0 <= i < v.objects.len() && 0 <= k < v.objects.len() && i != k ==> v.objects[i].handle
            != v.objects[k].handle
    &&& forall|i: int, k: int|
        0 <= i < v.buffers.len() && 0 <= k < v.buffers.len() && i != k ==> v.buffers[i].id
            != v.buffers[k].id
    &&& forall|i: int, k: int|
        0 <= i < v.tensors.len() && 0 <= k < v.tensors.len() && i != k ==> v.tensors[i].id
            != v.tensors[k].id
    &&& forall|i: int, k: int|
        0 <= i < v.jobs.len() && 0 <= k < v.jobs.len() && i != k ==> v.jobs[i].id != v.jobs[k].id
}

pub open spec fn ids_below_next(v: RuntimeView) -> bool {
    &&& forall|i: int| 0 <= i < v.sessions.len() ==> v.sessions[i] < v.next
    &&& forall|i: int| 0 <= i < v.objects.len() ==> v.objects[i].handle < v.next
    &&& forall|i: int| 0 <= i < v.buffers.len() ==> v.buffers[i].id < v.next
    &&& forall|i: int| 0 <= i < v.tensors.len() ==> v.tensors[i].id < v.next
    &&& forall|i: int| 0 <= i < v.jobs.len() ==> v.jobs[i].id < v.next
}

/// The buffer, tensor or job a handle names exists.
/// A job handle belongs to the session that submitted the job.
pub open spec fn object_resolves(v: RuntimeView, e: ObjEntry) -> bool {
    match e.object {
        Object::Buffer(b) => has_buffer(v, b),
        Object::Tensor(t) => has_tensor(v, t),
        Object::Job(j) => has_job(v, j) && job(v, j).owner == e.owner,
        Object::Model => true,
    }
}

pub open spec fn refs_resolve(v: RuntimeView) -> bool {
    &&& forall|i: int| 0 <= i < v.objects.len() ==> object_resolves(v, #[trigger] v.objects[i])
    &&& forall|i: int| 0 <= i < v.objects.len() ==> v.sessions.contains(#[trigger] v.objects[i].owner)
    &&& forall|i: int|
        0 <= i < v.tensors.len() ==> has_buffer(v, #[trigger] v.tensors[i].buffer) && 0
            <= v.tensors[i].start <= v.tensors[i].end <= buffer(v, v.tensors[i].buffer).data.len()
    &&& forall|i: int|
        0 <= i < v.jobs.len() ==> ((#[trigger] v.jobs[i]).resources is Some <==> (v.jobs[i].status is Queued
            || v.jobs[i].status is Running))
    &&& forall|i: int|
        0 <= i < v.jobs.len() ==> (#[trigger] v.jobs[i].resources matches Some(r) ==> has_tensor(v, r.input)
            && has_tensor(v, r.output))
    &&& forall|i: int|
        0 <= i < v.queue.len() ==> has_job(v, v.queue[i]) && job(v, v.queue[i]).status is Queued
}

pub open spec fn within_limits(v: RuntimeView) -> bool {
    &&& v.sessions.len() <= MAX_SESSIONS
    &&& forall|s: u64| #[trigger] owned(v, s).len() <= MAX_OBJECTS
    &&& forall|s: u64| #[trigger] owned_jobs(v, s).len() <= MAX_JOBS
    &&& live_bytes(v) <= GLOBAL_MEMORY
    &&& forall|s: u64| #[trigger] session_bytes(v, s) <= SESSION_MEMORY
    &&& forall|i: int| 0 <= i < v.buffers.len() ==> v.buffers[i].data.len() <= MAX_BUFFER
}

/// Every queued job is named by a handle.
pub open spec fn queued_named(v: RuntimeView) -> bool {
    forall|i: int|
        0 <= i < v.jobs.len() && (#[trigger] v.jobs[i]).status is Queued ==> job_named(
            v,
            v.jobs[i].id,
        )
}

/// A handle to a buffer or tensor belongs to the session that owns the buffer
/// behind it.
pub open spec fn object_owned(v: RuntimeView, e: ObjEntry) -> bool {
    match e.object {
        Object::Buffer(b) => buffer(v, b).owner == e.owner,
        Object::Tensor(t) => buffer(v, tensor(v, t).buffer).owner == e.owner,
        _ => true,
    }
}

/// A job holding resources uses buffers of its own session.
pub open spec fn job_owned(v: RuntimeView, j: JobRec) -> bool {
    j.resources matches Some(r) ==> buffer(v, tensor(v, r.input).buffer).owner == j.owner && buffer(
        v,
        tensor(v, r.output).buffer,
    ).owner == j.owner
}

/// Pins are exclusive: a job's input and output buffers differ, and no
/// buffer is pinned by two jobs at once.
pub open spec fn exclusive_pins(v: RuntimeView) -> bool {
    &&& forall|i: int|
        0 <= i < v.jobs.len() && (#[trigger] v.jobs[i]).resources is Some ==> tensor(
            v,
            v.jobs[i].resources->Some_0.input,
        ).buffer != tensor(v, v.jobs[i].resources->Some_0.output).buffer
    &&& forall|i: int, k: int, b: u64|
        0 <= i < v.jobs.len() && 0 <= k < v.jobs.len() && i != k && #[trigger] job_pins(
            v,
            v.jobs[i],
            b,
        ) ==> !#[trigger] job_pins(v, v.jobs[k], b)
}

/// Sessions hold only what is theirs, no queued job is left without a handle
/// and pins are exclusive.
pub open spec fn custody(v: RuntimeView) -> bool {
    &&& queued_named(v)
    &&& forall|i: int| 0 <= i < v.objects.len() ==> object_owned(v, #[trigger] v.objects[i])
    &&& forall|i: int| 0 <= i < v.jobs.len() ==> job_owned(v, #[trigger] v.jobs[i])
    &&& exclusive_pins(v)
}

/// Identifiers are unique and fresh, references resolve and limits hold.
pub open spec fn sound(v: RuntimeView) -> bool {
    &&& ids_unique(v)
    &&& ids_below_next(v)
    &&& refs_resolve(v)
    &&& within_limits(v)
}

/// A job records an error exactly when it ended other than by completing, and
/// a cancelled job records cancellation.
pub open spec fn status_error_agree(j: JobRec) -> bool {
    &&& (j.error is None <==> (j.status is Queued || j.status is Running || j.status is Completed))
    &&& (j.status is Cancelled ==> j.error == Some(Error::Cancelled))
}

/// Job records agree with their statuses, a running job that no handle names
/// is already flagged for cancellation, and every buffer and job belongs to an
/// identifier issued before.
pub open spec fn records(v: RuntimeView) -> bool {
    &&& forall|i: int| 0 <= i < v.jobs.len() ==> status_error_agree(#[trigger] v.jobs[i])
    &&& forall|i: int|
        0 <= i < v.jobs.len() && (#[trigger] v.jobs[i]).status is Running && !job_named(
            v,
            v.jobs[i].id,
        ) ==> v.jobs[i].cancelled
    &&& forall|i: int| 0 <= i < v.buffers.len() ==> (#[trigger] v.buffers[i]).owner < v.next
    &&& forall|i: int| 0 <= i < v.jobs.len() ==> (#[trigger] v.jobs[i]).owner < v.next
}

/// Nothing is left that reclamation would drop: every job, tensor and buffer
/// is retained.
pub open spec fn settled(v: RuntimeView) -> bool {
    &&& forall|i: int| 0 <= i < v.jobs.len() ==> job_kept(v, #[trigger] v.jobs[i])
    &&& forall|i: int| 0 <= i < v.tensors.len() ==> tensor_kept(v, v.jobs, #[trigger] v.tensors[i])
    &&& forall|i: int| 0 <= i < v.buffers.len() ==> buffer_kept(v, v.tensors, #[trigger] v.buffers[i])
}

/// What every reachable runtime state satisfies.
pub open spec fn runtime_inv(v: RuntimeView) -> bool {
    &&& sound(v)
    &&& custody(v)
    &&& records(v)
}

} // verus!
