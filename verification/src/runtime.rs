//! The session, handle, buffer, tensor and job state of the daemon. Every
//! operation is a deterministic step on this state; the worker that runs the
//! backend and the connection loops stand outside and call in.
use crate::backend::Backend;
use crate::codec::{le32, le64, put32, put64, put_bytes};
use crate::frame::FEATURES;
use crate::preserve::{
    disconnect_mid, lemma_add_buffer_inv, lemma_add_model_inv, lemma_add_tensor_inv,
    lemma_cancel_mid, lemma_close_mid, lemma_connect_inv, lemma_disconnect_mid,
    lemma_job_update_inv, lemma_queue_subset, lemma_reclaim_inv, lemma_shutdown_mid,
    lemma_submit_inv, lemma_with_data_inv, shutdown_mid,
};
use crate::request::Request;
use crate::model::{
    buffer, buffer_index, buffer_keep, buffer_owner_is, bytes_of, cancel_rec, error_number, fresh,
    has_buffer, has_job, has_object, has_tensor, hello_body, insert, job, job_index, job_input,
    job_keep, job_named, job_pins, kept_jobs, kept_tensors, live_bytes, lookup, object_index,
    object_resolves, other_session, owned, owned_job, owned_jobs, owner_is, owner_job_is, pinned,
    reclaim, runtime_inv, session_bytes, spec_alloc, spec_begin, spec_cancel, spec_close,
    spec_connect, spec_disconnect, spec_export, spec_finish, spec_import, spec_read, spec_request,
    spec_shutdown, spec_status, spec_submit, spec_tensor, spec_write, stats_body, tensor,
    tensor_index, tensor_keep, with_data, BufferView, JobRec, ObjEntry, Object, Resources,
    RuntimeView, TensorView,
};
use vstd::pervasive::VecAdditionalExecFns;
use crate::seqs::{
    lemma_bytes_filter, lemma_bytes_nonneg, lemma_bytes_push, lemma_filter_prefix, lemma_sweep_end,
    lemma_sweep_keep, lemma_sweep_start, sweep_state,
};
use crate::types::{
    shape_product, Error, JobStatus, TensorDesc, GLOBAL_MEMORY, MAX_BUFFER, MAX_DELAY_MS, MAX_JOBS,
    MAX_OBJECTS, MAX_RANK, MAX_SESSIONS, SESSION_MEMORY,
};
use std::collections::VecDeque;
use vstd::prelude::*;

verus! {

/// The bytes behind a buffer: inline bytes are writable, imported shared
/// snapshots are read-only.
pub enum Storage {
    Inline(Vec<u8>),
    Shared(Vec<u8>),
}

impl Storage {
    /// The bytes held.
    pub open spec fn data(&self) -> Seq<u8> {
        match self {
            Storage::Inline(b) => b@,
            Storage::Shared(b) => b@,
        }
    }

    /// The bytes held.
    pub fn bytes(&self) -> (r: &[u8])
        ensures
            r@ == self.data(),
    {
        match self {
            Storage::Inline(b) => b.as_slice(),
            Storage::Shared(b) => b.as_slice(),
        }
    }

    /// Whether the bytes may be overwritten; shared snapshots may not.
    pub fn writable(&self) -> (r: Result<(), Error>)
        ensures
            r is Ok <==> self is Inline,
            r matches Err(e) ==> e == Error::Permission,
    {
        match self {
            Storage::Inline(_) => Ok(()),
            Storage::Shared(_) => Err(Error::Permission),
        }
    }
}

struct BufferRec {
    id: u64,
    owner: u64,
    storage: Storage,
}

impl View for BufferRec {
    type V = BufferView;

    closed spec fn view(&self) -> BufferView {
        BufferView {
            id: self.id,
            owner: self.owner,
            data: self.storage.data(),
            shared: self.storage is Shared,
        }
    }
}

struct TensorRec {
    id: u64,
    buffer: u64,
    desc: TensorDesc,
    start: usize,
    end: usize,
}

impl View for TensorRec {
    type V = TensorView;

    closed spec fn view(&self) -> TensorView {
        TensorView {
            id: self.id,
            buffer: self.buffer,
            desc: self.desc@,
            start: self.start as int,
            end: self.end as int,
        }
    }
}

/// Counters reported to the daemon's owner.
#[derive(Debug, Clone, Copy, PartialEq, Eq, Structural)]
pub struct Metrics {
    pub sessions: usize,
    pub objects: usize,
    pub live_bytes: usize,
}

/// Work handed to the worker: the job, a snapshot of its input bytes and its
/// requested delay.
pub struct Ticket {
    pub job: u64,
    pub input: Vec<u8>,
    pub delay_ms: u32,
}

/// The runtime state shared by all sessions of one daemon.
pub struct Runtime {
    next: u64,
    stopping: bool,
    sessions: Vec<u64>,
    objects: Vec<ObjEntry>,
    buffers: Vec<BufferRec>,
    tensors: Vec<TensorRec>,
    jobs: Vec<JobRec>,
    queue: VecDeque<u64>,
}

impl View for Runtime {
    type V = RuntimeView;

    closed spec fn view(&self) -> RuntimeView {
        RuntimeView {
            next: self.next,
            stopping: self.stopping,
            sessions: self.sessions@,
            objects: self.objects@,
            buffers: self.buffers@.map_values(|b: BufferRec| b@),
            tensors: self.tensors@.map_values(|t: TensorRec| t@),
            jobs: self.jobs@,
            queue: self.queue@,
        }
    }
}

/// The payload of a result, by value.
pub open spec fn result_view(r: Result<Vec<u8>, Error>) -> Result<Seq<u8>, Error> {
    match r {
        Ok(b) => Ok(b@),
        Err(e) => Err(e),
    }
}

proof fn lemma_bytes_concat(a: Seq<BufferView>, b: Seq<BufferView>)
    ensures
        bytes_of(a + b) == bytes_of(a) + bytes_of(b),
    decreases b.len(),
{
    if b.len() == 0 {
        assert(a + b =~= a);
    } else {
        lemma_bytes_concat(a, b.drop_last());
        assert((a + b).drop_last() =~= a + b.drop_last());
    }
}

proof fn lemma_bytes_prefix(s: Seq<BufferView>, i: int, p: spec_fn(BufferView) -> bool)
    requires
        0 <= i <= s.len(),
    ensures
        bytes_of(s.subrange(0, i).filter(p)) <= bytes_of(s.filter(p)),
        bytes_of(s.subrange(0, i)) <= bytes_of(s),
{
    let a = s.subrange(0, i);
    let b = s.subrange(i, s.len() as int);
    assert(a + b =~= s);
    Seq::filter_distributes_over_add(a, b, p);
    lemma_bytes_concat(a.filter(p), b.filter(p));
    lemma_bytes_nonneg(b.filter(p));
    lemma_bytes_concat(a, b);
    lemma_bytes_nonneg(b);
}

impl Runtime {
    /// Well-formedness: the runtime invariant holds of the state, and nothing
    /// is left that reclamation would drop.
    pub open spec fn wf(&self) -> bool {
        runtime_inv(self@) && crate::model::settled(self@)
    }

    /// An empty runtime that has handed out no identifier yet.
    pub fn new() -> (rt: Self)
        ensures
            rt.wf(),
            rt@ == (RuntimeView {
                next: 1,
                stopping: false,
                sessions: Seq::empty(),
                objects: Seq::empty(),
                buffers: Seq::empty(),
                tensors: Seq::empty(),
                jobs: Seq::empty(),
                queue: Seq::empty(),
            }),
    {
        let rt = Runtime {
            next: 1,
            stopping: false,
            sessions: Vec::new(),
            objects: Vec::new(),
            buffers: Vec::new(),
            tensors: Vec::new(),
            jobs: Vec::new(),
            queue: VecDeque::new(),
        };
        proof {
            assert(rt@.buffers =~= Seq::<BufferView>::empty());
            assert(rt@.tensors =~= Seq::<TensorView>::empty());
            assert forall|s: u64| #[trigger] owned(rt@, s).len() <= MAX_OBJECTS by {
                crate::seqs::lemma_filter_empty(rt@.objects, owner_is(s));
            }
            assert forall|s: u64| #[trigger] session_bytes(rt@, s) <= SESSION_MEMORY by {
                crate::seqs::lemma_filter_empty(rt@.buffers, buffer_owner_is(s));
            }
        }
        rt
    }

    fn has_session(&self, owner: u64) -> (r: bool)
        ensures
            r == self@.sessions.contains(owner),
    {
        let mut i: usize = 0;
        while i < self.sessions.len()
            invariant
                0 <= i <= self.sessions@.len(),
                forall|k: int| 0 <= k < i ==> self.sessions@[k] != owner,
            decreases self.sessions@.len() - i,
        {
            if self.sessions[i] == owner {
                assert(self@.sessions[i as int] == owner);
                return true;
            }
            i = i + 1;
        }
        false
    }

    fn find_object(&self, owner: u64, h: u64) -> (r: Option<usize>)
        requires
            runtime_inv(self@),
        ensures
            match r {
                Some(i) => has_object(self@, owner, h) && i == object_index(self@, owner, h)
                    && i < self@.objects.len(),
                None => !has_object(self@, owner, h),
            },
    {
        let mut i: usize = 0;
        while i < self.objects.len()
            invariant
                0 <= i <= self.objects@.len(),
                runtime_inv(self@),
                forall|k: int|
                    0 <= k < i ==> !(self.objects@[k].owner == owner && self.objects@[k].handle
                        == h),
            decreases self.objects@.len() - i,
        {
            let e = self.objects[i];
            if e.owner == owner && e.handle == h {
                proof {
                    assert(has_object(self@, owner, h));
                    let k = object_index(self@, owner, h);
                    assert(self@.objects[k].handle == self@.objects[i as int].handle);
                    assert(k == i);
                }
                return Some(i);
            }
            i = i + 1;
        }
        None
    }

    fn find_buffer(&self, id: u64) -> (r: Option<usize>)
        requires
            runtime_inv(self@),
        ensures
            match r {
                Some(i) => has_buffer(self@, id) && i == buffer_index(self@, id) && i
                    < self@.buffers.len(),
                None => !has_buffer(self@, id),
            },
    {
        let mut i: usize = 0;
        while i < self.buffers.len()
            invariant
                0 <= i <= self.buffers@.len(),
                runtime_inv(self@),
                forall|k: int| 0 <= k < i ==> self@.buffers[k].id != id,
            decreases self.buffers@.len() - i,
        {
            if self.buffers[i].id == id {
                proof {
                    assert(self@.buffers[i as int].id == id);
                    let k = buffer_index(self@, id);
                    assert(self@.buffers[k].id == self@.buffers[i as int].id);
                    assert(k == i);
                }
                return Some(i);
            }
            i = i + 1;
        }
        None
    }

    fn find_tensor(&self, id: u64) -> (r: Option<usize>)
        requires
            runtime_inv(self@),
        ensures
            match r {
                Some(i) => has_tensor(self@, id) && i == tensor_index(self@, id) && i
                    < self@.tensors.len(),
                None => !has_tensor(self@, id),
            },
    {
        let mut i: usize = 0;
        while i < self.tensors.len()
            invariant
                0 <= i <= self.tensors@.len(),
                runtime_inv(self@),
                forall|k: int| 0 <= k < i ==> self@.tensors[k].id != id,
            decreases self.tensors@.len() - i,
        {
            if self.tensors[i].id == id {
                proof {
                    assert(self@.tensors[i as int].id == id);
                    let k = tensor_index(self@, id);
                    assert(self@.tensors[k].id == self@.tensors[i as int].id);
                    assert(k == i);
                }
                return Some(i);
            }
            i = i + 1;
        }
        None
    }

    fn find_job(&self, id: u64) -> (r: Option<usize>)
        requires
            runtime_inv(self@),
        ensures
            match r {
                Some(i) => has_job(self@, id) && i == job_index(self@, id) && i
                    < self@.jobs.len(),
                None => !has_job(self@, id),
            },
    {
        let mut i: usize = 0;
        while i < self.jobs.len()
            invariant
                0 <= i <= self.jobs@.len(),
                runtime_inv(self@),
                forall|k: int| 0 <= k < i ==> self@.jobs[k].id != id,
            decreases self.jobs@.len() - i,
        {
            if self.jobs[i].id == id {
                proof {
                    assert(self@.jobs[i as int].id == id);
                    let k = job_index(self@, id);
                    assert(self@.jobs[k].id == self@.jobs[i as int].id);
                    assert(k == i);
                }
                return Some(i);
            }
            i = i + 1;
        }
        None
    }

    /// Number of handles and of job handles held by session `owner`.
    fn count_owned(&self, owner: u64) -> (r: (usize, usize))
        ensures
            r.0 == owned(self@, owner).len(),
            r.1 == owned_jobs(self@, owner).len(),
    {
        let ghost p = owner_is(owner);
        let ghost q = owner_job_is(owner);
        let mut objects: usize = 0;
        let mut jobs: usize = 0;
        let mut i: usize = 0;
        proof {
            crate::seqs::lemma_filter_empty(self@.objects.subrange(0, 0), p);
            crate::seqs::lemma_filter_empty(self@.objects.subrange(0, 0), q);
        }
        while i < self.objects.len()
            invariant
                0 <= i <= self.objects@.len(),
                p == owner_is(owner),
                q == owner_job_is(owner),
                objects == self@.objects.subrange(0, i as int).filter(p).len(),
                jobs == self@.objects.subrange(0, i as int).filter(q).len(),
                objects <= i,
                jobs <= i,
            decreases self.objects@.len() - i,
        {
            proof {
                lemma_filter_prefix(self@.objects, i as int, p);
                lemma_filter_prefix(self@.objects, i as int, q);
            }
            let e = self.objects[i];
            if e.owner == owner {
                objects = objects + 1;
                if let Object::Job(_) = e.object {
                    jobs = jobs + 1;
                }
            }
            i = i + 1;
        }
        proof {
            assert(self@.objects.subrange(0, i as int) =~= self@.objects);
        }
        (objects, jobs)
    }

    /// Bytes retained across the daemon.
    fn total_bytes(&self) -> (r: usize)
        requires
            runtime_inv(self@),
        ensures
            r == live_bytes(self@),
    {
        let mut sum: usize = 0;
        let mut i: usize = 0;
        while i < self.buffers.len()
            invariant
                0 <= i <= self@.buffers.len(),
                self@.buffers.len() == self.buffers@.len(),
                sum == bytes_of(self@.buffers.subrange(0, i as int)),
                bytes_of(self@.buffers) <= GLOBAL_MEMORY,
            decreases self@.buffers.len() - i,
        {
            proof {
                assert(self@.buffers.subrange(0, i + 1) =~= self@.buffers.subrange(0, i as int).push(
                    self@.buffers[i as int],
                ));
                lemma_bytes_push(self@.buffers.subrange(0, i as int), self@.buffers[i as int]);
                lemma_bytes_prefix(self@.buffers, i + 1, |b: BufferView| true);
            }
            let n = self.buffers[i].storage.bytes().len();
            sum = sum + n;
            i = i + 1;
        }
        proof {
            assert(self@.buffers.subrange(0, i as int) =~= self@.buffers);
        }
        sum
    }

    /// Bytes retained for session `owner`.
    fn owner_bytes(&self, owner: u64) -> (r: usize)
        requires
            runtime_inv(self@),
        ensures
            r == session_bytes(self@, owner),
    {
        let ghost p = buffer_owner_is(owner);
        let mut sum: usize = 0;
        let mut i: usize = 0;
        proof {
            crate::seqs::lemma_filter_empty(self@.buffers.subrange(0, 0), p);
            assert(session_bytes(self@, owner) <= SESSION_MEMORY);
        }
        while i < self.buffers.len()
            invariant
                0 <= i <= self@.buffers.len(),
                self@.buffers.len() == self.buffers@.len(),
                p == buffer_owner_is(owner),
                sum == bytes_of(self@.buffers.subrange(0, i as int).filter(p)),
                bytes_of(self@.buffers.filter(p)) <= SESSION_MEMORY,
            decreases self@.buffers.len() - i,
        {
            proof {
                lemma_filter_prefix(self@.buffers, i as int, p);
                lemma_bytes_push(
                    self@.buffers.subrange(0, i as int).filter(p),
                    self@.buffers[i as int],
                );
                lemma_bytes_prefix(self@.buffers, i + 1, p);
            }
            if self.buffers[i].owner == owner {
                let n = self.buffers[i].storage.bytes().len();
                sum = sum + n;
            }
            i = i + 1;
        }
        proof {
            assert(self@.buffers.subrange(0, i as int) =~= self@.buffers);
        }
        sum
    }

    /// Counters for the daemon's owner.
    pub fn metrics(&self) -> (m: Metrics)
        requires
            self.wf(),
        ensures
            m.sessions == self@.sessions.len(),
            m.objects == self@.objects.len(),
            m.live_bytes == live_bytes(self@),
    {
        Metrics {
            sessions: self.sessions.len(),
            objects: self.objects.len(),
            live_bytes: self.total_bytes(),
        }
    }

    fn fresh(&mut self) -> (r: Result<u64, Error>)
        ensures
            r == fresh(old(self)@),
            r is Ok ==> final(self)@ == (RuntimeView {
                next: (old(self)@.next + 1) as u64,
                ..old(self)@
            }),
            r is Err ==> final(self)@ == old(self)@,
    {
        let id = self.next;
        match id.checked_add(1) {
            None => Err(Error::NoMemory),
            Some(n) => {
                self.next = n;
                Ok(id)
            },
        }
    }

    /// Adds a handle naming `object` to session `owner`.
    fn insert_object(&mut self, owner: u64, object: Object) -> (r: Result<Vec<u8>, Error>)
        ensures
            (final(self)@, result_view(r)) == insert(old(self)@, owner, object),
    {
        let (n, _) = self.count_owned(owner);
        if n >= MAX_OBJECTS {
            return Err(Error::Busy);
        }
        let h = self.fresh()?;
        self.objects.push(ObjEntry { owner, handle: h, object });
        let mut out: Vec<u8> = Vec::new();
        put64(&mut out, h);
        proof {
            assert(out@ =~= le64(h));
            assert(self@ =~= insert(old(self)@, owner, object).0);
        }
        Ok(out)
    }

    /// Opens a session and returns its identifier.
    pub fn connect(&mut self) -> (r: Result<u64, Error>)
        requires
            old(self).wf(),
        ensures
            final(self).wf(),
            (final(self)@, r) == spec_connect(old(self)@),
    {
        proof {
            crate::settle::lemma_settled_connect(self@);
        }
        if self.stopping {
            return Err(Error::Disconnected);
        }
        if self.sessions.len() >= MAX_SESSIONS {
            return Err(Error::Busy);
        }
        let id = self.fresh()?;
        self.sessions.push(id);
        proof {
            assert(self@ =~= spec_connect(old(self)@).0);
            lemma_connect_inv(old(self)@);
        }
        Ok(id)
    }

    /// The object that `owner` names by `h`.
    fn object(&self, owner: u64, h: u64) -> (r: Result<Object, Error>)
        requires
            runtime_inv(self@),
        ensures
            r == (if !self@.sessions.contains(owner) {
                Err(Error::Disconnected)
            } else {
                match lookup(self@, owner, h) {
                    Some(o) => Ok(o),
                    None => Err(Error::Invalid),
                }
            }),
    {
        if !self.has_session(owner) {
            return Err(Error::Disconnected);
        }
        match self.find_object(owner, h) {
            Some(i) => Ok(self.objects[i].object),
            None => Err(Error::Invalid),
        }
    }

    /// Whether an accepted, unfinished job pins buffer `b`.
    fn is_pinned(&self, b: u64) -> (r: bool)
        requires
            runtime_inv(self@),
        ensures
            r == pinned(self@, b),
    {
        let mut k: usize = 0;
        while k < self.jobs.len()
            invariant
                runtime_inv(self@),
                0 <= k <= self@.jobs.len(),
                forall|i: int| 0 <= i < k ==> !job_pins(self@, #[trigger] self@.jobs[i], b),
            decreases self@.jobs.len() - k,
        {
            let j = self.jobs[k];
            if let Some(res) = j.resources {
                proof {
                    assert(self@.jobs[k as int].resources == Some(res));
                }
                let ti = self.find_tensor(res.input);
                let to = self.find_tensor(res.output);
                let (ti, to) = match (ti, to) {
                    (Some(a), Some(c)) => (a, c),
                    _ => {
                        proof {
                            assert(false);
                        }
                        return false;
                    },
                };
                if self.tensors[ti].buffer == b || self.tensors[to].buffer == b {
                    proof {
                        assert(job_pins(self@, self@.jobs[k as int], b));
                    }
                    return true;
                }
            }
            k = k + 1;
        }
        false
    }

    fn hello(&self) -> (r: Vec<u8>)
        ensures
            r@ == hello_body(),
    {
        let mut out: Vec<u8> = Vec::new();
        put64(&mut out, FEATURES);
        put32(&mut out, MAX_BUFFER as u32);
        put32(&mut out, MAX_RANK as u32);
        proof {
            assert(out@ =~= hello_body());
        }
        out
    }

    fn stats(&self, owner: u64) -> (r: Vec<u8>)
        requires
            runtime_inv(self@),
        ensures
            r@ == stats_body(self@, owner),
    {
        let (objects, jobs) = self.count_owned(owner);
        let bytes = self.owner_bytes(owner);
        let mut out: Vec<u8> = Vec::new();
        put32(&mut out, objects as u32);
        put64(&mut out, bytes as u64);
        put32(&mut out, jobs as u32);
        proof {
            assert(out@ =~= stats_body(self@, owner));
        }
        out
    }

    fn model_open<B: Backend>(&mut self, owner: u64, name: &str, backend: &B) -> (r: Result<
        Vec<u8>,
        Error,
    >)
        requires
            runtime_inv(old(self)@),
            old(self)@.sessions.contains(owner),
        ensures
            runtime_inv(final(self)@),
            (final(self)@, result_view(r)) == (if !backend.spec_supports(name@) {
                (old(self)@, Err(Error::NoModel))
            } else {
                insert(old(self)@, owner, Object::Model)
            }),
    {
        if !backend.supports(name) {
            return Err(Error::NoModel);
        }
        let r = self.insert_object(owner, Object::Model);
        proof {
            if r is Ok {
                lemma_add_model_inv(old(self)@, owner);
            }
        }
        r
    }

    fn buffer_alloc(&mut self, owner: u64, size: u32) -> (r: Result<Vec<u8>, Error>)
        requires
            runtime_inv(old(self)@),
            old(self)@.sessions.contains(owner),
        ensures
            runtime_inv(final(self)@),
            (final(self)@, result_view(r)) == spec_alloc(old(self)@, owner, size),
    {
        let n = size as usize;
        if size == 0 || n > MAX_BUFFER {
            return Err(Error::Invalid);
        }
        let sb = self.owner_bytes(owner);
        let gb = self.total_bytes();
        if sb + n > SESSION_MEMORY || gb + n > GLOBAL_MEMORY {
            return Err(Error::NoMemory);
        }
        let mut data: Vec<u8> = Vec::with_capacity(n);
        let mut i: usize = 0;
        while i < n
            invariant
                0 <= i <= n,
                data@ == Seq::new(i as nat, |k: int| 0u8),
            decreases n - i,
        {
            data.push(0);
            assert(data@ =~= Seq::new((i + 1) as nat, |k: int| 0u8));
            i = i + 1;
        }
        let id = self.next;
        let ghost v = self@;
        let r = self.insert_object(owner, Object::Buffer(id));
        if r.is_ok() {
            let ghost w = self@;
            self.buffers.push(BufferRec { id, owner, storage: Storage::Inline(data) });
            proof {
                let b = BufferView { id, owner, data: data@, shared: false };
                assert(self@ =~= RuntimeView { buffers: w.buffers.push(b), ..w });
                lemma_add_buffer_inv(v, owner, b);
            }
        }
        r
    }

    fn write(&mut self, owner: u64, h: u64, data: Vec<u8>) -> (r: Result<Vec<u8>, Error>)
        requires
            runtime_inv(old(self)@),
            old(self)@.sessions.contains(owner),
        ensures
            runtime_inv(final(self)@),
            (final(self)@, result_view(r)) == spec_write(old(self)@, owner, h, data@),
    {
        let b = match self.object(owner, h)? {
            Object::Buffer(b) => b,
            _ => {
                return Err(Error::Invalid);
            },
        };
        proof {
            assert(object_resolves(self@, self@.objects[object_index(self@, owner, h)]));
        }
        let bi = match self.find_buffer(b) {
            Some(i) => i,
            None => {
                return Err(Error::Invalid);
            },
        };
        if self.is_pinned(b) {
            return Err(Error::Busy);
        }
        if self.buffers[bi].storage.bytes().len() != data.len() {
            return Err(Error::Invalid);
        }
        self.buffers[bi].storage.writable()?;
        let ghost v = self@;
        let rec = BufferRec { id: self.buffers[bi].id, owner: self.buffers[bi].owner, storage: Storage::Inline(data) };
        self.buffers.set(bi, rec);
        proof {
            assert(self@ =~= with_data(v, b, data@));
            lemma_with_data_inv(v, b, data@);
        }
        Ok(Vec::new())
    }

    fn read(&self, owner: u64, h: u64) -> (r: Result<Vec<u8>, Error>)
        requires
            runtime_inv(self@),
            self@.sessions.contains(owner),
        ensures
            (self@, result_view(r)) == spec_read(self@, owner, h),
    {
        let b = match self.object(owner, h)? {
            Object::Buffer(b) => b,
            _ => {
                return Err(Error::Invalid);
            },
        };
        proof {
            assert(object_resolves(self@, self@.objects[object_index(self@, owner, h)]));
        }
        let bi = match self.find_buffer(b) {
            Some(i) => i,
            None => {
                return Err(Error::Invalid);
            },
        };
        if self.is_pinned(b) {
            return Err(Error::Busy);
        }
        Ok(vstd::slice::slice_to_vec(self.buffers[bi].storage.bytes()))
    }

    fn tensor_create(&mut self, owner: u64, h: u64, desc: TensorDesc) -> (r: Result<Vec<u8>, Error>)
        requires
            runtime_inv(old(self)@),
            old(self)@.sessions.contains(owner),
        ensures
            runtime_inv(final(self)@),
            (final(self)@, result_view(r)) == spec_tensor(old(self)@, owner, h, desc@),
    {
        let b = match self.object(owner, h)? {
            Object::Buffer(b) => b,
            _ => {
                return Err(Error::Invalid);
            },
        };
        proof {
            assert(object_resolves(self@, self@.objects[object_index(self@, owner, h)]));
        }
        let bi = match self.find_buffer(b) {
            Some(i) => i,
            None => {
                return Err(Error::Invalid);
            },
        };
        let size = self.buffers[bi].storage.bytes().len();
        let range = desc.extent(size)?;
        let id = self.next;
        let ghost v = self@;
        let r = self.insert_object(owner, Object::Tensor(id));
        if r.is_ok() {
            let ghost w = self@;
            let ghost dv = desc@;
            self.tensors.push(TensorRec { id, buffer: b, desc, start: range.start, end: range.end });
            proof {
                let t = TensorView {
                    id,
                    buffer: b,
                    desc: dv,
                    start: dv.offset as int,
                    end: dv.offset + shape_product(dv.shape),
                };
                assert(self@ =~= RuntimeView { tensors: w.tensors.push(t), ..w });
                crate::types::lemma_product_positive(dv.shape);
                lemma_add_tensor_inv(v, owner, t);
            }
        }
        r
    }

    fn job_status(&self, owner: u64, h: u64) -> (r: Result<Vec<u8>, Error>)
        requires
            runtime_inv(self@),
            self@.sessions.contains(owner),
        ensures
            (self@, result_view(r)) == spec_status(self@, owner, h),
    {
        let j = match self.object(owner, h)? {
            Object::Job(j) => j,
            _ => {
                return Err(Error::Invalid);
            },
        };
        proof {
            assert(object_resolves(self@, self@.objects[object_index(self@, owner, h)]));
        }
        let ji = match self.find_job(j) {
            Some(i) => i,
            None => {
                return Err(Error::Invalid);
            },
        };
        let rec = self.jobs[ji];
        let mut out: Vec<u8> = Vec::new();
        put32(&mut out, rec.status.code());
        let e: u32 = match rec.error {
            Some(e) => e.code() as u32,
            None => 0,
        };
        put32(&mut out, e);
        proof {
            assert(out@ =~= le32(job(self@, j).status.to_code()) + le32(error_number(job(self@, j).error)));
        }
        Ok(out)
    }

    /// Whether some handle names `o`.
    fn names(&self, o: Object) -> (r: bool)
        ensures
            r == exists|i: int| 0 <= i < self@.objects.len() && self@.objects[i].object == o,
    {
        let mut i: usize = 0;
        while i < self.objects.len()
            invariant
                0 <= i <= self@.objects.len(),
                forall|k: int| 0 <= k < i ==> self@.objects[k].object != o,
            decreases self@.objects.len() - i,
        {
            if self.objects[i].object == o {
                assert(self@.objects[i as int].object == o);
                return true;
            }
            i = i + 1;
        }
        false
    }

    /// Whether a job holds tensor `id` as input or output.
    fn job_holds(&self, id: u64) -> (r: bool)
        ensures
            r == exists|k: int|
                0 <= k < self@.jobs.len() && (#[trigger] self@.jobs[k].resources matches Some(r) && (
                r.input == id || r.output == id)),
    {
        let mut k: usize = 0;
        while k < self.jobs.len()
            invariant
                0 <= k <= self@.jobs.len(),
                forall|m: int|
                    0 <= m < k ==> !(#[trigger] self@.jobs[m].resources matches Some(r) && (r.input
                        == id || r.output == id)),
            decreases self@.jobs.len() - k,
        {
            if let Some(res) = self.jobs[k].resources {
                if res.input == id || res.output == id {
                    assert(self@.jobs[k as int].resources == Some(res));
                    return true;
                }
            }
            k = k + 1;
        }
        false
    }

    /// Whether a tensor views buffer `id`.
    fn views_buffer(&self, id: u64) -> (r: bool)
        ensures
            r == exists|k: int| 0 <= k < self@.tensors.len() && self@.tensors[k].buffer == id,
    {
        let mut k: usize = 0;
        while k < self.tensors.len()
            invariant
                0 <= k <= self@.tensors.len(),
                forall|m: int| 0 <= m < k ==> self@.tensors[m].buffer != id,
            decreases self@.tensors.len() - k,
        {
            if self.tensors[k].buffer == id {
                assert(self@.tensors[k as int].buffer == id);
                return true;
            }
            k = k + 1;
        }
        false
    }

    /// Drops the jobs, tensors and buffers that nothing retains.
    fn reclaim(&mut self)
        ensures
            final(self)@ == reclaim(old(self)@),
    {
        let ghost v = self@;
        // jobs
        let ghost p = job_keep(v);
        let mut i: usize = 0;
        let ghost mut k: int = 0;
        proof {
            lemma_sweep_start(v.jobs, p);
        }
        while i < self.jobs.len()
            invariant
                p == job_keep(v),
                sweep_state(self@.jobs, v.jobs, i as int, k, p),
                self@ == (RuntimeView { jobs: self@.jobs, ..v }),
            decreases self@.jobs.len() - i,
        {
            proof {
                lemma_sweep_keep(self@.jobs, v.jobs, i as int, k, p);
            }
            let j = self.jobs[i];
            let keep = self.names(Object::Job(j.id)) || j.status == JobStatus::Queued || j.status
                == JobStatus::Running;
            if keep {
                i = i + 1;
            } else {
                self.jobs.remove(i);
            }
            proof {
                k = k + 1;
            }
        }
        proof {
            lemma_sweep_end(self@.jobs, v.jobs, i as int, k, p);
        }
        // tensors
        let ghost v1 = self@;
        let ghost p = tensor_keep(v, kept_jobs(v));
        let mut i: usize = 0;
        let ghost mut k: int = 0;
        proof {
            lemma_sweep_start(v.tensors, p);
        }
        while i < self.tensors.len()
            invariant
                p == tensor_keep(v, kept_jobs(v)),
                v1 == (RuntimeView { jobs: kept_jobs(v), ..v }),
                sweep_state(self@.tensors, v.tensors, i as int, k, p),
                self@ == (RuntimeView { tensors: self@.tensors, ..v1 }),
            decreases self@.tensors.len() - i,
        {
            proof {
                lemma_sweep_keep(self@.tensors, v.tensors, i as int, k, p);
            }
            let id = self.tensors[i].id;
            let keep = self.names(Object::Tensor(id)) || self.job_holds(id);
            if keep {
                i = i + 1;
            } else {
                let ghost before = self@.tensors;
                self.tensors.remove(i);
                assert(self@.tensors =~= before.remove(i as int));
            }
            proof {
                k = k + 1;
            }
        }
        proof {
            lemma_sweep_end(self@.tensors, v.tensors, i as int, k, p);
        }
        // buffers
        let ghost v2 = self@;
        let ghost p = buffer_keep(v, kept_tensors(v));
        let mut i: usize = 0;
        let ghost mut k: int = 0;
        proof {
            lemma_sweep_start(v.buffers, p);
        }
        while i < self.buffers.len()
            invariant
                p == buffer_keep(v, kept_tensors(v)),
                v2 == (RuntimeView { jobs: kept_jobs(v), tensors: kept_tensors(v), ..v }),
                sweep_state(self@.buffers, v.buffers, i as int, k, p),
                self@ == (RuntimeView { buffers: self@.buffers, ..v2 }),
            decreases self@.buffers.len() - i,
        {
            proof {
                lemma_sweep_keep(self@.buffers, v.buffers, i as int, k, p);
            }
            let id = self.buffers[i].id;
            let named = self.names(Object::Buffer(id));
            let viewed = self.views_buffer(id);
            let keep = named || viewed;
            proof {
                assert(self@.tensors == kept_tensors(v));
                assert(self@.objects == v.objects);
                assert(named == crate::model::buffer_named(v, id));
                assert(self@.buffers[i as int].id == id);
                assert(p(self@.buffers[i as int]) == keep);
            }
            if keep {
                i = i + 1;
            } else {
                let ghost before = self@.buffers;
                self.buffers.remove(i);
                assert(self@.buffers =~= before.remove(i as int));
            }
            proof {
                k = k + 1;
            }
        }
        proof {
            lemma_sweep_end(self@.buffers, v.buffers, i as int, k, p);
        }
    }

    fn submit<B: Backend>(
        &mut self,
        owner: u64,
        model: u64,
        input: u64,
        output: u64,
        delay_ms: u32,
        backend: &B,
    ) -> (r: Result<Vec<u8>, Error>)
        requires
            runtime_inv(old(self)@),
            old(self)@.sessions.contains(owner),
        ensures
            runtime_inv(final(self)@),
            (final(self)@, result_view(r)) == spec_submit(
                old(self)@,
                owner,
                model,
                input,
                output,
                delay_ms,
                *backend,
            ),
    {
        if delay_ms > MAX_DELAY_MS {
            return Err(Error::Invalid);
        }
        match self.object(owner, model)? {
            Object::Model => {},
            _ => {
                return Err(Error::Invalid);
            },
        }
        let ti = match self.object(owner, input)? {
            Object::Tensor(t) => t,
            _ => {
                return Err(Error::Invalid);
            },
        };
        proof {
            assert(object_resolves(self@, self@.objects[object_index(self@, owner, input)]));
        }
        let to = match self.object(owner, output)? {
            Object::Tensor(t) => t,
            _ => {
                return Err(Error::Invalid);
            },
        };
        proof {
            assert(object_resolves(self@, self@.objects[object_index(self@, owner, output)]));
        }
        let (tii, toi) = match (self.find_tensor(ti), self.find_tensor(to)) {
            (Some(a), Some(b)) => (a, b),
            _ => {
                return Err(Error::Invalid);
            },
        };
        backend.validate(&self.tensors[tii].desc, &self.tensors[toi].desc, delay_ms)?;
        let bi = self.tensors[tii].buffer;
        let bo = self.tensors[toi].buffer;
        if bi == bo {
            return Err(Error::Invalid);
        }
        let (n, nj) = self.count_owned(owner);
        if n >= MAX_OBJECTS || nj >= MAX_JOBS {
            return Err(Error::Busy);
        }
        if self.is_pinned(bi) || self.is_pinned(bo) {
            return Err(Error::Busy);
        }
        proof {
            assert(has_buffer(self@, tensor(self@, to).buffer));
        }
        let boi = match self.find_buffer(bo) {
            Some(i) => i,
            None => {
                return Err(Error::Invalid);
            },
        };
        self.buffers[boi].storage.writable()?;
        let ghost v = self@;
        let id = self.fresh()?;
        self.objects.push(ObjEntry { owner, handle: id, object: Object::Job(id) });
        self.jobs.push(
            JobRec {
                id,
                owner,
                delay_ms,
                status: JobStatus::Queued,
                error: None,
                resources: Some(Resources { input: ti, output: to }),
                cancelled: false,
            },
        );
        self.queue.push_back(id);
        let mut out: Vec<u8> = Vec::new();
        put64(&mut out, id);
        proof {
            lemma_submit_inv(v, owner, ti, to, delay_ms);
            assert(out@ =~= le64(id));
        }
        Ok(out)
    }

    /// Cancels job `id`: terminal jobs are unchanged, a queued job becomes
    /// cancelled and leaves the queue, a running job is flagged.
    fn cancel_job(&mut self, id: u64)
        requires
            runtime_inv(old(self)@),
            has_job(old(self)@, id),
        ensures
            runtime_inv(final(self)@),
            final(self)@ == reclaim(
                RuntimeView {
                    jobs: old(self)@.jobs.update(
                        job_index(old(self)@, id),
                        cancel_rec(old(self)@.jobs[job_index(old(self)@, id)]),
                    ),
                    queue: old(self)@.queue.filter(|q: u64| q != id),
                    ..old(self)@
                },
            ),
    {
        let ghost v = self@;
        let ji = match self.find_job(id) {
            Some(i) => i,
            None => {
                return;
            },
        };
        let j = self.jobs[ji];
        let c = cancel_one(j);
        self.jobs.set(ji, c);
        self.drop_queued(id);
        proof {
            lemma_cancel_mid(v, id);
        }
        self.reclaim();
        proof {
            lemma_reclaim_inv(RuntimeView {
                jobs: v.jobs.update(job_index(v, id), cancel_rec(v.jobs[job_index(v, id)])),
                queue: v.queue.filter(|q: u64| q != id),
                ..v
            });
        }
    }

    /// Removes `id` from the queue.
    fn drop_queued(&mut self, id: u64)
        ensures
            final(self)@ == (RuntimeView {
                queue: old(self)@.queue.filter(|q: u64| q != id),
                ..old(self)@
            }),
    {
        let ghost v = self@;
        let ghost p = |q: u64| q != id;
        let mut i: usize = 0;
        let ghost mut k: int = 0;
        proof {
            lemma_sweep_start(v.queue, p);
        }
        while i < self.queue.len()
            invariant
                p == (|q: u64| q != id),
                sweep_state(self@.queue, v.queue, i as int, k, p),
                self@ == (RuntimeView { queue: self@.queue, ..v }),
            decreases self@.queue.len() - i,
        {
            proof {
                lemma_sweep_keep(self@.queue, v.queue, i as int, k, p);
            }
            if self.queue[i] != id {
                i = i + 1;
            } else {
                self.queue.remove(i);
            }
            proof {
                k = k + 1;
            }
        }
        proof {
            lemma_sweep_end(self@.queue, v.queue, i as int, k, p);
        }
    }

    fn job_cancel(&mut self, owner: u64, h: u64) -> (r: Result<Vec<u8>, Error>)
        requires
            runtime_inv(old(self)@),
            old(self)@.sessions.contains(owner),
        ensures
            runtime_inv(final(self)@),
            (final(self)@, result_view(r)) == spec_cancel(old(self)@, owner, h),
    {
        let j = match self.object(owner, h)? {
            Object::Job(j) => j,
            _ => {
                return Err(Error::Invalid);
            },
        };
        proof {
            assert(object_resolves(self@, self@.objects[object_index(self@, owner, h)]));
        }
        self.cancel_job(j);
        Ok(Vec::new())
    }

    fn close(&mut self, owner: u64, h: u64, request: &Request) -> (r: Result<Vec<u8>, Error>)
        requires
            runtime_inv(old(self)@),
            old(self)@.sessions.contains(owner),
        ensures
            runtime_inv(final(self)@),
            (final(self)@, result_view(r)) == spec_close(old(self)@, owner, h, request@),
    {
        let o = self.object(owner, h)?;
        let valid = match (request, o) {
            (Request::ModelClose(_), Object::Model) => true,
            (Request::BufferFree(_), Object::Buffer(_)) => true,
            (Request::TensorRelease(_), Object::Tensor(_)) => true,
            (Request::JobRelease(_), Object::Job(_)) => true,
            _ => false,
        };
        if !valid {
            return Err(Error::Invalid);
        }
        proof {
            assert(object_resolves(self@, self@.objects[object_index(self@, owner, h)]));
        }
        if let Object::Job(j) = o {
            match self.find_job(j) {
                Some(ji) => {
                    if !self.jobs[ji].status.terminal() {
                        return Err(Error::Busy);
                    }
                },
                None => {},
            }
        }
        let oi = match self.find_object(owner, h) {
            Some(i) => i,
            None => {
                return Err(Error::Invalid);
            },
        };
        let ghost v = self@;
        self.objects.remove(oi);
        proof {
            lemma_close_mid(v, owner, h);
        }
        self.reclaim();
        proof {
            lemma_reclaim_inv(RuntimeView { objects: v.objects.remove(object_index(v, owner, h)), ..v });
        }
        Ok(Vec::new())
    }

    /// Serves one request of session `owner`.
    pub fn request<B: Backend>(&mut self, owner: u64, request: Request, backend: &B) -> (r: Result<
        Vec<u8>,
        Error,
    >)
        requires
            old(self).wf(),
        ensures
            final(self).wf(),
            (final(self)@, result_view(r)) == spec_request(old(self)@, owner, request@, *backend),
    {
        proof {
            crate::settle::lemma_settled_request(self@, owner, request@, *backend);
        }
        self.dispatch(owner, request, backend)
    }

    /// Runs one request of session `owner` against the state.
    #[verifier::spinoff_prover]
    #[verifier::rlimit(40)]
    fn dispatch<B: Backend>(&mut self, owner: u64, request: Request, backend: &B) -> (r: Result<
        Vec<u8>,
        Error,
    >)
        requires
            runtime_inv(old(self)@),
        ensures
            runtime_inv(final(self)@),
            (final(self)@, result_view(r)) == spec_request(old(self)@, owner, request@, *backend),
    {
        if !self.has_session(owner) {
            return Err(Error::Disconnected);
        }
        match request {
            Request::Hello => Ok(self.hello()),
            Request::Stats => Ok(self.stats(owner)),
            Request::ModelOpen(name) => self.model_open(owner, name.as_str(), backend),
            Request::BufferAlloc(size) => self.buffer_alloc(owner, size),
            Request::BufferWrite { buffer, data } => self.write(owner, buffer, data),
            Request::BufferRead(h) => self.read(owner, h),
            Request::TensorCreate { buffer, desc } => self.tensor_create(owner, buffer, desc),
            Request::Submit { model, input, output, delay_ms } => self.submit(
                owner,
                model,
                input,
                output,
                delay_ms,
                backend,
            ),
            Request::JobStatus(h) => self.job_status(owner, h),
            Request::JobCancel(h) => self.job_cancel(owner, h),
            Request::ModelClose(h) => self.close(owner, h, &Request::ModelClose(h)),
            Request::BufferFree(h) => self.close(owner, h, &Request::BufferFree(h)),
            Request::TensorRelease(h) => self.close(owner, h, &Request::TensorRelease(h)),
            Request::JobRelease(h) => self.close(owner, h, &Request::JobRelease(h)),
        }
    }

    /// Whether session `owner` holds a handle naming `o`.
    fn owns(&self, owner: u64, o: Object) -> (r: bool)
        ensures
            r == exists|i: int|
                0 <= i < self@.objects.len() && self@.objects[i].owner == owner
                    && self@.objects[i].object == o,
    {
        let mut i: usize = 0;
        while i < self.objects.len()
            invariant
                0 <= i <= self@.objects.len(),
                forall|k: int|
                    0 <= k < i ==> !(self@.objects[k].owner == owner && self@.objects[k].object
                        == o),
            decreases self@.objects.len() - i,
        {
            if self.objects[i].owner == owner && self.objects[i].object == o {
                assert(self@.objects[i as int].owner == owner && self@.objects[i as int].object
                    == o);
                return true;
            }
            i = i + 1;
        }
        false
    }

    /// Session `owner` goes away: its handles are dropped, the jobs it names are
    /// cancelled and its queued work is removed.
    pub fn disconnect(&mut self, owner: u64)
        requires
            old(self).wf(),
        ensures
            final(self).wf(),
            final(self)@ == spec_disconnect(old(self)@, owner),
    {
        proof {
            crate::settle::lemma_settled_disconnect(self@, owner);
        }
        if !self.has_session(owner) {
            return;
        }
        let ghost v = self@;
        // queued work of the session
        let ghost p = |q: u64| job(v, q).owner != owner;
        let mut i: usize = 0;
        let ghost mut k: int = 0;
        proof {
            lemma_sweep_start(v.queue, p);
        }
        while i < self.queue.len()
            invariant
                runtime_inv(self@),
                p == (|q: u64| job(v, q).owner != owner),
                sweep_state(self@.queue, v.queue, i as int, k, p),
                self@ == (RuntimeView { queue: self@.queue, ..v }),
                runtime_inv(v),
            decreases self@.queue.len() - i,
        {
            proof {
                lemma_sweep_keep(self@.queue, v.queue, i as int, k, p);
                assert(has_job(v, self@.queue[i as int]));
            }
            let q = self.queue[i];
            let keep = match self.find_job(q) {
                Some(ji) => self.jobs[ji].owner != owner,
                None => true,
            };
            if keep {
                i = i + 1;
            } else {
                let ghost before = self@;
                self.queue.remove(i);
                proof {
                    lemma_queue_subset(before, self@.queue);
                }
            }
            proof {
                k = k + 1;
            }
        }
        proof {
            lemma_sweep_end(self@.queue, v.queue, i as int, k, p);
        }
        // jobs the session names
        let ghost v1 = self@;
        let mut k: usize = 0;
        while k < self.jobs.len()
            invariant
                0 <= k <= self@.jobs.len(),
                self@.jobs.len() == v1.jobs.len(),
                v1 == (RuntimeView { queue: v1.queue, ..v }),
                self@ == (RuntimeView { jobs: self@.jobs, ..v1 }),
                forall|m: int|
                    0 <= m < k ==> #[trigger] self@.jobs[m] == (if owned_job(
                        v,
                        owner,
                        v1.jobs[m].id,
                    ) {
                        cancel_rec(v1.jobs[m])
                    } else {
                        v1.jobs[m]
                    }),
                forall|m: int| k <= m < self@.jobs.len() ==> #[trigger] self@.jobs[m] == v1.jobs[m],
            decreases self@.jobs.len() - k,
        {
            let j = self.jobs[k];
            if self.owns(owner, Object::Job(j.id)) {
                self.jobs.set(k, cancel_one(j));
            }
            k = k + 1;
        }
        // handles of the session
        let ghost v2 = self@;
        let ghost p = |e: ObjEntry| e.owner != owner;
        let mut i: usize = 0;
        let ghost mut m: int = 0;
        proof {
            lemma_sweep_start(v.objects, p);
        }
        while i < self.objects.len()
            invariant
                p == (|e: ObjEntry| e.owner != owner),
                sweep_state(self@.objects, v.objects, i as int, m, p),
                self@ == (RuntimeView { objects: self@.objects, ..v2 }),
            decreases self@.objects.len() - i,
        {
            proof {
                lemma_sweep_keep(self@.objects, v.objects, i as int, m, p);
            }
            if self.objects[i].owner != owner {
                i = i + 1;
            } else {
                self.objects.remove(i);
            }
            proof {
                m = m + 1;
            }
        }
        proof {
            lemma_sweep_end(self@.objects, v.objects, i as int, m, p);
        }
        // the session itself
        let ghost v3 = self@;
        let ghost p = other_session(owner);
        let mut i: usize = 0;
        let ghost mut m: int = 0;
        proof {
            lemma_sweep_start(v.sessions, p);
        }
        while i < self.sessions.len()
            invariant
                p == other_session(owner),
                sweep_state(self@.sessions, v.sessions, i as int, m, p),
                self@ == (RuntimeView { sessions: self@.sessions, ..v3 }),
            decreases self@.sessions.len() - i,
        {
            proof {
                lemma_sweep_keep(self@.sessions, v.sessions, i as int, m, p);
            }
            if self.sessions[i] != owner {
                i = i + 1;
            } else {
                self.sessions.remove(i);
            }
            proof {
                m = m + 1;
            }
        }
        proof {
            lemma_sweep_end(self@.sessions, v.sessions, i as int, m, p);
            assert(self@ =~= disconnect_mid(v, owner));
            lemma_disconnect_mid(v, owner);
        }
        self.reclaim();
        proof {
            lemma_reclaim_inv(disconnect_mid(v, owner));
        }
    }

    /// The daemon stops: every named job is cancelled and all sessions and
    /// queued work are dropped.
    pub fn shutdown(&mut self)
        requires
            old(self).wf(),
        ensures
            final(self).wf(),
            final(self)@ == spec_shutdown(old(self)@),
    {
        proof {
            crate::settle::lemma_settled_shutdown(self@);
        }
        let ghost v = self@;
        let mut k: usize = 0;
        while k < self.jobs.len()
            invariant
                0 <= k <= self@.jobs.len(),
                self@.jobs.len() == v.jobs.len(),
                self@ == (RuntimeView { jobs: self@.jobs, ..v }),
                forall|m: int|
                    0 <= m < k ==> #[trigger] self@.jobs[m] == (if job_named(v, v.jobs[m].id) {
                        cancel_rec(v.jobs[m])
                    } else {
                        v.jobs[m]
                    }),
                forall|m: int| k <= m < self@.jobs.len() ==> #[trigger] self@.jobs[m] == v.jobs[m],
            decreases self@.jobs.len() - k,
        {
            let j = self.jobs[k];
            if self.names(Object::Job(j.id)) {
                self.jobs.set(k, cancel_one(j));
            }
            k = k + 1;
        }
        self.stopping = true;
        self.queue.clear();
        self.sessions.clear();
        self.objects.clear();
        proof {
            assert(self@ =~= shutdown_mid(v));
            lemma_shutdown_mid(v);
        }
        self.reclaim();
        proof {
            lemma_reclaim_inv(shutdown_mid(v));
        }
    }

    /// Whether the daemon is shutting down.
    pub fn stopping(&self) -> (r: bool)
        ensures
            r == self@.stopping,
    {
        self.stopping
    }

    /// Whether job `id` has been asked to cancel.
    pub fn is_cancelled(&self, id: u64) -> (r: bool)
        requires
            self.wf(),
        ensures
            r == (has_job(self@, id) && job(self@, id).cancelled),
    {
        match self.find_job(id) {
            Some(i) => self.jobs[i].cancelled,
            None => false,
        }
    }

    /// The worker takes the job at the front of the queue, marks it running
    /// and receives a snapshot of its input bytes.
    #[verifier::spinoff_prover]
    #[verifier::rlimit(40)]
    pub fn begin(&mut self) -> (t: Option<Ticket>)
        requires
            old(self).wf(),
        ensures
            final(self).wf(),
            final(self)@ == spec_begin(old(self)@),
            t is None <==> (old(self)@.stopping || old(self)@.queue.len() == 0),
            t matches Some(tk) ==> tk.job == old(self)@.queue[0] && tk.input@ == job_input(
                old(self)@,
                job(old(self)@, tk.job),
            ) && tk.delay_ms == job(old(self)@, tk.job).delay_ms,
    {
        proof {
            crate::settle::lemma_settled_begin(self@);
        }
        if self.stopping || self.queue.len() == 0 {
            return None;
        }
        let ghost v = self@;
        let id = self.queue[0];
        proof {
            assert(has_job(v, id) && job(v, id).status is Queued);
        }
        let ji = match self.find_job(id) {
            Some(i) => i,
            None => {
                return None;
            },
        };
        let j = self.jobs[ji];
        let res = match j.resources {
            Some(r) => r,
            None => {
                return None;
            },
        };
        proof {
            assert(self@.jobs[ji as int].resources == Some(res));
            assert(has_tensor(v, res.input));
        }
        let ti = match self.find_tensor(res.input) {
            Some(i) => i,
            None => {
                return None;
            },
        };
        let b = self.tensors[ti].buffer;
        let start = self.tensors[ti].start;
        let end = self.tensors[ti].end;
        proof {
            assert(has_buffer(v, tensor(v, res.input).buffer));
        }
        let bi = match self.find_buffer(b) {
            Some(i) => i,
            None => {
                return None;
            },
        };
        let input = vstd::slice::slice_to_vec(
            vstd::slice::slice_subrange(self.buffers[bi].storage.bytes(), start, end),
        );
        self.queue.pop_front();
        proof {
            assert(self@.queue =~= v.queue.drop_first());
            assert(self@.queue.no_duplicates());
            assert forall|i: int| 0 <= i < self@.queue.len() implies v.queue.contains(
                #[trigger] self@.queue[i],
            ) by {
                assert(v.queue[i + 1] == self@.queue[i]);
            }
            lemma_queue_subset(v, self@.queue);
        }
        let ghost w = self@;
        self.jobs.set(ji, JobRec { status: JobStatus::Running, ..j });
        proof {
            assert(!w.queue.contains(id)) by {
                if w.queue.contains(id) {
                    let k = choose|k: int| 0 <= k < w.queue.len() && w.queue[k] == id;
                    assert(v.queue[k + 1] == id);
                }
            }
            crate::preserve::lemma_tables_same(v, w);
            assert(job_index(w, id) == job_index(v, id));
            lemma_job_update_inv(w, id, JobRec { status: JobStatus::Running, ..j });
        }
        Some(Ticket { job: id, input, delay_ms: j.delay_ms })
    }

    /// The worker reports what the backend returned for running job `id`:
    /// cancellation wins; output of the wrong length fails the job; otherwise
    /// the bytes are committed to the output tensor's range. The job's
    /// resources are released and its terminal status published. A job that
    /// is not running is left as it is.
    pub fn finish(&mut self, id: u64, result: Result<Vec<u8>, Error>)
        requires
            old(self).wf(),
        ensures
            final(self).wf(),
            final(self)@ == spec_finish(old(self)@, id, result_view(result)),
    {
        proof {
            crate::settle::lemma_settled_finish(self@, id, result_view(result));
        }
        let ji = match self.find_job(id) {
            Some(i) => i,
            None => {
                return;
            },
        };
        let j = self.jobs[ji];
        if j.status != JobStatus::Running {
            return;
        }
        let ghost v = self@;
        proof {
            assert(v.jobs[ji as int] == j);
            assert(j.resources is Some);
        }
        let res = match j.resources {
            Some(r) => r,
            None => {
                return;
            },
        };
        proof {
            assert(has_tensor(v, res.output));
        }
        let toi = match self.find_tensor(res.output) {
            Some(i) => i,
            None => {
                return;
            },
        };
        let tb = self.tensors[toi].buffer;
        let start = self.tensors[toi].start;
        let end = self.tensors[toi].end;
        proof {
            assert(has_buffer(v, tensor(v, res.output).buffer));
        }
        let boi = match self.find_buffer(tb) {
            Some(i) => i,
            None => {
                return;
            },
        };
        let outcome: Result<(), Error> = if j.cancelled {
            Err(Error::Cancelled)
        } else {
            match result {
                Err(e) => Err(e),
                Ok(bytes) => {
                    if bytes.len() != end - start {
                        Err(Error::Backend)
                    } else if self.buffers[boi].storage.writable().is_err() {
                        Err(Error::Permission)
                    } else {
                        let old_bytes = self.buffers[boi].storage.bytes();
                        let n = old_bytes.len();
                        let mut data: Vec<u8> = Vec::with_capacity(n);
                        put_bytes(&mut data, vstd::slice::slice_subrange(old_bytes, 0, start));
                        put_bytes(&mut data, bytes.as_slice());
                        put_bytes(&mut data, vstd::slice::slice_subrange(old_bytes, end, n));
                        let owner = self.buffers[boi].owner;
                        let ghost nd = data@;
                        self.buffers.set(
                            boi,
                            BufferRec { id: tb, owner, storage: Storage::Inline(data) },
                        );
                        proof {
                            assert(self@ =~= with_data(v, tb, nd));
                            lemma_with_data_inv(v, tb, nd);
                        }
                        Ok(())
                    }
                },
            }
        };
        let ghost w = self@;
        let nj = JobRec {
            resources: None,
            error: match outcome {
                Ok(_) => None,
                Err(e) => Some(e),
            },
            status: match outcome {
                Ok(_) => JobStatus::Completed,
                Err(Error::Cancelled) => JobStatus::Cancelled,
                Err(_) => JobStatus::Failed,
            },
            ..j
        };
        self.jobs.set(ji, nj);
        proof {
            crate::preserve::lemma_tables_same(v, w);
            assert(job_index(w, id) == ji);
            assert(!w.queue.contains(id)) by {
                if w.queue.contains(id) {
                    let k = choose|k: int| 0 <= k < w.queue.len() && w.queue[k] == id;
                    assert(has_job(v, v.queue[k]) && job(v, v.queue[k]).status is Queued);
                }
            }
            lemma_job_update_inv(w, id, nj);
        }
        self.reclaim();
        proof {
            lemma_reclaim_inv(RuntimeView { jobs: w.jobs.update(ji as int, nj), ..w });
        }
    }

    /// A snapshot of buffer `h` of session `owner`, for export; a pinned
    /// buffer is busy.
    pub fn export(&self, owner: u64, h: u64) -> (r: Result<Vec<u8>, Error>)
        requires
            self.wf(),
        ensures
            result_view(r) == spec_export(self@, owner, h),
    {
        let b = match self.object(owner, h)? {
            Object::Buffer(b) => b,
            _ => {
                return Err(Error::Invalid);
            },
        };
        proof {
            assert(object_resolves(self@, self@.objects[object_index(self@, owner, h)]));
        }
        let bi = match self.find_buffer(b) {
            Some(i) => i,
            None => {
                return Err(Error::Invalid);
            },
        };
        if self.is_pinned(b) {
            return Err(Error::Busy);
        }
        Ok(vstd::slice::slice_to_vec(self.buffers[bi].storage.bytes()))
    }

    /// Admits an imported read-only buffer of `size` bytes for session `owner`.
    /// `shared` is the outcome of mapping the sender's sealed memory.
    pub fn import(&mut self, owner: u64, size: u32, shared: Result<Vec<u8>, Error>) -> (r: Result<
        Vec<u8>,
        Error,
    >)
        requires
            old(self).wf(),
        ensures
            final(self).wf(),
            (final(self)@, result_view(r)) == spec_import(
                old(self)@,
                owner,
                size,
                result_view(shared),
            ),
    {
        proof {
            crate::settle::lemma_settled_import(self@, owner, size, result_view(shared));
        }
        if !self.has_session(owner) {
            return Err(Error::Disconnected);
        }
        let n = size as usize;
        if size == 0 || n > MAX_BUFFER {
            return Err(Error::Invalid);
        }
        let (count, _) = self.count_owned(owner);
        if count >= MAX_OBJECTS {
            return Err(Error::Busy);
        }
        let sb = self.owner_bytes(owner);
        let gb = self.total_bytes();
        if sb + n > SESSION_MEMORY || gb + n > GLOBAL_MEMORY {
            return Err(Error::NoMemory);
        }
        let data = shared?;
        if data.len() != n {
            return Err(Error::Invalid);
        }
        let id = self.next;
        let ghost v = self@;
        let r = self.insert_object(owner, Object::Buffer(id));
        if r.is_ok() {
            let ghost w = self@;
            let ghost dv = data@;
            self.buffers.push(BufferRec { id, owner, storage: Storage::Shared(data) });
            proof {
                let b = BufferView { id, owner, data: dv, shared: true };
                assert(self@ =~= RuntimeView { buffers: w.buffers.push(b), ..w });
                lemma_add_buffer_inv(v, owner, b);
            }
        }
        r
    }

}

/// Cancels one job record.
fn cancel_one(j: JobRec) -> (c: JobRec)
    ensures
        c == cancel_rec(j),
{
    if j.status.terminal() {
        j
    } else if j.status == JobStatus::Queued {
        JobRec {
            cancelled: true,
            resources: None,
            error: Some(Error::Cancelled),
            status: JobStatus::Cancelled,
            ..j
        }
    } else {
        JobRec { cancelled: true, ..j }
    }
}

} // verus!