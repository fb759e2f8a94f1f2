//! Properties of the runtime that hold across operations and sessions.
use crate::backend::{Backend, MockBackend};
use crate::model::{
    buffer, cancel_rec, error_number, finish_result, has_buffer, has_job, has_object, insert, job, job_input,
    job_kept, job_named, job_pins, lookup, object_index, pinned, reclaim, runtime_inv,
    session_bytes, spec_alloc, spec_cancel, spec_close, spec_connect, spec_disconnect, spec_finish,
    spec_read, spec_request, spec_shutdown, spec_write, tensor, terminal_status, with_data, JobRec,
    Object, RuntimeView,
};
use crate::preserve::{lemma_job_stable, lemma_tables_same};
use crate::request::RequestView;
use crate::types::{Error, Handle, JobStatus};
use vstd::prelude::*;

verus! {

/// The handle a request names first, for requests that name one.
pub open spec fn named_handle(r: RequestView) -> Option<Handle> {
    match r {
        RequestView::ModelClose(h) => Some(h),
        RequestView::BufferWrite { buffer, .. } => Some(buffer),
        RequestView::BufferRead(h) => Some(h),
        RequestView::BufferFree(h) => Some(h),
        RequestView::TensorCreate { buffer, .. } => Some(buffer),
        RequestView::TensorRelease(h) => Some(h),
        RequestView::Submit { model, .. } => Some(model),
        RequestView::JobStatus(h) => Some(h),
        RequestView::JobCancel(h) => Some(h),
        RequestView::JobRelease(h) => Some(h),
        _ => None,
    }
}

/// Every reachable state respects the limits: at most 32 sessions, 128
/// handles and 16 jobs per session, buffers of at most 1 MiB, 8 MiB of
/// backing bytes per session and 64 MiB across the daemon.
pub proof fn lemma_limits_hold(v: RuntimeView, s: u64)
    requires
        runtime_inv(v),
    ensures
        v.sessions.len() <= crate::types::MAX_SESSIONS,
        crate::model::owned(v, s).len() <= crate::types::MAX_OBJECTS,
        crate::model::owned_jobs(v, s).len() <= crate::types::MAX_JOBS,
        session_bytes(v, s) <= crate::types::SESSION_MEMORY,
        crate::model::live_bytes(v) <= crate::types::GLOBAL_MEMORY,
        forall|i: int| 0 <= i < v.buffers.len() ==> v.buffers[i].data.len() <= crate::types::MAX_BUFFER,
{
}

/// Handles are session-owned: a handle one session holds is unknown to every
/// other session.
pub proof fn lemma_handles_isolated(v: RuntimeView, a: u64, b: u64, h: Handle)
    requires
        runtime_inv(v),
        a != b,
        has_object(v, a, h),
    ensures
        lookup(v, b, h) is None,
{
    if has_object(v, b, h) {
        let i = object_index(v, a, h);
        let k = object_index(v, b, h);
        assert(v.objects[i].handle == v.objects[k].handle);
    }
}

/// A request naming a handle its session does not hold is invalid and
/// changes nothing, whichever session holds that handle.
pub proof fn lemma_foreign_handle_invalid<B: Backend>(
    v: RuntimeView,
    owner: u64,
    r: RequestView,
    backend: B,
)
    requires
        v.sessions.contains(owner),
        named_handle(r) matches Some(h) && lookup(v, owner, h) is None,
    ensures
        spec_request(v, owner, r, backend) == (v, Err::<Seq<u8>, Error>(Error::Invalid)),
{
}

/// Identifiers are never reused: the handle a successful request creates is
/// named by no existing handle, buffer, tensor or job, and the identifier
/// counter never goes back.
pub proof fn lemma_fresh_handle(v: RuntimeView, owner: u64, o: Object)
    requires
        runtime_inv(v),
        insert(v, owner, o).1 is Ok,
    ensures
        insert(v, owner, o).1 == Ok::<Seq<u8>, Error>(crate::codec::le64(v.next)),
        insert(v, owner, o).0.next > v.next,
        forall|i: int| 0 <= i < v.objects.len() ==> v.objects[i].handle != v.next,
        !has_buffer(v, v.next),
        !has_job(v, v.next),
        !crate::model::has_tensor(v, v.next),
{
}

/// Every request leaves the identifier counter where it was or advances it.
pub proof fn lemma_next_monotone<B: Backend>(v: RuntimeView, owner: u64, r: RequestView, backend: B)
    ensures
        spec_request(v, owner, r, backend).0.next >= v.next,
        spec_connect(v).0.next >= v.next,
{
}

/// What a session writes to a buffer is what it reads back.
pub proof fn lemma_write_then_read(v: RuntimeView, owner: u64, h: Handle, data: Seq<u8>)
    requires
        runtime_inv(v),
        spec_write(v, owner, h, data).1 is Ok,
    ensures
        spec_read(spec_write(v, owner, h, data).0, owner, h).1 == Ok::<Seq<u8>, Error>(data),
{
    let b = lookup(v, owner, h)->Some_0->Buffer_0;
    let w = spec_write(v, owner, h, data).0;
    assert(w == with_data(v, b, data));
    assert(crate::model::object_resolves(v, v.objects[object_index(v, owner, h)]));
    crate::preserve::lemma_with_data_inv(v, b, data);
    assert(w.objects == v.objects);
    assert(has_object(w, owner, h));
    assert(object_index(w, owner, h) == object_index(v, owner, h));
    lemma_tables_same(v, w);
    assert(w.jobs == v.jobs);
    assert(!pinned(w, b));
}

/// Cancelling a job that is already terminal succeeds and leaves the job as
/// it was.
pub proof fn lemma_cancel_terminal(v: RuntimeView, owner: u64, h: Handle)
    requires
        runtime_inv(v),
        lookup(v, owner, h) matches Some(Object::Job(j)) && job(v, j).status.is_terminal(),
    ensures
        spec_cancel(v, owner, h).1 == Ok::<Seq<u8>, Error>(Seq::empty()),
        has_job(spec_cancel(v, owner, h).0, lookup(v, owner, h)->Some_0->Job_0),
        job(spec_cancel(v, owner, h).0, lookup(v, owner, h)->Some_0->Job_0) == job(
            v,
            lookup(v, owner, h)->Some_0->Job_0,
        ),
{
    let j = lookup(v, owner, h)->Some_0->Job_0;
    assert(crate::model::object_resolves(v, v.objects[object_index(v, owner, h)]));
    let i = crate::model::job_index(v, j);
    assert(cancel_rec(v.jobs[i]) == v.jobs[i]);
    let mid = RuntimeView {
        jobs: v.jobs.update(i, cancel_rec(v.jobs[i])),
        queue: v.queue.filter(|q: u64| q != j),
        ..v
    };
    assert(mid.jobs =~= v.jobs);
    crate::preserve::lemma_cancel_mid(v, j);
    lemma_tables_same(v, mid);
    assert(job_named(mid, j));
    assert(job_kept(mid, job(mid, j)));
    let w = reclaim(mid);
    assert(w == spec_cancel(v, owner, h).0);
    crate::model::kept_jobs(mid).lemma_filter_len(crate::model::job_keep(mid));
    mid.jobs.lemma_filter_contains(crate::model::job_keep(mid), i);
    crate::preserve::lemma_reclaim_inv(mid);
    lemma_job_stable(mid, w, j);
}

/// Releasing a job that has not finished is refused and changes nothing.
pub proof fn lemma_release_unfinished(v: RuntimeView, owner: u64, h: Handle)
    requires
        lookup(v, owner, h) matches Some(Object::Job(j)) && !job(v, j).status.is_terminal(),
    ensures
        spec_close(v, owner, h, RequestView::JobRelease(h)) == (v, Err::<Seq<u8>, Error>(
            Error::Busy,
        )),
{
}

/// A job cancelled while running never commits output: finishing it changes
/// no buffer, whatever the backend returned, and a handle that still names
/// the job sees it cancelled.
pub proof fn lemma_cancelled_output_not_committed(
    v: RuntimeView,
    id: u64,
    result: Result<Seq<u8>, Error>,
)
    requires
        runtime_inv(v),
        has_job(v, id),
        job(v, id).status is Running,
        job(v, id).cancelled,
    ensures
        forall|b: u64|
            has_buffer(spec_finish(v, id, result), b) ==> has_buffer(v, b) && buffer(
                spec_finish(v, id, result),
                b,
            ) == buffer(v, b),
        job_named(v, id) ==> job(spec_finish(v, id, result), id).status == JobStatus::Cancelled
            && job(spec_finish(v, id, result), id).error == Some(Error::Cancelled),
{
    finish_facts(v, id, result);
}

/// A running job that was not cancelled and whose backend output has the
/// length of its output tensor commits it: the output tensor's range of its
/// buffer then holds exactly that output, and a handle that still names the
/// job sees it completed.
pub proof fn lemma_completion_commits(v: RuntimeView, id: u64, bytes: Seq<u8>)
    requires
        runtime_inv(v),
        has_job(v, id),
        job(v, id).status is Running,
        !job(v, id).cancelled,
        ({
            let t = tensor(v, job(v, id).resources->Some_0.output);
            bytes.len() == t.end - t.start && !buffer(v, t.buffer).shared
        }),
    ensures
        job_named(v, id) ==> job(spec_finish(v, id, Ok(bytes)), id).status == JobStatus::Completed
            && job(spec_finish(v, id, Ok(bytes)), id).error is None,
        ({
            let t = tensor(v, job(v, id).resources->Some_0.output);
            has_buffer(spec_finish(v, id, Ok(bytes)), t.buffer) ==> buffer(
                spec_finish(v, id, Ok(bytes)),
                t.buffer,
            ).data.subrange(t.start, t.end) == bytes
        }),
{
    finish_facts(v, id, Ok(bytes));
    let t = tensor(v, job(v, id).resources->Some_0.output);
    let old = buffer(v, t.buffer).data;
    let nd = old.subrange(0, t.start) + bytes + old.subrange(t.end, old.len() as int);
    assert(nd.subrange(t.start, t.end) =~= bytes);
}

/// With the mock backend, a job that was neither cancelled nor given an
/// out-of-range delay leaves every input byte incremented in its output
/// range, and a handle that still names it sees it completed.
pub proof fn lemma_mock_job_increments(v: RuntimeView, id: u64)
    requires
        runtime_inv(v),
        has_job(v, id),
        job(v, id).status is Running,
        !job(v, id).cancelled,
        job(v, id).delay_ms <= crate::types::MAX_DELAY_MS,
        ({
            let t = tensor(v, job(v, id).resources->Some_0.output);
            job_input(v, job(v, id)).len() == t.end - t.start && !buffer(v, t.buffer).shared
        }),
    ensures
        ({
            let out = MockBackend::outcome(job_input(v, job(v, id)), job(v, id).delay_ms, false);
            let w = spec_finish(v, id, out);
            let t = tensor(v, job(v, id).resources->Some_0.output);
            &&& job_named(v, id) ==> job(w, id).status == JobStatus::Completed
            &&& has_buffer(w, t.buffer) ==> buffer(w, t.buffer).data.subrange(t.start, t.end)
                == crate::backend::increment(job_input(v, job(v, id)))
        }),
{
    let input = job_input(v, job(v, id));
    lemma_completion_commits(v, id, crate::backend::increment(input));
}

/// Accepted jobs pin their buffers exclusively: a job's input and output
/// buffers differ, and no buffer is pinned by two unfinished jobs at once.
pub proof fn lemma_exclusive_pins(v: RuntimeView, i: int, k: int, b: u64)
    requires
        runtime_inv(v),
        0 <= i < v.jobs.len(),
        0 <= k < v.jobs.len(),
        i != k,
    ensures
        job_pins(v, v.jobs[i], b) ==> !job_pins(v, v.jobs[k], b),
        v.jobs[i].resources matches Some(r) ==> tensor(v, r.input).buffer != tensor(
            v,
            r.output,
        ).buffer,
{
}

/// A buffer pinned by an accepted, unfinished job can be neither read nor
/// written: both answer `Busy` and change nothing.
pub proof fn lemma_pinned_busy(v: RuntimeView, owner: u64, h: Handle, data: Seq<u8>)
    requires
        lookup(v, owner, h) matches Some(Object::Buffer(b)) && pinned(v, b),
    ensures
        spec_read(v, owner, h) == (v, Err::<Seq<u8>, Error>(Error::Busy)),
        spec_write(v, owner, h, data) == (v, Err::<Seq<u8>, Error>(Error::Busy)),
{
}

/// Cancelling a queued job removes it from the queue and lets go of its
/// tensors at once: it is cancelled, holds no resources and pins nothing.
pub proof fn lemma_queued_cancel_releases(v: RuntimeView, owner: u64, h: Handle)
    requires
        runtime_inv(v),
        lookup(v, owner, h) matches Some(Object::Job(j)) && job(v, j).status is Queued,
    ensures
        ({
            let j = lookup(v, owner, h)->Some_0->Job_0;
            let w = spec_cancel(v, owner, h).0;
            &&& spec_cancel(v, owner, h).1 == Ok::<Seq<u8>, Error>(Seq::empty())
            &&& has_job(w, j)
            &&& job(w, j).status == JobStatus::Cancelled
            &&& job(w, j).error == Some(Error::Cancelled)
            &&& job(w, j).resources is None
            &&& !w.queue.contains(j)
            &&& forall|b: u64| !job_pins(w, job(w, j), b)
        }),
{
    let j = lookup(v, owner, h)->Some_0->Job_0;
    assert(crate::model::object_resolves(v, v.objects[object_index(v, owner, h)]));
    let i = crate::model::job_index(v, j);
    let pq = |q: u64| q != j;
    let mid = RuntimeView {
        jobs: v.jobs.update(i, cancel_rec(v.jobs[i])),
        queue: v.queue.filter(pq),
        ..v
    };
    crate::preserve::lemma_cancel_mid(v, j);
    lemma_tables_same(v, mid);
    assert(mid.jobs[i] == cancel_rec(v.jobs[i]));
    assert(crate::model::job_index(mid, j) == i);
    assert(job_named(mid, j)) by {
        let k = object_index(v, owner, h);
        assert(mid.objects[k].object == Object::Job(j));
    }
    assert(job_kept(mid, job(mid, j)));
    let w = reclaim(mid);
    assert(w == spec_cancel(v, owner, h).0);
    mid.jobs.lemma_filter_contains(crate::model::job_keep(mid), i);
    crate::preserve::lemma_reclaim_inv(mid);
    lemma_job_stable(mid, w, j);
    assert(!mid.queue.contains(j)) by {
        broadcast use vstd::seq_lib::group_filter_ensures;

        if mid.queue.contains(j) {
            let k = choose|k: int| 0 <= k < mid.queue.len() && mid.queue[k] == j;
            assert(pq(mid.queue[k]));
        }
    }
    assert(w.queue == mid.queue);
}

/// Cancelling a running job is cooperative: the job is flagged, keeps running
/// and keeps its resources until the worker reports back; nothing terminal is
/// published yet.
pub proof fn lemma_running_cancel_deferred(v: RuntimeView, owner: u64, h: Handle)
    requires
        runtime_inv(v),
        lookup(v, owner, h) matches Some(Object::Job(j)) && job(v, j).status is Running,
    ensures
        ({
            let j = lookup(v, owner, h)->Some_0->Job_0;
            let w = spec_cancel(v, owner, h).0;
            &&& spec_cancel(v, owner, h).1 == Ok::<Seq<u8>, Error>(Seq::empty())
            &&& has_job(w, j)
            &&& job(w, j).status == JobStatus::Running
            &&& job(w, j).cancelled
            &&& job(w, j).resources == job(v, j).resources
        }),
{
    let j = lookup(v, owner, h)->Some_0->Job_0;
    assert(crate::model::object_resolves(v, v.objects[object_index(v, owner, h)]));
    let i = crate::model::job_index(v, j);
    let mid = RuntimeView {
        jobs: v.jobs.update(i, cancel_rec(v.jobs[i])),
        queue: v.queue.filter(|q: u64| q != j),
        ..v
    };
    crate::preserve::lemma_cancel_mid(v, j);
    lemma_tables_same(v, mid);
    assert(mid.jobs[i] == cancel_rec(v.jobs[i]));
    assert(crate::model::job_index(mid, j) == i);
    assert(job_kept(mid, job(mid, j)));
    let w = reclaim(mid);
    assert(w == spec_cancel(v, owner, h).0);
    mid.jobs.lemma_filter_contains(crate::model::job_keep(mid), i);
    crate::preserve::lemma_reclaim_inv(mid);
    lemma_job_stable(mid, w, j);
}

/// Records that survive reclamation are the records they were.
proof fn lemma_reclaim_keeps_records(v: RuntimeView, id: u64)
    requires
        crate::model::ids_unique(v),
        has_job(reclaim(v), id),
    ensures
        has_job(v, id),
        job(reclaim(v), id) == job(v, id),
{
    let w = reclaim(v);
    let k = crate::model::job_index(w, id);
    crate::seqs::lemma_filter_subset(v.jobs, crate::model::job_keep(v), k);
    let m = choose|m: int| 0 <= m < v.jobs.len() && v.jobs[m] == w.jobs[k];
    assert(v.jobs[m].id == id);
    assert(crate::model::job_index(v, id) == m);
}

/// A state whose job table is `v`'s with one record replaced by one of the
/// same identity holds `v`'s record for every other identifier, and for
/// that one too when the replacement equals it.
proof fn lemma_jobs_update_keeps(v: RuntimeView, w: RuntimeView, k: int, nj: JobRec, id: u64)
    requires
        crate::model::ids_unique(v),
        0 <= k < v.jobs.len(),
        nj.id == v.jobs[k].id,
        w.jobs == v.jobs.update(k, nj),
        has_job(v, id),
        v.jobs[k].id == id ==> nj == v.jobs[k],
    ensures
        crate::model::ids_unique(RuntimeView { jobs: w.jobs, ..v }),
        has_job(w, id),
        job(w, id) == job(v, id),
{
    let n = crate::model::job_index(v, id);
    assert(w.jobs[n] == v.jobs[n]);
    let m = crate::model::job_index(w, id);
    assert(w.jobs[m].id == v.jobs[m].id);
    assert(m == n);
}

/// Terminal statuses are final: no request of any session, no step of the
/// worker, no disconnection and no shutdown changes a job that has finished;
/// its record can only be forgotten once nothing names it.
#[verifier::spinoff_prover]
#[verifier::rlimit(40)]
pub proof fn lemma_terminal_final<B: Backend>(
    v: RuntimeView,
    owner: u64,
    r: RequestView,
    backend: B,
    id: u64,
    other: u64,
    result: Result<Seq<u8>, Error>,
)
    requires
        runtime_inv(v),
        has_job(v, id),
        job(v, id).status.is_terminal(),
    ensures
        has_job(spec_request(v, owner, r, backend).0, id) ==> job(
            spec_request(v, owner, r, backend).0,
            id,
        ) == job(v, id),
        has_job(crate::model::spec_begin(v), id) && job(crate::model::spec_begin(v), id) == job(
            v,
            id,
        ),
        has_job(spec_finish(v, other, result), id) ==> job(spec_finish(v, other, result), id)
            == job(v, id),
        has_job(spec_disconnect(v, owner), id) ==> job(spec_disconnect(v, owner), id) == job(
            v,
            id,
        ),
        has_job(spec_shutdown(v), id) ==> job(spec_shutdown(v), id) == job(v, id),
{
    let k = crate::model::job_index(v, id);
    // requests
    let w = spec_request(v, owner, r, backend).0;
    if has_job(w, id) {
        lemma_tables_same(v, w);
        match r {
            RequestView::Submit { model, input, output, delay_ms } => {
                if w.jobs != v.jobs {
                    let n = v.jobs.len() as int;
                    assert(w.jobs.len() == n + 1);
                    assert(w.jobs[k] == v.jobs[k]);
                    let m = crate::model::job_index(w, id);
                    if m == n {
                        assert(w.jobs[n].id == v.next);
                        assert(v.jobs[k].id < v.next);
                    } else {
                        assert(w.jobs[m] == v.jobs[m]);
                    }
                }
            },
            RequestView::JobCancel(h) => {
                if let Some(Object::Job(j)) = lookup(v, owner, h) {
                    if v.sessions.contains(owner) {
                        let i = crate::model::job_index(v, j);
                        assert(crate::model::object_resolves(v, v.objects[object_index(v, owner, h)]));
                        let mid = RuntimeView {
                            jobs: v.jobs.update(i, cancel_rec(v.jobs[i])),
                            queue: v.queue.filter(|q: u64| q != j),
                            ..v
                        };
                        lemma_jobs_update_keeps(v, mid, i, cancel_rec(v.jobs[i]), id);
                        crate::preserve::lemma_cancel_mid(v, j);
                        lemma_reclaim_keeps_records(mid, id);
                    }
                }
            },
            RequestView::ModelClose(h) | RequestView::BufferFree(h) | RequestView::TensorRelease(
                h,
            ) | RequestView::JobRelease(h) => {
                if v.sessions.contains(owner) && has_object(v, owner, h) && w != v {
                    let mid = RuntimeView {
                        objects: v.objects.remove(object_index(v, owner, h)),
                        ..v
                    };
                    crate::preserve::lemma_close_mid(v, owner, h);
                    lemma_reclaim_keeps_records(mid, id);
                    lemma_tables_same(v, mid);
                }
            },
            _ => {},
        }
    }
    // the worker takes the next job
    let b = crate::model::spec_begin(v);
    if !(v.stopping || v.queue.len() == 0) {
        let q = v.queue[0];
        assert(has_job(v, q) && job(v, q).status is Queued);
        let i = crate::model::job_index(v, q);
        lemma_jobs_update_keeps(v, b, i, JobRec { status: JobStatus::Running, ..v.jobs[i] }, id);
    }
    // the worker reports a result
    let f = spec_finish(v, other, result);
    if has_job(f, id) && has_job(v, other) && job(v, other).status is Running {
        let i = crate::model::job_index(v, other);
        let j = v.jobs[i];
        let t = tensor(v, j.resources->Some_0.output);
        let fr = finish_result(v, j, result);
        let written = if fr is Ok {
            let old = buffer(v, t.buffer).data;
            with_data(
                v,
                t.buffer,
                old.subrange(0, t.start) + result->Ok_0 + old.subrange(t.end, old.len() as int),
            )
        } else {
            v
        };
        assert(written.jobs == v.jobs);
        let nj = JobRec {
            resources: None,
            error: match fr {
                Ok(_) => None,
                Err(e) => Some(e),
            },
            status: terminal_status(fr),
            ..j
        };
        let mid = RuntimeView { jobs: written.jobs.update(i, nj), ..written };
        assert(f == reclaim(mid));
        lemma_jobs_update_keeps(v, mid, i, nj, id);
        lemma_reclaim_keeps_records(mid, id);
    }
    // a session goes away
    let d = spec_disconnect(v, owner);
    if v.sessions.contains(owner) && has_job(d, id) {
        let mid = crate::preserve::disconnect_mid(v, owner);
        crate::preserve::lemma_disconnect_mid(v, owner);
        lemma_tables_same(v, mid);
        assert(mid.jobs[k] == v.jobs[k]);
        let m = crate::model::job_index(mid, id);
        assert(mid.jobs[m].id == v.jobs[m].id);
        lemma_reclaim_keeps_records(mid, id);
    }
    // the daemon stops
    let z = spec_shutdown(v);
    if has_job(z, id) {
        let mid = crate::preserve::shutdown_mid(v);
        crate::preserve::lemma_shutdown_mid(v);
        assert(mid.jobs[k] == v.jobs[k]);
        let m = crate::model::job_index(mid, id);
        assert(mid.jobs[m].id == v.jobs[m].id);
        lemma_reclaim_keeps_records(mid, id);
    }
}

/// A session that has gone away can do nothing more: every request it makes
/// is answered `Disconnected` and changes nothing, and it holds no handle.
pub proof fn lemma_disconnect_forgets<B: Backend>(
    v: RuntimeView,
    owner: u64,
    r: RequestView,
    backend: B,
)
    requires
        runtime_inv(v),
    ensures
        ({
            let w = spec_disconnect(v, owner);
            &&& spec_request(w, owner, r, backend) == (w, Err::<Seq<u8>, Error>(
                Error::Disconnected,
            ))
            &&& forall|i: int| 0 <= i < w.objects.len() ==> w.objects[i].owner != owner
        }),
{
    broadcast use vstd::seq_lib::group_filter_ensures;

    let w = spec_disconnect(v, owner);
    if v.sessions.contains(owner) {
        let p = crate::model::other_session(owner);
        assert(!w.sessions.contains(owner)) by {
            if w.sessions.contains(owner) {
                let k = choose|k: int| 0 <= k < w.sessions.len() && w.sessions[k] == owner;
                assert(p(w.sessions[k]));
            }
        }
        let po = |e: crate::model::ObjEntry| e.owner != owner;
        assert forall|i: int| 0 <= i < w.objects.len() implies w.objects[i].owner != owner by {
            assert(po(w.objects[i]));
        }
    } else {
        assert forall|i: int| 0 <= i < w.objects.len() implies w.objects[i].owner != owner by {
            assert(v.sessions.contains(v.objects[i].owner));
        }
    }
}

/// Once the daemon stops, no session remains, no handle remains and no new
/// session is admitted.
pub proof fn lemma_shutdown_final<B: Backend>(v: RuntimeView, owner: u64, r: RequestView, backend: B)
    ensures
        ({
            let w = spec_shutdown(v);
            &&& spec_request(w, owner, r, backend) == (w, Err::<Seq<u8>, Error>(
                Error::Disconnected,
            ))
            &&& w.objects.len() == 0
            &&& spec_connect(w) == (w, Err::<u64, Error>(Error::Disconnected))
        }),
{
}

/// A freshly allocated buffer reads back as zeros.
pub proof fn lemma_alloc_zeroed(v: RuntimeView, owner: u64, size: u32)
    requires
        runtime_inv(v),
        v.sessions.contains(owner),
        spec_alloc(v, owner, size).1 is Ok,
    ensures
        spec_read(spec_alloc(v, owner, size).0, owner, v.next).1 == Ok::<Seq<u8>, Error>(
            Seq::new(size as nat, |i: int| 0u8),
        ),
{
    let w = spec_alloc(v, owner, size).0;
    let b = crate::model::BufferView {
        id: v.next,
        owner,
        data: Seq::new(size as nat, |i: int| 0u8),
        shared: false,
    };
    lemma_fresh_handle(v, owner, Object::Buffer(v.next));
    crate::preserve::lemma_add_buffer_inv(v, owner, b);
    let k = v.objects.len() as int;
    assert(w.objects[k].owner == owner && w.objects[k].handle == v.next);
    assert(has_object(w, owner, v.next));
    assert(object_index(w, owner, v.next) == k);
    let n = v.buffers.len() as int;
    assert(w.buffers[n] == b);
    assert(buffer_index_is(w, v.next, n));
    assert(!pinned(w, v.next)) by {
        if pinned(w, v.next) {
            let q = choose|q: int| 0 <= q < w.jobs.len() && job_pins(w, w.jobs[q], v.next);
            let rs = w.jobs[q].resources->Some_0;
            assert(v.jobs[q] == w.jobs[q]);
            assert(crate::model::has_tensor(v, rs.input) && crate::model::has_tensor(v, rs.output));
            lemma_tables_same(v, w);
            assert(w.tensors == v.tensors);
            let ti = crate::model::tensor_index(v, rs.input);
            let to = crate::model::tensor_index(v, rs.output);
            assert(has_buffer(v, v.tensors[ti].buffer));
            assert(has_buffer(v, v.tensors[to].buffer));
            let bi = crate::model::buffer_index(v, v.tensors[ti].buffer);
            let bo = crate::model::buffer_index(v, v.tensors[to].buffer);
            assert(v.buffers[bi].id < v.next);
            assert(v.buffers[bo].id < v.next);
        }
    }
}

/// When a session goes away and none of its jobs is running, everything it
/// allocated is released: no buffer of the session remains and its byte quota
/// is back to zero. (A running job keeps its buffers until the backend is
/// done with them.)
#[verifier::spinoff_prover]
#[verifier::rlimit(40)]
pub proof fn lemma_disconnect_releases(v: RuntimeView, owner: u64)
    requires
        runtime_inv(v),
        v.sessions.contains(owner),
        forall|i: int|
            0 <= i < v.jobs.len() && (#[trigger] v.jobs[i]).owner == owner ==> !(
            v.jobs[i].status is Running),
    ensures
        forall|i: int|
            0 <= i < spec_disconnect(v, owner).buffers.len() ==> (#[trigger] spec_disconnect(
                v,
                owner,
            ).buffers[i]).owner != owner,
        session_bytes(spec_disconnect(v, owner), owner) == 0,
{
    broadcast use vstd::seq_lib::group_filter_ensures;

    let mid = crate::preserve::disconnect_mid(v, owner);
    let w = spec_disconnect(v, owner);
    assert(w == reclaim(mid));
    crate::preserve::lemma_disconnect_mid(v, owner);
    lemma_tables_same(v, mid);
    let po = |e: crate::model::ObjEntry| e.owner != owner;
    let pj = crate::model::job_keep(mid);
    let pt = crate::model::tensor_keep(mid, crate::model::kept_jobs(mid));
    let pb = crate::model::buffer_keep(mid, crate::model::kept_tensors(mid));
    // objects left belong to other sessions
    assert forall|k: int| 0 <= k < mid.objects.len() implies (#[trigger] mid.objects[k]).owner
        != owner && v.objects.contains(mid.objects[k]) by {
        crate::seqs::lemma_filter_subset(v.objects, po, k);
    }
    // no kept job of the session holds resources
    assert forall|k: int|
        0 <= k < mid.jobs.len() && (#[trigger] mid.jobs[k]).resources is Some implies mid.jobs[k].owner
        != owner by {
        let vj = v.jobs[k];
        assert(mid.jobs[k].owner == vj.owner);
        if vj.owner == owner {
            if crate::model::owned_job(v, owner, vj.id) {
                assert(mid.jobs[k] == cancel_rec(vj));
                assert(vj.resources is Some <==> (vj.status is Queued || vj.status is Running));
            } else {
                assert(mid.jobs[k] == vj);
                assert(vj.status is Queued);
                assert(job_named(v, vj.id));
                let m = choose|m: int|
                    0 <= m < v.objects.len() && v.objects[m].object == Object::Job(vj.id);
                assert(crate::model::object_resolves(v, v.objects[m]));
                assert(crate::model::job_index(v, vj.id) == k);
                assert(v.objects[m].owner == owner);
            }
        }
    }
    assert forall|i: int| 0 <= i < w.buffers.len() implies (#[trigger] w.buffers[i]).owner
        != owner by {
        let b = w.buffers[i];
        crate::seqs::lemma_filter_subset(mid.buffers, pb, i);
        let n = choose|n: int| 0 <= n < mid.buffers.len() && mid.buffers[n] == b;
        assert(v.buffers[n] == b);
        assert(buffer(v, b.id) == b) by {
            assert(crate::model::buffer_index(v, b.id) == n);
        }
        assert(pb(b));
        if b.owner == owner {
            if crate::model::buffer_named(mid, b.id) {
                let k = choose|k: int|
                    0 <= k < mid.objects.len() && mid.objects[k].object == Object::Buffer(b.id);
                let e = mid.objects[k];
                let m = choose|m: int| 0 <= m < v.objects.len() && v.objects[m] == e;
                assert(crate::model::object_owned(v, v.objects[m]));
            } else {
                let kt = crate::model::kept_tensors(mid);
                let q = choose|q: int| 0 <= q < kt.len() && kt[q].buffer == b.id;
                let t = kt[q];
                crate::seqs::lemma_filter_subset(mid.tensors, pt, q);
                let tn = choose|tn: int| 0 <= tn < mid.tensors.len() && mid.tensors[tn] == t;
                assert(v.tensors[tn] == t);
                assert(crate::model::tensor(v, t.id) == t) by {
                    assert(crate::model::tensor_index(v, t.id) == tn);
                }
                assert(pt(t));
                if crate::model::tensor_named(mid, t.id) {
                    let k = choose|k: int|
                        0 <= k < mid.objects.len() && mid.objects[k].object == Object::Tensor(
                            t.id,
                        );
                    let e = mid.objects[k];
                    let m = choose|m: int| 0 <= m < v.objects.len() && v.objects[m] == e;
                    assert(crate::model::object_owned(v, v.objects[m]));
                } else {
                    let kj = crate::model::kept_jobs(mid);
                    let z = choose|z: int|
                        0 <= z < kj.len() && (#[trigger] kj[z].resources matches Some(r) && (
                        r.input == t.id || r.output == t.id));
                    let j = kj[z];
                    crate::seqs::lemma_filter_subset(mid.jobs, pj, z);
                    let jn = choose|jn: int| 0 <= jn < mid.jobs.len() && mid.jobs[jn] == j;
                    assert(mid.jobs[jn].resources is Some);
                    assert(j.owner != owner);
                    let vj = v.jobs[jn];
                    assert(crate::model::job_owned(v, vj));
                    if crate::model::owned_job(v, owner, vj.id) {
                        assert(j == cancel_rec(vj));
                    } else {
                        assert(j == vj);
                    }
                }
            }
        }
    }
    let f = w.buffers.filter(crate::model::buffer_owner_is(owner));
    assert(f.len() == 0) by {
        if f.len() > 0 {
            crate::seqs::lemma_filter_subset(w.buffers, crate::model::buffer_owner_is(owner), 0);
            let n = choose|n: int| 0 <= n < w.buffers.len() && w.buffers[n] == f[0];
            assert(w.buffers[n].owner != owner);
            assert(crate::model::buffer_owner_is(owner)(f[0]));
        }
    }
    assert(f =~= Seq::<crate::model::BufferView>::empty());
}

/// Once the daemon stops and no job is running, nothing is retained: no job,
/// tensor or buffer remains and no byte is accounted.
#[verifier::spinoff_prover]
#[verifier::rlimit(40)]
pub proof fn lemma_shutdown_releases(v: RuntimeView)
    requires
        runtime_inv(v),
        forall|i: int| 0 <= i < v.jobs.len() ==> !((#[trigger] v.jobs[i]).status is Running),
    ensures
        spec_shutdown(v).jobs.len() == 0,
        spec_shutdown(v).tensors.len() == 0,
        spec_shutdown(v).buffers.len() == 0,
        crate::model::live_bytes(spec_shutdown(v)) == 0,
{
    broadcast use vstd::seq_lib::group_filter_ensures;

    let mid = crate::preserve::shutdown_mid(v);
    let w = spec_shutdown(v);
    assert(w == reclaim(mid));
    let pj = crate::model::job_keep(mid);
    let pt = crate::model::tensor_keep(mid, crate::model::kept_jobs(mid));
    let pb = crate::model::buffer_keep(mid, crate::model::kept_tensors(mid));
    assert forall|k: int| 0 <= k < mid.jobs.len() implies !pj(#[trigger] mid.jobs[k]) by {
        let vj = v.jobs[k];
        if job_named(v, vj.id) {
            assert(mid.jobs[k] == cancel_rec(vj));
        } else {
            assert(mid.jobs[k] == vj);
            assert(!(vj.status is Queued));
        }
    }
    assert(w.jobs.len() == 0) by {
        if w.jobs.len() > 0 {
            crate::seqs::lemma_filter_subset(mid.jobs, pj, 0);
            let n = choose|n: int| 0 <= n < mid.jobs.len() && mid.jobs[n] == w.jobs[0];
            assert(pj(w.jobs[0]));
        }
    }
    assert(w.tensors.len() == 0) by {
        if w.tensors.len() > 0 {
            assert(pt(w.tensors[0]));
        }
    }
    assert(w.buffers.len() == 0) by {
        if w.buffers.len() > 0 {
            assert(pb(w.buffers[0]));
        }
    }
    assert(w.buffers =~= Seq::<crate::model::BufferView>::empty());
}

/// Buffer `id` sits at index `k`.
pub open spec fn buffer_index_is(v: RuntimeView, id: u64, k: int) -> bool {
    0 <= k < v.buffers.len() && v.buffers[k].id == id && buffer(v, id) == v.buffers[k]
}

proof fn finish_facts(v: RuntimeView, id: u64, result: Result<Seq<u8>, Error>)
    requires
        runtime_inv(v),
        has_job(v, id),
        job(v, id).status is Running,
    ensures
        ({
            let w = spec_finish(v, id, result);
            let j = job(v, id);
            let r = finish_result(v, j, result);
            let t = tensor(v, j.resources->Some_0.output);
            &&& job_named(v, id) ==> has_job(w, id) && job(w, id).status == terminal_status(r)
                && job(w, id).error == (match r {
                Ok(_) => None,
                Err(e) => Some(e),
            })
            &&& forall|b: u64|
                has_buffer(w, b) ==> has_buffer(v, b) && (b != t.buffer || r is Err ==> buffer(
                    w,
                    b,
                ) == buffer(v, b))
            &&& (r is Ok && has_buffer(w, t.buffer)) ==> buffer(w, t.buffer).data == buffer(
                v,
                t.buffer,
            ).data.subrange(0, t.start) + result->Ok_0 + buffer(v, t.buffer).data.subrange(
                t.end,
                buffer(v, t.buffer).data.len() as int,
            )
        }),
{
    let i = crate::model::job_index(v, id);
    let j = v.jobs[i];
    let r = finish_result(v, j, result);
    let t = tensor(v, j.resources->Some_0.output);
    assert(crate::model::has_tensor(v, j.resources->Some_0.output));
    assert(has_buffer(v, t.buffer));
    let old = buffer(v, t.buffer).data;
    let written = if r is Ok {
        with_data(
            v,
            t.buffer,
            old.subrange(0, t.start) + result->Ok_0 + old.subrange(t.end, old.len() as int),
        )
    } else {
        v
    };
    if r is Ok {
        crate::preserve::lemma_with_data_inv(
            v,
            t.buffer,
            old.subrange(0, t.start) + result->Ok_0 + old.subrange(t.end, old.len() as int),
        );
        assert forall|b: u64| has_buffer(v, b) && b != t.buffer implies has_buffer(written, b)
            && buffer(written, b) == buffer(v, b) by {
            let k = crate::model::buffer_index(v, b);
            let ti = crate::model::buffer_index(v, t.buffer);
            assert(k != ti);
            assert(written.buffers[k] == buffer(v, b));
            crate::preserve::lemma_buffer_stable(v, written, b);
        }
        assert forall|b: u64| has_buffer(written, b) implies has_buffer(v, b) by {
            let k = crate::model::buffer_index(written, b);
            assert(v.buffers[k].id == b);
        }
    }
    lemma_tables_same(v, written);
    assert(written.jobs == v.jobs);
    assert(runtime_inv(written));
    let nj = crate::model::JobRec {
        resources: None,
        error: match r {
            Ok(_) => None,
            Err(e) => Some(e),
        },
        status: terminal_status(r),
        ..j
    };
    assert(!written.queue.contains(id)) by {
        if written.queue.contains(id) {
            let k = choose|k: int| 0 <= k < written.queue.len() && written.queue[k] == id;
            assert(has_job(v, v.queue[k]) && job(v, v.queue[k]).status is Queued);
        }
    }
    crate::preserve::lemma_job_update_inv(written, id, nj);
    let mid = RuntimeView { jobs: written.jobs.update(i, nj), ..written };
    assert(mid.jobs[i] == nj);
    let w = reclaim(mid);
    assert(w == spec_finish(v, id, result));
    crate::preserve::lemma_reclaim_inv(mid);
    lemma_tables_same(written, mid);
    assert(crate::model::job_index(mid, id) == i);
    assert(job(mid, id) == nj);
    if job_named(v, id) {
        let k = choose|k: int| 0 <= k < v.objects.len() && v.objects[k].object == Object::Job(id);
        assert(mid.objects[k].object == Object::Job(id));
        assert(job_kept(mid, nj));
        mid.jobs.lemma_filter_contains(crate::model::job_keep(mid), i);
        lemma_job_stable(mid, w, id);
    }
    assert forall|b: u64| has_buffer(w, b) implies has_buffer(mid, b) && buffer(w, b) == buffer(
        mid,
        b,
    ) by {
        let k = crate::model::buffer_index(w, b);
        crate::seqs::lemma_filter_subset(mid.buffers, crate::model::buffer_keep(mid, crate::model::kept_tensors(mid)), k);
        let m = choose|m: int| 0 <= m < mid.buffers.len() && mid.buffers[m] == w.buffers[k];
        assert(mid.buffers[m].id == b);
        assert(has_buffer(mid, b));
        crate::preserve::lemma_buffer_stable(mid, w, b);
    }
}


/// Filtering by a predicate that no element satisfies leaves nothing.
proof fn lemma_filter_none<T>(s: Seq<T>, p: spec_fn(T) -> bool)
    requires
        forall|i: int| 0 <= i < s.len() ==> !p(#[trigger] s[i]),
    ensures
        s.filter(p).len() == 0,
{
    if s.filter(p).len() > 0 {
        crate::seqs::lemma_filter_subset(s, p, 0);
        let k = choose|k: int| 0 <= k < s.len() && s[k] == s.filter(p)[0];
        assert(!p(s[k]));
    }
}

/// A JOB_STATUS reply carries the job's status number and its error number,
/// and the error number is 0 exactly when the job is queued, running or
/// completed; a cancelled job reports the cancellation error.
pub proof fn lemma_status_reply<B: Backend>(v: RuntimeView, owner: u64, h: Handle, backend: B)
    requires
        runtime_inv(v),
        v.sessions.contains(owner),
        lookup(v, owner, h) matches Some(Object::Job(_)),
    ensures
        ({
            let j = job(v, lookup(v, owner, h)->Some_0->Job_0);
            &&& spec_request(v, owner, RequestView::JobStatus(h), backend) == (
                v,
                Ok::<Seq<u8>, Error>(
                    crate::codec::le32(j.status.to_code()) + crate::codec::le32(
                        error_number(j.error),
                    ),
                ),
            )
            &&& (error_number(j.error) == 0 <==> (j.status is Queued || j.status is Running
                || j.status is Completed))
            &&& (j.status is Cancelled ==> error_number(j.error) == Error::Cancelled.to_code())
        }),
{
    let id = lookup(v, owner, h)->Some_0->Job_0;
    assert(crate::model::object_resolves(v, v.objects[object_index(v, owner, h)]));
    let k = crate::model::job_index(v, id);
    assert(crate::model::status_error_agree(v.jobs[k]));
    if let Some(e) = job(v, id).error {
        assert(e.to_code() >= 1);
    }
}

/// A new session gets an identifier above every session and handle issued
/// before, and starts empty: its STATS reply reports no handles, no bytes and
/// no jobs. Opening it changes no handle, buffer or job.
pub proof fn lemma_new_session_empty(v: RuntimeView)
    requires
        runtime_inv(v),
        spec_connect(v).1 is Ok,
    ensures
        ({
            let w = spec_connect(v).0;
            let id = spec_connect(v).1->Ok_0;
            &&& id == v.next
            &&& w.next == v.next + 1
            &&& w.sessions == v.sessions.push(id)
            &&& w.objects == v.objects && w.buffers == v.buffers && w.jobs == v.jobs
            &&& forall|i: int| 0 <= i < v.sessions.len() ==> v.sessions[i] < id
            &&& forall|i: int| 0 <= i < v.objects.len() ==> v.objects[i].handle < id
            &&& crate::model::owned(w, id).len() == 0
            &&& crate::model::owned_jobs(w, id).len() == 0
            &&& session_bytes(w, id) == 0
            &&& crate::model::stats_body(w, id) == crate::codec::le32(0) + crate::codec::le64(0)
                + crate::codec::le32(0)
        }),
{
    let w = spec_connect(v).0;
    let id = v.next;
    assert forall|i: int| 0 <= i < w.objects.len() implies #[trigger] w.objects[i].owner != id by {
        assert(v.sessions.contains(v.objects[i].owner));
        let m = choose|m: int| 0 <= m < v.sessions.len() && v.sessions[m] == v.objects[i].owner;
        assert(v.sessions[m] < v.next);
    }
    assert forall|i: int| 0 <= i < w.objects.len() implies !crate::model::owner_is(id)(
        #[trigger] w.objects[i],
    ) by {}
    lemma_filter_none(w.objects, crate::model::owner_is(id));
    assert forall|i: int| 0 <= i < w.objects.len() implies !crate::model::owner_job_is(id)(
        #[trigger] w.objects[i],
    ) by {}
    lemma_filter_none(w.objects, crate::model::owner_job_is(id));
    assert forall|i: int| 0 <= i < w.buffers.len() implies !crate::model::buffer_owner_is(id)(
        #[trigger] w.buffers[i],
    ) by {
        assert(v.buffers[i].owner < v.next);
    }
    lemma_filter_none(w.buffers, crate::model::buffer_owner_is(id));
    assert(w.buffers.filter(crate::model::buffer_owner_is(id)) =~= Seq::<
        crate::model::BufferView,
    >::empty());
}

/// Stopping the daemon leaves no job queued: the queue is empty, every job
/// that was queued is cancelled, and a job still running is flagged for
/// cancellation. No session and no handle remains.
pub proof fn lemma_shutdown_flags_unfinished(v: RuntimeView)
    requires
        runtime_inv(v),
    ensures
        ({
            let w = spec_shutdown(v);
            &&& w.queue.len() == 0
            &&& w.sessions.len() == 0
            &&& w.objects.len() == 0
            &&& forall|i: int|
                0 <= i < w.jobs.len() ==> !((#[trigger] w.jobs[i]).status is Queued) && (
                w.jobs[i].status is Running ==> w.jobs[i].cancelled)
        }),
{
    let mid = crate::preserve::shutdown_mid(v);
    let w = spec_shutdown(v);
    assert(w == reclaim(mid));
    crate::records::lemma_records_shutdown(v);
    assert forall|i: int| 0 <= i < mid.jobs.len() implies !((#[trigger] mid.jobs[i]).status is Queued)
        && (mid.jobs[i].status is Running ==> mid.jobs[i].cancelled) by {
        let j = v.jobs[i];
        if j.status is Queued {
            assert(job_named(v, j.id));
        }
        assert(!job_named(mid, mid.jobs[i].id));
    }
    assert forall|i: int| 0 <= i < w.jobs.len() implies !((#[trigger] w.jobs[i]).status is Queued)
        && (w.jobs[i].status is Running ==> w.jobs[i].cancelled) by {
        crate::seqs::lemma_filter_subset(mid.jobs, crate::model::job_keep(mid), i);
        let k = choose|k: int| 0 <= k < mid.jobs.len() && mid.jobs[k] == w.jobs[i];
        assert(!(mid.jobs[k].status is Queued));
    }
}

/// Adding a handle for session `owner`: a session at its handle limit is
/// answered `Busy` and an exhausted identifier space `NoMemory`, both with
/// nothing changed; otherwise the reply is the next identifier, which the
/// session's table now maps to the object, the counter moves past it, and
/// every handle held before names what it named.
pub proof fn lemma_insert_outcome(v: RuntimeView, owner: u64, o: Object)
    requires
        runtime_inv(v),
    ensures
        ({
            let (w, r) = insert(v, owner, o);
            &&& crate::model::owned(v, owner).len() >= crate::types::MAX_OBJECTS ==> (w, r) == (
                v,
                Err::<Seq<u8>, Error>(Error::Busy),
            )
            &&& crate::model::owned(v, owner).len() < crate::types::MAX_OBJECTS && v.next
                == u64::MAX ==> (w, r) == (v, Err::<Seq<u8>, Error>(Error::NoMemory))
            &&& crate::model::owned(v, owner).len() < crate::types::MAX_OBJECTS && v.next
                < u64::MAX ==> {
                &&& r == Ok::<Seq<u8>, Error>(crate::codec::le64(v.next))
                &&& w.next == v.next + 1
                &&& lookup(w, owner, v.next) == Some(o)
                &&& forall|s: u64, h: Handle|
                    has_object(v, s, h) ==> #[trigger] lookup(w, s, h) == lookup(v, s, h)
            }
        }),
{
    let (w, r) = insert(v, owner, o);
    if crate::model::owned(v, owner).len() < crate::types::MAX_OBJECTS && v.next < u64::MAX {
        let n = v.objects.len() as int;
        assert(w.objects[n].owner == owner && w.objects[n].handle == v.next);
        assert(has_object(w, owner, v.next));
        let x = object_index(w, owner, v.next);
        if x < n {
            assert(w.objects[x] == v.objects[x]);
            assert(v.objects[x].handle < v.next);
        }
        assert forall|s: u64, h: Handle| has_object(v, s, h) implies #[trigger] lookup(w, s, h)
            == lookup(v, s, h) by {
            let a = object_index(v, s, h);
            assert(w.objects[a] == v.objects[a]);
            assert(has_object(w, s, h));
            let b = object_index(w, s, h);
            if b == n {
                assert(v.objects[a].handle < v.next);
            } else {
                assert(w.objects[b] == v.objects[b]);
                assert(b == a);
            }
        }
    }
}


/// `w`'s jobs and tensors are `v`'s followed by records with identifiers
/// issued after `v`.
pub open spec fn extends(v: RuntimeView, w: RuntimeView) -> bool {
    &&& w.jobs.len() >= v.jobs.len()
    &&& forall|k: int| 0 <= k < v.jobs.len() ==> w.jobs[k] == v.jobs[k]
    &&& forall|k: int| v.jobs.len() <= k < w.jobs.len() ==> w.jobs[k].id >= v.next
    &&& w.tensors.len() >= v.tensors.len()
    &&& forall|k: int| 0 <= k < v.tensors.len() ==> w.tensors[k] == v.tensors[k]
    &&& forall|k: int| v.tensors.len() <= k < w.tensors.len() ==> w.tensors[k].id >= v.next
}

/// A state that extends `v` holds every job and tensor of `v` as it was.
proof fn lemma_extends_keeps(v: RuntimeView, w: RuntimeView, id: u64)
    requires
        crate::model::ids_unique(v),
        crate::model::ids_below_next(v),
        extends(v, w),
        has_job(v, id),
    ensures
        has_job(w, id),
        job(w, id) == job(v, id),
        forall|t: u64|
            #![trigger crate::model::has_tensor(w, t)]
            crate::model::has_tensor(v, t) ==> crate::model::has_tensor(w, t) && tensor(w, t)
                == tensor(v, t),
{
    let k = crate::model::job_index(v, id);
    assert(w.jobs[k] == v.jobs[k]);
    let m = crate::model::job_index(w, id);
    if m < v.jobs.len() {
        assert(w.jobs[m] == v.jobs[m]);
    } else {
        assert(v.jobs[k].id < v.next);
    }
    assert forall|t: u64| #![trigger crate::model::has_tensor(w, t)] crate::model::has_tensor(v, t)
        implies crate::model::has_tensor(w, t) && tensor(w, t) == tensor(v, t) by {
        let a = crate::model::tensor_index(v, t);
        assert(w.tensors[a] == v.tensors[a]);
        let c = crate::model::tensor_index(w, t);
        if c < v.tensors.len() {
            assert(w.tensors[c] == v.tensors[c]);
        } else {
            assert(v.tensors[a].id < v.next);
        }
    }
}

/// Reclamation keeps a retained job as it was, and, when that job holds
/// tensors, keeps them as they were.
proof fn lemma_reclaim_keeps_job(m: RuntimeView, id: u64)
    requires
        forall|i: int, k: int|
            0 <= i < m.jobs.len() && 0 <= k < m.jobs.len() && i != k ==> m.jobs[i].id
                != m.jobs[k].id,
        forall|i: int, k: int|
            0 <= i < m.tensors.len() && 0 <= k < m.tensors.len() && i != k ==> m.tensors[i].id
                != m.tensors[k].id,
        has_job(m, id),
        job_kept(m, job(m, id)),
        job(m, id).resources matches Some(r) ==> crate::model::has_tensor(m, r.input)
            && crate::model::has_tensor(m, r.output),
    ensures
        has_job(reclaim(m), id),
        job(reclaim(m), id) == job(m, id),
        job(m, id).resources matches Some(r) ==> {
            &&& crate::model::has_tensor(reclaim(m), r.input)
            &&& tensor(reclaim(m), r.input) == tensor(m, r.input)
            &&& crate::model::has_tensor(reclaim(m), r.output)
            &&& tensor(reclaim(m), r.output) == tensor(m, r.output)
        },
{
    broadcast use vstd::seq_lib::group_filter_ensures;

    let w = reclaim(m);
    let k = crate::model::job_index(m, id);
    let pj = crate::model::job_keep(m);
    m.jobs.lemma_filter_contains(pj, k);
    let n = choose|n: int| 0 <= n < w.jobs.len() && w.jobs[n] == m.jobs[k];
    assert(has_job(w, id));
    let q = crate::model::job_index(w, id);
    crate::seqs::lemma_filter_subset(m.jobs, pj, q);
    let q2 = choose|q2: int| 0 <= q2 < m.jobs.len() && m.jobs[q2] == w.jobs[q];
    assert(q2 == k);
    if let Some(r) = job(m, id).resources {
        let kj = crate::model::kept_jobs(m);
        let pt = crate::model::tensor_keep(m, kj);
        assert(kj[n].resources == Some(r));
        let ti = crate::model::tensor_index(m, r.input);
        let to = crate::model::tensor_index(m, r.output);
        assert(crate::model::tensor_kept(m, kj, m.tensors[ti]));
        assert(crate::model::tensor_kept(m, kj, m.tensors[to]));
        m.tensors.lemma_filter_contains(pt, ti);
        m.tensors.lemma_filter_contains(pt, to);
        let a = choose|a: int| 0 <= a < w.tensors.len() && w.tensors[a] == m.tensors[ti];
        let b = choose|b: int| 0 <= b < w.tensors.len() && w.tensors[b] == m.tensors[to];
        assert(crate::model::has_tensor(w, r.input));
        assert(crate::model::has_tensor(w, r.output));
        let ai = crate::model::tensor_index(w, r.input);
        let bi = crate::model::tensor_index(w, r.output);
        crate::seqs::lemma_filter_subset(m.tensors, pt, ai);
        crate::seqs::lemma_filter_subset(m.tensors, pt, bi);
        let a2 = choose|a2: int| 0 <= a2 < m.tensors.len() && m.tensors[a2] == w.tensors[ai];
        let b2 = choose|b2: int| 0 <= b2 < m.tensors.len() && m.tensors[b2] == w.tensors[bi];
        assert(a2 == ti);
        assert(b2 == to);
    }
}

/// A job that holds in `w` the resources it held in `v`, over tensors that
/// `w` holds as `v` did, pins in `w` what it pinned in `v`.
proof fn lemma_pins_carry(v: RuntimeView, w: RuntimeView, id: u64, b: u64)
    requires
        has_job(w, id),
        job(w, id).resources == job(v, id).resources,
        job(v, id).resources matches Some(r) ==> {
            &&& crate::model::has_tensor(w, r.input)
            &&& tensor(w, r.input) == tensor(v, r.input)
            &&& crate::model::has_tensor(w, r.output)
            &&& tensor(w, r.output) == tensor(v, r.output)
        },
        job_pins(v, job(v, id), b),
    ensures
        job_pins(w, job(w, id), b),
        pinned(w, b),
{
    let k = crate::model::job_index(w, id);
    assert(job_pins(w, w.jobs[k], b));
}

/// What a step must keep of an unfinished job for its pins to persist.
pub open spec fn pins_kept(v: RuntimeView, w: RuntimeView, id: u64, b: u64) -> bool {
    &&& has_job(w, id)
    &&& job(w, id).status.is_terminal() || (job(w, id).resources == job(v, id).resources
        && job_pins(w, job(w, id), b) && pinned(w, b))
}

/// The common ground of the steps below.
pub open spec fn pins_hyp(v: RuntimeView, id: u64, b: u64) -> bool {
    &&& runtime_inv(v)
    &&& has_job(v, id)
    &&& !job(v, id).status.is_terminal()
    &&& job_pins(v, job(v, id), b)
}

proof fn lemma_pins_hyp(v: RuntimeView, id: u64, b: u64)
    requires
        pins_hyp(v, id, b),
    ensures
        job(v, id).resources is Some,
        crate::model::has_tensor(v, job(v, id).resources->Some_0.input),
        crate::model::has_tensor(v, job(v, id).resources->Some_0.output),
{
    let k = crate::model::job_index(v, id);
    assert(v.jobs[k].resources is Some);
}

/// A cancel request: a queued job it names ends; any other unfinished job,
/// the running one it names included, keeps its resources.
#[verifier::spinoff_prover]
#[verifier::rlimit(40)]
proof fn lemma_pins_cancel(v: RuntimeView, owner: u64, h: Handle, id: u64, b: u64)
    requires
        pins_hyp(v, id, b),
        v.sessions.contains(owner),
    ensures
        pins_kept(v, spec_cancel(v, owner, h).0, id, b),
{
    lemma_pins_hyp(v, id, b);
    let w = spec_cancel(v, owner, h).0;
    let k = crate::model::job_index(v, id);
    if let Some(Object::Job(j)) = lookup(v, owner, h) {
        let i = crate::model::job_index(v, j);
        assert(crate::model::object_resolves(v, v.objects[object_index(v, owner, h)]));
        let mid = RuntimeView {
            jobs: v.jobs.update(i, cancel_rec(v.jobs[i])),
            queue: v.queue.filter(|q: u64| q != j),
            ..v
        };
        crate::preserve::lemma_cancel_mid(v, j);
        lemma_tables_same(v, mid);
        assert(w == reclaim(mid));
        let mk = crate::model::job_index(mid, id);
        assert(mid.jobs[k].id == id);
        assert(mk == k);
        if j == id {
            assert(i == k);
            if job(v, id).status is Queued {
                assert(job_named(v, id));
                assert(job_named(mid, id));
            }
        } else {
            assert(mid.jobs[k] == v.jobs[k]);
        }
        lemma_reclaim_keeps_job(mid, id);
        if !job(w, id).status.is_terminal() {
            lemma_pins_carry(v, w, id, b);
        }
    } else {
        lemma_tables_same(v, w);
        lemma_pins_carry(v, w, id, b);
    }
}

/// A request that drops a handle: reclamation keeps the unfinished job and
/// its tensors.
#[verifier::spinoff_prover]
#[verifier::rlimit(40)]
proof fn lemma_pins_close(v: RuntimeView, owner: u64, h: Handle, r: RequestView, id: u64, b: u64)
    requires
        pins_hyp(v, id, b),
    ensures
        pins_kept(v, crate::model::spec_close(v, owner, h, r).0, id, b),
{
    lemma_pins_hyp(v, id, b);
    let w = crate::model::spec_close(v, owner, h, r).0;
    if w != v {
        let mid = RuntimeView { objects: v.objects.remove(object_index(v, owner, h)), ..v };
        assert(w == reclaim(mid));
        lemma_tables_same(v, mid);
        lemma_reclaim_keeps_job(mid, id);
        lemma_pins_carry(v, w, id, b);
    } else {
        lemma_tables_same(v, w);
        lemma_pins_carry(v, w, id, b);
    }
}

/// Every other request only adds jobs and tensors, if anything.
#[verifier::spinoff_prover]
#[verifier::rlimit(40)]
proof fn lemma_pins_other<B: Backend>(v: RuntimeView, owner: u64, r: RequestView, backend: B, id: u64, b: u64)
    requires
        pins_hyp(v, id, b),
        !(r is JobCancel || r is ModelClose || r is BufferFree || r is TensorRelease
            || r is JobRelease),
    ensures
        pins_kept(v, spec_request(v, owner, r, backend).0, id, b),
{
    lemma_pins_hyp(v, id, b);
    let w = spec_request(v, owner, r, backend).0;
    assert(extends(v, w));
    lemma_extends_keeps(v, w, id);
    lemma_pins_carry(v, w, id, b);
}

/// The worker takes the next job: at most that job becomes running, with the
/// resources it had.
#[verifier::spinoff_prover]
proof fn lemma_pins_begin(v: RuntimeView, id: u64, b: u64)
    requires
        pins_hyp(v, id, b),
    ensures
        has_job(crate::model::spec_begin(v), id),
        job(crate::model::spec_begin(v), id).resources == job(v, id).resources,
        pinned(crate::model::spec_begin(v), b),
{
    lemma_pins_hyp(v, id, b);
    let k = crate::model::job_index(v, id);
    let bg = crate::model::spec_begin(v);
    if !(v.stopping || v.queue.len() == 0) {
        let q = v.queue[0];
        assert(has_job(v, q) && job(v, q).status is Queued);
        assert(bg.jobs[k].id == id);
        let m = crate::model::job_index(bg, id);
        assert(bg.jobs[m].id == v.jobs[m].id);
        assert(m == k);
    }
    lemma_tables_same(v, bg);
    lemma_pins_carry(v, bg, id, b);
}

/// The worker reports another job's result: this job is untouched.
#[verifier::spinoff_prover]
#[verifier::rlimit(40)]
proof fn lemma_pins_finish(v: RuntimeView, other: u64, result: Result<Seq<u8>, Error>, id: u64, b: u64)
    requires
        pins_hyp(v, id, b),
        other != id,
    ensures
        has_job(spec_finish(v, other, result), id),
        job(spec_finish(v, other, result), id) == job(v, id),
        pinned(spec_finish(v, other, result), b),
{
    lemma_pins_hyp(v, id, b);
    let f = spec_finish(v, other, result);
    if has_job(v, other) && job(v, other).status is Running {
        let i = crate::model::job_index(v, other);
        let j = v.jobs[i];
        let t = tensor(v, j.resources->Some_0.output);
        let fr = finish_result(v, j, result);
        let written = if fr is Ok {
            let old = buffer(v, t.buffer).data;
            with_data(
                v,
                t.buffer,
                old.subrange(0, t.start) + result->Ok_0 + old.subrange(t.end, old.len() as int),
            )
        } else {
            v
        };
        assert(written.jobs == v.jobs && written.tensors == v.tensors);
        let nj = JobRec {
            resources: None,
            error: match fr {
                Ok(_) => None,
                Err(e) => Some(e),
            },
            status: terminal_status(fr),
            ..j
        };
        let mid = RuntimeView { jobs: written.jobs.update(i, nj), ..written };
        assert(f == reclaim(mid));
        lemma_jobs_update_keeps(v, mid, i, nj, id);
        lemma_tables_same(v, mid);
        assert forall|x: int, y: int|
            0 <= x < mid.jobs.len() && 0 <= y < mid.jobs.len() && x != y implies mid.jobs[x].id
            != mid.jobs[y].id by {
            assert(mid.jobs[x].id == v.jobs[x].id);
            assert(mid.jobs[y].id == v.jobs[y].id);
        }
        lemma_reclaim_keeps_job(mid, id);
    }
    lemma_pins_carry(v, f, id, b);
}

/// An accepted job keeps its pins until it ends. Across any request of any
/// session, and across the worker taking the next job or finishing another
/// one, the job is still there; unless that step ended it (a cancel while it
/// was queued), it holds the same tensors over the same buffers, so every
/// buffer it pinned stays pinned, and reading or writing it stays `Busy`.
pub proof fn lemma_pins_persist<B: Backend>(
    v: RuntimeView,
    owner: u64,
    r: RequestView,
    backend: B,
    id: u64,
    other: u64,
    result: Result<Seq<u8>, Error>,
    b: u64,
)
    requires
        runtime_inv(v),
        has_job(v, id),
        !job(v, id).status.is_terminal(),
        job_pins(v, job(v, id), b),
        other != id,
    ensures
        ({
            let w = spec_request(v, owner, r, backend).0;
            &&& has_job(w, id)
            &&& job(w, id).status.is_terminal() || (job(w, id).resources == job(v, id).resources
                && job_pins(w, job(w, id), b) && pinned(w, b))
        }),
        ({
            let w = crate::model::spec_begin(v);
            &&& has_job(w, id)
            &&& job(w, id).resources == job(v, id).resources
            &&& pinned(w, b)
        }),
        ({
            let w = spec_finish(v, other, result);
            &&& has_job(w, id)
            &&& job(w, id) == job(v, id)
            &&& pinned(w, b)
        }),
{
    let w = spec_request(v, owner, r, backend).0;
    if !v.sessions.contains(owner) {
        lemma_tables_same(v, w);
        lemma_pins_hyp(v, id, b);
        lemma_pins_carry(v, w, id, b);
    } else {
        match r {
            RequestView::JobCancel(h) => lemma_pins_cancel(v, owner, h, id, b),
            RequestView::ModelClose(h) => lemma_pins_close(v, owner, h, r, id, b),
            RequestView::BufferFree(h) => lemma_pins_close(v, owner, h, r, id, b),
            RequestView::TensorRelease(h) => lemma_pins_close(v, owner, h, r, id, b),
            RequestView::JobRelease(h) => lemma_pins_close(v, owner, h, r, id, b),
            _ => lemma_pins_other(v, owner, r, backend, id, b),
        }
    }
    assert(pins_kept(v, w, id, b));
    lemma_pins_begin(v, id, b);
    lemma_pins_finish(v, other, result, id, b);
}


/// Total size after dropping one buffer from a sequence of distinct buffers:
/// its bytes leave the total if it was there.
proof fn lemma_bytes_without(s: Seq<crate::model::BufferView>, p: spec_fn(crate::model::BufferView) -> bool, x: crate::model::BufferView)
    requires
        forall|i: int| 0 <= i < s.len() ==> (p(#[trigger] s[i]) <==> s[i] != x),
        forall|i: int, k: int| 0 <= i < s.len() && 0 <= k < s.len() && i != k ==> s[i] != s[k],
    ensures
        crate::model::bytes_of(s.filter(p)) == crate::model::bytes_of(s) - (if s.contains(x) {
            x.data.len() as int
        } else {
            0int
        }),
    decreases s.len(),
{
    reveal(Seq::filter);
    if s.len() > 0 {
        let d = s.drop_last();
        let last = s.last();
        assert forall|i: int| 0 <= i < d.len() implies (p(#[trigger] d[i]) <==> d[i] != x) by {
            assert(d[i] == s[i]);
        }
        assert forall|i: int, k: int| 0 <= i < d.len() && 0 <= k < d.len() && i != k implies d[i]
            != d[k] by {
            assert(d[i] == s[i] && d[k] == s[k]);
        }
        lemma_bytes_without(d, p, x);
        assert(s == d.push(last));
        crate::seqs::lemma_bytes_push(d, last);
        if last == x {
            assert(!d.contains(x)) by {
                if d.contains(x) {
                    let k = choose|k: int| 0 <= k < d.len() && d[k] == x;
                    assert(s[k] == s[s.len() - 1]);
                }
            }
            assert(s.contains(x)) by {
                assert(s[s.len() - 1] == x);
            }
            assert(s.filter(p) == d.filter(p));
        } else {
            assert(p(s[s.len() - 1]));
            crate::seqs::lemma_bytes_push(d.filter(p), last);
            assert(s.contains(x) == d.contains(x)) by {
                if s.contains(x) {
                    let k = choose|k: int| 0 <= k < s.len() && s[k] == x;
                    assert(k < d.len());
                    assert(d[k] == x);
                }
                if d.contains(x) {
                    let k = choose|k: int| 0 <= k < d.len() && d[k] == x;
                    assert(s[k] == x);
                }
            }
        }
    }
}

/// Removing handle `x` keeps naming every object that `x` does not name.
proof fn lemma_remove_keeps_names(v: RuntimeView, x: int, o: Object)
    requires
        0 <= x < v.objects.len(),
        v.objects[x].object != o,
        exists|k: int| 0 <= k < v.objects.len() && v.objects[k].object == o,
    ensures
        exists|k: int| 0 <= k < v.objects.remove(x).len() && v.objects.remove(x)[k].object == o,
{
    let k = choose|k: int| 0 <= k < v.objects.len() && v.objects[k].object == o;
    let r = v.objects.remove(x);
    if k < x {
        assert(r[k] == v.objects[k]);
    } else {
        assert(r[k - 1] == v.objects[k]);
    }
}

/// Freeing a buffer that a tensor still views drops the session's handle at
/// once, so the buffer can no longer be read through it; its bytes stay
/// counted, for the daemon and for every session, while the tensor retains
/// it.
#[verifier::spinoff_prover]
#[verifier::rlimit(40)]
pub proof fn lemma_free_retained<B: Backend>(v: RuntimeView, owner: u64, h: Handle, backend: B)
    requires
        runtime_inv(v),
        crate::model::settled(v),
        v.sessions.contains(owner),
        lookup(v, owner, h) matches Some(Object::Buffer(bid)) && exists|k: int|
            0 <= k < v.tensors.len() && v.tensors[k].buffer == bid,
    ensures
        ({
            let (w, res) = spec_request(v, owner, RequestView::BufferFree(h), backend);
            &&& res == Ok::<Seq<u8>, Error>(Seq::empty())
            &&& w.buffers == v.buffers
            &&& crate::model::live_bytes(w) == crate::model::live_bytes(v)
            &&& forall|s: u64| #[trigger] session_bytes(w, s) == session_bytes(v, s)
            &&& lookup(w, owner, h) is None
            &&& spec_request(w, owner, RequestView::BufferRead(h), backend) == (w, Err::<
                Seq<u8>,
                Error,
            >(Error::Invalid))
        }),
{
    let x = object_index(v, owner, h);
    let bid = lookup(v, owner, h)->Some_0->Buffer_0;
    let mid = RuntimeView { objects: v.objects.remove(x), ..v };
    let w = spec_request(v, owner, RequestView::BufferFree(h), backend).0;
    assert(w == reclaim(mid));
    assert forall|i: int| 0 <= i < mid.jobs.len() implies job_kept(mid, #[trigger] mid.jobs[i]) by {
        assert(job_kept(v, v.jobs[i]));
        if job_named(v, v.jobs[i].id) {
            lemma_remove_keeps_names(v, x, Object::Job(v.jobs[i].id));
        }
    }
    assert forall|i: int| 0 <= i < mid.tensors.len() implies crate::model::tensor_kept(
        mid,
        mid.jobs,
        #[trigger] mid.tensors[i],
    ) by {
        assert(crate::model::tensor_kept(v, v.jobs, v.tensors[i]));
        if crate::model::tensor_named(v, v.tensors[i].id) {
            lemma_remove_keeps_names(v, x, Object::Tensor(v.tensors[i].id));
        }
    }
    assert forall|i: int| 0 <= i < mid.buffers.len() implies crate::model::buffer_kept(
        mid,
        mid.tensors,
        #[trigger] mid.buffers[i],
    ) by {
        assert(crate::model::buffer_kept(v, v.tensors, v.buffers[i]));
        if v.buffers[i].id != bid && crate::model::buffer_named(v, v.buffers[i].id) {
            lemma_remove_keeps_names(v, x, Object::Buffer(v.buffers[i].id));
        }
    }
    crate::settle::lemma_settled_fixed(mid);
    assert(!has_object(w, owner, h)) by {
        if has_object(w, owner, h) {
            let k = choose|k: int|
                0 <= k < w.objects.len() && w.objects[k].owner == owner && w.objects[k].handle == h;
            if k < x {
                assert(w.objects[k] == v.objects[k]);
            } else {
                assert(w.objects[k] == v.objects[k + 1]);
            }
        }
    }
}

/// Releasing the last tensor over a buffer whose handle is gone, when no job
/// holds that tensor, frees the buffer: it is dropped, and its bytes leave
/// the daemon's count and its session's count; no other session's count
/// moves.
#[verifier::spinoff_prover]
#[verifier::rlimit(60)]
pub proof fn lemma_release_frees<B: Backend>(v: RuntimeView, owner: u64, h: Handle, backend: B)
    requires
        runtime_inv(v),
        crate::model::settled(v),
        v.sessions.contains(owner),
        lookup(v, owner, h) matches Some(Object::Tensor(tid)) && {
            let bid = tensor(v, tid).buffer;
            &&& !crate::model::buffer_named(v, bid)
            &&& forall|k: int|
                0 <= k < v.objects.len() && v.objects[k].object == Object::Tensor(tid)
                    ==> v.objects[k].handle == h
            &&& forall|k: int|
                0 <= k < v.tensors.len() && v.tensors[k].buffer == bid ==> v.tensors[k].id == tid
            &&& forall|k: int|
                0 <= k < v.jobs.len() ==> !((#[trigger] v.jobs[k]).resources matches Some(r) && (
                r.input == tid || r.output == tid))
        },
    ensures
        ({
            let (w, res) = spec_request(v, owner, RequestView::TensorRelease(h), backend);
            let tid = lookup(v, owner, h)->Some_0->Tensor_0;
            let b = buffer(v, tensor(v, tid).buffer);
            &&& res == Ok::<Seq<u8>, Error>(Seq::empty())
            &&& !has_buffer(w, b.id)
            &&& crate::model::live_bytes(w) == crate::model::live_bytes(v) - b.data.len()
            &&& session_bytes(w, b.owner) == session_bytes(v, b.owner) - b.data.len()
            &&& forall|s: u64| s != b.owner ==> #[trigger] session_bytes(w, s) == session_bytes(v, s)
        }),
{
    let x = object_index(v, owner, h);
    let tid = lookup(v, owner, h)->Some_0->Tensor_0;
    assert(crate::model::object_resolves(v, v.objects[x]));
    let ti = crate::model::tensor_index(v, tid);
    let bid = v.tensors[ti].buffer;
    assert(has_buffer(v, bid));
    let bi = crate::model::buffer_index(v, bid);
    let b = v.buffers[bi];
    let mid = RuntimeView { objects: v.objects.remove(x), ..v };
    let w = spec_request(v, owner, RequestView::TensorRelease(h), backend).0;
    assert(w == reclaim(mid));
    assert forall|i: int| 0 <= i < mid.jobs.len() implies job_kept(mid, #[trigger] mid.jobs[i]) by {
        assert(job_kept(v, v.jobs[i]));
        if job_named(v, v.jobs[i].id) {
            lemma_remove_keeps_names(v, x, Object::Job(v.jobs[i].id));
        }
    }
    crate::settle::lemma_filter_all(mid.jobs, crate::model::job_keep(mid));
    let kt = crate::model::tensor_keep(mid, crate::model::kept_jobs(mid));
    assert forall|i: int| 0 <= i < mid.tensors.len() implies (kt(#[trigger] mid.tensors[i])
        <==> mid.tensors[i].id != tid) by {
        let t = v.tensors[i];
        assert(crate::model::tensor_kept(v, v.jobs, t));
        if t.id != tid {
            if crate::model::tensor_named(v, t.id) {
                lemma_remove_keeps_names(v, x, Object::Tensor(t.id));
            }
        } else {
            if crate::model::tensor_named(mid, tid) {
                let k = choose|k: int|
                    0 <= k < mid.objects.len() && mid.objects[k].object == Object::Tensor(tid);
                let kv = if k < x {
                    k
                } else {
                    k + 1
                };
                assert(mid.objects[k] == v.objects[kv]);
                assert(v.objects[kv].handle == h);
                assert(v.objects[x].handle == h);
            }
        }
    }
    let kts = crate::model::kept_tensors(mid);
    let kb = crate::model::buffer_keep(mid, kts);
    assert forall|i: int| 0 <= i < v.buffers.len() implies (kb(#[trigger] v.buffers[i])
        <==> v.buffers[i] != b) by {
        let c = v.buffers[i];
        assert(crate::model::buffer_kept(v, v.tensors, c));
        if c.id != bid {
            if crate::model::buffer_named(v, c.id) {
                lemma_remove_keeps_names(v, x, Object::Buffer(c.id));
            } else {
                let k = choose|k: int| 0 <= k < v.tensors.len() && v.tensors[k].buffer == c.id;
                assert(kt(v.tensors[k]));
                v.tensors.lemma_filter_contains(kt, k);
                let n = choose|n: int| 0 <= n < kts.len() && kts[n] == v.tensors[k];
            }
            assert(c != b);
        } else {
            assert(i == bi);
            if crate::model::buffer_named(mid, bid) {
                let k = choose|k: int|
                    0 <= k < mid.objects.len() && mid.objects[k].object == Object::Buffer(bid);
                let kv = if k < x {
                    k
                } else {
                    k + 1
                };
                assert(mid.objects[k] == v.objects[kv]);
            }
            if exists|n: int| 0 <= n < kts.len() && kts[n].buffer == bid {
                let n = choose|n: int| 0 <= n < kts.len() && kts[n].buffer == bid;
                crate::seqs::lemma_filter_subset(mid.tensors, kt, n);
                let m = choose|m: int| 0 <= m < mid.tensors.len() && mid.tensors[m] == kts[n];
                assert(v.tensors[m].id == tid);
            }
        }
    }
    assert forall|i: int, k: int|
        0 <= i < v.buffers.len() && 0 <= k < v.buffers.len() && i != k implies v.buffers[i]
        != v.buffers[k] by {
        assert(v.buffers[i].id != v.buffers[k].id);
    }
    assert(v.buffers.contains(b)) by {
        assert(v.buffers[bi] == b);
    }
    lemma_bytes_without(v.buffers, kb, b);
    assert(!has_buffer(w, bid)) by {
        if has_buffer(w, bid) {
            let k = choose|k: int| 0 <= k < w.buffers.len() && w.buffers[k].id == bid;
            crate::seqs::lemma_filter_subset(v.buffers, kb, k);
            let m = choose|m: int| 0 <= m < v.buffers.len() && v.buffers[m] == w.buffers[k];
            assert(v.buffers[m].id == bid);
            assert(m == bi);
        }
    }
    assert forall|s: u64| #[trigger] session_bytes(w, s) == session_bytes(v, s) - (if s == b.owner {
        b.data.len() as int
    } else {
        0int
    }) by {
        let po = crate::model::buffer_owner_is(s);
        crate::preserve::lemma_filter_commute(v.buffers, kb, po);
        let so = v.buffers.filter(po);
        crate::preserve::lemma_filter_unique(v.buffers, po, |c: crate::model::BufferView| c.id);
        assert forall|i: int, k: int| 0 <= i < so.len() && 0 <= k < so.len() && i != k implies so[i]
            != so[k] by {
            assert(so[i].id != so[k].id);
        }
        assert forall|i: int| 0 <= i < so.len() implies (kb(#[trigger] so[i]) <==> so[i] != b) by {
            crate::seqs::lemma_filter_subset(v.buffers, po, i);
            let m = choose|m: int| 0 <= m < v.buffers.len() && v.buffers[m] == so[i];
            assert(kb(v.buffers[m]) <==> v.buffers[m] != b);
        }
        lemma_bytes_without(so, kb, b);
        if s == b.owner {
            v.buffers.lemma_filter_contains(po, bi);
        } else {
            if so.contains(b) {
                let k = choose|k: int| 0 <= k < so.len() && so[k] == b;
                crate::seqs::lemma_filter_subset(v.buffers, po, k);
            }
        }
    }
}


/// When no handle belongs to session `owner` and no job of it holds
/// resources, reclamation drops every buffer of the session.
proof fn lemma_orphan_reclaim(m: RuntimeView, owner: u64)
    requires
        runtime_inv(m),
        forall|k: int| 0 <= k < m.objects.len() ==> (#[trigger] m.objects[k]).owner != owner,
        forall|k: int|
            0 <= k < m.jobs.len() && (#[trigger] m.jobs[k]).resources is Some ==> m.jobs[k].owner
                != owner,
    ensures
        forall|i: int| 0 <= i < reclaim(m).buffers.len() ==> (#[trigger] reclaim(m).buffers[i]).owner
            != owner,
        session_bytes(reclaim(m), owner) == 0,
{
    let w = reclaim(m);
    let pj = crate::model::job_keep(m);
    let pt = crate::model::tensor_keep(m, crate::model::kept_jobs(m));
    let pb = crate::model::buffer_keep(m, crate::model::kept_tensors(m));
    assert forall|i: int| 0 <= i < w.buffers.len() implies (#[trigger] w.buffers[i]).owner
        != owner by {
        let b = w.buffers[i];
        crate::seqs::lemma_filter_subset(m.buffers, pb, i);
        let n = choose|n: int| 0 <= n < m.buffers.len() && m.buffers[n] == b;
        assert(buffer(m, b.id) == b) by {
            assert(crate::model::buffer_index(m, b.id) == n);
        }
        if b.owner == owner {
            if crate::model::buffer_named(m, b.id) {
                let k = choose|k: int|
                    0 <= k < m.objects.len() && m.objects[k].object == Object::Buffer(b.id);
                assert(crate::model::object_owned(m, m.objects[k]));
            } else {
                let kt = crate::model::kept_tensors(m);
                let q = choose|q: int| 0 <= q < kt.len() && kt[q].buffer == b.id;
                let t = kt[q];
                crate::seqs::lemma_filter_subset(m.tensors, pt, q);
                let tn = choose|tn: int| 0 <= tn < m.tensors.len() && m.tensors[tn] == t;
                assert(tensor(m, t.id) == t) by {
                    assert(crate::model::tensor_index(m, t.id) == tn);
                }
                if crate::model::tensor_named(m, t.id) {
                    let k = choose|k: int|
                        0 <= k < m.objects.len() && m.objects[k].object == Object::Tensor(t.id);
                    assert(crate::model::object_owned(m, m.objects[k]));
                } else {
                    let kj = crate::model::kept_jobs(m);
                    let z = choose|z: int|
                        0 <= z < kj.len() && (#[trigger] kj[z].resources matches Some(r) && (
                        r.input == t.id || r.output == t.id));
                    let j = kj[z];
                    crate::seqs::lemma_filter_subset(m.jobs, pj, z);
                    let jn = choose|jn: int| 0 <= jn < m.jobs.len() && m.jobs[jn] == j;
                    assert(crate::model::job_owned(m, m.jobs[jn]));
                }
            }
        }
    }
    let f = w.buffers.filter(crate::model::buffer_owner_is(owner));
    assert(f.len() == 0) by {
        if f.len() > 0 {
            crate::seqs::lemma_filter_subset(w.buffers, crate::model::buffer_owner_is(owner), 0);
            let n = choose|n: int| 0 <= n < w.buffers.len() && w.buffers[n] == f[0];
            assert(w.buffers[n].owner != owner);
        }
    }
    assert(f =~= Seq::<crate::model::BufferView>::empty());
}

/// Disconnecting a session while one of its jobs runs: the session and its
/// handles are gone, none of its jobs stays queued, and the running job goes
/// on, flagged for cancellation. Once the worker reports that job, whatever
/// the backend returned, the job is gone and so is every buffer of the
/// session: its byte count is back to zero.
#[verifier::spinoff_prover]
#[verifier::rlimit(60)]
pub proof fn lemma_disconnect_running(v: RuntimeView, owner: u64, id: u64, result: Result<Seq<u8>, Error>)
    requires
        runtime_inv(v),
        v.sessions.contains(owner),
        has_job(v, id),
        job(v, id).owner == owner,
        job(v, id).status is Running,
        forall|k: int|
            0 <= k < v.jobs.len() && (#[trigger] v.jobs[k]).owner == owner && v.jobs[k].status is Running
                ==> v.jobs[k].id == id,
    ensures
        ({
            let w = spec_disconnect(v, owner);
            let z = spec_finish(w, id, result);
            &&& !w.sessions.contains(owner)
            &&& forall|k: int| 0 <= k < w.objects.len() ==> (#[trigger] w.objects[k]).owner != owner
            &&& has_job(w, id) && job(w, id).status is Running && job(w, id).cancelled
            &&& forall|k: int|
                0 <= k < w.jobs.len() && (#[trigger] w.jobs[k]).owner == owner ==> !(
                w.jobs[k].status is Queued)
            &&& !has_job(z, id)
            &&& forall|i: int| 0 <= i < z.buffers.len() ==> (#[trigger] z.buffers[i]).owner != owner
            &&& session_bytes(z, owner) == 0
        }),
{
    broadcast use vstd::seq_lib::group_filter_ensures;

    let dm = crate::preserve::disconnect_mid(v, owner);
    let w = spec_disconnect(v, owner);
    assert(w == reclaim(dm));
    crate::preserve::lemma_disconnect_mid(v, owner);
    crate::preserve::lemma_reclaim_inv(dm);
    let po = |e: crate::model::ObjEntry| e.owner != owner;
    assert forall|k: int| 0 <= k < w.objects.len() implies (#[trigger] w.objects[k]).owner
        != owner by {
        crate::seqs::lemma_filter_subset(v.objects, po, k);
    }
    assert(!w.sessions.contains(owner)) by {
        let p = crate::model::other_session(owner);
        if w.sessions.contains(owner) {
            let k = choose|k: int| 0 <= k < w.sessions.len() && w.sessions[k] == owner;
            crate::seqs::lemma_filter_subset(v.sessions, p, k);
        }
    }
    // the jobs of the session after disconnection
    let pj = crate::model::job_keep(dm);
    assert forall|k: int| 0 <= k < w.jobs.len() && (#[trigger] w.jobs[k]).owner == owner implies !(
    w.jobs[k].status is Queued) && (w.jobs[k].resources is Some ==> w.jobs[k].id == id) by {
        crate::seqs::lemma_filter_subset(dm.jobs, pj, k);
        let n = choose|n: int| 0 <= n < dm.jobs.len() && dm.jobs[n] == w.jobs[k];
        let vj = v.jobs[n];
        assert(vj.resources is Some <==> (vj.status is Queued || vj.status is Running));
        if vj.status is Queued {
            assert(job_named(v, vj.id));
            let m = choose|m: int| 0 <= m < v.objects.len() && v.objects[m].object == Object::Job(vj.id);
            assert(crate::model::object_resolves(v, v.objects[m]));
            assert(crate::model::job_index(v, vj.id) == n);
            assert(crate::model::owned_job(v, owner, vj.id));
        }
    }
    // the running job stays, flagged
    let k = crate::model::job_index(v, id);
    let vj = v.jobs[k];
    assert(dm.jobs[k].status is Running && dm.jobs[k].id == id);
    assert(dm.jobs[k].cancelled) by {
        if !crate::model::owned_job(v, owner, id) {
            if job_named(v, id) {
                let m = choose|m: int| 0 <= m < v.objects.len() && v.objects[m].object == Object::Job(id);
                assert(crate::model::object_resolves(v, v.objects[m]));
                assert(crate::model::owned_job(v, owner, id));
            }
        }
    }
    assert(has_job(dm, id)) by {
        assert(dm.jobs[k].id == id);
    }
    let dk = crate::model::job_index(dm, id);
    assert(dm.jobs[dk].id == v.jobs[dk].id);
    assert(dk == k);
    lemma_tables_same(v, dm);
    lemma_reclaim_keeps_job(dm, id);
    // the worker reports it
    let z = spec_finish(w, id, result);
    let i = crate::model::job_index(w, id);
    let j = w.jobs[i];
    assert(finish_result(w, j, result) == Err::<(), Error>(Error::Cancelled));
    let nj = JobRec {
        resources: None,
        error: Some(Error::Cancelled),
        status: terminal_status(Err(Error::Cancelled)),
        ..j
    };
    let mid = RuntimeView { jobs: w.jobs.update(i, nj), ..w };
    assert(z == reclaim(mid));
    assert(!w.queue.contains(id)) by {
        if w.queue.contains(id) {
            let q = choose|q: int| 0 <= q < w.queue.len() && w.queue[q] == id;
            assert(has_job(w, w.queue[q]) && job(w, w.queue[q]).status is Queued);
        }
    }
    crate::preserve::lemma_job_update_inv(w, id, nj);
    assert forall|q: int| 0 <= q < mid.jobs.len() && (#[trigger] mid.jobs[q]).resources is Some
        implies mid.jobs[q].owner != owner by {
        if q != i {
            assert(mid.jobs[q] == w.jobs[q]);
            if w.jobs[q].owner == owner {
                assert(w.jobs[q].id == id);
                assert(crate::model::job_index(w, id) == q);
            }
        }
    }
    lemma_orphan_reclaim(mid, owner);
    assert(!has_job(z, id)) by {
        if has_job(z, id) {
            let q = choose|q: int| 0 <= q < z.jobs.len() && z.jobs[q].id == id;
            crate::seqs::lemma_filter_subset(mid.jobs, crate::model::job_keep(mid), q);
            let n = choose|n: int| 0 <= n < mid.jobs.len() && mid.jobs[n] == z.jobs[q];
            assert(mid.jobs[n].id == w.jobs[n].id);
            assert(n == i);
            assert(job_kept(mid, mid.jobs[n]));
            if job_named(mid, id) {
                let m = choose|m: int| 0 <= m < mid.objects.len() && mid.objects[m].object == Object::Job(id);
                assert(crate::model::object_resolves(w, w.objects[m]));
            }
        }
    }
}


/// A sequence splits into what a predicate keeps and what its negation keeps.
proof fn lemma_filter_split<T>(s: Seq<T>, p: spec_fn(T) -> bool, q: spec_fn(T) -> bool)
    requires
        forall|x: T| #[trigger] q(x) == !p(x),
    ensures
        s.filter(p).len() + s.filter(q).len() == s.len(),
    decreases s.len(),
{
    reveal(Seq::filter);
    if s.len() > 0 {
        lemma_filter_split(s.drop_last(), p, q);
        assert(q(s.last()) == !p(s.last()));
    }
}

/// Dropping one element that occurs once shortens a sequence by one.
proof fn lemma_filter_drop_one(s: Seq<u64>, x: u64)
    requires
        s.no_duplicates(),
        s.contains(x),
    ensures
        s.filter(crate::model::other_session(x)).len() == s.len() - 1,
    decreases s.len(),
{
    reveal(Seq::filter);
    let d = s.drop_last();
    let p = crate::model::other_session(x);
    if s.last() == x {
        assert(!d.contains(x)) by {
            if d.contains(x) {
                let k = choose|k: int| 0 <= k < d.len() && d[k] == x;
                assert(s[k] == s[s.len() - 1]);
            }
        }
        assert forall|i: int| 0 <= i < d.len() implies p(#[trigger] d[i]) by {
            assert(d[i] != x);
        }
        crate::settle::lemma_filter_all(d, p);
    } else {
        let k = choose|k: int| 0 <= k < s.len() && s[k] == x;
        assert(d[k] == x);
        lemma_filter_drop_one(d, x);
    }
}

/// Disconnecting a live session removes exactly that session and exactly the
/// handles it held.
pub proof fn lemma_disconnect_counts(v: RuntimeView, owner: u64)
    requires
        runtime_inv(v),
        v.sessions.contains(owner),
    ensures
        spec_disconnect(v, owner).sessions.len() == v.sessions.len() - 1,
        spec_disconnect(v, owner).objects.len() == v.objects.len() - crate::model::owned(
            v,
            owner,
        ).len(),
{
    lemma_filter_drop_one(v.sessions, owner);
    let po = |e: crate::model::ObjEntry| e.owner != owner;
    lemma_filter_split(v.objects, crate::model::owner_is(owner), po);
    assert(spec_disconnect(v, owner).objects == reclaim(
        crate::preserve::disconnect_mid(v, owner),
    ).objects);
}


/// The kind of object a closing request names.
pub open spec fn close_kind(r: RequestView) -> bool {
    r is ModelClose || r is BufferFree || r is TensorRelease || r is JobRelease
}

/// `o` is a job that has not finished.
pub open spec fn unfinished_job(v: RuntimeView, o: Object) -> bool {
    o matches Object::Job(j) && !job(v, j).status.is_terminal()
}

/// Closing a handle: a handle the session does not hold, or one naming
/// another kind of object than the request closes, is `Invalid`; a job that
/// has not finished is `Busy`; both change nothing. Otherwise the reply is
/// empty, the handle leaves the session's table (later requests on it, such
/// as a status query, are `Invalid`), and the daemon holds one handle fewer.
#[verifier::spinoff_prover]
#[verifier::rlimit(40)]
pub proof fn lemma_close_rule<B: Backend>(v: RuntimeView, owner: u64, h: Handle, r: RequestView, backend: B)
    requires
        runtime_inv(v),
        v.sessions.contains(owner),
        close_kind(r),
        named_handle(r) == Some(h),
    ensures
        ({
            let (w, res) = spec_request(v, owner, r, backend);
            &&& lookup(v, owner, h) is None ==> (w, res) == (v, Err::<Seq<u8>, Error>(
                Error::Invalid,
            ))
            &&& (lookup(v, owner, h) matches Some(o) && !crate::model::close_matches(r, o)) ==> (
                w,
                res,
            ) == (v, Err::<Seq<u8>, Error>(Error::Invalid))
            &&& (lookup(v, owner, h) matches Some(o) && crate::model::close_matches(r, o)
                && unfinished_job(v, o)) ==> (w, res) == (v, Err::<
                Seq<u8>,
                Error,
            >(Error::Busy))
            &&& (lookup(v, owner, h) matches Some(o) && crate::model::close_matches(r, o)
                && !unfinished_job(v, o)) ==> {
                &&& res == Ok::<Seq<u8>, Error>(Seq::empty())
                &&& lookup(w, owner, h) is None
                &&& spec_request(w, owner, RequestView::JobStatus(h), backend).1 == Err::<
                    Seq<u8>,
                    Error,
                >(Error::Invalid)
                &&& w.objects.len() == v.objects.len() - 1
            }
        }),
{
    let (w, res) = spec_request(v, owner, r, backend);
    if let Some(o) = lookup(v, owner, h) {
        if crate::model::close_matches(r, o) && !unfinished_job(v, o) {
            let x = object_index(v, owner, h);
            let mid = RuntimeView { objects: v.objects.remove(x), ..v };
            assert(w == reclaim(mid));
            assert(w.objects == mid.objects);
            assert(!has_object(w, owner, h)) by {
                if has_object(w, owner, h) {
                    let k = choose|k: int|
                        0 <= k < w.objects.len() && w.objects[k].owner == owner
                            && w.objects[k].handle == h;
                    if k < x {
                        assert(w.objects[k] == v.objects[k]);
                    } else {
                        assert(w.objects[k] == v.objects[k + 1]);
                    }
                }
            }
        }
    }
}


/// Handles held by the sessions in `ss`, counted session by session.
pub open spec fn handles_of(v: RuntimeView, ss: Seq<u64>) -> int
    decreases ss.len(),
{
    if ss.len() == 0 {
        0
    } else {
        handles_of(v, ss.drop_last()) + crate::model::owned(v, ss.last()).len()
    }
}

/// Handles whose session is one of `ss`.
pub open spec fn held_by(ss: Seq<u64>) -> spec_fn(crate::model::ObjEntry) -> bool {
    |e: crate::model::ObjEntry| ss.contains(e.owner)
}

/// Adding a session to `d` adds exactly its handles.
proof fn lemma_held_by_push(t: Seq<crate::model::ObjEntry>, d: Seq<u64>, x: u64)
    requires
        !d.contains(x),
    ensures
        t.filter(held_by(d.push(x))).len() == t.filter(held_by(d)).len() + t.filter(
            crate::model::owner_is(x),
        ).len(),
    decreases t.len(),
{
    reveal(Seq::filter);
    if t.len() > 0 {
        lemma_held_by_push(t.drop_last(), d, x);
        let e = t.last();
        assert(d.push(x).contains(e.owner) <==> (d.contains(e.owner) || e.owner == x)) by {
            if d.push(x).contains(e.owner) {
                let k = choose|k: int| 0 <= k < d.push(x).len() && d.push(x)[k] == e.owner;
                if k < d.len() {
                    assert(d[k] == e.owner);
                }
            }
            if d.contains(e.owner) {
                let k = choose|k: int| 0 <= k < d.len() && d[k] == e.owner;
                assert(d.push(x)[k] == e.owner);
            }
            if e.owner == x {
                assert(d.push(x)[d.len() as int] == x);
            }
        }
    }
}

proof fn lemma_handles_of(v: RuntimeView, ss: Seq<u64>)
    requires
        ss.no_duplicates(),
    ensures
        handles_of(v, ss) == v.objects.filter(held_by(ss)).len(),
    decreases ss.len(),
{
    if ss.len() == 0 {
        assert forall|i: int| 0 <= i < v.objects.len() implies !held_by(ss)(#[trigger] v.objects[i]) by {}
        lemma_filter_none(v.objects, held_by(ss));
    } else {
        let d = ss.drop_last();
        let x = ss.last();
        assert(d.no_duplicates());
        assert(!d.contains(x)) by {
            if d.contains(x) {
                let k = choose|k: int| 0 <= k < d.len() && d[k] == x;
                assert(ss[k] == ss[ss.len() - 1]);
            }
        }
        lemma_handles_of(v, d);
        assert(d.push(x) == ss);
        lemma_held_by_push(v.objects, d, x);
    }
}

/// What the daemon's counters report: the handles of all live sessions,
/// counted session by session, are exactly the handles the daemon holds;
/// backing bytes stay within the daemon's and each session's quota.
pub proof fn lemma_counters(v: RuntimeView, s: u64)
    requires
        runtime_inv(v),
    ensures
        handles_of(v, v.sessions) == v.objects.len(),
        crate::model::live_bytes(v) <= crate::types::GLOBAL_MEMORY,
        session_bytes(v, s) <= crate::types::SESSION_MEMORY,
{
    lemma_handles_of(v, v.sessions);
    assert forall|i: int| 0 <= i < v.objects.len() implies held_by(v.sessions)(#[trigger] v.objects[i]) by {}
    crate::settle::lemma_filter_all(v.objects, held_by(v.sessions));
}


/// Reading an unpinned buffer that the session holds gives its current
/// contents, whether the session allocated it or imported it as shared
/// memory, and changes nothing.
pub proof fn lemma_read_gives_contents<B: Backend>(
    v: RuntimeView,
    owner: u64,
    h: Handle,
    backend: B,
)
    requires
        v.sessions.contains(owner),
        lookup(v, owner, h) matches Some(Object::Buffer(b)) && !pinned(v, b),
    ensures
        spec_request(v, owner, RequestView::BufferRead(h), backend) == (v, Ok::<Seq<u8>, Error>(
            buffer(v, lookup(v, owner, h)->Some_0->Buffer_0).data,
        )),
{
}

/// Shared memory a session imports reads back as exactly the imported bytes
/// under the handle the import returned.
pub proof fn lemma_import_then_read<B: Backend>(
    v: RuntimeView,
    owner: u64,
    size: u32,
    data: Seq<u8>,
    backend: B,
)
    requires
        runtime_inv(v),
        crate::model::spec_import(v, owner, size, Ok(data)).1 is Ok,
    ensures
        crate::model::spec_import(v, owner, size, Ok(data)).1 == Ok::<Seq<u8>, Error>(
            crate::codec::le64(v.next),
        ),
        ({
            let w = crate::model::spec_import(v, owner, size, Ok(data)).0;
            spec_request(w, owner, RequestView::BufferRead(v.next), backend) == (w, Ok::<
                Seq<u8>,
                Error,
            >(data))
        }),
{
    let w = crate::model::spec_import(v, owner, size, Ok(data)).0;
    let b = crate::model::BufferView { id: v.next, owner, data, shared: true };
    lemma_fresh_handle(v, owner, Object::Buffer(v.next));
    crate::preserve::lemma_add_buffer_inv(v, owner, b);
    let k = v.objects.len() as int;
    assert(w.objects[k].owner == owner && w.objects[k].handle == v.next);
    assert(has_object(w, owner, v.next));
    assert(object_index(w, owner, v.next) == k);
    let n = v.buffers.len() as int;
    assert(w.buffers[n] == b);
    assert(buffer_index_is(w, v.next, n));
    assert(w.sessions == v.sessions);
    assert(!pinned(w, v.next)) by {
        if pinned(w, v.next) {
            let q = choose|q: int| 0 <= q < w.jobs.len() && job_pins(w, w.jobs[q], v.next);
            let rs = w.jobs[q].resources->Some_0;
            assert(v.jobs[q] == w.jobs[q]);
            assert(crate::model::has_tensor(v, rs.input) && crate::model::has_tensor(v, rs.output));
            lemma_tables_same(v, w);
            assert(w.tensors == v.tensors);
            let ti = crate::model::tensor_index(v, rs.input);
            let to = crate::model::tensor_index(v, rs.output);
            assert(has_buffer(v, v.tensors[ti].buffer));
            assert(has_buffer(v, v.tensors[to].buffer));
            let bi = crate::model::buffer_index(v, v.tensors[ti].buffer);
            let bo = crate::model::buffer_index(v, v.tensors[to].buffer);
            assert(v.buffers[bi].id < v.next);
            assert(v.buffers[bo].id < v.next);
        }
    }
    lemma_read_gives_contents(w, owner, v.next, backend);
}

} // verus!
