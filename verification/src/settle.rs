//! Proofs that every runtime step leaves a settled state: whatever nothing
//! retains any more is gone as soon as the step ends.
use crate::backend::Backend;
use crate::model::{
    buffer, buffer_kept, cancel_rec, finish_result, job_index, job_kept, kept_jobs, kept_tensors,
    lookup, object_index, reclaim, runtime_inv, settled, spec_begin, tensor, terminal_status, with_data, JobRec,
    spec_connect, spec_disconnect, spec_finish, spec_import, spec_request, spec_shutdown,
    tensor_kept, Object, RuntimeView,
};
use crate::request::RequestView;
use crate::types::Error;
use crate::seqs::lemma_filter_subset;
use vstd::prelude::*;

verus! {

/// Filtering by a predicate that every element satisfies changes nothing.
pub proof fn lemma_filter_all<T>(s: Seq<T>, p: spec_fn(T) -> bool)
    requires
        forall|i: int| 0 <= i < s.len() ==> p(#[trigger] s[i]),
    ensures
        s.filter(p) == s,
    decreases s.len(),
{
    reveal(Seq::filter);
    if s.len() > 0 {
        let d = s.drop_last();
        assert forall|i: int| 0 <= i < d.len() implies p(#[trigger] d[i]) by {
            assert(d[i] == s[i]);
        }
        lemma_filter_all(d, p);
        assert(p(s[s.len() - 1]));
        assert(d.push(s.last()) =~= s);
    }
}

/// A settled state is what reclamation gives back unchanged.
pub proof fn lemma_settled_fixed(v: RuntimeView)
    requires
        settled(v),
    ensures
        reclaim(v) == v,
{
    lemma_filter_all(v.jobs, crate::model::job_keep(v));
    assert(kept_jobs(v) == v.jobs);
    lemma_filter_all(v.tensors, crate::model::tensor_keep(v, v.jobs));
    assert(kept_tensors(v) == v.tensors);
    lemma_filter_all(v.buffers, crate::model::buffer_keep(v, v.tensors));
    assert(reclaim(v) =~= v);
}

/// Reclamation leaves a settled state.
pub proof fn lemma_settled_reclaim(m: RuntimeView)
    ensures
        settled(reclaim(m)),
{
    let w = reclaim(m);
    assert forall|i: int| 0 <= i < w.jobs.len() implies job_kept(w, #[trigger] w.jobs[i]) by {
        lemma_filter_subset(m.jobs, crate::model::job_keep(m), i);
    }
    assert forall|i: int| 0 <= i < w.tensors.len() implies tensor_kept(
        w,
        w.jobs,
        #[trigger] w.tensors[i],
    ) by {
        lemma_filter_subset(m.tensors, crate::model::tensor_keep(m, kept_jobs(m)), i);
    }
    assert forall|i: int| 0 <= i < w.buffers.len() implies buffer_kept(
        w,
        w.tensors,
        #[trigger] w.buffers[i],
    ) by {
        lemma_filter_subset(m.buffers, crate::model::buffer_keep(m, kept_tensors(m)), i);
    }
}

/// A step that only adds handles, keeps every record where it was (a job
/// may move from queued to running), and adds records that are retained,
/// leaves a settled state settled.
pub proof fn lemma_settled_grow(v: RuntimeView, w: RuntimeView)
    requires
        settled(v),
        w.objects.len() >= v.objects.len(),
        forall|k: int| 0 <= k < v.objects.len() ==> w.objects[k] == v.objects[k],
        w.jobs.len() >= v.jobs.len(),
        forall|k: int|
            0 <= k < v.jobs.len() ==> w.jobs[k].id == v.jobs[k].id && w.jobs[k].resources
                == v.jobs[k].resources && ((v.jobs[k].status is Queued || v.jobs[k].status is Running)
                ==> (w.jobs[k].status is Queued || w.jobs[k].status is Running)),
        forall|k: int| v.jobs.len() <= k < w.jobs.len() ==> job_kept(w, #[trigger] w.jobs[k]),
        w.tensors.len() >= v.tensors.len(),
        forall|k: int| 0 <= k < v.tensors.len() ==> w.tensors[k] == v.tensors[k],
        forall|k: int|
            v.tensors.len() <= k < w.tensors.len() ==> tensor_kept(w, w.jobs, #[trigger] w.tensors[k]),
        w.buffers.len() >= v.buffers.len(),
        forall|k: int| 0 <= k < v.buffers.len() ==> w.buffers[k].id == v.buffers[k].id,
        forall|k: int|
            v.buffers.len() <= k < w.buffers.len() ==> buffer_kept(w, w.tensors, #[trigger] w.buffers[k]),
    ensures
        settled(w),
{
    assert forall|i: int| 0 <= i < w.jobs.len() implies job_kept(w, #[trigger] w.jobs[i]) by {
        if i < v.jobs.len() {
            assert(job_kept(v, v.jobs[i]));
            if crate::model::job_named(v, v.jobs[i].id) {
                let k = choose|k: int|
                    0 <= k < v.objects.len() && v.objects[k].object == Object::Job(v.jobs[i].id);
                assert(w.objects[k] == v.objects[k]);
            }
        }
    }
    assert forall|i: int| 0 <= i < w.tensors.len() implies tensor_kept(
        w,
        w.jobs,
        #[trigger] w.tensors[i],
    ) by {
        if i < v.tensors.len() {
            let t = v.tensors[i];
            assert(tensor_kept(v, v.jobs, t));
            if crate::model::tensor_named(v, t.id) {
                let k = choose|k: int|
                    0 <= k < v.objects.len() && v.objects[k].object == Object::Tensor(t.id);
                assert(w.objects[k] == v.objects[k]);
            } else {
                let k = choose|k: int|
                    0 <= k < v.jobs.len() && (#[trigger] v.jobs[k].resources matches Some(r) && (r.input
                        == t.id || r.output == t.id));
                assert(w.jobs[k].resources == v.jobs[k].resources);
            }
        }
    }
    assert forall|i: int| 0 <= i < w.buffers.len() implies buffer_kept(
        w,
        w.tensors,
        #[trigger] w.buffers[i],
    ) by {
        if i < v.buffers.len() {
            let b = v.buffers[i];
            assert(buffer_kept(v, v.tensors, b));
            assert(w.buffers[i].id == b.id);
            if crate::model::buffer_named(v, b.id) {
                let k = choose|k: int|
                    0 <= k < v.objects.len() && v.objects[k].object == Object::Buffer(b.id);
                assert(w.objects[k] == v.objects[k]);
            } else {
                let k = choose|k: int| 0 <= k < v.tensors.len() && v.tensors[k].buffer == b.id;
                assert(w.tensors[k] == v.tensors[k]);
            }
        }
    }
}

/// Every request leaves a settled state settled.
#[verifier::spinoff_prover]
#[verifier::rlimit(40)]
pub proof fn lemma_settled_request<B: Backend>(v: RuntimeView, owner: u64, r: RequestView, backend: B)
    requires
        runtime_inv(v),
        settled(v),
    ensures
        settled(spec_request(v, owner, r, backend).0),
{
    let w = spec_request(v, owner, r, backend).0;
    if w != v {
        match r {
            RequestView::JobCancel(h) => {
                if let Some(Object::Job(j)) = lookup(v, owner, h) {
                    let i = job_index(v, j);
                    let mid = RuntimeView {
                        jobs: v.jobs.update(i, cancel_rec(v.jobs[i])),
                        queue: v.queue.filter(|q: u64| q != j),
                        ..v
                    };
                    assert(w == reclaim(mid));
                    lemma_settled_reclaim(mid);
                }
            },
            RequestView::ModelClose(h) | RequestView::BufferFree(h) | RequestView::TensorRelease(h)
            | RequestView::JobRelease(h) => {
                let mid = RuntimeView { objects: v.objects.remove(object_index(v, owner, h)), ..v };
                assert(w == reclaim(mid));
                lemma_settled_reclaim(mid);
            },
            RequestView::BufferAlloc(_) => {
                let n = v.objects.len() as int;
                assert(w.objects[n].object == Object::Buffer(v.next));
                assert(w.buffers[v.buffers.len() as int].id == v.next);
                lemma_settled_grow(v, w);
            },
            RequestView::TensorCreate { .. } => {
                let n = v.objects.len() as int;
                assert(w.objects[n].object == Object::Tensor(v.next));
                assert(w.tensors[v.tensors.len() as int].id == v.next);
                lemma_settled_grow(v, w);
            },
            RequestView::BufferWrite { buffer, .. } => {
                assert(crate::model::object_resolves(v, v.objects[object_index(v, owner, buffer)]));
                lemma_settled_grow(v, w);
            },
            _ => {
                lemma_settled_grow(v, w);
            },
        }
    }
}

/// Opening a session changes no record.
pub proof fn lemma_settled_connect(v: RuntimeView)
    requires
        settled(v),
    ensures
        settled(spec_connect(v).0),
{
    lemma_settled_grow(v, spec_connect(v).0);
}

/// Closing a session reclaims at once.
pub proof fn lemma_settled_disconnect(v: RuntimeView, owner: u64)
    requires
        settled(v),
    ensures
        settled(spec_disconnect(v, owner)),
{
    if v.sessions.contains(owner) {
        lemma_settled_reclaim(crate::preserve::disconnect_mid(v, owner));
    }
}

/// Stopping reclaims at once.
pub proof fn lemma_settled_shutdown(v: RuntimeView)
    ensures
        settled(spec_shutdown(v)),
{
    lemma_settled_reclaim(crate::preserve::shutdown_mid(v));
}

/// Starting the next job keeps it retained: it runs.
pub proof fn lemma_settled_begin(v: RuntimeView)
    requires
        runtime_inv(v),
        settled(v),
    ensures
        settled(spec_begin(v)),
{
    if !(v.stopping || v.queue.len() == 0) {
        assert(crate::model::has_job(v, v.queue[0]));
    }
    lemma_settled_grow(v, spec_begin(v));
}

/// Finishing a job reclaims at once.
pub proof fn lemma_settled_finish(v: RuntimeView, id: u64, result: Result<Seq<u8>, Error>)
    requires
        settled(v),
    ensures
        settled(spec_finish(v, id, result)),
{
    let w = spec_finish(v, id, result);
    if w != v {
        let i = job_index(v, id);
        let j = v.jobs[i];
        let t = tensor(v, j.resources->Some_0.output);
        let fr = finish_result(v, j, result);
        let written = if fr is Ok {
            let old = buffer(v, t.buffer).data;
            with_data(
                v,
                t.buffer,
                old.subrange(0, t.start) + result->Ok_0 + old.subrange(t.end, old.len() as int),
            )
        } else {
            v
        };
        let nj = JobRec {
            resources: None,
            error: match fr {
                Ok(_) => None,
                Err(e) => Some(e),
            },
            status: terminal_status(fr),
            ..j
        };
        let mid = RuntimeView { jobs: written.jobs.update(i, nj), ..written };
        assert(w == reclaim(mid));
        lemma_settled_reclaim(mid);
    }
}

/// Adopting shared memory adds a buffer that its new handle names.
pub proof fn lemma_settled_import(
    v: RuntimeView,
    owner: u64,
    size: u32,
    shared: Result<Seq<u8>, Error>,
)
    requires
        settled(v),
    ensures
        settled(spec_import(v, owner, size, shared).0),
{
    let w = spec_import(v, owner, size, shared).0;
    if w != v {
        let n = v.objects.len() as int;
        assert(w.objects[n].object == Object::Buffer(v.next));
        assert(w.buffers[v.buffers.len() as int].id == v.next);
        lemma_settled_grow(v, w);
    }
}

} // verus!
