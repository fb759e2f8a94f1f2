//! Proofs that every runtime operation keeps `records`: a job's error agrees
//! with its status, a running job that lost its handle is flagged for
//! cancellation, and owners are identifiers issued before.
use crate::model::{
    cancel_rec, has_job, has_object, job, job_index, job_named, lookup, object_index, object_resolves, owned_job, reclaim, records, runtime_inv,
    status_error_agree, JobRec, ObjEntry, Object, RuntimeView,
};
use crate::preserve::{disconnect_mid, shutdown_mid};
use crate::seqs::lemma_filter_subset;
use vstd::prelude::*;

verus! {

/// A handle naming a job in `v` still names it in `w` when `w`'s handles
/// extend `v`'s.
proof fn lemma_named_prefix(v: RuntimeView, w: RuntimeView, id: u64)
    requires
        w.objects.len() >= v.objects.len(),
        forall|k: int| 0 <= k < v.objects.len() ==> w.objects[k] == v.objects[k],
        job_named(v, id),
    ensures
        job_named(w, id),
{
    let k = choose|k: int| 0 <= k < v.objects.len() && v.objects[k].object == Object::Job(id);
    assert(w.objects[k] == v.objects[k]);
}

/// Records carry over to a state with the same jobs, more handles, a later
/// next identifier and buffers whose owners are kept or are live sessions.
pub proof fn lemma_records_carry(v: RuntimeView, w: RuntimeView)
    requires
        records(v),
        w.jobs == v.jobs,
        v.next <= w.next,
        w.objects.len() >= v.objects.len(),
        forall|k: int| 0 <= k < v.objects.len() ==> w.objects[k] == v.objects[k],
        w.buffers.len() >= v.buffers.len(),
        forall|k: int| 0 <= k < v.buffers.len() ==> w.buffers[k].owner == v.buffers[k].owner,
        forall|k: int| v.buffers.len() <= k < w.buffers.len() ==> w.buffers[k].owner < w.next,
    ensures
        records(w),
{
    assert forall|i: int|
        0 <= i < w.jobs.len() && (#[trigger] w.jobs[i]).status is Running && !job_named(
            w,
            w.jobs[i].id,
        ) implies w.jobs[i].cancelled by {
        if job_named(v, v.jobs[i].id) {
            lemma_named_prefix(v, w, v.jobs[i].id);
        }
    }
    assert forall|i: int| 0 <= i < w.buffers.len() implies (#[trigger] w.buffers[i]).owner
        < w.next by {
        if i < v.buffers.len() {
            assert(v.buffers[i].owner < v.next);
        }
    }
}

/// Reclamation drops records but changes none.
pub proof fn lemma_records_reclaim(v: RuntimeView)
    requires
        records(v),
    ensures
        records(reclaim(v)),
{
    let w = reclaim(v);
    assert forall|i: int| 0 <= i < w.jobs.len() implies status_error_agree(#[trigger] w.jobs[i])
        && w.jobs[i].owner < w.next && (w.jobs[i].status is Running && !job_named(
        w,
        w.jobs[i].id,
    ) ==> w.jobs[i].cancelled) by {
        lemma_filter_subset(v.jobs, crate::model::job_keep(v), i);
        let k = choose|k: int| 0 <= k < v.jobs.len() && v.jobs[k] == w.jobs[i];
        assert(status_error_agree(v.jobs[k]));
    }
    assert forall|i: int| 0 <= i < w.buffers.len() implies (#[trigger] w.buffers[i]).owner
        < w.next by {
        lemma_filter_subset(
            v.buffers,
            crate::model::buffer_keep(v, crate::model::kept_tensors(v)),
            i,
        );
        let k = choose|k: int| 0 <= k < v.buffers.len() && v.buffers[k] == w.buffers[i];
        assert(v.buffers[k].owner < v.next);
    }
}

/// A new queued job of a live session, named by a new handle.
pub proof fn lemma_records_submit(v: RuntimeView, w: RuntimeView, nj: JobRec, e: ObjEntry)
    requires
        records(v),
        w.next == v.next + 1,
        w.buffers == v.buffers,
        w.objects == v.objects.push(e),
        w.jobs == v.jobs.push(nj),
        nj.status is Queued,
        nj.error is None,
        nj.owner < v.next,
    ensures
        records(w),
{
    assert forall|i: int|
        0 <= i < w.jobs.len() && (#[trigger] w.jobs[i]).status is Running && !job_named(
            w,
            w.jobs[i].id,
        ) implies w.jobs[i].cancelled by {
        assert(i < v.jobs.len());
        assert(w.jobs[i] == v.jobs[i]);
        if job_named(v, v.jobs[i].id) {
            lemma_named_prefix(v, w, v.jobs[i].id);
        }
    }
    assert forall|i: int| 0 <= i < w.jobs.len() implies status_error_agree(#[trigger] w.jobs[i])
        && w.jobs[i].owner < w.next by {
        if i < v.jobs.len() {
            assert(w.jobs[i] == v.jobs[i]);
        }
    }
    assert forall|i: int| 0 <= i < w.buffers.len() implies (#[trigger] w.buffers[i]).owner
        < w.next by {}
}

/// Replacing one job record by one with the same identity and owner, whose
/// error agrees with its status and which is flagged if it runs unnamed.
pub proof fn lemma_records_job_update(v: RuntimeView, w: RuntimeView, id: u64, nj: JobRec)
    requires
        records(v),
        has_job(v, id),
        w.jobs == v.jobs.update(job_index(v, id), nj),
        w.objects == v.objects,
        w.buffers == v.buffers,
        w.next == v.next,
        nj.id == id,
        nj.owner == job(v, id).owner,
        status_error_agree(nj),
        nj.status is Running && !job_named(v, id) ==> nj.cancelled,
    ensures
        records(w),
{
    let m = job_index(v, id);
    assert forall|i: int| 0 <= i < w.jobs.len() implies status_error_agree(#[trigger] w.jobs[i])
        && w.jobs[i].owner < w.next && (w.jobs[i].status is Running && !job_named(
        w,
        w.jobs[i].id,
    ) ==> w.jobs[i].cancelled) by {
        assert(v.jobs[i].owner < v.next);
        assert(status_error_agree(v.jobs[i]));
    }
}

/// Cancelling a record keeps its error in agreement with its status, and
/// flags it if it runs.
pub proof fn lemma_cancel_rec_agrees(j: JobRec)
    requires
        status_error_agree(j),
    ensures
        status_error_agree(cancel_rec(j)),
        cancel_rec(j).status is Running ==> cancel_rec(j).cancelled,
        cancel_rec(j).status is Running ==> j.status is Running,
        cancel_rec(j).id == j.id,
        cancel_rec(j).owner == j.owner,
{
}

/// Removing a handle that names no unfinished job.
pub proof fn lemma_records_close(v: RuntimeView, owner: u64, h: u64)
    requires
        runtime_inv(v),
        has_object(v, owner, h),
        lookup(v, owner, h) matches Some(Object::Job(j)) ==> job(v, j).status.is_terminal(),
    ensures
        records(RuntimeView { objects: v.objects.remove(object_index(v, owner, h)), ..v }),
{
    let x = object_index(v, owner, h);
    let w = RuntimeView { objects: v.objects.remove(x), ..v };
    assert forall|i: int|
        0 <= i < w.jobs.len() && (#[trigger] w.jobs[i]).status is Running && !job_named(
            w,
            w.jobs[i].id,
        ) implies w.jobs[i].cancelled by {
        let r = v.jobs[i];
        if job_named(v, r.id) {
            let k = choose|k: int| 0 <= k < v.objects.len() && v.objects[k].object == Object::Job(r.id);
            if k == x {
                assert(lookup(v, owner, h) == Some(Object::Job(r.id)));
                assert(has_job(v, r.id));
                let ji = job_index(v, r.id);
                assert(v.jobs[ji].id == r.id);
                assert(ji == i);
            } else if k < x {
                assert(w.objects[k] == v.objects[k]);
            } else {
                assert(w.objects[k - 1] == v.objects[k]);
            }
        }
    }
}

/// Session `owner` goes away: its named jobs are cancelled and flagged, and a
/// running job keeps a handle unless that handle was the session's.
#[verifier::spinoff_prover]
pub proof fn lemma_records_disconnect(v: RuntimeView, owner: u64)
    requires
        runtime_inv(v),
    ensures
        records(disconnect_mid(v, owner)),
{
    broadcast use vstd::seq_lib::group_filter_ensures;

    let w = disconnect_mid(v, owner);
    assert forall|i: int| 0 <= i < w.jobs.len() implies status_error_agree(#[trigger] w.jobs[i])
        && w.jobs[i].owner < w.next && (w.jobs[i].status is Running && !job_named(
        w,
        w.jobs[i].id,
    ) ==> w.jobs[i].cancelled) by {
        let r = v.jobs[i];
        assert(status_error_agree(r));
        lemma_cancel_rec_agrees(r);
        assert(r.owner < v.next);
        if w.jobs[i].status is Running && !owned_job(v, owner, r.id) && job_named(v, r.id) {
            assert(w.jobs[i] == r);
            let k = choose|k: int| 0 <= k < v.objects.len() && v.objects[k].object == Object::Job(r.id);
            assert(v.objects[k].owner != owner);
            let p = |e: ObjEntry| e.owner != owner;
            v.objects.lemma_filter_contains(p, k);
            assert(w.objects.contains(v.objects[k]));
            let m = choose|m: int| 0 <= m < w.objects.len() && w.objects[m] == v.objects[k];
            assert(w.objects[m].object == Object::Job(r.id));
        }
    }
}

/// The daemon stops: every named job is cancelled, and unnamed running jobs
/// were flagged already.
pub proof fn lemma_records_shutdown(v: RuntimeView)
    requires
        runtime_inv(v),
    ensures
        records(shutdown_mid(v)),
{
    let w = shutdown_mid(v);
    assert forall|i: int| 0 <= i < w.jobs.len() implies status_error_agree(#[trigger] w.jobs[i])
        && w.jobs[i].owner < w.next && (w.jobs[i].status is Running ==> w.jobs[i].cancelled) by {
        let r = v.jobs[i];
        assert(status_error_agree(r));
        lemma_cancel_rec_agrees(r);
        assert(r.owner < v.next);
    }
    assert forall|i: int| 0 <= i < w.buffers.len() implies (#[trigger] w.buffers[i]).owner
        < w.next by {
        assert(v.buffers[i].owner < v.next);
    }
}

} // verus!
