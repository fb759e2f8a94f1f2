//! Proofs that every runtime operation keeps `custody`: handles, tensors and
//! jobs use only their own session's buffers, queued jobs stay named and no
//! buffer is pinned by two jobs.
use crate::model::{
    buffer, buffer_index, buffer_keep, cancel_rec, custody, has_buffer, has_job, has_object,
    has_tensor, job, job_index, job_keep, job_named, job_owned, kept_jobs, kept_tensors, lookup,
    object_index, object_owned, object_resolves, owned_job, reclaim, runtime_inv, sound, tensor,
    exclusive_pins, job_pins, pinned,
    tensor_index, tensor_keep, with_data, JobRec, ObjEntry, Object, Resources, RuntimeView,
};
use crate::preserve::{
    disconnect_mid, lemma_buffer_stable, lemma_tables_same, lemma_tensor_stable, shutdown_mid,
};
use crate::seqs::lemma_filter_subset;
use crate::types::JobStatus;
use vstd::prelude::*;

verus! {

/// Lookups of buffers, tensors and jobs agree between two states on every
/// identifier the first one holds.
pub open spec fn lookups_agree(v: RuntimeView, w: RuntimeView) -> bool {
    &&& forall|b: u64|
        #![trigger has_buffer(w, b)]
        has_buffer(v, b) ==> has_buffer(w, b) && buffer(w, b).owner == buffer(v, b).owner
    &&& forall|t: u64|
        #![trigger has_tensor(w, t)]
        has_tensor(v, t) ==> has_tensor(w, t) && tensor(w, t).buffer == tensor(v, t).buffer
}

/// Pins stay exclusive in a state whose unfinished jobs are jobs of `v` with
/// the same resources, viewing the same buffers.
proof fn lemma_pins_transfer(v: RuntimeView, w: RuntimeView)
    requires
        runtime_inv(v),
        forall|i: int, k: int|
            0 <= i < w.jobs.len() && 0 <= k < w.jobs.len() && i != k ==> w.jobs[i].id
                != w.jobs[k].id,
        forall|i: int|
            0 <= i < w.jobs.len() && (#[trigger] w.jobs[i]).resources is Some ==> same_pins(v, w, i),
    ensures
        exclusive_pins(w),
{
    assert forall|i: int|
        0 <= i < w.jobs.len() && (#[trigger] w.jobs[i]).resources is Some implies tensor(
        w,
        w.jobs[i].resources->Some_0.input,
    ).buffer != tensor(w, w.jobs[i].resources->Some_0.output).buffer by {
        assert(same_pins(v, w, i));
        let m = choose|m: int|
            0 <= m < v.jobs.len() && v.jobs[m].id == w.jobs[i].id && v.jobs[m].resources
                == w.jobs[i].resources;
        assert(v.jobs[m].resources is Some);
    }
    assert forall|i: int, k: int, b: u64|
        0 <= i < w.jobs.len() && 0 <= k < w.jobs.len() && i != k && #[trigger] job_pins(
            w,
            w.jobs[i],
            b,
        ) implies !#[trigger] job_pins(w, w.jobs[k], b) by {
        if job_pins(w, w.jobs[k], b) {
            assert(same_pins(v, w, i));
            assert(same_pins(v, w, k));
            let mi = choose|m: int|
                0 <= m < v.jobs.len() && v.jobs[m].id == w.jobs[i].id && v.jobs[m].resources
                    == w.jobs[i].resources;
            let mk = choose|m: int|
                0 <= m < v.jobs.len() && v.jobs[m].id == w.jobs[k].id && v.jobs[m].resources
                    == w.jobs[k].resources;
            assert(w.jobs[i].id != w.jobs[k].id);
            assert(mi != mk);
            assert(job_pins(v, v.jobs[mi], b));
            assert(job_pins(v, v.jobs[mk], b));
        }
    }
}

/// Job `i` of `w` is a job of `v` with the same resources, and its tensors
/// view the same buffers in both states.
pub open spec fn same_pins(v: RuntimeView, w: RuntimeView, i: int) -> bool {
    let r = w.jobs[i].resources->Some_0;
    &&& exists|m: int|
        0 <= m < v.jobs.len() && v.jobs[m].id == w.jobs[i].id && v.jobs[m].resources
            == w.jobs[i].resources
    &&& tensor(w, r.input).buffer == tensor(v, r.input).buffer
    &&& tensor(w, r.output).buffer == tensor(v, r.output).buffer
}

/// Custody carries over to a state whose handles are those of `v`, or `v`'s
/// with `extra` added at the end, and whose jobs are those of `v`, as long as
/// lookups agree and the added handle is owned.
proof fn lemma_custody_carry(v: RuntimeView, w: RuntimeView, extra: Option<ObjEntry>)
    requires
        runtime_inv(v),
        lookups_agree(v, w),
        w.jobs == v.jobs,
        match extra {
            None => w.objects == v.objects,
            Some(e) => w.objects == v.objects.push(e) && object_owned(w, e),
        },
    ensures
        custody(w),
{
    assert forall|i: int| 0 <= i < w.objects.len() implies object_owned(w, #[trigger] w.objects[i]) by {
        if i < v.objects.len() {
            let e = v.objects[i];
            assert(w.objects[i] == e);
            assert(object_owned(v, e));
            assert(object_resolves(v, e));
            match e.object {
                Object::Buffer(b) => {
                    assert(has_buffer(w, b));
                },
                Object::Tensor(t) => {
                    assert(has_tensor(w, t));
                    let ti = tensor_index(v, t);
                    assert(has_buffer(v, v.tensors[ti].buffer));
                    assert(has_buffer(w, tensor(v, t).buffer));
                },
                _ => {},
            }
        }
    }
    assert forall|i: int| 0 <= i < w.jobs.len() implies job_owned(w, #[trigger] w.jobs[i]) by {
        let j = v.jobs[i];
        assert(job_owned(v, j));
        if let Some(r) = j.resources {
            assert(has_tensor(v, r.input) && has_tensor(v, r.output));
            assert(has_tensor(w, r.input));
            assert(has_tensor(w, r.output));
            let a = tensor_index(v, r.input);
            let b = tensor_index(v, r.output);
            assert(has_buffer(v, v.tensors[a].buffer));
            assert(has_buffer(v, v.tensors[b].buffer));
            assert(has_buffer(w, tensor(v, r.input).buffer));
            assert(has_buffer(w, tensor(v, r.output).buffer));
        }
    }
    assert forall|i: int|
        0 <= i < w.jobs.len() && (#[trigger] w.jobs[i]).status is Queued implies job_named(
        w,
        w.jobs[i].id,
    ) by {
        assert(job_named(v, v.jobs[i].id));
        let k = choose|k: int|
            0 <= k < v.objects.len() && v.objects[k].object == Object::Job(v.jobs[i].id);
        assert(w.objects[k] == v.objects[k]);
    }
    assert forall|i: int|
        0 <= i < w.jobs.len() && (#[trigger] w.jobs[i]).resources is Some implies same_pins(v, w, i) by {
        let r = w.jobs[i].resources->Some_0;
        assert(v.jobs[i] == w.jobs[i]);
        assert(has_tensor(v, r.input) && has_tensor(v, r.output));
        assert(has_tensor(w, r.input));
        assert(has_tensor(w, r.output));
    }
    lemma_pins_transfer(v, w);
}

/// Opening a session, dropping queue entries and the like change no table.
pub proof fn lemma_custody_tables(v: RuntimeView, w: RuntimeView)
    requires
        runtime_inv(v),
        w.buffers == v.buffers,
        w.tensors == v.tensors,
        w.jobs == v.jobs,
        w.objects == v.objects,
    ensures
        custody(w),
{
    lemma_tables_same(v, w);
    lemma_custody_carry(v, w, None);
}

/// A new handle whose object is owned by its session.
pub proof fn lemma_custody_insert(v: RuntimeView, w: RuntimeView, e: ObjEntry)
    requires
        runtime_inv(v),
        sound(w),
        w.objects == v.objects.push(e),
        w.jobs == v.jobs,
        w.tensors.len() >= v.tensors.len(),
        w.buffers.len() >= v.buffers.len(),
        forall|i: int| 0 <= i < v.tensors.len() ==> w.tensors[i] == v.tensors[i],
        forall|i: int| 0 <= i < v.buffers.len() ==> w.buffers[i] == v.buffers[i],
        object_owned(w, e),
    ensures
        custody(w),
{
    assert forall|b: u64| #![trigger has_buffer(w, b)] has_buffer(v, b) implies has_buffer(w, b)
        && buffer(w, b).owner == buffer(v, b).owner by {
        let k = buffer_index(v, b);
        assert(w.buffers[k] == v.buffers[k]);
        lemma_buffer_stable(v, w, b);
    }
    assert forall|t: u64| #![trigger has_tensor(w, t)] has_tensor(v, t) implies has_tensor(w, t)
        && tensor(w, t).buffer == tensor(v, t).buffer by {
        let k = tensor_index(v, t);
        assert(w.tensors[k] == v.tensors[k]);
        lemma_tensor_stable(v, w, t);
    }
    lemma_custody_carry(v, w, Some(e));
}

/// Overwriting a buffer's bytes keeps its owner.
pub proof fn lemma_custody_with_data(v: RuntimeView, b: u64, data: Seq<u8>)
    requires
        runtime_inv(v),
        has_buffer(v, b),
        sound(with_data(v, b, data)),
    ensures
        custody(with_data(v, b, data)),
{
    let w = with_data(v, b, data);
    let i = buffer_index(v, b);
    assert forall|x: u64| #![trigger has_buffer(w, x)] has_buffer(v, x) implies has_buffer(w, x)
        && buffer(w, x).owner == buffer(v, x).owner by {
        let k = buffer_index(v, x);
        assert(w.buffers[k].id == x && w.buffers[k].owner == v.buffers[k].owner);
        let m = buffer_index(w, x);
        assert(m == k);
    }
    lemma_tables_same(v, w);
    lemma_custody_carry(v, w, None);
}

/// A new job over two tensors of its session, named by a new handle.
pub proof fn lemma_custody_submit(
    v: RuntimeView,
    w: RuntimeView,
    owner: u64,
    ti: u64,
    to: u64,
    delay_ms: u32,
)
    requires
        runtime_inv(v),
        sound(w),
        has_tensor(v, ti),
        has_tensor(v, to),
        buffer(v, tensor(v, ti).buffer).owner == owner,
        buffer(v, tensor(v, to).buffer).owner == owner,
        tensor(v, ti).buffer != tensor(v, to).buffer,
        !pinned(v, tensor(v, ti).buffer),
        !pinned(v, tensor(v, to).buffer),
        w == (RuntimeView {
            next: (v.next + 1) as u64,
            objects: v.objects.push(
                ObjEntry { owner, handle: v.next, object: Object::Job(v.next) },
            ),
            jobs: v.jobs.push(
                JobRec {
                    id: v.next,
                    owner,
                    delay_ms,
                    status: JobStatus::Queued,
                    error: None,
                    resources: Some(Resources { input: ti, output: to }),
                    cancelled: false,
                },
            ),
            queue: v.queue.push(v.next),
            ..v
        }),
    ensures
        custody(w),
{
    lemma_tables_same(v, w);
    let n = v.jobs.len() as int;
    assert forall|i: int| 0 <= i < w.objects.len() implies object_owned(w, #[trigger] w.objects[i]) by {
        if i < v.objects.len() {
            assert(w.objects[i] == v.objects[i]);
            assert(object_owned(v, v.objects[i]));
        }
    }
    assert forall|i: int| 0 <= i < w.jobs.len() implies job_owned(w, #[trigger] w.jobs[i]) by {
        if i < n {
            assert(w.jobs[i] == v.jobs[i]);
            assert(job_owned(v, v.jobs[i]));
        }
    }
    assert forall|i: int|
        0 <= i < w.jobs.len() && (#[trigger] w.jobs[i]).status is Queued implies job_named(
        w,
        w.jobs[i].id,
    ) by {
        if i < n {
            assert(w.jobs[i] == v.jobs[i]);
            assert(job_named(v, v.jobs[i].id));
            let k = choose|k: int|
                0 <= k < v.objects.len() && v.objects[k].object == Object::Job(v.jobs[i].id);
            assert(w.objects[k] == v.objects[k]);
        } else {
            assert(w.objects[v.objects.len() as int].object == Object::Job(v.next));
        }
    }
    let n2 = v.jobs.len() as int;
    let bi = tensor(v, ti).buffer;
    let bo = tensor(v, to).buffer;
    assert forall|i: int|
        0 <= i < w.jobs.len() && (#[trigger] w.jobs[i]).resources is Some implies tensor(
        w,
        w.jobs[i].resources->Some_0.input,
    ).buffer != tensor(w, w.jobs[i].resources->Some_0.output).buffer by {
        if i < n2 {
            assert(w.jobs[i] == v.jobs[i]);
        }
    }
    assert forall|i: int, k: int, b: u64|
        0 <= i < w.jobs.len() && 0 <= k < w.jobs.len() && i != k && #[trigger] job_pins(
            w,
            w.jobs[i],
            b,
        ) implies !#[trigger] job_pins(w, w.jobs[k], b) by {
        if job_pins(w, w.jobs[k], b) {
            if i < n2 && k < n2 {
                assert(w.jobs[i] == v.jobs[i]);
                assert(w.jobs[k] == v.jobs[k]);
                assert(job_pins(v, v.jobs[i], b));
                assert(job_pins(v, v.jobs[k], b));
            } else if i < n2 {
                assert(w.jobs[i] == v.jobs[i]);
                assert(b == bi || b == bo);
                assert(job_pins(v, v.jobs[i], b));
                assert(pinned(v, b));
            } else {
                assert(w.jobs[k] == v.jobs[k]);
                assert(b == bi || b == bo);
                assert(job_pins(v, v.jobs[k], b));
                assert(pinned(v, b));
            }
        }
    }
}

/// Replacing a job record: a queued record must stay named and resources
/// may only be kept or dropped.
pub proof fn lemma_custody_job_update(v: RuntimeView, id: u64, nj: JobRec)
    requires
        runtime_inv(v),
        has_job(v, id),
        nj.id == id,
        nj.owner == job(v, id).owner,
        nj.status is Queued ==> job(v, id).status is Queued,
        nj.resources is Some ==> nj.resources == job(v, id).resources,
    ensures
        custody(RuntimeView { jobs: v.jobs.update(job_index(v, id), nj), ..v }),
{
    let i = job_index(v, id);
    let w = RuntimeView { jobs: v.jobs.update(i, nj), ..v };
    lemma_tables_same(v, w);
    assert forall|k: int| 0 <= k < w.objects.len() implies object_owned(w, #[trigger] w.objects[k]) by {
        assert(object_owned(v, v.objects[k]));
    }
    assert forall|k: int| 0 <= k < w.jobs.len() implies job_owned(w, #[trigger] w.jobs[k]) by {
        assert(job_owned(v, v.jobs[k]));
    }
    assert forall|k: int|
        0 <= k < w.jobs.len() && (#[trigger] w.jobs[k]).status is Queued implies job_named(
        w,
        w.jobs[k].id,
    ) by {
        assert(v.jobs[k].status is Queued);
        assert(v.jobs[k].id == w.jobs[k].id);
        assert(job_named(v, v.jobs[k].id));
    }
    assert forall|k: int|
        0 <= k < w.jobs.len() && (#[trigger] w.jobs[k]).resources is Some implies same_pins(v, w, k) by {
        assert(v.jobs[k].id == w.jobs[k].id);
        assert(v.jobs[k].resources == w.jobs[k].resources);
    }
    lemma_pins_transfer(v, w);
}

/// Cancelling a job and dropping it from the queue.
pub proof fn lemma_custody_cancel(v: RuntimeView, id: u64)
    requires
        runtime_inv(v),
        has_job(v, id),
    ensures
        custody(
            RuntimeView {
                jobs: v.jobs.update(job_index(v, id), cancel_rec(v.jobs[job_index(v, id)])),
                queue: v.queue.filter(|q: u64| q != id),
                ..v
            },
        ),
{
    let i = job_index(v, id);
    let nj = cancel_rec(v.jobs[i]);
    lemma_custody_job_update(v, id, nj);
    let w1 = RuntimeView { jobs: v.jobs.update(i, nj), ..v };
    let w = RuntimeView { queue: v.queue.filter(|q: u64| q != id), ..w1 };
    assert(custody(w1));
    lemma_tables_same(w1, w);
    assert forall|k: int| 0 <= k < w.objects.len() implies object_owned(w, #[trigger] w.objects[k]) by {
        assert(object_owned(w1, w1.objects[k]));
    }
    assert forall|k: int| 0 <= k < w.jobs.len() implies job_owned(w, #[trigger] w.jobs[k]) by {
        assert(job_owned(w1, w1.jobs[k]));
    }
    lemma_tables_same(v, w);
    assert forall|k: int|
        0 <= k < w.jobs.len() && (#[trigger] w.jobs[k]).resources is Some implies same_pins(v, w, k) by {
        assert(v.jobs[k].id == w.jobs[k].id);
        assert(v.jobs[k].resources == w.jobs[k].resources);
    }
    lemma_pins_transfer(v, w);
}

/// Dropping a handle that does not name an unfinished job.
pub proof fn lemma_custody_close(v: RuntimeView, owner: u64, h: u64)
    requires
        runtime_inv(v),
        has_object(v, owner, h),
        lookup(v, owner, h) matches Some(Object::Job(j)) ==> job(v, j).status.is_terminal(),
    ensures
        custody(RuntimeView { objects: v.objects.remove(object_index(v, owner, h)), ..v }),
{
    let i = object_index(v, owner, h);
    let w = RuntimeView { objects: v.objects.remove(i), ..v };
    lemma_tables_same(v, w);
    assert forall|k: int| 0 <= k < w.objects.len() implies object_owned(w, #[trigger] w.objects[k]) by {
        let k2 = if k < i {
            k
        } else {
            k + 1
        };
        assert(w.objects[k] == v.objects[k2]);
        assert(object_owned(v, v.objects[k2]));
    }
    assert forall|k: int| 0 <= k < w.jobs.len() implies job_owned(w, #[trigger] w.jobs[k]) by {
        assert(job_owned(v, v.jobs[k]));
    }
    assert forall|k: int|
        0 <= k < w.jobs.len() && (#[trigger] w.jobs[k]).status is Queued implies job_named(
        w,
        w.jobs[k].id,
    ) by {
        let jd = v.jobs[k].id;
        assert(job_named(v, jd));
        let m = choose|m: int| 0 <= m < v.objects.len() && v.objects[m].object == Object::Job(jd);
        if m == i {
            assert(object_resolves(v, v.objects[m]));
            assert(job_index(v, jd) == k);
            assert(false);
        } else if m < i {
            assert(w.objects[m] == v.objects[m]);
        } else {
            assert(w.objects[m - 1] == v.objects[m]);
        }
    }
    assert forall|k: int|
        0 <= k < w.jobs.len() && (#[trigger] w.jobs[k]).resources is Some implies same_pins(v, w, k) by {
        assert(v.jobs[k] == w.jobs[k]);
    }
    lemma_pins_transfer(v, w);
}

/// Reclamation keeps exactly the records something retains.
pub proof fn lemma_custody_reclaim(v: RuntimeView)
    requires
        runtime_inv(v),
        sound(reclaim(v)),
    ensures
        custody(reclaim(v)),
{
    broadcast use vstd::seq_lib::group_filter_ensures;

    let w = reclaim(v);
    let pj = job_keep(v);
    let pt = tensor_keep(v, kept_jobs(v));
    let pb = buffer_keep(v, kept_tensors(v));
    // every retained record is one of v's, found again unchanged
    assert forall|b: u64| has_buffer(w, b) implies has_buffer(v, b) && buffer(w, b) == buffer(v, b) by {
        let k = buffer_index(w, b);
        lemma_filter_subset(v.buffers, pb, k);
        let m = choose|m: int| 0 <= m < v.buffers.len() && v.buffers[m] == w.buffers[k];
        assert(v.buffers[m].id == b);
        lemma_buffer_stable(w, v, b);
    }
    assert forall|t: u64| has_tensor(w, t) implies has_tensor(v, t) && tensor(w, t) == tensor(v, t) by {
        let k = tensor_index(w, t);
        lemma_filter_subset(v.tensors, pt, k);
        let m = choose|m: int| 0 <= m < v.tensors.len() && v.tensors[m] == w.tensors[k];
        assert(v.tensors[m].id == t);
        lemma_tensor_stable(w, v, t);
    }
    assert forall|i: int| 0 <= i < w.objects.len() implies object_owned(w, #[trigger] w.objects[i]) by {
        let e = w.objects[i];
        assert(object_owned(v, e));
        assert(object_resolves(w, e));
        match e.object {
            Object::Buffer(b) => {
                assert(has_buffer(w, b));
            },
            Object::Tensor(t) => {
                assert(has_tensor(w, t));
                let ti = tensor_index(w, t);
                assert(has_buffer(w, w.tensors[ti].buffer));
            },
            _ => {},
        }
    }
    assert forall|i: int| 0 <= i < w.jobs.len() implies job_owned(w, #[trigger] w.jobs[i]) by {
        let j = w.jobs[i];
        lemma_filter_subset(v.jobs, pj, i);
        let m = choose|m: int| 0 <= m < v.jobs.len() && v.jobs[m] == j;
        assert(job_owned(v, v.jobs[m]));
        if let Some(r) = j.resources {
            assert(has_tensor(w, r.input) && has_tensor(w, r.output));
            let a = tensor_index(w, r.input);
            let b = tensor_index(w, r.output);
            assert(has_buffer(w, w.tensors[a].buffer));
            assert(has_buffer(w, w.tensors[b].buffer));
        }
    }
    assert forall|i: int|
        0 <= i < w.jobs.len() && (#[trigger] w.jobs[i]).status is Queued implies job_named(
        w,
        w.jobs[i].id,
    ) by {
        lemma_filter_subset(v.jobs, pj, i);
        let m = choose|m: int| 0 <= m < v.jobs.len() && v.jobs[m] == w.jobs[i];
        assert(job_named(v, v.jobs[m].id));
    }
    assert forall|i: int|
        0 <= i < w.jobs.len() && (#[trigger] w.jobs[i]).resources is Some implies same_pins(v, w, i) by {
        lemma_filter_subset(v.jobs, pj, i);
        let m = choose|m: int| 0 <= m < v.jobs.len() && v.jobs[m] == w.jobs[i];
        assert(v.jobs[m].id == w.jobs[i].id);
        let r = w.jobs[i].resources->Some_0;
        assert(has_tensor(w, r.input) && has_tensor(w, r.output));
    }
    lemma_pins_transfer(v, w);
}

/// Session `owner` going away, before reclamation.
pub proof fn lemma_custody_disconnect(v: RuntimeView, owner: u64)
    requires
        runtime_inv(v),
        sound(disconnect_mid(v, owner)),
    ensures
        custody(disconnect_mid(v, owner)),
{
    broadcast use vstd::seq_lib::group_filter_ensures;

    let w = disconnect_mid(v, owner);
    let po = |e: ObjEntry| e.owner != owner;
    lemma_tables_same(v, w);
    assert forall|i: int| 0 <= i < w.objects.len() implies object_owned(w, #[trigger] w.objects[i]) by {
        lemma_filter_subset(v.objects, po, i);
        let m = choose|m: int| 0 <= m < v.objects.len() && v.objects[m] == w.objects[i];
        assert(object_owned(v, v.objects[m]));
    }
    assert forall|i: int| 0 <= i < w.jobs.len() implies job_owned(w, #[trigger] w.jobs[i]) by {
        assert(job_owned(v, v.jobs[i]));
    }
    assert forall|i: int|
        0 <= i < w.jobs.len() && (#[trigger] w.jobs[i]).status is Queued implies job_named(
        w,
        w.jobs[i].id,
    ) by {
        let jd = v.jobs[i].id;
        assert(w.jobs[i].id == jd);
        assert(!owned_job(v, owner, jd));
        assert(v.jobs[i].status is Queued);
        assert(job_named(v, jd));
        let m = choose|m: int| 0 <= m < v.objects.len() && v.objects[m].object == Object::Job(jd);
        assert(v.objects[m].owner != owner);
        v.objects.lemma_filter_contains(po, m);
        let k = choose|k: int| 0 <= k < w.objects.len() && w.objects[k] == v.objects[m];
        assert(w.objects[k].object == Object::Job(jd));
    }
    assert forall|k: int|
        0 <= k < w.jobs.len() && (#[trigger] w.jobs[k]).resources is Some implies same_pins(v, w, k) by {
        assert(v.jobs[k].id == w.jobs[k].id);
        assert(v.jobs[k].resources == w.jobs[k].resources);
    }
    lemma_pins_transfer(v, w);
}

/// The daemon stopping, before reclamation.
pub proof fn lemma_custody_shutdown(v: RuntimeView)
    requires
        runtime_inv(v),
        sound(shutdown_mid(v)),
    ensures
        custody(shutdown_mid(v)),
{
    let w = shutdown_mid(v);
    lemma_tables_same(v, w);
    assert forall|i: int| 0 <= i < w.jobs.len() implies job_owned(w, #[trigger] w.jobs[i]) by {
        assert(job_owned(v, v.jobs[i]));
    }
    assert forall|i: int|
        0 <= i < w.jobs.len() && (#[trigger] w.jobs[i]).status is Queued implies job_named(
        w,
        w.jobs[i].id,
    ) by {
        let jd = v.jobs[i].id;
        assert(w.jobs[i].id == jd);
        if job_named(v, jd) {
            assert(w.jobs[i] == cancel_rec(v.jobs[i]));
        } else {
            assert(v.jobs[i].status is Queued);
        }
    }
    assert forall|k: int|
        0 <= k < w.jobs.len() && (#[trigger] w.jobs[k]).resources is Some implies same_pins(v, w, k) by {
        assert(v.jobs[k].id == w.jobs[k].id);
        assert(v.jobs[k].resources == w.jobs[k].resources);
    }
    lemma_pins_transfer(v, w);
}

} // verus!
