//! Proofs that every runtime operation keeps the runtime invariant.
use crate::model::{
    buffer, buffer_index, buffer_keep, buffer_kept, buffer_named, buffer_owner_is, bytes_of,
    cancel_rec, has_buffer, has_job, has_object, has_tensor, ids_below_next, ids_unique, insert,
    job, job_index, job_keep, job_kept, job_named, kept_jobs, kept_tensors, live_bytes, lookup,
    object_index, object_resolves, other_session, owned, owned_jobs, owner_is, owner_job_is,
    reclaim, refs_resolve, runtime_inv, session_bytes, sound, tensor, tensor_index, tensor_keep,
    tensor_kept, tensor_named, within_limits, BufferView, JobRec, ObjEntry, Object, Resources,
    RuntimeView, TensorView,
};
use crate::custody::{
    lemma_custody_cancel, lemma_custody_close, lemma_custody_disconnect, lemma_custody_insert,
    lemma_custody_job_update, lemma_custody_reclaim, lemma_custody_shutdown, lemma_custody_submit,
    lemma_custody_tables, lemma_custody_with_data,
};
use crate::records::{
    lemma_cancel_rec_agrees, lemma_records_carry, lemma_records_close, lemma_records_disconnect,
    lemma_records_job_update, lemma_records_reclaim, lemma_records_shutdown, lemma_records_submit,
};
use crate::seqs::{lemma_bytes_filter, lemma_bytes_push, lemma_filter_push, lemma_filter_subset};
use crate::types::{JobStatus, GLOBAL_MEMORY, MAX_BUFFER, MAX_JOBS, MAX_OBJECTS, SESSION_MEMORY};
use vstd::prelude::*;

verus! {

// ---------------------------------------------------------------- generic facts
pub proof fn lemma_filter_unique<T>(s: Seq<T>, p: spec_fn(T) -> bool, key: spec_fn(T) -> u64)
    requires
        forall|i: int, k: int|
            0 <= i < s.len() && 0 <= k < s.len() && i != k ==> key(s[i]) != key(s[k]),
    ensures
        forall|i: int, k: int|
            0 <= i < s.filter(p).len() && 0 <= k < s.filter(p).len() && i != k ==> key(
                s.filter(p)[i],
            ) != key(s.filter(p)[k]),
    decreases s.len(),
{
    reveal(Seq::filter);
    if s.len() > 0 {
        let d = s.drop_last();
        lemma_filter_unique(d, p, key);
        if p(s.last()) {
            assert forall|i: int| 0 <= i < d.filter(p).len() implies key(d.filter(p)[i]) != key(
                s.last(),
            ) by {
                lemma_filter_subset(d, p, i);
                let k = choose|k: int| 0 <= k < d.len() && d[k] == d.filter(p)[i];
                assert(s[k] == d[k]);
            }
        }
    }
}

pub proof fn lemma_filter_commute<T>(s: Seq<T>, p: spec_fn(T) -> bool, q: spec_fn(T) -> bool)
    ensures
        s.filter(p).filter(q) == s.filter(q).filter(p),
    decreases s.len(),
{
    reveal(Seq::filter);
    if s.len() > 0 {
        let d = s.drop_last();
        let x = s.last();
        lemma_filter_commute(d, p, q);
        lemma_filter_push(d.filter(p), x, q);
        lemma_filter_push(d.filter(q), x, p);
        lemma_filter_push(d.filter(p).filter(q), x, p);
        lemma_filter_push(d.filter(q).filter(p), x, q);
    }
}

// ---------------------------------------------------------------- stability of lookups
/// Lookups in a table that did not change give what they gave.
pub proof fn lemma_tables_same(v: RuntimeView, w: RuntimeView)
    ensures
        w.buffers == v.buffers ==> forall|id: u64|
            #![trigger has_buffer(w, id)]
            #![trigger buffer(w, id)]
            has_buffer(w, id) == has_buffer(v, id) && buffer(w, id) == buffer(v, id),
        w.tensors == v.tensors ==> forall|id: u64|
            #![trigger has_tensor(w, id)]
            #![trigger tensor(w, id)]
            has_tensor(w, id) == has_tensor(v, id) && tensor(w, id) == tensor(v, id),
        w.jobs == v.jobs ==> forall|id: u64|
            #![trigger has_job(w, id)]
            #![trigger job(w, id)]
            has_job(w, id) == has_job(v, id) && job(w, id) == job(v, id),
{
    if w.buffers == v.buffers {
        assert forall|id: u64| has_buffer(w, id) == has_buffer(v, id) by {
            if has_buffer(v, id) {
                let k = buffer_index(v, id);
                assert(w.buffers[k].id == id);
            }
        }
    }
    if w.tensors == v.tensors {
        assert forall|id: u64| has_tensor(w, id) == has_tensor(v, id) by {
            if has_tensor(v, id) {
                let k = tensor_index(v, id);
                assert(w.tensors[k].id == id);
            }
        }
    }
    if w.jobs == v.jobs {
        assert forall|id: u64| has_job(w, id) == has_job(v, id) by {
            if has_job(v, id) {
                let k = job_index(v, id);
                assert(w.jobs[k].id == id);
            }
        }
    }
}
pub proof fn lemma_buffer_stable(v: RuntimeView, w: RuntimeView, id: u64)
    requires
        ids_unique(w),
        has_buffer(v, id),
        w.buffers.contains(buffer(v, id)),
    ensures
        has_buffer(w, id),
        buffer(w, id) == buffer(v, id),
{
    let x = buffer(v, id);
    let k = choose|k: int| 0 <= k < w.buffers.len() && w.buffers[k] == x;
    assert(w.buffers[k].id == id);
    let j = buffer_index(w, id);
    assert(j == k);
}

pub proof fn lemma_tensor_stable(v: RuntimeView, w: RuntimeView, id: u64)
    requires
        ids_unique(w),
        has_tensor(v, id),
        w.tensors.contains(tensor(v, id)),
    ensures
        has_tensor(w, id),
        tensor(w, id) == tensor(v, id),
{
    let x = tensor(v, id);
    let k = choose|k: int| 0 <= k < w.tensors.len() && w.tensors[k] == x;
    assert(w.tensors[k].id == id);
    let j = tensor_index(w, id);
    assert(j == k);
}

pub proof fn lemma_job_stable(v: RuntimeView, w: RuntimeView, id: u64)
    requires
        ids_unique(w),
        has_job(v, id),
        w.jobs.contains(job(v, id)),
    ensures
        has_job(w, id),
        job(w, id) == job(v, id),
{
    let x = job(v, id);
    let k = choose|k: int| 0 <= k < w.jobs.len() && w.jobs[k] == x;
    assert(w.jobs[k].id == id);
    let j = job_index(w, id);
    assert(j == k);
}

// ---------------------------------------------------------------- adding objects
/// The state after `insert` adds a handle, before any record it names is added.
pub open spec fn inserted(v: RuntimeView, owner: u64, object: Object) -> RuntimeView {
    insert(v, owner, object).0
}

proof fn lemma_insert_shape(v: RuntimeView, owner: u64, object: Object)
    requires
        runtime_inv(v),
        insert(v, owner, object).1 is Ok,
    ensures
        ({
            let w = insert(v, owner, object).0;
            &&& w.next == v.next + 1
            &&& w.objects == v.objects.push(ObjEntry { owner, handle: v.next, object })
            &&& w.sessions == v.sessions
            &&& w.buffers == v.buffers
            &&& w.tensors == v.tensors
            &&& w.jobs == v.jobs
            &&& w.queue == v.queue
            &&& w.stopping == v.stopping
            &&& owned(v, owner).len() < MAX_OBJECTS
            &&& forall|s: u64| #[trigger]
                owned(w, s).len() == owned(v, s).len() + (if s == owner {
                    1int
                } else {
                    0int
                })
            &&& forall|s: u64| #[trigger]
                owned_jobs(w, s).len() == owned_jobs(v, s).len() + (if s == owner && object is Job {
                    1int
                } else {
                    0int
                })
        }),
{
    let w = insert(v, owner, object).0;
    let e = ObjEntry { owner, handle: v.next, object };
    assert forall|s: u64| #[trigger]
        owned_jobs(w, s).len() == owned_jobs(v, s).len() + (if s == owner && object is Job {
            1int
        } else {
            0int
        }) by {
        lemma_filter_push(v.objects, e, owner_job_is(s));
    }
    assert forall|s: u64| #[trigger]
        owned(w, s).len() == owned(v, s).len() + (if s == owner {
            1int
        } else {
            0int
        }) by {
        lemma_filter_push(v.objects, e, owner_is(s));
    }
}

/// Adding a fresh buffer under a fresh handle keeps the invariant when the
/// quotas admit it.
#[verifier::spinoff_prover]
#[verifier::rlimit(40)]
pub proof fn lemma_add_buffer_inv(v: RuntimeView, owner: u64, b: BufferView)
    requires
        runtime_inv(v),
        v.sessions.contains(owner),
        insert(v, owner, Object::Buffer(v.next)).1 is Ok,
        b.id == v.next,
        b.owner == owner,
        0 < b.data.len() <= MAX_BUFFER,
        session_bytes(v, owner) + b.data.len() <= SESSION_MEMORY,
        live_bytes(v) + b.data.len() <= GLOBAL_MEMORY,
    ensures
        runtime_inv(
            RuntimeView {
                buffers: inserted(v, owner, Object::Buffer(v.next)).buffers.push(b),
                ..inserted(v, owner, Object::Buffer(v.next))
            },
        ),
{
    let w0 = inserted(v, owner, Object::Buffer(v.next));
    lemma_insert_shape(v, owner, Object::Buffer(v.next));
    let w = RuntimeView { buffers: w0.buffers.push(b), ..w0 };
    assert(ids_unique(w));
    assert(ids_below_next(w));
    assert forall|id: u64| has_buffer(v, id) implies has_buffer(w, id) && buffer(w, id) == buffer(
        v,
        id,
    ) by {
        assert(w.buffers[buffer_index(v, id)] == buffer(v, id));
        lemma_buffer_stable(v, w, id);
    }
    assert(has_buffer(w, b.id)) by {
        assert(w.buffers[v.buffers.len() as int] == b);
    }
    assert forall|id: u64| has_job(v, id) implies has_job(w, id) && job(w, id) == job(v, id) by {}
    assert forall|id: u64| has_tensor(v, id) implies has_tensor(w, id) && tensor(w, id) == tensor(
        v,
        id,
    ) by {
        let k = tensor_index(v, id);
        assert(w.tensors[k].id == id);
    }
    assert forall|i: int| 0 <= i < w.objects.len() implies object_resolves(w, #[trigger] w.objects[i]) by {
        if i < v.objects.len() {
            assert(w.objects[i] == v.objects[i]);
            assert(object_resolves(v, v.objects[i]));
        }
    }
    assert forall|i: int| 0 <= i < w.tensors.len() implies has_buffer(
        w,
        #[trigger] w.tensors[i].buffer,
    ) && 0 <= w.tensors[i].start <= w.tensors[i].end <= buffer(w, w.tensors[i].buffer).data.len() by {
        assert(has_buffer(v, v.tensors[i].buffer));
    }
    assert forall|k: int| 0 <= k < w.objects.len() implies w.sessions.contains(
        #[trigger] w.objects[k].owner,
    ) by {
        if k < v.objects.len() {
            assert(w.objects[k] == v.objects[k]);
            assert(v.sessions.contains(v.objects[k].owner));
        }
    }
    assert(refs_resolve(w));
    lemma_bytes_push(v.buffers, b);
    assert forall|s: u64| #[trigger] session_bytes(w, s) <= SESSION_MEMORY by {
        lemma_filter_push(v.buffers, b, buffer_owner_is(s));
        if s == owner {
            lemma_bytes_push(v.buffers.filter(buffer_owner_is(s)), b);
        }
        assert(session_bytes(v, s) <= SESSION_MEMORY);
    }
    assert forall|s: u64| #[trigger] owned(w, s).len() <= MAX_OBJECTS by {
        assert(owned(w, s) == owned(w0, s));
        assert(owned(w, s).len() == owned(v, s).len() + (if s == owner {
            1int
        } else {
            0int
        }));
        assert(owned(v, s).len() <= MAX_OBJECTS);
    }
    assert forall|s: u64| #[trigger] owned_jobs(w, s).len() <= MAX_JOBS by {
        assert(owned_jobs(w, s) == owned_jobs(inserted(v, owner, Object::Buffer(v.next)), s));
        assert(owned_jobs(v, s).len() <= MAX_JOBS);
    }
    assert(within_limits(w));
    assert(sound(w));
    assert(buffer(w, b.id) == b) by {
        assert(w.buffers[v.buffers.len() as int] == b);
        assert(buffer_index(w, b.id) == v.buffers.len() as int);
    }
    lemma_custody_insert(v, w, ObjEntry { owner, handle: v.next, object: Object::Buffer(v.next) });
    assert(w.buffers[v.buffers.len() as int].owner < w.next) by {
        let m = choose|m: int| 0 <= m < v.sessions.len() && v.sessions[m] == owner;
        assert(v.sessions[m] < v.next);
    }
    lemma_records_carry(v, w);
}


/// Adding a model handle keeps the invariant.
#[verifier::spinoff_prover]
#[verifier::rlimit(40)]
pub proof fn lemma_add_model_inv(v: RuntimeView, owner: u64)
    requires
        runtime_inv(v),
        v.sessions.contains(owner),
        insert(v, owner, Object::Model).1 is Ok,
    ensures
        runtime_inv(inserted(v, owner, Object::Model)),
{
    let w = inserted(v, owner, Object::Model);
    lemma_insert_shape(v, owner, Object::Model);
    assert(ids_unique(w));
    assert(ids_below_next(w));
    assert forall|id: u64| has_buffer(v, id) implies has_buffer(w, id) && buffer(w, id) == buffer(
        v,
        id,
    ) by {
        let k = buffer_index(v, id);
        assert(w.buffers[k].id == id);
    }
    assert forall|id: u64| has_tensor(v, id) implies has_tensor(w, id) && tensor(w, id) == tensor(
        v,
        id,
    ) by {
        let k = tensor_index(v, id);
        assert(w.tensors[k].id == id);
    }
    assert forall|id: u64| has_job(v, id) implies has_job(w, id) && job(w, id) == job(v, id) by {
        let k = job_index(v, id);
        assert(w.jobs[k].id == id);
    }
    assert forall|i: int| 0 <= i < w.objects.len() implies object_resolves(
        w,
        #[trigger] w.objects[i],
    ) by {
        if i < v.objects.len() {
            assert(w.objects[i] == v.objects[i]);
            assert(object_resolves(v, v.objects[i]));
        }
    }
    assert forall|k: int| 0 <= k < w.objects.len() implies w.sessions.contains(
        #[trigger] w.objects[k].owner,
    ) by {
        if k < v.objects.len() {
            assert(w.objects[k] == v.objects[k]);
            assert(v.sessions.contains(v.objects[k].owner));
        }
    }
    assert(refs_resolve(w));
    assert forall|s: u64| #[trigger] session_bytes(w, s) <= SESSION_MEMORY by {
        assert(session_bytes(v, s) <= SESSION_MEMORY);
    }
    assert forall|s: u64| #[trigger] owned(w, s).len() <= MAX_OBJECTS by {
        assert(owned(v, s).len() <= MAX_OBJECTS);
    }
    assert forall|s: u64| #[trigger] owned_jobs(w, s).len() <= MAX_JOBS by {
        assert(owned_jobs(w, s) == owned_jobs(inserted(v, owner, Object::Model), s));
        assert(owned_jobs(v, s).len() <= MAX_JOBS);
    }
    assert(within_limits(w));
    assert(sound(w));
    lemma_custody_insert(v, w, ObjEntry { owner, handle: v.next, object: Object::Model });
    lemma_records_carry(v, w);
}

/// Adding a tensor that fits its buffer under a fresh handle keeps the invariant.
#[verifier::spinoff_prover]
#[verifier::rlimit(40)]
pub proof fn lemma_add_tensor_inv(v: RuntimeView, owner: u64, t: TensorView)
    requires
        runtime_inv(v),
        v.sessions.contains(owner),
        insert(v, owner, Object::Tensor(v.next)).1 is Ok,
        t.id == v.next,
        has_buffer(v, t.buffer),
        buffer(v, t.buffer).owner == owner,
        0 <= t.start <= t.end <= buffer(v, t.buffer).data.len(),
    ensures
        runtime_inv(
            RuntimeView {
                tensors: inserted(v, owner, Object::Tensor(v.next)).tensors.push(t),
                ..inserted(v, owner, Object::Tensor(v.next))
            },
        ),
{
    let w0 = inserted(v, owner, Object::Tensor(v.next));
    lemma_insert_shape(v, owner, Object::Tensor(v.next));
    let w = RuntimeView { tensors: w0.tensors.push(t), ..w0 };
    assert(ids_unique(w));
    assert(ids_below_next(w));
    assert forall|id: u64| has_buffer(v, id) implies has_buffer(w, id) && buffer(w, id) == buffer(
        v,
        id,
    ) by {
        let k = buffer_index(v, id);
        assert(w.buffers[k].id == id);
    }
    assert forall|id: u64| has_tensor(v, id) implies has_tensor(w, id) && tensor(w, id) == tensor(
        v,
        id,
    ) by {
        assert(w.tensors[tensor_index(v, id)] == tensor(v, id));
        lemma_tensor_stable(v, w, id);
    }
    assert(has_tensor(w, t.id)) by {
        assert(w.tensors[v.tensors.len() as int] == t);
    }
    assert forall|id: u64| has_job(v, id) implies has_job(w, id) && job(w, id) == job(v, id) by {
        let k = job_index(v, id);
        assert(w.jobs[k].id == id);
    }
    assert forall|i: int| 0 <= i < w.objects.len() implies object_resolves(
        w,
        #[trigger] w.objects[i],
    ) by {
        if i < v.objects.len() {
            assert(w.objects[i] == v.objects[i]);
            assert(object_resolves(v, v.objects[i]));
        }
    }
    assert forall|i: int| 0 <= i < w.tensors.len() implies has_buffer(
        w,
        #[trigger] w.tensors[i].buffer,
    ) && 0 <= w.tensors[i].start <= w.tensors[i].end <= buffer(w, w.tensors[i].buffer).data.len() by {
        if i < v.tensors.len() {
            assert(has_buffer(v, v.tensors[i].buffer));
        }
    }
    assert forall|k: int| 0 <= k < w.objects.len() implies w.sessions.contains(
        #[trigger] w.objects[k].owner,
    ) by {
        if k < v.objects.len() {
            assert(w.objects[k] == v.objects[k]);
            assert(v.sessions.contains(v.objects[k].owner));
        }
    }
    assert(refs_resolve(w));
    assert forall|s: u64| #[trigger] session_bytes(w, s) <= SESSION_MEMORY by {
        assert(session_bytes(v, s) <= SESSION_MEMORY);
    }
    assert forall|s: u64| #[trigger] owned(w, s).len() <= MAX_OBJECTS by {
        assert(owned(w, s) == owned(w0, s));
        assert(owned(v, s).len() <= MAX_OBJECTS);
    }
    assert forall|s: u64| #[trigger] owned_jobs(w, s).len() <= MAX_JOBS by {
        assert(owned_jobs(w, s) == owned_jobs(inserted(v, owner, Object::Tensor(v.next)), s));
        assert(owned_jobs(v, s).len() <= MAX_JOBS);
    }
    assert(within_limits(w));
    assert(sound(w));
    assert(tensor(w, t.id) == t) by {
        assert(w.tensors[v.tensors.len() as int] == t);
        assert(tensor_index(w, t.id) == v.tensors.len() as int);
    }
    lemma_custody_insert(v, w, ObjEntry { owner, handle: v.next, object: Object::Tensor(v.next) });
    lemma_records_carry(v, w);
}

/// Replacing a buffer's bytes by as many bytes keeps the invariant.
#[verifier::spinoff_prover]
#[verifier::rlimit(40)]
pub proof fn lemma_with_data_inv(v: RuntimeView, b: u64, data: Seq<u8>)
    requires
        runtime_inv(v),
        has_buffer(v, b),
        data.len() == buffer(v, b).data.len(),
    ensures
        runtime_inv(crate::model::with_data(v, b, data)),
        has_buffer(crate::model::with_data(v, b, data), b),
        buffer(crate::model::with_data(v, b, data), b).data == data,
{
    let w = crate::model::with_data(v, b, data);
    let i = buffer_index(v, b);
    let nb = BufferView { data, ..v.buffers[i] };
    assert(w.buffers == v.buffers.update(i, nb));
    assert(ids_unique(w));
    assert(ids_below_next(w));
    assert(w.buffers[i] == nb);
    assert(has_buffer(w, b));
    assert(buffer_index(w, b) == i);
    assert forall|id: u64| has_buffer(v, id) && id != b implies has_buffer(w, id) && buffer(w, id)
        == buffer(v, id) by {
        let k = buffer_index(v, id);
        assert(k != i);
        assert(w.buffers[k] == buffer(v, id));
        lemma_buffer_stable(v, w, id);
    }
    assert forall|id: u64| has_buffer(v, id) implies has_buffer(w, id) && buffer(w, id).data.len()
        == buffer(v, id).data.len() by {}
    assert forall|id: u64| has_tensor(v, id) implies has_tensor(w, id) && tensor(w, id) == tensor(
        v,
        id,
    ) by {
        let k = tensor_index(v, id);
        assert(w.tensors[k].id == id);
    }
    assert forall|id: u64| has_job(v, id) implies has_job(w, id) && job(w, id) == job(v, id) by {
        let k = job_index(v, id);
        assert(w.jobs[k].id == id);
    }
    assert forall|k: int| 0 <= k < w.objects.len() implies object_resolves(
        w,
        #[trigger] w.objects[k],
    ) by {
        assert(object_resolves(v, v.objects[k]));
    }
    assert forall|k: int| 0 <= k < w.tensors.len() implies has_buffer(
        w,
        #[trigger] w.tensors[k].buffer,
    ) && 0 <= w.tensors[k].start <= w.tensors[k].end <= buffer(w, w.tensors[k].buffer).data.len() by {
        assert(has_buffer(v, v.tensors[k].buffer));
    }
    assert forall|k: int| 0 <= k < w.objects.len() implies w.sessions.contains(
        #[trigger] w.objects[k].owner,
    ) by {
        assert(v.sessions.contains(v.objects[k].owner));
    }
    assert(refs_resolve(w));
    crate::seqs::lemma_bytes_update(v.buffers, i, nb);
    assert forall|s: u64| #[trigger] session_bytes(w, s) <= SESSION_MEMORY by {
        crate::seqs::lemma_bytes_filter_update(v.buffers, i, nb, buffer_owner_is(s));
        assert(session_bytes(v, s) <= SESSION_MEMORY);
    }
    assert forall|s: u64| #[trigger] owned(w, s).len() <= MAX_OBJECTS by {
        assert(owned(v, s).len() <= MAX_OBJECTS);
    }
    assert forall|s: u64| #[trigger] owned_jobs(w, s).len() <= MAX_JOBS by {
        assert(owned_jobs(v, s).len() <= MAX_JOBS);
    }
    assert(within_limits(w));
    assert(sound(w));
    lemma_custody_with_data(v, b, data);
    lemma_records_carry(v, w);
}

/// Opening a session keeps the invariant.
#[verifier::spinoff_prover]
#[verifier::rlimit(40)]
pub proof fn lemma_connect_inv(v: RuntimeView)
    requires
        runtime_inv(v),
        crate::model::spec_connect(v).1 is Ok,
    ensures
        runtime_inv(crate::model::spec_connect(v).0),
{
    let w = crate::model::spec_connect(v).0;
    assert(w.sessions == v.sessions.push(v.next));
    assert(w.sessions.no_duplicates());
    assert(ids_unique(w));
    assert(ids_below_next(w));
    assert forall|id: u64| has_buffer(v, id) implies has_buffer(w, id) && buffer(w, id) == buffer(
        v,
        id,
    ) by {
        let k = buffer_index(v, id);
        assert(w.buffers[k].id == id);
    }
    assert forall|id: u64| has_tensor(v, id) implies has_tensor(w, id) && tensor(w, id) == tensor(
        v,
        id,
    ) by {
        let k = tensor_index(v, id);
        assert(w.tensors[k].id == id);
    }
    assert forall|id: u64| has_job(v, id) implies has_job(w, id) && job(w, id) == job(v, id) by {
        let k = job_index(v, id);
        assert(w.jobs[k].id == id);
    }
    assert forall|k: int| 0 <= k < w.objects.len() implies object_resolves(
        w,
        #[trigger] w.objects[k],
    ) by {
        assert(object_resolves(v, v.objects[k]));
    }
    assert forall|k: int| 0 <= k < w.objects.len() implies w.sessions.contains(
        #[trigger] w.objects[k].owner,
    ) by {
        assert(v.sessions.contains(v.objects[k].owner));
        let m = choose|m: int| 0 <= m < v.sessions.len() && v.sessions[m] == v.objects[k].owner;
        assert(w.sessions[m] == v.objects[k].owner);
    }
    assert(refs_resolve(w));
    assert forall|s: u64| #[trigger] session_bytes(w, s) <= SESSION_MEMORY by {
        assert(session_bytes(v, s) <= SESSION_MEMORY);
    }
    assert forall|s: u64| #[trigger] owned(w, s).len() <= MAX_OBJECTS by {
        assert(owned(v, s).len() <= MAX_OBJECTS);
    }
    assert forall|s: u64| #[trigger] owned_jobs(w, s).len() <= MAX_JOBS by {
        assert(owned_jobs(v, s).len() <= MAX_JOBS);
    }
    assert(within_limits(w));
    assert(sound(w));
    lemma_custody_tables(v, w);
    lemma_records_carry(v, w);
}

/// Reclaiming unretained jobs, tensors and buffers keeps the invariant.
#[verifier::spinoff_prover]
#[verifier::rlimit(40)]
pub proof fn lemma_reclaim_inv(v: RuntimeView)
    requires
        runtime_inv(v),
    ensures
        runtime_inv(reclaim(v)),
{
    broadcast use vstd::seq_lib::group_filter_ensures;

    let w = reclaim(v);
    let pj = job_keep(v);
    let pt = tensor_keep(v, kept_jobs(v));
    let pb = buffer_keep(v, kept_tensors(v));
    assert(w.jobs == v.jobs.filter(pj));
    assert(w.tensors == v.tensors.filter(pt));
    assert(w.buffers == v.buffers.filter(pb));
    // identifiers stay unique and below `next`
    lemma_filter_unique(v.jobs, pj, |j: JobRec| j.id);
    lemma_filter_unique(v.tensors, pt, |t: TensorView| t.id);
    lemma_filter_unique(v.buffers, pb, |b: BufferView| b.id);
    assert(ids_unique(w));
    assert forall|i: int| 0 <= i < w.jobs.len() implies #[trigger] v.jobs.contains(w.jobs[i]) by {
        lemma_filter_subset(v.jobs, pj, i);
    }
    assert forall|i: int| 0 <= i < w.tensors.len() implies #[trigger] v.tensors.contains(
        w.tensors[i],
    ) by {
        lemma_filter_subset(v.tensors, pt, i);
    }
    assert forall|i: int| 0 <= i < w.buffers.len() implies #[trigger] v.buffers.contains(
        w.buffers[i],
    ) by {
        lemma_filter_subset(v.buffers, pb, i);
    }
    assert(ids_below_next(w)) by {
        assert forall|i: int| 0 <= i < w.jobs.len() implies w.jobs[i].id < w.next by {
            assert(v.jobs.contains(w.jobs[i]));
        }
        assert forall|i: int| 0 <= i < w.tensors.len() implies w.tensors[i].id < w.next by {
            assert(v.tensors.contains(w.tensors[i]));
        }
        assert forall|i: int| 0 <= i < w.buffers.len() implies w.buffers[i].id < w.next by {
            assert(v.buffers.contains(w.buffers[i]));
        }
    }
    // kept records are found again unchanged
    assert forall|id: u64| has_job(v, id) && job_kept(v, job(v, id)) implies has_job(w, id) && job(
        w,
        id,
    ) == job(v, id) by {
        v.jobs.lemma_filter_contains(pj, job_index(v, id));
        lemma_job_stable(v, w, id);
    }
    assert forall|id: u64| has_tensor(v, id) && tensor_kept(v, kept_jobs(v), tensor(v, id)) implies has_tensor(
        w,
        id,
    ) && tensor(w, id) == tensor(v, id) by {
        v.tensors.lemma_filter_contains(pt, tensor_index(v, id));
        lemma_tensor_stable(v, w, id);
    }
    assert forall|id: u64| has_buffer(v, id) && buffer_kept(v, kept_tensors(v), buffer(v, id)) implies has_buffer(
        w,
        id,
    ) && buffer(w, id) == buffer(v, id) by {
        v.buffers.lemma_filter_contains(pb, buffer_index(v, id));
        lemma_buffer_stable(v, w, id);
    }
    // handles
    assert forall|i: int| 0 <= i < w.objects.len() implies object_resolves(
        w,
        #[trigger] w.objects[i],
    ) by {
        let e = v.objects[i];
        assert(object_resolves(v, e));
        match e.object {
            Object::Buffer(b) => {
                assert(buffer_named(v, b));
            },
            Object::Tensor(t) => {
                assert(tensor_named(v, t));
            },
            Object::Job(j) => {
                assert(job_named(v, j));
            },
            Object::Model => {},
        }
    }
    // tensors view retained buffers
    assert forall|i: int| 0 <= i < w.tensors.len() implies has_buffer(
        w,
        #[trigger] w.tensors[i].buffer,
    ) && 0 <= w.tensors[i].start <= w.tensors[i].end <= buffer(w, w.tensors[i].buffer).data.len() by {
        let t = w.tensors[i];
        assert(v.tensors.contains(t));
        let k = choose|k: int| 0 <= k < v.tensors.len() && v.tensors[k] == t;
        assert(has_buffer(v, v.tensors[k].buffer));
        assert(buffer_kept(v, kept_tensors(v), buffer(v, t.buffer)));
    }
    // jobs hold retained tensors
    assert forall|i: int| 0 <= i < w.jobs.len() implies ((#[trigger] w.jobs[i]).resources is Some
        <==> (w.jobs[i].status is Queued || w.jobs[i].status is Running)) by {
        assert(v.jobs.contains(w.jobs[i]));
    }
    assert forall|i: int| 0 <= i < w.jobs.len() implies (#[trigger] w.jobs[i].resources matches Some(
        r,
    ) ==> has_tensor(w, r.input) && has_tensor(w, r.output)) by {
        let j = w.jobs[i];
        assert(v.jobs.contains(j));
        let k = choose|k: int| 0 <= k < v.jobs.len() && v.jobs[k] == j;
        if let Some(r) = j.resources {
            assert(v.jobs[k].resources == Some(r));
            assert(has_tensor(v, r.input) && has_tensor(v, r.output));
            assert(kept_jobs(v)[i].resources == Some(r));
            assert(tensor_kept(v, kept_jobs(v), tensor(v, r.input)));
            assert(tensor_kept(v, kept_jobs(v), tensor(v, r.output)));
        }
    }
    assert forall|i: int| 0 <= i < w.queue.len() implies has_job(w, w.queue[i]) && job(
        w,
        w.queue[i],
    ).status is Queued by {
        assert(has_job(v, v.queue[i]) && job(v, v.queue[i]).status is Queued);
        assert(job_kept(v, job(v, v.queue[i])));
    }
    assert forall|k: int| 0 <= k < w.objects.len() implies w.sessions.contains(
        #[trigger] w.objects[k].owner,
    ) by {
        assert(v.sessions.contains(v.objects[k].owner));
    }
    assert(refs_resolve(w));
    // limits
    lemma_bytes_filter(v.buffers, pb);
    assert forall|s: u64| #[trigger] session_bytes(w, s) <= SESSION_MEMORY by {
        lemma_filter_commute(v.buffers, pb, buffer_owner_is(s));
        lemma_bytes_filter(v.buffers.filter(buffer_owner_is(s)), pb);
        assert(session_bytes(v, s) <= SESSION_MEMORY);
    }
    assert forall|s: u64| #[trigger] owned(w, s).len() <= MAX_OBJECTS by {
        assert(owned(v, s).len() <= MAX_OBJECTS);
    }
    assert forall|i: int| 0 <= i < w.buffers.len() implies w.buffers[i].data.len() <= MAX_BUFFER by {
        assert(v.buffers.contains(w.buffers[i]));
    }
    assert forall|s: u64| #[trigger] owned_jobs(w, s).len() <= MAX_JOBS by {
        assert(owned_jobs(v, s).len() <= MAX_JOBS);
    }
    assert(within_limits(w));
    assert(sound(w));
    lemma_custody_reclaim(v);
    lemma_records_reclaim(v);
}

/// Removing one element does not lengthen a filtered sequence.
pub proof fn lemma_filter_remove_len<T>(s: Seq<T>, i: int, p: spec_fn(T) -> bool)
    requires
        0 <= i < s.len(),
    ensures
        s.remove(i).filter(p).len() <= s.filter(p).len(),
{
    let a = s.subrange(0, i);
    let b = s.subrange(i + 1, s.len() as int);
    let c = s.subrange(i, i + 1);
    assert(s.remove(i) =~= a + b);
    assert(s =~= a + (c + b));
    Seq::filter_distributes_over_add(a, b, p);
    Seq::filter_distributes_over_add(a, c + b, p);
    Seq::filter_distributes_over_add(c, b, p);
}

/// Filtering twice is no longer than filtering once.
pub proof fn lemma_filter_twice_len<T>(s: Seq<T>, p: spec_fn(T) -> bool, q: spec_fn(T) -> bool)
    ensures
        s.filter(p).filter(q).len() <= s.filter(q).len(),
{
    broadcast use vstd::seq_lib::group_filter_ensures;

    lemma_filter_commute(s, p, q);
    s.filter(q).lemma_filter_len(p);
}

/// Accepting a job keeps the invariant.
#[verifier::spinoff_prover]
#[verifier::rlimit(40)]
pub proof fn lemma_submit_inv(v: RuntimeView, owner: u64, ti: u64, to: u64, delay_ms: u32)
    requires
        runtime_inv(v),
        v.sessions.contains(owner),
        owned_jobs(v, owner).len() < MAX_JOBS,
        has_tensor(v, ti),
        has_tensor(v, to),
        buffer(v, tensor(v, ti).buffer).owner == owner,
        buffer(v, tensor(v, to).buffer).owner == owner,
        tensor(v, ti).buffer != tensor(v, to).buffer,
        !crate::model::pinned(v, tensor(v, ti).buffer),
        !crate::model::pinned(v, tensor(v, to).buffer),
        owned(v, owner).len() < MAX_OBJECTS,
        v.next < u64::MAX,
    ensures
        runtime_inv(
            RuntimeView {
                next: (v.next + 1) as u64,
                objects: v.objects.push(
                    ObjEntry { owner, handle: v.next, object: Object::Job(v.next) },
                ),
                jobs: v.jobs.push(
                    JobRec {
                        id: v.next,
                        owner,
                        delay_ms,
                        status: JobStatus::Queued,
                        error: None,
                        resources: Some(Resources { input: ti, output: to }),
                        cancelled: false,
                    },
                ),
                queue: v.queue.push(v.next),
                ..v
            },
        ),
{
    let e = ObjEntry { owner, handle: v.next, object: Object::Job(v.next) };
    let j = JobRec {
        id: v.next,
        owner,
        delay_ms,
        status: JobStatus::Queued,
        error: None,
        resources: Some(Resources { input: ti, output: to }),
        cancelled: false,
    };
    let w = RuntimeView {
        next: (v.next + 1) as u64,
        objects: v.objects.push(e),
        jobs: v.jobs.push(j),
        queue: v.queue.push(v.next),
        ..v
    };
    assert(!v.queue.contains(v.next)) by {
        if v.queue.contains(v.next) {
            let k = choose|k: int| 0 <= k < v.queue.len() && v.queue[k] == v.next;
            assert(has_job(v, v.queue[k]));
        }
    }
    assert(ids_unique(w));
    assert(ids_below_next(w));
    assert forall|id: u64| has_buffer(v, id) implies has_buffer(w, id) && buffer(w, id) == buffer(
        v,
        id,
    ) by {
        let k = buffer_index(v, id);
        assert(w.buffers[k].id == id);
    }
    assert forall|id: u64| has_tensor(v, id) implies has_tensor(w, id) && tensor(w, id) == tensor(
        v,
        id,
    ) by {
        let k = tensor_index(v, id);
        assert(w.tensors[k].id == id);
    }
    assert forall|id: u64| has_job(v, id) implies has_job(w, id) && job(w, id) == job(v, id) by {
        assert(w.jobs[job_index(v, id)] == job(v, id));
        lemma_job_stable(v, w, id);
    }
    assert(has_job(w, v.next) && job(w, v.next) == j) by {
        assert(w.jobs[v.jobs.len() as int] == j);
    }
    assert forall|i: int| 0 <= i < w.objects.len() implies object_resolves(
        w,
        #[trigger] w.objects[i],
    ) by {
        if i < v.objects.len() {
            assert(w.objects[i] == v.objects[i]);
            assert(object_resolves(v, v.objects[i]));
        }
    }
    assert forall|i: int| 0 <= i < w.tensors.len() implies has_buffer(
        w,
        #[trigger] w.tensors[i].buffer,
    ) && 0 <= w.tensors[i].start <= w.tensors[i].end <= buffer(w, w.tensors[i].buffer).data.len() by {
        assert(has_buffer(v, v.tensors[i].buffer));
    }
    assert forall|i: int| 0 <= i < w.queue.len() implies has_job(w, w.queue[i]) && job(
        w,
        w.queue[i],
    ).status is Queued by {
        if i < v.queue.len() {
            assert(has_job(v, v.queue[i]));
        }
    }
    assert forall|k: int| 0 <= k < w.objects.len() implies w.sessions.contains(
        #[trigger] w.objects[k].owner,
    ) by {
        if k < v.objects.len() {
            assert(w.objects[k] == v.objects[k]);
            assert(v.sessions.contains(v.objects[k].owner));
        }
    }
    assert(refs_resolve(w));
    assert forall|s: u64| #[trigger] session_bytes(w, s) <= SESSION_MEMORY by {
        assert(session_bytes(v, s) <= SESSION_MEMORY);
    }
    assert forall|s: u64| #[trigger] owned(w, s).len() <= MAX_OBJECTS by {
        lemma_filter_push(v.objects, e, owner_is(s));
        assert(owned(v, s).len() <= MAX_OBJECTS);
    }
    assert forall|s: u64| #[trigger] owned_jobs(w, s).len() <= MAX_JOBS by {
        lemma_filter_push(v.objects, e, owner_job_is(s));
        assert(owned_jobs(v, s).len() <= MAX_JOBS);
    }
    assert(within_limits(w));
    assert(sound(w));
    lemma_custody_submit(v, w, owner, ti, to, delay_ms);
    assert(owner < v.next) by {
        let m = choose|m: int| 0 <= m < v.sessions.len() && v.sessions[m] == owner;
        assert(v.sessions[m] < v.next);
    }
    lemma_records_submit(v, w, j, e);
}

/// Cancelling a job and dropping it from the queue keeps the invariant.
/// Tensors still fit their buffers when neither table changed.
#[verifier::spinoff_prover]
proof fn lemma_tensors_fit_same(v: RuntimeView, w: RuntimeView)
    requires
        refs_resolve(v),
        w.tensors == v.tensors,
        w.buffers == v.buffers,
    ensures
        forall|i: int|
            0 <= i < w.tensors.len() ==> has_buffer(w, #[trigger] w.tensors[i].buffer) && 0
                <= w.tensors[i].start <= w.tensors[i].end <= buffer(w, w.tensors[i].buffer).data.len(),
{
    lemma_tables_same(v, w);
    assert forall|i: int| 0 <= i < w.tensors.len() implies has_buffer(
        w,
        #[trigger] w.tensors[i].buffer,
    ) && 0 <= w.tensors[i].start <= w.tensors[i].end <= buffer(w, w.tensors[i].buffer).data.len() by {
        assert(has_buffer(v, v.tensors[i].buffer));
    }
}

/// The six parts of `refs_resolve`, taken one by one.
#[verifier::spinoff_prover]
proof fn lemma_refs_intro(w: RuntimeView)
    requires
        forall|i: int| 0 <= i < w.objects.len() ==> object_resolves(w, #[trigger] w.objects[i]),
        forall|i: int| 0 <= i < w.objects.len() ==> w.sessions.contains(#[trigger] w.objects[i].owner),
        forall|i: int|
            0 <= i < w.tensors.len() ==> has_buffer(w, #[trigger] w.tensors[i].buffer) && 0
                <= w.tensors[i].start <= w.tensors[i].end <= buffer(w, w.tensors[i].buffer).data.len(),
        forall|i: int|
            0 <= i < w.jobs.len() ==> ((#[trigger] w.jobs[i]).resources is Some <==> (w.jobs[i].status is Queued
                || w.jobs[i].status is Running)),
        forall|i: int|
            0 <= i < w.jobs.len() ==> (#[trigger] w.jobs[i].resources matches Some(r) ==> has_tensor(w, r.input)
                && has_tensor(w, r.output)),
        forall|i: int|
            0 <= i < w.queue.len() ==> has_job(w, w.queue[i]) && job(w, w.queue[i]).status is Queued,
    ensures
        refs_resolve(w),
{
}

/// Cancelling a job keeps every reference resolving.
#[verifier::spinoff_prover]
#[verifier::rlimit(40)]
proof fn lemma_cancel_refs(v: RuntimeView, id: u64)
    requires
        runtime_inv(v),
        has_job(v, id),
    ensures
        refs_resolve(
            RuntimeView {
                jobs: v.jobs.update(job_index(v, id), cancel_rec(v.jobs[job_index(v, id)])),
                queue: v.queue.filter(|q: u64| q != id),
                ..v
            },
        ),
{
    broadcast use vstd::seq_lib::group_filter_ensures;

    let i = job_index(v, id);
    let c = cancel_rec(v.jobs[i]);
    let pq = |q: u64| q != id;
    let w = RuntimeView { jobs: v.jobs.update(i, c), queue: v.queue.filter(pq), ..v };
    lemma_tables_same(v, w);
    assert forall|k: int| 0 <= k < w.queue.len() implies #[trigger] v.queue.contains(w.queue[k])
        && w.queue[k] != id by {
        lemma_filter_subset(v.queue, pq, k);
    }
    assert(w.jobs[i] == c);
    assert(job_index(w, id) == i);
    assert forall|jd: u64| has_job(v, jd) implies has_job(w, jd) && job(w, jd).owner == job(
        v,
        jd,
    ).owner && (jd != id ==> job(w, jd) == job(v, jd)) by {
        let k = job_index(v, jd);
        assert(w.jobs[k].id == jd);
        assert(job_index(w, jd) == k);
    }
    assert forall|k: int| 0 <= k < w.objects.len() implies object_resolves(
        w,
        #[trigger] w.objects[k],
    ) by {
        assert(object_resolves(v, v.objects[k]));
    }
    assert forall|k: int| 0 <= k < w.jobs.len() implies (#[trigger] w.jobs[k].resources matches Some(
        r,
    ) ==> has_tensor(w, r.input) && has_tensor(w, r.output)) by {
        assert(v.jobs[k].resources is Some ==> has_tensor(v, v.jobs[k].resources->Some_0.input));
    }
    assert forall|k: int| 0 <= k < w.jobs.len() implies ((#[trigger] w.jobs[k]).resources is Some
        <==> (w.jobs[k].status is Queued || w.jobs[k].status is Running)) by {
        assert((v.jobs[k]).resources is Some <==> (v.jobs[k].status is Queued
            || v.jobs[k].status is Running));
    }
    assert forall|k: int| 0 <= k < w.queue.len() implies has_job(w, w.queue[k]) && job(
        w,
        w.queue[k],
    ).status is Queued by {
        let q = w.queue[k];
        assert(v.queue.contains(q));
        let m = choose|m: int| 0 <= m < v.queue.len() && v.queue[m] == q;
        assert(has_job(v, v.queue[m]) && job(v, v.queue[m]).status is Queued);
    }
    lemma_tensors_fit_same(v, w);
    assert forall|k: int| 0 <= k < w.objects.len() implies w.sessions.contains(
        #[trigger] w.objects[k].owner,
    ) by {
        assert(v.sessions.contains(v.objects[k].owner));
    }
    lemma_refs_intro(w);
}

#[verifier::spinoff_prover]
#[verifier::rlimit(40)]
pub proof fn lemma_cancel_mid(v: RuntimeView, id: u64)
    requires
        runtime_inv(v),
        has_job(v, id),
    ensures
        runtime_inv(
            RuntimeView {
                jobs: v.jobs.update(job_index(v, id), cancel_rec(v.jobs[job_index(v, id)])),
                queue: v.queue.filter(|q: u64| q != id),
                ..v
            },
        ),
{
    broadcast use vstd::seq_lib::group_filter_ensures;

    let i = job_index(v, id);
    let c = cancel_rec(v.jobs[i]);
    let pq = |q: u64| q != id;
    let w = RuntimeView { jobs: v.jobs.update(i, c), queue: v.queue.filter(pq), ..v };
    lemma_tables_same(v, w);
    lemma_filter_unique(v.queue, pq, |q: u64| q);
    assert(ids_unique(w));
    assert forall|k: int| 0 <= k < w.queue.len() implies #[trigger] v.queue.contains(w.queue[k])
        && w.queue[k] != id by {
        lemma_filter_subset(v.queue, pq, k);
    }
    assert(ids_below_next(w)) by {
        assert forall|k: int| 0 <= k < w.queue.len() implies w.queue[k] < w.next by {
            assert(v.queue.contains(w.queue[k]));
        }
    }
    lemma_cancel_refs(v, id);
    assert forall|s: u64| #[trigger] session_bytes(w, s) <= SESSION_MEMORY by {
        assert(session_bytes(v, s) <= SESSION_MEMORY);
    }
    assert forall|s: u64| #[trigger] owned(w, s).len() <= MAX_OBJECTS by {
        assert(owned(v, s).len() <= MAX_OBJECTS);
    }
    assert forall|s: u64| #[trigger] owned_jobs(w, s).len() <= MAX_JOBS by {
        assert(owned_jobs(v, s).len() <= MAX_JOBS);
    }
    assert(within_limits(w));
    assert(sound(w));
    lemma_custody_cancel(v, id);
    assert(crate::model::status_error_agree(v.jobs[i]));
    lemma_cancel_rec_agrees(v.jobs[i]);
    lemma_records_job_update(v, w, id, c);
}

/// Removing a handle keeps the invariant.
#[verifier::spinoff_prover]
#[verifier::rlimit(40)]
pub proof fn lemma_close_mid(v: RuntimeView, owner: u64, h: u64)
    requires
        runtime_inv(v),
        has_object(v, owner, h),
        lookup(v, owner, h) matches Some(Object::Job(j)) ==> job(v, j).status.is_terminal(),
    ensures
        runtime_inv(RuntimeView { objects: v.objects.remove(object_index(v, owner, h)), ..v }),
{
    let i = object_index(v, owner, h);
    let w = RuntimeView { objects: v.objects.remove(i), ..v };
    lemma_tables_same(v, w);
    assert forall|k: int| 0 <= k < w.objects.len() implies w.objects[k] == v.objects[if k < i {
        k
    } else {
        k + 1
    }] by {}
    assert(ids_unique(w)) by {
        assert forall|a: int, b: int|
            0 <= a < w.objects.len() && 0 <= b < w.objects.len() && a != b implies w.objects[a].handle
            != w.objects[b].handle by {
            let a2 = if a < i {
                a
            } else {
                a + 1
            };
            let b2 = if b < i {
                b
            } else {
                b + 1
            };
            assert(w.objects[a] == v.objects[a2]);
            assert(w.objects[b] == v.objects[b2]);
        }
    }
    assert(ids_below_next(w)) by {
        assert forall|k: int| 0 <= k < w.objects.len() implies w.objects[k].handle < w.next by {
            let k2 = if k < i {
                k
            } else {
                k + 1
            };
            assert(w.objects[k] == v.objects[k2]);
        }
    }
    assert forall|k: int| 0 <= k < w.objects.len() implies object_resolves(
        w,
        #[trigger] w.objects[k],
    ) by {
        let k2 = if k < i {
            k
        } else {
            k + 1
        };
        assert(w.objects[k] == v.objects[k2]);
        assert(object_resolves(v, v.objects[k2]));
    }
    assert forall|k: int| 0 <= k < w.tensors.len() implies has_buffer(
        w,
        #[trigger] w.tensors[k].buffer,
    ) && 0 <= w.tensors[k].start <= w.tensors[k].end <= buffer(w, w.tensors[k].buffer).data.len() by {
        assert(has_buffer(v, v.tensors[k].buffer));
    }
    assert forall|k: int| 0 <= k < w.objects.len() implies w.sessions.contains(
        #[trigger] w.objects[k].owner,
    ) by {
        let k2 = if k < i {
            k
        } else {
            k + 1
        };
        assert(w.objects[k] == v.objects[k2]);
        assert(v.sessions.contains(v.objects[k2].owner));
    }
    assert(refs_resolve(w));
    assert forall|s: u64| #[trigger] session_bytes(w, s) <= SESSION_MEMORY by {
        assert(session_bytes(v, s) <= SESSION_MEMORY);
    }
    assert forall|s: u64| #[trigger] owned(w, s).len() <= MAX_OBJECTS by {
        lemma_filter_remove_len(v.objects, i, owner_is(s));
        assert(owned(v, s).len() <= MAX_OBJECTS);
    }
    assert forall|s: u64| #[trigger] owned_jobs(w, s).len() <= MAX_JOBS by {
        lemma_filter_remove_len(v.objects, i, owner_job_is(s));
        assert(owned_jobs(v, s).len() <= MAX_JOBS);
    }
    assert(within_limits(w));
    assert(sound(w));
    lemma_custody_close(v, owner, h);
    lemma_records_close(v, owner, h);
}

/// Dropping entries from the queue keeps the invariant.
#[verifier::spinoff_prover]
#[verifier::rlimit(40)]
pub proof fn lemma_queue_subset(v: RuntimeView, q: Seq<u64>)
    requires
        runtime_inv(v),
        q.no_duplicates(),
        forall|i: int| 0 <= i < q.len() ==> v.queue.contains(#[trigger] q[i]),
    ensures
        runtime_inv(RuntimeView { queue: q, ..v }),
{
    let w = RuntimeView { queue: q, ..v };
    lemma_tables_same(v, w);
    assert(ids_unique(w));
    assert(ids_below_next(w)) by {
        assert forall|i: int| 0 <= i < q.len() implies q[i] < w.next by {
            assert(v.queue.contains(q[i]));
        }
    }
    assert forall|i: int| 0 <= i < q.len() implies has_job(w, q[i]) && job(w, q[i]).status is Queued by {
        assert(v.queue.contains(q[i]));
        let k = choose|k: int| 0 <= k < v.queue.len() && v.queue[k] == q[i];
        assert(has_job(v, v.queue[k]) && job(v, v.queue[k]).status is Queued);
    }
    assert forall|k: int| 0 <= k < w.objects.len() implies object_resolves(
        w,
        #[trigger] w.objects[k],
    ) by {
        assert(object_resolves(v, v.objects[k]));
    }
    assert forall|k: int| 0 <= k < w.tensors.len() implies has_buffer(
        w,
        #[trigger] w.tensors[k].buffer,
    ) && 0 <= w.tensors[k].start <= w.tensors[k].end <= buffer(w, w.tensors[k].buffer).data.len() by {
        assert(has_buffer(v, v.tensors[k].buffer));
    }
    assert forall|k: int| 0 <= k < w.objects.len() implies w.sessions.contains(
        #[trigger] w.objects[k].owner,
    ) by {
        assert(v.sessions.contains(v.objects[k].owner));
    }
    assert(refs_resolve(w));
    assert forall|s: u64| #[trigger] session_bytes(w, s) <= SESSION_MEMORY by {
        assert(session_bytes(v, s) <= SESSION_MEMORY);
    }
    assert forall|s: u64| #[trigger] owned(w, s).len() <= MAX_OBJECTS by {
        assert(owned(v, s).len() <= MAX_OBJECTS);
    }
    assert forall|s: u64| #[trigger] owned_jobs(w, s).len() <= MAX_JOBS by {
        assert(owned_jobs(v, s).len() <= MAX_JOBS);
    }
    assert(within_limits(w));
    assert(sound(w));
    lemma_custody_tables(v, w);
    lemma_records_carry(v, w);
}

/// Replacing a job record by one with the same identity and owner keeps the
/// invariant, provided resources still go with unfinished statuses and a
/// queued entry keeps naming a queued job.
#[verifier::spinoff_prover]
#[verifier::rlimit(40)]
pub proof fn lemma_job_update_inv(v: RuntimeView, id: u64, nj: JobRec)
    requires
        runtime_inv(v),
        has_job(v, id),
        nj.id == id,
        nj.owner == job(v, id).owner,
        nj.resources is Some <==> (nj.status is Queued || nj.status is Running),
        nj.resources is Some ==> nj.resources == job(v, id).resources,
        nj.status is Queued ==> job(v, id).status is Queued,
        v.queue.contains(id) ==> nj.status is Queued,
        crate::model::status_error_agree(nj),
        nj.status is Running && !job_named(v, id) ==> nj.cancelled,
    ensures
        runtime_inv(RuntimeView { jobs: v.jobs.update(job_index(v, id), nj), ..v }),
{
    let i = job_index(v, id);
    let w = RuntimeView { jobs: v.jobs.update(i, nj), ..v };
    lemma_tables_same(v, w);
    assert(ids_unique(w));
    assert(ids_below_next(w));
    assert forall|jd: u64| has_job(v, jd) implies has_job(w, jd) && job(w, jd).owner == job(
        v,
        jd,
    ).owner && (jd != id ==> job(w, jd) == job(v, jd)) && (jd == id ==> job(w, jd) == nj) by {
        let k = job_index(v, jd);
        assert(w.jobs[k].id == jd);
        assert(job_index(w, jd) == k);
    }
    assert forall|k: int| 0 <= k < w.objects.len() implies object_resolves(
        w,
        #[trigger] w.objects[k],
    ) by {
        assert(object_resolves(v, v.objects[k]));
    }
    assert forall|k: int| 0 <= k < w.jobs.len() implies (#[trigger] w.jobs[k].resources matches Some(
        r,
    ) ==> has_tensor(w, r.input) && has_tensor(w, r.output)) by {
        assert(v.jobs[k].resources is Some ==> has_tensor(v, v.jobs[k].resources->Some_0.input));
    }
    assert forall|k: int| 0 <= k < w.jobs.len() implies ((#[trigger] w.jobs[k]).resources is Some
        <==> (w.jobs[k].status is Queued || w.jobs[k].status is Running)) by {
        assert((v.jobs[k]).resources is Some <==> (v.jobs[k].status is Queued
            || v.jobs[k].status is Running));
    }
    assert forall|k: int| 0 <= k < w.queue.len() implies has_job(w, w.queue[k]) && job(
        w,
        w.queue[k],
    ).status is Queued by {
        assert(has_job(v, v.queue[k]) && job(v, v.queue[k]).status is Queued);
        if v.queue[k] == id {
            assert(v.queue.contains(id));
        }
    }
    assert forall|k: int| 0 <= k < w.tensors.len() implies has_buffer(
        w,
        #[trigger] w.tensors[k].buffer,
    ) && 0 <= w.tensors[k].start <= w.tensors[k].end <= buffer(w, w.tensors[k].buffer).data.len() by {
        assert(has_buffer(v, v.tensors[k].buffer));
    }
    assert forall|k: int| 0 <= k < w.objects.len() implies w.sessions.contains(
        #[trigger] w.objects[k].owner,
    ) by {
        assert(v.sessions.contains(v.objects[k].owner));
    }
    assert(refs_resolve(w));
    assert forall|s: u64| #[trigger] session_bytes(w, s) <= SESSION_MEMORY by {
        assert(session_bytes(v, s) <= SESSION_MEMORY);
    }
    assert forall|s: u64| #[trigger] owned(w, s).len() <= MAX_OBJECTS by {
        assert(owned(v, s).len() <= MAX_OBJECTS);
    }
    assert forall|s: u64| #[trigger] owned_jobs(w, s).len() <= MAX_JOBS by {
        assert(owned_jobs(v, s).len() <= MAX_JOBS);
    }
    assert(within_limits(w));
    assert(sound(w));
    lemma_custody_job_update(v, id, nj);
    lemma_records_job_update(v, w, id, nj);
}

/// The state just before reclamation when session `owner` goes away.
pub open spec fn disconnect_mid(v: RuntimeView, owner: u64) -> RuntimeView {
    RuntimeView {
        sessions: v.sessions.filter(other_session(owner)),
        objects: v.objects.filter(|e: ObjEntry| e.owner != owner),
        jobs: v.jobs.map_values(
            |j: JobRec|
                if crate::model::owned_job(v, owner, j.id) {
                    cancel_rec(j)
                } else {
                    j
                },
        ),
        queue: v.queue.filter(|q: u64| job(v, q).owner != owner),
        ..v
    }
}

#[verifier::spinoff_prover]
#[verifier::rlimit(40)]
pub proof fn lemma_disconnect_mid(v: RuntimeView, owner: u64)
    requires
        runtime_inv(v),
    ensures
        runtime_inv(disconnect_mid(v, owner)),
{
    broadcast use vstd::seq_lib::group_filter_ensures;

    let w = disconnect_mid(v, owner);
    let ps = other_session(owner);
    let po = |e: ObjEntry| e.owner != owner;
    let pq = |q: u64| job(v, q).owner != owner;
    lemma_tables_same(v, w);
    lemma_filter_unique(v.sessions, ps, |s: u64| s);
    lemma_filter_unique(v.queue, pq, |q: u64| q);
    lemma_filter_unique(v.objects, po, |e: ObjEntry| e.handle);
    assert forall|i: int| 0 <= i < w.jobs.len() implies (#[trigger] w.jobs[i]).id == v.jobs[i].id
        && w.jobs[i].owner == v.jobs[i].owner by {}
    assert(ids_unique(w));
    assert forall|i: int| 0 <= i < w.sessions.len() implies #[trigger] v.sessions.contains(
        w.sessions[i],
    ) by {
        lemma_filter_subset(v.sessions, ps, i);
    }
    assert forall|i: int| 0 <= i < w.objects.len() implies #[trigger] v.objects.contains(
        w.objects[i],
    ) && w.objects[i].owner != owner by {
        lemma_filter_subset(v.objects, po, i);
    }
    assert forall|i: int| 0 <= i < w.queue.len() implies #[trigger] v.queue.contains(w.queue[i])
        && job(v, w.queue[i]).owner != owner by {
        lemma_filter_subset(v.queue, pq, i);
    }
    assert(ids_below_next(w)) by {
        assert forall|i: int| 0 <= i < w.sessions.len() implies w.sessions[i] < w.next by {
            assert(v.sessions.contains(w.sessions[i]));
        }
        assert forall|i: int| 0 <= i < w.objects.len() implies w.objects[i].handle < w.next by {
            assert(v.objects.contains(w.objects[i]));
        }
        assert forall|i: int| 0 <= i < w.queue.len() implies w.queue[i] < w.next by {
            assert(v.queue.contains(w.queue[i]));
        }
    }
    assert forall|jd: u64| has_job(v, jd) implies has_job(w, jd) && job(w, jd).owner == job(
        v,
        jd,
    ).owner && job(w, jd) == (if crate::model::owned_job(v, owner, jd) {
        cancel_rec(job(v, jd))
    } else {
        job(v, jd)
    }) by {
        let k = job_index(v, jd);
        assert(w.jobs[k].id == jd);
        assert(job_index(w, jd) == k);
    }
    assert forall|k: int| 0 <= k < w.objects.len() implies object_resolves(
        w,
        #[trigger] w.objects[k],
    ) by {
        assert(v.objects.contains(w.objects[k]));
        let m = choose|m: int| 0 <= m < v.objects.len() && v.objects[m] == w.objects[k];
        assert(object_resolves(v, v.objects[m]));
    }
    assert forall|k: int| 0 <= k < w.jobs.len() implies (#[trigger] w.jobs[k].resources matches Some(
        r,
    ) ==> has_tensor(w, r.input) && has_tensor(w, r.output)) by {
        assert(v.jobs[k].resources is Some ==> has_tensor(v, v.jobs[k].resources->Some_0.input));
    }
    assert forall|k: int| 0 <= k < w.jobs.len() implies ((#[trigger] w.jobs[k]).resources is Some
        <==> (w.jobs[k].status is Queued || w.jobs[k].status is Running)) by {
        assert((v.jobs[k]).resources is Some <==> (v.jobs[k].status is Queued
            || v.jobs[k].status is Running));
    }
    assert forall|k: int| 0 <= k < w.queue.len() implies has_job(w, w.queue[k]) && job(
        w,
        w.queue[k],
    ).status is Queued by {
        let q = w.queue[k];
        assert(v.queue.contains(q));
        let m = choose|m: int| 0 <= m < v.queue.len() && v.queue[m] == q;
        assert(has_job(v, v.queue[m]) && job(v, v.queue[m]).status is Queued);
        if crate::model::owned_job(v, owner, q) {
            let i = choose|i: int|
                0 <= i < v.objects.len() && v.objects[i].owner == owner && v.objects[i].object
                    == Object::Job(q);
            assert(object_resolves(v, v.objects[i]));
        }
    }
    assert forall|k: int| 0 <= k < w.tensors.len() implies has_buffer(
        w,
        #[trigger] w.tensors[k].buffer,
    ) && 0 <= w.tensors[k].start <= w.tensors[k].end <= buffer(w, w.tensors[k].buffer).data.len() by {
        assert(has_buffer(v, v.tensors[k].buffer));
    }
    assert forall|k: int| 0 <= k < w.objects.len() implies w.sessions.contains(
        #[trigger] w.objects[k].owner,
    ) by {
        assert(v.objects.contains(w.objects[k]));
        let m = choose|m: int| 0 <= m < v.objects.len() && v.objects[m] == w.objects[k];
        assert(v.sessions.contains(v.objects[m].owner));
        let n = choose|n: int| 0 <= n < v.sessions.len() && v.sessions[n] == v.objects[m].owner;
        v.sessions.lemma_filter_contains(ps, n);
    }
    assert(refs_resolve(w));
    v.sessions.lemma_filter_len(ps);
    assert forall|s: u64| #[trigger] session_bytes(w, s) <= SESSION_MEMORY by {
        assert(session_bytes(v, s) <= SESSION_MEMORY);
    }
    assert forall|s: u64| #[trigger] owned(w, s).len() <= MAX_OBJECTS by {
        lemma_filter_twice_len(v.objects, po, owner_is(s));
        assert(owned(v, s).len() <= MAX_OBJECTS);
    }
    assert forall|s: u64| #[trigger] owned_jobs(w, s).len() <= MAX_JOBS by {
        lemma_filter_twice_len(v.objects, po, owner_job_is(s));
        assert(owned_jobs(v, s).len() <= MAX_JOBS);
    }
    assert(within_limits(w));
    assert(sound(w));
    lemma_custody_disconnect(v, owner);
    lemma_records_disconnect(v, owner);
}

/// The state just before reclamation when the daemon stops.
pub open spec fn shutdown_mid(v: RuntimeView) -> RuntimeView {
    RuntimeView {
        stopping: true,
        sessions: Seq::empty(),
        objects: Seq::empty(),
        jobs: v.jobs.map_values(
            |j: JobRec|
                if job_named(v, j.id) {
                    cancel_rec(j)
                } else {
                    j
                },
        ),
        queue: Seq::empty(),
        ..v
    }
}

#[verifier::spinoff_prover]
#[verifier::rlimit(40)]
pub proof fn lemma_shutdown_mid(v: RuntimeView)
    requires
        runtime_inv(v),
    ensures
        runtime_inv(shutdown_mid(v)),
{
    let w = shutdown_mid(v);
    lemma_tables_same(v, w);
    assert forall|i: int| 0 <= i < w.jobs.len() implies (#[trigger] w.jobs[i]).id == v.jobs[i].id
        by {}
    assert(ids_unique(w));
    assert(ids_below_next(w));
    assert forall|k: int| 0 <= k < w.jobs.len() implies (#[trigger] w.jobs[k].resources matches Some(
        r,
    ) ==> has_tensor(w, r.input) && has_tensor(w, r.output)) by {
        assert(v.jobs[k].resources is Some ==> has_tensor(v, v.jobs[k].resources->Some_0.input));
    }
    assert forall|k: int| 0 <= k < w.jobs.len() implies ((#[trigger] w.jobs[k]).resources is Some
        <==> (w.jobs[k].status is Queued || w.jobs[k].status is Running)) by {
        assert((v.jobs[k]).resources is Some <==> (v.jobs[k].status is Queued
            || v.jobs[k].status is Running));
    }
    assert forall|k: int| 0 <= k < w.tensors.len() implies has_buffer(
        w,
        #[trigger] w.tensors[k].buffer,
    ) && 0 <= w.tensors[k].start <= w.tensors[k].end <= buffer(w, w.tensors[k].buffer).data.len() by {
        assert(has_buffer(v, v.tensors[k].buffer));
    }
    assert(refs_resolve(w));
    assert forall|s: u64| #[trigger] session_bytes(w, s) <= SESSION_MEMORY by {
        assert(session_bytes(v, s) <= SESSION_MEMORY);
    }
    assert forall|s: u64| #[trigger] owned(w, s).len() <= MAX_OBJECTS by {
        crate::seqs::lemma_filter_empty(w.objects, owner_is(s));
    }
    assert forall|s: u64| #[trigger] owned_jobs(w, s).len() <= MAX_JOBS by {
        crate::seqs::lemma_filter_empty(w.objects, owner_job_is(s));
    }
    assert(within_limits(w));
    assert(sound(w));
    lemma_custody_shutdown(v);
    lemma_records_shutdown(v);
}

} // verus!
