//! Facts about filtering and summing sequences used by the runtime proofs.
use crate::model::{bytes_of, BufferView};
use vstd::prelude::*;

verus! {

pub proof fn lemma_filter_push<T>(s: Seq<T>, x: T, p: spec_fn(T) -> bool)
    ensures
        s.push(x).filter(p) == (if p(x) {
            s.filter(p).push(x)
        } else {
            s.filter(p)
        }),
{
    reveal(Seq::filter);
    assert(s.push(x).drop_last() =~= s);
}

pub proof fn lemma_filter_empty<T>(s: Seq<T>, p: spec_fn(T) -> bool)
    requires
        s.len() == 0,
    ensures
        s.filter(p) =~= s,
{
    reveal(Seq::filter);
}

pub proof fn lemma_filter_prefix<T>(s: Seq<T>, i: int, p: spec_fn(T) -> bool)
    requires
        0 <= i < s.len(),
    ensures
        s.subrange(0, i + 1).filter(p) == (if p(s[i]) {
            s.subrange(0, i).filter(p).push(s[i])
        } else {
            s.subrange(0, i).filter(p)
        }),
{
    assert(s.subrange(0, i + 1) =~= s.subrange(0, i).push(s[i]));
    lemma_filter_push(s.subrange(0, i), s[i], p);
}

pub proof fn lemma_bytes_push(s: Seq<BufferView>, b: BufferView)
    ensures
        bytes_of(s.push(b)) == bytes_of(s) + b.data.len(),
{
    assert(s.push(b).drop_last() =~= s);
}

pub proof fn lemma_bytes_nonneg(s: Seq<BufferView>)
    ensures
        bytes_of(s) >= 0,
    decreases s.len(),
{
    if s.len() > 0 {
        lemma_bytes_nonneg(s.drop_last());
    }
}

pub proof fn lemma_bytes_filter(s: Seq<BufferView>, p: spec_fn(BufferView) -> bool)
    ensures
        0 <= bytes_of(s.filter(p)) <= bytes_of(s),
    decreases s.len(),
{
    reveal(Seq::filter);
    lemma_bytes_nonneg(s.filter(p));
    if s.len() > 0 {
        lemma_bytes_filter(s.drop_last(), p);
        if p(s.last()) {
            lemma_bytes_push(s.drop_last().filter(p), s.last());
        }
    }
}

pub proof fn lemma_bytes_update(s: Seq<BufferView>, i: int, b: BufferView)
    requires
        0 <= i < s.len(),
        b.data.len() == s[i].data.len(),
    ensures
        bytes_of(s.update(i, b)) == bytes_of(s),
    decreases s.len(),
{
    if i < s.len() - 1 {
        lemma_bytes_update(s.drop_last(), i, b);
        assert(s.update(i, b).drop_last() =~= s.drop_last().update(i, b));
    } else {
        assert(s.update(i, b).drop_last() =~= s.drop_last());
    }
}

pub proof fn lemma_bytes_filter_update(
    s: Seq<BufferView>,
    i: int,
    b: BufferView,
    p: spec_fn(BufferView) -> bool,
)
    requires
        0 <= i < s.len(),
        b.data.len() == s[i].data.len(),
        p(b) == p(s[i]),
    ensures
        bytes_of(s.update(i, b).filter(p)) == bytes_of(s.filter(p)),
    decreases s.len(),
{
    reveal(Seq::filter);
    if i < s.len() - 1 {
        lemma_bytes_filter_update(s.drop_last(), i, b, p);
        assert(s.update(i, b).drop_last() =~= s.drop_last().update(i, b));
        if p(s.last()) {
            lemma_bytes_push(s.drop_last().filter(p), s.last());
            lemma_bytes_push(s.drop_last().update(i, b).filter(p), s.last());
        }
    } else {
        assert(s.update(i, b).drop_last() =~= s.drop_last());
        if p(b) {
            lemma_bytes_push(s.drop_last().filter(p), s.last());
            lemma_bytes_push(s.drop_last().filter(p), b);
        }
    }
}

/// Filtering keeps a sub-sequence: each element of the result is an element
/// of the source.
pub proof fn lemma_filter_subset<T>(s: Seq<T>, p: spec_fn(T) -> bool, i: int)
    requires
        0 <= i < s.filter(p).len(),
    ensures
        s.contains(s.filter(p)[i]),
        p(s.filter(p)[i]),
{
    broadcast use vstd::seq_lib::group_filter_ensures;

    s.lemma_filter_pred(p, i);
    assert(s.filter(p).contains(s.filter(p)[i]));
    filter_elements_from_source(s, p, i);
}

proof fn filter_elements_from_source<T>(s: Seq<T>, p: spec_fn(T) -> bool, i: int)
    requires
        0 <= i < s.filter(p).len(),
    ensures
        s.contains(s.filter(p)[i]),
    decreases s.len(),
{
    reveal(Seq::filter);
    if s.len() > 0 {
        let sub = s.drop_last().filter(p);
        if i < sub.len() {
            filter_elements_from_source(s.drop_last(), p, i);
            let k = choose|k: int| 0 <= k < s.drop_last().len() && s.drop_last()[k] == sub[i];
            assert(s[k] == sub[i]);
            if p(s.last()) {
                assert(s.filter(p)[i] == sub[i]);
            }
        } else {
            assert(s[s.len() - 1] == s.filter(p)[i]);
        }
    }
}

/// Progress of an in-place filter: `cur` holds the kept prefix of the first
/// `k` elements of `s`, followed by the unvisited rest of `s`.
pub open spec fn sweep_state<T>(cur: Seq<T>, s: Seq<T>, i: int, k: int, p: spec_fn(T) -> bool) -> bool {
    &&& 0 <= i <= cur.len()
    &&& 0 <= k <= s.len()
    &&& cur.subrange(0, i) == s.subrange(0, k).filter(p)
    &&& cur.subrange(i, cur.len() as int) == s.subrange(k, s.len() as int)
}

pub proof fn lemma_sweep_start<T>(s: Seq<T>, p: spec_fn(T) -> bool)
    ensures
        sweep_state(s, s, 0, 0, p),
{
    lemma_filter_empty(s.subrange(0, 0), p);
    assert(s.subrange(0, 0) =~= s.subrange(0, 0).filter(p));
    assert(s.subrange(0, s.len() as int) =~= s);
}

pub proof fn lemma_sweep_keep<T>(cur: Seq<T>, s: Seq<T>, i: int, k: int, p: spec_fn(T) -> bool)
    requires
        sweep_state(cur, s, i, k, p),
        i < cur.len(),
    ensures
        k < s.len(),
        cur[i] == s[k],
        p(cur[i]) ==> sweep_state(cur, s, i + 1, k + 1, p),
        !p(cur[i]) ==> sweep_state(cur.remove(i), s, i, k + 1, p),
{
    assert(cur.subrange(i, cur.len() as int)[0] == cur[i]);
    assert(s.subrange(k, s.len() as int).len() == cur.len() - i);
    assert(s.subrange(k, s.len() as int)[0] == s[k]);
    lemma_filter_prefix(s, k, p);
    if p(cur[i]) {
        assert(cur.subrange(0, i + 1) =~= cur.subrange(0, i).push(cur[i]));
        assert(cur.subrange(i + 1, cur.len() as int) =~= s.subrange(k + 1, s.len() as int)) by {
            assert forall|m: int| 0 <= m < cur.len() - i - 1 implies #[trigger] cur.subrange(
                i + 1,
                cur.len() as int,
            )[m] == s.subrange(k + 1, s.len() as int)[m] by {
                assert(cur.subrange(i, cur.len() as int)[m + 1] == s.subrange(k, s.len() as int)[m
                    + 1]);
            }
        }
    } else {
        let c = cur.remove(i);
        assert(c.subrange(0, i) =~= cur.subrange(0, i));
        assert(c.subrange(i, c.len() as int) =~= s.subrange(k + 1, s.len() as int)) by {
            assert forall|m: int| 0 <= m < c.len() - i implies #[trigger] c.subrange(i, c.len() as int)[m]
                == s.subrange(k + 1, s.len() as int)[m] by {
                assert(cur.subrange(i, cur.len() as int)[m + 1] == s.subrange(k, s.len() as int)[m
                    + 1]);
            }
        }
    }
}

pub proof fn lemma_sweep_end<T>(cur: Seq<T>, s: Seq<T>, i: int, k: int, p: spec_fn(T) -> bool)
    requires
        sweep_state(cur, s, i, k, p),
        i == cur.len(),
    ensures
        cur == s.filter(p),
{
    assert(s.subrange(k, s.len() as int).len() == 0);
    assert(k == s.len());
    assert(s.subrange(0, k) =~= s);
    assert(cur.subrange(0, i) =~= cur);
}

} // verus!
