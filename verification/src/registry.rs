//! The table of open client contexts behind the C ABI: identifiers are never
//! reused and at most `MAX_CONTEXTS` contexts are open at once.
use crate::types::Error;
use vstd::prelude::*;

verus! {

/// Open contexts at most.
pub const MAX_CONTEXTS: usize = 32;

/// Values under fresh identifiers, starting at 1.
pub struct Registry<T> {
    next: u64,
    entries: Vec<(u64, T)>,
}

impl<T> Registry<T> {
    #[verifier::type_invariant]
    spec fn inv(self) -> bool {
        &&& forall|i: int, j: int|
            0 <= i < self.entries@.len() && 0 <= j < self.entries@.len() && i != j
                ==> self.entries@[i].0 != self.entries@[j].0
        &&& forall|i: int| 0 <= i < self.entries@.len() ==> self.entries@[i].0 < self.next
        &&& self.next >= 1
    }

    /// Whether `id` is open.
    pub closed spec fn has(&self, id: u64) -> bool {
        exists|i: int| 0 <= i < self.entries@.len() && self.entries@[i].0 == id
    }

    /// The value under an open `id`.
    pub closed spec fn at(&self, id: u64) -> T {
        self.entries@[choose|i: int| 0 <= i < self.entries@.len() && self.entries@[i].0 == id].1
    }

    /// How many contexts are open.
    pub closed spec fn count(&self) -> nat {
        self.entries@.len()
    }

    /// The identifier the next context will get.
    pub closed spec fn next_id(&self) -> u64 {
        self.next
    }

    /// An empty table.
    pub fn new() -> (r: Self)
        ensures
            r.count() == 0,
            r.next_id() == 1,
            forall|id: u64| !r.has(id),
    {
        Registry { next: 1, entries: Vec::new() }
    }

    /// Opens `value` under a fresh identifier. A full table is busy; once
    /// every identifier is used no more can be opened.
    pub fn insert(&mut self, value: T) -> (r: Result<u64, Error>)
        ensures
            old(self).count() >= MAX_CONTEXTS ==> r == Err::<u64, Error>(Error::Busy),
            old(self).count() < MAX_CONTEXTS && old(self).next_id() == u64::MAX ==> r == Err::<
                u64,
                Error,
            >(Error::NoMemory),
            r is Err ==> final(self).count() == old(self).count() && final(self).next_id() == old(self).next_id() && forall|k: u64| #[trigger] final(self).has(k) == old(self).has(k) && (
            old(self).has(k) ==> final(self).at(k) == old(self).at(k)),
            old(self).count() < MAX_CONTEXTS && old(self).next_id() < u64::MAX ==> r is Ok,
            r matches Ok(id) ==> {
                &&& id == old(self).next_id()
                &&& !old(self).has(id)
                &&& final(self).next_id() == id + 1
                &&& final(self).count() == old(self).count() + 1
                &&& final(self).has(id) && final(self).at(id) == value
                &&& forall|k: u64|
                    k != id ==> #[trigger] final(self).has(k) == old(self).has(k) && (old(self).has(k) ==> final(self).at(k) == old(self).at(k))
            },
    {
        proof {
            use_type_invariant(&*self);
        }
        if self.entries.len() >= MAX_CONTEXTS {
            return Err(Error::Busy);
        }
        let id = self.next;
        let n = match id.checked_add(1) {
            None => {
                return Err(Error::NoMemory);
            },
            Some(n) => n,
        };
        let ghost old_entries = self.entries@;
        proof {
            assert(!self.has(id)) by {
                if self.has(id) {
                    let i = choose|i: int|
                        0 <= i < self.entries@.len() && self.entries@[i].0 == id;
                    assert(self.entries@[i].0 < self.next);
                }
            }
        }
        let mut entries: Vec<(u64, T)> = Vec::new();
        std::mem::swap(&mut entries, &mut self.entries);
        entries.push((id, value));
        proof {
            assert(entries@ == old_entries.push((id, value)));
            assert forall|i: int, j: int|
                0 <= i < entries@.len() && 0 <= j < entries@.len() && i != j implies entries@[i].0
                != entries@[j].0 by {
                if i < old_entries.len() && j < old_entries.len() {
                } else if i < old_entries.len() {
                    assert(old_entries[i].0 < id);
                } else if j < old_entries.len() {
                    assert(old_entries[j].0 < id);
                }
            }
        }
        *self = Registry { next: n, entries };
        proof {
            let m = old_entries.len() as int;
            assert(self.entries@[m] == (id, value));
            assert forall|k: u64| k != id implies #[trigger] self.has(k) == (exists|i: int|
                0 <= i < old_entries.len() && old_entries[i].0 == k) by {
                if exists|i: int| 0 <= i < old_entries.len() && old_entries[i].0 == k {
                    let i = choose|i: int| 0 <= i < old_entries.len() && old_entries[i].0 == k;
                    assert(self.entries@[i] == old_entries[i]);
                }
                if self.has(k) {
                    let i = choose|i: int| 0 <= i < self.entries@.len() && self.entries@[i].0 == k;
                    assert(i != m);
                    assert(old_entries[i] == self.entries@[i]);
                }
            }
            assert forall|k: u64|
                k != id && (exists|i: int| 0 <= i < old_entries.len() && old_entries[i].0 == k)
                implies #[trigger] self.at(k) == old_entries[choose|i: int|
                0 <= i < old_entries.len() && old_entries[i].0 == k].1 by {
                let i = choose|i: int| 0 <= i < old_entries.len() && old_entries[i].0 == k;
                let j = choose|j: int| 0 <= j < self.entries@.len() && self.entries@[j].0 == k;
                assert(self.entries@[i] == old_entries[i]);
                assert(j == i);
            }
            assert(self.has(id));
            let j = choose|j: int| 0 <= j < self.entries@.len() && self.entries@[j].0 == id;
            assert(j == m);
        }
        Ok(id)
    }

    /// The value open under `id`, if any.
    pub fn get(&self, id: u64) -> (r: Option<&T>)
        ensures
            r is Some <==> self.has(id),
            r matches Some(v) ==> *v == self.at(id),
    {
        proof {
            use_type_invariant(self);
        }
        let mut i: usize = 0;
        while i < self.entries.len()
            invariant
                0 <= i <= self.entries@.len(),
                forall|k: int| 0 <= k < i ==> self.entries@[k].0 != id,
                forall|a: int, b: int|
                    0 <= a < self.entries@.len() && 0 <= b < self.entries@.len() && a != b
                        ==> self.entries@[a].0 != self.entries@[b].0,
                forall|a: int| 0 <= a < self.entries@.len() ==> self.entries@[a].0 < self.next,
                self.next >= 1,
            decreases self.entries@.len() - i,
        {
            if self.entries[i].0 == id {
                proof {
                    let j = choose|j: int| 0 <= j < self.entries@.len() && self.entries@[j].0 == id;
                    assert(j == i);
                }
                return Some(&self.entries[i].1);
            }
            i = i + 1;
        }
        None
    }

    /// Closes `id` and hands back its value; an identifier that is not open is
    /// invalid and changes nothing.
    pub fn remove(&mut self, id: u64) -> (r: Result<T, Error>)
        ensures
            r is Ok <==> old(self).has(id),
            r matches Err(e) ==> e == Error::Invalid && final(self).count() == old(self).count()
                && forall|k: u64| #[trigger] final(self).has(k) == old(self).has(k),
            r matches Ok(v) ==> v == old(self).at(id) && !final(self).has(id) && final(self).count() + 1 == old(self).count() && forall|k: u64|
                k != id ==> #[trigger] final(self).has(k) == old(self).has(k),
            final(self).next_id() == old(self).next_id(),
    {
        proof {
            use_type_invariant(&*self);
        }
        let mut i: usize = 0;
        while i < self.entries.len()
            invariant
                0 <= i <= self.entries@.len(),
                forall|k: int| 0 <= k < i ==> self.entries@[k].0 != id,
                self.entries@ == old(self).entries@,
                self.next == old(self).next,
                forall|a: int, b: int|
                    0 <= a < self.entries@.len() && 0 <= b < self.entries@.len() && a != b
                        ==> self.entries@[a].0 != self.entries@[b].0,
                forall|a: int| 0 <= a < self.entries@.len() ==> self.entries@[a].0 < self.next,
                self.next >= 1,
            decreases self.entries@.len() - i,
        {
            if self.entries[i].0 == id {
                let ghost old_entries = self.entries@;
                proof {
                    let j = choose|j: int| 0 <= j < self.entries@.len() && self.entries@[j].0 == id;
                    assert(j == i);
                }
                let mut entries: Vec<(u64, T)> = Vec::new();
                std::mem::swap(&mut entries, &mut self.entries);
                let (_, v) = entries.remove(i);
                proof {
                    assert(entries@ =~= old_entries.remove(i as int));
                    assert forall|a: int, b: int|
                        0 <= a < entries@.len() && 0 <= b < entries@.len() && a != b implies entries@[a].0
                        != entries@[b].0 by {
                        let oa = if a < i { a } else { a + 1 };
                        let ob = if b < i { b } else { b + 1 };
                        assert(entries@[a] == old_entries[oa]);
                        assert(entries@[b] == old_entries[ob]);
                    }
                    assert forall|a: int| 0 <= a < entries@.len() implies entries@[a].0 < self.next by {
                        let oa = if a < i { a } else { a + 1 };
                        assert(entries@[a] == old_entries[oa]);
                    }
                }
                *self = Registry { next: self.next, entries };
                proof {
                    assert(self.entries@ =~= old_entries.remove(i as int));
                    assert forall|k: u64| k != id implies #[trigger] self.has(k) == (exists|j: int|
                        0 <= j < old_entries.len() && old_entries[j].0 == k) by {
                        if exists|j: int| 0 <= j < old_entries.len() && old_entries[j].0 == k {
                            let j = choose|j: int| 0 <= j < old_entries.len() && old_entries[j].0 == k;
                            if j < i {
                                assert(self.entries@[j] == old_entries[j]);
                            } else {
                                assert(j != i);
                                assert(self.entries@[j - 1] == old_entries[j]);
                            }
                        }
                        if self.has(k) {
                            let j = choose|j: int| 0 <= j < self.entries@.len() && self.entries@[j].0 == k;
                            if j < i {
                                assert(old_entries[j] == self.entries@[j]);
                            } else {
                                assert(old_entries[j + 1] == self.entries@[j]);
                            }
                        }
                    }
                    assert(!self.has(id)) by {
                        if self.has(id) {
                            let j = choose|j: int| 0 <= j < self.entries@.len() && self.entries@[j].0 == id;
                            if j < i {
                                assert(old_entries[j] == self.entries@[j]);
                            } else {
                                assert(old_entries[j + 1] == self.entries@[j]);
                            }
                        }
                    }
                }
                return Ok(v);
            }
            i = i + 1;
        }
        Err(Error::Invalid)
    }
}

} // verus!
