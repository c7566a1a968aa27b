//! The in-memory keyspace with per-key lazy expiry.

use vstd::prelude::*;

verus! {

/// One keyspace entry: a value and an optional absolute expiry deadline,
/// in milliseconds of wall-clock time.
pub struct Entry {
    pub key: String,
    pub value: String,
    pub deadline: Option<u64>,
}

/// The keyspace. Writes overwrite unconditionally; a read past a key's
/// deadline reports the key absent without removing the entry eagerly.
pub struct Store {
    pub entries: Vec<Entry>,
}

/// A key is fresh at `now` if it has no deadline or the deadline is still
/// in the future.
pub open spec fn fresh(deadline: Option<u64>, now: u64) -> bool {
    match deadline {
        None => true,
        Some(d) => now < d,
    }
}

impl Store {
    /// The invariant: no key occurs twice.
    pub open spec fn wf(&self) -> bool {
        forall|i: int, j: int|
            0 <= i < j < self.entries@.len() ==> (#[trigger] self.entries@[i]).key@ != (
            #[trigger] self.entries@[j]).key@
    }

    pub open spec fn spec_contains(&self, k: Seq<char>) -> bool {
        exists|i: int| 0 <= i < self.entries@.len() && (#[trigger] self.entries@[i]).key@ == k
    }

    pub open spec fn spec_entry(&self, k: Seq<char>) -> (Seq<char>, Option<u64>) {
        let i = choose|i: int|
            0 <= i < self.entries@.len() && (#[trigger] self.entries@[i]).key@ == k;
        (self.entries@[i].value@, self.entries@[i].deadline)
    }

    proof fn lemma_found(&self, k: Seq<char>, i: int)
        requires
            self.wf(),
            0 <= i < self.entries@.len(),
            self.entries@[i].key@ == k,
        ensures
            self.spec_contains(k),
            self.spec_entry(k) == (self.entries@[i].value@, self.entries@[i].deadline),
    {
        let j = choose|j: int|
            0 <= j < self.entries@.len() && (#[trigger] self.entries@[j]).key@ == k;
        if j != i {
            assert(self.entries@[i].key@ != self.entries@[j].key@);
        }
    }

    /// A store with no entries.
    pub fn new() -> (r: Store)
        ensures
            r.wf(),
            r@ == Map::<Seq<char>, (Seq<char>, Option<u64>)>::empty(),
    {
        let r = Store { entries: Vec::new() };
        proof {
            assert(r@ =~= Map::<Seq<char>, (Seq<char>, Option<u64>)>::empty());
        }
        r
    }

    fn find_idx(&self, key: &String) -> (r: Option<usize>)
        ensures
            match r {
                Some(i) => i < self.entries@.len() && self.entries@[i as int].key@ == key@,
                None => forall|j: int|
                    0 <= j < self.entries@.len() ==> (#[trigger] self.entries@[j]).key@ != key@,
            },
    {
        let n = self.entries.len();
        let mut i: usize = 0;
        while i < n
            invariant
                0 <= i <= n,
                n == self.entries@.len(),
                forall|j: int|
                    0 <= j < i ==> (#[trigger] self.entries@[j]).key@ != key@,
            decreases n - i,
        {
            if self.entries[i].key == *key {
                return Some(i);
            }
            i += 1;
        }
        None
    }

    /// Upserts a key. A lifetime, when given, is the absolute deadline; a
    /// write without one clears any earlier deadline.
    pub fn set(&mut self, key: String, value: String, deadline: Option<u64>)
        requires
            old(self).wf(),
        ensures
            final(self).wf(),
            final(self)@ == old(self)@.insert(key@, (value@, deadline)),
    {
        let ghost old_e = self.entries@;
        let found = self.find_idx(&key);
        if let Some(i) = found {
            self.entries.remove(i);
            proof {
                assert(self.entries@ == old_e.remove(i as int));
                assert forall|a: int, b: int|
                    0 <= a < b < self.entries@.len() implies (#[trigger] self.entries@[a]).key@
                    != (#[trigger] self.entries@[b]).key@ by {
                    let a0: int = if a < i { a } else { a + 1 };
                    let b0: int = if b < i { b } else { b + 1 };
                    assert(self.entries@[a] == old_e[a0]);
                    assert(self.entries@[b] == old_e[b0]);
                }
                assert forall|j: int|
                    0 <= j < self.entries@.len() implies (#[trigger] self.entries@[j]).key@
                    != key@ by {
                    let j0: int = if j < i { j } else { j + 1 };
                    assert(self.entries@[j] == old_e[j0]);
                    if j0 != i {
                        assert(old_e[j0].key@ != old_e[i as int].key@);
                    }
                }
            }
        }
        let ghost mid_e = self.entries@;
        self.entries.push(Entry { key, value, deadline });
        proof {
            let k = key@;
            assert(self.entries@ == mid_e.push(
                Entry { key: key, value: value, deadline: deadline },
            ));
            // every pre-existing entry keeps a key other than `k`, and in the
            // no-hit case every old entry does too
            assert forall|j: int|
                0 <= j < mid_e.len() implies (#[trigger] mid_e[j]).key@ != k by {
                if found is None {
                    assert(mid_e[j].key@ != k);
                }
            }
            assert(self.wf());
            let newm = self@;
            let oldm = old(self)@;
            assert forall|q: Seq<char>| #[trigger]
                newm.contains_key(q) == oldm.insert(k, (value@, deadline)).contains_key(q) && (
            newm.contains_key(q) ==> newm[q] == oldm.insert(k, (value@, deadline))[q]) by {
                let st_old = old(self);
                if q == k {
                    self.lemma_found(q, self.entries@.len() - 1);
                } else {
                    if self.spec_contains(q) {
                        let j = choose|j: int|
                            0 <= j < self.entries@.len() && (#[trigger] self.entries@[j]).key@
                                == q;
                        assert(j < mid_e.len());
                        self.lemma_found(q, j);
                        if let Some(i) = found {
                            let j0: int = if j < i { j } else { j + 1 };
                            assert(mid_e[j] == old_e[j0]);
                            st_old.lemma_found(q, j0);
                        } else {
                            st_old.lemma_found(q, j);
                        }
                    }
                    if st_old.spec_contains(q) {
                        let j0 = choose|j0: int|
                            0 <= j0 < old_e.len() && (#[trigger] old_e[j0]).key@ == q;
                        st_old.lemma_found(q, j0);
                        if let Some(i) = found {
                            assert(j0 != i);
                            let j: int = if j0 < i { j0 } else { j0 - 1 };
                            assert(self.entries@[j] == old_e[j0]);
                            self.lemma_found(q, j);
                        } else {
                            self.lemma_found(q, j0);
                        }
                    }
                }
            }
            assert(self@ =~= old(self)@.insert(k, (value@, deadline)));
        }
    }

    /// Reads a key under the lazy-expiry rule: the value comes back exactly
    /// when the key is present and fresh at `now`.
    pub fn get(&self, key: &String, now: u64) -> (r: Option<String>)
        requires
            self.wf(),
        ensures
            match r {
                Some(v) => self@.contains_key(key@) && v@ == self@[key@].0 && fresh(
                    self@[key@].1,
                    now,
                ),
                None => !self@.contains_key(key@) || !fresh(self@[key@].1, now),
            },
    {
        match self.find_idx(key) {
            Some(i) => {
                proof {
                    self.lemma_found(key@, i as int);
                }
                let e = &self.entries[i];
                match e.deadline {
                    Some(d) => {
                        if now < d {
                            Some(e.value.clone())
                        } else {
                            None
                        }
                    },
                    None => Some(e.value.clone()),
                }
            },
            None => {
                proof {
                    if self.spec_contains(key@) {
                        let j = choose|j: int|
                            0 <= j < self.entries@.len() && (#[trigger] self.entries@[j]).key@
                                == key@;
                    }
                }
                None
            },
        }
    }

    /// All keys, one for each entry, in entry order.
    pub fn keys(&self) -> (r: Vec<String>)
        ensures
            r@.len() == self.entries@.len(),
            forall|i: int| 0 <= i < r@.len() ==> (#[trigger] r@[i])@ == self.entries@[i].key@,
    {
        let n = self.entries.len();
        let mut out: Vec<String> = Vec::new();
        let mut i: usize = 0;
        while i < n
            invariant
                0 <= i <= n,
                n == self.entries@.len(),
                out@.len() == i,
                forall|j: int| 0 <= j < i ==> (#[trigger] out@[j])@ == self.entries@[j].key@,
            decreases n - i,
        {
            out.push(self.entries[i].key.clone());
            i += 1;
        }
        out
    }
}

/// Lazy expiry: after a write of `v` under `k` with a lifetime of `d`
/// milliseconds at time `t_set`, a read at `now` sees the value exactly
/// while `now < t_set + d`; after a write without a lifetime, a read sees
/// the value at every later time.
pub proof fn lemma_lazy_expiry(
    m: Map<Seq<char>, (Seq<char>, Option<u64>)>,
    k: Seq<char>,
    v: Seq<char>,
    t_set: u64,
    d: u64,
    now: u64,
)
    requires
        t_set + d <= u64::MAX,
    ensures
        ({
            let m2 = m.insert(k, (v, Some((t_set + d) as u64)));
            m2.contains_key(k) && m2[k].0 == v && (fresh(m2[k].1, now) <==> now < t_set + d)
        }),
        ({
            let m3 = m.insert(k, (v, None));
            m3.contains_key(k) && m3[k].0 == v && fresh(m3[k].1, now)
        }),
{
}

impl View for Store {
    type V = Map<Seq<char>, (Seq<char>, Option<u64>)>;

    /// The store as a map from key to value and optional deadline.
    open spec fn view(&self) -> Map<Seq<char>, (Seq<char>, Option<u64>)> {
        Map::new(|k: Seq<char>| self.spec_contains(k), |k: Seq<char>| self.spec_entry(k))
    }
}

} // verus!
