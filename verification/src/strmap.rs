//! A map keyed by strings, kept as parallel key/value vectors.
//!
//! `std::collections::HashMap` with `String` keys has no usable model in
//! vstd, so the library keeps its string-keyed tables here: keys are unique
//! (the type invariant), the view is a `Map` from key characters to values,
//! and insertion order is kept (it carries no meaning).
use vstd::prelude::*;

use crate::text::str_eq;

verus! {

/// A string-valued table seen as text to text.
pub open spec fn text_map(m: Map<Seq<char>, String>) -> Map<Seq<char>, Seq<char>> {
    m.map_values(|s: String| s@)
}

#[derive(Debug)]
pub struct StrMap<V> {
    keys: Vec<String>,
    vals: Vec<V>,
}

impl<V> StrMap<V> {
    /// Keys as character sequences, in storage order.
    pub closed spec fn key_seq(self) -> Seq<Seq<char>> {
        self.keys@.map_values(|k: String| k@)
    }

    /// Values, in storage order.
    pub closed spec fn val_seq(self) -> Seq<V> {
        self.vals@
    }

    #[verifier::type_invariant]
    closed spec fn well_formed(self) -> bool {
        &&& self.keys@.len() == self.vals@.len()
        &&& forall|i: int, j: int|
            0 <= i < j < self.keys@.len() ==> self.keys@[i]@ != self.keys@[j]@
    }

    proof fn lemma_key_seq(self)
        ensures
            self.key_seq().len() == self.keys@.len(),
            forall|i: int| 0 <= i < self.keys@.len() ==> #[trigger] self.key_seq()[i] == self.keys@[i]@,
    {
    }

    /// Position of key `k`, when present.
    pub closed spec fn pos(self, k: Seq<char>) -> int {
        choose|i: int| 0 <= i < self.key_seq().len() && self.key_seq()[i] == k
    }

    pub closed spec fn has(self, k: Seq<char>) -> bool {
        exists|i: int| 0 <= i < self.key_seq().len() && self.key_seq()[i] == k
    }

    /// The table as a map from key characters to values.
    pub closed spec fn as_map(self) -> Map<Seq<char>, V> {
        Map::new(|k: Seq<char>| self.has(k), |k: Seq<char>| self.vals@[self.pos(k)])
    }

    /// Number of entries.
    pub closed spec fn spec_len(self) -> nat {
        self.keys@.len()
    }

    proof fn lemma_pos(self, i: int)
        requires
            self.well_formed(),
            0 <= i < self.keys@.len(),
        ensures
            self.has(self.keys@[i]@),
            self.pos(self.keys@[i]@) == i,
            self.as_map()[self.keys@[i]@] == self.vals@[i],
    {
        self.lemma_key_seq();
        let k = self.keys@[i]@;
        assert(self.key_seq()[i] == k);
        assert(self.has(k));
        let p = self.pos(k);
        if p != i {
            if p < i {
                assert(self.keys@[p]@ != self.keys@[i]@);
            } else {
                assert(self.keys@[i]@ != self.keys@[p]@);
            }
        }
    }

    proof fn lemma_len(self)
        requires
            self.well_formed(),
        ensures
            self.as_map().dom().finite(),
            self.as_map().dom().len() == self.spec_len(),
    {
        self.lemma_key_seq();
        let ks = self.keys@.map_values(|k: String| k@);
        assert forall|i: int, j: int| 0 <= i < j < ks.len() implies ks[i] != ks[j] by {}
        assert(ks.no_duplicates());
        ks.unique_seq_to_set();
        assert(self.as_map().dom() =~= ks.to_set()) by {
            assert forall|k: Seq<char>| self.as_map().dom().contains(k) implies ks.to_set().contains(k) by {
                let i = self.pos(k);
                assert(ks[i] == k);
            }
            assert forall|k: Seq<char>| ks.to_set().contains(k) implies self.as_map().dom().contains(k) by {
                let i = choose|i: int| 0 <= i < ks.len() && ks[i] == k;
                assert(self.keys@[i]@ == k);
            }
        }
    }

    proof fn lemma_entry(self, i: int)
        requires
            self.well_formed(),
            0 <= i < self.spec_len(),
        ensures
            self.as_map().contains_key(self.key_seq()[i]),
            self.as_map()[self.key_seq()[i]] == self.val_seq()[i],
            forall|j: int| 0 <= j < self.spec_len() && j != i ==> self.key_seq()[j] != self.key_seq()[i],
    {
        self.lemma_pos(i);
        assert forall|j: int| 0 <= j < self.spec_len() && j != i implies self.key_seq()[j] != self.key_seq()[i] by {
            if j < i {
                assert(self.keys@[j]@ != self.keys@[i]@);
            } else {
                assert(self.keys@[i]@ != self.keys@[j]@);
            }
        }
    }

    /// Tables with the same entries in the same order have the same view.
    pub proof fn lemma_same_entries(a: Self, b: Self)
        requires
            a.key_seq() == b.key_seq(),
            a.val_seq() == b.val_seq(),
        ensures
            a.as_map() == b.as_map(),
    {
        assert(a.key_seq().len() == a.keys@.len());
        assert(b.key_seq().len() == b.keys@.len());
        assert forall|i: int| 0 <= i < a.keys@.len() implies a.keys@[i]@ == b.keys@[i]@ by {
            assert(a.key_seq()[i] == a.keys@[i]@);
            assert(b.key_seq()[i] == b.keys@[i]@);
        }
        assert(a.as_map() =~= b.as_map());
    }

    /// Every key of the view is stored somewhere.
    pub proof fn lemma_key(self, k: Seq<char>)
        requires
            self.as_map().contains_key(k),
        ensures
            0 <= self.pos(k) < self.spec_len(),
            self.key_seq()[self.pos(k)] == k,
    {
    }

    /// The table's contents: every stored key is in the view with its
    /// stored value, keys are distinct, and the view has one key per entry.
    pub fn facts(&self)
        ensures
            self.as_map().dom().finite(),
            self.as_map().dom().len() == self.spec_len(),
            self.val_seq().len() == self.spec_len(),
            forall|i: int| 0 <= i < self.spec_len() ==> #[trigger] self.as_map().contains_key(self.key_seq()[i]) && self.as_map()[self.key_seq()[i]] == self.val_seq()[i],
            forall|i: int, j: int| 0 <= i < j < self.spec_len() ==> self.key_seq()[i] != self.key_seq()[j],
    {
        proof {
            use_type_invariant(self);
            self.lemma_len();
            assert forall|i: int| 0 <= i < self.spec_len() implies #[trigger] self.as_map().contains_key(self.key_seq()[i]) && self.as_map()[self.key_seq()[i]] == self.val_seq()[i] by {
                self.lemma_entry(i);
            }
            assert forall|i: int, j: int| 0 <= i < j < self.spec_len() implies self.key_seq()[i] != self.key_seq()[j] by {
                self.lemma_entry(i);
            }
        }
    }

    /// An empty table.
    pub fn new() -> (m: Self)
        ensures
            m.as_map() == Map::<Seq<char>, V>::empty(),
            m.spec_len() == 0,
    {
        let m = StrMap { keys: Vec::new(), vals: Vec::new() };
        assert(m.as_map() =~= Map::<Seq<char>, V>::empty());
        m
    }

    /// Number of entries.
    pub fn len(&self) -> (n: usize)
        ensures
            n == self.spec_len(),
            n == self.as_map().dom().len(),
    {
        proof {
            use_type_invariant(self);
            self.lemma_len();
        }
        self.keys.len()
    }

    /// Whether the table is empty.
    pub fn is_empty(&self) -> (b: bool)
        ensures
            b == (self.as_map().dom().len() == 0),
            b == (self.spec_len() == 0),
    {
        proof {
            use_type_invariant(self);
            self.lemma_len();
        }
        self.keys.len() == 0
    }

    /// Position of `k` in storage order.
    fn find(&self, k: &str) -> (r: Option<usize>)
        ensures
            match r {
                Some(i) => i < self.keys@.len() && self.keys@[i as int]@ == k@ && self.has(k@),
                None => !self.has(k@),
            },
    {
        proof {
            self.lemma_key_seq();
        }
        let mut i: usize = 0;
        while i < self.keys.len()
            invariant
                i <= self.keys@.len(),
                forall|j: int| 0 <= j < i ==> self.keys@[j]@ != k@,
            decreases self.keys.len() - i,
        {
            if str_eq(self.keys[i].as_str(), k) {
                proof {
                    assert(self.key_seq()[i as int] == k@);
                }
                return Some(i);
            }
            i += 1;
        }
        None
    }

    /// Whether `k` is a key.
    pub fn contains_key(&self, k: &str) -> (b: bool)
        ensures
            b == self.as_map().contains_key(k@),
    {
        self.find(k).is_some()
    }

    /// The value stored under `k`.
    pub fn get(&self, k: &str) -> (r: Option<&V>)
        ensures
            match r {
                Some(v) => self.as_map().contains_key(k@) && *v == self.as_map()[k@],
                None => !self.as_map().contains_key(k@),
            },
    {
        proof {
            use_type_invariant(self);
        }
        match self.find(k) {
            Some(i) => {
                proof {
                    self.lemma_pos(i as int);
                }
                Some(&self.vals[i])
            },
            None => None,
        }
    }

    /// Key and value at position `i` in storage order.
    pub fn entry(&self, i: usize) -> (r: (&String, &V))
        requires
            i < self.spec_len(),
        ensures
            r.0@ == self.key_seq()[i as int],
            *r.1 == self.val_seq()[i as int],
    {
        proof {
            use_type_invariant(self);
        }
        (&self.keys[i], &self.vals[i])
    }

    /// Stores `v` under `k`, replacing any previous value.
    pub fn insert(&mut self, k: String, v: V)
        ensures
            final(self).as_map() == old(self).as_map().insert(k@, v),
    {
        proof {
            use_type_invariant(&*self);
        }
        let ghost old_self = *self;
        proof {
            old_self.lemma_key_seq();
        }
        let found = self.find(k.as_str());
        let mut cur = StrMap { keys: Vec::new(), vals: Vec::new() };
        std::mem::swap(self, &mut cur);
        let StrMap { keys: mut keys, vals: mut vals } = cur;
        match found {
            Some(i) => {
                proof {
                    old_self.lemma_pos(i as int);
                }
                vals.set(i, v);
                *self = StrMap { keys, vals };
                proof {
                    self.lemma_key_seq();
                    assert(self.as_map() =~= old_self.as_map().insert(k@, v)) by {
                        assert forall|q: Seq<char>| #[trigger] self.as_map().contains_key(q) implies old_self.as_map().insert(k@, v).contains_key(q) && self.as_map()[q] == old_self.as_map().insert(k@, v)[q] by {
                            let p = self.pos(q);
                            if q == k@ {
                                self.lemma_pos(i as int);
                            } else {
                                self.lemma_pos(p);
                                old_self.lemma_pos(p);
                            }
                        }
                        assert forall|q: Seq<char>| old_self.as_map().insert(k@, v).contains_key(q) implies #[trigger] self.as_map().contains_key(q) by {
                            if q != k@ {
                                let p = old_self.pos(q);
                                assert(self.keys@[p]@ == q);
                            } else {
                                assert(self.keys@[i as int]@ == q);
                            }
                        }
                    }
                }
            },
            None => {
                let ghost kv = k@;
                keys.push(k);
                vals.push(v);
                proof {
                    let n = old_self.keys@.len() as int;
                    assert(keys@[n]@ == kv);
                    assert forall|i: int, j: int| 0 <= i < j < keys@.len() implies keys@[i]@ != keys@[j]@ by {
                        if j == n {
                            assert(keys@[i] == old_self.keys@[i]);
                            assert(old_self.key_seq()[i] == old_self.keys@[i]@);
                        } else {
                            assert(keys@[i] == old_self.keys@[i]);
                            assert(keys@[j] == old_self.keys@[j]);
                        }
                    }
                }
                *self = StrMap { keys, vals };
                proof {
                    use_type_invariant(&*self);
                    self.lemma_key_seq();
                    let n = old_self.keys@.len() as int;
                    assert(self.as_map() =~= old_self.as_map().insert(kv, v)) by {
                        assert forall|q: Seq<char>| #[trigger] self.as_map().contains_key(q) implies old_self.as_map().insert(kv, v).contains_key(q) && self.as_map()[q] == old_self.as_map().insert(kv, v)[q] by {
                            let p = self.pos(q);
                            self.lemma_pos(p);
                            assert(self.key_seq()[p] == q);
                            if p < n {
                                assert(self.keys@[p] == old_self.keys@[p]);
                                assert(self.keys@[p]@ != self.keys@[n]@);
                                old_self.lemma_pos(p);
                            }
                        }
                        assert forall|q: Seq<char>| old_self.as_map().insert(kv, v).contains_key(q) implies #[trigger] self.as_map().contains_key(q) by {
                            if q != kv {
                                let p = old_self.pos(q);
                                assert(old_self.key_seq()[p] == q);
                                assert(self.keys@[p] == old_self.keys@[p]);
                                assert(self.key_seq()[p] == q);
                            } else {
                                assert(self.keys@[n]@ == q);
                                assert(self.key_seq()[n] == q);
                            }
                        }
                    }
                }
            },
        }
    }

    /// Removes the entry for `k`, if any.
    pub fn remove(&mut self, k: &str)
        ensures
            final(self).as_map() == old(self).as_map().remove(k@),
    {
        proof {
            use_type_invariant(&*self);
        }
        let ghost old_self = *self;
        proof {
            old_self.lemma_key_seq();
        }
        match self.find(k) {
            Some(i) => {
                proof {
                    old_self.lemma_pos(i as int);
                }
                let mut cur = StrMap { keys: Vec::new(), vals: Vec::new() };
                std::mem::swap(self, &mut cur);
                let StrMap { keys: mut keys, vals: mut vals } = cur;
                keys.remove(i);
                vals.remove(i);
                proof {
                    let ok = old_self.keys@;
                    assert forall|a: int| 0 <= a < keys@.len() implies keys@[a] == (if a < i { ok[a] } else { ok[a + 1] }) by {}
                    assert forall|a: int, b: int| 0 <= a < b < keys@.len() implies keys@[a]@ != keys@[b]@ by {
                        let a0 = if a < i { a } else { a + 1 };
                        let b0 = if b < i { b } else { b + 1 };
                        assert(ok[a0]@ != ok[b0]@);
                    }
                }
                *self = StrMap { keys, vals };
                proof {
                    self.lemma_key_seq();
                    let ok = old_self.keys@;
                    assert forall|a: int| 0 <= a < self.keys@.len() implies self.keys@[a] == (if a < i { ok[a] } else { ok[a + 1] }) by {}
                    assert(self.as_map() =~= old_self.as_map().remove(k@)) by {
                        assert forall|q: Seq<char>| #[trigger] self.as_map().contains_key(q) implies q != k@ && old_self.as_map().contains_key(q) && self.as_map()[q] == old_self.as_map()[q] by {
                            let p = self.pos(q);
                            self.lemma_pos(p);
                            let p0 = if p < i { p } else { p + 1 };
                            assert(ok[p0]@ == q);
                            old_self.lemma_pos(p0);
                            if q == k@ {
                                assert(ok[p0]@ == ok[i as int]@);
                            }
                        }
                        assert forall|q: Seq<char>| old_self.as_map().remove(k@).contains_key(q) implies #[trigger] self.as_map().contains_key(q) by {
                            let p0 = old_self.pos(q);
                            assert(old_self.key_seq()[p0] == q);
                            assert(p0 != i);
                            let p = if p0 < i { p0 } else { p0 - 1 };
                            assert(self.keys@[p]@ == q);
                            assert(self.key_seq()[p] == q);
                        }
                    }
                }
            },
            None => {
                proof {
                    assert(self.as_map() =~= old_self.as_map().remove(k@));
                }
            },
        }
    }
}

impl<V: Clone> Clone for StrMap<V> {
    /// A copy holding the same keys, each value cloned.
    fn clone(&self) -> (r: Self)
        ensures
            r.key_seq() == self.key_seq(),
            r.val_seq().len() == self.val_seq().len(),
            forall|i: int| 0 <= i < self.val_seq().len() ==> cloned::<V>(self.val_seq()[i], #[trigger] r.val_seq()[i]),
    {
        proof {
            use_type_invariant(self);
        }
        let keys = self.keys.clone();
        let vals = self.vals.clone();
        proof {
            assert forall|i: int| 0 <= i < keys@.len() implies keys@[i]@ == self.keys@[i]@ by {
                assert(cloned::<String>(self.keys@[i], keys@[i]));
            }
            assert(keys@.map_values(|k: String| k@) =~= self.keys@.map_values(|k: String| k@));
        }
        StrMap { keys, vals }
    }
}

} // verus!
