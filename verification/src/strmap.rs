//! An ordered map from strings to strings. Keys are kept in `String`
//! order, so walking the map visits keys exactly as a `BTreeMap` would.
use vstd::prelude::*;
use crate::text::{copy_string, lemma_seq_lt_irreflexive, lemma_seq_lt_total, lemma_seq_lt_transitive, seq_lt, str_eq, str_lt};

verus! {

/// Keys strictly increasing in `String` order.
pub open spec fn strictly_sorted(ks: Seq<Seq<char>>) -> bool {
    forall|i: int, j: int| 0 <= i < j < ks.len() ==> seq_lt(ks[i], ks[j])
}

pub struct StrMap {
    ks: Vec<String>,
    vs: Vec<String>,
}

impl StrMap {
    /// The keys, in ascending order.
    pub closed spec fn keys(&self) -> Seq<Seq<char>> {
        self.ks@.map_values(|s: String| s@)
    }

    /// The values, in the order of their keys.
    pub closed spec fn values(&self) -> Seq<Seq<char>> {
        self.vs@.map_values(|s: String| s@)
    }

    /// Keys and values line up and keys are strictly ascending.
    pub open spec fn wf(&self) -> bool {
        &&& self.keys().len() == self.values().len()
        &&& strictly_sorted(self.keys())
    }

    /// The value stored under `k`, if any.
    pub open spec fn lookup(&self, k: Seq<char>) -> Option<Seq<char>> {
        if self.keys().contains(k) {
            Some(self.values()[self.keys().index_of(k)])
        } else {
            None
        }
    }

    /// The entries as (key, value) pairs in ascending key order.
    pub open spec fn entries(&self) -> Seq<(Seq<char>, Seq<char>)> {
        Seq::new(self.keys().len(), |i: int| (self.keys()[i], self.values()[i]))
    }

    /// The number of entries.
    pub open spec fn size(&self) -> nat {
        self.keys().len()
    }

    pub proof fn lemma_lookup_at(&self, i: int)
        requires
            self.wf(),
            0 <= i < self.keys().len(),
        ensures
            self.lookup(self.keys()[i]) == Some(self.values()[i]),
    {
        let k = self.keys()[i];
        assert(self.keys().contains(k));
        let j = self.keys().index_of(k);
        if j != i {
            if j < i {
                lemma_seq_lt_irreflexive(k);
            } else {
                lemma_seq_lt_irreflexive(k);
            }
        }
    }

    /// An empty map.
    pub fn new() -> (m: StrMap)
        ensures
            m.wf(),
            m.size() == 0,
            forall|k: Seq<char>| m.lookup(k) is None,
    {
        let m = StrMap { ks: Vec::new(), vs: Vec::new() };
        assert(m.keys() =~= Seq::<Seq<char>>::empty());
        assert(m.values() =~= Seq::<Seq<char>>::empty());
        m
    }

    /// The number of entries.
    pub fn len(&self) -> (n: usize)
        requires
            self.wf(),
        ensures
            n == self.size(),
    {
        self.ks.len()
    }

    /// The `i`-th key in ascending order.
    pub fn key_at(&self, i: usize) -> (k: &String)
        requires
            self.wf(),
            i < self.size(),
        ensures
            k@ == self.keys()[i as int],
    {
        &self.ks[i]
    }

    /// The value of the `i`-th key in ascending order.
    pub fn value_at(&self, i: usize) -> (v: &String)
        requires
            self.wf(),
            i < self.size(),
        ensures
            v@ == self.values()[i as int],
    {
        &self.vs[i]
    }

    /// The position of `key` among the keys, if present.
    fn position(&self, key: &str) -> (r: Option<usize>)
        requires
            self.wf(),
        ensures
            match r {
                Some(i) => i < self.size() && self.keys()[i as int] == key@,
                None => !self.keys().contains(key@),
            },
    {
        let mut i: usize = 0;
        while i < self.ks.len()
            invariant
                self.wf(),
                i <= self.ks.len(),
                forall|j: int| 0 <= j < i ==> self.keys()[j] != key@,
            decreases self.ks.len() - i,
        {
            if str_eq(self.ks[i].as_str(), key) {
                return Some(i);
            }
            i += 1;
        }
        None
    }

    /// The value stored under `key`.
    pub fn get(&self, key: &str) -> (r: Option<&String>)
        requires
            self.wf(),
        ensures
            match r {
                Some(v) => self.lookup(key@) == Some(v@),
                None => self.lookup(key@) is None,
            },
    {
        match self.position(key) {
            Some(i) => {
                proof {
                    self.lemma_lookup_at(i as int);
                }
                Some(&self.vs[i])
            },
            None => None,
        }
    }

    /// Is `key` present?
    pub fn contains_key(&self, key: &str) -> (r: bool)
        requires
            self.wf(),
        ensures
            r == (self.lookup(key@) is Some),
    {
        self.position(key).is_some()
    }

    /// Stores `value` under `key`, replacing any earlier value.
    pub fn insert(&mut self, key: &str, value: &str)
        requires
            old(self).wf(),
        ensures
            final(self).wf(),
            final(self).keys().to_set() == old(self).keys().to_set().insert(key@),
            forall|k: Seq<char>|
                #[trigger] final(self).lookup(k) == if k == key@ {
                    Some(value@)
                } else {
                    old(self).lookup(k)
                },
    {
        let ghost ok = self.keys();
        let ghost ov = self.values();
        let mut i: usize = 0;
        while i < self.ks.len() && str_lt(self.ks[i].as_str(), key)
            invariant
                self.wf(),
                self.keys() == ok,
                self.values() == ov,
                i <= self.ks.len(),
                forall|j: int| 0 <= j < i ==> seq_lt(ok[j], key@),
            decreases self.ks.len() - i,
        {
            i += 1;
        }
        let k = copy_string(key);
        let v = copy_string(value);
        if i < self.ks.len() && str_eq(self.ks[i].as_str(), key) {
            self.vs.set(i, v);
            proof {
                assert(self.keys() == ok);
                assert(self.values() =~= ov.update(i as int, value@));
                assert(ok[i as int] == key@);
                assert(ok.to_set().contains(key@));
                assert(self.keys().to_set() =~= ok.to_set().insert(key@));
                assert forall|q: Seq<char>| #[trigger]
                    self.lookup(q) == if q == key@ {
                        Some(value@)
                    } else {
                        old(self).lookup(q)
                    } by {
                    if q == key@ {
                        self.lemma_lookup_at(i as int);
                    } else if self.keys().contains(q) {
                        let j = self.keys().index_of(q);
                        assert(j != i);
                        self.lemma_lookup_at(j);
                        old(self).lemma_lookup_at(j);
                    }
                }
            }
        } else {
            proof {
                // key sorts strictly before every later key
                assert forall|j: int| i <= j < ok.len() implies seq_lt(key@, ok[j]) by {
                    if i < ok.len() {
                        assert(!seq_lt(ok[i as int], key@));
                        assert(ok[i as int] != key@);
                        lemma_seq_lt_total(ok[i as int], key@);
                        if j > i {
                            lemma_seq_lt_transitive(key@, ok[i as int], ok[j]);
                        }
                    }
                }
            }
            self.ks.insert(i, k);
            self.vs.insert(i, v);
            proof {
                let nk = self.keys();
                assert(nk =~= ok.insert(i as int, key@));
                assert(self.values() =~= ov.insert(i as int, value@));
                assert forall|a: int, b: int| 0 <= a < b < nk.len() implies seq_lt(nk[a], nk[b]) by {
                    if b < i {
                        assert(nk[a] == ok[a]);
                        assert(nk[b] == ok[b]);
                    } else if a < i && b == i {
                    } else if a < i && b > i {
                        assert(nk[b] == ok[b - 1]);
                    } else if a == i {
                        assert(nk[b] == ok[b - 1]);
                    } else {
                        assert(nk[a] == ok[a - 1]);
                        assert(nk[b] == ok[b - 1]);
                    }
                }
                assert(!ok.contains(key@)) by {
                    if ok.contains(key@) {
                        let j = ok.index_of(key@);
                        if j < i {
                            lemma_seq_lt_irreflexive(key@);
                        } else {
                            lemma_seq_lt_irreflexive(key@);
                        }
                    }
                }
                assert(nk.to_set() =~= ok.to_set().insert(key@)) by {
                    assert forall|q: Seq<char>| nk.to_set().contains(q) <==> ok.to_set().insert(
                        key@,
                    ).contains(q) by {
                        if q == key@ {
                            assert(nk[i as int] == key@);
                        }
                        if nk.contains(q) {
                            let j = nk.index_of(q);
                            if j < i {
                                assert(ok[j] == q);
                            } else if j > i {
                                assert(ok[j - 1] == q);
                            }
                        }
                        if ok.contains(q) {
                            let j = ok.index_of(q);
                            if j < i {
                                assert(nk[j] == q);
                            } else {
                                assert(nk[j + 1] == q);
                            }
                        }
                    }
                }
                assert forall|q: Seq<char>| #[trigger]
                    self.lookup(q) == if q == key@ {
                        Some(value@)
                    } else {
                        old(self).lookup(q)
                    } by {
                    if q == key@ {
                        self.lemma_lookup_at(i as int);
                    } else if nk.contains(q) {
                        let j = nk.index_of(q);
                        self.lemma_lookup_at(j);
                        if j < i {
                            old(self).lemma_lookup_at(j);
                        } else {
                            old(self).lemma_lookup_at(j - 1);
                        }
                    } else {
                        if ok.contains(q) {
                            let j = ok.index_of(q);
                            if j < i {
                                assert(nk[j] == q);
                            } else {
                                assert(nk[j + 1] == q);
                            }
                        }
                    }
                }
            }
        }
    }
}

} // verus!
