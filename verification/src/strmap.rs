//! A map keyed by strings, kept as a vector of distinct-keyed entries.

use vstd::prelude::*;

use crate::text::str_eq;

verus! {

/// A finite map from strings to values; each key occurs in at most one entry.
#[derive(Debug)]
pub struct StrMap<V> {
    entries: Vec<(String, V)>,
}

/// The index of the entry with key `k` in `es`, if any.
pub open spec fn key_at<V>(es: Seq<(String, V)>, i: int, k: Seq<char>) -> bool {
    0 <= i < es.len() && es[i].0@ == k
}

impl<V> StrMap<V> {
    /// Each key occurs in at most one entry.
    pub closed spec fn wf(&self) -> bool {
        forall|i: int, j: int|
            0 <= i < j < self.entries@.len() ==> (#[trigger] self.entries@[i]).0@ != (#[trigger] self.entries@[j]).0@
    }

    /// The entries in their stored order.
    pub closed spec fn entries_seq(&self) -> Seq<(String, V)> {
        self.entries@
    }

    /// The map from keys to values.
    pub closed spec fn view(&self) -> Map<Seq<char>, V> {
        Map::new(
            |k: Seq<char>| exists|i: int| key_at(self.entries@, i, k),
            |k: Seq<char>| self.entries@[choose|i: int| key_at(self.entries@, i, k)].1,
        )
    }

    /// The keys of the map, in stored order.
    pub closed spec fn keys_seq(&self) -> Seq<Seq<char>> {
        self.entries@.map_values(|e: (String, V)| e.0@)
    }

    proof fn lemma_view_at(&self, i: int)
        requires
            self.wf(),
            0 <= i < self.entries@.len(),
        ensures
            self.view().contains_key(self.entries@[i].0@),
            self.view()[self.entries@[i].0@] == self.entries@[i].1,
    {
        let k = self.entries@[i].0@;
        assert(key_at(self.entries@, i, k));
        let j = choose|j: int| key_at(self.entries@, j, k);
        if j != i {
            if j < i {
                assert((self.entries@[j]).0@ != (self.entries@[i]).0@);
            } else {
                assert((self.entries@[i]).0@ != (self.entries@[j]).0@);
            }
        }
    }

    /// An empty map.
    pub fn new() -> (m: Self)
        ensures
            m.wf(),
            m.view() == Map::<Seq<char>, V>::empty(),
            m.keys_seq() == Seq::<Seq<char>>::empty(),
    {
        let m = StrMap { entries: Vec::new() };
        assert(m.view() =~= Map::<Seq<char>, V>::empty());
        assert(m.keys_seq() =~= Seq::<Seq<char>>::empty());
        m
    }

    /// The number of entries.
    pub fn len(&self) -> (n: usize)
        requires
            self.wf(),
        ensures
            n == self.keys_seq().len(),
    {
        self.entries.len()
    }

    fn find(&self, k: &str) -> (r: Option<usize>)
        requires
            self.wf(),
        ensures
            r matches Some(i) ==> key_at(self.entries@, i as int, k@),
            r is None ==> !self.view().contains_key(k@),
    {
        let mut i: usize = 0;
        while i < self.entries.len()
            invariant
                i <= self.entries@.len(),
                forall|j: int| 0 <= j < i ==> (#[trigger] self.entries@[j]).0@ != k@,
            decreases self.entries.len() - i,
        {
            if str_eq(self.entries[i].0.as_str(), k) {
                return Some(i);
            }
            i += 1;
        }
        None
    }

    /// The value stored under `k`, if any.
    pub fn get(&self, k: &str) -> (r: Option<&V>)
        requires
            self.wf(),
        ensures
            r is Some <==> self.view().contains_key(k@),
            r matches Some(v) ==> *v == self.view()[k@],
    {
        match self.find(k) {
            Some(i) => {
                proof { self.lemma_view_at(i as int); }
                Some(&self.entries[i].1)
            },
            None => None,
        }
    }

    /// Whether `k` has an entry.
    pub fn contains_key(&self, k: &str) -> (r: bool)
        requires
            self.wf(),
        ensures
            r == self.view().contains_key(k@),
    {
        match self.find(k) {
            Some(i) => {
                proof { self.lemma_view_at(i as int); }
                true
            },
            None => false,
        }
    }

    /// Stores `v` under `k`, replacing any earlier value. A new key goes last.
    pub fn insert(&mut self, k: String, v: V)
        requires
            old(self).wf(),
        ensures
            final(self).wf(),
            final(self).view() == old(self).view().insert(k@, v),
            old(self).view().contains_key(k@) ==> final(self).keys_seq() == old(self).keys_seq(),
            !old(self).view().contains_key(k@) ==> final(self).keys_seq() == old(self).keys_seq().push(k@),
    {
        match self.find(k.as_str()) {
            Some(i) => {
                let ghost old_es = self.entries@;
                proof { self.lemma_view_at(i as int); }
                self.entries.set(i, (k, v));
                proof {
                    assert forall|a: int, b: int| 0 <= a < b < self.entries@.len() implies (#[trigger] self.entries@[a]).0@ != (#[trigger] self.entries@[b]).0@ by {
                        assert(old_es[a].0@ != old_es[b].0@);
                    }
                    assert forall|kk: Seq<char>| #[trigger] self.view().contains_key(kk) == old(self).view().insert(k@, v).contains_key(kk) by {
                        if old(self).view().contains_key(kk) {
                            let j = choose|j: int| key_at(old_es, j, kk);
                            assert(key_at(self.entries@, j, kk));
                        }
                        if self.view().contains_key(kk) {
                            let j = choose|j: int| key_at(self.entries@, j, kk);
                            if j != i {
                                assert(key_at(old_es, j, kk));
                            }
                        }
                    }
                    assert forall|kk: Seq<char>| #[trigger] self.view().contains_key(kk) implies self.view()[kk] == old(self).view().insert(k@, v)[kk] by {
                        let j = choose|j: int| key_at(self.entries@, j, kk);
                        self.lemma_view_at(j);
                        if j != i {
                            old(self).lemma_view_at(j);
                        }
                    }
                    assert(self.view() =~= old(self).view().insert(k@, v));
                    assert(self.keys_seq() =~= old(self).keys_seq());
                }
            },
            None => {
                let ghost old_es = self.entries@;
                self.entries.push((k, v));
                proof {
                    assert forall|a: int, b: int| 0 <= a < b < self.entries@.len() implies (#[trigger] self.entries@[a]).0@ != (#[trigger] self.entries@[b]).0@ by {
                        if b == old_es.len() {
                            assert(old(self).view().contains_key(old_es[a].0@)) by {
                                assert(key_at(old_es, a, old_es[a].0@));
                            }
                        } else {
                            assert(old_es[a].0@ != old_es[b].0@);
                        }
                    }
                    assert forall|kk: Seq<char>| #[trigger] self.view().contains_key(kk) == old(self).view().insert(k@, v).contains_key(kk) by {
                        if old(self).view().contains_key(kk) {
                            let j = choose|j: int| key_at(old_es, j, kk);
                            assert(key_at(self.entries@, j, kk));
                        }
                        if kk == k@ {
                            assert(key_at(self.entries@, old_es.len() as int, kk));
                        }
                        if self.view().contains_key(kk) {
                            let j = choose|j: int| key_at(self.entries@, j, kk);
                            if j < old_es.len() {
                                assert(key_at(old_es, j, kk));
                            }
                        }
                    }
                    assert forall|kk: Seq<char>| #[trigger] self.view().contains_key(kk) implies self.view()[kk] == old(self).view().insert(k@, v)[kk] by {
                        let j = choose|j: int| key_at(self.entries@, j, kk);
                        self.lemma_view_at(j);
                        if j < old_es.len() {
                            old(self).lemma_view_at(j);
                        }
                    }
                    assert(self.view() =~= old(self).view().insert(k@, v));
                    assert(self.keys_seq() =~= old(self).keys_seq().push(k@));
                }
            },
        }
    }

    /// Removes the entry of `k`, if any, and returns its value.
    pub fn remove(&mut self, k: &str) -> (r: Option<V>)
        requires
            old(self).wf(),
        ensures
            final(self).wf(),
            final(self).view() == old(self).view().remove(k@),
            r is Some <==> old(self).view().contains_key(k@),
            r matches Some(v) ==> v == old(self).view()[k@],
    {
        match self.find(k) {
            Some(i) => {
                let ghost old_es = self.entries@;
                proof { self.lemma_view_at(i as int); }
                let removed = self.entries.remove(i);
                proof {
                    assert(self.entries@ =~= old_es.remove(i as int));
                    assert forall|a: int, b: int| 0 <= a < b < self.entries@.len() implies (#[trigger] self.entries@[a]).0@ != (#[trigger] self.entries@[b]).0@ by {
                        let a0 = if a < i { a } else { a + 1 };
                        let b0 = if b < i { b } else { b + 1 };
                        assert(old_es[a0].0@ != old_es[b0].0@);
                    }
                    assert forall|kk: Seq<char>| #[trigger] self.view().contains_key(kk) == old(self).view().remove(k@).contains_key(kk) by {
                        if old(self).view().remove(k@).contains_key(kk) {
                            let j = choose|j: int| key_at(old_es, j, kk);
                            assert(j != i);
                            if j < i {
                                assert(key_at(self.entries@, j, kk));
                            } else {
                                assert(key_at(self.entries@, j - 1, kk));
                            }
                        }
                        if self.view().contains_key(kk) {
                            let j = choose|j: int| key_at(self.entries@, j, kk);
                            let j0 = if j < i { j } else { j + 1 };
                            assert(key_at(old_es, j0, kk));
                            assert(j0 != i) by {
                                if j0 < i {
                                    assert(old_es[j0].0@ != old_es[i as int].0@);
                                } else if j0 > i {
                                    assert(old_es[i as int].0@ != old_es[j0].0@);
                                }
                            }
                        }
                    }
                    assert forall|kk: Seq<char>| #[trigger] self.view().contains_key(kk) implies self.view()[kk] == old(self).view().remove(k@)[kk] by {
                        let j = choose|j: int| key_at(self.entries@, j, kk);
                        self.lemma_view_at(j);
                        let j0 = if j < i { j } else { j + 1 };
                        old(self).lemma_view_at(j0);
                    }
                    assert(self.view() =~= old(self).view().remove(k@));
                }
                Some(removed.1)
            },
            None => {
                assert(self.view() =~= old(self).view().remove(k@));
                None
            },
        }
    }

    /// The `i`-th entry in stored order.
    pub fn entry(&self, i: usize) -> (r: (&String, &V))
        requires
            self.wf(),
            i < self.keys_seq().len(),
        ensures
            r.0@ == self.keys_seq()[i as int],
            self.view().contains_key(r.0@),
            *r.1 == self.view()[r.0@],
    {
        proof { self.lemma_view_at(i as int); }
        (&self.entries[i].0, &self.entries[i].1)
    }

    /// The keys are exactly the domain of the map, without repeats.
    pub proof fn lemma_keys(&self)
        requires
            self.wf(),
        ensures
            self.keys_seq().no_duplicates(),
            forall|k: Seq<char>| #[trigger] self.view().contains_key(k) <==> self.keys_seq().contains(k),
    {
        assert forall|k: Seq<char>| #[trigger] self.view().contains_key(k) <==> self.keys_seq().contains(k) by {
            if self.view().contains_key(k) {
                let j = choose|j: int| key_at(self.entries@, j, k);
                assert(self.keys_seq()[j] == k);
            }
            if self.keys_seq().contains(k) {
                let j = choose|j: int| 0 <= j < self.keys_seq().len() && self.keys_seq()[j] == k;
                assert(key_at(self.entries@, j, k));
            }
        }
    }
}

} // verus!
