//! A map keyed by module paths (sequences of names), kept as a vector of
//! distinct-keyed entries.

use vstd::prelude::*;

use crate::text::{push_str, str_eq};

verus! {

/// The names of a module path.
pub open spec fn pv(p: Vec<String>) -> Seq<Seq<char>> {
    p@.map_values(|s: String| s@)
}

/// Whether two module paths have the same names in the same order.
pub fn path_eq(a: &Vec<String>, b: &Vec<String>) -> (r: bool)
    ensures
        r == (pv(*a) == pv(*b)),
{
    if a.len() != b.len() {
        assert(pv(*a).len() != pv(*b).len());
        return false;
    }
    let mut i: usize = 0;
    while i < a.len()
        invariant
            i <= a.len(),
            a.len() == b.len(),
            forall|j: int| 0 <= j < i ==> (#[trigger] a@[j])@ == b@[j]@,
        decreases a.len() - i,
    {
        if !str_eq(a[i].as_str(), b[i].as_str()) {
            assert(pv(*a)[i as int] != pv(*b)[i as int]);
            return false;
        }
        i += 1;
    }
    assert(pv(*a) =~= pv(*b));
    true
}

/// The names of `parts` written one after another with `sep` between them.
pub open spec fn join_spec(parts: Seq<Seq<char>>, sep: Seq<char>) -> Seq<char>
    decreases parts.len(),
{
    if parts.len() == 0 {
        Seq::empty()
    } else if parts.len() == 1 {
        parts[0]
    } else {
        join_spec(parts.drop_last(), sep) + sep + parts.last()
    }
}

/// Joins the names of `parts` with `sep` between them (`["a", "b"]`, `"::"` gives `a::b`).
pub fn join_path(parts: &Vec<String>, sep: &str) -> (r: String)
    ensures
        r@ == join_spec(pv(*parts), sep@),
{
    let mut out = String::new();
    if parts.len() == 0 {
        return out;
    }
    push_str(&mut out, parts[0].as_str());
    assert(pv(*parts).take(1).drop_last() =~= Seq::<Seq<char>>::empty());
    let mut i: usize = 1;
    while i < parts.len()
        invariant
            1 <= i <= parts.len(),
            out@ == join_spec(pv(*parts).take(i as int), sep@),
        decreases parts.len() - i,
    {
        push_str(&mut out, sep);
        push_str(&mut out, parts[i].as_str());
        assert(pv(*parts).take(i + 1).drop_last() =~= pv(*parts).take(i as int));
        i += 1;
    }
    assert(pv(*parts).take(parts.len() as int) =~= pv(*parts));
    out
}

/// A copy of a module path.
pub fn clone_path(p: &Vec<String>) -> (r: Vec<String>)
    ensures
        pv(r) == pv(*p),
{
    let mut r: Vec<String> = Vec::new();
    let mut i: usize = 0;
    while i < p.len()
        invariant
            i <= p.len(),
            pv(r) =~= pv(*p).take(i as int),
        decreases p.len() - i,
    {
        let ghost before = r;
        r.push(p[i].clone());
        assert(r@ == before@.push(p@[i as int]));
        assert(pv(r) =~= pv(before).push(pv(*p)[i as int]));
        assert(pv(*p).take(i + 1) =~= pv(*p).take(i as int).push(pv(*p)[i as int]));
        i += 1;
    }
    assert(pv(*p).take(p.len() as int) =~= pv(*p));
    r
}

/// A finite map from module paths to values; each key occurs in at most one entry.
#[derive(Debug)]
pub struct PathMap<V> {
    entries: Vec<(Vec<String>, V)>,
}

/// The index of the entry with key `k` in `es`, if any.
pub open spec fn key_at<V>(es: Seq<(Vec<String>, V)>, i: int, k: Seq<Seq<char>>) -> bool {
    0 <= i < es.len() && pv(es[i].0) == k
}

impl<V> PathMap<V> {
    /// Each key occurs in at most one entry.
    pub closed spec fn wf(&self) -> bool {
        forall|i: int, j: int|
            0 <= i < j < self.entries@.len() ==> pv((#[trigger] self.entries@[i]).0) != pv((#[trigger] self.entries@[j]).0)
    }

    /// The entries in their stored order.
    pub closed spec fn entries_seq(&self) -> Seq<(Vec<String>, V)> {
        self.entries@
    }

    /// The map from keys to values.
    pub closed spec fn view(&self) -> Map<Seq<Seq<char>>, V> {
        Map::new(
            |k: Seq<Seq<char>>| exists|i: int| key_at(self.entries@, i, k),
            |k: Seq<Seq<char>>| self.entries@[choose|i: int| key_at(self.entries@, i, k)].1,
        )
    }

    /// The keys of the map, in stored order.
    pub closed spec fn keys_seq(&self) -> Seq<Seq<Seq<char>>> {
        self.entries@.map_values(|e: (Vec<String>, V)| pv(e.0))
    }

    proof fn lemma_view_at(&self, i: int)
        requires
            self.wf(),
            0 <= i < self.entries@.len(),
        ensures
            self.view().contains_key(pv(self.entries@[i].0)),
            self.view()[pv(self.entries@[i].0)] == self.entries@[i].1,
    {
        let k = pv(self.entries@[i].0);
        assert(key_at(self.entries@, i, k));
        let j = choose|j: int| key_at(self.entries@, j, k);
        if j != i {
            if j < i {
                assert(pv((self.entries@[j]).0) != pv((self.entries@[i]).0));
            } else {
                assert(pv((self.entries@[i]).0) != pv((self.entries@[j]).0));
            }
        }
    }

    /// An empty map.
    pub fn new() -> (m: Self)
        ensures
            m.wf(),
            m.view() == Map::<Seq<Seq<char>>, V>::empty(),
            m.keys_seq() == Seq::<Seq<Seq<char>>>::empty(),
    {
        let m = PathMap { entries: Vec::new() };
        assert(m.view() =~= Map::<Seq<Seq<char>>, V>::empty());
        assert(m.keys_seq() =~= Seq::<Seq<Seq<char>>>::empty());
        m
    }

    /// The number of entries.
    pub fn len(&self) -> (n: usize)
        requires
            self.wf(),
        ensures
            n == self.keys_seq().len(),
    {
        self.entries.len()
    }

    fn find(&self, k: &Vec<String>) -> (r: Option<usize>)
        requires
            self.wf(),
        ensures
            r matches Some(i) ==> key_at(self.entries@, i as int, pv(*k)),
            r is None ==> !self.view().contains_key(pv(*k)),
    {
        let mut i: usize = 0;
        while i < self.entries.len()
            invariant
                i <= self.entries@.len(),
                forall|j: int| 0 <= j < i ==> pv((#[trigger] self.entries@[j]).0) != pv(*k),
            decreases self.entries.len() - i,
        {
            if path_eq(&self.entries[i].0, k) {
                return Some(i);
            }
            i += 1;
        }
        None
    }

    /// The value stored under `k`, if any.
    pub fn get(&self, k: &Vec<String>) -> (r: Option<&V>)
        requires
            self.wf(),
        ensures
            r is Some <==> self.view().contains_key(pv(*k)),
            r matches Some(v) ==> *v == self.view()[pv(*k)],
    {
        match self.find(k) {
            Some(i) => {
                proof { self.lemma_view_at(i as int); }
                Some(&self.entries[i].1)
            },
            None => None,
        }
    }

    /// Whether `k` has an entry.
    pub fn contains_key(&self, k: &Vec<String>) -> (r: bool)
        requires
            self.wf(),
        ensures
            r == self.view().contains_key(pv(*k)),
    {
        match self.find(k) {
            Some(i) => {
                proof { self.lemma_view_at(i as int); }
                true
            },
            None => false,
        }
    }

    /// Stores `v` under `k`, replacing any earlier value. A new key goes last.
    pub fn insert(&mut self, k: Vec<String>, v: V)
        requires
            old(self).wf(),
        ensures
            final(self).wf(),
            final(self).view() == old(self).view().insert(pv(k), v),
            old(self).view().contains_key(pv(k)) ==> final(self).keys_seq() == old(self).keys_seq(),
            !old(self).view().contains_key(pv(k)) ==> final(self).keys_seq() == old(self).keys_seq().push(pv(k)),
    {
        match self.find(&k) {
            Some(i) => {
                let ghost old_es = self.entries@;
                proof { self.lemma_view_at(i as int); }
                self.entries.set(i, (k, v));
                proof {
                    assert forall|a: int, b: int| 0 <= a < b < self.entries@.len() implies pv((#[trigger] self.entries@[a]).0) != pv((#[trigger] self.entries@[b]).0) by {
                        assert(pv(old_es[a].0) != pv(old_es[b].0));
                    }
                    assert forall|kk: Seq<Seq<char>>| #[trigger] self.view().contains_key(kk) == old(self).view().insert(pv(k), v).contains_key(kk) by {
                        if old(self).view().contains_key(kk) {
                            let j = choose|j: int| key_at(old_es, j, kk);
                            assert(key_at(self.entries@, j, kk));
                        }
                        if self.view().contains_key(kk) {
                            let j = choose|j: int| key_at(self.entries@, j, kk);
                            if j != i {
                                assert(key_at(old_es, j, kk));
                            }
                        }
                    }
                    assert forall|kk: Seq<Seq<char>>| #[trigger] self.view().contains_key(kk) implies self.view()[kk] == old(self).view().insert(pv(k), v)[kk] by {
                        let j = choose|j: int| key_at(self.entries@, j, kk);
                        self.lemma_view_at(j);
                        if j != i {
                            old(self).lemma_view_at(j);
                        }
                    }
                    assert(self.view() =~= old(self).view().insert(pv(k), v));
                    assert(self.keys_seq() =~= old(self).keys_seq());
                }
            },
            None => {
                let ghost old_es = self.entries@;
                self.entries.push((k, v));
                proof {
                    assert forall|a: int, b: int| 0 <= a < b < self.entries@.len() implies pv((#[trigger] self.entries@[a]).0) != pv((#[trigger] self.entries@[b]).0) by {
                        if b == old_es.len() {
                            assert(old(self).view().contains_key(pv(old_es[a].0))) by {
                                assert(key_at(old_es, a, pv(old_es[a].0)));
                            }
                        } else {
                            assert(pv(old_es[a].0) != pv(old_es[b].0));
                        }
                    }
                    assert forall|kk: Seq<Seq<char>>| #[trigger] self.view().contains_key(kk) == old(self).view().insert(pv(k), v).contains_key(kk) by {
                        if old(self).view().contains_key(kk) {
                            let j = choose|j: int| key_at(old_es, j, kk);
                            assert(key_at(self.entries@, j, kk));
                        }
                        if kk == pv(k) {
                            assert(key_at(self.entries@, old_es.len() as int, kk));
                        }
                        if self.view().contains_key(kk) {
                            let j = choose|j: int| key_at(self.entries@, j, kk);
                            if j < old_es.len() {
                                assert(key_at(old_es, j, kk));
                            }
                        }
                    }
                    assert forall|kk: Seq<Seq<char>>| #[trigger] self.view().contains_key(kk) implies self.view()[kk] == old(self).view().insert(pv(k), v)[kk] by {
                        let j = choose|j: int| key_at(self.entries@, j, kk);
                        self.lemma_view_at(j);
                        if j < old_es.len() {
                            old(self).lemma_view_at(j);
                        }
                    }
                    assert(self.view() =~= old(self).view().insert(pv(k), v));
                    assert(self.keys_seq() =~= old(self).keys_seq().push(pv(k)));
                }
            },
        }
    }

    /// The `i`-th entry in stored order.
    pub fn entry(&self, i: usize) -> (r: (&Vec<String>, &V))
        requires
            self.wf(),
            i < self.keys_seq().len(),
        ensures
            pv(*r.0) == self.keys_seq()[i as int],
            self.view().contains_key(pv(*r.0)),
            *r.1 == self.view()[pv(*r.0)],
    {
        proof { self.lemma_view_at(i as int); }
        (&self.entries[i].0, &self.entries[i].1)
    }

    /// The keys are exactly the domain of the map, without repeats.
    pub proof fn lemma_keys(&self)
        requires
            self.wf(),
        ensures
            self.keys_seq().no_duplicates(),
            forall|k: Seq<Seq<char>>| #[trigger] self.view().contains_key(k) <==> self.keys_seq().contains(k),
    {
        assert forall|k: Seq<Seq<char>>| #[trigger] self.view().contains_key(k) <==> self.keys_seq().contains(k) by {
            if self.view().contains_key(k) {
                let j = choose|j: int| key_at(self.entries@, j, k);
                assert(self.keys_seq()[j] == k);
            }
            if self.keys_seq().contains(k) {
                let j = choose|j: int| 0 <= j < self.keys_seq().len() && self.keys_seq()[j] == k;
                assert(key_at(self.entries@, j, k));
            }
        }
    }
}

} // verus!
