//! A small map keyed by strings that keeps insertion order.

use vstd::prelude::*;
use crate::text::str_eq;

verus! {

/// Entries keyed by distinct strings, in insertion order.
#[derive(Debug)]
pub struct StrMap<V> {
    entries: Vec<(String, V)>,
}

impl<V> StrMap<V> {
    /// The entries in order.
    pub closed spec fn items(&self) -> Seq<(String, V)> {
        self.entries@
    }

    /// No id is stored twice.
    pub closed spec fn wf(&self) -> bool {
        forall|i: int, j: int|
            0 <= i < j < self.entries@.len() ==> self.entries@[i].0@ != self.entries@[j].0@
    }

    /// The map from ids to values.
    pub closed spec fn map(&self) -> Map<Seq<char>, V> {
        Map::new(
            |k: Seq<char>| exists|i: int| 0 <= i < self.entries@.len() && self.entries@[i].0@ == k,
            |k: Seq<char>| self.entries@[choose|i: int| 0 <= i < self.entries@.len() && self.entries@[i].0@ == k].1,
        )
    }

    pub fn new() -> (m: Self)
        ensures
            m.wf(),
            m.items() == Seq::<(String, V)>::empty(),
            m.map() == Map::<Seq<char>, V>::empty(),
    {
        let m = StrMap { entries: Vec::new() };
        assert(m.map() =~= Map::<Seq<char>, V>::empty());
        m
    }

    proof fn lemma_lookup(&self, i: int)
        requires
            self.wf(),
            0 <= i < self.entries@.len(),
        ensures
            self.map().contains_key(self.entries@[i].0@),
            self.map()[self.entries@[i].0@] == self.entries@[i].1,
    {
        let k = self.entries@[i].0@;
        assert(self.map().dom().contains(k));
        let j = choose|j: int| 0 <= j < self.entries@.len() && self.entries@[j].0@ == k;
        if j != i {
            if j < i {
                assert(self.entries@[j].0@ != self.entries@[i].0@);
            } else {
                assert(self.entries@[i].0@ != self.entries@[j].0@);
            }
        }
    }

    /// Keys and values of the map agree with the entries.
    pub proof fn lemma_items_map(&self)
        requires
            self.wf(),
        ensures
            forall|i: int|
                0 <= i < self.items().len() ==> #[trigger] self.map().contains_key(self.items()[i].0@)
                    && self.map()[self.items()[i].0@] == self.items()[i].1,
            forall|k: Seq<char>|
                #[trigger] self.map().contains_key(k) ==> exists|i: int|
                    0 <= i < self.items().len() && self.items()[i].0@ == k,
    {
        assert forall|i: int| 0 <= i < self.items().len() implies #[trigger] self.map().contains_key(
            self.items()[i].0@,
        ) && self.map()[self.items()[i].0@] == self.items()[i].1 by {
            self.lemma_lookup(i);
        }
        assert forall|k: Seq<char>| #[trigger] self.map().contains_key(k) implies exists|i: int|
            0 <= i < self.items().len() && self.items()[i].0@ == k by {
            assert(self.map().dom().contains(k));
            let i = choose|i: int| 0 <= i < self.entries@.len() && self.entries@[i].0@ == k;
            assert(self.items()[i].0@ == k);
        }
    }

    /// The map has exactly as many keys as there are entries.
    pub proof fn lemma_len(&self)
        requires
            self.wf(),
        ensures
            self.map().dom().finite(),
            self.map().dom().len() == self.items().len(),
    {
        let keys = self.entries@.map_values(|e: (String, V)| e.0@);
        assert(keys.no_duplicates()) by {
            assert forall|i: int, j: int| 0 <= i < keys.len() && 0 <= j < keys.len() && i != j implies keys[i]
                != keys[j] by {
                if i < j {
                    assert(self.entries@[i].0@ != self.entries@[j].0@);
                } else {
                    assert(self.entries@[j].0@ != self.entries@[i].0@);
                }
            }
        }
        keys.unique_seq_to_set();
        assert forall|k: Seq<char>| self.map().dom().contains(k) <==> keys.to_set().contains(k) by {
            if self.map().dom().contains(k) {
                let i = choose|i: int| 0 <= i < self.entries@.len() && self.entries@[i].0@ == k;
                assert(keys[i] == k);
            }
            if keys.to_set().contains(k) {
                let i = choose|i: int| 0 <= i < keys.len() && keys[i] == k;
                assert(self.entries@[i].0@ == k);
            }
        }
        assert(self.map().dom() =~= keys.to_set());
        vstd::seq_lib::seq_to_set_is_finite(keys);
    }

    fn position(&self, id: &str) -> (r: Option<usize>)
        requires
            self.wf(),
        ensures
            match r {
                Some(i) => i < self.entries@.len() && self.entries@[i as int].0@ == id@,
                None => !self.map().contains_key(id@),
            },
    {
        let mut i: usize = 0;
        while i < self.entries.len()
            invariant
                i <= self.entries@.len(),
                forall|k: int| 0 <= k < i ==> self.entries@[k].0@ != id@,
            decreases self.entries.len() - i,
        {
            if str_eq(self.entries[i].0.as_str(), id) {
                return Some(i);
            }
            i += 1;
        }
        None
    }

    /// The value stored under `id`.
    pub fn get(&self, id: &str) -> (r: Option<&V>)
        requires
            self.wf(),
        ensures
            match r {
                Some(v) => self.map().contains_key(id@) && self.map()[id@] == *v,
                None => !self.map().contains_key(id@),
            },
    {
        match self.position(id) {
            Some(i) => {
                proof {
                    self.lemma_lookup(i as int);
                }
                Some(&self.entries[i].1)
            },
            None => None,
        }
    }

    /// Whether `id` has an entry.
    pub fn contains_key(&self, id: &str) -> (b: bool)
        requires
            self.wf(),
        ensures
            b == self.map().contains_key(id@),
    {
        self.position(id).is_some()
    }

    /// Number of entries.
    pub fn len(&self) -> (n: usize)
        ensures
            n == self.items().len(),
    {
        self.entries.len()
    }

    /// The entry at position `i`.
    pub fn entry(&self, i: usize) -> (r: (&str, &V))
        requires
            i < self.items().len(),
        ensures
            r.0@ == self.items()[i as int].0@,
            *r.1 == self.items()[i as int].1,
    {
        (self.entries[i].0.as_str(), &self.entries[i].1)
    }

    /// Store `value` under `id`, replacing any previous value (an existing
    /// id keeps its position; a new one goes last).
    pub fn insert(&mut self, id: String, value: V)
        requires
            old(self).wf(),
        ensures
            final(self).wf(),
            final(self).map() == old(self).map().insert(id@, value),
            old(self).map().contains_key(id@) ==> final(self).items().len() == old(self).items().len(),
            !old(self).map().contains_key(id@) ==> final(self).items() == old(self).items().push(
                (id, value),
            ),
    {
        let ghost key = id@;
        match self.position(id.as_str()) {
            Some(i) => {
                let ghost before = self.entries@;
                self.entries.set(i, (id, value));
                proof {
                    assert(old(self).map().contains_key(key)) by {
                        old(self).lemma_lookup(i as int);
                    }
                    assert forall|a: int, b: int| 0 <= a < b < self.entries@.len() implies self.entries@[a].0@
                        != self.entries@[b].0@ by {
                        assert(before[a].0@ != before[b].0@);
                    }
                    assert forall|k: Seq<char>| #[trigger] self.map().contains_key(k) == old(self).map().insert(key, value).contains_key(k) by {
                        if self.map().contains_key(k) {
                            let j = choose|j: int| 0 <= j < self.entries@.len() && self.entries@[j].0@ == k;
                            if j != i {
                                assert(before[j].0@ == k);
                            }
                        }
                        if old(self).map().contains_key(k) {
                            let j = choose|j: int| 0 <= j < before.len() && before[j].0@ == k;
                            assert(self.entries@[j].0@ == k);
                        }
                        if k == key {
                            assert(self.entries@[i as int].0@ == key);
                        }
                    }
                    assert forall|k: Seq<char>| #[trigger] self.map().contains_key(k) implies self.map()[k]
                        == old(self).map().insert(key, value)[k] by {
                        let j = choose|j: int| 0 <= j < self.entries@.len() && self.entries@[j].0@ == k;
                        self.lemma_lookup(j);
                        if j != i {
                            old(self).lemma_lookup(j);
                        }
                    }
                    assert(self.map() =~= old(self).map().insert(key, value));
                }
            },
            None => {
                let ghost before = self.entries@;
                self.entries.push((id, value));
                proof {
                    assert forall|k: Seq<char>| #[trigger] self.map().contains_key(k) == old(self).map().insert(key, value).contains_key(k) by {
                        if self.map().contains_key(k) {
                            let j = choose|j: int| 0 <= j < self.entries@.len() && self.entries@[j].0@ == k;
                            if j < before.len() {
                                assert(before[j].0@ == k);
                            }
                        }
                        if old(self).map().contains_key(k) {
                            let j = choose|j: int| 0 <= j < before.len() && before[j].0@ == k;
                            assert(self.entries@[j].0@ == k);
                        }
                        if k == key {
                            assert(self.entries@[before.len() as int].0@ == key);
                        }
                    }
                    assert forall|k: Seq<char>| #[trigger] self.map().contains_key(k) implies self.map()[k]
                        == old(self).map().insert(key, value)[k] by {
                        let j = choose|j: int| 0 <= j < self.entries@.len() && self.entries@[j].0@ == k;
                        self.lemma_lookup(j);
                        if j < before.len() {
                            assert(self.entries@[j] == before[j]);
                            old(self).lemma_lookup(j);
                        }
                    }
                    assert(self.map() =~= old(self).map().insert(key, value));
                }
            },
        }
    }

    /// Remove `id`, returning its value.
    pub fn remove(&mut self, id: &str) -> (r: Option<V>)
        requires
            old(self).wf(),
        ensures
            final(self).wf(),
            final(self).map() == old(self).map().remove(id@),
            match r {
                Some(v) => old(self).map().contains_key(id@) && old(self).map()[id@] == v,
                None => !old(self).map().contains_key(id@),
            },
    {
        match self.position(id) {
            None => {
                assert(self.map() =~= old(self).map().remove(id@));
                None
            },
            Some(i) => {
                let ghost before = self.entries@;
                proof {
                    old(self).lemma_lookup(i as int);
                }
                let (_, v) = self.entries.remove(i);
                proof {
                    assert forall|a: int, b: int| 0 <= a < b < self.entries@.len() implies self.entries@[a].0@
                        != self.entries@[b].0@ by {
                        let a0 = if a < i { a } else { a + 1 };
                        let b0 = if b < i { b } else { b + 1 };
                        assert(before[a0].0@ != before[b0].0@);
                    }
                    assert forall|k: Seq<char>| #[trigger] self.map().contains_key(k) == old(self).map().remove(id@).contains_key(k) by {
                        if self.map().contains_key(k) {
                            let j = choose|j: int| 0 <= j < self.entries@.len() && self.entries@[j].0@ == k;
                            let j0 = if j < i { j } else { j + 1 };
                            assert(before[j0].0@ == k);
                            if j0 < i {
                                assert(before[j0].0@ != before[i as int].0@);
                            } else {
                                assert(before[i as int].0@ != before[j0].0@);
                            }
                        }
                        if old(self).map().remove(id@).contains_key(k) {
                            let j = choose|j: int| 0 <= j < before.len() && before[j].0@ == k;
                            if j < i {
                                assert(self.entries@[j].0@ == k);
                            } else {
                                assert(j != i);
                                assert(self.entries@[j - 1].0@ == k);
                            }
                        }
                    }
                    assert forall|k: Seq<char>| #[trigger] self.map().contains_key(k) implies self.map()[k]
                        == old(self).map().remove(id@)[k] by {
                        let j = choose|j: int| 0 <= j < self.entries@.len() && self.entries@[j].0@ == k;
                        self.lemma_lookup(j);
                        let j0 = if j < i { j } else { j + 1 };
                        assert(self.entries@[j] == before[j0]);
                        old(self).lemma_lookup(j0);
                    }
                    assert(self.map() =~= old(self).map().remove(id@));
                }
                Some(v)
            },
        }
    }

    /// Take every entry out, in order, leaving the map empty.
    pub fn drain(&mut self) -> (r: Vec<(String, V)>)
        ensures
            r@ == old(self).items(),
            final(self).wf(),
            final(self).items() == Seq::<(String, V)>::empty(),
            final(self).map() == Map::<Seq<char>, V>::empty(),
    {
        let mut taken: Vec<(String, V)> = Vec::new();
        std::mem::swap(&mut taken, &mut self.entries);
        assert(self.map() =~= Map::<Seq<char>, V>::empty());
        taken
    }
}

} // verus!
