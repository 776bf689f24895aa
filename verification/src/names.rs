//! Maps from names to values.

use vstd::prelude::*;

use crate::text;

verus! {

/// A map from unit names (or other strings) to values that remembers the
/// order in which names were first inserted.
///
/// Its view is the map from the names' characters to the values.
#[derive(Debug)]
pub struct NameMap<V> {
    entries: Vec<(String, V)>,
}

impl<V> View for NameMap<V> {
    type V = Map<Seq<char>, V>;

    closed spec fn view(&self) -> Map<Seq<char>, V> {
        Map::new(
            |name: Seq<char>| exists|i: int| 0 <= i < self.entries@.len() && #[trigger] self.entries@[i].0@ == name,
            |name: Seq<char>| self.entries@[choose|i: int| 0 <= i < self.entries@.len() && #[trigger] self.entries@[i].0@ == name].1,
        )
    }
}

impl<V> NameMap<V> {
    /// No name occurs twice.
    pub closed spec fn wf(&self) -> bool {
        forall|i: int, j: int| 0 <= i < j < self.entries@.len() ==> #[trigger] self.entries@[i].0@ != #[trigger] self.entries@[j].0@
    }

    /// The names in the order of first insertion.
    pub closed spec fn keys(&self) -> Seq<Seq<char>> {
        Seq::new(self.entries@.len(), |i: int| self.entries@[i].0@)
    }

    proof fn lemma_at(&self, i: int)
        requires
            self.wf(),
            0 <= i < self.entries@.len(),
        ensures
            self@.dom().contains(self.entries@[i].0@),
            self@[self.entries@[i].0@] == self.entries@[i].1,
    {
        let name = self.entries@[i].0@;
        let k = choose|k: int| 0 <= k < self.entries@.len() && #[trigger] self.entries@[k].0@ == name;
        assert(self.entries@[k].0@ == name);
        if k < i {
        } else if i < k {
        }
    }

    /// The names are exactly the keys of the map, each once.
    pub proof fn lemma_keys(&self)
        requires
            self.wf(),
        ensures
            self.keys().no_duplicates(),
            forall|name: Seq<char>| self@.dom().contains(name) <==> self.keys().contains(name),
            self@.dom().finite(),
    {
        let keys = self.keys();
        assert forall|name: Seq<char>| self@.dom().contains(name) <==> keys.contains(name) by {
            if self@.dom().contains(name) {
                let i = choose|i: int| 0 <= i < self.entries@.len() && #[trigger] self.entries@[i].0@ == name;
                assert(keys[i] == name);
            }
            if keys.contains(name) {
                let i = choose|i: int| 0 <= i < keys.len() && keys[i] == name;
                assert(self.entries@[i].0@ == name);
            }
        }
        assert(self@.dom() =~= keys.to_set());
        vstd::seq_lib::seq_to_set_is_finite(keys);
        assert forall|i: int, j: int| 0 <= i < keys.len() && 0 <= j < keys.len() && i != j implies keys[i]
            != keys[j] by {
            assert(self.entries@[i].0@ == keys[i]);
            assert(self.entries@[j].0@ == keys[j]);
            if i < j {
            } else {
            }
        }
    }

    /// An empty map.
    pub fn new() -> (r: Self)
        ensures
            r.wf(),
            r@ == Map::<Seq<char>, V>::empty(),
            r.keys() == Seq::<Seq<char>>::empty(),
    {
        let r = NameMap { entries: Vec::new() };
        assert(r@ =~= Map::<Seq<char>, V>::empty());
        r
    }

    /// Number of names.
    pub fn len(&self) -> (r: usize)
        ensures
            r == self.keys().len(),
    {
        self.entries.len()
    }

    /// Whether there are no names.
    pub fn is_empty(&self) -> (r: bool)
        requires
            self.wf(),
        ensures
            r == (self@ == Map::<Seq<char>, V>::empty()),
    {
        proof {
            if self.entries@.len() == 0 {
                assert(self@ =~= Map::<Seq<char>, V>::empty());
            } else {
                self.lemma_at(0);
            }
        }
        self.entries.len() == 0
    }

    /// Where a name stands in the insertion order.
    fn position(&self, name: &str) -> (r: Option<usize>)
        requires
            self.wf(),
        ensures
            match r {
                Some(i) => i < self.entries@.len() && self.entries@[i as int].0@ == name@
                    && self@.dom().contains(name@) && self@[name@] == self.entries@[i as int].1,
                None => !self@.dom().contains(name@),
            },
    {
        let mut i: usize = 0;
        while i < self.entries.len()
            invariant
                self.wf(),
                i <= self.entries@.len(),
                forall|k: int| 0 <= k < i ==> #[trigger] self.entries@[k].0@ != name@,
            decreases self.entries@.len() - i,
        {
            if text::same(self.entries[i].0.as_str(), name) {
                proof {
                    self.lemma_at(i as int);
                }
                return Some(i);
            }
            i += 1;
        }
        None
    }

    /// The value stored under `name`.
    pub fn get(&self, name: &str) -> (r: Option<&V>)
        requires
            self.wf(),
        ensures
            match r {
                Some(v) => self@.dom().contains(name@) && *v == self@[name@],
                None => !self@.dom().contains(name@),
            },
    {
        match self.position(name) {
            Some(i) => Some(&self.entries[i].1),
            None => None,
        }
    }

    /// Whether a value is stored under `name`.
    pub fn contains(&self, name: &str) -> (r: bool)
        requires
            self.wf(),
        ensures
            r == self@.dom().contains(name@),
    {
        self.position(name).is_some()
    }

    /// The name at position `i` of the insertion order.
    pub fn key_at(&self, i: usize) -> (r: &String)
        requires
            i < self.keys().len(),
        ensures
            r@ == self.keys()[i as int],
    {
        &self.entries[i].0
    }

    /// The value stored under the name at position `i`.
    pub fn value_at(&self, i: usize) -> (r: &V)
        requires
            self.wf(),
            i < self.keys().len(),
        ensures
            self@.dom().contains(self.keys()[i as int]),
            *r == self@[self.keys()[i as int]],
    {
        proof {
            self.lemma_at(i as int);
        }
        &self.entries[i].1
    }

    /// Store `value` under `name`, replacing what was there.
    pub fn insert(&mut self, name: String, value: V)
        requires
            old(self).wf(),
        ensures
            final(self).wf(),
            final(self)@ == old(self)@.insert(name@, value),
            final(self).keys() == (if old(self)@.dom().contains(name@) {
                old(self).keys()
            } else {
                old(self).keys().push(name@)
            }),
    {
        let ghost before = *self;
        let ghost mut at: int = 0;
        match self.position(name.as_str()) {
            Some(i) => {
                proof {
                    at = i as int;
                }
                self.entries.set(i, (name, value));
                assert forall|a: int, b: int| 0 <= a < b < self.entries@.len() implies
                    #[trigger] self.entries@[a].0@ != #[trigger] self.entries@[b].0@ by {
                    assert(before.entries@[a].0@ != before.entries@[b].0@);
                }
                assert(self.keys() =~= before.keys()) by {
                    assert forall|k: int| 0 <= k < self.entries@.len() implies
                        self.entries@[k].0@ == before.entries@[k].0@ by {}
                }
            },
            None => {
                proof {
                    at = before.entries@.len() as int;
                }
                self.entries.push((name, value));
                assert forall|a: int, b: int| 0 <= a < b < self.entries@.len() implies
                    #[trigger] self.entries@[a].0@ != #[trigger] self.entries@[b].0@ by {
                    if b == before.entries@.len() {
                        before.lemma_at(a);
                    } else {
                        assert(before.entries@[a].0@ != before.entries@[b].0@);
                    }
                }
                assert(self.keys() =~= before.keys().push(name@));
            },
        }
        proof {
            let want = before@.insert(name@, value);
            assert forall|k: Seq<char>| self@.dom().contains(k) <==> want.dom().contains(k) by {
                if self@.dom().contains(k) {
                    let i = choose|i: int| 0 <= i < self.entries@.len() && #[trigger] self.entries@[i].0@ == k;
                    if k != name@ {
                        assert(before.entries@[i].0@ == k);
                    }
                }
                if want.dom().contains(k) {
                    if k == name@ {
                        assert(self.entries@[at].0@ == name@);
                    } else {
                        let i = choose|i: int| 0 <= i < before.entries@.len() && #[trigger] before.entries@[i].0@ == k;
                        assert(self.entries@[i].0@ == k);
                    }
                }
            }
            assert forall|k: Seq<char>| self@.dom().contains(k) implies self@[k] == want[k] by {
                let i = choose|i: int| 0 <= i < self.entries@.len() && #[trigger] self.entries@[i].0@ == k;
                self.lemma_at(i);
                if k != name@ {
                    before.lemma_at(i);
                }
            }
            assert(self@ =~= want);
        }
    }

    /// The value stored under `name`, to be changed in place.
    pub fn get_mut(&mut self, name: &str) -> (r: Option<&mut V>)
        requires
            old(self).wf(),
        ensures
            match r {
                Some(v) => {
                    &&& old(self)@.dom().contains(name@)
                    &&& *v == old(self)@[name@]
                    &&& final(self)@ == old(self)@.insert(name@, *final(v))
                    &&& final(self).wf()
                    &&& final(self).keys() == old(self).keys()
                },
                None => !old(self)@.dom().contains(name@) && *final(self) == *old(self),
            },
    {
        let ghost before = *self;
        match self.position(name) {
            Some(i) => {
                proof {
                    assert forall|after: Self|
                        #![trigger after.wf()]
                        #![trigger after.keys()]
                        #![trigger after@]
                        after.entries@ == before.entries@.update(
                            i as int,
                            (before.entries@[i as int].0, after.entries@[i as int].1),
                        ) implies after.wf() && after.keys() == before.keys() && after@ == before@.insert(
                        name@,
                        after.entries@[i as int].1,
                    ) by {
                        Self::lemma_replaced(before, after, i as int, after.entries@[i as int].1);
                    }
                }
                Some(&mut self.entries[i].1)
            },
            None => None,
        }
    }

    proof fn lemma_replaced(before: Self, after: Self, i: int, v: V)
        requires
            before.wf(),
            0 <= i < before.entries@.len(),
            after.entries@ == before.entries@.update(i, (before.entries@[i].0, v)),
        ensures
            after.wf(),
            after.keys() == before.keys(),
            after@ == before@.insert(before.entries@[i].0@, v),
    {
        let name = before.entries@[i].0@;
        assert forall|a: int, b: int| 0 <= a < b < after.entries@.len() implies #[trigger] after.entries@[a].0@
            != #[trigger] after.entries@[b].0@ by {
            assert(before.entries@[a].0@ != before.entries@[b].0@);
        }
        assert(after.keys() =~= before.keys());
        before.lemma_keys();
        after.lemma_keys();
        let want = before@.insert(name, v);
        assert(before.keys().contains(before.keys()[i]));
        assert forall|k: Seq<char>| after@.dom().contains(k) <==> want.dom().contains(k) by {
            assert(after.keys().contains(k) <==> before.keys().contains(k));
            assert(before.keys()[i] == name);
        }
        assert forall|k: Seq<char>| after@.dom().contains(k) implies after@[k] == want[k] by {
            let j = choose|j: int| 0 <= j < after.entries@.len() && #[trigger] after.entries@[j].0@ == k;
            after.lemma_at(j);
            before.lemma_at(j);
            if j != i {
                if j < i {
                    assert(before.entries@[j].0@ != before.entries@[i].0@);
                } else {
                    assert(before.entries@[i].0@ != before.entries@[j].0@);
                }
            }
        }
        assert(after@ =~= want);
    }

    /// Forget `name`; what was stored under it, if anything.
    pub fn remove(&mut self, name: &str) -> (r: Option<V>)
        requires
            old(self).wf(),
        ensures
            final(self).wf(),
            final(self)@ == old(self)@.remove(name@),
            match r {
                Some(v) => old(self)@.dom().contains(name@) && v == old(self)@[name@],
                None => !old(self)@.dom().contains(name@),
            },
    {
        let ghost before = *self;
        match self.position(name) {
            Some(i) => {
                let removed = self.entries.remove(i);
                proof {
                    assert forall|a: int, b: int| 0 <= a < b < self.entries@.len() implies
                        #[trigger] self.entries@[a].0@ != #[trigger] self.entries@[b].0@ by {
                        let a2 = if a < i { a } else { a + 1 };
                        let b2 = if b < i { b } else { b + 1 };
                        assert(before.entries@[a2].0@ != before.entries@[b2].0@);
                    }
                    let want = before@.remove(name@);
                    assert forall|k: Seq<char>| self@.dom().contains(k) <==> want.dom().contains(k) by {
                        if self@.dom().contains(k) {
                            let j = choose|j: int| 0 <= j < self.entries@.len() && #[trigger] self.entries@[j].0@ == k;
                            let j2 = if j < i { j } else { j + 1 };
                            assert(before.entries@[j2].0@ == k);
                            if j2 < i {
                                assert(before.entries@[j2].0@ != before.entries@[i as int].0@);
                            } else {
                                assert(before.entries@[i as int].0@ != before.entries@[j2].0@);
                            }
                        }
                        if want.dom().contains(k) {
                            let j = choose|j: int| 0 <= j < before.entries@.len() && #[trigger] before.entries@[j].0@ == k;
                            let j2 = if j < i { j } else { j - 1 };
                            assert(j != i);
                            assert(self.entries@[j2].0@ == k);
                        }
                    }
                    assert forall|k: Seq<char>| self@.dom().contains(k) implies self@[k] == want[k] by {
                        let j = choose|j: int| 0 <= j < self.entries@.len() && #[trigger] self.entries@[j].0@ == k;
                        self.lemma_at(j);
                        let j2 = if j < i { j } else { j + 1 };
                        before.lemma_at(j2);
                    }
                    assert(self@ =~= want);
                }
                Some(removed.1)
            },
            None => {
                assert(self@ =~= before@.remove(name@));
                None
            },
        }
    }
}

} // verus!
