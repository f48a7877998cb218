//! A map from names to values that remembers the order its names first came in.
use vstd::hash_map::StringHashMap;
use vstd::prelude::*;

use crate::text::texts;

verus! {

/// A map keyed by name, in the order the names were first inserted.
///
/// A lookup is by hash; a walk is in insertion order, so what is rendered from
/// one of these comes out the way it was written.
pub struct NameMap<V> {
    keys: Vec<String>,
    values: Vec<V>,
    at: StringHashMap<usize>,
}

impl<V> NameMap<V> {
    /// The names, in the order they were first inserted.
    pub closed spec fn order(&self) -> Seq<Seq<char>> {
        texts(self.keys@)
    }

    /// The values, in the order of their names.
    pub closed spec fn listed(&self) -> Seq<V> {
        self.values@
    }

    /// Every name stands once, beside its value, and the index finds it there.
    pub closed spec fn wf(&self) -> bool {
        &&& self.keys@.len() == self.values@.len()
        &&& forall|i: int|
            0 <= i < self.keys@.len() ==> {
                &&& self.at@.contains_key(#[trigger] self.keys@[i]@)
                &&& self.at@[self.keys@[i]@] == i
            }
        &&& forall|k: Seq<char>| #[trigger]
            self.at@.contains_key(k) ==> {
                &&& self.at@[k] < self.keys@.len()
                &&& self.keys@[self.at@[k] as int]@ == k
            }
    }
}

impl<V> View for NameMap<V> {
    type V = Map<Seq<char>, V>;

    closed spec fn view(&self) -> Map<Seq<char>, V> {
        Map::new(
            |k: Seq<char>| self.at@.contains_key(k),
            |k: Seq<char>| self.values@[self.at@[k] as int],
        )
    }
}

impl<V> NameMap<V> {
    /// What well-formedness says of the three views of one map.
    pub proof fn lemma_views(&self)
        requires
            self.wf(),
        ensures
            self.order().len() == self.listed().len(),
            self.order().no_duplicates(),
            forall|k: Seq<char>| #[trigger] self@.contains_key(k) <==> self.order().contains(k),
            forall|i: int|
                #![trigger self.order()[i]]
                #![trigger self.listed()[i]]
                0 <= i < self.order().len() ==> self@.contains_key(self.order()[i])
                    && self@[self.order()[i]] == self.listed()[i],
    {
        assert forall|i: int, j: int|
            0 <= i < self.order().len() && 0 <= j < self.order().len() && i
                != j implies self.order()[i] != self.order()[j] by {
            assert(self.at@[self.keys@[i]@] == i);
            assert(self.at@[self.keys@[j]@] == j);
        }
        assert forall|k: Seq<char>| #[trigger]
            self@.contains_key(k) <==> self.order().contains(k) by {
            if self@.contains_key(k) {
                assert(self.order()[self.at@[k] as int] == k);
            }
            if self.order().contains(k) {
                let i = choose|i: int| 0 <= i < self.order().len() && self.order()[i] == k;
                assert(self.keys@[i]@ == k);
            }
        }
        assert forall|i: int|
            #![trigger self.order()[i]]
            #![trigger self.listed()[i]]
            0 <= i < self.order().len() implies self@.contains_key(self.order()[i])
            && self@[self.order()[i]] == self.listed()[i] by {
            assert(self.at@[self.keys@[i]@] == i);
        }
    }

    /// A map with no names.
    pub fn new() -> (r: Self)
        ensures
            r.wf(),
            r@ == Map::<Seq<char>, V>::empty(),
            r.order() == Seq::<Seq<char>>::empty(),
            r.listed() == Seq::<V>::empty(),
    {
        let r = NameMap { keys: Vec::new(), values: Vec::new(), at: StringHashMap::new() };
        assert(r@ =~= Map::<Seq<char>, V>::empty());
        assert(r.order() =~= Seq::<Seq<char>>::empty());
        r
    }

    /// How many names the map holds.
    pub fn len(&self) -> (r: usize)
        ensures
            r == self.order().len(),
    {
        self.keys.len()
    }

    /// The names, in order.
    pub fn names(&self) -> (r: &Vec<String>)
        ensures
            texts(r@) == self.order(),
    {
        &self.keys
    }

    /// The values, in the order of their names.
    pub fn values(&self) -> (r: &Vec<V>)
        ensures
            r@ == self.listed(),
    {
        &self.values
    }

    /// Whether the map holds a name.
    pub fn contains(&self, k: &str) -> (r: bool)
        ensures
            r == self@.contains_key(k@),
    {
        self.at.contains_key(k)
    }

    /// The value under a name.
    pub fn get(&self, k: &str) -> (r: Option<&V>)
        requires
            self.wf(),
        ensures
            r == (if self@.contains_key(k@) {
                Some(&self@[k@])
            } else {
                None
            }),
    {
        match self.at.get(k) {
            Some(i) => {
                assert(self.at@.contains_key(k@));
                Some(&self.values[*i])
            },
            None => None,
        }
    }

    /// The position a name stands at.
    pub fn position(&self, k: &str) -> (r: Option<usize>)
        requires
            self.wf(),
        ensures
            match r {
                Some(i) => i < self.order().len() && self.order()[i as int] == k@,
                None => !self@.contains_key(k@),
            },
    {
        match self.at.get(k) {
            Some(i) => {
                assert(self.at@.contains_key(k@));
                Some(*i)
            },
            None => None,
        }
    }

    /// Put a value under a name: in place where the name is held, else last.
    pub fn insert(&mut self, k: String, v: V)
        requires
            old(self).wf(),
        ensures
            final(self).wf(),
            final(self)@ == old(self)@.insert(k@, v),
            final(self).order() == (if old(self)@.contains_key(k@) {
                old(self).order()
            } else {
                old(self).order().push(k@)
            }),
            !old(self)@.contains_key(k@) ==> final(self).listed() == old(self).listed().push(v),
    {
        let ghost before = *self;
        let held: Option<usize> = match self.at.get(k.as_str()) {
            Some(i) => Some(*i),
            None => None,
        };
        match held {
            Some(i) => {
                assert(before.at@.contains_key(k@));
                self.values.set(i, v);
                proof {
                    assert forall|q: Seq<char>| #[trigger]
                        self.at@.contains_key(q) && q != k@ implies self.at@[q] != i by {
                        assert(before.keys@[before.at@[q] as int]@ == q);
                        assert(before.keys@[i as int]@ == k@);
                    }
                    assert(self@ =~= before@.insert(k@, v));
                    assert(self.order() =~= before.order());
                }
            },
            None => {
                let n: usize = self.keys.len();
                self.at.insert(k.clone(), n);
                self.keys.push(k);
                self.values.push(v);
                proof {
                    assert(!before.at@.contains_key(k@));
                    assert forall|i: int| 0 <= i < self.keys@.len() implies {
                        &&& self.at@.contains_key(#[trigger] self.keys@[i]@)
                        &&& self.at@[self.keys@[i]@] == i
                    } by {
                        if i < n {
                            assert(self.keys@[i] == before.keys@[i]);
                            assert(before.at@.contains_key(before.keys@[i]@));
                        }
                    }
                    assert forall|q: Seq<char>| #[trigger] self.at@.contains_key(q) implies {
                        &&& self.at@[q] < self.keys@.len()
                        &&& self.keys@[self.at@[q] as int]@ == q
                    } by {
                        if q != k@ {
                            assert(before.at@.contains_key(q));
                        }
                    }
                    assert(self@ =~= before@.insert(k@, v));
                    assert(self.order() =~= before.order().push(k@));
                }
            },
        }
    }

    /// Take a name and its value out, keeping the order of the rest.
    pub fn remove(&mut self, k: &str) -> (r: Option<V>)
        requires
            old(self).wf(),
        ensures
            final(self).wf(),
            final(self)@ == old(self)@.remove(k@),
            old(self)@.contains_key(k@) ==> final(self).order() == old(self).order().remove(
                old(self).order().index_of(k@),
            ) && r == Some(old(self)@[k@]),
            !old(self)@.contains_key(k@) ==> final(self).order() == old(self).order() && r is None,
    {
        let ghost before = *self;
        proof {
            before.lemma_views();
        }
        let held: Option<usize> = match self.at.get(k) {
            Some(i) => Some(*i),
            None => None,
        };
        match held {
            None => {
                assert(self@ =~= before@.remove(k@));
                None
            },
            Some(i) => {
                assert(before.at@.contains_key(k@));
                let _ = self.keys.remove(i);
                let v = self.values.remove(i);
                self.at = StringHashMap::new();
                let mut j: usize = 0;
                while j < self.keys.len()
                    invariant
                        j <= self.keys@.len(),
                        self.keys@ == before.keys@.remove(i as int),
                        self.values@ == before.values@.remove(i as int),
                        before.wf(),
                        i < before.keys@.len(),
                        before.at@.contains_key(k@),
                        before.at@[k@] == i,
                        before.order().no_duplicates(),
                        forall|m: int|
                            0 <= m < j ==> self.at@.contains_key(#[trigger] self.keys@[m]@)
                                && self.at@[self.keys@[m]@] == m,
                        forall|q: Seq<char>| #[trigger]
                            self.at@.contains_key(q) ==> self.at@[q] < j
                                && self.keys@[self.at@[q] as int]@ == q,
                    decreases self.keys@.len() - j,
                {
                    let ghost was = self.at@;
                    self.at.insert(self.keys[j].clone(), j);
                    proof {
                        assert forall|m: int| 0 <= m < j + 1 implies self.at@.contains_key(
                            #[trigger] self.keys@[m]@,
                        ) && self.at@[self.keys@[m]@] == m by {
                            if m < j {
                                let a = if m < i { m } else { m + 1 };
                                let b = if j < i { j as int } else { j + 1 };
                                assert(before.order()[a] != before.order()[b]);
                                assert(self.keys@[m] == before.keys@[a]);
                                assert(self.keys@[j as int] == before.keys@[b]);
                            }
                        }
                    }
                    j += 1;
                }
                proof {
                    assert(before.order()[i as int] == k@);
                    assert(before.order().index_of(k@) == i);
                    assert(self.order() =~= before.order().remove(i as int));
                    assert forall|q: Seq<char>| #[trigger]
                        self@.contains_key(q) <==> before@.remove(k@).contains_key(q) by {
                        if self@.contains_key(q) {
                            let m = self.at@[q] as int;
                            let a = if m < i { m } else { m + 1 };
                            assert(self.keys@[m] == before.keys@[a]);
                            assert(before.order()[a] != before.order()[i as int]);
                        }
                        if before@.remove(k@).contains_key(q) {
                            let a = before.at@[q] as int;
                            assert(a != i);
                            let m = if a < i { a } else { a - 1 };
                            assert(self.keys@[m] == before.keys@[a]);
                            assert(self.at@.contains_key(self.keys@[m]@));
                        }
                    }
                    assert forall|q: Seq<char>| #[trigger]
                        self@.contains_key(q) implies self@[q] == before@.remove(k@)[q] by {
                        let m = self.at@[q] as int;
                        let a = if m < i { m } else { m + 1 };
                        assert(self.keys@[m] == before.keys@[a]);
                        assert(before.at@[before.keys@[a]@] == a);
                    }
                    assert(self@ =~= before@.remove(k@));
                }
                Some(v)
            },
        }
    }

    /// The value under a name, to change.
    pub fn get_mut(&mut self, k: &str) -> (r: Option<&mut V>)
        requires
            old(self).wf(),
        ensures
            final(self).wf(),
            final(self).order() == old(self).order(),
            match r {
                Some(v) => {
                    &&& old(self)@.contains_key(k@)
                    &&& *v == old(self)@[k@]
                    &&& final(self)@ == old(self)@.insert(k@, *final(v))
                },
                None => !old(self)@.contains_key(k@) && final(self)@ == old(self)@,
            },
    {
        let ghost before = *self;
        let held: Option<usize> = match self.at.get(k) {
            Some(i) => Some(*i),
            None => None,
        };
        match held {
            Some(i) => {
                assert(before.at@.contains_key(k@));
                let v = &mut self.values[i];
                Some(v)
            },
            None => None,
        }
    }
}

} // verus!
