//! A small map from text to text that keeps its entries in the order in
//! which their keys were first inserted.

use crate::text::same_text;
use vstd::prelude::*;

verus! {

/// A map from text keys to text values.
pub struct TextMap {
    keys: Vec<String>,
    values: Vec<String>,
}

impl TextMap {
    /// The keys are pairwise distinct and every key has a value. Every map
    /// that this module hands out is well formed.
    pub closed spec fn wf(&self) -> bool {
        &&& self.keys.len() == self.values.len()
        &&& forall|i: int, j: int|
            0 <= i < j < self.keys.len() ==> (#[trigger] self.keys[i])@ != (
            #[trigger] self.keys[j])@
    }

    /// The keys, in the order of their first insertion.
    pub closed spec fn key_seq(&self) -> Seq<Seq<char>> {
        Seq::new(self.keys.len() as nat, |i: int| self.keys[i]@)
    }

    /// The values, each at the position of its key.
    pub closed spec fn value_seq(&self) -> Seq<Seq<char>> {
        Seq::new(self.keys.len() as nat, |i: int| self.values[i]@)
    }

    /// The entries as a mathematical map.
    pub open spec fn view(&self) -> Map<Seq<char>, Seq<char>> {
        Map::new(
            |k: Seq<char>| self.key_seq().contains(k),
            |k: Seq<char>| self.value_seq()[self.key_seq().index_of(k)],
        )
    }

    /// In a well-formed map the keys are pairwise distinct, and the value at
    /// the position of a key is the value of that key.
    pub proof fn lemma_entries(&self)
        requires
            self.wf(),
        ensures
            self.key_seq().len() == self.value_seq().len(),
            self.key_seq().no_duplicates(),
            forall|i: int|
                0 <= i < self.key_seq().len() ==> self@.contains_key(#[trigger] self.key_seq()[i])
                    && self@[self.key_seq()[i]] == self.value_seq()[i],
    {
        let ks = self.key_seq();
        assert forall|i: int| 0 <= i < ks.len() implies self@.contains_key(#[trigger] ks[i])
            && self@[ks[i]] == self.value_seq()[i] by {
            let j = ks.index_of(ks[i]);
            assert(ks[j] == ks[i]);
            if i < j {
                assert(self.keys[i]@ != self.keys[j]@);
            }
            if j < i {
                assert(self.keys[j]@ != self.keys[i]@);
            }
        }
    }

    /// Well-formedness together with what follows from it.
    pub open spec fn inv(&self) -> bool {
        &&& self.wf()
        &&& self.key_seq().len() == self.value_seq().len()
        &&& self.key_seq().no_duplicates()
        &&& forall|i: int|
            0 <= i < self.key_seq().len() ==> self@.contains_key(#[trigger] self.key_seq()[i])
                && self@[self.key_seq()[i]] == self.value_seq()[i]
        &&& forall|k: Seq<char>| self@.contains_key(k) <==> self.key_seq().contains(k)
    }

    /// An empty map.
    pub fn new() -> (m: TextMap)
        ensures
            m@ == Map::<Seq<char>, Seq<char>>::empty(),
            m.key_seq() == Seq::<Seq<char>>::empty(),
            m.inv(),
    {
        let m = TextMap { keys: Vec::new(), values: Vec::new() };
        assert(m.key_seq() =~= Seq::<Seq<char>>::empty());
        assert(m@ =~= Map::<Seq<char>, Seq<char>>::empty());
        proof {
            m.lemma_entries();
        }
        m
    }

    /// The number of entries.
    pub fn len(&self) -> (n: usize)
        requires
            self.wf(),
        ensures
            n == self.key_seq().len(),
            self.inv(),
    {
        proof {
            self.lemma_entries();
        }
        self.keys.len()
    }

    /// Whether the map has no entry.
    pub fn is_empty(&self) -> (r: bool)
        requires
            self.wf(),
        ensures
            r == (self.key_seq().len() == 0),
            r == (self@ == Map::<Seq<char>, Seq<char>>::empty()),
            self.inv(),
    {
        proof {
            self.lemma_entries();
            if self.keys.len() == 0 {
                assert(self@ =~= Map::<Seq<char>, Seq<char>>::empty());
            } else {
                assert(self@.contains_key(self.key_seq()[0]));
            }
        }
        self.keys.len() == 0
    }

    /// The key at position `i`.
    pub fn key_at(&self, i: usize) -> (k: &String)
        requires
            self.wf(),
            i < self.key_seq().len(),
        ensures
            k@ == self.key_seq()[i as int],
            self.inv(),
    {
        proof {
            self.lemma_entries();
        }
        &self.keys[i]
    }

    /// The value at position `i`.
    pub fn value_at(&self, i: usize) -> (v: &String)
        requires
            self.wf(),
            i < self.key_seq().len(),
        ensures
            v@ == self.value_seq()[i as int],
            self.inv(),
    {
        proof {
            self.lemma_entries();
        }
        &self.values[i]
    }

    fn position(&self, key: &str) -> (r: Option<usize>)
        requires
            self.wf(),
        ensures
            match r {
                Some(i) => i < self.keys.len() && self.keys[i as int]@ == key@,
                None => !self.key_seq().contains(key@),
            },
    {
        let mut i: usize = 0;
        while i < self.keys.len()
            invariant
                i <= self.keys.len(),
                forall|j: int| 0 <= j < i ==> (#[trigger] self.keys[j])@ != key@,
            decreases self.keys.len() - i,
        {
            if same_text(self.keys[i].as_str(), key) {
                return Some(i);
            }
            i += 1;
        }
        None
    }

    /// Whether `key` has an entry.
    pub fn contains_key(&self, key: &str) -> (r: bool)
        requires
            self.wf(),
        ensures
            r == self@.contains_key(key@),
    {
        proof {
            self.lemma_entries();
        }
        match self.position(key) {
            Some(i) => {
                assert(self.key_seq()[i as int] == key@);
                true
            },
            None => false,
        }
    }

    /// The value stored under `key`, if any.
    pub fn get(&self, key: &str) -> (r: Option<&String>)
        requires
            self.wf(),
        ensures
            match r {
                Some(v) => self@.contains_key(key@) && self@[key@] == v@,
                None => !self@.contains_key(key@),
            },
    {
        proof {
            self.lemma_entries();
        }
        match self.position(key) {
            Some(i) => {
                assert(self.key_seq()[i as int] == key@);
                Some(&self.values[i])
            },
            None => None,
        }
    }

    /// Stores `value` under `key`, replacing what was stored there before.
    /// A key that the map holds keeps its place among the keys; a new key
    /// goes to the end.
    pub fn insert(&mut self, key: String, value: String)
        requires
            old(self).wf(),
        ensures
            final(self)@ == old(self)@.insert(key@, value@),
            final(self).key_seq() == (if old(self)@.contains_key(key@) {
                old(self).key_seq()
            } else {
                old(self).key_seq().push(key@)
            }),
            final(self).value_seq() == (if old(self)@.contains_key(key@) {
                old(self).value_seq().update(old(self).key_seq().index_of(key@), value@)
            } else {
                old(self).value_seq().push(value@)
            }),
            final(self).inv(),
    {
        proof {
            self.lemma_entries();
        }
        match self.position(key.as_str()) {
            Some(i) => {
                assert(self.key_seq()[i as int] == key@);
                proof {
                    self.lemma_position(key@, i as int);
                }
                self.values[i] = value;
                proof {
                    assert(self.key_seq() =~= old(self).key_seq());
                    assert(self.value_seq() =~= old(self).value_seq().update(i as int, value@));
                    self.lemma_entries();
                    assert(self@ =~= old(self)@.insert(key@, value@)) by {
                        assert forall|k: Seq<char>| self@.contains_key(k) implies #[trigger] self@[k]
                            == old(self)@.insert(key@, value@)[k] by {
                            let j = self.key_seq().index_of(k);
                            assert(self.key_seq()[j] == k);
                            if j != i {
                                assert(self.value_seq()[j] == old(self).value_seq()[j]);
                            }
                        }
                    }
                }
            },
            None => {
                self.keys.push(key);
                self.values.push(value);
                proof {
                    assert(self.key_seq() =~= old(self).key_seq().push(key@));
                    assert(self.value_seq() =~= old(self).value_seq().push(value@));
                    assert forall|i: int, j: int| 0 <= i < j < self.keys.len() implies (
                    #[trigger] self.keys[i])@ != (#[trigger] self.keys[j])@ by {
                        if j == self.keys.len() - 1 {
                            assert(old(self).key_seq()[i] == self.keys[i]@);
                        }
                    }
                    self.lemma_entries();
                    assert(self@ =~= old(self)@.insert(key@, value@)) by {
                        assert forall|k: Seq<char>| self@.contains_key(k) implies old(
                            self,
                        )@.insert(key@, value@).contains_key(k) && #[trigger] self@[k] == old(
                            self,
                        )@.insert(key@, value@)[k] by {
                            let j = self.key_seq().index_of(k);
                            assert(self.key_seq()[j] == k);
                            if j < old(self).key_seq().len() {
                                assert(old(self).key_seq()[j] == k);
                                assert(old(self)@[k] == old(self).value_seq()[j]);
                            }
                        }
                        assert forall|k: Seq<char>|
                            old(self)@.insert(key@, value@).contains_key(
                                k,
                            ) implies #[trigger] self@.contains_key(k) by {
                            if k != key@ {
                                let j = old(self).key_seq().index_of(k);
                                assert(self.key_seq()[j] == k);
                            } else {
                                assert(self.key_seq()[self.keys.len() - 1] == k);
                            }
                        }
                    }
                }
            },
        }
        proof {
            self.lemma_inv();
        }
    }

    proof fn lemma_position(&self, key: Seq<char>, i: int)
        requires
            self.wf(),
            0 <= i < self.key_seq().len(),
            self.key_seq()[i] == key,
        ensures
            self.key_seq().index_of(key) == i,
            self@.contains_key(key),
    {
        self.lemma_entries();
        let j = self.key_seq().index_of(key);
        assert(self.key_seq()[j] == key);
        if i < j {
            assert(self.keys[i]@ != self.keys[j]@);
        }
        if j < i {
            assert(self.keys[j]@ != self.keys[i]@);
        }
    }

    proof fn lemma_inv(&self)
        requires
            self.wf(),
        ensures
            self.inv(),
    {
        self.lemma_entries();
    }

    /// Removes the entry of `key`, if there is one, and returns its value.
    /// The other entries keep their order.
    pub fn remove(&mut self, key: &str) -> (r: Option<String>)
        requires
            old(self).wf(),
        ensures
            final(self)@ == old(self)@.remove(key@),
            match r {
                Some(v) => old(self)@.contains_key(key@) && old(self)@[key@] == v@,
                None => !old(self)@.contains_key(key@),
            },
            final(self).key_seq() == (if old(self)@.contains_key(key@) {
                old(self).key_seq().remove(old(self).key_seq().index_of(key@))
            } else {
                old(self).key_seq()
            }),
            final(self).value_seq() == (if old(self)@.contains_key(key@) {
                old(self).value_seq().remove(old(self).key_seq().index_of(key@))
            } else {
                old(self).value_seq()
            }),
            final(self).inv(),
    {
        proof {
            self.lemma_entries();
        }
        match self.position(key) {
            Some(i) => {
                assert(self.key_seq()[i as int] == key@);
                proof {
                    self.lemma_position(key@, i as int);
                }
                let _ = self.keys.remove(i);
                let value = self.values.remove(i);
                proof {
                    assert(self.key_seq() =~= old(self).key_seq().remove(i as int));
                    assert(self.value_seq() =~= old(self).value_seq().remove(i as int));
                    assert forall|a: int, b: int| 0 <= a < b < self.keys.len() implies (
                    #[trigger] self.keys[a])@ != (#[trigger] self.keys[b])@ by {
                        let a0 = if a < i { a } else { a + 1 };
                        let b0 = if b < i { b } else { b + 1 };
                        assert(self.keys[a]@ == old(self).keys[a0]@);
                        assert(self.keys[b]@ == old(self).keys[b0]@);
                    }
                    self.lemma_entries();
                    assert(self@ =~= old(self)@.remove(key@)) by {
                        assert forall|k: Seq<char>| self@.contains_key(k) implies old(
                            self,
                        )@.remove(key@).contains_key(k) && #[trigger] self@[k] == old(
                            self,
                        )@.remove(key@)[k] by {
                            let j = self.key_seq().index_of(k);
                            assert(self.key_seq()[j] == k);
                            let j0 = if j < i { j } else { j + 1 };
                            assert(old(self).key_seq()[j0] == k);
                            assert(old(self)@[k] == old(self).value_seq()[j0]);
                            if k == key@ {
                                assert(old(self).keys[j0]@ == old(self).keys[i as int]@);
                            }
                        }
                        assert forall|k: Seq<char>|
                            old(self)@.remove(key@).contains_key(
                                k,
                            ) implies #[trigger] self@.contains_key(k) by {
                            let j0 = old(self).key_seq().index_of(k);
                            assert(old(self).key_seq()[j0] == k);
                            let j = if j0 < i { j0 } else { j0 - 1 };
                            assert(self.key_seq()[j] == k);
                        }
                    }
                    self.lemma_inv();
                }
                Some(value)
            },
            None => {
                proof {
                    assert(self@ =~= old(self)@.remove(key@));
                    self.lemma_inv();
                }
                None
            },
        }
    }
}

} // verus!
