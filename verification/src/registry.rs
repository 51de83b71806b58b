//! A map from text keys to values that remembers the order in which its
//! keys were first inserted.
//!
//! The coordinator's tables and the matchmaking queue are registries: their
//! keys are session ids, user names, game ids and match ids. The model of a
//! registry is a mathematical map together with the sequence of its keys,
//! oldest first.

use crate::text::str_eq;
use vstd::prelude::*;

verus! {

/// The model of a [`Registry`]: what each key maps to, and the keys in the
/// order of their insertion.
pub struct RegistryView<T> {
    pub order: Seq<Seq<char>>,
    pub map: Map<Seq<char>, T>,
}

impl<T> RegistryView<T> {
    /// The keys of the sequence are the keys of the map, each once.
    pub open spec fn wf(self) -> bool {
        &&& self.order.no_duplicates()
        &&& forall|k: Seq<char>| self.order.contains(k) <==> self.map.contains_key(k)
    }

    /// The registry without any key.
    pub open spec fn empty() -> Self {
        RegistryView { order: Seq::empty(), map: Map::empty() }
    }

    /// Whether `k` is a key.
    pub open spec fn contains_key(self, k: Seq<char>) -> bool {
        self.map.contains_key(k)
    }

    /// The value of `k`, if it is a key.
    pub open spec fn get(self, k: Seq<char>) -> Option<T> {
        if self.map.contains_key(k) {
            Some(self.map[k])
        } else {
            None
        }
    }

    /// The number of keys.
    pub open spec fn len(self) -> nat {
        self.order.len()
    }

    /// The registry in which `k` maps to `v`: a new key goes to the end of
    /// the order, a known key keeps its place.
    pub open spec fn inserted(self, k: Seq<char>, v: T) -> Self {
        RegistryView {
            order: if self.map.contains_key(k) {
                self.order
            } else {
                self.order.push(k)
            },
            map: self.map.insert(k, v),
        }
    }

    /// The registry without the key `k`; the other keys keep their order.
    pub open spec fn removed(self, k: Seq<char>) -> Self {
        RegistryView {
            order: if self.map.contains_key(k) {
                self.order.remove(self.order.index_of(k))
            } else {
                self.order
            },
            map: self.map.remove(k),
        }
    }

    /// The value of the `i`-th key.
    pub open spec fn value_at(self, i: int) -> T {
        self.map[self.order[i]]
    }

    /// Inserting keeps a registry well formed.
    pub proof fn lemma_inserted_wf(self, k: Seq<char>, v: T)
        requires
            self.wf(),
        ensures
            self.inserted(k, v).wf(),
    {
        let after = self.inserted(k, v);
        if self.map.contains_key(k) {
            assert(self.order.contains(k));
        } else {
            assert(!self.order.contains(k));
            assert forall|x: Seq<char>| after.order.contains(x) <==> after.map.contains_key(
                x,
            ) by {
                if after.order.contains(x) {
                    let i = choose|i: int| 0 <= i < after.order.len() && after.order[i] == x;
                    if i < self.order.len() {
                        assert(self.order[i] == x);
                        assert(self.order.contains(x));
                    }
                }
                if after.map.contains_key(x) {
                    if x == k {
                        assert(after.order[self.order.len() as int] == k);
                    } else {
                        assert(self.order.contains(x));
                        let i = choose|i: int| 0 <= i < self.order.len() && self.order[i] == x;
                        assert(after.order[i] == x);
                    }
                }
            }
        }
    }

    /// Removing keeps a registry well formed.
    pub proof fn lemma_removed_wf(self, k: Seq<char>)
        requires
            self.wf(),
        ensures
            self.removed(k).wf(),
    {
        let after = self.removed(k);
        if self.map.contains_key(k) {
            assert(self.order.contains(k));
            let at = self.order.index_of(k);
            assert(0 <= at < self.order.len() && self.order[at] == k);
            assert forall|x: Seq<char>| after.order.contains(x) <==> after.map.contains_key(
                x,
            ) by {
                if after.order.contains(x) {
                    let i = choose|i: int| 0 <= i < after.order.len() && after.order[i] == x;
                    if i < at {
                        assert(self.order[i] == x);
                    } else {
                        assert(self.order[i + 1] == x);
                    }
                    assert(self.order.contains(x));
                }
                if after.map.contains_key(x) {
                    assert(self.order.contains(x));
                    let i = choose|i: int| 0 <= i < self.order.len() && self.order[i] == x;
                    if i < at {
                        assert(after.order[i] == x);
                    } else {
                        assert(after.order[i - 1] == x);
                    }
                }
            }
        }
    }
}

/// The texts of a vector of keys.
pub open spec fn key_texts(keys: Seq<String>) -> Seq<Seq<char>> {
    keys.map_values(|k: String| k@)
}

/// An insertion-ordered map with text keys.
pub struct Registry<V> {
    keys: Vec<String>,
    values: Vec<V>,
}

impl<V: View> View for Registry<V> {
    type V = RegistryView<V::V>;

    closed spec fn view(&self) -> RegistryView<V::V> {
        RegistryView {
            order: key_texts(self.keys@),
            map: Map::new(
                |k: Seq<char>| key_texts(self.keys@).contains(k),
                |k: Seq<char>| self.values@[key_texts(self.keys@).index_of(k)]@,
            ),
        }
    }
}

impl<V: View> Registry<V> {
    /// The representation is sound: one value for each key, no key twice.
    pub closed spec fn wf(&self) -> bool {
        &&& self.keys@.len() == self.values@.len()
        &&& key_texts(self.keys@).no_duplicates()
    }

    /// A well-formed registry has a well-formed model.
    pub proof fn lemma_view_wf(&self)
        requires
            self.wf(),
        ensures
            self@.wf(),
    {
    }

    /// The `i`-th value stored, in the order of insertion.
    pub closed spec fn stored(&self, i: int) -> V {
        self.values@[i]
    }

    /// The stored values are the values of the model, key by key.
    pub proof fn lemma_stored(&self, i: int)
        requires
            self.wf(),
            0 <= i < self@.order.len(),
        ensures
            self@.map.contains_key(self@.order[i]),
            self.stored(i)@ == self@.value_at(i),
    {
        let texts = key_texts(self.keys@);
        assert(texts[i] == self@.order[i]);
        assert(texts.contains(texts[i]));
        let j = texts.index_of(texts[i]);
        assert(0 <= j < texts.len() && texts[j] == texts[i]);
    }

    /// Replacing the value stored for a key changes the model as an
    /// insertion under that key does.
    proof fn lemma_value_replaced(&self, after: Self, i: int, key: Seq<char>)
        requires
            self.wf(),
            0 <= i < self.keys@.len(),
            self.keys@[i]@ == key,
            after.keys == self.keys,
            after.values@ == self.values@.update(i, after.values@[i]),
        ensures
            after.wf(),
            after@ == self@.inserted(key, after.values@[i]@),
    {
        let texts = key_texts(self.keys@);
        assert(texts[i] == key);
        assert(texts.contains(key));
        assert(texts.index_of(key) == i);
        assert(after@.order =~= self@.inserted(key, after.values@[i]@).order);
        assert forall|k: Seq<char>| texts.contains(k) && k != key implies texts.index_of(k)
            != i by {
            assert(texts[texts.index_of(k)] == k);
        }
        assert(after@.map =~= self@.inserted(key, after.values@[i]@).map);
    }

    /// An empty registry.
    pub fn new() -> (registry: Self)
        ensures
            registry.wf(),
            registry@ == RegistryView::<V::V>::empty(),
    {
        let registry = Registry { keys: Vec::new(), values: Vec::new() };
        assert(registry@.order =~= Seq::empty());
        assert(registry@.map =~= Map::empty());
        registry
    }

    /// The number of keys.
    pub fn len(&self) -> (n: usize)
        requires
            self.wf(),
        ensures
            n == self@.len(),
    {
        self.keys.len()
    }

    /// Where `key` stands in the order of insertion, if it is a key.
    pub fn position(&self, key: &str) -> (at: Option<usize>)
        requires
            self.wf(),
        ensures
            match at {
                Some(i) => i < self@.order.len() && self@.order[i as int] == key@
                    && self@.map.contains_key(key@) && self@.order.index_of(key@) == i,
                None => !self@.map.contains_key(key@),
            },
    {
        let ghost texts = key_texts(self.keys@);
        let mut i: usize = 0;
        while i < self.keys.len()
            invariant
                i <= self.keys@.len(),
                self.wf(),
                texts == key_texts(self.keys@),
                forall|j: int| 0 <= j < i ==> texts[j] != key@,
            decreases self.keys@.len() - i,
        {
            if str_eq(self.keys[i].as_str(), key) {
                assert(texts[i as int] == key@);
                assert(texts.contains(key@));
                return Some(i);
            }
            i += 1;
        }
        None
    }

    /// Whether `key` is a key.
    pub fn contains_key(&self, key: &str) -> (found: bool)
        requires
            self.wf(),
        ensures
            found == self@.contains_key(key@),
    {
        self.position(key).is_some()
    }

    /// The value of `key`, if it is a key.
    pub fn get(&self, key: &str) -> (value: Option<&V>)
        requires
            self.wf(),
        ensures
            match value {
                Some(v) => self@.get(key@) == Some(v@),
                None => self@.get(key@) is None,
            },
    {
        match self.position(key) {
            Some(i) => Some(&self.values[i]),
            None => None,
        }
    }

    /// The value of `key`, to be changed in place, if it is a key. The
    /// registry afterwards maps `key` to whatever the value has become.
    pub fn get_mut(&mut self, key: &str) -> (value: Option<&mut V>)
        requires
            old(self).wf(),
        ensures
            match value {
                Some(v) => old(self)@.get(key@) == Some(v@) && final(self).wf() && final(self)@
                    == old(self)@.inserted(key@, final(v)@),
                None => old(self)@.get(key@) is None && final(self).wf() && final(self)@ == old(self)@,
            },
    {
        match self.position(key) {
            Some(i) => {
                proof {
                    let before = *self;
                    assert forall|after: Self|
                        after.keys == before.keys && after.values@ == before.values@.update(
                            i as int,
                            after.values@[i as int],
                        ) implies #[trigger] after.wf() && after@ == before@.inserted(
                        key@,
                        after.values@[i as int]@,
                    ) by {
                        before.lemma_value_replaced(after, i as int, key@);
                    }
                }
                Some(&mut self.values[i])
            },
            None => None,
        }
    }

    /// The `i`-th key in the order of insertion.
    pub fn key_at(&self, i: usize) -> (key: &String)
        requires
            self.wf(),
            i < self@.len(),
        ensures
            key@ == self@.order[i as int],
    {
        &self.keys[i]
    }

    /// The value of the `i`-th key in the order of insertion.
    pub fn value_at(&self, i: usize) -> (value: &V)
        requires
            self.wf(),
            i < self@.len(),
        ensures
            value@ == self@.value_at(i as int),
            *value == self.stored(i as int),
    {
        proof {
            self.lemma_stored(i as int);
        }
        &self.values[i]
    }

    /// Maps `key` to `value`. A new key is appended to the order; for a
    /// known key the value is replaced and the former one handed back.
    pub fn insert(&mut self, key: String, value: V) -> (former: Option<V>)
        requires
            old(self).wf(),
        ensures
            final(self).wf(),
            final(self)@ == old(self)@.inserted(key@, value@),
            match former {
                Some(v) => old(self)@.get(key@) == Some(v@),
                None => old(self)@.get(key@) is None,
            },
    {
        let ghost texts = key_texts(self.keys@);
        match self.position(key.as_str()) {
            Some(i) => {
                let ghost given = value@;
                let mut held = value;
                std::mem::swap(&mut self.values[i], &mut held);
                proof {
                    assert(key_texts(self.keys@) == texts);
                    assert(self@.order =~= old(self)@.inserted(key@, given).order);
                    assert(self@.map =~= old(self)@.inserted(key@, given).map);
                }
                Some(held)
            },
            None => {
                self.keys.push(key);
                self.values.push(value);
                proof {
                    let after = key_texts(self.keys@);
                    assert(after =~= texts.push(key@));
                    assert(!texts.contains(key@));
                    assert forall|k: Seq<char>| after.contains(k) <==> (texts.contains(k) || k
                        == key@) by {
                        if after.contains(k) {
                            let j = choose|j: int| 0 <= j < after.len() && after[j] == k;
                            if j < texts.len() {
                                assert(texts[j] == k);
                            }
                        }
                        if texts.contains(k) {
                            let j = choose|j: int| 0 <= j < texts.len() && texts[j] == k;
                            assert(after[j] == k);
                        }
                        if k == key@ {
                            assert(after[texts.len() as int] == k);
                        }
                    }
                    assert forall|k: Seq<char>| texts.contains(k) implies after.index_of(k)
                        == texts.index_of(k) by {
                        let a = after.index_of(k);
                        let b = texts.index_of(k);
                        assert(after.contains(k));
                        assert(after[b] == k);
                    }
                    assert(after.index_of(key@) == texts.len()) by {
                        assert(after[texts.len() as int] == key@);
                    }
                    assert(self@.map =~= old(self)@.inserted(key@, value@).map);
                }
                None
            },
        }
    }

    /// Removes `key` and hands its value back; the other keys keep their
    /// order. Nothing changes when `key` is not a key.
    pub fn remove(&mut self, key: &str) -> (former: Option<V>)
        requires
            old(self).wf(),
        ensures
            final(self).wf(),
            final(self)@ == old(self)@.removed(key@),
            match former {
                Some(v) => old(self)@.get(key@) == Some(v@),
                None => old(self)@.get(key@) is None && final(self)@ == old(self)@,
            },
    {
        let ghost texts = key_texts(self.keys@);
        match self.position(key) {
            Some(i) => {
                self.keys.remove(i);
                let value = self.values.remove(i);
                proof {
                    let after = key_texts(self.keys@);
                    let at = i as int;
                    assert(after =~= texts.remove(at));
                    assert forall|k: Seq<char>| after.contains(k) <==> (texts.contains(k) && k
                        != key@) by {
                        if after.contains(k) {
                            let j = choose|j: int| 0 <= j < after.len() && after[j] == k;
                            if j < at {
                                assert(texts[j] == k);
                            } else {
                                assert(texts[j + 1] == k);
                            }
                        }
                        if texts.contains(k) && k != key@ {
                            let j = choose|j: int| 0 <= j < texts.len() && texts[j] == k;
                            if j < at {
                                assert(after[j] == k);
                            } else {
                                assert(after[j - 1] == k);
                            }
                        }
                    }
                    assert forall|k: Seq<char>| after.contains(k) implies self.values@[after.index_of(
                        k,
                    )] == old(self).values@[texts.index_of(k)] by {
                        let a = after.index_of(k);
                        let b = texts.index_of(k);
                        assert(texts.contains(k));
                        if a < at {
                            assert(texts[a] == k);
                        } else {
                            assert(texts[a + 1] == k);
                        }
                    }
                    assert(self@.map =~= old(self)@.removed(key@).map);
                }
                Some(value)
            },
            None => {
                proof {
                    assert(self@.map =~= old(self)@.removed(key@).map);
                }
                None
            },
        }
    }

    /// Takes the oldest key and its value out of the registry.
    pub fn pop_front(&mut self) -> (front: Option<(String, V)>)
        requires
            old(self).wf(),
        ensures
            final(self).wf(),
            match front {
                Some((k, v)) => old(self)@.len() > 0 && k@ == old(self)@.order[0]
                    && v@ == old(self)@.value_at(0)
                    && final(self)@ == old(self)@.removed(old(self)@.order[0])
                    && final(self)@.order == old(self)@.order.skip(1),
                None => old(self)@.len() == 0 && final(self)@ == old(self)@,
            },
    {
        if self.keys.len() == 0 {
            return None;
        }
        let ghost texts = key_texts(self.keys@);
        proof {
            self.lemma_stored(0);
            assert(texts.contains(texts[0]));
            assert(texts.index_of(texts[0]) == 0);
        }
        let key = self.keys.remove(0);
        let value = self.values.remove(0);
        proof {
            let after = key_texts(self.keys@);
            assert(after =~= texts.remove(0));
            assert(after =~= texts.skip(1));
            assert forall|k: Seq<char>| after.contains(k) <==> (texts.contains(k) && k
                != key@) by {
                if after.contains(k) {
                    let j = choose|j: int| 0 <= j < after.len() && after[j] == k;
                    assert(texts[j + 1] == k);
                }
                if texts.contains(k) && k != key@ {
                    let j = choose|j: int| 0 <= j < texts.len() && texts[j] == k;
                    assert(after[j - 1] == k);
                }
            }
            assert forall|k: Seq<char>| after.contains(k) implies self.values@[after.index_of(k)]
                == old(self).values@[texts.index_of(k)] by {
                let a = after.index_of(k);
                assert(texts.contains(k));
                assert(texts[a + 1] == k);
            }
            assert(self@.map =~= old(self)@.removed(key@).map);
        }
        Some((key, value))
    }
}

} // verus!
