//! A map from text to values that keeps the order in which its keys came.

use crate::text::str_eq;
use vstd::prelude::*;

verus! {

/// A map with text keys. Each key occurs once, in the order of its first insertion.
#[derive(Debug)]
#[verifier::reject_recursive_types(V)]
pub struct StringMap<V> {
    entries: Vec<(String, V)>,
}

pub closed spec fn keys_of<V>(entries: Seq<(String, V)>) -> Seq<Seq<char>> {
    entries.map_values(|e: (String, V)| e.0@)
}

pub closed spec fn map_of<V>(entries: Seq<(String, V)>) -> Map<Seq<char>, V> {
    Map::new(
        |k: Seq<char>| keys_of(entries).contains(k),
        |k: Seq<char>| entries[keys_of(entries).index_of(k)].1,
    )
}

impl<V> View for StringMap<V> {
    type V = Map<Seq<char>, V>;

    closed spec fn view(&self) -> Map<Seq<char>, V> {
        map_of(self.entries@)
    }
}

/// With distinct keys, the value under a key is the one beside it.
proof fn lemma_map_of<V>(entries: Seq<(String, V)>)
    requires
        keys_of(entries).no_duplicates(),
    ensures
        forall|i: int|
            0 <= i < entries.len() ==> map_of(entries).contains_key((#[trigger] entries[i]).0@)
                && map_of(entries)[entries[i].0@] == entries[i].1,
        forall|k: Seq<char>| #[trigger]
            map_of(entries).contains_key(k) <==> keys_of(entries).contains(k),
{
    let keys = keys_of(entries);
    assert forall|i: int| 0 <= i < entries.len() implies map_of(entries).contains_key(
        (#[trigger] entries[i]).0@,
    ) && map_of(entries)[entries[i].0@] == entries[i].1 by {
        assert(keys[i] == entries[i].0@);
        assert(keys.contains(keys[i]));
    };
}

impl<V> StringMap<V> {
    #[verifier::type_invariant]
    closed spec fn inv(self) -> bool {
        keys_of(self.entries@).no_duplicates()
    }

    /// The keys, in the order in which they first came.
    pub closed spec fn key_order(self) -> Seq<Seq<char>> {
        keys_of(self.entries@)
    }

    pub fn new() -> (r: Self)
        ensures
            r@ == Map::<Seq<char>, V>::empty(),
            r.key_order() == Seq::<Seq<char>>::empty(),
    {
        let r = StringMap { entries: Vec::new() };
        assert(keys_of(r.entries@) =~= Seq::<Seq<char>>::empty());
        assert(r@ =~= Map::<Seq<char>, V>::empty());
        r
    }

    /// The number of keys.
    pub fn len(&self) -> (n: usize)
        ensures
            n == self.key_order().len(),
            self.key_order().no_duplicates(),
            self.key_order().to_set() == self@.dom(),
    {
        proof {
            use_type_invariant(self);
            lemma_map_of(self.entries@);
            assert(self.key_order().to_set() =~= self@.dom());
        }
        self.entries.len()
    }

    /// Where a key stands, or the number of keys where it is absent.
    fn position(&self, key: &str) -> (i: usize)
        ensures
            i <= self.entries@.len(),
            i < self.entries@.len() ==> self.entries@[i as int].0@ == key@,
            i == self.entries@.len() ==> !self.key_order().contains(key@),
    {
        let mut i: usize = 0;
        while i < self.entries.len()
            invariant
                i <= self.entries@.len(),
                forall|j: int| 0 <= j < i ==> (#[trigger] self.entries@[j]).0@ != key@,
            decreases self.entries@.len() - i,
        {
            if str_eq(self.entries[i].0.as_str(), key) {
                return i;
            }
            i = i + 1;
        }
        assert forall|j: int| 0 <= j < self.key_order().len() implies self.key_order()[j] != key@ by {
            assert(self.entries@[j].0@ != key@);
        };
        i
    }

    /// The value under a key.
    pub fn get(&self, key: &str) -> (r: Option<&V>)
        ensures
            match r {
                Some(v) => self@.contains_key(key@) && *v == self@[key@],
                None => !self@.contains_key(key@),
            },
    {
        proof {
            use_type_invariant(self);
            lemma_map_of(self.entries@);
        }
        let i = self.position(key);
        if i < self.entries.len() {
            Some(&self.entries[i].1)
        } else {
            None
        }
    }

    /// Whether a key is present.
    pub fn contains_key(&self, key: &str) -> (r: bool)
        ensures
            r == self@.contains_key(key@),
    {
        match self.get(key) {
            Some(_) => true,
            None => false,
        }
    }

    /// Puts a value under a key, in place of an earlier one.
    pub fn insert(&mut self, key: String, value: V)
        ensures
            final(self)@ == old(self)@.insert(key@, value),
            final(self).key_order() == if old(self)@.contains_key(key@) {
                old(self).key_order()
            } else {
                old(self).key_order().push(key@)
            },
    {
        proof {
            use_type_invariant(&*self);
            lemma_map_of(self.entries@);
        }
        let i = self.position(key.as_str());
        let ghost before = self.entries@;
        let ghost k = key@;
        let mut entries: Vec<(String, V)> = Vec::new();
        std::mem::swap(&mut entries, &mut self.entries);
        if i < entries.len() {
            entries.set(i, (key, value));
            proof {
                assert(keys_of(entries@) =~= keys_of(before)) by {
                    assert forall|j: int| 0 <= j < before.len() implies keys_of(entries@)[j]
                        == keys_of(before)[j] by {};
                };
                lemma_map_of(entries@);
                assert(map_of(entries@) =~= map_of(before).insert(k, value)) by {
                    assert forall|q: Seq<char>| map_of(entries@).contains_key(q) implies map_of(
                        entries@,
                    )[q] == map_of(before).insert(k, value)[q] by {
                        let j = keys_of(entries@).index_of(q);
                        assert(entries@[j].0@ == q);
                        if j != i {
                            assert(keys_of(before)[j] == q && keys_of(before)[i as int] == k);
                            assert(before[j] == entries@[j]);
                        } else {
                            assert(q == k);
                        }
                    };
                    assert(keys_of(before)[i as int] == k);
                };
            }
        } else {
            entries.push((key, value));
            proof {
                assert(keys_of(entries@) =~= keys_of(before).push(k));
                lemma_map_of(entries@);
                assert(entries@[before.len() as int].0@ == k);
                assert(map_of(entries@) =~= map_of(before).insert(k, value)) by {
                    assert forall|q: Seq<char>|
                        map_of(entries@).contains_key(q) == map_of(before).insert(
                            k,
                            value,
                        ).contains_key(q) by {
                        if keys_of(before).contains(q) {
                            let j = keys_of(before).index_of(q);
                            assert(keys_of(entries@)[j] == q);
                        }
                        if q == k {
                            assert(keys_of(entries@)[before.len() as int] == k);
                        }
                    };
                    assert forall|q: Seq<char>| map_of(entries@).contains_key(q) implies map_of(
                        entries@,
                    )[q] == map_of(before).insert(k, value)[q] by {
                        let j = keys_of(entries@).index_of(q);
                        assert(entries@[j].0@ == q);
                        if j < before.len() {
                            assert(keys_of(before)[j] == q);
                            assert(before[j] == entries@[j]);
                        } else {
                            assert(q == k);
                        }
                    };
                };
            }
        }
        std::mem::swap(&mut entries, &mut self.entries);
    }

    /// The key and the value at a place in the order of the keys.
    pub fn entry(&self, i: usize) -> (r: (&String, &V))
        requires
            i < self.key_order().len(),
        ensures
            r.0@ == self.key_order()[i as int],
            self@.contains_key(r.0@),
            *r.1 == self@[r.0@],
    {
        proof {
            use_type_invariant(self);
            lemma_map_of(self.entries@);
        }
        let e = &self.entries[i];
        assert(*e == self.entries@[i as int]);
        (&e.0, &e.1)
    }

    /// All keys, in their order; each of them once.
    pub fn keys(&self) -> (r: Vec<String>)
        ensures
            r@.map_values(|s: String| s@) == self.key_order(),
            self.key_order().no_duplicates(),
            self.key_order().to_set() == self@.dom(),
    {
        proof {
            use_type_invariant(self);
            lemma_map_of(self.entries@);
        }
        let mut r: Vec<String> = Vec::new();
        let mut i: usize = 0;
        while i < self.entries.len()
            invariant
                i <= self.entries@.len(),
                r@.len() == i,
                forall|j: int| 0 <= j < i ==> (#[trigger] r@[j])@ == self.entries@[j].0@,
            decreases self.entries@.len() - i,
        {
            r.push(self.entries[i].0.clone());
            i = i + 1;
        }
        assert(r@.map_values(|s: String| s@) =~= self.key_order());
        assert(self.key_order().to_set() =~= self@.dom());
        r
    }
}

impl<V: Clone> Clone for StringMap<V> {
    fn clone(&self) -> (r: Self)
        ensures
            r.key_order() == self.key_order(),
            r@.dom() == self@.dom(),
            forall|k: Seq<char>| #[trigger]
                self@.contains_key(k) ==> cloned::<V>(self@[k], r@[k]),
    {
        proof {
            use_type_invariant(self);
        }
        let mut entries: Vec<(String, V)> = Vec::new();
        let mut i: usize = 0;
        while i < self.entries.len()
            invariant
                i <= self.entries@.len(),
                entries@.len() == i,
                forall|j: int|
                    0 <= j < i ==> (#[trigger] entries@[j]).0@ == self.entries@[j].0@ && cloned::<V>(
                        self.entries@[j].1,
                        entries@[j].1,
                    ),
            decreases self.entries@.len() - i,
        {
            let e = &self.entries[i];
            entries.push((e.0.clone(), e.1.clone()));
            i = i + 1;
        }
        assert(keys_of(entries@) =~= keys_of(self.entries@));
        proof {
            lemma_map_of(entries@);
            lemma_map_of(self.entries@);
            assert(map_of(entries@).dom() =~= map_of(self.entries@).dom());
            assert forall|k: Seq<char>| #[trigger] self@.contains_key(k) implies cloned::<V>(
                self@[k],
                map_of(entries@)[k],
            ) by {
                let j = keys_of(entries@).index_of(k);
                assert(entries@[j].0@ == k);
                assert(self.entries@[j].0@ == k);
            };
        }
        StringMap { entries }
    }
}

} // verus!
