//! A small map keyed by path strings.
//!
//! Keys are compared by their characters, so the mathematical model of a
//! `PathMap<V>` is a `Map<Seq<char>, V::V>`. The entries are kept in insertion
//! order in a vector in which no key occurs twice.

use vstd::prelude::*;

verus! {

/// A finite map from strings to values, modelled by `Map<Seq<char>, V::V>`.
pub struct PathMap<V> {
    entries: Vec<(String, V)>,
}

/// No two entries of `s` have the same key.
pub open spec fn distinct_keys<V>(s: Seq<(String, V)>) -> bool {
    forall|i: int, j: int| 0 <= i < j < s.len() ==> s[i].0@ != s[j].0@
}

/// Some entry of `s` has the key `k`.
pub open spec fn has_key<V>(s: Seq<(String, V)>, k: Seq<char>) -> bool {
    exists|i: int| 0 <= i < s.len() && #[trigger] s[i].0@ == k
}

/// The position of an entry of `s` with the key `k`.
pub open spec fn index_of_key<V>(s: Seq<(String, V)>, k: Seq<char>) -> int {
    choose|i: int| 0 <= i < s.len() && #[trigger] s[i].0@ == k
}

/// The map that a sequence of entries with distinct keys stands for.
pub open spec fn entries_map<V: DeepView>(s: Seq<(String, V)>) -> Map<Seq<char>, V::V> {
    Map::new(
        |k: Seq<char>| has_key(s, k),
        |k: Seq<char>| s[index_of_key(s, k)].1.deep_view(),
    )
}

/// With distinct keys, the entry at `i` is the one that its key is mapped to.
pub proof fn lemma_entry_in_map<V: DeepView>(s: Seq<(String, V)>, i: int)
    requires
        distinct_keys(s),
        0 <= i < s.len(),
    ensures
        has_key(s, s[i].0@),
        index_of_key(s, s[i].0@) == i,
        entries_map(s).contains_key(s[i].0@),
        entries_map(s)[s[i].0@] == s[i].1.deep_view(),
{
    let k = s[i].0@;
    assert(s[i].0@ == k);
    let j = index_of_key(s, k);
    assert(0 <= j < s.len() && s[j].0@ == k);
    if j != i {
        if j < i {
            assert(s[j].0@ != s[i].0@);
        } else {
            assert(s[i].0@ != s[j].0@);
        }
    }
}

impl<V: DeepView> View for PathMap<V> {
    type V = Map<Seq<char>, V::V>;

    closed spec fn view(&self) -> Map<Seq<char>, V::V> {
        entries_map(self.entries@)
    }
}

impl<V> PathMap<V> {
    #[verifier::type_invariant]
    spec fn distinct(self) -> bool {
        distinct_keys(self.entries@)
    }
}

impl<V: DeepView> PathMap<V> {
    /// The entries in insertion order, as the model sees them.
    pub closed spec fn pairs(&self) -> Seq<(Seq<char>, V::V)> {
        Seq::new(self.entries@.len(), |i: int| (self.entries@[i].0@, self.entries@[i].1.deep_view()))
    }

    /// The empty map.
    pub fn new() -> (out: Self)
        ensures
            out@ == Map::<Seq<char>, V::V>::empty(),
            out.pairs() == Seq::<(Seq<char>, V::V)>::empty(),
    {
        let out = PathMap { entries: Vec::new() };
        assert(out@ =~= Map::<Seq<char>, V::V>::empty());
        assert(out.pairs() =~= Seq::<(Seq<char>, V::V)>::empty());
        out
    }

    /// The position of `key` among the entries, if it is a key of the map.
    fn position(&self, key: &String) -> (out: Option<usize>)
        ensures
            match out {
                Some(i) => i < self.entries@.len() && self.entries@[i as int].0@ == key@,
                None => !has_key(self.entries@, key@),
            },
    {
        let mut i: usize = 0;
        while i < self.entries.len()
            invariant
                i <= self.entries@.len(),
                forall|j: int| 0 <= j < i ==> self.entries@[j].0@ != key@,
            decreases self.entries@.len() - i,
        {
            if self.entries[i].0 == *key {
                return Some(i);
            }
            i += 1;
        }
        None
    }

    /// Whether `key` is a key of the map.
    pub fn contains_key(&self, key: &String) -> (out: bool)
        ensures
            out == self@.contains_key(key@),
    {
        self.position(key).is_some()
    }

    /// The value stored under `key`, if there is one.
    pub fn get(&self, key: &String) -> (out: Option<&V>)
        ensures
            match out {
                Some(v) => self@.contains_key(key@) && self@[key@] == v.deep_view(),
                None => !self@.contains_key(key@),
            },
    {
        proof {
            use_type_invariant(self);
        }
        match self.position(key) {
            Some(i) => {
                proof {
                    lemma_entry_in_map(self.entries@, i as int);
                }
                Some(&self.entries[i].1)
            },
            None => None,
        }
    }

    /// Stores `value` under `key`, replacing what was stored there.
    pub fn insert(&mut self, key: String, value: V)
        ensures
            final(self)@ == old(self)@.insert(key@, value.deep_view()),
    {
        proof {
            use_type_invariant(&*self);
        }
        let found = self.position(&key);
        let mut entries: Vec<(String, V)> = Vec::new();
        std::mem::swap(&mut entries, &mut self.entries);
        let ghost before = entries@;
        let ghost k = key@;
        let ghost v = value.deep_view();
        match found {
            Some(i) => {
                entries.set(i, (key, value));
                proof {
                    let after = entries@;
                    assert(distinct_keys(after)) by {
                        assert forall|a: int, b: int| 0 <= a < b < after.len() implies after[a].0@
                            != after[b].0@ by {
                            assert(after[a].0@ == before[a].0@);
                            assert(after[b].0@ == before[b].0@);
                        }
                    }
                    assert forall|q: Seq<char>| has_key(after, q) == has_key(before, q) by {
                        if has_key(after, q) {
                            let a = index_of_key(after, q);
                            assert(before[a].0@ == q);
                        }
                        if has_key(before, q) {
                            let a = index_of_key(before, q);
                            assert(after[a].0@ == q);
                        }
                    }
                    assert forall|q: Seq<char>| has_key(after, q) implies entries_map(after)[q]
                        == entries_map(before).insert(k, v)[q] by {
                        let a = index_of_key(after, q);
                        lemma_entry_in_map(after, a);
                        lemma_entry_in_map(before, a);
                    }
                    lemma_entry_in_map(before, i as int);
                    assert(entries_map(after) =~= entries_map(before).insert(k, v));
                }
            },
            None => {
                entries.push((key, value));
                proof {
                    let after = entries@;
                    let n = before.len() as int;
                    assert(distinct_keys(after)) by {
                        assert forall|a: int, b: int| 0 <= a < b < after.len() implies after[a].0@
                            != after[b].0@ by {
                            if b < n {
                                assert(after[a].0@ == before[a].0@);
                                assert(after[b].0@ == before[b].0@);
                            } else {
                                assert(before[a].0@ != k);
                            }
                        }
                    }
                    assert(after[n].0@ == k);
                    assert forall|q: Seq<char>| has_key(after, q) == (has_key(before, q) || q
                        == k) by {
                        if has_key(after, q) {
                            let a = index_of_key(after, q);
                            if a < n {
                                assert(before[a].0@ == q);
                            }
                        }
                        if has_key(before, q) {
                            let a = index_of_key(before, q);
                            assert(after[a].0@ == q);
                        }
                    }
                    assert forall|q: Seq<char>| has_key(after, q) implies entries_map(after)[q]
                        == entries_map(before).insert(k, v)[q] by {
                        let a = index_of_key(after, q);
                        lemma_entry_in_map(after, a);
                        if a < n {
                            assert(before[a].0@ == q);
                            lemma_entry_in_map(before, a);
                        }
                    }
                    assert(entries_map(after) =~= entries_map(before).insert(k, v));
                }
            },
        }
        self.entries = entries;
    }

    /// Removes `key` and what is stored under it, if it is a key of the map.
    pub fn remove(&mut self, key: &String)
        ensures
            final(self)@ == old(self)@.remove(key@),
    {
        proof {
            use_type_invariant(&*self);
        }
        let found = self.position(key);
        let mut entries: Vec<(String, V)> = Vec::new();
        std::mem::swap(&mut entries, &mut self.entries);
        let ghost before = entries@;
        let ghost k = key@;
        match found {
            Some(i) => {
                let _ = entries.remove(i);
                proof {
                    let after = entries@;
                    lemma_remove_entry(before, i as int);
                }
            },
            None => {
                assert(entries_map(before) =~= entries_map(before).remove(k));
            },
        }
        self.entries = entries;
    }

    /// The number of entries.
    pub fn len(&self) -> (out: usize)
        ensures
            out == self.pairs().len(),
    {
        self.entries.len()
    }

    /// The key of the entry at position `i`.
    pub fn key_at(&self, i: usize) -> (out: &String)
        requires
            i < self.pairs().len(),
        ensures
            out@ == self.pairs()[i as int].0,
            self@.contains_key(out@),
            forall|j: int| 0 <= j < self.pairs().len() && j != i ==> self.pairs()[j].0 != out@,
    {
        proof {
            use_type_invariant(self);
            lemma_entry_in_map(self.entries@, i as int);
            assert forall|j: int| 0 <= j < self.pairs().len() && j != i implies self.pairs()[j].0
                != self.entries@[i as int].0@ by {
                if j < i {
                    assert(self.entries@[j].0@ != self.entries@[i as int].0@);
                } else {
                    assert(self.entries@[i as int].0@ != self.entries@[j].0@);
                }
            }
        }
        &self.entries[i].0
    }

    /// The value of the entry at position `i`.
    pub fn value_at(&self, i: usize) -> (out: &V)
        requires
            i < self.pairs().len(),
        ensures
            out.deep_view() == self.pairs()[i as int].1,
            self@[self.pairs()[i as int].0] == out.deep_view(),
    {
        proof {
            use_type_invariant(self);
            lemma_entry_in_map(self.entries@, i as int);
        }
        &self.entries[i].1
    }
}

/// The map `m` without the keys that are mapped to `v`.
pub open spec fn without_value(m: Map<Seq<char>, Seq<char>>, v: Seq<char>) -> Map<
    Seq<char>,
    Seq<char>,
> {
    Map::new(|k: Seq<char>| m.contains_key(k) && m[k] != v, |k: Seq<char>| m[k])
}

impl PathMap<String> {
    /// Removes every key that is mapped to `value`.
    pub fn remove_value(&mut self, value: &String)
        ensures
            final(self)@ == without_value(old(self)@, value@),
    {
        proof {
            use_type_invariant(&*self);
        }
        let mut entries: Vec<(String, String)> = Vec::new();
        std::mem::swap(&mut entries, &mut self.entries);
        let ghost before = entries@;
        let ghost v = value@;
        let mut i: usize = 0;
        while i < entries.len()
            invariant
                i <= entries@.len(),
                v == value@,
                distinct_keys(entries@),
                forall|j: int| 0 <= j < i ==> entries@[j].1@ != v,
                without_value(entries_map(entries@), v) == without_value(entries_map(before), v),
            decreases entries@.len() - i,
        {
            if entries[i].1 == *value {
                let ghost prev = entries@;
                let _ = entries.remove(i);
                proof {
                    lemma_remove_entry(prev, i as int);
                    lemma_entry_in_map(prev, i as int);
                    assert(without_value(entries_map(prev).remove(prev[i as int].0@), v)
                        =~= without_value(entries_map(prev), v));
                }
            } else {
                i += 1;
            }
        }
        proof {
            let s = entries@;
            assert forall|k: Seq<char>| entries_map(s).contains_key(k) implies entries_map(s)[k]
                != v by {
                let a = index_of_key(s, k);
                lemma_entry_in_map(s, a);
            }
            assert(without_value(entries_map(s), v) =~= entries_map(s));
        }
        self.entries = entries;
    }
}

/// Taking the entry at `i` out of `s` removes its key from the map and keeps
/// the keys distinct.
pub proof fn lemma_remove_entry<V: DeepView>(s: Seq<(String, V)>, i: int)
    requires
        distinct_keys(s),
        0 <= i < s.len(),
    ensures
        distinct_keys(s.remove(i)),
        entries_map(s.remove(i)) == entries_map(s).remove(s[i].0@),
{
    let t = s.remove(i);
    let k = s[i].0@;
    assert forall|a: int, b: int| 0 <= a < b < t.len() implies t[a].0@ != t[b].0@ by {
        let a0 = if a < i { a } else { a + 1 };
        let b0 = if b < i { b } else { b + 1 };
        assert(t[a] == s[a0]);
        assert(t[b] == s[b0]);
    }
    assert forall|q: Seq<char>| has_key(t, q) == (has_key(s, q) && q != k) by {
        if has_key(t, q) {
            let a = index_of_key(t, q);
            let a0 = if a < i { a } else { a + 1 };
            assert(t[a] == s[a0]);
            assert(s[a0].0@ == q);
            if a0 < i {
                assert(s[a0].0@ != s[i].0@);
            } else {
                assert(s[i].0@ != s[a0].0@);
            }
        }
        if has_key(s, q) && q != k {
            let a0 = index_of_key(s, q);
            let a = if a0 < i { a0 } else { a0 - 1 };
            assert(t[a] == s[a0]);
            assert(t[a].0@ == q);
        }
    }
    assert forall|q: Seq<char>| has_key(t, q) implies entries_map(t)[q] == entries_map(s).remove(
        k,
    )[q] by {
        let a = index_of_key(t, q);
        let a0 = if a < i { a } else { a + 1 };
        assert(t[a] == s[a0]);
        lemma_entry_in_map(t, a);
        lemma_entry_in_map(s, a0);
    }
    assert(entries_map(t) =~= entries_map(s).remove(k));
}

} // verus!
