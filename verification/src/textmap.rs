//! Maps from texts to values, with their keys in ascending order.

use vstd::prelude::*;

use crate::order::{
    before, lemma_before_asymmetric, lemma_before_irreflexive, lemma_before_total,
    lemma_before_transitive, text_before,
};
use crate::text::{same, texts};

verus! {

/// A map whose keys are texts. The entries stand in the order of their keys,
/// and no key stands twice.
#[derive(Debug, PartialEq)]
pub struct TextMap<V> {
    entries: Vec<(String, V)>,
}

/// Tells whether some entry has the key `k`.
pub open spec fn has_key<V>(s: Seq<(String, V)>, k: Seq<char>) -> bool {
    exists|i: int| 0 <= i < s.len() && (#[trigger] s[i]).0@ == k
}

/// The index of an entry with the key `k`.
pub open spec fn key_index<V>(s: Seq<(String, V)>, k: Seq<char>) -> int {
    choose|i: int| 0 <= i < s.len() && (#[trigger] s[i]).0@ == k
}

/// The keys ascend.
pub open spec fn ascending<V>(s: Seq<(String, V)>) -> bool {
    forall|i: int, j: int|
        0 <= i < j < s.len() ==> before((#[trigger] s[i]).0@, (#[trigger] s[j]).0@)
}

/// The map that a list of entries stands for.
pub open spec fn map_of<V>(s: Seq<(String, V)>) -> Map<Seq<char>, V> {
    Map::new(|k: Seq<char>| has_key(s, k), |k: Seq<char>| s[key_index(s, k)].1)
}

proof fn lemma_unique<V>(s: Seq<(String, V)>, i: int)
    requires
        ascending(s),
        0 <= i < s.len(),
    ensures
        has_key(s, s[i].0@),
        key_index(s, s[i].0@) == i,
        map_of(s).contains_key(s[i].0@),
        map_of(s)[s[i].0@] == s[i].1,
{
    let k = s[i].0@;
    assert(s[i].0@ == k);
    let j = key_index(s, k);
    assert(0 <= j < s.len() && s[j].0@ == k);
    if i < j {
        lemma_before_irreflexive(k);
    }
    if j < i {
        lemma_before_irreflexive(k);
    }
}

impl<V> View for TextMap<V> {
    type V = Map<Seq<char>, V>;

    closed spec fn view(&self) -> Map<Seq<char>, V> {
        map_of(self.entries@)
    }
}

impl<V> TextMap<V> {
    /// The keys ascend, so that none stands twice.
    pub closed spec fn wf(&self) -> bool {
        ascending(self.entries@)
    }

    /// The entries in the order of their keys.
    pub closed spec fn list(&self) -> Seq<(String, V)> {
        self.entries@
    }

    /// The list holds the map: each entry once, the keys ascending.
    pub proof fn list_is_the_map(&self)
        requires
            self.wf(),
        ensures
            ascending(self.list()),
            forall|i: int|
                0 <= i < self.list().len() ==> self@.contains_key((#[trigger] self.list()[i]).0@)
                    && self@[self.list()[i].0@] == self.list()[i].1,
            forall|k: Seq<char>| #[trigger]
                self@.contains_key(k) ==> has_key(self.list(), k),
    {
        assert forall|i: int| 0 <= i < self.list().len() implies self@.contains_key(
            (#[trigger] self.list()[i]).0@,
        ) && self@[self.list()[i].0@] == self.list()[i].1 by {
            lemma_unique(self.entries@, i);
        }
    }

    /// The empty map.
    pub fn new() -> (r: Self)
        ensures
            r.wf(),
            r@ == Map::<Seq<char>, V>::empty(),
    {
        let r = TextMap { entries: Vec::new() };
        assert(r@ =~= Map::<Seq<char>, V>::empty());
        r
    }

    /// The least index whose key does not come before `key`.
    fn lower_bound(&self, key: &str) -> (r: usize)
        requires
            self.wf(),
        ensures
            r <= self.entries@.len(),
            forall|i: int| 0 <= i < r ==> before((#[trigger] self.entries@[i]).0@, key@),
            r < self.entries@.len() ==> !before(self.entries@[r as int].0@, key@),
    {
        let mut i: usize = 0;
        while i < self.entries.len() && text_before(self.entries[i].0.as_str(), key)
            invariant
                i <= self.entries@.len(),
                forall|j: int| 0 <= j < i ==> before((#[trigger] self.entries@[j]).0@, key@),
            decreases self.entries@.len() - i,
        {
            i += 1;
        }
        i
    }

    /// Finds the entry with the key `key`.
    fn index_of(&self, key: &str) -> (r: Option<usize>)
        requires
            self.wf(),
        ensures
            match r {
                Some(i) => i < self.entries@.len() && self.entries@[i as int].0@ == key@,
                None => !has_key(self.entries@, key@),
            },
    {
        let i = self.lower_bound(key);
        if i < self.entries.len() && same(self.entries[i].0.as_str(), key) {
            Some(i)
        } else {
            proof {
                if has_key(self.entries@, key@) {
                    let j = key_index(self.entries@, key@);
                    assert(self.entries@[j].0@ == key@);
                    if j < i {
                        lemma_before_irreflexive(key@);
                    } else if j > i {
                        assert(before(self.entries@[i as int].0@, self.entries@[j].0@));
                    }
                }
            }
            None
        }
    }

    /// The value at `key`.
    pub fn get(&self, key: &str) -> (r: Option<&V>)
        requires
            self.wf(),
        ensures
            match r {
                Some(v) => self@.contains_key(key@) && self@[key@] == *v,
                None => !self@.contains_key(key@),
            },
    {
        match self.index_of(key) {
            Some(i) => {
                proof {
                    lemma_unique(self.entries@, i as int);
                }
                Some(&self.entries[i].1)
            },
            None => None,
        }
    }

    /// Tells whether `key` has a value.
    pub fn contains_key(&self, key: &str) -> (r: bool)
        requires
            self.wf(),
        ensures
            r == self@.contains_key(key@),
    {
        match self.get(key) {
            Some(_) => true,
            None => false,
        }
    }

    /// Sets the value at `key`.
    pub fn insert(&mut self, key: String, value: V)
        requires
            old(self).wf(),
        ensures
            final(self).wf(),
            final(self)@ == old(self)@.insert(key@, value),
    {
        let ghost s = self.entries@;
        let ghost k = key@;
        let ghost v = value;
        let i = self.lower_bound(key.as_str());
        if i < self.entries.len() && same(self.entries[i].0.as_str(), key.as_str()) {
            self.entries[i].1 = value;
            let ghost t = self.entries@;
            proof {
                assert(t.len() == s.len());
                assert forall|j: int| 0 <= j < s.len() implies (#[trigger] t[j]).0@ == s[j].0@ by {}
                assert(ascending(t)) by {
                    assert forall|a: int, b: int| 0 <= a < b < t.len() implies before(
                        (#[trigger] t[a]).0@,
                        (#[trigger] t[b]).0@,
                    ) by {
                        assert(before(s[a].0@, s[b].0@));
                    }
                }
                lemma_unique(t, i as int);
                lemma_unique(s, i as int);
                assert(map_of(t) =~= map_of(s).insert(k, v)) by {
                    assert forall|q: Seq<char>| map_of(t).contains_key(q) <==> map_of(s).insert(
                        k,
                        v,
                    ).contains_key(q) by {
                        if has_key(t, q) {
                            let j = key_index(t, q);
                            assert(s[j].0@ == q);
                        }
                        if has_key(s, q) {
                            let j = key_index(s, q);
                            assert(t[j].0@ == q);
                        }
                    }
                    assert forall|q: Seq<char>| map_of(t).contains_key(q) implies map_of(t)[q]
                        == map_of(s).insert(k, v)[q] by {
                        let j = key_index(t, q);
                        lemma_unique(t, j);
                        assert(s[j].0@ == q);
                        lemma_unique(s, j);
                        if j == i {
                            assert(q == k);
                        } else {
                            assert(t[j] == s[j]);
                            if q == k {
                                assert(j == key_index(s, k));
                            }
                        }
                    }
                }
            }
        } else {
            self.entries.insert(i, (key, value));
            let ghost t = self.entries@;
            proof {
                assert(t == s.insert(i as int, (key, value)));
                if i < s.len() {
                    lemma_before_total(s[i as int].0@, k);
                    assert(before(k, s[i as int].0@));
                }
                assert forall|a: int, b: int| 0 <= a < b < t.len() implies before(
                    (#[trigger] t[a]).0@,
                    (#[trigger] t[b]).0@,
                ) by {
                    if a == i {
                        assert(t[b] == s[b - 1]);
                        if b - 1 > i {
                            assert(before(s[i as int].0@, s[b - 1].0@));
                            lemma_before_transitive(k, s[i as int].0@, s[b - 1].0@);
                        }
                    } else if b == i {
                        assert(t[a] == s[a]);
                    } else {
                        let a0 = if a < i { a } else { a - 1 };
                        let b0 = if b < i { b } else { b - 1 };
                        assert(t[a] == s[a0]);
                        assert(t[b] == s[b0]);
                        assert(before(s[a0].0@, s[b0].0@));
                    }
                }
                assert(map_of(t) =~= map_of(s).insert(k, v)) by {
                    lemma_unique(t, i as int);
                    assert forall|q: Seq<char>| map_of(t).contains_key(q) <==> map_of(s).insert(
                        k,
                        v,
                    ).contains_key(q) by {
                        if has_key(t, q) {
                            let j = key_index(t, q);
                            if j < i {
                                assert(s[j].0@ == q);
                            } else if j > i {
                                assert(s[j - 1].0@ == q);
                            }
                        }
                        if has_key(s, q) {
                            let j = key_index(s, q);
                            if j < i {
                                assert(t[j].0@ == q);
                            } else {
                                assert(t[j + 1].0@ == q);
                            }
                        }
                    }
                    assert forall|q: Seq<char>| map_of(t).contains_key(q) implies map_of(t)[q]
                        == map_of(s).insert(k, v)[q] by {
                        let j = key_index(t, q);
                        lemma_unique(t, j);
                        if j != i {
                            let j0 = if j < i { j } else { j - 1 };
                            assert(t[j] == s[j0]);
                            lemma_unique(s, j0);
                            if q == k {
                                assert(key_index(t, k) == i);
                            }
                        }
                    }
                }
            }
        }
    }

    /// Takes the value at `key` out of the map.
    pub fn remove(&mut self, key: &str) -> (r: Option<V>)
        requires
            old(self).wf(),
        ensures
            final(self).wf(),
            final(self)@ == old(self)@.remove(key@),
            match r {
                Some(v) => old(self)@.contains_key(key@) && old(self)@[key@] == v,
                None => !old(self)@.contains_key(key@),
            },
    {
        let ghost s = self.entries@;
        let ghost k = key@;
        match self.index_of(key) {
            Some(i) => {
                let (_, v) = self.entries.remove(i);
                let ghost t = self.entries@;
                proof {
                    assert(t == s.remove(i as int));
                    lemma_unique(s, i as int);
                    assert forall|a: int, b: int| 0 <= a < b < t.len() implies before(
                        (#[trigger] t[a]).0@,
                        (#[trigger] t[b]).0@,
                    ) by {
                        let a0 = if a < i { a } else { a + 1 };
                        let b0 = if b < i { b } else { b + 1 };
                        assert(t[a] == s[a0]);
                        assert(t[b] == s[b0]);
                        assert(before(s[a0].0@, s[b0].0@));
                    }
                    assert forall|q: Seq<char>| map_of(t).contains_key(q) <==> map_of(s).remove(
                        k,
                    ).contains_key(q) by {
                        if has_key(t, q) {
                            let j = key_index(t, q);
                            let j0 = if j < i { j } else { j + 1 };
                            assert(s[j0].0@ == q);
                            lemma_unique(s, j0);
                        }
                        if has_key(s, q) && q != k {
                            let j = key_index(s, q);
                            let j0 = if j < i { j } else { j - 1 };
                            assert(t[j0].0@ == q);
                        }
                    }
                    assert forall|q: Seq<char>| map_of(t).contains_key(q) implies map_of(t)[q]
                        == map_of(s).remove(k)[q] by {
                        let j = key_index(t, q);
                        lemma_unique(t, j);
                        let j0 = if j < i { j } else { j + 1 };
                        assert(t[j] == s[j0]);
                        lemma_unique(s, j0);
                    }
                    assert(map_of(t) =~= map_of(s).remove(k));
                }
                Some(v)
            },
            None => {
                assert(map_of(s) =~= map_of(s).remove(k));
                None
            },
        }
    }

    /// The keys, each once, in ascending order.
    pub fn keys(&self) -> (r: Vec<String>)
        requires
            self.wf(),
        ensures
            r@.len() == self.list().len(),
            forall|i: int| 0 <= i < r@.len() ==> (#[trigger] r@[i])@ == self.list()[i].0@,
            forall|i: int| 0 <= i < r@.len() ==> self@.contains_key((#[trigger] r@[i])@),
            forall|k: Seq<char>| #[trigger]
                self@.contains_key(k) ==> texts(r@).contains(k),
            forall|i: int, j: int| 0 <= i < j < r@.len() ==> r@[i]@ != r@[j]@,
    {
        let mut out: Vec<String> = Vec::new();
        let mut i: usize = 0;
        while i < self.entries.len()
            invariant
                i <= self.entries@.len(),
                out@.len() == i,
                forall|j: int| 0 <= j < i ==> (#[trigger] out@[j])@ == self.entries@[j].0@,
            decreases self.entries@.len() - i,
        {
            out.push(self.entries[i].0.clone());
            i += 1;
        }
        proof {
            self.list_is_the_map();
            assert forall|k: Seq<char>| #[trigger] self@.contains_key(k) implies texts(
                out@,
            ).contains(k) by {
                let j = key_index(self.list(), k);
                assert(self.list()[j].0@ == k);
                assert(texts(out@)[j] == k);
            }
            assert forall|a: int, b: int| 0 <= a < b < out@.len() implies out@[a]@ != out@[b]@ by {
                lemma_ascending_strict(self.list(), a, b);
            }
        }
        out
    }

    /// How many keys have a value.
    pub fn len(&self) -> (r: usize)
        ensures
            r == self.list().len(),
    {
        self.entries.len()
    }

    /// The entries in the order of their keys.
    pub fn entries(&self) -> (r: &Vec<(String, V)>)
        ensures
            r@ == self.list(),
    {
        &self.entries
    }
}

/// Two keys that are both in place come in one order only.
pub proof fn lemma_ascending_strict<V>(s: Seq<(String, V)>, i: int, j: int)
    requires
        ascending(s),
        0 <= i < j < s.len(),
    ensures
        s[i].0@ != s[j].0@,
        !before(s[j].0@, s[i].0@),
{
    lemma_before_asymmetric(s[i].0@, s[j].0@);
    lemma_before_irreflexive(s[i].0@);
}

} // verus!
