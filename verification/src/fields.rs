//! A small map from names to values that remembers the order in which its
//! keys first arrived, and can put them in the order of strings.

use crate::order::{
    insert_point,
    lemma_insert_point,
    lemma_sorted_is_ordered,
    lemma_text_lt_irreflexive,
    lemma_text_lt_total,
    lemma_text_lt_transitive,
    spec_sorted,
    stable_sort,
    text_less,
    text_lt,
    Ranked,
};
use crate::table::view_each;
use vstd::prelude::*;

verus! {

/// Index of the first pair at or after `from` whose key is `key`.
pub open spec fn assoc_find<W>(s: Seq<(Seq<char>, W)>, key: Seq<char>, from: int) -> Option<int>
    decreases s.len() - from,
{
    if from < 0 || from >= s.len() {
        None
    } else if s[from].0 == key {
        Some(from)
    } else {
        assoc_find(s, key, from + 1)
    }
}

/// The value stored under `key`, if any.
pub open spec fn assoc_get<W>(s: Seq<(Seq<char>, W)>, key: Seq<char>) -> Option<W> {
    match assoc_find(s, key, 0) {
        Some(i) => Some(s[i].1),
        None => None,
    }
}

/// The pairs after storing `value` under `key`: a key that is already
/// present keeps its place and takes the new value, a new key goes to the
/// end.
pub open spec fn assoc_insert<W>(s: Seq<(Seq<char>, W)>, key: Seq<char>, value: W) -> Seq<
    (Seq<char>, W),
> {
    match assoc_find(s, key, 0) {
        Some(i) => s.update(i, (key, value)),
        None => s.push((key, value)),
    }
}

/// The pairs without the one stored under `key`, if there is one.
pub open spec fn assoc_remove<W>(s: Seq<(Seq<char>, W)>, key: Seq<char>) -> Seq<(Seq<char>, W)> {
    match assoc_find(s, key, 0) {
        Some(i) => s.remove(i),
        None => s,
    }
}

/// No key occurs twice.
pub open spec fn distinct_keys<W>(s: Seq<(Seq<char>, W)>) -> bool {
    forall|i: int, j: int| 0 <= i < j < s.len() ==> (#[trigger] s[i]).0 != (#[trigger] s[j]).0
}

/// What `assoc_find` returns is the first index that holds the key, and it
/// returns nothing only when no index from `from` on holds it.
pub proof fn lemma_assoc_find<W>(s: Seq<(Seq<char>, W)>, key: Seq<char>, from: int)
    requires
        0 <= from,
    ensures
        match assoc_find(s, key, from) {
            Some(i) => from <= i < s.len() && s[i].0 == key && forall|j: int|
                from <= j < i ==> (#[trigger] s[j]).0 != key,
            None => forall|j: int| from <= j < s.len() ==> (#[trigger] s[j]).0 != key,
        },
    decreases s.len() - from,
{
    if from < s.len() && s[from].0 != key {
        lemma_assoc_find(s, key, from + 1);
    }
}

/// Storing a value keeps the keys distinct, and the stored value is the one
/// found afterwards.
pub proof fn lemma_assoc_insert<W>(s: Seq<(Seq<char>, W)>, key: Seq<char>, value: W)
    requires
        distinct_keys(s),
    ensures
        distinct_keys(assoc_insert(s, key, value)),
        assoc_get(assoc_insert(s, key, value), key) == Some(value),
        assoc_insert(s, key, value).len() == s.len() + (if assoc_find(s, key, 0) is Some {
            0int
        } else {
            1int
        }),
{
    lemma_assoc_find(s, key, 0);
    let t = assoc_insert(s, key, value);
    lemma_assoc_find(t, key, 0);
    match assoc_find(s, key, 0) {
        Some(i) => {
            assert(forall|j: int| 0 <= j < s.len() && j != i ==> t[j] == s[j]);
            assert(t[i].0 == key);
        },
        None => {
            assert(t[s.len() as int].0 == key);
            assert(forall|j: int| 0 <= j < s.len() ==> t[j] == s[j]);
        },
    }
}

impl<V: View> Ranked for (String, V) {
    /// Pairs rank by their keys, in the order of strings.
    open spec fn rank_lt(a: (Seq<char>, V::V), b: (Seq<char>, V::V)) -> bool {
        text_lt(a.0, b.0)
    }

    proof fn lemma_rank_strict(a: (Seq<char>, V::V), b: (Seq<char>, V::V), c: (Seq<char>, V::V)) {
        lemma_text_lt_irreflexive(a.0, 0);
        if text_lt(a.0, b.0) && text_lt(b.0, c.0) {
            lemma_text_lt_transitive(a.0, b.0, c.0, 0);
        }
    }

    fn less(&self, other: &Self) -> (r: bool) {
        text_less(self.0.as_str(), other.0.as_str())
    }
}

/// The pairs in the order of their keys.
pub open spec fn sorted_by_key<V: View>(s: Seq<(Seq<char>, V::V)>) -> Seq<(Seq<char>, V::V)> {
    spec_sorted::<(String, V)>(s)
}

/// Each key comes before the key that follows it, in the order of strings.
pub open spec fn keys_ascending<W>(s: Seq<(Seq<char>, W)>) -> bool {
    forall|i: int, j: int| 0 <= i < j < s.len() ==> text_lt((#[trigger] s[i]).0, (#[trigger] s[j]).0)
}

/// Whether some pair of `s` has the key `key`.
pub open spec fn has_key<W>(s: Seq<(Seq<char>, W)>, key: Seq<char>) -> bool {
    exists|i: int| 0 <= i < s.len() && (#[trigger] s[i]).0 == key
}

/// Sorting keeps the keys: a key occurs after sorting exactly when it
/// occurred before.
pub proof fn lemma_sorted_keeps_keys<V: View>(s: Seq<(Seq<char>, V::V)>, key: Seq<char>)
    ensures
        has_key(sorted_by_key::<V>(s), key) <==> has_key(s, key),
    decreases s.len(),
{
    if s.len() > 0 {
        let rest = s.drop_last();
        let sorted = sorted_by_key::<V>(rest);
        let at = insert_point::<(String, V)>(sorted, s.last(), 0);
        lemma_insert_point::<(String, V)>(sorted, s.last(), 0);
        lemma_sorted_keeps_keys::<V>(rest, key);
        let r = sorted.insert(at, s.last());
        assert(r == sorted_by_key::<V>(s));
        if has_key(r, key) {
            let i = choose|i: int| 0 <= i < r.len() && (#[trigger] r[i]).0 == key;
            if i == at {
                assert(s[s.len() - 1].0 == key);
            } else {
                let i0 = if i < at { i } else { i - 1 };
                assert(sorted[i0].0 == key);
                assert(has_key(rest, key));
                let j = choose|j: int| 0 <= j < rest.len() && (#[trigger] rest[j]).0 == key;
                assert(s[j].0 == key);
            }
        }
        if has_key(s, key) {
            let j = choose|j: int| 0 <= j < s.len() && (#[trigger] s[j]).0 == key;
            if j == s.len() - 1 {
                assert(r[at].0 == key);
            } else {
                assert(rest[j].0 == key);
                assert(has_key(sorted, key));
                let i0 = choose|i: int| 0 <= i < sorted.len() && (#[trigger] sorted[i]).0 == key;
                let i = if i0 < at { i0 } else { i0 + 1 };
                assert(r[i].0 == key);
            }
        }
    }
}

/// Sorting pairs with distinct keys yields distinct keys in ascending
/// order, and leaves under every key the value it had.
pub proof fn lemma_sorted_by_key<V: View>(s: Seq<(Seq<char>, V::V)>)
    requires
        distinct_keys(s),
    ensures
        distinct_keys(sorted_by_key::<V>(s)),
        keys_ascending(sorted_by_key::<V>(s)),
        sorted_by_key::<V>(s).len() == s.len(),
        forall|key: Seq<char>| assoc_get(sorted_by_key::<V>(s), key) == assoc_get(s, key),
    decreases s.len(),
{
    let r = sorted_by_key::<V>(s);
    if s.len() > 0 {
        let rest = s.drop_last();
        let x = s.last();
        let sorted = sorted_by_key::<V>(rest);
        let at = insert_point::<(String, V)>(sorted, x, 0);
        lemma_insert_point::<(String, V)>(sorted, x, 0);
        assert(distinct_keys(rest)) by {
            assert forall|i: int, j: int| 0 <= i < j < rest.len() implies (#[trigger] rest[i]).0 != (
            #[trigger] rest[j]).0 by {
                assert(s[i].0 != s[j].0);
            }
        }
        lemma_sorted_by_key::<V>(rest);
        lemma_sorted_keeps_keys::<V>(rest, x.0);
        assert(!has_key(rest, x.0)) by {
            if has_key(rest, x.0) {
                let j = choose|j: int| 0 <= j < rest.len() && (#[trigger] rest[j]).0 == x.0;
                assert(s[j].0 != s[s.len() - 1].0);
            }
        }
        assert(r == sorted.insert(at, x));
        assert forall|i: int, j: int| 0 <= i < j < r.len() implies (#[trigger] r[i]).0 != (
        #[trigger] r[j]).0 by {
            let i0 = if i < at { i } else { i - 1 };
            let j0 = if j < at { j } else { j - 1 };
            if i == at {
                assert(r[j] == sorted[j0]);
                assert(sorted[j0].0 != x.0);
            } else if j == at {
                assert(r[i] == sorted[i0]);
                assert(sorted[i0].0 != x.0);
            } else {
                assert(r[i] == sorted[i0] && r[j] == sorted[j0]);
            }
        }
    }
    lemma_sorted_is_ordered::<(String, V)>(s);
    assert forall|i: int, j: int| 0 <= i < j < r.len() implies text_lt(
        (#[trigger] r[i]).0,
        (#[trigger] r[j]).0,
    ) by {
        assert(!text_lt(r[j].0, r[i].0));
        assert(r[i].0 != r[j].0);
        assert(r[i].0.subrange(0, 0) =~= r[j].0.subrange(0, 0));
        lemma_text_lt_total(r[i].0, r[j].0, 0);
    }
    assert forall|key: Seq<char>| assoc_get(r, key) == assoc_get(s, key) by {
        lemma_assoc_find(r, key, 0);
        lemma_assoc_find(s, key, 0);
        lemma_sorted_keeps_keys::<V>(s, key);
        if s.len() > 0 {
            let rest = s.drop_last();
            let x = s.last();
            let sorted = sorted_by_key::<V>(rest);
            let at = insert_point::<(String, V)>(sorted, x, 0);
            lemma_insert_point::<(String, V)>(sorted, x, 0);
            lemma_assoc_find(sorted, key, 0);
            lemma_assoc_find(rest, key, 0);
            assert(assoc_get(sorted, key) == assoc_get(rest, key));
            match assoc_find(s, key, 0) {
                Some(j) => {
                    assert(has_key(s, key));
                    assert(has_key(r, key));
                    let i = assoc_find(r, key, 0)->0;
                    if j == s.len() - 1 {
                        assert(r[at].0 == key);
                        assert(i == at);
                    } else {
                        assert(rest[j] == s[j]);
                        assert(assoc_find(rest, key, 0) == Some(j));
                        let i0 = assoc_find(sorted, key, 0)->0;
                        let i1 = if i0 < at { i0 } else { i0 + 1 };
                        assert(r[i1] == sorted[i0]);
                        assert(i == i1);
                    }
                },
                None => {
                    assert(!has_key(s, key));
                },
            }
        }
    }
}

/// Map from names to values that keeps its keys in the order of their first
/// insertion, or, once sorted, in the order of strings. No key occurs twice.
#[derive(Debug)]
pub struct FieldMap<V: View> {
    entries: Vec<(String, V)>,
}

/// The pairs of a map as plain values.
pub open spec fn pairs_view<V: View>(entries: Seq<(String, V)>) -> Seq<(Seq<char>, V::V)> {
    Seq::new(entries.len(), |i: int| (entries[i].0@, entries[i].1@))
}

impl<V: View> View for FieldMap<V> {
    type V = Seq<(Seq<char>, V::V)>;

    closed spec fn view(&self) -> Seq<(Seq<char>, V::V)> {
        pairs_view(self.entries@)
    }
}

impl<V: View + Clone> Clone for FieldMap<V> {
    /// A copy with the same keys in the same order, each with a clone of its
    /// value.
    fn clone(&self) -> (m: Self)
        ensures
            m@.len() == self@.len(),
            forall|i: int| 0 <= i < self@.len() ==> (#[trigger] m@[i]).0 == self@[i].0,
    {
        proof {
            use_type_invariant(self);
        }
        let mut entries: Vec<(String, V)> = Vec::new();
        let mut i: usize = 0;
        while i < self.entries.len()
            invariant
                i <= self.entries.len(),
                entries@.len() == i,
                forall|j: int| 0 <= j < i ==> (#[trigger] entries@[j]).0@ == self.entries@[j].0@,
            decreases self.entries.len() - i,
        {
            let key = self.entries[i].0.clone();
            let value = self.entries[i].1.clone();
            entries.push((key, value));
            i = i + 1;
        }
        proof {
            let a = pairs_view(self.entries@);
            let b = pairs_view(entries@);
            assert forall|x: int, y: int| 0 <= x < y < b.len() implies (#[trigger] b[x]).0 != (
            #[trigger] b[y]).0 by {
                assert(a[x].0 != a[y].0);
            }
        }
        FieldMap { entries }
    }
}

impl<V: View> FieldMap<V> {
    /// The keys are distinct.
    #[verifier::type_invariant]
    pub closed spec fn inv(self) -> bool {
        distinct_keys(self@)
    }

    /// In a map that satisfies its invariant no key occurs twice, so the
    /// pairs are a mapping from keys to values.
    pub proof fn lemma_keys_distinct(self)
        requires
            self.inv(),
        ensures
            distinct_keys(self@),
    {
    }

    /// A map without entries.
    pub fn new() -> (m: Self)
        ensures
            m@ == Seq::<(Seq<char>, V::V)>::empty(),
    {
        let m = FieldMap { entries: Vec::new() };
        assert(m@ =~= Seq::<(Seq<char>, V::V)>::empty());
        m
    }

    /// Number of entries.
    pub fn len(&self) -> (n: usize)
        ensures
            n == self@.len(),
    {
        self.entries.len()
    }

    /// Whether the map holds no entry.
    pub fn is_empty(&self) -> (b: bool)
        ensures
            b == (self@.len() == 0),
    {
        self.entries.len() == 0
    }

    /// Position of `key` among the entries.
    fn position(&self, key: &String) -> (r: Option<usize>)
        ensures
            match r {
                Some(i) => assoc_find(self@, key@, 0) == Some(i as int) && i < self@.len(),
                None => assoc_find(self@, key@, 0) is None,
            },
    {
        let mut i: usize = 0;
        while i < self.entries.len()
            invariant
                i <= self.entries.len(),
                assoc_find(self@, key@, 0) == assoc_find(self@, key@, i as int),
            decreases self.entries.len() - i,
        {
            if self.entries[i].0 == *key {
                return Some(i);
            }
            i = i + 1;
        }
        None
    }

    /// Stores `value` under `key`. A key that is already present keeps its
    /// place and takes the new value; a new key goes to the end.
    pub fn insert(&mut self, key: String, value: V)
        ensures
            final(self)@ == assoc_insert(old(self)@, key@, value@),
    {
        proof {
            use_type_invariant(&*self);
            lemma_assoc_insert(self@, key@, value@);
        }
        let found = self.position(&key);
        let ghost before = self@;
        let ghost k = key@;
        let ghost v = value@;
        let mut entries: Vec<(String, V)> = Vec::new();
        core::mem::swap(&mut self.entries, &mut entries);
        match found {
            Some(i) => {
                entries.set(i, (key, value));
            },
            None => {
                entries.push((key, value));
            },
        }
        proof {
            match found {
                Some(i) => {
                    assert(pairs_view(entries@) =~= before.update(i as int, (k, v)));
                },
                None => {
                    assert(pairs_view(entries@) =~= before.push((k, v)));
                },
            }
        }
        core::mem::swap(&mut self.entries, &mut entries);
    }

    /// Position of `key` among the entries, if it is present.
    pub fn position_of(&self, key: &str) -> (r: Option<usize>)
        ensures
            match r {
                Some(i) => assoc_find(self@, key@, 0) == Some(i as int) && i < self@.len(),
                None => assoc_find(self@, key@, 0) is None,
            },
    {
        let k = key.to_owned();
        self.position(&k)
    }

    /// Puts `value` in place of the value at `index` and hands the previous
    /// value back. An index out of range changes nothing.
    pub fn replace_at(&mut self, index: usize, value: V) -> (previous: Option<V>)
        ensures
            index < old(self)@.len() ==> previous is Some && previous->0@ == old(self)@[index as int].1
                && final(self)@ == old(self)@.update(
                index as int,
                (old(self)@[index as int].0, value@),
            ),
            index >= old(self)@.len() ==> previous is None && final(self)@ == old(self)@,
    {
        proof {
            use_type_invariant(&*self);
        }
        if index >= self.entries.len() {
            return None;
        }
        let ghost before = self@;
        let ghost v = value@;
        let mut entries: Vec<(String, V)> = Vec::new();
        core::mem::swap(&mut self.entries, &mut entries);
        let ghost key = entries@[index as int].0@;
        let mut slot: (String, V) = (entries[index].0.clone(), value);
        core::mem::swap(&mut entries[index], &mut slot);
        proof {
            assert(pairs_view(entries@) =~= before.update(index as int, (key, v)));
            let after = pairs_view(entries@);
            assert forall|i: int, j: int| 0 <= i < j < after.len() implies (#[trigger] after[i]).0
                != (#[trigger] after[j]).0 by {
                assert(after[i].0 == before[i].0);
                assert(after[j].0 == before[j].0);
            }
        }
        core::mem::swap(&mut self.entries, &mut entries);
        Some(slot.1)
    }

    /// Removes the entry stored under `key` and hands its value back. The
    /// other entries keep their order.
    pub fn remove(&mut self, key: &str) -> (r: Option<V>)
        ensures
            final(self)@ == assoc_remove(old(self)@, key@),
            match r {
                Some(v) => assoc_get(old(self)@, key@) == Some(v@),
                None => assoc_get(old(self)@, key@) is None,
            },
            assoc_get(final(self)@, key@) is None,
    {
        proof {
            use_type_invariant(&*self);
            lemma_assoc_find(self@, key@, 0);
        }
        let ghost before = self@;
        match self.position_of(key) {
            Some(i) => {
                let mut entries: Vec<(String, V)> = Vec::new();
                core::mem::swap(&mut self.entries, &mut entries);
                let pair = entries.remove(i);
                proof {
                    let after = pairs_view(entries@);
                    assert(after =~= before.remove(i as int));
                    assert forall|a: int, b: int| 0 <= a < b < after.len() implies (
                    #[trigger] after[a]).0 != (#[trigger] after[b]).0 by {
                        let a0 = if a < i { a } else { a + 1 };
                        let b0 = if b < i { b } else { b + 1 };
                        assert(after[a] == before[a0] && after[b] == before[b0]);
                    }
                    lemma_assoc_find(after, key@, 0);
                    assert forall|j: int| 0 <= j < after.len() implies (#[trigger] after[j]).0
                        != key@ by {
                        let j0 = if j < i { j } else { j + 1 };
                        assert(after[j] == before[j0]);
                    }
                }
                core::mem::swap(&mut self.entries, &mut entries);
                Some(pair.1)
            },
            None => None,
        }
    }

    /// Puts the entries in the order of their keys. Every key keeps its
    /// value.
    pub fn sort_by_key(&mut self)
        ensures
            final(self)@ == sorted_by_key::<V>(old(self)@),
            keys_ascending(final(self)@),
            final(self)@.len() == old(self)@.len(),
            forall|key: Seq<char>| assoc_get(final(self)@, key) == assoc_get(old(self)@, key),
    {
        proof {
            use_type_invariant(&*self);
            lemma_sorted_by_key::<V>(self@);
        }
        let ghost before = self@;
        let mut entries: Vec<(String, V)> = Vec::new();
        core::mem::swap(&mut self.entries, &mut entries);
        assert(view_each(entries@) =~= before);
        let mut sorted = stable_sort(entries);
        assert(pairs_view(sorted@) =~= view_each(sorted@));
        core::mem::swap(&mut self.entries, &mut sorted);
    }

    /// Removes every entry.
    pub fn clear(&mut self)
        ensures
            final(self)@ == Seq::<(Seq<char>, V::V)>::empty(),
    {
        let mut entries: Vec<(String, V)> = Vec::new();
        assert(pairs_view(entries@) =~= Seq::<(Seq<char>, V::V)>::empty());
        core::mem::swap(&mut self.entries, &mut entries);
    }

    /// The value stored under `key`, if any.
    pub fn get(&self, key: &str) -> (r: Option<&V>)
        ensures
            match r {
                Some(v) => assoc_get(self@, key@) == Some(v@),
                None => assoc_get(self@, key@) is None,
            },
    {
        let k = key.to_owned();
        match self.position(&k) {
            Some(i) => Some(&self.entries[i].1),
            None => None,
        }
    }

    /// Whether a value is stored under `key`.
    pub fn contains_key(&self, key: &str) -> (b: bool)
        ensures
            b == (assoc_get(self@, key@) is Some),
    {
        self.get(key).is_some()
    }

    /// The key of the entry at `index`.
    pub fn key_at(&self, index: usize) -> (r: Option<&str>)
        ensures
            index < self@.len() ==> r is Some && r->0@ == self@[index as int].0,
            index >= self@.len() ==> r is None,
    {
        if index < self.entries.len() {
            Some(self.entries[index].0.as_str())
        } else {
            None
        }
    }

    /// The value of the entry at `index`.
    pub fn value_at(&self, index: usize) -> (r: Option<&V>)
        ensures
            index < self@.len() ==> r is Some && r->0@ == self@[index as int].1,
            index >= self@.len() ==> r is None,
    {
        if index < self.entries.len() {
            Some(&self.entries[index].1)
        } else {
            None
        }
    }

    /// The key that was inserted first, if the map is not empty.
    pub fn first_key(&self) -> (r: Option<&str>)
        ensures
            self@.len() > 0 ==> r is Some && r->0@ == self@[0].0,
            self@.len() == 0 ==> r is None,
    {
        self.key_at(0)
    }
}

} // verus!
