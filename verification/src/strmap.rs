//! A map keyed by strings, kept as a vector of entries with distinct keys.
//!
//! Lookups and membership are decided by character-wise key equality, so the
//! map behaves as a finite function from key text to value, and inserting an
//! existing key replaces its value.

use vstd::prelude::*;

verus! {

/// No two entries of `s` have the same key text.
pub open spec fn entries_distinct<V>(s: Seq<(String, V)>) -> bool {
    forall|i: int, j: int| 0 <= i < j < s.len() ==> s[i].0@ != s[j].0@
}

/// Some position of an entry of `s` whose key text is `k` (meaningful when one exists).
pub open spec fn entry_index<V>(s: Seq<(String, V)>, k: Seq<char>) -> int {
    choose|i: int| 0 <= i < s.len() && s[i].0@ == k
}

/// The map from key text to value (as its deep view) that the entries of `s` stand for.
pub open spec fn entries_map<V: DeepView>(s: Seq<(String, V)>) -> Map<Seq<char>, V::V> {
    Map::new(
        |k: Seq<char>| exists|i: int| 0 <= i < s.len() && s[i].0@ == k,
        |k: Seq<char>| s[entry_index(s, k)].1.deep_view(),
    )
}

/// With distinct keys, the entry found for a key is the only one carrying it.
pub proof fn lemma_entry_index<V>(s: Seq<(String, V)>, j: int)
    requires
        entries_distinct(s),
        0 <= j < s.len(),
    ensures
        entry_index(s, s[j].0@) == j,
{
    let k = s[j].0@;
    assert(0 <= j < s.len() && s[j].0@ == k);
    let i = entry_index(s, k);
    if i != j {
        if i < j {
            assert(s[i].0@ != s[j].0@);
        } else {
            assert(s[j].0@ != s[i].0@);
        }
    }
}

/// Facts linking positions to the map, for entries with distinct keys.
pub proof fn lemma_entries_map<V: DeepView>(s: Seq<(String, V)>, j: int)
    requires
        entries_distinct(s),
        0 <= j < s.len(),
    ensures
        entries_map(s).contains_key(s[j].0@),
        entries_map(s)[s[j].0@] == s[j].1.deep_view(),
{
    assert(0 <= j < s.len() && s[j].0@ == s[j].0@);
    lemma_entry_index(s, j);
}

/// Replacing the value of the entry at `i` (whose key is `k`) is a map insertion.
proof fn lemma_update_entry<V: DeepView>(old: Seq<(String, V)>, new: Seq<(String, V)>, i: int, k: String, v: V)
    requires
        entries_distinct(old),
        0 <= i < old.len(),
        old[i].0@ == k@,
        new == old.update(i, (k, v)),
    ensures
        entries_distinct(new),
        entries_map(new) == entries_map(old).insert(k@, v.deep_view()),
{
    assert forall|a: int, b: int| 0 <= a < b < new.len() implies new[a].0@ != new[b].0@ by {
        assert(old[a].0@ != old[b].0@);
    }
    let m = entries_map(old).insert(k@, v.deep_view());
    assert(entries_map(old).contains_key(k@)) by {
        assert(0 <= i < old.len() && old[i].0@ == k@);
    }
    assert forall|key: Seq<char>| #[trigger] entries_map(new).contains_key(key) == m.contains_key(key) by {
        if entries_map(old).contains_key(key) {
            let j = choose|j: int| 0 <= j < old.len() && old[j].0@ == key;
            assert(0 <= j < new.len() && new[j].0@ == key);
        }
        if entries_map(new).contains_key(key) {
            let j = choose|j: int| 0 <= j < new.len() && new[j].0@ == key;
            assert(0 <= j < old.len() && old[j].0@ == key);
        }
    }
    assert forall|key: Seq<char>| #[trigger] entries_map(new).contains_key(key) implies entries_map(new)[key] == m[key] by {
        let j = choose|j: int| 0 <= j < new.len() && new[j].0@ == key;
        lemma_entries_map(new, j);
        if j != i {
            lemma_entries_map(old, j);
        }
    }
    assert(entries_map(new) =~= m);
}

/// Appending an entry whose key is new is a map insertion.
proof fn lemma_push_entry<V: DeepView>(old: Seq<(String, V)>, new: Seq<(String, V)>, k: String, v: V)
    requires
        entries_distinct(old),
        !entries_map(old).contains_key(k@),
        new == old.push((k, v)),
    ensures
        entries_distinct(new),
        entries_map(new) == entries_map(old).insert(k@, v.deep_view()),
{
    let n = old.len() as int;
    assert forall|a: int, b: int| 0 <= a < b < new.len() implies new[a].0@ != new[b].0@ by {
        if b == n {
            if old[a].0@ == k@ {
                assert(0 <= a < old.len() && old[a].0@ == k@);
            }
        } else {
            assert(old[a].0@ != old[b].0@);
        }
    }
    let m = entries_map(old).insert(k@, v.deep_view());
    assert forall|key: Seq<char>| #[trigger] entries_map(new).contains_key(key) == m.contains_key(key) by {
        if entries_map(old).contains_key(key) {
            let j = choose|j: int| 0 <= j < old.len() && old[j].0@ == key;
            assert(0 <= j < new.len() && new[j].0@ == key);
        }
        if key == k@ {
            assert(0 <= n < new.len() && new[n].0@ == key);
        }
        if entries_map(new).contains_key(key) && key != k@ {
            let j = choose|j: int| 0 <= j < new.len() && new[j].0@ == key;
            assert(0 <= j < old.len() && old[j].0@ == key);
        }
    }
    assert forall|key: Seq<char>| #[trigger] entries_map(new).contains_key(key) implies entries_map(new)[key] == m[key] by {
        let j = choose|j: int| 0 <= j < new.len() && new[j].0@ == key;
        lemma_entries_map(new, j);
        if j != n {
            lemma_entries_map(old, j);
        }
    }
    assert(entries_map(new) =~= m);
}

/// A string-keyed map whose entries have pairwise distinct keys.
pub struct StrMap<V> {
    entries: Vec<(String, V)>,
}

impl<V> StrMap<V> {
    /// No two entries share a key.
    #[verifier::type_invariant]
    pub closed spec fn keys_distinct(self) -> bool {
        entries_distinct(self.entries@)
    }

    /// The entries, in storage order.
    pub closed spec fn entry_seq(self) -> Seq<(String, V)> {
        self.entries@
    }
}

impl<V: DeepView> StrMap<V> {
    /// Number of entries.
    pub open spec fn size(self) -> nat {
        self.entry_seq().len()
    }

    /// Key text of the entry at position `i`.
    pub open spec fn key_at(self, i: int) -> Seq<char> {
        self.entry_seq()[i].0@
    }

    /// Value (as its deep view) of the entry at position `i`.
    pub open spec fn value_at(self, i: int) -> V::V {
        self.entry_seq()[i].1.deep_view()
    }

    /// The finite map from key text to value that this collection stands for.
    pub open spec fn as_map(self) -> Map<Seq<char>, V::V> {
        entries_map(self.entry_seq())
    }

    /// Entries and map agree: each entry is a binding of the map, and each key of
    /// the map is bound by the entry found for it.
    pub proof fn lemma_entries_agree(self)
        requires
            self.keys_distinct(),
        ensures
            forall|i: int| 0 <= i < self.size() ==> #[trigger] self@.contains_key(self.key_at(i))
                && self@[self.key_at(i)] == self.value_at(i),
            forall|k: Seq<char>| #[trigger] self@.contains_key(k) ==> {
                let i = entry_index(self.entry_seq(), k);
                &&& 0 <= i < self.size()
                &&& self.key_at(i) == k
                &&& self@[k] == self.value_at(i)
            },
    {
        assert forall|i: int| 0 <= i < self.size() implies #[trigger] self@.contains_key(self.key_at(i))
            && self@[self.key_at(i)] == self.value_at(i) by {
            lemma_entries_map(self.entry_seq(), i);
        }
    }

    /// An empty map.
    pub fn new() -> (m: Self)
        ensures
            m.size() == 0,
            m@ == Map::<Seq<char>, V::V>::empty(),
    {
        let m = StrMap { entries: Vec::new() };
        assert(m.as_map() =~= Map::<Seq<char>, V::V>::empty());
        m
    }

    /// Number of entries, which is the number of distinct keys.
    pub fn len(&self) -> (n: usize)
        ensures
            n == self.size(),
    {
        self.entries.len()
    }

    /// Whether the map has no entry.
    pub fn is_empty(&self) -> (b: bool)
        ensures
            b == (self.size() == 0),
            b == self@.is_empty(),
    {
        if self.entries.len() > 0 {
            assert(0 <= 0 < self.entries@.len() && self.entries@[0].0@ == self.key_at(0));
            assert(self.as_map().dom().contains(self.key_at(0)));
        } else {
            assert(self.as_map().dom() =~= Set::empty());
        }
        self.entries.len() == 0
    }

    /// The key of the entry at position `i`.
    pub fn key(&self, i: usize) -> (k: &String)
        requires
            i < self.size(),
        ensures
            k@ == self.key_at(i as int),
            self@.contains_key(k@),
    {
        assert(0 <= i < self.entries@.len() && self.entries@[i as int].0@ == self.key_at(i as int));
        &self.entries[i].0
    }

    /// The value of the entry at position `i`, which is the map's value at that entry's key.
    pub fn value(&self, i: usize) -> (v: &V)
        requires
            i < self.size(),
        ensures
            v.deep_view() == self.value_at(i as int),
            self@.contains_key(self.key_at(i as int)),
            self@[self.key_at(i as int)] == v.deep_view(),
    {
        proof {
            use_type_invariant(self);
            lemma_entries_map(self.entries@, i as int);
        }
        &self.entries[i].1
    }

    /// Position of the entry with key `k`, if any.
    pub fn find(&self, k: &str) -> (r: Option<usize>)
        ensures
            match r {
                Some(i) => i < self.size() && self.key_at(i as int) == k@,
                None => !self@.contains_key(k@),
            },
    {
        let mut i: usize = 0;
        while i < self.entries.len()
            invariant
                i <= self.entries@.len(),
                forall|j: int| 0 <= j < i ==> self.entries@[j].0@ != k@,
            decreases self.entries@.len() - i,
        {
            if crate::text::str_eq(self.entries[i].0.as_str(), k) {
                return Some(i);
            }
            i += 1;
        }
        None
    }

    /// The value stored under `k`, if any.
    pub fn get(&self, k: &str) -> (r: Option<&V>)
        ensures
            match r {
                Some(v) => self@.contains_key(k@) && self@[k@] == v.deep_view(),
                None => !self@.contains_key(k@),
            },
    {
        match self.find(k) {
            Some(i) => Some(self.value(i)),
            None => None,
        }
    }

    /// Whether `k` is a key of the map.
    pub fn contains_key(&self, k: &str) -> (b: bool)
        ensures
            b == self@.contains_key(k@),
    {
        match self.find(k) {
            Some(i) => {
                assert(0 <= i < self.entries@.len() && self.entries@[i as int].0@ == k@);
                true
            },
            None => false,
        }
    }

    /// Stores `v` under `k`, replacing the value of an existing entry with that key.
    pub fn insert(&mut self, k: String, v: V)
        ensures
            final(self)@ == old(self)@.insert(k@, v.deep_view()),
    {
        proof {
            use_type_invariant(&*self);
        }
        let ghost old_entries = self.entries@;
        let ghost kk = k;
        let ghost vv = v;
        let found = self.find(k.as_str());
        let mut entries: Vec<(String, V)> = Vec::new();
        std::mem::swap(&mut entries, &mut self.entries);
        match found {
            Some(i) => {
                entries.set(i, (k, v));
                proof {
                    lemma_update_entry(old_entries, entries@, i as int, kk, vv);
                }
            },
            None => {
                entries.push((k, v));
                proof {
                    lemma_push_entry(old_entries, entries@, kk, vv);
                }
            },
        }
        self.entries = entries;
    }
}

impl<V: DeepView> View for StrMap<V> {
    type V = Map<Seq<char>, V::V>;

    open spec fn view(&self) -> Map<Seq<char>, V::V> {
        self.as_map()
    }
}

} // verus!
