use vstd::prelude::*;

verus! {

/// The value of the first entry whose key is `k`.
pub open spec fn lookup<V>(s: Seq<(Seq<char>, V)>, k: Seq<char>) -> Option<V>
    decreases s.len(),
{
    if s.len() == 0 {
        None
    } else if s[0].0 == k {
        Some(s[0].1)
    } else {
        lookup(s.drop_first(), k)
    }
}

/// The index of the first entry whose key is `k`.
pub open spec fn index_of<V>(s: Seq<(Seq<char>, V)>, k: Seq<char>) -> Option<int>
    decreases s.len(),
{
    if s.len() == 0 {
        None
    } else if s[0].0 == k {
        Some(0)
    } else {
        match index_of(s.drop_first(), k) {
            Some(i) => Some(i + 1),
            None => None,
        }
    }
}

/// A key that no entry has is found nowhere.
pub proof fn lemma_lookup_absent<V>(s: Seq<(Seq<char>, V)>, k: Seq<char>)
    requires
        forall|j: int| 0 <= j < s.len() ==> #[trigger] s[j].0 != k,
    ensures
        lookup(s, k) is None,
        index_of(s, k) is None,
    decreases s.len(),
{
    if s.len() > 0 {
        assert(s[0].0 != k);
        assert forall|j: int| 0 <= j < s.drop_first().len() implies #[trigger] s.drop_first()[j].0
            != k by {
            assert(s.drop_first()[j] == s[j + 1]);
        }
        lemma_lookup_absent(s.drop_first(), k);
    }
}

/// The lookup of a key finds its first entry.
pub proof fn lemma_lookup_first<V>(s: Seq<(Seq<char>, V)>, k: Seq<char>, i: int)
    requires
        0 <= i < s.len(),
        s[i].0 == k,
        forall|j: int| 0 <= j < i ==> #[trigger] s[j].0 != k,
    ensures
        lookup(s, k) == Some(s[i].1),
        index_of(s, k) == Some(i),
    decreases s.len(),
{
    if i > 0 {
        assert(s[0].0 != k);
        assert forall|j: int| 0 <= j < i - 1 implies #[trigger] s.drop_first()[j].0 != k by {
            assert(s.drop_first()[j] == s[j + 1]);
        }
        lemma_lookup_first(s.drop_first(), k, i - 1);
    }
}

/// Replacing the value of the first entry with key `k` changes the lookup of `k` only.
pub proof fn lemma_lookup_update<V>(s: Seq<(Seq<char>, V)>, k: Seq<char>, i: int, v: V, other: Seq<char>)
    requires
        0 <= i < s.len(),
        s[i].0 == k,
        forall|j: int| 0 <= j < i ==> #[trigger] s[j].0 != k,
    ensures
        lookup(s.update(i, (k, v)), other) == if other == k {
            Some(v)
        } else {
            lookup(s, other)
        },
    decreases s.len(),
{
    let t = s.update(i, (k, v));
    if other == k {
        assert forall|j: int| 0 <= j < i implies #[trigger] t[j].0 != k by {
            assert(t[j] == s[j]);
        }
        lemma_lookup_first(t, k, i);
    } else {
        if i == 0 {
            assert(t.drop_first() =~= s.drop_first());
        } else {
            assert(t[0] == s[0]);
            assert forall|j: int| 0 <= j < i - 1 implies #[trigger] s.drop_first()[j].0 != k by {
                assert(s.drop_first()[j] == s[j + 1]);
            }
            lemma_lookup_update(s.drop_first(), k, i - 1, v, other);
            assert(t.drop_first() =~= s.drop_first().update(i - 1, (k, v)));
        }
    }
}

/// Appending an entry for a new key changes the lookup of that key only.
pub proof fn lemma_lookup_push<V>(s: Seq<(Seq<char>, V)>, k: Seq<char>, v: V, other: Seq<char>)
    requires
        lookup(s, k) is None,
    ensures
        lookup(s.push((k, v)), other) == if other == k {
            Some(v)
        } else {
            lookup(s, other)
        },
    decreases s.len(),
{
    if s.len() == 0 {
        reveal_with_fuel(lookup, 2);
        assert(s.push((k, v)).drop_first() =~= Seq::<(Seq<char>, V)>::empty());
        assert(s.push((k, v))[0] == (k, v));
    } else {
        assert(s.push((k, v)).drop_first() =~= s.drop_first().push((k, v)));
        assert(s.push((k, v))[0] == s[0]);
        assert(s[0].0 != k);
        lemma_lookup_push(s.drop_first(), k, v, other);
        assert(lookup(s.push((k, v)), other) == if s[0].0 == other {
            Some(s[0].1)
        } else {
            lookup(s.drop_first().push((k, v)), other)
        });
    }
}

/// A map from texts to values that keeps its entries in the order keys were first inserted.
#[derive(Debug, PartialEq, Eq)]
pub struct StrMap<V> {
    entries: Vec<(String, V)>,
}

pub open spec fn entry_views<V>(v: Seq<(String, V)>) -> Seq<(Seq<char>, V)> {
    v.map_values(|e: (String, V)| (e.0@, e.1))
}

/// No key occurs twice among the entries.
pub open spec fn keys_unique<V>(s: Seq<(Seq<char>, V)>) -> bool {
    forall|i: int, j: int| 0 <= i < j < s.len() ==> #[trigger] s[i].0 != #[trigger] s[j].0
}

impl<V> StrMap<V> {
    /// The entries, in the order their keys were first inserted.
    pub closed spec fn entries_view(&self) -> Seq<(Seq<char>, V)> {
        entry_views(self.entries@)
    }

    #[verifier::type_invariant]
    closed spec fn unique_keys(self) -> bool {
        keys_unique(entry_views(self.entries@))
    }

    pub open spec fn spec_get(&self, k: Seq<char>) -> Option<V> {
        lookup(self.entries_view(), k)
    }

    pub fn new() -> (r: Self)
        ensures
            r.entries_view().len() == 0,
            forall|k: Seq<char>| #[trigger] r.spec_get(k) is None,
    {
        Self { entries: Vec::new() }
    }

    /// The number of keys.
    pub fn len(&self) -> (r: usize)
        ensures
            r == self.entries_view().len(),
    {
        self.entries.len()
    }

    fn position(&self, key: &String) -> (r: Option<usize>)
        ensures
            match r {
                Some(i) => i < self.entries_view().len() && index_of(self.entries_view(), key@)
                    == Some(i as int) && lookup(self.entries_view(), key@) == Some(
                    self.entries_view()[i as int].1,
                ) && self.entries_view()[i as int].0 == key@ && forall|j: int|
                    0 <= j < i ==> #[trigger] self.entries_view()[j].0 != key@,
                None => lookup(self.entries_view(), key@) is None,
            },
    {
        let mut i: usize = 0;
        while i < self.entries.len()
            invariant
                i <= self.entries.len(),
                forall|j: int| 0 <= j < i ==> #[trigger] self.entries_view()[j].0 != key@,
            decreases self.entries.len() - i,
        {
            if self.entries[i].0 == *key {
                proof {
                    lemma_lookup_first(self.entries_view(), key@, i as int);
                }
                return Some(i);
            }
            i = i + 1;
        }
        proof {
            lemma_lookup_absent(self.entries_view(), key@);
        }
        None
    }

    /// The value stored under `key`.
    pub fn get(&self, key: &str) -> (r: Option<&V>)
        ensures
            match r {
                Some(v) => self.spec_get(key@) == Some(*v),
                None => self.spec_get(key@) is None,
            },
    {
        let k = key.to_string();
        match self.position(&k) {
            Some(i) => Some(&self.entries[i].1),
            None => None,
        }
    }

    /// Stores `value` under `key`, replacing an earlier value of that key.
    pub fn insert(&mut self, key: String, value: V)
        ensures
            forall|k: Seq<char>|
                #[trigger] final(self).spec_get(k) == if k == key@ {
                    Some(value)
                } else {
                    old(self).spec_get(k)
                },
            index_of(old(self).entries_view(), key@) is Some ==> final(self).entries_view().len()
                == old(self).entries_view().len(),
            index_of(old(self).entries_view(), key@) is None ==> final(self).entries_view().len()
                == old(self).entries_view().len() + 1,
    {
        let ghost k = key@;
        proof {
            use_type_invariant(&*self);
        }
        let ghost s = self.entries_view();
        let found = self.position(&key);
        let mut entries: Vec<(String, V)> = Vec::new();
        std::mem::swap(&mut entries, &mut self.entries);
        assert(entry_views(entries@) == s);
        match found {
            Some(i) => {
                entries.set(i, (key, value));
                proof {
                    assert(entry_views(entries@) =~= s.update(i as int, (k, value)));
                    assert(keys_unique(s.update(i as int, (k, value))));
                }
            },
            None => {
                proof {
                    lemma_lookup_absent_index(s, k);
                    lemma_index_absent_keys(s, k);
                }
                entries.push((key, value));
                proof {
                    assert(entry_views(entries@) =~= s.push((k, value)));
                    assert(keys_unique(s.push((k, value))));
                }
            },
        }
        self.entries = entries;
        proof {
            assert forall|other: Seq<char>| #[trigger]
                self.spec_get(other) == if other == k {
                    Some(value)
                } else {
                    old(self).spec_get(other)
                } by {
                match found {
                    Some(i) => lemma_lookup_update(s, k, i as int, value, other),
                    None => lemma_lookup_push(s, k, value, other),
                }
            }
        }
    }

    /// Removes the entry of `key` and hands out its value.
    pub fn remove(&mut self, key: &str) -> (r: Option<V>)
        ensures
            r == old(self).spec_get(key@),
            forall|k: Seq<char>|
                #[trigger] final(self).spec_get(k) == if k == key@ {
                    None
                } else {
                    old(self).spec_get(k)
                },
            final(self).entries_view().len() == old(self).entries_view().len() - (if r is Some {
                1int
            } else {
                0int
            }),
    {
        proof {
            use_type_invariant(&*self);
        }
        let ghost s = self.entries_view();
        let k = key.to_string();
        match self.position(&k) {
            None => {
                proof {
                    lemma_lookup_absent_index(s, key@);
                    lemma_index_absent_keys(s, key@);
                }
                None
            },
            Some(i) => {
                let mut entries: Vec<(String, V)> = Vec::new();
                std::mem::swap(&mut entries, &mut self.entries);
                let ghost before = entries@;
                let removed = entries.remove(i);
                proof {
                    assert(entry_views(entries@) =~= s.remove(i as int)) by {
                        assert(entries@ =~= before.remove(i as int));
                    }
                    lemma_remove_keeps_unique(s, i as int);
                }
                self.entries = entries;
                proof {
                    assert forall|other: Seq<char>| #[trigger]
                        self.spec_get(other) == if other == key@ {
                            None
                        } else {
                            old(self).spec_get(other)
                        } by {
                        lemma_lookup_remove(s, i as int, other);
                    }
                }
                Some(removed.1)
            },
        }
    }

    /// The keys, in the order they were first inserted.
    pub fn keys(&self) -> (r: Vec<String>)
        ensures
            r@.len() == self.entries_view().len(),
            forall|i: int| 0 <= i < r@.len() ==> #[trigger] r@[i]@ == self.entries_view()[i].0,
    {
        let mut out: Vec<String> = Vec::new();
        let mut i: usize = 0;
        while i < self.entries.len()
            invariant
                i <= self.entries.len(),
                out@.len() == i,
                forall|j: int| 0 <= j < i ==> #[trigger] out@[j]@ == self.entries_view()[j].0,
            decreases self.entries.len() - i,
        {
            out.push(self.entries[i].0.clone());
            i = i + 1;
        }
        out
    }

    /// Removes all entries and hands them out in order.
    pub fn take_entries(&mut self) -> (r: Vec<(String, V)>)
        ensures
            entry_views(r@) == old(self).entries_view(),
            keys_unique(old(self).entries_view()),
            final(self).entries_view().len() == 0,
            forall|k: Seq<char>| #[trigger] final(self).spec_get(k) is None,
    {
        let mut out: Vec<(String, V)> = Vec::new();
        proof {
            use_type_invariant(&*self);
            assert(entry_views(out@) =~= Seq::<(Seq<char>, V)>::empty());
        }
        std::mem::swap(&mut out, &mut self.entries);
        out
    }

    /// The entries, in the order their keys were first inserted.
    pub fn entries(&self) -> (r: &Vec<(String, V)>)
        ensures
            entry_views(r@) == self.entries_view(),
            keys_unique(self.entries_view()),
    {
        proof {
            use_type_invariant(self);
        }
        &self.entries
    }
}

/// Removing an entry keeps the keys unique.
pub proof fn lemma_remove_keeps_unique<V>(s: Seq<(Seq<char>, V)>, i: int)
    requires
        keys_unique(s),
        0 <= i < s.len(),
    ensures
        keys_unique(s.remove(i)),
        forall|j: int| 0 <= j < s.remove(i).len() ==> #[trigger] s.remove(i)[j].0 != s[i].0,
{
    let t = s.remove(i);
    assert forall|a: int, b: int| 0 <= a < b < t.len() implies #[trigger] t[a].0 != #[trigger] t[b].0 by {
        let a2 = if a < i { a } else { a + 1 };
        let b2 = if b < i { b } else { b + 1 };
        assert(t[a] == s[a2]);
        assert(t[b] == s[b2]);
        assert(s[a2].0 != s[b2].0);
    }
    assert forall|j: int| 0 <= j < t.len() implies #[trigger] t[j].0 != s[i].0 by {
        let j2 = if j < i { j } else { j + 1 };
        assert(t[j] == s[j2]);
        if j2 < i {
            assert(s[j2].0 != s[i].0);
        } else {
            assert(s[i].0 != s[j2].0);
        }
    }
}

/// With unique keys, an entry is what the lookup of its key finds.
pub proof fn lemma_lookup_unique_at<V>(s: Seq<(Seq<char>, V)>, j: int)
    requires
        keys_unique(s),
        0 <= j < s.len(),
    ensures
        lookup(s, s[j].0) == Some(s[j].1),
{
    assert forall|a: int| 0 <= a < j implies #[trigger] s[a].0 != s[j].0 by {
        assert(s[a].0 != s[j].0);
    }
    lemma_lookup_first(s, s[j].0, j);
}

/// With unique keys, removing the entry at `i` removes its key and keeps the others.
pub proof fn lemma_lookup_remove<V>(s: Seq<(Seq<char>, V)>, i: int, other: Seq<char>)
    requires
        keys_unique(s),
        0 <= i < s.len(),
    ensures
        lookup(s.remove(i), other) == if other == s[i].0 {
            None
        } else {
            lookup(s, other)
        },
{
    let t = s.remove(i);
    lemma_remove_keeps_unique(s, i);
    if other == s[i].0 {
        lemma_lookup_absent(t, other);
    } else if exists|j: int| 0 <= j < s.len() && #[trigger] s[j].0 == other {
        let j = choose|j: int| 0 <= j < s.len() && #[trigger] s[j].0 == other;
        lemma_lookup_unique_at(s, j);
        let j2 = if j < i { j } else { j - 1 };
        assert(t[j2] == s[j]);
        lemma_lookup_unique_at(t, j2);
    } else {
        lemma_lookup_absent(s, other);
        assert forall|j: int| 0 <= j < t.len() implies #[trigger] t[j].0 != other by {
            let j2 = if j < i { j } else { j + 1 };
            assert(t[j] == s[j2]);
        }
        lemma_lookup_absent(t, other);
    }
}

/// A key without an index occurs nowhere among the entries.
pub proof fn lemma_index_absent_keys<V>(s: Seq<(Seq<char>, V)>, k: Seq<char>)
    requires
        index_of(s, k) is None,
    ensures
        forall|j: int| 0 <= j < s.len() ==> #[trigger] s[j].0 != k,
    decreases s.len(),
{
    if s.len() > 0 {
        lemma_index_absent_keys(s.drop_first(), k);
        assert forall|j: int| 0 <= j < s.len() implies #[trigger] s[j].0 != k by {
            if j > 0 {
                assert(s[j] == s.drop_first()[j - 1]);
            }
        }
    }
}

/// A key that the lookup does not find has no index.
pub proof fn lemma_lookup_absent_index<V>(s: Seq<(Seq<char>, V)>, k: Seq<char>)
    requires
        lookup(s, k) is None,
    ensures
        index_of(s, k) is None,
    decreases s.len(),
{
    if s.len() > 0 {
        lemma_lookup_absent_index(s.drop_first(), k);
    }
}

/// A key is found exactly when it has an index.
pub proof fn lemma_lookup_index_agree<V>(s: Seq<(Seq<char>, V)>, k: Seq<char>)
    ensures
        (lookup(s, k) is Some) == (index_of(s, k) is Some),
    decreases s.len(),
{
    if s.len() > 0 {
        lemma_lookup_index_agree(s.drop_first(), k);
    }
}

/// The index of the first text in `s` equal to `name`.
pub open spec fn first_position(headers: Seq<Seq<char>>, name: Seq<char>) -> Option<int>
    decreases headers.len(),
{
    if headers.len() == 0 {
        None
    } else if headers[0] == name {
        Some(0)
    } else {
        match first_position(headers.drop_first(), name) {
            Some(i) => Some(i + 1),
            None => None,
        }
    }
}

/// The first occurrence of a name is its position.
pub proof fn lemma_first_position_found(headers: Seq<Seq<char>>, name: Seq<char>, i: int)
    requires
        0 <= i < headers.len(),
        headers[i] == name,
        forall|j: int| 0 <= j < i ==> #[trigger] headers[j] != name,
    ensures
        first_position(headers, name) == Some(i),
    decreases i,
{
    if i > 0 {
        assert(headers[0] != name);
        assert forall|j: int| 0 <= j < i - 1 implies #[trigger] headers.drop_first()[j] != name by {
            assert(headers.drop_first()[j] == headers[j + 1]);
        }
        lemma_first_position_found(headers.drop_first(), name, i - 1);
    }
}

/// A name that occurs nowhere has no position.
pub proof fn lemma_first_position_absent(headers: Seq<Seq<char>>, name: Seq<char>)
    requires
        forall|j: int| 0 <= j < headers.len() ==> #[trigger] headers[j] != name,
    ensures
        first_position(headers, name) is None,
    decreases headers.len(),
{
    if headers.len() > 0 {
        assert(headers[0] != name);
        assert forall|j: int| 0 <= j < headers.len() - 1 implies #[trigger] headers.drop_first()[j]
            != name by {
            assert(headers.drop_first()[j] == headers[j + 1]);
        }
        lemma_first_position_absent(headers.drop_first(), name);
    }
}

impl<V: Clone> Clone for StrMap<V> {
    /// A copy with the same keys in the same order; each value is cloned.
    fn clone(&self) -> (r: Self)
        ensures
            r.entries_view().len() == self.entries_view().len(),
            forall|i: int|
                0 <= i < r.entries_view().len() ==> #[trigger] r.entries_view()[i].0
                    == self.entries_view()[i].0,
    {
        proof {
            use_type_invariant(self);
        }
        let ghost s = self.entries_view();
        let mut entries: Vec<(String, V)> = Vec::new();
        let mut i: usize = 0;
        while i < self.entries.len()
            invariant
                i <= self.entries.len(),
                s == self.entries_view(),
                keys_unique(s),
                entries.len() == i,
                forall|j: int| 0 <= j < i ==> #[trigger] entry_views(entries@)[j].0 == s[j].0,
            decreases self.entries.len() - i,
        {
            let key = self.entries[i].0.clone();
            let value = self.entries[i].1.clone();
            let ghost before = entries@;
            entries.push((key, value));
            proof {
                assert(entry_views(entries@)[i as int].0 == s[i as int].0);
                assert forall|j: int| 0 <= j < i implies #[trigger] entry_views(entries@)[j].0
                    == s[j].0 by {
                    assert(entries@[j] == before[j]);
                    assert(entry_views(before)[j].0 == s[j].0);
                }
            }
            i = i + 1;
        }
        proof {
            assert forall|a: int, b: int|
                0 <= a < b < entries.len() implies #[trigger] entry_views(entries@)[a].0
                != #[trigger] entry_views(entries@)[b].0 by {
                assert(entry_views(entries@)[a].0 == s[a].0);
                assert(entry_views(entries@)[b].0 == s[b].0);
            }
        }
        Self { entries }
    }
}

} // verus!
