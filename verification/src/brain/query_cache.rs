use vstd::prelude::*;

use crate::collections::{keys_unique, StrMap};
use crate::input::MultiModalInput;
use crate::text::{normalize_key, normalize_key_seq, string_views};

verus! {

/// The cache key of the tokens of a feature-token input: each trimmed, lower-cased token
/// followed by the unit separator.
pub open spec fn token_key_seq(tokens: Seq<Seq<char>>) -> Seq<char>
    decreases tokens.len(),
{
    if tokens.len() == 0 {
        Seq::empty()
    } else {
        token_key_seq(tokens.drop_last()) + normalize_key_seq(tokens.last()) + seq!['\u{1f}']
    }
}

/// The key under which the score of a query is cached: `t:` and the trimmed, lower-cased
/// text; `f:`, the modality, `|` and the tokens; none for an empty text, no tokens, or an
/// image.
pub open spec fn query_key_seq(content: MultiModalInput) -> Option<Seq<char>> {
    match content {
        MultiModalInput::Text(t) => if normalize_key_seq(t@).len() == 0 {
            None
        } else {
            Some("t:"@ + normalize_key_seq(t@))
        },
        MultiModalInput::FeatureTokens { modality, tokens } => if tokens@.len() == 0 {
            None
        } else {
            Some("f:"@ + normalize_key_seq(modality@) + "|"@ + token_key_seq(string_views(tokens@)))
        },
        MultiModalInput::ImageBytes(_) => None,
    }
}

pub fn query_cache_key(content: &MultiModalInput) -> (r: Option<String>)
    ensures
        match r {
            Some(k) => query_key_seq(*content) == Some(k@),
            None => query_key_seq(*content) is None,
        },
{
    match content {
        MultiModalInput::Text(text) => {
            let normalized = normalize_key(text.as_str());
            if normalized.as_str().is_empty() {
                None
            } else {
                let mut key = "t:".to_string();
                key.append(normalized.as_str());
                Some(key)
            }
        },
        MultiModalInput::FeatureTokens { modality, tokens } => {
            if tokens.len() == 0 {
                return None;
            }
            let mut key = "f:".to_string();
            let m = normalize_key(modality.as_str());
            key.append(m.as_str());
            key.append("|");
            let ghost prefix = key@;
            let ghost toks = string_views(tokens@);
            let mut i: usize = 0;
            while i < tokens.len()
                invariant
                    i <= tokens.len(),
                    toks == string_views(tokens@),
                    key@ == prefix + token_key_seq(toks.take(i as int)),
                decreases tokens.len() - i,
            {
                let t = normalize_key(tokens[i].as_str());
                key.append(t.as_str());
                key.append("\u{1f}");
                proof {
                    reveal_strlit("\u{1f}");
                    assert(toks.take(i + 1).drop_last() =~= toks.take(i as int));
                    assert(toks.take(i + 1).last() == tokens@[i as int]@);
                    assert(key@ =~= prefix + token_key_seq(toks.take(i + 1)));
                }
                i = i + 1;
            }
            assert(toks.take(tokens.len() as int) =~= toks);
            Some(key)
        },
        MultiModalInput::ImageBytes(_) => None,
    }
}

/// No text occurs twice.
pub open spec fn texts_distinct(s: Seq<Seq<char>>) -> bool {
    forall|i: int, j: int| 0 <= i < j < s.len() ==> #[trigger] s[i] != #[trigger] s[j]
}

/// `s` without `k`, the others in order.
pub open spec fn without(s: Seq<Seq<char>>, k: Seq<char>) -> Seq<Seq<char>>
    decreases s.len(),
{
    if s.len() == 0 {
        Seq::empty()
    } else {
        let prev = without(s.drop_last(), k);
        if s.last() == k {
            prev
        } else {
            prev.push(s.last())
        }
    }
}

/// A cache of query scores that keeps the most recently used keys, at most `capacity` of
/// them.
#[derive(Debug)]
pub struct QueryScoreCache<V> {
    capacity: usize,
    map: StrMap<V>,
    order: Vec<String>,
}

impl<V> QueryScoreCache<V> {
    /// The cached keys, least recently used first.
    pub closed spec fn recency(&self) -> Seq<Seq<char>> {
        string_views(self.order@)
    }

    /// The cached value of a key.
    pub closed spec fn value(&self, k: Seq<char>) -> Option<V> {
        self.map.spec_get(k)
    }

    pub closed spec fn spec_capacity(&self) -> nat {
        self.capacity as nat
    }

    /// The keys in recency order are those with a value, each once, no more than the
    /// capacity, which is at least one.
    pub open spec fn wf(&self) -> bool {
        &&& self.spec_capacity() >= 1
        &&& self.recency().len() <= self.spec_capacity()
        &&& texts_distinct(self.recency())
        &&& forall|k: Seq<char>| #[trigger] self.value(k) is Some <==> self.recency().contains(k)
    }

    /// An empty cache for `capacity` keys, at least one.
    pub fn with_capacity(capacity: usize) -> (r: Self)
        ensures
            r.wf(),
            r.spec_capacity() == if capacity == 0 {
                1
            } else {
                capacity as nat
            },
            r.recency().len() == 0,
    {
        let c = if capacity == 0 {
            1
        } else {
            capacity
        };
        let r = Self { capacity: c, map: StrMap::new(), order: Vec::new() };
        assert(r.recency() =~= Seq::<Seq<char>>::empty());
        r
    }

    /// Empties the cache.
    pub fn clear(&mut self)
        requires
            old(self).wf(),
        ensures
            final(self).wf(),
            final(self).spec_capacity() == old(self).spec_capacity(),
            final(self).recency().len() == 0,
            forall|k: Seq<char>| #[trigger] final(self).value(k) is None,
    {
        self.map = StrMap::new();
        self.order = Vec::new();
        assert(self.recency() =~= Seq::<Seq<char>>::empty());
    }

    /// Marks `key` as the most recently used: it leaves its place and goes last.
    fn touch_key(&mut self, key: &String)
        requires
            texts_distinct(old(self).recency()),
            old(self).recency().contains(key@),
        ensures
            final(self).recency() == without(old(self).recency(), key@).push(key@),
            texts_distinct(final(self).recency()),
            final(self).map == old(self).map,
            final(self).capacity == old(self).capacity,
    {
        let ghost s = self.recency();
        let mut i: usize = 0;
        while i < self.order.len() && self.order[i] != *key
            invariant
                i <= self.order.len(),
                s == self.recency(),
                s.len() == self.order.len(),
                forall|j: int| 0 <= j < i ==> #[trigger] s[j] != key@,
            decreases self.order.len() - i,
        {
            assert(s[i as int] == self.order@[i as int]@);
            i = i + 1;
        }
        proof {
            if i == self.order.len() {
                let j = choose|j: int| 0 <= j < s.len() && s[j] == key@;
                assert(false);
            }
            assert(s[i as int] == key@);
        }
        let ghost before = self.order@;
        let removed = self.order.remove(i);
        self.order.push(removed);
        proof {
            lemma_without_at(s, key@, i as int);
            assert(self.recency() =~= s.remove(i as int).push(key@));
        }
    }

    /// The number of cached keys.
    pub fn len(&self) -> (r: usize)
        requires
            self.wf(),
        ensures
            r == self.recency().len(),
    {
        self.order.len()
    }

    /// The cached value of `key`; a hit marks the key as the most recently used.
    pub fn get(&mut self, key: &str) -> (r: Option<V>)
        where
            V: Copy,
        requires
            old(self).wf(),
        ensures
            final(self).wf(),
            r == old(self).value(key@),
            final(self).spec_capacity() == old(self).spec_capacity(),
            forall|k: Seq<char>| #[trigger] final(self).value(k) == old(self).value(k),
            r is Some ==> final(self).recency() == without(old(self).recency(), key@).push(key@),
            r is None ==> final(self).recency() == old(self).recency(),
    {
        let found = match self.map.get(key) {
            Some(v) => Some(*v),
            None => None,
        };
        match found {
            Some(v) => {
                let k = key.to_string();
                proof {
                    assert(old(self).value(key@) is Some);
                    assert(old(self).recency().contains(key@));
                }
                self.touch_key(&k);
                proof {
                    lemma_without_push_contains(old(self).recency(), key@);
                    lemma_without_len(old(self).recency(), key@);
                    assert forall|x: Seq<char>| #[trigger] self.value(x) is Some <==> self.recency().contains(x) by {
                        assert(self.value(x) == old(self).value(x));
                    }
                }
                Some(v)
            },
            None => None,
        }
    }

    /// Caches `value` under `key` as the most recently used key; a new key beyond the
    /// capacity evicts the least recently used one.
    pub fn insert(&mut self, key: String, value: V)
        requires
            old(self).wf(),
        ensures
            final(self).wf(),
            final(self).spec_capacity() == old(self).spec_capacity(),
            final(self).value(key@) == Some(value),
            old(self).recency().contains(key@) ==> final(self).recency() == without(
                old(self).recency(),
                key@,
            ).push(key@) && forall|k: Seq<char>|
                k != key@ ==> #[trigger] final(self).value(k) == old(self).value(k),
            !old(self).recency().contains(key@) && old(self).recency().len() < old(
                self,
            ).spec_capacity() ==> final(self).recency() == old(self).recency().push(key@) && forall|
                k: Seq<char>,
            | k != key@ ==> #[trigger] final(self).value(k) == old(self).value(k),
            !old(self).recency().contains(key@) && old(self).recency().len() == old(
                self,
            ).spec_capacity() ==> final(self).recency() == old(self).recency().drop_first().push(
                key@,
            ) && forall|k: Seq<char>|
                k != key@ ==> #[trigger] final(self).value(k) == if k == old(self).recency()[0] {
                    None
                } else {
                    old(self).value(k)
                },
    {
        let ghost s = self.recency();
        let ghost k = key@;
        let present = match self.map.get(key.as_str()) {
            Some(_) => true,
            None => false,
        };
        if present {
            proof {
                assert(old(self).value(k) is Some);
                assert(s.contains(k));
            }
            self.map.insert(key.clone(), value);
            self.touch_key(&key);
            proof {
                lemma_without_push_contains(s, k);
                lemma_without_len(s, k);
                assert forall|x: Seq<char>| #[trigger] self.value(x) is Some <==> self.recency().contains(x) by {
                    if x != k {
                        assert(self.value(x) == old(self).value(x));
                    }
                }
            }
            return;
        }
        proof {
            assert(old(self).value(k) is None);
            assert(!s.contains(k));
        }
        let ghost m0 = self.map;
        self.map.insert(key.clone(), value);
        let ghost m1 = self.map;
        self.order.push(key);
        proof {
            assert(self.recency() =~= s.push(k));
            assert(texts_distinct(self.recency())) by {
                assert forall|i: int, j: int| 0 <= i < j < s.len() + 1 implies #[trigger] self.recency()[i]
                    != #[trigger] self.recency()[j] by {
                    if j == s.len() {
                        assert(self.recency()[j] == k);
                        assert(self.recency()[i] == s[i]);
                        assert(s.contains(s[i]));
                    }
                }
            }
        }
        if self.order.len() > self.capacity {
            let ghost t = self.recency();
            let oldest = self.order.remove(0);
            proof {
                assert(self.recency() =~= t.drop_first());
                assert(oldest@ == s[0]);
            }
            self.map.remove(oldest.as_str());
            proof {
                assert forall|i: int, j: int| 0 <= i < j < self.recency().len() implies #[trigger] self.recency()[i]
                    != #[trigger] self.recency()[j] by {
                    assert(self.recency()[i] == t[i + 1]);
                    assert(self.recency()[j] == t[j + 1]);
                }
                assert forall|x: Seq<char>| #[trigger] self.value(x) is Some <==> self.recency().contains(x) by {
                    assert(self.map.spec_get(x) == if x == t[0] {
                        None
                    } else {
                        m1.spec_get(x)
                    });
                    assert(m1.spec_get(x) == if x == k {
                        Some(value)
                    } else {
                        m0.spec_get(x)
                    });
                    assert(old(self).value(x) is Some <==> s.contains(x));
                    assert(t.contains(x) <==> (s.contains(x) || x == k)) by {
                        if s.contains(x) {
                            let j = choose|j: int| 0 <= j < s.len() && s[j] == x;
                            assert(t[j] == x);
                        }
                        if x == k {
                            assert(t[s.len() as int] == k);
                        }
                    }
                    if self.recency().contains(x) {
                        let j = choose|j: int| 0 <= j < self.recency().len() && self.recency()[j] == x;
                        assert(t[j + 1] == x);
                        assert(t.contains(x));
                        assert(t[0] != t[j + 1]);
                    }
                    if x != t[0] && t.contains(x) {
                        let j = choose|j: int| 0 <= j < t.len() && t[j] == x;
                        assert(j != 0);
                        assert(self.recency()[j - 1] == x);
                    }
                }
                assert(self.recency() =~= s.drop_first().push(k));
            }
        } else {
            proof {
                assert forall|x: Seq<char>| #[trigger] self.value(x) is Some <==> self.recency().contains(x) by {
                    assert(self.map.spec_get(x) == if x == k {
                        Some(value)
                    } else {
                        m0.spec_get(x)
                    });
                    assert(old(self).value(x) is Some <==> s.contains(x));
                    if x == k {
                        assert(self.recency()[s.len() as int] == k);
                    } else if s.contains(x) {
                        let j = choose|j: int| 0 <= j < s.len() && s[j] == x;
                        assert(self.recency()[j] == x);
                    } else if self.recency().contains(x) {
                        let j = choose|j: int| 0 <= j < self.recency().len() && self.recency()[j] == x;
                        assert(j < s.len());
                        assert(s[j] == x);
                    }
                }
            }
        }
    }
}

/// Removing the text at `i` of distinct texts removes every occurrence of it.
pub proof fn lemma_without_at(s: Seq<Seq<char>>, k: Seq<char>, i: int)
    requires
        texts_distinct(s),
        0 <= i < s.len(),
        s[i] == k,
    ensures
        without(s, k) == s.remove(i),
    decreases s.len(),
{
    let d = s.drop_last();
    if i == s.len() - 1 {
        assert forall|j: int| 0 <= j < d.len() implies #[trigger] d[j] != k by {
            assert(s[j] != s[i]);
        }
        lemma_without_absent(d, k);
        assert(s.remove(i) =~= d);
    } else {
        assert(texts_distinct(d)) by {
            assert forall|a: int, b: int| 0 <= a < b < d.len() implies #[trigger] d[a] != #[trigger] d[b] by {
                assert(s[a] != s[b]);
            }
        }
        lemma_without_at(d, k, i);
        assert(s.last() != k) by {
            assert(s[i] != s[s.len() - 1]);
        }
        assert(s.remove(i) =~= d.remove(i).push(s.last()));
    }
}

/// Removing a text that does not occur keeps everything.
pub proof fn lemma_without_absent(s: Seq<Seq<char>>, k: Seq<char>)
    requires
        forall|j: int| 0 <= j < s.len() ==> #[trigger] s[j] != k,
    ensures
        without(s, k) == s,
    decreases s.len(),
{
    if s.len() > 0 {
        assert(s[s.len() - 1] != k);
        lemma_without_absent(s.drop_last(), k);
        assert(s.drop_last().push(s.last()) =~= s);
    }
}

/// What `without` keeps: every text but `k`.
pub proof fn lemma_without_contains(s: Seq<Seq<char>>, k: Seq<char>)
    ensures
        forall|x: Seq<char>| #[trigger] without(s, k).contains(x) <==> (s.contains(x) && x != k),
    decreases s.len(),
{
    if s.len() > 0 {
        let d = s.drop_last();
        lemma_without_contains(d, k);
        assert forall|x: Seq<char>| #[trigger] without(s, k).contains(x) <==> (s.contains(x) && x != k) by {
            let p = without(d, k);
            if s.contains(x) && x != k {
                let j = choose|j: int| 0 <= j < s.len() && s[j] == x;
                if j < s.len() - 1 {
                    assert(d[j] == x);
                    assert(d.contains(x));
                    assert(p.contains(x));
                    let m = choose|m: int| 0 <= m < p.len() && p[m] == x;
                    if s.last() != k {
                        assert(p.push(s.last())[m] == x);
                    }
                } else {
                    assert(p.push(s.last())[p.len() as int] == x);
                }
            }
            if without(s, k).contains(x) {
                let j = choose|j: int| 0 <= j < without(s, k).len() && without(s, k)[j] == x;
                if s.last() != k && j == p.len() {
                    assert(x == s.last());
                    assert(s[s.len() - 1] == x);
                } else {
                    if s.last() != k {
                        assert(p.push(s.last())[j] == p[j]);
                    }
                    assert(p.contains(x));
                    assert(d.contains(x));
                    let m = choose|m: int| 0 <= m < d.len() && d[m] == x;
                    assert(s[m] == x);
                }
            }
        }
    }
}

/// After `k` is put last in place of its earlier place, the texts are those of `s`.
pub proof fn lemma_without_push_contains(s: Seq<Seq<char>>, k: Seq<char>)
    requires
        s.contains(k),
    ensures
        forall|x: Seq<char>| #[trigger] without(s, k).push(k).contains(x) <==> s.contains(x),
{
    lemma_without_contains(s, k);
    assert forall|x: Seq<char>| #[trigger] without(s, k).push(k).contains(x) <==> s.contains(x) by {
        let w = without(s, k);
        if s.contains(x) && x != k {
            assert(w.contains(x));
            let j = choose|j: int| 0 <= j < w.len() && w[j] == x;
            assert(w.push(k)[j] == x);
        }
        if x == k {
            assert(w.push(k)[w.len() as int] == k);
        }
        if w.push(k).contains(x) && x != k {
            let j = choose|j: int| 0 <= j < w.len() + 1 && w.push(k)[j] == x;
            assert(j < w.len());
            assert(w.contains(x));
        }
    }
}

/// Removing an occurring text shortens by one.
pub proof fn lemma_without_len(s: Seq<Seq<char>>, k: Seq<char>)
    requires
        texts_distinct(s),
        s.contains(k),
    ensures
        without(s, k).len() == s.len() - 1,
{
    let i = choose|i: int| 0 <= i < s.len() && s[i] == k;
    lemma_without_at(s, k, i);
}

} // verus!
