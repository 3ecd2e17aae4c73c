//! A verified association map, the backing structure of every entity store
//! and index in this crate.
//!
//! The map is a vector of key/value entries with pairwise-distinct keys; its
//! view is the mathematical `Map` from key views to value views.  Lookups are
//! linear, which is all the core needs: every ceiling is a small constant.

use vstd::prelude::*;

use crate::util::string_eq;

verus! {

/// A key type usable by [`KvMap`]: equality and duplication agree with the
/// key's view.
pub trait MapKey: View + Sized {
    /// Deep equality of two keys.
    fn key_eq(&self, other: &Self) -> (r: bool)
        ensures
            r == (self@ == other@),
    ;

    /// An exact copy of the key.
    fn key_dup(&self) -> (r: Self)
        ensures
            r@ == self@,
    ;
}

impl MapKey for u128 {
    fn key_eq(&self, other: &Self) -> (r: bool) {
        *self == *other
    }

    fn key_dup(&self) -> (r: Self) {
        *self
    }
}

impl MapKey for String {
    fn key_eq(&self, other: &Self) -> (r: bool) {
        string_eq(self, other)
    }

    fn key_dup(&self) -> (r: Self) {
        self.clone()
    }
}

/// The key views of an entry sequence, in entry order.
pub open spec fn kv_key_seq<K: View, V>(s: Seq<(K, V)>) -> Seq<K::V> {
    s.map_values(|e: (K, V)| e.0@)
}

/// Pairwise distinctness of the keys of an entry sequence.
pub open spec fn kv_distinct_keys<K: View, V>(s: Seq<(K, V)>) -> bool {
    forall|i: int, j: int| 0 <= i < j < s.len() ==> s[i].0@ != s[j].0@
}

/// The mathematical map denoted by an entry sequence; a later entry wins.
pub open spec fn kv_map_of<K: View, V: View>(s: Seq<(K, V)>) -> Map<<K as View>::V, <V as View>::V>
    decreases s.len(),
{
    if s.len() == 0 {
        Map::empty()
    } else {
        kv_map_of(s.drop_last()).insert(s.last().0@, s.last().1@)
    }
}

/// A key is in the denoted map exactly when some entry holds it.
pub proof fn lemma_kv_map_of_contains<K: View, V: View>(s: Seq<(K, V)>)
    ensures
        forall|k: <K as View>::V|
            #[trigger] kv_map_of(s).contains_key(k) <==> kv_key_seq(s).contains(k),
    decreases s.len(),
{
    if s.len() == 0 {
        assert(forall|k: <K as View>::V| !kv_key_seq(s).contains(k));
    } else {
        let d = s.drop_last();
        lemma_kv_map_of_contains(d);
        assert(kv_key_seq(s).len() == s.len());
        assert(kv_key_seq(d).len() == d.len());
        assert(forall|j: int| 0 <= j < s.len() ==> #[trigger] kv_key_seq(s)[j] == s[j].0@);
        assert(forall|j: int| 0 <= j < d.len() ==> #[trigger] kv_key_seq(d)[j] == d[j].0@);
        assert(forall|j: int| 0 <= j < d.len() ==> #[trigger] d[j] == s[j]);
        assert forall|k: <K as View>::V|
            #[trigger] kv_map_of(s).contains_key(k) <==> kv_key_seq(s).contains(k) by {
            if kv_map_of(s).contains_key(k) {
                if k == s.last().0@ {
                    assert(kv_key_seq(s)[s.len() - 1] == k);
                    assert(kv_key_seq(s).contains(k));
                } else {
                    assert(kv_map_of(d).contains_key(k));
                    assert(kv_key_seq(d).contains(k));
                    let i = choose|i: int| 0 <= i < kv_key_seq(d).len() && kv_key_seq(d)[i] == k;
                    assert(kv_key_seq(s)[i] == k);
                    assert(kv_key_seq(s).contains(k));
                }
            }
            if kv_key_seq(s).contains(k) {
                let i = choose|i: int| 0 <= i < kv_key_seq(s).len() && kv_key_seq(s)[i] == k;
                if i == s.len() - 1 {
                    assert(k == s.last().0@);
                    assert(kv_map_of(s).contains_key(k));
                } else {
                    assert(kv_key_seq(d)[i] == k);
                    assert(kv_key_seq(d).contains(k));
                    assert(kv_map_of(d).contains_key(k));
                }
            }
        }
    }
}

/// Each entry of a distinct-keyed sequence is found in the denoted map.
pub proof fn lemma_kv_map_of_index<K: View, V: View>(s: Seq<(K, V)>, i: int)
    requires
        kv_distinct_keys(s),
        0 <= i < s.len(),
    ensures
        kv_map_of(s).contains_key(s[i].0@),
        kv_map_of(s)[s[i].0@] == s[i].1@,
    decreases s.len(),
{
    let d = s.drop_last();
    if i == s.len() - 1 {
    } else {
        lemma_kv_map_of_index(d, i);
        assert(s[i].0@ != s.last().0@);
    }
}

/// A distinct-keyed sequence denotes a finite map with one entry per key.
pub proof fn lemma_kv_map_of_len<K: View, V: View>(s: Seq<(K, V)>)
    requires
        kv_distinct_keys(s),
    ensures
        kv_map_of(s).dom().finite(),
        kv_map_of(s).dom().len() == s.len(),
    decreases s.len(),
{
    if s.len() == 0 {
        assert(kv_map_of(s).dom() =~= Set::empty());
    } else {
        let d = s.drop_last();
        lemma_kv_map_of_len(d);
        lemma_kv_map_of_contains(d);
        assert(!kv_key_seq(d).contains(s.last().0@)) by {
            if kv_key_seq(d).contains(s.last().0@) {
                let i = choose|i: int|
                    0 <= i < kv_key_seq(d).len() && kv_key_seq(d)[i] == s.last().0@;
                assert(s[i].0@ == s[s.len() - 1].0@);
            }
        }
        assert(kv_map_of(s).dom() =~= kv_map_of(d).dom().insert(s.last().0@));
    }
}

/// Removing the entry at `i` removes exactly its key from the denoted map.
pub proof fn lemma_kv_map_of_remove<K: View, V: View>(s: Seq<(K, V)>, i: int)
    requires
        kv_distinct_keys(s),
        0 <= i < s.len(),
    ensures
        kv_map_of(s.remove(i)) == kv_map_of(s).remove(s[i].0@),
    decreases s.len(),
{
    let d = s.drop_last();
    lemma_kv_map_of_contains(d);
    if i == s.len() - 1 {
        assert(s.remove(i) =~= d);
        assert(!kv_map_of(d).contains_key(s.last().0@)) by {
            if kv_key_seq(d).contains(s.last().0@) {
                let j = choose|j: int|
                    0 <= j < kv_key_seq(d).len() && kv_key_seq(d)[j] == s.last().0@;
                assert(s[j].0@ == s[s.len() - 1].0@);
            }
        }
        assert(kv_map_of(d).insert(s.last().0@, s.last().1@).remove(s.last().0@) =~= kv_map_of(
            d,
        ));
    } else {
        let r = s.remove(i);
        assert(r.drop_last() =~= d.remove(i));
        assert(r.last() == s.last());
        assert(r.len() == s.len() - 1);
        lemma_kv_map_of_remove(d, i);
        assert(d[i] == s[i]);
        assert(s[i].0@ != s.last().0@);
        assert(kv_map_of(r) == kv_map_of(d.remove(i)).insert(r.last().0@, r.last().1@));
        assert(kv_map_of(d).remove(s[i].0@).insert(s.last().0@, s.last().1@) =~= kv_map_of(
            d,
        ).insert(s.last().0@, s.last().1@).remove(s[i].0@));
    }
}

/// Association map from keys to entities, with a `Map` view.
pub struct KvMap<K, V> {
    entries: Vec<(K, V)>,
}

impl<K: MapKey, V: View> View for KvMap<K, V> {
    type V = Map<<K as View>::V, <V as View>::V>;

    closed spec fn view(&self) -> Map<<K as View>::V, <V as View>::V> {
        kv_map_of(self.entries@)
    }
}

impl<K: MapKey, V: View> KvMap<K, V> {
    /// Structural well-formedness: entry keys are pairwise distinct.
    pub closed spec fn wf(&self) -> bool {
        kv_distinct_keys(self.entries@)
    }

    /// The denoted map of a well-formed `KvMap` is finite.
    pub proof fn lemma_dom_finite(&self)
        requires
            self.wf(),
        ensures
            self@.dom().finite(),
    {
        lemma_kv_map_of_len(self.entries@);
    }

    /// An empty map.
    pub fn new() -> (r: Self)
        ensures
            r.wf(),
            r@ == Map::<<K as View>::V, <V as View>::V>::empty(),
    {
        let r = KvMap { entries: Vec::new() };
        proof {
            assert(r@ =~= Map::<<K as View>::V, <V as View>::V>::empty());
        }
        r
    }

    /// The position of `key` among the entries, if any.
    fn index_of(&self, key: &K) -> (r: Option<usize>)
        requires
            self.wf(),
        ensures
            match r {
                Some(i) => 0 <= i < self.entries@.len() && self.entries@[i as int].0@ == key@
                    && self@.contains_key(key@),
                None => !self@.contains_key(key@),
            },
    {
        let mut i: usize = 0;
        while i < self.entries.len()
            invariant
                self.wf(),
                0 <= i <= self.entries@.len(),
                forall|j: int| 0 <= j < i ==> self.entries@[j].0@ != key@,
            decreases self.entries@.len() - i,
        {
            let e = &self.entries[i];
            if e.0.key_eq(key) {
                proof {
                    lemma_kv_map_of_contains(self.entries@);
                    assert(kv_key_seq(self.entries@)[i as int] == key@);
                }
                return Some(i);
            }
            i = i + 1;
        }
        proof {
            lemma_kv_map_of_contains(self.entries@);
            assert(!kv_key_seq(self.entries@).contains(key@)) by {
                if kv_key_seq(self.entries@).contains(key@) {
                    let j = choose|j: int|
                        0 <= j < kv_key_seq(self.entries@).len() && kv_key_seq(self.entries@)[j]
                            == key@;
                    assert(self.entries@[j].0@ == key@);
                }
            }
        }
        None
    }

    /// Looks `key` up.
    pub fn get(&self, key: &K) -> (r: Option<&V>)
        requires
            self.wf(),
        ensures
            match r {
                Some(v) => self@.contains_key(key@) && v@ == self@[key@],
                None => !self@.contains_key(key@),
            },
    {
        match self.index_of(key) {
            Some(i) => {
                proof {
                    lemma_kv_map_of_index(self.entries@, i as int);
                }
                Some(&self.entries[i].1)
            },
            None => None,
        }
    }

    /// Whether `key` is present.
    pub fn contains_key(&self, key: &K) -> (r: bool)
        requires
            self.wf(),
        ensures
            r == self@.contains_key(key@),
    {
        self.index_of(key).is_some()
    }

    /// Removes `key` if present.
    pub fn remove(&mut self, key: &K)
        requires
            old(self).wf(),
        ensures
            final(self).wf(),
            final(self)@ == old(self)@.remove(key@),
    {
        match self.index_of(key) {
            Some(i) => {
                let ghost pre = self.entries@;
                let _ = self.entries.remove(i);
                proof {
                    lemma_kv_map_of_remove(pre, i as int);
                    assert(self.entries@ =~= pre.remove(i as int));
                    assert forall|a: int, b: int|
                        0 <= a < b < self.entries@.len() implies self.entries@[a].0@
                        != self.entries@[b].0@ by {
                        let pa: int = if a < i as int {
                            a
                        } else {
                            a + 1
                        };
                        let pb: int = if b < i as int {
                            b
                        } else {
                            b + 1
                        };
                        assert(self.entries@[a] == pre[pa]);
                        assert(self.entries@[b] == pre[pb]);
                    }
                }
            },
            None => {
                proof {
                    assert(old(self)@.remove(key@) =~= old(self)@);
                }
            },
        }
    }

    /// Inserts or replaces the entry for `key`.
    pub fn insert(&mut self, key: K, value: V)
        requires
            old(self).wf(),
        ensures
            final(self).wf(),
            final(self)@ == old(self)@.insert(key@, value@),
    {
        let ghost k0 = key@;
        let ghost v0 = value@;
        self.remove(&key);
        proof {
            lemma_kv_map_of_contains(self.entries@);
        }
        let ghost mid = self.entries@;
        self.entries.push((key, value));
        proof {
            assert(self.entries@.drop_last() =~= mid);
            assert(self.entries@.last().0@ == k0);
            assert(self.entries@.last().1@ == v0);
            assert(self@ == kv_map_of(mid).insert(k0, v0));
            assert(old(self)@.remove(k0).insert(k0, v0) =~= old(self)@.insert(k0, v0));
            assert(!kv_key_seq(mid).contains(k0)) by {
                if kv_key_seq(mid).contains(k0) {
                    let j = choose|j: int|
                        0 <= j < kv_key_seq(mid).len() && kv_key_seq(mid)[j] == k0;
                    assert(mid[j].0@ == k0);
                    assert(kv_map_of(mid).contains_key(k0));
                }
            }
            assert forall|a: int, b: int|
                0 <= a < b < self.entries@.len() implies self.entries@[a].0@
                != self.entries@[b].0@ by {
                if b == self.entries@.len() - 1 {
                    assert(mid[a].0@ == kv_key_seq(mid)[a]);
                }
            }
        }
    }

    /// The number of entries.
    pub fn len(&self) -> (r: usize)
        requires
            self.wf(),
        ensures
            r == self@.dom().len(),
            self@.dom().finite(),
    {
        proof {
            lemma_kv_map_of_len(self.entries@);
        }
        self.entries.len()
    }

    /// All keys, in entry order: exactly one per entry of the denoted map.
    pub fn keys(&self) -> (r: Vec<K>)
        requires
            self.wf(),
        ensures
            r@.len() == self@.dom().len(),
            forall|i: int| 0 <= i < r@.len() ==> self@.contains_key(#[trigger] r@[i]@),
            forall|i: int, j: int| 0 <= i < j < r@.len() ==> r@[i]@ != r@[j]@,
            forall|kv: <K as View>::V|
                #[trigger] self@.contains_key(kv) ==> exists|i: int|
                    0 <= i < r@.len() && r@[i]@ == kv,
    {
        let mut r: Vec<K> = Vec::new();
        let mut i: usize = 0;
        while i < self.entries.len()
            invariant
                self.wf(),
                0 <= i <= self.entries@.len(),
                r@.len() == i,
                forall|j: int| 0 <= j < i ==> #[trigger] r@[j]@ == self.entries@[j].0@,
            decreases self.entries@.len() - i,
        {
            let e = &self.entries[i];
            r.push(e.0.key_dup());
            i = i + 1;
        }
        proof {
            lemma_kv_map_of_contains(self.entries@);
            lemma_kv_map_of_len(self.entries@);
            assert forall|i: int| 0 <= i < r@.len() implies self@.contains_key(
                #[trigger] r@[i]@,
            ) by {
                assert(kv_key_seq(self.entries@)[i] == self.entries@[i].0@);
            }
            assert forall|kv: <K as View>::V| #[trigger] self@.contains_key(kv) implies exists|
                i: int,
            | 0 <= i < r@.len() && r@[i]@ == kv by {
                let j = choose|j: int|
                    0 <= j < kv_key_seq(self.entries@).len() && kv_key_seq(self.entries@)[j] == kv;
                assert(r@[j]@ == kv);
            }
        }
        r
    }
}

impl<V: View> KvMap<u128, V> {
    /// All keys of a numerically keyed map, in entry order: exactly one per
    /// entry of the denoted map.
    pub fn id_keys(&self) -> (r: Vec<u128>)
        requires
            self.wf(),
        ensures
            r@.len() == self@.dom().len(),
            forall|i: int| 0 <= i < r@.len() ==> self@.contains_key(#[trigger] r@[i]),
            forall|i: int, j: int| 0 <= i < j < r@.len() ==> r@[i] != r@[j],
            forall|k: u128| #[trigger]
                self@.contains_key(k) ==> exists|i: int| 0 <= i < r@.len() && r@[i] == k,
    {
        let mut r: Vec<u128> = Vec::new();
        let mut i: usize = 0;
        while i < self.entries.len()
            invariant
                self.wf(),
                0 <= i <= self.entries@.len(),
                r@.len() == i,
                forall|j: int| 0 <= j < i ==> #[trigger] r@[j] == self.entries@[j].0,
            decreases self.entries@.len() - i,
        {
            let e = &self.entries[i];
            r.push(e.0);
            i = i + 1;
        }
        proof {
            lemma_kv_map_of_contains(self.entries@);
            lemma_kv_map_of_len(self.entries@);
            assert forall|j: int| 0 <= j < r@.len() implies self@.contains_key(
                #[trigger] r@[j],
            ) by {
                assert(kv_key_seq(self.entries@)[j] == self.entries@[j].0);
                assert(kv_key_seq(self.entries@).contains(r@[j]));
            }
            assert forall|k: u128| #[trigger] self@.contains_key(k) implies exists|i2: int|
                0 <= i2 < r@.len() && r@[i2] == k by {
                let j = choose|j: int|
                    0 <= j < kv_key_seq(self.entries@).len() && kv_key_seq(self.entries@)[j] == k;
                assert(r@[j] == k);
            }
        }
        r
    }
}

} // verus!
