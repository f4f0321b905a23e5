//! A key-ordered map over string-like keys.
//!
//! Entries are kept strictly increasing by key, so iteration order is the
//! stable key order and two maps with the same contents have the same entry
//! sequence.
use vstd::prelude::*;

use crate::text::{
    KeyOrder, chars_before, compare_strs, lemma_before_asymmetric, lemma_before_irreflexive,
    lemma_before_total, lemma_before_transitive,
};

verus! {

/// A key whose identity is its character sequence.
pub trait MapKey: Sized {
    spec fn key_view(&self) -> Seq<char>;

    fn key_str(&self) -> (r: &str)
        ensures
            r@ == self.key_view(),
    ;

    fn key_clone(&self) -> (r: Self)
        ensures
            r == *self,
    ;
}

impl MapKey for String {
    open spec fn key_view(&self) -> Seq<char> {
        self@
    }

    fn key_str(&self) -> (r: &str) {
        self.as_str()
    }

    fn key_clone(&self) -> (r: Self) {
        self.clone()
    }
}

/// Keys of an entry sequence, in order.
pub open spec fn keys_of<K: MapKey, V>(s: Seq<(K, V)>) -> Seq<Seq<char>> {
    s.map_values(|e: (K, V)| e.0.key_view())
}

/// Strictly increasing keys.
pub open spec fn strictly_sorted(keys: Seq<Seq<char>>) -> bool {
    forall|i: int, j: int| 0 <= i < j < keys.len() ==> chars_before(keys[i], keys[j])
}

/// The map denoted by an entry sequence whose keys are distinct.
pub open spec fn map_of<K: MapKey, V>(s: Seq<(K, V)>) -> Map<Seq<char>, V> {
    Map::new(
        |k: Seq<char>| keys_of(s).contains(k),
        |k: Seq<char>| s[keys_of(s).index_of(k)].1,
    )
}

pub proof fn lemma_sorted_distinct(keys: Seq<Seq<char>>, i: int, j: int)
    requires
        strictly_sorted(keys),
        0 <= i < keys.len(),
        0 <= j < keys.len(),
        i != j,
    ensures
        keys[i] != keys[j],
{
    if i < j {
        lemma_before_irreflexive(keys[i]);
    } else {
        lemma_before_irreflexive(keys[j]);
    }
}

pub proof fn lemma_map_of_index<K: MapKey, V>(s: Seq<(K, V)>, i: int)
    requires
        strictly_sorted(keys_of(s)),
        0 <= i < s.len(),
    ensures
        map_of(s).contains_key(s[i].0.key_view()),
        map_of(s)[s[i].0.key_view()] == s[i].1,
{
    let keys = keys_of(s);
    assert(keys[i] == s[i].0.key_view());
    assert(keys.contains(keys[i]));
    let j = keys.index_of(keys[i]);
    if j != i {
        lemma_sorted_distinct(keys, i, j);
    }
}

/// A map from string-like keys to values, ordered by key.
#[derive(Debug, PartialEq, Eq)]
pub struct OrderedMap<K: MapKey, V> {
    entries: Vec<(K, V)>,
}

impl<K: MapKey, V> OrderedMap<K, V> {
    /// The entries in key order.
    pub closed spec fn entry_seq(&self) -> Seq<(K, V)> {
        self.entries@
    }

    /// The keys in order.
    pub open spec fn key_seq(&self) -> Seq<Seq<char>> {
        keys_of(self.entry_seq())
    }

    /// The mathematical map of this ordered map.
    pub open spec fn view(&self) -> Map<Seq<char>, V> {
        map_of(self.entry_seq())
    }

    #[verifier::type_invariant]
    closed spec fn inv(&self) -> bool {
        strictly_sorted(keys_of(self.entries@))
    }

    /// Facts about the relation of the entry sequence and the map view.
    pub fn reveal_entries(&self)
        ensures
            strictly_sorted(self.key_seq()),
            forall|k: Seq<char>| #[trigger]
                self@.contains_key(k) <==> self.key_seq().contains(k),
            forall|i: int|
                0 <= i < self.entry_seq().len() ==> #[trigger] self@[self.entry_seq()[i].0.key_view()]
                    == self.entry_seq()[i].1,
    {
        proof {
            use_type_invariant(self);
            assert forall|i: int| 0 <= i < self.entry_seq().len() implies #[trigger] self@[self.entry_seq()[i].0.key_view()]
                == self.entry_seq()[i].1 by {
                lemma_map_of_index(self.entries@, i);
            }
        }
    }

    /// An empty map.
    pub fn new() -> (r: Self)
        ensures
            r.entry_seq().len() == 0,
            r@ == Map::<Seq<char>, V>::empty(),
    {
        let r = OrderedMap { entries: Vec::new() };
        assert(r@ =~= Map::<Seq<char>, V>::empty());
        r
    }

    /// Number of entries.
    pub fn len(&self) -> (r: usize)
        ensures
            r == self.entry_seq().len(),
    {
        self.entries.len()
    }

    /// Whether the map has no entries.
    pub fn is_empty(&self) -> (r: bool)
        ensures
            r == (self.entry_seq().len() == 0),
    {
        self.entries.len() == 0
    }

    /// The key at position `i` in key order.
    pub fn key_at(&self, i: usize) -> (r: &K)
        requires
            i < self.entry_seq().len(),
        ensures
            *r == self.entry_seq()[i as int].0,
    {
        &self.entries[i].0
    }

    /// The value at position `i` in key order.
    pub fn value_at(&self, i: usize) -> (r: &V)
        requires
            i < self.entry_seq().len(),
        ensures
            *r == self.entry_seq()[i as int].1,
    {
        &self.entries[i].1
    }

    /// Position of `key`, if present.
    pub fn find(&self, key: &str) -> (r: Option<usize>)
        ensures
            match r {
                Some(i) => i < self.entry_seq().len() && self.key_seq()[i as int] == key@,
                None => !self.key_seq().contains(key@),
            },
            r is Some <==> self@.contains_key(key@),
    {
        proof {
            use_type_invariant(self);
        }
        let n = self.entries.len();
        let mut i: usize = 0;
        while i < n
            invariant
                n == self.entries@.len(),
                i <= n,
                forall|j: int| 0 <= j < i ==> keys_of(self.entries@)[j] != key@,
            decreases n - i,
        {
            if crate::text::str_eq(self.entries[i].0.key_str(), key) {
                assert(keys_of(self.entries@)[i as int] == key@);
                return Some(i);
            }
            i = i + 1;
        }
        None
    }

    /// Whether `key` is present.
    pub fn contains_key(&self, key: &str) -> (r: bool)
        ensures
            r == self@.contains_key(key@),
    {
        self.find(key).is_some()
    }

    /// The value stored for `key`, if any.
    pub fn get(&self, key: &str) -> (r: Option<&V>)
        ensures
            match r {
                Some(v) => self@.contains_key(key@) && *v == self@[key@],
                None => !self@.contains_key(key@),
            },
    {
        proof {
            use_type_invariant(self);
        }
        match self.find(key) {
            Some(i) => {
                proof {
                    lemma_map_of_index(self.entries@, i as int);
                }
                Some(&self.entries[i].1)
            },
            None => None,
        }
    }

    /// The position at which `key` is or would be stored.
    fn position(&self, key: &str) -> (r: (usize, bool))
        ensures
            r.0 <= self.entry_seq().len(),
            r.1 ==> r.0 < self.entry_seq().len() && self.key_seq()[r.0 as int] == key@,
            !r.1 ==> forall|j: int|
                0 <= j < self.entry_seq().len() ==> (j < r.0 <==> chars_before(
                    #[trigger] self.key_seq()[j],
                    key@,
                )),
            !r.1 ==> !self.key_seq().contains(key@),
    {
        proof {
            use_type_invariant(self);
        }
        let n = self.entries.len();
        let mut i: usize = 0;
        while i < n
            invariant
                n == self.entries@.len(),
                i <= n,
                strictly_sorted(keys_of(self.entries@)),
                forall|j: int| 0 <= j < i ==> chars_before(#[trigger] keys_of(self.entries@)[j], key@),
            decreases n - i,
        {
            let o = compare_strs(self.entries[i].0.key_str(), key);
            if o == KeyOrder::Equal {
                return (i, true);
            }
            if o == KeyOrder::Greater {
                let ghost keys = keys_of(self.entries@);
                assert forall|j: int| 0 <= j < n implies (j < i <==> chars_before(
                    #[trigger] keys[j],
                    key@,
                )) by {
                    if j >= i {
                        if j > i {
                            lemma_before_transitive(key@, keys[i as int], keys[j]);
                        }
                        lemma_before_asymmetric(keys[j], key@);
                    }
                }
                assert forall|j: int| 0 <= j < n implies keys[j] != key@ by {
                    lemma_before_irreflexive(key@);
                    if j > i {
                        lemma_before_asymmetric(keys[i as int], key@);
                    }
                }
                return (i, false);
            }
            i = i + 1;
        }
        let ghost keys = keys_of(self.entries@);
        assert forall|j: int| 0 <= j < n implies keys[j] != key@ by {
            lemma_before_irreflexive(key@);
        }
        (n, false)
    }

    /// Insert or replace the value for `key`, returning the previous value.
    pub fn insert(&mut self, key: K, value: V) -> (r: Option<V>)
        ensures
            final(self)@ == old(self)@.insert(key.key_view(), value),
            match r {
                Some(v) => old(self)@.contains_key(key.key_view()) && v == old(self)@[key.key_view()],
                None => !old(self)@.contains_key(key.key_view()),
            },
    {
        proof {
            use_type_invariant(&*self);
        }
        let ghost old_entries = self.entries@;
        let (p, found) = self.position(key.key_str());
        let ghost kv = key.key_view();
        if found {
            proof {
                lemma_map_of_index(old_entries, p as int);
            }
            let mut entries = Vec::new();
            std::mem::swap(&mut entries, &mut self.entries);
            let (_, previous) = entries.remove(p);
            entries.insert(p, (key, value));
            let ghost new_entries = entries@;
            assert(new_entries == old_entries.update(p as int, (key, value)));
            assert(keys_of(new_entries) =~= keys_of(old_entries));
            self.entries = entries;
            proof {
                let m = map_of(new_entries);
                let m0 = map_of(old_entries).insert(kv, value);
                assert forall|k: Seq<char>| #[trigger] m.contains_key(k) == m0.contains_key(k) by {
                    if k == kv {
                        assert(keys_of(new_entries)[p as int] == k);
                    }
                }
                assert forall|k: Seq<char>| m.contains_key(k) implies #[trigger] m[k] == m0[k] by {
                    let j = keys_of(new_entries).index_of(k);
                    lemma_map_of_index(new_entries, j);
                    if k != kv {
                        lemma_map_of_index(old_entries, j);
                    } else {
                        lemma_map_of_index(new_entries, p as int);
                    }
                }
                assert(m =~= m0);
            }
            Some(previous)
        } else {
            let mut entries = Vec::new();
            std::mem::swap(&mut entries, &mut self.entries);
            entries.insert(p, (key, value));
            let ghost new_entries = entries@;
            let ghost ok = keys_of(old_entries);
            let ghost nk = keys_of(new_entries);
            assert(nk =~= ok.insert(p as int, kv));
            assert(strictly_sorted(nk)) by {
                assert forall|i: int, j: int| 0 <= i < j < nk.len() implies chars_before(
                    nk[i],
                    nk[j],
                ) by {
                    if j < p {
                    } else if j == p {
                        assert(chars_before(ok[i], kv));
                    } else if i == p {
                        assert(!chars_before(ok[j - 1], kv));
                        assert(ok[j - 1] != kv) by {
                            assert(ok.contains(ok[j - 1]));
                        }
                        lemma_before_total(ok[j - 1], kv);
                    } else if i < p {
                        assert(nk[i] == ok[i]);
                        assert(nk[j] == ok[j - 1]);
                    } else {
                        assert(nk[i] == ok[i - 1]);
                        assert(nk[j] == ok[j - 1]);
                    }
                }
            }
            self.entries = entries;
            proof {
                let m = map_of(new_entries);
                let m0 = map_of(old_entries).insert(kv, value);
                assert forall|k: Seq<char>| #[trigger] m.contains_key(k) == m0.contains_key(k) by {
                    if nk.contains(k) {
                        let j = nk.index_of(k);
                        if j < p {
                            assert(ok[j] == k);
                        } else if j > p {
                            assert(ok[j - 1] == k);
                        }
                    }
                    if ok.contains(k) {
                        let j = ok.index_of(k);
                        if j < p {
                            assert(nk[j] == k);
                        } else {
                            assert(nk[j + 1] == k);
                        }
                    }
                    if k == kv {
                        assert(nk[p as int] == k);
                    }
                }
                assert forall|k: Seq<char>| m.contains_key(k) implies #[trigger] m[k] == m0[k] by {
                    let j = nk.index_of(k);
                    lemma_map_of_index(new_entries, j);
                    if j < p {
                        lemma_map_of_index(old_entries, j);
                    } else if j > p {
                        lemma_map_of_index(old_entries, j - 1);
                    }
                }
                assert(m =~= m0);
            }
            None
        }
    }

    /// Append an entry whose key follows every present key.
    pub fn push_last(&mut self, key: K, value: V)
        requires
            old(self).key_seq().len() == 0 || chars_before(
                old(self).key_seq().last(),
                key.key_view(),
            ),
        ensures
            final(self).entry_seq() == old(self).entry_seq().push((key, value)),
    {
        proof {
            use_type_invariant(&*self);
        }
        let ghost old_entries = self.entries@;
        let mut entries = Vec::new();
        std::mem::swap(&mut entries, &mut self.entries);
        let ghost kv = key.key_view();
        entries.push((key, value));
        let ghost ok = keys_of(old_entries);
        let ghost nk = keys_of(entries@);
        assert(nk =~= ok.push(kv));
        assert(strictly_sorted(nk)) by {
            assert forall|i: int, j: int| 0 <= i < j < nk.len() implies chars_before(
                nk[i],
                nk[j],
            ) by {
                if j == ok.len() && i < ok.len() - 1 {
                    lemma_before_transitive(ok[i], ok.last(), kv);
                }
            }
        }
        self.entries = entries;
    }

    /// The values in key order, consuming the map.
    pub fn into_values(self) -> (r: Vec<V>)
        ensures
            r@ == self.entry_seq().map_values(|e: (K, V)| e.1),
    {
        let ghost all = self.entries@;
        let OrderedMap { entries } = self;
        let mut entries = entries;
        let mut out: Vec<V> = Vec::new();
        while entries.len() > 0
            invariant
                out@.len() + entries@.len() == all.len(),
                entries@ == all.subrange(out@.len() as int, all.len() as int),
                forall|i: int| 0 <= i < out@.len() ==> #[trigger] out@[i] == all[i].1,
            decreases entries@.len(),
        {
            let (_, v) = entries.remove(0);
            out.push(v);
        }
        assert(out@ =~= all.map_values(|e: (K, V)| e.1));
        out
    }

    /// Remove the entry for `key`, returning its value.
    pub fn remove(&mut self, key: &str) -> (r: Option<V>)
        ensures
            final(self)@ == old(self)@.remove(key@),
            match r {
                Some(v) => old(self)@.contains_key(key@) && v == old(self)@[key@],
                None => !old(self)@.contains_key(key@),
            },
    {
        proof {
            use_type_invariant(&*self);
        }
        let ghost old_entries = self.entries@;
        let ghost ok = keys_of(old_entries);
        match self.find(key) {
            None => {
                assert(old_entries == self.entries@);
                assert(map_of(old_entries).remove(key@) =~= map_of(old_entries));
                None
            },
            Some(p) => {
                proof {
                    lemma_map_of_index(old_entries, p as int);
                }
                let mut entries = Vec::new();
                std::mem::swap(&mut entries, &mut self.entries);
                let (_, previous) = entries.remove(p);
                let ghost new_entries = entries@;
                let ghost nk = keys_of(new_entries);
                assert(nk =~= ok.remove(p as int));
                assert(strictly_sorted(nk)) by {
                    assert forall|i: int, j: int| 0 <= i < j < nk.len() implies chars_before(
                        nk[i],
                        nk[j],
                    ) by {
                        if j < p {
                        } else if i < p {
                            assert(nk[j] == ok[j + 1]);
                        } else {
                            assert(nk[i] == ok[i + 1]);
                            assert(nk[j] == ok[j + 1]);
                        }
                    }
                }
                self.entries = entries;
                proof {
                    let m = map_of(new_entries);
                    let m0 = map_of(old_entries).remove(key@);
                    assert forall|k: Seq<char>| #[trigger] m.contains_key(k) == m0.contains_key(k) by {
                        if nk.contains(k) {
                            let j = nk.index_of(k);
                            if j < p {
                                assert(ok[j] == k);
                                lemma_sorted_distinct(ok, j, p as int);
                            } else {
                                assert(ok[j + 1] == k);
                                lemma_sorted_distinct(ok, j + 1, p as int);
                            }
                        }
                        if ok.contains(k) && k != key@ {
                            let j = ok.index_of(k);
                            if j < p {
                                assert(nk[j] == k);
                            } else {
                                assert(j != p);
                                assert(nk[j - 1] == k);
                            }
                        }
                    }
                    assert forall|k: Seq<char>| m.contains_key(k) implies #[trigger] m[k] == m0[k] by {
                        let j = nk.index_of(k);
                        lemma_map_of_index(new_entries, j);
                        if j < p {
                            lemma_map_of_index(old_entries, j);
                        } else {
                            lemma_map_of_index(old_entries, j + 1);
                        }
                    }
                    assert(m =~= m0);
                }
                Some(previous)
            },
        }
    }
}

impl<K: MapKey, V: Clone> Clone for OrderedMap<K, V> {
    fn clone(&self) -> (r: Self)
        ensures
            r.key_seq() == self.key_seq(),
    {
        proof {
            use_type_invariant(self);
        }
        let mut entries: Vec<(K, V)> = Vec::new();
        let n = self.entries.len();
        let mut i: usize = 0;
        while i < n
            invariant
                n == self.entries@.len(),
                i <= n,
                entries@.len() == i,
                forall|j: int| 0 <= j < i ==> #[trigger] entries@[j].0 == self.entries@[j].0,
            decreases n - i,
        {
            let k = self.entries[i].0.key_clone();
            let v = self.entries[i].1.clone();
            entries.push((k, v));
            i = i + 1;
        }
        assert(keys_of(entries@) =~= keys_of(self.entries@));
        OrderedMap { entries }
    }
}

} // verus!
