//! An ordered map keyed by 32-byte keys: the entries are kept sorted by key,
//! each key at most once, so iteration order is the key order.

use vstd::prelude::*;

use crate::bytes::{compare_keys, key_lt, lemma_lex_transitive, Cmp, Key32};

verus! {

pub open spec fn entry_keys<V>(s: Seq<(Key32, V)>) -> Seq<Key32> {
    s.map_values(|e: (Key32, V)| e.0)
}

/// Entries strictly increasing by key.
pub open spec fn entries_sorted<V>(s: Seq<(Key32, V)>) -> bool {
    forall|i: int, j: int| 0 <= i < j < s.len() ==> #[trigger] key_lt(s[i].0, s[j].0)
}

pub open spec fn has_key<V>(s: Seq<(Key32, V)>, k: Key32) -> bool {
    exists|i: int| 0 <= i < s.len() && #[trigger] s[i].0 == k
}

/// The map that a list of entries with distinct keys stands for.
pub open spec fn map_of<V>(s: Seq<(Key32, V)>) -> Map<Key32, V> {
    Map::new(|k: Key32| has_key(s, k), |k: Key32| entry_value(s, k))
}

/// The value of an entry with key `k`.
pub open spec fn entry_value<V>(s: Seq<(Key32, V)>, k: Key32) -> V {
    s[entry_index(s, k)].1
}

/// The index of an entry with key `k`.
pub open spec fn entry_index<V>(s: Seq<(Key32, V)>, k: Key32) -> int {
    choose|i: int| 0 <= i < s.len() && #[trigger] s[i].0 == k
}

pub proof fn lemma_sorted_distinct<V>(s: Seq<(Key32, V)>, i: int, j: int)
    requires
        entries_sorted(s),
        0 <= i < s.len(),
        0 <= j < s.len(),
        s[i].0 == s[j].0,
    ensures
        i == j,
{
    if i < j {
        assert(key_lt(s[i].0, s[j].0));
    } else if j < i {
        assert(key_lt(s[j].0, s[i].0));
    }
}

pub proof fn lemma_map_of_index<V>(s: Seq<(Key32, V)>, i: int)
    requires
        entries_sorted(s),
        0 <= i < s.len(),
    ensures
        map_of(s).contains_key(s[i].0),
        map_of(s)[s[i].0] == s[i].1,
{
    let k = s[i].0;
    assert(has_key(s, k));
    let j = entry_index(s, k);
    lemma_sorted_distinct(s, i, j);
    assert(map_of(s).contains_key(k));
}

/// Maps of two sorted entry lists agree when every key/value of one is found in the other.
pub proof fn lemma_map_of_ext<V>(s: Seq<(Key32, V)>, m: Map<Key32, V>)
    requires
        entries_sorted(s),
        forall|i: int| 0 <= i < s.len() ==> m.contains_key(#[trigger] s[i].0) && m[s[i].0] == s[i].1,
        forall|k: Key32| m.contains_key(k) ==> has_key(s, k),
    ensures
        map_of(s) == m,
{
    assert forall|k: Key32| map_of(s).contains_key(k) <==> m.contains_key(k) by {}
    assert forall|k: Key32| map_of(s).contains_key(k) implies map_of(s)[k] == m[k] by {
        let i = choose|i: int| 0 <= i < s.len() && #[trigger] s[i].0 == k;
        lemma_map_of_index(s, i);
    }
    assert(map_of(s) =~= m);
}

/// A sorted map from 32-byte keys to values.
#[derive(Debug, Clone, PartialEq, Eq)]
pub struct KeyMap<V> {
    entries: Vec<(Key32, V)>,
}

impl<V: Copy> KeyMap<V> {
    /// Well-formed: entries strictly sorted by key.
    pub closed spec fn wf(&self) -> bool {
        entries_sorted(self.entries@)
    }

    pub closed spec fn view(&self) -> Map<Key32, V> {
        map_of(self.entries@)
    }

    pub closed spec fn entries_view(&self) -> Seq<(Key32, V)> {
        self.entries@
    }

    pub proof fn lemma_entries(&self)
        requires
            self.wf(),
        ensures
            entries_sorted(self.entries_view()),
            map_of(self.entries_view()) == self.view(),
    {
    }

    pub fn new() -> (r: Self)
        ensures
            r.wf(),
            r.view() == Map::<Key32, V>::empty(),
    {
        let r = KeyMap { entries: Vec::new() };
        assert(map_of(r.entries@) =~= Map::<Key32, V>::empty());
        r
    }

    /// Index of the first entry whose key is not below `k`.
    fn position(&self, k: &Key32) -> (r: (usize, bool))
        requires
            self.wf(),
        ensures
            r.0 <= self.entries@.len(),
            forall|j: int| 0 <= j < r.0 ==> #[trigger] key_lt(self.entries@[j].0, *k),
            r.1 ==> r.0 < self.entries@.len() && self.entries@[r.0 as int].0 == *k,
            !r.1 ==> r.0 < self.entries@.len() ==> key_lt(*k, self.entries@[r.0 as int].0),
    {
        let mut i: usize = 0;
        while i < self.entries.len()
            invariant
                0 <= i <= self.entries@.len(),
                forall|j: int| 0 <= j < i ==> #[trigger] key_lt(self.entries@[j].0, *k),
            decreases self.entries@.len() - i,
        {
            match compare_keys(&self.entries[i].0, k) {
                Cmp::Less => {
                    i = i + 1;
                },
                Cmp::Equal => {
                    return (i, true);
                },
                Cmp::Greater => {
                    return (i, false);
                },
            }
        }
        (i, false)
    }

    proof fn lemma_absent(&self, k: Key32, p: int)
        requires
            self.wf(),
            0 <= p <= self.entries@.len(),
            forall|j: int| 0 <= j < p ==> #[trigger] key_lt(self.entries@[j].0, k),
            p < self.entries@.len() ==> key_lt(k, self.entries@[p].0),
        ensures
            !self.view().contains_key(k),
    {
        let s = self.entries@;
        if has_key(s, k) {
            let i = choose|i: int| 0 <= i < s.len() && #[trigger] s[i].0 == k;
            if i < p {
                assert(key_lt(s[i].0, k));
                crate::bytes::lemma_lex_irreflexive(k@);
            } else if i > p {
                assert(key_lt(s[p].0, s[i].0));
                lemma_lex_transitive(k@, s[p].0@, k@);
                crate::bytes::lemma_lex_irreflexive(k@);
            } else {
                crate::bytes::lemma_lex_irreflexive(k@);
            }
        }
    }

    pub fn get(&self, k: &Key32) -> (r: Option<V>)
        requires
            self.wf(),
        ensures
            r == (if self.view().contains_key(*k) {
                Some(self.view()[*k])
            } else {
                None
            }),
    {
        let (p, found) = self.position(k);
        if found {
            proof {
                lemma_map_of_index(self.entries@, p as int);
            }
            Some(self.entries[p].1)
        } else {
            proof {
                self.lemma_absent(*k, p as int);
            }
            None
        }
    }

    pub fn contains(&self, k: &Key32) -> (r: bool)
        requires
            self.wf(),
        ensures
            r == self.view().contains_key(*k),
    {
        match self.get(k) {
            Some(_) => true,
            None => false,
        }
    }

    pub fn insert(&mut self, k: Key32, v: V)
        requires
            old(self).wf(),
        ensures
            final(self).wf(),
            final(self).view() == old(self).view().insert(k, v),
    {
        let ghost s = self.entries@;
        let (p, found) = self.position(&k);
        if found {
            self.entries.set(p, (k, v));
            proof {
                let t = self.entries@;
                assert(t == s.update(p as int, (k, v)));
                assert(entries_sorted(t)) by {
                    assert forall|i: int, j: int| 0 <= i < j < t.len() implies #[trigger] key_lt(
                        t[i].0,
                        t[j].0,
                    ) by {
                        assert(key_lt(s[i].0, s[j].0));
                    }
                }
                let m = map_of(s).insert(k, v);
                assert forall|i: int| 0 <= i < t.len() implies m.contains_key(#[trigger] t[i].0)
                    && m[t[i].0] == t[i].1 by {
                    if i != p {
                        lemma_map_of_index(s, i);
                        if s[i].0 == k {
                            lemma_sorted_distinct(s, i, p as int);
                        }
                    }
                }
                assert forall|x: Key32| m.contains_key(x) implies has_key(t, x) by {
                    if x == k {
                        assert(t[p as int].0 == k);
                    } else {
                        let i = choose|i: int| 0 <= i < s.len() && #[trigger] s[i].0 == x;
                        assert(t[i].0 == x);
                    }
                }
                lemma_map_of_ext(t, m);
            }
        } else {
            proof {
                self.lemma_absent(k, p as int);
            }
            self.entries.insert(p, (k, v));
            proof {
                let t = self.entries@;
                assert(t =~= s.subrange(0, p as int).push((k, v)) + s.subrange(p as int, s.len() as int));
                assert(entries_sorted(t)) by {
                    assert forall|a: int, b: int| 0 <= a < b < t.len() implies #[trigger] key_lt(
                        t[a].0,
                        t[b].0,
                    ) by {
                        if b < p {
                            assert(t[a] == s[a] && t[b] == s[b]);
                        } else if b == p {
                            assert(t[a] == s[a]);
                        } else if a == p {
                            assert(t[b] == s[b - 1]);
                            if b - 1 > p {
                                assert(key_lt(s[p as int].0, s[b - 1].0));
                                lemma_lex_transitive(k@, s[p as int].0@, s[b - 1].0@);
                            }
                        } else if a < p {
                            assert(t[b] == s[b - 1]);
                            assert(t[a] == s[a]);
                        } else {
                            assert(t[a] == s[a - 1] && t[b] == s[b - 1]);
                        }
                    }
                }
                let m = map_of(s).insert(k, v);
                assert forall|i: int| 0 <= i < t.len() implies m.contains_key(#[trigger] t[i].0)
                    && m[t[i].0] == t[i].1 by {
                    if i < p {
                        assert(t[i] == s[i]);
                        lemma_map_of_index(s, i);
                        if s[i].0 == k {
                            assert(map_of(s).contains_key(k));
                        }
                    } else if i > p {
                        assert(t[i] == s[i - 1]);
                        lemma_map_of_index(s, i - 1);
                        if s[i - 1].0 == k {
                            assert(map_of(s).contains_key(k));
                        }
                    }
                }
                assert forall|x: Key32| m.contains_key(x) implies has_key(t, x) by {
                    if x == k {
                        assert(t[p as int].0 == k);
                    } else {
                        let i = choose|i: int| 0 <= i < s.len() && #[trigger] s[i].0 == x;
                        if i < p {
                            assert(t[i].0 == x);
                        } else {
                            assert(t[i + 1].0 == x);
                        }
                    }
                }
                lemma_map_of_ext(t, m);
            }
        }
    }

    pub fn remove(&mut self, k: &Key32)
        requires
            old(self).wf(),
        ensures
            final(self).wf(),
            final(self).view() == old(self).view().remove(*k),
    {
        let ghost s = self.entries@;
        let (p, found) = self.position(k);
        if found {
            self.entries.remove(p);
            proof {
                let t = self.entries@;
                assert(t =~= s.subrange(0, p as int) + s.subrange(p + 1, s.len() as int));
                assert(entries_sorted(t)) by {
                    assert forall|a: int, b: int| 0 <= a < b < t.len() implies #[trigger] key_lt(
                        t[a].0,
                        t[b].0,
                    ) by {
                        if b < p {
                            assert(t[a] == s[a] && t[b] == s[b]);
                        } else if a < p {
                            assert(t[a] == s[a] && t[b] == s[b + 1]);
                        } else {
                            assert(t[a] == s[a + 1] && t[b] == s[b + 1]);
                        }
                    }
                }
                let m = map_of(s).remove(*k);
                assert forall|i: int| 0 <= i < t.len() implies m.contains_key(#[trigger] t[i].0)
                    && m[t[i].0] == t[i].1 by {
                    if i < p {
                        assert(t[i] == s[i]);
                        lemma_map_of_index(s, i);
                        if s[i].0 == *k {
                            lemma_sorted_distinct(s, i, p as int);
                        }
                    } else {
                        assert(t[i] == s[i + 1]);
                        lemma_map_of_index(s, i + 1);
                        if s[i + 1].0 == *k {
                            lemma_sorted_distinct(s, i + 1, p as int);
                        }
                    }
                }
                assert forall|x: Key32| m.contains_key(x) implies has_key(t, x) by {
                    let i = choose|i: int| 0 <= i < s.len() && #[trigger] s[i].0 == x;
                    if i < p {
                        assert(t[i].0 == x);
                    } else if i > p {
                        assert(t[i - 1].0 == x);
                    }
                }
                lemma_map_of_ext(t, m);
            }
        } else {
            proof {
                self.lemma_absent(*k, p as int);
                assert(map_of(s).remove(*k) =~= map_of(s));
            }
        }
    }

    /// The entries, in increasing key order.
    pub fn to_vec(&self) -> (r: Vec<(Key32, V)>)
        requires
            self.wf(),
        ensures
            entries_sorted(r@),
            map_of(r@) == self.view(),
    {
        let mut out: Vec<(Key32, V)> = Vec::new();
        let mut i: usize = 0;
        while i < self.entries.len()
            invariant
                0 <= i <= self.entries@.len(),
                out@ == self.entries@.subrange(0, i as int),
            decreases self.entries@.len() - i,
        {
            out.push(self.entries[i]);
            assert(out@ =~= self.entries@.subrange(0, i + 1));
            i = i + 1;
        }
        assert(out@ =~= self.entries@);
        out
    }

    pub fn len(&self) -> (r: usize)
        requires
            self.wf(),
        ensures
            r == self.view().dom().len(),
    {
        proof {
            self.lemma_len();
        }
        self.entries.len()
    }

    pub proof fn lemma_dom_finite(&self)
        requires
            self.wf(),
        ensures
            self.view().dom().finite(),
    {
        self.lemma_len();
    }

    proof fn lemma_len(&self)
        requires
            self.wf(),
        ensures
            self.entries@.len() == self.view().dom().len(),
            self.view().dom().finite(),
    {
        let s = self.entries@;
        let ks = entry_keys(s);
        assert(ks.no_duplicates()) by {
            assert forall|i: int, j: int| 0 <= i < ks.len() && 0 <= j < ks.len() && i != j implies ks[i] != ks[j] by {
                if ks[i] == ks[j] {
                    lemma_sorted_distinct(s, i, j);
                }
            }
        }
        ks.unique_seq_to_set();
        assert(ks.to_set() =~= self.view().dom()) by {
            assert forall|x: Key32| ks.to_set().contains(x) <==> self.view().dom().contains(x) by {
                if ks.contains(x) {
                    let i = choose|i: int| 0 <= i < ks.len() && ks[i] == x;
                    assert(s[i].0 == x);
                }
                if has_key(s, x) {
                    let i = choose|i: int| 0 <= i < s.len() && #[trigger] s[i].0 == x;
                    assert(ks[i] == x);
                }
            }
        }
    }
}

impl KeyMap<Key32> {
    /// Drop every entry whose value is `v`.
    pub fn remove_value(&mut self, v: &Key32)
        requires
            old(self).wf(),
        ensures
            final(self).wf(),
            final(self).view() == old(self).view().restrict(
                old(self).view().dom().filter(|k: Key32| old(self).view()[k] != *v),
            ),
    {
        let ghost s = self.entries@;
        let mut out: Vec<(Key32, Key32)> = Vec::new();
        let mut i: usize = 0;
        while i < self.entries.len()
            invariant
                self.entries@ == s,
                entries_sorted(s),
                0 <= i <= s.len(),
                entries_sorted(out@),
                forall|a: int| #![trigger out@[a]] 0 <= a < out@.len() ==> exists|b: int| 0 <= b < i && #[trigger] s[b] == out@[a],
                forall|a: int| 0 <= a < out@.len() ==> out@[a].1 != *v,
                forall|b: int| 0 <= b < i && s[b].1 != *v ==> #[trigger] has_key(out@, s[b].0),
                out@.len() > 0 ==> exists|b: int| 0 <= b < i && s[b] == out@.last(),
            decreases s.len() - i,
        {
            let e = self.entries[i];
            if !crate::bytes::keys_equal(&e.1, v) {
                let ghost before = out@;
                proof {
                    assert forall|a: int| 0 <= a < before.len() implies #[trigger] key_lt(before[a].0, e.0) by {
                        let b = choose|b: int| 0 <= b < i && #[trigger] s[b] == before[a];
                        assert(key_lt(s[b].0, s[i as int].0));
                    }
                }
                out.push(e);
                proof {
                    let t = out@;
                    assert forall|a: int, c: int| 0 <= a < c < t.len() implies #[trigger] key_lt(t[a].0, t[c].0) by {
                        if c < before.len() {
                            assert(t[a] == before[a] && t[c] == before[c]);
                        } else {
                            assert(t[a] == before[a]);
                        }
                    }
                    assert forall|a: int| #![trigger t[a]] 0 <= a < t.len() implies exists|b: int| 0 <= b < i + 1 && #[trigger] s[b] == t[a] by {
                        if a < before.len() {
                            let b = choose|b: int| 0 <= b < i && #[trigger] s[b] == before[a];
                            assert(s[b] == t[a]);
                        } else {
                            assert(s[i as int] == t[a]);
                        }
                    }
                    assert forall|b: int| 0 <= b < i + 1 && s[b].1 != *v implies #[trigger] has_key(t, s[b].0) by {
                        if b < i {
                            assert(has_key(before, s[b].0));
                            let a = choose|a: int| 0 <= a < before.len() && #[trigger] before[a].0 == s[b].0;
                            assert(t[a].0 == s[b].0);
                        } else {
                            assert(t[t.len() - 1].0 == s[b].0);
                        }
                    }
                }
            }
            i = i + 1;
        }
        self.entries = out;
        proof {
            let t = self.entries@;
            let old_m = map_of(s);
            let m = old_m.restrict(old_m.dom().filter(|k: Key32| old_m[k] != *v));
            assert forall|a: int| 0 <= a < t.len() implies m.contains_key(#[trigger] t[a].0) && m[t[a].0] == t[a].1 by {
                let b = choose|b: int| 0 <= b < s.len() && #[trigger] s[b] == t[a];
                lemma_map_of_index(s, b);
            }
            assert forall|x: Key32| m.contains_key(x) implies has_key(t, x) by {
                let b = choose|b: int| 0 <= b < s.len() && #[trigger] s[b].0 == x;
                lemma_map_of_index(s, b);
            }
            lemma_map_of_ext(t, m);
        }
    }
}

} // verus!
