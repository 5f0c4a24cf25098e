//! Byte strings: lexicographic order on fixed-size keys, equality, and the
//! sorting that canonical encodings and deterministic tie-breaks rely on.

use vstd::prelude::*;

verus! {

broadcast use vstd::array::group_array_axioms;

/// A 32-byte key: a public key, a content hash, a transition or leaf id.
pub type Key32 = [u8; 32];

/// Three-way comparison result.
#[derive(Debug, Clone, Copy, PartialEq, Eq)]
pub enum Cmp {
    Less,
    Equal,
    Greater,
}

/// `a` sorts strictly before `b` in lexicographic byte order.
pub open spec fn lex_lt(a: Seq<u8>, b: Seq<u8>) -> bool {
    exists|i: int|
        #![trigger a[i], b[i]]
        0 <= i < a.len() && i < b.len() && a[i] < b[i] && (forall|j: int|
            0 <= j < i ==> a[j] == b[j])
}

/// Lexicographic order on 32-byte keys, as a (reflexive) total order.
pub open spec fn key_leq(a: Key32, b: Key32) -> bool {
    a == b || lex_lt(a@, b@)
}

pub open spec fn key_lt(a: Key32, b: Key32) -> bool {
    lex_lt(a@, b@)
}

pub proof fn lemma_lex_irreflexive(a: Seq<u8>)
    ensures
        !lex_lt(a, a),
{
}

pub proof fn lemma_lex_transitive(a: Seq<u8>, b: Seq<u8>, c: Seq<u8>)
    requires
        lex_lt(a, b),
        lex_lt(b, c),
    ensures
        lex_lt(a, c),
{
    let i = choose|i: int|
        #![trigger a[i], b[i]]
        0 <= i < a.len() && i < b.len() && a[i] < b[i] && (forall|j: int|
            0 <= j < i ==> a[j] == b[j]);
    let k = choose|k: int|
        #![trigger b[k], c[k]]
        0 <= k < b.len() && k < c.len() && b[k] < c[k] && (forall|j: int|
            0 <= j < k ==> b[j] == c[j]);
    if i < k {
        assert(a[i] < c[i]);
    } else if k < i {
        assert(a[k] < c[k]);
    } else {
        assert(a[i] < c[i]);
    }
}

pub proof fn lemma_lex_asymmetric(a: Seq<u8>, b: Seq<u8>)
    requires
        lex_lt(a, b),
    ensures
        !lex_lt(b, a),
{
    if lex_lt(b, a) {
        lemma_lex_transitive(a, b, a);
    }
}

pub proof fn lemma_lex_total(a: Seq<u8>, b: Seq<u8>)
    requires
        a.len() == b.len(),
        a != b,
    ensures
        lex_lt(a, b) || lex_lt(b, a),
    decreases a.len(),
{
    if a.len() == 0 {
        assert(a =~= b);
    } else if a[0] != b[0] {
        if a[0] < b[0] {
            assert(lex_lt(a, b) && a[0] < b[0]);
        } else {
            assert(lex_lt(b, a) && b[0] < a[0]);
        }
    } else {
        let a1 = a.drop_first();
        let b1 = b.drop_first();
        if a1 =~= b1 {
            assert forall|j: int| 0 <= j < a.len() implies a[j] == b[j] by {
                if j > 0 {
                    assert(a[j] == a1[j - 1] && b[j] == b1[j - 1]);
                }
            }
            assert(a =~= b);
        }
        lemma_lex_total(a1, b1);
        if lex_lt(a1, b1) {
            let i = choose|i: int|
                #![trigger a1[i], b1[i]]
                0 <= i < a1.len() && i < b1.len() && a1[i] < b1[i] && (forall|j: int|
                    0 <= j < i ==> a1[j] == b1[j]);
            assert forall|j: int| 0 <= j < i + 1 implies a[j] == b[j] by {
                if j > 0 {
                    assert(a[j] == a1[j - 1]);
                }
            }
            assert(a[i + 1] < b[i + 1]);
        } else {
            let i = choose|i: int|
                #![trigger b1[i], a1[i]]
                0 <= i < b1.len() && i < a1.len() && b1[i] < a1[i] && (forall|j: int|
                    0 <= j < i ==> b1[j] == a1[j]);
            assert forall|j: int| 0 <= j < i + 1 implies b[j] == a[j] by {
                if j > 0 {
                    assert(a[j] == a1[j - 1]);
                }
            }
            assert(b[i + 1] < a[i + 1]);
        }
    }
}

/// Two keys with equal byte views are the same key.
pub proof fn lemma_key_ext(a: Key32, b: Key32)
    requires
        a@ == b@,
    ensures
        a == b,
{
    assert(a@ =~= b@);
}


/// Compare two 32-byte keys in lexicographic byte order.
pub fn compare_keys(a: &Key32, b: &Key32) -> (r: Cmp)
    ensures
        r == Cmp::Equal <==> *a == *b,
        r == Cmp::Less <==> key_lt(*a, *b),
        r == Cmp::Greater <==> key_lt(*b, *a),
{
    let mut i: usize = 0;
    while i < 32
        invariant
            0 <= i <= 32,
            forall|j: int| 0 <= j < i ==> a@[j] == b@[j],
        decreases 32 - i,
    {
        if a[i] < b[i] {
            assert(lex_lt(a@, b@) && a@[i as int] < b@[i as int]);
            proof {
                lemma_lex_asymmetric(a@, b@);
            }
            return Cmp::Less;
        }
        if a[i] > b[i] {
            assert(lex_lt(b@, a@) && b@[i as int] < a@[i as int]);
            proof {
                lemma_lex_asymmetric(b@, a@);
            }
            return Cmp::Greater;
        }
        i = i + 1;
    }
    proof {
        assert(a@ =~= b@);
        lemma_key_ext(*a, *b);
        lemma_lex_irreflexive(a@);
    }
    Cmp::Equal
}

pub fn keys_equal(a: &Key32, b: &Key32) -> (r: bool)
    ensures
        r == (*a == *b),
{
    match compare_keys(a, b) {
        Cmp::Equal => true,
        _ => false,
    }
}

/// Whether `k` occurs in `keys`.
pub fn contains_key(keys: &Vec<Key32>, k: &Key32) -> (r: bool)
    ensures
        r == keys@.contains(*k),
{
    let mut i: usize = 0;
    while i < keys.len()
        invariant
            0 <= i <= keys.len(),
            forall|j: int| 0 <= j < i ==> keys@[j] != *k,
        decreases keys.len() - i,
    {
        if keys_equal(&keys[i], k) {
            assert(keys@[i as int] == *k);
            return true;
        }
        i = i + 1;
    }
    false
}

/// A strictly increasing sequence of keys: sorted, and nothing occurs twice.
pub open spec fn strictly_sorted(s: Seq<Key32>) -> bool {
    forall|i: int, j: int| 0 <= i < j < s.len() ==> #[trigger] key_lt(s[i], s[j])
}

/// Insert `k` into a strictly sorted vector unless it is already there.
fn insert_sorted_unique(v: &mut Vec<Key32>, k: Key32)
    requires
        strictly_sorted(old(v)@),
    ensures
        strictly_sorted(final(v)@),
        final(v)@.to_set() == old(v)@.to_set().insert(k),
{
    let ghost s = v@;
    let mut i: usize = 0;
    let mut searching = true;
    while searching && i < v.len()
        invariant
            v@ == s,
            strictly_sorted(s),
            0 <= i <= v.len(),
            forall|j: int| 0 <= j < i ==> #[trigger] key_lt(s[j], k),
            !searching ==> i < s.len() && key_lt(k, s[i as int]),
        decreases v.len() - i + (if searching { 1int } else { 0int }),
    {
        match compare_keys(&v[i], &k) {
            Cmp::Less => {
                i = i + 1;
            },
            Cmp::Equal => {
                assert(s.to_set().insert(k) =~= s.to_set()) by {
                    assert(s.contains(k) && s[i as int] == k);
                }
                return ;
            },
            Cmp::Greater => {
                searching = false;
            },
        }
    }
    v.insert(i, k);
    proof {
        let t = v@;
        assert(t =~= s.subrange(0, i as int).push(k) + s.subrange(i as int, s.len() as int));
        assert forall|a: int, b: int| 0 <= a < b < t.len() implies #[trigger] key_lt(t[a], t[b]) by {
            if b < i {
                assert(t[a] == s[a] && t[b] == s[b]);
            } else if b == i {
                assert(t[a] == s[a]);
            } else if a == i {
                assert(t[b] == s[b - 1]);
                if b - 1 > i {
                    assert(key_lt(s[i as int], s[b - 1]));
                    lemma_lex_transitive(k@, s[i as int]@, s[b - 1]@);
                }
            } else if a < i {
                assert(t[b] == s[b - 1]);
                assert(t[a] == s[a]);
            } else {
                assert(t[a] == s[a - 1] && t[b] == s[b - 1]);
            }
        }
        assert(t.to_set() =~= s.to_set().insert(k)) by {
            assert forall|x: Key32| t.to_set().contains(x) <==> s.to_set().insert(k).contains(x) by {
                if t.contains(x) {
                    let j = choose|j: int| 0 <= j < t.len() && t[j] == x;
                    if j < i {
                        assert(s[j] == x);
                    } else if j > i {
                        assert(s[j - 1] == x);
                    }
                }
                if s.contains(x) {
                    let j = choose|j: int| 0 <= j < s.len() && s[j] == x;
                    if j < i {
                        assert(t[j] == x);
                    } else {
                        assert(t[j + 1] == x);
                    }
                }
                if x == k {
                    assert(t[i as int] == k);
                }
            }
        }
    }
}

/// The distinct keys of `ks`, in increasing order: the one strictly sorted
/// sequence holding exactly the keys of `ks`.
pub open spec fn canon_keys(ks: Seq<Key32>) -> Seq<Key32> {
    canon_set(ks.to_set())
}

/// The one strictly sorted sequence holding exactly the keys of `ks`.
pub open spec fn canon_set(ks: Set<Key32>) -> Seq<Key32> {
    choose|s: Seq<Key32>| strictly_sorted(s) && s.to_set() == ks
}

pub proof fn lemma_canon_keys(ks: Seq<Key32>, s: Seq<Key32>)
    requires
        strictly_sorted(s),
        s.to_set() == ks.to_set(),
    ensures
        canon_keys(ks) == s,
{
    let c = canon_keys(ks);
    assert(strictly_sorted(c) && c.to_set() == ks.to_set());
    lemma_strictly_sorted_unique(c, s);
}

/// The distinct keys of `keys`, in increasing order.
pub fn sorted_unique_keys(keys: &Vec<Key32>) -> (r: Vec<Key32>)
    ensures
        strictly_sorted(r@),
        r@.to_set() == keys@.to_set(),
        r@ == canon_keys(keys@),
{
    let mut out: Vec<Key32> = Vec::new();
    let mut i: usize = 0;
    while i < keys.len()
        invariant
            0 <= i <= keys.len(),
            strictly_sorted(out@),
            out@.to_set() == keys@.subrange(0, i as int).to_set(),
        decreases keys.len() - i,
    {
        insert_sorted_unique(&mut out, keys[i]);
        assert(keys@.subrange(0, i + 1) =~= keys@.subrange(0, i as int).push(keys@[i as int]));
        proof {
            keys@.subrange(0, i as int).lemma_push_to_set_commute(keys@[i as int]);
        }
        i = i + 1;
    }
    assert(keys@.subrange(0, i as int) =~= keys@);
    proof {
        lemma_canon_keys(keys@, out@);
    }
    out
}

/// Two strictly sorted sequences with the same elements are the same sequence.
pub proof fn lemma_strictly_sorted_unique(x: Seq<Key32>, y: Seq<Key32>)
    requires
        strictly_sorted(x),
        strictly_sorted(y),
        x.to_set() == y.to_set(),
    ensures
        x == y,
    decreases x.len() + y.len(),
{
    if x.len() == 0 || y.len() == 0 {
        if x.len() > 0 {
            assert(x.to_set().contains(x[0]));
        }
        if y.len() > 0 {
            assert(y.to_set().contains(y[0]));
        }
        assert(x =~= y);
    } else {
        assert(x.to_set().contains(x[0]));
        assert(y.to_set().contains(y[0]));
        let i = choose|i: int| 0 <= i < y.len() && y[i] == x[0];
        let k = choose|k: int| 0 <= k < x.len() && x[k] == y[0];
        if i > 0 {
            assert(key_lt(y[0], y[i]));
            if k > 0 {
                assert(key_lt(x[0], x[k]));
                lemma_lex_asymmetric(x[0]@, x[k]@);
            }
        }
        if k > 0 {
            assert(key_lt(x[0], x[k]));
        }
        assert(x[0] == y[0]);
        let x1 = x.drop_first();
        let y1 = y.drop_first();
        assert forall|e: Key32| x1.to_set().contains(e) <==> y1.to_set().contains(e) by {
            if x1.contains(e) {
                let a = choose|a: int| 0 <= a < x1.len() && x1[a] == e;
                assert(key_lt(x[0], x[a + 1]));
                assert(x.contains(e));
                assert(y.to_set().contains(e));
                let b = choose|b: int| 0 <= b < y.len() && y[b] == e;
                if b == 0 {
                    lemma_lex_irreflexive(e@);
                }
                assert(y1[b - 1] == e);
            }
            if y1.contains(e) {
                let a = choose|a: int| 0 <= a < y1.len() && y1[a] == e;
                assert(key_lt(y[0], y[a + 1]));
                assert(y.contains(e));
                assert(x.to_set().contains(e));
                let b = choose|b: int| 0 <= b < x.len() && x[b] == e;
                if b == 0 {
                    lemma_lex_irreflexive(e@);
                }
                assert(x1[b - 1] == e);
            }
        }
        assert(x1.to_set() =~= y1.to_set());
        lemma_strictly_sorted_unique(x1, y1);
        assert(x =~= seq![x[0]] + x1);
        assert(y =~= seq![y[0]] + y1);
    }
}

} // verus!
