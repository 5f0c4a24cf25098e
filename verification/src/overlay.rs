//! The optimistic overlay: a local prediction keyed by `(doc_id, field)`,
//! cleared on any doorbell for its document. The prediction wins over what
//! the replica last said until a doorbell clears it.

use vstd::prelude::*;

use crate::text::same_text;

verus! {

pub type OverlayKey = (Seq<char>, Seq<char>);

/// Whether `s` holds an entry for `(d, f)`.
pub open spec fn holds(s: Seq<(String, String, String)>, d: Seq<char>, f: Seq<char>) -> bool {
    exists|i: int| 0 <= i < s.len() && #[trigger] s[i].0@ == d && s[i].1@ == f
}

/// The index of the entry for `(d, f)`.
pub open spec fn index_of(s: Seq<(String, String, String)>, d: Seq<char>, f: Seq<char>) -> int {
    choose|i: int| 0 <= i < s.len() && #[trigger] s[i].0@ == d && s[i].1@ == f
}

/// No two entries share a key.
pub open spec fn keys_unique(s: Seq<(String, String, String)>) -> bool {
    forall|i: int, j: int|
        0 <= i < j < s.len() ==> !(#[trigger] s[i].0@ == #[trigger] s[j].0@ && s[i].1@ == s[j].1@)
}

/// The predictions `s` holds, by key.
pub open spec fn predictions(s: Seq<(String, String, String)>) -> Map<OverlayKey, Seq<char>> {
    Map::new(|k: OverlayKey| holds(s, k.0, k.1), |k: OverlayKey| s[index_of(s, k.0, k.1)].2@)
}

/// The optimistic overlay.
#[derive(Debug)]
pub struct Overlay {
    entries: Vec<(String, String, String)>,
}

impl View for Overlay {
    type V = Map<OverlayKey, Seq<char>>;

    closed spec fn view(&self) -> Map<OverlayKey, Seq<char>> {
        predictions(self.entries@)
    }
}

proof fn lemma_index_unique(s: Seq<(String, String, String)>, d: Seq<char>, f: Seq<char>, i: int)
    requires
        keys_unique(s),
        0 <= i < s.len(),
        s[i].0@ == d,
        s[i].1@ == f,
    ensures
        holds(s, d, f),
        index_of(s, d, f) == i,
{
    let j = index_of(s, d, f);
    if j != i {
        if i < j {
            assert(!(s[i].0@ == s[j].0@ && s[i].1@ == s[j].1@));
        } else {
            assert(!(s[j].0@ == s[i].0@ && s[j].1@ == s[i].1@));
        }
    }
}

/// The entries of `s` not for document `d`, in order.
pub open spec fn drop_doc(s: Seq<(String, String, String)>, d: Seq<char>) -> Seq<(String, String, String)>
    decreases s.len(),
{
    if s.len() == 0 {
        Seq::empty()
    } else {
        let r = drop_doc(s.drop_last(), d);
        if s.last().0@ == d {
            r
        } else {
            r.push(s.last())
        }
    }
}

proof fn lemma_drop_doc(s: Seq<(String, String, String)>, d: Seq<char>)
    requires
        keys_unique(s),
    ensures
        keys_unique(drop_doc(s, d)),
        forall|x: (String, String, String)|
            #[trigger] drop_doc(s, d).contains(x) <==> (s.contains(x) && x.0@ != d),
    decreases s.len(),
{
    if s.len() > 0 {
        let p = s.drop_last();
        let e = s.last();
        assert forall|i: int, j: int| 0 <= i < j < p.len() implies !(#[trigger] p[i].0@
            == #[trigger] p[j].0@ && p[i].1@ == p[j].1@) by {
            assert(p[i] == s[i] && p[j] == s[j]);
        }
        lemma_drop_doc(p, d);
        let r = drop_doc(p, d);
        assert forall|x: (String, String, String)| s.contains(x) <==> (p.contains(x) || x == e) by {
            if s.contains(x) {
                let i = choose|i: int| 0 <= i < s.len() && s[i] == x;
                if i < p.len() {
                    assert(p[i] == x);
                }
            }
            if p.contains(x) {
                let i = choose|i: int| 0 <= i < p.len() && p[i] == x;
                assert(s[i] == x);
            }
            if x == e {
                assert(s[s.len() - 1] == x);
            }
        }
        if e.0@ != d {
            let t = r.push(e);
            assert forall|x: (String, String, String)| t.contains(x) <==> (r.contains(x) || x == e) by {
                if t.contains(x) {
                    let i = choose|i: int| 0 <= i < t.len() && t[i] == x;
                    if i < r.len() {
                        assert(r[i] == x);
                    }
                }
                if r.contains(x) {
                    let i = choose|i: int| 0 <= i < r.len() && r[i] == x;
                    assert(t[i] == x);
                }
                if x == e {
                    assert(t[t.len() - 1] == x);
                }
            }
            assert forall|i: int, j: int| 0 <= i < j < t.len() implies !(#[trigger] t[i].0@
                == #[trigger] t[j].0@ && t[i].1@ == t[j].1@) by {
                if j < r.len() {
                    assert(t[i] == r[i] && t[j] == r[j]);
                } else {
                    assert(t[i] == r[i]);
                    assert(r.contains(r[i]));
                    assert(p.contains(r[i]));
                    let a = choose|a: int| 0 <= a < p.len() && p[a] == r[i];
                    assert(s[a] == p[a]);
                    assert(!(s[a].0@ == s[s.len() - 1].0@ && s[a].1@ == s[s.len() - 1].1@));
                }
            }
        }
    }
}



impl Overlay {
    #[verifier::type_invariant]
    closed spec fn inv(&self) -> bool {
        keys_unique(self.entries@)
    }

    /// An overlay with no predictions.
    pub fn new() -> (r: Overlay)
        ensures
            r@ == Map::<OverlayKey, Seq<char>>::empty(),
    {
        let r = Overlay { entries: Vec::new() };
        assert(r@ =~= Map::<OverlayKey, Seq<char>>::empty());
        r
    }

    /// The position of `(doc, field)`, if predicted.
    fn find(&self, doc: &str, field: &str) -> (r: Option<usize>)
        ensures
            match r {
                Some(i) => i < self.entries@.len() && self.entries@[i as int].0@ == doc@
                    && self.entries@[i as int].1@ == field@,
                None => !holds(self.entries@, doc@, field@),
            },
    {
        let mut i: usize = 0;
        while i < self.entries.len()
            invariant
                0 <= i <= self.entries@.len(),
                forall|j: int|
                    0 <= j < i ==> !(#[trigger] self.entries@[j].0@ == doc@ && self.entries@[j].1@
                        == field@),
            decreases self.entries@.len() - i,
        {
            if same_text(self.entries[i].0.as_str(), doc) && same_text(
                self.entries[i].1.as_str(),
                field,
            ) {
                return Some(i);
            }
            i = i + 1;
        }
        None
    }

    /// Predict `field` of `doc` to be `value`.
    pub fn set(&mut self, doc_id: &str, field: &str, value: &str)
        ensures
            final(self)@ == old(self)@.insert((doc_id@, field@), value@),
    {
        proof {
            use_type_invariant(&*self);
        }
        let ghost s = self.entries@;
        let entry = (String::from_str(doc_id), String::from_str(field), String::from_str(value));
        let found = self.find(doc_id, field);
        let mut es: Vec<(String, String, String)> = Vec::new();
        std::mem::swap(&mut es, &mut self.entries);
        assert(es@ == s);
        match found {
            Some(i) => {
                es.set(i, entry);
                proof {
                    let t = es@;
                    assert(t == s.update(i as int, entry));
                    assert forall|a: int, b: int| 0 <= a < b < t.len() implies !(
                    #[trigger] t[a].0@ == #[trigger] t[b].0@ && t[a].1@ == t[b].1@) by {
                        if a != i && b != i {
                            assert(t[a] == s[a] && t[b] == s[b]);
                        } else if a == i {
                            assert(t[b] == s[b]);
                            assert(!(s[a].0@ == s[b].0@ && s[a].1@ == s[b].1@));
                        } else {
                            assert(t[a] == s[a]);
                            assert(!(s[a].0@ == s[b].0@ && s[a].1@ == s[b].1@));
                        }
                    }
                    lemma_index_unique(t, doc_id@, field@, i as int);
                    assert forall|k: OverlayKey| #[trigger] predictions(t).contains_key(k)
                        <==> predictions(s).insert((doc_id@, field@), value@).contains_key(k) by {
                        if holds(t, k.0, k.1) {
                            let j = index_of(t, k.0, k.1);
                            if j != i {
                                assert(s[j] == t[j]);
                                assert(holds(s, k.0, k.1));
                            }
                        }
                        if holds(s, k.0, k.1) {
                            let j = index_of(s, k.0, k.1);
                            if j != i {
                                assert(t[j] == s[j]);
                            }
                            assert(holds(t, k.0, k.1));
                        }
                    }
                    assert forall|k: OverlayKey| #[trigger] predictions(t).contains_key(k)
                        implies predictions(t)[k] == predictions(s).insert(
                        (doc_id@, field@),
                        value@,
                    )[k] by {
                        let j = index_of(t, k.0, k.1);
                        if k != (doc_id@, field@) {
                            assert(j != i);
                            assert(t[j] == s[j]);
                            lemma_index_unique(s, k.0, k.1, j);
                        }
                    }
                    assert(predictions(t) =~= predictions(s).insert((doc_id@, field@), value@));
                }
            },
            None => {
                es.push(entry);
                proof {
                    let t = es@;
                    assert(t == s.push(entry));
                    assert forall|a: int, b: int| 0 <= a < b < t.len() implies !(
                    #[trigger] t[a].0@ == #[trigger] t[b].0@ && t[a].1@ == t[b].1@) by {
                        assert(t[a] == s[a]);
                        if b < s.len() {
                            assert(t[b] == s[b]);
                        } else {
                            assert(!(s[a].0@ == doc_id@ && s[a].1@ == field@));
                        }
                    }
                    lemma_index_unique(t, doc_id@, field@, s.len() as int);
                    assert forall|k: OverlayKey| #[trigger] predictions(t).contains_key(k)
                        <==> predictions(s).insert((doc_id@, field@), value@).contains_key(k) by {
                        if holds(t, k.0, k.1) {
                            let j = index_of(t, k.0, k.1);
                            if j < s.len() {
                                assert(s[j] == t[j]);
                                assert(holds(s, k.0, k.1));
                            }
                        }
                        if holds(s, k.0, k.1) {
                            let j = index_of(s, k.0, k.1);
                            assert(t[j] == s[j]);
                            assert(holds(t, k.0, k.1));
                        }
                    }
                    assert forall|k: OverlayKey| #[trigger] predictions(t).contains_key(k)
                        implies predictions(t)[k] == predictions(s).insert(
                        (doc_id@, field@),
                        value@,
                    )[k] by {
                        let j = index_of(t, k.0, k.1);
                        if k != (doc_id@, field@) {
                            assert(j < s.len());
                            assert(t[j] == s[j]);
                            lemma_index_unique(s, k.0, k.1, j);
                        }
                    }
                    assert(predictions(t) =~= predictions(s).insert((doc_id@, field@), value@));
                }
            },
        }
        self.entries = es;
    }

    /// Drop every prediction for `doc`.
    pub fn clear_doc(&mut self, doc_id: &str)
        ensures
            final(self)@ == old(self)@.restrict(
                old(self)@.dom().filter(|k: OverlayKey| k.0 != doc_id@),
            ),
    {
        proof {
            use_type_invariant(&*self);
        }
        let ghost s = self.entries@;
        let mut kept: Vec<(String, String, String)> = Vec::new();
        let mut i: usize = 0;
        while i < self.entries.len()
            invariant
                s == self.entries@,
                0 <= i <= s.len(),
                kept@ == drop_doc(s.subrange(0, i as int), doc_id@),
            decreases s.len() - i,
        {
            proof {
                let post = s.subrange(0, i + 1);
                assert(post.drop_last() =~= s.subrange(0, i as int));
                assert(post.last() == s[i as int]);
            }
            if !same_text(self.entries[i].0.as_str(), doc_id) {
                let e = (
                    self.entries[i].0.clone(),
                    self.entries[i].1.clone(),
                    self.entries[i].2.clone(),
                );
                kept.push(e);
            }
            i = i + 1;
        }
        assert(s.subrange(0, i as int) =~= s);
        proof {
            lemma_drop_doc(s, doc_id@);
        }
        let ghost t = kept@;
        self.entries = kept;
        proof {
            assert(t == drop_doc(s, doc_id@));
            let want = predictions(s).restrict(
                predictions(s).dom().filter(|k: OverlayKey| k.0 != doc_id@),
            );
            assert forall|k: OverlayKey| #[trigger] predictions(t).contains_key(k)
                <==> want.contains_key(k) by {
                if holds(t, k.0, k.1) {
                    let a = index_of(t, k.0, k.1);
                    assert(t.contains(t[a]));
                    let b = choose|b: int| 0 <= b < s.len() && s[b] == t[a];
                    assert(s[b].0@ == k.0 && s[b].1@ == k.1);
                    assert(holds(s, k.0, k.1));
                }
                if holds(s, k.0, k.1) && k.0 != doc_id@ {
                    let b = index_of(s, k.0, k.1);
                    assert(s.contains(s[b]));
                    assert(drop_doc(s, doc_id@).contains(s[b]));
                    let a = choose|a: int| 0 <= a < t.len() && t[a] == s[b];
                    assert(t[a].0@ == k.0 && t[a].1@ == k.1);
                }
            }
            assert forall|k: OverlayKey| #[trigger] predictions(t).contains_key(k) implies predictions(
                t,
            )[k] == want[k] by {
                let a = index_of(t, k.0, k.1);
                assert(t.contains(t[a]));
                let b = choose|b: int| 0 <= b < s.len() && s[b] == t[a];
                lemma_index_unique(s, k.0, k.1, b);
            }
            assert(predictions(t) =~= want);
        }
    }

    /// The predicted value of `field` of `doc`, if any.
    pub fn get(&self, doc_id: &str, field: &str) -> (r: Option<&str>)
        ensures
            match r {
                Some(v) => self@.contains_key((doc_id@, field@)) && v@ == self@[(doc_id@, field@)],
                None => !self@.contains_key((doc_id@, field@)),
            },
    {
        proof {
            use_type_invariant(self);
        }
        match self.find(doc_id, field) {
            Some(i) => {
                proof {
                    lemma_index_unique(self.entries@, doc_id@, field@, i as int);
                }
                Some(self.entries[i].2.as_str())
            },
            None => None,
        }
    }

    /// Whether any field of `doc` is predicted.
    pub fn has(&self, doc_id: &str) -> (r: bool)
        ensures
            r == exists|f: Seq<char>| self@.contains_key((doc_id@, f)),
    {
        let mut i: usize = 0;
        while i < self.entries.len()
            invariant
                0 <= i <= self.entries@.len(),
                forall|j: int| 0 <= j < i ==> #[trigger] self.entries@[j].0@ != doc_id@,
            decreases self.entries@.len() - i,
        {
            if same_text(self.entries[i].0.as_str(), doc_id) {
                assert(holds(self.entries@, doc_id@, self.entries@[i as int].1@));
                assert(self@.contains_key((doc_id@, self.entries@[i as int].1@)));
                return true;
            }
            i = i + 1;
        }
        assert forall|f: Seq<char>| !self@.contains_key((doc_id@, f)) by {
            if holds(self.entries@, doc_id@, f) {
                let j = index_of(self.entries@, doc_id@, f);
                assert(self.entries@[j].0@ != doc_id@);
            }
        }
        false
    }
}

impl Default for Overlay {
    fn default() -> (r: Overlay)
        ensures
            r@ == Map::<OverlayKey, Seq<char>>::empty(),
    {
        Overlay::new()
    }
}

/// A prediction reads back until it is replaced or cleared: `get` after
/// `set` of the same key gives the value set, and leaves every other key's
/// prediction as it was.
pub proof fn lemma_get_after_set(
    m: Map<OverlayKey, Seq<char>>,
    doc: Seq<char>,
    field: Seq<char>,
    value: Seq<char>,
    other: OverlayKey,
)
    ensures
        m.insert((doc, field), value)[(doc, field)] == value,
        other != (doc, field) ==> (m.insert((doc, field), value).contains_key(other)
            == m.contains_key(other) && m.insert((doc, field), value)[other] == m[other]),
{
}

/// A doorbell for a document clears every prediction for it, and only those.
pub proof fn lemma_clear_doc(m: Map<OverlayKey, Seq<char>>, doc: Seq<char>, k: OverlayKey)
    ensures
        k.0 == doc ==> !m.restrict(m.dom().filter(|x: OverlayKey| x.0 != doc)).contains_key(k),
        k.0 != doc ==> (m.restrict(m.dom().filter(|x: OverlayKey| x.0 != doc)).contains_key(k)
            == m.contains_key(k)),
{
}

} // verus!
