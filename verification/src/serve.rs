//! The local HTTP surface's pure pieces: the per-run access token and the
//! query-string lookup that reads it back.

use vstd::prelude::*;

use crate::crypto::random_32;
use crate::encoding::{hex_string, hex_text, lemma_hex_text_digits};
use crate::text::{chars_of, string_of};

verus! {

/// The `&`-separated pieces of a query string, as `str::split('&')` yields
/// them (an empty string is one empty piece).
pub open spec fn split_amp(s: Seq<char>) -> Seq<Seq<char>>
    decreases s.len(),
{
    if s.len() == 0 {
        seq![Seq::<char>::empty()]
    } else {
        let p = split_amp(s.drop_last());
        if s.last() == '&' {
            p.push(Seq::<char>::empty())
        } else {
            p.update(p.len() - 1, p.last().push(s.last()))
        }
    }
}

/// `e` is the first `=` in `pair`.
pub open spec fn first_eq_at(pair: Seq<char>, e: int) -> bool {
    0 <= e < pair.len() && pair[e] == '=' && forall|j: int| 0 <= j < e ==> pair[j] != '='
}

/// `pair.split_once('=')` keyed on `name`: the value when the key before the
/// first `=` is exactly `name`.
pub open spec fn pair_value(pair: Seq<char>, name: Seq<char>) -> Option<Seq<char>> {
    if exists|e: int| first_eq_at(pair, e) {
        let e = choose|e: int| first_eq_at(pair, e);
        if pair.subrange(0, e) == name {
            Some(pair.subrange(e + 1, pair.len() as int))
        } else {
            None
        }
    } else {
        None
    }
}

/// The value of the first piece whose key is `name`.
pub open spec fn find_value(pieces: Seq<Seq<char>>, name: Seq<char>) -> Option<Seq<char>>
    decreases pieces.len(),
{
    if pieces.len() == 0 {
        None
    } else {
        match pair_value(pieces[0], name) {
            Some(v) => Some(v),
            None => find_value(pieces.drop_first(), name),
        }
    }
}

/// The value of `name` in an `application/x-www-form-urlencoded` query.
pub open spec fn query_value(query: Seq<char>, name: Seq<char>) -> Option<Seq<char>> {
    find_value(split_amp(query), name)
}

proof fn lemma_split_amp_nonempty(s: Seq<char>)
    ensures
        split_amp(s).len() >= 1,
    decreases s.len(),
{
    if s.len() > 0 {
        lemma_split_amp_nonempty(s.drop_last());
    }
}

pub open spec fn char_seqs(v: Seq<Vec<char>>) -> Seq<Seq<char>> {
    v.map_values(|x: Vec<char>| x@)
}

fn split_pieces(q: &Vec<char>) -> (r: Vec<Vec<char>>)
    ensures
        char_seqs(r@) == split_amp(q@),
{
    let mut pieces: Vec<Vec<char>> = Vec::new();
    let mut cur: Vec<char> = Vec::new();
    let mut i: usize = 0;
    while i < q.len()
        invariant
            0 <= i <= q@.len(),
            char_seqs(pieces@).push(cur@) == split_amp(q@.subrange(0, i as int)),
        decreases q@.len() - i,
    {
        proof {
            let pre = q@.subrange(0, i as int);
            let post = q@.subrange(0, i + 1);
            assert(post.drop_last() =~= pre);
            assert(post.last() == q@[i as int]);
            lemma_split_amp_nonempty(pre);
        }
        let c = q[i];
        if c == '&' {
            let ghost before = pieces@;
            let mut done: Vec<char> = Vec::new();
            std::mem::swap(&mut done, &mut cur);
            pieces.push(done);
            assert(char_seqs(pieces@) =~= char_seqs(before).push(done@));
            assert(char_seqs(pieces@).push(cur@) =~= split_amp(q@.subrange(0, i + 1)));
        } else {
            let ghost before = cur@;
            cur.push(c);
            assert(char_seqs(pieces@).push(cur@) =~= char_seqs(pieces@).push(before).update(
                pieces@.len() as int,
                before.push(c),
            ));
        }
        i = i + 1;
    }
    assert(q@.subrange(0, i as int) =~= q@);
    let ghost before = pieces@;
    pieces.push(cur);
    assert(char_seqs(pieces@) =~= char_seqs(before).push(cur@));
    pieces
}

fn piece_value(pair: &Vec<char>, name: &Vec<char>) -> (r: Option<Vec<char>>)
    ensures
        match (r, pair_value(pair@, name@)) {
            (Some(v), Some(w)) => v@ == w,
            (None, None) => true,
            _ => false,
        },
{
    let mut e: usize = 0;
    while e < pair.len() && pair[e] != '='
        invariant
            0 <= e <= pair@.len(),
            forall|j: int| 0 <= j < e ==> pair@[j] != '=',
        decreases pair@.len() - e,
    {
        e = e + 1;
    }
    if e == pair.len() {
        assert(!exists|x: int| first_eq_at(pair@, x));
        return None;
    }
    assert(first_eq_at(pair@, e as int));
    assert forall|x: int| first_eq_at(pair@, x) implies x == e by {
        if x < e {
            assert(pair@[x] != '=');
        }
        if x > e {
            assert(pair@[e as int] != '=');
        }
    }
    if e != name.len() {
        assert(pair@.subrange(0, e as int).len() != name@.len());
        return None;
    }
    let mut k: usize = 0;
    while k < e
        invariant
            0 <= k <= e,
            e == name@.len(),
            e < pair@.len(),
            forall|j: int| 0 <= j < k ==> pair@[j] == name@[j],
        decreases e - k,
    {
        if pair[k] != name[k] {
            assert(pair@.subrange(0, e as int)[k as int] != name@[k as int]);
            return None;
        }
        k = k + 1;
    }
    assert(pair@.subrange(0, e as int) =~= name@);
    let mut v: Vec<char> = Vec::new();
    let mut j: usize = e + 1;
    while j < pair.len()
        invariant
            e + 1 <= j <= pair@.len(),
            v@ == pair@.subrange(e + 1, j as int),
        decreases pair@.len() - j,
    {
        v.push(pair[j]);
        assert(v@ =~= pair@.subrange(e + 1, j + 1));
        j = j + 1;
    }
    Some(v)
}

/// Minimal `application/x-www-form-urlencoded` lookup: the value after the
/// first `=` of the first `&`-separated piece whose key is exactly `name`.
pub fn query_param(query: &str, name: &str) -> (r: Option<String>)
    ensures
        match (r, query_value(query@, name@)) {
            (Some(v), Some(w)) => v@ == w,
            (None, None) => true,
            _ => false,
        },
{
    let q = chars_of(query);
    let n = chars_of(name);
    let pieces = split_pieces(&q);
    let ghost all = char_seqs(pieces@);
    assert(all.subrange(0, all.len() as int) =~= all);
    let mut i: usize = 0;
    while i < pieces.len()
        invariant
            0 <= i <= pieces@.len(),
            all == char_seqs(pieces@),
            all == split_amp(query@),
            n@ == name@,
            find_value(all, name@) == find_value(all.subrange(i as int, all.len() as int), name@),
        decreases pieces@.len() - i,
    {
        let ghost rest = all.subrange(i as int, all.len() as int);
        assert(rest[0] == pieces@[i as int]@);
        assert(rest.drop_first() =~= all.subrange(i + 1, all.len() as int));
        match piece_value(&pieces[i], &n) {
            Some(v) => {
                return Some(string_of(v.as_slice()));
            },
            None => {},
        }
        i = i + 1;
    }
    None
}

/// A fresh per-run access token: 32 bytes of operating-system randomness as
/// 64 lowercase hex characters, or `None` when the system source fails.
pub fn mint_token() -> (r: Option<String>)
    ensures
        r matches Some(t) ==> exists|b: Seq<u8>| b.len() == 32 && t@ == hex_text(b),
        r matches Some(t) ==> t@.len() == 64 && forall|i: int|
            0 <= i < 64 ==> {
                let c = #[trigger] t@[i];
                ('0' <= c && c <= '9') || ('a' <= c && c <= 'f')
            },
{
    match random_32() {
        Some(buf) => {
            let t = hex_string(&buf);
            proof {
                lemma_hex_text_digits(buf@);
            }
            Some(t)
        },
        None => None,
    }
}

/// The session cookie the opening navigation trades its one-time URL token
/// for: HTTP-only, strict same-site, for the whole site.
pub open spec fn session_cookie_text(token: Seq<char>) -> Seq<char> {
    "lait_token="@ + token + "; Path=/; HttpOnly; SameSite=Strict"@
}

pub fn session_cookie(token: &str) -> (r: String)
    ensures
        r@ == session_cookie_text(token@),
{
    let mut s = String::from_str("lait_token=");
    s.append(token);
    s.append("; Path=/; HttpOnly; SameSite=Strict");
    s
}

/// The token of an `Authorization` header of the form `Bearer <token>`.
pub open spec fn bearer_of(header: Seq<char>) -> Option<Seq<char>> {
    if header.len() >= 7 && header.subrange(0, 7) == "Bearer "@ {
        Some(header.subrange(7, header.len() as int))
    } else {
        None
    }
}

pub fn bearer_token(header: &str) -> (r: Option<String>)
    ensures
        match (r, bearer_of(header@)) {
            (Some(t), Some(u)) => t@ == u,
            (None, None) => true,
            _ => false,
        },
{
    proof {
        reveal_strlit("Bearer ");
    }
    let cs = chars_of(header);
    let prefix = chars_of("Bearer ");
    if cs.len() < 7 {
        return None;
    }
    let mut i: usize = 0;
    while i < 7
        invariant
            cs@ == header@,
            prefix@ == "Bearer "@,
            prefix@.len() == 7,
            cs@.len() >= 7,
            0 <= i <= 7,
            forall|j: int| 0 <= j < i ==> cs@[j] == prefix@[j],
        decreases 7 - i,
    {
        if cs[i] != prefix[i] {
            assert(header@.subrange(0, 7)[i as int] != "Bearer "@[i as int]);
            return None;
        }
        i = i + 1;
    }
    assert(header@.subrange(0, 7) =~= "Bearer "@);
    let mut rest: Vec<char> = Vec::new();
    let mut k: usize = 7;
    while k < cs.len()
        invariant
            cs@ == header@,
            7 <= k <= cs@.len(),
            rest@ == cs@.subrange(7, k as int),
        decreases cs@.len() - k,
    {
        rest.push(cs[k]);
        assert(rest@ =~= cs@.subrange(7, k + 1));
        k = k + 1;
    }
    Some(string_of(rest.as_slice()))
}

/// The token a request presents, in one meaning for three forms: a bearer
/// header first, then the session cookie's value, then the `token` query
/// parameter (which exists only for the opening navigation).
pub open spec fn presented_of(
    authorization: Option<Seq<char>>,
    cookie: Option<Seq<char>>,
    query: Option<Seq<char>>,
) -> Option<Seq<char>> {
    let bearer = match authorization {
        Some(h) => bearer_of(h),
        None => None,
    };
    let from_query = match query {
        Some(q) => query_value(q, "token"@),
        None => None,
    };
    if bearer is Some {
        bearer
    } else if cookie is Some {
        cookie
    } else {
        from_query
    }
}

pub open spec fn opt_view(s: Option<&str>) -> Option<Seq<char>> {
    match s {
        Some(x) => Some(x@),
        None => None,
    }
}

pub fn presented_token(authorization: Option<&str>, cookie: Option<&str>, query: Option<&str>) -> (r:
    Option<String>)
    ensures
        match (r, presented_of(opt_view(authorization), opt_view(cookie), opt_view(query))) {
            (Some(t), Some(u)) => t@ == u,
            (None, None) => true,
            _ => false,
        },
{
    if let Some(h) = authorization {
        if let Some(t) = bearer_token(h) {
            return Some(t);
        }
    }
    if let Some(c) = cookie {
        return Some(String::from_str(c));
    }
    match query {
        Some(q) => query_param(q, "token"),
        None => None,
    }
}

} // verus!
