//! The command palette's pure pieces: a quote-aware argv splitter and a
//! case-insensitive fuzzy scorer.

use vstd::prelude::*;

use crate::text::{
    ascii_lowered, chars_of, is_ascii_text, is_unicode_whitespace, is_whitespace, string_of, to_lowercase,
    unicode_lowercase,
};

verus! {

// ---------------------------------------------------------------------------
// Tokenizer
// ---------------------------------------------------------------------------

/// Where the tokenizer is within a word.
pub enum TokMode {
    /// Between or inside plain words.
    Plain,
    /// Inside a quoted run opened by this quote character.
    Quoted(char),
    /// Right after a backslash outside quotes.
    Escaped,
    /// Right after a backslash inside a double-quoted run.
    QuotedEscaped,
}

/// The tokenizer's state: finished words, the word being built, whether a
/// word is open, and the mode.
pub struct TokState {
    pub out: Seq<Seq<char>>,
    pub cur: Seq<char>,
    pub in_word: bool,
    pub mode: TokMode,
}

pub open spec fn tok_init() -> TokState {
    TokState { out: Seq::empty(), cur: Seq::empty(), in_word: false, mode: TokMode::Plain }
}

/// One character through the tokenizer: quotes group words (the run ends at
/// the same quote), a backslash outside single quotes takes the next
/// character literally, whitespace ends an open word, anything else extends
/// it. Inside single quotes a backslash is an ordinary character.
pub open spec fn tok_step(st: TokState, c: char) -> TokState {
    match st.mode {
        TokMode::Plain => {
            if c == '"' || c == '\'' {
                TokState { in_word: true, mode: TokMode::Quoted(c), ..st }
            } else if c == '\\' {
                TokState { in_word: true, mode: TokMode::Escaped, ..st }
            } else if is_unicode_whitespace(c) {
                if st.in_word {
                    TokState { out: st.out.push(st.cur), cur: Seq::empty(), in_word: false, ..st }
                } else {
                    st
                }
            } else {
                TokState { in_word: true, cur: st.cur.push(c), ..st }
            }
        },
        TokMode::Quoted(q) => {
            if c == q {
                TokState { mode: TokMode::Plain, ..st }
            } else if q == '"' && c == '\\' {
                TokState { mode: TokMode::QuotedEscaped, ..st }
            } else {
                TokState { cur: st.cur.push(c), ..st }
            }
        },
        TokMode::Escaped => TokState { cur: st.cur.push(c), mode: TokMode::Plain, ..st },
        TokMode::QuotedEscaped => TokState {
            cur: st.cur.push(c),
            mode: TokMode::Quoted('"'),
            ..st
        },
    }
}

pub open spec fn tok_run(s: Seq<char>) -> TokState
    decreases s.len(),
{
    if s.len() == 0 {
        tok_init()
    } else {
        tok_step(tok_run(s.drop_last()), s.last())
    }
}

/// The words of `s`: a lone trailing backslash is literal, and an open word
/// (even an empty quoted one) is kept.
pub open spec fn tokens(s: Seq<char>) -> Seq<Seq<char>> {
    let st = tok_run(s);
    let cur = if st.mode is Escaped || st.mode is QuotedEscaped {
        st.cur.push('\\')
    } else {
        st.cur
    };
    if st.in_word {
        st.out.push(cur)
    } else {
        st.out
    }
}

/// The maximal runs of non-whitespace characters of `s`, in order: what
/// splitting on Unicode whitespace gives.
pub open spec fn whitespace_words(s: Seq<char>) -> Seq<Seq<char>>
    decreases s.len(),
{
    if s.len() == 0 {
        Seq::empty()
    } else {
        let w = whitespace_words(s.drop_last());
        let c = s.last();
        if is_unicode_whitespace(c) {
            w
        } else if s.len() >= 2 && !is_unicode_whitespace(s[s.len() - 2]) {
            w.update(w.len() - 1, w.last().push(c))
        } else {
            w.push(seq![c])
        }
    }
}

/// No quote or backslash occurs in `s`.
pub open spec fn unquoted(s: Seq<char>) -> bool {
    forall|i: int| 0 <= i < s.len() ==> s[i] != '"' && s[i] != '\'' && s[i] != '\\'
}

proof fn lemma_tok_run_unquoted(s: Seq<char>)
    requires
        unquoted(s),
    ensures
        tok_run(s).mode is Plain,
        tok_run(s).in_word == (s.len() > 0 && !is_unicode_whitespace(s.last())),
        tok_run(s).in_word ==> tok_run(s).cur.len() > 0 && tok_run(s).out.push(tok_run(s).cur)
            == whitespace_words(s),
        !tok_run(s).in_word ==> tok_run(s).cur.len() == 0 && tok_run(s).out == whitespace_words(s),
    decreases s.len(),
{
    if s.len() > 0 {
        let p = s.drop_last();
        assert forall|i: int| 0 <= i < p.len() implies p[i] != '"' && p[i] != '\'' && p[i]
            != '\\' by {
            assert(p[i] == s[i]);
        }
        lemma_tok_run_unquoted(p);
        let st = tok_run(p);
        let c = s.last();
        assert(c == s[s.len() - 1]);
        if !is_unicode_whitespace(c) {
            if st.in_word {
                assert(p.last() == s[s.len() - 2]);
                let w = whitespace_words(p);
                assert(w == st.out.push(st.cur));
                assert(w.update(w.len() - 1, w.last().push(c)) =~= st.out.push(st.cur.push(c)));
            } else {
                if s.len() >= 2 {
                    assert(p.last() == s[s.len() - 2]);
                }
                assert(st.cur.push(c) =~= seq![c]);
            }
        }
    }
}

/// With no quotes and no backslashes, the tokenizer splits on Unicode
/// whitespace and nothing else.
pub proof fn lemma_unquoted_tokens_split_on_whitespace(s: Seq<char>)
    requires
        unquoted(s),
    ensures
        tokens(s) == whitespace_words(s),
{
    lemma_tok_run_unquoted(s);
}

pub open spec fn string_texts(v: Seq<String>) -> Seq<Seq<char>> {
    v.map_values(|s: String| s@)
}

pub open spec fn char_vec_texts(v: Seq<Vec<char>>) -> Seq<Seq<char>> {
    v.map_values(|s: Vec<char>| s@)
}

/// Quote-aware argv splitter: double or single quotes group words, a
/// backslash outside single quotes escapes the next character. Enough of shell
/// semantics for the command lines a tracker needs; not a shell.
pub fn tokenize(input: &str) -> (r: Vec<String>)
    ensures
        string_texts(r@) == tokens(input@),
{
    let cs = chars_of(input);
    let mut out: Vec<Vec<char>> = Vec::new();
    let mut cur: Vec<char> = Vec::new();
    let mut in_word = false;
    // 0 plain, 1 quoted, 2 escaped, 3 escaped inside double quotes.
    let mut mode: u8 = 0;
    let mut quote: char = '"';
    let mut i: usize = 0;
    while i < cs.len()
        invariant
            0 <= i <= cs@.len(),
            mode <= 3,
            ({
                let st = tok_run(cs@.subrange(0, i as int));
                &&& st.out == char_vec_texts(out@)
                &&& st.cur == cur@
                &&& st.in_word == in_word
                &&& (mode == 0 <==> st.mode is Plain)
                &&& (mode == 1 <==> st.mode is Quoted)
                &&& (mode == 1 ==> st.mode == TokMode::Quoted(quote))
                &&& (mode == 2 <==> st.mode is Escaped)
                &&& (mode == 3 <==> st.mode is QuotedEscaped)
            }),
        decreases cs@.len() - i,
    {
        let ghost pre = cs@.subrange(0, i as int);
        let ghost post = cs@.subrange(0, i + 1);
        proof {
            assert(post.drop_last() =~= pre);
            assert(post.last() == cs@[i as int]);
        }
        let c = cs[i];
        if mode == 0 {
            if c == '"' || c == '\'' {
                in_word = true;
                mode = 1;
                quote = c;
            } else if c == '\\' {
                in_word = true;
                mode = 2;
            } else if is_whitespace(c) {
                if in_word {
                    let mut done: Vec<char> = Vec::new();
                    std::mem::swap(&mut done, &mut cur);
                    let ghost before = out@;
                    out.push(done);
                    assert(char_vec_texts(out@) =~= char_vec_texts(before).push(done@));
                    in_word = false;
                }
            } else {
                in_word = true;
                cur.push(c);
            }
        } else if mode == 1 {
            if c == quote {
                mode = 0;
            } else if quote == '"' && c == '\\' {
                mode = 3;
            } else {
                cur.push(c);
            }
        } else if mode == 2 {
            cur.push(c);
            mode = 0;
        } else {
            cur.push(c);
            mode = 1;
            quote = '"';
        }
        i = i + 1;
    }
    assert(cs@.subrange(0, i as int) =~= input@);
    if mode == 2 || mode == 3 {
        cur.push('\\');
    }
    if in_word {
        let ghost before = out@;
        out.push(cur);
        assert(char_vec_texts(out@) =~= char_vec_texts(before).push(cur@));
    }
    let mut words: Vec<String> = Vec::new();
    let mut k: usize = 0;
    while k < out.len()
        invariant
            0 <= k <= out@.len(),
            words@.len() == k,
            forall|j: int| 0 <= j < k ==> #[trigger] words@[j]@ == out@[j]@,
        decreases out@.len() - k,
    {
        words.push(string_of(out[k].as_slice()));
        k = k + 1;
    }
    assert(string_texts(words@) =~= char_vec_texts(out@));
    words
}

// ---------------------------------------------------------------------------
// Fuzzy scorer
// ---------------------------------------------------------------------------

/// The scorer's running state: score so far, needle characters matched, and
/// where the last hit was.
pub struct FuzzState {
    pub score: int,
    pub ni: nat,
    pub last_hit: Option<nat>,
}

pub open spec fn is_boundary(c: char) -> bool {
    c == ' ' || c == '-' || c == '_'
}

/// The scorer after the first `k` haystack characters: each character that
/// matches the next needle character scores 1, plus 4 at the start, 3 after a
/// word boundary, and 2 right after the previous hit.
pub open spec fn fuzz_run(n: Seq<char>, h: Seq<char>, k: nat) -> FuzzState
    decreases k,
{
    if k == 0 {
        FuzzState { score: 0, ni: 0, last_hit: None }
    } else {
        let st = fuzz_run(n, h, (k - 1) as nat);
        let hi = (k - 1) as nat;
        if st.ni < n.len() && h[hi as int] == n[st.ni as int] {
            let place = if hi == 0 {
                4int
            } else if is_boundary(h[hi - 1]) {
                3int
            } else {
                0int
            };
            let adj = if hi > 0 && st.last_hit == Some((hi - 1) as nat) {
                2int
            } else {
                0int
            };
            FuzzState { score: st.score + 1 + place + adj, ni: st.ni + 1, last_hit: Some(hi) }
        } else {
            st
        }
    }
}

/// The fuzzy score of an already lowercased needle in an already lowercased
/// haystack: `None` unless every needle character is found in order; shorter
/// haystacks win ties.
pub open spec fn fuzzy(n: Seq<char>, h: Seq<char>) -> Option<int> {
    let st = fuzz_run(n, h, h.len());
    if st.ni == n.len() {
        Some(st.score - h.len() / 8)
    } else {
        None
    }
}

/// `f` picks, for each character of `n`, a position of `h` holding it, at
/// strictly increasing positions.
pub open spec fn embeds(n: Seq<char>, h: Seq<char>, f: Seq<int>) -> bool {
    &&& f.len() == n.len()
    &&& forall|i: int| 0 <= i < f.len() ==> 0 <= #[trigger] f[i] < h.len() && h[f[i]] == n[i]
    &&& forall|i: int, j: int| 0 <= i < j < f.len() ==> #[trigger] f[i] < #[trigger] f[j]
}

/// `n` occurs in `h` in order, not necessarily contiguously.
pub open spec fn is_subsequence(n: Seq<char>, h: Seq<char>) -> bool {
    exists|f: Seq<int>| embeds(n, h, f)
}

proof fn lemma_fuzz_ni_step(n: Seq<char>, h: Seq<char>, k: nat)
    requires
        0 < k <= h.len(),
    ensures
        fuzz_run(n, h, (k - 1) as nat).ni <= fuzz_run(n, h, k).ni,
{
}

proof fn lemma_fuzz_hits(n: Seq<char>, h: Seq<char>, k: nat)
    requires
        k <= h.len(),
    ensures
        exists|f: Seq<int>|
            embeds(n.subrange(0, fuzz_run(n, h, k).ni as int), h, f) && (forall|i: int|
                0 <= i < f.len() ==> #[trigger] f[i] < k),
    decreases k,
{
    lemma_fuzz_bounds(n, h, k);
    if k == 0 {
        let f: Seq<int> = Seq::empty();
        assert(embeds(n.subrange(0, 0), h, f));
    } else {
        let km = (k - 1) as nat;
        lemma_fuzz_hits(n, h, km);
        lemma_fuzz_bounds(n, h, km);
        let st = fuzz_run(n, h, km);
        let f = choose|f: Seq<int>|
            embeds(n.subrange(0, st.ni as int), h, f) && (forall|i: int|
                0 <= i < f.len() ==> #[trigger] f[i] < km);
        if st.ni < n.len() && h[km as int] == n[st.ni as int] {
            let g = f.push(km as int);
            let m = n.subrange(0, st.ni + 1 as int);
            assert forall|i: int| 0 <= i < g.len() implies 0 <= #[trigger] g[i] < h.len() && h[g[i]]
                == m[i] by {
                if i < f.len() {
                    assert(g[i] == f[i]);
                    assert(m[i] == n.subrange(0, st.ni as int)[i]);
                }
            }
            assert forall|i: int, j: int| 0 <= i < j < g.len() implies #[trigger] g[i] < #[trigger] g[j] by {
                if j < f.len() {
                    assert(g[i] == f[i] && g[j] == f[j]);
                } else {
                    assert(g[i] == f[i]);
                }
            }
            assert(embeds(m, h, g));
            assert(forall|i: int| 0 <= i < g.len() ==> #[trigger] g[i] < k);
        } else {
            assert(forall|i: int| 0 <= i < f.len() ==> #[trigger] f[i] < k);
        }
    }
}

proof fn lemma_fuzz_greedy(n: Seq<char>, h: Seq<char>, f: Seq<int>, k: nat, j: int)
    requires
        embeds(n, h, f),
        k <= h.len(),
        0 <= j < f.len(),
        f[j] < k,
    ensures
        fuzz_run(n, h, k).ni > j,
    decreases k,
{
    let km = (k - 1) as nat;
    lemma_fuzz_ni_step(n, h, k);
    if f[j] < km {
        lemma_fuzz_greedy(n, h, f, km, j);
    } else if j > 0 {
        assert(f[j - 1] < f[j]);
        lemma_fuzz_greedy(n, h, f, km, j - 1);
    }
}

/// The scorer finds a match exactly when the needle occurs in the haystack
/// in order.
pub proof fn lemma_fuzzy_matches_subsequences(n: Seq<char>, h: Seq<char>)
    ensures
        fuzzy(n, h) is Some <==> is_subsequence(n, h),
{
    lemma_fuzz_bounds(n, h, h.len());
    lemma_fuzz_hits(n, h, h.len());
    let st = fuzz_run(n, h, h.len());
    if st.ni == n.len() {
        assert(n.subrange(0, st.ni as int) =~= n);
    }
    if is_subsequence(n, h) {
        let f = choose|f: Seq<int>| embeds(n, h, f);
        if n.len() > 0 {
            lemma_fuzz_greedy(n, h, f, h.len(), n.len() - 1);
        }
    }
}

/// An integer brought into `i32` range by saturation.
pub open spec fn saturate_i32(v: int) -> int {
    if v > i32::MAX {
        i32::MAX as int
    } else if v < i32::MIN {
        i32::MIN as int
    } else {
        v
    }
}

proof fn lemma_fuzz_bounds(n: Seq<char>, h: Seq<char>, k: nat)
    requires
        k <= h.len(),
    ensures
        0 <= fuzz_run(n, h, k).score <= 10 * k,
        fuzz_run(n, h, k).ni <= n.len(),
        fuzz_run(n, h, k).ni <= k,
        fuzz_run(n, h, k).last_hit matches Some(x) ==> x < k,
    decreases k,
{
    if k > 0 {
        lemma_fuzz_bounds(n, h, (k - 1) as nat);
    }
}

/// The fuzzy score over character sequences that are already lowercased.
/// The score is kept exactly while it is computed; only a result outside
/// `i32` (a haystack of hundreds of millions of characters) saturates.
pub fn fuzzy_score_chars(n: &Vec<char>, h: &Vec<char>) -> (r: Option<i32>)
    ensures
        match (r, fuzzy(n@, h@)) {
            (Some(a), Some(b)) => a == saturate_i32(b),
            (None, None) => true,
            _ => false,
        },
{
    let mut score: u128 = 0;
    let mut ni: usize = 0;
    let mut last_hit: Option<usize> = None;
    let mut hi: usize = 0;
    while hi < h.len()
        invariant
            0 <= hi <= h@.len(),
            ({
                let st = fuzz_run(n@, h@, hi as nat);
                &&& st.score == score
                &&& st.ni == ni
                &&& match (last_hit, st.last_hit) {
                    (Some(a), Some(b)) => a == b,
                    (None, None) => true,
                    _ => false,
                }
            }),
        decreases h@.len() - hi,
    {
        proof {
            lemma_fuzz_bounds(n@, h@, hi as nat);
            lemma_fuzz_bounds(n@, h@, (hi + 1) as nat);
        }
        let hc = h[hi];
        if ni < n.len() && hc == n[ni] {
            let mut gain: u128 = 1;
            if hi == 0 {
                gain = gain + 4;
            } else if h[hi - 1] == ' ' || h[hi - 1] == '-' || h[hi - 1] == '_' {
                gain = gain + 3;
            }
            let adjacent = match last_hit {
                Some(x) => hi > 0 && x == hi - 1,
                None => false,
            };
            if adjacent {
                gain = gain + 2;
            }
            score = score + gain;
            last_hit = Some(hi);
            ni = ni + 1;
        }
        hi = hi + 1;
    }
    proof {
        lemma_fuzz_bounds(n@, h@, hi as nat);
    }
    if ni == n.len() {
        let len8: u128 = (h.len() / 8) as u128;
        let total: i128 = score as i128 - len8 as i128;
        if total > i32::MAX as i128 {
            Some(i32::MAX)
        } else if total < i32::MIN as i128 {
            Some(i32::MIN)
        } else {
            Some(total as i32)
        }
    } else {
        None
    }
}

proof fn lemma_ascii_lowered_unique(s: Seq<char>, a: Seq<char>, b: Seq<char>)
    requires
        ascii_lowered(s, a),
        ascii_lowered(s, b),
    ensures
        a == b,
{
    assert forall|i: int| 0 <= i < a.len() implies a[i] == b[i] by {
        let c = s[i];
        if 'A' <= c && c <= 'Z' {
            assert((a[i] as int) == (c as int) + 32);
            assert((b[i] as int) == (c as int) + 32);
        } else {
            assert(a[i] == c && b[i] == c);
        }
    }
    assert(a =~= b);
}

/// Case-insensitive subsequence score: `None` exactly when the needle, once
/// lowercased, does not occur in order in the lowercased haystack; higher is
/// better. An empty needle scores 0.
pub fn fuzzy_score(needle: &str, haystack: &str) -> (r: Option<i32>)
    ensures
        needle@.len() == 0 ==> r == Some(0i32),
        needle@.len() != 0 ==> (r is Some <==> is_subsequence(
            unicode_lowercase(needle@),
            unicode_lowercase(haystack@),
        )),
        needle@.len() != 0 ==> match (
            r,
            fuzzy(unicode_lowercase(needle@), unicode_lowercase(haystack@)),
        ) {
            (Some(a), Some(b)) => a == saturate_i32(b),
            (None, None) => true,
            _ => false,
        },
        forall|n: Seq<char>, h: Seq<char>|
            #![trigger ascii_lowered(needle@, n), ascii_lowered(haystack@, h)]
            needle@.len() != 0 && is_ascii_text(needle@) && is_ascii_text(haystack@)
                && ascii_lowered(needle@, n) && ascii_lowered(haystack@, h) ==> match (
                r,
                fuzzy(n, h),
            ) {
                (Some(a), Some(b)) => a == saturate_i32(b),
                (None, None) => true,
                _ => false,
            },
{
    let nc = chars_of(needle);
    if nc.len() == 0 {
        return Some(0);
    }
    let n = chars_of(to_lowercase(needle).as_str());
    let h = chars_of(to_lowercase(haystack).as_str());
    proof {
        lemma_fuzzy_matches_subsequences(n@, h@);
        assert forall|n2: Seq<char>, h2: Seq<char>|
            is_ascii_text(needle@) && is_ascii_text(haystack@) && ascii_lowered(needle@, n2)
                && ascii_lowered(haystack@, h2) implies n2 == n@ && h2 == h@ by {
            lemma_ascii_lowered_unique(needle@, n2, n@);
            lemma_ascii_lowered_unique(haystack@, h2, h@);
        }
    }
    fuzzy_score_chars(&n, &h)
}

} // verus!
