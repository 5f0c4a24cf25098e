//! Canonical byte encodings shared by every signed or hashed message:
//! little-endian length prefixes, length-framed fields, key lists and
//! lowercase hex.

use vstd::prelude::*;

use crate::bytes::Key32;

verus! {

/// The `k` low bytes of `n`, least significant first.
pub open spec fn le_bytes(n: nat, k: nat) -> Seq<u8>
    decreases k,
{
    if k == 0 {
        Seq::empty()
    } else {
        seq![(n % 256) as u8] + le_bytes(n / 256, (k - 1) as nat)
    }
}

/// A `u64` in little-endian byte order (`u64::to_le_bytes`).
pub open spec fn le64(n: nat) -> Seq<u8> {
    le_bytes(n, 8)
}

/// A field framed by its length: the length as a little-endian `u64`, then the bytes.
pub open spec fn framed(b: Seq<u8>) -> Seq<u8> {
    le64(b.len()) + b
}

/// The bytes of each key, one after the other.
pub open spec fn keys_bytes(ks: Seq<Key32>) -> Seq<u8>
    decreases ks.len(),
{
    if ks.len() == 0 {
        Seq::empty()
    } else {
        keys_bytes(ks.drop_last()) + ks.last()@
    }
}

/// One lowercase hex digit.
pub open spec fn hex_digit(n: u8) -> u8 {
    if n < 10 {
        (48 + n) as u8
    } else {
        (87 + n) as u8
    }
}

/// Lowercase hex of a byte string, high nibble first, as ASCII bytes.
pub open spec fn hex_lower(b: Seq<u8>) -> Seq<u8>
    decreases b.len(),
{
    if b.len() == 0 {
        Seq::empty()
    } else {
        hex_lower(b.drop_last()) + seq![hex_digit(b.last() / 16), hex_digit(b.last() % 16)]
    }
}

pub proof fn lemma_hex_lower_len(b: Seq<u8>)
    ensures
        hex_lower(b).len() == 2 * b.len(),
    decreases b.len(),
{
    if b.len() > 0 {
        lemma_hex_lower_len(b.drop_last());
    }
}

pub proof fn lemma_le_bytes_len(n: nat, k: nat)
    ensures
        le_bytes(n, k).len() == k,
    decreases k,
{
    if k > 0 {
        lemma_le_bytes_len(n / 256, (k - 1) as nat);
    }
}

/// A framed field is its 8-byte length prefix and its bytes.
pub proof fn lemma_framed_len(b: Seq<u8>)
    ensures
        framed(b).len() == 8 + b.len(),
        framed(b).subrange(8, 8 + b.len() as int) == b,
{
    lemma_le_bytes_len(b.len(), 8);
    assert(framed(b).subrange(8, 8 + b.len() as int) =~= b);
}

/// Distinct nibbles have distinct hex digits.
pub proof fn lemma_hex_digit_injective(x: u8, y: u8)
    requires
        x < 16,
        y < 16,
        hex_digit(x) == hex_digit(y),
    ensures
        x == y,
{
}

/// Hex is injective: equal hex text means equal bytes.
pub proof fn lemma_hex_lower_injective(a: Seq<u8>, b: Seq<u8>)
    requires
        hex_lower(a) == hex_lower(b),
    ensures
        a == b,
    decreases a.len(),
{
    lemma_hex_lower_len(a);
    lemma_hex_lower_len(b);
    if a.len() > 0 {
        let ha = hex_lower(a);
        let n = ha.len() as int;
        let pa = hex_lower(a.drop_last());
        let pb = hex_lower(b.drop_last());
        lemma_hex_lower_len(a.drop_last());
        lemma_hex_lower_len(b.drop_last());
        assert(ha[n - 2] == hex_digit(a.last() / 16));
        assert(ha[n - 1] == hex_digit(a.last() % 16));
        assert(hex_lower(b)[n - 2] == hex_digit(b.last() / 16));
        assert(hex_lower(b)[n - 1] == hex_digit(b.last() % 16));
        lemma_hex_digit_injective(a.last() / 16, b.last() / 16);
        lemma_hex_digit_injective(a.last() % 16, b.last() % 16);
        assert(a.last() == b.last());
        assert(pa =~= ha.subrange(0, n - 2));
        assert(pb =~= hex_lower(b).subrange(0, n - 2));
        lemma_hex_lower_injective(a.drop_last(), b.drop_last());
        assert(a =~= a.drop_last().push(a.last()));
        assert(b =~= b.drop_last().push(b.last()));
    } else {
        assert(a =~= b);
    }
}

/// Append `n` to `out` as 8 little-endian bytes.
pub fn push_le64(out: &mut Vec<u8>, n: u64)
    ensures
        final(out)@ == old(out)@ + le64(n as nat),
{
    let ghost start = out@;
    let mut x: u64 = n;
    let mut k: usize = 0;
    while k < 8
        invariant
            0 <= k <= 8,
            out@ + le_bytes(x as nat, (8 - k) as nat) == start + le64(n as nat),
        decreases 8 - k,
    {
        let b: u8 = (x % 256) as u8;
        proof {
            let rest = le_bytes((x / 256) as nat, (8 - k - 1) as nat);
            assert(le_bytes(x as nat, (8 - k) as nat) == seq![b] + rest);
            assert(out@.push(b) + rest =~= out@ + (seq![b] + rest));
        }
        out.push(b);
        x = x / 256;
        k = k + 1;
    }
    assert(le_bytes(x as nat, 0) =~= Seq::<u8>::empty());
    assert(out@ + Seq::<u8>::empty() =~= out@);
}

/// Append `bytes` to `out`.
pub fn push_all(out: &mut Vec<u8>, bytes: &[u8])
    ensures
        final(out)@ == old(out)@ + bytes@,
{
    let ghost start = out@;
    let mut i: usize = 0;
    while i < bytes.len()
        invariant
            0 <= i <= bytes.len(),
            out@ == start + bytes@.subrange(0, i as int),
        decreases bytes.len() - i,
    {
        assert(bytes@.subrange(0, i + 1) =~= bytes@.subrange(0, i as int).push(bytes@[i as int]));
        out.push(bytes[i]);
        i = i + 1;
    }
    assert(bytes@.subrange(0, i as int) =~= bytes@);
}

/// Append `bytes` framed by its length.
pub fn push_framed(out: &mut Vec<u8>, bytes: &[u8])
    ensures
        final(out)@ == old(out)@ + framed(bytes@),
{
    let ghost start = out@;
    push_le64(out, bytes.len() as u64);
    push_all(out, bytes);
    assert(start + le64(bytes@.len()) + bytes@ =~= start + framed(bytes@));
}

/// Append each key's bytes.
pub fn push_keys(out: &mut Vec<u8>, keys: &Vec<Key32>)
    ensures
        final(out)@ == old(out)@ + keys_bytes(keys@),
{
    let ghost start = out@;
    let mut i: usize = 0;
    while i < keys.len()
        invariant
            0 <= i <= keys.len(),
            out@ == start + keys_bytes(keys@.subrange(0, i as int)),
        decreases keys.len() - i,
    {
        let ghost before = out@;
        let k = keys[i];
        push_all(out, &k);
        proof {
            let pre = keys@.subrange(0, i as int);
            let post = keys@.subrange(0, i + 1);
            assert(post.drop_last() =~= pre);
            assert(post.last() == k);
            assert(out@ =~= start + keys_bytes(post));
        }
        i = i + 1;
    }
    assert(keys@.subrange(0, i as int) =~= keys@);
}

/// Lowercase hex of `bytes`, as ASCII bytes.
pub fn hex_bytes(bytes: &[u8]) -> (r: Vec<u8>)
    ensures
        r@ == hex_lower(bytes@),
{
    let mut out: Vec<u8> = Vec::new();
    let mut i: usize = 0;
    while i < bytes.len()
        invariant
            0 <= i <= bytes.len(),
            out@ == hex_lower(bytes@.subrange(0, i as int)),
        decreases bytes.len() - i,
    {
        let b = bytes[i];
        let hi = b / 16;
        let lo = b % 16;
        let h: u8 = if hi < 10 { 48 + hi } else { 87 + hi };
        let l: u8 = if lo < 10 { 48 + lo } else { 87 + lo };
        proof {
            let post = bytes@.subrange(0, i + 1);
            assert(post.drop_last() =~= bytes@.subrange(0, i as int));
            assert(post.last() == b);
        }
        out.push(h);
        out.push(l);
        proof {
            let post = bytes@.subrange(0, i + 1);
            assert(out@ =~= hex_lower(post));
        }
        i = i + 1;
    }
    assert(bytes@.subrange(0, i as int) =~= bytes@);
    out
}

/// Lowercase hex of a byte string, as text.
pub open spec fn hex_text(b: Seq<u8>) -> Seq<char> {
    hex_lower(b).map_values(|x: u8| x as char)
}

/// Lowercase hex of `bytes`, as a string.
pub fn hex_string(bytes: &[u8]) -> (r: String)
    ensures
        r@ == hex_text(bytes@),
        r@.len() == 2 * bytes@.len(),
{
    let hex = hex_bytes(bytes);
    let mut cs: Vec<char> = Vec::new();
    let mut i: usize = 0;
    while i < hex.len()
        invariant
            0 <= i <= hex@.len(),
            cs@.len() == i,
            forall|j: int| 0 <= j < i ==> #[trigger] cs@[j] == hex@[j] as char,
        decreases hex@.len() - i,
    {
        cs.push(hex[i] as char);
        i = i + 1;
    }
    proof {
        lemma_hex_lower_len(bytes@);
    }
    assert(cs@ =~= hex_text(bytes@));
    crate::text::string_of(cs.as_slice())
}

/// Every character of a hex text is a lowercase hex digit.
pub proof fn lemma_hex_text_digits(b: Seq<u8>)
    ensures
        hex_text(b).len() == 2 * b.len(),
        forall|i: int|
            0 <= i < hex_text(b).len() ==> {
                let c = #[trigger] hex_text(b)[i];
                ('0' <= c && c <= '9') || ('a' <= c && c <= 'f')
            },
    decreases b.len(),
{
    lemma_hex_lower_len(b);
    if b.len() > 0 {
        lemma_hex_text_digits(b.drop_last());
        let h = hex_lower(b);
        let p = hex_lower(b.drop_last());
        assert forall|i: int| 0 <= i < h.len() implies {
            let c = #[trigger] hex_text(b)[i];
            ('0' <= c && c <= '9') || ('a' <= c && c <= 'f')
        } by {
            if i < p.len() {
                assert(h[i] == p[i]);
                assert(hex_text(b)[i] == hex_text(b.drop_last())[i]);
            }
        }
    }
}

/// Hex text is injective: equal texts mean equal bytes.
pub proof fn lemma_hex_text_injective(a: Seq<u8>, b: Seq<u8>)
    requires
        hex_text(a) == hex_text(b),
    ensures
        a == b,
{
    lemma_hex_lower_len(a);
    lemma_hex_lower_len(b);
    let ha = hex_lower(a);
    let hb = hex_lower(b);
    assert(ha.len() == hex_text(a).len() && hb.len() == hex_text(b).len());
    assert forall|i: int| 0 <= i < ha.len() implies ha[i] == hb[i] by {
        assert(hex_text(a)[i] == ha[i] as char);
        assert(hex_text(b)[i] == hb[i] as char);
    }
    assert(ha =~= hb);
    lemma_hex_lower_injective(a, b);
}

} // verus!
