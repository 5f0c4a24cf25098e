//! Identifiers: principals (Ed25519 public keys) and workspaces.

use vstd::prelude::*;

use crate::bytes::{keys_equal, Key32};
use crate::encoding::{hex_digit, hex_lower, hex_string, hex_text, lemma_hex_text_digits};

verus! {

/// A principal: the Ed25519 public key it signs with.
#[derive(Debug, Clone, Copy, PartialEq, Eq, Hash, PartialOrd, Ord)]
pub struct UserId(pub Key32);

impl UserId {
    /// The principal of an Ed25519 public key.
    pub fn from_key(key: Key32) -> (r: UserId)
        ensures
            r.0 == key,
    {
        UserId(key)
    }

    pub fn key(&self) -> (r: Key32)
        ensures
            r == self.0,
    {
        self.0
    }

    /// Whether two principals are the same key.
    pub fn same(&self, other: &UserId) -> (r: bool)
        ensures
            r == (self.0 == other.0),
    {
        keys_equal(&self.0, &other.0)
    }
}

/// Whether `c` is a digit of Crockford's base-32 alphabet (upper case).
pub open spec fn is_crockford(c: char) -> bool {
    ('0' <= c && c <= '9') || ('A' <= c && c <= 'Z' && c != 'I' && c != 'L' && c != 'O' && c
        != 'U')
}

/// The text of a well-formed workspace id: `ws_` and 26 Crockford digits.
pub open spec fn workspace_id_text(s: Seq<char>) -> bool {
    &&& s.len() == 29
    &&& s[0] == 'w' && s[1] == 's' && s[2] == '_'
    &&& forall|i: int| 3 <= i < 29 ==> #[trigger] is_crockford(s[i])
}

/// A workspace id (`ws_` and a 128-bit value in 26 Crockford digits).
#[derive(Debug, PartialEq, Eq)]
pub struct WorkspaceId {
    id: String,
}

impl WorkspaceId {
    pub closed spec fn view(&self) -> Seq<char> {
        self.id@
    }

    #[verifier::type_invariant]
    closed spec fn inv(&self) -> bool {
        workspace_id_text(self.id@)
    }

    /// The id's text, which is always well formed.
    pub fn as_str(&self) -> (r: &str)
        ensures
            r@ == self.view(),
            workspace_id_text(r@),
    {
        proof {
            use_type_invariant(self);
        }
        self.id.as_str()
    }

    /// Parse a workspace id; `None` unless `s` is well formed.
    pub fn parse(s: &str) -> (r: Option<WorkspaceId>)
        ensures
            r is Some <==> workspace_id_text(s@),
            r matches Some(w) ==> w.view() == s@,
    {
        let cs = crate::text::chars_of(s);
        if cs.len() != 29 {
            return None;
        }
        if cs[0] != 'w' || cs[1] != 's' || cs[2] != '_' {
            return None;
        }
        let mut i: usize = 3;
        while i < 29
            invariant
                cs@ == s@,
                cs@.len() == 29,
                3 <= i <= 29,
                forall|j: int| 3 <= j < i ==> #[trigger] is_crockford(cs@[j]),
            decreases 29 - i,
        {
            let c = cs[i];
            let ok = ('0' <= c && c <= '9') || ('A' <= c && c <= 'Z' && c != 'I' && c != 'L' && c
                != 'O' && c != 'U');
            if !ok {
                assert(!is_crockford(s@[i as int]));
                return None;
            }
            i = i + 1;
        }
        Some(WorkspaceId { id: crate::text::string_of(cs.as_slice()) })
    }
}

/// The digits of Crockford's base 32, in value order.
pub open spec fn crockford_digits() -> Seq<char> {
    seq![
        '0', '1', '2', '3', '4', '5', '6', '7', '8', '9', 'A', 'B', 'C', 'D', 'E', 'F', 'G', 'H',
        'J', 'K', 'M', 'N', 'P', 'Q', 'R', 'S', 'T', 'V', 'W', 'X', 'Y', 'Z',
    ]
}

/// The big-endian value of a byte string.
pub open spec fn be_value(b: Seq<u8>) -> nat
    decreases b.len(),
{
    if b.len() == 0 {
        0
    } else {
        be_value(b.drop_last()) * 256 + b.last() as nat
    }
}

pub open spec fn pow256(k: nat) -> nat
    decreases k,
{
    if k == 0 {
        1
    } else {
        256 * pow256((k - 1) as nat)
    }
}

/// The `n` low base-32 digits of `v`, most significant first.
pub open spec fn base32_text(v: nat, n: nat) -> Seq<char>
    decreases n,
{
    if n == 0 {
        Seq::empty()
    } else {
        base32_text(v / 32, (n - 1) as nat) + seq![crockford_digits()[(v % 32) as int]]
    }
}

/// The id that commits to a 128-bit digest: `ws_` and the digest's value in
/// 26 Crockford digits.
pub open spec fn digest_id_text(d: Seq<u8>) -> Seq<char> {
    seq!['w', 's', '_'] + base32_text(be_value(d), 26)
}

proof fn lemma_be_value_bound(b: Seq<u8>)
    ensures
        be_value(b) < pow256(b.len()),
    decreases b.len(),
{
    if b.len() > 0 {
        let p = b.drop_last();
        lemma_be_value_bound(p);
        let x = be_value(p);
        let m = pow256(p.len());
        assert(x * 256 + b.last() < m * 256) by (nonlinear_arith)
            requires
                x < m,
                b.last() < 256,
        ;
    }
}

proof fn lemma_base32_text(v: nat, n: nat)
    ensures
        base32_text(v, n).len() == n,
        forall|i: int| 0 <= i < n ==> #[trigger] is_crockford(base32_text(v, n)[i]),
    decreases n,
{
    if n > 0 {
        lemma_base32_text(v / 32, (n - 1) as nat);
        let t = base32_text(v, n);
        let d = crockford_digits()[(v % 32) as int];
        assert(is_crockford(d));
        assert forall|i: int| 0 <= i < n implies #[trigger] is_crockford(t[i]) by {
            if i < n - 1 {
                assert(t[i] == base32_text(v / 32, (n - 1) as nat)[i]);
            }
        }
    }
}

fn push_base32(out: &mut Vec<char>, v: u128, n: usize)
    ensures
        final(out)@ == old(out)@ + base32_text(v as nat, n as nat),
    decreases n,
{
    if n > 0 {
        push_base32(out, v / 32, n - 1);
        let table: [char; 32] = [
            '0', '1', '2', '3', '4', '5', '6', '7', '8', '9', 'A', 'B', 'C', 'D', 'E', 'F', 'G',
            'H', 'J', 'K', 'M', 'N', 'P', 'Q', 'R', 'S', 'T', 'V', 'W', 'X', 'Y', 'Z',
        ];
        assert(table@ =~= crockford_digits());
        let ghost before = out@;
        out.push(table[(v % 32) as usize]);
        assert(out@ =~= before + seq![crockford_digits()[(v % 32) as int]]);
    } else {
        assert(old(out)@ + base32_text(v as nat, 0) =~= old(out)@);
    }
}

impl WorkspaceId {
    /// The id that commits to a 128-bit digest: `ws_` and 26 Crockford digits.
    pub fn from_digest(d: [u8; 16]) -> (r: WorkspaceId)
        ensures
            r.view() == digest_id_text(d@),
    {
        let mut v: u128 = 0;
        let mut i: usize = 0;
        while i < 16
            invariant
                0 <= i <= 16,
                v == be_value(d@.subrange(0, i as int)),
            decreases 16 - i,
        {
            proof {
                let p = d@.subrange(0, i as int);
                let q = d@.subrange(0, i + 1);
                assert(q.drop_last() =~= p);
                lemma_be_value_bound(q);
                reveal_with_fuel(pow256, 17);
                assert(pow256(16) == 0x1_0000_0000_0000_0000_0000_0000_0000_0000);
                assert(q.len() <= 16);
                assert(pow256(q.len()) <= pow256(16)) by {
                    lemma_pow256_mono(q.len(), 16);
                }
            }
            v = v * 256 + d[i] as u128;
            i = i + 1;
        }
        assert(d@.subrange(0, 16) =~= d@);
        let mut cs: Vec<char> = vec!['w', 's', '_'];
        push_base32(&mut cs, v, 26);
        proof {
            lemma_base32_text(v as nat, 26);
            assert(cs@ =~= digest_id_text(d@));
            assert forall|j: int| 3 <= j < 29 implies #[trigger] is_crockford(cs@[j]) by {
                assert(cs@[j] == base32_text(v as nat, 26)[j - 3]);
            }
        }
        WorkspaceId { id: crate::text::string_of(cs.as_slice()) }
    }
}

proof fn lemma_pow256_mono(a: nat, b: nat)
    requires
        a <= b,
    ensures
        pow256(a) <= pow256(b),
    decreases b,
{
    if a < b {
        lemma_pow256_mono(a, (b - 1) as nat);
        assert(pow256(b) == 256 * pow256((b - 1) as nat));
    }
}

impl Clone for WorkspaceId {
    fn clone(&self) -> (r: WorkspaceId)
        ensures
            r.view() == self.view(),
    {
        proof {
            use_type_invariant(self);
        }
        WorkspaceId { id: self.id.clone() }
    }
}

/// Whether `c` is a lowercase hex digit.
pub open spec fn is_hex_char(c: char) -> bool {
    ('0' <= c && c <= '9') || ('a' <= c && c <= 'f')
}

/// The value of a lowercase hex digit.
fn hex_digit_value(c: char) -> (r: Option<u8>)
    ensures
        r is Some <==> is_hex_char(c),
        r matches Some(v) ==> v < 16 && hex_digit(v) as char == c,
{
    if '0' <= c && c <= '9' {
        let v = (c as u32 - 48) as u8;
        assert(hex_digit(v) == 48 + v);
        Some(v)
    } else if 'a' <= c && c <= 'f' {
        let v = (c as u32 - 87) as u8;
        assert(hex_digit(v) == 87 + v);
        Some(v)
    } else {
        None
    }
}

impl UserId {
    /// The key as text: its 64 lowercase hex digits.
    pub fn key_text(&self) -> (r: String)
        ensures
            r@ == hex_text(self.0@),
    {
        hex_string(&self.0)
    }

    /// The principal whose key's lowercase hex is `s`; `None` when `s` is not
    /// 64 lowercase hex digits.
    pub fn from_key_text(s: &str) -> (r: Option<UserId>)
        ensures
            r matches Some(u) ==> hex_text(u.0@) == s@,
            r is None ==> forall|k: Key32| hex_text(k@) != s@,
    {
        let cs = crate::text::chars_of(s);
        if cs.len() != 64 {
            proof {
                assert forall|k: Key32| hex_text(k@) != s@ by {
                    lemma_hex_text_digits(k@);
                }
            }
            return None;
        }
        let mut k: Key32 = [0u8; 32];
        let mut i: usize = 0;
        while i < 32
            invariant
                cs@ == s@,
                cs@.len() == 64,
                0 <= i <= 32,
                hex_text(k@.subrange(0, i as int)) == cs@.subrange(0, 2 * i as int),
            decreases 32 - i,
        {
            let hi = hex_digit_value(cs[2 * i]);
            let lo = hex_digit_value(cs[2 * i + 1]);
            if hi.is_none() || lo.is_none() {
                proof {
                    let bad: int = if hi.is_none() { 2 * i as int } else { 2 * i + 1 };
                    assert(!is_hex_char(s@[bad]));
                    assert forall|key: Key32| hex_text(key@) != s@ by {
                        lemma_hex_text_digits(key@);
                        if hex_text(key@) == s@ {
                            assert(is_hex_char(hex_text(key@)[bad]));
                        }
                    }
                }
                return None;
            }
            let h = hi.unwrap();
            let l = lo.unwrap();
            let x: u8 = h * 16 + l;
            let ghost before = k@.subrange(0, i as int);
            k[i] = x;
            proof {
                let after = k@.subrange(0, i + 1);
                assert(after.drop_last() =~= before);
                assert(after.last() == x);
                assert(x / 16 == h && x % 16 == l);
                assert(hex_lower(after) == hex_lower(before) + seq![hex_digit(h), hex_digit(l)]);
                assert(hex_text(after) =~= hex_text(before) + seq![hex_digit(h) as char, hex_digit(l) as char]);
                assert(cs@.subrange(0, 2 * (i + 1)) =~= cs@.subrange(0, 2 * i as int) + seq![cs@[2 * i as int], cs@[2 * i + 1]]);
            }
            i = i + 1;
        }
        assert(k@.subrange(0, 32) =~= k@);
        assert(cs@.subrange(0, 64) =~= cs@);
        Some(UserId(k))
    }
}

/// The text of a well-formed prefixed id: `prefix` and 26 Crockford digits.
pub open spec fn prefixed_id_text(prefix: Seq<char>, s: Seq<char>) -> bool {
    &&& s.len() == prefix.len() + 26
    &&& s.subrange(0, prefix.len() as int) == prefix
    &&& forall|i: int| prefix.len() <= i < s.len() ==> #[trigger] is_crockford(s[i])
}

/// Whether `s` is `prefix` followed by 26 Crockford digits.
fn is_prefixed_id(s: &str, prefix: &str) -> (r: bool)
    ensures
        r == prefixed_id_text(prefix@, s@),
{
    let cs = crate::text::chars_of(s);
    let ps = crate::text::chars_of(prefix);
    let n = ps.len();
    if n > cs.len() || cs.len() - n != 26 {
        return false;
    }
    let mut i: usize = 0;
    while i < n
        invariant
            cs@ == s@,
            ps@ == prefix@,
            n == ps@.len(),
            cs@.len() == n + 26,
            0 <= i <= n,
            forall|j: int| 0 <= j < i ==> cs@[j] == ps@[j],
        decreases n - i,
    {
        if cs[i] != ps[i] {
            assert(s@.subrange(0, n as int)[i as int] != prefix@[i as int]);
            return false;
        }
        i = i + 1;
    }
    assert(s@.subrange(0, n as int) =~= prefix@);
    while i < cs.len()
        invariant
            cs@ == s@,
            ps@ == prefix@,
            n == ps@.len(),
            cs@.len() == n + 26,
            n <= i <= cs@.len(),
            s@.subrange(0, n as int) == prefix@,
            forall|j: int| n <= j < i ==> #[trigger] is_crockford(cs@[j]),
        decreases cs@.len() - i,
    {
        let c = cs[i];
        let ok = ('0' <= c && c <= '9') || ('A' <= c && c <= 'Z' && c != 'I' && c != 'L' && c
            != 'O' && c != 'U');
        if !ok {
            assert(!is_crockford(s@[i as int]));
            return false;
        }
        i = i + 1;
    }
    true
}

/// An issue document's id: `iss_` and 26 Crockford digits.
#[derive(Debug, PartialEq, Eq)]
pub struct DocId {
    id: String,
}

/// A project's id: `prj_` and 26 Crockford digits.
#[derive(Debug, PartialEq, Eq)]
pub struct ProjectId {
    id: String,
}

/// A label's id: `lbl_` and 26 Crockford digits.
#[derive(Debug, PartialEq, Eq)]
pub struct LabelId {
    id: String,
}

pub open spec fn doc_id_text(s: Seq<char>) -> bool {
    prefixed_id_text(seq!['i', 's', 's', '_'], s)
}

pub open spec fn project_id_text(s: Seq<char>) -> bool {
    prefixed_id_text(seq!['p', 'r', 'j', '_'], s)
}

pub open spec fn label_id_text(s: Seq<char>) -> bool {
    prefixed_id_text(seq!['l', 'b', 'l', '_'], s)
}

impl DocId {
    pub closed spec fn view(&self) -> Seq<char> {
        self.id@
    }

    #[verifier::type_invariant]
    closed spec fn inv(&self) -> bool {
        doc_id_text(self.id@)
    }

    pub fn as_str(&self) -> (r: &str)
        ensures
            r@ == self.view(),
            doc_id_text(r@),
    {
        proof {
            use_type_invariant(self);
        }
        self.id.as_str()
    }

    /// Parse a document id; `None` unless `s` is well formed.
    pub fn parse(s: &str) -> (r: Option<DocId>)
        ensures
            r is Some <==> doc_id_text(s@),
            r matches Some(d) ==> d.view() == s@,
    {
        proof {
            reveal_strlit("iss_");
        }
        if is_prefixed_id(s, "iss_") {
            assert("iss_"@ =~= seq!['i', 's', 's', '_']);
            Some(DocId { id: String::from_str(s) })
        } else {
            assert("iss_"@ =~= seq!['i', 's', 's', '_']);
            None
        }
    }
}

impl ProjectId {
    pub closed spec fn view(&self) -> Seq<char> {
        self.id@
    }

    #[verifier::type_invariant]
    closed spec fn inv(&self) -> bool {
        project_id_text(self.id@)
    }

    pub fn as_str(&self) -> (r: &str)
        ensures
            r@ == self.view(),
            project_id_text(r@),
    {
        proof {
            use_type_invariant(self);
        }
        self.id.as_str()
    }

    /// Parse a project id; `None` unless `s` is well formed.
    pub fn parse(s: &str) -> (r: Option<ProjectId>)
        ensures
            r is Some <==> project_id_text(s@),
            r matches Some(p) ==> p.view() == s@,
    {
        proof {
            reveal_strlit("prj_");
        }
        if is_prefixed_id(s, "prj_") {
            assert("prj_"@ =~= seq!['p', 'r', 'j', '_']);
            Some(ProjectId { id: String::from_str(s) })
        } else {
            assert("prj_"@ =~= seq!['p', 'r', 'j', '_']);
            None
        }
    }
}

impl LabelId {
    pub closed spec fn view(&self) -> Seq<char> {
        self.id@
    }

    #[verifier::type_invariant]
    closed spec fn inv(&self) -> bool {
        label_id_text(self.id@)
    }

    pub fn as_str(&self) -> (r: &str)
        ensures
            r@ == self.view(),
            label_id_text(r@),
    {
        proof {
            use_type_invariant(self);
        }
        self.id.as_str()
    }

    /// Parse a label id; `None` unless `s` is well formed.
    pub fn parse(s: &str) -> (r: Option<LabelId>)
        ensures
            r is Some <==> label_id_text(s@),
            r matches Some(l) ==> l.view() == s@,
    {
        proof {
            reveal_strlit("lbl_");
        }
        if is_prefixed_id(s, "lbl_") {
            assert("lbl_"@ =~= seq!['l', 'b', 'l', '_']);
            Some(LabelId { id: String::from_str(s) })
        } else {
            assert("lbl_"@ =~= seq!['l', 'b', 'l', '_']);
            None
        }
    }
}

impl Clone for DocId {
    fn clone(&self) -> (r: DocId)
        ensures
            r.view() == self.view(),
    {
        proof {
            use_type_invariant(self);
        }
        DocId { id: self.id.clone() }
    }
}

impl Clone for ProjectId {
    fn clone(&self) -> (r: ProjectId)
        ensures
            r.view() == self.view(),
    {
        proof {
            use_type_invariant(self);
        }
        ProjectId { id: self.id.clone() }
    }
}

impl Clone for LabelId {
    fn clone(&self) -> (r: LabelId)
        ensures
            r.view() == self.view(),
    {
        proof {
            use_type_invariant(self);
        }
        LabelId { id: self.id.clone() }
    }
}

} // verus!
