//! The replica store marker (`lait/replica/1`).
//!
//! The first thing opened in a replica store. It distinguishes, before any
//! other file is trusted, a foreign directory, an unsupported store version, a
//! corrupt marker, and a valid store, so recreation guidance is exact and
//! never deletes or overwrites automatically. This is only the 4 KiB header.
//!
//! On disk a marker is the postcard layout of its four fields: the magic as a
//! varint length and its bytes, the version byte, the 29 bytes of the space id
//! and the 32-byte checksum.

use vstd::prelude::*;

use crate::crypto::{blake3_hash, blake3_of};
use crate::encoding::push_all;
use crate::ids::{is_crockford, workspace_id_text, WorkspaceId};
use vstd::string::StringSliceAdditionalSpecFns;

verus! {

broadcast use vstd::string::group_string_axioms;

/// The current store version.
pub const STORE_VERSION: u8 = 1;

/// Maximum marker header size.
pub const MAX_MARKER: usize = 4096;

/// The fixed rendered length of a space id.
pub const SPACE_ID_LEN: usize = 29;

/// The store magic: the bytes of `lait/replica/1`.
pub open spec fn store_magic() -> Seq<u8> {
    seq![108u8, 97, 105, 116, 47, 114, 101, 112, 108, 105, 99, 97, 47, 49]
}

pub fn store_magic_bytes() -> (r: Vec<u8>)
    ensures
        r@ == store_magic(),
{
    let r: Vec<u8> = vec![108u8, 97, 105, 116, 47, 114, 101, 112, 108, 105, 99, 97, 47, 49];
    assert(r@ =~= store_magic());
    r
}

/// The store marker header.
#[derive(Debug, Clone, PartialEq, Eq)]
pub struct StoreMarkerV1 {
    /// The magic bytes; must equal the store magic.
    pub magic: Vec<u8>,
    pub version: u8,
    pub space: [u8; 29],
    /// BLAKE3 over `magic || [version] || space`.
    pub checksum: [u8; 32],
}

/// The content of a marker.
pub struct MarkerView {
    pub magic: Seq<u8>,
    pub version: u8,
    pub space: Seq<u8>,
    pub checksum: Seq<u8>,
}

impl View for StoreMarkerV1 {
    type V = MarkerView;

    open spec fn view(&self) -> MarkerView {
        MarkerView {
            magic: self.magic@,
            version: self.version,
            space: self.space@,
            checksum: self.checksum@,
        }
    }
}

/// How a marker failed to identify a valid store. The last two are surfaced
/// by higher store-open logic, not the marker decoder, but share this
/// taxonomy so callers render one consistent recreation message.
#[derive(Debug, Clone, Copy, PartialEq, Eq)]
pub enum MarkerError {
    /// The bytes are not a replica store marker at all (foreign directory).
    NotAReplicaStore,
    /// A replica marker of an unsupported version.
    UnsupportedStoreVersion { found: u8 },
    /// The marker decoded but failed its checksum or shape.
    CorruptStoreMarker,
    /// The store's referenced material failed full integrity validation.
    ReplicaIntegrityFailure,
    /// The store is locked by a live station.
    ReplicaLocked,
}

impl MarkerError {
    /// The error's name, as its debug rendering shows it.
    pub fn message(&self) -> (r: String)
        ensures
            r@ == marker_error_text(*self),
    {
        match self {
            MarkerError::NotAReplicaStore => String::from_str("NotAReplicaStore"),
            MarkerError::UnsupportedStoreVersion { found } => {
                let mut s = String::from_str("UnsupportedStoreVersion { found: ");
                let d = crate::text::decimal(*found as u64);
                s.append(d.as_str());
                s.append(" }");
                s
            },
            MarkerError::CorruptStoreMarker => String::from_str("CorruptStoreMarker"),
            MarkerError::ReplicaIntegrityFailure => String::from_str("ReplicaIntegrityFailure"),
            MarkerError::ReplicaLocked => String::from_str("ReplicaLocked"),
        }
    }
}

pub open spec fn marker_error_text(e: MarkerError) -> Seq<char> {
    match e {
        MarkerError::NotAReplicaStore => "NotAReplicaStore"@,
        MarkerError::UnsupportedStoreVersion { found } => "UnsupportedStoreVersion { found: "@
            + crate::text::decimal_text(found as nat) + " }"@,
        MarkerError::CorruptStoreMarker => "CorruptStoreMarker"@,
        MarkerError::ReplicaIntegrityFailure => "ReplicaIntegrityFailure"@,
        MarkerError::ReplicaLocked => "ReplicaLocked"@,
    }
}

/// The checksum of a marker for `space`: BLAKE3 over the magic, the version
/// and the space bytes.
pub open spec fn marker_checksum(space: Seq<u8>) -> Seq<u8> {
    blake3_of(store_magic() + seq![1u8] + space)@
}

fn checksum(space: &[u8; 29]) -> (r: [u8; 32])
    ensures
        r@ == marker_checksum(space@),
{
    let mut buf = store_magic_bytes();
    buf.push(STORE_VERSION);
    push_all(&mut buf, space);
    assert(buf@ =~= store_magic() + seq![1u8] + space@);
    blake3_hash(buf.as_slice())
}

// ---------------------------------------------------------------------------
// The byte layout
// ---------------------------------------------------------------------------

/// Postcard's unsigned varint: seven bits per byte, least significant first,
/// the high bit set on every byte but the last.
pub open spec fn varint(n: nat) -> Seq<u8>
    decreases n,
{
    if n < 128 {
        seq![n as u8]
    } else {
        seq![(n % 128 + 128) as u8] + varint(n / 128)
    }
}

/// The bytes of a marker.
pub open spec fn encode_marker(m: MarkerView) -> Seq<u8> {
    varint(m.magic.len()) + m.magic + seq![m.version] + m.space + m.checksum
}

pub open spec fn pow128(k: nat) -> nat
    decreases k,
{
    if k == 0 {
        1
    } else {
        128 * pow128((k - 1) as nat)
    }
}

/// The index of the byte that ends a varint read from `b` at `i`, as the
/// 64-bit reader finds it: at most ten bytes, the tenth carrying one bit.
pub open spec fn varint_stop(b: Seq<u8>, i: nat) -> Option<nat>
    decreases 10 - i,
{
    if i >= 10 || i >= b.len() {
        None
    } else if b[i as int] < 128 {
        if i == 9 && b[i as int] > 1 {
            None
        } else {
            Some(i)
        }
    } else {
        varint_stop(b, i + 1)
    }
}

/// The value of the first `n` varint bytes of `b`.
pub open spec fn varint_value(b: Seq<u8>, n: nat) -> nat
    decreases n,
{
    if n == 0 {
        0
    } else {
        varint_value(b, (n - 1) as nat) + (b[n - 1] % 128) as nat * pow128((n - 1) as nat)
    }
}

/// What the postcard reader makes of `b` as a marker: the fields, or nothing
/// when the bytes run out or the length varint is malformed. Bytes after the
/// marker are ignored.
pub open spec fn decode_marker(b: Seq<u8>) -> Option<MarkerView> {
    match varint_stop(b, 0) {
        None => None,
        Some(s) => {
            let len: int = varint_value(b, s + 1) as int;
            let start: int = s as int + 1;
            if start + len + 62 <= b.len() {
                Some(
                    MarkerView {
                        magic: b.subrange(start, start + len),
                        version: b[start + len],
                        space: b.subrange(start + len + 1, start + len + 30),
                        checksum: b.subrange(start + len + 30, start + len + 62),
                    },
                )
            } else {
                None
            }
        },
    }
}

/// The classification of raw marker bytes. Order matters: size, then magic
/// (foreign vs ours), then version (ours but unsupported), then checksum
/// (corrupt), so each failure gets its exact cause.
pub open spec fn classify_marker(b: Seq<u8>) -> Result<MarkerView, MarkerError> {
    if b.len() > 4096 {
        Err(MarkerError::CorruptStoreMarker)
    } else {
        match decode_marker(b) {
            None => Err(MarkerError::NotAReplicaStore),
            Some(m) => {
                if m.magic != store_magic() {
                    Err(MarkerError::NotAReplicaStore)
                } else if m.version != 1 {
                    Err(MarkerError::UnsupportedStoreVersion { found: m.version })
                } else if m.checksum != marker_checksum(m.space) {
                    Err(MarkerError::CorruptStoreMarker)
                } else {
                    Ok(m)
                }
            },
        }
    }
}

/// A space id's text as bytes (it is ASCII).
pub open spec fn ascii_bytes(s: Seq<char>) -> Seq<u8> {
    s.map_values(|c: char| c as u8)
}

/// The space id text of marker bytes (each byte as the character it encodes
/// in ASCII).
pub open spec fn ascii_chars(b: Seq<u8>) -> Seq<char> {
    b.map_values(|x: u8| x as char)
}

fn push_varint(out: &mut Vec<u8>, n: u64)
    ensures
        final(out)@ == old(out)@ + varint(n as nat),
{
    let ghost start = out@;
    let mut x: u64 = n;
    while x >= 128
        invariant
            out@ + varint(x as nat) == start + varint(n as nat),
        decreases x,
    {
        let b: u8 = (x % 128 + 128) as u8;
        proof {
            assert(varint(x as nat) == seq![b] + varint((x / 128) as nat));
            assert(out@.push(b) + varint((x / 128) as nat) =~= out@ + (seq![b] + varint(
                (x / 128) as nat,
            )));
        }
        out.push(b);
        x = x / 128;
    }
    let ghost before = out@;
    out.push(x as u8);
    assert(out@ =~= before + varint(x as nat));
}

proof fn lemma_pow128_bounds(k: nat)
    requires
        k <= 9,
    ensures
        pow128(k) >= 1,
        pow128(k) <= 0x8000_0000_0000_0000,
        k <= 8 ==> pow128(k) <= 0x0100_0000_0000_0000,
        k == 9 ==> pow128(k) == 0x8000_0000_0000_0000,
    decreases k,
{
    reveal_with_fuel(pow128, 10);
    if k > 0 {
        lemma_pow128_bounds((k - 1) as nat);
    }
}

/// Whether `b[at..]` starts with the store magic.
fn magic_at(b: &[u8], at: usize) -> (r: bool)
    requires
        at + 14 <= b@.len(),
    ensures
        r == (b@.subrange(at as int, at + 14) == store_magic()),
{
    let magic = store_magic_bytes();
    let mut k: usize = 0;
    while k < 14
        invariant
            magic@ == store_magic(),
            at + 14 <= b.len(),
            0 <= k <= 14,
            forall|j: int| 0 <= j < k ==> b@[at + j] == store_magic()[j],
        decreases 14 - k,
    {
        if b[at + k] != magic[k] {
            assert(b@.subrange(at as int, at + 14)[k as int] != store_magic()[k as int]);
            return false;
        }
        k = k + 1;
    }
    assert(b@.subrange(at as int, at + 14) =~= store_magic());
    true
}

impl StoreMarkerV1 {
    /// Build a marker for a space's store.
    pub fn new(space: &WorkspaceId) -> (r: Option<StoreMarkerV1>)
        ensures
            r is Some,
            r matches Some(m) ==> m@ == (MarkerView {
                magic: store_magic(),
                version: 1,
                space: ascii_bytes(space.view()),
                checksum: marker_checksum(ascii_bytes(space.view())),
            }),
    {
        let text = space.as_str();
        let cs = crate::text::chars_of(text);
        let mut bytes = [0u8; 29];
        let mut k: usize = 0;
        while k < 29
            invariant
                cs@ == space.view(),
                workspace_id_text(cs@),
                0 <= k <= 29,
                forall|j: int| 0 <= j < k ==> bytes@[j] == cs@[j] as u8,
            decreases 29 - k,
        {
            let c = cs[k];
            proof {
                if k >= 3 {
                    assert(is_crockford(cs@[k as int]));
                }
            }
            let b: u8 = if k == 0 {
                119u8
            } else if k == 1 {
                115u8
            } else if k == 2 {
                95u8
            } else if '0' <= c && c <= '9' {
                (c as u32 - 48) as u8 + 48
            } else {
                (c as u32 - 65) as u8 + 65
            };
            bytes[k] = b;
            k = k + 1;
        }
        assert(bytes@ =~= ascii_bytes(space.view()));
        let sum = checksum(&bytes);
        let magic = store_magic_bytes();
        Some(StoreMarkerV1 { magic, version: STORE_VERSION, space: bytes, checksum: sum })
    }

    /// The marker's bytes.
    pub fn encode(&self) -> (r: Vec<u8>)
        ensures
            r@ == encode_marker(self@),
    {
        let mut out: Vec<u8> = Vec::new();
        push_varint(&mut out, self.magic.len() as u64);
        push_all(&mut out, self.magic.as_slice());
        out.push(self.version);
        push_all(&mut out, &self.space);
        push_all(&mut out, &self.checksum);
        assert(out@ =~= encode_marker(self@));
        out
    }

    /// Classify raw marker bytes: a valid marker, or the exact reason it is
    /// not one.
    pub fn classify(bytes: &[u8]) -> (r: Result<StoreMarkerV1, MarkerError>)
        ensures
            match (r, classify_marker(bytes@)) {
                (Ok(m), Ok(v)) => m@ == v,
                (Err(e), Err(f)) => e == f,
                _ => false,
            },
    {
        if bytes.len() > MAX_MARKER {
            return Err(MarkerError::CorruptStoreMarker);
        }
        // The length varint of the magic.
        let mut i: usize = 0;
        let mut acc: u64 = 0;
        let mut mul: u64 = 1;
        loop
            invariant_except_break
                bytes@.len() <= 4096,
                0 <= i <= 9,
                mul == pow128(i as nat),
                acc == varint_value(bytes@, i as nat),
                acc < mul,
                varint_stop(bytes@, 0) == varint_stop(bytes@, i as nat),
            ensures
                bytes@.len() <= 4096,
                i <= 9,
                i < bytes@.len(),
                varint_stop(bytes@, 0) == Some(i as nat),
                acc == varint_value(bytes@, (i + 1) as nat),
            decreases 10 - i,
        {
            proof {
                lemma_pow128_bounds(i as nat);
            }
            if i >= bytes.len() {
                return Err(MarkerError::NotAReplicaStore);
            }
            let v = bytes[i];
            if v < 128 {
                if i == 9 && v > 1 {
                    return Err(MarkerError::NotAReplicaStore);
                }
                assert((v as u64) * mul <= 127 * mul) by (nonlinear_arith)
                    requires
                        v < 128,
                ;
                assert(i == 9 ==> (v as u64) * mul <= mul) by (nonlinear_arith)
                    requires
                        i == 9 ==> v <= 1,
                ;
                assert(v % 128 == v);
                acc = acc + (v as u64) * mul;
                break ;
            }
            assert(((v - 128) as u64) * mul <= 127 * mul) by (nonlinear_arith)
                requires
                    v < 256,
                    v >= 128,
            ;
            assert(v % 128 == v - 128);
            if i == 9 {
                assert(varint_stop(bytes@, 10) is None);
                assert(varint_stop(bytes@, 9) is None);
                return Err(MarkerError::NotAReplicaStore);
            }
            acc = acc + ((v - 128) as u64) * mul;
            mul = mul * 128;
            i = i + 1;
        }
        let start = i + 1;
        let rest = (bytes.len() - start) as u64;
        if acc > rest || rest - acc < 62 {
            assert(varint_stop(bytes@, 0) == Some(i as nat));
            assert(decode_marker(bytes@) is None);
            return Err(MarkerError::NotAReplicaStore);
        }
        let len = acc as usize;
        let at = start + len;
        proof {
            assert(decode_marker(bytes@) is Some);
        }
        let ghost m = decode_marker(bytes@)->0;
        proof {
            assert(varint_stop(bytes@, 0) == Some(i as nat));
            assert(m.magic == bytes@.subrange(start as int, at as int));
            assert(m.version == bytes@[at as int]);
            assert(store_magic().len() == 14);
        }
        if len != 14 || !magic_at(bytes, start) {
            assert(m.magic != store_magic());
            return Err(MarkerError::NotAReplicaStore);
        }
        let version = bytes[at];
        if version != STORE_VERSION {
            return Err(MarkerError::UnsupportedStoreVersion { found: version });
        }
        let mut space = [0u8; 29];
        let mut k: usize = 0;
        while k < 29
            invariant
                at + 62 <= bytes.len(),
                0 <= k <= 29,
                forall|j: int| 0 <= j < k ==> space@[j] == bytes@[at + 1 + j],
            decreases 29 - k,
        {
            space[k] = bytes[at + 1 + k];
            k = k + 1;
        }
        assert(space@ =~= m.space);
        let mut sum = [0u8; 32];
        let mut k: usize = 0;
        while k < 32
            invariant
                at + 62 <= bytes.len(),
                0 <= k <= 32,
                forall|j: int| 0 <= j < k ==> sum@[j] == bytes@[at + 30 + j],
            decreases 32 - k,
        {
            sum[k] = bytes[at + 30 + k];
            k = k + 1;
        }
        assert(sum@ =~= m.checksum);
        let expected = checksum(&space);
        if !crate::bytes::keys_equal(&sum, &expected) {
            proof {
                if sum@ == expected@ {
                    crate::bytes::lemma_key_ext(sum, expected);
                }
            }
            assert(m.checksum != marker_checksum(m.space));
            return Err(MarkerError::CorruptStoreMarker);
        }
        let magic = store_magic_bytes();
        let r = StoreMarkerV1 { magic, version, space, checksum: sum };
        assert(r@.magic =~= m.magic);
        Ok(r)
    }

    /// The space this store holds, if the marker's space bytes spell a
    /// well-formed space id.
    pub fn space(&self) -> (r: Option<WorkspaceId>)
        ensures
            r is Some <==> workspace_id_text(ascii_chars(self.space@)),
            r matches Some(w) ==> w.view() == ascii_chars(self.space@),
    {
        let mut cs: Vec<char> = Vec::new();
        let mut k: usize = 0;
        while k < 29
            invariant
                0 <= k <= 29,
                cs@.len() == k,
                forall|j: int| 0 <= j < k ==> cs@[j] == self.space@[j] as char,
            decreases 29 - k,
        {
            let b = self.space[k];
            cs.push(b as char);
            k = k + 1;
        }
        assert(cs@ =~= ascii_chars(self.space@));
        let text = crate::text::string_of(cs.as_slice());
        WorkspaceId::parse(text.as_str())
    }
}

/// What a read gives back of a write: the bytes of any marker whose magic is
/// shorter than 128 bytes decode to exactly that marker.
pub proof fn lemma_decode_encode(m: MarkerView)
    requires
        m.magic.len() < 128,
        m.space.len() == 29,
        m.checksum.len() == 32,
    ensures
        decode_marker(encode_marker(m)) == Some(m),
{
    let b = encode_marker(m);
    let n = m.magic.len();
    assert(varint(n) == seq![n as u8]);
    assert(b[0] == n as u8);
    assert(varint_stop(b, 0) == Some(0nat));
    assert(pow128(0) == 1);
    assert((b[0] % 128) as nat == n);
    assert(varint_value(b, 0) == 0);
    assert(varint_value(b, 1) == varint_value(b, 0) + (b[0] % 128) as nat * pow128(0));
    assert(varint_value(b, 1) == n);
    let d = decode_marker(b)->0;
    assert(d.magic =~= m.magic);
    assert(d.space =~= m.space);
    assert(d.checksum =~= m.checksum);
}

/// A marker built for a space classifies as exactly that marker.
pub proof fn lemma_new_marker_classifies(space: Seq<char>)
    requires
        workspace_id_text(space),
    ensures
        ({
            let m = MarkerView {
                magic: store_magic(),
                version: 1,
                space: ascii_bytes(space),
                checksum: marker_checksum(ascii_bytes(space)),
            };
            classify_marker(encode_marker(m)) == Ok::<MarkerView, MarkerError>(m)
        }),
{
    let sp = ascii_bytes(space);
    let m = MarkerView {
        magic: store_magic(),
        version: 1,
        space: sp,
        checksum: marker_checksum(sp),
    };
    lemma_decode_encode(m);
    assert(encode_marker(m).len() == 1 + 14 + 1 + 29 + 32);
}

} // verus!
