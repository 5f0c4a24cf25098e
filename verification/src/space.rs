//! The self-certifying workspace.
//!
//! A workspace id commits to its trust root:
//!
//! ```text
//! workspace_id = ws_<crockford128( blake3("lait/space/1" ‖ founding_device ‖ salt) )>
//! ```
//!
//! The founding device key and a random salt are hashed into the id before
//! the founding actor is incepted, so a joiner given the id, the salt and the
//! founder's inception can check offline that the id names that founder.

use vstd::prelude::*;

use crate::crypto::{blake3_hash, blake3_of};
use crate::encoding::{hex_bytes, hex_lower, push_all};
use crate::ids::{digest_id_text, UserId, WorkspaceId};
use crate::text::same_text;

verus! {

/// The bytes of `lait/space/1`.
pub open spec fn space_domain() -> Seq<u8> {
    seq![108u8, 97, 105, 116, 47, 115, 112, 97, 99, 101, 47, 49]
}

/// The BLAKE3 input a workspace id commits to: the domain, the founding
/// device's key as lowercase hex, and the salt.
pub open spec fn founding_commitment(device: UserId, salt: Seq<u8>) -> Seq<u8> {
    space_domain() + hex_lower(device.0@) + salt
}

/// Derive the self-certifying workspace id from the founding device key and
/// salt: the first 16 bytes of the BLAKE3 digest of the commitment, as an id.
/// Every replica computes the same id, and the id is bound to the founder.
pub fn derive_workspace_id(founding_device: &UserId, salt: &[u8; 16]) -> (r: WorkspaceId)
    ensures
        r.view() == digest_id_text(
            blake3_of(founding_commitment(*founding_device, salt@))@.subrange(0, 16),
        ),
{
    let mut buf: Vec<u8> = vec![108u8, 97, 105, 116, 47, 115, 112, 97, 99, 101, 47, 49];
    let dev = hex_bytes(&founding_device.0);
    push_all(&mut buf, dev.as_slice());
    push_all(&mut buf, salt);
    assert(buf@ =~= founding_commitment(*founding_device, salt@));
    let digest = blake3_hash(buf.as_slice());
    let mut d16 = [0u8; 16];
    let mut k: usize = 0;
    while k < 16
        invariant
            0 <= k <= 16,
            forall|j: int| 0 <= j < k ==> d16@[j] == digest@[j],
        decreases 16 - k,
    {
        d16[k] = digest[k];
        k = k + 1;
    }
    assert(d16@ =~= digest@.subrange(0, 16));
    WorkspaceId::from_digest(d16)
}

/// The id that commits to a founding device and salt.
pub open spec fn committed_id(device: UserId, salt: Seq<u8>) -> Seq<char> {
    digest_id_text(blake3_of(founding_commitment(device, salt))@.subrange(0, 16))
}

/// The first check a joiner makes of a founding, offline: whether `ws_id`
/// commits to `device` (the key that signed the founding inception) and
/// `salt`. A swapped inception or a tampered salt fails it.
pub fn commits_to_founder(ws_id: &WorkspaceId, salt: &[u8; 16], device: &UserId) -> (r: bool)
    ensures
        r == (ws_id.view() == committed_id(*device, salt@)),
{
    let derived = derive_workspace_id(device, salt);
    same_text(derived.as_str(), ws_id.as_str())
}

} // verus!
