//! Rotation and disjoint handover.
//!
//! A rotation installs a new, independent authority. What makes the handover
//! safe is a signature: the old authority signs the installation terms, which
//! pin the exact candidate key, configuration, transcript commitment and
//! activation custody rule.
//!
//! This module defines the bytes the old authority signs
//! ([`InstallationTerms::message`]) and, given a set of signed installations,
//! decides which one wins and projects the outcome ([`resolve`]). Selection
//! verifies each signature under the old key and picks the smallest transition
//! id among the authorized ones, so every replica converges without
//! coordination.

use vstd::prelude::*;

use crate::bytes::{canon_keys, key_leq, keys_equal, sorted_unique_keys, strictly_sorted, Key32};
use crate::crypto::{ed25519_accepts, ed25519_public_of, ed25519_sign, ed25519_verify};
use crate::encoding::{
    framed, hex_bytes, hex_lower, le64, lemma_framed_len, lemma_hex_lower_injective,
    lemma_hex_lower_len, lemma_le_bytes_len, push_all, push_framed, push_le64,
};
use crate::ids::UserId;

verus! {

/// A transition's content-addressed id.
#[derive(Debug, Clone, Copy, PartialEq, Eq)]
pub struct TransitionId(pub Key32);

/// An authority configuration's id.
#[derive(Debug, Clone, Copy, PartialEq, Eq)]
pub struct AuthorityConfigurationId(pub Key32);

/// A custody leaf of an authority configuration.
#[derive(Debug, Clone, Copy, PartialEq, Eq)]
pub struct LeafId(pub Key32);

/// An Ed25519 signature by the old authority.
#[derive(Debug, Clone, Copy, PartialEq, Eq)]
pub struct Signature(pub [u8; 64]);

/// Where a racing transition ends up.
#[derive(Debug, Clone, Copy, PartialEq, Eq)]
pub enum TransitionState {
    Activated,
    Superseded,
}

/// A completed candidate record: the fields an old holder verifies before it
/// signs an installation.
#[derive(Debug, Clone, Copy)]
pub struct CandidateAuthority {
    pub transition: TransitionId,
    pub configuration: AuthorityConfigurationId,
    pub public_key: UserId,
    pub transcript_commitment: [u8; 32],
}

/// The bytes of `lait/space/1/handover/1/install`.
pub open spec fn install_domain() -> Seq<u8> {
    seq![
        108u8, 97, 105, 116, 47, 115, 112, 97, 99, 101, 47, 49, 47, 104, 97, 110, 100, 111, 118,
        101, 114, 47, 49, 47, 105, 110, 115, 116, 97, 108, 108,
    ]
}

fn install_domain_bytes() -> (r: Vec<u8>)
    ensures
        r@ == install_domain(),
{
    let r: Vec<u8> = vec![
        108u8, 97, 105, 116, 47, 115, 112, 97, 99, 101, 47, 49, 47, 104, 97, 110, 100, 111, 118,
        101, 114, 47, 49, 47, 105, 110, 115, 116, 97, 108, 108,
    ];
    assert(r@ =~= install_domain());
    r
}

/// The mathematical content of installation terms.
pub struct TermsView {
    pub transition: Key32,
    pub configuration: Key32,
    pub new_public_key: Key32,
    pub transcript_commitment: Key32,
    pub required_leaves: Seq<Key32>,
}

/// Exactly what the old authority signs off on to install a successor: the
/// transition, the new configuration, the new public key, the transcript
/// commitment the candidate came from, and the activation custody rule (the
/// leaves whose share must be attested before activation).
#[derive(Debug, Clone, PartialEq, Eq)]
pub struct InstallationTerms {
    transition: TransitionId,
    configuration: AuthorityConfigurationId,
    new_public_key: UserId,
    transcript_commitment: [u8; 32],
    /// Kept sorted and deduplicated so the message is canonical.
    required_leaves: Vec<Key32>,
}

impl View for InstallationTerms {
    type V = TermsView;

    closed spec fn view(&self) -> TermsView {
        TermsView {
            transition: self.transition.0,
            configuration: self.configuration.0,
            new_public_key: self.new_public_key.0,
            transcript_commitment: self.transcript_commitment,
            required_leaves: self.required_leaves@,
        }
    }
}

pub open spec fn leaf_keys(ls: Seq<LeafId>) -> Seq<Key32> {
    ls.map_values(|l: LeafId| l.0)
}

/// Each leaf framed as the lowercase hex of its bytes.
pub open spec fn leaves_bytes(ls: Seq<Key32>) -> Seq<u8>
    decreases ls.len(),
{
    if ls.len() == 0 {
        Seq::empty()
    } else {
        leaves_bytes(ls.drop_last()) + framed(hex_lower(ls.last()@))
    }
}

/// The canonical, domain-separated message the old authority signs. Every
/// field is length-prefixed; ids travel as lowercase hex.
pub open spec fn install_message(t: TermsView) -> Seq<u8> {
    install_domain() + framed(hex_lower(t.transition@)) + framed(hex_lower(t.configuration@))
        + framed(hex_lower(t.new_public_key@)) + framed(t.transcript_commitment@) + le64(
        t.required_leaves.len(),
    ) + leaves_bytes(t.required_leaves)
}

/// Each framed hex leaf takes 72 bytes, and chunk `i` is leaf `i`'s.
proof fn lemma_leaves_bytes(ls: Seq<Key32>)
    ensures
        leaves_bytes(ls).len() == 72 * ls.len(),
        forall|i: int|
            0 <= i < ls.len() ==> #[trigger] leaves_bytes(ls).subrange(72 * i, 72 * i + 72)
                == framed(hex_lower(ls[i]@)),
    decreases ls.len(),
{
    if ls.len() > 0 {
        let p = ls.drop_last();
        lemma_leaves_bytes(p);
        lemma_hex_lower_len(ls.last()@);
        lemma_framed_len(hex_lower(ls.last()@));
        let b = leaves_bytes(ls);
        assert forall|i: int| 0 <= i < ls.len() implies #[trigger] b.subrange(72 * i, 72 * i + 72)
            == framed(hex_lower(ls[i]@)) by {
            if i < p.len() {
                assert(ls[i] == p[i]);
                assert(b.subrange(72 * i, 72 * i + 72) =~= leaves_bytes(p).subrange(
                    72 * i,
                    72 * i + 72,
                ));
            } else {
                assert(b.subrange(72 * i, 72 * i + 72) =~= framed(hex_lower(ls.last()@)));
            }
        }
    }
}

/// No two distinct term sets share a message: every field is length-framed
/// (or of fixed width), so the message determines the terms.
pub proof fn lemma_install_message_injective(a: TermsView, b: TermsView)
    requires
        install_message(a) == install_message(b),
    ensures
        a == b,
{
    let ma = install_message(a);
    let mb = install_message(b);
    lemma_hex_lower_len(a.transition@);
    lemma_hex_lower_len(a.configuration@);
    lemma_hex_lower_len(a.new_public_key@);
    lemma_hex_lower_len(b.transition@);
    lemma_hex_lower_len(b.configuration@);
    lemma_hex_lower_len(b.new_public_key@);
    lemma_framed_len(hex_lower(a.transition@));
    lemma_framed_len(hex_lower(a.configuration@));
    lemma_framed_len(hex_lower(a.new_public_key@));
    lemma_framed_len(a.transcript_commitment@);
    lemma_framed_len(hex_lower(b.transition@));
    lemma_framed_len(hex_lower(b.configuration@));
    lemma_framed_len(hex_lower(b.new_public_key@));
    lemma_framed_len(b.transcript_commitment@);
    lemma_le_bytes_len(a.required_leaves.len(), 8);
    lemma_le_bytes_len(b.required_leaves.len(), 8);
    lemma_leaves_bytes(a.required_leaves);
    lemma_leaves_bytes(b.required_leaves);
    let fa = framed(hex_lower(a.transition@));
    let fb = framed(hex_lower(b.transition@));
    let ga = framed(hex_lower(a.configuration@));
    let gb = framed(hex_lower(b.configuration@));
    let ka = framed(hex_lower(a.new_public_key@));
    let kb = framed(hex_lower(b.new_public_key@));
    let ca = framed(a.transcript_commitment@);
    let cb = framed(b.transcript_commitment@);
    assert(ma.subrange(31, 103) =~= fa);
    assert(mb.subrange(31, 103) =~= fb);
    assert(ma.subrange(103, 175) =~= ga);
    assert(mb.subrange(103, 175) =~= gb);
    assert(ma.subrange(175, 247) =~= ka);
    assert(mb.subrange(175, 247) =~= kb);
    assert(ma.subrange(247, 287) =~= ca);
    assert(mb.subrange(247, 287) =~= cb);
    assert(fa.subrange(8, 72) == fb.subrange(8, 72));
    lemma_hex_lower_injective(a.transition@, b.transition@);
    crate::bytes::lemma_key_ext(a.transition, b.transition);
    assert(ga.subrange(8, 72) == gb.subrange(8, 72));
    lemma_hex_lower_injective(a.configuration@, b.configuration@);
    crate::bytes::lemma_key_ext(a.configuration, b.configuration);
    assert(ka.subrange(8, 72) == kb.subrange(8, 72));
    lemma_hex_lower_injective(a.new_public_key@, b.new_public_key@);
    crate::bytes::lemma_key_ext(a.new_public_key, b.new_public_key);
    assert(ca.subrange(8, 40) == cb.subrange(8, 40));
    crate::bytes::lemma_key_ext(a.transcript_commitment, b.transcript_commitment);
    assert(install_domain().len() == 31);
    assert(ma.len() == 295 + 72 * a.required_leaves.len());
    assert(mb.len() == 295 + 72 * b.required_leaves.len());
    assert(a.required_leaves.len() == b.required_leaves.len());
    let la = leaves_bytes(a.required_leaves);
    let lb = leaves_bytes(b.required_leaves);
    assert(la =~= ma.subrange(295, ma.len() as int));
    assert(lb =~= mb.subrange(295, mb.len() as int));
    assert forall|i: int| 0 <= i < a.required_leaves.len() implies a.required_leaves[i]
        == b.required_leaves[i] by {
        assert(la.subrange(72 * i, 72 * i + 72) == lb.subrange(72 * i, 72 * i + 72));
        let xa = hex_lower(a.required_leaves[i]@);
        let xb = hex_lower(b.required_leaves[i]@);
        lemma_hex_lower_len(a.required_leaves[i]@);
        lemma_hex_lower_len(b.required_leaves[i]@);
        lemma_framed_len(xa);
        lemma_framed_len(xb);
        lemma_hex_lower_injective(a.required_leaves[i]@, b.required_leaves[i]@);
        crate::bytes::lemma_key_ext(a.required_leaves[i], b.required_leaves[i]);
    }
    assert(a.required_leaves =~= b.required_leaves);
}

fn leaf_key_vec(ls: &Vec<LeafId>) -> (r: Vec<Key32>)
    ensures
        r@ == leaf_keys(ls@),
{
    let mut out: Vec<Key32> = Vec::new();
    let mut i: usize = 0;
    while i < ls.len()
        invariant
            0 <= i <= ls@.len(),
            out@.len() == i,
            forall|k: int| 0 <= k < i ==> #[trigger] out@[k] == ls@[k].0,
        decreases ls@.len() - i,
    {
        out.push(ls[i].0);
        i = i + 1;
    }
    assert(out@ =~= leaf_keys(ls@));
    out
}

impl InstallationTerms {
    /// Build terms directly. `required_leaves` is sorted and deduplicated for
    /// a canonical message.
    pub fn new(
        transition: TransitionId,
        configuration: AuthorityConfigurationId,
        new_public_key: UserId,
        transcript_commitment: [u8; 32],
        required_leaves: Vec<LeafId>,
    ) -> (r: InstallationTerms)
        ensures
            r@ == (TermsView {
                transition: transition.0,
                configuration: configuration.0,
                new_public_key: new_public_key.0,
                transcript_commitment,
                required_leaves: canon_keys(leaf_keys(required_leaves@)),
            }),
            strictly_sorted(r@.required_leaves),
    {
        let keys = leaf_key_vec(&required_leaves);
        let required_leaves = sorted_unique_keys(&keys);
        InstallationTerms {
            transition,
            configuration,
            new_public_key,
            transcript_commitment,
            required_leaves,
        }
    }

    /// Project a completed candidate record onto the terms the old authority
    /// signs, paired with the activation custody rule for the transition.
    pub fn for_candidate(candidate: &CandidateAuthority, required_leaves: Vec<LeafId>) -> (r:
        InstallationTerms)
        ensures
            r@ == (TermsView {
                transition: candidate.transition.0,
                configuration: candidate.configuration.0,
                new_public_key: candidate.public_key.0,
                transcript_commitment: candidate.transcript_commitment,
                required_leaves: canon_keys(leaf_keys(required_leaves@)),
            }),
    {
        InstallationTerms::new(
            candidate.transition,
            candidate.configuration,
            candidate.public_key,
            candidate.transcript_commitment,
            required_leaves,
        )
    }

    /// The new public key these terms install.
    pub fn new_public_key(&self) -> (r: &UserId)
        ensures
            r.0 == self@.new_public_key,
    {
        &self.new_public_key
    }

    /// The transition these terms install.
    pub fn transition(&self) -> (r: TransitionId)
        ensures
            r.0 == self@.transition,
    {
        self.transition
    }

    /// The canonical, domain-separated message the old authority signs.
    pub fn message(&self) -> (r: Vec<u8>)
        ensures
            r@ == install_message(self@),
    {
        let mut m: Vec<u8> = Vec::new();
        let domain = install_domain_bytes();
        push_all(&mut m, domain.as_slice());
        let t = hex_bytes(&self.transition.0);
        push_framed(&mut m, t.as_slice());
        let c = hex_bytes(&self.configuration.0);
        push_framed(&mut m, c.as_slice());
        let k = hex_bytes(&self.new_public_key.0);
        push_framed(&mut m, k.as_slice());
        push_framed(&mut m, &self.transcript_commitment);
        push_le64(&mut m, self.required_leaves.len() as u64);
        let ghost head = m@;
        let mut i: usize = 0;
        while i < self.required_leaves.len()
            invariant
                0 <= i <= self.required_leaves@.len(),
                m@ == head + leaves_bytes(self.required_leaves@.subrange(0, i as int)),
            decreases self.required_leaves@.len() - i,
        {
            let leaf = hex_bytes(&self.required_leaves[i]);
            push_framed(&mut m, leaf.as_slice());
            proof {
                let pre = self.required_leaves@.subrange(0, i as int);
                let post = self.required_leaves@.subrange(0, i + 1);
                assert(post.drop_last() =~= pre);
                assert(post.last() == self.required_leaves@[i as int]);
                assert(m@ =~= head + leaves_bytes(post));
            }
            i = i + 1;
        }
        assert(self.required_leaves@.subrange(0, i as int) =~= self.required_leaves@);
        assert(m@ =~= install_message(self@));
        m
    }
}

/// Whether the old authority (public key `old_public_key`) signed exactly
/// these installation terms. Every old holder, and every replica applying the
/// rotation, runs this before accepting the successor.
pub fn verify_installation(old_public_key: &[u8; 32], terms: &InstallationTerms, signature: &Signature) -> (r: bool)
    ensures
        r == ed25519_accepts(old_public_key@, install_message(terms@), signature.0@),
{
    let msg = terms.message();
    ed25519_verify(old_public_key, msg.as_slice(), &signature.0)
}

/// Sign installation terms with the old authority's key, over
/// [`InstallationTerms::message`]. What it signs, [`verify_installation`]
/// accepts under the old key's public half.
pub fn sign_installation(old_key: &[u8; 32], terms: &InstallationTerms) -> (r: Signature)
    ensures
        ed25519_accepts(ed25519_public_of(old_key@)@, install_message(terms@), r.0@),
{
    let msg = terms.message();
    Signature(ed25519_sign(old_key, msg.as_slice()))
}

/// An installation the old authority signed: the terms plus the signature
/// over them. The unit [`resolve`] selects among when candidates race.
#[derive(Debug, Clone)]
pub struct SignedInstallation {
    pub terms: InstallationTerms,
    pub signature: Signature,
}

// ---------------------------------------------------------------------------
// Deciding a race
// ---------------------------------------------------------------------------

pub open spec fn transition_keys(ts: Seq<TransitionId>) -> Seq<Key32> {
    ts.map_values(|t: TransitionId| t.0)
}

/// The state of `k` when `winner` won.
pub open spec fn state_of(k: Key32, winner: Key32) -> TransitionState {
    if k == winner {
        TransitionState::Activated
    } else {
        TransitionState::Superseded
    }
}

/// The outcome of a race among the transitions `ks` won by `winner`: each
/// distinct transition once, in increasing id order, with its state.
pub open spec fn projection(ks: Seq<Key32>, winner: Key32) -> Seq<(Key32, TransitionState)> {
    canon_keys(ks).map_values(|k: Key32| (k, state_of(k, winner)))
}

pub open spec fn outcome_entries(v: Seq<(TransitionId, TransitionState)>) -> Seq<(Key32, TransitionState)> {
    v.map_values(|e: (TransitionId, TransitionState)| (e.0.0, e.1))
}

fn transition_key_vec(ts: &[TransitionId]) -> (r: Vec<Key32>)
    ensures
        r@ == transition_keys(ts@),
{
    let mut out: Vec<Key32> = Vec::new();
    let mut i: usize = 0;
    while i < ts.len()
        invariant
            0 <= i <= ts@.len(),
            out@.len() == i,
            forall|k: int| 0 <= k < i ==> #[trigger] out@[k] == ts@[k].0,
        decreases ts@.len() - i,
    {
        out.push(ts[i].0);
        i = i + 1;
    }
    assert(out@ =~= transition_keys(ts@));
    out
}

/// Project an already-decided race: the transition that won is
/// [`TransitionState::Activated`] and every other one
/// [`TransitionState::Superseded`], each once, sorted by transition id.
/// `None` if `installed` is not among `candidates`.
pub fn project_installed(candidates: &[TransitionId], installed: TransitionId) -> (r: Option<
    Vec<(TransitionId, TransitionState)>,
>)
    ensures
        r is Some <==> transition_keys(candidates@).contains(installed.0),
        r matches Some(v) ==> outcome_entries(v@) == projection(
            transition_keys(candidates@),
            installed.0,
        ),
{
    let keys = transition_key_vec(candidates);
    let mut found = false;
    let mut i: usize = 0;
    while i < keys.len()
        invariant
            0 <= i <= keys@.len(),
            found <==> exists|j: int| 0 <= j < i && keys@[j] == installed.0,
        decreases keys@.len() - i,
    {
        if keys_equal(&keys[i], &installed.0) {
            found = true;
        }
        i = i + 1;
    }
    if !found {
        assert(!keys@.contains(installed.0));
        return None;
    }
    let sorted = sorted_unique_keys(&keys);
    let mut out: Vec<(TransitionId, TransitionState)> = Vec::new();
    let mut j: usize = 0;
    while j < sorted.len()
        invariant
            0 <= j <= sorted@.len(),
            sorted@ == canon_keys(keys@),
            out@.len() == j,
            forall|k: int|
                0 <= k < j ==> (#[trigger] out@[k]).0.0 == sorted@[k] && out@[k].1 == state_of(
                    sorted@[k],
                    installed.0,
                ),
        decreases sorted@.len() - j,
    {
        let k = sorted[j];
        let state = if keys_equal(&k, &installed.0) {
            TransitionState::Activated
        } else {
            TransitionState::Superseded
        };
        out.push((TransitionId(k), state));
        j = j + 1;
    }
    assert(outcome_entries(out@) =~= projection(keys@, installed.0));
    Some(out)
}

/// Whether the old key signed this installation.
pub open spec fn authorized(old_public_key: Seq<u8>, si: SignedInstallation) -> bool {
    ed25519_accepts(old_public_key, install_message(si.terms@), si.signature.0@)
}

/// The transitions of the authorized installations, in input order.
pub open spec fn valid_transitions(old_public_key: Seq<u8>, s: Seq<SignedInstallation>) -> Seq<Key32>
    decreases s.len(),
{
    if s.len() == 0 {
        Seq::empty()
    } else {
        let rest = valid_transitions(old_public_key, s.drop_last());
        if authorized(old_public_key, s.last()) {
            rest.push(s.last().terms@.transition)
        } else {
            rest
        }
    }
}

/// The outcome of a race: nothing when no installation is authorized;
/// otherwise each authorized transition once, sorted by id, the smallest
/// activated and the rest superseded.
pub open spec fn resolve_outcome(old_public_key: Seq<u8>, s: Seq<SignedInstallation>) -> Option<
    Seq<(Key32, TransitionState)>,
> {
    let valid = valid_transitions(old_public_key, s);
    if valid.len() == 0 {
        None
    } else {
        Some(projection(valid, canon_keys(valid)[0]))
    }
}

/// Decide a race among concurrent signed installations and project the
/// outcome. Installations whose signature does not check under
/// `old_public_key` are excluded entirely; among the authorized ones the
/// smallest transition id wins. `None` when no installation is authorized.
pub fn resolve(old_public_key: &[u8; 32], installations: &[SignedInstallation]) -> (r: Option<
    Vec<(TransitionId, TransitionState)>,
>)
    ensures
        r is None <==> resolve_outcome(old_public_key@, installations@) is None,
        r matches Some(v) ==> resolve_outcome(old_public_key@, installations@) == Some(
            outcome_entries(v@),
        ),
        r matches Some(v) ==> v@.len() > 0 && v@[0].1 == TransitionState::Activated
            && valid_transitions(old_public_key@, installations@).contains(v@[0].0.0)
            && (forall|k: Key32|
            #[trigger] valid_transitions(old_public_key@, installations@).contains(k) ==> key_leq(
                v@[0].0.0,
                k,
            )),
{
    let ghost vt = valid_transitions(old_public_key@, installations@);
    let mut valid: Vec<TransitionId> = Vec::new();
    let mut i: usize = 0;
    while i < installations.len()
        invariant
            0 <= i <= installations@.len(),
            transition_keys(valid@).to_set() == valid_transitions(
                old_public_key@,
                installations@.subrange(0, i as int),
            ).to_set(),
            valid@.len() == 0 <==> valid_transitions(
                old_public_key@,
                installations@.subrange(0, i as int),
            ).len() == 0,
        decreases installations@.len() - i,
    {
        let ghost pre = installations@.subrange(0, i as int);
        let ghost post = installations@.subrange(0, i + 1);
        assert(post.drop_last() =~= pre);
        let si = &installations[i];
        if verify_installation(old_public_key, &si.terms, &si.signature) {
            let t = si.terms.transition();
            let keys = transition_key_vec(valid.as_slice());
            let mut seen = false;
            let mut j: usize = 0;
            while j < keys.len()
                invariant
                    0 <= j <= keys@.len(),
                    seen <==> exists|a: int| 0 <= a < j && keys@[a] == t.0,
                decreases keys@.len() - j,
            {
                if keys_equal(&keys[j], &t.0) {
                    seen = true;
                }
                j = j + 1;
            }
            let ghost before = valid@;
            if !seen {
                valid.push(t);
                assert(transition_keys(valid@) =~= transition_keys(before).push(t.0));
                proof {
                    transition_keys(before).lemma_push_to_set_commute(t.0);
                    valid_transitions(old_public_key@, pre).lemma_push_to_set_commute(t.0);
                }
            } else {
                proof {
                    let a = choose|a: int| 0 <= a < j && keys@[a] == t.0;
                    assert(transition_keys(before).contains(t.0));
                    valid_transitions(old_public_key@, pre).lemma_push_to_set_commute(t.0);
                    assert(valid_transitions(old_public_key@, pre).to_set().contains(t.0));
                    assert(valid_transitions(old_public_key@, pre).to_set().insert(t.0)
                        =~= valid_transitions(old_public_key@, pre).to_set());
                }
            }
        }
        i = i + 1;
    }
    assert(installations@.subrange(0, i as int) =~= installations@);
    let keys = transition_key_vec(valid.as_slice());
    if keys.len() == 0 {
        return None;
    }
    let sorted = sorted_unique_keys(&keys);
    proof {
        assert(keys@.to_set().contains(keys@[0]));
        assert(sorted@.to_set().contains(keys@[0]));
        assert(sorted@.len() > 0);
        assert(canon_keys(keys@) == canon_keys(vt));
    }
    let winner = TransitionId(sorted[0]);
    let r = project_installed(valid.as_slice(), winner);
    proof {
        assert(sorted@.to_set().contains(sorted@[0]));
        assert(vt.to_set().contains(sorted@[0]));
        assert(transition_keys(valid@).contains(winner.0));
        assert forall|k: Key32| #[trigger] vt.contains(k) implies key_leq(sorted@[0], k) by {
            assert(vt.to_set().contains(k));
            assert(sorted@.to_set().contains(k));
            let a = choose|a: int| 0 <= a < sorted@.len() && sorted@[a] == k;
            if a > 0 {
                assert(crate::bytes::key_lt(sorted@[0], sorted@[a]));
            }
        }
    }
    match r {
        Some(v) => {
            proof {
                assert(outcome_entries(v@).len() == v@.len());
                assert(outcome_entries(v@)[0] == (v@[0].0.0, v@[0].1));
            }
            Some(v)
        },
        None => None,
    }
}

/// Replicas converge: the outcome of a race depends only on which transitions
/// were authorized — not on the order the installations arrived in, nor on
/// how many times each was delivered.
pub proof fn lemma_resolve_order_independent(
    old_public_key: Seq<u8>,
    a: Seq<SignedInstallation>,
    b: Seq<SignedInstallation>,
)
    requires
        valid_transitions(old_public_key, a).to_set() == valid_transitions(
            old_public_key,
            b,
        ).to_set(),
    ensures
        resolve_outcome(old_public_key, a) == resolve_outcome(old_public_key, b),
{
    let va = valid_transitions(old_public_key, a);
    let vb = valid_transitions(old_public_key, b);
    if va.len() > 0 {
        assert(va.to_set().contains(va[0]));
    }
    if vb.len() > 0 {
        assert(vb.to_set().contains(vb[0]));
    }
    assert(canon_keys(va) == canon_keys(vb));
}

/// A projection is deterministic regardless of the order (or repetition) of
/// the candidates.
pub proof fn lemma_projection_order_independent(a: Seq<Key32>, b: Seq<Key32>, winner: Key32)
    requires
        a.to_set() == b.to_set(),
    ensures
        projection(a, winner) == projection(b, winner),
{
    assert(canon_keys(a) == canon_keys(b));
}

} // verus!
