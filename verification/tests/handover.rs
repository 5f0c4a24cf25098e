use ed25519_dalek::SigningKey;
use lait::handover::{
    project_installed, resolve, sign_installation, verify_installation, AuthorityConfigurationId,
    CandidateAuthority, InstallationTerms, LeafId, SignedInstallation, TransitionId, TransitionState,
};
use lait::ids::UserId;

fn seed(n: u8) -> [u8; 32] {
    [n; 32]
}

fn public(n: u8) -> [u8; 32] {
    SigningKey::from_bytes(&seed(n)).verifying_key().to_bytes()
}

fn leaf(n: u8) -> LeafId {
    LeafId(public(n))
}

fn tid(byte: u8) -> TransitionId {
    TransitionId([byte; 32])
}

fn config() -> AuthorityConfigurationId {
    AuthorityConfigurationId([0u8; 32])
}

/// The old authority (key `old`) installs a new authority (key `new`,
/// custody leaves `new_leaves`); whether the installation verifies under the
/// old key.
fn handover(old: u8, new: u8, new_leaves: &[u8]) -> bool {
    let terms = InstallationTerms::new(
        tid(0xC1),
        config(),
        UserId(public(new)),
        [7u8; 32],
        new_leaves.iter().map(|n| leaf(*n)).collect(),
    );
    let sig = sign_installation(&seed(old), &terms);
    verify_installation(&public(old), &terms, &sig)
}

#[test]
fn solo_to_policy() {
    assert!(handover(1, 20, &[2, 3, 4]));
}

#[test]
fn flat_frost_to_policy() {
    assert!(handover(21, 22, &[4, 5, 6]));
}

#[test]
fn policy_to_overlapping_policy() {
    assert!(handover(23, 24, &[1, 2, 4]));
}

#[test]
fn policy_to_wholly_disjoint_policy() {
    let old_leaves = [1u8, 2, 3];
    let new_leaves = [4u8, 5, 6];
    assert!(old_leaves.iter().all(|p| !new_leaves.contains(p)));
    assert!(handover(23, 25, &new_leaves));
}

fn signed_installation(old: u8, transition: TransitionId, cand: u8) -> SignedInstallation {
    let terms = InstallationTerms::new(transition, config(), UserId(public(cand)), [cand; 32], vec![leaf(cand)]);
    let signature = sign_installation(&seed(old), &terms);
    SignedInstallation { terms, signature }
}

#[test]
fn an_installation_is_bound_to_the_exact_new_key() {
    let terms_a = InstallationTerms::new(tid(0xAA), config(), UserId(public(4)), [1u8; 32], vec![leaf(4)]);
    let sig = sign_installation(&seed(30), &terms_a);
    assert!(verify_installation(&public(30), &terms_a, &sig));
    let terms_b = InstallationTerms::new(tid(0xAA), config(), UserId(public(5)), [1u8; 32], vec![leaf(5)]);
    assert!(!verify_installation(&public(30), &terms_b, &sig));
    let mut bad = sig;
    bad.0[0] ^= 1;
    assert!(!verify_installation(&public(30), &terms_a, &bad));
}

#[test]
fn resolve_selects_the_deterministic_winner_among_signed_installations() {
    let a = tid(0x01);
    let b = tid(0x02);
    let inst_a = signed_installation(30, a, 40);
    let inst_b = signed_installation(30, b, 41);
    let resolved = resolve(&public(30), &[inst_b.clone(), inst_a.clone()]).expect("an authorized installation exists");
    let activated: Vec<_> = resolved.iter().filter(|(_, s)| *s == TransitionState::Activated).map(|(t, _)| *t).collect();
    assert_eq!(activated, vec![a], "min transition id wins");
    assert_eq!(resolved.iter().filter(|(_, s)| *s == TransitionState::Superseded).count(), 1);
}

#[test]
fn resolve_excludes_unauthorized_installations() {
    let a = tid(0x01);
    let b = tid(0x02);
    let mut forged = signed_installation(30, a, 40);
    forged.signature.0[0] ^= 1;
    let inst_b = signed_installation(30, b, 41);
    let resolved = resolve(&public(30), &[forged, inst_b]).expect("b is authorized");
    assert_eq!(resolved.len(), 1);
    assert_eq!(resolved[0], (b, TransitionState::Activated));
    let mut all_forged = signed_installation(30, a, 40);
    all_forged.signature.0[0] ^= 1;
    assert_eq!(resolve(&public(30), &[all_forged]), None);
}

#[test]
fn project_installed_is_a_pure_deterministic_projection() {
    let a = tid(0x01);
    let b = tid(0x02);
    let c = tid(0x03);
    let resolved = project_installed(&[a, b, c], b).expect("installed is in the race");
    let activated: Vec<_> = resolved.iter().filter(|(_, s)| *s == TransitionState::Activated).map(|(t, _)| *t).collect();
    assert_eq!(activated, vec![b]);
    assert_eq!(resolved, project_installed(&[c, b, a], b).unwrap());
    assert_eq!(project_installed(&[a, c], b), None);
}

// ---- further scenarios ----

#[test]
fn terms_keep_leaves_sorted_and_deduplicated() {
    let t1 = InstallationTerms::new(tid(9), config(), UserId(public(4)), [3u8; 32], vec![leaf(5), leaf(4), leaf(5)]);
    let t2 = InstallationTerms::new(tid(9), config(), UserId(public(4)), [3u8; 32], vec![leaf(4), leaf(5)]);
    assert_eq!(t1, t2);
    assert_eq!(t1.message(), t2.message());
    assert_eq!(t1.transition(), tid(9));
    assert_eq!(*t1.new_public_key(), UserId(public(4)));
}

#[test]
fn message_layout_is_domain_then_framed_fields() {
    let t = InstallationTerms::new(tid(0xAB), config(), UserId([0x11; 32]), [0x22; 32], vec![]);
    let m = t.message();
    let domain = b"lait/space/1/handover/1/install";
    assert_eq!(&m[..domain.len()], &domain[..]);
    let rest = &m[domain.len()..];
    assert_eq!(&rest[..8], &64u64.to_le_bytes());
    assert_eq!(&rest[8..72], "ab".repeat(32).as_bytes());
    assert_eq!(m.len(), domain.len() + 3 * 72 + 40 + 8);
    assert_eq!(&m[m.len() - 8..], &0u64.to_le_bytes());
}

#[test]
fn for_candidate_projects_the_record() {
    let cand = CandidateAuthority {
        transition: tid(3),
        configuration: AuthorityConfigurationId([5u8; 32]),
        public_key: UserId(public(7)),
        transcript_commitment: [9u8; 32],
    };
    let a = InstallationTerms::for_candidate(&cand, vec![leaf(1)]);
    let b = InstallationTerms::new(tid(3), AuthorityConfigurationId([5u8; 32]), UserId(public(7)), [9u8; 32], vec![leaf(1)]);
    assert_eq!(a, b);
}

#[test]
fn resolve_ignores_order_and_duplicates() {
    let x = signed_installation(30, tid(5), 40);
    let y = signed_installation(30, tid(3), 41);
    let one = resolve(&public(30), &[x.clone(), y.clone(), x.clone()]).unwrap();
    let two = resolve(&public(30), &[y, x]).unwrap();
    assert_eq!(one, two);
    assert_eq!(one, vec![(tid(3), TransitionState::Activated), (tid(5), TransitionState::Superseded)]);
    assert_eq!(resolve(&public(30), &[]), None);
}
