use ed25519_dalek::SigningKey;
use lait::acl::{replay, replay_with_audit, sign_op, AclOp, AclState, Genesis, OpKind, Role, SignedOp, acl_domain_bytes};
use lait::ids::{UserId, WorkspaceId};
use lait::sigdag::sign_node;
use lait::space::derive_workspace_id;

fn seed(n: u8) -> [u8; 32] {
    [n; 32]
}

fn user(n: u8) -> UserId {
    UserId(SigningKey::from_bytes(&seed(n)).verifying_key().to_bytes())
}

fn workspace(salt: u8) -> WorkspaceId {
    derive_workspace_id(&user(200), &[salt; 16])
}

fn genesis(admins: &[u8]) -> Genesis {
    Genesis {
        workspace_id: workspace(1),
        founding_admins: admins.iter().map(|n| user(*n)).collect(),
    }
}

#[test]
fn founder_is_admin_and_can_add_members() {
    let g = genesis(&[1]);
    let add = sign_op(&seed(1), &AclOp::AddMember { key: user(2), role: Role::Member }, vec![], &g.workspace_id);
    let st = replay(&g, &[add]);
    assert!(st.is_admin(&user(1)));
    assert!(st.is_member(&user(2)));
    assert!(!st.is_admin(&user(2)));
    assert_eq!(st.len(), 2);
}

#[test]
fn non_admin_ops_are_rejected() {
    let g = genesis(&[1]);
    let forged = sign_op(&seed(2), &AclOp::AddMember { key: user(3), role: Role::Admin }, vec![], &g.workspace_id);
    let st = replay(&g, &[forged]);
    assert!(!st.is_member(&user(3)), "an unauthorized op must not take effect");
    assert!(!st.is_member(&user(2)));
}

#[test]
fn forged_signature_is_rejected() {
    let g = genesis(&[1]);
    let mut op = sign_op(&seed(1), &AclOp::AddMember { key: user(2), role: Role::Member }, vec![], &g.workspace_id);
    op.sig[0] ^= 0xff;
    let st = replay(&g, &[op]);
    assert!(!st.is_member(&user(2)), "a bad signature must be rejected");
}

#[test]
fn forged_ops_anywhere_are_ignored() {
    let g = genesis(&[1]);
    let add_b = sign_op(&seed(1), &AclOp::AddMember { key: user(2), role: Role::Member }, vec![], &g.workspace_id);
    let mut forged_rm = sign_op(&seed(1), &AclOp::RemoveMember { key: user(2) }, vec![add_b.hash()], &g.workspace_id);
    forged_rm.sig[5] ^= 0x01;
    let add_c = sign_op(&seed(1), &AclOp::AddMember { key: user(3), role: Role::Admin }, vec![add_b.hash()], &g.workspace_id);
    let with_forged = replay_with_audit(&g, &[add_b.clone(), forged_rm, add_c.clone()]);
    let valid_only = replay_with_audit(&g, &[add_b, add_c]);
    assert_eq!(with_forged.0, valid_only.0);
    let hashes = |a: &Vec<lait::acl::AuditEntry>| a.iter().map(|e| (e.hash, e.authorized)).collect::<Vec<_>>();
    assert_eq!(hashes(&with_forged.1), hashes(&valid_only.1));
    assert_eq!(with_forged.1.len(), 2);
    assert!(with_forged.0.is_member(&user(2)));
    assert!(with_forged.0.is_admin(&user(3)));
}

#[test]
fn remove_wins_over_concurrent_add() {
    let g = genesis(&[1]);
    let op1 = sign_op(&seed(1), &AclOp::AddMember { key: user(2), role: Role::Member }, vec![], &g.workspace_id);
    let h1 = op1.hash();
    let rm = sign_op(&seed(1), &AclOp::RemoveMember { key: user(2) }, vec![h1], &g.workspace_id);
    let add2 = sign_op(&seed(1), &AclOp::AddMember { key: user(2), role: Role::Member }, vec![h1], &g.workspace_id);
    let st = replay(&g, &[op1, rm, add2]);
    assert!(!st.is_member(&user(2)), "remove-wins over a concurrent add");
}

#[test]
fn re_add_after_remove_restores_membership() {
    let g = genesis(&[1]);
    let op1 = sign_op(&seed(1), &AclOp::AddMember { key: user(2), role: Role::Member }, vec![], &g.workspace_id);
    let rm = sign_op(&seed(1), &AclOp::RemoveMember { key: user(2) }, vec![op1.hash()], &g.workspace_id);
    let readd = sign_op(&seed(1), &AclOp::AddMember { key: user(2), role: Role::Member }, vec![rm.hash()], &g.workspace_id);
    let st = replay(&g, &[op1, rm, readd]);
    assert!(st.is_member(&user(2)), "a causally-later re-add restores membership");
}

#[test]
fn revocation_holds_against_reparented_signed_add() {
    let g = genesis(&[1]);
    let add_orig = sign_op(&seed(1), &AclOp::AddMember { key: user(2), role: Role::Member }, vec![], &g.workspace_id);
    let rm = sign_op(&seed(1), &AclOp::RemoveMember { key: user(2) }, vec![add_orig.hash()], &g.workspace_id);
    let base = replay(&g, &[add_orig.clone(), rm.clone()]);
    assert!(!base.is_member(&user(2)), "baseline: B removed");
    let add_replay = SignedOp {
        op: add_orig.op.clone(),
        author: add_orig.author,
        sig: add_orig.sig.clone(),
        parents: vec![rm.hash()],
    };
    let domain = acl_domain_bytes();
    assert!(
        !add_replay.verify_sig(&domain, g.workspace_id.as_str()),
        "re-parented copy must FAIL signature verification (sig binds parents)"
    );
    let st = replay(&g, &[add_orig, rm, add_replay]);
    assert!(!st.is_member(&user(2)), "revocation must hold: the re-parented op is rejected and B stays removed");
}

#[test]
fn op_from_another_workspace_is_rejected() {
    let g_a = genesis(&[1]);
    let g_b = Genesis { workspace_id: workspace(2), founding_admins: vec![user(1)] };
    assert_ne!(g_a.workspace_id, g_b.workspace_id);
    let op = sign_op(&seed(1), &AclOp::AddMember { key: user(2), role: Role::Admin }, vec![], &g_a.workspace_id);
    let st_b = replay(&g_b, &[op]);
    assert!(!st_b.is_member(&user(2)), "an op signed for workspace A must not take effect in workspace B");
}

#[test]
fn replay_is_order_independent() {
    let g = genesis(&[1]);
    let op1 = sign_op(&seed(1), &AclOp::AddMember { key: user(2), role: Role::Admin }, vec![], &g.workspace_id);
    let op2 = sign_op(&seed(2), &AclOp::AddMember { key: user(3), role: Role::Member }, vec![op1.hash()], &g.workspace_id);
    let a = replay(&g, &[op1.clone(), op2.clone()]);
    let b = replay(&g, &[op2, op1]);
    assert_eq!(a, b, "replay is deterministic regardless of delivery order");
    assert!(a.is_member(&user(3)));
}

#[test]
fn member_sponsors_agent_and_agent_is_sealed_but_powerless() {
    let g = genesis(&[1]);
    let add_b = sign_op(&seed(1), &AclOp::AddMember { key: user(2), role: Role::Member }, vec![], &g.workspace_id);
    let add_agent = sign_op(&seed(2), &AclOp::AddAgent { key: user(10) }, vec![add_b.hash()], &g.workspace_id);
    let agent_forges = sign_op(&seed(10), &AclOp::AddMember { key: user(11), role: Role::Member }, vec![add_agent.hash()], &g.workspace_id);
    let agent_delegates = sign_op(&seed(10), &AclOp::AddAgent { key: user(12) }, vec![add_agent.hash()], &g.workspace_id);
    let st = replay(&g, &[add_b, add_agent, agent_forges, agent_delegates]);
    assert!(st.is_member(&user(10)), "the agent is sealed (a member)");
    assert!(st.is_agent(&user(10)));
    assert_eq!(st.sponsor_of(&user(10)), Some(user(2)));
    assert!(!st.is_human_member(&user(10)));
    assert!(!st.is_member(&user(11)), "agent membership ops are void");
    assert!(!st.is_member(&user(12)), "agents cannot sponsor agents");
    assert_eq!(st.standing(&user(10)), Some("agent"));
    assert_eq!(st.standing(&user(2)), Some("member"));
}

#[test]
fn non_member_cannot_sponsor_and_agent_key_must_be_fresh() {
    let g = genesis(&[1]);
    let stranger = sign_op(&seed(5), &AclOp::AddAgent { key: user(10) }, vec![], &g.workspace_id);
    let add_b = sign_op(&seed(1), &AclOp::AddMember { key: user(2), role: Role::Member }, vec![], &g.workspace_id);
    let demote = sign_op(&seed(1), &AclOp::AddAgent { key: user(2) }, vec![add_b.hash()], &g.workspace_id);
    let selfie = sign_op(&seed(1), &AclOp::AddAgent { key: user(1) }, vec![], &g.workspace_id);
    let st = replay(&g, &[stranger, add_b.clone(), demote, selfie]);
    assert!(!st.is_member(&user(10)));
    assert!(!st.is_agent(&user(2)), "a human cannot be demoted to agent");
    assert!(!st.is_agent(&user(1)));
}

#[test]
fn removing_the_sponsor_cascades_to_their_agents() {
    let g = genesis(&[1]);
    let add_b = sign_op(&seed(1), &AclOp::AddMember { key: user(2), role: Role::Member }, vec![], &g.workspace_id);
    let add_agent = sign_op(&seed(2), &AclOp::AddAgent { key: user(10) }, vec![add_b.hash()], &g.workspace_id);
    let rm_b = sign_op(&seed(1), &AclOp::RemoveMember { key: user(2) }, vec![add_agent.hash()], &g.workspace_id);
    let st = replay(&g, &[add_b, add_agent, rm_b]);
    assert!(!st.is_member(&user(2)), "sponsor removed");
    assert!(!st.is_member(&user(10)), "the agent's membership dies with its sponsor");
    assert!(st.agents().is_empty());
}

#[test]
fn an_agent_dies_when_its_sponsor_comes_back_as_an_agent() {
    let g = genesis(&[1]);
    let add_b = sign_op(&seed(1), &AclOp::AddMember { key: user(2), role: Role::Member }, vec![], &g.workspace_id);
    let add_x = sign_op(&seed(2), &AclOp::AddAgent { key: user(10) }, vec![add_b.hash()], &g.workspace_id);
    let rm_b = sign_op(&seed(1), &AclOp::RemoveMember { key: user(2) }, vec![add_x.hash()], &g.workspace_id);
    let b_as_agent = sign_op(&seed(1), &AclOp::AddAgent { key: user(2) }, vec![rm_b.hash()], &g.workspace_id);
    let st = replay(&g, &[add_b, add_x, rm_b, b_as_agent]);
    assert!(st.is_member(&user(2)), "the re-add as an agent succeeds the remove");
    assert_eq!(st.sponsor_of(&user(2)), Some(user(1)));
    assert_eq!(st.role(&user(2)), Some(Role::Member), "an agent is a sealed member");
    assert!(!st.is_member(&user(10)), "an agent's sponsor must be a human member");
    assert_eq!(st.sponsor_of(&user(10)), None);
    assert_eq!(st.agents().len(), 1);
}

#[test]
fn sponsor_can_retire_their_own_agent_but_not_other_members() {
    let g = genesis(&[1]);
    let add_b = sign_op(&seed(1), &AclOp::AddMember { key: user(2), role: Role::Member }, vec![], &g.workspace_id);
    let add_c = sign_op(&seed(1), &AclOp::AddMember { key: user(3), role: Role::Member }, vec![add_b.hash()], &g.workspace_id);
    let add_agent = sign_op(&seed(2), &AclOp::AddAgent { key: user(10) }, vec![add_c.hash()], &g.workspace_id);
    let retire = sign_op(&seed(2), &AclOp::RemoveMember { key: user(10) }, vec![add_agent.hash()], &g.workspace_id);
    let overreach = sign_op(&seed(2), &AclOp::RemoveMember { key: user(3) }, vec![retire.hash()], &g.workspace_id);
    let st = replay(&g, &[add_b, add_c, add_agent, retire, overreach]);
    assert!(!st.is_member(&user(10)), "sponsor retired their agent");
    assert!(st.is_member(&user(3)), "a member cannot remove other members");
}

#[test]
fn undecodable_ops_hold_ancestry_without_state() {
    let g = genesis(&[1]);
    let add = sign_op(&seed(1), &AclOp::AddMember { key: user(2), role: Role::Member }, vec![], &g.workspace_id);
    let rm = sign_op(&seed(1), &AclOp::RemoveMember { key: user(2) }, vec![add.hash()], &g.workspace_id);
    let domain = acl_domain_bytes();
    let opaque = sign_node(&domain, &seed(1), vec![0xff, 0xff, 0xff, 0xff], vec![rm.hash()], g.workspace_id.as_str());
    let readd = sign_op(&seed(1), &AclOp::AddMember { key: user(2), role: Role::Member }, vec![opaque.hash()], &g.workspace_id);
    let st = replay(&g, &[add, rm, opaque, readd]);
    assert!(st.is_member(&user(2)), "ancestry must flow through opaque nodes: the re-add causally succeeds the remove");
}

#[test]
fn audit_log_renders_verdicts_in_causal_order() {
    let g = genesis(&[1]);
    let add = sign_op(&seed(1), &AclOp::AddMember { key: user(2), role: Role::Member }, vec![], &g.workspace_id);
    let forged = sign_op(&seed(3), &AclOp::RemoveMember { key: user(2) }, vec![add.hash()], &g.workspace_id);
    let (st, audit) = replay_with_audit(&g, &[add, forged]);
    assert!(st.is_member(&user(2)));
    assert_eq!(audit.len(), 2);
    assert_eq!(audit[0].kind.as_str(), "add_member");
    assert!(audit[0].authorized);
    assert_eq!(audit[1].kind.as_str(), "remove_member");
    assert!(!audit[1].authorized, "the forged remove is logged, not honored");
}

// ---- further scenarios ----

#[test]
fn genesis_alone_has_only_the_founders_as_admins() {
    let g = genesis(&[1, 4]);
    let st = replay(&g, &[]);
    assert_eq!(st.len(), 2);
    assert!(st.is_admin(&user(1)));
    assert!(st.is_admin(&user(4)));
    assert!(st.agents().is_empty());
    assert_eq!(st.standing(&user(1)), Some("admin"));
    assert_eq!(st.standing(&user(9)), None);
}

#[test]
fn ops_encode_and_decode_back() {
    let ops = [
        AclOp::AddMember { key: user(2), role: Role::Admin },
        AclOp::RemoveMember { key: user(3) },
        AclOp::SetRole { key: user(4), role: Role::Member },
        AclOp::AddAgent { key: user(5) },
    ];
    for op in ops.iter() {
        let bytes = op.encode();
        let back = AclOp::decode(&bytes).expect("decodes");
        assert_eq!(back.encode(), bytes);
        assert_eq!(back.key(), op.key());
    }
    let add = AclOp::AddMember { key: user(2), role: Role::Member }.encode();
    assert_eq!(add.len(), 34);
    assert_eq!(add[0], 0);
    assert_eq!(add[33], 1);
    assert!(AclOp::decode(&[9, 9]).is_none());
    let mut long = add.clone();
    long.push(0);
    assert!(AclOp::decode(&long).is_none());
}

#[test]
fn set_role_promotes_a_member() {
    let g = genesis(&[1]);
    let add = sign_op(&seed(1), &AclOp::AddMember { key: user(2), role: Role::Member }, vec![], &g.workspace_id);
    let promote = sign_op(&seed(1), &AclOp::SetRole { key: user(2), role: Role::Admin }, vec![add.hash()], &g.workspace_id);
    let st = replay(&g, &[add, promote]);
    assert_eq!(st.role(&user(2)), Some(Role::Admin));
    let members: Vec<(UserId, Role)> = st.members();
    assert_eq!(members.len(), 2);
    let empty = AclState::empty();
    assert!(empty.is_empty());
    let (_, audit) = replay_with_audit(&g, &[]);
    assert!(audit.is_empty());
    assert_eq!(OpKind::Unknown.as_str(), "unknown");
}
