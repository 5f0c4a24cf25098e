//! Membership / ACL — a signed ed25519 op-graph validated by deterministic
//! replay, riding the shared hash-DAG envelope ([`crate::sigdag`], domain
//! `lait/aclop/1`). Revocation is **remove-wins**.
//!
//! Principals:
//! - `admin` — may author every membership op.
//! - `member` — a human collaborator; may sponsor agents and remove their own.
//! - **agent** — a keypair sponsored by a member (`AddAgent`, sponsor = the
//!   op's author). An agent is a member for encryption purposes but may author
//!   no membership op, and its membership dies with its sponsor. Agents do
//!   not sponsor agents: an agent whose sponsor is no longer a human member
//!   (removed, or itself re-added as an agent) is dropped with it.
//!
//! Authority: an op is honored only if its author holds the required standing
//! as of the op's place in the deterministic topological order; remove-wins
//! overrides over the causal ancestor closure so a concurrent add cannot
//! override a remove. A signature-valid op whose bytes do not decode is kept
//! as an opaque DAG node: present for ancestry, no effect on state.

use vstd::prelude::*;

use crate::bytes::{contains_key, keys_equal, Key32};
use crate::ids::{UserId, WorkspaceId};
use crate::keymap::{entries_sorted, has_key, map_of, KeyMap};
use crate::sigdag::{
    ancestor_of, index_nodes, is_ancestor, node_map, node_views, sign_node, table_ok,
    topo_order, topo_order_of, NodeView, SignedNode,
};
use vstd::string::StringSliceAdditionalSpecFns;

verus! {

/// A signed membership op: the shared envelope under this plane's domain.
pub type SignedOp = SignedNode;

/// The signing domain for membership ops: the bytes of `lait/aclop/1`.
pub open spec fn acl_domain() -> Seq<u8> {
    seq![108u8, 97, 105, 116, 47, 97, 99, 108, 111, 112, 47, 49]
}

pub fn acl_domain_bytes() -> (r: Vec<u8>)
    ensures
        r@ == acl_domain(),
{
    let r: Vec<u8> = vec![108u8, 97, 105, 116, 47, 97, 99, 108, 111, 112, 47, 49];
    assert(r@ =~= acl_domain());
    r
}

/// A member role.
#[derive(Debug, Clone, Copy, PartialEq, Eq)]
pub enum Role {
    Admin,
    Member,
}

/// A membership operation, canonically encoded and signed.
#[derive(Debug, Clone, Copy)]
pub enum AclOp {
    AddMember { key: UserId, role: Role },
    RemoveMember { key: UserId },
    SetRole { key: UserId, role: Role },
    /// Sponsor an agent keypair. The sponsor is the op's author.
    AddAgent { key: UserId },
}

pub open spec fn role_byte(r: Role) -> u8 {
    match r {
        Role::Admin => 0,
        Role::Member => 1,
    }
}

pub open spec fn role_of_byte(b: u8) -> Role {
    if b == 0 {
        Role::Admin
    } else {
        Role::Member
    }
}

/// The subject key of an op.
pub open spec fn op_key(op: AclOp) -> UserId {
    match op {
        AclOp::AddMember { key, .. } => key,
        AclOp::RemoveMember { key } => key,
        AclOp::SetRole { key, .. } => key,
        AclOp::AddAgent { key } => key,
    }
}

/// The canonical encoding of an op: the variant index, the subject key's 32
/// bytes, then the role index where the variant carries one.
pub open spec fn encode_op(op: AclOp) -> Seq<u8> {
    match op {
        AclOp::AddMember { key, role } => seq![0u8] + key.0@ + seq![role_byte(role)],
        AclOp::RemoveMember { key } => seq![1u8] + key.0@,
        AclOp::SetRole { key, role } => seq![2u8] + key.0@ + seq![role_byte(role)],
        AclOp::AddAgent { key } => seq![3u8] + key.0@,
    }
}

/// The key whose bytes are `s`.
pub open spec fn key_from(s: Seq<u8>) -> Key32 {
    choose|k: Key32| k@ == s
}

/// Decode an op: exactly the canonical encoding of some op, or nothing.
pub open spec fn decode_op(b: Seq<u8>) -> Option<AclOp> {
    if b.len() == 34 && (b[0] == 0 || b[0] == 2) && b[33] <= 1 {
        let key = UserId(key_from(b.subrange(1, 33)));
        let role = role_of_byte(b[33]);
        if b[0] == 0 {
            Some(AclOp::AddMember { key, role })
        } else {
            Some(AclOp::SetRole { key, role })
        }
    } else if b.len() == 33 && (b[0] == 1 || b[0] == 3) {
        let key = UserId(key_from(b.subrange(1, 33)));
        if b[0] == 1 {
            Some(AclOp::RemoveMember { key })
        } else {
            Some(AclOp::AddAgent { key })
        }
    } else {
        None
    }
}

/// Decoding gives back what encoding wrote.
pub proof fn lemma_decode_encode(op: AclOp)
    ensures
        decode_op(encode_op(op)) == Some(op),
{
    let b = encode_op(op);
    let k = op_key(op).0;
    assert(b.subrange(1, 33) =~= k@);
    let c = key_from(b.subrange(1, 33));
    crate::bytes::lemma_key_ext(c, k);
}

/// Whatever decodes was written by encoding: the encoding is canonical.
pub proof fn lemma_encode_decode(b: Seq<u8>)
    requires
        decode_op(b) is Some,
    ensures
        encode_op(decode_op(b).unwrap()) == b,
{
    let k = key_from(b.subrange(1, 33));
    let w = byte_key_witness(b.subrange(1, 33));
    assert(k@ == b.subrange(1, 33));
    assert(encode_op(decode_op(b).unwrap()) =~= b);
}

/// Every 32-byte sequence is the bytes of some key.
proof fn byte_key_witness(s: Seq<u8>) -> (k: Key32)
    requires
        s.len() == 32,
    ensures
        k@ == s,
{
    let k: Key32 = [s[0], s[1], s[2], s[3], s[4], s[5], s[6], s[7], s[8], s[9], s[10], s[11], s[12],
        s[13], s[14], s[15], s[16], s[17], s[18], s[19], s[20], s[21], s[22], s[23], s[24], s[25],
        s[26], s[27], s[28], s[29], s[30], s[31]];
    assert(k@ =~= s);
    k
}

impl AclOp {
    /// The subject key.
    pub fn key(&self) -> (r: &UserId)
        ensures
            *r == op_key(*self),
    {
        match self {
            AclOp::AddMember { key, .. } | AclOp::RemoveMember { key } | AclOp::SetRole { key, .. }
            | AclOp::AddAgent { key } => key,
        }
    }

    /// The canonical bytes of this op.
    pub fn encode(&self) -> (r: Vec<u8>)
        ensures
            r@ == encode_op(*self),
    {
        let mut out: Vec<u8> = Vec::new();
        let (tag, key, role): (u8, Key32, Option<Role>) = match self {
            AclOp::AddMember { key, role } => (0, key.0, Some(*role)),
            AclOp::RemoveMember { key } => (1, key.0, None),
            AclOp::SetRole { key, role } => (2, key.0, Some(*role)),
            AclOp::AddAgent { key } => (3, key.0, None),
        };
        out.push(tag);
        crate::encoding::push_all(&mut out, &key);
        match role {
            Some(Role::Admin) => out.push(0),
            Some(Role::Member) => out.push(1),
            None => {},
        }
        assert(out@ =~= encode_op(*self));
        out
    }

    /// Decode canonical op bytes; `None` for anything else (an op kind this
    /// build does not know, or corrupt bytes).
    pub fn decode(b: &[u8]) -> (r: Option<AclOp>)
        ensures
            r == decode_op(b@),
    {
        let n = b.len();
        if n != 33 && n != 34 {
            return None;
        }
        let tag = b[0];
        let mut k: Key32 = [0u8; 32];
        let mut i: usize = 0;
        while i < 32
            invariant
                b@.len() == n,
                n == 33 || n == 34,
                0 <= i <= 32,
                forall|j: int| 0 <= j < i ==> k@[j] == b@[j + 1],
            decreases 32 - i,
        {
            k[i] = b[i + 1];
            i = i + 1;
        }
        proof {
            assert(k@ =~= b@.subrange(1, 33));
            let c = key_from(b@.subrange(1, 33));
            crate::bytes::lemma_key_ext(c, k);
        }
        let key = UserId(k);
        if n == 34 && (tag == 0 || tag == 2) && b[33] <= 1 {
            let role = if b[33] == 0 {
                Role::Admin
            } else {
                Role::Member
            };
            if tag == 0 {
                Some(AclOp::AddMember { key, role })
            } else {
                Some(AclOp::SetRole { key, role })
            }
        } else if n == 33 && (tag == 1 || tag == 3) {
            if tag == 1 {
                Some(AclOp::RemoveMember { key })
            } else {
                Some(AclOp::AddAgent { key })
            }
        } else {
            None
        }
    }
}

/// The workspace genesis: the id the op-graph is scoped to and the founding admins.
#[derive(Debug, Clone)]
pub struct Genesis {
    pub workspace_id: WorkspaceId,
    pub founding_admins: Vec<UserId>,
}

/// The bytes of the workspace id every op of `g` is signed for.
pub open spec fn genesis_ws(g: Genesis) -> Seq<u8> {
    vstd::utf8::encode_utf8(g.workspace_id.view())
}

/// The nodes replay holds: the signature-valid ops, by hash.
pub open spec fn acl_nodes(g: Genesis, ops: Seq<SignedOp>) -> Map<Key32, NodeView> {
    node_map(acl_domain(), genesis_ws(g), node_views(ops))
}

/// Sign an op with the author's ed25519 seed, given the current heads as
/// parents and the workspace id. The signature binds op ‖ author ‖
/// sorted(parents) ‖ workspace id under the plane domain.
pub fn sign_op(seed: &[u8; 32], op: &AclOp, parents: Vec<Key32>, workspace_id: &WorkspaceId) -> (r:
    SignedOp)
    ensures
        r@.op == encode_op(*op),
        r@.parents == parents@,
        r@.author == crate::crypto::ed25519_public_of(seed@),
        crate::sigdag::sig_valid(
            acl_domain(),
            r@,
            vstd::utf8::encode_utf8(workspace_id.view()),
        ),
{
    let domain = acl_domain_bytes();
    let ws = workspace_id.as_str();
    sign_node(domain.as_slice(), seed, op.encode(), parents, ws)
}

// ---------------------------------------------------------------------------
// Pass 1: authorization, tracking standing as it evolves in topological order
// ---------------------------------------------------------------------------

/// Standing while authorizing: admins, humans, and agent → sponsor.
pub struct Standing {
    pub admins: Set<Key32>,
    pub humans: Set<Key32>,
    pub agents: Map<Key32, Key32>,
}

/// Whether `author` may author `op` given the current standing.
pub open spec fn authorized(st: Standing, author: Key32, op: AclOp) -> bool {
    !st.agents.contains_key(author) && match op {
        AclOp::AddMember { .. } => st.admins.contains(author),
        AclOp::SetRole { .. } => st.admins.contains(author),
        // Admins remove anyone; a sponsor may retire their own agent.
        AclOp::RemoveMember { key } => st.admins.contains(author) || (st.agents.contains_key(key.0)
            && st.agents[key.0] == author),
        // Any human member may sponsor a fresh agent for themselves.
        AclOp::AddAgent { key } => st.humans.contains(author) && key.0 != author
            && !st.humans.contains(key.0) && !st.agents.contains_key(key.0),
    }
}

/// The standing after an authorized op.
pub open spec fn standing_step(st: Standing, author: Key32, op: AclOp) -> Standing {
    match op {
        AclOp::AddMember { key, role } => Standing {
            humans: st.humans.insert(key.0),
            agents: st.agents.remove(key.0),
            admins: if role == Role::Admin {
                st.admins.insert(key.0)
            } else {
                st.admins.remove(key.0)
            },
        },
        AclOp::SetRole { key, role } => Standing {
            humans: st.humans.insert(key.0),
            agents: st.agents.remove(key.0),
            admins: if role == Role::Admin {
                st.admins.insert(key.0)
            } else {
                st.admins.remove(key.0)
            },
        },
        AclOp::AddAgent { key } => Standing { agents: st.agents.insert(key.0, author), ..st },
        AclOp::RemoveMember { key } => Standing {
            humans: st.humans.remove(key.0),
            admins: st.admins.remove(key.0),
            agents: without_sponsor(st.agents.remove(key.0), key.0),
        },
    }
}

/// The agents whose sponsor is not `s`.
pub open spec fn without_sponsor(agents: Map<Key32, Key32>, s: Key32) -> Map<Key32, Key32> {
    agents.restrict(agents.dom().filter(|k: Key32| agents[k] != s))
}

/// The kind of op an audit row reports.
#[derive(Debug, Clone, Copy, PartialEq, Eq)]
pub enum OpKind {
    AddMember,
    RemoveMember,
    SetRole,
    AddAgent,
    Unknown,
}

impl OpKind {
    /// `add_member` | `remove_member` | `set_role` | `add_agent` | `unknown`.
    pub fn as_str(&self) -> (r: &'static str)
        ensures
            r@ == op_kind_text(*self),
    {
        match self {
            OpKind::AddMember => "add_member",
            OpKind::RemoveMember => "remove_member",
            OpKind::SetRole => "set_role",
            OpKind::AddAgent => "add_agent",
            OpKind::Unknown => "unknown",
        }
    }
}

/// The audit name of an op kind.
pub open spec fn op_kind_text(k: OpKind) -> Seq<char> {
    match k {
        OpKind::AddMember => "add_member"@,
        OpKind::RemoveMember => "remove_member"@,
        OpKind::SetRole => "set_role"@,
        OpKind::AddAgent => "add_agent"@,
        OpKind::Unknown => "unknown"@,
    }
}

pub open spec fn op_kind(op: AclOp) -> OpKind {
    match op {
        AclOp::AddMember { .. } => OpKind::AddMember,
        AclOp::RemoveMember { .. } => OpKind::RemoveMember,
        AclOp::SetRole { .. } => OpKind::SetRole,
        AclOp::AddAgent { .. } => OpKind::AddAgent,
    }
}

pub open spec fn op_role(op: AclOp) -> Option<Role> {
    match op {
        AclOp::AddMember { role, .. } => Some(role),
        AclOp::SetRole { role, .. } => Some(role),
        _ => None,
    }
}

/// One row of the membership audit log: an op in deterministic causal order,
/// with its replay verdict.
#[derive(Debug, Clone, Copy)]
pub struct AuditEntry {
    pub hash: Key32,
    pub author: UserId,
    pub kind: OpKind,
    /// The subject key (absent for undecodable ops).
    pub subject: Option<UserId>,
    pub role: Option<Role>,
    /// Whether replay honored the op (false = unauthorized or undecodable).
    pub authorized: bool,
}

/// The state of pass 1 after a prefix of the order.
pub struct Pass1 {
    pub st: Standing,
    pub authorized: Seq<Key32>,
    pub audit: Seq<AuditEntry>,
}

pub open spec fn founders_set(founders: Seq<UserId>) -> Set<Key32> {
    Set::new(|k: Key32| exists|i: int| 0 <= i < founders.len() && #[trigger] founders[i].0 == k)
}

pub open spec fn initial_standing(founders: Seq<UserId>) -> Standing {
    Standing { admins: founders_set(founders), humans: founders_set(founders), agents: Map::empty() }
}

pub open spec fn pass1(nodes: Map<Key32, NodeView>, order: Seq<Key32>, founders: Seq<UserId>) -> Pass1
    decreases order.len(),
{
    if order.len() == 0 {
        Pass1 { st: initial_standing(founders), authorized: Seq::empty(), audit: Seq::empty() }
    } else {
        let prev = pass1(nodes, order.drop_last(), founders);
        let h = order.last();
        let n = nodes[h];
        match decode_op(n.op) {
            None => Pass1 {
                audit: prev.audit.push(
                    AuditEntry {
                        hash: h,
                        author: UserId(n.author),
                        kind: OpKind::Unknown,
                        subject: None,
                        role: None,
                        authorized: false,
                    },
                ),
                ..prev
            },
            Some(op) => {
                let ok = authorized(prev.st, n.author, op);
                let entry = AuditEntry {
                    hash: h,
                    author: UserId(n.author),
                    kind: op_kind(op),
                    subject: Some(op_key(op)),
                    role: op_role(op),
                    authorized: ok,
                };
                if ok {
                    Pass1 {
                        st: standing_step(prev.st, n.author, op),
                        authorized: prev.authorized.push(h),
                        audit: prev.audit.push(entry),
                    }
                } else {
                    Pass1 { audit: prev.audit.push(entry), ..prev }
                }
            },
        }
    }
}

// ---------------------------------------------------------------------------
// Pass 2: materialize membership from the authorized ops
// ---------------------------------------------------------------------------

pub struct Membership {
    pub members: Map<Key32, Role>,
    pub agents: Map<Key32, Key32>,
}

pub open spec fn founders_membership(founders: Seq<UserId>) -> Membership {
    Membership {
        members: Map::new(|k: Key32| founders_set(founders).contains(k), |k: Key32| Role::Admin),
        agents: Map::empty(),
    }
}

pub open spec fn membership_step(m: Membership, author: Key32, op: AclOp) -> Membership {
    match op {
        AclOp::AddMember { key, role } => Membership {
            members: m.members.insert(key.0, role),
            agents: m.agents.remove(key.0),
        },
        AclOp::SetRole { key, role } => Membership {
            members: m.members.insert(key.0, role),
            agents: m.agents.remove(key.0),
        },
        AclOp::AddAgent { key } => Membership {
            members: m.members.insert(key.0, Role::Member),
            agents: m.agents.insert(key.0, author),
        },
        AclOp::RemoveMember { key } => Membership {
            members: m.members.remove(key.0),
            agents: m.agents.remove(key.0),
        },
    }
}

pub open spec fn pass2(nodes: Map<Key32, NodeView>, auth: Seq<Key32>, founders: Seq<UserId>) -> Membership
    decreases auth.len(),
{
    if auth.len() == 0 {
        founders_membership(founders)
    } else {
        let prev = pass2(nodes, auth.drop_last(), founders);
        let n = nodes[auth.last()];
        match decode_op(n.op) {
            Some(op) => membership_step(prev, n.author, op),
            None => prev,
        }
    }
}

// ---------------------------------------------------------------------------
// Remove-wins and the sponsor cascade
// ---------------------------------------------------------------------------

/// The op at `h` adds `key` (an add, a role set, or an agent sponsorship of it).
pub open spec fn adds_key(nodes: Map<Key32, NodeView>, h: Key32, key: Key32) -> bool {
    match decode_op(nodes[h].op) {
        Some(AclOp::AddMember { key: k, .. }) => k.0 == key,
        Some(AclOp::SetRole { key: k, .. }) => k.0 == key,
        Some(AclOp::AddAgent { key: k }) => k.0 == key,
        _ => false,
    }
}

/// The op at `h` removes `key`.
pub open spec fn removes_key(nodes: Map<Key32, NodeView>, h: Key32, key: Key32) -> bool {
    match decode_op(nodes[h].op) {
        Some(AclOp::RemoveMember { key: k }) => k.0 == key,
        _ => false,
    }
}

/// The authorized remove at `auth[i]` is causally succeeded by no authorized add of `key`.
pub open spec fn remove_stands(nodes: Map<Key32, NodeView>, auth: Seq<Key32>, i: int, key: Key32) -> bool {
    removes_key(nodes, auth[i], key) && forall|j: int|
        0 <= j < auth.len() && #[trigger] adds_key(nodes, auth[j], key) ==> !is_ancestor(
            nodes,
            auth[i],
            auth[j],
        )
}

/// Some authorized remove of `key` among the first `n` authorized ops stands.
pub open spec fn removed_upto(nodes: Map<Key32, NodeView>, auth: Seq<Key32>, key: Key32, n: int) -> bool {
    exists|i: int| 0 <= i < n && #[trigger] remove_stands(nodes, auth, i, key)
}

/// Remove-wins: `key` is removed if an authorized remove of it is causally
/// succeeded by no authorized (re-)add.
pub open spec fn removed(nodes: Map<Key32, NodeView>, auth: Seq<Key32>, key: Key32) -> bool {
    removed_upto(nodes, auth, key, auth.len() as int)
}

/// The membership after remove-wins.
pub open spec fn after_removals(nodes: Map<Key32, NodeView>, auth: Seq<Key32>, m: Membership) -> Membership {
    Membership {
        members: m.members.restrict(m.members.dom().filter(|k: Key32| !removed(nodes, auth, k))),
        agents: m.agents.restrict(m.agents.dom().filter(|k: Key32| !removed(nodes, auth, k))),
    }
}

/// An agent whose sponsor is no longer a human member: the sponsor is not a
/// member, or is itself an agent now.
pub open spec fn orphaned(m: Membership, k: Key32) -> bool {
    m.agents.contains_key(k) && (!m.members.contains_key(m.agents[k]) || m.agents.contains_key(
        m.agents[k],
    ))
}

/// The sponsor cascade: an agent stands only while its human sponsor does.
pub open spec fn after_cascade(m: Membership) -> Membership {
    Membership {
        members: m.members.restrict(m.members.dom().filter(|k: Key32| !orphaned(m, k))),
        agents: m.agents.restrict(m.agents.dom().filter(|k: Key32| !orphaned(m, k))),
    }
}

/// The result of replaying `ops` from genesis `g`, with its audit trail.
pub open spec fn replay_spec(g: Genesis, ops: Seq<SignedOp>) -> (Membership, Seq<AuditEntry>) {
    let nodes = acl_nodes(g, ops);
    let p1 = pass1(nodes, topo_order(nodes), g.founding_admins@);
    let m = after_cascade(
        after_removals(nodes, p1.authorized, pass2(nodes, p1.authorized, g.founding_admins@)),
    );
    (m, p1.audit)
}


// ---------------------------------------------------------------------------
// Laws of replay
// ---------------------------------------------------------------------------

/// The ops replay honors for `g` and `ops`, in topological order.
pub open spec fn honored(g: Genesis, ops: Seq<SignedOp>) -> Seq<Key32> {
    let nodes = acl_nodes(g, ops);
    pass1(nodes, topo_order(nodes), g.founding_admins@).authorized
}

/// Membership before remove-wins and the cascade.
pub open spec fn materialized(g: Genesis, ops: Seq<SignedOp>) -> Membership {
    let nodes = acl_nodes(g, ops);
    after_removals(nodes, honored(g, ops), pass2(nodes, honored(g, ops), g.founding_admins@))
}

/// Replay is deterministic and order independent: two replicas given the
/// same signed ops, in any order and with any repetition, reach the same
/// membership and the same audit trail (as long as no two distinct valid ops
/// share a hash).
pub proof fn lemma_replay_order_independent(g: Genesis, a: Seq<SignedOp>, b: Seq<SignedOp>)
    requires
        node_views(a).to_set() == node_views(b).to_set(),
        crate::sigdag::hashes_distinct(acl_domain(), genesis_ws(g), node_views(a).to_set()),
    ensures
        replay_spec(g, a) == replay_spec(g, b),
{
    crate::sigdag::lemma_node_map_order_independent(
        acl_domain(),
        genesis_ws(g),
        node_views(a),
        node_views(b),
    );
    assert(acl_nodes(g, a) == acl_nodes(g, b));
}

/// A forged op (one whose signature does not check for this workspace and
/// plane) changes nothing.
pub proof fn lemma_forged_op_ignored(g: Genesis, ops: Seq<SignedOp>, bad: SignedOp)
    requires
        !crate::sigdag::sig_valid(acl_domain(), bad@, genesis_ws(g)),
    ensures
        replay_spec(g, ops.push(bad)) == replay_spec(g, ops),
{
    assert(node_views(ops.push(bad)) =~= node_views(ops).push(bad@));
    crate::sigdag::lemma_node_map_invalid(acl_domain(), genesis_ws(g), node_views(ops), bad@);
    assert(acl_nodes(g, ops.push(bad)) == acl_nodes(g, ops));
}

/// The ops of `ops` whose signatures check for `g`'s workspace and this
/// plane, in their order.
pub open spec fn signature_valid_ops(g: Genesis, ops: Seq<SignedOp>) -> Seq<SignedOp> {
    ops.filter(|o: SignedOp| crate::sigdag::sig_valid(acl_domain(), o@, genesis_ws(g)))
}

proof fn lemma_acl_nodes_of_valid_ops(g: Genesis, ops: Seq<SignedOp>)
    ensures
        acl_nodes(g, ops) == acl_nodes(g, signature_valid_ops(g, ops)),
    decreases ops.len(),
{
    reveal(Seq::filter);
    if ops.len() > 0 {
        let p = ops.drop_last();
        let o = ops.last();
        lemma_acl_nodes_of_valid_ops(g, p);
        assert(node_views(ops).drop_last() =~= node_views(p));
        assert(node_views(ops).last() == o@);
        let f = signature_valid_ops(g, ops);
        let fp = signature_valid_ops(g, p);
        if crate::sigdag::sig_valid(acl_domain(), o@, genesis_ws(g)) {
            assert(f == fp.push(o));
            assert(node_views(f).drop_last() =~= node_views(fp));
            assert(node_views(f).last() == o@);
        } else {
            assert(f == fp);
        }
    }
}

/// Replay ignores every op whose signature does not check: replaying `ops`
/// and replaying only its signature-valid ops give the same membership and
/// the same audit trail.
pub proof fn lemma_replay_ignores_invalid_ops(g: Genesis, ops: Seq<SignedOp>)
    ensures
        replay_spec(g, ops) == replay_spec(g, signature_valid_ops(g, ops)),
{
    lemma_acl_nodes_of_valid_ops(g, ops);
}

/// Remove-wins: a key whose authorized removal is causally succeeded by no
/// authorized (re-)add is neither a member nor an agent, whatever concurrent
/// adds say.
pub proof fn lemma_remove_wins(g: Genesis, ops: Seq<SignedOp>, k: Key32)
    requires
        removed(acl_nodes(g, ops), honored(g, ops), k),
    ensures
        !replay_spec(g, ops).0.members.contains_key(k),
        !replay_spec(g, ops).0.agents.contains_key(k),
{
}

/// An agent's membership dies with its sponsor: an agent whose sponsor is not
/// a member after remove-wins is not a member either.
pub proof fn lemma_sponsor_cascade(g: Genesis, ops: Seq<SignedOp>, a: Key32)
    requires
        materialized(g, ops).agents.contains_key(a),
        !materialized(g, ops).members.contains_key(materialized(g, ops).agents[a]),
    ensures
        !replay_spec(g, ops).0.members.contains_key(a),
        !replay_spec(g, ops).0.agents.contains_key(a),
{
}

/// Every agent is a member with the role `member`.
pub open spec fn agents_sealed(m: Membership) -> bool {
    forall|k: Key32| #[trigger] m.agents.contains_key(k) ==> m.members.contains_key(k) && m.members[k]
        == Role::Member
}

proof fn lemma_pass2_agents_sealed(nodes: Map<Key32, NodeView>, auth: Seq<Key32>, founders: Seq<UserId>)
    ensures
        agents_sealed(pass2(nodes, auth, founders)),
    decreases auth.len(),
{
    if auth.len() > 0 {
        lemma_pass2_agents_sealed(nodes, auth.drop_last(), founders);
    }
}

/// Agents are sealed members: after replay, every agent is a member whose
/// role is `member`.
pub proof fn lemma_agents_are_sealed_members(g: Genesis, ops: Seq<SignedOp>, a: Key32)
    requires
        replay_spec(g, ops).0.agents.contains_key(a),
    ensures
        replay_spec(g, ops).0.members.contains_key(a),
        replay_spec(g, ops).0.members[a] == Role::Member,
{
    let nodes = acl_nodes(g, ops);
    let auth = honored(g, ops);
    let m0 = pass2(nodes, auth, g.founding_admins@);
    lemma_pass2_agents_sealed(nodes, auth, g.founding_admins@);
    let m1 = after_removals(nodes, auth, m0);
    assert(m1.agents.contains_key(a));
    assert(m0.agents.contains_key(a));
    assert(m1.members.dom().contains(a));
    assert(!orphaned(m1, a));
}

/// No re-delegation survives replay: every agent's sponsor is a member and
/// not itself an agent.
pub proof fn lemma_agents_have_human_sponsors(g: Genesis, ops: Seq<SignedOp>, a: Key32)
    requires
        replay_spec(g, ops).0.agents.contains_key(a),
    ensures
        replay_spec(g, ops).0.members.contains_key(replay_spec(g, ops).0.agents[a]),
        !replay_spec(g, ops).0.agents.contains_key(replay_spec(g, ops).0.agents[a]),
{
    let m = materialized(g, ops);
    let r = replay_spec(g, ops).0;
    assert(r == after_cascade(m));
    let sp = m.agents[a];
    assert(!orphaned(m, a));
    assert(r.agents[a] == sp);
    assert(!orphaned(m, sp));
    assert(m.members.dom().filter(|k: Key32| !orphaned(m, k)).contains(sp));
}

/// Who may author what: adding a member or setting a role takes an admin;
/// removing takes an admin, or the sponsor retiring their own agent;
/// sponsoring takes a human member naming a fresh key other than their own;
/// and an agent authors nothing. So a plain member can never promote
/// anyone, themselves included.
pub proof fn lemma_authority_rules(st: Standing, author: Key32, op: AclOp)
    requires
        authorized(st, author, op),
    ensures
        !st.agents.contains_key(author),
        op is AddMember ==> st.admins.contains(author),
        op is SetRole ==> st.admins.contains(author),
        op matches AclOp::RemoveMember { key } ==> st.admins.contains(author) || (st.agents.contains_key(
            key.0,
        ) && st.agents[key.0] == author),
        op matches AclOp::AddAgent { key } ==> st.humans.contains(author) && key.0 != author
            && !st.humans.contains(key.0) && !st.agents.contains_key(key.0),
{
}

/// An admin who is not an agent may add members, set roles and remove
/// anyone.
pub proof fn lemma_admins_hold_authority(st: Standing, author: Key32, op: AclOp)
    requires
        st.admins.contains(author),
        !st.agents.contains_key(author),
        !(op is AddAgent),
    ensures
        authorized(st, author, op),
{
}

proof fn lemma_pass1_audit_len(nodes: Map<Key32, NodeView>, order: Seq<Key32>, founders: Seq<UserId>)
    ensures
        pass1(nodes, order, founders).audit.len() == order.len(),
    decreases order.len(),
{
    if order.len() > 0 {
        lemma_pass1_audit_len(nodes, order.drop_last(), founders);
    }
}

/// The `k`-th audit row of pass 1 is the verdict on the `k`-th op of the
/// order, taken in the standing that the ops before it built: an honored
/// row is a decoded op whose author was authorized there.
proof fn lemma_pass1_row(nodes: Map<Key32, NodeView>, order: Seq<Key32>, founders: Seq<UserId>, k: int)
    requires
        0 <= k < order.len(),
    ensures
        pass1(nodes, order, founders).audit.len() == order.len(),
        pass1(nodes, order, founders).audit[k].hash == order[k],
        pass1(nodes, order, founders).audit[k].author.0 == nodes[order[k]].author,
        pass1(nodes, order, founders).audit[k].authorized ==> (decode_op(nodes[order[k]].op) matches Some(
            op,
        ) && authorized(pass1(nodes, order.subrange(0, k), founders).st, nodes[order[k]].author, op)
            && pass1(nodes, order, founders).audit[k].kind == op_kind(op)),
    decreases order.len(),
{
    lemma_pass1_audit_len(nodes, order, founders);
    let p = order.drop_last();
    lemma_pass1_audit_len(nodes, p, founders);
    if k == order.len() - 1 {
        assert(order.subrange(0, k) =~= p);
    } else {
        lemma_pass1_row(nodes, p, founders, k);
        assert(p.subrange(0, k) =~= order.subrange(0, k));
        assert(p[k] == order[k]);
    }
}

/// Replay honors a role change only from an author who is an admin in the
/// standing that the ops before it in the order built; a plain member's
/// attempt to promote anyone, themselves included, is logged as refused.
pub proof fn lemma_honored_role_changes_come_from_admins(
    nodes: Map<Key32, NodeView>,
    order: Seq<Key32>,
    founders: Seq<UserId>,
    k: int,
)
    requires
        0 <= k < order.len(),
        pass1(nodes, order, founders).audit[k].authorized,
        pass1(nodes, order, founders).audit[k].kind == OpKind::SetRole
            || pass1(nodes, order, founders).audit[k].kind == OpKind::AddMember,
    ensures
        pass1(nodes, order.subrange(0, k), founders).st.admins.contains(
            pass1(nodes, order, founders).audit[k].author.0,
        ),
{
    lemma_pass1_audit_len(nodes, order, founders);
    lemma_pass1_row(nodes, order, founders, k);
    let op = decode_op(nodes[order[k]].op)->0;
    lemma_authority_rules(pass1(nodes, order.subrange(0, k), founders).st, nodes[order[k]].author, op);
}

/// Agents hold no membership authority: nothing an agent authors is honored.
pub proof fn lemma_agents_author_nothing(st: Standing, author: Key32, op: AclOp)
    requires
        st.agents.contains_key(author),
    ensures
        !authorized(st, author, op),
{
}

/// With no ops, the founding admins are the members, all of them admins,
/// and there are no agents.
pub proof fn lemma_genesis_membership(g: Genesis)
    ensures
        replay_spec(g, Seq::empty()).0.members == founders_membership(g.founding_admins@).members,
        replay_spec(g, Seq::empty()).0.agents == Map::<Key32, Key32>::empty(),
        replay_spec(g, Seq::empty()).1.len() == 0,
{
    let ops = Seq::<SignedOp>::empty();
    assert(node_views(ops) =~= Seq::<NodeView>::empty());
    let nodes = acl_nodes(g, ops);
    assert(nodes == Map::<Key32, NodeView>::empty());
    assert(nodes.dom() =~= Set::<Key32>::empty());
    assert(topo_order(nodes) == Seq::<Key32>::empty());
    let f = g.founding_admins@;
    let auth = pass1(nodes, topo_order(nodes), f).authorized;
    assert(auth.len() == 0);
    let m0 = pass2(nodes, auth, f);
    let m1 = after_removals(nodes, auth, m0);
    assert(m1.members =~= m0.members);
    assert(m1.agents =~= m0.agents);
    let m2 = after_cascade(m1);
    assert(m2.members =~= m1.members);
    assert(m2.agents =~= m1.agents);
}

// ---------------------------------------------------------------------------
// The materialized state
// ---------------------------------------------------------------------------

/// The materialized ACL state after replay.
#[derive(Debug, PartialEq, Eq)]
pub struct AclState {
    /// Every principal sealed into the workspace, humans and agents alike.
    members: KeyMap<Role>,
    /// agent key → sponsoring member. Every key here is also in `members`.
    agents: KeyMap<Key32>,
}

impl View for AclState {
    type V = Membership;

    closed spec fn view(&self) -> Membership {
        Membership { members: self.members.view(), agents: self.agents.view() }
    }
}

/// The standing names of the projection surface.
pub open spec fn standing_of(m: Membership, k: Key32) -> Option<&'static str> {
    if m.agents.contains_key(k) {
        Some("agent")
    } else if m.members.contains_key(k) {
        if m.members[k] == Role::Admin {
            Some("admin")
        } else {
            Some("member")
        }
    } else {
        None
    }
}

pub open spec fn user_entries<V>(s: Seq<(UserId, V)>) -> Seq<(Key32, V)> {
    s.map_values(|e: (UserId, V)| (e.0.0, e.1))
}

pub open spec fn agent_entries(s: Seq<(UserId, UserId)>) -> Seq<(Key32, Key32)> {
    s.map_values(|e: (UserId, UserId)| (e.0.0, e.1.0))
}

impl AclState {
    #[verifier::type_invariant]
    closed spec fn inv(&self) -> bool {
        self.members.wf() && self.agents.wf()
    }

    /// The empty state: no members, no agents.
    pub fn empty() -> (r: AclState)
        ensures
            r@.members == Map::<Key32, Role>::empty(),
            r@.agents == Map::<Key32, Key32>::empty(),
    {
        AclState { members: KeyMap::new(), agents: KeyMap::new() }
    }

    /// Whether `u` is sealed into the workspace (humans and agents alike).
    pub fn is_member(&self, u: &UserId) -> (r: bool)
        ensures
            r == self@.members.contains_key(u.0),
    {
        proof {
            use_type_invariant(self);
        }
        self.members.contains(&u.0)
    }

    pub fn is_admin(&self, u: &UserId) -> (r: bool)
        ensures
            r == (self@.members.contains_key(u.0) && self@.members[u.0] == Role::Admin),
    {
        proof {
            use_type_invariant(self);
        }
        match self.members.get(&u.0) {
            Some(Role::Admin) => true,
            _ => false,
        }
    }

    /// Whether `u` is an agent principal.
    pub fn is_agent(&self, u: &UserId) -> (r: bool)
        ensures
            r == self@.agents.contains_key(u.0),
    {
        proof {
            use_type_invariant(self);
        }
        self.agents.contains(&u.0)
    }

    /// The sponsoring member of an agent.
    pub fn sponsor_of(&self, u: &UserId) -> (r: Option<UserId>)
        ensures
            r == (if self@.agents.contains_key(u.0) {
                Some(UserId(self@.agents[u.0]))
            } else {
                None
            }),
    {
        proof {
            use_type_invariant(self);
        }
        match self.agents.get(&u.0) {
            Some(s) => Some(UserId(s)),
            None => None,
        }
    }

    /// A human (non-agent) member.
    pub fn is_human_member(&self, u: &UserId) -> (r: bool)
        ensures
            r == (self@.members.contains_key(u.0) && !self@.agents.contains_key(u.0)),
    {
        self.is_member(u) && !self.is_agent(u)
    }

    pub fn role(&self, u: &UserId) -> (r: Option<Role>)
        ensures
            r == (if self@.members.contains_key(u.0) {
                Some(self@.members[u.0])
            } else {
                None
            }),
    {
        proof {
            use_type_invariant(self);
        }
        self.members.get(&u.0)
    }

    /// `admin` | `member` | `agent` — the projection surface.
    pub fn standing(&self, u: &UserId) -> (r: Option<&'static str>)
        ensures
            r == standing_of(self@, u.0),
    {
        if self.is_agent(u) {
            return Some("agent");
        }
        match self.role(u) {
            Some(Role::Admin) => Some("admin"),
            Some(Role::Member) => Some("member"),
            None => None,
        }
    }

    /// All current members, sorted by key (includes agents — the sealing set).
    pub fn members(&self) -> (r: Vec<(UserId, Role)>)
        ensures
            entries_sorted(user_entries(r@)),
            map_of(user_entries(r@)) == self@.members,
    {
        proof {
            use_type_invariant(self);
        }
        let es = self.members.to_vec();
        let mut out: Vec<(UserId, Role)> = Vec::new();
        let mut i: usize = 0;
        while i < es.len()
            invariant
                0 <= i <= es@.len(),
                out@.len() == i,
                forall|k: int| 0 <= k < i ==> #[trigger] out@[k].0.0 == es@[k].0 && out@[k].1 == es@[k].1,
            decreases es@.len() - i,
        {
            out.push((UserId(es[i].0), es[i].1));
            i = i + 1;
        }
        assert(user_entries(out@) =~= es@);
        out
    }

    /// All current agents with their sponsors, sorted by key.
    pub fn agents(&self) -> (r: Vec<(UserId, UserId)>)
        ensures
            entries_sorted(agent_entries(r@)),
            map_of(agent_entries(r@)) == self@.agents,
    {
        proof {
            use_type_invariant(self);
        }
        let es = self.agents.to_vec();
        let mut out: Vec<(UserId, UserId)> = Vec::new();
        let mut i: usize = 0;
        while i < es.len()
            invariant
                0 <= i <= es@.len(),
                out@.len() == i,
                forall|k: int| 0 <= k < i ==> #[trigger] out@[k].0.0 == es@[k].0 && out@[k].1.0 == es@[k].1,
            decreases es@.len() - i,
        {
            out.push((UserId(es[i].0), UserId(es[i].1)));
            i = i + 1;
        }
        assert(agent_entries(out@) =~= es@);
        out
    }

    /// The number of members.
    pub fn len(&self) -> (r: usize)
        ensures
            r == self@.members.dom().len(),
    {
        proof {
            use_type_invariant(self);
        }
        self.members.len()
    }

    pub fn is_empty(&self) -> (r: bool)
        ensures
            r == (self@.members.dom().len() == 0),
    {
        self.len() == 0
    }
}

// ---------------------------------------------------------------------------
// Replay
// ---------------------------------------------------------------------------

/// The founders as admins (a set) and as the initial membership.
fn founders_maps(founders: &Vec<UserId>) -> (r: (KeyMap<()>, KeyMap<Role>))
    ensures
        r.0.wf(),
        r.1.wf(),
        r.0.view().dom() == founders_set(founders@),
        r.1.view() == founders_membership(founders@).members,
{
    let mut set: KeyMap<()> = KeyMap::new();
    let mut members: KeyMap<Role> = KeyMap::new();
    let mut i: usize = 0;
    while i < founders.len()
        invariant
            0 <= i <= founders@.len(),
            set.wf(),
            members.wf(),
            set.view().dom() == founders_set(founders@.subrange(0, i as int)),
            members.view() == founders_membership(founders@.subrange(0, i as int)).members,
        decreases founders@.len() - i,
    {
        let k = founders[i].0;
        set.insert(k, ());
        members.insert(k, Role::Admin);
        proof {
            let pre = founders@.subrange(0, i as int);
            let post = founders@.subrange(0, i + 1);
            assert forall|x: Key32| founders_set(post).contains(x) <==> founders_set(pre).insert(k).contains(x) by {
                if founders_set(post).contains(x) {
                    let j = choose|j: int| 0 <= j < post.len() && #[trigger] post[j].0 == x;
                    if j < i {
                        assert(pre[j].0 == x);
                    }
                }
                if founders_set(pre).contains(x) {
                    let j = choose|j: int| 0 <= j < pre.len() && #[trigger] pre[j].0 == x;
                    assert(post[j].0 == x);
                }
                if x == k {
                    assert(post[i as int].0 == k);
                }
            }
            assert(set.view().dom() =~= founders_set(post));
            assert(members.view() =~= founders_membership(post).members);
        }
        i = i + 1;
    }
    assert(founders@.subrange(0, i as int) =~= founders@);
    (set, members)
}

/// The index of a held node.
fn node_index(table: &KeyMap<usize>, h: &Key32, Ghost(ops): Ghost<Seq<NodeView>>, Ghost(nodes): Ghost<Map<Key32, NodeView>>) -> (r: usize)
    requires
        table_ok(*table, ops, nodes),
        nodes.contains_key(*h),
    ensures
        r < ops.len(),
        ops[r as int] == nodes[*h],
{
    match table.get(h) {
        Some(i) => i,
        None => {
            proof {
                assert(false);
            }
            0
        },
    }
}

/// Pass 1 over the order: authorize each op against the standing as it evolves.
fn authorize_all(
    ops: &[SignedOp],
    table: &KeyMap<usize>,
    Ghost(nodes): Ghost<Map<Key32, NodeView>>,
    order: &Vec<Key32>,
    founders: &Vec<UserId>,
) -> (r: (Vec<Key32>, Vec<AuditEntry>))
    requires
        table_ok(*table, node_views(ops@), nodes),
        forall|i: int| 0 <= i < order@.len() ==> nodes.contains_key(#[trigger] order@[i]),
    ensures
        r.0@ == pass1(nodes, order@, founders@).authorized,
        r.1@ == pass1(nodes, order@, founders@).audit,
        forall|i: int| 0 <= i < r.0@.len() ==> nodes.contains_key(#[trigger] r.0@[i]),
{
    let ghost views = node_views(ops@);
    let (mut admins, _) = founders_maps(founders);
    let (mut humans, _) = founders_maps(founders);
    let mut agents: KeyMap<Key32> = KeyMap::new();
    let mut auth_list: Vec<Key32> = Vec::new();
    let mut audit: Vec<AuditEntry> = Vec::new();
    let mut i: usize = 0;
    proof {
        assert(agents.view() =~= Map::<Key32, Key32>::empty());
    }
    while i < order.len()
        invariant
            table_ok(*table, views, nodes),
            views == node_views(ops@),
            forall|j: int| 0 <= j < order@.len() ==> nodes.contains_key(#[trigger] order@[j]),
            0 <= i <= order@.len(),
            admins.wf(),
            humans.wf(),
            agents.wf(),
            admins.view().dom() == pass1(nodes, order@.subrange(0, i as int), founders@).st.admins,
            humans.view().dom() == pass1(nodes, order@.subrange(0, i as int), founders@).st.humans,
            agents.view() == pass1(nodes, order@.subrange(0, i as int), founders@).st.agents,
            auth_list@ == pass1(nodes, order@.subrange(0, i as int), founders@).authorized,
            audit@ == pass1(nodes, order@.subrange(0, i as int), founders@).audit,
            forall|j: int| 0 <= j < auth_list@.len() ==> nodes.contains_key(#[trigger] auth_list@[j]),
        decreases order@.len() - i,
    {
        let ghost pre = order@.subrange(0, i as int);
        let ghost post = order@.subrange(0, i + 1);
        let ghost p = pass1(nodes, pre, founders@);
        proof {
            assert(post.drop_last() =~= pre);
        }
        let h = order[i];
        assert(nodes.contains_key(h));
        let idx = node_index(table, &h, Ghost(views), Ghost(nodes));
        let node = &ops[idx];
        assert(node@ == nodes[h]);
        let author = node.author.0;
        match AclOp::decode(node.op.as_slice()) {
            None => {
                audit.push(
                    AuditEntry {
                        hash: h,
                        author: UserId(author),
                        kind: OpKind::Unknown,
                        subject: None,
                        role: None,
                        authorized: false,
                    },
                );
            },
            Some(op) => {
                let author_is_agent = agents.contains(&author);
                let ok = !author_is_agent && match op {
                    AclOp::AddMember { .. } | AclOp::SetRole { .. } => admins.contains(&author),
                    AclOp::RemoveMember { key } => admins.contains(&author) || match agents.get(
                        &key.0,
                    ) {
                        Some(s) => keys_equal(&s, &author),
                        None => false,
                    },
                    AclOp::AddAgent { key } => humans.contains(&author) && !keys_equal(
                        &key.0,
                        &author,
                    ) && !humans.contains(&key.0) && !agents.contains(&key.0),
                };
                assert(ok == authorized(p.st, author, op));
                let (kind, role): (OpKind, Option<Role>) = match op {
                    AclOp::AddMember { role, .. } => (OpKind::AddMember, Some(role)),
                    AclOp::RemoveMember { .. } => (OpKind::RemoveMember, None),
                    AclOp::SetRole { role, .. } => (OpKind::SetRole, Some(role)),
                    AclOp::AddAgent { .. } => (OpKind::AddAgent, None),
                };
                audit.push(
                    AuditEntry {
                        hash: h,
                        author: UserId(author),
                        kind,
                        subject: Some(*op.key()),
                        role,
                        authorized: ok,
                    },
                );
                if ok {
                    auth_list.push(h);
                    match op {
                        AclOp::AddMember { key, role } | AclOp::SetRole { key, role } => {
                            humans.insert(key.0, ());
                            agents.remove(&key.0);
                            match role {
                                Role::Admin => admins.insert(key.0, ()),
                                Role::Member => admins.remove(&key.0),
                            }
                        },
                        AclOp::AddAgent { key } => {
                            agents.insert(key.0, author);
                        },
                        AclOp::RemoveMember { key } => {
                            humans.remove(&key.0);
                            admins.remove(&key.0);
                            agents.remove(&key.0);
                            agents.remove_value(&key.0);
                        },
                    }
                    proof {
                        let q = pass1(nodes, post, founders@);
                        assert(humans.view().dom() =~= q.st.humans);
                        assert(admins.view().dom() =~= q.st.admins);
                        assert(agents.view() =~= q.st.agents);
                    }
                }
            },
        }
        i = i + 1;
    }
    assert(order@.subrange(0, i as int) =~= order@);
    (auth_list, audit)
}

/// Pass 2: materialize membership from the authorized ops, in order.
fn materialize(
    ops: &[SignedOp],
    table: &KeyMap<usize>,
    Ghost(nodes): Ghost<Map<Key32, NodeView>>,
    auth: &Vec<Key32>,
    founders: &Vec<UserId>,
) -> (r: (KeyMap<Role>, KeyMap<Key32>))
    requires
        table_ok(*table, node_views(ops@), nodes),
        forall|i: int| 0 <= i < auth@.len() ==> nodes.contains_key(#[trigger] auth@[i]),
    ensures
        r.0.wf(),
        r.1.wf(),
        r.0.view() == pass2(nodes, auth@, founders@).members,
        r.1.view() == pass2(nodes, auth@, founders@).agents,
{
    let ghost views = node_views(ops@);
    let (_, mut members) = founders_maps(founders);
    let mut agents: KeyMap<Key32> = KeyMap::new();
    proof {
        assert(agents.view() =~= Map::<Key32, Key32>::empty());
    }
    let mut i: usize = 0;
    while i < auth.len()
        invariant
            table_ok(*table, views, nodes),
            views == node_views(ops@),
            forall|j: int| 0 <= j < auth@.len() ==> nodes.contains_key(#[trigger] auth@[j]),
            0 <= i <= auth@.len(),
            members.wf(),
            agents.wf(),
            members.view() == pass2(nodes, auth@.subrange(0, i as int), founders@).members,
            agents.view() == pass2(nodes, auth@.subrange(0, i as int), founders@).agents,
        decreases auth@.len() - i,
    {
        let ghost pre = auth@.subrange(0, i as int);
        let ghost post = auth@.subrange(0, i + 1);
        proof {
            assert(post.drop_last() =~= pre);
        }
        let h = auth[i];
        assert(nodes.contains_key(h));
        let idx = node_index(table, &h, Ghost(views), Ghost(nodes));
        let node = &ops[idx];
        assert(node@ == nodes[h]);
        let author = node.author.0;
        match AclOp::decode(node.op.as_slice()) {
            Some(AclOp::AddMember { key, role }) | Some(AclOp::SetRole { key, role }) => {
                members.insert(key.0, role);
                agents.remove(&key.0);
            },
            Some(AclOp::AddAgent { key }) => {
                members.insert(key.0, Role::Member);
                agents.insert(key.0, author);
            },
            Some(AclOp::RemoveMember { key }) => {
                members.remove(&key.0);
                agents.remove(&key.0);
            },
            None => {},
        }
        i = i + 1;
    }
    assert(auth@.subrange(0, i as int) =~= auth@);
    (members, agents)
}

/// Whether the op at `h` adds `key`.
fn adds_key_exec(
    ops: &[SignedOp],
    table: &KeyMap<usize>,
    Ghost(nodes): Ghost<Map<Key32, NodeView>>,
    h: &Key32,
    key: &Key32,
) -> (r: bool)
    requires
        table_ok(*table, node_views(ops@), nodes),
        nodes.contains_key(*h),
    ensures
        r == adds_key(nodes, *h, *key),
{
    let idx = node_index(table, h, Ghost(node_views(ops@)), Ghost(nodes));
    assert(ops@[idx as int]@ == nodes[*h]);
    match AclOp::decode(ops[idx].op.as_slice()) {
        Some(AclOp::AddMember { key: k, .. }) | Some(AclOp::SetRole { key: k, .. }) | Some(
            AclOp::AddAgent { key: k },
        ) => keys_equal(&k.0, key),
        _ => false,
    }
}

/// Whether the authorized remove at `auth[i]` of `key` stands (no authorized add
/// of `key` causally succeeds it).
fn remove_stands_exec(
    ops: &[SignedOp],
    table: &KeyMap<usize>,
    Ghost(nodes): Ghost<Map<Key32, NodeView>>,
    auth: &Vec<Key32>,
    i: usize,
    key: &Key32,
) -> (r: bool)
    requires
        table_ok(*table, node_views(ops@), nodes),
        forall|j: int| 0 <= j < auth@.len() ==> nodes.contains_key(#[trigger] auth@[j]),
        i < auth@.len(),
        removes_key(nodes, auth@[i as int], *key),
    ensures
        r == remove_stands(nodes, auth@, i as int, *key),
{
    let mut j: usize = 0;
    while j < auth.len()
        invariant
            table_ok(*table, node_views(ops@), nodes),
            forall|m: int| 0 <= m < auth@.len() ==> nodes.contains_key(#[trigger] auth@[m]),
            i < auth@.len(),
            0 <= j <= auth@.len(),
            forall|m: int|
                0 <= m < j && #[trigger] adds_key(nodes, auth@[m], *key) ==> !is_ancestor(
                    nodes,
                    auth@[i as int],
                    auth@[m],
                ),
        decreases auth@.len() - j,
    {
        assert(nodes.contains_key(auth@[j as int]));
        if adds_key_exec(ops, table, Ghost(nodes), &auth[j], key) {
            if ancestor_of(ops, table, Ghost(nodes), &auth[i], &auth[j]) {
                return false;
            }
        }
        j = j + 1;
    }
    true
}

/// Remove-wins: drop every key with a standing authorized remove.
fn apply_removals(
    ops: &[SignedOp],
    table: &KeyMap<usize>,
    Ghost(nodes): Ghost<Map<Key32, NodeView>>,
    auth: &Vec<Key32>,
    members: &mut KeyMap<Role>,
    agents: &mut KeyMap<Key32>,
)
    requires
        table_ok(*table, node_views(ops@), nodes),
        forall|j: int| 0 <= j < auth@.len() ==> nodes.contains_key(#[trigger] auth@[j]),
        old(members).wf(),
        old(agents).wf(),
    ensures
        final(members).wf(),
        final(agents).wf(),
        final(members).view() == after_removals(
            nodes,
            auth@,
            Membership { members: old(members).view(), agents: old(agents).view() },
        ).members,
        final(agents).view() == after_removals(
            nodes,
            auth@,
            Membership { members: old(members).view(), agents: old(agents).view() },
        ).agents,
{
    let ghost views = node_views(ops@);
    let ghost m0 = members.view();
    let ghost a0 = agents.view();
    let mut i: usize = 0;
    proof {
        assert(m0.restrict(m0.dom().filter(|k: Key32| !removed_upto(nodes, auth@, k, 0))) =~= m0);
        assert(a0.restrict(a0.dom().filter(|k: Key32| !removed_upto(nodes, auth@, k, 0))) =~= a0);
    }
    while i < auth.len()
        invariant
            table_ok(*table, views, nodes),
            views == node_views(ops@),
            forall|j: int| 0 <= j < auth@.len() ==> nodes.contains_key(#[trigger] auth@[j]),
            0 <= i <= auth@.len(),
            members.wf(),
            agents.wf(),
            members.view() == m0.restrict(
                m0.dom().filter(|k: Key32| !removed_upto(nodes, auth@, k, i as int)),
            ),
            agents.view() == a0.restrict(
                a0.dom().filter(|k: Key32| !removed_upto(nodes, auth@, k, i as int)),
            ),
        decreases auth@.len() - i,
    {
        let h = auth[i];
        assert(nodes.contains_key(h));
        let idx = node_index(table, &h, Ghost(views), Ghost(nodes));
        assert(ops@[idx as int]@ == nodes[h]);
        let mut stands = false;
        let mut rkey: Key32 = [0u8; 32];
        match AclOp::decode(ops[idx].op.as_slice()) {
            Some(AclOp::RemoveMember { key }) => {
                rkey = key.0;
                stands = remove_stands_exec(ops, table, Ghost(nodes), auth, i, &key.0);
            },
            _ => {},
        }
        proof {
            assert forall|k: Key32| #[trigger] remove_stands(nodes, auth@, i as int, k) <==> (stands && k == rkey) by {}
            assert forall|k: Key32| #[trigger] removed_upto(nodes, auth@, k, i + 1) <==> (removed_upto(
                nodes,
                auth@,
                k,
                i as int,
            ) || (stands && k == rkey)) by {
                if removed_upto(nodes, auth@, k, i + 1) {
                    let j = choose|j: int| 0 <= j < i + 1 && #[trigger] remove_stands(nodes, auth@, j, k);
                    if j < i {
                        assert(removed_upto(nodes, auth@, k, i as int));
                    }
                }
                if removed_upto(nodes, auth@, k, i as int) {
                    let j = choose|j: int| 0 <= j < i && #[trigger] remove_stands(nodes, auth@, j, k);
                    assert(removed_upto(nodes, auth@, k, i + 1));
                }
                if stands && k == rkey {
                    assert(remove_stands(nodes, auth@, i as int, k));
                }
            }
        }
        if stands {
            members.remove(&rkey);
            agents.remove(&rkey);
        }
        proof {
            assert(members.view() =~= m0.restrict(
                m0.dom().filter(|k: Key32| !removed_upto(nodes, auth@, k, i + 1)),
            ));
            assert(agents.view() =~= a0.restrict(
                a0.dom().filter(|k: Key32| !removed_upto(nodes, auth@, k, i + 1)),
            ));
        }
        i = i + 1;
    }
}

/// A key occurs among the first `i + 1` entries iff it occurs among the
/// first `i` or is the key of entry `i`.
proof fn lemma_has_key_step<V>(s: Seq<(Key32, V)>, i: int, k: Key32)
    requires
        0 <= i < s.len(),
    ensures
        has_key(s.subrange(0, i + 1), k) <==> (has_key(s.subrange(0, i), k) || s[i].0 == k),
{
    let pre = s.subrange(0, i);
    let post = s.subrange(0, i + 1);
    if has_key(post, k) {
        let a = choose|a: int| 0 <= a < post.len() && #[trigger] post[a].0 == k;
        if a < i {
            assert(pre[a].0 == k);
        }
    }
    if has_key(pre, k) {
        let a = choose|a: int| 0 <= a < pre.len() && #[trigger] pre[a].0 == k;
        assert(post[a].0 == k);
    }
    if s[i].0 == k {
        assert(post[i].0 == k);
    }
}

/// The sponsor cascade: drop every agent whose sponsor is not a member or is
/// an agent.
fn cascade(members: &mut KeyMap<Role>, agents: &mut KeyMap<Key32>)
    requires
        old(members).wf(),
        old(agents).wf(),
    ensures
        final(members).wf(),
        final(agents).wf(),
        final(members).view() == after_cascade(
            Membership { members: old(members).view(), agents: old(agents).view() },
        ).members,
        final(agents).view() == after_cascade(
            Membership { members: old(members).view(), agents: old(agents).view() },
        ).agents,
{
    let ghost m = Membership { members: members.view(), agents: agents.view() };
    let es = agents.to_vec();
    let mut orphans: Vec<Key32> = Vec::new();
    let mut i: usize = 0;
    while i < es.len()
        invariant
            members.wf(),
            members.view() == m.members,
            agents.wf(),
            agents.view() == m.agents,
            entries_sorted(es@),
            map_of(es@) == m.agents,
            0 <= i <= es@.len(),
            forall|k: Key32| #[trigger] orphans@.contains(k) <==> (orphaned(m, k) && has_key(es@.subrange(0, i as int), k)),
        decreases es@.len() - i,
    {
        proof {
            crate::keymap::lemma_map_of_index(es@, i as int);
        }
        let ghost before = orphans@;
        if !members.contains(&es[i].1) || agents.contains(&es[i].1) {
            orphans.push(es[i].0);
        }
        proof {
            assert forall|k: Key32| #[trigger] orphans@.contains(k) <==> (orphaned(m, k) && has_key(es@.subrange(0, i + 1), k)) by {
                lemma_has_key_step(es@, i as int, k);
                if orphans@.contains(k) && !before.contains(k) {
                    let a = choose|a: int| 0 <= a < orphans@.len() && orphans@[a] == k;
                    if a < before.len() {
                        assert(before[a] == k);
                    }
                }
                if before.contains(k) {
                    let a = choose|a: int| 0 <= a < before.len() && before[a] == k;
                    assert(orphans@[a] == k);
                }
                if orphaned(m, k) && es@[i as int].0 == k && orphans@.len() > before.len() {
                    assert(orphans@[before.len() as int] == k);
                }
            }
        }
        i = i + 1;
    }
    proof {
        assert(es@.subrange(0, i as int) =~= es@);
        assert forall|k: Key32| #[trigger] orphans@.contains(k) <==> orphaned(m, k) by {
            if orphaned(m, k) {
                assert(crate::keymap::has_key(es@, k));
            }
        }
    }
    let mut j: usize = 0;
    while j < orphans.len()
        invariant
            members.wf(),
            agents.wf(),
            forall|k: Key32| #[trigger] orphans@.contains(k) <==> orphaned(m, k),
            0 <= j <= orphans@.len(),
            members.view() == m.members.restrict(
                m.members.dom().filter(|k: Key32| !orphans@.subrange(0, j as int).contains(k)),
            ),
            agents.view() == m.agents.restrict(
                m.agents.dom().filter(|k: Key32| !orphans@.subrange(0, j as int).contains(k)),
            ),
        decreases orphans@.len() - j,
    {
        let k = orphans[j];
        members.remove(&k);
        agents.remove(&k);
        proof {
            let pre = orphans@.subrange(0, j as int);
            let post = orphans@.subrange(0, j + 1);
            assert(post =~= pre.push(k));
            assert forall|x: Key32| post.contains(x) <==> (pre.contains(x) || x == k) by {
                if post.contains(x) {
                    let a = choose|a: int| 0 <= a < post.len() && post[a] == x;
                    if a < j {
                        assert(pre[a] == x);
                    }
                }
                if pre.contains(x) {
                    let a = choose|a: int| 0 <= a < pre.len() && pre[a] == x;
                    assert(post[a] == x);
                }
                if x == k {
                    assert(post[j as int] == k);
                }
            }
            assert(members.view() =~= m.members.restrict(
                m.members.dom().filter(|x: Key32| !post.contains(x)),
            ));
            assert(agents.view() =~= m.agents.restrict(
                m.agents.dom().filter(|x: Key32| !post.contains(x)),
            ));
        }
        j = j + 1;
    }
    proof {
        assert(orphans@.subrange(0, j as int) =~= orphans@);
        assert(members.view() =~= after_cascade(m).members);
        assert(agents.view() =~= after_cascade(m).agents);
    }
}

/// Deterministically replay a signed op-graph from the genesis. Founding
/// admins seed the admin set; each op is honored only if signature-valid and
/// authored by a principal with the required standing as of its place in the
/// topological order; membership resolves remove-wins over the causal
/// ancestor closure, then agents cascade with their sponsors.
pub fn replay(genesis: &Genesis, ops: &[SignedOp]) -> (r: AclState)
    ensures
        r@ == replay_spec(*genesis, ops@).0,
{
    replay_with_audit(genesis, ops).0
}

/// [`replay`] plus the per-op audit trail, in the same deterministic order.
pub fn replay_with_audit(genesis: &Genesis, ops: &[SignedOp]) -> (r: (AclState, Vec<AuditEntry>))
    ensures
        r.0@ == replay_spec(*genesis, ops@).0,
        r.1@ == replay_spec(*genesis, ops@).1,
{
    let domain = acl_domain_bytes();
    let ws = genesis.workspace_id.as_str();
    let table = index_nodes(domain.as_slice(), ws, ops);
    let ghost nodes = acl_nodes(*genesis, ops@);
    assert(ws.spec_bytes() == genesis_ws(*genesis));
    let order = topo_order_of(ops, &table, Ghost(nodes));
    proof {
        crate::sigdag::lemma_topo_in_dom(nodes, Seq::empty(), nodes.dom().len());
    }
    let (authorized, audit) = authorize_all(ops, &table, Ghost(nodes), &order, &genesis.founding_admins);
    let (mut members, mut agents) = materialize(ops, &table, Ghost(nodes), &authorized, &genesis.founding_admins);
    apply_removals(ops, &table, Ghost(nodes), &authorized, &mut members, &mut agents);
    cascade(&mut members, &mut agents);
    (AclState { members, agents }, audit)
}

} // verus!
