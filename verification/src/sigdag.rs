//! The signed hash-DAG envelope shared by every replicated plane.
//!
//! A node carries an opaque op, its author, the hashes of its parents and an
//! Ed25519 signature. The signature binds domain ‖ op ‖ author ‖ sorted parents
//! ‖ workspace id, so a valid node cannot be re-parented, replayed across
//! workspaces, or lifted into another plane. A node is named by the BLAKE3
//! hash of its canonical bytes. Replicas order the nodes they hold by a
//! deterministic topological order (smallest ready hash first) and answer
//! ancestry questions by following parent links among the nodes they hold.

use vstd::prelude::*;

use crate::bytes::{canon_keys, contains_key, key_leq, key_lt, sorted_unique_keys, Key32};
use crate::crypto::{
    blake3_hash, blake3_of, ed25519_accepts, ed25519_public_key, ed25519_public_of, ed25519_sign,
    ed25519_verify,
};
use crate::encoding::{framed, keys_bytes, le64, push_all, push_framed, push_keys, push_le64};
use crate::ids::UserId;
use vstd::string::StringSliceAdditionalSpecFns;
use crate::keymap::KeyMap;

verus! {

/// A signed DAG node.
#[derive(Debug, Clone)]
pub struct SignedNode {
    /// The op bytes (opaque to the envelope).
    pub op: Vec<u8>,
    pub author: UserId,
    /// The Ed25519 signature (64 bytes when well formed).
    pub sig: Vec<u8>,
    /// Hashes of the parent nodes.
    pub parents: Vec<Key32>,
}

/// The mathematical content of a node.
pub struct NodeView {
    pub op: Seq<u8>,
    pub author: Key32,
    pub sig: Seq<u8>,
    pub parents: Seq<Key32>,
}

impl View for SignedNode {
    type V = NodeView;

    open spec fn view(&self) -> NodeView {
        NodeView { op: self.op@, author: self.author.0, sig: self.sig@, parents: self.parents@ }
    }
}

pub open spec fn node_views(ops: Seq<SignedNode>) -> Seq<NodeView> {
    ops.map_values(|o: SignedNode| o@)
}

/// The bytes a node's author signs.
pub open spec fn sign_message(domain: Seq<u8>, n: NodeView, ws: Seq<u8>) -> Seq<u8> {
    let ps = canon_keys(n.parents);
    domain + framed(n.op) + n.author@ + le64(ps.len()) + keys_bytes(ps) + framed(ws)
}

/// The canonical bytes of a node, signature included.
pub open spec fn node_bytes(n: NodeView) -> Seq<u8> {
    let ps = canon_keys(n.parents);
    framed(n.op) + n.author@ + le64(ps.len()) + keys_bytes(ps) + framed(n.sig)
}

/// A node's name.
pub open spec fn node_hash(n: NodeView) -> Key32 {
    blake3_of(node_bytes(n))
}

/// Whether a node's signature checks under its author for this plane and workspace.
pub open spec fn sig_valid(domain: Seq<u8>, n: NodeView, ws: Seq<u8>) -> bool {
    n.sig.len() == 64 && ed25519_accepts(n.author@, sign_message(domain, n, ws), n.sig)
}

/// The nodes a replica holds: every signature-valid node, by hash (a later
/// node with the same hash replaces an earlier one).
pub open spec fn node_map(domain: Seq<u8>, ws: Seq<u8>, ops: Seq<NodeView>) -> Map<Key32, NodeView>
    decreases ops.len(),
{
    if ops.len() == 0 {
        Map::empty()
    } else {
        let m = node_map(domain, ws, ops.drop_last());
        let o = ops.last();
        if sig_valid(domain, o, ws) {
            m.insert(node_hash(o), o)
        } else {
            m
        }
    }
}

/// No two distinct signature-valid nodes among `ops` share a hash.
pub open spec fn hashes_distinct(domain: Seq<u8>, ws: Seq<u8>, ops: Set<NodeView>) -> bool {
    forall|a: NodeView, b: NodeView|
        #![trigger ops.contains(a), ops.contains(b)]
        ops.contains(a) && ops.contains(b) && sig_valid(domain, a, ws) && sig_valid(domain, b, ws)
            && node_hash(a) == node_hash(b) ==> a == b
}

/// What a replica holds: exactly the hashes of the signature-valid nodes,
/// each naming its node (when no two valid nodes share a hash).
pub proof fn lemma_node_map(domain: Seq<u8>, ws: Seq<u8>, ops: Seq<NodeView>)
    requires
        hashes_distinct(domain, ws, ops.to_set()),
    ensures
        forall|h: Key32|
            #[trigger] node_map(domain, ws, ops).contains_key(h) <==> exists|i: int|
                0 <= i < ops.len() && sig_valid(domain, ops[i], ws) && node_hash(#[trigger] ops[i])
                    == h,
        forall|i: int|
            0 <= i < ops.len() && sig_valid(domain, #[trigger] ops[i], ws) ==> node_map(
                domain,
                ws,
                ops,
            )[node_hash(ops[i])] == ops[i],
    decreases ops.len(),
{
    if ops.len() > 0 {
        let p = ops.drop_last();
        assert forall|a: NodeView, b: NodeView|
            #![trigger p.to_set().contains(a), p.to_set().contains(b)]
            p.to_set().contains(a) && p.to_set().contains(b) && sig_valid(domain, a, ws) && sig_valid(
                domain,
                b,
                ws,
            ) && node_hash(a) == node_hash(b) implies a == b by {
            let i = choose|i: int| 0 <= i < p.len() && p[i] == a;
            let j = choose|j: int| 0 <= j < p.len() && p[j] == b;
            assert(ops[i] == a && ops[j] == b);
            assert(ops.to_set().contains(a) && ops.to_set().contains(b));
        }
        lemma_node_map(domain, ws, p);
        let o = ops.last();
        let m = node_map(domain, ws, ops);
        let mp = node_map(domain, ws, p);
        assert forall|h: Key32| #[trigger] m.contains_key(h) <==> exists|i: int|
            0 <= i < ops.len() && sig_valid(domain, ops[i], ws) && node_hash(#[trigger] ops[i])
                == h by {
            if m.contains_key(h) {
                if sig_valid(domain, o, ws) && node_hash(o) == h {
                    assert(ops[ops.len() - 1] == o);
                } else {
                    assert(mp.contains_key(h));
                    let i = choose|i: int|
                        0 <= i < p.len() && sig_valid(domain, p[i], ws) && node_hash(#[trigger] p[i])
                            == h;
                    assert(ops[i] == p[i]);
                }
            }
            if exists|i: int|
                0 <= i < ops.len() && sig_valid(domain, ops[i], ws) && node_hash(#[trigger] ops[i])
                    == h {
                let i = choose|i: int|
                    0 <= i < ops.len() && sig_valid(domain, ops[i], ws) && node_hash(#[trigger] ops[i])
                        == h;
                if i < p.len() {
                    assert(p[i] == ops[i]);
                    assert(mp.contains_key(h));
                }
            }
        }
        assert forall|i: int| 0 <= i < ops.len() && sig_valid(domain, #[trigger] ops[i], ws) implies m[node_hash(
            ops[i],
        )] == ops[i] by {
            if i < p.len() {
                assert(p[i] == ops[i]);
                if sig_valid(domain, o, ws) && node_hash(o) == node_hash(ops[i]) {
                    assert(ops.to_set().contains(o) && ops.to_set().contains(ops[i]));
                }
            }
        }
    }
}

/// A replica's holdings depend only on which nodes it was given: not on
/// their order, nor on how often each arrived.
pub proof fn lemma_node_map_order_independent(domain: Seq<u8>, ws: Seq<u8>, a: Seq<NodeView>, b: Seq<NodeView>)
    requires
        a.to_set() == b.to_set(),
        hashes_distinct(domain, ws, a.to_set()),
    ensures
        node_map(domain, ws, a) == node_map(domain, ws, b),
{
    lemma_node_map(domain, ws, a);
    lemma_node_map(domain, ws, b);
    let ma = node_map(domain, ws, a);
    let mb = node_map(domain, ws, b);
    assert forall|h: Key32| ma.contains_key(h) <==> mb.contains_key(h) by {
        if ma.contains_key(h) {
            let i = choose|i: int| 0 <= i < a.len() && sig_valid(domain, a[i], ws) && node_hash(#[trigger] a[i]) == h;
            assert(a.to_set().contains(a[i]));
            assert(b.to_set().contains(a[i]));
            let j = choose|j: int| 0 <= j < b.len() && b[j] == a[i];
            assert(node_hash(b[j]) == h);
        }
        if mb.contains_key(h) {
            let j = choose|j: int| 0 <= j < b.len() && sig_valid(domain, b[j], ws) && node_hash(#[trigger] b[j]) == h;
            assert(b.to_set().contains(b[j]));
            assert(a.to_set().contains(b[j]));
            let i = choose|i: int| 0 <= i < a.len() && a[i] == b[j];
            assert(node_hash(a[i]) == h);
        }
    }
    assert forall|h: Key32| #[trigger] ma.contains_key(h) implies ma[h] == mb[h] by {
        let i = choose|i: int| 0 <= i < a.len() && sig_valid(domain, a[i], ws) && node_hash(#[trigger] a[i]) == h;
        assert(a.to_set().contains(a[i]));
        assert(b.to_set().contains(a[i]));
        let j = choose|j: int| 0 <= j < b.len() && b[j] == a[i];
        assert(mb[node_hash(b[j])] == b[j]);
    }
    assert(ma =~= mb);
}

/// A node whose signature does not check changes nothing a replica holds.
pub proof fn lemma_node_map_invalid(domain: Seq<u8>, ws: Seq<u8>, ops: Seq<NodeView>, bad: NodeView)
    requires
        !sig_valid(domain, bad, ws),
    ensures
        node_map(domain, ws, ops.push(bad)) == node_map(domain, ws, ops),
{
    assert(ops.push(bad).drop_last() =~= ops);
}

impl SignedNode {
    /// The bytes the author signs for this node under `domain` and workspace `ws`.
    pub fn sign_message(&self, domain: &[u8], ws: &[u8]) -> (r: Vec<u8>)
        ensures
            r@ == sign_message(domain@, self@, ws@),
    {
        let ps = sorted_unique_keys(&self.parents);
        let mut m: Vec<u8> = Vec::new();
        push_all(&mut m, domain);
        push_framed(&mut m, self.op.as_slice());
        push_all(&mut m, &self.author.0);
        push_le64(&mut m, ps.len() as u64);
        push_keys(&mut m, &ps);
        push_framed(&mut m, ws);
        m
    }

    /// The node's hash.
    pub fn hash(&self) -> (r: Key32)
        ensures
            r == node_hash(self@),
    {
        let ps = sorted_unique_keys(&self.parents);
        let mut m: Vec<u8> = Vec::new();
        push_framed(&mut m, self.op.as_slice());
        push_all(&mut m, &self.author.0);
        push_le64(&mut m, ps.len() as u64);
        push_keys(&mut m, &ps);
        push_framed(&mut m, self.sig.as_slice());
        blake3_hash(m.as_slice())
    }

    /// Whether the signature checks under the author for `domain` and workspace `ws`.
    pub fn verify_sig(&self, domain: &[u8], ws: &str) -> (r: bool)
        ensures
            r == sig_valid(domain@, self@, ws.spec_bytes()),
    {
        if self.sig.len() != 64 {
            return false;
        }
        let msg = self.sign_message(domain, ws.as_bytes());
        ed25519_verify(&self.author.0, msg.as_slice(), self.sig.as_slice())
    }
}

/// Sign a node: the author is the key of `seed`, and the signature covers
/// `domain`, the op, the author, the parents and the workspace id.
pub fn sign_node(domain: &[u8], seed: &[u8; 32], op: Vec<u8>, parents: Vec<Key32>, ws: &str) -> (r:
    SignedNode)
    ensures
        r@.op == op@,
        r@.parents == parents@,
        r@.author == ed25519_public_of(seed@),
        sig_valid(domain@, r@, ws.spec_bytes()),
{
    let author = UserId(ed25519_public_key(seed));
    let unsigned = SignedNode { op, author, sig: Vec::new(), parents };
    let msg = unsigned.sign_message(domain, ws.as_bytes());
    let sig = ed25519_sign(seed, msg.as_slice());
    let mut sig_bytes: Vec<u8> = Vec::new();
    push_all(&mut sig_bytes, &sig);
    let r = SignedNode { op: unsigned.op, author, sig: sig_bytes, parents: unsigned.parents };
    assert(sig_bytes@ =~= sig@);
    assert(sign_message(domain@, r@, ws.spec_bytes()) == sign_message(
        domain@,
        unsigned@,
        ws.spec_bytes(),
    ));
    r
}

// ---------------------------------------------------------------------------
// The node table
// ---------------------------------------------------------------------------

/// `table` maps each held node's hash to its index in `ops`.
pub open spec fn table_ok(table: KeyMap<usize>, ops: Seq<NodeView>, nodes: Map<Key32, NodeView>) -> bool {
    &&& table.wf()
    &&& table.view().dom() == nodes.dom()
    &&& forall|h: Key32| #[trigger]
        nodes.contains_key(h) ==> table.view()[h] < ops.len() && ops[table.view()[h] as int]
            == nodes[h]
}

/// Index the signature-valid nodes of `ops` by hash.
pub fn index_nodes(domain: &[u8], ws: &str, ops: &[SignedNode]) -> (r: KeyMap<usize>)
    ensures
        table_ok(r, node_views(ops@), node_map(domain@, ws.spec_bytes(), node_views(ops@))),
{
    let ghost views = node_views(ops@);
    let ghost wsb = ws.spec_bytes();
    let mut table: KeyMap<usize> = KeyMap::new();
    let mut i: usize = 0;
    while i < ops.len()
        invariant
            views == node_views(ops@),
            wsb == ws.spec_bytes(),
            0 <= i <= ops@.len(),
            table_ok(table, views, node_map(domain@, wsb, views.subrange(0, i as int))),
        decreases ops@.len() - i,
    {
        let ghost pre = views.subrange(0, i as int);
        let ghost post = views.subrange(0, i + 1);
        assert(post.drop_last() =~= pre);
        assert(post.last() == ops@[i as int]@);
        if ops[i].verify_sig(domain, ws) {
            let h = ops[i].hash();
            table.insert(h, i);
        }
        i = i + 1;
    }
    assert(views.subrange(0, i as int) =~= views);
    table
}

// ---------------------------------------------------------------------------
// Deterministic topological order
// ---------------------------------------------------------------------------

/// `h` is held, not yet emitted, and every held parent of it has been emitted.
pub open spec fn ready(nodes: Map<Key32, NodeView>, done: Seq<Key32>, h: Key32) -> bool {
    &&& nodes.contains_key(h)
    &&& !done.contains(h)
    &&& forall|j: int|
        0 <= j < nodes[h].parents.len() && nodes.contains_key(#[trigger] nodes[h].parents[j])
            ==> done.contains(nodes[h].parents[j])
}

/// `h` is the smallest ready hash.
pub open spec fn is_next(nodes: Map<Key32, NodeView>, done: Seq<Key32>, h: Key32) -> bool {
    ready(nodes, done, h) && forall|g: Key32| #[trigger] ready(nodes, done, g) ==> key_leq(h, g)
}

pub open spec fn topo_steps(nodes: Map<Key32, NodeView>, done: Seq<Key32>, fuel: nat) -> Seq<Key32>
    decreases fuel,
{
    if fuel == 0 || !(exists|h: Key32| is_next(nodes, done, h)) {
        done
    } else {
        topo_steps(nodes, done.push(choose|h: Key32| is_next(nodes, done, h)), (fuel - 1) as nat)
    }
}

/// The deterministic topological order: repeatedly emit the smallest ready
/// hash. (Nodes on a parent cycle, which hashing rules out, are never emitted.)
pub open spec fn topo_order(nodes: Map<Key32, NodeView>) -> Seq<Key32> {
    topo_steps(nodes, Seq::empty(), nodes.dom().len())
}

/// Every hash in the topological order is a held node.
pub proof fn lemma_topo_in_dom(nodes: Map<Key32, NodeView>, done: Seq<Key32>, fuel: nat)
    requires
        forall|i: int| 0 <= i < done.len() ==> nodes.contains_key(#[trigger] done[i]),
    ensures
        forall|i: int|
            0 <= i < topo_steps(nodes, done, fuel).len() ==> nodes.contains_key(
                #[trigger] topo_steps(nodes, done, fuel)[i],
            ),
    decreases fuel,
{
    if fuel == 0 || !(exists|h: Key32| is_next(nodes, done, h)) {
        assert(topo_steps(nodes, done, fuel) == done);
    } else {
        let h = choose|h: Key32| is_next(nodes, done, h);
        let d2 = done.push(h);
        assert(ready(nodes, done, h));
        assert forall|i: int| 0 <= i < d2.len() implies nodes.contains_key(#[trigger] d2[i]) by {
            if i < done.len() {
                assert(d2[i] == done[i]);
            }
        }
        lemma_topo_in_dom(nodes, d2, (fuel - 1) as nat);
        assert(topo_steps(nodes, done, fuel) == topo_steps(nodes, d2, (fuel - 1) as nat));
    }
}

pub proof fn lemma_next_unique(nodes: Map<Key32, NodeView>, done: Seq<Key32>, h: Key32, g: Key32)
    requires
        is_next(nodes, done, h),
        is_next(nodes, done, g),
    ensures
        h == g,
{
    assert(key_leq(h, g) && key_leq(g, h));
    if h != g {
        crate::bytes::lemma_lex_asymmetric(h@, g@);
    }
}

/// Whether every held parent of the node at `idx` is in `done`.
fn parents_done(ops: &[SignedNode], table: &KeyMap<usize>, idx: usize, done: &Vec<Key32>) -> (r: bool)
    requires
        table.wf(),
        idx < ops@.len(),
    ensures
        r == (forall|j: int|
            0 <= j < ops@[idx as int].parents@.len() && table.view().contains_key(
                #[trigger] ops@[idx as int].parents@[j],
            ) ==> done@.contains(ops@[idx as int].parents@[j])),
{
    let ps = &ops[idx].parents;
    let mut j: usize = 0;
    while j < ps.len()
        invariant
            table.wf(),
            ps@ == ops@[idx as int].parents@,
            0 <= j <= ps@.len(),
            forall|k: int|
                0 <= k < j && table.view().contains_key(#[trigger] ps@[k]) ==> done@.contains(ps@[k]),
        decreases ps@.len() - j,
    {
        if table.contains(&ps[j]) && !contains_key(done, &ps[j]) {
            return false;
        }
        j = j + 1;
    }
    true
}

/// The deterministic topological order of the held nodes.
pub fn topo_order_of(ops: &[SignedNode], table: &KeyMap<usize>, Ghost(nodes): Ghost<Map<Key32, NodeView>>) -> (r: Vec<Key32>)
    requires
        table_ok(*table, node_views(ops@), nodes),
    ensures
        r@ == topo_order(nodes),
{
    let ghost views = node_views(ops@);
    let entries = table.to_vec();
    let n = table.len();
    proof {
        table.lemma_entries();
    }
    let mut done: Vec<Key32> = Vec::new();
    let mut k: usize = 0;
    while k < n
        invariant
            table_ok(*table, views, nodes),
            views == node_views(ops@),
            n == nodes.dom().len(),
            crate::keymap::entries_sorted(entries@),
            crate::keymap::map_of(entries@) == table.view(),
            0 <= k <= n,
            topo_order(nodes) == topo_steps(nodes, done@, (n - k) as nat),
        decreases n - k,
    {
        // Scan the entries in increasing hash order for the first ready node.
        let mut i: usize = 0;
        let mut found = false;
        while !found && i < entries.len()
            invariant
                table_ok(*table, views, nodes),
                views == node_views(ops@),
                crate::keymap::entries_sorted(entries@),
                crate::keymap::map_of(entries@) == table.view(),
                0 <= i <= entries@.len(),
                forall|j: int| 0 <= j < i ==> !ready(nodes, done@, #[trigger] entries@[j].0),
                found ==> i < entries@.len() && ready(nodes, done@, entries@[i as int].0),
            decreases entries@.len() - i + (if found { 0int } else { 1int }),
        {
            let h = entries[i].0;
            let idx = entries[i].1;
            proof {
                crate::keymap::lemma_map_of_index(entries@, i as int);
            }
            if !contains_key(&done, &h) && parents_done(ops, table, idx, &done) {
                proof {
                    assert(nodes.contains_key(h));
                    assert(ops@[idx as int]@ == nodes[h]);
                }
                found = true;
            } else {
                proof {
                    if ready(nodes, done@, h) {
                        assert(ops@[idx as int]@ == nodes[h]);
                        let j = choose|j: int|
                            0 <= j < ops@[idx as int].parents@.len() && table.view().contains_key(
                                #[trigger] ops@[idx as int].parents@[j],
                            ) && !done@.contains(ops@[idx as int].parents@[j]);
                        assert(nodes[h].parents[j] == ops@[idx as int].parents@[j]);
                    }
                }
                i = i + 1;
            }
        }
        if !found {
            proof {
                assert forall|g: Key32| !#[trigger] is_next(nodes, done@, g) by {
                    if is_next(nodes, done@, g) {
                        assert(table.view().contains_key(g));
                        assert(crate::keymap::map_of(entries@).contains_key(g));
                        assert(crate::keymap::has_key(entries@, g));
                        let j = choose|j: int| 0 <= j < entries@.len() && #[trigger] entries@[j].0 == g;
                        assert(!ready(nodes, done@, entries@[j].0));
                    }
                }
            }
            return done;
        }
        let h = entries[i].0;
        proof {
            assert forall|g: Key32| #[trigger] ready(nodes, done@, g) implies key_leq(h, g) by {
                assert(table.view().contains_key(g));
                assert(crate::keymap::map_of(entries@).contains_key(g));
                assert(crate::keymap::has_key(entries@, g));
                let j = choose|j: int| 0 <= j < entries@.len() && #[trigger] entries@[j].0 == g;
                if j < i {
                    assert(!ready(nodes, done@, entries@[j].0));
                } else if j > i {
                    assert(key_lt(entries@[i as int].0, entries@[j].0));
                }
            }
            assert(is_next(nodes, done@, h));
            let c = choose|c: Key32| is_next(nodes, done@, c);
            lemma_next_unique(nodes, done@, h, c);
        }
        done.push(h);
        k = k + 1;
    }
    done
}

// ---------------------------------------------------------------------------
// Ancestry
// ---------------------------------------------------------------------------

/// A chain of held nodes, each the parent of the one before it.
pub open spec fn is_parent_path(nodes: Map<Key32, NodeView>, p: Seq<Key32>) -> bool {
    &&& p.len() >= 2
    &&& forall|i: int| 0 <= i < p.len() ==> nodes.contains_key(#[trigger] p[i])
    &&& forall|i: int| 0 <= i < p.len() - 1 ==> nodes[#[trigger] p[i]].parents.contains(p[i + 1])
}

/// `r` is an ancestor of `a`: a chain of parent links among held nodes leads from `a` to `r`.
pub open spec fn is_ancestor(nodes: Map<Key32, NodeView>, r: Key32, a: Key32) -> bool {
    exists|p: Seq<Key32>| #[trigger] is_parent_path(nodes, p) && p[0] == a && p.last() == r
}

/// Every ancestor of `a` lies in `s`, when `s` holds the held parents of `a`
/// and the held parents of each of its own members.
proof fn lemma_closed_holds_ancestors(nodes: Map<Key32, NodeView>, s: Set<Key32>, a: Key32, r: Key32)
    requires
        is_ancestor(nodes, r, a),
        forall|p: Key32|
            nodes.contains_key(a) && nodes[a].parents.contains(p) && nodes.contains_key(p)
                ==> s.contains(p),
        forall|x: Key32, p: Key32|
            #[trigger] s.contains(x) && nodes.contains_key(x) && nodes[x].parents.contains(p)
                && nodes.contains_key(p) ==> #[trigger] s.contains(p),
    ensures
        s.contains(r),
{
    let path = choose|p: Seq<Key32>| #[trigger] is_parent_path(nodes, p) && p[0] == a && p.last() == r;
    lemma_path_in_closed(nodes, s, path, path.len() - 1);
}

proof fn lemma_path_in_closed(nodes: Map<Key32, NodeView>, s: Set<Key32>, path: Seq<Key32>, i: int)
    requires
        is_parent_path(nodes, path),
        1 <= i < path.len(),
        forall|p: Key32|
            nodes.contains_key(path[0]) && nodes[path[0]].parents.contains(p) && nodes.contains_key(p)
                ==> s.contains(p),
        forall|x: Key32, p: Key32|
            #[trigger] s.contains(x) && nodes.contains_key(x) && nodes[x].parents.contains(p)
                && nodes.contains_key(p) ==> #[trigger] s.contains(p),
    ensures
        s.contains(path[i]),
    decreases i,
{
    assert(nodes[path[i - 1]].parents.contains(path[i]));
    assert(nodes.contains_key(path[i]));
    assert(nodes.contains_key(path[i - 1]));
    if i > 1 {
        lemma_path_in_closed(nodes, s, path, i - 1);
    }
}

proof fn lemma_extend_path(nodes: Map<Key32, NodeView>, a: Key32, x: Key32, p: Key32)
    requires
        x == a || is_ancestor(nodes, x, a),
        nodes.contains_key(x),
        nodes.contains_key(a),
        nodes[x].parents.contains(p),
        nodes.contains_key(p),
    ensures
        is_ancestor(nodes, p, a),
{
    if x == a {
        let path = seq![a, p];
        assert(is_parent_path(nodes, path));
    } else {
        let q = choose|q: Seq<Key32>| #[trigger] is_parent_path(nodes, q) && q[0] == a && q.last() == x;
        let path = q.push(p);
        assert(path[q.len() - 1] == x);
        assert(is_parent_path(nodes, path)) by {
            assert forall|i: int| 0 <= i < path.len() - 1 implies nodes[#[trigger] path[i]].parents.contains(path[i + 1]) by {
                if i < q.len() - 1 {
                    assert(path[i] == q[i] && path[i + 1] == q[i + 1]);
                }
            }
        }
        assert(path[0] == a && path.last() == p);
    }
}

/// Add the held parents of the node at `idx` that `visited` lacks; report whether any was added.
fn add_parents(ops: &[SignedNode], table: &KeyMap<usize>, idx: usize, visited: &mut KeyMap<()>) -> (changed: bool)
    requires
        table.wf(),
        old(visited).wf(),
        idx < ops@.len(),
    ensures
        final(visited).wf(),
        final(visited).view().dom() == old(visited).view().dom().union(
            ops@[idx as int].parents@.to_set().filter(|p: Key32| table.view().contains_key(p)),
        ),
        changed == (final(visited).view().dom() != old(visited).view().dom()),
{
    let ghost start = visited.view().dom();
    let ps = &ops[idx].parents;
    let mut changed = false;
    let mut j: usize = 0;
    while j < ps.len()
        invariant
            table.wf(),
            visited.wf(),
            ps@ == ops@[idx as int].parents@,
            0 <= j <= ps@.len(),
            visited.view().dom() == start.union(
                ps@.subrange(0, j as int).to_set().filter(|p: Key32| table.view().contains_key(p)),
            ),
            changed == (visited.view().dom() != start),
        decreases ps@.len() - j,
    {
        let p = ps[j];
        let ghost before = visited.view().dom();
        proof {
            assert(ps@.subrange(0, j + 1) =~= ps@.subrange(0, j as int).push(p));
            ps@.subrange(0, j as int).lemma_push_to_set_commute(p);
        }
        if table.contains(&p) {
            if !visited.contains(&p) {
                visited.insert(p, ());
                changed = true;
                assert(visited.view().dom().contains(p) && !start.contains(p));
            }
            assert(visited.view().dom() =~= start.union(
                ps@.subrange(0, j + 1).to_set().filter(|p: Key32| table.view().contains_key(p)),
            ));
        } else {
            assert(visited.view().dom() =~= start.union(
                ps@.subrange(0, j + 1).to_set().filter(|p: Key32| table.view().contains_key(p)),
            ));
        }
        j = j + 1;
    }
    assert(ps@.subrange(0, j as int) =~= ps@);
    changed
}

/// Whether `r` is an ancestor of `a` among the held nodes.
pub fn ancestor_of(ops: &[SignedNode], table: &KeyMap<usize>, Ghost(nodes): Ghost<Map<Key32, NodeView>>, r: &Key32, a: &Key32) -> (res: bool)
    requires
        table_ok(*table, node_views(ops@), nodes),
    ensures
        res == is_ancestor(nodes, *r, *a),
{
    let ghost views = node_views(ops@);
    let a_idx = match table.get(a) {
        Some(i) => i,
        None => {
            proof {
                if is_ancestor(nodes, *r, *a) {
                    let p = choose|p: Seq<Key32>| #[trigger] is_parent_path(nodes, p) && p[0] == *a && p.last() == *r;
                    assert(nodes.contains_key(p[0]));
                }
            }
            return false;
        },
    };
    proof {
        table.lemma_entries();
        table.lemma_dom_finite();
    }
    let mut visited: KeyMap<()> = KeyMap::new();
    loop
        invariant_except_break
            table_ok(*table, views, nodes),
            views == node_views(ops@),
            nodes.contains_key(*a),
            a_idx == table.view()[*a],
            visited.wf(),
            nodes.dom().finite(),
            visited.view().dom().subset_of(nodes.dom()),
            forall|y: Key32| #[trigger] visited.view().dom().contains(y) ==> is_ancestor(nodes, y, *a),
        ensures
            visited.wf(),
            forall|y: Key32| #[trigger] visited.view().dom().contains(y) ==> is_ancestor(nodes, y, *a),
            forall|p: Key32|
                nodes[*a].parents.contains(p) && nodes.contains_key(p) ==> visited.view().dom().contains(p),
            forall|x: Key32, p: Key32|
                #[trigger] visited.view().dom().contains(x) && nodes.contains_key(x)
                    && nodes[x].parents.contains(p) && nodes.contains_key(p)
                    ==> #[trigger] visited.view().dom().contains(p),
        decreases nodes.dom().len() - visited.view().dom().len(),
    {
        let ghost start = visited.view().dom();
        let mut changed = add_parents(ops, table, a_idx, &mut visited);
        proof {
            assert(ops@[a_idx as int]@ == nodes[*a]);
            assert forall|y: Key32| #[trigger] visited.view().dom().contains(y) implies is_ancestor(nodes, y, *a) by {
                if !start.contains(y) {
                    assert(ops@[a_idx as int].parents@.contains(y));
                    lemma_extend_path(nodes, *a, *a, y);
                }
            }
        }
        let ghost mid = visited.view().dom();
        let snapshot = visited.to_vec();
        let mut i: usize = 0;
        while i < snapshot.len()
            invariant
                table_ok(*table, views, nodes),
                views == node_views(ops@),
                nodes.contains_key(*a),
                visited.wf(),
                crate::keymap::entries_sorted(snapshot@),
                crate::keymap::map_of(snapshot@).dom() == mid,
                start.subset_of(mid),
                mid.subset_of(visited.view().dom()),
                visited.view().dom().subset_of(nodes.dom()),
                forall|y: Key32| #[trigger] visited.view().dom().contains(y) ==> is_ancestor(nodes, y, *a),
                changed ==> (visited.view().dom() != start),
                forall|p: Key32|
                    nodes[*a].parents.contains(p) && nodes.contains_key(p) ==> visited.view().dom().contains(p),
                0 <= i <= snapshot@.len(),
                !changed ==> visited.view().dom() == start,
                forall|m: int, p: Key32|
                    #![trigger nodes[snapshot@[m].0].parents.contains(p)]
                    0 <= m < i && nodes[snapshot@[m].0].parents.contains(p) && nodes.contains_key(p)
                        ==> visited.view().dom().contains(p),
            decreases snapshot@.len() - i,
        {
            let x = snapshot[i].0;
            proof {
                crate::keymap::lemma_map_of_index(snapshot@, i as int);
            }
            let xi = match table.get(&x) {
                Some(xi) => xi,
                None => {
                    proof {
                        assert(false);
                    }
                    0
                },
            };
            let ghost before = visited.view().dom();
            let c = add_parents(ops, table, xi, &mut visited);
            proof {
                assert(ops@[xi as int]@ == nodes[x]);
                assert forall|y: Key32| #[trigger] visited.view().dom().contains(y) implies is_ancestor(nodes, y, *a) by {
                    if !before.contains(y) {
                        assert(ops@[xi as int].parents@.contains(y));
                        lemma_extend_path(nodes, *a, x, y);
                    }
                }
                if c {
                    assert(visited.view().dom() != start) by {
                        if visited.view().dom() == start {
                            assert(before.subset_of(visited.view().dom()));
                            assert(visited.view().dom() =~= before);
                        }
                    }
                } else if !changed {
                    assert(visited.view().dom() =~= before);
                }
            }
            changed = changed || c;
            i = i + 1;
        }
        if !changed {
            proof {
                assert forall|x: Key32, p: Key32|
                    #[trigger] visited.view().dom().contains(x) && nodes.contains_key(x)
                        && nodes[x].parents.contains(p) && nodes.contains_key(p)
                        implies #[trigger] visited.view().dom().contains(p) by {
                    assert(mid.contains(x));
                    assert(crate::keymap::map_of(snapshot@).dom().contains(x));
                    assert(crate::keymap::has_key(snapshot@, x));
                    let m = choose|m: int| 0 <= m < snapshot@.len() && #[trigger] snapshot@[m].0 == x;
                    assert(nodes[snapshot@[m].0].parents.contains(p));
                }
            }
            break ;
        }
        proof {
            vstd::set_lib::lemma_len_subset(start, visited.view().dom());
            vstd::set_lib::lemma_len_subset(visited.view().dom(), nodes.dom());
            assert(start.subset_of(visited.view().dom()));
            if visited.view().dom().len() == start.len() {
                vstd::set_lib::lemma_subset_equality(start, visited.view().dom());
            }
        }
    }
    let res = visited.contains(r);
    proof {
        if is_ancestor(nodes, *r, *a) {
            lemma_closed_holds_ancestors(nodes, visited.view().dom(), *a, *r);
        }
    }
    res
}

} // verus!
