//! The spaces picker's identity seam: which registered stores belong to an
//! identity, and the stable public id of a store path.
//!
//! Identity is global by default: one key spans every repo-bound store. The
//! exception is a self-contained home (`$LAIT_HOME`, and every named agent),
//! which holds its own key. So a global identity owns every registered store
//! except the self-contained homes under the agents base, and a self-contained
//! identity owns exactly its own home.

use vstd::prelude::*;

use crate::crypto::{blake3_hash, blake3_of};
use crate::encoding::{hex_string, hex_text};
use crate::text::{chars_of, same_text, string_of, to_lowercase, unicode_lowercase};
use crate::tui::Doorbell;
use vstd::string::StringSliceAdditionalSpecFns;

verus! {

/// How a store came to be registered.
#[derive(Debug, Clone, Copy, PartialEq, Eq)]
pub enum Origin {
    Founded,
    Joined,
}

/// One registered store.
#[derive(Debug, Clone)]
pub struct WorkspaceEntry {
    /// The `ws_…` workspace id.
    pub workspace: String,
    /// Display name at last open.
    pub name: String,
    /// The store's home directory.
    pub path: String,
    pub origin: Origin,
    pub host_nick: String,
    pub last_opened: u64,
}

/// A stable public id for a store path: the first 16 hex characters of the
/// BLAKE3 digest of the path's bytes.
pub fn space_id(path: &str) -> (r: String)
    ensures
        r@ == hex_text(blake3_of(path.spec_bytes())@).subrange(0, 16),
{
    let digest = blake3_hash(path.as_bytes());
    let full = hex_string(&digest);
    let cs = chars_of(full.as_str());
    let mut out: Vec<char> = Vec::new();
    let mut i: usize = 0;
    while i < 16
        invariant
            cs@ == hex_text(digest@),
            cs@.len() == 64,
            0 <= i <= 16,
            out@ == cs@.subrange(0, i as int),
        decreases 16 - i,
    {
        out.push(cs[i]);
        assert(out@ =~= cs@.subrange(0, i + 1));
        i = i + 1;
    }
    string_of(out.as_slice())
}

/// Whether `std::path::Path::starts_with` holds: `base`'s components are a
/// prefix of `path`'s, by the path rules of the platform the library is built
/// for.
pub uninterp spec fn path_starts_with(path: Seq<char>, base: Seq<char>) -> bool;

/// `Path::new(path).starts_with(Path::new(base))`. Claimed: the result is
/// `path_starts_with(path@, base@)`.
#[verifier::external_body]
fn starts_with_path(path: &str, base: &str) -> (r: bool)
    ensures
        r == path_starts_with(path@, base@),
{
    std::path::Path::new(path).starts_with(std::path::Path::new(base))
}

/// Backslashes as forward slashes.
pub open spec fn forward_slashes(s: Seq<char>) -> Seq<char> {
    s.map_values(|c: char| if c == '\\' { '/' } else { c })
}

/// Without trailing slashes.
pub open spec fn trim_slashes(s: Seq<char>) -> Seq<char>
    decreases s.len(),
{
    if s.len() > 0 && s.last() == '/' {
        trim_slashes(s.drop_last())
    } else {
        s
    }
}

/// The shape a registry path is compared in: separators unified, trailing
/// slashes dropped, and on Windows, whose file system ignores case, the
/// Unicode lowercase of that.
pub open spec fn normalized(s: Seq<char>, windows: bool) -> Seq<char> {
    if windows {
        unicode_lowercase(trim_slashes(forward_slashes(s)))
    } else {
        trim_slashes(forward_slashes(s))
    }
}

/// Normalize a path for comparison: backslashes become `/`, trailing slashes
/// are dropped, and on Windows (`windows`) the result is lowercased.
pub fn normalize(p: &str, windows: bool) -> (r: String)
    ensures
        r@ == normalized(p@, windows),
{
    let cs = chars_of(p);
    let mut out: Vec<char> = Vec::new();
    let mut i: usize = 0;
    while i < cs.len()
        invariant
            0 <= i <= cs@.len(),
            out@ == forward_slashes(cs@.subrange(0, i as int)),
        decreases cs@.len() - i,
    {
        let c = cs[i];
        out.push(if c == '\\' { '/' } else { c });
        assert(out@ =~= forward_slashes(cs@.subrange(0, i + 1)));
        i = i + 1;
    }
    assert(cs@.subrange(0, i as int) =~= cs@);
    let ghost full = out@;
    while out.len() > 0 && out[out.len() - 1] == '/'
        invariant
            trim_slashes(out@) == trim_slashes(full),
        decreases out@.len(),
    {
        let ghost before = out@;
        out.pop();
        assert(out@ =~= before.drop_last());
    }
    let trimmed = string_of(out.as_slice());
    if windows {
        to_lowercase(trimmed.as_str())
    } else {
        trimmed
    }
}

/// Path equality that survives separator drift.
pub fn same_path(a: &str, b: &str, windows: bool) -> (r: bool)
    ensures
        r == (normalized(a@, windows) == normalized(b@, windows)),
{
    let na = normalize(a, windows);
    let nb = normalize(b, windows);
    same_text(na.as_str(), nb.as_str())
}

/// Whether `path` lies under `base`, component-wise, once both are
/// normalized.
pub fn under(path: &str, base: &str, windows: bool) -> (r: bool)
    ensures
        r == path_starts_with(normalized(path@, windows), normalized(base@, windows)),
{
    let p = normalize(path, windows);
    let b = normalize(base, windows);
    starts_with_path(p.as_str(), b.as_str())
}

/// Whether `path` belongs to the identity.
pub open spec fn owned(
    path: Seq<char>,
    identity: Seq<char>,
    agents_base: Seq<char>,
    self_contained: bool,
    windows: bool,
) -> bool {
    if self_contained {
        normalized(path, windows) == normalized(identity, windows)
    } else {
        !path_starts_with(normalized(path, windows), normalized(agents_base, windows))
    }
}

/// The entries an identity owns, in registry order.
pub open spec fn scoped(
    entries: Seq<WorkspaceEntry>,
    identity: Seq<char>,
    agents_base: Seq<char>,
    self_contained: bool,
    windows: bool,
) -> Seq<WorkspaceEntry>
    decreases entries.len(),
{
    if entries.len() == 0 {
        Seq::empty()
    } else {
        let rest = scoped(entries.drop_last(), identity, agents_base, self_contained, windows);
        if owned(entries.last().path@, identity, agents_base, self_contained, windows) {
            rest.push(entries.last())
        } else {
            rest
        }
    }
}

pub open spec fn derefs<'a>(v: Seq<&'a WorkspaceEntry>) -> Seq<WorkspaceEntry> {
    v.map_values(|e: &'a WorkspaceEntry| *e)
}

/// Which registered spaces belong to `identity`: a self-contained identity
/// owns exactly its own home; the global identity owns everything except the
/// homes under `agents_base`. Paths are compared normalized; with `windows`
/// (the host's file system ignores case) they are compared lowercased, so a
/// registry entry spelled in another case still names the same home.
pub fn scope<'a>(
    entries: &'a [WorkspaceEntry],
    identity: &str,
    agents_base: &str,
    self_contained: bool,
    windows: bool,
) -> (r: Vec<&'a WorkspaceEntry>)
    ensures
        derefs(r@) == scoped(entries@, identity@, agents_base@, self_contained, windows),
{
    let mut out: Vec<&'a WorkspaceEntry> = Vec::new();
    let mut i: usize = 0;
    while i < entries.len()
        invariant
            0 <= i <= entries@.len(),
            derefs(out@) == scoped(
                entries@.subrange(0, i as int),
                identity@,
                agents_base@,
                self_contained,
                windows,
            ),
        decreases entries@.len() - i,
    {
        let ghost pre = entries@.subrange(0, i as int);
        let ghost post = entries@.subrange(0, i + 1);
        assert(post.drop_last() =~= pre);
        assert(post.last() == entries@[i as int]);
        let e = &entries[i];
        let keep = if self_contained {
            same_path(e.path.as_str(), identity, windows)
        } else {
            !under(e.path.as_str(), agents_base, windows)
        };
        if keep {
            let ghost before = out@;
            out.push(e);
            assert(derefs(out@) =~= derefs(before).push(*e));
        }
        i = i + 1;
    }
    assert(entries@.subrange(0, i as int) =~= entries@);
    out
}

/// The scoped entry a public space id names: the first owned entry whose
/// path has that id.
pub open spec fn resolves_to(
    entries: Seq<WorkspaceEntry>,
    identity: Seq<char>,
    agents_base: Seq<char>,
    self_contained: bool,
    windows: bool,
    id: Seq<char>,
    k: int,
) -> bool {
    let s = scoped(entries, identity, agents_base, self_contained, windows);
    &&& 0 <= k < s.len()
    &&& space_id_text(s[k].path@) == id
    &&& forall|j: int| 0 <= j < k ==> space_id_text(#[trigger] s[j].path@) != id
}

/// The public id of a path, as text.
pub open spec fn space_id_text(path: Seq<char>) -> Seq<char> {
    hex_text(blake3_of(vstd::utf8::encode_utf8(path))@).subrange(0, 16)
}

/// Resolve a public space id to its home, scoped to this identity: an id
/// belonging to another identity is indistinguishable from one that does not
/// exist.
pub fn resolve_space(
    entries: &[WorkspaceEntry],
    identity: &str,
    agents_base: &str,
    self_contained: bool,
    windows: bool,
    id: &str,
) -> (r: Option<String>)
    ensures
        match r {
            Some(p) => exists|k: int|
                resolves_to(entries@, identity@, agents_base@, self_contained, windows, id@, k) && p@
                    == scoped(entries@, identity@, agents_base@, self_contained, windows)[k].path@,
            None => forall|k: int|
                !resolves_to(entries@, identity@, agents_base@, self_contained, windows, id@, k),
        },
{
    let owned = scope(entries, identity, agents_base, self_contained, windows);
    let ghost s = scoped(entries@, identity@, agents_base@, self_contained, windows);
    let mut i: usize = 0;
    while i < owned.len()
        invariant
            s == scoped(entries@, identity@, agents_base@, self_contained, windows),
            derefs(owned@) == s,
            0 <= i <= owned@.len(),
            forall|j: int| 0 <= j < i ==> space_id_text(#[trigger] s[j].path@) != id@,
        decreases owned@.len() - i,
    {
        let sid = space_id(owned[i].path.as_str());
        assert(s[i as int] == *owned@[i as int]);
        assert(sid@ == space_id_text(s[i as int].path@));
        if same_text(sid.as_str(), id) {
            assert(resolves_to(entries@, identity@, agents_base@, self_contained, windows, id@, i as int));
            return Some(owned[i].path.clone());
        }
        i = i + 1;
    }
    assert forall|k: int| !resolves_to(entries@, identity@, agents_base@, self_contained, windows, id@, k) by {
        if 0 <= k < s.len() {
            assert(space_id_text(s[k].path@) != id@);
        }
    }
    None
}

/// What probing a store's daemon found.
#[derive(Debug, Clone, Copy, PartialEq, Eq, Structural)]
pub enum SpaceStatus {
    /// The daemon answered.
    Up,
    /// The store is there but its daemon did not answer in time.
    Idle,
    /// The store is gone from disk.
    Missing,
}

impl SpaceStatus {
    /// The status as `lait spaces` reports it.
    pub fn as_str(&self) -> (r: &'static str)
        ensures
            r@ == match *self {
                SpaceStatus::Up => "up"@,
                SpaceStatus::Idle => "idle"@,
                SpaceStatus::Missing => "missing"@,
            },
    {
        match self {
            SpaceStatus::Up => "up",
            SpaceStatus::Idle => "idle",
            SpaceStatus::Missing => "missing",
        }
    }
}

/// A store's status from what was observed: whether its directory is present
/// and whether its daemon answered a short status probe (a probe that times
/// out fails closed to `Idle`).
pub fn probe_status(present: bool, answered: bool) -> (r: SpaceStatus)
    ensures
        !present ==> r == SpaceStatus::Missing,
        present && answered ==> r == SpaceStatus::Up,
        present && !answered ==> r == SpaceStatus::Idle,
{
    if !present {
        return SpaceStatus::Missing;
    }
    if answered {
        SpaceStatus::Up
    } else {
        SpaceStatus::Idle
    }
}

/// One row of the spaces picker.
#[derive(Debug, Clone)]
pub struct SpaceRow {
    /// The stable public id of the store path (see `space_id`).
    pub id: String,
    pub workspace: String,
    pub name: String,
    pub path: String,
    pub origin: Origin,
    pub last_opened: u64,
    pub status: SpaceStatus,
}

/// A picker row as values.
pub struct RowView {
    pub id: Seq<char>,
    pub workspace: Seq<char>,
    pub name: Seq<char>,
    pub path: Seq<char>,
    pub origin: Origin,
    pub last_opened: u64,
    pub status: SpaceStatus,
}

pub open spec fn row_view(r: SpaceRow) -> RowView {
    RowView {
        id: r.id@,
        workspace: r.workspace@,
        name: r.name@,
        path: r.path@,
        origin: r.origin,
        last_opened: r.last_opened,
        status: r.status,
    }
}

pub open spec fn row_views(rows: Seq<SpaceRow>) -> Seq<RowView> {
    rows.map_values(|x: SpaceRow| row_view(x))
}

/// The row a registered store shows as, with its probed status.
pub open spec fn row_of(e: WorkspaceEntry, status: SpaceStatus) -> RowView {
    RowView {
        id: space_id_text(e.path@),
        workspace: e.workspace@,
        name: e.name@,
        path: e.path@,
        origin: e.origin,
        last_opened: e.last_opened,
        status,
    }
}

/// Newest first: `last_opened` never increases along the sequence.
pub open spec fn newest_first(rows: Seq<SpaceRow>) -> bool {
    forall|a: int, b: int|
        0 <= a < b < rows.len() ==> #[trigger] rows[a].last_opened >= #[trigger] rows[b].last_opened
}

/// The picker's rows: one per scoped store, with its status and public id,
/// newest first. Stores opened at the same time keep no stated order (the
/// probes finish in any order).
pub fn space_rows(scoped: &Vec<&WorkspaceEntry>, statuses: &Vec<SpaceStatus>) -> (r: Vec<
    SpaceRow,
>)
    requires
        scoped@.len() == statuses@.len(),
    ensures
        r@.len() == scoped@.len(),
        newest_first(r@),
        row_views(r@).to_multiset() == Seq::new(
            scoped@.len(),
            |i: int| row_of(*scoped@[i], statuses@[i]),
        ).to_multiset(),
{
    let ghost want = Seq::new(scoped@.len(), |i: int| row_of(*scoped@[i], statuses@[i]));
    let mut out: Vec<SpaceRow> = Vec::new();
    let mut i: usize = 0;
    assert(row_views(out@) =~= want.subrange(0, 0));
    while i < scoped.len()
        invariant
            0 <= i <= scoped@.len(),
            scoped@.len() == statuses@.len(),
            want == Seq::new(scoped@.len(), |i: int| row_of(*scoped@[i], statuses@[i])),
            out@.len() == i,
            newest_first(out@),
            row_views(out@).to_multiset() == want.subrange(0, i as int).to_multiset(),
        decreases scoped@.len() - i,
    {
        let e = scoped[i];
        let row = SpaceRow {
            id: space_id(e.path.as_str()),
            workspace: e.workspace.clone(),
            name: e.name.clone(),
            path: e.path.clone(),
            origin: e.origin,
            last_opened: e.last_opened,
            status: statuses[i],
        };
        assert(row.id@ == space_id_text(row.path@));
        let mut j: usize = 0;
        while j < out.len() && out[j].last_opened >= row.last_opened
            invariant
                0 <= j <= out@.len(),
                newest_first(out@),
                forall|k: int| 0 <= k < j ==> #[trigger] out@[k].last_opened >= row.last_opened,
            decreases out@.len() - j,
        {
            j = j + 1;
        }
        let ghost before = out@;
        let ghost wrow = row_of(*scoped@[i as int], statuses@[i as int]);
        assert(row_view(row) == wrow);
        out.insert(j, row);
        proof {
            assert(out@ == before.insert(j as int, row));
            assert forall|a: int, b: int| 0 <= a < b < out@.len() implies #[trigger] out@[a].last_opened
                >= #[trigger] out@[b].last_opened by {
                if b < j {
                    assert(out@[a] == before[a] && out@[b] == before[b]);
                } else if b == j {
                    assert(out@[a] == before[a]);
                } else if a == j {
                    assert(out@[b] == before[b - 1]);
                } else if a < j {
                    assert(out@[a] == before[a] && out@[b] == before[b - 1]);
                } else {
                    assert(out@[a] == before[a - 1] && out@[b] == before[b - 1]);
                }
            }
            assert(row_views(out@) =~= row_views(before).insert(j as int, wrow));
            assert(want.subrange(0, i + 1) =~= want.subrange(0, i as int).push(wrow));
            vstd::seq_lib::to_multiset_build(want.subrange(0, i as int), wrow);
            vstd::seq_lib::to_multiset_insert(row_views(before), j as int, wrow);
        }
        i = i + 1;
    }
    assert(want.subrange(0, i as int) =~= want);
    out
}

/// The home attached under `id`: the first entry for it.
pub open spec fn home_in(s: Seq<(String, String)>, id: Seq<char>) -> Option<Seq<char>>
    decreases s.len(),
{
    if s.len() == 0 {
        None
    } else {
        match home_in(s.drop_last(), id) {
            Some(h) => Some(h),
            None => if s.last().0@ == id {
                Some(s.last().1@)
            } else {
                None
            },
        }
    }
}

proof fn lemma_home_in_prefix(s: Seq<(String, String)>, id: Seq<char>, j: int)
    requires
        0 <= j <= s.len(),
        home_in(s.subrange(0, j), id) is Some,
    ensures
        home_in(s, id) == home_in(s.subrange(0, j), id),
    decreases s.len() - j,
{
    if j < s.len() {
        let p = s.subrange(0, j + 1);
        assert(p.drop_last() =~= s.subrange(0, j));
        lemma_home_in_prefix(s, id, j + 1);
    } else {
        assert(s.subrange(0, j) =~= s);
    }
}

/// The daemons this process is attached to: public space id to home.
pub struct Attachments {
    entries: Vec<(String, String)>,
}

impl View for Attachments {
    type V = Map<Seq<char>, Seq<char>>;

    closed spec fn view(&self) -> Map<Seq<char>, Seq<char>> {
        Map::new(
            |k: Seq<char>| home_in(self.entries@, k) is Some,
            |k: Seq<char>| home_in(self.entries@, k)->0,
        )
    }
}

/// What attaching a space asks of the caller.
#[derive(Debug, Clone, PartialEq, Eq)]
pub enum AttachStep {
    /// The id names no space this identity owns.
    NoSuchSpace,
    /// Already attached: the home, and nothing to start.
    Attached(String),
    /// Not attached: start this home's daemon and its doorbell pump, then
    /// record the attachment.
    Start(String),
}

impl Attachments {
    pub fn new() -> (r: Attachments)
        ensures
            r@ == Map::<Seq<char>, Seq<char>>::empty(),
    {
        let r = Attachments { entries: Vec::new() };
        assert(r@ =~= Map::<Seq<char>, Seq<char>>::empty());
        r
    }

    /// The home attached under `id`, if any.
    pub fn home_of(&self, id: &str) -> (r: Option<String>)
        ensures
            r is Some <==> self@.contains_key(id@),
            r matches Some(h) ==> h@ == self@[id@],
    {
        let mut i: usize = 0;
        while i < self.entries.len()
            invariant
                0 <= i <= self.entries@.len(),
                home_in(self.entries@.subrange(0, i as int), id@) is None,
            decreases self.entries@.len() - i,
        {
            let ghost p = self.entries@.subrange(0, i + 1);
            assert(p.drop_last() =~= self.entries@.subrange(0, i as int));
            if same_text(self.entries[i].0.as_str(), id) {
                proof {
                    lemma_home_in_prefix(self.entries@, id@, i + 1);
                }
                return Some(self.entries[i].1.clone());
            }
            i = i + 1;
        }
        assert(self.entries@.subrange(0, i as int) =~= self.entries@);
        None
    }

    /// Record that `id` is attached with `home` (an id already attached keeps
    /// its home).
    pub fn record(&mut self, id: &str, home: &str)
        ensures
            final(self)@ == if old(self)@.contains_key(id@) {
                old(self)@
            } else {
                old(self)@.insert(id@, home@)
            },
    {
        if self.home_of(id).is_some() {
            return ;
        }
        let ghost before = self.entries@;
        self.entries.push((String::from_str(id), String::from_str(home)));
        proof {
            let t = self.entries@;
            assert(t.drop_last() =~= before);
            assert forall|k: Seq<char>| k != id@ implies home_in(t, k) == home_in(before, k) by {}
            assert(self@ =~= old(self)@.insert(id@, home@));
        }
    }

    /// The step attaching `id` takes, given what resolving it in this
    /// identity's scope gave: attaching is idempotent, and it is the only
    /// place a daemon is started.
    pub fn attach_step(&self, id: &str, resolved: Option<String>) -> (r: AttachStep)
        ensures
            resolved is None ==> r == AttachStep::NoSuchSpace,
            resolved is Some && self@.contains_key(id@) ==> (r matches AttachStep::Attached(h)
                && h@ == self@[id@]),
            resolved is Some && !self@.contains_key(id@) ==> (r matches AttachStep::Start(h) && h@
                == resolved->0@),
    {
        match resolved {
            None => AttachStep::NoSuchSpace,
            Some(home) => match self.home_of(id) {
                Some(h) => AttachStep::Attached(h),
                None => AttachStep::Start(home),
            },
        }
    }
}

/// Attaching is idempotent: once a space is recorded as attached, attaching
/// it again starts nothing and gives back the recorded home.
pub proof fn lemma_attach_idempotent(a: Map<Seq<char>, Seq<char>>, id: Seq<char>, home: Seq<char>)
    requires
        !a.contains_key(id),
    ensures
        a.insert(id, home).contains_key(id),
        a.insert(id, home)[id] == home,
{
}

/// A doorbell, tagged with the space it rang for: one event stream carries
/// the doorbells of every attached space, and the space id demultiplexes
/// them. It is still a dirty flag, not state.
#[derive(Debug, Clone)]
pub struct SpaceDoorbell {
    pub space: String,
    pub doorbell: Doorbell,
}

/// Scoping never crosses an identity: an entry is listed exactly when it is
/// registered and the identity owns it (a self-contained identity only its
/// own home; the global identity nothing under the agents base).
pub proof fn lemma_scope_is_ownership(
    entries: Seq<WorkspaceEntry>,
    identity: Seq<char>,
    agents_base: Seq<char>,
    self_contained: bool,
    windows: bool,
    e: WorkspaceEntry,
)
    ensures
        scoped(entries, identity, agents_base, self_contained, windows).contains(e) <==> (entries.contains(e)
            && owned(e.path@, identity, agents_base, self_contained, windows)),
    decreases entries.len(),
{
    if entries.len() > 0 {
        let p = entries.drop_last();
        let last = entries.last();
        lemma_scope_is_ownership(p, identity, agents_base, self_contained, windows, e);
        let rest = scoped(p, identity, agents_base, self_contained, windows);
        assert(entries =~= p.push(last));
        if entries.contains(e) {
            let i = choose|i: int| 0 <= i < entries.len() && entries[i] == e;
            if i < p.len() {
                assert(p[i] == e);
            }
        }
        if p.contains(e) {
            let i = choose|i: int| 0 <= i < p.len() && p[i] == e;
            assert(entries[i] == e);
        }
        if owned(last.path@, identity, agents_base, self_contained, windows) {
            let t = rest.push(last);
            if t.contains(e) {
                let i = choose|i: int| 0 <= i < t.len() && t[i] == e;
                if i < rest.len() {
                    assert(rest[i] == e);
                }
            }
            if rest.contains(e) {
                let i = choose|i: int| 0 <= i < rest.len() && rest[i] == e;
                assert(t[i] == e);
            }
            if e == last {
                assert(t[t.len() - 1] == e);
                assert(entries[entries.len() - 1] == e);
            }
        }
    }
}

} // verus!
