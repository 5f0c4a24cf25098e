//! The issue document: one Loro document per issue. This wrapper owns the
//! container layout and the typed reads and writes; every merge is Loro's.
//!
//! All fields live in the root map `issue`:
//! - `id`, `workspaceId`, `projectId`, `createdBy`, `createdAt`: plain values;
//! - `title`, `status`, `priority`: last-writer-wins plain values;
//! - `description`: a text, replaced whole;
//! - `assignees`, `labels`: maps whose keys are the members (present-key sets);
//! - `comments`: a list of maps (`author`, `ts`, `body`), appended to.
//!
//! `projectId` is the one source of an issue's project membership.
//!
//! A write takes `&mut self`: the document changes, and the contracts say how.
//! A write fails only on a document that cannot take edits (one checked out
//! at an earlier version), or where its container is missing, and a failed
//! write leaves the fields as they were.
//!
//! The contracts see the document through this `IssueDoc`'s own methods
//! alone. A Loro document is a shared handle that changes through shared
//! references too: `doc` lends it out and `from_doc` takes one over. Whatever
//! is done through the lent reference or another clone of the handle (an
//! edit, a `checkout` that detaches it, an `attach`) is outside what the
//! contracts describe, and what they stated before (the fields, whether the
//! document is editable) must be read again after it.

use vstd::prelude::*;

use crate::bytes::{canon_set, sorted_unique_keys, Key32};
use crate::crdt::{
    commit, export_snapshot, import, list_insert_map, list_item_get, list_item_insert_int,
    list_item_insert_str, list_item_is_map, list_item_map, list_len, loro_editable, nested_delete, nested_has,
    nested_insert_flag, nested_keys, new_doc, oplog_frontiers, root_get, root_insert_int,
    root_insert_list, root_insert_map, root_insert_str, root_insert_text, root_map, text_at,
    text_delete, text_insert, text_len, texts, Scalar, Slot,
};
use crate::encoding::{hex_text, lemma_hex_text_injective};
use crate::ids::{
    doc_id_text, label_id_text, project_id_text, workspace_id_text, DocId, LabelId, ProjectId,
    UserId, WorkspaceId,
};
use crate::text::{lemma_text_lt_total, lemma_text_lt_transitive, same_text, text_less, text_lt};

verus! {

/// An issue's priority.
#[derive(Debug, Clone, Copy, PartialEq, Eq, Structural)]
pub enum Priority {
    NoPriority,
    Low,
    Medium,
    High,
    Urgent,
}

/// A priority's stored text.
pub open spec fn priority_text(p: Priority) -> Seq<char> {
    match p {
        Priority::NoPriority => "none"@,
        Priority::Low => "low"@,
        Priority::Medium => "medium"@,
        Priority::High => "high"@,
        Priority::Urgent => "urgent"@,
    }
}

/// The priority whose stored text is `s`, if any.
pub open spec fn parse_priority(s: Seq<char>) -> Option<Priority> {
    if s == "none"@ {
        Some(Priority::NoPriority)
    } else if s == "low"@ {
        Some(Priority::Low)
    } else if s == "medium"@ {
        Some(Priority::Medium)
    } else if s == "high"@ {
        Some(Priority::High)
    } else if s == "urgent"@ {
        Some(Priority::Urgent)
    } else {
        None
    }
}

/// Parsing gives back the priority of every stored text.
pub proof fn lemma_priority_round_trip(p: Priority)
    ensures
        parse_priority(priority_text(p)) == Some(p),
{
    reveal_strlit("none");
    reveal_strlit("low");
    reveal_strlit("medium");
    reveal_strlit("high");
    reveal_strlit("urgent");
    match p {
        Priority::NoPriority => {},
        Priority::Low => {
            assert("low"@.len() != "none"@.len());
        },
        Priority::Medium => {
            assert("medium"@.len() != "none"@.len() && "medium"@.len() != "low"@.len());
        },
        Priority::High => {
            assert("high"@[0] != "none"@[0]);
            assert("high"@ != "none"@ && "high"@ != "low"@ && "high"@ != "medium"@);
        },
        Priority::Urgent => {
            assert("urgent"@ != "none"@ && "urgent"@ != "low"@ && "urgent"@ != "high"@);
            assert("urgent"@[0] != "medium"@[0]);
        },
    }
}

impl Priority {
    pub fn as_str(&self) -> (r: &'static str)
        ensures
            r@ == priority_text(*self),
    {
        match self {
            Priority::NoPriority => "none",
            Priority::Low => "low",
            Priority::Medium => "medium",
            Priority::High => "high",
            Priority::Urgent => "urgent",
        }
    }

    pub fn parse(s: &str) -> (r: Option<Priority>)
        ensures
            r == parse_priority(s@),
    {
        if same_text(s, "none") {
            Some(Priority::NoPriority)
        } else if same_text(s, "low") {
            Some(Priority::Low)
        } else if same_text(s, "medium") {
            Some(Priority::Medium)
        } else if same_text(s, "high") {
            Some(Priority::High)
        } else if same_text(s, "urgent") {
            Some(Priority::Urgent)
        } else {
            None
        }
    }
}

impl Default for Priority {
    fn default() -> (r: Priority)
        ensures
            r == Priority::NoPriority,
    {
        Priority::NoPriority
    }
}

/// The status a new issue starts in.
pub open spec fn default_status() -> Seq<char> {
    "backlog"@
}

/// A comment as read back from an issue.
#[derive(Debug, Clone)]
pub struct CommentDto {
    /// The author's key, as the lowercase hex text it was stored as.
    pub author: String,
    /// The author's display name, which the document does not hold.
    pub author_nick: Option<String>,
    pub ts: u64,
    pub body: String,
}

/// Parameters for creating a fresh issue.
pub struct NewIssue {
    pub doc_id: DocId,
    pub workspace_id: WorkspaceId,
    pub project_id: ProjectId,
    pub title: String,
    pub priority: Priority,
    pub created_by: UserId,
    pub created_at: u64,
    pub body: Option<String>,
}

/// A container of the issue layout.
#[derive(Debug, Clone, Copy, PartialEq, Eq, Structural)]
pub enum IssueContainer {
    Description,
    Assignees,
    Labels,
    Comments,
}

/// Why an issue operation failed.
#[derive(Debug)]
pub enum IssueError {
    /// Loro refused an edit.
    Edit(loro::LoroError),
    /// Loro could not export the document.
    Export(loro::LoroEncodeError),
    /// Loro could not import the bytes.
    Import(loro::LoroError),
    /// The document lacks a container of the layout.
    Missing(IssueContainer),
}

// ---------------------------------------------------------------------------
// The model: the fields of an issue, read from its root map.
// ---------------------------------------------------------------------------

/// The string under `k`, if `k` holds one.
pub open spec fn str_of(f: Map<Seq<char>, Slot>, k: Seq<char>) -> Option<Seq<char>> {
    match f.get(k) {
        Some(Slot::Str(s)) => Some(s),
        _ => None,
    }
}

pub open spec fn title_of(f: Map<Seq<char>, Slot>) -> Seq<char> {
    match str_of(f, "title"@) {
        Some(s) => s,
        None => Seq::empty(),
    }
}

pub open spec fn status_of(f: Map<Seq<char>, Slot>) -> Seq<char> {
    match str_of(f, "status"@) {
        Some(s) => s,
        None => default_status(),
    }
}

pub open spec fn priority_of(f: Map<Seq<char>, Slot>) -> Priority {
    match str_of(f, "priority"@) {
        Some(s) => match parse_priority(s) {
            Some(p) => p,
            None => Priority::NoPriority,
        },
        None => Priority::NoPriority,
    }
}

/// `createdAt` is stored as an `i64` and read back as the `u64` of its bits.
pub open spec fn created_at_of(f: Map<Seq<char>, Slot>) -> u64 {
    match f.get("createdAt"@) {
        Some(Slot::Int(n)) => n as u64,
        _ => 0,
    }
}

pub open spec fn description_of(f: Map<Seq<char>, Slot>) -> Seq<char> {
    match f.get("description"@) {
        Some(Slot::Text(t)) => t,
        _ => Seq::empty(),
    }
}

/// The keys present in the set-valued map under `k` (none if it is missing).
pub open spec fn keys_of(f: Map<Seq<char>, Slot>, k: Seq<char>) -> Set<Seq<char>> {
    match f.get(k) {
        Some(Slot::Dict(m)) => m.dom(),
        _ => Set::empty(),
    }
}

/// The principals whose key texts are assignee keys.
pub open spec fn assignee_keys(f: Map<Seq<char>, Slot>) -> Set<Key32> {
    Set::new(|k: Key32| keys_of(f, "assignees"@).contains(hex_text(k@)))
}

/// The label keys that are well-formed label ids.
pub open spec fn label_texts(f: Map<Seq<char>, Slot>) -> Set<Seq<char>> {
    keys_of(f, "labels"@).filter(|s: Seq<char>| label_id_text(s))
}

/// A comment as the document holds it.
pub struct CommentView {
    pub author: Seq<char>,
    pub ts: u64,
    pub body: Seq<char>,
}

pub open spec fn comment_of(m: Map<Seq<char>, Slot>) -> CommentView {
    CommentView {
        author: match str_of(m, "author"@) {
            Some(s) => s,
            None => Seq::empty(),
        },
        ts: match m.get("ts"@) {
            Some(Slot::Int(n)) => n as u64,
            _ => 0,
        },
        body: match str_of(m, "body"@) {
            Some(s) => s,
            None => Seq::empty(),
        },
    }
}

/// The comments of a list: each item that is a map, in order.
pub open spec fn comment_views(l: Seq<Slot>) -> Seq<CommentView>
    decreases l.len(),
{
    if l.len() == 0 {
        Seq::empty()
    } else {
        let rest = comment_views(l.drop_last());
        match l.last() {
            Slot::Dict(m) => rest.push(comment_of(m)),
            _ => rest,
        }
    }
}

pub open spec fn comments_of(f: Map<Seq<char>, Slot>) -> Seq<CommentView> {
    match f.get("comments"@) {
        Some(Slot::List(l)) => comment_views(l),
        _ => Seq::empty(),
    }
}

pub open spec fn comment_dto_view(c: CommentDto) -> CommentView {
    CommentView { author: c.author@, ts: c.ts, body: c.body@ }
}

/// The map a new comment is stored as.
pub open spec fn comment_map(author: Key32, ts: u64, body: Seq<char>) -> Map<Seq<char>, Slot> {
    Map::empty().insert("author"@, Slot::Str(hex_text(author@))).insert(
        "ts"@,
        Slot::Int(ts as i64),
    ).insert("body"@, Slot::Str(body))
}

/// `f` with key `k` added to the set-valued map under `c`, if there is one.
pub open spec fn with_key(f: Map<Seq<char>, Slot>, c: Seq<char>, k: Seq<char>) -> Map<
    Seq<char>,
    Slot,
> {
    match f.get(c) {
        Some(Slot::Dict(m)) => f.insert(c, Slot::Dict(m.insert(k, Slot::Flag(true)))),
        _ => f,
    }
}

/// `f` with key `k` gone from the set-valued map under `c`, if there is one.
pub open spec fn without_key(f: Map<Seq<char>, Slot>, c: Seq<char>, k: Seq<char>) -> Map<
    Seq<char>,
    Slot,
> {
    match f.get(c) {
        Some(Slot::Dict(m)) => f.insert(c, Slot::Dict(m.remove(k))),
        _ => f,
    }
}

/// `f` with a comment appended to the list under `comments`, if there is one.
pub open spec fn with_comment(f: Map<Seq<char>, Slot>, c: Map<Seq<char>, Slot>) -> Map<
    Seq<char>,
    Slot,
> {
    match f.get("comments"@) {
        Some(Slot::List(l)) => f.insert("comments"@, Slot::List(l.push(Slot::Dict(c)))),
        _ => f,
    }
}

/// The fields a new issue is created with.
pub open spec fn initial_fields(
    doc_id: Seq<char>,
    workspace_id: Seq<char>,
    project_id: Seq<char>,
    title: Seq<char>,
    priority: Priority,
    created_by: Key32,
    created_at: u64,
    body: Seq<char>,
) -> Map<Seq<char>, Slot> {
    Map::empty().insert("id"@, Slot::Str(doc_id)).insert(
        "workspaceId"@,
        Slot::Str(workspace_id),
    ).insert("projectId"@, Slot::Str(project_id)).insert("title"@, Slot::Str(title)).insert(
        "status"@,
        Slot::Str(default_status()),
    ).insert("priority"@, Slot::Str(priority_text(priority))).insert(
        "createdBy"@,
        Slot::Str(hex_text(created_by@)),
    ).insert("createdAt"@, Slot::Int(created_at as i64)).insert(
        "description"@,
        Slot::Text(body),
    ).insert("assignees"@, Slot::Dict(Map::empty())).insert(
        "labels"@,
        Slot::Dict(Map::empty()),
    ).insert("comments"@, Slot::List(Seq::empty()))
}

pub open spec fn body_text(body: Option<String>) -> Seq<char> {
    match body {
        Some(b) => b@,
        None => Seq::empty(),
    }
}

/// The keys of a sequence of principals.
pub open spec fn user_keys(s: Seq<UserId>) -> Seq<Key32> {
    s.map_values(|u: UserId| u.0)
}

/// The texts of a sequence of label ids.
pub open spec fn label_views(s: Seq<LabelId>) -> Seq<Seq<char>> {
    s.map_values(|l: LabelId| l@)
}

/// Strictly increasing in text order (so nothing occurs twice).
pub open spec fn texts_sorted(s: Seq<Seq<char>>) -> bool {
    forall|i: int, j: int| 0 <= i < j < s.len() ==> #[trigger] text_lt(s[i], s[j])
}

/// Insert a label into a strictly sorted vector of labels unless it is there.
fn insert_label_sorted(v: &mut Vec<LabelId>, l: LabelId)
    requires
        texts_sorted(label_views(old(v)@)),
        forall|j: int|
            0 <= j < old(v)@.len() ==> label_id_text(#[trigger] label_views(old(v)@)[j]),
    ensures
        texts_sorted(label_views(final(v)@)),
        forall|j: int|
            0 <= j < final(v)@.len() ==> label_id_text(#[trigger] label_views(final(v)@)[j]),
        label_views(final(v)@).to_set() == label_views(old(v)@).to_set().insert(l@),
{
    let text = l.as_str();
    let ghost s = label_views(v@);
    let mut i: usize = 0;
    let mut searching = true;
    while searching && i < v.len()
        invariant
            label_views(v@) == s,
            texts_sorted(s),
            forall|j: int| 0 <= j < s.len() ==> label_id_text(#[trigger] s[j]),
            label_id_text(l@),
            text@ == l@,
            0 <= i <= v.len(),
            forall|j: int| 0 <= j < i ==> #[trigger] text_lt(s[j], l@),
            !searching ==> i < s.len() && text_lt(l@, s[i as int]),
        decreases v.len() - i + (if searching { 1int } else { 0int }),
    {
        let here = v[i].as_str();
        if text_less(here, text) {
            i = i + 1;
        } else if text_less(text, here) {
            searching = false;
        } else {
            proof {
                if s[i as int] != l@ {
                    lemma_text_lt_total(s[i as int], l@);
                }
                assert(s.to_set().insert(l@) =~= s.to_set()) by {
                    assert(s.contains(l@) && s[i as int] == l@);
                }
            }
            return ;
        }
    }
    let ghost lv = l@;
    v.insert(i, l);
    proof {
        let t = label_views(v@);
        assert(t =~= s.subrange(0, i as int).push(lv) + s.subrange(i as int, s.len() as int));
        assert forall|a: int, b: int| 0 <= a < b < t.len() implies #[trigger] text_lt(t[a], t[b]) by {
            if b < i {
                assert(t[a] == s[a] && t[b] == s[b]);
            } else if b == i {
                assert(t[a] == s[a]);
            } else if a == i {
                assert(t[b] == s[b - 1]);
                if b - 1 > i {
                    assert(text_lt(s[i as int], s[b - 1]));
                    lemma_text_lt_transitive(lv, s[i as int], s[b - 1]);
                }
            } else if a < i {
                assert(t[b] == s[b - 1]);
                assert(t[a] == s[a]);
            } else {
                assert(t[a] == s[a - 1] && t[b] == s[b - 1]);
            }
        }
        assert forall|j: int| 0 <= j < t.len() implies label_id_text(#[trigger] t[j]) by {
            if j < i {
                assert(t[j] == s[j]);
            } else if j > i {
                assert(t[j] == s[j - 1]);
            }
        }
        assert(t.to_set() =~= s.to_set().insert(lv)) by {
            assert forall|x: Seq<char>| t.to_set().contains(x) <==> s.to_set().insert(lv).contains(x) by {
                if t.contains(x) {
                    let j = choose|j: int| 0 <= j < t.len() && t[j] == x;
                    if j < i {
                        assert(s[j] == x);
                    } else if j > i {
                        assert(s[j - 1] == x);
                    }
                }
                if s.contains(x) {
                    let j = choose|j: int| 0 <= j < s.len() && s[j] == x;
                    if j < i {
                        assert(t[j] == x);
                    } else {
                        assert(t[j + 1] == x);
                    }
                }
                if x == lv {
                    assert(t[i as int] == lv);
                }
            }
        }
    }
}

/// One issue's Loro document.
pub struct IssueDoc {
    doc: loro::LoroDoc,
}

impl IssueDoc {
    /// The issue's fields: the document's root map `issue`.
    pub closed spec fn fields(&self) -> Map<Seq<char>, Slot> {
        root_map(self.doc, "issue"@)
    }

    /// Whether the document can take edits (a created document can; one
    /// wrapped or merged from elsewhere may be detached from its latest
    /// version).
    pub closed spec fn editable(&self) -> bool {
        loro_editable(self.doc)
    }

    /// Create a brand-new issue document, committing its initial state.
    pub fn create(spec: NewIssue) -> (r: Result<IssueDoc, IssueError>)
        ensures
            r is Ok,
            r matches Ok(d) ==> d.fields() == initial_fields(
                spec.doc_id@,
                spec.workspace_id@,
                spec.project_id@,
                spec.title@,
                spec.priority,
                spec.created_by.0,
                spec.created_at,
                body_text(spec.body),
            ) && d.editable(),
    {
        let mut doc = new_doc();
        let ghost f0 = root_map(doc, "issue"@);
        proof {
            assert(f0 =~= Map::empty());
        }
        if let Err(e) = root_insert_str(&mut doc, "issue", "id", spec.doc_id.as_str()) {
            return Err(IssueError::Edit(e));
        }
        if let Err(e) = root_insert_str(&mut doc, "issue", "workspaceId", spec.workspace_id.as_str()) {
            return Err(IssueError::Edit(e));
        }
        if let Err(e) = root_insert_str(&mut doc, "issue", "projectId", spec.project_id.as_str()) {
            return Err(IssueError::Edit(e));
        }
        if let Err(e) = root_insert_str(&mut doc, "issue", "title", spec.title.as_str()) {
            return Err(IssueError::Edit(e));
        }
        if let Err(e) = root_insert_str(&mut doc, "issue", "status", "backlog") {
            return Err(IssueError::Edit(e));
        }
        if let Err(e) = root_insert_str(&mut doc, "issue", "priority", spec.priority.as_str()) {
            return Err(IssueError::Edit(e));
        }
        let creator = spec.created_by.key_text();
        if let Err(e) = root_insert_str(&mut doc, "issue", "createdBy", creator.as_str()) {
            return Err(IssueError::Edit(e));
        }
        if let Err(e) = root_insert_int(&mut doc, "issue", "createdAt", spec.created_at as i64) {
            return Err(IssueError::Edit(e));
        }
        if let Err(e) = root_insert_text(&mut doc, "issue", "description") {
            return Err(IssueError::Edit(e));
        }
        let ghost before_body = root_map(doc, "issue"@);
        assert(before_body.get("description"@) == Some(Slot::Text(Seq::empty())));
        if let Some(body) = &spec.body {
            if body.as_str().is_empty() {
                assert(body@ =~= Seq::<char>::empty());
            } else {
                match text_insert(&mut doc, "issue", "description", 0, body.as_str()) {
                    Some(Ok(())) => {},
                    Some(Err(e)) => {
                        return Err(IssueError::Edit(e));
                    },
                    None => {
                        assert(false);
                        return Err(IssueError::Missing(IssueContainer::Description));
                    },
                }
                proof {
                    let t: Seq<char> = Seq::empty();
                    assert(t.subrange(0, 0) + body@ + t.subrange(0, 0) =~= body@);
                }
            }
        }
        let ghost after_body = root_map(doc, "issue"@);
        proof {
            assert(after_body =~= before_body.insert("description"@, Slot::Text(body_text(spec.body))));
        }
        if let Err(e) = root_insert_map(&mut doc, "issue", "assignees") {
            return Err(IssueError::Edit(e));
        }
        if let Err(e) = root_insert_map(&mut doc, "issue", "labels") {
            return Err(IssueError::Edit(e));
        }
        if let Err(e) = root_insert_list(&mut doc, "issue", "comments") {
            return Err(IssueError::Edit(e));
        }
        commit(&doc);
        let d = IssueDoc { doc };
        proof {
            assert(d.fields() =~= initial_fields(
                spec.doc_id@,
                spec.workspace_id@,
                spec.project_id@,
                spec.title@,
                spec.priority,
                spec.created_by.0,
                spec.created_at,
                body_text(spec.body),
            ));
        }
        Ok(d)
    }
    /// Wrap an already-loaded document (from the store or from sync).
    pub fn from_doc(doc: loro::LoroDoc) -> (r: IssueDoc)
        ensures
            r.fields() == root_map(doc, "issue"@),
            r.editable() == loro_editable(doc),
    {
        IssueDoc { doc }
    }

    /// The underlying document (for the store and the sync layer). What the
    /// caller does through it is not tracked by the contracts of this type.
    pub fn doc(&self) -> (r: &loro::LoroDoc)
        ensures
            root_map(*r, "issue"@) == self.fields(),
            loro_editable(*r) == self.editable(),
    {
        &self.doc
    }

    /// A full snapshot of the document (durable store, cold-start sync).
    pub fn snapshot(&self) -> (r: Result<Vec<u8>, IssueError>)
        ensures
            r matches Err(e) ==> e is Export,
    {
        match export_snapshot(&self.doc) {
            Ok(bytes) => Ok(bytes),
            Err(e) => Err(IssueError::Export(e)),
        }
    }

    /// Import a snapshot or an update into this document.
    pub fn import(&mut self, bytes: &[u8]) -> (r: Result<(), IssueError>)
        ensures
            r matches Err(e) ==> e is Import,
    {
        match crate::crdt::import(&mut self.doc, bytes) {
            Ok(()) => Ok(()),
            Err(e) => Err(IssueError::Import(e)),
        }
    }

    /// The document's causal head, the digest that sync compares.
    pub fn head(&self) -> loro::Frontiers {
        oplog_frontiers(&self.doc)
    }

    /// Commit the pending edits as one Loro commit (one request, one commit).
    pub fn commit(&self) {
        commit(&self.doc)
    }

    // ---- reads ----

    pub fn doc_id(&self) -> (r: Option<DocId>)
        ensures
            r is Some <==> (str_of(self.fields(), "id"@) matches Some(s) && doc_id_text(s)),
            r matches Some(d) ==> str_of(self.fields(), "id"@) == Some(d@),
    {
        match root_get(&self.doc, "issue", "id") {
            Some(Scalar::Str(s)) => DocId::parse(s.as_str()),
            _ => None,
        }
    }

    pub fn workspace_id(&self) -> (r: Option<WorkspaceId>)
        ensures
            r is Some <==> (str_of(self.fields(), "workspaceId"@) matches Some(s)
                && workspace_id_text(s)),
            r matches Some(w) ==> str_of(self.fields(), "workspaceId"@) == Some(w.view()),
    {
        match root_get(&self.doc, "issue", "workspaceId") {
            Some(Scalar::Str(s)) => WorkspaceId::parse(s.as_str()),
            _ => None,
        }
    }

    pub fn project_id(&self) -> (r: Option<ProjectId>)
        ensures
            r is Some <==> (str_of(self.fields(), "projectId"@) matches Some(s) && project_id_text(
                s,
            )),
            r matches Some(p) ==> str_of(self.fields(), "projectId"@) == Some(p@),
    {
        match root_get(&self.doc, "issue", "projectId") {
            Some(Scalar::Str(s)) => ProjectId::parse(s.as_str()),
            _ => None,
        }
    }

    pub fn title(&self) -> (r: String)
        ensures
            r@ == title_of(self.fields()),
    {
        match root_get(&self.doc, "issue", "title") {
            Some(Scalar::Str(s)) => s,
            _ => String::new(),
        }
    }

    pub fn status(&self) -> (r: String)
        ensures
            r@ == status_of(self.fields()),
    {
        match root_get(&self.doc, "issue", "status") {
            Some(Scalar::Str(s)) => s,
            _ => String::from_str("backlog"),
        }
    }

    pub fn priority(&self) -> (r: Priority)
        ensures
            r == priority_of(self.fields()),
    {
        match root_get(&self.doc, "issue", "priority") {
            Some(Scalar::Str(s)) => match Priority::parse(s.as_str()) {
                Some(p) => p,
                None => Priority::default(),
            },
            _ => Priority::default(),
        }
    }

    /// The creator, when `createdBy` holds the text of a key.
    pub fn created_by(&self) -> (r: Option<UserId>)
        ensures
            r matches Some(u) ==> str_of(self.fields(), "createdBy"@) == Some(hex_text(u.0@)),
            r is None ==> (str_of(self.fields(), "createdBy"@) matches Some(s) ==> forall|k: Key32|
                hex_text(k@) != s),
    {
        match root_get(&self.doc, "issue", "createdBy") {
            Some(Scalar::Str(s)) => UserId::from_key_text(s.as_str()),
            _ => None,
        }
    }

    pub fn created_at(&self) -> (r: u64)
        ensures
            r == created_at_of(self.fields()),
    {
        match root_get(&self.doc, "issue", "createdAt") {
            Some(Scalar::Int(n)) => n as u64,
            _ => 0,
        }
    }

    pub fn description(&self) -> (r: String)
        ensures
            r@ == description_of(self.fields()),
    {
        match text_at(&self.doc, "issue", "description") {
            Some(t) => t,
            None => String::new(),
        }
    }
    /// The assignees: the keys present in the assignee set, in key order
    /// (keys that are not the text of a key are skipped).
    pub fn assignees(&self) -> (r: Vec<UserId>)
        ensures
            user_keys(r@) == canon_set(assignee_keys(self.fields())),
    {
        let ks = match nested_keys(&self.doc, "issue", "assignees") {
            Some(ks) => ks,
            None => Vec::new(),
        };
        let ghost f = self.fields();
        proof {
            if !(f.get("assignees"@) matches Some(Slot::Dict(_))) {
                assert(texts(ks@) =~= Seq::<Seq<char>>::empty());
            }
        }
        let mut keys: Vec<Key32> = Vec::new();
        let mut i: usize = 0;
        while i < ks.len()
            invariant
                0 <= i <= ks@.len(),
                forall|k: Key32|
                    keys@.contains(k) <==> (exists|j: int|
                        0 <= j < i && #[trigger] texts(ks@)[j] == hex_text(k@)),
            decreases ks@.len() - i,
        {
            match UserId::from_key_text(ks[i].as_str()) {
                Some(u) => {
                    let ghost before = keys@;
                    keys.push(u.0);
                    proof {
                        assert forall|k: Key32|
                            keys@.contains(k) <==> (exists|j: int|
                                0 <= j < i + 1 && #[trigger] texts(ks@)[j] == hex_text(k@)) by {
                            if keys@.contains(k) {
                                let a = choose|a: int| 0 <= a < keys@.len() && keys@[a] == k;
                                if a < before.len() {
                                    assert(before.contains(k));
                                } else {
                                    assert(texts(ks@)[i as int] == hex_text(k@));
                                }
                            }
                            if exists|j: int| 0 <= j < i + 1 && #[trigger] texts(ks@)[j] == hex_text(k@) {
                                let j = choose|j: int| 0 <= j < i + 1 && #[trigger] texts(ks@)[j] == hex_text(k@);
                                if j == i {
                                    lemma_hex_text_injective(k@, u.0@);
                                    assert(k@ =~= u.0@);
                                    crate::bytes::lemma_key_ext(k, u.0);
                                    assert(keys@[before.len() as int] == k);
                                } else {
                                    assert(before.contains(k));
                                    let a = choose|a: int| 0 <= a < before.len() && before[a] == k;
                                    assert(keys@[a] == k);
                                }
                            }
                        }
                    }
                },
                None => {
                    proof {
                        assert forall|k: Key32|
                            keys@.contains(k) <==> (exists|j: int|
                                0 <= j < i + 1 && #[trigger] texts(ks@)[j] == hex_text(k@)) by {
                            if exists|j: int| 0 <= j < i + 1 && #[trigger] texts(ks@)[j] == hex_text(k@) {
                                let j = choose|j: int| 0 <= j < i + 1 && #[trigger] texts(ks@)[j] == hex_text(k@);
                                if j == i {
                                    assert(hex_text(k@) != ks@[i as int]@);
                                }
                            }
                        }
                    }
                },
            }
            i = i + 1;
        }
        proof {
            assert forall|k: Key32| keys@.to_set().contains(k) <==> assignee_keys(f).contains(k) by {
                match f.get("assignees"@) {
                    Some(Slot::Dict(m)) => {
                        if m.dom().contains(hex_text(k@)) {
                            assert(texts(ks@).to_set().contains(hex_text(k@)));
                            let j = choose|j: int| 0 <= j < texts(ks@).len() && texts(ks@)[j] == hex_text(k@);
                            assert(keys@.contains(k));
                        }
                        if keys@.contains(k) {
                            let j = choose|j: int| 0 <= j < i && #[trigger] texts(ks@)[j] == hex_text(k@);
                            assert(texts(ks@).to_set().contains(hex_text(k@)));
                        }
                    },
                    _ => {
                        if keys@.contains(k) {
                            let j = choose|j: int| 0 <= j < i && #[trigger] texts(ks@)[j] == hex_text(k@);
                            assert(false);
                        }
                    },
                }
            }
            assert(keys@.to_set() =~= assignee_keys(f));
        }
        let sorted = sorted_unique_keys(&keys);
        let mut out: Vec<UserId> = Vec::new();
        let mut j: usize = 0;
        while j < sorted.len()
            invariant
                0 <= j <= sorted@.len(),
                user_keys(out@) == sorted@.subrange(0, j as int),
            decreases sorted@.len() - j,
        {
            let ghost before = out@;
            out.push(UserId(sorted[j]));
            assert(user_keys(out@) =~= user_keys(before).push(sorted@[j as int]));
            assert(sorted@.subrange(0, j + 1) =~= sorted@.subrange(0, j as int).push(sorted@[j as int]));
            j = j + 1;
        }
        assert(sorted@.subrange(0, j as int) =~= sorted@);
        out
    }

    /// The labels: the keys of the label set that are label ids, in text
    /// order.
    pub fn labels(&self) -> (r: Vec<LabelId>)
        ensures
            texts_sorted(label_views(r@)),
            label_views(r@).to_set() == label_texts(self.fields()),
    {
        let ks = match nested_keys(&self.doc, "issue", "labels") {
            Some(ks) => ks,
            None => Vec::new(),
        };
        let ghost f = self.fields();
        proof {
            if !(f.get("labels"@) matches Some(Slot::Dict(_))) {
                assert(texts(ks@) =~= Seq::<Seq<char>>::empty());
            }
        }
        let mut out: Vec<LabelId> = Vec::new();
        let mut i: usize = 0;
        while i < ks.len()
            invariant
                0 <= i <= ks@.len(),
                texts_sorted(label_views(out@)),
                forall|j: int| 0 <= j < out@.len() ==> label_id_text(#[trigger] label_views(out@)[j]),
                label_views(out@).to_set() == texts(ks@).subrange(0, i as int).to_set().filter(
                    |s: Seq<char>| label_id_text(s),
                ),
            decreases ks@.len() - i,
        {
            let ghost before = label_views(out@);
            match LabelId::parse(ks[i].as_str()) {
                Some(l) => {
                    insert_label_sorted(&mut out, l);
                },
                None => {},
            }
            proof {
                let p = texts(ks@).subrange(0, i as int);
                let q = texts(ks@).subrange(0, i + 1);
                assert(q =~= p.push(ks@[i as int]@));
                p.lemma_push_to_set_commute(ks@[i as int]@);
                assert(label_views(out@).to_set() =~= q.to_set().filter(|s: Seq<char>| label_id_text(s)));
            }
            i = i + 1;
        }
        proof {
            assert(texts(ks@).subrange(0, i as int) =~= texts(ks@));
            assert(label_views(out@).to_set() =~= label_texts(f)) by {
                match f.get("labels"@) {
                    Some(Slot::Dict(m)) => {},
                    _ => {
                        assert(texts(ks@).to_set() =~= Set::<Seq<char>>::empty());
                    },
                }
            }
        }
        out
    }

    /// The comments, in the order they were appended.
    pub fn comments(&self) -> (r: Vec<CommentDto>)
        ensures
            r@.map_values(|c: CommentDto| comment_dto_view(c)) == comments_of(self.fields()),
    {
        let n = match list_len(&self.doc, "issue", "comments") {
            Some(n) => n,
            None => {
                return Vec::new();
            },
        };
        let ghost l = match self.fields().get("comments"@) {
            Some(Slot::List(l)) => l,
            _ => Seq::empty(),
        };
        let mut out: Vec<CommentDto> = Vec::new();
        let mut i: usize = 0;
        while i < n
            invariant
                0 <= i <= n,
                n == l.len(),
                self.fields().get("comments"@) == Some(Slot::List(l)),
                out@.map_values(|c: CommentDto| comment_dto_view(c)) == comment_views(
                    l.subrange(0, i as int),
                ),
            decreases n - i,
        {
            let ghost before = out@;
            if list_item_is_map(&self.doc, "issue", "comments", i) {
                let ghost m = list_item_map(self.doc, "issue"@, "comments"@, i as int)->0;
                let author = match list_item_get(&self.doc, "issue", "comments", i, "author") {
                    Some(Scalar::Str(s)) => s,
                    _ => String::new(),
                };
                let ts = match list_item_get(&self.doc, "issue", "comments", i, "ts") {
                    Some(Scalar::Int(t)) => t as u64,
                    _ => 0,
                };
                let body = match list_item_get(&self.doc, "issue", "comments", i, "body") {
                    Some(Scalar::Str(s)) => s,
                    _ => String::new(),
                };
                let c = CommentDto { author, author_nick: None, ts, body };
                assert(comment_dto_view(c) == comment_of(m));
                out.push(c);
                proof {
                    assert(l.subrange(0, i + 1).drop_last() =~= l.subrange(0, i as int));
                    assert(out@.map_values(|c: CommentDto| comment_dto_view(c)) =~= before.map_values(
                        |c: CommentDto| comment_dto_view(c),
                    ).push(comment_of(m)));
                }
            } else {
                proof {
                    assert(l.subrange(0, i + 1).drop_last() =~= l.subrange(0, i as int));
                }
            }
            i = i + 1;
        }
        assert(l.subrange(0, n as int) =~= l);
        out
    }
    // ---- writes (the caller commits at the request boundary) ----

    pub fn set_title(&mut self, title: &str) -> (r: Result<(), IssueError>)
        ensures
            r is Ok ==> final(self).fields() == old(self).fields().insert(
                "title"@,
                Slot::Str(title@),
            ),
            r is Ok <==> old(self).editable(),
            r is Err ==> final(self).fields() == old(self).fields(),
            final(self).editable() == old(self).editable(),
            r matches Err(e) ==> e is Edit,
    {
        match root_insert_str(&mut self.doc, "issue", "title", title) {
            Ok(()) => Ok(()),
            Err(e) => Err(IssueError::Edit(e)),
        }
    }

    pub fn set_status(&mut self, status: &str) -> (r: Result<(), IssueError>)
        ensures
            r is Ok ==> final(self).fields() == old(self).fields().insert(
                "status"@,
                Slot::Str(status@),
            ),
            r is Ok <==> old(self).editable(),
            r is Err ==> final(self).fields() == old(self).fields(),
            final(self).editable() == old(self).editable(),
            r matches Err(e) ==> e is Edit,
    {
        match root_insert_str(&mut self.doc, "issue", "status", status) {
            Ok(()) => Ok(()),
            Err(e) => Err(IssueError::Edit(e)),
        }
    }

    pub fn set_priority(&mut self, priority: Priority) -> (r: Result<(), IssueError>)
        ensures
            r is Ok ==> final(self).fields() == old(self).fields().insert(
                "priority"@,
                Slot::Str(priority_text(priority)),
            ),
            r is Ok <==> old(self).editable(),
            r is Err ==> final(self).fields() == old(self).fields(),
            final(self).editable() == old(self).editable(),
            r matches Err(e) ==> e is Edit,
    {
        match root_insert_str(&mut self.doc, "issue", "priority", priority.as_str()) {
            Ok(()) => Ok(()),
            Err(e) => Err(IssueError::Edit(e)),
        }
    }

    pub fn set_project(&mut self, project: &ProjectId) -> (r: Result<(), IssueError>)
        ensures
            r is Ok ==> final(self).fields() == old(self).fields().insert(
                "projectId"@,
                Slot::Str(project@),
            ),
            r is Ok <==> old(self).editable(),
            r is Err ==> final(self).fields() == old(self).fields(),
            final(self).editable() == old(self).editable(),
            r matches Err(e) ==> e is Edit,
    {
        match root_insert_str(&mut self.doc, "issue", "projectId", project.as_str()) {
            Ok(()) => Ok(()),
            Err(e) => Err(IssueError::Edit(e)),
        }
    }

    /// Replace the whole description.
    pub fn set_description(&mut self, body: &str) -> (r: Result<(), IssueError>)
        ensures
            r is Ok ==> final(self).fields() == old(self).fields().insert(
                "description"@,
                Slot::Text(body@),
            ),
            r == Err::<(), IssueError>(IssueError::Missing(IssueContainer::Description)) <==> !(old(
                self,
            ).fields().get("description"@) matches Some(Slot::Text(_))),
            r matches Err(e) ==> e is Edit || e is Missing,
            (old(self).editable() && old(self).fields().get("description"@) matches Some(Slot::Text(_)))
                ==> r is Ok,
            r is Err ==> final(self).fields() == old(self).fields(),
            final(self).editable() == old(self).editable(),
    {
        let len = match text_len(&self.doc, "issue", "description") {
            Some(n) => n,
            None => {
                return Err(IssueError::Missing(IssueContainer::Description));
            },
        };
        let ghost f0 = self.fields();
        if len > 0 {
            match text_delete(&mut self.doc, "issue", "description", 0, len) {
                Some(Ok(())) => {},
                Some(Err(e)) => {
                    return Err(IssueError::Edit(e));
                },
                None => {
                    return Err(IssueError::Missing(IssueContainer::Description));
                },
            }
            proof {
                let t = description_of(f0);
                assert(t.subrange(0, 0) + t.subrange(len as int, t.len() as int) =~= Seq::<char>::empty());
            }
        } else {
            proof {
                assert(description_of(f0) =~= Seq::<char>::empty());
            }
        }
        let ghost f1 = self.fields();
        assert(f1 == f0.insert("description"@, Slot::Text(Seq::empty())));
        if !body.is_empty() {
            match text_insert(&mut self.doc, "issue", "description", 0, body) {
                Some(Ok(())) => {},
                Some(Err(e)) => {
                    return Err(IssueError::Edit(e));
                },
                None => {
                    return Err(IssueError::Missing(IssueContainer::Description));
                },
            }
            proof {
                let t: Seq<char> = Seq::empty();
                assert(t.subrange(0, 0) + body@ + t.subrange(0, 0) =~= body@);
                assert(self.fields() =~= f0.insert("description"@, Slot::Text(body@)));
            }
        } else {
            proof {
                assert(body@ =~= Seq::<char>::empty());
                assert(self.fields() =~= f0.insert("description"@, Slot::Text(body@)));
            }
        }
        Ok(())
    }

    pub fn add_assignee(&mut self, user: &UserId) -> (r: Result<(), IssueError>)
        ensures
            r is Ok ==> final(self).fields() == with_key(
                old(self).fields(),
                "assignees"@,
                hex_text(user.0@),
            ),
            r == Err::<(), IssueError>(IssueError::Missing(IssueContainer::Assignees)) <==> !(old(
                self,
            ).fields().get("assignees"@) matches Some(Slot::Dict(_))),
            r matches Err(e) ==> e is Edit || e is Missing,
            (old(self).editable() && old(self).fields().get("assignees"@) matches Some(Slot::Dict(_)))
                ==> r is Ok,
            r is Err ==> final(self).fields() == old(self).fields(),
            final(self).editable() == old(self).editable(),
    {
        let key = user.key_text();
        match nested_insert_flag(&mut self.doc, "issue", "assignees", key.as_str(), true) {
            Some(Ok(())) => Ok(()),
            Some(Err(e)) => Err(IssueError::Edit(e)),
            None => Err(IssueError::Missing(IssueContainer::Assignees)),
        }
    }

    pub fn remove_assignee(&mut self, user: &UserId) -> (r: Result<(), IssueError>)
        ensures
            r is Ok ==> final(self).fields() == without_key(
                old(self).fields(),
                "assignees"@,
                hex_text(user.0@),
            ),
            r matches Err(e) ==> e is Edit,
            old(self).editable() ==> r is Ok,
            r is Err ==> final(self).fields() == old(self).fields(),
            final(self).editable() == old(self).editable(),
    {
        let key = user.key_text();
        let ghost f0 = self.fields();
        if let Some(true) = nested_has(&self.doc, "issue", "assignees", key.as_str()) {
            match nested_delete(&mut self.doc, "issue", "assignees", key.as_str()) {
                Some(Ok(())) => {},
                Some(Err(e)) => {
                    return Err(IssueError::Edit(e));
                },
                None => {},
            }
        } else {
            proof {
                match f0.get("assignees"@) {
                    Some(Slot::Dict(m)) => {
                        assert(m.remove(key@) =~= m);
                        assert(f0.insert("assignees"@, Slot::Dict(m)) =~= f0);
                    },
                    _ => {},
                }
            }
        }
        Ok(())
    }

    pub fn add_label(&mut self, label: &LabelId) -> (r: Result<(), IssueError>)
        ensures
            r is Ok ==> final(self).fields() == with_key(old(self).fields(), "labels"@, label@),
            r == Err::<(), IssueError>(IssueError::Missing(IssueContainer::Labels)) <==> !(old(
                self,
            ).fields().get("labels"@) matches Some(Slot::Dict(_))),
            r matches Err(e) ==> e is Edit || e is Missing,
            (old(self).editable() && old(self).fields().get("labels"@) matches Some(Slot::Dict(_)))
                ==> r is Ok,
            r is Err ==> final(self).fields() == old(self).fields(),
            final(self).editable() == old(self).editable(),
    {
        match nested_insert_flag(&mut self.doc, "issue", "labels", label.as_str(), true) {
            Some(Ok(())) => Ok(()),
            Some(Err(e)) => Err(IssueError::Edit(e)),
            None => Err(IssueError::Missing(IssueContainer::Labels)),
        }
    }

    pub fn remove_label(&mut self, label: &LabelId) -> (r: Result<(), IssueError>)
        ensures
            r is Ok ==> final(self).fields() == without_key(old(self).fields(), "labels"@, label@),
            r matches Err(e) ==> e is Edit,
            old(self).editable() ==> r is Ok,
            r is Err ==> final(self).fields() == old(self).fields(),
            final(self).editable() == old(self).editable(),
    {
        let ghost f0 = self.fields();
        if let Some(true) = nested_has(&self.doc, "issue", "labels", label.as_str()) {
            match nested_delete(&mut self.doc, "issue", "labels", label.as_str()) {
                Some(Ok(())) => {},
                Some(Err(e)) => {
                    return Err(IssueError::Edit(e));
                },
                None => {},
            }
        } else {
            proof {
                match f0.get("labels"@) {
                    Some(Slot::Dict(m)) => {
                        assert(m.remove(label@) =~= m);
                        assert(f0.insert("labels"@, Slot::Dict(m)) =~= f0);
                    },
                    _ => {},
                }
            }
        }
        Ok(())
    }

    /// Append a comment; comments are never edited.
    pub fn add_comment(&mut self, author: &UserId, ts: u64, body: &str) -> (r: Result<
        (),
        IssueError,
    >)
        ensures
            r is Ok ==> final(self).fields() == with_comment(
                old(self).fields(),
                comment_map(author.0, ts, body@),
            ),
            r == Err::<(), IssueError>(IssueError::Missing(IssueContainer::Comments)) <==> !(old(
                self,
            ).fields().get("comments"@) matches Some(Slot::List(_))),
            r matches Err(e) ==> e is Edit || e is Missing,
            (old(self).editable() && old(self).fields().get("comments"@) matches Some(Slot::List(_)))
                ==> r is Ok,
            r is Err ==> final(self).fields() == old(self).fields(),
            final(self).editable() == old(self).editable(),
    {
        let n = match list_len(&self.doc, "issue", "comments") {
            Some(n) => n,
            None => {
                return Err(IssueError::Missing(IssueContainer::Comments));
            },
        };
        let ghost f0 = self.fields();
        let ghost l = match f0.get("comments"@) {
            Some(Slot::List(l)) => l,
            _ => Seq::empty(),
        };
        match list_insert_map(&mut self.doc, "issue", "comments", n) {
            Some(Ok(())) => {},
            Some(Err(e)) => {
                return Err(IssueError::Edit(e));
            },
            None => {
                assert(false);
                return Err(IssueError::Missing(IssueContainer::Comments));
            },
        }
        assert(l.subrange(0, n as int).push(Slot::Dict(Map::empty())) + l.subrange(n as int, n as int)
            =~= l.push(Slot::Dict(Map::empty())));
        let key = author.key_text();
        match list_item_insert_str(&mut self.doc, "issue", "comments", n, "author", key.as_str()) {
            Some(Ok(())) => {},
            Some(Err(e)) => {
                return Err(IssueError::Edit(e));
            },
            None => {
                assert(false);
                return Err(IssueError::Missing(IssueContainer::Comments));
            },
        }
        match list_item_insert_int(&mut self.doc, "issue", "comments", n, "ts", ts as i64) {
            Some(Ok(())) => {},
            Some(Err(e)) => {
                return Err(IssueError::Edit(e));
            },
            None => {
                assert(false);
                return Err(IssueError::Missing(IssueContainer::Comments));
            },
        }
        match list_item_insert_str(&mut self.doc, "issue", "comments", n, "body", body) {
            Some(Ok(())) => {},
            Some(Err(e)) => {
                return Err(IssueError::Edit(e));
            },
            None => {
                assert(false);
                return Err(IssueError::Missing(IssueContainer::Comments));
            },
        }
        proof {
            let c = comment_map(author.0, ts, body@);
            assert(l.push(Slot::Dict(Map::empty())).update(n as int, Slot::Dict(Map::empty().insert("author"@, Slot::Str(hex_text(author.0@))))).update(
                n as int, Slot::Dict(Map::empty().insert("author"@, Slot::Str(hex_text(author.0@))).insert("ts"@, Slot::Int(ts as i64)))).update(n as int, Slot::Dict(c)) =~= l.push(Slot::Dict(c)));
            assert(self.fields() =~= f0.insert("comments"@, Slot::List(l.push(Slot::Dict(c)))));
        }
        Ok(())
    }
}

// ---------------------------------------------------------------------------
// Laws
// ---------------------------------------------------------------------------

/// The keys of the layout are pairwise different.
proof fn lemma_field_keys_distinct()
    ensures
        "id"@ != "workspaceId"@,
        "id"@ != "projectId"@,
        "id"@ != "title"@,
        "id"@ != "status"@,
        "id"@ != "priority"@,
        "id"@ != "createdBy"@,
        "id"@ != "createdAt"@,
        "id"@ != "description"@,
        "id"@ != "assignees"@,
        "id"@ != "labels"@,
        "id"@ != "comments"@,
        "workspaceId"@ != "projectId"@,
        "workspaceId"@ != "title"@,
        "workspaceId"@ != "status"@,
        "workspaceId"@ != "priority"@,
        "workspaceId"@ != "createdBy"@,
        "workspaceId"@ != "createdAt"@,
        "workspaceId"@ != "description"@,
        "workspaceId"@ != "assignees"@,
        "workspaceId"@ != "labels"@,
        "workspaceId"@ != "comments"@,
        "projectId"@ != "title"@,
        "projectId"@ != "status"@,
        "projectId"@ != "priority"@,
        "projectId"@ != "createdBy"@,
        "projectId"@ != "createdAt"@,
        "projectId"@ != "description"@,
        "projectId"@ != "assignees"@,
        "projectId"@ != "labels"@,
        "projectId"@ != "comments"@,
        "title"@ != "status"@,
        "title"@ != "priority"@,
        "title"@ != "createdBy"@,
        "title"@ != "createdAt"@,
        "title"@ != "description"@,
        "title"@ != "assignees"@,
        "title"@ != "labels"@,
        "title"@ != "comments"@,
        "status"@ != "priority"@,
        "status"@ != "createdBy"@,
        "status"@ != "createdAt"@,
        "status"@ != "description"@,
        "status"@ != "assignees"@,
        "status"@ != "labels"@,
        "status"@ != "comments"@,
        "priority"@ != "createdBy"@,
        "priority"@ != "createdAt"@,
        "priority"@ != "description"@,
        "priority"@ != "assignees"@,
        "priority"@ != "labels"@,
        "priority"@ != "comments"@,
        "createdBy"@ != "createdAt"@,
        "createdBy"@ != "description"@,
        "createdBy"@ != "assignees"@,
        "createdBy"@ != "labels"@,
        "createdBy"@ != "comments"@,
        "createdAt"@ != "description"@,
        "createdAt"@ != "assignees"@,
        "createdAt"@ != "labels"@,
        "createdAt"@ != "comments"@,
        "description"@ != "assignees"@,
        "description"@ != "labels"@,
        "description"@ != "comments"@,
        "assignees"@ != "labels"@,
        "assignees"@ != "comments"@,
        "labels"@ != "comments"@,
        "author"@ != "ts"@,
        "author"@ != "body"@,
        "ts"@ != "body"@,
{
    reveal_strlit("id");
    reveal_strlit("workspaceId");
    reveal_strlit("projectId");
    reveal_strlit("title");
    reveal_strlit("status");
    reveal_strlit("priority");
    reveal_strlit("createdBy");
    reveal_strlit("createdAt");
    reveal_strlit("description");
    reveal_strlit("assignees");
    reveal_strlit("labels");
    reveal_strlit("comments");
    reveal_strlit("author");
    reveal_strlit("ts");
    reveal_strlit("body");
    assert("id"@[0] != "workspaceId"@[0]);
    assert("id"@[0] != "projectId"@[0]);
    assert("id"@[0] != "title"@[0]);
    assert("id"@[0] != "status"@[0]);
    assert("id"@[0] != "priority"@[0]);
    assert("id"@[0] != "createdBy"@[0]);
    assert("id"@[0] != "createdAt"@[0]);
    assert("id"@[0] != "description"@[0]);
    assert("id"@[0] != "assignees"@[0]);
    assert("id"@[0] != "labels"@[0]);
    assert("id"@[0] != "comments"@[0]);
    assert("workspaceId"@[0] != "projectId"@[0]);
    assert("workspaceId"@[0] != "title"@[0]);
    assert("workspaceId"@[0] != "status"@[0]);
    assert("workspaceId"@[0] != "priority"@[0]);
    assert("workspaceId"@[0] != "createdBy"@[0]);
    assert("workspaceId"@[0] != "createdAt"@[0]);
    assert("workspaceId"@[0] != "description"@[0]);
    assert("workspaceId"@[0] != "assignees"@[0]);
    assert("workspaceId"@[0] != "labels"@[0]);
    assert("workspaceId"@[0] != "comments"@[0]);
    assert("projectId"@[0] != "title"@[0]);
    assert("projectId"@[0] != "status"@[0]);
    assert("projectId"@.len() != "priority"@.len());
    assert("projectId"@[0] != "createdBy"@[0]);
    assert("projectId"@[0] != "createdAt"@[0]);
    assert("projectId"@[0] != "description"@[0]);
    assert("projectId"@[0] != "assignees"@[0]);
    assert("projectId"@[0] != "labels"@[0]);
    assert("projectId"@[0] != "comments"@[0]);
    assert("title"@[0] != "status"@[0]);
    assert("title"@[0] != "priority"@[0]);
    assert("title"@[0] != "createdBy"@[0]);
    assert("title"@[0] != "createdAt"@[0]);
    assert("title"@[0] != "description"@[0]);
    assert("title"@[0] != "assignees"@[0]);
    assert("title"@[0] != "labels"@[0]);
    assert("title"@[0] != "comments"@[0]);
    assert("status"@[0] != "priority"@[0]);
    assert("status"@[0] != "createdBy"@[0]);
    assert("status"@[0] != "createdAt"@[0]);
    assert("status"@[0] != "description"@[0]);
    assert("status"@[0] != "assignees"@[0]);
    assert("status"@[0] != "labels"@[0]);
    assert("status"@[0] != "comments"@[0]);
    assert("priority"@[0] != "createdBy"@[0]);
    assert("priority"@[0] != "createdAt"@[0]);
    assert("priority"@[0] != "description"@[0]);
    assert("priority"@[0] != "assignees"@[0]);
    assert("priority"@[0] != "labels"@[0]);
    assert("priority"@[0] != "comments"@[0]);
    assert("createdBy"@[7] != "createdAt"@[7]);
    assert("createdBy"@[0] != "description"@[0]);
    assert("createdBy"@[0] != "assignees"@[0]);
    assert("createdBy"@[0] != "labels"@[0]);
    assert("createdBy"@.len() != "comments"@.len());
    assert("createdAt"@[0] != "description"@[0]);
    assert("createdAt"@[0] != "assignees"@[0]);
    assert("createdAt"@[0] != "labels"@[0]);
    assert("createdAt"@.len() != "comments"@.len());
    assert("description"@[0] != "assignees"@[0]);
    assert("description"@[0] != "labels"@[0]);
    assert("description"@[0] != "comments"@[0]);
    assert("assignees"@[0] != "labels"@[0]);
    assert("assignees"@[0] != "comments"@[0]);
    assert("labels"@[0] != "comments"@[0]);
    assert("author"@[0] != "ts"@[0]);
    assert("author"@[0] != "body"@[0]);
    assert("ts"@[0] != "body"@[0]);
}

/// A new issue reads back what it was created with: its ids, its title, the
/// default status, its priority, creator and creation time, its body as the
/// description, and no assignees, labels or comments.
pub proof fn lemma_create_reads_back(
    doc_id: Seq<char>,
    workspace_id: Seq<char>,
    project_id: Seq<char>,
    title: Seq<char>,
    priority: Priority,
    created_by: Key32,
    created_at: u64,
    body: Seq<char>,
)
    ensures
        ({
            let f = initial_fields(
                doc_id,
                workspace_id,
                project_id,
                title,
                priority,
                created_by,
                created_at,
                body,
            );
            &&& str_of(f, "id"@) == Some(doc_id)
            &&& str_of(f, "workspaceId"@) == Some(workspace_id)
            &&& str_of(f, "projectId"@) == Some(project_id)
            &&& title_of(f) == title
            &&& status_of(f) == default_status()
            &&& priority_of(f) == priority
            &&& str_of(f, "createdBy"@) == Some(hex_text(created_by@))
            &&& created_at_of(f) == created_at
            &&& description_of(f) == body
            &&& keys_of(f, "assignees"@).is_empty()
            &&& assignee_keys(f).is_empty()
            &&& keys_of(f, "labels"@).is_empty()
            &&& comments_of(f) == Seq::<CommentView>::empty()
        }),
{
    lemma_field_keys_distinct();
    lemma_priority_round_trip(priority);
    reveal_strlit("id");
    reveal_strlit("workspaceId");
    reveal_strlit("projectId");
    reveal_strlit("title");
    reveal_strlit("status");
    reveal_strlit("priority");
    reveal_strlit("createdBy");
    reveal_strlit("createdAt");
    reveal_strlit("description");
    reveal_strlit("assignees");
    reveal_strlit("labels");
    reveal_strlit("comments");
    let f = initial_fields(
        doc_id,
        workspace_id,
        project_id,
        title,
        priority,
        created_by,
        created_at,
        body,
    );
    assert(((created_at as i64) as u64) == created_at) by (bit_vector);
    assert(keys_of(f, "assignees"@) =~= Set::<Seq<char>>::empty());
    assert(assignee_keys(f) =~= Set::<Key32>::empty());
    assert(keys_of(f, "labels"@) =~= Set::<Seq<char>>::empty());
    assert(comment_views(Seq::<Slot>::empty()) =~= Seq::<CommentView>::empty());
}

/// A title written is the title read, and no other field moves.
pub proof fn lemma_title_write_reads_back(f: Map<Seq<char>, Slot>, t: Seq<char>)
    ensures
        ({
            let g = f.insert("title"@, Slot::Str(t));
            &&& title_of(g) == t
            &&& status_of(g) == status_of(f)
            &&& priority_of(g) == priority_of(f)
            &&& description_of(g) == description_of(f)
            &&& assignee_keys(g) == assignee_keys(f)
            &&& label_texts(g) == label_texts(f)
            &&& comments_of(g) == comments_of(f)
        }),
{
    lemma_field_keys_distinct();
    let g = f.insert("title"@, Slot::Str(t));
    assert(assignee_keys(g) =~= assignee_keys(f));
    assert(label_texts(g) =~= label_texts(f));
}

/// A status written is the status read, and no other field moves.
pub proof fn lemma_status_write_reads_back(f: Map<Seq<char>, Slot>, s: Seq<char>)
    ensures
        ({
            let g = f.insert("status"@, Slot::Str(s));
            &&& status_of(g) == s
            &&& title_of(g) == title_of(f)
            &&& priority_of(g) == priority_of(f)
            &&& description_of(g) == description_of(f)
            &&& assignee_keys(g) == assignee_keys(f)
            &&& label_texts(g) == label_texts(f)
            &&& comments_of(g) == comments_of(f)
        }),
{
    lemma_field_keys_distinct();
    let g = f.insert("status"@, Slot::Str(s));
    assert(assignee_keys(g) =~= assignee_keys(f));
    assert(label_texts(g) =~= label_texts(f));
}

/// A priority written is the priority read, and no other field moves.
pub proof fn lemma_priority_write_reads_back(f: Map<Seq<char>, Slot>, p: Priority)
    ensures
        ({
            let g = f.insert("priority"@, Slot::Str(priority_text(p)));
            &&& priority_of(g) == p
            &&& title_of(g) == title_of(f)
            &&& status_of(g) == status_of(f)
            &&& description_of(g) == description_of(f)
            &&& assignee_keys(g) == assignee_keys(f)
            &&& label_texts(g) == label_texts(f)
            &&& comments_of(g) == comments_of(f)
        }),
{
    lemma_field_keys_distinct();
    lemma_priority_round_trip(p);
    let g = f.insert("priority"@, Slot::Str(priority_text(p)));
    assert(assignee_keys(g) =~= assignee_keys(f));
    assert(label_texts(g) =~= label_texts(f));
}

/// A description written whole is the description read.
pub proof fn lemma_description_write_reads_back(f: Map<Seq<char>, Slot>, b: Seq<char>)
    ensures
        description_of(f.insert("description"@, Slot::Text(b))) == b,
        title_of(f.insert("description"@, Slot::Text(b))) == title_of(f),
        comments_of(f.insert("description"@, Slot::Text(b))) == comments_of(f),
{
    lemma_field_keys_distinct();
}

/// The assignees are a set: adding a principal makes it present, removing it
/// makes it absent, and no other principal moves.
pub proof fn lemma_assignee_set(f: Map<Seq<char>, Slot>, u: Key32)
    requires
        f.get("assignees"@) matches Some(Slot::Dict(_)),
    ensures
        assignee_keys(with_key(f, "assignees"@, hex_text(u@))) == assignee_keys(f).insert(u),
        assignee_keys(without_key(f, "assignees"@, hex_text(u@))) == assignee_keys(f).remove(u),
{
    let a = with_key(f, "assignees"@, hex_text(u@));
    let b = without_key(f, "assignees"@, hex_text(u@));
    assert forall|k: Key32| #[trigger] assignee_keys(a).contains(k) == assignee_keys(f).insert(
        u,
    ).contains(k) by {
        if hex_text(k@) == hex_text(u@) {
            lemma_hex_text_injective(k@, u@);
            crate::bytes::lemma_key_ext(k, u);
        }
    }
    assert forall|k: Key32| #[trigger] assignee_keys(b).contains(k) == assignee_keys(f).remove(
        u,
    ).contains(k) by {
        if hex_text(k@) == hex_text(u@) {
            lemma_hex_text_injective(k@, u@);
            crate::bytes::lemma_key_ext(k, u);
        }
    }
    assert(assignee_keys(a) =~= assignee_keys(f).insert(u));
    assert(assignee_keys(b) =~= assignee_keys(f).remove(u));
}

/// Labels are a set: adding a label id makes it present, removing it makes
/// it absent, and no other label moves.
pub proof fn lemma_label_set(f: Map<Seq<char>, Slot>, l: Seq<char>)
    requires
        f.get("labels"@) matches Some(Slot::Dict(_)),
        label_id_text(l),
    ensures
        label_texts(with_key(f, "labels"@, l)) == label_texts(f).insert(l),
        label_texts(without_key(f, "labels"@, l)) == label_texts(f).remove(l),
{
    assert(label_texts(with_key(f, "labels"@, l)) =~= label_texts(f).insert(l));
    assert(label_texts(without_key(f, "labels"@, l)) =~= label_texts(f).remove(l));
}

/// Comments append: a new comment reads back last, after all the earlier
/// ones unchanged, with its author, time and body.
pub proof fn lemma_comment_appended(f: Map<Seq<char>, Slot>, author: Key32, ts: u64, body: Seq<char>)
    requires
        f.get("comments"@) matches Some(Slot::List(_)),
    ensures
        comments_of(with_comment(f, comment_map(author, ts, body))) == comments_of(f).push(
            CommentView { author: hex_text(author@), ts, body },
        ),
{
    lemma_field_keys_distinct();
    let c = comment_map(author, ts, body);
    assert(((ts as i64) as u64) == ts) by (bit_vector);
    match f.get("comments"@) {
        Some(Slot::List(l)) => {
            assert(l.push(Slot::Dict(c)).drop_last() =~= l);
        },
        _ => {},
    }
}

} // verus!
