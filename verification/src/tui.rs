//! The terminal client's state and its decisions: the focus model, the
//! board cursor, the action table, doorbell routing, quick-create parsing and
//! mouse hit-testing. Each decision updates the state and names the effect
//! the caller performs (a daemon round-trip, opening an editor); the effects
//! themselves are the caller's.
//!
//! Focus is derived, never stored: the top of the overlay stack wins, then
//! peek-vs-board, then the active screen. `Esc` pops the stack, then closes
//! the peek, then returns to the board, then quits.

use vstd::prelude::*;

use crate::overlay::Overlay;
use crate::text::{
    chars_of, contains_chars, contains_seq, eq_ignore_ascii_case, eq_ignoring_ascii_case, same_text,
    to_lowercase, unicode_lowercase,
};

verus! {

/// Full-body screens. Board is the root.
#[derive(Debug, Clone, Copy, PartialEq, Eq, Hash, Structural)]
pub enum Screen {
    Board,
    Inbox,
    Activity,
    Members,
    Spaces,
    ConfigPanel,
    Doctor,
    Remotes,
    Log,
}

pub open spec fn screen_index(s: Screen) -> int {
    match s {
        Screen::Board => 0,
        Screen::Inbox => 1,
        Screen::Activity => 2,
        Screen::Members => 3,
        Screen::Spaces => 4,
        Screen::ConfigPanel => 5,
        Screen::Doctor => 6,
        Screen::Remotes => 7,
        Screen::Log => 8,
    }
}

fn screen_slot(s: Screen) -> (r: usize)
    ensures
        r == screen_index(s),
        r < 9,
{
    match s {
        Screen::Board => 0,
        Screen::Inbox => 1,
        Screen::Activity => 2,
        Screen::Members => 3,
        Screen::Spaces => 4,
        Screen::ConfigPanel => 5,
        Screen::Doctor => 6,
        Screen::Remotes => 7,
        Screen::Log => 8,
    }
}

/// Which binding table owns input.
#[derive(Debug, Clone, Copy, PartialEq, Eq, Structural)]
pub enum FocusKind {
    Help,
    Peek,
    Board,
    List,
}

/// Modal layers; the top of the stack owns input. (An editor layer's text
/// state lives with the caller.)
#[derive(Debug, Clone, Copy, PartialEq, Eq, Structural)]
pub enum OverlayLayer {
    Editor,
    Help,
}

/// Per-list cursor and scroll window for list-shaped screens.
#[derive(Debug, Default, Clone, Copy)]
pub struct ListCursor {
    pub sel: usize,
    pub scroll: usize,
}

/// The issue detail shown beside the board.
#[derive(Debug, Clone)]
pub struct PeekState {
    pub doc_id: String,
    pub reff: String,
    pub title: String,
    pub description: String,
    pub scroll: u16,
    pub expanded: bool,
    pub focused: bool,
}

#[derive(Debug, Clone)]
pub struct Project {
    pub id: String,
    pub key: String,
}

/// One issue row of a board column.
#[derive(Debug, Clone)]
pub struct Row {
    pub doc_id: String,
    pub reff: String,
    pub title: String,
    pub status: String,
    pub key_alias: Option<String>,
}

#[derive(Debug, Clone)]
pub struct Column {
    /// The workflow state this column shows.
    pub state: String,
    pub rows: Vec<Row>,
}

#[derive(Debug, Clone)]
pub struct Board {
    pub columns: Vec<Column>,
}

/// The semantic actions keys and clicks resolve to.
#[derive(Debug, Clone, Copy, PartialEq, Eq, Structural)]
pub enum Action {
    Quit,
    Back,
    Help,
    Refresh,
    Goto(Screen),
    NextProject,
    PrevProject,
    Up,
    Down,
    Left,
    Right,
    Top,
    Bottom,
    OpenPeek,
    TogglePeekFocus,
    ExpandPeek,
    StatusPrev,
    StatusNext,
    Create,
    EditTitle,
    EditDescription,
    Comment,
    StartIssue,
    DoneIssue,
    StopIssue,
    YankRef,
    Submit,
    OpenPalette,
    OpenFilter,
    PickAssign,
    PickLabel,
    PickPriority,
    PickStatus,
    PickMoveProject,
    ReorderUp,
    ReorderDown,
    Delete,
    ToggleSelect,
    ClearSelection,
    InboxClear,
    SpaceSwitch,
    PinFilterAsTab,
    TabNext,
    TabPrev,
    Cancel,
}

/// The client state the decisions read and change.
pub struct App {
    pub projects: Vec<Project>,
    pub project_idx: usize,
    pub board: Option<Board>,
    pub overlay: Overlay,
    pub screen: Screen,
    pub peek: Option<PeekState>,
    pub stack: Vec<OverlayLayer>,
    pub col_idx: usize,
    pub row_idx: usize,
    pub list_cursors: [ListCursor; 9],
    pub filter_text: String,
    /// Cursor into the actionable help overlay.
    pub help_sel: usize,
    /// Whether the configured default project was applied (on the first
    /// project list only).
    pub applied_default_project: bool,
    pub quit: bool,
}

// ---------------------------------------------------------------------------
// Board rows under the filter
// ---------------------------------------------------------------------------

/// Whether a row passes the filter: case-insensitive substring of its title,
/// its ref, or its key alias. An empty filter passes everything.
pub open spec fn matches_filter(filter: Seq<char>, r: Row) -> bool {
    let n = unicode_lowercase(filter);
    ||| filter.len() == 0
    ||| contains_seq(unicode_lowercase(r.title@), n)
    ||| contains_seq(unicode_lowercase(r.reff@), n)
    ||| (r.key_alias matches Some(a) && contains_seq(unicode_lowercase(a@), n))
}

/// The rows that pass the filter, in order.
pub open spec fn visible(filter: Seq<char>, rows: Seq<Row>) -> Seq<Row>
    decreases rows.len(),
{
    if rows.len() == 0 {
        Seq::empty()
    } else {
        let rest = visible(filter, rows.drop_last());
        if matches_filter(filter, rows.last()) {
            rest.push(rows.last())
        } else {
            rest
        }
    }
}

/// The visible rows of column `col` (none when there is no such column).
pub open spec fn col_rows(board: Option<Board>, col: int, filter: Seq<char>) -> Seq<Row> {
    match board {
        Some(b) => if 0 <= col < b.columns@.len() {
            visible(filter, b.columns@[col].rows@)
        } else {
            Seq::empty()
        },
        None => Seq::empty(),
    }
}

pub open spec fn ncols(board: Option<Board>) -> nat {
    match board {
        Some(b) => b.columns@.len(),
        None => 0,
    }
}

pub open spec fn row_refs_view(v: Seq<&Row>) -> Seq<Row> {
    v.map_values(|r: &Row| *r)
}

fn text_contains(hay: &str, needle: &Vec<char>) -> (r: bool)
    ensures
        r == contains_seq(unicode_lowercase(hay@), needle@),
{
    let h = chars_of(to_lowercase(hay).as_str());
    contains_chars(&h, needle)
}

/// The board cursor's row (before the overlay is consulted).
pub open spec fn focused_row_of(app: App) -> Option<Row> {
    let rows = col_rows(app.board, app.col_idx as int, app.filter_text@);
    if app.row_idx < rows.len() {
        Some(rows[app.row_idx as int])
    } else {
        None
    }
}

/// The rows per column, under the filter.
pub open spec fn shape(board: Option<Board>, filter: Seq<char>) -> Seq<nat> {
    Seq::new(ncols(board), |c: int| col_rows(board, c, filter).len())
}

impl App {
    /// A fresh client on the board screen, with nothing loaded.
    pub fn new() -> (r: App)
        ensures
            r.projects@.len() == 0,
            r.project_idx == 0,
            r.board is None,
            r.overlay@ == Map::<crate::overlay::OverlayKey, Seq<char>>::empty(),
            r.screen == Screen::Board,
            r.peek is None,
            r.stack@.len() == 0,
            r.col_idx == 0,
            r.row_idx == 0,
            forall|i: int| 0 <= i < 9 ==> #[trigger] r.list_cursors@[i].sel == 0,
            r.filter_text@.len() == 0,
            r.help_sel == 0,
            !r.applied_default_project,
            !r.quit,
    {
        App {
            projects: Vec::new(),
            project_idx: 0,
            board: None,
            overlay: Overlay::new(),
            screen: Screen::Board,
            peek: None,
            stack: Vec::new(),
            col_idx: 0,
            row_idx: 0,
            list_cursors: [ListCursor { sel: 0, scroll: 0 }; 9],
            filter_text: String::new(),
            help_sel: 0,
            applied_default_project: false,
            quit: false,
        }
    }

    /// The input-owning context: the help layer on top, else the focused
    /// peek on the board, else the board, else a list screen.
    pub fn focus(&self) -> (r: FocusKind)
        ensures
            r == focus_of(*self),
    {
        if self.stack.len() > 0 && self.stack[self.stack.len() - 1] == OverlayLayer::Help {
            return FocusKind::Help;
        }
        underlying_ctx(self)
    }

    pub fn current_project(&self) -> (r: Option<&Project>)
        ensures
            r matches Some(p) ==> self.project_idx < self.projects@.len() && *p
                == self.projects@[self.project_idx as int],
            r is None <==> self.project_idx >= self.projects@.len(),
    {
        if self.project_idx < self.projects.len() {
            Some(&self.projects[self.project_idx])
        } else {
            None
        }
    }

    /// Whether a row passes the filter.
    pub fn row_matches_filter(&self, r: &Row) -> (b: bool)
        ensures
            b == matches_filter(self.filter_text@, *r),
    {
        let f = chars_of(self.filter_text.as_str());
        if f.len() == 0 {
            return true;
        }
        let needle = chars_of(to_lowercase(self.filter_text.as_str()).as_str());
        if text_contains(r.title.as_str(), &needle) {
            return true;
        }
        if text_contains(r.reff.as_str(), &needle) {
            return true;
        }
        match &r.key_alias {
            Some(a) => text_contains(a.as_str(), &needle),
            None => false,
        }
    }

    /// Rows of board column `col`, after the filter.
    pub fn column_rows(&self, col: usize) -> (r: Vec<&Row>)
        ensures
            row_refs_view(r@) == col_rows(self.board, col as int, self.filter_text@),
    {
        let mut out: Vec<&Row> = Vec::new();
        match &self.board {
            None => {
                assert(row_refs_view(out@) =~= Seq::<Row>::empty());
                out
            },
            Some(b) => {
                if col >= b.columns.len() {
                    assert(row_refs_view(out@) =~= Seq::<Row>::empty());
                    return out;
                }
                let rows = &b.columns[col].rows;
                let mut i: usize = 0;
                while i < rows.len()
                    invariant
                        0 <= i <= rows@.len(),
                        row_refs_view(out@) == visible(self.filter_text@, rows@.subrange(0, i as int)),
                    decreases rows@.len() - i,
                {
                    proof {
                        let post = rows@.subrange(0, i + 1);
                        assert(post.drop_last() =~= rows@.subrange(0, i as int));
                        assert(post.last() == rows@[i as int]);
                    }
                    if self.row_matches_filter(&rows[i]) {
                        let ghost before = out@;
                        out.push(&rows[i]);
                        assert(row_refs_view(out@) =~= row_refs_view(before).push(rows@[i as int]));
                    }
                    i = i + 1;
                }
                assert(rows@.subrange(0, i as int) =~= rows@);
                out
            },
        }
    }

    /// The row under the board cursor.
    pub fn focused_row(&self) -> (r: Option<&Row>)
        ensures
            match (r, focused_row_of(*self)) {
                (Some(a), Some(b)) => *a == b,
                (None, None) => true,
                _ => false,
            },
    {
        let rows = self.column_rows(self.col_idx);
        if self.row_idx < rows.len() {
            Some(rows[self.row_idx])
        } else {
            None
        }
    }

    /// A row's title as the client shows it: the overlay's prediction wins
    /// until a doorbell clears it.
    pub fn effective_title(&self, r: &Row) -> (t: String)
        ensures
            t@ == effective_field(self.overlay@, r.doc_id@, "title"@, r.title@),
    {
        match self.overlay.get(r.doc_id.as_str(), "title") {
            Some(v) => String::from_str(v),
            None => r.title.clone(),
        }
    }

    /// A row's status as the client shows it.
    pub fn effective_status(&self, r: &Row) -> (t: String)
        ensures
            t@ == effective_field(self.overlay@, r.doc_id@, "status"@, r.status@),
    {
        match self.overlay.get(r.doc_id.as_str(), "status") {
            Some(v) => String::from_str(v),
            None => r.status.clone(),
        }
    }

    /// Keep the board cursor on an existing cell: the column within the
    /// board, the row within that column's visible rows (0 when empty).
    pub fn clamp_selection(&mut self)
        ensures
            same_data(*old(self), *final(self)),
            final(self).screen == old(self).screen,
            final(self).peek == old(self).peek,
            final(self).stack == old(self).stack,
            final(self).project_idx == old(self).project_idx,
            final(self).list_cursors == old(self).list_cursors,
            final(self).help_sel == old(self).help_sel,
            final(self).quit == old(self).quit,
            (final(self).col_idx, final(self).row_idx) == clamped(
                old(self).col_idx,
                old(self).row_idx,
                shape(old(self).board, old(self).filter_text@),
            ),
    {
        let n = match &self.board {
            Some(b) => b.columns.len(),
            None => 0,
        };
        if n == 0 {
            self.col_idx = 0;
            self.row_idx = 0;
            return;
        }
        if self.col_idx > n - 1 {
            self.col_idx = n - 1;
        }
        let m = self.column_rows(self.col_idx).len();
        if m == 0 {
            self.row_idx = 0;
        } else if self.row_idx > m - 1 {
            self.row_idx = m - 1;
        }
    }
}

/// A field as the client shows it: the prediction if one is held, else the
/// replica's value.
pub open spec fn effective_field(
    m: Map<crate::overlay::OverlayKey, Seq<char>>,
    doc: Seq<char>,
    field: Seq<char>,
    replica: Seq<char>,
) -> Seq<char> {
    if m.contains_key((doc, field)) {
        m[(doc, field)]
    } else {
        replica
    }
}

/// The board cursor kept on an existing cell of a board of this shape.
pub open spec fn clamped(col: usize, row: usize, shape: Seq<nat>) -> (usize, usize) {
    if shape.len() == 0 {
        (0, 0)
    } else {
        let c = if col > shape.len() - 1 {
            (shape.len() - 1) as usize
        } else {
            col
        };
        let m = shape[c as int];
        let r = if m == 0 {
            0
        } else if row > m - 1 {
            (m - 1) as usize
        } else {
            row
        };
        (c, r)
    }
}

/// The data a navigation step leaves as it was.
pub open spec fn same_data(a: App, b: App) -> bool {
    &&& a.projects == b.projects
    &&& a.board == b.board
    &&& a.overlay@ == b.overlay@
    &&& a.filter_text == b.filter_text
}

pub open spec fn underlying_of(app: App) -> FocusKind {
    match app.peek {
        Some(p) => if app.screen == Screen::Board && p.focused {
            FocusKind::Peek
        } else if app.screen == Screen::Board {
            FocusKind::Board
        } else {
            FocusKind::List
        },
        None => if app.screen == Screen::Board {
            FocusKind::Board
        } else {
            FocusKind::List
        },
    }
}

pub open spec fn focus_of(app: App) -> FocusKind {
    if app.stack@.len() > 0 && app.stack@.last() == OverlayLayer::Help {
        FocusKind::Help
    } else {
        underlying_of(app)
    }
}

/// The context the help overlay describes (what is under it).
pub fn underlying_ctx(app: &App) -> (r: FocusKind)
    ensures
        r == underlying_of(*app),
{
    match &app.peek {
        Some(p) => if app.screen == Screen::Board && p.focused {
            FocusKind::Peek
        } else if app.screen == Screen::Board {
            FocusKind::Board
        } else {
            FocusKind::List
        },
        None => if app.screen == Screen::Board {
            FocusKind::Board
        } else {
            FocusKind::List
        },
    }
}

// ---------------------------------------------------------------------------
// Moving the cursor
// ---------------------------------------------------------------------------

pub open spec fn sat_inc(x: usize) -> usize {
    if x == usize::MAX {
        x
    } else {
        (x + 1) as usize
    }
}

pub open spec fn sat_dec(x: usize) -> usize {
    if x == 0 {
        0
    } else {
        (x - 1) as usize
    }
}

pub open spec fn sat_add16(x: u16, d: u16) -> u16 {
    if x + d > u16::MAX {
        u16::MAX
    } else {
        (x + d) as u16
    }
}

pub open spec fn sat_sub16(x: u16, d: u16) -> u16 {
    if x < d {
        0
    } else {
        (x - d) as u16
    }
}

fn inc(x: usize) -> (r: usize)
    ensures
        r == sat_inc(x),
{
    if x == usize::MAX {
        x
    } else {
        x + 1
    }
}

fn dec(x: usize) -> (r: usize)
    ensures
        r == sat_dec(x),
{
    if x == 0 {
        0
    } else {
        x - 1
    }
}

fn add16(x: u16, d: u16) -> (r: u16)
    ensures
        r == sat_add16(x, d),
{
    if x > u16::MAX - d {
        u16::MAX
    } else {
        x + d
    }
}

fn sub16(x: u16, d: u16) -> (r: u16)
    ensures
        r == sat_sub16(x, d),
{
    if x < d {
        0
    } else {
        x - d
    }
}

/// The board cursor after a motion, before clamping.
pub open spec fn board_step(col: usize, row: usize, a: Action, n: nat) -> (usize, usize) {
    match a {
        Action::Down => (col, sat_inc(row)),
        Action::Up => (col, sat_dec(row)),
        Action::Right => if n > 0 {
            (if col >= n - 1 {
                (n - 1) as usize
            } else {
                (col + 1) as usize
            }, row)
        } else {
            (col, row)
        },
        Action::Left => (sat_dec(col), row),
        Action::Top => (col, 0),
        Action::Bottom => (col, usize::MAX),
        _ => (col, row),
    }
}

/// A list cursor after a motion.
pub open spec fn list_step(sel: usize, a: Action) -> usize {
    match a {
        Action::Down => sat_inc(sel),
        Action::Up => sat_dec(sel),
        Action::Top => 0,
        Action::Bottom => usize::MAX,
        _ => sel,
    }
}

/// A help or peek scroll position after a motion.
pub open spec fn help_step(sel: usize, a: Action) -> usize {
    match a {
        Action::Down => sat_inc(sel),
        Action::Up => sat_dec(sel),
        Action::Top => 0,
        _ => sel,
    }
}

pub open spec fn scroll_step(s: u16, a: Action) -> u16 {
    match a {
        Action::Down => sat_add16(s, 1),
        Action::Up => sat_sub16(s, 1),
        Action::Top => 0,
        _ => s,
    }
}

pub open spec fn top_is_help(app: App) -> bool {
    app.stack@.len() > 0 && app.stack@.last() == OverlayLayer::Help
}

pub open spec fn peek_focused(app: App) -> bool {
    app.peek matches Some(p) && p.focused
}

/// Which parts of the state a step may change; everything else stays.
pub open spec fn frame(
    o: App,
    n: App,
    screen: bool,
    peek: bool,
    stack: bool,
    project: bool,
    cursor: bool,
    lists: bool,
    help: bool,
    quit: bool,
) -> bool {
    &&& same_data(o, n)
    &&& (!screen ==> n.screen == o.screen)
    &&& (!peek ==> n.peek == o.peek)
    &&& (!stack ==> n.stack@ == o.stack@)
    &&& (!project ==> n.project_idx == o.project_idx)
    &&& (!cursor ==> n.col_idx == o.col_idx && n.row_idx == o.row_idx)
    &&& (!lists ==> n.list_cursors == o.list_cursors)
    &&& (!help ==> n.help_sel == o.help_sel)
    &&& (!quit ==> n.quit == o.quit)
}

/// The peek with only its scroll moved.
pub open spec fn peek_scrolled(p: Option<PeekState>, scroll: u16) -> Option<PeekState> {
    match p {
        Some(q) => Some(PeekState { scroll, ..q }),
        None => None,
    }
}

/// What a motion does: the help selection when help is on top; the peek's
/// scroll when the peek has focus; the board cursor (clamped) on the board;
/// the screen's list cursor elsewhere.
pub open spec fn motion_post(o: App, n: App, a: Action) -> bool {
    if top_is_help(o) {
        frame(o, n, false, false, false, false, false, false, true, false) && n.help_sel
            == help_step(o.help_sel, a)
    } else if peek_focused(o) {
        frame(o, n, false, true, false, false, false, false, false, false) && n.peek
            == peek_scrolled(o.peek, scroll_step(o.peek->0.scroll, a))
    } else if o.screen == Screen::Board {
        let sh = shape(o.board, o.filter_text@);
        let st = board_step(o.col_idx, o.row_idx, a, sh.len());
        frame(o, n, false, false, false, false, true, false, false, false) && (n.col_idx, n.row_idx)
            == clamped(st.0, st.1, sh)
    } else {
        let k = screen_index(o.screen);
        frame(o, n, false, false, false, false, false, true, false, false) && n.list_cursors@
            == o.list_cursors@.update(
            k,
            ListCursor { sel: list_step(o.list_cursors@[k].sel, a), ..o.list_cursors@[k] },
        )
    }
}

impl App {
    /// Move the focused cursor (see [`motion_post`]).
    pub fn motion(&mut self, action: Action)
        ensures
            motion_post(*old(self), *final(self), action),
    {
        if self.stack.len() > 0 && self.stack[self.stack.len() - 1] == OverlayLayer::Help {
            match action {
                Action::Down => self.help_sel = inc(self.help_sel),
                Action::Up => self.help_sel = dec(self.help_sel),
                Action::Top => self.help_sel = 0,
                _ => {},
            }
            return;
        }
        let focused = match &self.peek {
            Some(p) => p.focused,
            None => false,
        };
        if focused {
            let mut p = self.peek.take().unwrap();
            match action {
                Action::Down => p.scroll = add16(p.scroll, 1),
                Action::Up => p.scroll = sub16(p.scroll, 1),
                Action::Top => p.scroll = 0,
                _ => {},
            }
            self.peek = Some(p);
            return;
        }
        if self.screen == Screen::Board {
            let n = match &self.board {
                Some(b) => b.columns.len(),
                None => 0,
            };
            match action {
                Action::Down => self.row_idx = inc(self.row_idx),
                Action::Up => self.row_idx = dec(self.row_idx),
                Action::Right => {
                    if n > 0 {
                        self.col_idx = if self.col_idx >= n - 1 {
                            n - 1
                        } else {
                            self.col_idx + 1
                        };
                    }
                },
                Action::Left => self.col_idx = dec(self.col_idx),
                Action::Top => self.row_idx = 0,
                Action::Bottom => self.row_idx = usize::MAX,
                _ => {},
            }
            self.clamp_selection();
        } else {
            let k = screen_slot(self.screen);
            let mut cursors = self.list_cursors;
            let mut c = cursors[k];
            match action {
                Action::Down => c.sel = inc(c.sel),
                Action::Up => c.sel = dec(c.sel),
                Action::Top => c.sel = 0,
                Action::Bottom => c.sel = usize::MAX,
                _ => {},
            }
            cursors[k] = c;
            self.list_cursors = cursors;
        }
    }
}

// ---------------------------------------------------------------------------
// The action table
// ---------------------------------------------------------------------------

/// What an editor layer is for.
#[derive(Debug, Clone)]
pub enum EditorIntent {
    Create,
    EditTitle { reff: String },
    EditDescription { reff: String },
    Comment { reff: String },
    NameTab,
}

/// The workflow transitions an issue can be asked for.
#[derive(Debug, Clone, Copy, PartialEq, Eq)]
pub enum IssueMove {
    Start,
    Done,
    Stop,
}

/// What the caller does after a decision.
#[derive(Debug, Clone)]
pub enum Effect {
    Nothing,
    /// Reload the current project's board.
    ReloadBoard,
    /// Refresh whatever the current screen shows.
    RefreshCurrent,
    /// Refresh the current screen, then the peek.
    RefreshCurrentAndPeek,
    /// Fetch the focused row's issue into the peek.
    OpenPeek,
    /// Move the focused issue to the previous or next workflow column.
    StatusMove { next: bool },
    /// An editor layer was pushed; open it with this prompt and text, showing
    /// `error` under it where there is one.
    OpenEditor { intent: EditorIntent, prompt: String, initial: String, error: Option<String> },
    /// Ask the daemon to start, finish or stop an issue.
    Transition { kind: IssueMove, reff: String },
    /// Copy a ref to the clipboard.
    Yank { reff: String },
    /// An action whose screen has not landed yet.
    LandsLater(Action),
}

/// The issue an action targets: the peek's issue when the peek has focus
/// (or is open off the board), else the focused board row's.
pub open spec fn target_reff_of(app: App) -> Option<Seq<char>> {
    match app.peek {
        Some(p) => if p.focused || app.screen != Screen::Board {
            Some(p.reff@)
        } else {
            match focused_row_of(app) {
                Some(r) => Some(r.reff@),
                None => None,
            }
        },
        None => match focused_row_of(app) {
            Some(r) => Some(r.reff@),
            None => None,
        },
    }
}

/// The title an edit starts from: the focused peek's, else the focused row's
/// as shown, else nothing.
pub open spec fn target_title_of(app: App) -> Seq<char> {
    if peek_focused(app) {
        app.peek->0.title@
    } else {
        match focused_row_of(app) {
            Some(r) => effective_field(app.overlay@, r.doc_id@, "title"@, r.title@),
            None => Seq::empty(),
        }
    }
}

/// The prompt of the quick-create editor.
pub open spec fn create_prompt() -> Seq<char> {
    "new issue   (title words, then -p KEY -P prio -l label -a who)"@
}

/// An editor intent as text.
pub enum IntentView {
    Create,
    EditTitle(Seq<char>),
    EditDescription(Seq<char>),
    Comment(Seq<char>),
    NameTab,
}

pub open spec fn intent_view(i: EditorIntent) -> IntentView {
    match i {
        EditorIntent::Create => IntentView::Create,
        EditorIntent::EditTitle { reff } => IntentView::EditTitle(reff@),
        EditorIntent::EditDescription { reff } => IntentView::EditDescription(reff@),
        EditorIntent::Comment { reff } => IntentView::Comment(reff@),
        EditorIntent::NameTab => IntentView::NameTab,
    }
}

/// An editor was pushed with this intent, prompt and starting text, and no
/// error shown.
pub open spec fn opens_editor(o: App, n: App, e: Effect, intent: IntentView, prompt: Seq<char>, initial: Seq<char>) -> bool {
    &&& frame(o, n, false, false, true, false, false, false, false, false)
    &&& n.stack@ == o.stack@.push(OverlayLayer::Editor)
    &&& e matches Effect::OpenEditor { intent: i, prompt: p, initial: t, error: None }
    &&& p@ == prompt && t@ == initial && intent_view(i) == intent
}

/// Nothing changes and nothing is to be done.
pub open spec fn idle(o: App, n: App, e: Effect) -> bool {
    frame(o, n, false, false, false, false, false, false, false, false) && e is Nothing
}

/// What each action does to the state, and the effect it asks for.
pub open spec fn apply_post(o: App, n: App, a: Action, e: Effect) -> bool {
    match a {
        Action::Quit => frame(o, n, false, false, false, false, false, false, false, true) && n.quit
            && e is Nothing,
        Action::Back => e is Nothing && if o.stack@.len() > 0 {
            frame(o, n, false, false, true, false, false, false, false, false) && n.stack@
                == o.stack@.drop_last()
        } else if o.peek is Some {
            frame(o, n, false, true, false, false, false, false, false, false) && n.peek is None
        } else if o.screen != Screen::Board {
            frame(o, n, true, false, false, false, false, false, false, false) && n.screen
                == Screen::Board
        } else {
            frame(o, n, false, false, false, false, false, false, false, true) && n.quit
        },
        Action::Help => frame(o, n, false, false, true, false, false, false, false, false) && n.stack@
            == o.stack@.push(OverlayLayer::Help) && e is Nothing,
        Action::Refresh => frame(o, n, false, false, false, false, false, false, false, false)
            && e is RefreshCurrentAndPeek,
        Action::Goto(s) => frame(o, n, true, false, false, false, false, false, false, false)
            && n.screen == s && e is RefreshCurrent,
        Action::NextProject | Action::PrevProject => if o.projects@.len() == 0 {
            idle(o, n, e)
        } else {
            let k = o.projects@.len();
            &&& frame(o, n, false, true, false, true, false, false, false, false)
            &&& n.peek is None
            &&& e is ReloadBoard
            &&& n.project_idx == if a == Action::NextProject {
                (o.project_idx + 1) % (k as int)
            } else {
                (o.project_idx + k - 1) % (k as int)
            }
        },
        Action::Up | Action::Down | Action::Left | Action::Right | Action::Top | Action::Bottom => {
            motion_post(o, n, a) && e is Nothing
        },
        Action::OpenPeek => frame(o, n, false, false, false, false, false, false, false, false)
            && e is OpenPeek,
        Action::TogglePeekFocus => e is Nothing && match o.peek {
            Some(p) => frame(o, n, false, true, false, false, false, false, false, false) && n.peek
                == Some(PeekState { focused: !p.focused, ..p }),
            None => frame(o, n, false, false, false, false, false, false, false, false),
        },
        Action::ExpandPeek => e is Nothing && match o.peek {
            Some(p) => frame(o, n, false, true, false, false, false, false, false, false) && n.peek
                == Some(PeekState { expanded: !p.expanded, focused: true, ..p }),
            None => frame(o, n, false, false, false, false, false, false, false, false),
        },
        Action::StatusPrev => frame(o, n, false, false, false, false, false, false, false, false)
            && e == (Effect::StatusMove { next: false }),
        Action::StatusNext => frame(o, n, false, false, false, false, false, false, false, false)
            && e == (Effect::StatusMove { next: true }),
        Action::Create => opens_editor(o, n, e, IntentView::Create, create_prompt(), Seq::empty()),
        Action::EditTitle => match target_reff_of(o) {
            Some(t) => opens_editor(
                o,
                n,
                e,
                IntentView::EditTitle(t),
                "edit title"@,
                target_title_of(o),
            ),
            None => idle(o, n, e),
        },
        Action::EditDescription => match target_reff_of(o) {
            Some(t) => opens_editor(
                o,
                n,
                e,
                IntentView::EditDescription(t),
                "edit description"@,
                match o.peek {
                    Some(p) => p.description@,
                    None => Seq::empty(),
                },
            ),
            None => idle(o, n, e),
        },
        Action::Comment => match target_reff_of(o) {
            Some(t) => opens_editor(o, n, e, IntentView::Comment(t), "comment"@, Seq::empty()),
            None => idle(o, n, e),
        },
        Action::StartIssue | Action::DoneIssue | Action::StopIssue => match target_reff_of(o) {
            Some(t) => {
                &&& frame(o, n, false, false, false, false, false, false, false, false)
                &&& e matches Effect::Transition { kind, reff }
                &&& reff@ == t
                &&& kind == if a == Action::StartIssue {
                    IssueMove::Start
                } else if a == Action::DoneIssue {
                    IssueMove::Done
                } else {
                    IssueMove::Stop
                }
            },
            None => idle(o, n, e),
        },
        Action::YankRef => match target_reff_of(o) {
            Some(t) => {
                &&& frame(o, n, false, false, false, false, false, false, false, false)
                &&& e matches Effect::Yank { reff }
                &&& reff@ == t
            },
            None => idle(o, n, e),
        },
        Action::Submit => idle(o, n, e),
        _ => frame(o, n, false, false, false, false, false, false, false, false) && e
            == Effect::LandsLater(a),
    }
}

impl App {
    /// The issue an action targets.
    pub fn target_reff(&self) -> (r: Option<String>)
        ensures
            match (r, target_reff_of(*self)) {
                (Some(a), Some(b)) => a@ == b,
                (None, None) => true,
                _ => false,
            },
    {
        match &self.peek {
            Some(p) => {
                if p.focused || self.screen != Screen::Board {
                    return Some(p.reff.clone());
                }
            },
            None => {},
        }
        match self.focused_row() {
            Some(r) => Some(r.reff.clone()),
            None => None,
        }
    }

    /// The title an edit starts from.
    pub fn target_title(&self) -> (r: String)
        ensures
            r@ == target_title_of(*self),
    {
        match &self.peek {
            Some(p) => {
                if p.focused {
                    return p.title.clone();
                }
            },
            None => {},
        }
        match self.focused_row() {
            Some(r) => self.effective_title(r),
            None => String::new(),
        }
    }

    /// Apply one action: update the state and say what the caller must do.
    pub fn apply(&mut self, action: Action) -> (e: Effect)
        ensures
            apply_post(*old(self), *final(self), action, e),
    {
        match action {
            Action::Quit => {
                self.quit = true;
                Effect::Nothing
            },
            Action::Back => {
                if self.stack.len() > 0 {
                    self.stack.pop();
                } else if self.peek.is_some() {
                    self.peek = None;
                } else if self.screen != Screen::Board {
                    self.screen = Screen::Board;
                } else {
                    self.quit = true;
                }
                Effect::Nothing
            },
            Action::Help => {
                self.stack.push(OverlayLayer::Help);
                Effect::Nothing
            },
            Action::Refresh => Effect::RefreshCurrentAndPeek,
            Action::Goto(s) => {
                self.screen = s;
                Effect::RefreshCurrent
            },
            Action::NextProject | Action::PrevProject => {
                if self.projects.len() == 0 {
                    return Effect::Nothing;
                }
                let n = self.projects.len() as u128;
                let i = self.project_idx as u128;
                let next = if action == Action::NextProject {
                    (i + 1) % n
                } else {
                    (i + n - 1) % n
                };
                self.project_idx = next as usize;
                self.peek = None;
                Effect::ReloadBoard
            },
            Action::Up | Action::Down | Action::Left | Action::Right | Action::Top | Action::Bottom => {
                self.motion(action);
                Effect::Nothing
            },
            Action::OpenPeek => Effect::OpenPeek,
            Action::TogglePeekFocus => {
                if self.peek.is_some() {
                    let mut p = self.peek.take().unwrap();
                    p.focused = !p.focused;
                    self.peek = Some(p);
                }
                Effect::Nothing
            },
            Action::ExpandPeek => {
                if self.peek.is_some() {
                    let mut p = self.peek.take().unwrap();
                    p.expanded = !p.expanded;
                    p.focused = true;
                    self.peek = Some(p);
                }
                Effect::Nothing
            },
            Action::StatusPrev => Effect::StatusMove { next: false },
            Action::StatusNext => Effect::StatusMove { next: true },
            Action::Create => {
                self.stack.push(OverlayLayer::Editor);
                Effect::OpenEditor {
                    intent: EditorIntent::Create,
                    prompt: String::from_str(
                        "new issue   (title words, then -p KEY -P prio -l label -a who)",
                    ),
                    initial: String::new(),
                    error: None,
                }
            },
            Action::EditTitle => match self.target_reff() {
                Some(t) => {
                    let initial = self.target_title();
                    self.stack.push(OverlayLayer::Editor);
                    Effect::OpenEditor {
                        intent: EditorIntent::EditTitle { reff: t },
                        prompt: String::from_str("edit title"),
                        initial,
                        error: None,
                    }
                },
                None => Effect::Nothing,
            },
            Action::EditDescription => match self.target_reff() {
                Some(t) => {
                    let initial = match &self.peek {
                        Some(p) => p.description.clone(),
                        None => String::new(),
                    };
                    self.stack.push(OverlayLayer::Editor);
                    Effect::OpenEditor {
                        intent: EditorIntent::EditDescription { reff: t },
                        prompt: String::from_str("edit description"),
                        initial,
                        error: None,
                    }
                },
                None => Effect::Nothing,
            },
            Action::Comment => match self.target_reff() {
                Some(t) => {
                    self.stack.push(OverlayLayer::Editor);
                    Effect::OpenEditor {
                        intent: EditorIntent::Comment { reff: t },
                        prompt: String::from_str("comment"),
                        initial: String::new(),
                        error: None,
                    }
                },
                None => Effect::Nothing,
            },
            Action::StartIssue | Action::DoneIssue | Action::StopIssue => match self.target_reff() {
                Some(reff) => {
                    let kind = if action == Action::StartIssue {
                        IssueMove::Start
                    } else if action == Action::DoneIssue {
                        IssueMove::Done
                    } else {
                        IssueMove::Stop
                    };
                    Effect::Transition { kind, reff }
                },
                None => Effect::Nothing,
            },
            Action::YankRef => match self.target_reff() {
                Some(reff) => Effect::Yank { reff },
                None => Effect::Nothing,
            },
            Action::Submit => Effect::Nothing,
            _ => Effect::LandsLater(action),
        }
    }
}

/// Each issue transition asks for its own move on the issue the action
/// targets: `StartIssue` starts it, `DoneIssue` finishes it, `StopIssue`
/// stops it, and with no peek open the target is the focused board row.
/// With no target nothing is asked.
pub proof fn lemma_transitions_ask_for_their_own_move(o: App, n: App, a: Action, e: Effect)
    requires
        apply_post(o, n, a, e),
        a == Action::StartIssue || a == Action::DoneIssue || a == Action::StopIssue,
    ensures
        target_reff_of(o) is None ==> e is Nothing,
        target_reff_of(o) matches Some(t) ==> (e matches Effect::Transition { reff, .. } && reff@ == t),
        (target_reff_of(o) is Some && a == Action::StartIssue) ==> (e matches Effect::Transition {
            kind: IssueMove::Start,
            ..
        }),
        (target_reff_of(o) is Some && a == Action::DoneIssue) ==> (e matches Effect::Transition {
            kind: IssueMove::Done,
            ..
        }),
        (target_reff_of(o) is Some && a == Action::StopIssue) ==> (e matches Effect::Transition {
            kind: IssueMove::Stop,
            ..
        }),
        (o.peek is None && focused_row_of(o) is Some) ==> (e matches Effect::Transition {
            reff,
            ..
        } && reff@ == focused_row_of(o)->0.reff@),
{
}

/// Two different transition actions on the same state never ask for the
/// same move.
pub proof fn lemma_transitions_are_distinct(o: App, n1: App, n2: App, a1: Action, a2: Action, e1: Effect, e2: Effect)
    requires
        apply_post(o, n1, a1, e1),
        apply_post(o, n2, a2, e2),
        a1 == Action::StartIssue || a1 == Action::DoneIssue || a1 == Action::StopIssue,
        a2 == Action::StartIssue || a2 == Action::DoneIssue || a2 == Action::StopIssue,
        a1 != a2,
        target_reff_of(o) is Some,
    ensures
        e1 matches Effect::Transition { kind: k1, .. } && e2 matches Effect::Transition { kind: k2, .. }
            && k1 != k2,
{
}

// ---------------------------------------------------------------------------
// Moving an issue between workflow columns
// ---------------------------------------------------------------------------

/// The edit a status move asks the daemon for.
#[derive(Debug, Clone)]
pub struct StatusEdit {
    pub doc_id: String,
    pub reff: String,
    pub status: String,
}

/// The workflow states of the board's columns, in order.
pub open spec fn column_states(b: Board) -> Seq<Seq<char>> {
    b.columns@.map_values(|c: Column| c.state@)
}

/// The first position of `s` in `states`.
pub open spec fn first_state_at(states: Seq<Seq<char>>, s: Seq<char>, i: int) -> bool {
    0 <= i < states.len() && states[i] == s && forall|j: int| 0 <= j < i ==> states[j] != s
}

/// The state a status move targets: the column after (or before) the one
/// holding the focused issue's shown status; nothing at either end, without
/// a board, without a focused row, or when no column holds that status.
pub open spec fn status_target(app: App, next: bool) -> Option<(Row, Seq<char>)> {
    match (app.board, focused_row_of(app)) {
        (Some(b), Some(row)) => {
            let states = column_states(b);
            let cur = effective_field(app.overlay@, row.doc_id@, "status"@, row.status@);
            if exists|i: int| first_state_at(states, cur, i) {
                let i = choose|i: int| first_state_at(states, cur, i);
                if next {
                    if i + 1 >= states.len() {
                        None
                    } else {
                        Some((row, states[i + 1]))
                    }
                } else {
                    if i == 0 {
                        None
                    } else {
                        Some((row, states[i - 1]))
                    }
                }
            } else {
                None
            }
        },
        _ => None,
    }
}


/// The status the focused row shows (its prediction, else the replica's).
pub open spec fn shown_status(app: App, row: Row) -> Seq<char> {
    effective_field(app.overlay@, row.doc_id@, "status"@, row.status@)
}

/// A status move goes exactly one column, in its direction, and never past
/// either end: from the column at `i` (the first holding the focused row's
/// shown status) a forward move targets column `i + 1` and a backward move
/// column `i - 1`; from the last column nothing moves forward, from the
/// first nothing moves back. Whatever moves is the focused row.
pub proof fn lemma_status_moves_one_column(app: App, i: int)
    requires
        app.board is Some,
        focused_row_of(app) is Some,
        first_state_at(
            column_states(app.board->0),
            shown_status(app, focused_row_of(app)->0),
            i,
        ),
    ensures
        i + 1 == column_states(app.board->0).len() ==> status_target(app, true) is None,
        i == 0 ==> status_target(app, false) is None,
        i + 1 < column_states(app.board->0).len() ==> status_target(app, true) == Some(
            (focused_row_of(app)->0, column_states(app.board->0)[i + 1]),
        ),
        i > 0 ==> status_target(app, false) == Some(
            (focused_row_of(app)->0, column_states(app.board->0)[i - 1]),
        ),
{
    let states = column_states(app.board->0);
    let cur = shown_status(app, focused_row_of(app)->0);
    let j = choose|j: int| first_state_at(states, cur, j);
    if j < i {
        assert(states[j] != cur);
    }
    if i < j {
        assert(states[i] != cur);
    }
    assert(j == i);
}

/// A status move only ever targets a column next to the one it starts from,
/// and never when the focused row's status names no column.
pub proof fn lemma_status_target_is_adjacent(app: App, next: bool)
    requires
        status_target(app, next) is Some,
    ensures
        app.board is Some,
        focused_row_of(app) is Some,
        (status_target(app, next)->0).0 == focused_row_of(app)->0,
        exists|i: int|
            first_state_at(column_states(app.board->0), shown_status(app, focused_row_of(app)->0), i)
                && if next {
                i + 1 < column_states(app.board->0).len() && (status_target(app, next)->0).1
                    == column_states(app.board->0)[i + 1]
            } else {
                i > 0 && (status_target(app, next)->0).1 == column_states(app.board->0)[i - 1]
            },
{
    let states = column_states(app.board->0);
    let cur = shown_status(app, focused_row_of(app)->0);
    let i = choose|i: int| first_state_at(states, cur, i);
    assert(first_state_at(states, cur, i));
}

impl App {
    /// Move the focused issue to the previous or next workflow column:
    /// predict the new status in the overlay and return the edit to send.
    /// (On a refusal the caller drops the prediction with
    /// [`Overlay::clear_doc`].)
    pub fn status_move(&mut self, next: bool) -> (r: Option<StatusEdit>)
        ensures
            final(self).screen == old(self).screen,
            final(self).peek == old(self).peek,
            final(self).stack == old(self).stack,
            final(self).col_idx == old(self).col_idx,
            final(self).row_idx == old(self).row_idx,
            final(self).board == old(self).board,
            final(self).filter_text == old(self).filter_text,
            final(self).projects == old(self).projects,
            final(self).project_idx == old(self).project_idx,
            match (r, status_target(*old(self), next)) {
                (None, None) => final(self).overlay@ == old(self).overlay@,
                (Some(edit), Some((row, target))) => {
                    &&& edit.doc_id@ == row.doc_id@
                    &&& edit.reff@ == row.reff@
                    &&& edit.status@ == target
                    &&& final(self).overlay@ == old(self).overlay@.insert(
                        (row.doc_id@, "status"@),
                        target,
                    )
                },
                _ => false,
            },
    {
        let (doc, reff, cur, states) = match &self.board {
            None => return None,
            Some(b) => {
                let row = match self.focused_row() {
                    Some(r) => r,
                    None => return None,
                };
                let cur = self.effective_status(row);
                let mut states: Vec<String> = Vec::new();
                let mut k: usize = 0;
                while k < b.columns.len()
                    invariant
                        0 <= k <= b.columns@.len(),
                        states@.len() == k,
                        forall|j: int| 0 <= j < k ==> #[trigger] states@[j]@ == b.columns@[j].state@,
                    decreases b.columns@.len() - k,
                {
                    states.push(b.columns[k].state.clone());
                    k = k + 1;
                }
                (row.doc_id.clone(), row.reff.clone(), cur, states)
            },
        };
        let ghost row = focused_row_of(*self);
        let ghost sts = column_states(self.board->0);
        assert(forall|j: int| 0 <= j < states@.len() ==> states@[j]@ == sts[j]);
        assert(states@.len() == sts.len());
        let mut pos: usize = 0;
        while pos < states.len() && !same_text(states[pos].as_str(), cur.as_str())
            invariant
                0 <= pos <= states@.len(),
                states@.len() == sts.len(),
                forall|j: int| 0 <= j < states@.len() ==> states@[j]@ == sts[j],
                forall|j: int| 0 <= j < pos ==> sts[j] != cur@,
            decreases states@.len() - pos,
        {
            pos = pos + 1;
        }
        if pos == states.len() {
            assert(!exists|i: int| first_state_at(sts, cur@, i));
            return None;
        }
        assert(first_state_at(sts, cur@, pos as int));
        assert forall|i: int| first_state_at(sts, cur@, i) implies i == pos by {
            if i < pos {
                assert(sts[i] != cur@);
            }
            if i > pos {
                assert(sts[pos as int] != cur@);
            }
        }
        let target = if next {
            if pos + 1 >= states.len() {
                return None;
            }
            states[pos + 1].clone()
        } else {
            if pos == 0 {
                return None;
            }
            states[pos - 1].clone()
        };
        self.overlay.set(doc.as_str(), "status", target.as_str());
        Some(StatusEdit { doc_id: doc, reff, status: target })
    }
}

// ---------------------------------------------------------------------------
// Doorbell routing
// ---------------------------------------------------------------------------

/// A catalog scope that went dirty.
#[derive(Debug, Clone)]
pub enum CatalogScope {
    Projects,
    Workflow,
    Boards { project: String },
    /// A scope no panel of this client shows.
    Other,
}

/// A dirty-notice from the daemon: re-read, never patch.
#[derive(Debug, Clone)]
pub struct Doorbell {
    /// Everything may have changed (epoch change).
    pub reset: bool,
    /// Per project, the documents that changed.
    pub dirty_by_project: Vec<(String, Vec<String>)>,
    pub dirty_catalog: Vec<CatalogScope>,
    pub activity_advanced: bool,
    pub presence_advanced: bool,
}

/// The refreshes a doorbell calls for, in the order they run: reload the
/// project list (once per dirty projects scope), the board, the peek, the
/// inbox count, the status line.
#[derive(Debug, Clone, Copy)]
pub struct RefreshPlan {
    /// Rebaseline everything: reload projects, the current screen, the peek
    /// and the inbox count.
    pub reset: bool,
    pub reload_projects: usize,
    pub reload_board: bool,
    pub refresh_peek: bool,
    pub refresh_inbox: bool,
    pub refresh_status: bool,
}

/// The current project's id, or empty when none is selected.
pub open spec fn current_project_id(app: App) -> Seq<char> {
    if app.project_idx < app.projects@.len() {
        app.projects@[app.project_idx as int].id@
    } else {
        Seq::empty()
    }
}

/// How many dirty projects scopes the doorbell carries.
pub open spec fn projects_scopes(s: Seq<CatalogScope>) -> nat
    decreases s.len(),
{
    if s.len() == 0 {
        0
    } else {
        projects_scopes(s.drop_last()) + if s.last() is Projects {
            1nat
        } else {
            0nat
        }
    }
}

/// `d` is named by one of the first `i` projects' dirty documents.
pub open spec fn named_before(db: Doorbell, i: int, d: Seq<char>) -> bool {
    exists|a: int, b: int|
        0 <= a < i && 0 <= b < db.dirty_by_project@[a].1@.len()
            && #[trigger] db.dirty_by_project@[a].1@[b]@ == d
}

/// `d` is among the first `j` of `docs`.
pub open spec fn named_in(docs: Seq<String>, j: int, d: Seq<char>) -> bool {
    exists|b: int| 0 <= b < j && #[trigger] docs[b]@ == d
}

/// One of the first `i` dirty projects is `p`.
pub open spec fn project_before(db: Doorbell, i: int, p: Seq<char>) -> bool {
    exists|a: int| 0 <= a < i && #[trigger] db.dirty_by_project@[a].0@ == p
}

/// One of the first `k` catalog scopes dirties the board of project `p`.
pub open spec fn catalog_before(db: Doorbell, k: int, p: Seq<char>) -> bool {
    exists|a: int|
        0 <= a < k && match #[trigger] db.dirty_catalog@[a] {
            CatalogScope::Workflow => true,
            CatalogScope::Boards { project } => project@ == p,
            _ => false,
        }
}

pub open spec fn without_docs(
    m: Map<crate::overlay::OverlayKey, Seq<char>>,
    gone: spec_fn(Seq<char>) -> bool,
) -> Map<crate::overlay::OverlayKey, Seq<char>> {
    m.restrict(m.dom().filter(|k: crate::overlay::OverlayKey| !gone(k.0)))
}

/// A workflow change dirties every project's board: once the doorbell
/// carries a `Workflow` scope, whatever the project.
pub proof fn lemma_workflow_dirties_every_board(db: Doorbell, p: Seq<char>)
    requires
        exists|a: int| 0 <= a < db.dirty_catalog@.len() && #[trigger] db.dirty_catalog@[a] is Workflow,
    ensures
        catalog_before(db, db.dirty_catalog@.len() as int, p),
{
    let a = choose|a: int| 0 <= a < db.dirty_catalog@.len() && #[trigger] db.dirty_catalog@[a] is Workflow;
    assert(match db.dirty_catalog@[a] {
        CatalogScope::Workflow => true,
        CatalogScope::Boards { project } => project@ == p,
        _ => false,
    });
}

/// A `Boards` scope dirties the board of the project it names.
pub proof fn lemma_boards_scope_dirties_its_board(db: Doorbell, a: int)
    requires
        0 <= a < db.dirty_catalog@.len(),
        db.dirty_catalog@[a] is Boards,
    ensures
        catalog_before(db, db.dirty_catalog@.len() as int, db.dirty_catalog@[a]->project@),
{
}

/// Scopes that name no board (projects, or a scope this client does not
/// show) dirty no board.
pub proof fn lemma_other_scopes_dirty_no_board(db: Doorbell, p: Seq<char>)
    requires
        forall|a: int|
            0 <= a < db.dirty_catalog@.len() ==> #[trigger] db.dirty_catalog@[a] is Projects
                || db.dirty_catalog@[a] is Other,
    ensures
        !catalog_before(db, db.dirty_catalog@.len() as int, p),
{
}

impl App {
    /// Route a doorbell: every dirty scope refreshes exactly the panels that
    /// show it. Predictions for every dirty document are dropped (all of them
    /// on a reset); the returned plan names the refreshes.
    pub fn on_doorbell(&mut self, db: &Doorbell) -> (r: RefreshPlan)
        ensures
            final(self).screen == old(self).screen,
            final(self).peek == old(self).peek,
            final(self).stack == old(self).stack,
            final(self).board == old(self).board,
            final(self).filter_text == old(self).filter_text,
            final(self).projects == old(self).projects,
            final(self).project_idx == old(self).project_idx,
            final(self).col_idx == old(self).col_idx,
            final(self).row_idx == old(self).row_idx,
            r.reset == db.reset,
            db.reset ==> final(self).overlay@ == Map::<crate::overlay::OverlayKey, Seq<char>>::empty(),
            !db.reset ==> {
                let cur = current_project_id(*old(self));
                &&& final(self).overlay@ == without_docs(
                    old(self).overlay@,
                    |d: Seq<char>| named_before(*db, db.dirty_by_project@.len() as int, d),
                )
                &&& r.reload_projects == projects_scopes(db.dirty_catalog@)
                &&& r.reload_board == ((project_before(
                    *db,
                    db.dirty_by_project@.len() as int,
                    cur,
                ) || catalog_before(*db, db.dirty_catalog@.len() as int, cur))
                    && old(self).screen == Screen::Board)
                &&& r.refresh_peek == match old(self).peek {
                    Some(p) => named_before(*db, db.dirty_by_project@.len() as int, p.doc_id@),
                    None => false,
                }
                &&& r.refresh_inbox == db.activity_advanced
                &&& r.refresh_status == db.presence_advanced
            },
            (!db.reset && old(self).screen == Screen::Board && exists|a: int|
                0 <= a < db.dirty_catalog@.len() && #[trigger] db.dirty_catalog@[a] is Workflow)
                ==> r.reload_board,
    {
        if db.reset {
            self.overlay = Overlay::new();
            return RefreshPlan {
                reset: true,
                reload_projects: 0,
                reload_board: false,
                refresh_peek: false,
                refresh_inbox: false,
                refresh_status: false,
            };
        }
        let cur: String = match self.current_project() {
            Some(p) => p.id.clone(),
            None => String::new(),
        };
        assert(cur@ == current_project_id(*self));
        let ghost m0 = self.overlay@;
        let ghost pd: Option<Seq<char>> = if self.peek is Some {
            Some(self.peek->0.doc_id@)
        } else {
            None
        };
        let mut board_dirty_now = false;
        let mut peek_dirty = false;
        let mut i: usize = 0;
        proof {
            assert(without_docs(m0, |d: Seq<char>| named_before(*db, 0, d)) =~= m0);
        }
        while i < db.dirty_by_project.len()
            invariant
                self.screen == old(self).screen,
                self.peek == old(self).peek,
                self.stack == old(self).stack,
                self.board == old(self).board,
                self.filter_text == old(self).filter_text,
                self.projects == old(self).projects,
                self.project_idx == old(self).project_idx,
                self.col_idx == old(self).col_idx,
                self.row_idx == old(self).row_idx,
                0 <= i <= db.dirty_by_project@.len(),
                pd == match self.peek {
                    Some(p) => Some(p.doc_id@),
                    None => None,
                },
                self.overlay@ == without_docs(m0, |d: Seq<char>| named_before(*db, i as int, d)),
                peek_dirty == match pd {
                    Some(d) => named_before(*db, i as int, d),
                    None => false,
                },
                board_dirty_now == project_before(*db, i as int, cur@),
            decreases db.dirty_by_project@.len() - i,
        {
            let docs = &db.dirty_by_project[i].1;
            let mut j: usize = 0;
            proof {
                assert forall|d: Seq<char>| #[trigger] named_before(*db, i as int, d) == (named_before(*db, i as int, d) || named_in(docs@, 0, d)) by {}
                assert(without_docs(m0, |d: Seq<char>| named_before(*db, i as int, d) || named_in(docs@, 0, d)) =~= without_docs(m0, |d: Seq<char>| named_before(*db, i as int, d)));
            }
            while j < docs.len()
                invariant
                    self.screen == old(self).screen,
                    self.peek == old(self).peek,
                    self.stack == old(self).stack,
                    self.board == old(self).board,
                    self.filter_text == old(self).filter_text,
                    self.projects == old(self).projects,
                    self.project_idx == old(self).project_idx,
                    self.col_idx == old(self).col_idx,
                    self.row_idx == old(self).row_idx,
                    0 <= i < db.dirty_by_project@.len(),
                    docs == db.dirty_by_project@[i as int].1,
                    0 <= j <= docs@.len(),
                    pd == match self.peek {
                        Some(p) => Some(p.doc_id@),
                        None => None,
                    },
                    self.overlay@ == without_docs(
                        m0,
                        |d: Seq<char>| named_before(*db, i as int, d) || named_in(docs@, j as int, d),
                    ),
                    peek_dirty == match pd {
                        Some(d) => named_before(*db, i as int, d) || named_in(docs@, j as int, d),
                        None => false,
                    },
                decreases docs@.len() - j,
            {
                self.overlay.clear_doc(docs[j].as_str());
                let hit = match &self.peek {
                    Some(p) => same_text(docs[j].as_str(), p.doc_id.as_str()),
                    None => false,
                };
                if hit {
                    peek_dirty = true;
                }
                proof {
                    assert forall|d: Seq<char>| #[trigger] named_in(docs@, j + 1, d) == (named_in(docs@, j as int, d) || docs@[j as int]@ == d) by {
                        if named_in(docs@, j + 1, d) {
                            let b = choose|b: int| 0 <= b < j + 1 && #[trigger] docs@[b]@ == d;
                            if b < j {
                                assert(docs@[b]@ == d);
                            }
                        }
                        if docs@[j as int]@ == d {
                            assert(docs@[j as int]@ == d);
                        }
                    }
                    assert(self.overlay@ =~= without_docs(
                        m0,
                        |d: Seq<char>| named_before(*db, i as int, d) || named_in(docs@, j + 1, d),
                    ));
                }
                j = j + 1;
            }
            if same_text(db.dirty_by_project[i].0.as_str(), cur.as_str()) {
                board_dirty_now = true;
            }
            proof {
                assert forall|d: Seq<char>| #[trigger] named_before(*db, i + 1, d) == (named_before(*db, i as int, d) || named_in(docs@, docs@.len() as int, d)) by {
                    if named_before(*db, i + 1, d) {
                        let (a, b) = choose|a: int, b: int|
                            0 <= a < i + 1 && 0 <= b < db.dirty_by_project@[a].1@.len()
                                && #[trigger] db.dirty_by_project@[a].1@[b]@ == d;
                        if a == i {
                            assert(docs@[b]@ == d);
                        } else {
                            assert(named_before(*db, i as int, d));
                        }
                    }
                    if named_in(docs@, docs@.len() as int, d) {
                        let b = choose|b: int| 0 <= b < docs@.len() && #[trigger] docs@[b]@ == d;
                        assert(db.dirty_by_project@[i as int].1@[b]@ == d);
                    }
                    if named_before(*db, i as int, d) {
                        let (a, b) = choose|a: int, b: int|
                            0 <= a < i && 0 <= b < db.dirty_by_project@[a].1@.len()
                                && #[trigger] db.dirty_by_project@[a].1@[b]@ == d;
                        assert(db.dirty_by_project@[a].1@[b]@ == d);
                    }
                }
                assert(self.overlay@ =~= without_docs(m0, |d: Seq<char>| named_before(*db, i + 1, d)));
                assert forall|p: Seq<char>| #[trigger] project_before(*db, i + 1, p) == (project_before(*db, i as int, p) || db.dirty_by_project@[i as int].0@ == p) by {
                    if project_before(*db, i + 1, p) {
                        let a = choose|a: int| 0 <= a < i + 1 && #[trigger] db.dirty_by_project@[a].0@ == p;
                        if a < i {
                            assert(db.dirty_by_project@[a].0@ == p);
                        }
                    }
                    if db.dirty_by_project@[i as int].0@ == p {
                        assert(db.dirty_by_project@[i as int].0@ == p);
                    }
                    if project_before(*db, i as int, p) {
                        let a = choose|a: int| 0 <= a < i && #[trigger] db.dirty_by_project@[a].0@ == p;
                        assert(db.dirty_by_project@[a].0@ == p);
                    }
                }
            }
            i = i + 1;
        }
        let mut reload_projects: usize = 0;
        let mut k: usize = 0;
        while k < db.dirty_catalog.len()
            invariant
                self.screen == old(self).screen,
                self.peek == old(self).peek,
                self.stack == old(self).stack,
                self.board == old(self).board,
                self.filter_text == old(self).filter_text,
                self.projects == old(self).projects,
                self.project_idx == old(self).project_idx,
                self.col_idx == old(self).col_idx,
                self.row_idx == old(self).row_idx,
                0 <= k <= db.dirty_catalog@.len(),
                reload_projects == projects_scopes(db.dirty_catalog@.subrange(0, k as int)),
                reload_projects <= k,
                board_dirty_now == (project_before(*db, db.dirty_by_project@.len() as int, cur@)
                    || catalog_before(*db, k as int, cur@)),
            decreases db.dirty_catalog@.len() - k,
        {
            proof {
                let post = db.dirty_catalog@.subrange(0, k + 1);
                assert(post.drop_last() =~= db.dirty_catalog@.subrange(0, k as int));
                assert(post.last() == db.dirty_catalog@[k as int]);
                assert forall|p: Seq<char>| #[trigger] catalog_before(*db, k + 1, p) == (catalog_before(*db, k as int, p) || match db.dirty_catalog@[k as int] {
                    CatalogScope::Workflow => true,
                    CatalogScope::Boards { project } => project@ == p,
                    _ => false,
                }) by {
                    if catalog_before(*db, k + 1, p) {
                        let a = choose|a: int|
                            0 <= a < k + 1 && match #[trigger] db.dirty_catalog@[a] {
                                CatalogScope::Workflow => true,
                                CatalogScope::Boards { project } => project@ == p,
                                _ => false,
                            };
                        if a < k {
                            assert(catalog_before(*db, k as int, p));
                        }
                    }
                    if catalog_before(*db, k as int, p) {
                        let a = choose|a: int|
                            0 <= a < k && match #[trigger] db.dirty_catalog@[a] {
                                CatalogScope::Workflow => true,
                                CatalogScope::Boards { project } => project@ == p,
                                _ => false,
                            };
                        assert(0 <= a < k + 1);
                    }
                }
            }
            match &db.dirty_catalog[k] {
                CatalogScope::Projects => {
                    reload_projects = reload_projects + 1;
                },
                CatalogScope::Workflow => {
                    board_dirty_now = true;
                },
                CatalogScope::Boards { project } => {
                    if same_text(project.as_str(), cur.as_str()) {
                        board_dirty_now = true;
                    }
                },
                CatalogScope::Other => {},
            }
            k = k + 1;
        }
        assert(db.dirty_catalog@.subrange(0, k as int) =~= db.dirty_catalog@);
        proof {
            if exists|a: int| 0 <= a < db.dirty_catalog@.len() && #[trigger] db.dirty_catalog@[a] is Workflow {
                lemma_workflow_dirties_every_board(*db, cur@);
            }
        }
        RefreshPlan {
            reset: false,
            reload_projects,
            reload_board: board_dirty_now && self.screen == Screen::Board,
            refresh_peek: peek_dirty,
            refresh_inbox: db.activity_advanced,
            refresh_status: db.presence_advanced,
        }
    }
}

// ---------------------------------------------------------------------------
// Submitting an editor
// ---------------------------------------------------------------------------

/// Words joined by single spaces.
pub open spec fn join_words(ws: Seq<Seq<char>>) -> Seq<char>
    decreases ws.len(),
{
    if ws.len() == 0 {
        Seq::empty()
    } else if ws.len() == 1 {
        ws[0]
    } else {
        join_words(ws.drop_last()) + seq![' '] + ws.last()
    }
}

pub open spec fn is_flag(w: Seq<char>) -> bool {
    w.len() > 0 && w[0] == '-'
}

/// `k` is where the flags start: the first flag word, or the end.
pub open spec fn flags_start(ws: Seq<Seq<char>>, k: int) -> bool {
    &&& 0 <= k <= ws.len()
    &&& (k < ws.len() ==> is_flag(ws[k]))
    &&& forall|j: int| 0 <= j < k ==> !is_flag(#[trigger] ws[j])
}

/// The command line a quick-create line stands for: `lait new`, the bare
/// leading words as one title, then every word from the first flag on.
pub open spec fn quick_argv(line: Seq<char>) -> Seq<Seq<char>> {
    let ws = crate::palette::tokens(line);
    let k = choose|k: int| flags_start(ws, k);
    seq!["lait"@, "new"@, join_words(ws.subrange(0, k))] + ws.subrange(k, ws.len() as int)
}

proof fn lemma_flags_start_unique(ws: Seq<Seq<char>>, a: int, b: int)
    requires
        flags_start(ws, a),
        flags_start(ws, b),
    ensures
        a == b,
{
    if a < b {
        assert(!is_flag(ws[a]));
    }
    if b < a {
        assert(!is_flag(ws[b]));
    }
}

fn starts_with_dash(w: &String) -> (r: bool)
    ensures
        r == is_flag(w@),
{
    let cs = chars_of(w.as_str());
    cs.len() > 0 && cs[0] == '-'
}

/// The quick-create line parsed through the tracker's own grammar: the
/// command line it stands for.
pub fn quick_create_argv(line: &str) -> (r: Vec<String>)
    ensures
        crate::palette::string_texts(r@) == quick_argv(line@),
{
    let tokens = crate::palette::tokenize(line);
    let ghost ws = crate::palette::string_texts(tokens@);
    let mut k: usize = 0;
    while k < tokens.len() && !starts_with_dash(&tokens[k])
        invariant
            0 <= k <= tokens@.len(),
            ws == crate::palette::string_texts(tokens@),
            forall|j: int| 0 <= j < k ==> !is_flag(#[trigger] ws[j]),
        decreases tokens@.len() - k,
    {
        k = k + 1;
    }
    proof {
        assert(flags_start(ws, k as int));
        let c = choose|c: int| flags_start(ws, c);
        lemma_flags_start_unique(ws, c, k as int);
    }
    let mut title = String::new();
    let mut i: usize = 0;
    while i < k
        invariant
            0 <= i <= k <= tokens@.len(),
            ws == crate::palette::string_texts(tokens@),
            title@ == join_words(ws.subrange(0, i as int)),
        decreases k - i,
    {
        proof {
            let post = ws.subrange(0, i + 1);
            assert(post.drop_last() =~= ws.subrange(0, i as int));
            assert(post.last() == tokens@[i as int]@);
        }
        if i > 0 {
            title.append(" ");
            proof {
                reveal_strlit(" ");
            }
        }
        title.append(tokens[i].as_str());
        proof {
            if i == 0 {
                assert(ws.subrange(0, 0) =~= Seq::<Seq<char>>::empty());
                assert(title@ =~= join_words(ws.subrange(0, 1)));
            }
        }
        i = i + 1;
    }
    let mut argv: Vec<String> = Vec::new();
    argv.push(String::from_str("lait"));
    argv.push(String::from_str("new"));
    argv.push(title);
    let mut j: usize = k;
    while j < tokens.len()
        invariant
            k <= j <= tokens@.len(),
            ws == crate::palette::string_texts(tokens@),
            crate::palette::string_texts(argv@) == seq!["lait"@, "new"@, join_words(
                ws.subrange(0, k as int),
            )] + ws.subrange(k as int, j as int),
        decreases tokens@.len() - j,
    {
        let ghost before = argv@;
        argv.push(tokens[j].clone());
        assert(crate::palette::string_texts(argv@) =~= crate::palette::string_texts(before).push(
            tokens@[j as int]@,
        ));
        assert(ws.subrange(k as int, j + 1) =~= ws.subrange(k as int, j as int).push(ws[j as int]));
        j = j + 1;
    }
    argv
}

/// Where the first line of `s` ends: at its first newline, else at its end.
pub open spec fn line_end(s: Seq<char>) -> nat
    decreases s.len(),
{
    if s.len() == 0 || s[0] == '\n' {
        0
    } else {
        1 + line_end(s.subrange(1, s.len() as int))
    }
}

/// The first line of `s`, as `str::lines` gives it: up to the first newline,
/// without the carriage return of a `\r\n` ending; empty for empty `s`.
pub open spec fn first_line(s: Seq<char>) -> Seq<char> {
    let e = line_end(s) as int;
    if e < s.len() && e > 0 && s[e - 1] == '\r' {
        s.subrange(0, e - 1)
    } else {
        s.subrange(0, e)
    }
}

proof fn lemma_line_end(s: Seq<char>, i: int)
    requires
        0 <= i <= s.len(),
        forall|j: int| 0 <= j < i ==> s[j] != '\n',
        i == s.len() || s[i] == '\n',
    ensures
        line_end(s) == i,
    decreases s.len(),
{
    if s.len() > 0 && s[0] != '\n' {
        let t = s.subrange(1, s.len() as int);
        assert forall|j: int| 0 <= j < i - 1 implies t[j] != '\n' by {
            assert(t[j] == s[j + 1]);
        }
        if i < s.len() {
            assert(t[i - 1] == s[i]);
        }
        lemma_line_end(t, i - 1);
    }
}

/// The first line of `s` (see [`first_line`]).
pub fn first_line_of(s: &str) -> (r: String)
    ensures
        r@ == first_line(s@),
{
    let cs = chars_of(s);
    let mut i: usize = 0;
    while i < cs.len() && cs[i] != '\n'
        invariant
            0 <= i <= cs@.len(),
            cs@ == s@,
            forall|j: int| 0 <= j < i ==> cs@[j] != '\n',
        decreases cs@.len() - i,
    {
        i = i + 1;
    }
    proof {
        lemma_line_end(s@, i as int);
    }
    let end: usize = if i < cs.len() && i > 0 && cs[i - 1] == '\r' {
        i - 1
    } else {
        i
    };
    let mut out: Vec<char> = Vec::new();
    let mut k: usize = 0;
    while k < end
        invariant
            0 <= k <= end <= cs@.len(),
            out@ == cs@.subrange(0, k as int),
        decreases end - k,
    {
        out.push(cs[k]);
        proof {
            assert(out@ =~= cs@.subrange(0, k + 1));
        }
        k = k + 1;
    }
    crate::text::string_of(out.as_slice())
}

/// What a submitted editor asks the caller to send.
#[derive(Debug, Clone)]
pub enum SubmitPlan {
    Nothing,
    /// Parse this command line through the command grammar; on a parse
    /// error, hand `content` and the error to [`App::reopen_quick_create`].
    Create { argv: Vec<String>, content: String },
    /// Edit an issue's title or description.
    Edit { reff: String, title: Option<String>, description: Option<String> },
    Comment { reff: String, body: String },
}

impl App {
    /// Submit an editor layer's content: the request to send (quick-create
    /// goes through the command grammar). A title edit predicts the new
    /// title for the focused row in the overlay.
    pub fn submit_editor(&mut self, intent: &EditorIntent, content: &str) -> (r: SubmitPlan)
        ensures
            final(self).screen == old(self).screen,
            final(self).peek == old(self).peek,
            final(self).stack == old(self).stack,
            final(self).board == old(self).board,
            final(self).filter_text == old(self).filter_text,
            final(self).col_idx == old(self).col_idx,
            final(self).row_idx == old(self).row_idx,
            ({
                let t = crate::text::trimmed(content@);
                match *intent {
                    EditorIntent::Create => if t.len() == 0 {
                        r is Nothing && final(self).overlay@ == old(self).overlay@
                    } else {
                        &&& final(self).overlay@ == old(self).overlay@
                        &&& r matches SubmitPlan::Create { argv, content: c }
                        &&& crate::palette::string_texts(argv@) == quick_argv(t)
                        &&& c@ == t
                    },
                    EditorIntent::EditTitle { reff } => if t.len() == 0 {
                        r is Nothing && final(self).overlay@ == old(self).overlay@
                    } else {
                        &&& r matches SubmitPlan::Edit { reff: x, title: Some(y), description: None }
                        &&& x@ == reff@ && y@ == t
                        &&& final(self).overlay@ == match focused_row_of(*old(self)) {
                            Some(row) => old(self).overlay@.insert((row.doc_id@, "title"@), t),
                            None => old(self).overlay@,
                        }
                    },
                    EditorIntent::EditDescription { reff } => {
                        &&& final(self).overlay@ == old(self).overlay@
                        &&& r matches SubmitPlan::Edit { reff: x, title: None, description: Some(y) }
                        &&& x@ == reff@ && y@ == crate::text::trim_end(content@)
                    },
                    EditorIntent::Comment { reff } => if t.len() == 0 {
                        r is Nothing && final(self).overlay@ == old(self).overlay@
                    } else {
                        &&& final(self).overlay@ == old(self).overlay@
                        &&& r matches SubmitPlan::Comment { reff: x, body: y }
                        &&& x@ == reff@ && y@ == crate::text::trim_end(content@)
                    },
                    EditorIntent::NameTab => r is Nothing && final(self).overlay@ == old(self).overlay@,
                }
            }),
    {
        let trimmed = crate::text::trim(content);
        let empty = chars_of(trimmed.as_str()).len() == 0;
        match intent {
            EditorIntent::Create => {
                if empty {
                    return SubmitPlan::Nothing;
                }
                let argv = quick_create_argv(trimmed.as_str());
                SubmitPlan::Create { argv, content: trimmed }
            },
            EditorIntent::EditTitle { reff } => {
                if empty {
                    return SubmitPlan::Nothing;
                }
                let doc = match self.focused_row() {
                    Some(row) => Some(row.doc_id.clone()),
                    None => None,
                };
                match doc {
                    Some(d) => self.overlay.set(d.as_str(), "title", trimmed.as_str()),
                    None => {},
                }
                SubmitPlan::Edit { reff: reff.clone(), title: Some(trimmed), description: None }
            },
            EditorIntent::EditDescription { reff } => SubmitPlan::Edit {
                reff: reff.clone(),
                title: None,
                description: Some(crate::text::trim_end_str(content)),
            },
            EditorIntent::Comment { reff } => {
                if empty {
                    return SubmitPlan::Nothing;
                }
                SubmitPlan::Comment { reff: reff.clone(), body: crate::text::trim_end_str(content) }
            },
            EditorIntent::NameTab => SubmitPlan::Nothing,
        }
    }

    /// Reopen the quick-create editor after the command grammar refused its
    /// line: the line comes back intact, with the first line of the refusal
    /// shown under it, so a typo never loses what was typed.
    pub fn reopen_quick_create(&mut self, content: String, refusal: &str) -> (r: Effect)
        ensures
            frame(*old(self), *final(self), false, false, true, false, false, false, false, false),
            final(self).overlay@ == old(self).overlay@,
            final(self).stack@ == old(self).stack@.push(OverlayLayer::Editor),
            r matches Effect::OpenEditor { intent: i, prompt: p, initial: t, error: Some(e) },
            r matches Effect::OpenEditor { intent: i, prompt: p, initial: t, error: Some(e) } ==> (
            intent_view(i) == IntentView::Create && p@ == create_prompt() && t@ == content@ && e@
                == first_line(refusal@)),
    {
        let error = first_line_of(refusal);
        self.stack.push(OverlayLayer::Editor);
        Effect::OpenEditor {
            intent: EditorIntent::Create,
            prompt: String::from_str("new issue   (title words, then -p KEY -P prio -l label -a who)"),
            initial: content,
            error: Some(error),
        }
    }

    /// Roll back the prediction for the focused row's document (after the
    /// daemon refused an edit).
    pub fn drop_focused_prediction(&mut self)
        ensures
            final(self).screen == old(self).screen,
            final(self).peek == old(self).peek,
            final(self).board == old(self).board,
            final(self).filter_text == old(self).filter_text,
            final(self).col_idx == old(self).col_idx,
            final(self).row_idx == old(self).row_idx,
            final(self).overlay@ == match focused_row_of(*old(self)) {
                Some(row) => old(self).overlay@.restrict(
                    old(self).overlay@.dom().filter(
                        |k: crate::overlay::OverlayKey| k.0 != row.doc_id@,
                    ),
                ),
                None => old(self).overlay@,
            },
    {
        let doc = match self.focused_row() {
            Some(row) => Some(row.doc_id.clone()),
            None => None,
        };
        match doc {
            Some(d) => self.overlay.clear_doc(d.as_str()),
            None => {},
        }
    }
}

// ---------------------------------------------------------------------------
// The mouse
// ---------------------------------------------------------------------------

/// A screen rectangle, in terminal cells.
#[derive(Debug, Clone, Copy, PartialEq, Eq)]
pub struct Rect {
    pub x: u16,
    pub y: u16,
    pub width: u16,
    pub height: u16,
}

/// What a click on a region means.
#[derive(Debug, Clone, Copy, PartialEq, Eq, Structural)]
pub enum HitTarget {
    ProjectTab(usize),
    ColumnHeader(usize),
    BoardRow { col: usize, row: usize },
    Peek,
    ListRow(usize),
    LegendAction(Action),
}

/// A clickable region, rebuilt every draw (base first, overlays last).
#[derive(Debug, Clone, Copy)]
pub struct HitRegion {
    pub rect: Rect,
    pub target: HitTarget,
}

/// The kinds of mouse event the client reacts to.
#[derive(Debug, Clone, Copy, PartialEq, Eq, Structural)]
pub enum MouseKind {
    Down,
    ScrollDown,
    ScrollUp,
    Other,
}

/// A rectangle that fits on a terminal (its far edges are cells too).
pub open spec fn fits(r: Rect) -> bool {
    r.x + r.width <= u16::MAX && r.y + r.height <= u16::MAX
}

pub open spec fn inside(r: Rect, x: u16, y: u16) -> bool {
    x >= r.x && x < r.x + r.width && y >= r.y && y < r.y + r.height
}

/// Whether the cell `(x, y)` lies in `r`.
pub fn contains(r: Rect, x: u16, y: u16) -> (b: bool)
    requires
        fits(r),
    ensures
        b == inside(r, x, y),
{
    x >= r.x && x < r.x + r.width && y >= r.y && y < r.y + r.height
}

/// The topmost region under a cell: the last one drawn that contains it.
pub open spec fn hit_at(regions: Seq<HitRegion>, x: u16, y: u16) -> Option<HitTarget>
    decreases regions.len(),
{
    if regions.len() == 0 {
        None
    } else if inside(regions.last().rect, x, y) {
        Some(regions.last().target)
    } else {
        hit_at(regions.drop_last(), x, y)
    }
}

pub fn hit(regions: &[HitRegion], x: u16, y: u16) -> (r: Option<HitTarget>)
    requires
        forall|i: int| 0 <= i < regions@.len() ==> fits(#[trigger] regions@[i].rect),
    ensures
        r == hit_at(regions@, x, y),
{
    let mut i: usize = regions.len();
    assert(regions@.subrange(0, i as int) =~= regions@);
    while i > 0
        invariant
            0 <= i <= regions@.len(),
            forall|j: int| 0 <= j < regions@.len() ==> fits(#[trigger] regions@[j].rect),
            hit_at(regions@, x, y) == hit_at(regions@.subrange(0, i as int), x, y),
        decreases i,
    {
        let ghost pre = regions@.subrange(0, i as int);
        assert(pre.drop_last() =~= regions@.subrange(0, i - 1));
        assert(pre.last() == regions@[i - 1]);
        if contains(regions[i - 1].rect, x, y) {
            return Some(regions[i - 1].target);
        }
        i = i - 1;
    }
    None
}

/// What a mouse event does: a click acts on the region under it; the wheel
/// scrolls the peek when over it, else moves the cursor.
pub open spec fn mouse_post(o: App, n: App, kind: MouseKind, t: Option<HitTarget>, e: Effect) -> bool {
    match kind {
        MouseKind::Down => match t {
            Some(HitTarget::ProjectTab(i)) => if i != o.project_idx && i < o.projects@.len() {
                &&& frame(o, n, false, true, false, true, false, false, false, false)
                &&& n.project_idx == i && n.peek is None && e is ReloadBoard
            } else {
                idle(o, n, e)
            },
            Some(HitTarget::ColumnHeader(c)) => {
                &&& frame(o, n, false, false, false, false, true, false, false, false)
                &&& (n.col_idx, n.row_idx) == clamped(c, o.row_idx, shape(o.board, o.filter_text@))
                &&& e is Nothing
            },
            Some(HitTarget::BoardRow { col, row }) => {
                &&& frame(o, n, false, true, false, false, true, false, false, false)
                &&& (n.col_idx, n.row_idx) == clamped(col, row, shape(o.board, o.filter_text@))
                &&& n.peek == match o.peek {
                    Some(p) => Some(PeekState { focused: false, ..p }),
                    None => None,
                }
                &&& e is Nothing
            },
            Some(HitTarget::Peek) => {
                &&& frame(o, n, false, true, false, false, false, false, false, false)
                &&& n.peek == match o.peek {
                    Some(p) => Some(PeekState { focused: true, ..p }),
                    None => None,
                }
                &&& e is Nothing
            },
            Some(HitTarget::LegendAction(a)) => apply_post(o, n, a, e),
            Some(HitTarget::ListRow(i)) => e is Nothing && if top_is_help(o) {
                frame(o, n, false, false, false, false, false, false, true, false) && n.help_sel == i
            } else {
                let k = screen_index(o.screen);
                frame(o, n, false, false, false, false, false, true, false, false) && n.list_cursors@
                    == o.list_cursors@.update(k, ListCursor { sel: i, ..o.list_cursors@[k] })
            },
            None => idle(o, n, e),
        },
        MouseKind::ScrollDown | MouseKind::ScrollUp => {
            let down = kind == MouseKind::ScrollDown;
            if t == Some(HitTarget::Peek) {
                &&& frame(o, n, false, true, false, false, false, false, false, false)
                &&& e is Nothing
                &&& n.peek == match o.peek {
                    Some(p) => Some(
                        PeekState {
                            scroll: if down {
                                sat_add16(p.scroll, 2)
                            } else {
                                sat_sub16(p.scroll, 2)
                            },
                            ..p
                        },
                    ),
                    None => None,
                }
            } else {
                apply_post(
                    o,
                    n,
                    if down {
                        Action::Down
                    } else {
                        Action::Up
                    },
                    e,
                )
            }
        },
        MouseKind::Other => idle(o, n, e),
    }
}

impl App {
    /// React to a mouse event at cell `(x, y)` over the regions of the last
    /// draw.
    pub fn dispatch_mouse(&mut self, kind: MouseKind, x: u16, y: u16, regions: &[HitRegion]) -> (e: Effect)
        requires
            forall|i: int| 0 <= i < regions@.len() ==> fits(#[trigger] regions@[i].rect),
        ensures
            mouse_post(*old(self), *final(self), kind, hit_at(regions@, x, y), e),
    {
        match kind {
            MouseKind::Down => {
                match hit(regions, x, y) {
                    Some(HitTarget::ProjectTab(i)) => {
                        if i != self.project_idx && i < self.projects.len() {
                            self.project_idx = i;
                            self.peek = None;
                            Effect::ReloadBoard
                        } else {
                            Effect::Nothing
                        }
                    },
                    Some(HitTarget::ColumnHeader(c)) => {
                        self.col_idx = c;
                        self.clamp_selection();
                        Effect::Nothing
                    },
                    Some(HitTarget::BoardRow { col, row }) => {
                        self.col_idx = col;
                        self.row_idx = row;
                        self.clamp_selection();
                        if self.peek.is_some() {
                            let mut p = self.peek.take().unwrap();
                            p.focused = false;
                            self.peek = Some(p);
                        }
                        Effect::Nothing
                    },
                    Some(HitTarget::Peek) => {
                        if self.peek.is_some() {
                            let mut p = self.peek.take().unwrap();
                            p.focused = true;
                            self.peek = Some(p);
                        }
                        Effect::Nothing
                    },
                    Some(HitTarget::LegendAction(a)) => self.apply(a),
                    Some(HitTarget::ListRow(i)) => {
                        if self.stack.len() > 0 && self.stack[self.stack.len() - 1]
                            == OverlayLayer::Help {
                            self.help_sel = i;
                        } else {
                            let k = screen_slot(self.screen);
                            let mut cursors = self.list_cursors;
                            let mut c = cursors[k];
                            c.sel = i;
                            cursors[k] = c;
                            self.list_cursors = cursors;
                        }
                        Effect::Nothing
                    },
                    None => Effect::Nothing,
                }
            },
            MouseKind::ScrollDown | MouseKind::ScrollUp => {
                let down = kind == MouseKind::ScrollDown;
                let over_peek = match hit(regions, x, y) {
                    Some(t) => t == HitTarget::Peek,
                    None => false,
                };
                if over_peek {
                    if self.peek.is_some() {
                        let mut p = self.peek.take().unwrap();
                        p.scroll = if down {
                            add16(p.scroll, 2)
                        } else {
                            sub16(p.scroll, 2)
                        };
                        self.peek = Some(p);
                    }
                    Effect::Nothing
                } else {
                    self.apply(
                        if down {
                            Action::Down
                        } else {
                            Action::Up
                        },
                    )
                }
            },
            MouseKind::Other => Effect::Nothing,
        }
    }
}

// ---------------------------------------------------------------------------
// Taking the daemon's answers
// ---------------------------------------------------------------------------

/// Whether project `i` is the first whose key matches `key` ignoring ASCII
/// case.
pub open spec fn first_key_match(projects: Seq<Project>, key: Seq<char>, i: int) -> bool {
    &&& 0 <= i < projects.len()
    &&& eq_ignoring_ascii_case(projects[i].key@, key)
    &&& forall|j: int| 0 <= j < i ==> !eq_ignoring_ascii_case(#[trigger] projects[j].key@, key)
}

/// What refreshing the current screen fetches.
#[derive(Debug, Clone, Copy, PartialEq, Eq, Structural)]
pub enum ScreenRefresh {
    Board,
    Diagnosis,
    /// The screen holds no daemon data yet.
    Nothing,
}

/// The navigation and layers a reply leaves as they were.
pub open spec fn same_view(a: App, b: App) -> bool {
    &&& a.overlay@ == b.overlay@
    &&& a.screen == b.screen
    &&& a.stack == b.stack
    &&& a.list_cursors == b.list_cursors
    &&& a.filter_text == b.filter_text
    &&& a.help_sel == b.help_sel
    &&& a.quit == b.quit
}

impl App {
    /// Take the project list: keep the selection while it points at a
    /// project (else the first), and on the first list only, select the
    /// configured default project (the first whose key matches it ignoring
    /// ASCII case).
    #[verifier::loop_isolation(false)]
    pub fn projects_loaded(&mut self, projects: Vec<Project>, default_key: Option<&str>)
        ensures
            final(self).projects@ == projects@,
            final(self).applied_default_project,
            final(self).board == old(self).board,
            final(self).peek == old(self).peek,
            final(self).col_idx == old(self).col_idx,
            final(self).row_idx == old(self).row_idx,
            same_view(*old(self), *final(self)),
            ({
                let base = if old(self).project_idx >= projects@.len() {
                    0
                } else {
                    old(self).project_idx as int
                };
                if !old(self).applied_default_project && default_key is Some && exists|i: int|
                    first_key_match(projects@, default_key->0@, i) {
                    first_key_match(projects@, default_key->0@, final(self).project_idx as int)
                } else {
                    final(self).project_idx == base
                }
            }),
    {
        self.projects = projects;
        if self.project_idx >= self.projects.len() {
            self.project_idx = 0;
        }
        if !self.applied_default_project {
            self.applied_default_project = true;
            if let Some(key) = default_key {
                let ghost pre = *self;
                let mut i: usize = 0;
                while i < self.projects.len()
                    invariant
                        *self == pre,
                        0 <= i <= self.projects@.len(),
                        forall|j: int|
                            0 <= j < i ==> !eq_ignoring_ascii_case(
                                #[trigger] self.projects@[j].key@,
                                key@,
                            ),
                    decreases self.projects@.len() - i,
                {
                    if eq_ignore_ascii_case(self.projects[i].key.as_str(), key) {
                        self.project_idx = i;
                        assert(first_key_match(self.projects@, key@, i as int));
                        return ;
                    }
                    i = i + 1;
                }
                assert forall|k: int| !first_key_match(self.projects@, key@, k) by {
                    if 0 <= k < self.projects@.len() {
                        assert(!eq_ignoring_ascii_case(self.projects@[k].key@, key@));
                    }
                }
            }
        }
    }

    /// The project whose board to fetch; with no project selected there is
    /// no board.
    pub fn board_target(&mut self) -> (r: Option<String>)
        ensures
            r is None <==> old(self).project_idx >= old(self).projects@.len(),
            r matches Some(k) ==> k@ == old(self).projects@[old(self).project_idx as int].key@,
            r is None ==> final(self).board is None,
            r is Some ==> final(self).board == old(self).board,
            final(self).projects == old(self).projects,
            final(self).project_idx == old(self).project_idx,
            final(self).peek == old(self).peek,
            final(self).col_idx == old(self).col_idx,
            final(self).row_idx == old(self).row_idx,
            same_view(*old(self), *final(self)),
    {
        if self.project_idx < self.projects.len() {
            Some(self.projects[self.project_idx].key.clone())
        } else {
            self.board = None;
            None
        }
    }

    /// Take a fetched board, keeping the cursor on an existing cell.
    pub fn board_loaded(&mut self, board: Board)
        ensures
            final(self).board == Some(board),
            (final(self).col_idx, final(self).row_idx) == clamped(
                old(self).col_idx,
                old(self).row_idx,
                shape(Some(board), old(self).filter_text@),
            ),
            final(self).projects == old(self).projects,
            final(self).project_idx == old(self).project_idx,
            final(self).peek == old(self).peek,
            same_view(*old(self), *final(self)),
    {
        self.board = Some(board);
        self.clamp_selection();
    }

    /// Open the peek on a fetched issue: unscrolled, collapsed, unfocused.
    pub fn peek_opened(&mut self, doc_id: String, reff: String, title: String, description: String)
        ensures
            final(self).peek == Some(
                PeekState {
                    doc_id,
                    reff,
                    title,
                    description,
                    scroll: 0,
                    expanded: false,
                    focused: false,
                },
            ),
            final(self).projects == old(self).projects,
            final(self).project_idx == old(self).project_idx,
            final(self).board == old(self).board,
            final(self).col_idx == old(self).col_idx,
            final(self).row_idx == old(self).row_idx,
            same_view(*old(self), *final(self)),
    {
        self.peek = Some(
            PeekState { doc_id, reff, title, description, scroll: 0, expanded: false, focused: false },
        );
    }

    /// The ref whose issue refreshes the peek, when one is open.
    pub fn peek_target(&self) -> (r: Option<String>)
        ensures
            r is Some <==> self.peek is Some,
            r matches Some(s) ==> s@ == self.peek->0.reff@,
    {
        match &self.peek {
            Some(p) => Some(p.reff.clone()),
            None => None,
        }
    }

    /// Take a re-fetched peek issue: the content changes, the scroll, the
    /// expansion and the focus stay (no peek, no change).
    pub fn peek_refreshed(&mut self, doc_id: String, reff: String, title: String, description: String)
        ensures
            old(self).peek is None ==> final(self).peek is None,
            old(self).peek matches Some(p) ==> final(self).peek == Some(
                PeekState { doc_id, reff, title, description, ..p },
            ),
            final(self).projects == old(self).projects,
            final(self).project_idx == old(self).project_idx,
            final(self).board == old(self).board,
            final(self).col_idx == old(self).col_idx,
            final(self).row_idx == old(self).row_idx,
            same_view(*old(self), *final(self)),
    {
        match &self.peek {
            Some(p) => {
                let next = PeekState {
                    doc_id,
                    reff,
                    title,
                    description,
                    scroll: p.scroll,
                    expanded: p.expanded,
                    focused: p.focused,
                };
                self.peek = Some(next);
            },
            None => {},
        }
    }

    /// What refreshing the current screen fetches: the board on the board,
    /// the diagnosis on the doctor, nothing elsewhere yet.
    pub fn refresh_target(&self) -> (r: ScreenRefresh)
        ensures
            self.screen == Screen::Board ==> r == ScreenRefresh::Board,
            self.screen == Screen::Doctor ==> r == ScreenRefresh::Diagnosis,
            self.screen != Screen::Board && self.screen != Screen::Doctor ==> r
                == ScreenRefresh::Nothing,
    {
        match self.screen {
            Screen::Board => ScreenRefresh::Board,
            Screen::Doctor => ScreenRefresh::Diagnosis,
            _ => ScreenRefresh::Nothing,
        }
    }
}

/// What a key press leads to.
#[derive(Debug, Clone, Copy, PartialEq, Eq, Structural)]
pub enum KeyStep {
    /// Nothing: not a press, or no binding in the focused context.
    Ignore,
    /// The editor layer on top takes the raw key.
    Editor,
    /// Apply this action.
    Apply(Action),
}

/// The help entry the cursor is on (the last when past the end).
pub open spec fn help_choice(entries: Seq<Action>, sel: usize) -> Action {
    if sel < entries.len() {
        entries[sel as int]
    } else {
        entries[entries.len() - 1]
    }
}

/// What routing a key does: from state `o` to state `n`, with step `r`.
pub open spec fn key_step_post(
    o: App,
    n: App,
    press: bool,
    resolved: Option<Action>,
    help_entries: Seq<Action>,
    r: KeyStep,
) -> bool {
    if !press {
        r == KeyStep::Ignore && n == o
    } else if o.stack@.len() > 0 && o.stack@.last() == OverlayLayer::Editor {
        r == KeyStep::Editor && n == o
    } else {
        match resolved {
            None => r == KeyStep::Ignore && n == o,
            Some(a) => if focus_of(o) == FocusKind::Help && a == Action::Submit {
                if help_entries.len() == 0 {
                    r == KeyStep::Ignore && n == o
                } else {
                    &&& r == KeyStep::Apply(help_choice(help_entries, o.help_sel))
                    &&& n.stack@ == o.stack@.drop_last()
                    &&& n.help_sel == 0
                    &&& n == App { stack: n.stack, help_sel: 0, ..o }
                }
            } else {
                r == KeyStep::Apply(a) && n == o
            },
        }
    }
}

impl App {
    /// Route a key: the editor on top eats raw keys; otherwise the key's
    /// binding in the focused context (`resolved`) applies, except that
    /// `Submit` in the help overlay runs the highlighted help entry
    /// (`help_entries`, the actions the overlay lists) in the context under
    /// it, closing the overlay first.
    pub fn key_step(&mut self, press: bool, resolved: Option<Action>, help_entries: &Vec<Action>) -> (r:
        KeyStep)
        ensures
            key_step_post(*old(self), *final(self), press, resolved, help_entries@, r),
    {
        if !press {
            return KeyStep::Ignore;
        }
        if self.stack.len() > 0 && self.stack[self.stack.len() - 1] == OverlayLayer::Editor {
            return KeyStep::Editor;
        }
        let ctx = self.focus();
        let action = match resolved {
            Some(a) => a,
            None => {
                return KeyStep::Ignore;
            },
        };
        if ctx == FocusKind::Help && action == Action::Submit {
            let n = help_entries.len();
            if n == 0 {
                return KeyStep::Ignore;
            }
            let sel = if self.help_sel < n {
                self.help_sel
            } else {
                n - 1
            };
            let chosen = help_entries[sel];
            self.stack.pop();
            self.help_sel = 0;
            return KeyStep::Apply(chosen);
        }
        KeyStep::Apply(action)
    }
    /// Handle a key press: route it with [`App::key_step`], then apply the
    /// action it leads to (for `Submit` in the help overlay, the highlighted
    /// entry, after the overlay is closed). Returns the step taken and the
    /// effect the caller carries out; an `Editor` step hands the raw key to
    /// the editor on top, and nothing is applied.
    pub fn dispatch_key(&mut self, press: bool, resolved: Option<Action>, help_entries: &Vec<Action>) -> (r:
        (KeyStep, Effect))
        ensures
            exists|mid: App|
                #![trigger key_step_post(*old(self), mid, press, resolved, help_entries@, r.0)]
                key_step_post(*old(self), mid, press, resolved, help_entries@, r.0) && match r.0 {
                    KeyStep::Apply(a) => apply_post(mid, *final(self), a, r.1),
                    _ => *final(self) == mid && r.1 is Nothing,
                },
    {
        let ghost o = *self;
        let step = self.key_step(press, resolved, help_entries);
        let ghost mid = *self;
        let effect = match step {
            KeyStep::Apply(a) => self.apply(a),
            _ => Effect::Nothing,
        };
        let r = (step, effect);
        assert(key_step_post(o, mid, press, resolved, help_entries@, r.0) && match r.0 {
            KeyStep::Apply(a) => apply_post(mid, *self, a, r.1),
            _ => *self == mid && r.1 is Nothing,
        });
        r
    }
}

} // verus!
