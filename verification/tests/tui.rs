use lait::overlay::Overlay;
use lait::tui::{
    contains, hit, quick_create_argv, Action, App, Board, CatalogScope, Column, Doorbell, Effect,
    EditorIntent, FocusKind, HitRegion, HitTarget, IssueMove, MouseKind, OverlayLayer, PeekState,
    KeyStep, Project, Rect, Row, Screen, ScreenRefresh, SubmitPlan, first_line_of,
};

fn row(doc: &str, reff: &str, title: &str, status: &str) -> Row {
    Row { doc_id: doc.into(), reff: reff.into(), title: title.into(), status: status.into(), key_alias: None }
}

fn board() -> Board {
    Board {
        columns: vec![
            Column { state: "todo".into(), rows: vec![row("d1", "ENG-1", "Fix login", "todo"), row("d2", "ENG-2", "Add search", "todo")] },
            Column { state: "doing".into(), rows: vec![row("d3", "ENG-3", "Ship it", "doing")] },
            Column { state: "done".into(), rows: vec![] },
        ],
    }
}

fn app() -> App {
    let mut a = App::new();
    a.projects = vec![Project { id: "p1".into(), key: "ENG".into() }, Project { id: "p2".into(), key: "OPS".into() }];
    a.board = Some(board());
    a
}

fn peek(doc: &str, reff: &str) -> PeekState {
    PeekState { doc_id: doc.into(), reff: reff.into(), title: "T".into(), description: "D".into(), scroll: 0, expanded: false, focused: false }
}

#[test]
fn overlay_predictions_win_until_cleared() {
    let mut o = Overlay::new();
    assert!(!o.has("d1"));
    o.set("d1", "title", "New");
    o.set("d1", "status", "doing");
    o.set("d2", "title", "Other");
    o.set("d1", "title", "Newer");
    assert_eq!(o.get("d1", "title"), Some("Newer"));
    assert_eq!(o.get("d1", "status"), Some("doing"));
    assert!(o.has("d1"));
    o.clear_doc("d1");
    assert_eq!(o.get("d1", "title"), None);
    assert!(!o.has("d1"));
    assert_eq!(o.get("d2", "title"), Some("Other"));
    let d: Overlay = Default::default();
    assert!(!d.has("d2"));
}

#[test]
fn the_cursor_moves_and_is_clamped_to_the_board() {
    let mut a = app();
    assert_eq!(a.apply(Action::Down).clone_kind(), "nothing");
    assert_eq!((a.col_idx, a.row_idx), (0, 1));
    a.apply(Action::Down);
    assert_eq!((a.col_idx, a.row_idx), (0, 1));
    a.apply(Action::Right);
    assert_eq!((a.col_idx, a.row_idx), (1, 0));
    a.apply(Action::Right);
    a.apply(Action::Right);
    assert_eq!((a.col_idx, a.row_idx), (2, 0));
    a.apply(Action::Left);
    a.apply(Action::Left);
    a.apply(Action::Bottom);
    assert_eq!((a.col_idx, a.row_idx), (0, 1));
    a.apply(Action::Top);
    assert_eq!(a.row_idx, 0);
    a.apply(Action::Up);
    assert_eq!(a.row_idx, 0);
}

trait Kind {
    fn clone_kind(&self) -> &'static str;
}

impl Kind for Effect {
    fn clone_kind(&self) -> &'static str {
        match self {
            Effect::Nothing => "nothing",
            Effect::ReloadBoard => "reload",
            Effect::RefreshCurrent => "refresh",
            Effect::RefreshCurrentAndPeek => "refresh+peek",
            Effect::OpenPeek => "peek",
            Effect::StatusMove { .. } => "status",
            Effect::OpenEditor { .. } => "editor",
            Effect::Transition { .. } => "transition",
            Effect::Yank { .. } => "yank",
            Effect::LandsLater(_) => "later",
        }
    }
}

#[test]
fn the_filter_hides_rows_case_insensitively() {
    let mut a = app();
    a.filter_text = "SEARCH".into();
    let rows = a.column_rows(0);
    assert_eq!(rows.len(), 1);
    assert_eq!(rows[0].reff, "ENG-2");
    a.filter_text = "eng-3".into();
    assert_eq!(a.column_rows(1).len(), 1);
    assert_eq!(a.column_rows(0).len(), 0);
    assert_eq!(a.column_rows(7).len(), 0);
    a.row_idx = 5;
    a.clamp_selection();
    assert_eq!(a.row_idx, 0);
}

#[test]
fn back_pops_the_stack_then_the_peek_then_the_screen_then_quits() {
    let mut a = app();
    a.apply(Action::Help);
    assert_eq!(a.focus(), FocusKind::Help);
    a.peek = Some(peek("d1", "ENG-1"));
    a.screen = Screen::Inbox;
    a.apply(Action::Back);
    assert!(a.stack.is_empty());
    a.apply(Action::Back);
    assert!(a.peek.is_none());
    assert_eq!(a.focus(), FocusKind::List);
    a.apply(Action::Back);
    assert_eq!(a.screen, Screen::Board);
    assert!(!a.quit);
    a.apply(Action::Back);
    assert!(a.quit);
}

#[test]
fn projects_cycle_both_ways() {
    let mut a = app();
    assert_eq!(a.apply(Action::PrevProject).clone_kind(), "reload");
    assert_eq!(a.project_idx, 1);
    a.apply(Action::NextProject);
    assert_eq!(a.project_idx, 0);
    let mut empty = App::new();
    assert_eq!(empty.apply(Action::NextProject).clone_kind(), "nothing");
}

#[test]
fn help_and_peek_motions() {
    let mut a = app();
    a.stack.push(OverlayLayer::Help);
    a.apply(Action::Down);
    a.apply(Action::Down);
    assert_eq!(a.help_sel, 2);
    a.apply(Action::Top);
    assert_eq!(a.help_sel, 0);
    a.stack.clear();
    a.peek = Some(peek("d1", "ENG-1"));
    a.apply(Action::TogglePeekFocus);
    assert_eq!(a.focus(), FocusKind::Peek);
    a.apply(Action::Down);
    assert_eq!(a.peek.as_ref().unwrap().scroll, 1);
    a.apply(Action::ExpandPeek);
    assert!(a.peek.as_ref().unwrap().expanded);
    a.screen = Screen::Log;
    a.peek = None;
    a.apply(Action::Down);
    a.apply(Action::Down);
    assert_eq!(a.list_cursors[8].sel, 2);
}

#[test]
fn issue_actions_target_the_focused_row_or_peek() {
    let mut a = app();
    a.row_idx = 1;
    match a.apply(Action::StartIssue) {
        Effect::Transition { kind, reff } => {
            assert_eq!(kind, IssueMove::Start);
            assert_eq!(reff, "ENG-2");
        }
        _ => panic!("expected a transition"),
    }
    match a.apply(Action::EditTitle) {
        Effect::OpenEditor { intent: EditorIntent::EditTitle { reff }, prompt, initial, error } => {
            assert_eq!(error, None);
            assert_eq!(reff, "ENG-2");
            assert_eq!(prompt, "edit title");
            assert_eq!(initial, "Add search");
        }
        _ => panic!("expected an editor"),
    }
    assert_eq!(a.stack, vec![OverlayLayer::Editor]);
    let mut p = peek("d9", "ENG-9");
    p.focused = true;
    a.peek = Some(p);
    match a.apply(Action::YankRef) {
        Effect::Yank { reff } => assert_eq!(reff, "ENG-9"),
        _ => panic!("expected a yank"),
    }
    assert_eq!(a.apply(Action::OpenPalette).clone_kind(), "later");
    a.board = None;
    a.peek = None;
    assert_eq!(a.apply(Action::Comment).clone_kind(), "nothing");
}

#[test]
fn status_moves_predict_then_roll_back() {
    let mut a = app();
    let edit = a.status_move(true).expect("a next column exists");
    assert_eq!(edit.status, "doing");
    assert_eq!(edit.reff, "ENG-1");
    assert_eq!(a.overlay.get("d1", "status"), Some("doing"));
    assert_eq!(a.effective_status(&board().columns[0].rows[0]), "doing");
    // From the predicted "doing", the previous column is "todo".
    let back = a.status_move(false).unwrap();
    assert_eq!(back.status, "todo");
    a.drop_focused_prediction();
    assert_eq!(a.overlay.get("d1", "status"), None);
    assert!(a.status_move(false).is_none(), "nothing before the first column");
}

#[test]
fn doorbells_clear_predictions_and_plan_refreshes() {
    let mut a = app();
    a.peek = Some(peek("d3", "ENG-3"));
    a.overlay.set("d1", "title", "x");
    a.overlay.set("d3", "title", "y");
    a.overlay.set("d9", "title", "z");
    let db = Doorbell {
        reset: false,
        dirty_by_project: vec![("p1".into(), vec!["d1".into(), "d3".into()])],
        dirty_catalog: vec![CatalogScope::Projects, CatalogScope::Other, CatalogScope::Projects],
        activity_advanced: true,
        presence_advanced: false,
    };
    let plan = a.on_doorbell(&db);
    assert!(!plan.reset);
    assert_eq!(plan.reload_projects, 2);
    assert!(plan.reload_board);
    assert!(plan.refresh_peek);
    assert!(plan.refresh_inbox);
    assert!(!plan.refresh_status);
    assert_eq!(a.overlay.get("d1", "title"), None);
    assert_eq!(a.overlay.get("d9", "title"), Some("z"));
    let other = Doorbell {
        reset: false,
        dirty_by_project: vec![("p2".into(), vec![])],
        dirty_catalog: vec![CatalogScope::Boards { project: "p2".into() }],
        activity_advanced: false,
        presence_advanced: true,
    };
    let plan = a.on_doorbell(&other);
    assert!(!plan.reload_board);
    assert!(!plan.refresh_peek);
    let reset = Doorbell { reset: true, dirty_by_project: vec![], dirty_catalog: vec![], activity_advanced: false, presence_advanced: false };
    assert!(a.on_doorbell(&reset).reset);
    assert_eq!(a.overlay.get("d9", "title"), None);
}

#[test]
fn quick_create_splits_title_words_from_flags() {
    assert_eq!(
        quick_create_argv(r#"fix "the login" race -p ENG -P high trailing"#),
        vec!["lait", "new", "fix the login race", "-p", "ENG", "-P", "high", "trailing"]
    );
    assert_eq!(quick_create_argv("-p ENG"), vec!["lait", "new", "", "-p", "ENG"]);
}

#[test]
fn submitting_editors() {
    let mut a = app();
    match a.submit_editor(&EditorIntent::Create, "  fix it -p ENG  ") {
        SubmitPlan::Create { argv, content } => {
            assert_eq!(argv, vec!["lait", "new", "fix it", "-p", "ENG"]);
            assert_eq!(content, "fix it -p ENG");
        }
        _ => panic!("expected a create"),
    }
    assert!(matches!(a.submit_editor(&EditorIntent::Create, "   "), SubmitPlan::Nothing));
    match a.submit_editor(&EditorIntent::EditTitle { reff: "ENG-1".into() }, " New title ") {
        SubmitPlan::Edit { reff, title, description } => {
            assert_eq!(reff, "ENG-1");
            assert_eq!(title.as_deref(), Some("New title"));
            assert!(description.is_none());
        }
        _ => panic!("expected an edit"),
    }
    assert_eq!(a.overlay.get("d1", "title"), Some("New title"));
    match a.submit_editor(&EditorIntent::EditDescription { reff: "ENG-1".into() }, "  body\n\n") {
        SubmitPlan::Edit { description, .. } => assert_eq!(description.as_deref(), Some("  body")),
        _ => panic!("expected an edit"),
    }
    match a.submit_editor(&EditorIntent::Comment { reff: "ENG-1".into() }, "ship it  ") {
        SubmitPlan::Comment { body, .. } => assert_eq!(body, "ship it"),
        _ => panic!("expected a comment"),
    }
    assert!(matches!(a.submit_editor(&EditorIntent::NameTab, "x"), SubmitPlan::Nothing));
}

#[test]
fn clicks_hit_the_topmost_region() {
    let base = HitRegion { rect: Rect { x: 0, y: 0, width: 10, height: 10 }, target: HitTarget::BoardRow { col: 1, row: 0 } };
    let over = HitRegion { rect: Rect { x: 5, y: 5, width: 5, height: 5 }, target: HitTarget::Peek };
    assert!(contains(base.rect, 9, 9));
    assert!(!contains(base.rect, 10, 0));
    assert_eq!(hit(&[base, over], 6, 6), Some(HitTarget::Peek));
    assert_eq!(hit(&[base, over], 1, 1), Some(HitTarget::BoardRow { col: 1, row: 0 }));
    assert_eq!(hit(&[base, over], 20, 1), None);
    let mut a = app();
    a.peek = Some(peek("d3", "ENG-3"));
    a.dispatch_mouse(MouseKind::Down, 1, 1, &[base, over]);
    assert_eq!((a.col_idx, a.row_idx), (1, 0));
    a.dispatch_mouse(MouseKind::Down, 6, 6, &[base, over]);
    assert!(a.peek.as_ref().unwrap().focused);
    a.dispatch_mouse(MouseKind::ScrollDown, 6, 6, &[base, over]);
    assert_eq!(a.peek.as_ref().unwrap().scroll, 2);
    let tab = HitRegion { rect: Rect { x: 0, y: 20, width: 5, height: 1 }, target: HitTarget::ProjectTab(1) };
    assert_eq!(a.dispatch_mouse(MouseKind::Down, 0, 20, &[tab]).clone_kind(), "reload");
    assert_eq!(a.project_idx, 1);
    assert!(a.peek.is_none());
}

#[test]
fn the_first_project_list_applies_the_default_project_once() {
    let mut a = App::new();
    let list = || vec![
        Project { id: "p1".into(), key: "ENG".into() },
        Project { id: "p2".into(), key: "OPS".into() },
        Project { id: "p3".into(), key: "ops".into() },
    ];
    a.projects_loaded(list(), Some("Ops"));
    assert_eq!(a.project_idx, 1);
    assert!(a.applied_default_project);
    a.project_idx = 0;
    a.projects_loaded(list(), Some("OPS"));
    assert_eq!(a.project_idx, 0, "the default applies on the first list only");
    a.project_idx = 7;
    a.projects_loaded(list(), None);
    assert_eq!(a.project_idx, 0, "a selection past the list falls back to the first");
    let mut b = App::new();
    b.project_idx = 1;
    b.projects_loaded(list(), Some("nope"));
    assert_eq!(b.project_idx, 1);
}

#[test]
fn boards_are_fetched_for_the_current_project() {
    let mut a = app();
    assert_eq!(a.board_target(), Some("ENG".to_string()));
    assert!(a.board.is_some());
    a.project_idx = 5;
    assert_eq!(a.board_target(), None);
    assert!(a.board.is_none());
    let mut b = app();
    b.col_idx = 2;
    b.row_idx = 4;
    b.board_loaded(board());
    assert_eq!((b.col_idx, b.row_idx), (2, 0));
    b.col_idx = 9;
    b.board_loaded(board());
    assert_eq!(b.col_idx, 2);
}

#[test]
fn the_peek_keeps_its_view_state_across_refreshes() {
    let mut a = app();
    a.peek_refreshed("d9".into(), "ENG-9".into(), "x".into(), "y".into());
    assert!(a.peek.is_none(), "no peek, no change");
    a.peek_opened("d1".into(), "ENG-1".into(), "Fix login".into(), "body".into());
    assert_eq!(a.peek_target(), Some("ENG-1".to_string()));
    let p = a.peek.clone().unwrap();
    assert_eq!((p.scroll, p.expanded, p.focused), (0, false, false));
    if let Some(p) = &mut a.peek {
        p.scroll = 4;
        p.focused = true;
    }
    a.peek_refreshed("d1".into(), "ENG-1".into(), "Fix login (edited)".into(), "new".into());
    let p = a.peek.clone().unwrap();
    assert_eq!(p.title, "Fix login (edited)");
    assert_eq!(p.description, "new");
    assert_eq!((p.scroll, p.focused), (4, true));
}

#[test]
fn refreshing_fetches_what_the_screen_shows() {
    let mut a = app();
    assert_eq!(a.refresh_target(), ScreenRefresh::Board);
    a.screen = Screen::Doctor;
    assert_eq!(a.refresh_target(), ScreenRefresh::Diagnosis);
    a.screen = Screen::Inbox;
    assert_eq!(a.refresh_target(), ScreenRefresh::Nothing);
}

#[test]
fn keys_route_through_editor_help_and_bindings() {
    let mut a = app();
    assert_eq!(a.key_step(false, Some(Action::Down), &vec![]), KeyStep::Ignore);
    assert_eq!(a.key_step(true, None, &vec![]), KeyStep::Ignore);
    assert_eq!(a.key_step(true, Some(Action::Down), &vec![]), KeyStep::Apply(Action::Down));
    a.stack.push(OverlayLayer::Editor);
    assert_eq!(a.key_step(true, Some(Action::Down), &vec![]), KeyStep::Editor);
    a.stack.pop();
    a.stack.push(OverlayLayer::Help);
    a.help_sel = 7;
    let entries = vec![Action::OpenPeek, Action::Refresh];
    assert_eq!(a.key_step(true, Some(Action::Submit), &vec![]), KeyStep::Ignore);
    assert_eq!(a.stack.len(), 1);
    assert_eq!(a.key_step(true, Some(Action::Submit), &entries), KeyStep::Apply(Action::Refresh));
    assert!(a.stack.is_empty());
    assert_eq!(a.help_sel, 0);
    a.stack.push(OverlayLayer::Help);
    assert_eq!(a.key_step(true, Some(Action::Down), &entries), KeyStep::Apply(Action::Down));
    assert_eq!(a.stack.len(), 1);
}

#[test]
fn a_refused_quick_create_reopens_the_editor_with_the_line_and_the_error() {
    let mut a = app();
    let line = "fix login -P urgent";
    let plan = a.submit_editor(&EditorIntent::Create, line);
    let content = match plan {
        SubmitPlan::Create { content, .. } => content,
        _ => panic!("expected a create plan"),
    };
    assert!(a.stack.is_empty());
    let refusal = "error: invalid value 'urgent' for '-P <PRIORITY>'\r\n\nFor more information, try '--help'.\n";
    match a.reopen_quick_create(content, refusal) {
        Effect::OpenEditor { intent: EditorIntent::Create, prompt, initial, error } => {
            assert_eq!(prompt, "new issue   (title words, then -p KEY -P prio -l label -a who)");
            assert_eq!(initial, line);
            assert_eq!(error.as_deref(), Some("error: invalid value 'urgent' for '-P <PRIORITY>'"));
        }
        _ => panic!("expected the quick-create editor"),
    }
    assert_eq!(a.stack, vec![OverlayLayer::Editor]);
}

#[test]
fn first_lines_follow_str_lines() {
    for s in ["", "one", "one\ntwo", "one\r\ntwo", "\nlater", "a\rb\n"] {
        assert_eq!(first_line_of(s), s.lines().next().unwrap_or(""), "{:?}", s);
    }
}

#[test]
fn enter_in_help_closes_it_and_runs_the_highlighted_action() {
    let mut a = app();
    a.stack.push(OverlayLayer::Help);
    a.help_sel = 1;
    let entries = vec![Action::Refresh, Action::Create, Action::Quit];
    let (step, effect) = a.dispatch_key(true, Some(Action::Submit), &entries);
    assert_eq!(step, KeyStep::Apply(Action::Create));
    assert_eq!(a.help_sel, 0);
    assert_eq!(a.stack, vec![OverlayLayer::Editor], "help closed, then the create editor opened");
    match effect {
        Effect::OpenEditor { intent: EditorIntent::Create, initial, error, .. } => {
            assert_eq!(initial, "");
            assert_eq!(error, None);
        }
        _ => panic!("expected the quick-create editor"),
    }
    let (step, effect) = a.dispatch_key(true, Some(Action::Down), &entries);
    assert_eq!(step, KeyStep::Editor);
    assert_eq!(effect.clone_kind(), "nothing");
    let (step, _) = a.dispatch_key(false, Some(Action::Quit), &entries);
    assert_eq!(step, KeyStep::Ignore);
    assert!(!a.quit);
}
