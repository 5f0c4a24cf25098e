use lait::spaces::{
    normalize, probe_status, resolve_space, same_path, scope, space_id, space_rows, under, AttachStep,
    Attachments, Origin, SpaceStatus, WorkspaceEntry,
};

/// Whether this host follows Windows path rules.
fn host_is_windows() -> bool {
    std::path::MAIN_SEPARATOR == '\\'
}

fn entry(path: &str) -> WorkspaceEntry {
    WorkspaceEntry {
        workspace: "ws_test".into(),
        name: "Test".into(),
        path: path.into(),
        origin: Origin::Founded,
        host_nick: String::new(),
        last_opened: 0,
    }
}

#[test]
fn global_identity_sees_repo_stores_but_not_agent_homes() {
    let entries = vec![
        entry("/home/u/proj-a/.lait"),
        entry("/home/u/.config/lait/agents/scout"),
        entry("/home/u/proj-b/.lait"),
    ];
    let scoped = scope(&entries, "/home/u/.config/lait", "/home/u/.config/lait/agents", false, host_is_windows());
    let paths: Vec<&str> = scoped.iter().map(|e| e.path.as_str()).collect();
    assert_eq!(paths, vec!["/home/u/proj-a/.lait", "/home/u/proj-b/.lait"]);
}

#[test]
fn self_contained_identity_sees_only_itself() {
    let entries = vec![
        entry("/home/u/proj-a/.lait"),
        entry("/home/u/.config/lait/agents/scout"),
        entry("/home/u/.config/lait/agents/other"),
    ];
    let scoped = scope(&entries, "/home/u/.config/lait/agents/scout", "/home/u/.config/lait/agents", true, host_is_windows());
    let paths: Vec<&str> = scoped.iter().map(|e| e.path.as_str()).collect();
    assert_eq!(paths, vec!["/home/u/.config/lait/agents/scout"]);
}

#[test]
fn scoping_is_not_fooled_by_separator_or_case_drift() {
    let entries = vec![entry(r"C:\Users\U\proj\.lait")];
    let scoped = scope(&entries, "C:/users/u/proj/.lait", "C:/users/u/AppData/lait/agents", true, host_is_windows());
    if host_is_windows() {
        assert_eq!(scoped.len(), 1, "same dir, different spelling");
    }
    let entries = vec![entry("/home/u/.config/lait/agents-notreally/x")];
    let scoped = scope(&entries, "/home/u/.config/lait", "/home/u/.config/lait/agents", false, host_is_windows());
    assert_eq!(scoped.len(), 1, "'agents-notreally' is not under 'agents'");
}

#[test]
fn space_ids_are_stable_and_path_distinct() {
    assert_eq!(space_id("/home/u/a/.lait"), space_id("/home/u/a/.lait"));
    assert_ne!(space_id("/home/u/a/.lait"), space_id("/home/u/b/.lait"));
    assert_eq!(space_id("/home/u/a/.lait").len(), 16);
    assert_eq!(space_id("/home/u/a/.lait"), blake3::hash(b"/home/u/a/.lait").to_hex()[..16].to_string());
}

#[test]
fn normalization_unifies_separators_and_drops_trailing_slashes() {
    assert_eq!(normalize(r"C:\a\b\\", false), "C:/a/b");
    assert_eq!(normalize("/x/y///", false), "/x/y");
    assert_eq!(normalize("/", false), "");
    assert!(same_path(r"\home\u\", "/home/u", false));
    assert!(!same_path("/home/u", "/home/v", false));
    assert!(under("/a/b/c", "/a/b/", false));
    assert!(!under("/a/bc", "/a/b", false));
    assert!(under(r"\a\b", "/a", false));
}

#[test]
fn separator_drift_still_matches_a_self_contained_home() {
    let entries = vec![entry(r"\home\u\.lait\")];
    let scoped = scope(&entries, "/home/u/.lait", "/home/u/agents", true, host_is_windows());
    assert_eq!(scoped.len(), 1);
}

#[test]
fn a_space_id_resolves_only_within_the_identity() {
    let entries = vec![entry("/home/u/proj-a/.lait"), entry("/home/u/.config/lait/agents/scout")];
    let id_a = space_id("/home/u/proj-a/.lait");
    let id_agent = space_id("/home/u/.config/lait/agents/scout");
    assert_eq!(
        resolve_space(&entries, "/home/u/.config/lait", "/home/u/.config/lait/agents", false, host_is_windows(), &id_a),
        Some("/home/u/proj-a/.lait".to_string())
    );
    assert_eq!(
        resolve_space(&entries, "/home/u/.config/lait", "/home/u/.config/lait/agents", false, host_is_windows(), &id_agent),
        None
    );
    assert_eq!(resolve_space(&entries, "/x", "/y", false, host_is_windows(), "nope"), None);
}

#[test]
fn probe_status_fails_closed_to_idle() {
    assert_eq!(probe_status(false, true), SpaceStatus::Missing);
    assert_eq!(probe_status(false, false), SpaceStatus::Missing);
    assert_eq!(probe_status(true, true), SpaceStatus::Up);
    assert_eq!(probe_status(true, false), SpaceStatus::Idle);
    assert_eq!(SpaceStatus::Idle.as_str(), "idle");
    assert_eq!(SpaceStatus::Missing.as_str(), "missing");
    assert_eq!(SpaceStatus::Up.as_str(), "up");
}

#[test]
fn picker_rows_are_newest_first() {
    let mut a = entry("/home/u/a/.lait");
    a.last_opened = 10;
    let mut b = entry("/home/u/b/.lait");
    b.last_opened = 30;
    let mut c = entry("/home/u/c/.lait");
    c.last_opened = 20;
    let scoped = vec![&a, &b, &c];
    let rows = space_rows(&scoped, &vec![SpaceStatus::Idle, SpaceStatus::Up, SpaceStatus::Missing]);
    let paths: Vec<&str> = rows.iter().map(|r| r.path.as_str()).collect();
    assert_eq!(paths, vec!["/home/u/b/.lait", "/home/u/c/.lait", "/home/u/a/.lait"]);
    assert_eq!(rows[0].status, SpaceStatus::Up);
    assert_eq!(rows[2].status, SpaceStatus::Idle);
    assert_eq!(rows[0].id, space_id("/home/u/b/.lait"));
    assert_eq!(rows[1].last_opened, 20);
}

#[test]
fn attaching_is_idempotent() {
    let mut att = Attachments::new();
    assert_eq!(att.attach_step("abc", None), AttachStep::NoSuchSpace);
    assert_eq!(
        att.attach_step("abc", Some("/home/u/a/.lait".to_string())),
        AttachStep::Start("/home/u/a/.lait".to_string())
    );
    att.record("abc", "/home/u/a/.lait");
    assert_eq!(
        att.attach_step("abc", Some("/home/u/a/.lait".to_string())),
        AttachStep::Attached("/home/u/a/.lait".to_string())
    );
    att.record("abc", "/elsewhere");
    assert_eq!(att.home_of("abc"), Some("/home/u/a/.lait".to_string()));
    assert_eq!(att.home_of("xyz"), None);
}

#[test]
fn windows_scoping_ignores_case_and_unix_scoping_does_not() {
    let entries = vec![entry(r"C:\Users\U\proj\.lait")];
    let on_windows = scope(&entries, "C:/users/u/proj/.lait", "C:/users/u/AppData/lait/agents", true, true);
    assert_eq!(on_windows.len(), 1, "same dir, different spelling");
    let elsewhere = scope(&entries, "C:/users/u/proj/.lait", "C:/users/u/AppData/lait/agents", true, false);
    assert_eq!(elsewhere.len(), 0, "case-sensitive file systems keep the spellings apart");
    assert_eq!(normalize(r"C:\Users\U\Proj\", true), "c:/users/u/proj");
    assert_eq!(normalize(r"C:\Users\U\Proj\", false), "C:/Users/U/Proj");
    assert!(same_path("/Home/U", r"\home\u\", true));
    assert!(!same_path("/Home/U", r"\home\u\", false));
    assert!(under("/A/B/c", "/a/b", true));
    assert!(!under("/A/B/c", "/a/b", false));
}
