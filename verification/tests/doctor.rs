use lait::doctor::{dir_on_path, removal_set, shadowed_by, updater_sibling};

fn p(s: &str) -> String {
    s.to_string()
}

#[test]
fn removal_set_excludes_only_the_keeper() {
    let a = p("/a/groupchat");
    let b = p("/b/groupchat");
    let c = p("/c/groupchat");
    let out = removal_set(&[a.clone(), b.clone(), c.clone()], &b);
    assert_eq!(out, vec![a, c]);
}

#[test]
fn dir_on_path_detects_presence() {
    let dirs = vec![p("/usr/bin"), p("/home/me/.cargo/bin")];
    assert!(dir_on_path(&dirs, "/home/me/.cargo/bin"));
    assert!(!dir_on_path(&dirs, "/home/me/.local/bin"));
}

#[test]
fn shadowed_by_finds_earlier_dir_with_binary() {
    let path = vec![p("/home/me/.local/bin"), p("/home/me/.cargo/bin")];
    let binary_dirs = vec![p("/home/me/.local/bin")];
    assert_eq!(shadowed_by(&path, "/home/me/.cargo/bin", &binary_dirs), Some(p("/home/me/.local/bin")));
    assert_eq!(shadowed_by(&path, "/home/me/.local/bin", &binary_dirs), None);
}

#[test]
fn updater_sibling_is_next_to_binary() {
    assert_eq!(updater_sibling("/home/me/.cargo/bin/groupchat"), p("/home/me/.cargo/bin/groupchat-update"));
}

#[test]
fn paths_compare_by_component() {
    // `Path` equality ignores a trailing slash and doubled separators.
    assert!(dir_on_path(&[p("/usr//bin/")], "/usr/bin"));
    assert_eq!(removal_set(&[p("/a/x"), p("/a//x")], "/a/x"), Vec::<String>::new());
    assert_eq!(shadowed_by(&[p("/a")], "/b", &[p("/a")]), None);
}
