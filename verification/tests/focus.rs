use code_ranker::focus::{abs_lexical, clean_path, in_focus, prefix_matches, target_subpath, under_matches, FocusPaths};

/// Whether a target-relative path falls under the given `--focus-path` entries.
/// The target is an unrelated absolute root, so bare entries are compared with
/// the printed path: the file itself, or a folder above it.
fn path_matches(rel: &str, focus: &[String]) -> bool {
    FocusPaths::new(focus, "/ws", Some("/home/user/project")).matches_target_rel(rel)
}

#[test]
fn path_matches_file_exactly_and_folder_prefix() {
    let focus = vec!["crates/a/src/plugin.rs".to_string(), "crates/b/src".to_string()];
    assert!(path_matches("crates/a/src/plugin.rs", &focus));
    assert!(path_matches("crates/b/src/registry.rs", &focus));
    assert!(!path_matches("crates/c/src/lib.rs", &focus));
    assert!(!path_matches("crates/b/src_extra.rs", &focus));
}

#[test]
fn path_matches_ignores_leading_dot_slash_and_trailing_slash() {
    let focus = vec!["./crates/a/".to_string()];
    assert!(path_matches("crates/a/src/x.rs", &focus));
    assert!(path_matches("crates/a", &focus));
}

#[test]
fn path_matches_accepts_the_target_path_itself() {
    let fp = FocusPaths::new(&["/ws/crates/a".to_string()], "/ws/crates/a", Some("/elsewhere"));
    assert!(fp.matches_target_rel("src/store.rs"));
    assert!(fp.matches_target_rel("src/repo/mod.rs"));
}

#[test]
fn focus_relative_target_and_subfolder_entry() {
    // The target written relative, an entry naming a folder under it.
    let fp = FocusPaths::new(&["crates/a/src".to_string()], "./crates/a/", Some("/repo"));
    assert!(fp.matches_id("{target}/src/lib.rs"));
    assert!(!fp.matches_id("{target}/tests/it.rs"));
    // An absolute entry under the (relative) target resolves against the cwd.
    let abs = FocusPaths::new(&["/repo/crates/a/src".to_string()], "crates/a", Some("/repo"));
    assert!(abs.matches_id("{target}/src/x.rs"));
    assert!(!abs.matches_id("{target}/benches/x.rs"));
}

#[test]
fn focus_ancestor_entry_matches_reconstructed_absolute_path() {
    let fp = FocusPaths::new(&["/ws".to_string()], "/ws/crates/a", None);
    assert!(fp.matches_id("{target}/src/a.rs"));
    let other = FocusPaths::new(&["/other".to_string()], "/ws/crates/a", None);
    assert!(!other.matches_id("{target}/src/a.rs"));
}

#[test]
fn focus_empty_set_restricts_nothing() {
    let fp = FocusPaths::new(&["./".to_string(), "".to_string()], "/ws", None);
    assert!(fp.is_empty());
    assert!(in_focus("ext:serde", &fp));
    let some = FocusPaths::new(&["src".to_string()], "/ws", None);
    assert!(!some.is_empty());
    assert!(in_focus("{target}/src/a.rs", &some));
    assert!(!in_focus("{target}/lib/a.rs", &some));
}

#[test]
fn clean_path_strips_root_token() {
    assert_eq!(clean_path("{target}/src/a.rs"), "src/a.rs");
    assert_eq!(clean_path("{registry}/serde/src/lib.rs"), "serde/src/lib.rs");
    assert_eq!(clean_path("ext:serde"), "ext:serde");
    assert_eq!(clean_path("{broken"), "{broken");
}

#[test]
fn prefix_and_under_matching_respect_boundaries() {
    assert!(prefix_matches("src", "src"));
    assert!(prefix_matches("src", "src/a.rs"));
    assert!(!prefix_matches("src", "srcs/a.rs"));
    assert!(under_matches("", "anything"));
    assert!(under_matches("src", "src/x"));
    assert!(!under_matches("src", "lib/x"));
}

#[test]
fn target_subpath_and_abs_lexical() {
    assert_eq!(abs_lexical("/a/b/", Some("/cwd")), "/a/b");
    assert_eq!(abs_lexical("rel/x", Some("/cwd")), "/cwd/rel/x");
    assert_eq!(abs_lexical("rel/x", Some("/")), "/rel/x");
    assert_eq!(abs_lexical("rel/x/", None), "rel/x");
    assert_eq!(target_subpath("crates/a", "crates/a", None).as_deref(), Some(""));
    assert_eq!(target_subpath("crates/a/src", "./crates/a/", None).as_deref(), Some("src"));
    assert_eq!(target_subpath("/cwd/t/x", "t", Some("/cwd")).as_deref(), Some("x"));
    assert_eq!(target_subpath("src", "/ws", Some("/cwd")), None);
}
