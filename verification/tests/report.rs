use code_ranker::report::{annotation_location, doc_folder_and_file, focus_scope_note, strip_root_prefix, url_tail, violation_rel_path};

#[test]
fn annotation_location_maps_target_path_with_line() {
    assert_eq!(annotation_location("{target}/crates/a/src/x.rs", Some(42)), "file=crates/a/src/x.rs,line=42,");
}

#[test]
fn annotation_location_defaults_missing_line_to_one() {
    assert_eq!(annotation_location("{target}/src/x.rs", None), "file=src/x.rs,line=1,");
}

#[test]
fn annotation_location_empty_without_a_file_path() {
    assert_eq!(annotation_location("", Some(5)), "");
    assert_eq!(annotation_location("ext:serde", None), "");
    assert_eq!(annotation_location("{target}/", Some(1)), "");
}

#[test]
fn focus_scope_note_covers_path_rule_both_and_neither() {
    assert_eq!(focus_scope_note(&vec![], &vec![]), "");
    assert_eq!(focus_scope_note(&vec!["src/a.rs".into()], &vec![]), " (focused on path src/a.rs)");
    assert_eq!(focus_scope_note(&vec![], &vec!["CPL".into()]), " (focused on rule CPL)");
    assert_eq!(
        focus_scope_note(&vec!["src/a.rs".into(), "src/b".into()], &vec!["CPL".into(), "SIZ".into()]),
        " (focused on path src/a.rs, src/b; rule CPL, SIZ)"
    );
}

#[test]
fn strip_root_prefix_token_and_external() {
    assert_eq!(strip_root_prefix("{target}/src/a.rs"), "src/a.rs");
    assert_eq!(strip_root_prefix("ext:serde"), "ext:serde");
    assert_eq!(strip_root_prefix("plain/path.rs"), "plain/path.rs");
}

#[test]
fn url_tail_extracts_corpus_path() {
    assert_eq!(url_tail("https://x/blob/main/languages/base/HK.md").as_deref(), Some("base/HK.md"));
    assert_eq!(
        url_tail("Download from https://x/main/languages/rust/SRP.md now").as_deref(),
        Some("rust/SRP.md"),
        "anchored on /languages/, trailing prose trimmed"
    );
    assert_eq!(url_tail("https://x/elsewhere/HK.md"), None);
}

#[test]
fn bare_relative_path_defaults_to_base_folder() {
    let (lang, file) = doc_folder_and_file("HK.md");
    assert_eq!((lang.as_str(), file.as_str()), ("base", "HK.md"));
}

#[test]
fn doc_folder_splits_at_first_slash() {
    let (lang, file) = doc_folder_and_file("rust/sub/SRP.md");
    assert_eq!((lang.as_str(), file.as_str()), ("rust", "sub/SRP.md"));
}

#[test]
fn violation_rel_path_only_under_target() {
    assert_eq!(violation_rel_path("{target}/src/x.rs").as_deref(), Some("src/x.rs"));
    assert_eq!(violation_rel_path("{target}/"), None);
    assert_eq!(violation_rel_path("/abs/x.rs"), None);
}
