use code_ranker::plugins::{decide_detection, detect, find_plugin, names, versions, PluginInfo};

fn registry() -> Vec<PluginInfo> {
    vec![
        PluginInfo { name: "rust".into(), aliases: vec![], markers: vec!["Cargo.toml".into()] },
        PluginInfo { name: "python".into(), aliases: vec!["py".into()], markers: vec!["pyproject.toml".into()] },
        PluginInfo {
            name: "javascript".into(),
            aliases: vec!["typescript".into(), "js".into(), "ts".into()],
            markers: vec!["package.json".into()],
        },
    ]
}

#[test]
fn names_join_canonical_names() {
    assert_eq!(names(&registry()), "rust, python, javascript");
    assert_eq!(names(&vec![]), "");
}

#[test]
fn plugins_match_by_name_or_alias() {
    let reg = registry();
    assert!(reg[2].matches("ts") && reg[2].matches("javascript"));
    assert!(!reg[0].matches("py"));
    assert_eq!(find_plugin(&reg, "py"), Some(1));
    assert_eq!(find_plugin(&reg, "go"), None);
}

#[test]
fn versions_come_from_the_matching_plugin() {
    let reg = registry();
    let v = versions(&reg, "ts", |i| vec![("plugin".to_string(), i.to_string())]);
    assert_eq!(v, vec![("plugin".to_string(), "2".to_string())]);
    assert!(versions(&reg, "go", |_| vec![("x".to_string(), "y".to_string())]).is_empty());
}

#[test]
fn detection_decides_on_the_plugins_found() {
    assert_eq!(decide_detection(&vec!["rust".into()], "/ws", "rust, python"), Ok("rust".to_string()));
    assert_eq!(
        decide_detection(&vec![], "/ws", "rust, python"),
        Err("could not auto-detect a plugin in /ws: no project marker found — pass --plugin rust, python".to_string())
    );
    assert_eq!(
        decide_detection(&vec!["rust".into(), "python".into()], "/ws", "rust, python"),
        Err("ambiguous project in /ws: markers for multiple plugins found (rust, python) — pass --plugin to choose".to_string())
    );
}

/// Creates an empty file named exactly `name` in `dir`.
fn touch(dir: &tempfile::TempDir, name: &str) -> tempfile::NamedTempFile {
    tempfile::Builder::new().prefix(name).suffix("").rand_bytes(0).tempfile_in(dir.path()).unwrap()
}

#[test]
fn detect_reads_markers_from_disk() {
    let dir = tempfile::tempdir().unwrap();
    let ws = dir.path().to_str().unwrap().to_string();
    assert!(detect(&registry(), &ws).is_err());
    let _cargo = touch(&dir, "Cargo.toml");
    assert_eq!(detect(&registry(), &ws), Ok("rust".to_string()));
    let _pkg = touch(&dir, "package.json");
    assert!(detect(&registry(), &ws).unwrap_err().starts_with("ambiguous project in"));
}

#[test]
fn detect_with_marker_checks_file_presence() {
    let dir = tempfile::tempdir().unwrap();
    let ws = dir.path().to_str().unwrap();
    assert!(!code_ranker::paths::detect_with_marker(ws, "code-ranker-no-such-marker.xyz"));
    let _m = touch(&dir, "marker.txt");
    assert!(code_ranker::paths::detect_with_marker(ws, "marker.txt"));
}

#[test]
fn plugin_without_markers_is_never_detected() {
    let dir = tempfile::tempdir().unwrap();
    let ws = dir.path().to_str().unwrap().to_string();
    let _cargo = touch(&dir, "Cargo.toml");
    let reg = vec![PluginInfo { name: "bare".into(), aliases: vec![], markers: vec![] }];
    assert!(detect(&reg, &ws).unwrap_err().starts_with("could not auto-detect a plugin in"));
}
