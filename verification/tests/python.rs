use code_ranker::maps::NameMap;
use code_ranker::python::{
    absolute_base, build_module_index, external_top_level, file_to_module_path, is_test_file, py_is_test_path,
    py_visibility_str, resolve_import, test_conventions, uses_edge_kind,
};

#[test]
fn py_is_test_path_matches_conventions() {
    for p in [
        "tests/test_x.py",
        "pkg/tests/helper.py",
        "test/helper.py",
        "conftest.py",
        "pkg/conftest.py",
        "test_module.py",
        "pkg/test_module.py",
        "module_test.py",
    ] {
        assert!(py_is_test_path(p), "should be a test: {p}");
    }
    for p in ["pkg/module.py", "pkg/contest.py", "pkg/test_data.txt", "latest.py"] {
        assert!(!py_is_test_path(p), "should not be a test: {p}");
    }
}

#[test]
fn test_convention_lists_load_from_config() {
    let k = test_conventions();
    assert_eq!(k.test_dirs, ["tests", "test"]);
    assert_eq!(k.test_files, ["conftest.py"]);
    assert_eq!(k.test_prefixes, ["test_"]);
    assert_eq!(k.test_suffixes, ["_test.py"]);
}

#[test]
fn uses_edge_kind_resolves_against_published_vocab() {
    assert_eq!(uses_edge_kind(), "uses");
}

#[test]
fn absolute_base_anchors_relative_imports() {
    assert_eq!(absolute_base("parser.shops", "a.b.c"), "parser.shops");
    assert_eq!(absolute_base(".", "a.b.c"), "a.b");
    assert_eq!(absolute_base(".utils", "a.b.c"), "a.b.utils");
    assert_eq!(absolute_base("..shops", "a.b.c"), "a.shops");
    assert_eq!(absolute_base("....x", "a.b"), "x");
}

#[test]
fn file_to_module_path_maps_packages_and_modules() {
    assert_eq!(
        file_to_module_path("/ws", "/ws/parser/shops/amazon/pdp.py").as_deref(),
        Some("parser.shops.amazon.pdp")
    );
    assert_eq!(
        file_to_module_path("/ws", "/ws/parser/shops/amazon/__init__.py").as_deref(),
        Some("parser.shops.amazon")
    );
    assert_eq!(file_to_module_path("/ws", "/other/x.py"), None);
}

#[test]
fn resolve_import_reaches_names_and_base() {
    let files = vec![
        "/ws/pkg/__init__.py".to_string(),
        "/ws/pkg/a.py".to_string(),
        "/ws/pkg/b.py".to_string(),
    ];
    let index = build_module_index("/ws", &files);
    let got = resolve_import("pkg", &vec!["a".to_string(), "missing".to_string()], "main", &index);
    assert_eq!(got, vec!["/ws/pkg/a.py".to_string(), "/ws/pkg/__init__.py".to_string()]);
    let rel = resolve_import(".", &vec!["b".to_string()], "pkg.a", &index);
    assert_eq!(rel, vec!["/ws/pkg/b.py".to_string(), "/ws/pkg/__init__.py".to_string()]);
    let plain = resolve_import("pkg.a", &vec![], "main", &index);
    assert_eq!(plain, vec!["/ws/pkg/a.py".to_string()]);
    let empty: NameMap<String> = NameMap::new();
    assert!(resolve_import("os", &vec![], "main", &empty).is_empty());
}

#[test]
fn external_top_level_and_visibility() {
    assert_eq!(external_top_level("requests.adapters").as_deref(), Some("requests"));
    assert_eq!(external_top_level(".local"), None);
    assert_eq!(external_top_level(""), None);
    assert_eq!(py_visibility_str("__private"), "private");
    assert_eq!(py_visibility_str("__init__"), "restricted");
    assert_eq!(py_visibility_str("_internal"), "restricted");
    assert_eq!(py_visibility_str("api"), "public");
}

#[test]
fn is_test_file_is_workspace_relative() {
    assert!(is_test_file("/ws/tests/helper.py", "/ws"));
    assert!(!is_test_file("/ws/pkg/helper.py", "/ws"));
    assert!(!is_test_file("/elsewhere/tests/helper.py", "/ws"));
}
