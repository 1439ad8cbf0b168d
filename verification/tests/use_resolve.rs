use code_ranker::maps::{ModuleIndex, NameMap, PathMap};
use code_ranker::use_graph::{UseTree, Visibility};
use code_ranker::use_resolve::{
    collect_use_paths, emit_uses, glob_target_module, is_super_glob, resolve_foreign_source, resolve_in_index,
    resolve_use_path, walk_detailed, walk_foreign, Edge, EdgeKind, ForeignLib, PendingUse, ReexportMap,
};

fn v(items: &[&str]) -> Vec<String> {
    items.iter().map(|s| s.to_string()).collect()
}

fn owning_index() -> ModuleIndex {
    let mut idx = ModuleIndex::new();
    idx.insert(vec![], "mod:root".into());
    idx.insert(v(&["a"]), "mod:a".into());
    idx.insert(v(&["a", "inner"]), "mod:a::inner".into());
    idx.insert(v(&["b"]), "mod:b".into());
    idx
}

fn owning_reexports() -> ReexportMap {
    let mut rx: ReexportMap = PathMap::new();
    rx.insert(v(&["a"]), vec![("Thing".to_string(), v(&["self", "inner", "Thing"]))]);
    rx
}

fn api_lib() -> ForeignLib {
    let mut index = ModuleIndex::new();
    index.insert(vec![], "mod:api".into());
    index.insert(v(&["node"]), "mod:api::node".into());
    let mut reexports: ReexportMap = PathMap::new();
    reexports.insert(vec![], vec![("Node".to_string(), v(&["crate", "node", "Node"]))]);
    ForeignLib { index, reexports }
}

fn resolve(path: &[&str], from: &[&str], max_depth: usize) -> Option<String> {
    let mut externs: NameMap<String> = NameMap::new();
    externs.insert("serde".into(), "crate:serde".into());
    externs.insert("api".into(), "crate:api".into());
    let mut deps: NameMap<String> = NameMap::new();
    deps.insert("api".into(), "api 1.0".into());
    let mut libs: NameMap<ForeignLib> = NameMap::new();
    libs.insert("api 1.0".into(), api_lib());
    resolve_use_path(&v(path), &v(from), &owning_index(), &externs, &deps, &libs, &owning_reexports(), 0, max_depth)
}

#[test]
fn walk_detailed_reports_the_stop_path_and_consumed_segments() {
    let idx = owning_index();
    let (node, stop, consumed) = walk_detailed(&vec![], &v(&["a", "Thing"]), &idx).unwrap();
    assert_eq!(node, "mod:a");
    assert_eq!(stop, v(&["a"]));
    assert_eq!(consumed, 1);
    let (node, stop, consumed) = walk_detailed(&v(&["a"]), &v(&["inner"]), &idx).unwrap();
    assert_eq!((node.as_str(), stop, consumed), ("mod:a::inner", v(&["a", "inner"]), 1));
    assert!(walk_detailed(&v(&["zzz"]), &v(&["a"]), &idx).is_none());
}

#[test]
fn reexported_item_lands_on_its_defining_module() {
    assert_eq!(resolve(&["crate", "a", "Thing"], &[], 4).as_deref(), Some("mod:a::inner"));
    assert_eq!(resolve(&["a", "Thing"], &[], 4).as_deref(), Some("mod:a::inner"));
    assert_eq!(resolve(&["super", "a", "Thing"], &["b"], 4).as_deref(), Some("mod:a::inner"));
}

#[test]
fn depth_limit_zero_keeps_the_facade_module() {
    assert_eq!(resolve(&["crate", "a", "Thing"], &[], 0).as_deref(), Some("mod:a"));
}

#[test]
fn item_that_is_not_reexported_stays_on_the_module() {
    assert_eq!(resolve(&["crate", "a", "Other"], &[], 4).as_deref(), Some("mod:a"));
    assert_eq!(resolve(&["crate", "a", "inner"], &[], 4).as_deref(), Some("mod:a::inner"));
}

#[test]
fn cross_crate_reexport_lands_on_the_foreign_definer() {
    assert_eq!(resolve(&["api", "Node"], &[], 4).as_deref(), Some("mod:api::node"));
    assert_eq!(resolve(&["api", "TopItem"], &[], 4).as_deref(), Some("mod:api"));
    assert_eq!(resolve(&["api", "node", "Node"], &[], 4).as_deref(), Some("mod:api::node"));
}

#[test]
fn registry_dependency_std_and_unknown_roots() {
    assert_eq!(resolve(&["serde", "Deserialize"], &[], 4).as_deref(), Some("crate:serde"));
    assert_eq!(resolve(&["std", "collections"], &[], 4), None);
    assert_eq!(resolve(&["nowhere", "x"], &[], 4), None);
    assert_eq!(resolve(&[], &[], 4), None);
    assert_eq!(resolve(&["super", "x"], &[], 4), None);
}

#[test]
fn reexport_cycle_stops_at_the_depth_limit() {
    let mut idx = ModuleIndex::new();
    idx.insert(vec![], "mod:root".into());
    idx.insert(v(&["p"]), "mod:p".into());
    idx.insert(v(&["q"]), "mod:q".into());
    let mut rx: ReexportMap = PathMap::new();
    rx.insert(v(&["p"]), vec![("X".to_string(), v(&["crate", "q", "X"]))]);
    rx.insert(v(&["q"]), vec![("X".to_string(), v(&["crate", "p", "X"]))]);
    let none: NameMap<String> = NameMap::new();
    let libs: NameMap<ForeignLib> = NameMap::new();
    let r1 = resolve_in_index(&vec![], &v(&["p", "X"]), &idx, &none, &none, &libs, &rx, 0, 1);
    assert_eq!(r1.as_deref(), Some("mod:q"));
    // One more level leads back to `p`, the module the walk stopped at, so the
    // re-export is not taken.
    let r2 = resolve_in_index(&vec![], &v(&["p", "X"]), &idx, &none, &none, &libs, &rx, 0, 2);
    assert_eq!(r2.as_deref(), Some("mod:p"));
}

#[test]
fn foreign_walk_and_source_resolution() {
    let lib = api_lib();
    assert_eq!(walk_foreign(&vec![], &v(&["Node"]), &lib.index, &lib.reexports, 0, 3).as_deref(), Some("mod:api::node"));
    assert_eq!(walk_foreign(&vec![], &v(&["Node"]), &lib.index, &lib.reexports, 3, 3).as_deref(), Some("mod:api"));
    assert_eq!(walk_foreign(&v(&["gone"]), &v(&["Node"]), &lib.index, &lib.reexports, 0, 3), None);
    assert_eq!(
        resolve_foreign_source(&v(&["self", "node"]), &vec![], &lib.index, &lib.reexports, 0, 3).as_deref(),
        Some("mod:api::node")
    );
    assert_eq!(resolve_foreign_source(&v(&["serde", "x"]), &vec![], &lib.index, &lib.reexports, 0, 3), None);
    assert_eq!(resolve_foreign_source(&v(&["core", "x"]), &vec![], &lib.index, &lib.reexports, 0, 3), None);
    assert_eq!(
        resolve_foreign_source(&v(&["super", "node"]), &v(&["node"]), &lib.index, &lib.reexports, 0, 3).as_deref(),
        Some("mod:api::node")
    );
}

#[test]
fn glob_target_module_follows_path_keywords() {
    assert_eq!(glob_target_module(&v(&["crate", "a"]), &v(&["a", "b"])), Some(v(&["a"])));
    assert_eq!(glob_target_module(&v(&["self", "x"]), &v(&["a"])), Some(v(&["a", "x"])));
    assert_eq!(glob_target_module(&v(&["super"]), &v(&["a", "b"])), Some(v(&["a"])));
    assert_eq!(glob_target_module(&v(&["super", "super", "c"]), &v(&["a", "b"])), Some(v(&["c"])));
    assert_eq!(glob_target_module(&v(&["super", "super"]), &v(&["a"])), None);
    assert_eq!(glob_target_module(&v(&["child"]), &v(&["a"])), Some(v(&["a", "child"])));
    assert_eq!(glob_target_module(&vec![], &v(&["a"])), None);
}

fn pending(from: &str, cur: &[&str], path: &[&str], vis: Visibility, bare: bool, glob: bool, line: Option<u32>) -> PendingUse {
    PendingUse {
        from_mod_id: from.to_string(),
        current_path: v(cur),
        use_path: v(path),
        visibility: vis,
        bare,
        glob,
        line,
    }
}

#[test]
fn super_glob_is_a_strict_ancestor_namespace() {
    assert!(is_super_glob(&pending("m", &["a", "b"], &["super"], Visibility::Private, false, true, None)));
    assert!(is_super_glob(&pending("m", &["a", "b"], &["crate", "a"], Visibility::Private, false, true, None)));
    assert!(is_super_glob(&pending("m", &["a"], &["crate"], Visibility::Private, false, true, None)));
    assert!(!is_super_glob(&pending("m", &["a", "b"], &["self", "x"], Visibility::Private, false, true, None)));
    assert!(!is_super_glob(&pending("m", &["a", "b"], &["crate", "c"], Visibility::Private, false, true, None)));
    assert!(!is_super_glob(&pending("m", &["a", "b"], &["super"], Visibility::Private, false, false, None)));
}

#[test]
fn emit_uses_classifies_and_deduplicates_edges() {
    let idx = owning_index();
    let rx = owning_reexports();
    let none: NameMap<String> = NameMap::new();
    let libs: NameMap<ForeignLib> = NameMap::new();
    let uses = vec![
        pending("mod:b", &["b"], &["crate", "a", "Thing"], Visibility::Private, false, false, Some(3)),
        pending("mod:b", &["b"], &["crate", "a", "inner"], Visibility::Private, false, false, Some(4)),
        pending("mod:b", &["b"], &["crate", "a"], Visibility::Public, false, false, Some(5)),
        pending("mod:a::inner", &["a", "inner"], &["super"], Visibility::Private, false, true, Some(1)),
        pending("mod:b", &["b"], &["self"], Visibility::Private, false, true, Some(6)),
        pending("mod:b", &["b"], &["crate", "a"], Visibility::Public, true, false, None),
    ];
    let mut edges: Vec<Edge> = Vec::new();
    emit_uses(&uses, &idx, &none, &none, &libs, &rx, 4, &mut edges);
    assert_eq!(edges.len(), 4);
    assert_eq!((edges[0].from.as_str(), edges[0].to.as_str(), edges[0].kind), ("mod:b", "mod:a::inner", EdgeKind::Uses));
    assert_eq!(edges[0].line, Some(3));
    assert!(edges[0].visibility.is_none());
    assert_eq!((edges[1].to.as_str(), edges[1].kind), ("mod:a", EdgeKind::Reexports));
    assert!(matches!(edges[1].visibility, Some(Visibility::Public)));
    assert_eq!(edges[1].line, Some(5));
    assert_eq!((edges[2].from.as_str(), edges[2].to.as_str(), edges[2].kind), ("mod:a::inner", "mod:a", EdgeKind::Super));
    assert_eq!((edges[3].from.as_str(), edges[3].to.as_str(), edges[3].kind), ("mod:b", "mod:a", EdgeKind::Uses));
}

#[test]
fn collect_use_paths_marks_globs() {
    let tree = UseTree::Path {
        ident: "foo".into(),
        tree: Box::new(UseTree::Group {
            items: vec![
                UseTree::Name { ident: "bar".into() },
                UseTree::Path { ident: "baz".into(), tree: Box::new(UseTree::Glob) },
                UseTree::Rename { ident: "qux".into() },
            ],
        }),
    };
    let mut out = Vec::new();
    collect_use_paths(&tree, Vec::new(), &mut out);
    assert_eq!(out, vec![(v(&["foo", "bar"]), false), (v(&["foo", "baz"]), true), (v(&["foo", "qux"]), false)]);
    let mut bare_glob = Vec::new();
    collect_use_paths(&UseTree::Glob, Vec::new(), &mut bare_glob);
    assert!(bare_glob.is_empty());
}

#[test]
fn without_following_resolution_matches_the_plain_resolver() {
    let mut externs: NameMap<String> = NameMap::new();
    externs.insert("serde".into(), "crate:serde".into());
    let mut deps: NameMap<String> = NameMap::new();
    deps.insert("api".into(), "api 1.0".into());
    let mut libs: NameMap<ForeignLib> = NameMap::new();
    libs.insert("api 1.0".into(), api_lib());
    let mut plain_libs: NameMap<ModuleIndex> = NameMap::new();
    plain_libs.insert("api 1.0".into(), api_lib().index);
    let idx = owning_index();
    let rx = owning_reexports();
    let cases: Vec<(Vec<String>, Vec<String>)> = vec![
        (v(&["crate", "a", "Thing"]), vec![]),
        (v(&["a", "inner", "X"]), vec![]),
        (v(&["super", "b"]), v(&["a"])),
        (v(&["api", "Node"]), vec![]),
        (v(&["serde", "de"]), vec![]),
        (v(&["std", "fmt"]), vec![]),
    ];
    for (path, from) in cases {
        let following_off = resolve_use_path(&path, &from, &idx, &externs, &deps, &libs, &rx, 0, 0);
        let plain = code_ranker::use_graph::resolve_use_path(&path, &from, &idx, &externs, &deps, &plain_libs);
        assert_eq!(following_off, plain, "{path:?}");
    }
}
