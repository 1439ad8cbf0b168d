use code_ranker::maps::{ModuleIndex, NameMap};
use code_ranker::paths::{pick_submodule_file, resolve_submodule_path};
use code_ranker::module_walk::{
    add_submodule, annotate_module_file, enter_target, line_count, mod_file_path, offline_metadata_error,
    plan_targets, record_bare_paths, walk_file_model, PackageModel, record_use, resolve_works, Span,
    TargetWork,
};
use code_ranker::use_graph::{
    EdgeKind, GraphBuilder, ItemKind, Node, NodeDep, NodeKind, PendingUse, ResolveNode, Target, UseTree, VisSyntax,
    Visibility,
};

fn v(items: &[&str]) -> Vec<String> {
    items.iter().map(|s| s.to_string()).collect()
}

#[test]
fn line_count_follows_str_lines() {
    assert_eq!(line_count(""), 0);
    assert_eq!(line_count("a"), 1);
    assert_eq!(line_count("a\n"), 1);
    assert_eq!(line_count("a\nb"), 2);
    assert_eq!(line_count("a\r\nb\n\n"), 3);
}

fn crate_node(id: &str) -> Node {
    Node {
        id: id.into(),
        kind: NodeKind::Crate,
        name: "demo".into(),
        path: "/p/Cargo.toml".into(),
        parent: None,
        external: Some(false),
        version: None,
        visibility: None,
        loc: None,
        line: None,
        item_count: None,
    }
}

#[test]
fn target_root_module_and_walk_steps() {
    let mut g = GraphBuilder::new();
    g.add_node(crate_node("crate:demo 0.1"));
    let mut idx = ModuleIndex::new();
    let target = Target { name: "demo".into(), kind: v(&["lib"]), src_path: "/p/src/lib.rs".into() };
    let root = enter_target(&mut g, &mut idx, "demo 0.1", "crate:demo 0.1", &target);
    assert_eq!(root, "mod:demo 0.1::lib:demo");
    assert_eq!(g.nodes[1].name, "demo (lib)");
    assert_eq!(g.nodes[1].parent.as_deref(), Some("crate:demo 0.1"));
    assert!(g.edges[0].kind == EdgeKind::Contains);
    assert_eq!(idx.get(&vec![]), Some(root.clone()));

    annotate_module_file(&mut g, &root, "/p/src/lib.rs", "mod a;\nfn f() {}\n", &vec![ItemKind::Mod, ItemKind::Fn, ItemKind::Use]);
    assert_eq!(g.nodes[1].loc, Some(2));
    assert_eq!(g.nodes[1].item_count, Some(2));

    let (inline_id, inline_path) = add_submodule(
        &mut g,
        &mut idx,
        "demo 0.1",
        "lib",
        "demo",
        &root,
        &vec![],
        "inner",
        &VisSyntax::Restricted { segments: v(&["crate"]) },
        Some(Span { start: 3, end: 7 }),
        "/p/src/lib.rs",
    );
    assert_eq!(inline_id, "mod:demo 0.1::lib:demo::inner");
    assert_eq!(inline_path, v(&["inner"]));
    let inner = &g.nodes[2];
    assert_eq!((inner.loc, inner.line), (Some(5), Some(3)));
    assert!(matches!(inner.visibility, Some(Visibility::Crate)));
    assert_eq!(idx.get(&v(&["inner"])), Some(inline_id.clone()));

    let mut pending: Vec<PendingUse> = Vec::new();
    record_bare_paths(&mut pending, &root, &vec![], vec![v(&["serde", "Serialize"])]);
    let tree = UseTree::Path { ident: "crate".into(), tree: Box::new(UseTree::Name { ident: "inner".into() }) };
    record_use(&mut pending, &root, &vec![], &tree, &VisSyntax::Public);
    assert_eq!(pending.len(), 2);
    assert!(pending[0].bare && matches!(pending[0].visibility, Visibility::Private));
    assert!(!pending[1].bare && matches!(pending[1].visibility, Visibility::Public));

    let mut externs: NameMap<String> = NameMap::new();
    externs.insert("serde".into(), "crate:serde".into());
    let works = vec![TargetWork { extern_crates: externs, dep_pkg_by_name: NameMap::new(), module_index: idx, pending_uses: pending }];
    resolve_works(&works, &NameMap::new(), &mut g);
    let e: Vec<(&str, &str)> = g.edges.iter().map(|e| (e.from.as_str(), e.to.as_str())).collect();
    assert!(e.contains(&(root.as_str(), "crate:serde")));
    assert!(e.contains(&(root.as_str(), inline_id.as_str())));
    assert!(g.edges.iter().any(|e| e.kind == EdgeKind::Reexports));
    // The crate node sums the line counts of its root modules.
    assert_eq!(g.nodes[0].loc, Some(2));
}

#[test]
fn offline_metadata_error_names_the_manifest_and_the_cargo_error() {
    let msg = offline_metadata_error("/w/Cargo.toml", "no network");
    assert!(msg.starts_with("cargo metadata (offline) failed for /w/Cargo.toml\n\ncode-ranker is an offline tool"));
    assert!(msg.contains("\n    cargo metadata --manifest-path /w/Cargo.toml >/dev/null\n"));
    assert!(msg.ends_with("\n\nUnderlying cargo error: no network"));
}

fn touch_in(dir: &std::path::Path, name: &str) -> tempfile::NamedTempFile {
    tempfile::Builder::new().prefix(name).suffix("").rand_bytes(0).tempfile_in(dir).unwrap()
}

fn subdir(dir: &std::path::Path, name: &str) -> tempfile::TempDir {
    tempfile::Builder::new().prefix(name).suffix("").rand_bytes(0).tempdir_in(dir).unwrap()
}

#[test]
fn submodule_files_resolve_from_disk() {
    let dir = tempfile::tempdir().unwrap();
    let root = dir.path().to_str().unwrap().to_string();
    let _a = touch_in(dir.path(), "a.rs");
    let foo = subdir(dir.path(), "foo");
    let bar = subdir(foo.path(), "bar");
    let _m = touch_in(bar.path(), "mod.rs");
    // `lib.rs` is a module root: `mod a;` is `<dir>/a.rs`.
    assert_eq!(resolve_submodule_path(&format!("{root}/lib.rs"), "a"), Some(format!("{root}/a.rs")));
    // `foo.rs` is not: `mod bar;` is `<dir>/foo/bar.rs` or `<dir>/foo/bar/mod.rs`.
    assert_eq!(resolve_submodule_path(&format!("{root}/foo.rs"), "bar"), Some(format!("{root}/foo/bar/mod.rs")));
    assert_eq!(resolve_submodule_path(&format!("{root}/lib.rs"), "missing"), None);
    // A `#[path]` attribute is joined to the declaring file's directory.
    assert_eq!(mod_file_path(Some("a.rs"), &format!("{root}/lib.rs"), "zzz"), Some(format!("{root}/a.rs")));
    assert_eq!(mod_file_path(Some("nope.rs"), &format!("{root}/lib.rs"), "a"), None);
    assert_eq!(mod_file_path(None, &format!("{root}/main.rs"), "a"), Some(format!("{root}/a.rs")));
}

fn target(name: &str, kinds: &[&str]) -> Target {
    Target { name: name.into(), kind: v(kinds), src_path: format!("/p/{name}.rs") }
}

#[test]
fn plan_covers_supported_targets_of_workspace_members() {
    let packages = vec![
        PackageModel { id: "a 1.0".into(), targets: vec![target("a", &["lib"]), target("a", &["bin"]), target("t", &["test"])] },
        PackageModel { id: "ext 1.0".into(), targets: vec![target("ext", &["lib"])] },
        PackageModel { id: "b 1.0".into(), targets: vec![target("b", &["proc-macro"])] },
    ];
    let members = v(&["a 1.0", "b 1.0"]);
    let resolve = Some(vec![ResolveNode {
        id: "a 1.0".into(),
        deps: vec![NodeDep { name: "b".into(), pkg: "b 1.0".into() }],
    }]);
    let plans = plan_targets(&packages, &members, &resolve);
    let got: Vec<(usize, usize, &str, bool)> =
        plans.iter().map(|p| (p.package, p.target, p.crate_id.as_str(), p.is_lib)).collect();
    assert_eq!(got, vec![(0, 0, "crate:a 1.0", true), (0, 1, "crate:a 1.0", false), (2, 0, "crate:b 1.0", true)]);
    assert_eq!(plans[0].extern_crates.get("b").map(|s| s.as_str()), Some("crate:b 1.0"));
    assert_eq!(plans[1].dep_pkg_by_name.get("b").map(|s| s.as_str()), Some("b 1.0"));
    assert!(plans[2].extern_crates.get("b").is_none());
    assert!(plan_targets(&packages, &vec![], &resolve).is_empty());
}

#[test]
fn submodule_file_prefers_the_flat_file() {
    let a = || "src/x.rs".to_string();
    let b = || "src/x/mod.rs".to_string();
    assert_eq!(pick_submodule_file(a(), true, b(), true), Some(a()));
    assert_eq!(pick_submodule_file(a(), false, b(), true), Some(b()));
    assert_eq!(pick_submodule_file(a(), true, b(), false), Some(a()));
    assert_eq!(pick_submodule_file(a(), false, b(), false), None);
}

#[test]
fn walk_file_model_annotates_and_records_bare_paths() {
    let mut g = GraphBuilder::new();
    g.add_node(crate_node("mod:x"));
    let mut pending: Vec<PendingUse> = Vec::new();
    walk_file_model(
        &mut g,
        &mut pending,
        "mod:x",
        &v(&["a"]),
        "/p/src/a.rs",
        "fn f() {}\nstruct S;\n",
        &vec![ItemKind::Fn, ItemKind::Struct, ItemKind::Use],
        vec![v(&["serde", "Serialize"]), v(&["anyhow", "Result"])],
    );
    assert_eq!(g.nodes[0].loc, Some(2));
    assert_eq!(g.nodes[0].item_count, Some(2));
    assert_eq!(g.nodes[0].path, "/p/src/a.rs");
    assert!(g.edges.is_empty());
    assert_eq!(pending.len(), 2);
    assert!(pending.iter().all(|p| p.bare && p.from_mod_id == "mod:x" && p.current_path == v(&["a"])));
    assert_eq!(pending[1].use_path, v(&["anyhow", "Result"]));
}
