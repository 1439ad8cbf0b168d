use code_ranker::maps::{ModuleIndex, NameMap};
use code_ranker::use_graph::{
    collect_use_paths, convert_visibility, count_items, crate_node_id, emit_uses, is_lib_target, is_reexport,
    is_supported_target, module_node_id, resolve_use_path, target_kind_label, EdgeKind, GraphBuilder, ItemKind,
    PendingUse, Target, UseTree, VisSyntax, Visibility,
};

fn v(items: &[&str]) -> Vec<String> {
    items.iter().map(|s| s.to_string()).collect()
}

#[test]
fn resolves_crate_path() {
    let mut idx = ModuleIndex::new();
    idx.insert(vec![], "ROOT".into());
    idx.insert(v(&["a"]), "A".into());
    idx.insert(v(&["a", "b"]), "AB".into());
    let r = resolve_use_path(&v(&["crate", "a", "b"]), &vec![], &idx, &NameMap::new(), &NameMap::new(), &NameMap::new());
    assert_eq!(r.as_deref(), Some("AB"));
}

#[test]
fn resolves_super_super_to_root_sibling() {
    let mut idx = ModuleIndex::new();
    idx.insert(vec![], "ROOT".into());
    idx.insert(v(&["a"]), "A".into());
    idx.insert(v(&["a", "b"]), "AB".into());
    idx.insert(v(&["x"]), "X".into());
    let r = resolve_use_path(
        &v(&["super", "super", "x"]),
        &v(&["a", "b"]),
        &idx,
        &NameMap::new(),
        &NameMap::new(),
        &NameMap::new(),
    );
    assert_eq!(r.as_deref(), Some("X"));
}

#[test]
fn resolves_extern_crate() {
    let mut externs: NameMap<String> = NameMap::new();
    externs.insert("serde".into(), "crate:serde".into());
    let r = resolve_use_path(
        &v(&["serde", "Deserialize"]),
        &vec![],
        &ModuleIndex::new(),
        &externs,
        &NameMap::new(),
        &NameMap::new(),
    );
    assert_eq!(r.as_deref(), Some("crate:serde"));
}

#[test]
fn ignores_std() {
    let r = resolve_use_path(
        &v(&["std", "collections"]),
        &vec![],
        &ModuleIndex::new(),
        &NameMap::new(),
        &NameMap::new(),
        &NameMap::new(),
    );
    assert_eq!(r, None);
}

#[test]
fn resolve_use_path_handles_intra_crate_bare_path() {
    let mut index = ModuleIndex::new();
    index.insert(vec![], "mod:crate".into());
    index.insert(v(&["commands"]), "mod:commands".into());
    let externs: NameMap<String> = NameMap::new();
    let no_deps: NameMap<String> = NameMap::new();
    let no_libs: NameMap<ModuleIndex> = NameMap::new();
    assert_eq!(
        resolve_use_path(&v(&["commands", "run"]), &vec![], &index, &externs, &no_deps, &no_libs).as_deref(),
        Some("mod:commands")
    );
    let mut externs2: NameMap<String> = NameMap::new();
    externs2.insert("once_cell".into(), "crate:once_cell".into());
    assert_eq!(
        resolve_use_path(&v(&["once_cell", "sync"]), &vec![], &index, &externs2, &no_deps, &no_libs).as_deref(),
        Some("crate:once_cell")
    );
}

#[test]
fn resolves_cross_crate_use_to_submodule_file() {
    let mut foreign = ModuleIndex::new();
    foreign.insert(vec![], "mod:api::lib".into());
    foreign.insert(v(&["node"]), "mod:api::lib::node".into());
    let mut lib_index: NameMap<ModuleIndex> = NameMap::new();
    lib_index.insert("api 1.0".into(), foreign);
    let mut dep_pkg_by_name: NameMap<String> = NameMap::new();
    dep_pkg_by_name.insert("api".into(), "api 1.0".into());
    let mut externs: NameMap<String> = NameMap::new();
    externs.insert("api".into(), "crate:api".into());
    assert_eq!(
        resolve_use_path(&v(&["api", "node", "Node"]), &vec![], &ModuleIndex::new(), &externs, &dep_pkg_by_name, &lib_index)
            .as_deref(),
        Some("mod:api::lib::node")
    );
    assert_eq!(
        resolve_use_path(&v(&["api", "TopItem"]), &vec![], &ModuleIndex::new(), &externs, &dep_pkg_by_name, &lib_index)
            .as_deref(),
        Some("mod:api::lib")
    );
}

#[test]
fn visibility_as_str_covers_all_variants() {
    assert_eq!(Visibility::Public.as_str(), "public");
    assert_eq!(Visibility::Crate.as_str(), "crate");
    assert_eq!(Visibility::Super.as_str(), "super");
    assert_eq!(Visibility::Private.as_str(), "private");
    assert_eq!(Visibility::Restricted { path: "pub(in crate::x)".to_string() }.as_str(), "pub(in crate::x)");
}

#[test]
fn use_trees_flatten_to_paths() {
    // `use foo::bar::Baz;`
    let simple = UseTree::Path {
        ident: "foo".into(),
        tree: Box::new(UseTree::Path { ident: "bar".into(), tree: Box::new(UseTree::Name { ident: "Baz".into() }) }),
    };
    let mut out = Vec::new();
    collect_use_paths(&simple, Vec::new(), &mut out);
    assert_eq!(out, vec![v(&["foo", "bar", "Baz"])]);
    // `use foo::{bar, baz::Qux};`
    let group = UseTree::Path {
        ident: "foo".into(),
        tree: Box::new(UseTree::Group {
            items: vec![
                UseTree::Name { ident: "bar".into() },
                UseTree::Path { ident: "baz".into(), tree: Box::new(UseTree::Rename { ident: "Qux".into() }) },
            ],
        }),
    };
    let mut out = Vec::new();
    collect_use_paths(&group, Vec::new(), &mut out);
    assert_eq!(out, vec![v(&["foo", "bar"]), v(&["foo", "baz", "Qux"])]);
    // `use foo::bar::*;` names the module; a bare `*` names nothing.
    let glob = UseTree::Path {
        ident: "foo".into(),
        tree: Box::new(UseTree::Path { ident: "bar".into(), tree: Box::new(UseTree::Glob) }),
    };
    let mut out = Vec::new();
    collect_use_paths(&glob, Vec::new(), &mut out);
    assert_eq!(out, vec![v(&["foo", "bar"])]);
    let mut none = Vec::new();
    collect_use_paths(&UseTree::Glob, Vec::new(), &mut none);
    assert!(none.is_empty());
}

#[test]
fn syntactic_visibility_classifies() {
    assert!(matches!(convert_visibility(&VisSyntax::Public), Visibility::Public));
    assert!(matches!(convert_visibility(&VisSyntax::Inherited), Visibility::Private));
    assert!(matches!(convert_visibility(&VisSyntax::Restricted { segments: v(&["crate"]) }), Visibility::Crate));
    assert!(matches!(convert_visibility(&VisSyntax::Restricted { segments: v(&["super"]) }), Visibility::Super));
    assert!(matches!(convert_visibility(&VisSyntax::Restricted { segments: v(&["self"]) }), Visibility::Private));
    match convert_visibility(&VisSyntax::Restricted { segments: v(&["crate", "x"]) }) {
        Visibility::Restricted { path } => assert_eq!(path, "crate::x"),
        _ => panic!("expected a restriction"),
    }
    assert!(is_reexport(&Visibility::Crate));
    assert!(!is_reexport(&Visibility::Private));
}

#[test]
fn node_ids_and_target_kinds() {
    assert_eq!(module_node_id("bat 1.0", "lib", "bat", &vec![]), "mod:bat 1.0::lib:bat");
    assert_eq!(module_node_id("bat 1.0", "bin", "bat", &v(&["theme", "x"])), "mod:bat 1.0::bin:bat::theme::x");
    assert_eq!(crate_node_id("bat 1.0"), "crate:bat 1.0");
    let lib = Target { name: "bat".into(), kind: v(&["lib"]), src_path: "/p/src/lib.rs".into() };
    let bin = Target { name: "bat".into(), kind: v(&["bin"]), src_path: "/p/src/main.rs".into() };
    let other = Target { name: "bench".into(), kind: v(&["bench"]), src_path: "/p/benches/b.rs".into() };
    assert!(is_lib_target(&lib) && !is_lib_target(&bin));
    assert!(is_supported_target(&bin) && !is_supported_target(&other));
    assert_eq!(target_kind_label(&bin), "bin");
    assert_eq!(target_kind_label(&other), "?");
}

#[test]
fn count_items_counts_declarations() {
    let items = vec![ItemKind::Fn, ItemKind::Use, ItemKind::Struct, ItemKind::Mod, ItemKind::ExternCrate];
    assert_eq!(count_items(&items), 3);
}

#[test]
fn emit_uses_dedups_and_skips_self_edges() {
    let mut idx = ModuleIndex::new();
    idx.insert(vec![], "ROOT".into());
    idx.insert(v(&["a"]), "A".into());
    let pu = |from: &str, path: &[&str], vis: Visibility, bare: bool| PendingUse {
        from_mod_id: from.into(),
        current_path: vec![],
        use_path: v(path),
        visibility: vis,
        bare,
    };
    let pending = vec![
        pu("ROOT", &["crate", "a", "f"], Visibility::Private, false),
        pu("ROOT", &["a", "g"], Visibility::Private, true),
        pu("ROOT", &["crate", "a"], Visibility::Public, false),
        pu("ROOT", &["self"], Visibility::Private, false),
        pu("ROOT", &["std", "io"], Visibility::Private, false),
    ];
    let mut g = GraphBuilder::new();
    emit_uses(&pending, &idx, &NameMap::new(), &NameMap::new(), &NameMap::new(), &mut g);
    assert_eq!(g.edges.len(), 2);
    assert_eq!((g.edges[0].from.as_str(), g.edges[0].to.as_str()), ("ROOT", "A"));
    assert!(g.edges[0].kind == EdgeKind::Uses);
    assert!(g.edges[1].kind == EdgeKind::Reexports);
}

#[test]
fn same_named_lib_and_bin_get_distinct_ids() {
    // A package with a lib `bat` and a bin `bat` must not share a module-id
    // namespace, or `crate::X` in the lib resolves to the bin's `main.rs`.
    assert_ne!(module_node_id("bat 1.0", "lib", "bat", &vec![]), module_node_id("bat 1.0", "bin", "bat", &vec![]),);
    assert_ne!(
        module_node_id("bat 1.0", "lib", "bat", &vec!["theme".into()]),
        module_node_id("bat 1.0", "bin", "bat", &vec!["theme".into()]),
    );
}
