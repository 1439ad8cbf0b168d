use code_ranker::item_walk::{walk_item, WalkItem, WalkItemKind, WalkStep};
use code_ranker::maps::ModuleIndex;
use code_ranker::module_walk::Span;
use code_ranker::rust_text::{AttrModel, CfgToken};
use code_ranker::use_graph::{GraphBuilder, NodeKind, PendingUse, UseTree, VisSyntax};

fn cfg_test() -> Option<Vec<AttrModel>> {
    Some(vec![AttrModel { ident: Some("cfg".into()), list_tokens: Some(vec![CfgToken::Ident("test".into())]) }])
}

fn module(name: &str, inline: Option<Span>, path_attr: Option<&str>) -> WalkItemKind {
    WalkItemKind::Mod { name: name.into(), vis: VisSyntax::Inherited, inline_span: inline, path_attr: path_attr.map(String::from) }
}

#[test]
fn walk_item_skips_tests_records_uses_and_adds_modules() {
    let mut g = GraphBuilder::new();
    let mut idx = ModuleIndex::new();
    let mut pending: Vec<PendingUse> = Vec::new();
    let root = "mod:demo 0.1::lib:demo";
    let step = |g: &mut GraphBuilder, idx: &mut ModuleIndex, pending: &mut Vec<PendingUse>, ignore: bool, item: WalkItem| {
        walk_item(g, idx, pending, "demo 0.1", "lib", "demo", root, &vec![], "/nonexistent/src/lib.rs", ignore, &item)
    };

    // A `#[cfg(test)] mod tests { … }` is left out when tests are ignored.
    let tests_mod = WalkItem { attrs: cfg_test(), kind: module("tests", Some(Span { start: 10, end: 20 }), None) };
    assert!(matches!(step(&mut g, &mut idx, &mut pending, true, tests_mod), WalkStep::Skipped));
    assert!(g.nodes.is_empty());

    // Kept otherwise: an inline module to walk next.
    let tests_mod = WalkItem { attrs: cfg_test(), kind: module("tests", Some(Span { start: 10, end: 20 }), None) };
    match step(&mut g, &mut idx, &mut pending, false, tests_mod) {
        WalkStep::Inline { mod_id, mod_path } => {
            assert_eq!(mod_id, "mod:demo 0.1::lib:demo::tests");
            assert_eq!(mod_path, vec!["tests".to_string()]);
        }
        _ => panic!("expected an inline module"),
    }
    assert!(g.nodes[0].kind == NodeKind::Module);
    assert_eq!(g.nodes[0].loc, Some(11));

    // `mod gone;` whose file does not exist.
    let gone = WalkItem { attrs: Some(vec![]), kind: module("gone", None, None) };
    assert!(matches!(step(&mut g, &mut idx, &mut pending, true, gone), WalkStep::Missing { .. }));
    assert_eq!(g.nodes.len(), 2);

    // `use crate::a::{b, c};` records one pending use per path.
    let tree = UseTree::Path {
        ident: "crate".into(),
        tree: Box::new(UseTree::Path {
            ident: "a".into(),
            tree: Box::new(UseTree::Group {
                items: vec![UseTree::Name { ident: "b".into() }, UseTree::Name { ident: "c".into() }],
            }),
        }),
    };
    let use_item = WalkItem { attrs: Some(vec![]), kind: WalkItemKind::Use { tree, vis: VisSyntax::Public } };
    assert!(matches!(step(&mut g, &mut idx, &mut pending, true, use_item), WalkStep::UseRecorded));
    assert_eq!(pending.len(), 2);
    assert_eq!(pending[1].use_path, vec!["crate".to_string(), "a".to_string(), "c".to_string()]);

    let other = WalkItem { attrs: None, kind: WalkItemKind::Other };
    assert!(matches!(step(&mut g, &mut idx, &mut pending, true, other), WalkStep::Other));
    assert_eq!((g.nodes.len(), g.edges.len(), pending.len()), (2, 2, 2));
}

#[test]
fn walk_item_finds_a_module_file_on_disk() {
    let dir = tempfile::tempdir().unwrap();
    let root_dir = dir.path().to_str().unwrap().to_string();
    let _util = tempfile::Builder::new().prefix("util.rs").suffix("").rand_bytes(0).tempfile_in(dir.path()).unwrap();
    let mut g = GraphBuilder::new();
    let mut idx = ModuleIndex::new();
    let mut pending: Vec<PendingUse> = Vec::new();
    let lib = format!("{root_dir}/lib.rs");
    let item = WalkItem { attrs: Some(vec![]), kind: module("util", None, None) };
    match walk_item(&mut g, &mut idx, &mut pending, "demo 0.1", "lib", "demo", "mod:demo 0.1::lib:demo", &vec![], &lib, false, &item) {
        WalkStep::File { file, mod_id, .. } => {
            assert_eq!(file, format!("{root_dir}/util.rs"));
            assert_eq!(mod_id, "mod:demo 0.1::lib:demo::util");
        }
        _ => panic!("expected the module file"),
    }
}
