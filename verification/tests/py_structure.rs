use code_ranker::maps::NameMap;
use code_ranker::py_structure::{add_external_edge, extract_imports, parse_and_add, ExtractedImport, PyNodeKind, SyntaxNode};

fn leaf(kind: &str, text: &str, row: u32, start: usize) -> SyntaxNode {
    SyntaxNode {
        kind: kind.into(),
        text: Some(text.into()),
        row,
        start_byte: start,
        name_field: None,
        module_name_field: None,
        children: vec![],
    }
}

fn node(kind: &str, row: u32, children: Vec<SyntaxNode>) -> SyntaxNode {
    SyntaxNode { kind: kind.into(), text: None, row, start_byte: 0, name_field: None, module_name_field: None, children }
}

/// `import os, requests.adapters as ra` / `from . import helper` /
/// `def f(): from pkg.util import a as b`
fn module_tree() -> SyntaxNode {
    let mut aliased = node("aliased_import", 0, vec![leaf("dotted_name", "requests.adapters", 0, 11), leaf("identifier", "ra", 0, 32)]);
    aliased.name_field = Some(0);
    let plain = node("import_statement", 0, vec![leaf("import", "import", 0, 0), leaf("dotted_name", "os", 0, 7), aliased]);
    let mut rel = node("import_from_statement", 1, vec![leaf("relative_import", ".", 1, 40), leaf("dotted_name", "helper", 1, 49)]);
    rel.module_name_field = Some(0);
    let mut alias2 = node("aliased_import", 3, vec![leaf("dotted_name", "a", 3, 90), leaf("identifier", "b", 3, 95)]);
    alias2.name_field = Some(0);
    let mut nested = node("import_from_statement", 3, vec![leaf("dotted_name", "pkg.util", 3, 70), alias2]);
    nested.module_name_field = Some(0);
    let func = node("function_definition", 2, vec![node("block", 3, vec![nested])]);
    node("module", 0, vec![plain, rel, func])
}

#[test]
fn imports_are_extracted_in_source_order() {
    let imps = extract_imports(&module_tree());
    let got: Vec<(String, Vec<String>, u32)> = imps.into_iter().map(|i| (i.base, i.names, i.line)).collect();
    assert_eq!(
        got,
        vec![
            ("os".to_string(), vec![], 1),
            ("requests.adapters".to_string(), vec![], 1),
            (".".to_string(), vec!["helper".to_string()], 2),
            ("pkg.util".to_string(), vec!["a".to_string()], 4),
        ]
    );
}

#[test]
fn external_nodes_are_materialised_once() {
    let mut nodes = Vec::new();
    let mut edges = Vec::new();
    let mut seen = Vec::new();
    let imp = ExtractedImport { base: "requests.adapters".into(), names: vec![], line: 3 };
    add_external_edge(&imp, "/ws/a.py", &mut nodes, &mut edges, &mut seen);
    add_external_edge(&imp, "/ws/b.py", &mut nodes, &mut edges, &mut seen);
    let rel = ExtractedImport { base: ".x".into(), names: vec![], line: 4 };
    add_external_edge(&rel, "/ws/b.py", &mut nodes, &mut edges, &mut seen);
    assert_eq!(nodes.len(), 1);
    assert_eq!(nodes[0].id, "ext:requests");
    assert!(nodes[0].kind == PyNodeKind::External && nodes[0].external == Some(true));
    assert_eq!(edges.len(), 2);
    assert_eq!(edges[1].source, "/ws/b.py");
    assert_eq!(edges[1].line, Some(3));
}

#[test]
fn parse_and_add_builds_file_node_and_edges() {
    let mut index: NameMap<String> = NameMap::new();
    index.insert("pkg".into(), "/ws/pkg/__init__.py".into());
    index.insert("pkg.helper".into(), "/ws/pkg/helper.py".into());
    index.insert("pkg.util".into(), "/ws/pkg/util.py".into());
    let mut nodes = Vec::new();
    let mut edges = Vec::new();
    let mut seen = Vec::new();
    let source = b"import os\nfrom . import helper\n\ndef f(): pass\n";
    parse_and_add("/ws/pkg/_impl.py", "pkg._impl", source, &module_tree(), &index, &mut nodes, &mut edges, &mut seen);
    assert_eq!(nodes[0].id, "/ws/pkg/_impl.py");
    assert_eq!(nodes[0].name, "_impl.py");
    assert_eq!(nodes[0].visibility.as_deref(), Some("restricted"));
    assert_eq!(nodes[0].loc, Some(5));
    let ext: Vec<&str> = nodes.iter().skip(1).map(|n| n.id.as_str()).collect();
    assert_eq!(ext, vec!["ext:os", "ext:requests"]);
    let targets: Vec<(&str, Option<u32>)> = edges.iter().map(|e| (e.target.as_str(), e.line)).collect();
    assert_eq!(
        targets,
        vec![
            ("ext:os", Some(1)),
            ("ext:requests", Some(1)),
            ("/ws/pkg/helper.py", Some(2)),
            ("/ws/pkg/__init__.py", Some(2)),
            ("/ws/pkg/util.py", Some(4)),
        ]
    );
    assert!(edges.iter().all(|e| e.kind == "uses" && e.source == "/ws/pkg/_impl.py"));
}
