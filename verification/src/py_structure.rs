//! The Python structure builder's per-file step: the import statements a
//! parsed file holds, its file node, and the `uses` edges its imports resolve
//! to (an unresolved absolute import reaching one external node per top-level
//! package).

use vstd::prelude::*;
use crate::maps::{path_view, NameMap};
use crate::python::{
    py_visibility_str, resolve_import, spec_external_top_level, spec_py_visibility, spec_resolve_import,
    external_top_level,
};
use crate::strs::{chars_of, opt_view, owned, push_str, spec_split, split_chars, str_eq, string_of};
use crate::use_graph::str_map_view;

verus! {

/// A node of a parsed syntax tree, as the import walk reads it: its kind, its
/// source text (when that is valid UTF-8), where it starts, which children are
/// its `name` and `module_name` fields, and its children in order.
pub struct SyntaxNode {
    pub kind: String,
    pub text: Option<String>,
    pub row: u32,
    pub start_byte: usize,
    pub name_field: Option<usize>,
    pub module_name_field: Option<usize>,
    pub children: Vec<SyntaxNode>,
}

/// One import statement: the module base (`a.b`, `..`, `.utils`), the names a
/// `from` import brings in (none for a plain `import`), and its 1-based line.
pub struct ExtractedImport {
    pub base: String,
    pub names: Vec<String>,
    pub line: u32,
}

/// The abstract form of an import record.
pub type ImportView = (Seq<char>, Seq<Seq<char>>, u32);

/// The view of an import record.
pub open spec fn import_view(i: ExtractedImport) -> ImportView {
    (i.base@, path_view(i.names@), i.line)
}

/// The views of a run of import records.
pub open spec fn imports_view(s: Seq<ExtractedImport>) -> Seq<ImportView> {
    s.map_values(|i: ExtractedImport| import_view(i))
}

/// The child a field names, if the field is set and names a child.
pub open spec fn field_child(n: SyntaxNode, f: Option<usize>) -> Option<SyntaxNode> {
    match f {
        Some(i) => if i < n.children@.len() { Some(n.children@[i as int]) } else { None },
        None => None,
    }
}

/// An `x as y` alias stands for its real name `x`.
pub open spec fn unaliased(c: SyntaxNode) -> SyntaxNode {
    if c.kind@ == "aliased_import"@ {
        match field_child(c, c.name_field) {
            Some(x) => x,
            None => c,
        }
    } else {
        c
    }
}

/// The 1-based line of a statement.
pub open spec fn stmt_line(n: SyntaxNode) -> u32 {
    if n.row == u32::MAX { 0 } else { (n.row + 1) as u32 }
}

/// The records of a plain `import a.b, c` statement, from child `i` on: one per
/// dotted name (an alias counting as its real name).
pub open spec fn plain_imports(stmt: SyntaxNode, i: int) -> Seq<ImportView>
    decreases stmt.children@.len() - i,
{
    if i < 0 || i >= stmt.children@.len() {
        Seq::empty()
    } else {
        let a = unaliased(stmt.children@[i]);
        let here = if a.kind@ == "dotted_name"@ && a.text is Some {
            seq![(a.text->0@, Seq::<Seq<char>>::empty(), stmt_line(stmt))]
        } else {
            Seq::empty()
        };
        here + plain_imports(stmt, i + 1)
    }
}

/// Where the module of a `from` statement starts (0 without one).
pub open spec fn module_start(stmt: SyntaxNode) -> usize {
    match field_child(stmt, stmt.module_name_field) {
        Some(m) => m.start_byte,
        None => 0,
    }
}

/// The names a `from M import a, b` statement brings in, from child `i` on:
/// each dotted name other than the module itself.
pub open spec fn from_names(stmt: SyntaxNode, i: int) -> Seq<Seq<char>>
    decreases stmt.children@.len() - i,
{
    if i < 0 || i >= stmt.children@.len() {
        Seq::empty()
    } else {
        let a = unaliased(stmt.children@[i]);
        let here = if a.kind@ == "dotted_name"@ && a.start_byte != module_start(stmt) && a.text is Some {
            seq![a.text->0@]
        } else {
            Seq::empty()
        };
        here + from_names(stmt, i + 1)
    }
}

/// The record of a `from M import …` statement: none when it names no module.
pub open spec fn from_import(stmt: SyntaxNode) -> Seq<ImportView> {
    let base = match field_child(stmt, stmt.module_name_field) {
        Some(m) => match m.text {
            Some(t) => t@,
            None => Seq::empty(),
        },
        None => Seq::empty(),
    };
    if base.len() > 0 {
        seq![(base, from_names(stmt, 0), stmt_line(stmt))]
    } else {
        Seq::empty()
    }
}

/// The import records under the children of `p` from child `i` on, in source
/// order; import statements are not searched further.
pub open spec fn imports_under(p: SyntaxNode, i: int) -> Seq<ImportView>
    decreases p, p.children@.len() - i,
{
    if i < 0 || i >= p.children@.len() {
        Seq::empty()
    } else {
        let c = p.children@[i];
        let here = if c.kind@ == "import_statement"@ {
            plain_imports(c, 0)
        } else if c.kind@ == "import_from_statement"@ {
            from_import(c)
        } else {
            proof {
                assert(decreases_to!(p => p.children));
                assert(decreases_to!(p.children => p.children@));
                assert(decreases_to!(p.children@ => c));
            }
            imports_under(c, 0)
        };
        here + imports_under(p, i + 1)
    }
}

fn text_of(n: &SyntaxNode) -> (r: Option<String>)
    ensures
        opt_view(r) == opt_view(n.text),
{
    match &n.text {
        Some(t) => Some(t.clone()),
        None => None,
    }
}

fn unalias(c: &SyntaxNode) -> (r: &SyntaxNode)
    ensures
        *r == unaliased(*c),
{
    if str_eq(c.kind.as_str(), "aliased_import") {
        match c.name_field {
            Some(i) => {
                if i < c.children.len() {
                    &c.children[i]
                } else {
                    c
                }
            },
            None => c,
        }
    } else {
        c
    }
}

fn line_of(n: &SyntaxNode) -> (r: u32)
    ensures
        r == stmt_line(*n),
{
    if n.row == u32::MAX {
        0
    } else {
        n.row + 1
    }
}

fn handle_import_statement(stmt: &SyntaxNode, imports: &mut Vec<ExtractedImport>)
    ensures
        imports_view(final(imports)@) == imports_view(old(imports)@) + plain_imports(*stmt, 0),
{
    let line = line_of(stmt);
    let mut k: usize = 0;
    let ghost start = imports_view(imports@);
    while k < stmt.children.len()
        invariant
            k <= stmt.children@.len(),
            line == stmt_line(*stmt),
            imports_view(imports@) + plain_imports(*stmt, k as int) == start + plain_imports(*stmt, 0),
        decreases stmt.children.len() - k,
    {
        let a = unalias(&stmt.children[k]);
        let ghost before = imports_view(imports@);
        if str_eq(a.kind.as_str(), "dotted_name") {
            match text_of(a) {
                Some(t) => {
                    let names: Vec<String> = Vec::new();
                    assert(path_view(names@) =~= Seq::<Seq<char>>::empty());
                    let rec = ExtractedImport { base: t, names, line };
                    imports.push(rec);
                    assert(imports_view(imports@) =~= before.push(import_view(rec)));
                },
                None => {},
            }
        }
        assert(imports_view(imports@) + plain_imports(*stmt, k + 1) =~= before + plain_imports(*stmt, k as int));
        k = k + 1;
    }
    assert(plain_imports(*stmt, k as int) =~= Seq::<ImportView>::empty());
}

fn module_field_text(stmt: &SyntaxNode) -> (r: (String, usize))
    ensures
        r.0@ == match field_child(*stmt, stmt.module_name_field) {
            Some(m) => match m.text {
                Some(t) => t@,
                None => Seq::empty(),
            },
            None => Seq::empty(),
        },
        r.1 == module_start(*stmt),
{
    match stmt.module_name_field {
        Some(i) => {
            if i < stmt.children.len() {
                let m = &stmt.children[i];
                match &m.text {
                    Some(t) => (t.clone(), m.start_byte),
                    None => (String::new(), m.start_byte),
                }
            } else {
                (String::new(), 0)
            }
        },
        None => (String::new(), 0),
    }
}

fn handle_import_from_statement(stmt: &SyntaxNode, imports: &mut Vec<ExtractedImport>)
    ensures
        imports_view(final(imports)@) == imports_view(old(imports)@) + from_import(*stmt),
{
    let (base, mstart) = module_field_text(stmt);
    let mut names: Vec<String> = Vec::new();
    let mut k: usize = 0;
    assert(path_view(names@) =~= Seq::<Seq<char>>::empty());
    while k < stmt.children.len()
        invariant
            k <= stmt.children@.len(),
            mstart == module_start(*stmt),
            path_view(names@) + from_names(*stmt, k as int) == from_names(*stmt, 0),
        decreases stmt.children.len() - k,
    {
        let a = unalias(&stmt.children[k]);
        let ghost before = path_view(names@);
        if str_eq(a.kind.as_str(), "dotted_name") && a.start_byte != mstart {
            match text_of(a) {
                Some(t) => {
                    names.push(t);
                    assert(path_view(names@) =~= before.push(t@));
                },
                None => {},
            }
        }
        assert(path_view(names@) + from_names(*stmt, k + 1) =~= before + from_names(*stmt, k as int));
        k = k + 1;
    }
    assert(from_names(*stmt, k as int) =~= Seq::<Seq<char>>::empty());
    assert(path_view(names@) =~= from_names(*stmt, 0));
    if !crate::strs::str_is_empty(base.as_str()) {
        let line = line_of(stmt);
        let ghost before = imports_view(imports@);
        let rec = ExtractedImport { base, names, line };
        imports.push(rec);
        assert(imports_view(imports@) =~= before.push(import_view(rec)));
    } else {
        assert(imports_view(imports@) =~= imports_view(imports@) + Seq::<ImportView>::empty());
    }
}

/// Appends the import records under the children of `node`, in source order.
#[verifier::loop_isolation(false)]
pub fn visit_imports(node: &SyntaxNode, imports: &mut Vec<ExtractedImport>)
    ensures
        imports_view(final(imports)@) == imports_view(old(imports)@) + imports_under(*node, 0),
    decreases node,
{
    let ghost start = imports_view(imports@);
    let mut k: usize = 0;
    while k < node.children.len()
        invariant
            k <= node.children@.len(),
            imports_view(imports@) + imports_under(*node, k as int) == start + imports_under(*node, 0),
        decreases node.children.len() - k,
    {
        let c = &node.children[k];
        let ghost before = imports_view(imports@);
        if str_eq(c.kind.as_str(), "import_statement") {
            handle_import_statement(c, imports);
        } else if str_eq(c.kind.as_str(), "import_from_statement") {
            handle_import_from_statement(c, imports);
        } else {
            proof {
                let ghost cv = node.children@;
                assert(decreases_to!(*node => node.children));
                assert(decreases_to!(node.children => cv));
                assert(decreases_to!(cv => cv[k as int]));
            }
            visit_imports(c, imports);
        }
        assert(imports_view(imports@) + imports_under(*node, k + 1) =~= before + imports_under(*node, k as int));
        k = k + 1;
    }
    assert(imports_under(*node, k as int) =~= Seq::<ImportView>::empty());
}

/// The import records of a parsed file, in source order.
pub fn extract_imports(root: &SyntaxNode) -> (r: Vec<ExtractedImport>)
    ensures
        imports_view(r@) == imports_under(*root, 0),
{
    let mut imports: Vec<ExtractedImport> = Vec::new();
    assert(imports_view(imports@) =~= Seq::<ImportView>::empty());
    visit_imports(root, &mut imports);
    imports
}

/// A node of the Python file graph: a source file or an external package.
#[derive(Clone, Copy, PartialEq, Eq, Structural)]
pub enum PyNodeKind {
    File,
    External,
}

/// A node of the Python file graph with its attributes: a file carries its
/// visibility and line count, an external package the `external` flag.
pub struct PyNode {
    pub id: String,
    pub kind: PyNodeKind,
    pub name: String,
    pub visibility: Option<String>,
    pub loc: Option<i64>,
    pub external: Option<bool>,
}

/// A `uses` edge of the Python file graph, with the line of the import.
pub struct PyEdge {
    pub source: String,
    pub target: String,
    pub kind: String,
    pub line: Option<u32>,
}

/// The abstract form of a graph node.
pub struct PyNodeView {
    pub id: Seq<char>,
    pub kind: PyNodeKind,
    pub name: Seq<char>,
    pub visibility: Option<Seq<char>>,
    pub loc: Option<i64>,
    pub external: Option<bool>,
}

/// The abstract form of a graph edge: source, target, kind, line.
pub type PyEdgeView = (Seq<char>, Seq<char>, Seq<char>, Option<u32>);

/// The view of a node.
pub open spec fn py_node_view(n: PyNode) -> PyNodeView {
    PyNodeView { id: n.id@, kind: n.kind, name: n.name@, visibility: opt_view(n.visibility), loc: n.loc, external: n.external }
}

/// The view of an edge.
pub open spec fn py_edge_view(e: PyEdge) -> PyEdgeView {
    (e.source@, e.target@, e.kind@, e.line)
}

/// The graph built so far and the external ids already materialised.
pub struct PyStep {
    pub nodes: Seq<PyNodeView>,
    pub edges: Seq<PyEdgeView>,
    pub seen: Set<Seq<char>>,
}

/// The abstract state of the builder's collections.
pub open spec fn py_step(nodes: Seq<PyNode>, edges: Seq<PyEdge>, seen: Seq<String>) -> PyStep {
    PyStep {
        nodes: nodes.map_values(|n: PyNode| py_node_view(n)),
        edges: edges.map_values(|e: PyEdge| py_edge_view(e)),
        seen: path_view(seen).to_set(),
    }
}

/// The id of the external node for top-level package `top`.
pub open spec fn ext_id(top: Seq<char>) -> Seq<char> {
    "ext:"@ + top
}

/// The external node of top-level package `top`.
pub open spec fn external_node(top: Seq<char>) -> PyNodeView {
    PyNodeView { id: ext_id(top), kind: PyNodeKind::External, name: top, visibility: None, loc: None, external: Some(true) }
}

/// An unresolved import: a `uses` edge from the file to the external node of
/// its top-level package, the node added the first time the package is seen;
/// a relative import adds nothing.
pub open spec fn external_step(st: PyStep, imp: ImportView, file_id: Seq<char>) -> PyStep {
    match spec_external_top_level(imp.0) {
        None => st,
        Some(top) => {
            let id = ext_id(top);
            PyStep {
                nodes: if st.seen.contains(id) { st.nodes } else { st.nodes.push(external_node(top)) },
                edges: st.edges.push((file_id, id, "uses"@, Some(imp.2))),
                seen: st.seen.insert(id),
            }
        },
    }
}

fn contains_str(v: &Vec<String>, s: &str) -> (r: bool)
    ensures
        r == path_view(v@).contains(s@),
{
    let mut i: usize = 0;
    while i < v.len()
        invariant
            i <= v@.len(),
            forall|k: int| 0 <= k < i ==> v@[k]@ != s@,
        decreases v.len() - i,
    {
        if str_eq(v[i].as_str(), s) {
            assert(path_view(v@)[i as int] == s@);
            return true;
        }
        i = i + 1;
    }
    false
}

proof fn lemma_push_seen(v: Seq<String>, x: String)
    ensures
        path_view(v.push(x)).to_set() == path_view(v).to_set().insert(x@),
{
    let a = path_view(v.push(x));
    let b = path_view(v);
    assert(a =~= b.push(x@));
    assert forall|y: Seq<char>| #[trigger] a.to_set().contains(y) <==> b.to_set().insert(x@).contains(y) by {
        if a.to_set().contains(y) {
            let w = choose|w: int| 0 <= w < a.len() && a[w] == y;
            if w < b.len() {
                assert(b[w] == y);
            }
        }
        if b.to_set().contains(y) {
            let w = choose|w: int| 0 <= w < b.len() && b[w] == y;
            assert(a[w] == y);
        }
        if y == x@ {
            assert(a[b.len() as int] == y);
        }
    }
    assert(a.to_set() =~= b.to_set().insert(x@));
}

/// Emits the `uses` edge for an unresolved import (see `external_step`).
pub fn add_external_edge(
    imp: &ExtractedImport,
    file_id: &str,
    nodes: &mut Vec<PyNode>,
    edges: &mut Vec<PyEdge>,
    ext_seen: &mut Vec<String>,
)
    ensures
        py_step(final(nodes)@, final(edges)@, final(ext_seen)@)
            == external_step(py_step(old(nodes)@, old(edges)@, old(ext_seen)@), import_view(*imp), file_id@),
{
    let ghost st = py_step(nodes@, edges@, ext_seen@);
    let top = match external_top_level(imp.base.as_str()) {
        Some(t) => t,
        None => return,
    };
    let mut idv = chars_of("ext:");
    push_str(&mut idv, top.as_str());
    let id = string_of(&idv);
    let seen = contains_str(ext_seen, id.as_str());
    if !seen {
        let ghost before = nodes@;
        let n = PyNode {
            id: id.clone(),
            kind: PyNodeKind::External,
            name: top.clone(),
            visibility: None,
            loc: None,
            external: Some(true),
        };
        nodes.push(n);
        assert(nodes@.map_values(|n: PyNode| py_node_view(n)) =~= before.map_values(|n: PyNode| py_node_view(n)).push(external_node(top@)));
        let ghost sv = ext_seen@;
        let idc = id.clone();
        ext_seen.push(idc);
        proof {
            lemma_push_seen(sv, idc);
        }
    } else {
        assert(st.seen.insert(id@) =~= st.seen);
    }
    let ghost eb = edges@;
    let e = PyEdge { source: owned(file_id), target: id, kind: owned("uses"), line: Some(imp.line) };
    edges.push(e);
    assert(edges@.map_values(|e: PyEdge| py_edge_view(e)) =~= eb.map_values(|e: PyEdge| py_edge_view(e)).push(py_edge_view(e)));
}

/// One edge per resolved target other than the importing file itself.
pub open spec fn target_edges(targets: Seq<Seq<char>>, file_id: Seq<char>, line: u32) -> Seq<PyEdgeView>
    decreases targets.len(),
{
    if targets.len() == 0 {
        Seq::empty()
    } else {
        let prev = target_edges(targets.drop_last(), file_id, line);
        if targets.last() != file_id {
            prev.push((file_id, targets.last(), "uses"@, Some(line)))
        } else {
            prev
        }
    }
}

/// One import of file `file_id` (module `mod_path`): `uses` edges to the files
/// it resolves to, or, when it resolves to none, the external edge.
pub open spec fn import_step(
    st: PyStep,
    imp: ImportView,
    file_id: Seq<char>,
    mod_path: Seq<char>,
    index: Map<Seq<char>, Seq<char>>,
) -> PyStep {
    let targets = spec_resolve_import(imp.0, imp.1, mod_path, index);
    if targets.len() == 0 {
        external_step(st, imp, file_id)
    } else {
        PyStep { nodes: st.nodes, edges: st.edges + target_edges(targets, file_id, imp.2), seen: st.seen }
    }
}

/// The imports of a file, one after another.
pub open spec fn imports_step(
    st: PyStep,
    imps: Seq<ImportView>,
    file_id: Seq<char>,
    mod_path: Seq<char>,
    index: Map<Seq<char>, Seq<char>>,
) -> PyStep
    decreases imps.len(),
{
    if imps.len() == 0 {
        st
    } else {
        import_step(imports_step(st, imps.drop_last(), file_id, mod_path, index), imps.last(), file_id, mod_path, index)
    }
}

/// How many `\n` bytes `b` holds.
pub open spec fn count_newlines(b: Seq<u8>) -> nat
    decreases b.len(),
{
    if b.len() == 0 {
        0
    } else {
        count_newlines(b.drop_last()) + if b.last() == 10u8 { 1nat } else { 0nat }
    }
}

/// The node of a source file: named by the path's final component, visible by
/// the convention of its module's last segment, with its line count.
pub open spec fn file_node(file_id: Seq<char>, mod_path: Seq<char>, loc: i64) -> PyNodeView {
    PyNodeView {
        id: file_id,
        kind: PyNodeKind::File,
        name: match crate::paths::spec_path_file_name(file_id) {
            Some(n) => n,
            None => Seq::empty(),
        },
        visibility: Some(spec_py_visibility(spec_split(mod_path, '.').last())),
        loc: Some(loc),
        external: None,
    }
}

/// One parsed file added to the graph: its file node (line count: one more
/// than its `\n` bytes), then the edges of its imports in source order.
pub open spec fn spec_parse_and_add(
    st: PyStep,
    file_id: Seq<char>,
    mod_path: Seq<char>,
    source: Seq<u8>,
    tree: SyntaxNode,
    index: Map<Seq<char>, Seq<char>>,
) -> PyStep {
    let loc = (count_newlines(source) + 1) as i64;
    imports_step(
        PyStep { nodes: st.nodes.push(file_node(file_id, mod_path, loc)), edges: st.edges, seen: st.seen },
        imports_under(tree, 0),
        file_id,
        mod_path,
        index,
    )
}

fn newline_count(source: &[u8]) -> (r: usize)
    ensures
        r == count_newlines(source@),
        r <= source@.len(),
{
    let mut n: usize = 0;
    let mut i: usize = 0;
    while i < source.len()
        invariant
            i <= source@.len(),
            n <= i,
            n == count_newlines(source@.take(i as int)),
        decreases source.len() - i,
    {
        assert(source@.take(i + 1).drop_last() =~= source@.take(i as int));
        if source[i] == 10u8 {
            n = n + 1;
        }
        i = i + 1;
    }
    assert(source@.take(source@.len() as int) =~= source@);
    n
}

fn push_target_edges(edges: &mut Vec<PyEdge>, targets: &Vec<String>, file_id: &str, line: u32)
    ensures
        final(edges)@.map_values(|e: PyEdge| py_edge_view(e))
            == old(edges)@.map_values(|e: PyEdge| py_edge_view(e)) + target_edges(path_view(targets@), file_id@, line),
{
    let ghost start = edges@.map_values(|e: PyEdge| py_edge_view(e));
    let mut i: usize = 0;
    while i < targets.len()
        invariant
            i <= targets@.len(),
            edges@.map_values(|e: PyEdge| py_edge_view(e)) == start + target_edges(path_view(targets@.take(i as int)), file_id@, line),
        decreases targets.len() - i,
    {
        let ghost tv = path_view(targets@.take(i + 1));
        assert(tv =~= path_view(targets@.take(i as int)).push(targets@[i as int]@));
        assert(tv.drop_last() =~= path_view(targets@.take(i as int)));
        assert(tv.last() == targets@[i as int]@);
        let ghost before = edges@.map_values(|e: PyEdge| py_edge_view(e));
        if !str_eq(targets[i].as_str(), file_id) {
            let e = PyEdge { source: owned(file_id), target: targets[i].clone(), kind: owned("uses"), line: Some(line) };
            edges.push(e);
            assert(edges@.map_values(|e: PyEdge| py_edge_view(e)) =~= before.push(py_edge_view(e)));
        }
        i = i + 1;
    }
    assert(targets@.take(targets@.len() as int) =~= targets@);
}

/// Adds one parsed Python file to the graph (see `spec_parse_and_add`):
/// `file_id` is its path, `mod_path` its dotted module, `source` its bytes and
/// `tree` its syntax tree; `module_index` maps modules to files.
pub fn parse_and_add(
    file_id: &str,
    mod_path: &str,
    source: &[u8],
    tree: &SyntaxNode,
    module_index: &NameMap<String>,
    nodes: &mut Vec<PyNode>,
    edges: &mut Vec<PyEdge>,
    ext_seen: &mut Vec<String>,
)
    requires
        source@.len() < i64::MAX,
    ensures
        py_step(final(nodes)@, final(edges)@, final(ext_seen)@) == spec_parse_and_add(
            py_step(old(nodes)@, old(edges)@, old(ext_seen)@),
            file_id@,
            mod_path@,
            source@,
            *tree,
            str_map_view(module_index@),
        ),
{
    let count = newline_count(source);
    let loc: i64 = (count as i64) + 1;
    let name = match crate::paths::path_file_name(file_id) {
        Some(n) => n,
        None => String::new(),
    };
    let mp = chars_of(mod_path);
    let parts = split_chars(&mp, '.');
    let last = string_of(&parts[parts.len() - 1]);
    assert(parts@.map_values(|v: Vec<char>| v@)[parts@.len() - 1] == parts@[parts@.len() - 1]@);
    let vis = py_visibility_str(last.as_str());
    let ghost nb = nodes@.map_values(|n: PyNode| py_node_view(n));
    let node = PyNode {
        id: owned(file_id),
        kind: PyNodeKind::File,
        name,
        visibility: Some(owned(vis)),
        loc: Some(loc),
        external: None,
    };
    nodes.push(node);
    assert(nodes@.map_values(|n: PyNode| py_node_view(n)) =~= nb.push(py_node_view(node)));
    let imports = extract_imports(tree);
    let ghost imps = imports_view(imports@);
    let ghost index = str_map_view(module_index@);
    let ghost st0 = py_step(nodes@, edges@, ext_seen@);
    let ghost old_st = py_step(old(nodes)@, old(edges)@, old(ext_seen)@);
    assert(spec_split(mod_path@, '.').last() == last@);
    assert(py_node_view(node) == file_node(file_id@, mod_path@, (count_newlines(source@) + 1) as i64));
    assert(st0 == PyStep {
        nodes: old_st.nodes.push(file_node(file_id@, mod_path@, (count_newlines(source@) + 1) as i64)),
        edges: old_st.edges,
        seen: old_st.seen,
    });
    assert(imps == imports_under(*tree, 0));
    let mut i: usize = 0;
    while i < imports.len()
        invariant
            i <= imports@.len(),
            imps == imports_view(imports@),
            index == str_map_view(module_index@),
            py_step(nodes@, edges@, ext_seen@) == imports_step(st0, imps.take(i as int), file_id@, mod_path@, index),
        decreases imports.len() - i,
    {
        assert(imps.take(i + 1).drop_last() =~= imps.take(i as int));
        assert(imps.take(i + 1).last() == import_view(imports@[i as int]));
        let imp = &imports[i];
        let targets = resolve_import(imp.base.as_str(), &imp.names, mod_path, module_index);
        if targets.len() == 0 {
            add_external_edge(imp, file_id, nodes, edges, ext_seen);
        } else {
            push_target_edges(edges, &targets, file_id, imp.line);
        }
        i = i + 1;
    }
    assert(imps.take(imps.len() as int) =~= imps);
}

/// Every external node of the graph is recorded as seen, and no two external
/// nodes share an id.
pub open spec fn externals_tracked(st: PyStep) -> bool {
    &&& forall|i: int| 0 <= i < st.nodes.len() && st.nodes[i].kind == PyNodeKind::External
        ==> st.seen.contains(#[trigger] st.nodes[i].id)
    &&& forall|i: int, j: int|
        0 <= i < j < st.nodes.len() && st.nodes[i].kind == PyNodeKind::External && st.nodes[j].kind == PyNodeKind::External
        ==> #[trigger] st.nodes[i].id != #[trigger] st.nodes[j].id
}

proof fn lemma_external_step_tracked(st: PyStep, imp: ImportView, file_id: Seq<char>)
    requires
        externals_tracked(st),
    ensures
        externals_tracked(external_step(st, imp, file_id)),
{
    match spec_external_top_level(imp.0) {
        None => {},
        Some(top) => {
            let id = ext_id(top);
            let r = external_step(st, imp, file_id);
            if !st.seen.contains(id) {
                assert forall|i: int, j: int|
                    0 <= i < j < r.nodes.len() && r.nodes[i].kind == PyNodeKind::External && r.nodes[j].kind == PyNodeKind::External
                    implies #[trigger] r.nodes[i].id != #[trigger] r.nodes[j].id by {
                    if j == st.nodes.len() {
                        assert(r.nodes[i] == st.nodes[i]);
                        assert(st.seen.contains(st.nodes[i].id));
                    } else {
                        assert(r.nodes[i] == st.nodes[i] && r.nodes[j] == st.nodes[j]);
                    }
                }
                assert forall|i: int| 0 <= i < r.nodes.len() && r.nodes[i].kind == PyNodeKind::External
                    implies r.seen.contains(#[trigger] r.nodes[i].id) by {
                    if i < st.nodes.len() {
                        assert(r.nodes[i] == st.nodes[i]);
                    }
                }
            }
        },
    }
}

proof fn lemma_imports_step_tracked(
    st: PyStep,
    imps: Seq<ImportView>,
    file_id: Seq<char>,
    mod_path: Seq<char>,
    index: Map<Seq<char>, Seq<char>>,
)
    requires
        externals_tracked(st),
    ensures
        externals_tracked(imports_step(st, imps, file_id, mod_path, index)),
    decreases imps.len(),
{
    if imps.len() > 0 {
        lemma_imports_step_tracked(st, imps.drop_last(), file_id, mod_path, index);
        let prev = imports_step(st, imps.drop_last(), file_id, mod_path, index);
        lemma_external_step_tracked(prev, imps.last(), file_id);
    }
}

/// One external node per top-level package: adding a parsed file keeps every
/// external node recorded as seen and never adds a second node for a package.
pub proof fn lemma_one_external_node_per_package(
    st: PyStep,
    file_id: Seq<char>,
    mod_path: Seq<char>,
    source: Seq<u8>,
    tree: SyntaxNode,
    index: Map<Seq<char>, Seq<char>>,
)
    requires
        externals_tracked(st),
    ensures
        externals_tracked(spec_parse_and_add(st, file_id, mod_path, source, tree, index)),
{
    let loc = (count_newlines(source) + 1) as i64;
    let st1 = PyStep { nodes: st.nodes.push(file_node(file_id, mod_path, loc)), edges: st.edges, seen: st.seen };
    assert forall|i: int| 0 <= i < st1.nodes.len() && st1.nodes[i].kind == PyNodeKind::External
        implies st1.seen.contains(#[trigger] st1.nodes[i].id) by {
        assert(i < st.nodes.len());
        assert(st1.nodes[i] == st.nodes[i]);
    }
    assert forall|i: int, j: int|
        0 <= i < j < st1.nodes.len() && st1.nodes[i].kind == PyNodeKind::External && st1.nodes[j].kind == PyNodeKind::External
        implies #[trigger] st1.nodes[i].id != #[trigger] st1.nodes[j].id by {
        assert(j < st.nodes.len());
        assert(st1.nodes[i] == st.nodes[i] && st1.nodes[j] == st.nodes[j]);
    }
    lemma_imports_step_tracked(st1, imports_under(tree, 0), file_id, mod_path, index);
}

} // verus!
