//! One item of a module body in the module-graph walk: a test-only item is
//! skipped when tests are ignored, a `use` declaration is recorded for later
//! resolution, and a `mod` declaration adds its module and says where its body
//! is (inline, in a file, or nowhere to be found). The caller reads and parses
//! the files and walks the bodies in order.

use vstd::prelude::*;
use crate::maps::{path_view, ModuleIndex};
use crate::module_walk::{add_submodule, declared_use, mod_file_path, Span};
use crate::module_walk::record_use;
use crate::paths::{spec_path_join, spec_path_parent, spec_submodule_candidates};
use crate::rust_text::{is_test_item, spec_is_test_attr, AttrModel};
use crate::strs::opt_view;
use crate::use_graph::{
    spec_denotes, spec_module_node_id, spec_use_paths, EdgeKind, GraphBuilder, NodeKind, PendingUse, UseTree, VisSyntax,
};

verus! {

/// What a module-body item is, as the walk reads it.
pub enum WalkItemKind {
    /// `mod name;` or `mod name { … }` (`inline_span`: the lines of an inline
    /// body; `path_attr`: a `#[path = "…"]` value).
    Mod { name: String, vis: VisSyntax, inline_span: Option<Span>, path_attr: Option<String> },
    /// `use tree;`
    Use { tree: UseTree, vis: VisSyntax },
    /// Any other item.
    Other,
}

/// A module-body item: its attributes (`None` for an item kind that carries
/// none) and what it is.
pub struct WalkItem {
    pub attrs: Option<Vec<AttrModel>>,
    pub kind: WalkItemKind,
}

/// What the walk does next after one item.
pub enum WalkStep {
    /// A test-only item left out.
    Skipped,
    /// A `use` declaration recorded.
    UseRecorded,
    /// Nothing to do for the item.
    Other,
    /// A module with an inline body: walk it as the module `mod_id`.
    Inline { mod_id: String, mod_path: Vec<String> },
    /// A module whose body is the file `file`.
    File { file: String, mod_id: String, mod_path: Vec<String> },
    /// A module whose file was not found.
    Missing { mod_id: String, mod_path: Vec<String> },
}

/// The item is gated to tests.
pub open spec fn item_is_test(attrs: Option<Vec<AttrModel>>) -> bool {
    match attrs {
        Some(v) => exists|k: int| 0 <= k < v@.len() && spec_is_test_attr(#[trigger] v@[k]),
        None => false,
    }
}

/// The pending uses of a `use` declaration were appended: one per imported
/// path, in order.
pub open spec fn use_recorded(
    old_p: Seq<PendingUse>,
    new_p: Seq<PendingUse>,
    mod_id: Seq<char>,
    mod_path: Seq<Seq<char>>,
    tree: UseTree,
    vis: VisSyntax,
) -> bool {
    let paths = spec_use_paths(tree, Seq::empty());
    &&& new_p.len() == old_p.len() + paths.len()
    &&& new_p.take(old_p.len() as int) == old_p
    &&& forall|j: int|
        0 <= j < paths.len() ==> declared_use(mod_id, mod_path, paths[j], vis, #[trigger] new_p[old_p.len() + j])
}

/// The module `name` was added under `parent_id`: one module node (its id the
/// one its path gives), one `Contains` edge from the parent, and its index entry.
pub open spec fn submodule_added(
    ob: GraphBuilder,
    nb: GraphBuilder,
    oi: Map<Seq<Seq<char>>, Seq<char>>,
    ni: Map<Seq<Seq<char>>, Seq<char>>,
    pkg: Seq<char>,
    target_kind: Seq<char>,
    target_name: Seq<char>,
    parent_id: Seq<char>,
    parent_path: Seq<Seq<char>>,
    name: Seq<char>,
    vis: VisSyntax,
    inline_span: Option<Span>,
    enclosing: Seq<char>,
    sub_id: Seq<char>,
    sub_path: Seq<Seq<char>>,
) -> bool {
    &&& sub_path == parent_path.push(name)
    &&& sub_id == spec_module_node_id(pkg, target_kind, target_name, sub_path)
    &&& nb.nodes@.len() == ob.nodes@.len() + 1
    &&& nb.nodes@.take(ob.nodes@.len() as int) == ob.nodes@
    &&& ({
        let n = nb.nodes@.last();
        &&& n.id@ == sub_id
        &&& n.kind == NodeKind::Module
        &&& n.name@ == name
        &&& n.path@ == enclosing
        &&& opt_view(n.parent) == Some(parent_id)
        &&& n.external is None && n.version is None && n.item_count is None
        &&& (n.visibility matches Some(v) && spec_denotes(vis, v))
        &&& match inline_span {
            Some(s) => n.loc == Some((s.end - s.start + 1) as u32) && n.line == Some(s.start),
            None => n.loc is None && n.line is None,
        }
    })
    &&& nb.edges@ == ob.edges@.push(nb.edges@.last())
    &&& ({
        let e = nb.edges@.last();
        e.from@ == parent_id && e.to@ == sub_id && e.kind == EdgeKind::Contains && e.visibility is None
    })
    &&& ni == oi.insert(sub_path, sub_id)
}

/// `file` may back the module `name` declared in `enclosing`: the `#[path]`
/// value joined to the declaring file's directory, else one of the two default
/// candidates.
pub open spec fn module_file_candidate(path_attr: Option<Seq<char>>, enclosing: Seq<char>, name: Seq<char>, file: Seq<char>) -> bool {
    match path_attr {
        Some(rel) => file == spec_path_join(
            match spec_path_parent(enclosing) {
                Some(d) => d,
                None => Seq::empty(),
            },
            rel,
        ),
        None => match spec_submodule_candidates(enclosing, name) {
            None => false,
            Some((a, b)) => file == a || file == b,
        },
    }
}

/// The span of an inline module body fits the line count.
pub open spec fn span_fits(item: WalkItem) -> bool {
    match item.kind {
        WalkItemKind::Mod { inline_span: Some(s), .. } => s.start <= s.end && s.end - s.start + 1 <= u32::MAX,
        _ => true,
    }
}

/// One item of the body of module `mod_id` (module path `mod_path`, declared
/// in `enclosing`) of the target `target_name` of kind `target_kind` in
/// package `pkg`.
pub fn walk_item(
    builder: &mut GraphBuilder,
    module_index: &mut ModuleIndex,
    pending: &mut Vec<PendingUse>,
    pkg: &str,
    target_kind: &str,
    target_name: &str,
    mod_id: &str,
    mod_path: &Vec<String>,
    enclosing: &str,
    ignore_tests: bool,
    item: &WalkItem,
) -> (r: WalkStep)
    requires
        span_fits(*item),
    ensures
        ignore_tests && item_is_test(item.attrs) ==> {
            &&& r is Skipped
            &&& *final(builder) == *old(builder)
            &&& final(module_index)@ == old(module_index)@
            &&& final(pending)@ == old(pending)@
        },
        !(ignore_tests && item_is_test(item.attrs)) ==> match item.kind {
            WalkItemKind::Use { tree, vis } => {
                &&& r is UseRecorded
                &&& *final(builder) == *old(builder)
                &&& final(module_index)@ == old(module_index)@
                &&& use_recorded(old(pending)@, final(pending)@, mod_id@, path_view(mod_path@), tree, vis)
            },
            WalkItemKind::Other => {
                &&& r is Other
                &&& *final(builder) == *old(builder)
                &&& final(module_index)@ == old(module_index)@
                &&& final(pending)@ == old(pending)@
            },
            WalkItemKind::Mod { name, vis, inline_span, path_attr } => {
                &&& final(pending)@ == old(pending)@
                &&& match r {
                    WalkStep::Inline { mod_id: s, mod_path: p } => inline_span is Some && submodule_added(
                        *old(builder), *final(builder), old(module_index)@, final(module_index)@, pkg@, target_kind@,
                        target_name@, mod_id@, path_view(mod_path@), name@, vis, inline_span, enclosing@, s@,
                        path_view(p@),
                    ),
                    WalkStep::File { file, mod_id: s, mod_path: p } => inline_span is None && submodule_added(
                        *old(builder), *final(builder), old(module_index)@, final(module_index)@, pkg@, target_kind@,
                        target_name@, mod_id@, path_view(mod_path@), name@, vis, inline_span, enclosing@, s@,
                        path_view(p@),
                    ) && module_file_candidate(opt_view(path_attr), enclosing@, name@, file@),
                    WalkStep::Missing { mod_id: s, mod_path: p } => inline_span is None && submodule_added(
                        *old(builder), *final(builder), old(module_index)@, final(module_index)@, pkg@, target_kind@,
                        target_name@, mod_id@, path_view(mod_path@), name@, vis, inline_span, enclosing@, s@,
                        path_view(p@),
                    ),
                    _ => false,
                }
            },
        },
{
    if ignore_tests && is_test_item(&item.attrs) {
        return WalkStep::Skipped;
    }
    match &item.kind {
        WalkItemKind::Use { tree, vis } => {
            record_use(pending, mod_id, mod_path, tree, vis);
            WalkStep::UseRecorded
        },
        WalkItemKind::Other => WalkStep::Other,
        WalkItemKind::Mod { name, vis, inline_span, path_attr } => {
            let span = match inline_span {
                Some(s) => Some(Span { start: s.start, end: s.end }),
                None => None,
            };
            let (sub_id, sub_path) = add_submodule(
                builder,
                module_index,
                pkg,
                target_kind,
                target_name,
                mod_id,
                mod_path,
                name.as_str(),
                vis,
                span,
                enclosing,
            );
            if inline_span.is_some() {
                WalkStep::Inline { mod_id: sub_id, mod_path: sub_path }
            } else {
                let attr = match path_attr {
                    Some(p) => Some(p.as_str()),
                    None => None,
                };
                match mod_file_path(attr, enclosing, name.as_str()) {
                    Some(file) => WalkStep::File { file, mod_id: sub_id, mod_path: sub_path },
                    None => WalkStep::Missing { mod_id: sub_id, mod_path: sub_path },
                }
            }
        },
    }
}

} // verus!
