//! The steps of the module-graph walk over one crate target: the target's root
//! module, a parsed file's annotations, each `mod` declaration, and the `use`
//! declarations and crate-qualified paths recorded for later resolution.
//!
//! Reading and parsing the files is done by the caller; every node, edge, index
//! entry and pending use the walk adds is decided here.

use vstd::prelude::*;
use crate::maps::{path_view, ModuleIndex, NameMap};
use crate::paths::{path_exists, path_join, path_parent, resolve_submodule_path, spec_path_join, spec_path_parent, spec_submodule_candidates};
use crate::strs::{chars_of, opt_view, owned, push_str, str_eq, string_of};
use crate::use_graph::{
    aggregate_crate_loc, collect_use_paths, convert_visibility, crate_loc_aggregated, edges_view, emit_uses, loc_sum,
    spec_emitted, EdgeView, count_items, module_node_id, paths_view, spec_count_items,
    spec_denotes, spec_module_node_id, target_kind_label, Edge, EdgeKind, GraphBuilder, ItemKind, Node,
    NodeKind, PendingUse, Target, UseTree, VisSyntax, Visibility, build_dep_maps, crate_node_id,
    is_importable_kind, is_lib_target, is_supported_kind, is_supported_target, spec_crate_node_id, spec_dep_map,
    spec_find_resolve_node, str_map_view, ResolveNode,
};

verus! {

/// How many times `c` occurs in `s`.
pub open spec fn count_char(s: Seq<char>, c: char) -> nat
    decreases s.len(),
{
    if s.len() == 0 {
        0
    } else {
        count_char(s.drop_last(), c) + if s.last() == c { 1nat } else { 0nat }
    }
}

/// The number of lines of a text (`str::lines().count()`): one per `\n`, plus
/// one for a last line without a terminating `\n`; none for an empty text.
pub open spec fn count_lines(s: Seq<char>) -> nat {
    if s.len() == 0 {
        0
    } else {
        count_char(s, '\n') + if s.last() == '\n' { 0nat } else { 1nat }
    }
}

proof fn lemma_count_char_le(s: Seq<char>, c: char)
    ensures
        count_char(s, c) <= s.len(),
    decreases s.len(),
{
    if s.len() > 0 {
        lemma_count_char_le(s.drop_last(), c);
    }
}

/// The number of lines of `s`.
pub fn line_count(s: &str) -> (r: usize)
    ensures
        r == count_lines(s@),
{
    let v = chars_of(s);
    let mut n: usize = 0;
    let mut i: usize = 0;
    while i < v.len()
        invariant
            i <= v@.len(),
            n == count_char(v@.take(i as int), '\n'),
            n <= i,
        decreases v.len() - i,
    {
        assert(v@.take(i + 1).drop_last() =~= v@.take(i as int));
        if v[i] == '\n' {
            n = n + 1;
        }
        i = i + 1;
    }
    assert(v@.take(v@.len() as int) =~= v@);
    if v.len() == 0 {
        0
    } else if v[v.len() - 1] == '\n' {
        n
    } else {
        proof {
            lemma_count_char_le(v@.drop_last(), '\n');
        }
        n + 1
    }
}

/// `<target> (<kind>)`: the label of a target's root module.
pub open spec fn root_label(target_name: Seq<char>, kind: Seq<char>) -> Seq<char> {
    target_name + " ("@ + kind + ")"@
}

/// Adds the root module of a target: a public module node under the crate node
/// `crate_id`, labelled `<target> (<kind>)` and located at the target's root
/// file, a `contains` edge from the crate to it, and the empty path mapped to it
/// in `module_index`. Returns the root module's id.
pub fn enter_target(
    builder: &mut GraphBuilder,
    module_index: &mut ModuleIndex,
    pkg_repr: &str,
    crate_id: &str,
    target: &Target,
) -> (r: String)
    ensures
        r@ == spec_module_node_id(pkg_repr@, crate::use_graph::spec_kind_label(target.kind@), target.name@, Seq::empty()),
        final(builder).nodes@.len() == old(builder).nodes@.len() + 1,
        final(builder).nodes@.take(old(builder).nodes@.len() as int) == old(builder).nodes@,
        ({
            let n = final(builder).nodes@.last();
            &&& n.id@ == r@
            &&& n.kind == NodeKind::Module
            &&& n.path@ == target.src_path@
            &&& opt_view(n.parent) == Some(crate_id@)
            &&& n.visibility == Some(Visibility::Public)
            &&& n.external is None && n.version is None
            &&& n.loc is None && n.line is None && n.item_count is None
            &&& n.name@ == root_label(target.name@, crate::use_graph::spec_kind_label(target.kind@))
        }),
        final(builder).edges@ == old(builder).edges@.push(final(builder).edges@.last()),
        ({
            let e = final(builder).edges@.last();
            e.from@ == crate_id@ && e.to@ == r@ && e.kind == EdgeKind::Contains && e.visibility is None
        }),
        final(module_index)@ == old(module_index)@.insert(Seq::empty(), r@),
{
    let empty: Vec<String> = Vec::new();
    let kind = target_kind_label(target);
    let root_id = module_node_id(pkg_repr, kind, target.name.as_str(), &empty);
    assert(path_view(empty@) =~= Seq::<Seq<char>>::empty());
    let mut label = chars_of(target.name.as_str());
    push_str(&mut label, " (");
    push_str(&mut label, kind);
    push_str(&mut label, ")");
    builder.add_node(Node {
        id: root_id.clone(),
        kind: NodeKind::Module,
        name: string_of(&label),
        path: target.src_path.clone(),
        parent: Some(owned(crate_id)),
        external: None,
        version: None,
        visibility: Some(Visibility::Public),
        loc: None,
        line: None,
        item_count: None,
    });
    builder.add_edge(Edge { from: owned(crate_id), to: root_id.clone(), kind: EdgeKind::Contains, visibility: None });
    assert(builder.nodes@.take(old(builder).nodes@.len() as int) =~= old(builder).nodes@);
    let key: Vec<String> = Vec::new();
    assert(path_view(key@) =~= Seq::<Seq<char>>::empty());
    module_index.insert(key, root_id.clone());
    root_id
}

/// The position of the first node with id `id`, at or after `i`.
pub open spec fn first_node_with_id(nodes: Seq<Node>, id: Seq<char>, i: int) -> Option<int>
    decreases nodes.len() - i,
{
    if i < 0 || i >= nodes.len() {
        None
    } else if nodes[i].id@ == id {
        Some(i)
    } else {
        first_node_with_id(nodes, id, i + 1)
    }
}

proof fn lemma_first_node_bounds(nodes: Seq<Node>, id: Seq<char>, i: int)
    ensures
        first_node_with_id(nodes, id, i) matches Some(k) ==> i <= k < nodes.len(),
    decreases nodes.len() - i,
{
    if !(i < 0 || i >= nodes.len()) && nodes[i].id@ != id {
        lemma_first_node_bounds(nodes, id, i + 1);
    }
}

/// `new` is `old` with the module a file backs annotated: the first node with
/// id `mod_id` gets the file's line count and counted top-level items (as the
/// 32-bit counts the graph stores) and the file's path; nothing else changes,
/// and nothing at all without such a node.
pub open spec fn file_annotated(
    old: Seq<Node>,
    new: Seq<Node>,
    mod_id: Seq<char>,
    file_path: Seq<char>,
    content: Seq<char>,
    items: Seq<ItemKind>,
) -> bool {
    &&& new.len() == old.len()
    &&& match first_node_with_id(old, mod_id, 0) {
        None => new == old,
        Some(k) => {
            &&& forall|j: int| 0 <= j < old.len() && j != k ==> #[trigger] new[j] == old[j]
            &&& new[k].loc == Some(#[verifier::truncate] (count_lines(content) as u32))
            &&& new[k].item_count == Some(#[verifier::truncate] (spec_count_items(items) as u32))
            &&& new[k].path@ == file_path
            &&& new[k].id == old[k].id
            &&& new[k].kind == old[k].kind
            &&& new[k].name == old[k].name
            &&& new[k].parent == old[k].parent
            &&& new[k].external == old[k].external
            &&& new[k].version == old[k].version
            &&& new[k].visibility == old[k].visibility
            &&& new[k].line == old[k].line
        },
    }
}

/// Annotates the module a file backs with what the file holds: the first node
/// with id `mod_id` gets the file's line count and counted top-level items (as
/// the 32-bit counts the graph stores) and the file's path; nothing else
/// changes, and nothing at all without such a node.
pub fn annotate_module_file(
    builder: &mut GraphBuilder,
    mod_id: &str,
    file_path: &str,
    content: &str,
    items: &Vec<ItemKind>,
)
    ensures
        final(builder).edges@ == old(builder).edges@,
        file_annotated(old(builder).nodes@, final(builder).nodes@, mod_id@, file_path@, content@, items@),
{
    let lines = line_count(content);
    let count = count_items(items);
    let mut i: usize = 0;
    while i < builder.nodes.len()
        invariant
            i <= builder.nodes@.len(),
            builder.nodes@ == old(builder).nodes@,
            builder.edges@ == old(builder).edges@,
            lines == count_lines(content@),
            count == spec_count_items(items@),
            first_node_with_id(builder.nodes@, mod_id@, i as int) == first_node_with_id(builder.nodes@, mod_id@, 0),
        decreases builder.nodes.len() - i,
    {
        if str_eq(builder.nodes[i].id.as_str(), mod_id) {
            assert(first_node_with_id(builder.nodes@, mod_id@, i as int) == Some(i as int));
            let loc: u32 = #[verifier::truncate] (lines as u32);
            let ic: u32 = #[verifier::truncate] (count as u32);
            let ghost before = builder.nodes@;
            proof {
                lemma_first_node_bounds(before, mod_id@, 0);
            }
            builder.nodes[i].loc = Some(loc);
            builder.nodes[i].item_count = Some(ic);
            builder.nodes[i].path = owned(file_path);
            assert(builder.nodes@.len() == before.len());
            assert(forall|j: int| 0 <= j < before.len() && j != i ==> #[trigger] builder.nodes@[j] == before[j]);
            assert(builder.nodes@[i as int].id == before[i as int].id);
            return;
        }
        i = i + 1;
    }
}

/// The pending uses recorded for the crate-qualified paths a module's file
/// mentions outside `use` declarations: private, bare, one per path.
pub open spec fn bare_use(mod_id: Seq<char>, mod_path: Seq<Seq<char>>, path: Seq<Seq<char>>, pu: PendingUse) -> bool {
    &&& pu.from_mod_id@ == mod_id
    &&& path_view(pu.current_path@) == mod_path
    &&& path_view(pu.use_path@) == path
    &&& pu.visibility == Visibility::Private
    &&& pu.bare
}

/// `new` is `old` followed by one bare pending use per path of `paths`, in
/// order.
pub open spec fn bare_paths_recorded(
    old: Seq<PendingUse>,
    new: Seq<PendingUse>,
    mod_id: Seq<char>,
    mod_path: Seq<Seq<char>>,
    paths: Seq<Seq<Seq<char>>>,
) -> bool {
    &&& new.len() == old.len() + paths.len()
    &&& new.take(old.len() as int) == old
    &&& forall|j: int| 0 <= j < paths.len() ==> bare_use(mod_id, mod_path, paths[j], #[trigger] new[old.len() + j])
}

/// Records one bare pending use per crate-qualified path of a module's file.
pub fn record_bare_paths(pending: &mut Vec<PendingUse>, mod_id: &str, mod_path: &Vec<String>, paths: Vec<Vec<String>>)
    ensures
        bare_paths_recorded(old(pending)@, final(pending)@, mod_id@, path_view(mod_path@), paths_view(paths@)),
{
    let ghost ps = paths@;
    let total = paths.len();
    let n0 = pending.len();
    let mut rest = paths;
    let mut k: usize = 0;
    while rest.len() > 0
        invariant
            n0 == old(pending)@.len(),
            total == ps.len(),
            k + rest@.len() == ps.len(),
            rest@ == ps.skip(k as int),
            pending@.len() == n0 + k,
            pending@.take(n0 as int) == old(pending)@,
            forall|j: int| 0 <= j < k ==> bare_use(mod_id@, path_view(mod_path@), path_view(ps[j]@), #[trigger] pending@[n0 + j]),
        decreases rest.len(),
    {
        let p = rest.remove(0);
        assert(p == ps[k as int]);
        assert(rest@ =~= ps.skip(k + 1));
        let cur = mod_path.clone();
        assert(cur@ == mod_path@);
        pending.push(PendingUse {
            from_mod_id: owned(mod_id),
            current_path: cur,
            use_path: p,
            visibility: Visibility::Private,
            bare: true,
        });
        assert(pending@.take(n0 as int) =~= old(pending)@);
        k = k + 1;
    }
}

/// What a module's file contributes before its items are walked: the module
/// node is annotated with the file's path, line count and item count, and one
/// bare pending use is recorded per crate-qualified path the file mentions
/// outside `use` declarations.
pub fn walk_file_model(
    builder: &mut GraphBuilder,
    pending: &mut Vec<PendingUse>,
    mod_id: &str,
    mod_path: &Vec<String>,
    file_path: &str,
    content: &str,
    items: &Vec<ItemKind>,
    bare_paths: Vec<Vec<String>>,
)
    ensures
        final(builder).edges@ == old(builder).edges@,
        file_annotated(old(builder).nodes@, final(builder).nodes@, mod_id@, file_path@, content@, items@),
        bare_paths_recorded(old(pending)@, final(pending)@, mod_id@, path_view(mod_path@), paths_view(bare_paths@)),
{
    annotate_module_file(builder, mod_id, file_path, content, items);
    record_bare_paths(pending, mod_id, mod_path, bare_paths);
}

/// A pending use recorded for one path of a `use` declaration.
pub open spec fn declared_use(mod_id: Seq<char>, mod_path: Seq<Seq<char>>, path: Seq<Seq<char>>, vis: VisSyntax, pu: PendingUse) -> bool {
    &&& pu.from_mod_id@ == mod_id
    &&& path_view(pu.current_path@) == mod_path
    &&& path_view(pu.use_path@) == path
    &&& spec_denotes(vis, pu.visibility)
    &&& !pu.bare
}

/// Records one pending use per path a `use` declaration of the module imports,
/// carrying the declaration's visibility.
pub fn record_use(pending: &mut Vec<PendingUse>, mod_id: &str, mod_path: &Vec<String>, tree: &UseTree, vis: &VisSyntax)
    ensures
        final(pending)@.len() == old(pending)@.len() + crate::use_graph::spec_use_paths(*tree, Seq::empty()).len(),
        final(pending)@.take(old(pending)@.len() as int) == old(pending)@,
        forall|j: int| 0 <= j < crate::use_graph::spec_use_paths(*tree, Seq::empty()).len() ==> declared_use(
            mod_id@,
            path_view(mod_path@),
            crate::use_graph::spec_use_paths(*tree, Seq::empty())[j],
            *vis,
            #[trigger] final(pending)@[old(pending)@.len() + j],
        ),
{
    let mut paths: Vec<Vec<String>> = Vec::new();
    let empty: Vec<String> = Vec::new();
    assert(path_view(empty@) =~= Seq::<Seq<char>>::empty());
    assert(paths_view(paths@) =~= Seq::<Seq<Seq<char>>>::empty());
    collect_use_paths(tree, empty, &mut paths);
    let ghost ps = paths@;
    let ghost want = crate::use_graph::spec_use_paths(*tree, Seq::empty());
    assert(paths_view(ps) =~= want);
    let n0 = pending.len();
    let mut i: usize = 0;
    while i < paths.len()
        invariant
            n0 == old(pending)@.len(),
            i <= paths@.len(),
            ps == paths@,
            paths_view(ps) == want,
            pending@.len() == n0 + i,
            pending@.take(n0 as int) == old(pending)@,
            forall|j: int| 0 <= j < i ==> declared_use(mod_id@, path_view(mod_path@), want[j], *vis, #[trigger] pending@[n0 + j]),
        decreases paths.len() - i,
    {
        assert(want[i as int] == path_view(paths@[i as int]@));
        let v = convert_visibility(vis);
        let cur = mod_path.clone();
        let up = paths[i].clone();
        pending.push(PendingUse { from_mod_id: owned(mod_id), current_path: cur, use_path: up, visibility: v, bare: false });
        assert(pending@.take(n0 as int) =~= old(pending)@);
        i = i + 1;
    }
}

/// Where an inline module lies: its first and last line.
pub struct Span {
    pub start: u32,
    pub end: u32,
}

/// Adds the module `name` declared in the module `parent_mod_id` (at module path
/// `parent_path`, in file `enclosing_file`, of the target `target_name` of kind
/// `target_kind`): a module node with the declared
/// visibility (an inline module also gets its line span as LOC and its first
/// line), a `contains` edge from the parent, and its path in `module_index`.
/// Returns the new module's id and path.
pub fn add_submodule(
    builder: &mut GraphBuilder,
    module_index: &mut ModuleIndex,
    pkg_repr: &str,
    target_kind: &str,
    target_name: &str,
    parent_mod_id: &str,
    parent_path: &Vec<String>,
    name: &str,
    vis: &VisSyntax,
    inline_span: Option<Span>,
    enclosing_file: &str,
) -> (r: (String, Vec<String>))
    requires
        match inline_span {
            Some(s) => s.start <= s.end && s.end - s.start + 1 <= u32::MAX,
            None => true,
        },
    ensures
        path_view(r.1@) == path_view(parent_path@).push(name@),
        r.0@ == spec_module_node_id(pkg_repr@, target_kind@, target_name@, path_view(r.1@)),
        final(builder).nodes@.len() == old(builder).nodes@.len() + 1,
        final(builder).nodes@.take(old(builder).nodes@.len() as int) == old(builder).nodes@,
        ({
            let n = final(builder).nodes@.last();
            &&& n.id@ == r.0@
            &&& n.kind == NodeKind::Module
            &&& n.name@ == name@
            &&& n.path@ == enclosing_file@
            &&& opt_view(n.parent) == Some(parent_mod_id@)
            &&& n.external is None && n.version is None && n.item_count is None
            &&& (n.visibility matches Some(v) && spec_denotes(*vis, v))
            &&& match inline_span {
                Some(s) => n.loc == Some((s.end - s.start + 1) as u32) && n.line == Some(s.start),
                None => n.loc is None && n.line is None,
            }
        }),
        final(builder).edges@ == old(builder).edges@.push(final(builder).edges@.last()),
        ({
            let e = final(builder).edges@.last();
            e.from@ == parent_mod_id@ && e.to@ == r.0@ && e.kind == EdgeKind::Contains && e.visibility is None
        }),
        final(module_index)@ == old(module_index)@.insert(path_view(r.1@), r.0@),
{
    let mut sub_path = parent_path.clone();
    let ghost pv = path_view(sub_path@);
    sub_path.push(owned(name));
    assert(path_view(sub_path@) =~= pv.push(name@));
    let sub_id = module_node_id(pkg_repr, target_kind, target_name, &sub_path);
    let (loc, line): (Option<u32>, Option<u32>) = match &inline_span {
        Some(s) => (Some(s.end - s.start + 1), Some(s.start)),
        None => (None, None),
    };
    builder.add_node(Node {
        id: sub_id.clone(),
        kind: NodeKind::Module,
        name: owned(name),
        path: owned(enclosing_file),
        parent: Some(owned(parent_mod_id)),
        external: None,
        version: None,
        visibility: Some(convert_visibility(vis)),
        loc,
        line,
        item_count: None,
    });
    builder.add_edge(Edge { from: owned(parent_mod_id), to: sub_id.clone(), kind: EdgeKind::Contains, visibility: None });
    assert(builder.nodes@.take(old(builder).nodes@.len() as int) =~= old(builder).nodes@);
    let key = sub_path.clone();
    module_index.insert(key, sub_id.clone());
    (sub_id, sub_path)
}

/// The file backing `mod <sub_name>;` declared in `enclosing_file`: with a
/// `#[path = "<rel>"]` attribute, `<rel>` joined to the declaring file's
/// directory when that file exists; otherwise the default `<name>.rs` /
/// `<name>/mod.rs` lookup. Which files exist is read from the disk.
pub fn mod_file_path(path_attr: Option<&str>, enclosing_file: &str, sub_name: &str) -> (r: Option<String>)
    ensures
        match path_attr {
            Some(rel) => r is None || r.unwrap()@ == spec_path_join(
                match spec_path_parent(enclosing_file@) { Some(d) => d, None => Seq::empty() },
                rel@,
            ),
            None => match spec_submodule_candidates(enclosing_file@, sub_name@) {
                None => r is None,
                Some((a, b)) => r is None || r.unwrap()@ == a || r.unwrap()@ == b,
            },
        },
{
    match path_attr {
        Some(rel) => {
            let base = match path_parent(enclosing_file) {
                Some(d) => d,
                None => String::new(),
            };
            let candidate = path_join(base.as_str(), rel);
            if path_exists(candidate.as_str()) {
                Some(candidate)
            } else {
                None
            }
        },
        None => resolve_submodule_path(enclosing_file, sub_name),
    }
}

/// A package of the workspace as target planning reads it: its id and its
/// build targets.
pub struct PackageModel {
    pub id: String,
    pub targets: Vec<Target>,
}

/// One target whose module tree is to be walked: where it is in the package
/// list, the id of its crate node, whether other crates can `use` it by name
/// (its module index then feeds cross-crate resolution), and its package's
/// dependency maps.
pub struct TargetPlan {
    pub package: usize,
    pub target: usize,
    pub crate_id: String,
    pub is_lib: bool,
    pub extern_crates: NameMap<String>,
    pub dep_pkg_by_name: NameMap<String>,
}

/// A target plan as plain values.
pub type PlanView = (int, int, Seq<char>, bool, Map<Seq<char>, Seq<char>>, Map<Seq<char>, Seq<char>>);

/// The plain-value view of a target plan.
pub open spec fn plan_view(p: TargetPlan) -> PlanView {
    (p.package as int, p.target as int, p.crate_id@, p.is_lib, str_map_view(p.extern_crates@), str_map_view(p.dep_pkg_by_name@))
}

/// A target whose module tree is walked: one of its kinds is supported.
pub open spec fn target_supported(t: Target) -> bool {
    exists|i: int| 0 <= i < t.kind@.len() && is_supported_kind(#[trigger] t.kind@[i]@)
}

/// A target other crates can name in a `use`: one of its kinds is importable.
pub open spec fn target_importable(t: Target) -> bool {
    exists|i: int| 0 <= i < t.kind@.len() && is_importable_kind(#[trigger] t.kind@[i]@)
}

/// The two dependency maps of package `pkg` (to crate node ids, to package
/// ids); empty without a resolve graph or a node for the package.
pub open spec fn spec_dep_maps(pkg: Seq<char>, resolve: Option<Vec<ResolveNode>>) -> (Map<Seq<char>, Seq<char>>, Map<Seq<char>, Seq<char>>) {
    match resolve {
        None => (Map::empty(), Map::empty()),
        Some(nodes) => match spec_find_resolve_node(nodes@, pkg) {
            None => (Map::empty(), Map::empty()),
            Some(n) => (spec_dep_map(n.deps@, true), spec_dep_map(n.deps@, false)),
        },
    }
}

/// `members` lists package `id`.
pub open spec fn is_member(members: Seq<String>, id: Seq<char>) -> bool {
    exists|i: int| 0 <= i < members.len() && members[i]@ == id
}

/// The plans for the first `n` targets of package number `pi`: one per
/// supported target, in order.
pub open spec fn spec_target_plans(
    pi: int,
    pkg: PackageModel,
    n: int,
    maps: (Map<Seq<char>, Seq<char>>, Map<Seq<char>, Seq<char>>),
) -> Seq<PlanView>
    decreases n,
{
    if n <= 0 {
        Seq::empty()
    } else {
        let prev = spec_target_plans(pi, pkg, n - 1, maps);
        let t = pkg.targets@[n - 1];
        if target_supported(t) {
            prev.push((pi, n - 1, spec_crate_node_id(pkg.id@), target_importable(t), maps.0, maps.1))
        } else {
            prev
        }
    }
}

/// The plans for the first `n` packages: the supported targets of every
/// workspace member, package after package; other packages are not walked.
pub open spec fn spec_plan(
    packages: Seq<PackageModel>,
    members: Seq<String>,
    resolve: Option<Vec<ResolveNode>>,
    n: int,
) -> Seq<PlanView>
    decreases n,
{
    if n <= 0 {
        Seq::empty()
    } else {
        let prev = spec_plan(packages, members, resolve, n - 1);
        let p = packages[n - 1];
        if is_member(members, p.id@) {
            prev + spec_target_plans(n - 1, p, p.targets@.len() as int, spec_dep_maps(p.id@, resolve))
        } else {
            prev
        }
    }
}

fn member(members: &Vec<String>, id: &str) -> (r: bool)
    ensures
        r == is_member(members@, id@),
{
    let mut i: usize = 0;
    while i < members.len()
        invariant
            i <= members@.len(),
            forall|j: int| 0 <= j < i ==> members@[j]@ != id@,
        decreases members.len() - i,
    {
        if str_eq(members[i].as_str(), id) {
            return true;
        }
        i = i + 1;
    }
    false
}

/// Which targets the module walk covers, in order: the supported targets
/// (library kinds and binaries) of the workspace members, each with its crate
/// node id, whether it is a library other crates resolve into, and its
/// package's dependency maps (see `spec_plan`).
pub fn plan_targets(packages: &Vec<PackageModel>, members: &Vec<String>, resolve: &Option<Vec<ResolveNode>>) -> (r: Vec<TargetPlan>)
    ensures
        r@.map_values(|p: TargetPlan| plan_view(p)) == spec_plan(packages@, members@, *resolve, packages@.len() as int),
{
    let mut out: Vec<TargetPlan> = Vec::new();
    let mut pi: usize = 0;
    while pi < packages.len()
        invariant
            pi <= packages@.len(),
            out@.map_values(|p: TargetPlan| plan_view(p)) == spec_plan(packages@, members@, *resolve, pi as int),
        decreases packages.len() - pi,
    {
        let pkg = &packages[pi];
        if member(members, pkg.id.as_str()) {
            let ghost maps = spec_dep_maps(pkg.id@, *resolve);
            let ghost base = out@.map_values(|p: TargetPlan| plan_view(p));
            let mut ti: usize = 0;
            while ti < pkg.targets.len()
                invariant
                    pi < packages@.len(),
                    *pkg == packages@[pi as int],
                    ti <= pkg.targets@.len(),
                    maps == spec_dep_maps(pkg.id@, *resolve),
                    out@.map_values(|p: TargetPlan| plan_view(p))
                        == base + spec_target_plans(pi as int, *pkg, ti as int, maps),
                decreases pkg.targets.len() - ti,
            {
                let t = &pkg.targets[ti];
                let ghost before = out@.map_values(|p: TargetPlan| plan_view(p));
                if is_supported_target(t) {
                    let (extern_crates, dep_pkg_by_name) = build_dep_maps(pkg.id.as_str(), resolve);
                    let crate_id = crate_node_id(pkg.id.as_str());
                    let is_lib = is_lib_target(t);
                    let plan = TargetPlan { package: pi, target: ti, crate_id, is_lib, extern_crates, dep_pkg_by_name };
                    assert(plan_view(plan).4 =~= maps.0);
                    assert(plan_view(plan).5 =~= maps.1);
                    out.push(plan);
                    assert(out@.map_values(|p: TargetPlan| plan_view(p)) =~= before.push(plan_view(plan)));
                    assert(base + spec_target_plans(pi as int, *pkg, ti + 1, maps)
                        =~= (base + spec_target_plans(pi as int, *pkg, ti as int, maps)).push(plan_view(plan)));
                } else {
                    assert(spec_target_plans(pi as int, *pkg, ti + 1, maps) == spec_target_plans(pi as int, *pkg, ti as int, maps));
                }
                ti = ti + 1;
            }
        }
        pi = pi + 1;
    }
    out
}

/// What the walk of one target leaves for use resolution: the owning crate's
/// dependency maps, the target's module index, and its pending uses.
pub struct TargetWork {
    pub extern_crates: NameMap<String>,
    pub dep_pkg_by_name: NameMap<String>,
    pub module_index: ModuleIndex,
    pub pending_uses: Vec<PendingUse>,
}

/// The edges the pending uses of each target yield, target after target.
pub open spec fn works_emitted(ws: Seq<TargetWork>, libs: Map<Seq<char>, ModuleIndex>) -> Seq<EdgeView>
    decreases ws.len(),
{
    if ws.len() == 0 {
        Seq::empty()
    } else {
        let w = ws.last();
        works_emitted(ws.drop_last(), libs)
            + spec_emitted(w.pending_uses@, w.module_index@, w.extern_crates@, w.dep_pkg_by_name@, libs)
    }
}

/// Resolves every target's pending uses against its own module index, the
/// workspace library indexes and its dependency maps (adding their edges
/// target after target), then sums module line counts into the crate nodes.
pub fn resolve_works(works: &Vec<TargetWork>, lib_index: &NameMap<ModuleIndex>, builder: &mut GraphBuilder)
    requires
        forall|c: Seq<char>| loc_sum(old(builder).nodes@, c) <= u32::MAX,
    ensures
        edges_view(final(builder).edges@) == edges_view(old(builder).edges@) + works_emitted(works@, lib_index@),
        crate_loc_aggregated(old(builder).nodes@, final(builder).nodes@),
{
    let mut i: usize = 0;
    while i < works.len()
        invariant
            i <= works@.len(),
            builder.nodes@ == old(builder).nodes@,
            edges_view(builder.edges@) == edges_view(old(builder).edges@) + works_emitted(works@.take(i as int), lib_index@),
        decreases works.len() - i,
    {
        assert(works@.take(i + 1).drop_last() =~= works@.take(i as int));
        let w = &works[i];
        emit_uses(&w.pending_uses, &w.module_index, &w.extern_crates, &w.dep_pkg_by_name, lib_index, builder);
        i = i + 1;
    }
    assert(works@.take(works@.len() as int) =~= works@);
    aggregate_crate_loc(builder);
}


/// The error text for a failed offline `cargo metadata` run on `manifest`:
/// why the tool never downloads, how to warm cargo's cache, and the
/// underlying cargo error.
pub open spec fn spec_offline_metadata_error(manifest: Seq<char>, err: Seq<char>) -> Seq<char> {
    "cargo metadata (offline) failed for "@ + manifest
        + "\n\ncode-ranker is an offline tool — it never downloads dependencies. It reads the dependency graph from cargo's local cache, which must already be populated for this project.\n\nWarm the cache once (with network), then re-run code-ranker:\n    cargo metadata --manifest-path "@
        + manifest
        + " >/dev/null\n(a prior `cargo build` / `cargo fetch` works too).\n\nIn CI: run code-ranker on the same image/cache as your build or test jobs, where the cache is already warm.\n\nUnderlying cargo error: "@
        + err
}

/// The error text for a failed offline `cargo metadata` run (see
/// `spec_offline_metadata_error`).
pub fn offline_metadata_error(manifest: &str, err: &str) -> (r: String)
    ensures
        r@ == spec_offline_metadata_error(manifest@, err@),
{
    let mut v = chars_of("cargo metadata (offline) failed for ");
    push_str(&mut v, manifest);
    push_str(&mut v, "\n\ncode-ranker is an offline tool — it never downloads dependencies. It reads the dependency graph from cargo's local cache, which must already be populated for this project.\n\nWarm the cache once (with network), then re-run code-ranker:\n    cargo metadata --manifest-path ");
    push_str(&mut v, manifest);
    push_str(&mut v, " >/dev/null\n(a prior `cargo build` / `cargo fetch` works too).\n\nIn CI: run code-ranker on the same image/cache as your build or test jobs, where the cache is already warm.\n\nUnderlying cargo error: ");
    push_str(&mut v, err);
    string_of(&v)
}

} // verus!
