//! Module-level `use` graph of a Rust workspace: flattening `use` trees,
//! classifying visibility, resolving a `use` path to the module node it names,
//! and emitting the deduplicated `uses` / `reexports` edges.

use vstd::prelude::*;
use crate::maps::{join_strings, path_view, spec_join, ModuleIndex, NameMap};
use crate::strs::{opt_view, owned, str_eq};

verus! {

/// The visibility of a module or a `use` declaration.
#[derive(Debug)]
pub enum Visibility {
    Public,
    Crate,
    Super,
    Private,
    Restricted { path: String },
}

impl Visibility {
    /// A value equal to `self`.
    pub fn copy(&self) -> (r: Visibility)
        ensures
            r == *self,
    {
        match self {
            Visibility::Public => Visibility::Public,
            Visibility::Crate => Visibility::Crate,
            Visibility::Super => Visibility::Super,
            Visibility::Private => Visibility::Private,
            Visibility::Restricted { path } => Visibility::Restricted { path: path.clone() },
        }
    }

    /// The output string of a visibility: `public` / `crate` / `super` /
    /// `private`, or the restriction path itself.
    pub fn as_str(&self) -> (r: &str)
        ensures
            r@ == spec_visibility_str(*self),
    {
        match self {
            Visibility::Public => "public",
            Visibility::Crate => "crate",
            Visibility::Super => "super",
            Visibility::Private => "private",
            Visibility::Restricted { path } => path.as_str(),
        }
    }
}

/// The output string of a visibility.
pub open spec fn spec_visibility_str(v: Visibility) -> Seq<char> {
    match v {
        Visibility::Public => "public"@,
        Visibility::Crate => "crate"@,
        Visibility::Super => "super"@,
        Visibility::Private => "private"@,
        Visibility::Restricted { path } => path@,
    }
}

/// The syntactic visibility of an item: `pub`, `pub(<path>)`, or nothing.
pub enum VisSyntax {
    Public,
    Restricted { segments: Vec<String> },
    Inherited,
}

/// `r` is the visibility that the syntactic visibility `v` denotes: `pub(crate)`
/// is crate-wide, `pub(super)` parent-wide, `pub(self)` / `pub(in)` private, and
/// any other path a restriction to that path.
pub open spec fn spec_denotes(v: VisSyntax, r: Visibility) -> bool {
    match v {
        VisSyntax::Public => r == Visibility::Public,
        VisSyntax::Restricted { segments } => {
            let s = spec_join(path_view(segments@), "::"@);
            if s == "crate"@ {
                r == Visibility::Crate
            } else if s == "super"@ {
                r == Visibility::Super
            } else if s == "self"@ || s.len() == 0 {
                r == Visibility::Private
            } else {
                r matches Visibility::Restricted { path } && path@ == s
            }
        },
        VisSyntax::Inherited => r == Visibility::Private,
    }
}

/// Classifies a syntactic visibility.
pub fn convert_visibility(v: &VisSyntax) -> (r: Visibility)
    ensures
        spec_denotes(*v, r),
{
    match v {
        VisSyntax::Public => Visibility::Public,
        VisSyntax::Restricted { segments } => {
            proof {
                reveal_strlit("");
            }
            let s = join_strings(segments, "::");
            assert(s@.len() == 0 ==> s@ =~= ""@);
            if str_eq(s.as_str(), "crate") {
                Visibility::Crate
            } else if str_eq(s.as_str(), "super") {
                Visibility::Super
            } else if str_eq(s.as_str(), "self") || str_eq(s.as_str(), "") {
                Visibility::Private
            } else {
                Visibility::Restricted { path: s }
            }
        },
        VisSyntax::Inherited => Visibility::Private,
    }
}

/// A `use` of a non-private visibility re-exports what it names.
pub open spec fn spec_is_reexport(v: Visibility) -> bool {
    !(v is Private)
}

/// Whether a `use` with visibility `v` is a re-export.
pub fn is_reexport(v: &Visibility) -> (r: bool)
    ensures
        r == spec_is_reexport(*v),
{
    match v {
        Visibility::Private => false,
        _ => true,
    }
}

/// A module-index view: module path to node id.
pub type IndexView = Map<Seq<Seq<char>>, Seq<char>>;

/// Walks `tail` down from `path`, keeping the deepest indexed module: `best` is
/// the node id of `path`; the walk stops at the first segment that is not an
/// indexed module.
pub open spec fn spec_walk_from(idx: IndexView, path: Seq<Seq<char>>, tail: Seq<Seq<char>>, best: Seq<char>) -> Seq<char>
    decreases tail.len(),
{
    if tail.len() == 0 {
        best
    } else {
        let next = path.push(tail[0]);
        if idx.contains_key(next) {
            spec_walk_from(idx, next, tail.drop_first(), idx[next])
        } else {
            best
        }
    }
}

/// The deepest module reached by walking `tail` from module `base`; `None` when
/// `base` itself is not indexed.
pub open spec fn spec_walk_module_index(base: Seq<Seq<char>>, tail: Seq<Seq<char>>, idx: IndexView) -> Option<Seq<char>> {
    if idx.contains_key(base) {
        Some(spec_walk_from(idx, base, tail, idx[base]))
    } else {
        None
    }
}

/// Walks `tail[from..]` from module `base` through `idx`, returning the node id
/// of the deepest indexed module on the way (`None` when `base` is unknown).
pub fn walk_module_index(base: &Vec<String>, tail: &Vec<String>, from: usize, idx: &ModuleIndex) -> (r: Option<String>)
    requires
        from <= tail.len(),
    ensures
        opt_view(r) == spec_walk_module_index(path_view(base@), path_view(tail@).skip(from as int), idx@),
{
    let mut path = base.clone();
    let first = idx.get(&path);
    let mut best = match first {
        Some(id) => id,
        None => return None,
    };
    let ghost b = path_view(base@);
    let ghost full = path_view(tail@).skip(from as int);
    let mut i = from;
    while i < tail.len()
        invariant
            from <= i <= tail.len(),
            b == path_view(base@),
            idx@.contains_key(b),
            full == path_view(tail@).skip(from as int),
            idx@.contains_key(path_view(path@)),
            best@ == idx@[path_view(path@)],
            spec_walk_from(idx@, b, full, idx@[b])
                == spec_walk_from(idx@, path_view(path@), path_view(tail@).skip(i as int), best@),
        decreases tail.len() - i,
    {
        let ghost old_path = path_view(path@);
        let ghost rest = path_view(tail@).skip(i as int);
        path.push(tail[i].clone());
        assert(path_view(path@) =~= old_path.push(rest[0]));
        assert(rest.drop_first() =~= path_view(tail@).skip(i + 1));
        match idx.get(&path) {
            Some(id) => {
                best = id;
            },
            None => {
                assert(rest.len() > 0);
                assert(!idx@.contains_key(old_path.push(rest[0])));
                assert(spec_walk_from(idx@, old_path, rest, best@) == best@);
                return Some(best);
            },
        }
        i = i + 1;
    }
    assert(path_view(tail@).skip(i as int) =~= Seq::<Seq<char>>::empty());
    Some(best)
}

/// The number of leading `super` segments of `s`.
pub open spec fn leading_supers(s: Seq<Seq<char>>) -> nat
    decreases s.len(),
{
    if s.len() > 0 && s[0] == "super"@ {
        1 + leading_supers(s.drop_first())
    } else {
        0
    }
}

/// A path rooted in the standard distribution, which maps to no workspace node.
pub open spec fn is_std_root(s: Seq<char>) -> bool {
    s == "std"@ || s == "core"@ || s == "alloc"@ || s == "proc_macro"@ || s == "test"@
}

/// The node a `use` path names, seen from module `current`:
/// - `crate::…` walks from the crate root, `self::…` from `current`;
/// - `super::super::…` walks from the matching ancestor (none above the root);
/// - a standard-distribution root names nothing;
/// - a first segment that is a child module of `current` walks from `current`;
/// - a dependency that is a local library walks its module index from its root;
/// - any other dependency names its crate root node.
pub open spec fn spec_resolve_use_path(
    use_path: Seq<Seq<char>>,
    current: Seq<Seq<char>>,
    idx: IndexView,
    externs: Map<Seq<char>, String>,
    deps: Map<Seq<char>, String>,
    libs: Map<Seq<char>, ModuleIndex>,
) -> Option<Seq<char>> {
    if use_path.len() == 0 {
        None
    } else {
        let first = use_path[0];
        let rest = use_path.drop_first();
        if first == "crate"@ {
            spec_walk_module_index(Seq::empty(), rest, idx)
        } else if first == "self"@ {
            spec_walk_module_index(current, rest, idx)
        } else if first == "super"@ {
            let k = leading_supers(rest);
            if current.len() >= k + 1 {
                spec_walk_module_index(current.take(current.len() - k - 1), rest.skip(k as int), idx)
            } else {
                None
            }
        } else if is_std_root(first) {
            None
        } else if idx.contains_key(current.push(first)) {
            spec_walk_module_index(current, use_path, idx)
        } else if deps.contains_key(first) && libs.contains_key(deps[first]@) {
            spec_walk_module_index(Seq::empty(), rest, libs[deps[first]@]@)
        } else if externs.contains_key(first) {
            Some(externs[first]@)
        } else {
            None
        }
    }
}

pub(crate) proof fn lemma_leading_supers_step(s: Seq<Seq<char>>, j: int)
    requires
        0 <= j < s.len(),
        forall|q: int| 0 <= q < j ==> s[q] == "super"@,
        s[j] == "super"@,
    ensures
        leading_supers(s) == j + 1 + leading_supers(s.skip(j + 1)),
    decreases j,
{
    if j > 0 {
        lemma_leading_supers_step(s.drop_first(), j - 1);
        assert(s.drop_first().skip(j) =~= s.skip(j + 1));
    } else {
        assert(s.skip(1) =~= s.drop_first());
    }
}

pub(crate) proof fn lemma_leading_supers_stop(s: Seq<Seq<char>>, j: int)
    requires
        0 <= j <= s.len(),
        forall|q: int| 0 <= q < j ==> s[q] == "super"@,
        j == s.len() || s[j] != "super"@,
    ensures
        leading_supers(s) == j,
    decreases j,
{
    if j > 0 {
        lemma_leading_supers_stop(s.drop_first(), j - 1);
    }
}

/// Resolves a `use` (or crate-qualified) path seen from module `current_path`
/// to the node it names, using the owning target's module index, the workspace
/// library indexes of local dependencies, and the dependency crate-root map.
pub fn resolve_use_path(
    use_path: &Vec<String>,
    current_path: &Vec<String>,
    module_index: &ModuleIndex,
    extern_crates: &NameMap<String>,
    dep_pkg_by_name: &NameMap<String>,
    lib_index: &NameMap<ModuleIndex>,
) -> (r: Option<String>)
    ensures
        opt_view(r) == spec_resolve_use_path(
            path_view(use_path@),
            path_view(current_path@),
            module_index@,
            extern_crates@,
            dep_pkg_by_name@,
            lib_index@,
        ),
{
    if use_path.len() == 0 {
        return None;
    }
    let ghost up = path_view(use_path@);
    let ghost cur = path_view(current_path@);
    assert(up.drop_first() =~= path_view(use_path@).skip(1));
    let first = use_path[0].as_str();
    let empty: Vec<String> = Vec::new();
    assert(path_view(empty@) =~= Seq::<Seq<char>>::empty());
    if str_eq(first, "crate") {
        walk_module_index(&empty, use_path, 1, module_index)
    } else if str_eq(first, "self") {
        walk_module_index(current_path, use_path, 1, module_index)
    } else if str_eq(first, "super") {
        let mut path = current_path.clone();
        let mut t: usize = 1;
        while t < use_path.len() && str_eq(use_path[t].as_str(), "super")
            invariant
                1 <= t <= use_path.len(),
                up == path_view(use_path@),
                cur == path_view(current_path@),
                up.len() > 0,
                up[0] == "super"@,
                up[0] != "crate"@,
                up[0] != "self"@,
                forall|q: int| 1 <= q < t ==> up[q] == "super"@,
                t - 1 <= cur.len(),
                path_view(path@) == cur.take(cur.len() - (t - 1)),
            decreases use_path.len() - t,
        {
            assert(up[t as int] == use_path@[t as int]@);
            if path.len() == 0 {
                proof {
                    assert(up.drop_first()[t - 1] == up[t as int]);
                    lemma_leading_supers_step(up.drop_first(), t - 1);
                    assert(path_view(path@).len() == path@.len());
                    assert(cur.len() == t - 1);
                }
                return None;
            }
            let ghost old_pv = path_view(path@);
            path.pop();
            assert(path_view(path@) =~= old_pv.drop_last());
            assert(path_view(path@) =~= cur.take(cur.len() - t));
            t = t + 1;
        }
        proof {
            lemma_leading_supers_stop(up.drop_first(), t - 1);
            assert(up.drop_first().skip(t - 1) =~= up.skip(t as int));
        }
        if path.len() == 0 {
            return None;
        }
        path.pop();
        assert(path_view(path@) =~= cur.take(cur.len() - t));
        walk_module_index(&path, use_path, t, module_index)
    } else if str_eq(first, "std") || str_eq(first, "core") || str_eq(first, "alloc")
        || str_eq(first, "proc_macro") || str_eq(first, "test") {
        None
    } else {
        let mut probe = current_path.clone();
        probe.push(use_path[0].clone());
        assert(path_view(probe@) =~= cur.push(up[0]));
        if module_index.contains(&probe) {
            assert(path_view(use_path@).skip(0) =~= up);
            return walk_module_index(current_path, use_path, 0, module_index);
        }
        if let Some(dep_repr) = dep_pkg_by_name.get(first) {
            if let Some(foreign) = lib_index.get(dep_repr.as_str()) {
                return walk_module_index(&empty, use_path, 1, foreign);
            }
        }
        match extern_crates.get(first) {
            Some(id) => Some(id.clone()),
            None => None,
        }
    }
}

/// The kind of a module-graph edge.
#[derive(Debug, Clone, Copy, PartialEq, Eq, Structural)]
pub enum EdgeKind {
    Contains,
    Uses,
    Reexports,
}

/// A directed module-graph edge.
pub struct Edge {
    pub from: String,
    pub to: String,
    pub kind: EdgeKind,
    /// Set on a `reexports` edge only: the visibility of the re-exporting `use`.
    pub visibility: Option<Visibility>,
}

/// An edge as plain values: source id, target id, kind, visibility.
pub type EdgeView = (Seq<char>, Seq<char>, EdgeKind, Option<Visibility>);

/// The plain-value view of an edge.
pub open spec fn edge_view(e: Edge) -> EdgeView {
    (e.from@, e.to@, e.kind, e.visibility)
}

/// The plain-value views of a run of edges.
pub open spec fn edges_view(s: Seq<Edge>) -> Seq<EdgeView> {
    s.map_values(|e: Edge| edge_view(e))
}

/// A `use` (or crate-qualified path) waiting to be resolved once every module
/// node of the workspace exists.
pub struct PendingUse {
    pub from_mod_id: String,
    pub current_path: Vec<String>,
    pub use_path: Vec<String>,
    pub visibility: Visibility,
    /// A crate-qualified path captured from an expression or type rather than a
    /// `use` declaration.
    pub bare: bool,
}

/// The kind of edge a pending use produces: a non-private `use` declaration
/// re-exports; everything else uses.
pub open spec fn spec_use_kind(pu: PendingUse) -> EdgeKind {
    if !pu.bare && spec_is_reexport(pu.visibility) {
        EdgeKind::Reexports
    } else {
        EdgeKind::Uses
    }
}

/// The edge a pending use yields, if its path resolves to a node other than the
/// using module itself.
pub open spec fn spec_candidate(
    pu: PendingUse,
    idx: IndexView,
    externs: Map<Seq<char>, String>,
    deps: Map<Seq<char>, String>,
    libs: Map<Seq<char>, ModuleIndex>,
) -> Option<EdgeView> {
    match spec_resolve_use_path(path_view(pu.use_path@), path_view(pu.current_path@), idx, externs, deps, libs) {
        None => None,
        Some(target) => if target == pu.from_mod_id@ {
            None
        } else {
            let kind = spec_use_kind(pu);
            Some((pu.from_mod_id@, target, kind, if kind == EdgeKind::Reexports { Some(pu.visibility) } else { None }))
        },
    }
}

/// Whether `s` already holds an edge with the same source, target and kind.
pub open spec fn has_triple(s: Seq<EdgeView>, from: Seq<char>, to: Seq<char>, kind: EdgeKind) -> bool {
    exists|j: int| 0 <= j < s.len() && s[j].0 == from && s[j].1 == to && s[j].2 == kind
}

/// The edges the pending uses produce, in order, keeping only the first edge
/// of each (source, target, kind).
pub open spec fn spec_emitted(
    p: Seq<PendingUse>,
    idx: IndexView,
    externs: Map<Seq<char>, String>,
    deps: Map<Seq<char>, String>,
    libs: Map<Seq<char>, ModuleIndex>,
) -> Seq<EdgeView>
    decreases p.len(),
{
    if p.len() == 0 {
        Seq::empty()
    } else {
        let prev = spec_emitted(p.drop_last(), idx, externs, deps, libs);
        match spec_candidate(p.last(), idx, externs, deps, libs) {
            Some(e) => if has_triple(prev, e.0, e.1, e.2) {
                prev
            } else {
                prev.push(e)
            },
            None => prev,
        }
    }
}

/// A module node or a crate node of the module graph.
#[derive(Debug, Clone, Copy, PartialEq, Eq, Structural)]
pub enum NodeKind {
    Crate,
    Module,
}

/// A module-graph node.
pub struct Node {
    pub id: String,
    pub kind: NodeKind,
    pub name: String,
    pub path: String,
    pub parent: Option<String>,
    pub external: Option<bool>,
    pub version: Option<String>,
    pub visibility: Option<Visibility>,
    pub loc: Option<u32>,
    pub line: Option<u32>,
    pub item_count: Option<u32>,
}

/// The module graph under construction.
pub struct GraphBuilder {
    pub nodes: Vec<Node>,
    pub edges: Vec<Edge>,
}

impl GraphBuilder {
    /// An empty graph.
    pub fn new() -> (g: Self)
        ensures
            g.nodes@.len() == 0,
            g.edges@.len() == 0,
    {
        GraphBuilder { nodes: Vec::new(), edges: Vec::new() }
    }

    /// Adds a node.
    pub fn add_node(&mut self, n: Node)
        ensures
            final(self).nodes@ == old(self).nodes@.push(n),
            final(self).edges@ == old(self).edges@,
    {
        self.nodes.push(n);
    }

    /// Adds an edge.
    pub fn add_edge(&mut self, e: Edge)
        ensures
            final(self).edges@ == old(self).edges@.push(e),
            final(self).nodes@ == old(self).nodes@,
    {
        self.edges.push(e);
    }
}

/// Whether `edges[start..]` holds an edge with the given source, target, kind.
fn contains_triple(edges: &Vec<Edge>, start: usize, from: &String, to: &String, kind: EdgeKind) -> (r: bool)
    requires
        start <= edges@.len(),
    ensures
        r == has_triple(edges_view(edges@.skip(start as int)), from@, to@, kind),
{
    let ghost s = edges_view(edges@.skip(start as int));
    let mut i = start;
    while i < edges.len()
        invariant
            start <= i <= edges@.len(),
            s == edges_view(edges@.skip(start as int)),
            forall|j: int| 0 <= j < i - start ==> !(s[j].0 == from@ && s[j].1 == to@ && s[j].2 == kind),
        decreases edges.len() - i,
    {
        let e = &edges[i];
        assert(s[i - start] == edge_view(edges@[i as int]));
        if e.from == *from && e.to == *to && e.kind == kind {
            return true;
        }
        i = i + 1;
    }
    false
}

/// Resolves every pending use and adds one edge per distinct (source, target,
/// kind): a non-private `use` re-exports (the edge carries its visibility), any
/// other reference uses; a path that names nothing, or names the using module
/// itself, adds nothing.
pub fn emit_uses(
    pending: &Vec<PendingUse>,
    module_index: &ModuleIndex,
    extern_crates: &NameMap<String>,
    dep_pkg_by_name: &NameMap<String>,
    lib_index: &NameMap<ModuleIndex>,
    builder: &mut GraphBuilder,
)
    ensures
        final(builder).nodes@ == old(builder).nodes@,
        edges_view(final(builder).edges@) == edges_view(old(builder).edges@)
            + spec_emitted(pending@, module_index@, extern_crates@, dep_pkg_by_name@, lib_index@),
{
    let start = builder.edges.len();
    let ghost idx = module_index@;
    let ghost ex = extern_crates@;
    let ghost dp = dep_pkg_by_name@;
    let ghost lb = lib_index@;
    let mut i: usize = 0;
    while i < pending.len()
        invariant
            i <= pending@.len(),
            start == old(builder).edges@.len(),
            idx == module_index@ && ex == extern_crates@ && dp == dep_pkg_by_name@ && lb == lib_index@,
            builder.nodes@ == old(builder).nodes@,
            builder.edges@.len() >= start,
            builder.edges@.take(start as int) == old(builder).edges@,
            edges_view(builder.edges@.skip(start as int)) == spec_emitted(pending@.take(i as int), idx, ex, dp, lb),
        decreases pending.len() - i,
    {
        let pu = &pending[i];
        let ghost prefix = pending@.take(i as int);
        let ghost before = builder.edges@;
        assert(pending@.take(i + 1).drop_last() =~= prefix);
        assert(pending@.take(i + 1).last() == *pu);
        let resolved = resolve_use_path(&pu.use_path, &pu.current_path, module_index, extern_crates, dep_pkg_by_name, lib_index);
        match resolved {
            None => {},
            Some(target_id) => {
                if target_id != pu.from_mod_id {
                    let kind = if !pu.bare && is_reexport(&pu.visibility) {
                        EdgeKind::Reexports
                    } else {
                        EdgeKind::Uses
                    };
                    if !contains_triple(&builder.edges, start, &pu.from_mod_id, &target_id, kind) {
                        let vis = match kind {
                            EdgeKind::Reexports => Some(pu.visibility.copy()),
                            _ => None,
                        };
                        builder.add_edge(Edge { from: pu.from_mod_id.clone(), to: target_id, kind, visibility: vis });
                        assert(builder.edges@.skip(start as int) =~= before.skip(start as int).push(builder.edges@.last()));
                    }
                }
            },
        }
        proof {
            assert(builder.edges@.take(start as int) =~= old(builder).edges@);
        }
        i = i + 1;
    }
    proof {
        assert(pending@.take(pending@.len() as int) =~= pending@);
        assert(builder.edges@ =~= builder.edges@.take(start as int) + builder.edges@.skip(start as int));
        assert(edges_view(builder.edges@) =~= edges_view(old(builder).edges@) + edges_view(builder.edges@.skip(start as int)));
    }
}

/// No edge of `s` joins a node to itself.
pub open spec fn no_self_loops(s: Seq<EdgeView>) -> bool {
    forall|j: int| 0 <= j < s.len() ==> #[trigger] s[j].0 != s[j].1
}

/// No two edges of `s` share source, target and kind.
pub open spec fn distinct_triples(s: Seq<EdgeView>) -> bool {
    forall|a: int, b: int| 0 <= a < b < s.len() ==>
        !(#[trigger] s[a].0 == #[trigger] s[b].0 && s[a].1 == s[b].1 && s[a].2 == s[b].2)
}

/// Emitted use edges form a simple graph: no edge joins a module to itself, no
/// two edges share source, target and kind, and every edge is the one some
/// pending use resolves to.
pub proof fn lemma_emitted_simple(
    p: Seq<PendingUse>,
    idx: IndexView,
    externs: Map<Seq<char>, String>,
    deps: Map<Seq<char>, String>,
    libs: Map<Seq<char>, ModuleIndex>,
)
    ensures
        no_self_loops(spec_emitted(p, idx, externs, deps, libs)),
        distinct_triples(spec_emitted(p, idx, externs, deps, libs)),
        forall|j: int| 0 <= j < spec_emitted(p, idx, externs, deps, libs).len() ==> exists|k: int|
            0 <= k < p.len() && spec_candidate(p[k], idx, externs, deps, libs)
                == Some(#[trigger] spec_emitted(p, idx, externs, deps, libs)[j]),
    decreases p.len(),
{
    if p.len() > 0 {
        let q = p.drop_last();
        lemma_emitted_simple(q, idx, externs, deps, libs);
        let prev = spec_emitted(q, idx, externs, deps, libs);
        let s = spec_emitted(p, idx, externs, deps, libs);
        assert forall|j: int| 0 <= j < s.len() implies exists|k: int|
            0 <= k < p.len() && spec_candidate(p[k], idx, externs, deps, libs) == Some(#[trigger] s[j]) by {
            if j < prev.len() {
                assert(s[j] == prev[j]);
                let k = choose|k: int| 0 <= k < q.len() && spec_candidate(q[k], idx, externs, deps, libs) == Some(prev[j]);
                assert(q[k] == p[k]);
            } else {
                assert(spec_candidate(p[p.len() - 1], idx, externs, deps, libs) == Some(s[j]));
            }
        }
        assert forall|a: int, b: int| 0 <= a < b < s.len() implies
            !(#[trigger] s[a].0 == #[trigger] s[b].0 && s[a].1 == s[b].1 && s[a].2 == s[b].2) by {
            if b >= prev.len() {
                assert(s[a] == prev[a]);
                if s[a].0 == s[b].0 && s[a].1 == s[b].1 && s[a].2 == s[b].2 {
                    assert(has_triple(prev, s[b].0, s[b].1, s[b].2));
                }
            } else {
                assert(s[a] == prev[a] && s[b] == prev[b]);
            }
        }
        assert forall|j: int| 0 <= j < s.len() implies #[trigger] s[j].0 != s[j].1 by {
            if j < prev.len() {
                assert(s[j] == prev[j]);
            }
        }
    }
}

/// The shape of a `use` tree, reduced to what path flattening reads.
pub enum UseTree {
    /// `ident::tree`
    Path { ident: String, tree: Box<UseTree> },
    /// `ident`
    Name { ident: String },
    /// `ident as alias`
    Rename { ident: String },
    /// `*`
    Glob,
    /// `{a, b, …}`
    Group { items: Vec<UseTree> },
}

/// The paths a `use` tree names under `prefix`: one per leaf, a glob naming its
/// (non-empty) prefix, a rename naming the imported ident (not the alias).
pub open spec fn spec_use_paths(t: UseTree, prefix: Seq<Seq<char>>) -> Seq<Seq<Seq<char>>>
    decreases t,
{
    match t {
        UseTree::Path { ident, tree } => spec_use_paths(*tree, prefix.push(ident@)),
        UseTree::Name { ident } => seq![prefix.push(ident@)],
        UseTree::Rename { ident } => seq![prefix.push(ident@)],
        UseTree::Glob => if prefix.len() > 0 { seq![prefix] } else { Seq::empty() },
        UseTree::Group { items } => spec_group_paths(items@, prefix),
    }
}

/// The paths named by each tree of a group, in order.
pub open spec fn spec_group_paths(items: Seq<UseTree>, prefix: Seq<Seq<char>>) -> Seq<Seq<Seq<char>>>
    decreases items,
{
    if items.len() == 0 {
        Seq::empty()
    } else {
        spec_use_paths(items[0], prefix) + spec_group_paths(items.drop_first(), prefix)
    }
}

/// The views of a run of module paths.
pub open spec fn paths_view(s: Seq<Vec<String>>) -> Seq<Seq<Seq<char>>> {
    s.map_values(|p: Vec<String>| path_view(p@))
}

proof fn lemma_group_paths_split(items: Seq<UseTree>, i: int, prefix: Seq<Seq<char>>)
    requires
        0 <= i < items.len(),
    ensures
        spec_group_paths(items.take(i + 1), prefix)
            == spec_group_paths(items.take(i), prefix) + spec_use_paths(items[i], prefix),
    decreases i,
{
    if i == 0 {
        assert(items.take(1).drop_first() =~= Seq::<UseTree>::empty());
        assert(items.take(0) =~= Seq::<UseTree>::empty());
        assert(spec_group_paths(Seq::<UseTree>::empty(), prefix) =~= Seq::<Seq<Seq<char>>>::empty());
        assert(spec_group_paths(items.take(1), prefix) =~= spec_use_paths(items[0], prefix));
    } else {
        lemma_group_paths_split(items.drop_first(), i - 1, prefix);
        assert(items.take(i + 1).drop_first() =~= items.drop_first().take(i));
        assert(items.take(i).drop_first() =~= items.drop_first().take(i - 1));
        assert(items.take(i + 1)[0] == items[0]);
        assert(items.take(i)[0] == items[0]);
    }
}

#[verifier::loop_isolation(false)]
/// Flattens `tree` into `out`, one module path per name it imports, each
/// starting with `prefix`.
pub fn collect_use_paths(tree: &UseTree, prefix: Vec<String>, out: &mut Vec<Vec<String>>)
    ensures
        paths_view(final(out)@) == paths_view(old(out)@) + spec_use_paths(*tree, path_view(prefix@)),
    decreases tree,
{
    match tree {
        UseTree::Path { ident, tree: sub } => {
            let mut new_prefix = prefix;
            let ghost pv = path_view(new_prefix@);
            new_prefix.push(ident.clone());
            assert(path_view(new_prefix@) =~= pv.push(ident@));
            collect_use_paths(sub, new_prefix, out);
        },
        UseTree::Name { ident } | UseTree::Rename { ident } => {
            let mut path = prefix;
            let ghost pv = path_view(path@);
            path.push(ident.clone());
            assert(path_view(path@) =~= pv.push(ident@));
            out.push(path);
            assert(paths_view(out@) =~= paths_view(old(out)@) + seq![pv.push(ident@)]);
        },
        UseTree::Glob => {
            if prefix.len() > 0 {
                let ghost pv = path_view(prefix@);
                out.push(prefix);
                assert(paths_view(out@) =~= paths_view(old(out)@) + seq![pv]);
            } else {
                assert(paths_view(out@) =~= paths_view(old(out)@) + Seq::<Seq<Seq<char>>>::empty());
            }
        },
        UseTree::Group { items } => {
            let ghost pv = path_view(prefix@);
            let mut i: usize = 0;
            while i < items.len()
                invariant
                    i <= items@.len(),
                    pv == path_view(prefix@),
                    paths_view(out@) == paths_view(old(out)@) + spec_group_paths(items@.take(i as int), pv),
                decreases items.len() - i,
            {
                proof {
                    lemma_group_paths_split(items@, i as int, pv);
                }
                proof {
                    let ghost iv = items@;
                    assert(decreases_to!(*tree => (*tree)->items));
                    assert(decreases_to!(*items => iv));
                    assert(decreases_to!(iv => iv[i as int]));
                    assert(decreases_to!(*tree => items@[i as int]));
                }
                collect_use_paths(&items[i], prefix.clone(), out);
                assert(paths_view(out@) =~= paths_view(old(out)@) + spec_group_paths(items@.take(i + 1), pv));
                i = i + 1;
            }
            assert(items@.take(items@.len() as int) =~= items@);
        },
    }
}

/// `mod:<package>::<kind>:<target>` for a target root, and
/// `mod:<package>::<kind>:<target>::<a>::<b>` for the module at path `a::b`
/// under it. The target kind keeps a library and a binary of the same name in
/// separate module namespaces.
pub open spec fn spec_module_node_id(pkg: Seq<char>, kind: Seq<char>, target: Seq<char>, path: Seq<Seq<char>>) -> Seq<char> {
    if path.len() == 0 {
        "mod:"@ + pkg + "::"@ + kind + ":"@ + target
    } else {
        "mod:"@ + pkg + "::"@ + kind + ":"@ + target + "::"@ + spec_join(path, "::"@)
    }
}

/// The node id of the module at `path` in the target `target_name` of kind
/// `kind` of package `pkg_id_repr`.
pub fn module_node_id(pkg_id_repr: &str, kind: &str, target_name: &str, path: &Vec<String>) -> (r: String)
    ensures
        r@ == spec_module_node_id(pkg_id_repr@, kind@, target_name@, path_view(path@)),
{
    let mut out = owned("mod:");
    out.append(pkg_id_repr);
    out.append("::");
    out.append(kind);
    out.append(":");
    out.append(target_name);
    if path.len() > 0 {
        out.append("::");
        let joined = join_strings(path, "::");
        out.append(joined.as_str());
    }
    out
}

/// A run of characters without `:`.
pub open spec fn colon_free(s: Seq<char>) -> bool {
    forall|i: int| 0 <= i < s.len() ==> s[i] != ':'
}

proof fn lemma_kind_prefix_unique(k1: Seq<char>, k2: Seq<char>, r1: Seq<char>, r2: Seq<char>)
    requires
        colon_free(k1),
        colon_free(k2),
        k1 + ":"@ + r1 == k2 + ":"@ + r2,
    ensures
        k1 == k2,
{
    reveal_strlit(":");
    let a = k1 + ":"@ + r1;
    let b = k2 + ":"@ + r2;
    if k1.len() < k2.len() {
        assert(a[k1.len() as int] == ':');
        assert(b[k1.len() as int] == k2[k1.len() as int]);
    } else if k2.len() < k1.len() {
        assert(b[k2.len() as int] == ':');
        assert(a[k2.len() as int] == k1[k2.len() as int]);
    } else {
        assert forall|i: int| 0 <= i < k1.len() implies k1[i] == k2[i] by {
            assert(a[i] == k1[i]);
            assert(b[i] == k2[i]);
        }
        assert(k1 =~= k2);
    }
}

/// Targets of different kinds get different module ids, whatever their names
/// and paths: a library and a binary of the same name never share a module.
/// (Kinds are cargo's target kinds, which hold no `:`.)
pub proof fn lemma_module_ids_distinct_by_kind(
    pkg: Seq<char>,
    k1: Seq<char>,
    k2: Seq<char>,
    target: Seq<char>,
    path: Seq<Seq<char>>,
)
    requires
        colon_free(k1),
        colon_free(k2),
        k1 != k2,
    ensures
        spec_module_node_id(pkg, k1, target, path) != spec_module_node_id(pkg, k2, target, path),
{
    let p = "mod:"@ + pkg + "::"@;
    let tail = if path.len() == 0 { target } else { target + "::"@ + spec_join(path, "::"@) };
    let id1 = spec_module_node_id(pkg, k1, target, path);
    let id2 = spec_module_node_id(pkg, k2, target, path);
    assert(id1 =~= p + (k1 + ":"@ + tail));
    assert(id2 =~= p + (k2 + ":"@ + tail));
    if id1 == id2 {
        assert((k1 + ":"@ + tail) =~= id1.skip(p.len() as int));
        assert((k2 + ":"@ + tail) =~= id2.skip(p.len() as int));
        lemma_kind_prefix_unique(k1, k2, tail, tail);
    }
}

/// `crate:<package>`: the node id of a package's crate node.
pub open spec fn spec_crate_node_id(pkg: Seq<char>) -> Seq<char> {
    "crate:"@ + pkg
}

/// The node id of the crate node of package `pkg_id_repr`.
pub fn crate_node_id(pkg_id_repr: &str) -> (r: String)
    ensures
        r@ == spec_crate_node_id(pkg_id_repr@),
{
    let mut out = owned("crate:");
    out.append(pkg_id_repr);
    out
}

/// A build target of a package: its name, its cargo kinds and its root file.
pub struct Target {
    pub name: String,
    pub kind: Vec<String>,
    pub src_path: String,
}

/// A cargo target kind whose crate another crate can name in a `use`.
pub open spec fn is_importable_kind(k: Seq<char>) -> bool {
    k == "lib"@ || k == "rlib"@ || k == "dylib"@ || k == "cdylib"@ || k == "proc-macro"@
}

/// A cargo target kind whose module tree is walked.
pub open spec fn is_supported_kind(k: Seq<char>) -> bool {
    is_importable_kind(k) || k == "bin"@
}

fn importable_kind(k: &str) -> (r: bool)
    ensures
        r == is_importable_kind(k@),
{
    str_eq(k, "lib") || str_eq(k, "rlib") || str_eq(k, "dylib") || str_eq(k, "cdylib") || str_eq(k, "proc-macro")
}

fn supported_kind(k: &str) -> (r: bool)
    ensures
        r == is_supported_kind(k@),
{
    importable_kind(k) || str_eq(k, "bin")
}

/// A target addressable by name from another crate (a library or proc-macro).
pub fn is_lib_target(target: &Target) -> (r: bool)
    ensures
        r == exists|i: int| 0 <= i < target.kind@.len() && is_importable_kind(#[trigger] target.kind@[i]@),
{
    let mut i: usize = 0;
    while i < target.kind.len()
        invariant
            i <= target.kind@.len(),
            forall|j: int| 0 <= j < i ==> !is_importable_kind(#[trigger] target.kind@[j]@),
        decreases target.kind.len() - i,
    {
        if importable_kind(target.kind[i].as_str()) {
            return true;
        }
        i = i + 1;
    }
    false
}

/// A target whose module tree the analysis walks (a library kind or a binary).
pub fn is_supported_target(target: &Target) -> (r: bool)
    ensures
        r == exists|i: int| 0 <= i < target.kind@.len() && is_supported_kind(#[trigger] target.kind@[i]@),
{
    let mut i: usize = 0;
    while i < target.kind.len()
        invariant
            i <= target.kind@.len(),
            forall|j: int| 0 <= j < i ==> !is_supported_kind(#[trigger] target.kind@[j]@),
        decreases target.kind.len() - i,
    {
        if supported_kind(target.kind[i].as_str()) {
            return true;
        }
        i = i + 1;
    }
    false
}

/// The first supported kind among `kinds[i..]`, or `?` when there is none.
pub open spec fn kind_label_from(kinds: Seq<String>, i: int) -> Seq<char>
    decreases kinds.len() - i,
{
    if i < 0 || i >= kinds.len() {
        "?"@
    } else if is_supported_kind(kinds[i]@) {
        kinds[i]@
    } else {
        kind_label_from(kinds, i + 1)
    }
}

/// The label of a target's kind: its first supported kind, or `?`.
pub open spec fn spec_kind_label(kinds: Seq<String>) -> Seq<char> {
    kind_label_from(kinds, 0)
}

/// The first supported kind of a target, or `?` when it has none.
pub fn target_kind_label(target: &Target) -> (r: &str)
    ensures
        r@ == spec_kind_label(target.kind@),
{
    let mut i: usize = 0;
    while i < target.kind.len()
        invariant
            i <= target.kind@.len(),
            kind_label_from(target.kind@, i as int) == kind_label_from(target.kind@, 0),
        decreases target.kind.len() - i,
    {
        if supported_kind(target.kind[i].as_str()) {
            return target.kind[i].as_str();
        }
        i = i + 1;
    }
    "?"
}

/// The kind of a top-level item of a source file.
#[derive(Debug, Clone, Copy, PartialEq, Eq, Structural)]
pub enum ItemKind {
    Const,
    Enum,
    ExternCrate,
    Fn,
    ForeignMod,
    Impl,
    Macro,
    Mod,
    Static,
    Struct,
    Trait,
    TraitAlias,
    Type,
    Union,
    Use,
    Verbatim,
}

/// The item kinds a file's item count includes (everything but `use`,
/// `extern crate`, foreign blocks, trait aliases and unparsed tokens).
pub open spec fn is_counted_item(k: ItemKind) -> bool {
    match k {
        ItemKind::Fn | ItemKind::Struct | ItemKind::Enum | ItemKind::Trait | ItemKind::Impl | ItemKind::Type
        | ItemKind::Const | ItemKind::Static | ItemKind::Mod | ItemKind::Macro | ItemKind::Union => true,
        _ => false,
    }
}

/// The number of counted items in `s`.
pub open spec fn spec_count_items(s: Seq<ItemKind>) -> nat
    decreases s.len(),
{
    if s.len() == 0 {
        0
    } else {
        spec_count_items(s.drop_last()) + if is_counted_item(s.last()) { 1nat } else { 0nat }
    }
}

/// The number of items of a file that its item count includes.
pub fn count_items(items: &Vec<ItemKind>) -> (r: usize)
    ensures
        r == spec_count_items(items@),
{
    let mut n: usize = 0;
    let mut i: usize = 0;
    while i < items.len()
        invariant
            i <= items@.len(),
            n == spec_count_items(items@.take(i as int)),
            n <= i,
        decreases items.len() - i,
    {
        assert(items@.take(i + 1).drop_last() =~= items@.take(i as int));
        let counted = match items[i] {
            ItemKind::Fn | ItemKind::Struct | ItemKind::Enum | ItemKind::Trait | ItemKind::Impl | ItemKind::Type
            | ItemKind::Const | ItemKind::Static | ItemKind::Mod | ItemKind::Macro | ItemKind::Union => true,
            _ => false,
        };
        if counted {
            n = n + 1;
        }
        i = i + 1;
    }
    assert(items@.take(items@.len() as int) =~= items@);
    n
}

/// Node `n` adds its lines to crate `c`: a module directly under the crate node
/// `c` (whose id starts with `crate:`) that has a line count.
pub open spec fn contributes(n: Node, c: Seq<char>) -> bool {
    &&& n.kind == NodeKind::Module
    &&& n.loc is Some
    &&& n.parent matches Some(p) && p@ == c
    &&& crate::strs::is_prefix("crate:"@, c)
}

/// The lines the nodes of `s` add to crate `c`.
pub open spec fn loc_sum(s: Seq<Node>, c: Seq<char>) -> int
    decreases s.len(),
{
    if s.len() == 0 {
        0
    } else {
        loc_sum(s.drop_last(), c) + if contributes(s.last(), c) { s.last().loc.unwrap() as int } else { 0 }
    }
}

/// Some node of `s` adds lines to crate `c`.
pub open spec fn has_contributor(s: Seq<Node>, c: Seq<char>) -> bool {
    exists|j: int| 0 <= j < s.len() && contributes(#[trigger] s[j], c)
}

proof fn lemma_loc_sum_nonneg(s: Seq<Node>, c: Seq<char>)
    ensures
        loc_sum(s, c) >= 0,
        !has_contributor(s, c) ==> loc_sum(s, c) == 0,
    decreases s.len(),
{
    if s.len() > 0 {
        lemma_loc_sum_nonneg(s.drop_last(), c);
        if !has_contributor(s, c) {
            assert forall|j: int| 0 <= j < s.drop_last().len() implies !contributes(#[trigger] s.drop_last()[j], c) by {
                assert(s.drop_last()[j] == s[j]);
            }
            assert(!contributes(s[s.len() - 1], c));
        }
    }
}

proof fn lemma_loc_sum_prefix(s: Seq<Node>, c: Seq<char>, i: int)
    requires
        0 <= i <= s.len(),
    ensures
        loc_sum(s.take(i), c) <= loc_sum(s, c),
    decreases s.len() - i,
{
    if i < s.len() {
        lemma_loc_sum_prefix(s, c, i + 1);
        assert(s.take(i + 1).drop_last() =~= s.take(i));
    } else {
        assert(s.take(i) =~= s);
    }
}

/// The lines all module nodes add to crate `c`, and whether any does.
fn crate_loc(nodes: &Vec<Node>, c: &String) -> (r: (u32, bool))
    requires
        loc_sum(nodes@, c@) <= u32::MAX,
    ensures
        r.0 == loc_sum(nodes@, c@),
        r.1 == has_contributor(nodes@, c@),
{
    let prefix = crate::strs::chars_of("crate:");
    let cc = crate::strs::chars_of(c.as_str());
    let is_crate_id = crate::strs::chars_starts_with(&cc, &prefix);
    let mut total: u32 = 0;
    let mut found = false;
    let mut i: usize = 0;
    while i < nodes.len()
        invariant
            i <= nodes@.len(),
            is_crate_id == crate::strs::is_prefix("crate:"@, c@),
            loc_sum(nodes@, c@) <= u32::MAX,
            total == loc_sum(nodes@.take(i as int), c@),
            found == has_contributor(nodes@.take(i as int), c@),
        decreases nodes.len() - i,
    {
        proof {
            lemma_loc_sum_prefix(nodes@, c@, i + 1);
            lemma_loc_sum_nonneg(nodes@.take(i as int), c@);
            assert(nodes@.take(i + 1).drop_last() =~= nodes@.take(i as int));
        }
        let n = &nodes[i];
        let mut adds = false;
        if is_crate_id && n.kind == NodeKind::Module {
            if let Some(loc) = n.loc {
                if let Some(p) = &n.parent {
                    if *p == *c {
                        total = total + loc;
                        adds = true;
                    }
                }
            }
        }
        proof {
            let t0 = nodes@.take(i as int);
            let t1 = nodes@.take(i + 1);
            assert(adds == contributes(nodes@[i as int], c@));
            if adds {
                assert(t1[i as int] == nodes@[i as int]);
                assert(has_contributor(t1, c@));
            } else {
                assert(has_contributor(t1, c@) == has_contributor(t0, c@)) by {
                    if has_contributor(t1, c@) {
                        let j = choose|j: int| 0 <= j < t1.len() && contributes(#[trigger] t1[j], c@);
                        assert(j != i);
                        assert(t0[j] == t1[j]);
                    }
                    if has_contributor(t0, c@) {
                        let j = choose|j: int| 0 <= j < t0.len() && contributes(#[trigger] t0[j], c@);
                        assert(t0[j] == t1[j]);
                    }
                }
            }
        }
        found = found || adds;
        i = i + 1;
    }
    assert(nodes@.take(nodes@.len() as int) =~= nodes@);
    (total, found)
}

/// `after` is `before` with each crate node that has line-counted modules
/// directly under it given their total as its `loc`; nothing else differs.
pub open spec fn crate_loc_aggregated(before: Seq<Node>, after: Seq<Node>) -> bool {
    &&& after.len() == before.len()
    &&& forall|i: int| 0 <= i < before.len() ==> {
        let n = #[trigger] before[i];
        let m = after[i];
        &&& m.id == n.id && m.kind == n.kind && m.name == n.name && m.path == n.path
        &&& m.parent == n.parent && m.external == n.external && m.version == n.version
        &&& m.visibility == n.visibility && m.line == n.line && m.item_count == n.item_count
        &&& m.loc == if n.kind == NodeKind::Crate && has_contributor(before, n.id@) {
            Some(loc_sum(before, n.id@) as u32)
        } else {
            n.loc
        }
    }
}

/// Sums module line counts into each crate node: a crate node whose id starts
/// with `crate:` and has at least one line-counted module directly under it gets
/// their total as its `loc`; every other node is unchanged.
pub fn aggregate_crate_loc(builder: &mut GraphBuilder)
    requires
        forall|c: Seq<char>| loc_sum(old(builder).nodes@, c) <= u32::MAX,
    ensures
        final(builder).edges@ == old(builder).edges@,
        crate_loc_aggregated(old(builder).nodes@, final(builder).nodes@),
{
    let ghost orig = builder.nodes@;
    let mut totals: Vec<Option<u32>> = Vec::new();
    let mut i: usize = 0;
    while i < builder.nodes.len()
        invariant
            builder.nodes@ == orig,
            i <= orig.len(),
            totals@.len() == i,
            forall|c: Seq<char>| loc_sum(orig, c) <= u32::MAX,
            forall|j: int| 0 <= j < i ==> #[trigger] totals@[j] == if orig[j].kind == NodeKind::Crate && has_contributor(orig, orig[j].id@) {
                Some(loc_sum(orig, orig[j].id@) as u32)
            } else {
                None::<u32>
            },
        decreases orig.len() - i,
    {
        if builder.nodes[i].kind == NodeKind::Crate {
            let (total, found) = crate_loc(&builder.nodes, &builder.nodes[i].id);
            totals.push(if found { Some(total) } else { None });
        } else {
            totals.push(None);
        }
        i = i + 1;
    }
    let mut k: usize = 0;
    while k < builder.nodes.len()
        invariant
            builder.nodes@.len() == orig.len(),
            builder.edges@ == old(builder).edges@,
            totals@.len() == orig.len(),
            k <= orig.len(),
            forall|j: int| 0 <= j < orig.len() ==> #[trigger] totals@[j] == if orig[j].kind == NodeKind::Crate && has_contributor(orig, orig[j].id@) {
                Some(loc_sum(orig, orig[j].id@) as u32)
            } else {
                None::<u32>
            },
            forall|j: int| k <= j < orig.len() ==> #[trigger] builder.nodes@[j] == orig[j],
            forall|j: int| 0 <= j < k ==> {
                let n = #[trigger] orig[j];
                let m = builder.nodes@[j];
                &&& m.id == n.id && m.kind == n.kind && m.name == n.name && m.path == n.path
                &&& m.parent == n.parent && m.external == n.external && m.version == n.version
                &&& m.visibility == n.visibility && m.line == n.line && m.item_count == n.item_count
                &&& m.loc == if n.kind == NodeKind::Crate && has_contributor(orig, n.id@) {
                    Some(loc_sum(orig, n.id@) as u32)
                } else {
                    n.loc
                }
            },
        decreases orig.len() - k,
    {
        if let Some(total) = totals[k] {
            builder.nodes[k].loc = Some(total);
        }
        k = k + 1;
    }
}

/// A dependency edge of a package in cargo's resolve graph: the name code uses
/// for the dependency and the dependency's package id.
pub struct NodeDep {
    pub name: String,
    pub pkg: String,
}

/// A package of cargo's resolve graph with its direct dependencies.
pub struct ResolveNode {
    pub id: String,
    pub deps: Vec<NodeDep>,
}

/// The dependency map a run of dependencies builds, later entries replacing
/// earlier ones under the same name: name to `f(package id)`.
pub open spec fn spec_dep_map(deps: Seq<NodeDep>, to_crate_id: bool) -> Map<Seq<char>, Seq<char>>
    decreases deps.len(),
{
    if deps.len() == 0 {
        Map::empty()
    } else {
        let d = deps.last();
        spec_dep_map(deps.drop_last(), to_crate_id).insert(
            d.name@,
            if to_crate_id { spec_crate_node_id(d.pkg@) } else { d.pkg@ },
        )
    }
}

/// The plain view of a name map with string values.
pub open spec fn str_map_view(m: Map<Seq<char>, String>) -> Map<Seq<char>, Seq<char>> {
    Map::new(|k: Seq<char>| m.contains_key(k), |k: Seq<char>| m[k]@)
}

/// The first resolve node whose id is `pkg`, if any.
pub open spec fn spec_find_resolve_node(nodes: Seq<ResolveNode>, pkg: Seq<char>) -> Option<ResolveNode>
    decreases nodes.len(),
{
    if nodes.len() == 0 {
        None
    } else if nodes[0].id@ == pkg {
        Some(nodes[0])
    } else {
        spec_find_resolve_node(nodes.drop_first(), pkg)
    }
}

fn find_resolve_node(nodes: &Vec<ResolveNode>, pkg_id: &str) -> (r: Option<usize>)
    ensures
        match r {
            Some(k) => k < nodes@.len() && spec_find_resolve_node(nodes@, pkg_id@) == Some(nodes@[k as int]),
            None => spec_find_resolve_node(nodes@, pkg_id@) is None,
        },
{
    let mut i: usize = 0;
    assert(nodes@.skip(0) =~= nodes@);
    while i < nodes.len()
        invariant
            i <= nodes@.len(),
            spec_find_resolve_node(nodes@, pkg_id@) == spec_find_resolve_node(nodes@.skip(i as int), pkg_id@),
        decreases nodes.len() - i,
    {
        assert(nodes@.skip(i as int).drop_first() =~= nodes@.skip(i + 1));
        if str_eq(nodes[i].id.as_str(), pkg_id) {
            return Some(i);
        }
        i = i + 1;
    }
    assert(nodes@.skip(i as int).len() == 0);
    None
}

/// Both dependency maps of package `pkg_id` from cargo's resolve graph: the
/// code name of each direct dependency to its crate node id, and to its package
/// id. Both are empty without a resolve graph or without a node for the package.
pub fn build_dep_maps(pkg_id: &str, resolve: &Option<Vec<ResolveNode>>) -> (r: (NameMap<String>, NameMap<String>))
    ensures
        match *resolve {
            None => str_map_view(r.0@) == Map::<Seq<char>, Seq<char>>::empty()
                && str_map_view(r.1@) == Map::<Seq<char>, Seq<char>>::empty(),
            Some(nodes) => match spec_find_resolve_node(nodes@, pkg_id@) {
                None => str_map_view(r.0@) == Map::<Seq<char>, Seq<char>>::empty()
                    && str_map_view(r.1@) == Map::<Seq<char>, Seq<char>>::empty(),
                Some(n) => str_map_view(r.0@) == spec_dep_map(n.deps@, true)
                    && str_map_view(r.1@) == spec_dep_map(n.deps@, false),
            },
        },
{
    let mut extern_map: NameMap<String> = NameMap::new();
    let mut pkg_map: NameMap<String> = NameMap::new();
    assert(str_map_view(extern_map@) =~= Map::<Seq<char>, Seq<char>>::empty());
    assert(str_map_view(pkg_map@) =~= Map::<Seq<char>, Seq<char>>::empty());
    let nodes = match resolve {
        Some(nodes) => nodes,
        None => return (extern_map, pkg_map),
    };
    let k = match find_resolve_node(nodes, pkg_id) {
        Some(k) => k,
        None => return (extern_map, pkg_map),
    };
    let node = &nodes[k];
    let mut j: usize = 0;
    while j < node.deps.len()
        invariant
            j <= node.deps@.len(),
            str_map_view(extern_map@) == spec_dep_map(node.deps@.take(j as int), true),
            str_map_view(pkg_map@) == spec_dep_map(node.deps@.take(j as int), false),
        decreases node.deps.len() - j,
    {
        let dep = &node.deps[j];
        assert(node.deps@.take(j + 1).drop_last() =~= node.deps@.take(j as int));
        let ghost e0 = extern_map@;
        let ghost p0 = pkg_map@;
        let cid = crate_node_id(dep.pkg.as_str());
        extern_map.insert(dep.name.clone(), cid);
        pkg_map.insert(dep.name.clone(), dep.pkg.clone());
        assert(str_map_view(extern_map@) =~= spec_dep_map(node.deps@.take(j + 1), true));
        assert(str_map_view(pkg_map@) =~= spec_dep_map(node.deps@.take(j + 1), false));
        j = j + 1;
    }
    assert(node.deps@.take(node.deps@.len() as int) =~= node.deps@);
    (extern_map, pkg_map)
}

} // verus!
