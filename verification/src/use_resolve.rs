//! `use` resolution that follows `pub use` re-exports.
//!
//! A `use` path is resolved against the owning crate's module index; when the
//! path ends in a non-module item that the module it stops at re-exports, the
//! re-export is followed (up to a depth limit) so the edge lands on the module
//! that defines the item rather than on the facade that re-exports it. A path
//! into another local workspace crate is walked through that crate's library in
//! the same way. The resolved edges are `reexports` (a non-private `use`),
//! `super` (a glob pulling in a strict ancestor's namespace) or `uses`.

use vstd::prelude::*;
use crate::maps::{path_view, ModuleIndex, NameMap, PathMap};
use crate::strs::{opt_view, str_eq};
use crate::use_graph::{
    is_reexport, is_std_root, leading_supers, lemma_leading_supers_step, lemma_leading_supers_stop,
    spec_is_reexport, spec_walk_from, spec_walk_module_index, IndexView, UseTree, Visibility,
};

verus! {

/// The `pub use` declarations of a crate: per module path, each re-exported
/// name with the source path it re-exports.
pub type ReexportMap = PathMap<Vec<(String, Vec<String>)>>;

/// The view of a re-export table.
pub type ReexportView = Map<Seq<Seq<char>>, Vec<(String, Vec<String>)>>;

/// A local workspace library: its module index and its re-export table.
pub struct ForeignLib {
    pub index: ModuleIndex,
    pub reexports: ReexportMap,
}

/// How many segments of `tail` can be walked down from `path` through indexed
/// modules.
pub open spec fn walk_depth(idx: IndexView, path: Seq<Seq<char>>, tail: Seq<Seq<char>>) -> nat
    decreases tail.len(),
{
    if tail.len() == 0 {
        0
    } else {
        let next = path.push(tail[0]);
        if idx.contains_key(next) {
            1 + walk_depth(idx, next, tail.drop_first())
        } else {
            0
        }
    }
}

/// Walking `tail` from module `base`: the deepest module reached, the path that
/// reached it, and how many segments of `tail` were consumed; `None` when `base`
/// is not indexed.
pub open spec fn spec_walk_detailed(
    base: Seq<Seq<char>>,
    tail: Seq<Seq<char>>,
    idx: IndexView,
) -> Option<(Seq<char>, Seq<Seq<char>>, nat)> {
    if idx.contains_key(base) {
        let c = walk_depth(idx, base, tail);
        let stop = base + tail.take(c as int);
        Some((idx[stop], stop, c))
    } else {
        None
    }
}

proof fn lemma_walk_depth(idx: IndexView, path: Seq<Seq<char>>, tail: Seq<Seq<char>>)
    requires
        idx.contains_key(path),
    ensures
        walk_depth(idx, path, tail) <= tail.len(),
        idx.contains_key(path + tail.take(walk_depth(idx, path, tail) as int)),
    decreases tail.len(),
{
    if tail.len() > 0 {
        let next = path.push(tail[0]);
        if idx.contains_key(next) {
            lemma_walk_depth(idx, next, tail.drop_first());
            let c = walk_depth(idx, next, tail.drop_first());
            assert(next + tail.drop_first().take(c as int) =~= path + tail.take(c as int + 1));
        } else {
            assert(path + tail.take(0) =~= path);
        }
    } else {
        assert(path + tail.take(0) =~= path);
    }
}

/// Walks `tail` from module `base` through `idx`: the deepest module reached,
/// the path that reached it, and how many segments were consumed (a trailing
/// item such as a struct or fn is left over).
pub fn walk_detailed(base: &Vec<String>, tail: &Vec<String>, idx: &ModuleIndex) -> (r: Option<(String, Vec<String>, usize)>)
    ensures
        match r {
            None => spec_walk_detailed(path_view(base@), path_view(tail@), idx@) is None,
            Some(t) => spec_walk_detailed(path_view(base@), path_view(tail@), idx@)
                == Some((t.0@, path_view(t.1@), t.2 as nat)),
        },
{
    let mut cur = base.clone();
    let mut node = match idx.get(&cur) {
        Some(id) => id,
        None => return None,
    };
    let ghost b = path_view(base@);
    let ghost tv = path_view(tail@);
    assert(b + tv.take(0) =~= b);
    assert(tv.skip(0) =~= tv);
    let mut consumed: usize = 0;
    while consumed < tail.len()
        invariant
            consumed <= tail.len(),
            b == path_view(base@),
            tv == path_view(tail@),
            idx@.contains_key(b),
            path_view(cur@) == b + tv.take(consumed as int),
            idx@.contains_key(path_view(cur@)),
            node@ == idx@[path_view(cur@)],
            walk_depth(idx@, b, tv) == consumed + walk_depth(idx@, path_view(cur@), tv.skip(consumed as int)),
        decreases tail.len() - consumed,
    {
        let ghost rest = tv.skip(consumed as int);
        let ghost cv = path_view(cur@);
        let mut probe = cur.clone();
        probe.push(tail[consumed].clone());
        assert(path_view(probe@) =~= cv.push(rest[0]));
        match idx.get(&probe) {
            Some(id) => {
                assert(rest.drop_first() =~= tv.skip(consumed + 1));
                assert(b + tv.take(consumed + 1) =~= cv.push(rest[0]));
                node = id;
                cur = probe;
                consumed = consumed + 1;
            },
            None => {
                assert(walk_depth(idx@, cv, rest) == 0);
                return Some((node, cur, consumed));
            },
        }
    }
    assert(tv.skip(consumed as int) =~= Seq::<Seq<char>>::empty());
    Some((node, cur, consumed))
}

/// The module a `pub use` source names inside a foreign library, seen from
/// module `current`: `crate` / `self` / `super` prefixes and a child-module
/// first segment walk the library (following its re-exports); anything else
/// names nothing there.
pub open spec fn spec_resolve_foreign_source(
    use_path: Seq<Seq<char>>,
    current: Seq<Seq<char>>,
    idx: IndexView,
    rx: ReexportView,
    depth: nat,
    max: nat,
) -> Option<Seq<char>>
    decreases max - depth, 2int, 0int,
{
    if use_path.len() == 0 {
        None
    } else {
        let first = use_path[0];
        let rest = use_path.drop_first();
        if first == "crate"@ {
            spec_walk_foreign(Seq::empty(), rest, idx, rx, depth, max)
        } else if first == "self"@ {
            spec_walk_foreign(current, rest, idx, rx, depth, max)
        } else if first == "super"@ {
            let k = leading_supers(rest);
            if current.len() >= k + 1 {
                spec_walk_foreign(current.take(current.len() - k - 1), rest.skip(k as int), idx, rx, depth, max)
            } else {
                None
            }
        } else if is_std_root(first) {
            None
        } else if idx.contains_key(current.push(first)) {
            spec_walk_foreign(current, use_path, idx, rx, depth, max)
        } else {
            None
        }
    }
}

/// Among `entries[k..]`, the first re-export of `sym` whose source resolves (one
/// level deeper) to a module other than `node`.
pub open spec fn scan_foreign(
    entries: Seq<(String, Vec<String>)>,
    k: int,
    sym: Seq<char>,
    stop: Seq<Seq<char>>,
    node: Seq<char>,
    idx: IndexView,
    rx: ReexportView,
    depth: nat,
    max: nat,
) -> Option<Seq<char>>
    decreases max - depth, 0int, entries.len() - k,
{
    if k < 0 || k >= entries.len() || depth >= max {
        None
    } else if entries[k].0@ == sym {
        match spec_resolve_foreign_source(path_view(entries[k].1@), stop, idx, rx, depth + 1, max) {
            Some(r) => if r != node {
                Some(r)
            } else {
                scan_foreign(entries, k + 1, sym, stop, node, idx, rx, depth, max)
            },
            None => scan_foreign(entries, k + 1, sym, stop, node, idx, rx, depth, max),
        }
    } else {
        scan_foreign(entries, k + 1, sym, stop, node, idx, rx, depth, max)
    }
}

/// The module `base ++ tail` names inside a foreign library: the deepest module
/// the walk reaches, unless a segment is left over and the module the walk
/// stopped at re-exports it (below the depth limit) from elsewhere in the
/// library, in which case the re-export's definer.
pub open spec fn spec_walk_foreign(
    base: Seq<Seq<char>>,
    tail: Seq<Seq<char>>,
    idx: IndexView,
    rx: ReexportView,
    depth: nat,
    max: nat,
) -> Option<Seq<char>>
    decreases max - depth, 1int, 0int,
{
    match spec_walk_detailed(base, tail, idx) {
        None => None,
        Some(w) => {
            let node = w.0;
            let stop = w.1;
            let c = w.2;
            if c >= tail.len() {
                Some(node)
            } else if depth < max && rx.contains_key(stop) {
                match scan_foreign(rx[stop]@, 0, tail[c as int], stop, node, idx, rx, depth, max) {
                    Some(r) => Some(r),
                    None => Some(node),
                }
            } else {
                Some(node)
            }
        },
    }
}

/// Resolves `base ++ tail` within a foreign library, following its `pub use`
/// re-exports so that a re-exported item lands on the module that defines it.
pub fn walk_foreign(
    base: &Vec<String>,
    tail: &Vec<String>,
    index: &ModuleIndex,
    reexports: &ReexportMap,
    depth: usize,
    max_depth: usize,
) -> (r: Option<String>)
    ensures
        opt_view(r) == spec_walk_foreign(path_view(base@), path_view(tail@), index@, reexports@, depth as nat, max_depth as nat),
    decreases max_depth - depth, 1int, 0int,
{
    let w = walk_detailed(base, tail, index);
    let (node, stop_path, consumed) = match w {
        None => return None,
        Some(t) => t,
    };
    let ghost tv = path_view(tail@);
    let ghost sv = path_view(stop_path@);
    proof {
        lemma_walk_depth(index@, path_view(base@), tv);
    }
    if consumed >= tail.len() {
        return Some(node);
    }
    if depth < max_depth {
        match reexports.get(&stop_path) {
            Some(entries) => {
                let sym = &tail[consumed];
                assert(sym@ == tv[consumed as int]);
                let mut k: usize = 0;
                while k < entries.len()
                    invariant
                        k <= entries@.len(),
                        depth < max_depth,
                        sv == path_view(stop_path@),
                        tv == path_view(tail@),
                        consumed < tail@.len(),
                        sym@ == tv[consumed as int],
                        spec_walk_detailed(path_view(base@), tv, index@) == Some((node@, sv, consumed as nat)),
                        reexports@.contains_key(sv),
                        reexports@[sv] == *entries,
                        scan_foreign(entries@, 0, sym@, sv, node@, index@, reexports@, depth as nat, max_depth as nat)
                            == scan_foreign(entries@, k as int, sym@, sv, node@, index@, reexports@, depth as nat, max_depth as nat),
                    decreases entries.len() - k,
                {
                    if str_eq(entries[k].0.as_str(), sym.as_str()) {
                        let res = resolve_foreign_source(&entries[k].1, &stop_path, index, reexports, depth + 1, max_depth);
                        match res {
                            Some(redirected) => {
                                if !str_eq(redirected.as_str(), node.as_str()) {
                                    return Some(redirected);
                                }
                            },
                            None => {},
                        }
                    }
                    k = k + 1;
                }
            },
            None => {},
        }
    }
    Some(node)
}

/// Resolves a `pub use` source path within a foreign library (see
/// `spec_resolve_foreign_source`).
pub fn resolve_foreign_source(
    use_path: &Vec<String>,
    current_path: &Vec<String>,
    index: &ModuleIndex,
    reexports: &ReexportMap,
    depth: usize,
    max_depth: usize,
) -> (r: Option<String>)
    ensures
        opt_view(r) == spec_resolve_foreign_source(
            path_view(use_path@),
            path_view(current_path@),
            index@,
            reexports@,
            depth as nat,
            max_depth as nat,
        ),
    decreases max_depth - depth, 2int, 0int,
{
    if use_path.len() == 0 {
        return None;
    }
    let ghost up = path_view(use_path@);
    let ghost cur = path_view(current_path@);
    let first = use_path[0].as_str();
    let rest = tail_from(use_path, 1);
    assert(path_view(rest@) =~= up.drop_first());
    let empty: Vec<String> = Vec::new();
    assert(path_view(empty@) =~= Seq::<Seq<char>>::empty());
    if str_eq(first, "crate") {
        walk_foreign(&empty, &rest, index, reexports, depth, max_depth)
    } else if str_eq(first, "self") {
        walk_foreign(current_path, &rest, index, reexports, depth, max_depth)
    } else if str_eq(first, "super") {
        match super_base(use_path, current_path) {
            None => None,
            Some((path, t)) => {
                let tail = tail_from(use_path, t);
                proof {
                    assert(up.drop_first().skip(t - 1) =~= up.skip(t as int));
                }
                walk_foreign(&path, &tail, index, reexports, depth, max_depth)
            },
        }
    } else if str_eq(first, "std") || str_eq(first, "core") || str_eq(first, "alloc")
        || str_eq(first, "proc_macro") || str_eq(first, "test") {
        None
    } else {
        let mut probe = current_path.clone();
        probe.push(use_path[0].clone());
        assert(path_view(probe@) =~= cur.push(up[0]));
        if index.contains(&probe) {
            walk_foreign(current_path, use_path, index, reexports, depth, max_depth)
        } else {
            None
        }
    }
}

/// The node a `use` path names, seen from module `current` of the owning crate,
/// following re-exports below the depth limit:
/// - `crate::…` resolves from the crate root, `self::…` from `current`;
/// - `super::super::…` from the matching ancestor (none above the root);
/// - a standard-distribution root names nothing;
/// - a first segment that is a child module of `current` resolves from `current`;
/// - a dependency that is a local library is walked through that library,
///   following its own re-exports from depth 0;
/// - any other dependency names its crate root node.
pub open spec fn spec_resolve_use_path(
    use_path: Seq<Seq<char>>,
    current: Seq<Seq<char>>,
    idx: IndexView,
    externs: Map<Seq<char>, String>,
    deps: Map<Seq<char>, String>,
    libs: Map<Seq<char>, ForeignLib>,
    rx: ReexportView,
    depth: nat,
    max: nat,
) -> Option<Seq<char>>
    decreases max - depth, 2int, 0int,
{
    if use_path.len() == 0 {
        None
    } else {
        let first = use_path[0];
        let rest = use_path.drop_first();
        if first == "crate"@ {
            spec_resolve_in_index(Seq::empty(), rest, idx, externs, deps, libs, rx, depth, max)
        } else if first == "self"@ {
            spec_resolve_in_index(current, rest, idx, externs, deps, libs, rx, depth, max)
        } else if first == "super"@ {
            let k = leading_supers(rest);
            if current.len() >= k + 1 {
                spec_resolve_in_index(
                    current.take(current.len() - k - 1),
                    rest.skip(k as int),
                    idx,
                    externs,
                    deps,
                    libs,
                    rx,
                    depth,
                    max,
                )
            } else {
                None
            }
        } else if is_std_root(first) {
            None
        } else if idx.contains_key(current.push(first)) {
            spec_resolve_in_index(current, use_path, idx, externs, deps, libs, rx, depth, max)
        } else if deps.contains_key(first) && libs.contains_key(deps[first]@) {
            spec_walk_foreign(Seq::empty(), rest, libs[deps[first]@].index@, libs[deps[first]@].reexports@, 0, max)
        } else if externs.contains_key(first) {
            Some(externs[first]@)
        } else {
            None
        }
    }
}

/// Among `entries[k..]`, the first re-export of `sym` whose source resolves (one
/// level deeper, seen from `stop`) to a node other than `node`.
pub open spec fn scan_local(
    entries: Seq<(String, Vec<String>)>,
    k: int,
    sym: Seq<char>,
    stop: Seq<Seq<char>>,
    node: Seq<char>,
    idx: IndexView,
    externs: Map<Seq<char>, String>,
    deps: Map<Seq<char>, String>,
    libs: Map<Seq<char>, ForeignLib>,
    rx: ReexportView,
    depth: nat,
    max: nat,
) -> Option<Seq<char>>
    decreases max - depth, 0int, entries.len() - k,
{
    if k < 0 || k >= entries.len() || depth >= max {
        None
    } else if entries[k].0@ == sym {
        match spec_resolve_use_path(path_view(entries[k].1@), stop, idx, externs, deps, libs, rx, depth + 1, max) {
            Some(r) => if r != node {
                Some(r)
            } else {
                scan_local(entries, k + 1, sym, stop, node, idx, externs, deps, libs, rx, depth, max)
            },
            None => scan_local(entries, k + 1, sym, stop, node, idx, externs, deps, libs, rx, depth, max),
        }
    } else {
        scan_local(entries, k + 1, sym, stop, node, idx, externs, deps, libs, rx, depth, max)
    }
}

/// The node `base ++ tail` names in the owning crate: the deepest module the
/// walk reaches, unless a segment is left over and the module the walk stopped
/// at re-exports it (below the depth limit), in which case the node the
/// re-export's source resolves to.
pub open spec fn spec_resolve_in_index(
    base: Seq<Seq<char>>,
    tail: Seq<Seq<char>>,
    idx: IndexView,
    externs: Map<Seq<char>, String>,
    deps: Map<Seq<char>, String>,
    libs: Map<Seq<char>, ForeignLib>,
    rx: ReexportView,
    depth: nat,
    max: nat,
) -> Option<Seq<char>>
    decreases max - depth, 1int, 0int,
{
    match spec_walk_detailed(base, tail, idx) {
        None => None,
        Some(w) => {
            let node = w.0;
            let stop = w.1;
            let c = w.2;
            if c >= tail.len() {
                Some(node)
            } else if depth < max && rx.contains_key(stop) {
                match scan_local(rx[stop]@, 0, tail[c as int], stop, node, idx, externs, deps, libs, rx, depth, max) {
                    Some(r) => Some(r),
                    None => Some(node),
                }
            } else {
                Some(node)
            }
        },
    }
}

/// Resolves a `use` path seen from module `current_path` of the owning crate to
/// the node it names (see `spec_resolve_use_path`), following `pub use`
/// re-exports while `depth` is below `max_depth`.
pub fn resolve_use_path(
    use_path: &Vec<String>,
    current_path: &Vec<String>,
    module_index: &ModuleIndex,
    extern_crates: &NameMap<String>,
    dep_pkg_by_name: &NameMap<String>,
    lib_index: &NameMap<ForeignLib>,
    reexports: &ReexportMap,
    depth: usize,
    max_depth: usize,
) -> (r: Option<String>)
    ensures
        opt_view(r) == spec_resolve_use_path(
            path_view(use_path@),
            path_view(current_path@),
            module_index@,
            extern_crates@,
            dep_pkg_by_name@,
            lib_index@,
            reexports@,
            depth as nat,
            max_depth as nat,
        ),
    decreases max_depth - depth, 2int, 0int,
{
    if use_path.len() == 0 {
        return None;
    }
    let ghost up = path_view(use_path@);
    let ghost cur = path_view(current_path@);
    let first = use_path[0].as_str();
    let rest = tail_from(use_path, 1);
    assert(path_view(rest@) =~= up.drop_first());
    let empty: Vec<String> = Vec::new();
    assert(path_view(empty@) =~= Seq::<Seq<char>>::empty());
    if str_eq(first, "crate") {
        resolve_in_index(&empty, &rest, module_index, extern_crates, dep_pkg_by_name, lib_index, reexports, depth, max_depth)
    } else if str_eq(first, "self") {
        resolve_in_index(current_path, &rest, module_index, extern_crates, dep_pkg_by_name, lib_index, reexports, depth, max_depth)
    } else if str_eq(first, "super") {
        match super_base(use_path, current_path) {
            None => None,
            Some((path, t)) => {
                let tail = tail_from(use_path, t);
                proof {
                    assert(up.drop_first().skip(t - 1) =~= up.skip(t as int));
                }
                resolve_in_index(&path, &tail, module_index, extern_crates, dep_pkg_by_name, lib_index, reexports, depth, max_depth)
            },
        }
    } else if str_eq(first, "std") || str_eq(first, "core") || str_eq(first, "alloc")
        || str_eq(first, "proc_macro") || str_eq(first, "test") {
        None
    } else {
        let mut probe = current_path.clone();
        probe.push(use_path[0].clone());
        assert(path_view(probe@) =~= cur.push(up[0]));
        if module_index.contains(&probe) {
            return resolve_in_index(
                current_path,
                use_path,
                module_index,
                extern_crates,
                dep_pkg_by_name,
                lib_index,
                reexports,
                depth,
                max_depth,
            );
        }
        if let Some(dep_repr) = dep_pkg_by_name.get(first) {
            if let Some(foreign) = lib_index.get(dep_repr.as_str()) {
                return walk_foreign(&empty, &rest, &foreign.index, &foreign.reexports, 0, max_depth);
            }
        }
        match extern_crates.get(first) {
            Some(id) => Some(id.clone()),
            None => None,
        }
    }
}

/// Resolves `base ++ tail` in the owning crate (see `spec_resolve_in_index`).
pub fn resolve_in_index(
    base: &Vec<String>,
    tail: &Vec<String>,
    module_index: &ModuleIndex,
    extern_crates: &NameMap<String>,
    dep_pkg_by_name: &NameMap<String>,
    lib_index: &NameMap<ForeignLib>,
    reexports: &ReexportMap,
    depth: usize,
    max_depth: usize,
) -> (r: Option<String>)
    ensures
        opt_view(r) == spec_resolve_in_index(
            path_view(base@),
            path_view(tail@),
            module_index@,
            extern_crates@,
            dep_pkg_by_name@,
            lib_index@,
            reexports@,
            depth as nat,
            max_depth as nat,
        ),
    decreases max_depth - depth, 1int, 0int,
{
    let w = walk_detailed(base, tail, module_index);
    let (node, stop_path, consumed) = match w {
        None => return None,
        Some(t) => t,
    };
    let ghost tv = path_view(tail@);
    let ghost sv = path_view(stop_path@);
    proof {
        lemma_walk_depth(module_index@, path_view(base@), tv);
    }
    if consumed >= tail.len() {
        return Some(node);
    }
    if depth < max_depth {
        match reexports.get(&stop_path) {
            Some(entries) => {
                let sym = &tail[consumed];
                assert(sym@ == tv[consumed as int]);
                let mut k: usize = 0;
                while k < entries.len()
                    invariant
                        k <= entries@.len(),
                        depth < max_depth,
                        sv == path_view(stop_path@),
                        tv == path_view(tail@),
                        consumed < tail@.len(),
                        sym@ == tv[consumed as int],
                        spec_walk_detailed(path_view(base@), tv, module_index@) == Some((node@, sv, consumed as nat)),
                        reexports@.contains_key(sv),
                        reexports@[sv] == *entries,
                        scan_local(entries@, 0, sym@, sv, node@, module_index@, extern_crates@, dep_pkg_by_name@,
                            lib_index@, reexports@, depth as nat, max_depth as nat)
                            == scan_local(entries@, k as int, sym@, sv, node@, module_index@, extern_crates@,
                            dep_pkg_by_name@, lib_index@, reexports@, depth as nat, max_depth as nat),
                    decreases entries.len() - k,
                {
                    if str_eq(entries[k].0.as_str(), sym.as_str()) {
                        let res = resolve_use_path(
                            &entries[k].1,
                            &stop_path,
                            module_index,
                            extern_crates,
                            dep_pkg_by_name,
                            lib_index,
                            reexports,
                            depth + 1,
                            max_depth,
                        );
                        match res {
                            Some(redirected) => {
                                if !str_eq(redirected.as_str(), node.as_str()) {
                                    return Some(redirected);
                                }
                            },
                            None => {},
                        }
                    }
                    k = k + 1;
                }
            },
            None => {},
        }
    }
    Some(node)
}

/// The module a glob `use` pulls from, seen from module `current`:
/// `crate::a::b` is `[a, b]`, `self::x` a child of `current`, `super::…` the
/// matching ancestor (none above the root), and a bare first segment a child
/// module of `current`.
pub open spec fn spec_glob_target(use_path: Seq<Seq<char>>, current: Seq<Seq<char>>) -> Option<Seq<Seq<char>>> {
    if use_path.len() == 0 {
        None
    } else {
        let first = use_path[0];
        let rest = use_path.drop_first();
        if first == "crate"@ {
            Some(rest)
        } else if first == "self"@ {
            Some(current + rest)
        } else if first == "super"@ {
            let k = leading_supers(rest);
            if current.len() >= k + 1 {
                Some(current.take(current.len() - k - 1) + rest.skip(k as int))
            } else {
                None
            }
        } else {
            Some(current + use_path)
        }
    }
}

/// `a ++ b`.
fn concat_paths(a: &Vec<String>, b: &Vec<String>) -> (r: Vec<String>)
    ensures
        path_view(r@) == path_view(a@) + path_view(b@),
{
    let mut out = a.clone();
    let mut i: usize = 0;
    while i < b.len()
        invariant
            i <= b.len(),
            path_view(out@) == path_view(a@) + path_view(b@).take(i as int),
        decreases b.len() - i,
    {
        let ghost before = path_view(out@);
        out.push(b[i].clone());
        assert(path_view(out@) =~= before.push(b@[i as int]@));
        assert(path_view(b@).take(i + 1) =~= path_view(b@).take(i as int).push(b@[i as int]@));
        assert(path_view(a@) + path_view(b@).take(i + 1) =~= (path_view(a@) + path_view(b@).take(i as int)).push(b@[i as int]@));
        i = i + 1;
    }
    assert(path_view(b@).take(b.len() as int) =~= path_view(b@));
    out
}

/// The module a glob `use` of `use_path` pulls from, seen from `current_path`
/// (see `spec_glob_target`).
pub fn glob_target_module(use_path: &Vec<String>, current_path: &Vec<String>) -> (r: Option<Vec<String>>)
    ensures
        match r {
            None => spec_glob_target(path_view(use_path@), path_view(current_path@)) is None,
            Some(t) => spec_glob_target(path_view(use_path@), path_view(current_path@)) == Some(path_view(t@)),
        },
{
    if use_path.len() == 0 {
        return None;
    }
    let ghost up = path_view(use_path@);
    let first = use_path[0].as_str();
    let rest = tail_from(use_path, 1);
    assert(path_view(rest@) =~= up.drop_first());
    if str_eq(first, "crate") {
        Some(rest)
    } else if str_eq(first, "self") {
        Some(concat_paths(current_path, &rest))
    } else if str_eq(first, "super") {
        match super_base(use_path, current_path) {
            None => None,
            Some((path, t)) => {
                let tail = tail_from(use_path, t);
                proof {
                    assert(up.drop_first().skip(t - 1) =~= up.skip(t as int));
                }
                Some(concat_paths(&path, &tail))
            },
        }
    } else {
        Some(concat_paths(current_path, use_path))
    }
}

/// A `use` waiting to be resolved once every module node of the workspace
/// exists.
pub struct PendingUse {
    pub from_mod_id: String,
    pub current_path: Vec<String>,
    pub use_path: Vec<String>,
    pub visibility: Visibility,
    /// A crate-qualified path captured from an expression or type rather than
    /// a `use` declaration.
    pub bare: bool,
    /// The `use` ends in `::*`.
    pub glob: bool,
    /// The line of the `use` declaration.
    pub line: Option<u32>,
}

/// A glob `use` pulls in a strict ancestor module's namespace (`use super::*`,
/// `use crate::<ancestor>::*`).
pub open spec fn spec_is_super_glob(pu: PendingUse) -> bool {
    let cur = path_view(pu.current_path@);
    pu.glob && match spec_glob_target(path_view(pu.use_path@), cur) {
        Some(t) => t.len() < cur.len() && cur.take(t.len() as int) == t,
        None => false,
    }
}

/// Whether a pending glob `use` pulls in a strict ancestor's namespace.
pub fn is_super_glob(pu: &PendingUse) -> (r: bool)
    ensures
        r == spec_is_super_glob(*pu),
{
    if !pu.glob {
        return false;
    }
    let target = match glob_target_module(&pu.use_path, &pu.current_path) {
        Some(t) => t,
        None => return false,
    };
    let ghost cur = path_view(pu.current_path@);
    let ghost tv = path_view(target@);
    if target.len() >= pu.current_path.len() {
        return false;
    }
    let mut i: usize = 0;
    while i < target.len()
        invariant
            i <= target.len() < pu.current_path.len(),
            cur == path_view(pu.current_path@),
            tv == path_view(target@),
            pu.glob,
            spec_glob_target(path_view(pu.use_path@), cur) == Some(tv),
            forall|j: int| 0 <= j < i ==> cur[j] == tv[j],
        decreases target.len() - i,
    {
        if !str_eq(target[i].as_str(), pu.current_path[i].as_str()) {
            assert(cur.take(tv.len() as int)[i as int] != tv[i as int]);
            return false;
        }
        i = i + 1;
    }
    assert(cur.take(tv.len() as int) =~= tv);
    true
}

/// The kind of an edge a `use` yields.
#[derive(Debug, Clone, Copy, PartialEq, Eq, Structural)]
pub enum EdgeKind {
    Uses,
    Reexports,
    Super,
}

/// A directed edge between modules produced by a `use`.
pub struct Edge {
    pub from: String,
    pub to: String,
    pub kind: EdgeKind,
    /// Set on a `reexports` edge only: the visibility of the re-exporting `use`.
    pub visibility: Option<Visibility>,
    pub line: Option<u32>,
}

/// An edge as plain values: source id, target id, kind, visibility, line.
pub type EdgeView = (Seq<char>, Seq<char>, EdgeKind, Option<Visibility>, Option<u32>);

/// The plain-value view of an edge.
pub open spec fn edge_view(e: Edge) -> EdgeView {
    (e.from@, e.to@, e.kind, e.visibility, e.line)
}

/// The plain-value views of a run of edges.
pub open spec fn edges_view(s: Seq<Edge>) -> Seq<EdgeView> {
    s.map_values(|e: Edge| edge_view(e))
}

/// The kind of edge a pending use yields: a non-private `use` declaration
/// re-exports; a glob into a strict ancestor is structural scope (`super`);
/// everything else uses.
pub open spec fn spec_use_kind(pu: PendingUse) -> EdgeKind {
    if !pu.bare && spec_is_reexport(pu.visibility) {
        EdgeKind::Reexports
    } else if spec_is_super_glob(pu) {
        EdgeKind::Super
    } else {
        EdgeKind::Uses
    }
}

/// The edge a pending use yields, if its path resolves (from depth 0) to a node
/// other than the using module itself.
pub open spec fn spec_candidate(
    pu: PendingUse,
    idx: IndexView,
    externs: Map<Seq<char>, String>,
    deps: Map<Seq<char>, String>,
    libs: Map<Seq<char>, ForeignLib>,
    rx: ReexportView,
    max: nat,
) -> Option<EdgeView> {
    match spec_resolve_use_path(path_view(pu.use_path@), path_view(pu.current_path@), idx, externs, deps, libs, rx, 0, max) {
        None => None,
        Some(target) => if target == pu.from_mod_id@ {
            None
        } else {
            let kind = spec_use_kind(pu);
            Some((pu.from_mod_id@, target, kind, if kind == EdgeKind::Reexports { Some(pu.visibility) } else { None }, pu.line))
        },
    }
}

/// Whether `s` already holds an edge with the same source, target and kind.
pub open spec fn has_triple(s: Seq<EdgeView>, from: Seq<char>, to: Seq<char>, kind: EdgeKind) -> bool {
    exists|j: int| 0 <= j < s.len() && s[j].0 == from && s[j].1 == to && s[j].2 == kind
}

/// The edges the pending uses yield, in order, keeping only the first edge of
/// each (source, target, kind).
pub open spec fn spec_emitted(
    p: Seq<PendingUse>,
    idx: IndexView,
    externs: Map<Seq<char>, String>,
    deps: Map<Seq<char>, String>,
    libs: Map<Seq<char>, ForeignLib>,
    rx: ReexportView,
    max: nat,
) -> Seq<EdgeView>
    decreases p.len(),
{
    if p.len() == 0 {
        Seq::empty()
    } else {
        let prev = spec_emitted(p.drop_last(), idx, externs, deps, libs, rx, max);
        match spec_candidate(p.last(), idx, externs, deps, libs, rx, max) {
            Some(e) => if has_triple(prev, e.0, e.1, e.2) {
                prev
            } else {
                prev.push(e)
            },
            None => prev,
        }
    }
}

/// Whether `edges[start..]` holds an edge with the given source, target, kind.
fn contains_triple(edges: &Vec<Edge>, start: usize, from: &String, to: &String, kind: EdgeKind) -> (r: bool)
    requires
        start <= edges@.len(),
    ensures
        r == has_triple(edges_view(edges@.skip(start as int)), from@, to@, kind),
{
    let ghost s = edges_view(edges@.skip(start as int));
    let mut i = start;
    while i < edges.len()
        invariant
            start <= i <= edges@.len(),
            s == edges_view(edges@.skip(start as int)),
            forall|j: int| 0 <= j < i - start ==> !(s[j].0 == from@ && s[j].1 == to@ && s[j].2 == kind),
        decreases edges.len() - i,
    {
        let e = &edges[i];
        assert(s[i - start] == edge_view(edges@[i as int]));
        if e.from == *from && e.to == *to && e.kind == kind {
            return true;
        }
        i = i + 1;
    }
    false
}

/// Resolves every pending use against the owning crate's module index, its
/// re-export table, the workspace libraries and the dependency crate roots, and
/// appends one edge per distinct (source, target, kind) to `edges`: a
/// non-private `use` re-exports (the edge carries its visibility), a glob into
/// a strict ancestor is a `super` edge, any other reference uses; a path that
/// names nothing, or names the using module itself, adds nothing.
pub fn emit_uses(
    pending: &Vec<PendingUse>,
    module_index: &ModuleIndex,
    extern_crates: &NameMap<String>,
    dep_pkg_by_name: &NameMap<String>,
    lib_index: &NameMap<ForeignLib>,
    reexports: &ReexportMap,
    max_depth: usize,
    edges: &mut Vec<Edge>,
)
    ensures
        edges_view(final(edges)@) == edges_view(old(edges)@) + spec_emitted(
            pending@,
            module_index@,
            extern_crates@,
            dep_pkg_by_name@,
            lib_index@,
            reexports@,
            max_depth as nat,
        ),
{
    let start = edges.len();
    let ghost idx = module_index@;
    let ghost ex = extern_crates@;
    let ghost dp = dep_pkg_by_name@;
    let ghost lb = lib_index@;
    let ghost rx = reexports@;
    let ghost mx = max_depth as nat;
    let mut i: usize = 0;
    while i < pending.len()
        invariant
            i <= pending@.len(),
            start == old(edges)@.len(),
            idx == module_index@ && ex == extern_crates@ && dp == dep_pkg_by_name@ && lb == lib_index@,
            rx == reexports@ && mx == max_depth as nat,
            edges@.len() >= start,
            edges@.take(start as int) == old(edges)@,
            edges_view(edges@.skip(start as int)) == spec_emitted(pending@.take(i as int), idx, ex, dp, lb, rx, mx),
        decreases pending.len() - i,
    {
        let pu = &pending[i];
        let ghost prefix = pending@.take(i as int);
        let ghost before = edges@;
        assert(pending@.take(i + 1).drop_last() =~= prefix);
        assert(pending@.take(i + 1).last() == *pu);
        let resolved = resolve_use_path(
            &pu.use_path,
            &pu.current_path,
            module_index,
            extern_crates,
            dep_pkg_by_name,
            lib_index,
            reexports,
            0,
            max_depth,
        );
        match resolved {
            None => {},
            Some(target_id) => {
                if target_id != pu.from_mod_id {
                    let kind = if !pu.bare && is_reexport(&pu.visibility) {
                        EdgeKind::Reexports
                    } else if is_super_glob(pu) {
                        EdgeKind::Super
                    } else {
                        EdgeKind::Uses
                    };
                    if !contains_triple(edges, start, &pu.from_mod_id, &target_id, kind) {
                        let vis = match kind {
                            EdgeKind::Reexports => Some(pu.visibility.copy()),
                            _ => None,
                        };
                        edges.push(Edge { from: pu.from_mod_id.clone(), to: target_id, kind, visibility: vis, line: pu.line });
                        assert(edges@.skip(start as int) =~= before.skip(start as int).push(edges@.last()));
                    }
                }
            },
        }
        proof {
            assert(edges@.take(start as int) =~= old(edges)@);
        }
        i = i + 1;
    }
    proof {
        assert(pending@.take(pending@.len() as int) =~= pending@);
        assert(edges@ =~= edges@.take(start as int) + edges@.skip(start as int));
        assert(edges_view(edges@) =~= edges_view(old(edges)@) + edges_view(edges@.skip(start as int)));
    }
}

/// No edge of `s` joins a node to itself.
pub open spec fn no_self_loops(s: Seq<EdgeView>) -> bool {
    forall|j: int| 0 <= j < s.len() ==> #[trigger] s[j].0 != s[j].1
}

/// No two edges of `s` share source, target and kind.
pub open spec fn distinct_triples(s: Seq<EdgeView>) -> bool {
    forall|a: int, b: int| 0 <= a < b < s.len() ==>
        !(#[trigger] s[a].0 == #[trigger] s[b].0 && s[a].1 == s[b].1 && s[a].2 == s[b].2)
}

/// The emitted `use` edges form a simple graph: no edge joins a module to
/// itself, no two edges share source, target and kind, and every edge is the
/// one some pending use resolves to.
pub proof fn lemma_emitted_simple(
    p: Seq<PendingUse>,
    idx: IndexView,
    externs: Map<Seq<char>, String>,
    deps: Map<Seq<char>, String>,
    libs: Map<Seq<char>, ForeignLib>,
    rx: ReexportView,
    max: nat,
)
    ensures
        no_self_loops(spec_emitted(p, idx, externs, deps, libs, rx, max)),
        distinct_triples(spec_emitted(p, idx, externs, deps, libs, rx, max)),
        forall|j: int| 0 <= j < spec_emitted(p, idx, externs, deps, libs, rx, max).len() ==> exists|k: int|
            0 <= k < p.len() && spec_candidate(p[k], idx, externs, deps, libs, rx, max)
                == Some(#[trigger] spec_emitted(p, idx, externs, deps, libs, rx, max)[j]),
    decreases p.len(),
{
    if p.len() > 0 {
        let q = p.drop_last();
        lemma_emitted_simple(q, idx, externs, deps, libs, rx, max);
        let prev = spec_emitted(q, idx, externs, deps, libs, rx, max);
        let s = spec_emitted(p, idx, externs, deps, libs, rx, max);
        assert forall|j: int| 0 <= j < s.len() implies exists|k: int|
            0 <= k < p.len() && spec_candidate(p[k], idx, externs, deps, libs, rx, max) == Some(#[trigger] s[j]) by {
            if j < prev.len() {
                assert(s[j] == prev[j]);
                let k = choose|k: int| 0 <= k < q.len() && spec_candidate(q[k], idx, externs, deps, libs, rx, max) == Some(prev[j]);
                assert(q[k] == p[k]);
            } else {
                assert(spec_candidate(p[p.len() - 1], idx, externs, deps, libs, rx, max) == Some(s[j]));
            }
        }
        assert forall|a: int, b: int| 0 <= a < b < s.len() implies
            !(#[trigger] s[a].0 == #[trigger] s[b].0 && s[a].1 == s[b].1 && s[a].2 == s[b].2) by {
            if b >= prev.len() {
                assert(s[a] == prev[a]);
                if s[a].0 == s[b].0 && s[a].1 == s[b].1 && s[a].2 == s[b].2 {
                    assert(has_triple(prev, s[b].0, s[b].1, s[b].2));
                }
            } else {
                assert(s[a] == prev[a] && s[b] == prev[b]);
            }
        }
        assert forall|j: int| 0 <= j < s.len() implies #[trigger] s[j].0 != s[j].1 by {
            if j < prev.len() {
                assert(s[j] == prev[j]);
            }
        }
    }
}

/// The `(path, glob)` leaves a `use` tree names under `prefix`: one per name
/// or rename (the imported ident, not the alias), and one per `::*` naming its non-empty
/// prefix with the glob mark set.
pub open spec fn spec_use_leaves(t: UseTree, prefix: Seq<Seq<char>>) -> Seq<(Seq<Seq<char>>, bool)>
    decreases t,
{
    match t {
        UseTree::Path { ident, tree } => spec_use_leaves(*tree, prefix.push(ident@)),
        UseTree::Name { ident } => seq![(prefix.push(ident@), false)],
        UseTree::Rename { ident } => seq![(prefix.push(ident@), false)],
        UseTree::Glob => if prefix.len() > 0 { seq![(prefix, true)] } else { Seq::empty() },
        UseTree::Group { items } => spec_group_leaves(items@, prefix),
    }
}

/// The leaves named by each tree of a group, in order.
pub open spec fn spec_group_leaves(items: Seq<UseTree>, prefix: Seq<Seq<char>>) -> Seq<(Seq<Seq<char>>, bool)>
    decreases items,
{
    if items.len() == 0 {
        Seq::empty()
    } else {
        spec_use_leaves(items[0], prefix) + spec_group_leaves(items.drop_first(), prefix)
    }
}

/// The views of a run of `(path, glob)` leaves.
pub open spec fn leaves_view(s: Seq<(Vec<String>, bool)>) -> Seq<(Seq<Seq<char>>, bool)> {
    s.map_values(|p: (Vec<String>, bool)| (path_view(p.0@), p.1))
}

proof fn lemma_group_leaves_split(items: Seq<UseTree>, i: int, prefix: Seq<Seq<char>>)
    requires
        0 <= i < items.len(),
    ensures
        spec_group_leaves(items.take(i + 1), prefix)
            == spec_group_leaves(items.take(i), prefix) + spec_use_leaves(items[i], prefix),
    decreases i,
{
    if i == 0 {
        assert(items.take(1).drop_first() =~= Seq::<UseTree>::empty());
        assert(items.take(0) =~= Seq::<UseTree>::empty());
        assert(spec_group_leaves(Seq::<UseTree>::empty(), prefix) =~= Seq::<(Seq<Seq<char>>, bool)>::empty());
        assert(spec_group_leaves(items.take(1), prefix) =~= spec_use_leaves(items[0], prefix));
    } else {
        lemma_group_leaves_split(items.drop_first(), i - 1, prefix);
        assert(items.take(i + 1).drop_first() =~= items.drop_first().take(i));
        assert(items.take(i).drop_first() =~= items.drop_first().take(i - 1));
        assert(items.take(i + 1)[0] == items[0]);
        assert(items.take(i)[0] == items[0]);
    }
}

#[verifier::loop_isolation(false)]
/// Flattens `tree` into `out` as `(path, glob)` leaves, each path starting with
/// `prefix`; the glob mark tells a `::*` namespace pull from a named import.
pub fn collect_use_paths(tree: &UseTree, prefix: Vec<String>, out: &mut Vec<(Vec<String>, bool)>)
    ensures
        leaves_view(final(out)@) == leaves_view(old(out)@) + spec_use_leaves(*tree, path_view(prefix@)),
    decreases tree,
{
    match tree {
        UseTree::Path { ident, tree: sub } => {
            let mut new_prefix = prefix;
            let ghost pv = path_view(new_prefix@);
            new_prefix.push(ident.clone());
            assert(path_view(new_prefix@) =~= pv.push(ident@));
            collect_use_paths(sub, new_prefix, out);
        },
        UseTree::Name { ident } | UseTree::Rename { ident } => {
            let mut path = prefix;
            let ghost pv = path_view(path@);
            path.push(ident.clone());
            assert(path_view(path@) =~= pv.push(ident@));
            out.push((path, false));
            assert(leaves_view(out@) =~= leaves_view(old(out)@) + seq![(pv.push(ident@), false)]);
        },
        UseTree::Glob => {
            if prefix.len() > 0 {
                let ghost pv = path_view(prefix@);
                out.push((prefix, true));
                assert(leaves_view(out@) =~= leaves_view(old(out)@) + seq![(pv, true)]);
            } else {
                assert(leaves_view(out@) =~= leaves_view(old(out)@) + Seq::<(Seq<Seq<char>>, bool)>::empty());
            }
        },
        UseTree::Group { items } => {
            let ghost pv = path_view(prefix@);
            let mut i: usize = 0;
            while i < items.len()
                invariant
                    i <= items@.len(),
                    pv == path_view(prefix@),
                    leaves_view(out@) == leaves_view(old(out)@) + spec_group_leaves(items@.take(i as int), pv),
                decreases items.len() - i,
            {
                proof {
                    lemma_group_leaves_split(items@, i as int, pv);
                    let ghost iv = items@;
                    assert(decreases_to!(*tree => (*tree)->items));
                    assert(decreases_to!(*items => iv));
                    assert(decreases_to!(iv => iv[i as int]));
                    assert(decreases_to!(*tree => items@[i as int]));
                }
                collect_use_paths(&items[i], prefix.clone(), out);
                assert(leaves_view(out@) =~= leaves_view(old(out)@) + spec_group_leaves(items@.take(i + 1), pv));
                i = i + 1;
            }
            assert(items@.take(items@.len() as int) =~= items@);
        },
    }
}

proof fn lemma_walk_from_depth(idx: IndexView, path: Seq<Seq<char>>, tail: Seq<Seq<char>>)
    requires
        idx.contains_key(path),
    ensures
        spec_walk_from(idx, path, tail, idx[path]) == idx[path + tail.take(walk_depth(idx, path, tail) as int)],
    decreases tail.len(),
{
    if tail.len() > 0 {
        let next = path.push(tail[0]);
        if idx.contains_key(next) {
            lemma_walk_from_depth(idx, next, tail.drop_first());
            lemma_walk_depth(idx, next, tail.drop_first());
            let c = walk_depth(idx, next, tail.drop_first());
            assert(next + tail.drop_first().take(c as int) =~= path + tail.take(c as int + 1));
        } else {
            assert(path + tail.take(0) =~= path);
        }
    } else {
        assert(path + tail.take(0) =~= path);
    }
}

/// With re-export following switched off (a depth limit of 0), resolving
/// `base ++ tail` in the owning crate is the plain module-index walk.
pub proof fn lemma_in_index_without_following(
    base: Seq<Seq<char>>,
    tail: Seq<Seq<char>>,
    idx: IndexView,
    externs: Map<Seq<char>, String>,
    deps: Map<Seq<char>, String>,
    libs: Map<Seq<char>, ForeignLib>,
    rx: ReexportView,
    depth: nat,
)
    ensures
        spec_resolve_in_index(base, tail, idx, externs, deps, libs, rx, depth, 0) == spec_walk_module_index(base, tail, idx),
{
    if idx.contains_key(base) {
        lemma_walk_from_depth(idx, base, tail);
    }
}

/// With re-export following switched off, walking a foreign library is the
/// plain module-index walk of that library.
pub proof fn lemma_foreign_without_following(
    base: Seq<Seq<char>>,
    tail: Seq<Seq<char>>,
    idx: IndexView,
    rx: ReexportView,
    depth: nat,
)
    ensures
        spec_walk_foreign(base, tail, idx, rx, depth, 0) == spec_walk_module_index(base, tail, idx),
{
    if idx.contains_key(base) {
        lemma_walk_from_depth(idx, base, tail);
    }
}

/// With re-export following switched off (a depth limit of 0), `use`
/// resolution names exactly the node the plain resolver names, given the same
/// module index, dependency maps and library module indexes.
pub proof fn lemma_resolve_without_following(
    use_path: Seq<Seq<char>>,
    current: Seq<Seq<char>>,
    idx: IndexView,
    externs: Map<Seq<char>, String>,
    deps: Map<Seq<char>, String>,
    libs: Map<Seq<char>, ForeignLib>,
    plain_libs: Map<Seq<char>, ModuleIndex>,
    rx: ReexportView,
    depth: nat,
)
    requires
        forall|k: Seq<char>| #[trigger] libs.contains_key(k) == plain_libs.contains_key(k),
        forall|k: Seq<char>| #[trigger] libs.contains_key(k) ==> libs[k].index@ == plain_libs[k]@,
    ensures
        spec_resolve_use_path(use_path, current, idx, externs, deps, libs, rx, depth, 0)
            == crate::use_graph::spec_resolve_use_path(use_path, current, idx, externs, deps, plain_libs),
{
    if use_path.len() > 0 {
        let first = use_path[0];
        let rest = use_path.drop_first();
        if first == "crate"@ {
            lemma_in_index_without_following(Seq::empty(), rest, idx, externs, deps, libs, rx, depth);
        } else if first == "self"@ {
            lemma_in_index_without_following(current, rest, idx, externs, deps, libs, rx, depth);
        } else if first == "super"@ {
            let k = leading_supers(rest);
            if current.len() >= k + 1 {
                lemma_in_index_without_following(
                    current.take(current.len() - k - 1),
                    rest.skip(k as int),
                    idx,
                    externs,
                    deps,
                    libs,
                    rx,
                    depth,
                );
            }
        } else if is_std_root(first) {
        } else if idx.contains_key(current.push(first)) {
            lemma_in_index_without_following(current, use_path, idx, externs, deps, libs, rx, depth);
        } else if deps.contains_key(first) && libs.contains_key(deps[first]@) {
            let lib = libs[deps[first]@];
            lemma_foreign_without_following(Seq::empty(), rest, lib.index@, lib.reexports@, 0);
        }
    }
}

/// `v[from..]` as a new vector.
fn tail_from(v: &Vec<String>, from: usize) -> (r: Vec<String>)
    requires
        from <= v.len(),
    ensures
        path_view(r@) == path_view(v@).skip(from as int),
{
    let mut out: Vec<String> = Vec::new();
    let mut i = from;
    while i < v.len()
        invariant
            from <= i <= v.len(),
            path_view(out@) == path_view(v@).subrange(from as int, i as int),
        decreases v.len() - i,
    {
        let ghost before = path_view(out@);
        out.push(v[i].clone());
        assert(path_view(out@) =~= before.push(v@[i as int]@));
        assert(path_view(v@).subrange(from as int, i + 1) =~= path_view(v@).subrange(from as int, i as int).push(v@[i as int]@));
        i = i + 1;
    }
    assert(path_view(v@).subrange(from as int, v.len() as int) =~= path_view(v@).skip(from as int));
    out
}

/// For a path starting with `super`: the ancestor of `current_path` that its
/// leading `super`s climb to, and the index of the first segment after them;
/// `None` when they climb above the root.
fn super_base(use_path: &Vec<String>, current_path: &Vec<String>) -> (r: Option<(Vec<String>, usize)>)
    requires
        use_path@.len() > 0,
        use_path@[0]@ == "super"@,
    ensures
        ({
            let up = path_view(use_path@);
            let cur = path_view(current_path@);
            let k = leading_supers(up.drop_first());
            match r {
                None => cur.len() < k + 1,
                Some(p) => cur.len() >= k + 1 && p.1 == k + 1 && p.1 <= use_path@.len()
                    && path_view(p.0@) == cur.take(cur.len() - k - 1),
            }
        }),
{
    let ghost up = path_view(use_path@);
    let ghost cur = path_view(current_path@);
    let mut path = current_path.clone();
    let mut t: usize = 1;
    while t < use_path.len() && str_eq(use_path[t].as_str(), "super")
        invariant
            1 <= t <= use_path.len(),
            up == path_view(use_path@),
            cur == path_view(current_path@),
            up.len() > 0,
            forall|q: int| 1 <= q < t ==> up[q] == "super"@,
            t - 1 <= cur.len(),
            path_view(path@) == cur.take(cur.len() - (t - 1)),
        decreases use_path.len() - t,
    {
        assert(up[t as int] == use_path@[t as int]@);
        if path.len() == 0 {
            proof {
                assert(up.drop_first()[t - 1] == up[t as int]);
                lemma_leading_supers_step(up.drop_first(), t - 1);
                assert(path_view(path@).len() == path@.len());
            }
            return None;
        }
        let ghost old_pv = path_view(path@);
        path.pop();
        assert(path_view(path@) =~= old_pv.drop_last());
        assert(path_view(path@) =~= cur.take(cur.len() - t));
        t = t + 1;
    }
    proof {
        lemma_leading_supers_stop(up.drop_first(), t - 1);
    }
    if path.len() == 0 {
        return None;
    }
    path.pop();
    assert(path_view(path@) =~= cur.take(cur.len() - t));
    Some((path, t))
}

/// Inside a foreign library, a re-export source whose first segment is a child
/// module of the re-exporting module (2018-style `pub use node::Node;`) names
/// exactly what the same path written with a leading `self::` names.
pub proof fn lemma_foreign_child_source_is_self_relative(
    use_path: Seq<Seq<char>>,
    current: Seq<Seq<char>>,
    idx: IndexView,
    rx: ReexportView,
    depth: nat,
    max: nat,
)
    requires
        use_path.len() > 0,
        use_path[0] != "crate"@,
        use_path[0] != "self"@,
        use_path[0] != "super"@,
        !is_std_root(use_path[0]),
        idx.contains_key(current.push(use_path[0])),
    ensures
        spec_resolve_foreign_source(use_path, current, idx, rx, depth, max) == spec_resolve_foreign_source(
            seq!["self"@] + use_path,
            current,
            idx,
            rx,
            depth,
            max,
        ),
{
    reveal_strlit("self");
    reveal_strlit("crate");
    let p = seq!["self"@] + use_path;
    assert(p[0] == "self"@);
    assert(p[0] != "crate"@);
    assert(p.drop_first() =~= use_path);
}

/// In the owning crate, a `use` path whose first segment is a child module of
/// the current module (2018-style `use node::Node;`) names exactly what the
/// same path written with a leading `self::` names.
pub proof fn lemma_child_path_is_self_relative(
    use_path: Seq<Seq<char>>,
    current: Seq<Seq<char>>,
    idx: IndexView,
    externs: Map<Seq<char>, String>,
    deps: Map<Seq<char>, String>,
    libs: Map<Seq<char>, ForeignLib>,
    plain_libs: Map<Seq<char>, ModuleIndex>,
    rx: ReexportView,
    depth: nat,
    max: nat,
)
    requires
        use_path.len() > 0,
        use_path[0] != "crate"@,
        use_path[0] != "self"@,
        use_path[0] != "super"@,
        !is_std_root(use_path[0]),
        idx.contains_key(current.push(use_path[0])),
    ensures
        spec_resolve_use_path(use_path, current, idx, externs, deps, libs, rx, depth, max) == spec_resolve_use_path(
            seq!["self"@] + use_path,
            current,
            idx,
            externs,
            deps,
            libs,
            rx,
            depth,
            max,
        ),
        crate::use_graph::spec_resolve_use_path(use_path, current, idx, externs, deps, plain_libs)
            == crate::use_graph::spec_resolve_use_path(
            seq!["self"@] + use_path,
            current,
            idx,
            externs,
            deps,
            plain_libs,
        ),
{
    reveal_strlit("self");
    reveal_strlit("crate");
    let p = seq!["self"@] + use_path;
    assert(p[0] == "self"@);
    assert(p[0] != "crate"@);
    assert(p.drop_first() =~= use_path);
}

proof fn lemma_leading_supers_le(p: Seq<Seq<char>>)
    ensures
        leading_supers(p) <= p.len(),
    decreases p.len(),
{
    if p.len() > 0 {
        lemma_leading_supers_le(p.drop_first());
    }
}

proof fn lemma_std_root_not_keyword(x: Seq<char>)
    requires
        is_std_root(x),
    ensures
        x != "crate"@ && x != "self"@ && x != "super"@,
{
    reveal_strlit("self");
    reveal_strlit("crate");
    reveal_strlit("super");
    reveal_strlit("std");
    reveal_strlit("core");
    reveal_strlit("alloc");
    reveal_strlit("proc_macro");
    reveal_strlit("test");
    let (c, sf, su) = ("crate"@, "self"@, "super"@);
    assert(c.len() == 5 && sf.len() == 4 && su.len() == 5);
    assert(c[0] == 'c' && sf[0] == 's' && su[0] == 's' && c[1] == 'r');
    if x == "std"@ {
        assert(x.len() == 3);
    } else if x == "core"@ {
        assert(x.len() == 4 && x[0] == 'c');
    } else if x == "alloc"@ {
        assert(x.len() == 5 && x[0] == 'a');
    } else if x == "proc_macro"@ {
        assert(x.len() == 10);
    } else {
        assert(x.len() == 4 && x[0] == 't');
    }
}

proof fn lemma_supers_prefix(p: Seq<Seq<char>>)
    ensures
        leading_supers(seq!["super"@] + p) == 1 + leading_supers(p),
        (seq!["super"@] + p).drop_first() =~= p,
{
    assert((seq!["super"@] + p).drop_first() =~= p);
}

/// The prefixes of a re-export source inside a foreign library relate as in
/// Rust: `crate::p` names what `self::p` names at the library root, `super::p`
/// what `self::p` names one module up, `super::super::p` what `super::p` names
/// one module up, and a path into the standard distribution names nothing.
pub proof fn lemma_foreign_source_prefixes(
    p: Seq<Seq<char>>,
    current: Seq<Seq<char>>,
    idx: IndexView,
    rx: ReexportView,
    depth: nat,
    max: nat,
)
    ensures
        spec_resolve_foreign_source(seq!["crate"@] + p, current, idx, rx, depth, max) == spec_resolve_foreign_source(
            seq!["self"@] + p,
            Seq::empty(),
            idx,
            rx,
            depth,
            max,
        ),
        current.len() > 0 && (p.len() == 0 || p[0] != "super"@) ==> spec_resolve_foreign_source(
            seq!["super"@] + p,
            current,
            idx,
            rx,
            depth,
            max,
        ) == spec_resolve_foreign_source(seq!["self"@] + p, current.drop_last(), idx, rx, depth, max),
        current.len() > 0 ==> spec_resolve_foreign_source(
            seq!["super"@, "super"@] + p,
            current,
            idx,
            rx,
            depth,
            max,
        ) == spec_resolve_foreign_source(seq!["super"@] + p, current.drop_last(), idx, rx, depth, max),
        current.len() == 0 ==> spec_resolve_foreign_source(seq!["super"@] + p, current, idx, rx, depth, max) is None,
        p.len() > 0 && is_std_root(p[0]) ==> spec_resolve_foreign_source(p, current, idx, rx, depth, max) is None,
{
    reveal_strlit("self");
    reveal_strlit("crate");
    reveal_strlit("super");
    reveal_strlit("std");
    reveal_strlit("core");
    reveal_strlit("alloc");
    reveal_strlit("proc_macro");
    reveal_strlit("test");
    assert("self"@.len() != "crate"@.len() && "self"@.len() != "super"@.len());
    assert("super"@[0] != "crate"@[0]);
    let c = seq!["crate"@] + p;
    let sf = seq!["self"@] + p;
    let sp = seq!["super"@] + p;
    let ssp = seq!["super"@] + sp;
    assert(c[0] == "crate"@ && c.drop_first() =~= p);
    assert(sf[0] == "self"@ && sf.drop_first() =~= p);
    assert(sp[0] == "super"@);
    assert(sf[0] != "crate"@);
    assert(sp[0] != "crate"@ && sp[0] != "self"@);
    assert(seq!["super"@, "super"@] + p =~= ssp);
    lemma_supers_prefix(p);
    lemma_supers_prefix(sp);
    if current.len() > 0 && (p.len() == 0 || p[0] != "super"@) {
        assert(leading_supers(p) == 0);
        assert(p.skip(0) =~= p);
        assert(current.take(current.len() - 0 - 1) =~= current.drop_last());
    }
    if p.len() > 0 && is_std_root(p[0]) {
        lemma_std_root_not_keyword(p[0]);
    }
    lemma_leading_supers_le(p);
    if current.len() > 0 {
        let k = leading_supers(p) as int;
        assert(sp.skip(1 + k) =~= p.skip(k));
        if current.len() >= k + 2 {
            assert(current.take(current.len() - (1 + k) - 1) =~= current.drop_last().take(current.drop_last().len() - k - 1));
        }
    }
}

/// The same prefix laws for a `use` path of the owning crate.
pub proof fn lemma_use_path_prefixes(
    p: Seq<Seq<char>>,
    current: Seq<Seq<char>>,
    idx: IndexView,
    externs: Map<Seq<char>, String>,
    deps: Map<Seq<char>, String>,
    libs: Map<Seq<char>, ForeignLib>,
    rx: ReexportView,
    depth: nat,
    max: nat,
)
    ensures
        spec_resolve_use_path(seq!["crate"@] + p, current, idx, externs, deps, libs, rx, depth, max)
            == spec_resolve_use_path(seq!["self"@] + p, Seq::empty(), idx, externs, deps, libs, rx, depth, max),
        current.len() > 0 && (p.len() == 0 || p[0] != "super"@) ==> spec_resolve_use_path(
            seq!["super"@] + p,
            current,
            idx,
            externs,
            deps,
            libs,
            rx,
            depth,
            max,
        ) == spec_resolve_use_path(seq!["self"@] + p, current.drop_last(), idx, externs, deps, libs, rx, depth, max),
        current.len() > 0 ==> spec_resolve_use_path(
            seq!["super"@, "super"@] + p,
            current,
            idx,
            externs,
            deps,
            libs,
            rx,
            depth,
            max,
        ) == spec_resolve_use_path(seq!["super"@] + p, current.drop_last(), idx, externs, deps, libs, rx, depth, max),
        current.len() == 0 ==> spec_resolve_use_path(seq!["super"@] + p, current, idx, externs, deps, libs, rx, depth, max)
            is None,
        p.len() > 0 && is_std_root(p[0]) ==> spec_resolve_use_path(p, current, idx, externs, deps, libs, rx, depth, max)
            is None,
{
    reveal_strlit("self");
    reveal_strlit("crate");
    reveal_strlit("super");
    reveal_strlit("std");
    reveal_strlit("core");
    reveal_strlit("alloc");
    reveal_strlit("proc_macro");
    reveal_strlit("test");
    assert("self"@.len() != "crate"@.len() && "self"@.len() != "super"@.len());
    assert("super"@[0] != "crate"@[0]);
    let c = seq!["crate"@] + p;
    let sf = seq!["self"@] + p;
    let sp = seq!["super"@] + p;
    let ssp = seq!["super"@] + sp;
    assert(c[0] == "crate"@ && c.drop_first() =~= p);
    assert(sf[0] == "self"@ && sf.drop_first() =~= p);
    assert(sp[0] == "super"@);
    assert(sf[0] != "crate"@);
    assert(sp[0] != "crate"@ && sp[0] != "self"@);
    assert(seq!["super"@, "super"@] + p =~= ssp);
    lemma_supers_prefix(p);
    lemma_supers_prefix(sp);
    if current.len() > 0 && (p.len() == 0 || p[0] != "super"@) {
        assert(leading_supers(p) == 0);
        assert(p.skip(0) =~= p);
        assert(current.take(current.len() - 0 - 1) =~= current.drop_last());
    }
    if p.len() > 0 && is_std_root(p[0]) {
        lemma_std_root_not_keyword(p[0]);
    }
    lemma_leading_supers_le(p);
    if current.len() > 0 {
        let k = leading_supers(p) as int;
        assert(sp.skip(1 + k) =~= p.skip(k));
        if current.len() >= k + 2 {
            assert(current.take(current.len() - (1 + k) - 1) =~= current.drop_last().take(current.drop_last().len() - k - 1));
        }
    }
}

/// The same prefix laws for the plain resolver (no re-export following).
pub proof fn lemma_plain_use_path_prefixes(
    p: Seq<Seq<char>>,
    current: Seq<Seq<char>>,
    idx: IndexView,
    externs: Map<Seq<char>, String>,
    deps: Map<Seq<char>, String>,
    libs: Map<Seq<char>, ModuleIndex>,
)
    ensures
        crate::use_graph::spec_resolve_use_path(seq!["crate"@] + p, current, idx, externs, deps, libs)
            == crate::use_graph::spec_resolve_use_path(seq!["self"@] + p, Seq::empty(), idx, externs, deps, libs),
        current.len() > 0 && (p.len() == 0 || p[0] != "super"@) ==> crate::use_graph::spec_resolve_use_path(
            seq!["super"@] + p,
            current,
            idx,
            externs,
            deps,
            libs,
        ) == crate::use_graph::spec_resolve_use_path(seq!["self"@] + p, current.drop_last(), idx, externs, deps, libs),
        current.len() > 0 ==> crate::use_graph::spec_resolve_use_path(
            seq!["super"@, "super"@] + p,
            current,
            idx,
            externs,
            deps,
            libs,
        ) == crate::use_graph::spec_resolve_use_path(seq!["super"@] + p, current.drop_last(), idx, externs, deps, libs),
        current.len() == 0 ==> crate::use_graph::spec_resolve_use_path(seq!["super"@] + p, current, idx, externs, deps, libs)
            is None,
        p.len() > 0 && is_std_root(p[0]) ==> crate::use_graph::spec_resolve_use_path(p, current, idx, externs, deps, libs)
            is None,
{
    reveal_strlit("self");
    reveal_strlit("crate");
    reveal_strlit("super");
    reveal_strlit("std");
    reveal_strlit("core");
    reveal_strlit("alloc");
    reveal_strlit("proc_macro");
    reveal_strlit("test");
    assert("self"@.len() != "crate"@.len() && "self"@.len() != "super"@.len());
    assert("super"@[0] != "crate"@[0]);
    let c = seq!["crate"@] + p;
    let sf = seq!["self"@] + p;
    let sp = seq!["super"@] + p;
    let ssp = seq!["super"@] + sp;
    assert(c[0] == "crate"@ && c.drop_first() =~= p);
    assert(sf[0] == "self"@ && sf.drop_first() =~= p);
    assert(sp[0] == "super"@);
    assert(sf[0] != "crate"@);
    assert(sp[0] != "crate"@ && sp[0] != "self"@);
    assert(seq!["super"@, "super"@] + p =~= ssp);
    lemma_supers_prefix(p);
    lemma_supers_prefix(sp);
    if current.len() > 0 && (p.len() == 0 || p[0] != "super"@) {
        assert(leading_supers(p) == 0);
        assert(p.skip(0) =~= p);
        assert(current.take(current.len() - 0 - 1) =~= current.drop_last());
    }
    if p.len() > 0 && is_std_root(p[0]) {
        lemma_std_root_not_keyword(p[0]);
    }
    lemma_leading_supers_le(p);
    if current.len() > 0 {
        let k = leading_supers(p) as int;
        assert(sp.skip(1 + k) =~= p.skip(k));
        if current.len() >= k + 2 {
            assert(current.take(current.len() - (1 + k) - 1) =~= current.drop_last().take(current.drop_last().len() - k - 1));
        }
    }
}

} // verus!
