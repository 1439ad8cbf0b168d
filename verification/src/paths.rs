//! File-system path operations the analysis relies on, and the lookups built
//! on them: which file backs a `mod <name>;` declaration, and whether a project
//! marker file is present.

use vstd::prelude::*;
use crate::strs::{owned, str_eq};

verus! {

/// The parent of path `p` as `std::path::Path::parent` computes it.
pub uninterp spec fn spec_path_parent(p: Seq<char>) -> Option<Seq<char>>;

/// The file stem of path `p` as `std::path::Path::file_stem` computes it.
pub uninterp spec fn spec_path_file_stem(p: Seq<char>) -> Option<Seq<char>>;

/// The final component of path `p` as `std::path::Path::file_name` computes it.
pub uninterp spec fn spec_path_file_name(p: Seq<char>) -> Option<Seq<char>>;

/// Path `a` joined with `b` as `std::path::Path::join` computes it.
pub uninterp spec fn spec_path_join(a: Seq<char>, b: Seq<char>) -> Seq<char>;

/// `std::path::Path::parent`: the path without its final component (`None` for
/// a root or an empty path). The result is a function of `p` alone.
#[verifier::external_body]
pub(crate) fn path_parent(p: &str) -> (r: Option<String>)
    ensures
        crate::strs::opt_view(r) == spec_path_parent(p@),
{
    match std::path::Path::new(p).parent() {
        Some(d) => Some(d.to_string_lossy().into_owned()),
        None => None,
    }
}

/// `std::path::Path::file_stem`: the final component without its extension.
/// A `&str` path is valid UTF-8, so the stem always converts to a string.
#[verifier::external_body]
pub(crate) fn path_file_stem(p: &str) -> (r: Option<String>)
    ensures
        crate::strs::opt_view(r) == spec_path_file_stem(p@),
{
    match std::path::Path::new(p).file_stem() {
        Some(s) => Some(s.to_string_lossy().into_owned()),
        None => None,
    }
}

/// `std::path::Path::file_name`: the final component of a path (`None` when
/// it ends in `..` or is a root). The result is a function of `p` alone.
#[verifier::external_body]
pub(crate) fn path_file_name(p: &str) -> (r: Option<String>)
    ensures
        crate::strs::opt_view(r) == spec_path_file_name(p@),
{
    match std::path::Path::new(p).file_name() {
        Some(s) => Some(s.to_string_lossy().into_owned()),
        None => None,
    }
}

/// `std::path::Path::join`: `b` appended to `a` as a further component (or `b`
/// itself when absolute). The result is a function of `a` and `b` alone.
#[verifier::external_body]
pub(crate) fn path_join(a: &str, b: &str) -> (r: String)
    ensures
        r@ == spec_path_join(a@, b@),
{
    std::path::Path::new(a).join(b).to_string_lossy().into_owned()
}

/// `std::path::Path::exists`: whether the file system holds an entry at `p`.
/// The answer depends on the disk at the time of the call, so nothing is stated
/// of it.
#[verifier::external_body]
pub(crate) fn path_exists(p: &str) -> bool {
    std::path::Path::new(p).exists()
}

/// The path of `p` relative to `base` as `std::path::Path::strip_prefix`
/// computes it (`None` when `base` is not a prefix of `p`).
pub uninterp spec fn spec_path_strip_prefix(p: Seq<char>, base: Seq<char>) -> Option<Seq<char>>;

/// The components of path `p`, each as a string, as
/// `std::path::Path::components` yields them.
pub uninterp spec fn spec_path_components(p: Seq<char>) -> Seq<Seq<char>>;

/// `std::path::Path::strip_prefix`: `p` relative to `base`, or `None` when `base`
/// is not a component-wise prefix of `p`. A function of `p` and `base` alone.
#[verifier::external_body]
pub(crate) fn path_strip_prefix(p: &str, base: &str) -> (r: Option<String>)
    ensures
        crate::strs::opt_view(r) == spec_path_strip_prefix(p@, base@),
{
    match std::path::Path::new(p).strip_prefix(base) {
        Ok(rel) => Some(rel.to_string_lossy().into_owned()),
        Err(_) => None,
    }
}

/// `std::path::Path::components`: the components of `p`, each as a string. A
/// function of `p` alone.
#[verifier::external_body]
pub(crate) fn path_components(p: &str) -> (r: Vec<String>)
    ensures
        crate::maps::path_view(r@) == spec_path_components(p@),
{
    let mut out = Vec::new();
    for c in std::path::Path::new(p).components() {
        out.push(c.as_os_str().to_string_lossy().into_owned());
    }
    out
}

/// A file stem whose submodules live beside it (`lib.rs`, `main.rs`, `mod.rs`).
pub open spec fn is_module_root(stem: Seq<char>) -> bool {
    stem == "lib"@ || stem == "main"@ || stem == "mod"@
}

/// The two files that may back `mod <name>;` declared in `parent_file`:
/// `<dir>/<name>.rs` and `<dir>/<name>/mod.rs`, where `<dir>` is the parent
/// file's directory for a module root and `<parent dir>/<stem>` otherwise.
pub open spec fn spec_submodule_candidates(parent_file: Seq<char>, mod_name: Seq<char>) -> Option<(Seq<char>, Seq<char>)> {
    match (spec_path_parent(parent_file), spec_path_file_stem(parent_file)) {
        (Some(dir), Some(stem)) => {
            let search = if is_module_root(stem) { dir } else { spec_path_join(dir, stem) };
            Some((
                spec_path_join(search, mod_name + ".rs"@),
                spec_path_join(spec_path_join(search, mod_name), "mod.rs"@),
            ))
        },
        _ => None,
    }
}

/// The file chosen for `mod <name>;` given which of its two candidates exist:
/// `<name>.rs` is preferred over `<name>/mod.rs`; neither gives `None`.
pub open spec fn spec_pick_submodule_file(a: Seq<char>, a_exists: bool, b: Seq<char>, b_exists: bool) -> Option<Seq<char>> {
    if a_exists {
        Some(a)
    } else if b_exists {
        Some(b)
    } else {
        None
    }
}

/// Chooses the file backing `mod <name>;` from the probe results of its two
/// candidates (see `spec_pick_submodule_file`).
pub fn pick_submodule_file(a: String, a_exists: bool, b: String, b_exists: bool) -> (r: Option<String>)
    ensures
        r == (if a_exists { Some(a) } else if b_exists { Some(b) } else { None::<String> }),
        crate::strs::opt_view(r) == spec_pick_submodule_file(a@, a_exists, b@, b_exists),
{
    if a_exists {
        Some(a)
    } else if b_exists {
        Some(b)
    } else {
        None
    }
}

/// The file backing `mod <mod_name>;` declared in `parent_file`: the first of
/// its two candidate files that exists, or `None`. Which candidates exist is
/// read from the disk (the second is probed only when the first is absent);
/// whatever the disk answers, the choice is `spec_pick_submodule_file`.
pub fn resolve_submodule_path(parent_file: &str, mod_name: &str) -> (r: Option<String>)
    ensures
        match spec_submodule_candidates(parent_file@, mod_name@) {
            None => r is None,
            Some((a, b)) => r is None || r.unwrap()@ == a || r.unwrap()@ == b,
        },
{
    let parent_dir = match path_parent(parent_file) {
        Some(d) => d,
        None => return None,
    };
    let stem = match path_file_stem(parent_file) {
        Some(s) => s,
        None => return None,
    };
    let search_dir = if str_eq(stem.as_str(), "lib") || str_eq(stem.as_str(), "main") || str_eq(stem.as_str(), "mod") {
        parent_dir
    } else {
        path_join(parent_dir.as_str(), stem.as_str())
    };
    let mut file_a = owned(mod_name);
    file_a.append(".rs");
    let candidate_a = path_join(search_dir.as_str(), file_a.as_str());
    let dir_b = path_join(search_dir.as_str(), mod_name);
    let candidate_b = path_join(dir_b.as_str(), "mod.rs");
    let a_exists = path_exists(candidate_a.as_str());
    let b_exists = if a_exists { false } else { path_exists(candidate_b.as_str()) };
    assert(spec_submodule_candidates(parent_file@, mod_name@) == Some((candidate_a@, candidate_b@)));
    let ghost ca = candidate_a@;
    let ghost cb = candidate_b@;
    let r = pick_submodule_file(candidate_a, a_exists, candidate_b, b_exists);
    assert(crate::strs::opt_view(r) == spec_pick_submodule_file(ca, a_exists, cb, b_exists));
    r
}

/// Whether `workspace` holds the marker file `marker` (e.g. `package.json`).
/// The answer is read from the disk, so nothing is stated of it; the file that
/// is probed is `spec_path_join(workspace, marker)`.
pub fn detect_with_marker(workspace: &str, marker: &str) -> bool {
    let p = path_join(workspace, marker);
    path_exists(p.as_str())
}

} // verus!
