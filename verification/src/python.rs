//! Python import graph: the file → dotted-module mapping, the workspace module
//! index, resolution of one import record to project files, the test-path
//! conventions, and the visibility heuristic.

use vstd::prelude::*;
use crate::maps::{join_chars, path_view, spec_join, NameMap};
use crate::strs::{
    chars_ends_with, chars_eq, chars_of, chars_starts_with, is_prefix, is_suffix, push_all, spec_split,
    split_chars, string_of,
};

verus! {

/// The package-init file name: `pkg/__init__.py` is module `pkg`.
pub open spec fn package_init_file() -> Seq<char> {
    "__init__.py"@
}

/// The source extension a module file carries.
pub open spec fn source_dot_ext() -> Seq<char> {
    ".py"@
}

/// The number of leading `c` characters of `s`.
pub open spec fn leading_count(s: Seq<char>, c: char) -> nat
    decreases s.len(),
{
    if s.len() > 0 && s[0] == c {
        1 + leading_count(s.drop_first(), c)
    } else {
        0
    }
}

/// The absolute dotted module a possibly-relative import base names from
/// module `current`: `.` is `current`'s package, each further dot one package
/// up, and what follows the dots is appended.
pub open spec fn spec_absolute_base(base: Seq<char>, current: Seq<char>) -> Seq<char> {
    if !(base.len() > 0 && base[0] == '.') {
        base
    } else {
        let dots = leading_count(base, '.');
        let suffix = base.skip(dots as int);
        let parts = spec_split(current, '.');
        let keep: int = if parts.len() >= dots { parts.len() - dots } else { 0 };
        let pkg = spec_join(parts.take(keep), "."@);
        if suffix.len() == 0 {
            pkg
        } else if pkg.len() == 0 {
            suffix
        } else {
            pkg + "."@ + suffix
        }
    }
}

proof fn lemma_leading_count_bound(s: Seq<char>, c: char)
    ensures
        leading_count(s, c) <= s.len(),
    decreases s.len(),
{
    if s.len() > 0 && s[0] == c {
        lemma_leading_count_bound(s.drop_first(), c);
    }
}

proof fn lemma_leading_count_at(s: Seq<char>, c: char, j: int)
    requires
        0 <= j <= s.len(),
        forall|q: int| 0 <= q < j ==> s[q] == c,
        j == s.len() || s[j] != c,
    ensures
        leading_count(s, c) == j,
    decreases j,
{
    if j > 0 {
        lemma_leading_count_at(s.drop_first(), c, j - 1);
    }
}

/// Turns a possibly-relative import base (`.`, `.utils`, `..shops`) into an
/// absolute dotted module path, anchored at module `current_mod`.
pub fn absolute_base(base: &str, current_mod: &str) -> (r: String)
    ensures
        r@ == spec_absolute_base(base@, current_mod@),
{
    let b = chars_of(base);
    if !(b.len() > 0 && b[0] == '.') {
        return string_of(&b);
    }
    let mut dots: usize = 0;
    while dots < b.len() && b[dots] == '.'
        invariant
            dots <= b@.len(),
            forall|q: int| 0 <= q < dots ==> b@[q] == '.',
        decreases b.len() - dots,
    {
        dots = dots + 1;
    }
    proof {
        lemma_leading_count_at(b@, '.', dots as int);
    }
    let suffix = crate::strs::slice_chars(&b, dots, b.len());
    assert(suffix@ =~= b@.skip(dots as int));
    let cur = chars_of(current_mod);
    let parts = split_chars(&cur, '.');
    let keep: usize = if parts.len() >= dots { parts.len() - dots } else { 0 };
    let dot = chars_of(".");
    let pkg = join_chars(&parts, 0, keep, &dot);
    assert(parts@.map_values(|v: Vec<char>| v@).subrange(0, keep as int) =~= spec_split(cur@, '.').take(keep as int));
    if suffix.len() == 0 {
        string_of(&pkg)
    } else if pkg.len() == 0 {
        string_of(&suffix)
    } else {
        let mut out = pkg;
        push_all(&mut out, &dot);
        push_all(&mut out, &suffix);
        string_of(&out)
    }
}

/// The dotted module a workspace-relative file path (as components) denotes:
/// `pkg/mod.py` is `pkg.mod`, `pkg/__init__.py` is `pkg`; a non-source file, or
/// a path that leaves no component, denotes none.
pub open spec fn spec_module_of_components(parts: Seq<Seq<char>>) -> Option<Seq<char>> {
    if parts.len() == 0 {
        None
    } else {
        let last = parts.last();
        let named: Option<Seq<Seq<char>>> = if last == package_init_file() {
            Some(parts.drop_last())
        } else if is_suffix(source_dot_ext(), last) {
            Some(parts.drop_last().push(last.subrange(0, last.len() - source_dot_ext().len())))
        } else {
            None
        };
        match named {
            None => None,
            Some(ps) => if ps.len() == 0 { None } else { Some(spec_join(ps, "."@)) },
        }
    }
}

/// The dotted module of file `path` under `workspace`, if it is a source file
/// inside the workspace.
pub open spec fn spec_file_to_module_path(workspace: Seq<char>, path: Seq<char>) -> Option<Seq<char>> {
    match crate::paths::spec_path_strip_prefix(path, workspace) {
        None => None,
        Some(rel) => spec_module_of_components(crate::paths::spec_path_components(rel)),
    }
}

/// Maps a file under `workspace` to its dotted module path:
/// `parser/shops/amazon/pdp.py` is `parser.shops.amazon.pdp`,
/// `parser/shops/amazon/__init__.py` is `parser.shops.amazon`.
pub fn file_to_module_path(workspace: &str, path: &str) -> (r: Option<String>)
    ensures
        crate::strs::opt_view(r) == spec_file_to_module_path(workspace@, path@),
{
    let rel = match crate::paths::path_strip_prefix(path, workspace) {
        Some(rel) => rel,
        None => return None,
    };
    let comps = crate::paths::path_components(rel.as_str());
    let mut parts: Vec<Vec<char>> = Vec::new();
    let mut i: usize = 0;
    while i < comps.len()
        invariant
            i <= comps@.len(),
            parts@.map_values(|v: Vec<char>| v@) == path_view(comps@).take(i as int),
        decreases comps.len() - i,
    {
        let ghost before = parts@.map_values(|v: Vec<char>| v@);
        let cv = chars_of(comps[i].as_str());
        assert(cv@ == path_view(comps@)[i as int]);
        parts.push(cv);
        assert(parts@.map_values(|v: Vec<char>| v@) =~= before.push(cv@));
        assert(parts@.map_values(|v: Vec<char>| v@) =~= path_view(comps@).take(i + 1));
        i = i + 1;
    }
    let ghost pv = path_view(comps@);
    assert(parts@.map_values(|v: Vec<char>| v@) =~= pv);
    if parts.len() == 0 {
        return None;
    }
    let n = parts.len();
    let last = parts.pop().unwrap();
    assert(last@ == pv.last());
    assert(parts@.map_values(|v: Vec<char>| v@) =~= pv.drop_last());
    let init = chars_of("__init__.py");
    let ext = chars_of(".py");
    if chars_eq(&last, &init) {
    } else if chars_ends_with(&last, &ext) {
        let stem = crate::strs::slice_chars(&last, 0, last.len() - ext.len());
        let ghost before = parts@.map_values(|v: Vec<char>| v@);
        parts.push(stem);
        assert(parts@.map_values(|v: Vec<char>| v@) =~= before.push(stem@));
    } else {
        return None;
    }
    if parts.len() == 0 {
        return None;
    }
    let dot = chars_of(".");
    let joined = join_chars(&parts, 0, parts.len(), &dot);
    assert(parts@.map_values(|v: Vec<char>| v@).subrange(0, parts@.len() as int) =~= parts@.map_values(|v: Vec<char>| v@));
    Some(string_of(&joined))
}

/// The module index a run of files builds: each file's dotted module maps to
/// the file, a later file replacing an earlier one of the same module.
pub open spec fn spec_module_index(workspace: Seq<char>, files: Seq<String>) -> Map<Seq<char>, Seq<char>>
    decreases files.len(),
{
    if files.len() == 0 {
        Map::empty()
    } else {
        let prev = spec_module_index(workspace, files.drop_last());
        match spec_file_to_module_path(workspace, files.last()@) {
            Some(m) => prev.insert(m, files.last()@),
            None => prev,
        }
    }
}

/// Indexes the workspace's source files by dotted module path.
pub fn build_module_index(workspace: &str, py_files: &Vec<String>) -> (r: NameMap<String>)
    ensures
        crate::use_graph::str_map_view(r@) == spec_module_index(workspace@, py_files@),
{
    let mut index: NameMap<String> = NameMap::new();
    assert(crate::use_graph::str_map_view(index@) =~= Map::<Seq<char>, Seq<char>>::empty());
    let mut i: usize = 0;
    while i < py_files.len()
        invariant
            i <= py_files@.len(),
            crate::use_graph::str_map_view(index@) == spec_module_index(workspace@, py_files@.take(i as int)),
        decreases py_files.len() - i,
    {
        assert(py_files@.take(i + 1).drop_last() =~= py_files@.take(i as int));
        match file_to_module_path(workspace, py_files[i].as_str()) {
            Some(m) => {
                index.insert(m, py_files[i].clone());
                assert(crate::use_graph::str_map_view(index@) =~= spec_module_index(workspace@, py_files@.take(i + 1)));
            },
            None => {},
        }
        i = i + 1;
    }
    assert(py_files@.take(py_files@.len() as int) =~= py_files@);
    index
}

/// The module paths an import record asks for, in the order they are tried:
/// `import X` asks for `X`; `from X import a, b` asks for `X.a`, `X.b`, then `X`.
pub open spec fn spec_import_candidates(abs: Seq<char>, names: Seq<Seq<char>>) -> Seq<Seq<char>> {
    if names.len() == 0 {
        seq![abs]
    } else {
        names.map_values(|n: Seq<char>| if abs.len() == 0 { n } else { abs + "."@ + n })
            + if abs.len() > 0 { seq![abs] } else { Seq::<Seq<char>>::empty() }
    }
}

/// The files the candidate modules resolve to in `index`, in order, each file
/// once.
pub open spec fn spec_resolved_files(cands: Seq<Seq<char>>, index: Map<Seq<char>, Seq<char>>) -> Seq<Seq<char>>
    decreases cands.len(),
{
    if cands.len() == 0 {
        Seq::empty()
    } else {
        let prev = spec_resolved_files(cands.drop_last(), index);
        let m = cands.last();
        if index.contains_key(m) && !prev.contains(index[m]) {
            prev.push(index[m])
        } else {
            prev
        }
    }
}

/// The files one import record (`base`, imported `names`) in module
/// `current` resolves to.
pub open spec fn spec_resolve_import(
    base: Seq<char>,
    names: Seq<Seq<char>>,
    current: Seq<char>,
    index: Map<Seq<char>, Seq<char>>,
) -> Seq<Seq<char>> {
    spec_resolved_files(spec_import_candidates(spec_absolute_base(base, current), names), index)
}

/// Appends the file module `m` resolves to, unless already present.
fn try_add(m: &str, index: &NameMap<String>, results: &mut Vec<String>)
    ensures
        path_view(final(results)@) == if crate::use_graph::str_map_view(index@).contains_key(m@)
            && !path_view(old(results)@).contains(crate::use_graph::str_map_view(index@)[m@]) {
            path_view(old(results)@).push(crate::use_graph::str_map_view(index@)[m@])
        } else {
            path_view(old(results)@)
        },
{
    if let Some(p) = index.get(m) {
        let mut i: usize = 0;
        while i < results.len()
            invariant
                i <= results@.len(),
                results@ == old(results)@,
                crate::use_graph::str_map_view(index@).contains_key(m@),
                crate::use_graph::str_map_view(index@)[m@] == p@,
                forall|j: int| 0 <= j < i ==> results@[j]@ != p@,
            decreases results.len() - i,
        {
            if results[i] == *p {
                assert(path_view(results@)[i as int] == p@);
                assert(path_view(results@).contains(p@));
                return;
            }
            i = i + 1;
        }
        assert(!path_view(results@).contains(p@)) by {
            if path_view(results@).contains(p@) {
                let j = choose|j: int| 0 <= j < path_view(results@).len() && path_view(results@)[j] == p@;
                assert(results@[j]@ == p@);
            }
        }
        let ghost before = path_view(results@);
        results.push(p.clone());
        assert(path_view(results@) =~= before.push(p@));
    }
}

/// Resolves one import record to the project files it reaches, in order and
/// without repeats: `import X.Y` reaches module `X.Y`; `from B import a, b`
/// reaches `B.a`, `B.b` and `B` itself, where a relative `B` is anchored at
/// `current_mod`.
pub fn resolve_import(base: &str, names: &Vec<String>, current_mod: &str, index: &NameMap<String>) -> (r: Vec<String>)
    ensures
        path_view(r@) == spec_resolve_import(base@, path_view(names@), current_mod@, crate::use_graph::str_map_view(index@)),
{
    let abs_base = absolute_base(base, current_mod);
    let ghost ix = crate::use_graph::str_map_view(index@);
    let ghost cands = spec_import_candidates(abs_base@, path_view(names@));
    let mut results: Vec<String> = Vec::new();
    assert(path_view(results@) =~= Seq::<Seq<char>>::empty());
    if names.len() == 0 {
        assert(cands.last() == abs_base@);
        assert(spec_resolved_files(Seq::<Seq<char>>::empty(), ix) =~= Seq::<Seq<char>>::empty());
        try_add(abs_base.as_str(), index, &mut results);
        assert(cands.drop_last() =~= Seq::<Seq<char>>::empty());
        assert(path_view(results@) =~= spec_resolved_files(cands, ix));
        return results;
    }
    let ghost named = path_view(names@).map_values(|n: Seq<char>| if abs_base@.len() == 0 { n } else { abs_base@ + "."@ + n });
    let mut i: usize = 0;
    while i < names.len()
        invariant
            i <= names@.len(),
            ix == crate::use_graph::str_map_view(index@),
            named == path_view(names@).map_values(|n: Seq<char>| if abs_base@.len() == 0 { n } else { abs_base@ + "."@ + n }),
            path_view(results@) == spec_resolved_files(named.take(i as int), ix),
        decreases names.len() - i,
    {
        let full = if crate::strs::str_is_empty(abs_base.as_str()) {
            names[i].clone()
        } else {
            let mut f = abs_base.clone();
            f.append(".");
            f.append(names[i].as_str());
            f
        };
        assert(full@ == named[i as int]);
        assert(named.take(i + 1).drop_last() =~= named.take(i as int));
        try_add(full.as_str(), index, &mut results);
        i = i + 1;
    }
    assert(named.take(names@.len() as int) =~= named);
    if !crate::strs::str_is_empty(abs_base.as_str()) {
        try_add(abs_base.as_str(), index, &mut results);
        assert(cands == named.push(abs_base@));
        assert(cands.drop_last() =~= named);
    } else {
        assert(cands =~= named);
    }
    results
}

/// The files an import record resolves to are distinct, and each is a file of
/// the module index.
pub proof fn lemma_resolved_files_distinct(cands: Seq<Seq<char>>, index: Map<Seq<char>, Seq<char>>)
    ensures
        spec_resolved_files(cands, index).no_duplicates(),
        forall|j: int| 0 <= j < spec_resolved_files(cands, index).len() ==>
            exists|m: Seq<char>| index.contains_key(m) && index[m] == #[trigger] spec_resolved_files(cands, index)[j],
    decreases cands.len(),
{
    if cands.len() > 0 {
        lemma_resolved_files_distinct(cands.drop_last(), index);
        let prev = spec_resolved_files(cands.drop_last(), index);
        let s = spec_resolved_files(cands, index);
        assert forall|j: int| 0 <= j < s.len() implies
            exists|m: Seq<char>| index.contains_key(m) && index[m] == #[trigger] s[j] by {
            if j < prev.len() {
                assert(s[j] == prev[j]);
            } else {
                assert(index.contains_key(cands.last()) && index[cands.last()] == s[j]);
            }
        }
    }
}

/// The Python test-path convention data: directory names, file names, file
/// prefixes (for source files) and file suffixes that mark test code.
pub struct TestConventions {
    pub test_dirs: Vec<String>,
    pub test_files: Vec<String>,
    pub test_prefixes: Vec<String>,
    pub test_suffixes: Vec<String>,
}

/// The Python test conventions: `tests/` and `test/` directories,
/// `conftest.py`, `test_*.py` and `*_test.py`.
pub fn test_conventions() -> (r: TestConventions)
    ensures
        path_view(r.test_dirs@) == seq!["tests"@, "test"@],
        path_view(r.test_files@) == seq!["conftest.py"@],
        path_view(r.test_prefixes@) == seq!["test_"@],
        path_view(r.test_suffixes@) == seq!["_test.py"@],
{
    let r = TestConventions {
        test_dirs: vec![crate::strs::owned("tests"), crate::strs::owned("test")],
        test_files: vec![crate::strs::owned("conftest.py")],
        test_prefixes: vec![crate::strs::owned("test_")],
        test_suffixes: vec![crate::strs::owned("_test.py")],
    };
    assert(path_view(r.test_dirs@) =~= seq!["tests"@, "test"@]);
    assert(path_view(r.test_files@) =~= seq!["conftest.py"@]);
    assert(path_view(r.test_prefixes@) =~= seq!["test_"@]);
    assert(path_view(r.test_suffixes@) =~= seq!["_test.py"@]);
    r
}

/// A workspace-relative path is test code under conventions `k`: some path
/// component is a test directory, or the file name is a test file, or it is a
/// source file with a test prefix, or it has a test suffix.
pub open spec fn spec_is_test_path(rel: Seq<char>, k: TestConventions) -> bool {
    let comps = spec_split(rel, '/');
    let file = comps.last();
    ||| exists|i: int, d: int| 0 <= i < comps.len() && 0 <= d < k.test_dirs@.len() && comps[i] == k.test_dirs@[d]@
    ||| exists|f: int| 0 <= f < k.test_files@.len() && file == k.test_files@[f]@
    ||| is_suffix(source_dot_ext(), file) && exists|q: int| 0 <= q < k.test_prefixes@.len()
            && is_prefix(k.test_prefixes@[q]@, file)
    ||| exists|q: int| 0 <= q < k.test_suffixes@.len() && is_suffix(k.test_suffixes@[q]@, file)
}

/// Whether `v` equals one of `list`.
fn member(v: &Vec<char>, list: &Vec<String>) -> (r: bool)
    ensures
        r == exists|q: int| 0 <= q < list@.len() && v@ == list@[q]@,
{
    let mut q: usize = 0;
    while q < list.len()
        invariant
            q <= list@.len(),
            forall|j: int| 0 <= j < q ==> v@ != list@[j]@,
        decreases list.len() - q,
    {
        let w = chars_of(list[q].as_str());
        if chars_eq(v, &w) {
            return true;
        }
        q = q + 1;
    }
    false
}

/// Whether `v` starts (or, with `suffix`, ends) with one of `list`.
fn affix_member(v: &Vec<char>, list: &Vec<String>, suffix: bool) -> (r: bool)
    ensures
        r == exists|q: int| 0 <= q < list@.len()
            && (if suffix { is_suffix(list@[q]@, v@) } else { is_prefix(list@[q]@, v@) }),
{
    let mut q: usize = 0;
    while q < list.len()
        invariant
            q <= list@.len(),
            forall|j: int| 0 <= j < q ==> !(if suffix { is_suffix(list@[j]@, v@) } else { is_prefix(list@[j]@, v@) }),
        decreases list.len() - q,
    {
        let w = chars_of(list[q].as_str());
        let hit = if suffix { chars_ends_with(v, &w) } else { chars_starts_with(v, &w) };
        if hit {
            return true;
        }
        q = q + 1;
    }
    false
}

/// Whether a workspace-relative path (`/`-separated) is test code under the
/// conventions `k`.
pub fn is_test_path_with(rel_path: &str, k: &TestConventions) -> (r: bool)
    ensures
        r == spec_is_test_path(rel_path@, *k),
{
    let rel = chars_of(rel_path);
    let comps = split_chars(&rel, '/');
    let ghost cv = comps@.map_values(|v: Vec<char>| v@);
    assert(cv.len() >= 1);
    let file = &comps[comps.len() - 1];
    assert(file@ == cv.last());
    let mut in_dir = false;
    let mut i: usize = 0;
    while i < comps.len()
        invariant
            i <= comps@.len(),
            cv == comps@.map_values(|v: Vec<char>| v@),
            in_dir == exists|a: int, d: int| 0 <= a < i && 0 <= d < k.test_dirs@.len() && cv[a] == k.test_dirs@[d]@,
        decreases comps.len() - i,
    {
        let hit = member(&comps[i], &k.test_dirs);
        proof {
            if hit {
                let d = choose|d: int| 0 <= d < k.test_dirs@.len() && comps@[i as int]@ == k.test_dirs@[d]@;
                assert(cv[i as int] == k.test_dirs@[d]@);
            }
        }
        in_dir = in_dir || hit;
        i = i + 1;
    }
    let ext = chars_of(".py");
    in_dir || member(file, &k.test_files)
        || (chars_ends_with(file, &ext) && affix_member(file, &k.test_prefixes, false))
        || affix_member(file, &k.test_suffixes, true)
}

/// A workspace-relative path is Python test code: it lies under a `tests/` or
/// `test/` directory, or its file is `conftest.py`, `test_*.py` or `*_test.py`.
pub open spec fn spec_py_is_test_path(rel: Seq<char>) -> bool {
    let comps = spec_split(rel, '/');
    let file = comps.last();
    ||| exists|i: int| 0 <= i < comps.len() && (comps[i] == "tests"@ || comps[i] == "test"@)
    ||| file == "conftest.py"@
    ||| is_suffix(".py"@, file) && is_prefix("test_"@, file)
    ||| is_suffix("_test.py"@, file)
}

/// Python test conventions: pytest/unittest files (`test_*.py`, `*_test.py`,
/// `conftest.py`) and anything under a `tests/` or `test/` directory.
pub fn py_is_test_path(rel_path: &str) -> (r: bool)
    ensures
        r == spec_py_is_test_path(rel_path@),
{
    let k = test_conventions();
    let r = is_test_path_with(rel_path, &k);
    proof {
        let comps = spec_split(rel_path@, '/');
        let file = comps.last();
        let d = path_view(k.test_dirs@);
        assert(d.len() == k.test_dirs@.len() && d.len() == 2);
        assert(d[0] == k.test_dirs@[0]@ && d[1] == k.test_dirs@[1]@);
        assert(d[0] == "tests"@ && d[1] == "test"@);
        assert(path_view(k.test_files@).len() == k.test_files@.len());
        assert(path_view(k.test_files@)[0] == k.test_files@[0]@);
        assert(path_view(k.test_prefixes@).len() == k.test_prefixes@.len());
        assert(path_view(k.test_prefixes@)[0] == k.test_prefixes@[0]@);
        assert(path_view(k.test_suffixes@).len() == k.test_suffixes@.len());
        assert(path_view(k.test_suffixes@)[0] == k.test_suffixes@[0]@);
        assert(path_view(k.test_files@)[0] == "conftest.py"@);
        assert(path_view(k.test_prefixes@)[0] == "test_"@);
        assert(path_view(k.test_suffixes@)[0] == "_test.py"@);
        assert((exists|i: int, j: int| 0 <= i < comps.len() && 0 <= j < k.test_dirs@.len() && comps[i] == k.test_dirs@[j]@)
            == (exists|i: int| 0 <= i < comps.len() && (comps[i] == "tests"@ || comps[i] == "test"@))) by {
            if exists|i: int| 0 <= i < comps.len() && (comps[i] == "tests"@ || comps[i] == "test"@) {
                let i = choose|i: int| 0 <= i < comps.len() && (comps[i] == "tests"@ || comps[i] == "test"@);
                if comps[i] == "tests"@ {
                    assert(comps[i] == k.test_dirs@[0]@);
                } else {
                    assert(comps[i] == k.test_dirs@[1]@);
                }
            }
        }
        assert((exists|f: int| 0 <= f < k.test_files@.len() && file == k.test_files@[f]@) == (file == "conftest.py"@)) by {
            if file == "conftest.py"@ {
                assert(file == k.test_files@[0]@);
            }
        }
        assert((exists|q: int| 0 <= q < k.test_prefixes@.len() && is_prefix(k.test_prefixes@[q]@, file))
            == is_prefix("test_"@, file)) by {
            if is_prefix("test_"@, file) {
                assert(is_prefix(k.test_prefixes@[0]@, file));
            }
        }
        assert((exists|q: int| 0 <= q < k.test_suffixes@.len() && is_suffix(k.test_suffixes@[q]@, file))
            == is_suffix("_test.py"@, file)) by {
            if is_suffix("_test.py"@, file) {
                assert(is_suffix(k.test_suffixes@[0]@, file));
            }
        }
    }
    r
}

/// Whether `path` is a test file of the workspace: its workspace-relative path
/// (with `\\` separators turned into `/`) follows the test conventions; a path
/// outside the workspace is not.
pub open spec fn spec_is_test_file(path: Seq<char>, workspace: Seq<char>) -> bool {
    match crate::paths::spec_path_strip_prefix(path, workspace) {
        Some(rel) => spec_py_is_test_path(crate::strs::replace_all(rel, "\\"@, "/"@)),
        None => false,
    }
}

/// Whether `path` is a test file of `workspace` (see `spec_is_test_file`).
pub fn is_test_file(path: &str, workspace: &str) -> (r: bool)
    ensures
        r == spec_is_test_file(path@, workspace@),
{
    proof {
        reveal_strlit("\\");
    }
    match crate::paths::path_strip_prefix(path, workspace) {
        Some(rel) => {
            let norm = crate::strs::replace_all_str(rel.as_str(), "\\", "/");
            py_is_test_path(norm.as_str())
        },
        None => false,
    }
}

/// The top-level package an unresolved absolute import names (`a` for
/// `a.b.c`); relative or empty bases name none.
pub open spec fn spec_external_top_level(base: Seq<char>) -> Option<Seq<char>> {
    if base.len() == 0 || base[0] == '.' {
        None
    } else {
        Some(spec_split(base, '.')[0])
    }
}

/// The top-level package of an unresolved import, or `None` for a relative
/// import (always project-internal).
pub fn external_top_level(base: &str) -> (r: Option<String>)
    ensures
        crate::strs::opt_view(r) == spec_external_top_level(base@),
{
    let b = chars_of(base);
    if b.len() == 0 || b[0] == '.' {
        return None;
    }
    let parts = split_chars(&b, '.');
    assert(parts@.map_values(|v: Vec<char>| v@)[0] == parts@[0]@);
    Some(string_of(&parts[0]))
}

/// The visibility class of a module name by Python convention: `__name`
/// (not a dunder) is private, `_name` restricted, anything else public.
pub open spec fn spec_py_visibility(name: Seq<char>) -> Seq<char> {
    if is_prefix("__"@, name) && !is_suffix("__"@, name) {
        "private"@
    } else if is_prefix("_"@, name) {
        "restricted"@
    } else {
        "public"@
    }
}

/// The visibility string of a Python module from its name.
pub fn py_visibility_str(name: &str) -> (r: &'static str)
    ensures
        r@ == spec_py_visibility(name@),
{
    let n = chars_of(name);
    let dunder = chars_of("__");
    let under = chars_of("_");
    if chars_starts_with(&n, &dunder) && !chars_ends_with(&n, &dunder) {
        "private"
    } else if chars_starts_with(&n, &under) {
        "restricted"
    } else {
        "public"
    }
}

/// The edge kind the Python structure builder tags import edges with.
pub fn uses_edge_kind() -> (r: &'static str)
    ensures
        r@ == "uses"@,
{
    "uses"
}

} // verus!
