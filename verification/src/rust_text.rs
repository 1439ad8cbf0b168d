//! Rust-specific text handling: dropping test-only lines from a source file
//! before production metrics are measured, the facts a file's attributes
//! contribute, and the toolchain probes' text: the `rustc` version token and the
//! path roots external node ids are shortened with.

use vstd::prelude::*;
use crate::docs::{is_ws, is_ws_char, trim};
use crate::maps::{join_strings, path_view, spec_join};
use crate::strs::{chars_of, is_prefix, owned, push_all, push_str, spec_split, split_chars, string_of};

verus! {

/// The lines of a text as `str::lines` yields them: split at `\n`, each line
/// ended by `\n` losing one trailing `\r`, and no empty line after a final
/// `\n` (an empty text has none).
pub open spec fn spec_lines(s: Seq<char>) -> Seq<Seq<char>> {
    let p = spec_split(s, '\n');
    let body = p.take(p.len() - 1).map_values(|l: Seq<char>| strip_cr(l));
    if p.last().len() == 0 {
        body
    } else {
        body.push(p.last())
    }
}

/// A line without one trailing `\r`.
pub open spec fn strip_cr(l: Seq<char>) -> Seq<char> {
    if l.len() > 0 && l.last() == '\r' {
        l.drop_last()
    } else {
        l
    }
}

/// Line `n` (1-based) lies in one of the inclusive ranges.
pub open spec fn covered(ranges: Seq<(usize, usize)>, n: int) -> bool {
    exists|i: int| 0 <= i < ranges.len() && (#[trigger] ranges[i]).0 <= n <= ranges[i].1
}

/// How many numbers below `k` lie in one of the ranges.
pub open spec fn count_covered(ranges: Seq<(usize, usize)>, k: int) -> nat
    decreases k,
{
    if k <= 0 {
        0
    } else {
        count_covered(ranges, k - 1) + if covered(ranges, k - 1) { 1nat } else { 0nat }
    }
}

/// The largest range end (0 for no ranges).
pub open spec fn max_end(ranges: Seq<(usize, usize)>) -> nat
    decreases ranges.len(),
{
    if ranges.len() == 0 {
        0
    } else {
        let m = max_end(ranges.drop_last());
        if ranges.last().1 > m { ranges.last().1 as nat } else { m }
    }
}

/// The lines kept: those whose 1-based number lies in no range.
pub open spec fn kept_lines(lines: Seq<Seq<char>>, ranges: Seq<(usize, usize)>) -> Seq<Seq<char>>
    decreases lines.len(),
{
    if lines.len() == 0 {
        Seq::empty()
    } else {
        let prev = kept_lines(lines.drop_last(), ranges);
        if covered(ranges, lines.len() as int) { prev } else { prev.push(lines.last()) }
    }
}

/// A source text with the test-only line ranges removed, and how many line
/// numbers the ranges cover. Without ranges the text is unchanged; otherwise the
/// kept lines are joined by `\n` and end with one.
pub open spec fn spec_strip_test_lines(text: Seq<char>, ranges: Seq<(usize, usize)>) -> (Seq<char>, nat) {
    if ranges.len() == 0 {
        (text, 0)
    } else {
        (
            spec_join(kept_lines(spec_lines(text), ranges), "\n"@) + "\n"@,
            count_covered(ranges, max_end(ranges) + 1int),
        )
    }
}

fn line_chars(text: &str) -> (r: Vec<Vec<char>>)
    ensures
        r@.map_values(|v: Vec<char>| v@) == spec_lines(text@),
{
    let t = chars_of(text);
    let parts = split_chars(&t, '\n');
    let ghost p = parts@.map_values(|v: Vec<char>| v@);
    let n = parts.len();
    let mut out: Vec<Vec<char>> = Vec::new();
    let mut i: usize = 0;
    while i + 1 < n
        invariant
            n == parts@.len(),
            n >= 1,
            p == parts@.map_values(|v: Vec<char>| v@),
            i + 1 <= n,
            out@.map_values(|v: Vec<char>| v@) == p.take(i as int).map_values(|l: Seq<char>| strip_cr(l)),
        decreases n - i,
    {
        let l = &parts[i];
        let ghost before = out@.map_values(|v: Vec<char>| v@);
        let piece = if l.len() > 0 && l[l.len() - 1] == '\r' {
            crate::strs::slice_chars(l, 0, l.len() - 1)
        } else {
            crate::strs::slice_chars(l, 0, l.len())
        };
        assert(piece@ =~= strip_cr(p[i as int]));
        out.push(piece);
        assert(p.take(i + 1).map_values(|l: Seq<char>| strip_cr(l)) =~= p.take(i as int).map_values(|l: Seq<char>| strip_cr(l)).push(strip_cr(p[i as int])));
        assert(out@.map_values(|v: Vec<char>| v@) =~= before.push(piece@));
        i = i + 1;
    }
    let last = &parts[n - 1];
    if last.len() > 0 {
        let ghost before = out@.map_values(|v: Vec<char>| v@);
        let copy = crate::strs::slice_chars(last, 0, last.len());
        assert(copy@ =~= p.last());
        out.push(copy);
        assert(out@.map_values(|v: Vec<char>| v@) =~= before.push(p.last()));
    }
    out
}

fn is_covered(ranges: &Vec<(usize, usize)>, n: usize) -> (r: bool)
    ensures
        r == covered(ranges@, n as int),
{
    let mut i: usize = 0;
    while i < ranges.len()
        invariant
            i <= ranges@.len(),
            forall|k: int| 0 <= k < i ==> !(ranges@[k].0 <= n && n <= ranges@[k].1),
        decreases ranges.len() - i,
    {
        if ranges[i].0 <= n && n <= ranges[i].1 {
            return true;
        }
        i = i + 1;
    }
    false
}

proof fn lemma_count_covered_le(ranges: Seq<(usize, usize)>, k: int)
    ensures
        count_covered(ranges, k) <= if k > 0 { k } else { 0 },
    decreases k,
{
    if k > 0 {
        lemma_count_covered_le(ranges, k - 1);
    }
}

/// Drops the test-only line ranges (1-based, inclusive) from a source text
/// and counts the line numbers they cover (see `spec_strip_test_lines`).
pub fn strip_test_lines(text: &str, ranges: &Vec<(usize, usize)>) -> (r: (String, usize))
    requires
        max_end(ranges@) < usize::MAX,
    ensures
        (r.0@, r.1 as nat) == spec_strip_test_lines(text@, ranges@),
{
    if ranges.len() == 0 {
        return (owned(text), 0);
    }
    proof {
        reveal_strlit("\n");
    }
    let mut m: usize = 0;
    let mut i: usize = 0;
    while i < ranges.len()
        invariant
            i <= ranges@.len(),
            m == max_end(ranges@.take(i as int)),
        decreases ranges.len() - i,
    {
        assert(ranges@.take(i + 1).drop_last() =~= ranges@.take(i as int));
        if ranges[i].1 > m {
            m = ranges[i].1;
        }
        i = i + 1;
    }
    assert(ranges@.take(ranges@.len() as int) =~= ranges@);
    let mut count: usize = 0;
    let mut k: usize = 0;
    while k <= m
        invariant
            m == max_end(ranges@),
            m < usize::MAX,
            k <= m + 1,
            count == count_covered(ranges@, k as int),
        decreases m + 1 - k,
    {
        proof {
            lemma_count_covered_le(ranges@, k as int);
        }
        if is_covered(ranges, k) {
            count = count + 1;
        }
        k = k + 1;
    }
    let lines = line_chars(text);
    let ghost lv = lines@.map_values(|v: Vec<char>| v@);
    let mut out: Vec<char> = Vec::new();
    let mut kept: usize = 0;
    let mut j: usize = 0;
    let ghost mut kept_view: Seq<Seq<char>> = Seq::empty();
    while j < lines.len()
        invariant
            j <= lines@.len(),
            lv == lines@.map_values(|v: Vec<char>| v@),
            kept_view == kept_lines(lv.take(j as int), ranges@),
            out@ == spec_join(kept_view, "\n"@),
            kept == kept_view.len(),
            kept <= j,
            "\n"@ == seq!['\n'],
        decreases lines.len() - j,
    {
        assert(lv.take(j + 1).drop_last() =~= lv.take(j as int));
        assert(lv.take(j + 1).last() == lines@[j as int]@);
        if !is_covered(ranges, j + 1) {
            let ghost before = kept_view;
            if kept > 0 {
                out.push('\n');
            }
            push_all(&mut out, &lines[j]);
            proof {
                kept_view = before.push(lines@[j as int]@);
                assert(kept_view.drop_last() =~= before);
                if before.len() == 0 {
                    assert(out@ =~= lines@[j as int]@);
                } else {
                    assert(out@ =~= spec_join(before, "\n"@) + "\n"@ + lines@[j as int]@);
                }
            }
            kept = kept + 1;
        }
        j = j + 1;
    }
    assert(lv.take(lines@.len() as int) =~= lv);
    out.push('\n');
    assert(out@ =~= spec_join(kept_view, "\n"@) + "\n"@);
    (string_of(&out), count)
}

/// The smallest of `start` and the lines in `lines`.
pub open spec fn min_line(lines: Seq<usize>, start: usize) -> usize
    decreases lines.len(),
{
    if lines.len() == 0 {
        start
    } else {
        let m = min_line(lines.drop_last(), start);
        if lines.last() < m { lines.last() } else { m }
    }
}

/// The inclusive line range of a test-only item: from its first attribute line
/// (or its own first line, whichever is smaller) to its last line.
pub fn test_item_range(attr_lines: &Vec<usize>, start: usize, end: usize) -> (r: (usize, usize))
    ensures
        r.0 == min_line(attr_lines@, start),
        r.1 == end,
{
    let mut m = start;
    let mut i: usize = 0;
    while i < attr_lines.len()
        invariant
            i <= attr_lines@.len(),
            m == min_line(attr_lines@.take(i as int), start),
        decreases attr_lines.len() - i,
    {
        assert(attr_lines@.take(i + 1).drop_last() =~= attr_lines@.take(i as int));
        if attr_lines[i] < m {
            m = attr_lines[i];
        }
        i = i + 1;
    }
    assert(attr_lines@.take(attr_lines@.len() as int) =~= attr_lines@);
    (m, end)
}

/// A sorted set of names joined with `,`, or none when it is empty (so an empty
/// fact adds no attribute).
pub fn joined(set: &Vec<String>) -> (r: Option<String>)
    ensures
        match r {
            None => set@.len() == 0,
            Some(s) => set@.len() > 0 && s@ == spec_join(path_view(set@), ","@),
        },
{
    if set.len() == 0 {
        None
    } else {
        Some(join_strings(set, ","))
    }
}

/// The white-space separated tokens of a text, in order.
pub open spec fn ws_tokens(s: Seq<char>) -> Seq<Seq<char>>
    decreases s.len(),
{
    if s.len() == 0 {
        Seq::empty()
    } else {
        let prev = ws_tokens(s.drop_last());
        let c = s.last();
        if is_ws(c) {
            prev
        } else if s.len() >= 2 && !is_ws(s[s.len() - 2]) && prev.len() > 0 {
            prev.update(prev.len() - 1, prev.last().push(c))
        } else {
            prev.push(seq![c])
        }
    }
}

/// The version in `rustc --version` output: its second token, or `unknown`.
pub open spec fn spec_version_token(out: Seq<char>) -> Seq<char> {
    let t = ws_tokens(out);
    if t.len() >= 2 { t[1] } else { "unknown"@ }
}

/// The version token of `rustc --version` output (see `spec_version_token`).
pub fn version_token(out: &str) -> (r: String)
    ensures
        r@ == spec_version_token(out@),
{
    let v = chars_of(out);
    let mut toks: Vec<Vec<char>> = Vec::new();
    let mut i: usize = 0;
    while i < v.len()
        invariant
            i <= v@.len(),
            toks@.map_values(|t: Vec<char>| t@) == ws_tokens(v@.take(i as int)),
            i > 0 && !is_ws(v@[i - 1]) ==> toks@.len() > 0,
        decreases v.len() - i,
    {
        let ghost before = toks@.map_values(|t: Vec<char>| t@);
        let ghost s = v@.take(i + 1);
        assert(s.drop_last() =~= v@.take(i as int));
        assert(s.last() == v@[i as int]);
        let c = v[i];
        if is_ws_char(c) {
        } else if i >= 1 && !is_ws_char(v[i - 1]) && toks.len() > 0 {
            assert(s[s.len() - 2] == v@[i - 1]);
            let k = toks.len() - 1;
            let mut last = toks.pop().unwrap();
            last.push(c);
            toks.push(last);
            assert(toks@.map_values(|t: Vec<char>| t@) =~= before.update(k as int, before[k as int].push(c)));
        } else {
            if i >= 1 {
                assert(s[s.len() - 2] == v@[i - 1]);
            }
            let mut t: Vec<char> = Vec::new();
            t.push(c);
            toks.push(t);
            assert(toks@.map_values(|t: Vec<char>| t@) =~= before.push(seq![c]));
        }
        i = i + 1;
    }
    assert(v@.take(v@.len() as int) =~= v@);
    if toks.len() >= 2 {
        string_of(&toks[1])
    } else {
        "unknown".to_string()
    }
}

/// A home directory variable's value, or `<home>/<default_dir>` when unset.
pub open spec fn spec_home_dir(home: Seq<char>, var: Option<Seq<char>>, default_dir: Seq<char>) -> Seq<char> {
    match var {
        Some(v) => v,
        None => home + "/"@ + default_dir,
    }
}

/// `$CARGO_HOME` (or `<home>/.cargo`) / `$RUSTUP_HOME` (or `<home>/.rustup`).
pub fn home_dir(home: &str, var: Option<&str>, default_dir: &str) -> (r: String)
    ensures
        r@ == spec_home_dir(home@, match var { Some(v) => Some(v@), None => None }, default_dir@),
{
    match var {
        Some(v) => owned(v),
        None => {
            let mut s = chars_of(home);
            push_str(&mut s, "/");
            push_str(&mut s, default_dir);
            string_of(&s)
        },
    }
}

/// The first registry source directory of the crates.io index, among the
/// entries of `<cargo>/registry/src` in the order they were listed.
pub open spec fn first_registry(names: Seq<Seq<char>>, i: int) -> Option<int>
    decreases names.len() - i,
{
    if i < 0 || i >= names.len() {
        None
    } else if is_prefix("index.crates.io"@, names[i]) {
        Some(i)
    } else {
        first_registry(names, i + 1)
    }
}

/// The crates.io registry source directory: `<registry_src>/<name>` for the
/// first listed entry whose name starts with `index.crates.io`.
pub fn find_registry(registry_src: &str, names: &Vec<String>) -> (r: Option<String>)
    ensures
        crate::strs::opt_view(r) == match first_registry(path_view(names@), 0) {
            Some(k) => Some(registry_src@ + "/"@ + names@[k]@),
            None => None,
        },
{
    let prefix = chars_of("index.crates.io");
    let mut i: usize = 0;
    while i < names.len()
        invariant
            i <= names@.len(),
            prefix@ == "index.crates.io"@,
            first_registry(path_view(names@), i as int) == first_registry(path_view(names@), 0),
        decreases names.len() - i,
    {
        let n = chars_of(names[i].as_str());
        assert(path_view(names@)[i as int] == names@[i as int]@);
        if crate::strs::chars_starts_with(&n, &prefix) {
            let mut s = chars_of(registry_src);
            push_str(&mut s, "/");
            push_all(&mut s, &n);
            return Some(string_of(&s));
        }
        i = i + 1;
    }
    None
}

/// The standard-library source directory under a sysroot (`rustc --print
/// sysroot` output, trimmed).
pub open spec fn spec_rust_lib_dir(sysroot_out: Seq<char>) -> Seq<char> {
    trim(sysroot_out) + "/lib/rustlib/src/rust/library"@
}

/// The standard-library source directory under a sysroot.
pub fn rust_lib_dir(sysroot_out: &str) -> (r: String)
    ensures
        r@ == spec_rust_lib_dir(sysroot_out@),
{
    let v = chars_of(sysroot_out);
    let t = crate::docs::trim_chars(&v);
    let mut s = t;
    push_str(&mut s, "/lib/rustlib/src/rust/library");
    string_of(&s)
}

/// The toolchain path roots: the registry and `cargo` roots when the cargo
/// home is known, then the `rust-src` and `rustup` roots when the rustup home
/// is known; each optional root only when it was found.
pub open spec fn spec_toolchain_roots(
    cargo: Seq<char>,
    rustup: Seq<char>,
    registry: Option<Seq<char>>,
    rust_src: Option<Seq<char>>,
) -> Seq<(Seq<char>, Seq<char>)> {
    let a: Seq<(Seq<char>, Seq<char>)> = if cargo.len() > 0 {
        (match registry {
            Some(r) => seq![("registry"@, r)],
            None => Seq::empty(),
        }) + seq![("cargo"@, cargo)]
    } else {
        Seq::empty()
    };
    let b: Seq<(Seq<char>, Seq<char>)> = if rustup.len() > 0 {
        (match rust_src {
            Some(r) => seq![("rust-src"@, r)],
            None => Seq::empty(),
        }) + seq![("rustup"@, rustup)]
    } else {
        Seq::empty()
    };
    a + b
}

/// The toolchain path roots external node ids are shortened with.
pub fn toolchain_roots(cargo: &str, rustup: &str, registry: Option<&str>, rust_src: Option<&str>) -> (r: Vec<(String, String)>)
    ensures
        r@.map_values(|p: (String, String)| (p.0@, p.1@)) == spec_toolchain_roots(
            cargo@,
            rustup@,
            match registry { Some(x) => Some(x@), None => None },
            match rust_src { Some(x) => Some(x@), None => None },
        ),
{
    let mut roots: Vec<(String, String)> = Vec::new();
    let ghost mut want: Seq<(Seq<char>, Seq<char>)> = Seq::empty();
    if !crate::strs::str_is_empty(cargo) {
        match registry {
            Some(x) => {
                roots.push(("registry".to_string(), owned(x)));
                proof {
                    want = want.push(("registry"@, x@));
                }
            },
            None => {},
        }
        roots.push(("cargo".to_string(), owned(cargo)));
        proof {
            want = want.push(("cargo"@, cargo@));
        }
    }
    if !crate::strs::str_is_empty(rustup) {
        match rust_src {
            Some(x) => {
                roots.push(("rust-src".to_string(), owned(x)));
                proof {
                    want = want.push(("rust-src"@, x@));
                }
            },
            None => {},
        }
        roots.push(("rustup".to_string(), owned(rustup)));
        proof {
            want = want.push(("rustup"@, rustup@));
        }
    }
    assert(roots@.map_values(|p: (String, String)| (p.0@, p.1@)) =~= want);
    assert(want =~= spec_toolchain_roots(
        cargo@,
        rustup@,
        match registry { Some(x) => Some(x@), None => None },
        match rust_src { Some(x) => Some(x@), None => None },
    ));
    roots
}

/// A token of an attribute's argument list, as test detection reads it.
pub enum CfgToken {
    Ident(String),
    Group(Vec<CfgToken>),
    Other,
}

/// A token is, or contains, the bare identifier `test`.
pub open spec fn token_has_test(t: CfgToken) -> bool
    decreases t,
{
    match t {
        CfgToken::Ident(i) => i@ == "test"@,
        CfgToken::Group(g) => tokens_have_test(g@),
        CfgToken::Other => false,
    }
}

/// Some token of a stream is, or contains, the bare identifier `test`.
pub open spec fn tokens_have_test(ts: Seq<CfgToken>) -> bool
    decreases ts,
{
    if ts.len() == 0 {
        false
    } else {
        token_has_test(ts[0]) || tokens_have_test(ts.drop_first())
    }
}

/// Whether a token stream holds a bare `test` identifier, at any depth.
pub fn tokens_have_test_ident(ts: &Vec<CfgToken>) -> (r: bool)
    ensures
        r == tokens_have_test(ts@),
    decreases ts@,
{
    let mut i: usize = 0;
    assert(ts@.skip(0) =~= ts@);
    while i < ts.len()
        invariant
            i <= ts@.len(),
            tokens_have_test(ts@.skip(i as int)) == tokens_have_test(ts@),
        decreases ts.len() - i,
    {
        assert(ts@.skip(i as int).drop_first() =~= ts@.skip(i + 1));
        assert(ts@.skip(i as int)[0] == ts@[i as int]);
        let hit = match &ts[i] {
            CfgToken::Ident(id) => crate::strs::str_eq(id.as_str(), "test"),
            CfgToken::Group(g) => {
                proof {
                    assert(decreases_to!(ts@ => ts@[i as int]));
                }
                tokens_have_test_ident(g)
            },
            CfgToken::Other => false,
        };
        assert(hit == token_has_test(ts@[i as int]));
        if hit {
            return true;
        }
        i = i + 1;
    }
    false
}

/// An attribute as test detection reads it: its path when that is a single
/// identifier, and the tokens of its argument list when it has one.
pub struct AttrModel {
    pub ident: Option<String>,
    pub list_tokens: Option<Vec<CfgToken>>,
}

/// An attribute gates an item to tests: `#[test]`, `#[bench]`, or a `cfg(…)`
/// whose predicate holds a bare `test` identifier.
pub open spec fn spec_is_test_attr(a: AttrModel) -> bool {
    match a.ident {
        Some(i) => if i@ == "test"@ || i@ == "bench"@ {
            true
        } else if i@ == "cfg"@ {
            match a.list_tokens {
                Some(t) => tokens_have_test(t@),
                None => false,
            }
        } else {
            false
        },
        None => false,
    }
}

/// Whether an attribute gates an item to tests (see `spec_is_test_attr`).
pub fn is_test_attr(a: &AttrModel) -> (r: bool)
    ensures
        r == spec_is_test_attr(*a),
{
    match &a.ident {
        Some(i) => {
            if crate::strs::str_eq(i.as_str(), "test") || crate::strs::str_eq(i.as_str(), "bench") {
                true
            } else if crate::strs::str_eq(i.as_str(), "cfg") {
                match &a.list_tokens {
                    Some(t) => tokens_have_test_ident(t),
                    None => false,
                }
            } else {
                false
            }
        },
        None => false,
    }
}

/// Whether a top-level item is test-only: an item of a kind that carries
/// attributes (`attrs` is `None` for the others) with a test-gating attribute.
pub fn is_test_item(attrs: &Option<Vec<AttrModel>>) -> (r: bool)
    ensures
        r == match *attrs {
            Some(v) => exists|k: int| 0 <= k < v@.len() && spec_is_test_attr(#[trigger] v@[k]),
            None => false,
        },
{
    match attrs {
        Some(v) => any_test_attr(v),
        None => false,
    }
}

fn any_test_attr(v: &Vec<AttrModel>) -> (r: bool)
    ensures
        r == exists|k: int| 0 <= k < v@.len() && spec_is_test_attr(#[trigger] v@[k]),
{
    let mut k: usize = 0;
    while k < v.len()
        invariant
            k <= v@.len(),
            forall|q: int| 0 <= q < k ==> !spec_is_test_attr(#[trigger] v@[q]),
        decreases v.len() - k,
    {
        if is_test_attr(&v[k]) {
            return true;
        }
        k = k + 1;
    }
    false
}

} // verus!
