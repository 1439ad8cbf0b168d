//! Small pieces of the `check` gate and the doc corpus: where a violation sits
//! (as a CI annotation), the scope note a focused run prints, node ids without
//! their root token, and locating a doc in the corpus from its URL or path.

use vstd::prelude::*;
use crate::docs::is_ws;
use crate::fmt::{decimal, decimal_chars};
use crate::focus::{spec_clean_path, target_token};
use crate::maps::{join_strings, path_view, spec_join};
use crate::strs::{chars_of, chars_starts_with, find_chars, find_from, is_prefix, push_all, push_str, slice_chars, split_once, string_of};

verus! {

/// The target-relative path of a violation at `loc`: what follows the
/// `{target}/` token, when something does.
pub open spec fn spec_violation_rel_path(loc: Seq<char>) -> Option<Seq<char>> {
    if is_prefix(target_token(), loc) && loc.len() > target_token().len() {
        Some(loc.skip(target_token().len() as int))
    } else {
        None
    }
}

/// The target-relative path of a violation location, if it has one.
pub fn violation_rel_path(loc: &str) -> (r: Option<String>)
    ensures
        crate::strs::opt_view(r) == spec_violation_rel_path(loc@),
{
    let v = chars_of(loc);
    let tok = chars_of("{target}/");
    if chars_starts_with(&v, &tok) && v.len() > tok.len() {
        let rest = slice_chars(&v, tok.len(), v.len());
        assert(rest@ =~= loc@.skip(target_token().len() as int));
        Some(string_of(&rest))
    } else {
        None
    }
}

/// The location part of a CI annotation: `file=<path>,line=<n>,` for a
/// violation under the target (line 1 when it has none), empty otherwise.
pub open spec fn spec_annotation_location(loc: Seq<char>, line: Option<u32>) -> Seq<char> {
    match spec_violation_rel_path(loc) {
        Some(rel) => "file="@ + rel + ",line="@ + decimal(match line {
            Some(l) => l as nat,
            None => 1,
        }) + ","@,
        None => Seq::empty(),
    }
}

/// The location part of a CI annotation (see `spec_annotation_location`).
pub fn annotation_location(loc: &str, line: Option<u32>) -> (r: String)
    ensures
        r@ == spec_annotation_location(loc@, line),
{
    match violation_rel_path(loc) {
        Some(rel) => {
            let mut v = chars_of("file=");
            push_str(&mut v, rel.as_str());
            push_str(&mut v, ",line=");
            let n: u32 = match line {
                Some(l) => l,
                None => 1,
            };
            let d = decimal_chars(n as usize);
            push_all(&mut v, &d);
            push_str(&mut v, ",");
            string_of(&v)
        },
        None => String::new(),
    }
}

/// The note a focused `check` run appends to its summary: the paths and the
/// rules it was limited to, empty when it was limited to neither.
pub open spec fn spec_focus_scope_note(paths: Seq<Seq<char>>, rules: Seq<Seq<char>>) -> Seq<char> {
    if paths.len() == 0 && rules.len() == 0 {
        Seq::empty()
    } else {
        " (focused on "@
            + (if paths.len() > 0 { "path "@ + spec_join(paths, ", "@) } else { Seq::empty() })
            + (if paths.len() > 0 && rules.len() > 0 { "; "@ } else { Seq::empty() })
            + (if rules.len() > 0 { "rule "@ + spec_join(rules, ", "@) } else { Seq::empty() })
            + ")"@
    }
}

/// The scope note of a focused `check` run (see `spec_focus_scope_note`).
pub fn focus_scope_note(paths: &Vec<String>, rules: &Vec<String>) -> (r: String)
    ensures
        r@ == spec_focus_scope_note(path_view(paths@), path_view(rules@)),
{
    if paths.len() == 0 && rules.len() == 0 {
        return String::new();
    }
    let mut v = chars_of(" (focused on ");
    if paths.len() > 0 {
        push_str(&mut v, "path ");
        let j = join_strings(paths, ", ");
        push_str(&mut v, j.as_str());
    }
    if paths.len() > 0 && rules.len() > 0 {
        push_str(&mut v, "; ");
    }
    if rules.len() > 0 {
        push_str(&mut v, "rule ");
        let j = join_strings(rules, ", ");
        push_str(&mut v, j.as_str());
    }
    push_str(&mut v, ")");
    string_of(&v)
}

/// A node id without its leading `{root}/` token (`{target}/src/a.rs` is
/// `src/a.rs`); an id without one is unchanged.
pub fn strip_root_prefix(id: &str) -> (r: String)
    ensures
        r@ == spec_clean_path(id@),
{
    crate::focus::clean_path(id)
}

/// The position of the first white-space character of `s`, or its length.
pub open spec fn first_ws(s: Seq<char>, i: int) -> int
    decreases s.len() - i,
{
    if i < 0 || i >= s.len() {
        s.len() as int
    } else if is_ws(s[i]) {
        i
    } else {
        first_ws(s, i + 1)
    }
}

/// The corpus path a doc URL names: what follows its `/languages/` segment, up
/// to the first white space; none for a URL without that segment.
pub open spec fn spec_url_tail(s: Seq<char>) -> Option<Seq<char>> {
    match find_from(s, "/languages/"@, 0) {
        Some(i) => {
            let rest = s.skip(i + "/languages/"@.len());
            Some(rest.take(first_ws(rest, 0)))
        },
        None => None,
    }
}

/// The corpus path a doc URL names (see `spec_url_tail`).
pub fn url_tail(s: &str) -> (r: Option<String>)
    ensures
        crate::strs::opt_view(r) == spec_url_tail(s@),
{
    let v = chars_of(s);
    let marker = chars_of("/languages/");
    match find_chars(&v, &marker, 0) {
        Some(i) => {
            proof {
                crate::strs::lemma_find_from_range(v@, marker@, 0);
            }
            let n = v.len();
            let rest = slice_chars(&v, i + marker.len(), n);
            assert(rest@ =~= s@.skip(i + marker@.len()));
            let mut j: usize = 0;
            while j < rest.len() && !crate::docs::is_ws_char(rest[j])
                invariant
                    j <= rest@.len(),
                    first_ws(rest@, j as int) == first_ws(rest@, 0),
                decreases rest.len() - j,
            {
                j = j + 1;
            }
            let tail = slice_chars(&rest, 0, j);
            assert(tail@ =~= rest@.take(first_ws(rest@, 0)));
            Some(string_of(&tail))
        },
        None => None,
    }
}

/// The folder and file of a corpus-relative doc path: split at the first `/`,
/// a bare file name belonging to the shared `base` folder.
pub open spec fn spec_doc_folder_and_file(rel: Seq<char>) -> (Seq<char>, Seq<char>) {
    match split_once(rel, "/"@) {
        Some(parts) => parts,
        None => ("base"@, rel),
    }
}

/// The folder and file of a corpus-relative doc path.
pub fn doc_folder_and_file(rel: &str) -> (r: (String, String))
    ensures
        (r.0@, r.1@) == spec_doc_folder_and_file(rel@),
{
    let v = chars_of(rel);
    let slash = chars_of("/");
    match find_chars(&v, &slash, 0) {
        Some(i) => {
            proof {
                crate::strs::lemma_find_from_range(v@, slash@, 0);
            }
            let n = v.len();
            let a = slice_chars(&v, 0, i);
            let b = slice_chars(&v, i + slash.len(), n);
            assert(b@ =~= rel@.skip(i + slash@.len()));
            (string_of(&a), string_of(&b))
        },
        None => ("base".to_string(), string_of(&v)),
    }
}

} // verus!
