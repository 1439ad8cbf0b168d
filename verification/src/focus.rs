//! `--focus-path` resolution and matching: a focus set is resolved once against
//! the analysis target, so a subtree matches however its path was written (the
//! target path itself, a path under it, an absolute path, or a target-relative
//! subpath such as `src`).

use vstd::prelude::*;
use crate::strs::{chars_eq, chars_of, chars_starts_with, is_prefix, push_all, slice_chars, string_of};

verus! {

/// The token that starts the id of a node under the analysis target.
pub open spec fn target_token() -> Seq<char> {
    "{target}/"@
}

/// `s` with every leading `./` removed.
pub open spec fn strip_dot_slash(s: Seq<char>) -> Seq<char>
    decreases s.len(),
{
    if s.len() >= 2 && s[0] == '.' && s[1] == '/' {
        strip_dot_slash(s.skip(2))
    } else {
        s
    }
}

/// `s` with every trailing `/` removed.
pub open spec fn strip_trailing_slashes(s: Seq<char>) -> Seq<char>
    decreases s.len(),
{
    if s.len() > 0 && s.last() == '/' {
        strip_trailing_slashes(s.drop_last())
    } else {
        s
    }
}

/// A focus entry or target as it is compared: no leading `./`, no trailing `/`.
pub open spec fn normalize_entry(s: Seq<char>) -> Seq<char> {
    strip_trailing_slashes(strip_dot_slash(s))
}

/// `path` is `prefix` itself or a file or folder beneath it.
pub open spec fn at_or_under(prefix: Seq<char>, path: Seq<char>) -> bool {
    path == prefix || is_prefix(prefix.push('/'), path)
}

/// `rel` appended to the directory `base`, as a path join does it: one `/`
/// between them unless `base` is empty or already ends in one.
pub open spec fn lexical_join(base: Seq<char>, rel: Seq<char>) -> Seq<char> {
    if base.len() == 0 || base.last() == '/' {
        base + rel
    } else {
        base.push('/') + rel
    }
}

/// A path made absolute against the working directory `cwd` without touching
/// the filesystem: an absolute path stays as it is, a relative one is joined to
/// `cwd` (or kept when the working directory is unknown); trailing `/` dropped.
pub open spec fn spec_abs_lexical(path: Seq<char>, cwd: Option<Seq<char>>) -> Seq<char> {
    if path.len() > 0 && path[0] == '/' {
        strip_trailing_slashes(path)
    } else {
        match cwd {
            Some(c) => strip_trailing_slashes(lexical_join(c, path)),
            None => strip_trailing_slashes(path),
        }
    }
}

/// Where a normalized focus `entry` lies under the analysis `target`: `Some("")`
/// when it names the target itself, `Some(rest)` for a path beneath it (written
/// relative like the target or absolute), `None` for a bare subpath or an
/// unrelated or ancestor path.
pub open spec fn spec_target_subpath(entry: Seq<char>, target: Seq<char>, cwd: Option<Seq<char>>) -> Option<Seq<char>> {
    let t = normalize_entry(target);
    let direct = t.len() > 0 && t != "."@;
    if direct && entry == t {
        Some(Seq::empty())
    } else if direct && is_prefix(t.push('/'), entry) {
        Some(entry.skip(t.len() + 1int))
    } else {
        let at = spec_abs_lexical(t, cwd);
        let af = spec_abs_lexical(entry, cwd);
        if af == at {
            Some(Seq::empty())
        } else if is_prefix(at.push('/'), af) {
            Some(af.skip(at.len() + 1int))
        } else {
            None
        }
    }
}

/// The first position `j >= i` with `s[j..j+2] == "}/"`.
pub open spec fn close_brace_slash(s: Seq<char>, i: int) -> Option<int>
    decreases s.len() - i,
{
    if i < 0 || i + 1 >= s.len() {
        None
    } else if s[i] == '}' && s[i + 1] == '/' {
        Some(i)
    } else {
        close_brace_slash(s, i + 1)
    }
}

/// A node id without its leading `{root}/` token (`{target}/src/a.rs` is
/// `src/a.rs`); an id without such a token is its own path.
pub open spec fn spec_clean_path(id: Seq<char>) -> Seq<char> {
    if id.len() > 0 && id[0] == '{' {
        match close_brace_slash(id.skip(1), 0) {
            Some(j) => id.skip(1).skip(j + 2),
            None => id,
        }
    } else {
        id
    }
}

/// One resolved focus entry: where it lies under the target (if it does), and
/// the normalized raw entry.
pub type EntryView = (Option<Seq<char>>, Seq<char>);

/// Whether a focus entry covers a node, given the node's path under the target
/// (`under`, when it sits there), its printed path `rel`, and its reconstructed
/// absolute path `abs`.
pub open spec fn entry_matches(e: EntryView, under: Option<Seq<char>>, rel: Seq<char>, abs: Option<Seq<char>>) -> bool {
    match e.0 {
        Some(sub) => match under {
            Some(r) => sub.len() == 0 || at_or_under(sub, r),
            None => false,
        },
        None => at_or_under(e.1, rel) || match abs {
            Some(a) => at_or_under(e.1, a),
            None => false,
        },
    }
}

/// The entries a list of raw `--focus-path` values resolves to: each is
/// normalized, empty ones are dropped, and each keeps its place under the target.
pub open spec fn spec_entries(raws: Seq<Seq<char>>, target: Seq<char>, cwd: Option<Seq<char>>) -> Seq<EntryView>
    decreases raws.len(),
{
    if raws.len() == 0 {
        Seq::empty()
    } else {
        let prev = spec_entries(raws.drop_last(), target, cwd);
        let f = normalize_entry(raws.last());
        if f.len() == 0 {
            prev
        } else {
            prev.push((spec_target_subpath(f, target, cwd), f))
        }
    }
}

/// The abstract focus set.
pub struct FocusView {
    pub entries: Seq<EntryView>,
    pub target: Seq<char>,
}

/// Whether some entry of `f` covers the node with id `id`.
pub open spec fn spec_matches_id(f: FocusView, id: Seq<char>) -> bool {
    let under = if is_prefix(target_token(), id) {
        Some(id.skip(target_token().len() as int))
    } else {
        None::<Seq<char>>
    };
    let abs = match under {
        Some(r) => Some(f.target.push('/') + r),
        None => None,
    };
    exists|i: int| 0 <= i < f.entries.len() && entry_matches(f.entries[i], under, spec_clean_path(id), abs)
}

/// Whether some entry of `f` covers the node at target-relative path `rel`.
pub open spec fn spec_matches_target_rel(f: FocusView, rel: Seq<char>) -> bool {
    exists|i: int|
        0 <= i < f.entries.len() && entry_matches(f.entries[i], Some(rel), rel, Some(f.target.push('/') + rel))
}

/// A `--focus-path` written as the analysis target itself scopes to the whole
/// target: every target-relative location matches it.
pub proof fn lemma_target_itself_matches_everything(target: Seq<char>, cwd: Option<Seq<char>>, rel: Seq<char>)
    requires
        normalize_entry(target).len() > 0,
    ensures
        spec_matches_target_rel(
            FocusView { entries: spec_entries(seq![target], target, cwd), target: strip_trailing_slashes(target) },
            rel,
        ),
{
    let raws = seq![target];
    assert(raws.drop_last() =~= Seq::<Seq<char>>::empty());
    assert(raws.last() == target);
    assert(spec_entries(raws.drop_last(), target, cwd) =~= Seq::<EntryView>::empty());
    let f = normalize_entry(target);
    assert(spec_target_subpath(f, target, cwd) == Some(Seq::<char>::empty()));
    let v = FocusView { entries: spec_entries(raws, target, cwd), target: strip_trailing_slashes(target) };
    assert(v.entries[0] == (Some(Seq::<char>::empty()), f));
    assert(entry_matches(v.entries[0], Some(rel), rel, Some(v.target.push('/') + rel)));
}

// ---------------------------------------------------------------------------
// Executable pieces.
// ---------------------------------------------------------------------------

proof fn lemma_strip_dot_slash_step(s: Seq<char>, i: int)
    requires
        0 <= i,
        i + 2 <= s.len(),
        s[i] == '.',
        s[i + 1] == '/',
    ensures
        strip_dot_slash(s.skip(i)) == strip_dot_slash(s.skip(i + 2)),
{
    assert(s.skip(i).skip(2) =~= s.skip(i + 2));
}

/// `v` without its leading `./` pairs.
fn trim_dot_slash(v: &Vec<char>) -> (r: Vec<char>)
    ensures
        r@ == strip_dot_slash(v@),
{
    let mut i: usize = 0;
    assert(v@.skip(0) =~= v@);
    while v.len() - i >= 2 && v[i] == '.' && v[i + 1] == '/'
        invariant
            i <= v@.len(),
            strip_dot_slash(v@.skip(i as int)) == strip_dot_slash(v@),
        decreases v.len() - i,
    {
        proof {
            lemma_strip_dot_slash_step(v@, i as int);
        }
        i = i + 2;
    }
    let r = slice_chars(v, i, v.len());
    assert(r@ =~= v@.skip(i as int));
    r
}

/// `v` without its trailing `/` characters.
fn trim_slashes(v: &Vec<char>) -> (r: Vec<char>)
    ensures
        r@ == strip_trailing_slashes(v@),
{
    let mut j: usize = v.len();
    assert(v@.take(j as int) =~= v@);
    while j > 0 && v[j - 1] == '/'
        invariant
            j <= v@.len(),
            strip_trailing_slashes(v@.take(j as int)) == strip_trailing_slashes(v@),
        decreases j,
    {
        assert(v@.take(j as int).drop_last() =~= v@.take(j - 1));
        j = j - 1;
    }
    slice_chars(v, 0, j)
}

/// `v` with a trailing `/` appended.
fn with_slash(v: &Vec<char>) -> (r: Vec<char>)
    ensures
        r@ == v@.push('/'),
{
    let mut r: Vec<char> = Vec::new();
    push_all(&mut r, v);
    r.push('/');
    assert(r@ =~= v@.push('/'));
    r
}

/// Whether `path` is `prefix` or lies beneath it.
fn at_or_under_exec(prefix: &Vec<char>, path: &Vec<char>) -> (r: bool)
    ensures
        r == at_or_under(prefix@, path@),
{
    if chars_eq(path, prefix) {
        return true;
    }
    let p = with_slash(prefix);
    chars_starts_with(path, &p)
}

/// Whether `rel` is at or under the target-relative `sub` (`""` is the whole
/// target).
pub fn under_matches(sub: &str, rel: &str) -> (r: bool)
    ensures
        r == (sub@.len() == 0 || at_or_under(sub@, rel@)),
{
    let s = chars_of(sub);
    let p = chars_of(rel);
    s.len() == 0 || at_or_under_exec(&s, &p)
}

/// Whether `path` equals `prefix` or is a file or folder beneath it.
pub fn prefix_matches(prefix: &str, path: &str) -> (r: bool)
    ensures
        r == at_or_under(prefix@, path@),
{
    let a = chars_of(prefix);
    let b = chars_of(path);
    at_or_under_exec(&a, &b)
}

/// `path` made absolute lexically against the working directory `cwd` (the
/// caller reads it; `None` when it cannot be read).
pub fn abs_lexical(path: &str, cwd: Option<&str>) -> (r: String)
    ensures
        r@ == spec_abs_lexical(path@, match cwd { Some(c) => Some(c@), None => None }),
{
    let p = chars_of(path);
    let r = abs_lexical_chars(&p, cwd);
    string_of(&r)
}

fn abs_lexical_chars(p: &Vec<char>, cwd: Option<&str>) -> (r: Vec<char>)
    ensures
        r@ == spec_abs_lexical(p@, match cwd { Some(c) => Some(c@), None => None }),
{
    if p.len() > 0 && p[0] == '/' {
        return trim_slashes(p);
    }
    match cwd {
        Some(c) => {
            let base = chars_of(c);
            let mut joined: Vec<char> = Vec::new();
            push_all(&mut joined, &base);
            if !(base.len() == 0 || base[base.len() - 1] == '/') {
                joined.push('/');
            }
            push_all(&mut joined, p);
            assert(joined@ =~= lexical_join(c@, p@));
            trim_slashes(&joined)
        },
        None => trim_slashes(p),
    }
}

/// Where a normalized focus entry lies under the analysis target, if it does:
/// `Some("")` for the target itself, `Some(rest)` beneath it, `None` otherwise.
pub fn target_subpath(entry: &str, target: &str, cwd: Option<&str>) -> (r: Option<String>)
    ensures
        match r {
            Some(s) => spec_target_subpath(entry@, target@, match cwd { Some(c) => Some(c@), None => None }) == Some(s@),
            None => spec_target_subpath(entry@, target@, match cwd { Some(c) => Some(c@), None => None }) is None,
        },
{
    let e = chars_of(entry);
    let tv = chars_of(target);
    let td = trim_dot_slash(&tv);
    let t = trim_slashes(&td);
    let dot = chars_of(".");
    let direct = t.len() > 0 && !chars_eq(&t, &dot);
    if direct && chars_eq(&e, &t) {
        return Some(String::new());
    }
    let ts = with_slash(&t);
    assert(ts@.len() == t@.len() + 1);
    if direct && chars_starts_with(&e, &ts) {
        let rest = slice_chars(&e, ts.len(), e.len());
        assert(rest@ =~= e@.skip(t@.len() + 1int));
        return Some(string_of(&rest));
    }
    let at = abs_lexical_chars(&t, cwd);
    let af = abs_lexical_chars(&e, cwd);
    if chars_eq(&af, &at) {
        return Some(String::new());
    }
    let ats = with_slash(&at);
    assert(ats@.len() == at@.len() + 1);
    if chars_starts_with(&af, &ats) {
        let rest = slice_chars(&af, ats.len(), af.len());
        assert(rest@ =~= af@.skip(at@.len() + 1int));
        Some(string_of(&rest))
    } else {
        None
    }
}

/// A node id without its leading `{root}/` token.
pub fn clean_path(id: &str) -> (r: String)
    ensures
        r@ == spec_clean_path(id@),
{
    let v = chars_of(id);
    if !(v.len() > 0 && v[0] == '{') {
        return string_of(&v);
    }
    let rest = slice_chars(&v, 1, v.len());
    assert(rest@ =~= v@.skip(1));
    let mut i: usize = 0;
    while rest.len() - i >= 2
        invariant
            i <= rest@.len(),
            rest@ == id@.skip(1),
            v@ == id@,
            v@.len() > 0 && v@[0] == '{',
            close_brace_slash(rest@, i as int) == close_brace_slash(rest@, 0),
        decreases rest.len() - i,
    {
        if rest[i] == '}' && rest[i + 1] == '/' {
            assert(close_brace_slash(rest@, i as int) == Some(i as int));
            let out = slice_chars(&rest, i + 2, rest.len());
            assert(out@ =~= rest@.skip(i + 2));
            return string_of(&out);
        }
        i = i + 1;
    }
    string_of(&v)
}

/// One focus entry.
#[derive(Debug)]
pub struct FocusEntry {
    under_target: Option<String>,
    raw: String,
}

impl FocusEntry {
    /// The entry's abstract form.
    pub closed spec fn view_entry(&self) -> EntryView {
        (match self.under_target { Some(s) => Some(s@), None => None }, self.raw@)
    }

    /// Whether this entry covers a node (see `entry_matches`).
    pub fn matches(&self, under: Option<&str>, rel: &str, abs: Option<&str>) -> (r: bool)
        ensures
            r == entry_matches(
                self.view_entry(),
                match under { Some(u) => Some(u@), None => None },
                rel@,
                match abs { Some(a) => Some(a@), None => None },
            ),
    {
        match &self.under_target {
            Some(sub) => match under {
                Some(u) => under_matches(sub.as_str(), u),
                None => false,
            },
            None => {
                prefix_matches(self.raw.as_str(), rel) || match abs {
                    Some(a) => prefix_matches(self.raw.as_str(), a),
                    None => false,
                }
            },
        }
    }
}

/// A `--focus-path` set resolved against the analysis target.
#[derive(Debug)]
pub struct FocusPaths {
    entries: Vec<FocusEntry>,
    target: String,
}

impl View for FocusPaths {
    type V = FocusView;

    closed spec fn view(&self) -> FocusView {
        FocusView {
            entries: self.entries@.map_values(|e: FocusEntry| e.view_entry()),
            target: self.target@,
        }
    }
}

impl FocusPaths {
    /// Resolves the raw `--focus-path` values against `target`; `cwd` is the
    /// working directory absolute paths are reconstructed against (`None` when
    /// it cannot be read).
    pub fn new(raw: &[String], target: &str, cwd: Option<&str>) -> (r: Self)
        ensures
            r@.entries == spec_entries(
                raw@.map_values(|s: String| s@),
                target@,
                match cwd { Some(c) => Some(c@), None => None },
            ),
            r@.target == strip_trailing_slashes(target@),
    {
        let ghost cw = match cwd { Some(c) => Some(c@), None => None::<Seq<char>> };
        let ghost raws = raw@.map_values(|s: String| s@);
        let mut entries: Vec<FocusEntry> = Vec::new();
        let mut i: usize = 0;
        while i < raw.len()
            invariant
                i <= raw@.len(),
                raws == raw@.map_values(|s: String| s@),
                cw == match cwd { Some(c) => Some(c@), None => None::<Seq<char>> },
                entries@.map_values(|e: FocusEntry| e.view_entry()) == spec_entries(raws.take(i as int), target@, cw),
            decreases raw.len() - i,
        {
            assert(raws.take(i + 1).drop_last() =~= raws.take(i as int));
            assert(raws.take(i + 1).last() == raw@[i as int]@);
            let fv = chars_of(raw[i].as_str());
            let fd = trim_dot_slash(&fv);
            let f = trim_slashes(&fd);
            if f.len() > 0 {
                let fs = string_of(&f);
                let sub = target_subpath(fs.as_str(), target, cwd);
                let ghost before = entries@.map_values(|e: FocusEntry| e.view_entry());
                let ent = FocusEntry { under_target: sub, raw: fs };
                assert(ent.view_entry() == (spec_target_subpath(f@, target@, cw), f@));
                entries.push(ent);
                assert(entries@.map_values(|e: FocusEntry| e.view_entry()) =~= before.push(ent.view_entry()));
            }
            i = i + 1;
        }
        assert(raws.take(raw@.len() as int) =~= raws);
        let tv = chars_of(target);
        let t = trim_slashes(&tv);
        FocusPaths { entries, target: string_of(&t) }
    }

    /// Whether no entry was given (no restriction).
    pub fn is_empty(&self) -> (r: bool)
        ensures
            r == (self@.entries.len() == 0),
    {
        self.entries.len() == 0
    }

    /// Whether some entry covers the node with the raw, token-carrying id `id`.
    pub fn matches_id(&self, id: &str) -> (r: bool)
        ensures
            r == spec_matches_id(self@, id@),
    {
        let v = chars_of(id);
        let tok = chars_of("{target}/");
        let under: Option<String> = if chars_starts_with(&v, &tok) {
            let u = slice_chars(&v, tok.len(), v.len());
            assert(u@ =~= id@.skip(target_token().len() as int));
            Some(string_of(&u))
        } else {
            None
        };
        let rel = clean_path(id);
        let ghost su = if is_prefix(target_token(), id@) {
            Some(id@.skip(target_token().len() as int))
        } else {
            None::<Seq<char>>
        };
        assert(crate::strs::opt_view(under) == su);
        let abs: Option<String> = match &under {
            Some(u) => {
                let mut a = chars_of(self.target.as_str());
                a.push('/');
                let uv = chars_of(u.as_str());
                let ghost a0 = a@;
                push_all(&mut a, &uv);
                Some(string_of(&a))
            },
            None => None,
        };
        let ghost gu = crate::strs::opt_view(under);
        let ghost ga = crate::strs::opt_view(abs);
        assert(ga == match gu { Some(r) => Some(self@.target.push('/') + r), None => None::<Seq<char>> });
        let mut i: usize = 0;
        while i < self.entries.len()
            invariant
                i <= self.entries@.len(),
                gu == crate::strs::opt_view(under),
                gu == su,
                rel@ == spec_clean_path(id@),
                su == (if is_prefix(target_token(), id@) {
                    Some(id@.skip(target_token().len() as int))
                } else {
                    None::<Seq<char>>
                }),
                ga == match gu { Some(r) => Some(self@.target.push('/') + r), None => None::<Seq<char>> },
                ga == crate::strs::opt_view(abs),
                forall|k: int| 0 <= k < i ==> !entry_matches(self@.entries[k], gu, rel@, ga),
            decreases self.entries.len() - i,
        {
            let hit = match (&under, &abs) {
                (Some(u), Some(a)) => self.entries[i].matches(Some(u.as_str()), rel.as_str(), Some(a.as_str())),
                (Some(u), None) => self.entries[i].matches(Some(u.as_str()), rel.as_str(), None),
                (None, Some(a)) => self.entries[i].matches(None, rel.as_str(), Some(a.as_str())),
                (None, None) => self.entries[i].matches(None, rel.as_str(), None),
            };
            assert(self@.entries[i as int] == self.entries@[i as int].view_entry());
            if hit {
                assert(entry_matches(self@.entries[i as int], su, spec_clean_path(id@), ga));
                return true;
            }
            i = i + 1;
        }
        false
    }

    /// Whether some entry covers the node at the target-relative path `rel`.
    pub fn matches_target_rel(&self, rel: &str) -> (r: bool)
        ensures
            r == spec_matches_target_rel(self@, rel@),
    {
        let mut a = chars_of(self.target.as_str());
        a.push('/');
        let rv = chars_of(rel);
        push_all(&mut a, &rv);
        let abs = string_of(&a);
        let mut i: usize = 0;
        while i < self.entries.len()
            invariant
                i <= self.entries@.len(),
                abs@ == self@.target.push('/') + rel@,
                forall|k: int| 0 <= k < i ==> !entry_matches(self@.entries[k], Some(rel@), rel@, Some(abs@)),
            decreases self.entries.len() - i,
        {
            assert(self@.entries[i as int] == self.entries@[i as int].view_entry());
            if self.entries[i].matches(Some(rel), rel, Some(abs.as_str())) {
                return true;
            }
            i = i + 1;
        }
        false
    }
}

/// Whether the node with id `node_id` falls under the focus set (an empty set
/// restricts nothing).
pub fn in_focus(node_id: &str, focus: &FocusPaths) -> (r: bool)
    ensures
        r == (focus@.entries.len() == 0 || spec_matches_id(focus@, node_id@)),
{
    focus.is_empty() || focus.matches_id(node_id)
}

} // verus!
