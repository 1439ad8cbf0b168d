//! Text helpers for custom checks: whole-word identifier scanning and `{key}`
//! message interpolation.

use vstd::prelude::*;
use crate::maps::NameMap;
use crate::strs::{chars_of, chars_occur_at, occurs_at, push_all, slice_chars, string_of};

verus! {

/// An identifier character: an ASCII letter or digit, or `_`.
pub open spec fn is_word_char(c: char) -> bool {
    ('a' <= c && c <= 'z') || ('A' <= c && c <= 'Z') || ('0' <= c && c <= '9') || c == '_'
}

fn word_char(c: char) -> (r: bool)
    ensures
        r == is_word_char(c),
{
    ('a' <= c && c <= 'z') || ('A' <= c && c <= 'Z') || ('0' <= c && c <= '9') || c == '_'
}

/// `w` occurs in `s` at `i` as a whole word: not preceded or followed by an
/// identifier character.
pub open spec fn whole_word_at(s: Seq<char>, w: Seq<char>, i: int) -> bool {
    &&& occurs_at(s, w, i)
    &&& (i == 0 || !is_word_char(s[i - 1]))
    &&& (i + w.len() == s.len() || !is_word_char(s[i + w.len()]))
}

/// The positions at or after `from` where `w` occurs in `s` as a whole word,
/// ascending.
pub open spec fn spec_word_positions(s: Seq<char>, w: Seq<char>, from: int) -> Seq<int>
    decreases s.len() + 1 - from,
{
    if from < 0 || from + w.len() > s.len() {
        Seq::empty()
    } else if whole_word_at(s, w, from) {
        seq![from] + spec_word_positions(s, w, from + 1)
    } else {
        spec_word_positions(s, w, from + 1)
    }
}

proof fn lemma_positions_skip(s: Seq<char>, w: Seq<char>, from: int, to: int)
    requires
        0 <= from <= to,
        forall|i: int| from <= i < to ==> !whole_word_at(s, w, i),
    ensures
        spec_word_positions(s, w, from) == spec_word_positions(s, w, to),
    decreases to - from,
{
    if from < to && from + w.len() <= s.len() {
        lemma_positions_skip(s, w, from + 1, to);
    } else if from < to {
        lemma_positions_beyond(s, w, from, to);
    }
}

proof fn lemma_positions_beyond(s: Seq<char>, w: Seq<char>, from: int, to: int)
    requires
        0 <= from <= to,
        from + w.len() > s.len(),
    ensures
        spec_word_positions(s, w, from) == spec_word_positions(s, w, to),
        spec_word_positions(s, w, from) == Seq::<int>::empty(),
{
}

/// Whether `w` occurs in `s` at `i` as a whole word.
fn whole_word_at_exec(s: &Vec<char>, w: &Vec<char>, i: usize) -> (r: bool)
    ensures
        r == whole_word_at(s@, w@, i as int),
{
    if !chars_occur_at(s, w, i) {
        return false;
    }
    let before_ok = i == 0 || !word_char(s[i - 1]);
    let wl = w.len();
    assert(occurs_at(s@, w@, i as int));
    assert(i + wl <= s.len());
    let end = i + wl;
    let after_ok = end == s.len() || !word_char(s[end]);
    before_ok && after_ok
}

/// Character offsets of every whole-word occurrence of `w` in `s`, ascending.
fn word_positions(s: &Vec<char>, w: &Vec<char>) -> (r: Vec<usize>)
    requires
        w@.len() > 0,
    ensures
        r@.map_values(|i: usize| i as int) == spec_word_positions(s@, w@, 0),
{
    let mut out: Vec<usize> = Vec::new();
    if w.len() > s.len() {
        assert(spec_word_positions(s@, w@, 0) == Seq::<int>::empty());
        assert(out@.map_values(|i: usize| i as int) =~= Seq::<int>::empty());
        return out;
    }
    let limit = s.len() - w.len() + 1;
    let mut from: usize = 0;
    while from < limit
        invariant
            w@.len() > 0,
            limit == s@.len() - w@.len() + 1,
            from <= limit,
            out@.map_values(|i: usize| i as int) + spec_word_positions(s@, w@, from as int)
                == spec_word_positions(s@, w@, 0),
        decreases s.len() + 1 - from,
    {
        let ghost before = out@.map_values(|i: usize| i as int);
        if whole_word_at_exec(s, w, from) {
            out.push(from);
            assert(out@.map_values(|i: usize| i as int) =~= before.push(from as int));
            assert(seq![from as int] + spec_word_positions(s@, w@, from + 1) == spec_word_positions(s@, w@, from as int));
            assert(before + spec_word_positions(s@, w@, from as int) =~= before.push(from as int) + spec_word_positions(s@, w@, from + 1));
        }
        from = from + 1;
    }
    assert(spec_word_positions(s@, w@, from as int) == Seq::<int>::empty());
    assert(out@.map_values(|i: usize| i as int) + Seq::<int>::empty() =~= out@.map_values(|i: usize| i as int));
    out
}

/// The scan for whole-word occurrences of `w` in `s` can step past every
/// match: `w` is non-empty, and its first character is ASCII unless it never
/// occurs in `s`.
pub open spec fn scannable(s: Seq<char>, w: Seq<char>) -> bool {
    w.len() > 0 && ((w[0] as u32) < 128 || !exists|i: int| occurs_at(s, w, i))
}

/// Whether `haystack` references identifier `word` as a whole word (not as
/// part of a larger identifier).
pub fn references(haystack: &str, word: &str) -> (r: bool)
    requires
        scannable(haystack@, word@),
    ensures
        r == (spec_word_positions(haystack@, word@, 0).len() > 0),
{
    let h = chars_of(haystack);
    let w = chars_of(word);
    let p = word_positions(&h, &w);
    p.len() > 0
}

/// `s` with the whole-word occurrences at `ps` (from `last` on) replaced by
/// `r`, each occurrence `n` characters long.
pub open spec fn spec_splice(s: Seq<char>, ps: Seq<int>, n: int, r: Seq<char>, last: int) -> Seq<char>
    decreases ps.len(),
{
    if ps.len() == 0 {
        s.subrange(last, s.len() as int)
    } else {
        s.subrange(last, ps[0]) + r + spec_splice(s, ps.drop_first(), n, r, ps[0] + n)
    }
}

/// Whole-word occurrences of `w` in `s` never overlap.
pub open spec fn occurrences_disjoint(s: Seq<char>, w: Seq<char>) -> bool {
    forall|a: int, b: int| a < b && #[trigger] whole_word_at(s, w, a) && #[trigger] whole_word_at(s, w, b) ==> a + w.len() <= b
}

/// `s` with every whole-word occurrence of `w` replaced by `r`.
pub open spec fn spec_replace_word(s: Seq<char>, w: Seq<char>, r: Seq<char>) -> Seq<char> {
    spec_splice(s, spec_word_positions(s, w, 0), w.len() as int, r, 0)
}

proof fn lemma_positions_props(s: Seq<char>, w: Seq<char>, from: int)
    requires
        from >= 0,
    ensures
        forall|j: int| 0 <= j < spec_word_positions(s, w, from).len() ==>
            from <= #[trigger] spec_word_positions(s, w, from)[j]
            && whole_word_at(s, w, spec_word_positions(s, w, from)[j])
            && spec_word_positions(s, w, from)[j] + w.len() <= s.len(),
        forall|a: int, b: int| 0 <= a < b < spec_word_positions(s, w, from).len() ==>
            #[trigger] spec_word_positions(s, w, from)[a] < #[trigger] spec_word_positions(s, w, from)[b],
    decreases s.len() + 1 - from,
{
    if from + w.len() <= s.len() {
        lemma_positions_props(s, w, from + 1);
        let rest = spec_word_positions(s, w, from + 1);
        let all = spec_word_positions(s, w, from);
        if whole_word_at(s, w, from) {
            assert(all == seq![from] + rest);
            assert forall|j: int| 0 <= j < all.len() implies from <= #[trigger] all[j] && whole_word_at(s, w, all[j])
                && all[j] + w.len() <= s.len() by {
                if j > 0 {
                    assert(all[j] == rest[j - 1]);
                }
            }
            assert forall|a: int, b: int| 0 <= a < b < all.len() implies #[trigger] all[a] < #[trigger] all[b] by {
                assert(all[b] == rest[b - 1]);
                if a > 0 {
                    assert(all[a] == rest[a - 1]);
                }
            }
        }
    }
}

/// Replaces every whole-word occurrence of `word` in `s` with `repl`. String
/// contents are copied through unchanged, since only identifier boundaries
/// count.
pub fn replace_word(s: &str, word: &str, repl: &str) -> (r: String)
    requires
        scannable(s@, word@),
        occurrences_disjoint(s@, word@),
    ensures
        r@ == spec_replace_word(s@, word@, repl@),
{
    let sc = chars_of(s);
    let w = chars_of(word);
    let rc = chars_of(repl);
    let ps = word_positions(&sc, &w);
    let ghost pv = ps@.map_values(|i: usize| i as int);
    proof {
        lemma_positions_props(sc@, w@, 0);
    }
    let mut out: Vec<char> = Vec::new();
    let mut last: usize = 0;
    let mut k: usize = 0;
    assert(pv.skip(0) =~= pv);
    while k < ps.len()
        invariant
            k <= ps@.len(),
            pv == ps@.map_values(|i: usize| i as int),
            pv == spec_word_positions(sc@, w@, 0),
            sc@ == s@ && w@ == word@ && rc@ == repl@,
            occurrences_disjoint(s@, word@),
            forall|j: int| 0 <= j < pv.len() ==> 0 <= #[trigger] pv[j] && whole_word_at(sc@, w@, pv[j]) && pv[j] + w@.len() <= sc@.len(),
            forall|a: int, b: int| 0 <= a < b < pv.len() ==> #[trigger] pv[a] < #[trigger] pv[b],
            last <= sc@.len(),
            k < pv.len() ==> last <= pv[k as int],
            out@ + spec_splice(sc@, pv.skip(k as int), w@.len() as int, rc@, last as int)
                == spec_splice(sc@, pv, w@.len() as int, rc@, 0),
        decreases ps.len() - k,
    {
        let start = ps[k];
        assert(pv[k as int] == start as int);
        let seg = slice_chars(&sc, last, start);
        let ghost before = out@;
        push_all(&mut out, &seg);
        push_all(&mut out, &rc);
        assert(pv.skip(k as int).drop_first() =~= pv.skip(k + 1));
        assert(pv.skip(k as int)[0] == start as int);
        assert(out@ + spec_splice(sc@, pv.skip(k + 1), w@.len() as int, rc@, start + w@.len())
            =~= before + spec_splice(sc@, pv.skip(k as int), w@.len() as int, rc@, last as int));
        last = start + w.len();
        if k + 1 < ps.len() {
            assert(pv[k as int] < pv[k + 1]);
            assert(whole_word_at(s@, word@, pv[k as int]) && whole_word_at(s@, word@, pv[k + 1]));
        }
        k = k + 1;
    }
    let tail = slice_chars(&sc, last, sc.len());
    assert(pv.skip(k as int) =~= Seq::<int>::empty());
    push_all(&mut out, &tail);
    assert(spec_splice(sc@, pv, w@.len() as int, rc@, 0) == spec_replace_word(s@, word@, repl@));
    string_of(&out)
}

/// Replacing a word by itself leaves the text unchanged.
pub proof fn lemma_replace_word_identity(s: Seq<char>, w: Seq<char>)
    requires
        occurrences_disjoint(s, w),
    ensures
        spec_replace_word(s, w, w) == s,
{
    lemma_positions_props(s, w, 0);
    let ps = spec_word_positions(s, w, 0);
    assert forall|a: int, b: int| 0 <= a < b < ps.len() implies #[trigger] ps[a] + w.len() <= #[trigger] ps[b] by {
        assert(whole_word_at(s, w, ps[a]) && whole_word_at(s, w, ps[b]));
    }
    lemma_splice_identity(s, w, spec_word_positions(s, w, 0), 0);
    assert(s.subrange(0, s.len() as int) =~= s);
}

proof fn lemma_splice_len(s: Seq<char>, ps: Seq<int>, n: int, r: Seq<char>, last: int)
    requires
        0 <= last <= s.len(),
        n >= 0,
        forall|j: int| 0 <= j < ps.len() ==> last <= #[trigger] ps[j] && ps[j] + n <= s.len(),
        forall|a: int, b: int| 0 <= a < b < ps.len() ==> #[trigger] ps[a] + n <= #[trigger] ps[b],
    ensures
        spec_splice(s, ps, n, r, last).len() == (s.len() - last) + ps.len() * (r.len() - n),
    decreases ps.len(),
{
    if ps.len() > 0 {
        let p0 = ps[0];
        let rest = ps.drop_first();
        assert forall|j: int| 0 <= j < rest.len() implies p0 + n <= #[trigger] rest[j] && rest[j] + n <= s.len() by {
            assert(rest[j] == ps[j + 1]);
        }
        assert forall|a: int, b: int| 0 <= a < b < rest.len() implies #[trigger] rest[a] + n <= #[trigger] rest[b] by {
            assert(rest[a] == ps[a + 1] && rest[b] == ps[b + 1]);
        }
        lemma_splice_len(s, rest, n, r, p0 + n);
        let k = ps.len() as int;
        let d = r.len() - n;
        assert((k - 1) * d + d == k * d) by (nonlinear_arith);
    }
}

/// An ASCII letter or digit, or `_` (by code point).
pub open spec fn ascii_ident_char(c: char) -> bool {
    let u = c as u32;
    (97 <= u && u <= 122) || (65 <= u && u <= 90) || (48 <= u && u <= 57) || u == 95
}

proof fn lemma_word_char_code(c: char)
    ensures
        is_word_char(c) == ascii_ident_char(c),
{
}

proof fn lemma_positions_complete(s: Seq<char>, w: Seq<char>, from: int, i: int)
    requires
        0 <= from <= i,
        whole_word_at(s, w, i),
    ensures
        spec_word_positions(s, w, from).contains(i),
    decreases i - from,
{
    if from == i {
        assert(spec_word_positions(s, w, from)[0] == i);
    } else {
        lemma_positions_complete(s, w, from + 1, i);
        let rest = spec_word_positions(s, w, from + 1);
        let k = choose|k: int| 0 <= k < rest.len() && rest[k] == i;
        if whole_word_at(s, w, from) {
            assert(spec_word_positions(s, w, from)[k + 1] == i);
        }
    }
}

/// The occurrences of a word that get replaced (and that `references` finds)
/// are exactly those standing alone: an occurrence with an ASCII letter, an
/// ASCII digit or `_` right before or right after it is part of a longer
/// identifier and is left as it is.
pub proof fn lemma_replaced_occurrences(s: Seq<char>, w: Seq<char>, i: int)
    ensures
        spec_word_positions(s, w, 0).contains(i) <==> {
            &&& occurs_at(s, w, i)
            &&& (i == 0 || !ascii_ident_char(s[i - 1]))
            &&& (i + w.len() == s.len() || !ascii_ident_char(s[i + w.len()]))
        },
{
    lemma_positions_props(s, w, 0);
    if 0 < i <= s.len() {
        lemma_word_char_code(s[i - 1]);
    }
    if 0 <= i + w.len() < s.len() {
        lemma_word_char_code(s[i + w.len()]);
    }
    let ps = spec_word_positions(s, w, 0);
    if ps.contains(i) {
        let k = choose|k: int| 0 <= k < ps.len() && ps[k] == i;
        assert(whole_word_at(s, w, ps[k]));
    }
    if occurs_at(s, w, i) && (i == 0 || !ascii_ident_char(s[i - 1])) && (i + w.len() == s.len()
        || !ascii_ident_char(s[i + w.len()])) {
        lemma_positions_complete(s, w, 0, i);
    }
}

/// Replacing a word changes the length by the length difference once per
/// whole-word occurrence, and a text without an occurrence is unchanged.
pub proof fn lemma_replace_word_length(s: Seq<char>, w: Seq<char>, r: Seq<char>)
    requires
        occurrences_disjoint(s, w),
    ensures
        spec_replace_word(s, w, r).len()
            == s.len() + spec_word_positions(s, w, 0).len() * (r.len() - w.len()),
        spec_word_positions(s, w, 0).len() == 0 ==> spec_replace_word(s, w, r) == s,
{
    lemma_positions_props(s, w, 0);
    let ps = spec_word_positions(s, w, 0);
    assert forall|a: int, b: int| 0 <= a < b < ps.len() implies #[trigger] ps[a] + w.len() <= #[trigger] ps[b] by {
        assert(whole_word_at(s, w, ps[a]) && whole_word_at(s, w, ps[b]));
    }
    lemma_splice_len(s, ps, w.len() as int, r, 0);
    if ps.len() == 0 {
        assert(s.subrange(0, s.len() as int) =~= s);
    }
}

proof fn lemma_splice_identity(s: Seq<char>, w: Seq<char>, ps: Seq<int>, last: int)
    requires
        0 <= last <= s.len(),
        forall|j: int| 0 <= j < ps.len() ==> last <= #[trigger] ps[j] && occurs_at(s, w, ps[j]),
        forall|a: int, b: int| 0 <= a < b < ps.len() ==> #[trigger] ps[a] + w.len() <= #[trigger] ps[b],
    ensures
        spec_splice(s, ps, w.len() as int, w, last) == s.subrange(last, s.len() as int),
    decreases ps.len(),
{
    if ps.len() > 0 {
        let p0 = ps[0];
        assert forall|j: int| 0 <= j < ps.drop_first().len() implies p0 + w.len() <= #[trigger] ps.drop_first()[j]
            && occurs_at(s, w, ps.drop_first()[j]) by {
            assert(ps.drop_first()[j] == ps[j + 1]);
        }
        assert forall|a: int, b: int| 0 <= a < b < ps.drop_first().len() implies
            #[trigger] ps.drop_first()[a] + w.len() <= #[trigger] ps.drop_first()[b] by {
            assert(ps.drop_first()[a] == ps[a + 1] && ps.drop_first()[b] == ps[b + 1]);
        }
        lemma_splice_identity(s, w, ps.drop_first(), p0 + w.len());
        assert(s.subrange(p0, p0 + w.len()) == w);
        assert(s.subrange(last, p0) + w + s.subrange(p0 + w.len(), s.len() as int) =~= s.subrange(last, s.len() as int));
    }
}

/// The position of the first `c` in `s`, if any.
pub open spec fn first_index(s: Seq<char>, c: char) -> Option<int>
    decreases s.len(),
{
    if s.len() == 0 {
        None
    } else if s[0] == c {
        Some(0)
    } else {
        match first_index(s.drop_first(), c) {
            Some(i) => Some(i + 1),
            None => None,
        }
    }
}

/// `template` with each `{key}` replaced by the value `values` holds for `key`;
/// an unknown key stays verbatim as `{key}`, and text from an unmatched `{` on
/// is copied unchanged.
pub open spec fn spec_render(template: Seq<char>, values: Map<Seq<char>, Seq<char>>) -> Seq<char>
    decreases template.len(),
{
    match first_index(template, '{') {
        None => template,
        Some(open) => {
            let after = template.skip(open + 1);
            match first_index(after, '}') {
                None => template,
                Some(close) => {
                    proof {
                        lemma_first_index_bounds(template, '{');
                        lemma_first_index_bounds(after, '}');
                    }
                    let key = after.take(close);
                    let filled = if values.contains_key(key) { values[key] } else { seq!['{'] + key + seq!['}'] };
                    template.take(open) + filled + spec_render(after.skip(close + 1), values)
                },
            }
        },
    }
}

/// Where the first occurrence of a character lies.
pub proof fn lemma_first_index_bounds(s: Seq<char>, c: char)
    ensures
        first_index(s, c) matches Some(i) ==> 0 <= i < s.len() && s[i] == c
            && forall|j: int| 0 <= j < i ==> s[j] != c,
        first_index(s, c) is None ==> forall|j: int| 0 <= j < s.len() ==> s[j] != c,
    decreases s.len(),
{
    if s.len() > 0 {
        lemma_first_index_bounds(s.drop_first(), c);
        if s[0] != c {
            assert forall|j: int| 0 < j < s.len() implies s[j] == s.drop_first()[j - 1] by {}
        }
    }
}

proof fn lemma_first_index_char(s: Seq<char>, c: char, i: int)
    requires
        0 <= i <= s.len(),
        forall|j: int| 0 <= j < i ==> s[j] != c,
        i == s.len() || s[i] == c,
    ensures
        first_index(s, c) == (if i == s.len() { None::<int> } else { Some(i) }),
    decreases i,
{
    if i > 0 {
        lemma_first_index_char(s.drop_first(), c, i - 1);
    }
}

/// Position of the first `c` in `s[from..]`, relative to `from`.
pub fn find_char(s: &Vec<char>, from: usize, c: char) -> (r: Option<usize>)
    requires
        from <= s.len(),
    ensures
        match r {
            Some(i) => first_index(s@.skip(from as int), c) == Some(i as int),
            None => first_index(s@.skip(from as int), c) is None,
        },
{
    let mut i = from;
    while i < s.len()
        invariant
            from <= i <= s.len(),
            forall|j: int| from <= j < i ==> s@[j] != c,
        decreases s.len() - i,
    {
        if s[i] == c {
            proof {
                lemma_first_index_char(s@.skip(from as int), c, i - from);
            }
            return Some(i - from);
        }
        i = i + 1;
    }
    proof {
        lemma_first_index_char(s@.skip(from as int), c, i - from);
    }
    None
}

/// Fills `{key}` placeholders in a message from `values` (an unknown key, or
/// an unmatched `{`, is left verbatim).
pub fn render_message(template: &str, values: &NameMap<String>) -> (r: String)
    ensures
        r@ == spec_render(template@, crate::use_graph::str_map_view(values@)),
{
    let t = chars_of(template);
    let ghost vals = crate::use_graph::str_map_view(values@);
    let mut out: Vec<char> = Vec::new();
    let mut rest: usize = 0;
    assert(t@.skip(0) =~= t@);
    loop
        invariant
            rest <= t@.len(),
            t@ == template@,
            vals == crate::use_graph::str_map_view(values@),
            out@ + spec_render(t@.skip(rest as int), vals) == spec_render(t@, vals),
        decreases t@.len() - rest,
    {
        let ghost cur = t@.skip(rest as int);
        match find_char(&t, rest, '{') {
            None => {
                let tail = slice_chars(&t, rest, t.len());
                assert(tail@ =~= cur);
                assert(spec_render(cur, vals) == cur);
                push_all(&mut out, &tail);
                return string_of(&out);
            },
            Some(open) => {
                proof {
                    lemma_first_index_bounds(cur, '{');
                }
                let ks = rest + open + 1;
                assert(t@.skip(ks as int) =~= cur.skip(open + 1));
                match find_char(&t, ks, '}') {
                    None => {
                        let tail = slice_chars(&t, rest, t.len());
                        assert(tail@ =~= cur);
                        assert(spec_render(cur, vals) == cur);
                        push_all(&mut out, &tail);
                        return string_of(&out);
                    },
                    Some(close) => {
                        proof {
                            lemma_first_index_bounds(cur.skip(open + 1), '}');
                        }
                        let ghost before = out@;
                        let head = slice_chars(&t, rest, rest + open);
                        assert(head@ =~= cur.take(open as int));
                        push_all(&mut out, &head);
                        let key_chars = slice_chars(&t, ks, ks + close);
                        let ghost after = cur.skip(open + 1);
                        assert(key_chars@ =~= after.take(close as int));
                        let key = string_of(&key_chars);
                        match values.get(key.as_str()) {
                            Some(v) => {
                                let vc = chars_of(v.as_str());
                                push_all(&mut out, &vc);
                            },
                            None => {
                                out.push('{');
                                push_all(&mut out, &key_chars);
                                out.push('}');
                            },
                        }
                        let next = ks + close + 1;
                        assert(t@.skip(next as int) =~= after.skip(close + 1));
                        assert(out@ + spec_render(t@.skip(next as int), vals) =~= before + spec_render(cur, vals));
                        rest = next;
                    },
                }
            },
        }
    }
}

/// A template without placeholders renders unchanged.
pub proof fn lemma_render_plain(template: Seq<char>, values: Map<Seq<char>, Seq<char>>)
    requires
        forall|i: int| 0 <= i < template.len() ==> template[i] != '{',
    ensures
        spec_render(template, values) == template,
{
    lemma_first_index_char(template, '{', template.len() as int);
}

} // verus!
