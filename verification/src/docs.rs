//! The `docs <subject>` reference: categories and their metrics, the principle
//! index, single-category and single-metric cards, and the catalog of every
//! subject, rendered from the principle and metric specs of one plugin.

use vstd::prelude::*;
use crate::config::Preset;
use crate::maps::path_view;
use crate::scorecard::{short_title, strip_principle_id};
use crate::strs::{chars_of, find_chars, find_from, opt_view, push_all, push_str, replace_all, replace_all_str, str_eq, string_of};

verus! {

/// What the docs read of one metric spec.
pub struct AttributeSpec {
    pub name: Option<String>,
    pub label: Option<String>,
    pub short: Option<String>,
    pub group: Option<String>,
    pub description: Option<String>,
    pub formula: Option<String>,
}

/// A category's label and description.
pub struct AttributeGroup {
    pub label: Option<String>,
    pub description: Option<String>,
}

/// Everything the docs render: the principles, the metric specs by key and the
/// category groups by key, each list in key order.
pub struct DocSpecs {
    pub principles: Vec<Preset>,
    pub node_attributes: Vec<(String, AttributeSpec)>,
    pub groups: Vec<(String, AttributeGroup)>,
}

// ---------------------------------------------------------------------------
// Ordering of keys.
// ---------------------------------------------------------------------------

/// `a` sorts strictly before `b` (lexicographic by character, a proper prefix
/// first) — the order of string keys in a sorted set.
pub open spec fn key_lt(a: Seq<char>, b: Seq<char>) -> bool
    decreases a.len(),
{
    if a.len() == 0 {
        b.len() > 0
    } else if b.len() == 0 {
        false
    } else if a[0] != b[0] {
        (a[0] as u32) < (b[0] as u32)
    } else {
        key_lt(a.drop_first(), b.drop_first())
    }
}

/// No key sorts before itself.
pub proof fn lemma_key_lt_irreflexive(a: Seq<char>)
    ensures
        !key_lt(a, a),
    decreases a.len(),
{
    if a.len() > 0 {
        lemma_key_lt_irreflexive(a.drop_first());
    }
}

/// The key order is transitive.
pub proof fn lemma_key_lt_transitive(a: Seq<char>, b: Seq<char>, c: Seq<char>)
    requires
        key_lt(a, b),
        key_lt(b, c),
    ensures
        key_lt(a, c),
    decreases a.len(),
{
    if a.len() > 0 && b.len() > 0 && c.len() > 0 && a[0] == b[0] && b[0] == c[0] {
        lemma_key_lt_transitive(a.drop_first(), b.drop_first(), c.drop_first());
    }
}

/// Of two different keys, one sorts before the other.
pub proof fn lemma_key_lt_total(a: Seq<char>, b: Seq<char>)
    ensures
        key_lt(a, b) || key_lt(b, a) || a == b,
    decreases a.len(),
{
    if a.len() > 0 && b.len() > 0 {
        if a[0] == b[0] {
            lemma_key_lt_total(a.drop_first(), b.drop_first());
            if a.drop_first() == b.drop_first() {
                assert(a =~= seq![a[0]] + a.drop_first());
                assert(b =~= seq![b[0]] + b.drop_first());
            }
        } else {
            let x = a[0] as u32;
            let y = b[0] as u32;
            if x == y {
                vstd::utf8::char_u32_cast(a[0], x);
                vstd::utf8::char_u32_cast(b[0], y);
            }
        }
    } else if a.len() == 0 && b.len() == 0 {
        assert(a =~= b);
    }
}

pub(crate) fn key_less(a: &str, b: &str) -> (r: bool)
    ensures
        r == key_lt(a@, b@),
{
    let x = chars_of(a);
    let y = chars_of(b);
    let mut i: usize = 0;
    proof {
        assert(x@.skip(0) =~= x@);
        assert(y@.skip(0) =~= y@);
    }
    while i < x.len() && i < y.len() && x[i] == y[i]
        invariant
            i <= x@.len(),
            i <= y@.len(),
            key_lt(x@.skip(i as int), y@.skip(i as int)) == key_lt(x@, y@),
        decreases x.len() - i,
    {
        assert(x@.skip(i as int).drop_first() =~= x@.skip(i + 1));
        assert(y@.skip(i as int).drop_first() =~= y@.skip(i + 1));
        i = i + 1;
    }
    if i == x.len() {
        i < y.len()
    } else if i == y.len() {
        false
    } else {
        assert(x@.skip(i as int)[0] == x@[i as int]);
        assert(y@.skip(i as int)[0] == y@[i as int]);
        (x[i] as u32) < (y[i] as u32)
    }
}

proof fn lemma_push_to_set(s: Seq<Seq<char>>, x: Seq<char>)
    ensures
        s.push(x).to_set() == s.to_set().insert(x),
{
    let t = s.push(x);
    assert forall|y: Seq<char>| #[trigger] t.to_set().contains(y) <==> s.to_set().insert(y).contains(y) && (s.to_set().contains(y) || y == x) by {
        if t.to_set().contains(y) {
            let w = choose|w: int| 0 <= w < t.len() && t[w] == y;
            if w < s.len() {
                assert(s[w] == y);
            }
        }
        if s.to_set().contains(y) {
            let w = choose|w: int| 0 <= w < s.len() && s[w] == y;
            assert(t[w] == y);
        }
        if y == x {
            assert(t[s.len() as int] == y);
        }
    }
    assert(t.to_set() =~= s.to_set().insert(x));
}

/// Each key sorts strictly before the next (so no key repeats).
pub open spec fn strictly_sorted(s: Seq<Seq<char>>) -> bool {
    forall|i: int, j: int| 0 <= i < j < s.len() ==> key_lt(#[trigger] s[i], #[trigger] s[j])
}

/// Inserts `k` into the sorted key list `v` unless it is already there.
fn insert_key(v: &mut Vec<String>, k: String)
    requires
        strictly_sorted(path_view(old(v)@)),
    ensures
        strictly_sorted(path_view(final(v)@)),
        path_view(final(v)@).to_set() == path_view(old(v)@).to_set().insert(k@),
{
    let ghost old_v = path_view(v@);
    let mut i: usize = 0;
    while i < v.len() && key_less(v[i].as_str(), k.as_str())
        invariant
            i <= v@.len(),
            old_v == path_view(v@),
            strictly_sorted(old_v),
            forall|q: int| 0 <= q < i ==> key_lt(#[trigger] old_v[q], k@),
        decreases v.len() - i,
    {
        i = i + 1;
    }
    if i < v.len() && str_eq(v[i].as_str(), k.as_str()) {
        assert(old_v[i as int] == k@);
        assert(old_v.to_set().insert(k@) =~= old_v.to_set());
        return;
    }
    proof {
        if i < old_v.len() {
            lemma_key_lt_total(old_v[i as int], k@);
        }
    }
    v.insert(i, k);
    let ghost nv = path_view(v@);
    assert(nv =~= old_v.take(i as int) + seq![k@] + old_v.skip(i as int));
    assert forall|a: int, b: int| 0 <= a < b < nv.len() implies key_lt(#[trigger] nv[a], #[trigger] nv[b]) by {
        if b < i {
            assert(nv[a] == old_v[a] && nv[b] == old_v[b]);
        } else if b == i {
            assert(nv[a] == old_v[a]);
        } else if a < i {
            assert(nv[a] == old_v[a] && nv[b] == old_v[b - 1]);
            assert(key_lt(old_v[a], k@));
            assert(key_lt(k@, old_v[i as int]));
            lemma_key_lt_transitive(old_v[a], k@, old_v[i as int]);
            if b - 1 > i {
                lemma_key_lt_transitive(old_v[a], old_v[i as int], old_v[b - 1]);
            }
        } else if a == i {
            assert(nv[b] == old_v[b - 1]);
            if b - 1 > i {
                lemma_key_lt_transitive(k@, old_v[i as int], old_v[b - 1]);
            }
        } else {
            assert(nv[a] == old_v[a - 1] && nv[b] == old_v[b - 1]);
        }
    }
    assert forall|x: Seq<char>| #[trigger] nv.to_set().contains(x) <==> old_v.to_set().insert(k@).contains(x) by {
        if nv.to_set().contains(x) {
            let w = choose|w: int| 0 <= w < nv.len() && nv[w] == x;
            if w < i {
                assert(old_v[w] == x);
            } else if w > i {
                assert(old_v[w - 1] == x);
            }
        }
        if old_v.to_set().contains(x) && x != k@ {
            let w = choose|w: int| 0 <= w < old_v.len() && old_v[w] == x;
            if w < i {
                assert(nv[w] == x);
            } else {
                assert(nv[w + 1] == x);
            }
        }
        if x == k@ {
            assert(nv[i as int] == x);
        }
    }
    assert(nv.to_set() =~= old_v.to_set().insert(k@));
}

// ---------------------------------------------------------------------------
// Subject resolution helpers.
// ---------------------------------------------------------------------------

/// The keys of a keyed list.
pub open spec fn group_keys(gs: Seq<(String, AttributeGroup)>) -> Seq<Seq<char>> {
    gs.map_values(|e: (String, AttributeGroup)| e.0@)
}

/// The categories metric specs name.
pub open spec fn named_groups(attrs: Seq<(String, AttributeSpec)>) -> Set<Seq<char>> {
    Set::new(|g: Seq<char>| exists|i: int| 0 <= i < attrs.len() && opt_view(#[trigger] attrs[i].1.group) == Some(g))
}

/// Every category key: the defined groups plus every group a metric names.
pub open spec fn category_key_set(specs: DocSpecs) -> Set<Seq<char>> {
    group_keys(specs.groups@).to_set().union(named_groups(specs.node_attributes@))
}

/// Every category key, sorted, each once.
pub fn category_keys(specs: &DocSpecs) -> (r: Vec<String>)
    ensures
        strictly_sorted(path_view(r@)),
        path_view(r@).to_set() == category_key_set(*specs),
{
    let mut keys: Vec<String> = Vec::new();
    let mut i: usize = 0;
    assert(path_view(keys@).to_set() =~= Set::<Seq<char>>::empty());
    while i < specs.groups.len()
        invariant
            i <= specs.groups@.len(),
            strictly_sorted(path_view(keys@)),
            path_view(keys@).to_set() == group_keys(specs.groups@.take(i as int)).to_set(),
        decreases specs.groups.len() - i,
    {
        let ghost before = path_view(keys@).to_set();
        insert_key(&mut keys, specs.groups[i].0.clone());
        assert(group_keys(specs.groups@.take(i + 1)) =~= group_keys(specs.groups@.take(i as int)).push(specs.groups@[i as int].0@));
        proof {
            lemma_push_to_set(group_keys(specs.groups@.take(i as int)), specs.groups@[i as int].0@);
        }
        i = i + 1;
    }
    assert(specs.groups@.take(specs.groups@.len() as int) =~= specs.groups@);
    let ghost base = group_keys(specs.groups@).to_set();
    let mut j: usize = 0;
    while j < specs.node_attributes.len()
        invariant
            j <= specs.node_attributes@.len(),
            base == group_keys(specs.groups@).to_set(),
            strictly_sorted(path_view(keys@)),
            path_view(keys@).to_set() == base.union(named_groups(specs.node_attributes@.take(j as int))),
        decreases specs.node_attributes.len() - j,
    {
        let ghost before = path_view(keys@).to_set();
        let ghost attrs_j = specs.node_attributes@.take(j as int);
        let ghost attrs_j1 = specs.node_attributes@.take(j + 1);
        match &specs.node_attributes[j].1.group {
            Some(g) => {
                insert_key(&mut keys, g.clone());
                assert(named_groups(attrs_j1) =~= named_groups(attrs_j).insert(g@)) by {
                    assert forall|x: Seq<char>| named_groups(attrs_j1).contains(x) <==> #[trigger] named_groups(attrs_j).insert(g@).contains(x) by {
                        if named_groups(attrs_j1).contains(x) {
                            let w = choose|w: int| 0 <= w < attrs_j1.len() && opt_view(#[trigger] attrs_j1[w].1.group) == Some(x);
                            if w < j {
                                assert(attrs_j[w] == attrs_j1[w]);
                            }
                        }
                        if named_groups(attrs_j).contains(x) {
                            let w = choose|w: int| 0 <= w < attrs_j.len() && opt_view(#[trigger] attrs_j[w].1.group) == Some(x);
                            assert(attrs_j1[w] == attrs_j[w]);
                        }
                        if x == g@ {
                            assert(opt_view(attrs_j1[j as int].1.group) == Some(x));
                        }
                    }
                }
            },
            None => {
                assert(named_groups(attrs_j1) =~= named_groups(attrs_j)) by {
                    assert forall|x: Seq<char>| named_groups(attrs_j1).contains(x) <==> #[trigger] named_groups(attrs_j).contains(x) by {
                        if named_groups(attrs_j1).contains(x) {
                            let w = choose|w: int| 0 <= w < attrs_j1.len() && opt_view(#[trigger] attrs_j1[w].1.group) == Some(x);
                            if w < j {
                                assert(attrs_j[w] == attrs_j1[w]);
                            }
                        }
                        if named_groups(attrs_j).contains(x) {
                            let w = choose|w: int| 0 <= w < attrs_j.len() && opt_view(#[trigger] attrs_j[w].1.group) == Some(x);
                            assert(attrs_j1[w] == attrs_j[w]);
                        }
                    }
                }
            },
        }
        assert(path_view(keys@).to_set() =~= base.union(named_groups(attrs_j1)));
        j = j + 1;
    }
    assert(specs.node_attributes@.take(specs.node_attributes@.len() as int) =~= specs.node_attributes@);
    keys
}

/// The positions of the metrics in category `key`, in key order.
pub open spec fn spec_metrics_in(attrs: Seq<(String, AttributeSpec)>, key: Seq<char>) -> Seq<int>
    decreases attrs.len(),
{
    if attrs.len() == 0 {
        Seq::empty()
    } else {
        let prev = spec_metrics_in(attrs.drop_last(), key);
        if opt_view(attrs.last().1.group) == Some(key) {
            prev.push(attrs.len() - 1)
        } else {
            prev
        }
    }
}

/// The positions (in `node_attributes`) of the metrics in category `key`.
pub fn metrics_in_category(specs: &DocSpecs, key: &str) -> (r: Vec<usize>)
    ensures
        r@.map_values(|i: usize| i as int) == spec_metrics_in(specs.node_attributes@, key@),
{
    let mut out: Vec<usize> = Vec::new();
    let mut i: usize = 0;
    while i < specs.node_attributes.len()
        invariant
            i <= specs.node_attributes@.len(),
            out@.map_values(|q: usize| q as int) == spec_metrics_in(specs.node_attributes@.take(i as int), key@),
        decreases specs.node_attributes.len() - i,
    {
        assert(specs.node_attributes@.take(i + 1).drop_last() =~= specs.node_attributes@.take(i as int));
        let in_cat = match &specs.node_attributes[i].1.group {
            Some(g) => str_eq(g.as_str(), key),
            None => false,
        };
        if in_cat {
            out.push(i);
            assert(out@.map_values(|q: usize| q as int) =~= spec_metrics_in(specs.node_attributes@.take(i as int), key@).push(i as int));
        }
        i = i + 1;
    }
    assert(specs.node_attributes@.take(specs.node_attributes@.len() as int) =~= specs.node_attributes@);
    out
}

/// A metric's display name: its name, else its label, else the key.
pub open spec fn spec_metric_name(spec: AttributeSpec, key: Seq<char>) -> Seq<char> {
    match spec.name {
        Some(n) => n@,
        None => match spec.label {
            Some(l) => l@,
            None => key,
        },
    }
}

/// A metric's display name (see `spec_metric_name`).
pub fn metric_name<'a>(spec: &'a AttributeSpec, key: &'a str) -> (r: &'a str)
    ensures
        r@ == spec_metric_name(*spec, key@),
{
    match &spec.name {
        Some(n) => n.as_str(),
        None => match &spec.label {
            Some(l) => l.as_str(),
            None => key,
        },
    }
}

/// The group stored under `key`, if any.
pub open spec fn group_lookup(gs: Seq<(String, AttributeGroup)>, key: Seq<char>) -> Option<AttributeGroup>
    decreases gs.len(),
{
    if gs.len() == 0 {
        None
    } else if gs[0].0@ == key {
        Some(gs[0].1)
    } else {
        group_lookup(gs.drop_first(), key)
    }
}

fn find_group<'a>(gs: &'a Vec<(String, AttributeGroup)>, key: &str) -> (r: Option<&'a AttributeGroup>)
    ensures
        match r {
            Some(g) => group_lookup(gs@, key@) == Some(*g),
            None => group_lookup(gs@, key@) is None,
        },
{
    let mut i: usize = 0;
    assert(gs@.skip(0) =~= gs@);
    while i < gs.len()
        invariant
            i <= gs@.len(),
            group_lookup(gs@.skip(i as int), key@) == group_lookup(gs@, key@),
        decreases gs.len() - i,
    {
        assert(gs@.skip(i as int).drop_first() =~= gs@.skip(i + 1));
        if str_eq(gs[i].0.as_str(), key) {
            return Some(&gs[i].1);
        }
        i = i + 1;
    }
    None
}

/// A category's label, else its key.
pub open spec fn spec_category_label(specs: DocSpecs, key: Seq<char>) -> Seq<char> {
    match group_lookup(specs.groups@, key) {
        Some(g) => match g.label {
            Some(l) => l@,
            None => key,
        },
        None => key,
    }
}

/// A category's label, else its key.
pub fn category_label(specs: &DocSpecs, key: &str) -> (r: String)
    ensures
        r@ == spec_category_label(*specs, key@),
{
    match find_group(&specs.groups, key) {
        Some(g) => match &g.label {
            Some(l) => l.clone(),
            None => key.to_string(),
        },
        None => key.to_string(),
    }
}

/// A category's description, if it has one.
pub open spec fn spec_category_description(specs: DocSpecs, key: Seq<char>) -> Option<Seq<char>> {
    match group_lookup(specs.groups@, key) {
        Some(g) => opt_view(g.description),
        None => None,
    }
}

fn category_description<'a>(specs: &'a DocSpecs, key: &str) -> (r: Option<&'a str>)
    ensures
        match r {
            Some(d) => spec_category_description(*specs, key@) == Some(d@),
            None => spec_category_description(*specs, key@) is None,
        },
{
    match find_group(&specs.groups, key) {
        Some(g) => match &g.description {
            Some(d) => Some(d.as_str()),
            None => None,
        },
        None => None,
    }
}

/// A principle title without its leading `ID — `.
pub fn principle_title(p: &Preset) -> (r: String)
    ensures
        r@ == short_title(p.title@),
{
    strip_principle_id(p.title.as_str())
}

// ---------------------------------------------------------------------------
// Rendering.
// ---------------------------------------------------------------------------

/// Unicode white space (what `char::is_whitespace` accepts).
pub open spec fn is_ws(c: char) -> bool {
    let u = c as u32;
    u == 0x20 || (0x09 <= u && u <= 0x0D) || u == 0x85 || u == 0xA0 || u == 0x1680
        || (0x2000 <= u && u <= 0x200A) || u == 0x2028 || u == 0x2029 || u == 0x202F || u == 0x205F
        || u == 0x3000
}

pub fn is_ws_char(c: char) -> (r: bool)
    ensures
        r == is_ws(c),
{
    let u = c as u32;
    u == 0x20 || (0x09 <= u && u <= 0x0D) || u == 0x85 || u == 0xA0 || u == 0x1680
        || (0x2000 <= u && u <= 0x200A) || u == 0x2028 || u == 0x2029 || u == 0x202F || u == 0x205F
        || u == 0x3000
}

/// `s` without leading white space.
pub open spec fn trim_start(s: Seq<char>) -> Seq<char>
    decreases s.len(),
{
    if s.len() > 0 && is_ws(s[0]) {
        trim_start(s.drop_first())
    } else {
        s
    }
}

/// `s` without trailing white space.
pub open spec fn trim_end(s: Seq<char>) -> Seq<char>
    decreases s.len(),
{
    if s.len() > 0 && is_ws(s.last()) {
        trim_end(s.drop_last())
    } else {
        s
    }
}

/// `s` without leading or trailing white space (`str::trim`).
pub open spec fn trim(s: Seq<char>) -> Seq<char> {
    trim_end(trim_start(s))
}

/// The first line of a `<br>`-separated description, trimmed.
pub open spec fn spec_one_line(desc: Seq<char>) -> Seq<char> {
    trim(match find_from(desc, "<br>"@, 0) {
        Some(j) => desc.take(j),
        None => desc,
    })
}

pub fn trim_chars(v: &Vec<char>) -> (r: Vec<char>)
    ensures
        r@ == trim(v@),
{
    let mut a: usize = 0;
    assert(v@.skip(0) =~= v@);
    while a < v.len() && is_ws_char(v[a])
        invariant
            a <= v@.len(),
            trim_start(v@.skip(a as int)) == trim_start(v@),
        decreases v.len() - a,
    {
        assert(v@.skip(a as int).drop_first() =~= v@.skip(a + 1));
        a = a + 1;
    }
    let head = crate::strs::slice_chars(v, a, v.len());
    assert(head@ =~= v@.skip(a as int));
    let mut b: usize = head.len();
    assert(head@.take(b as int) =~= head@);
    while b > 0 && is_ws_char(head[b - 1])
        invariant
            b <= head@.len(),
            trim_end(head@.take(b as int)) == trim_end(head@),
        decreases b,
    {
        assert(head@.take(b as int).drop_last() =~= head@.take(b - 1));
        b = b - 1;
    }
    crate::strs::slice_chars(&head, 0, b)
}

/// The first line of a (possibly `<br>`-encoded, multi-line) description.
pub fn one_line(desc: &str) -> (r: String)
    ensures
        r@ == spec_one_line(desc@),
{
    let d = chars_of(desc);
    let br = chars_of("<br>");
    let first = match find_chars(&d, &br, 0) {
        Some(j) => {
            proof {
                lemma_find_from_le(d@, br@, 0);
            }
            crate::strs::slice_chars(&d, 0, j)
        },
        None => d,
    };
    let t = trim_chars(&first);
    string_of(&t)
}

proof fn lemma_find_from_le(s: Seq<char>, p: Seq<char>, i: int)
    ensures
        find_from(s, p, i) matches Some(j) ==> 0 <= j && j + p.len() <= s.len(),
    decreases s.len() - i,
{
    if !(i < 0 || i >= s.len() || i + p.len() > s.len()) && !crate::strs::occurs_at(s, p, i) {
        lemma_find_from_le(s, p, i + 1);
    }
}

/// One metric line: `<indent>- <key>: <display name>`.
pub open spec fn metric_line(attrs: Seq<(String, AttributeSpec)>, p: int) -> Seq<char> {
    "    - "@ + attrs[p].0@ + ": "@ + spec_metric_name(attrs[p].1, attrs[p].0@) + "\n"@
}

/// The metric lines for the given positions, in order.
pub open spec fn metric_lines(attrs: Seq<(String, AttributeSpec)>, ps: Seq<int>) -> Seq<char>
    decreases ps.len(),
{
    if ps.len() == 0 {
        Seq::empty()
    } else {
        metric_lines(attrs, ps.drop_last()) + metric_line(attrs, ps.last())
    }
}

/// A category header: `<key> — <description>` (or its label without one).
pub open spec fn category_header(specs: DocSpecs, key: Seq<char>) -> Seq<char> {
    "\n  "@ + key + match spec_category_description(specs, key) {
        Some(d) => " — "@ + d,
        None => " — "@ + spec_category_label(specs, key),
    } + "\n"@
}

/// The categories, each header followed by its metrics.
pub open spec fn category_sections(specs: DocSpecs, keys: Seq<Seq<char>>) -> Seq<char>
    decreases keys.len(),
{
    if keys.len() == 0 {
        Seq::empty()
    } else {
        category_sections(specs, keys.drop_last()) + category_header(specs, keys.last())
            + metric_lines(specs.node_attributes@, spec_metrics_in(specs.node_attributes@, keys.last()))
    }
}

/// The positions of metrics with no category but with a description.
pub open spec fn uncategorized(attrs: Seq<(String, AttributeSpec)>) -> Seq<int>
    decreases attrs.len(),
{
    if attrs.len() == 0 {
        Seq::empty()
    } else {
        let prev = uncategorized(attrs.drop_last());
        if attrs.last().1.group is None && attrs.last().1.description is Some {
            prev.push(attrs.len() - 1)
        } else {
            prev
        }
    }
}

/// The categories section for the sorted category keys `keys`: every category
/// with its metrics, then the described metrics that have no category.
pub open spec fn categories_text(specs: DocSpecs, keys: Seq<Seq<char>>) -> Seq<char> {
    let un = uncategorized(specs.node_attributes@);
    category_sections(specs, keys) + if un.len() > 0 {
        "\n  (uncategorized)\n"@ + metric_lines(specs.node_attributes@, un)
    } else {
        Seq::empty()
    }
}

fn push_metric_lines(v: &mut Vec<char>, attrs: &Vec<(String, AttributeSpec)>, ps: &Vec<usize>)
    requires
        forall|i: int| 0 <= i < ps@.len() ==> #[trigger] ps@[i] < attrs@.len(),
    ensures
        final(v)@ == old(v)@ + metric_lines(attrs@, ps@.map_values(|q: usize| q as int)),
{
    let ghost start = v@;
    let ghost pv = ps@.map_values(|q: usize| q as int);
    let mut i: usize = 0;
    while i < ps.len()
        invariant
            i <= ps@.len(),
            pv == ps@.map_values(|q: usize| q as int),
            forall|k: int| 0 <= k < ps@.len() ==> #[trigger] ps@[k] < attrs@.len(),
            v@ == start + metric_lines(attrs@, pv.take(i as int)),
        decreases ps.len() - i,
    {
        assert(pv.take(i + 1).drop_last() =~= pv.take(i as int));
        assert(pv.take(i + 1).last() == ps@[i as int] as int);
        let p = ps[i];
        assert(p < attrs@.len());
        let ghost before = v@;
        let key = attrs[p].0.as_str();
        push_str(v, "    - ");
        push_str(v, key);
        push_str(v, ": ");
        let name = metric_name(&attrs[p].1, key);
        push_str(v, name);
        push_str(v, "\n");
        assert(v@ =~= before + metric_line(attrs@, p as int));
        i = i + 1;
    }
    assert(pv.take(ps@.len() as int) =~= pv);
}

proof fn lemma_metrics_in_bounds(attrs: Seq<(String, AttributeSpec)>, key: Seq<char>)
    ensures
        forall|i: int| 0 <= i < spec_metrics_in(attrs, key).len() ==> 0 <= #[trigger] spec_metrics_in(attrs, key)[i] < attrs.len(),
    decreases attrs.len(),
{
    if attrs.len() > 0 {
        lemma_metrics_in_bounds(attrs.drop_last(), key);
        let prev = spec_metrics_in(attrs.drop_last(), key);
        let cur = spec_metrics_in(attrs, key);
        assert forall|i: int| 0 <= i < cur.len() implies 0 <= #[trigger] cur[i] < attrs.len() by {
            if i < prev.len() {
                assert(cur[i] == prev[i]);
            }
        }
    }
}

proof fn lemma_uncategorized_bounds(attrs: Seq<(String, AttributeSpec)>)
    ensures
        forall|i: int| 0 <= i < uncategorized(attrs).len() ==> 0 <= #[trigger] uncategorized(attrs)[i] < attrs.len(),
    decreases attrs.len(),
{
    if attrs.len() > 0 {
        lemma_uncategorized_bounds(attrs.drop_last());
        let prev = uncategorized(attrs.drop_last());
        let cur = uncategorized(attrs);
        assert forall|i: int| 0 <= i < cur.len() implies 0 <= #[trigger] cur[i] < attrs.len() by {
            if i < prev.len() {
                assert(cur[i] == prev[i]);
            }
        }
    }
}

fn push_category_section(v: &mut Vec<char>, specs: &DocSpecs, key: &str)
    ensures
        final(v)@ == old(v)@ + category_header(*specs, key@)
            + metric_lines(specs.node_attributes@, spec_metrics_in(specs.node_attributes@, key@)),
{
    let ghost start = v@;
    push_str(v, "\n  ");
    push_str(v, key);
    match category_description(specs, key) {
        Some(d) => {
            push_str(v, " — ");
            push_str(v, d);
        },
        None => {
            push_str(v, " — ");
            let l = category_label(specs, key);
            push_str(v, l.as_str());
        },
    }
    push_str(v, "\n");
    assert(v@ =~= start + category_header(*specs, key@));
    let ghost mid = v@;
    let ps = metrics_in_category(specs, key);
    proof {
        lemma_metrics_in_bounds(specs.node_attributes@, key@);
        assert forall|i: int| 0 <= i < ps@.len() implies #[trigger] ps@[i] < specs.node_attributes@.len() by {
            assert(ps@.map_values(|q: usize| q as int)[i] == ps@[i] as int);
        }
    }
    push_metric_lines(v, &specs.node_attributes, &ps);
}

fn uncategorized_positions(attrs: &Vec<(String, AttributeSpec)>) -> (r: Vec<usize>)
    ensures
        r@.map_values(|q: usize| q as int) == uncategorized(attrs@),
{
    let mut out: Vec<usize> = Vec::new();
    let mut i: usize = 0;
    while i < attrs.len()
        invariant
            i <= attrs@.len(),
            out@.map_values(|q: usize| q as int) == uncategorized(attrs@.take(i as int)),
        decreases attrs.len() - i,
    {
        assert(attrs@.take(i + 1).drop_last() =~= attrs@.take(i as int));
        if attrs[i].1.group.is_none() && attrs[i].1.description.is_some() {
            out.push(i);
            assert(out@.map_values(|q: usize| q as int) =~= uncategorized(attrs@.take(i as int)).push(i as int));
        }
        i = i + 1;
    }
    assert(attrs@.take(attrs@.len() as int) =~= attrs@);
    out
}

fn push_categories(v: &mut Vec<char>, specs: &DocSpecs)
    ensures
        exists|keys: Seq<Seq<char>>|
            strictly_sorted(keys) && keys.to_set() == category_key_set(*specs)
                && final(v)@ == old(v)@ + categories_text(*specs, keys),
{
    let ghost start = v@;
    let cats = category_keys(specs);
    let ghost keys = path_view(cats@);
    let mut i: usize = 0;
    while i < cats.len()
        invariant
            i <= cats@.len(),
            keys == path_view(cats@),
            v@ == start + category_sections(*specs, keys.take(i as int)),
        decreases cats.len() - i,
    {
        assert(keys.take(i + 1).drop_last() =~= keys.take(i as int));
        assert(keys.take(i + 1).last() == cats@[i as int]@);
        push_category_section(v, specs, cats[i].as_str());
        assert(v@ =~= start + category_sections(*specs, keys.take(i + 1)));
        i = i + 1;
    }
    assert(keys.take(keys.len() as int) =~= keys);
    let ghost mid = v@;
    let un = uncategorized_positions(&specs.node_attributes);
    if un.len() > 0 {
        push_str(v, "\n  (uncategorized)\n");
        proof {
            lemma_uncategorized_bounds(specs.node_attributes@);
            assert forall|i: int| 0 <= i < un@.len() implies #[trigger] un@[i] < specs.node_attributes@.len() by {
                assert(un@.map_values(|q: usize| q as int)[i] == un@[i] as int);
            }
        }
        push_metric_lines(v, &specs.node_attributes, &un);
        assert(v@ =~= start + categories_text(*specs, keys));
    } else {
        assert(v@ =~= start + categories_text(*specs, keys));
    }
}

/// The categories section shared by the metric index and the catalog: each
/// category header with its metrics, then the described uncategorized metrics.
pub fn categories_block(specs: &DocSpecs) -> (r: String)
    ensures
        exists|keys: Seq<Seq<char>>|
            strictly_sorted(keys) && keys.to_set() == category_key_set(*specs)
                && r@ == categories_text(*specs, keys),
{
    let mut v: Vec<char> = Vec::new();
    push_categories(&mut v, specs);
    assert(forall|k: Seq<char>| Seq::<char>::empty() + k == k) by {
        assert forall|k: Seq<char>| Seq::<char>::empty() + k == k by {
            assert(Seq::<char>::empty() + k =~= k);
        }
    }
    string_of(&v)
}

/// One principle line: `<prefix><id>: <title without its ID>`.
pub open spec fn principle_lines(ps: Seq<Preset>, prefix: Seq<char>) -> Seq<char>
    decreases ps.len(),
{
    if ps.len() == 0 {
        Seq::empty()
    } else {
        principle_lines(ps.drop_last(), prefix) + prefix + ps.last().id@ + ": "@ + short_title(ps.last().title@) + "\n"@
    }
}

fn push_principle_lines(v: &mut Vec<char>, ps: &Vec<Preset>, prefix: &str)
    ensures
        final(v)@ == old(v)@ + principle_lines(ps@, prefix@),
{
    let ghost start = v@;
    let mut i: usize = 0;
    while i < ps.len()
        invariant
            i <= ps@.len(),
            v@ == start + principle_lines(ps@.take(i as int), prefix@),
        decreases ps.len() - i,
    {
        assert(ps@.take(i + 1).drop_last() =~= ps@.take(i as int));
        let ghost before = v@;
        push_str(v, prefix);
        push_str(v, ps[i].id.as_str());
        push_str(v, ": ");
        let t = principle_title(&ps[i]);
        push_str(v, t.as_str());
        push_str(v, "\n");
        assert(v@ =~= before + prefix@ + ps@[i as int].id@ + ": "@ + short_title(ps@[i as int].title@) + "\n"@);
        i = i + 1;
    }
    assert(ps@.take(ps@.len() as int) =~= ps@);
}

/// The principles section: one `- <id>: <title>` line each, or a note that
/// the plugin defines none.
pub open spec fn principles_text(ps: Seq<Preset>) -> Seq<char> {
    if ps.len() == 0 {
        "  (none — this plugin defines no principles)\n"@
    } else {
        principle_lines(ps, "  - "@)
    }
}

/// The principles section shared by the principle index and the catalog.
pub fn principles_block(specs: &DocSpecs) -> (r: String)
    ensures
        r@ == principles_text(specs.principles@),
{
    if specs.principles.len() == 0 {
        return "  (none — this plugin defines no principles)\n".to_string();
    }
    let mut v: Vec<char> = Vec::new();
    push_principle_lines(&mut v, &specs.principles, "  - ");
    assert(v@ =~= principle_lines(specs.principles@, "  - "@));
    string_of(&v)
}

/// `docs metrics`: every metric, grouped by category.
pub fn render_metrics_index(specs: &DocSpecs) -> (r: String)
    ensures
        exists|keys: Seq<Seq<char>>|
            strictly_sorted(keys) && keys.to_set() == category_key_set(*specs)
                && r@ == "Metrics — print one with `code-ranker docs <metric>`:\n"@ + categories_text(*specs, keys),
{
    let mut v = chars_of("Metrics — print one with `code-ranker docs <metric>`:\n");
    push_categories(&mut v, specs);
    string_of(&v)
}

/// `docs principles`: every design principle.
pub fn render_principles_index(specs: &DocSpecs) -> (r: String)
    ensures
        r@ == "Principles — print one with `code-ranker docs <ID>`:\n\n"@ + principles_text(specs.principles@),
{
    let mut v = chars_of("Principles — print one with `code-ranker docs <ID>`:\n\n");
    let b = principles_block(specs);
    push_str(&mut v, b.as_str());
    string_of(&v)
}

/// One line of a category card: key, display name, and the first line of its
/// description when it has one.
pub open spec fn category_metric_line(attrs: Seq<(String, AttributeSpec)>, p: int) -> Seq<char> {
    "  - "@ + attrs[p].0@ + ": "@ + spec_metric_name(attrs[p].1, attrs[p].0@) + match attrs[p].1.description {
        Some(d) => " — "@ + spec_one_line(d@),
        None => Seq::empty(),
    } + "\n"@
}

/// The card lines for the given positions, in order.
pub open spec fn category_metric_lines(attrs: Seq<(String, AttributeSpec)>, ps: Seq<int>) -> Seq<char>
    decreases ps.len(),
{
    if ps.len() == 0 {
        Seq::empty()
    } else {
        category_metric_lines(attrs, ps.drop_last()) + category_metric_line(attrs, ps.last())
    }
}

/// `docs <category>`: the category's label and description, then its metrics.
pub open spec fn category_card(specs: DocSpecs, key: Seq<char>) -> Seq<char> {
    spec_category_label(specs, key) + match spec_category_description(specs, key) {
        Some(d) => "\n"@ + d,
        None => Seq::empty(),
    } + "\n\nMetrics — print one with `code-ranker docs <metric>`:\n"@
        + category_metric_lines(specs.node_attributes@, spec_metrics_in(specs.node_attributes@, key))
}

/// `docs <category>`: the category card (see `category_card`).
pub fn render_category(specs: &DocSpecs, key: &str) -> (r: String)
    ensures
        r@ == category_card(*specs, key@),
{
    let l = category_label(specs, key);
    let mut v = chars_of(l.as_str());
    match category_description(specs, key) {
        Some(d) => {
            push_str(&mut v, "\n");
            push_str(&mut v, d);
        },
        None => {},
    }
    push_str(&mut v, "\n\nMetrics — print one with `code-ranker docs <metric>`:\n");
    let ghost head = v@;
    assert(head =~= spec_category_label(*specs, key@) + match spec_category_description(*specs, key@) {
        Some(d) => "\n"@ + d,
        None => Seq::empty(),
    } + "\n\nMetrics — print one with `code-ranker docs <metric>`:\n"@);
    let ps = metrics_in_category(specs, key);
    let ghost pv = ps@.map_values(|q: usize| q as int);
    proof {
        lemma_metrics_in_bounds(specs.node_attributes@, key@);
    }
    let mut i: usize = 0;
    while i < ps.len()
        invariant
            i <= ps@.len(),
            pv == ps@.map_values(|q: usize| q as int),
            pv == spec_metrics_in(specs.node_attributes@, key@),
            forall|k: int| 0 <= k < pv.len() ==> 0 <= #[trigger] pv[k] < specs.node_attributes@.len(),
            v@ == head + category_metric_lines(specs.node_attributes@, pv.take(i as int)),
        decreases ps.len() - i,
    {
        assert(pv.take(i + 1).drop_last() =~= pv.take(i as int));
        assert(pv[i as int] == ps@[i as int] as int);
        let p = ps[i];
        let ghost before = v@;
        let k = specs.node_attributes[p].0.as_str();
        let spec = &specs.node_attributes[p].1;
        push_str(&mut v, "  - ");
        push_str(&mut v, k);
        push_str(&mut v, ": ");
        push_str(&mut v, metric_name(spec, k));
        match &spec.description {
            Some(d) => {
                push_str(&mut v, " — ");
                let o = one_line(d.as_str());
                push_str(&mut v, o.as_str());
            },
            None => {},
        }
        push_str(&mut v, "\n");
        assert(v@ =~= before + category_metric_line(specs.node_attributes@, p as int));
        i = i + 1;
    }
    assert(pv.take(pv.len() as int) =~= pv);
    string_of(&v)
}

/// The closing hint of the catalog.
pub open spec fn catalog_footer() -> Seq<char> {
    "\nCall `docs` with any name above — e.g. `docs principles`, `docs KISS`, `docs cloc`, `docs complexity`. Also `docs ai` (the agent playbook) and `docs metrics` (the full metric index).\n"@
}

/// The catalog of every subject for the sorted category keys `keys`, led by a
/// note naming an unknown subject when there was one.
pub open spec fn catalog_text(specs: DocSpecs, keys: Seq<Seq<char>>, unknown: Option<Seq<char>>) -> Seq<char> {
    (match unknown {
        Some(u) => "Unknown docs subject `"@ + u + "`.\n\n"@,
        None => Seq::empty(),
    }) + "code-ranker docs <subject> — print a reference doc to stdout (no analysis).\n"@ + categories_text(specs, keys)
        + "\n  principles — SOLID & related design principles\n"@ + principle_lines(specs.principles@, "    - "@)
        + catalog_footer()
}

/// The catalog of every subject (see `catalog_text`).
pub fn render_catalog(specs: &DocSpecs, unknown: Option<&str>) -> (r: String)
    ensures
        exists|keys: Seq<Seq<char>>|
            strictly_sorted(keys) && keys.to_set() == category_key_set(*specs)
                && r@ == catalog_text(*specs, keys, match unknown { Some(u) => Some(u@), None => None }),
{
    let mut v: Vec<char> = Vec::new();
    match unknown {
        Some(u) => {
            push_str(&mut v, "Unknown docs subject `");
            push_str(&mut v, u);
            push_str(&mut v, "`.\n\n");
        },
        None => {},
    }
    push_str(&mut v, "code-ranker docs <subject> — print a reference doc to stdout (no analysis).\n");
    let ghost head = v@;
    push_categories(&mut v, specs);
    let ghost keys = choose|keys: Seq<Seq<char>>|
        strictly_sorted(keys) && keys.to_set() == category_key_set(*specs) && v@ == head + categories_text(*specs, keys);
    push_str(&mut v, "\n  principles — SOLID & related design principles\n");
    push_principle_lines(&mut v, &specs.principles, "    - ");
    push_str(&mut v, "\nCall `docs` with any name above — e.g. `docs principles`, `docs KISS`, `docs cloc`, `docs complexity`. Also `docs ai` (the agent playbook) and `docs metrics` (the full metric index).\n");
    assert(v@ =~= catalog_text(*specs, keys, match unknown { Some(u) => Some(u@), None => None }));
    string_of(&v)
}

/// The code of `c` lower-cased if it is an ASCII capital letter.
pub open spec fn ascii_lower(c: char) -> u32 {
    if 65 <= (c as u32) && (c as u32) <= 90 {
        ((c as u32) + 32) as u32
    } else {
        c as u32
    }
}

/// The two texts are equal up to ASCII letter case (`str::eq_ignore_ascii_case`).
pub open spec fn eq_ignore_ascii_case(a: Seq<char>, b: Seq<char>) -> bool {
    a.len() == b.len() && forall|i: int| 0 <= i < a.len() ==> ascii_lower(#[trigger] a[i]) == ascii_lower(b[i])
}

fn lower(c: char) -> (r: u32)
    ensures
        r == ascii_lower(c),
{
    let u = c as u32;
    if 65 <= u && u <= 90 {
        u + 32
    } else {
        u
    }
}

fn eq_ignore_case(a: &str, b: &str) -> (r: bool)
    ensures
        r == eq_ignore_ascii_case(a@, b@),
{
    let x = chars_of(a);
    let y = chars_of(b);
    if x.len() != y.len() {
        return false;
    }
    let mut i: usize = 0;
    while i < x.len()
        invariant
            i <= x@.len(),
            x@.len() == y@.len(),
            x@ == a@,
            y@ == b@,
            forall|k: int| 0 <= k < i ==> ascii_lower(#[trigger] x@[k]) == ascii_lower(y@[k]),
        decreases x.len() - i,
    {
        if lower(x[i]) != lower(y[i]) {
            return false;
        }
        i = i + 1;
    }
    true
}

/// The first metric at or after `i` whose key matches `subject` up to case.
pub open spec fn first_metric_ci(attrs: Seq<(String, AttributeSpec)>, subject: Seq<char>, i: int) -> Option<int>
    decreases attrs.len() - i,
{
    if i < 0 || i >= attrs.len() {
        None
    } else if eq_ignore_ascii_case(attrs[i].0@, subject) {
        Some(i)
    } else {
        first_metric_ci(attrs, subject, i + 1)
    }
}

proof fn lemma_first_metric_ci(attrs: Seq<(String, AttributeSpec)>, subject: Seq<char>, i: int)
    requires
        0 <= i,
    ensures
        (exists|k: int| i <= k < attrs.len() && eq_ignore_ascii_case(#[trigger] attrs[k].0@, subject))
            ==> first_metric_ci(attrs, subject, i) is Some,
        first_metric_ci(attrs, subject, i) matches Some(k) ==> i <= k < attrs.len(),
    decreases attrs.len() - i,
{
    if i < attrs.len() && !eq_ignore_ascii_case(attrs[i].0@, subject) {
        lemma_first_metric_ci(attrs, subject, i + 1);
        if exists|k: int| i <= k < attrs.len() && eq_ignore_ascii_case(#[trigger] attrs[k].0@, subject) {
            let k = choose|k: int| i <= k < attrs.len() && eq_ignore_ascii_case(#[trigger] attrs[k].0@, subject);
            assert(k != i);
            assert(i + 1 <= k);
        }
    }
}

/// The heading of a metric card: key, display name, and the short name when
/// it differs from the display name.
pub open spec fn metric_heading(e: (String, AttributeSpec)) -> Seq<char> {
    let name = spec_metric_name(e.1, e.0@);
    "# "@ + e.0@ + ": "@ + name + (match e.1.short {
        Some(sh) => if sh@ != name { " ("@ + sh@ + ")"@ } else { Seq::empty() },
        None => Seq::empty(),
    }) + "\n"@
}

/// The category line of a metric card, when the metric has a category.
pub open spec fn metric_category(specs: DocSpecs, e: (String, AttributeSpec)) -> Seq<char> {
    match e.1.group {
        Some(g) => "\nCategory: "@ + g@ + " — "@ + spec_category_label(specs, g@) + "\n"@,
        None => Seq::empty(),
    }
}

/// The description and formula of a metric card (each `<br>` a line break).
pub open spec fn metric_body(e: (String, AttributeSpec)) -> Seq<char> {
    (match e.1.description {
        Some(d) => "\n"@ + replace_all(d@, "<br>"@, "\n"@) + "\n"@,
        None => Seq::empty(),
    }) + (match e.1.formula {
        Some(f) => "\nFormula: "@ + f@ + "\n"@,
        None => Seq::empty(),
    })
}

/// The prose doc appended to a card, when one exists.
pub open spec fn appended_prose(prose: Option<Seq<char>>) -> Seq<char> {
    match prose {
        Some(p) => "\n---\n\n"@ + trim_end(p) + "\n"@,
        None => Seq::empty(),
    }
}

/// The metric card of one entry: heading, category, description, formula, and
/// the prose doc appended when one exists.
pub open spec fn metric_card(specs: DocSpecs, e: (String, AttributeSpec), prose: Option<Seq<char>>) -> Seq<char> {
    metric_heading(e) + metric_category(specs, e) + metric_body(e) + appended_prose(prose)
}

fn push_metric_heading(v: &mut Vec<char>, e: &(String, AttributeSpec))
    ensures
        final(v)@ == old(v)@ + metric_heading(*e),
{
    let ghost start = v@;
    let key = e.0.as_str();
    let name = metric_name(&e.1, key);
    push_str(v, "# ");
    push_str(v, key);
    push_str(v, ": ");
    push_str(v, name);
    match &e.1.short {
        Some(sh) => {
            if !str_eq(sh.as_str(), name) {
                push_str(v, " (");
                push_str(v, sh.as_str());
                push_str(v, ")");
            }
        },
        None => {},
    }
    push_str(v, "\n");
    assert(v@ =~= start + metric_heading(*e));
}

fn push_metric_category(v: &mut Vec<char>, specs: &DocSpecs, e: &(String, AttributeSpec))
    ensures
        final(v)@ == old(v)@ + metric_category(*specs, *e),
{
    let ghost start = v@;
    match &e.1.group {
        Some(g) => {
            push_str(v, "\nCategory: ");
            push_str(v, g.as_str());
            push_str(v, " — ");
            let l = category_label(specs, g.as_str());
            push_str(v, l.as_str());
            push_str(v, "\n");
        },
        None => {},
    }
    assert(v@ =~= start + metric_category(*specs, *e));
}

fn push_metric_body(v: &mut Vec<char>, e: &(String, AttributeSpec))
    ensures
        final(v)@ == old(v)@ + metric_body(*e),
{
    let ghost start = v@;
    proof {
        reveal_strlit("<br>");
    }
    match &e.1.description {
        Some(d) => {
            push_str(v, "\n");
            let body = replace_all_str(d.as_str(), "<br>", "\n");
            push_str(v, body.as_str());
            push_str(v, "\n");
        },
        None => {},
    }
    match &e.1.formula {
        Some(f) => {
            push_str(v, "\nFormula: ");
            push_str(v, f.as_str());
            push_str(v, "\n");
        },
        None => {},
    }
    assert(v@ =~= start + metric_body(*e));
}

fn trim_end_str(s: &str) -> (r: Vec<char>)
    ensures
        r@ == trim_end(s@),
{
    let v = chars_of(s);
    let mut b: usize = v.len();
    assert(v@.take(b as int) =~= v@);
    while b > 0 && is_ws_char(v[b - 1])
        invariant
            b <= v@.len(),
            trim_end(v@.take(b as int)) == trim_end(v@),
        decreases b,
    {
        assert(v@.take(b as int).drop_last() =~= v@.take(b - 1));
        b = b - 1;
    }
    crate::strs::slice_chars(&v, 0, b)
}

/// `docs <metric>`: the card of the first metric whose key matches `subject`
/// up to case; `prose` is the metric's corpus doc, when one resolves.
pub fn render_metric(specs: &DocSpecs, subject: &str, prose: Option<&str>) -> (r: String)
    requires
        exists|k: int| 0 <= k < specs.node_attributes@.len() && eq_ignore_ascii_case(#[trigger] specs.node_attributes@[k].0@, subject@),
    ensures
        r@ == metric_card(
            *specs,
            specs.node_attributes@[first_metric_ci(specs.node_attributes@, subject@, 0)->0],
            match prose { Some(p) => Some(p@), None => None },
        ),
{
    proof {
        lemma_first_metric_ci(specs.node_attributes@, subject@, 0);
    }
    let mut i: usize = 0;
    while i < specs.node_attributes.len() && !eq_ignore_case(specs.node_attributes[i].0.as_str(), subject)
        invariant
            i <= specs.node_attributes@.len(),
            first_metric_ci(specs.node_attributes@, subject@, i as int) == first_metric_ci(specs.node_attributes@, subject@, 0),
            first_metric_ci(specs.node_attributes@, subject@, 0) is Some,
        decreases specs.node_attributes.len() - i,
    {
        i = i + 1;
    }
    if i >= specs.node_attributes.len() {
        assert(first_metric_ci(specs.node_attributes@, subject@, i as int) is None);
        return String::new();
    }
    assert(first_metric_ci(specs.node_attributes@, subject@, i as int) == Some(i as int));
    let e = &specs.node_attributes[i];
    let mut v: Vec<char> = Vec::new();
    push_metric_heading(&mut v, e);
    push_metric_category(&mut v, specs, e);
    push_metric_body(&mut v, e);
    let ghost mid = v@;
    match prose {
        Some(p) => {
            push_str(&mut v, "\n---\n\n");
            let t = trim_end_str(p);
            push_all(&mut v, &t);
            push_str(&mut v, "\n");
        },
        None => {},
    }
    assert(v@ =~= mid + appended_prose(match prose { Some(p) => Some(p@), None => None }));
    assert(v@ =~= metric_card(*specs, specs.node_attributes@[i as int], match prose { Some(p) => Some(p@), None => None }));
    string_of(&v)
}

/// The first principle whose id matches `subject` up to case.
pub open spec fn first_principle_ci(ps: Seq<Preset>, subject: Seq<char>, i: int) -> Option<int>
    decreases ps.len() - i,
{
    if i < 0 || i >= ps.len() {
        None
    } else if eq_ignore_ascii_case(ps[i].id@, subject) {
        Some(i)
    } else {
        first_principle_ci(ps, subject, i + 1)
    }
}

proof fn lemma_first_principle_ci(ps: Seq<Preset>, subject: Seq<char>, i: int)
    requires
        0 <= i,
    ensures
        (exists|k: int| i <= k < ps.len() && eq_ignore_ascii_case(#[trigger] ps[k].id@, subject))
            ==> first_principle_ci(ps, subject, i) is Some,
        first_principle_ci(ps, subject, i) matches Some(k) ==> i <= k < ps.len(),
    decreases ps.len() - i,
{
    if i < ps.len() && !eq_ignore_ascii_case(ps[i].id@, subject) {
        lemma_first_principle_ci(ps, subject, i + 1);
        if exists|k: int| i <= k < ps.len() && eq_ignore_ascii_case(#[trigger] ps[k].id@, subject) {
            let k = choose|k: int| i <= k < ps.len() && eq_ignore_ascii_case(#[trigger] ps[k].id@, subject);
            assert(k != i);
        }
    }
}

/// The card of a principle with no doc file: id and title, its sort metric,
/// and its prompt when it has one.
pub open spec fn principle_card(p: Preset) -> Seq<char> {
    "# "@ + p.id@ + ": "@ + p.title@ + "\n\nSort metric: `"@ + p.sort_metric@ + "`\n"@
        + if p.prompt@.len() > 0 { "\n"@ + p.prompt@ + "\n"@ } else { Seq::empty() }
}

/// `docs <principle>`: the principle's doc when one resolves (`doc`), else a
/// card built from the first principle whose id matches `subject` up to case.
pub fn render_principle(specs: &DocSpecs, subject: &str, doc: Option<String>) -> (r: String)
    requires
        doc is None ==> exists|k: int| 0 <= k < specs.principles@.len() && eq_ignore_ascii_case(#[trigger] specs.principles@[k].id@, subject@),
    ensures
        match doc {
            Some(md) => r@ == md@,
            None => r@ == principle_card(specs.principles@[first_principle_ci(specs.principles@, subject@, 0)->0]),
        },
{
    match doc {
        Some(md) => md,
        None => {
            proof {
                lemma_first_principle_ci(specs.principles@, subject@, 0);
            }
            let mut i: usize = 0;
            while i < specs.principles.len() && !eq_ignore_case(specs.principles[i].id.as_str(), subject)
                invariant
                    i <= specs.principles@.len(),
                    first_principle_ci(specs.principles@, subject@, i as int) == first_principle_ci(specs.principles@, subject@, 0),
                    first_principle_ci(specs.principles@, subject@, 0) is Some,
                decreases specs.principles.len() - i,
            {
                i = i + 1;
            }
            if i >= specs.principles.len() {
                assert(first_principle_ci(specs.principles@, subject@, i as int) is None);
                return String::new();
            }
            assert(first_principle_ci(specs.principles@, subject@, i as int) == Some(i as int));
            let p = &specs.principles[i];
            let mut v = chars_of("# ");
            push_str(&mut v, p.id.as_str());
            push_str(&mut v, ": ");
            push_str(&mut v, p.title.as_str());
            push_str(&mut v, "\n\nSort metric: `");
            push_str(&mut v, p.sort_metric.as_str());
            push_str(&mut v, "`\n");
            if !crate::strs::str_is_empty(p.prompt.as_str()) {
                push_str(&mut v, "\n");
                push_str(&mut v, p.prompt.as_str());
                push_str(&mut v, "\n");
            }
            assert(v@ =~= principle_card(specs.principles@[i as int]));
            string_of(&v)
        },
    }
}

/// The *Select a language* template filled with the live values: the resolver
/// diagnostic, the built-in plugin names and the config version.
pub open spec fn spec_fill_select(intro: Seq<char>, reason: Seq<char>, plugins: Seq<char>, version: Seq<char>) -> Seq<char> {
    replace_all(replace_all(replace_all(intro, "{reason}"@, reason), "{plugins}"@, plugins), "{config_version}"@, version)
}

/// Fills the *Select a language* template (see `spec_fill_select`).
pub fn fill_select(intro: &str, reason: &str, plugins: &str, config_version: &str) -> (r: String)
    ensures
        r@ == spec_fill_select(intro@, reason@, plugins@, config_version@),
{
    proof {
        reveal_strlit("{reason}");
        reveal_strlit("{plugins}");
        reveal_strlit("{config_version}");
    }
    let a = replace_all_str(intro, "{reason}", reason);
    let b = replace_all_str(a.as_str(), "{plugins}", plugins);
    replace_all_str(b.as_str(), "{config_version}", config_version)
}

/// What a plugin is told about the files to analyse.
pub struct PluginInput {
    pub ignore: Vec<String>,
    pub ignore_tests: bool,
    pub gitignore: bool,
    pub ignore_files: bool,
    pub hidden: bool,
}

/// The neutral plugin input of the no-config fallback: nothing ignored by
/// pattern; tests, `.gitignore`d and ignore-file entries skipped; hidden files
/// skipped.
pub fn default_plugin_input() -> (r: PluginInput)
    ensures
        r.ignore@.len() == 0,
        r.ignore_tests,
        r.gitignore,
        r.ignore_files,
        !r.hidden,
{
    PluginInput { ignore: Vec::new(), ignore_tests: true, gitignore: true, ignore_files: true, hidden: false }
}

} // verus!
