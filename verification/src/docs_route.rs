//! Which reference doc a `docs <subject>` request is answered with. Subjects are
//! matched case- and separator-insensitively (`fan_in`, `Fan-in` and `FAN in`
//! name the same metric), in a fixed order: the AI playbook, the two indexes, a
//! category, a principle, a metric, and otherwise the catalog of every subject.

use vstd::prelude::*;
use crate::docs::{category_key_set, category_keys, strictly_sorted, AttributeSpec, DocSpecs};
use crate::config::Preset;
use crate::maps::path_view;
use crate::strs::chars_of;

verus! {

/// The code a subject character is compared by: ASCII capitals lower-cased,
/// and the separators `-` and space read as `_`.
pub open spec fn fold_code(c: char) -> u32 {
    if 65 <= (c as u32) && (c as u32) <= 90 {
        ((c as u32) + 32) as u32
    } else if c == '-' || c == ' ' {
        95
    } else {
        c as u32
    }
}

/// The folded form of a subject, the form subjects are matched on.
pub open spec fn normalize_subject(s: Seq<char>) -> Seq<u32> {
    s.map_values(|c: char| fold_code(c))
}

/// Whether `a` and `b` name the same subject.
pub open spec fn same_subject(a: Seq<char>, b: Seq<char>) -> bool {
    normalize_subject(a) == normalize_subject(b)
}

/// The first key at or after `i` that names `subject`.
pub open spec fn first_match(keys: Seq<Seq<char>>, subject: Seq<char>, i: int) -> Option<int>
    decreases keys.len() - i,
{
    if i < 0 || i >= keys.len() {
        None
    } else if same_subject(keys[i], subject) {
        Some(i)
    } else {
        first_match(keys, subject, i + 1)
    }
}

/// The ids of the principles, in order.
pub open spec fn principle_ids(ps: Seq<Preset>) -> Seq<Seq<char>> {
    ps.map_values(|p: Preset| p.id@)
}

/// The metric keys, in order.
pub open spec fn metric_keys(attrs: Seq<(String, AttributeSpec)>) -> Seq<Seq<char>> {
    attrs.map_values(|e: (String, AttributeSpec)| e.0@)
}

/// The doc a subject is answered with.
pub enum DocsRoute {
    /// The AI-agent playbook.
    Ai,
    /// The index of every metric.
    MetricsIndex,
    /// The index of every principle.
    PrinciplesIndex,
    /// The category with this key.
    Category(String),
    /// The principle at this position.
    Principle(usize),
    /// The metric at this position.
    Metric(usize),
    /// The catalog of every subject (the subject names none).
    Catalog,
}

/// The abstract form of a route.
pub enum RouteView {
    Ai,
    MetricsIndex,
    PrinciplesIndex,
    Category(Seq<char>),
    Principle(int),
    Metric(int),
    Catalog,
}

impl View for DocsRoute {
    type V = RouteView;

    open spec fn view(&self) -> RouteView {
        match self {
            DocsRoute::Ai => RouteView::Ai,
            DocsRoute::MetricsIndex => RouteView::MetricsIndex,
            DocsRoute::PrinciplesIndex => RouteView::PrinciplesIndex,
            DocsRoute::Category(k) => RouteView::Category(k@),
            DocsRoute::Principle(i) => RouteView::Principle(*i as int),
            DocsRoute::Metric(i) => RouteView::Metric(*i as int),
            DocsRoute::Catalog => RouteView::Catalog,
        }
    }
}

/// The route of `subject`, with the category keys `cats` in sorted order.
pub open spec fn spec_docs_route(specs: DocSpecs, cats: Seq<Seq<char>>, subject: Seq<char>) -> RouteView {
    if same_subject(subject, "ai"@) {
        RouteView::Ai
    } else if same_subject(subject, "metrics"@) {
        RouteView::MetricsIndex
    } else if same_subject(subject, "principles"@) {
        RouteView::PrinciplesIndex
    } else if let Some(c) = first_match(cats, subject, 0) {
        RouteView::Category(cats[c])
    } else if let Some(p) = first_match(principle_ids(specs.principles@), subject, 0) {
        RouteView::Principle(p)
    } else if let Some(m) = first_match(metric_keys(specs.node_attributes@), subject, 0) {
        RouteView::Metric(m)
    } else {
        RouteView::Catalog
    }
}

/// Once the keys before `j` are passed over and `j` matches (or is the end),
/// the first match from `i` is `j` (or none).
proof fn lemma_first_match(keys: Seq<Seq<char>>, subject: Seq<char>, i: int, j: int)
    requires
        0 <= i <= j <= keys.len(),
        forall|k: int| i <= k < j ==> !same_subject(#[trigger] keys[k], subject),
        j < keys.len() ==> same_subject(keys[j], subject),
    ensures
        first_match(keys, subject, i) == (if j < keys.len() { Some(j) } else { None::<int> }),
    decreases j - i,
{
    if i < j {
        lemma_first_match(keys, subject, i + 1, j);
    }
}

fn fold(c: char) -> (r: u32)
    ensures
        r == fold_code(c),
{
    let u = c as u32;
    if 65 <= u && u <= 90 {
        u + 32
    } else if c == '-' || c == ' ' {
        95
    } else {
        u
    }
}

/// Whether `a` and `b` name the same subject.
pub fn subject_eq(a: &str, b: &str) -> (r: bool)
    ensures
        r == same_subject(a@, b@),
{
    let x = chars_of(a);
    let y = chars_of(b);
    if x.len() != y.len() {
        proof {
            assert(normalize_subject(a@).len() != normalize_subject(b@).len());
        }
        return false;
    }
    let mut i: usize = 0;
    while i < x.len()
        invariant
            i <= x@.len(),
            x@.len() == y@.len(),
            x@ == a@,
            y@ == b@,
            forall|k: int| 0 <= k < i ==> fold_code(#[trigger] x@[k]) == fold_code(y@[k]),
        decreases x.len() - i,
    {
        if fold(x[i]) != fold(y[i]) {
            proof {
                assert(normalize_subject(a@)[i as int] != normalize_subject(b@)[i as int]);
            }
            return false;
        }
        i = i + 1;
    }
    assert(normalize_subject(a@) =~= normalize_subject(b@));
    true
}

fn find_key(keys: &Vec<String>, subject: &str) -> (r: Option<usize>)
    ensures
        match r {
            Some(k) => first_match(path_view(keys@), subject@, 0) == Some(k as int) && k < keys@.len(),
            None => first_match(path_view(keys@), subject@, 0) is None,
        },
{
    let ghost ks = path_view(keys@);
    let mut i: usize = 0;
    while i < keys.len()
        invariant
            i <= keys@.len(),
            ks == path_view(keys@),
            forall|k: int| 0 <= k < i ==> !same_subject(#[trigger] ks[k], subject@),
        decreases keys.len() - i,
    {
        if subject_eq(keys[i].as_str(), subject) {
            proof {
                lemma_first_match(ks, subject@, 0, i as int);
            }
            return Some(i);
        }
        i = i + 1;
    }
    proof {
        lemma_first_match(ks, subject@, 0, i as int);
    }
    None
}

fn find_principle(ps: &Vec<Preset>, subject: &str) -> (r: Option<usize>)
    ensures
        match r {
            Some(k) => first_match(principle_ids(ps@), subject@, 0) == Some(k as int) && k < ps@.len(),
            None => first_match(principle_ids(ps@), subject@, 0) is None,
        },
{
    let ghost ks = principle_ids(ps@);
    let mut i: usize = 0;
    while i < ps.len()
        invariant
            i <= ps@.len(),
            ks == principle_ids(ps@),
            forall|k: int| 0 <= k < i ==> !same_subject(#[trigger] ks[k], subject@),
        decreases ps.len() - i,
    {
        if subject_eq(ps[i].id.as_str(), subject) {
            proof {
                lemma_first_match(ks, subject@, 0, i as int);
            }
            return Some(i);
        }
        i = i + 1;
    }
    proof {
        lemma_first_match(ks, subject@, 0, i as int);
    }
    None
}

fn find_metric(attrs: &Vec<(String, AttributeSpec)>, subject: &str) -> (r: Option<usize>)
    ensures
        match r {
            Some(k) => first_match(metric_keys(attrs@), subject@, 0) == Some(k as int) && k < attrs@.len(),
            None => first_match(metric_keys(attrs@), subject@, 0) is None,
        },
{
    let ghost ks = metric_keys(attrs@);
    let mut i: usize = 0;
    while i < attrs.len()
        invariant
            i <= attrs@.len(),
            ks == metric_keys(attrs@),
            forall|k: int| 0 <= k < i ==> !same_subject(#[trigger] ks[k], subject@),
        decreases attrs.len() - i,
    {
        if subject_eq(attrs[i].0.as_str(), subject) {
            proof {
                lemma_first_match(ks, subject@, 0, i as int);
            }
            return Some(i);
        }
        i = i + 1;
    }
    proof {
        lemma_first_match(ks, subject@, 0, i as int);
    }
    None
}

/// The doc that answers `docs <subject>`: the first of the AI playbook, the
/// metric index, the principle index, a category (in key order), a principle
/// (in catalog order) and a metric (in key order) that `subject` names, and
/// the catalog when it names none of them.
pub fn docs_route(specs: &DocSpecs, subject: &str) -> (r: DocsRoute)
    ensures
        exists|cats: Seq<Seq<char>>|
            strictly_sorted(cats) && cats.to_set() == category_key_set(*specs)
                && r@ == spec_docs_route(*specs, cats, subject@),
{
    let cats = category_keys(specs);
    let ghost cv = path_view(cats@);
    if subject_eq(subject, "ai") {
        return DocsRoute::Ai;
    }
    if subject_eq(subject, "metrics") {
        return DocsRoute::MetricsIndex;
    }
    if subject_eq(subject, "principles") {
        return DocsRoute::PrinciplesIndex;
    }
    match find_key(&cats, subject) {
        Some(c) => {
            let key = cats[c].clone();
            assert(cv[c as int] == key@);
            let r = DocsRoute::Category(key);
            assert(r@ == spec_docs_route(*specs, cv, subject@));
            return r;
        },
        None => {},
    }
    match find_principle(&specs.principles, subject) {
        Some(p) => {
            let r = DocsRoute::Principle(p);
            assert(r@ == spec_docs_route(*specs, cv, subject@));
            return r;
        },
        None => {},
    }
    let r = match find_metric(&specs.node_attributes, subject) {
        Some(m) => DocsRoute::Metric(m),
        None => DocsRoute::Catalog,
    };
    assert(r@ == spec_docs_route(*specs, cv, subject@));
    r
}

} // verus!
