//! The specs the `docs` subjects render, layered from the plugin's own level
//! specs, the central metric and coupling catalogs and the project config. The
//! layers are kept as key-sorted lists; a later built-in layer overrides an
//! earlier one, and a project metric only fills a key no built-in has.

use vstd::prelude::*;
use crate::config::Preset;
use crate::docs::{
    key_less, key_lt, lemma_key_lt_irreflexive, lemma_key_lt_total, lemma_key_lt_transitive, strictly_sorted,
    AttributeGroup, AttributeSpec, DocSpecs,
};
use crate::strs::str_eq;

verus! {

/// The keys of a keyed list, in order.
pub open spec fn keys_of<V>(s: Seq<(String, V)>) -> Seq<Seq<char>> {
    s.map_values(|e: (String, V)| e.0@)
}

/// The value last stored under `k` in the keyed list `s`: storing the entries
/// one by one into a map, each overriding the one before.
pub open spec fn last_under<V>(s: Seq<(String, V)>, k: Seq<char>) -> Option<V>
    decreases s.len(),
{
    if s.len() == 0 {
        None
    } else if s.last().0@ == k {
        Some(s.last().1)
    } else {
        last_under(s.drop_last(), k)
    }
}

/// `a` where it is present, else `b`.
pub open spec fn or_else<V>(a: Option<V>, b: Option<V>) -> Option<V> {
    match a {
        Some(x) => Some(x),
        None => b,
    }
}

/// In a key-sorted list, the entry at `j` is the one found under its key.
proof fn lemma_last_under_at<V>(s: Seq<(String, V)>, j: int)
    requires
        strictly_sorted(keys_of(s)),
        0 <= j < s.len(),
    ensures
        last_under(s, s[j].0@) == Some(s[j].1),
    decreases s.len(),
{
    if j < s.len() - 1 {
        let ks = keys_of(s);
        assert(key_lt(ks[j], ks[s.len() - 1]));
        if s.last().0@ == s[j].0@ {
            lemma_key_lt_irreflexive(ks[j]);
        }
        let t = s.drop_last();
        assert(keys_of(t) =~= ks.drop_last());
        assert(t[j] == s[j]);
        lemma_last_under_at(t, j);
    }
}

/// A key no entry has is found under nothing.
proof fn lemma_last_under_none<V>(s: Seq<(String, V)>, k: Seq<char>)
    requires
        forall|j: int| 0 <= j < s.len() ==> (#[trigger] s[j]).0@ != k,
    ensures
        last_under(s, k) is None,
    decreases s.len(),
{
    if s.len() > 0 {
        let t = s.drop_last();
        assert forall|j: int| 0 <= j < t.len() implies (#[trigger] t[j]).0@ != k by {
            assert(t[j] == s[j]);
        }
        lemma_last_under_none(t, k);
    }
}

/// What a key-sorted list holds under `q`: the entry with that key, if any.
proof fn lemma_last_under_sorted<V>(s: Seq<(String, V)>, q: Seq<char>)
    requires
        strictly_sorted(keys_of(s)),
    ensures
        (exists|j: int| 0 <= j < s.len() && (#[trigger] s[j]).0@ == q) || last_under(s, q) is None,
        forall|j: int| 0 <= j < s.len() && (#[trigger] s[j]).0@ == q ==> last_under(s, q) == Some(s[j].1),
{
    assert forall|j: int| 0 <= j < s.len() && (#[trigger] s[j]).0@ == q implies last_under(s, q) == Some(s[j].1) by {
        lemma_last_under_at(s, j);
    }
    if !(exists|j: int| 0 <= j < s.len() && (#[trigger] s[j]).0@ == q) {
        lemma_last_under_none(s, q);
    }
}

/// Stores `x` under `k` in the key-sorted list `v`: in its place when `k` is
/// new, over the old value when `replace`, and not at all otherwise.
fn put<V>(v: &mut Vec<(String, V)>, k: String, x: V, replace: bool)
    requires
        strictly_sorted(keys_of(old(v)@)),
    ensures
        strictly_sorted(keys_of(final(v)@)),
        forall|q: Seq<char>|
            #[trigger] last_under(final(v)@, q) == if q == k@ && (replace || last_under(old(v)@, q) is None) {
                Some(x)
            } else {
                last_under(old(v)@, q)
            },
{
    let ghost ov = v@;
    let ghost ok = keys_of(ov);
    let ghost kv = k@;
    let mut i: usize = 0;
    while i < v.len() && key_less(v[i].0.as_str(), k.as_str())
        invariant
            i <= v@.len(),
            ov == v@,
            ok == keys_of(ov),
            kv == k@,
            strictly_sorted(ok),
            forall|q: int| 0 <= q < i ==> key_lt(#[trigger] ok[q], kv),
        decreases v.len() - i,
    {
        i = i + 1;
    }
    if i < v.len() && str_eq(v[i].0.as_str(), k.as_str()) {
        proof {
            lemma_last_under_at(ov, i as int);
        }
        if replace {
            v.set(i, (k, x));
            proof {
                let nv = v@;
                assert(keys_of(nv) =~= ok);
                assert forall|q: Seq<char>| #[trigger] last_under(nv, q) == (if q == kv {
                    Some(x)
                } else {
                    last_under(ov, q)
                }) by {
                    lemma_last_under_sorted(nv, q);
                    lemma_last_under_sorted(ov, q);
                    if q == kv {
                        assert(nv[i as int].0@ == q);
                    } else {
                        if exists|j: int| 0 <= j < ov.len() && (#[trigger] ov[j]).0@ == q {
                            let j = choose|j: int| 0 <= j < ov.len() && (#[trigger] ov[j]).0@ == q;
                            assert(nv[j] == ov[j]);
                        }
                        if exists|j: int| 0 <= j < nv.len() && (#[trigger] nv[j]).0@ == q {
                            let j = choose|j: int| 0 <= j < nv.len() && (#[trigger] nv[j]).0@ == q;
                            assert(nv[j] == ov[j]);
                        }
                    }
                }
            }
        }
        return;
    }
    proof {
        if i < ov.len() {
            lemma_key_lt_total(ok[i as int], kv);
        }
        lemma_last_under_sorted(ov, kv);
        if exists|j: int| 0 <= j < ov.len() && (#[trigger] ov[j]).0@ == kv {
            let j = choose|j: int| 0 <= j < ov.len() && (#[trigger] ov[j]).0@ == kv;
            if j < i {
                assert(key_lt(ok[j], kv));
                lemma_key_lt_irreflexive(kv);
            } else if j > i {
                assert(key_lt(ok[i as int], ok[j]));
                lemma_key_lt_transitive(kv, ok[i as int], ok[j]);
                lemma_key_lt_irreflexive(kv);
            }
        }
    }
    v.insert(i, (k, x));
    proof {
        let nv = v@;
        let nk = keys_of(nv);
        assert(nk =~= ok.take(i as int) + seq![kv] + ok.skip(i as int));
        assert forall|a: int, b: int| 0 <= a < b < nk.len() implies key_lt(#[trigger] nk[a], #[trigger] nk[b]) by {
            if b < i {
                assert(nk[a] == ok[a] && nk[b] == ok[b]);
            } else if b == i {
                assert(nk[a] == ok[a]);
            } else if a < i {
                assert(nk[a] == ok[a] && nk[b] == ok[b - 1]);
                assert(key_lt(ok[a], kv));
                assert(key_lt(kv, ok[i as int]));
                lemma_key_lt_transitive(ok[a], kv, ok[i as int]);
                if b - 1 > i {
                    lemma_key_lt_transitive(ok[a], ok[i as int], ok[b - 1]);
                }
            } else if a == i {
                assert(nk[b] == ok[b - 1]);
                if b - 1 > i {
                    lemma_key_lt_transitive(kv, ok[i as int], ok[b - 1]);
                }
            } else {
                assert(nk[a] == ok[a - 1] && nk[b] == ok[b - 1]);
            }
        }
        assert forall|q: Seq<char>| #[trigger] last_under(nv, q) == (if q == kv {
            Some(x)
        } else {
            last_under(ov, q)
        }) by {
            lemma_last_under_sorted(nv, q);
            lemma_last_under_sorted(ov, q);
            if q == kv {
                assert(nv[i as int].0@ == q);
            } else {
                if exists|j: int| 0 <= j < ov.len() && (#[trigger] ov[j]).0@ == q {
                    let j = choose|j: int| 0 <= j < ov.len() && (#[trigger] ov[j]).0@ == q;
                    if j < i {
                        assert(nv[j] == ov[j]);
                    } else {
                        assert(nv[j + 1] == ov[j]);
                    }
                }
                if exists|j: int| 0 <= j < nv.len() && (#[trigger] nv[j]).0@ == q {
                    let j = choose|j: int| 0 <= j < nv.len() && (#[trigger] nv[j]).0@ == q;
                    if j < i {
                        assert(nv[j] == ov[j]);
                    } else if j > i {
                        assert(nv[j] == ov[j - 1]);
                    }
                }
            }
        }
    }
}

/// Stores every entry of `layer` in `v`, in order, each over what is there.
fn overlay<V>(v: &mut Vec<(String, V)>, layer: Vec<(String, V)>)
    requires
        strictly_sorted(keys_of(old(v)@)),
    ensures
        strictly_sorted(keys_of(final(v)@)),
        forall|q: Seq<char>| #[trigger] last_under(final(v)@, q) == or_else(last_under(layer@, q), last_under(old(v)@, q)),
{
    let ghost before = v@;
    let ghost all = layer@;
    let n = layer.len();
    let mut rest = layer;
    let mut i: usize = 0;
    while rest.len() > 0
        invariant
            i <= all.len(),
            all.len() == n,
            rest@ == all.skip(i as int),
            strictly_sorted(keys_of(v@)),
            forall|q: Seq<char>| #[trigger] last_under(v@, q) == or_else(last_under(all.take(i as int), q), last_under(before, q)),
        decreases rest.len(),
    {
        let ghost mid = v@;
        let (k, x) = rest.remove(0);
        assert(all[i as int] == (k, x));
        put(v, k, x, true);
        proof {
            assert(all.take(i + 1).drop_last() =~= all.take(i as int));
            assert forall|q: Seq<char>| #[trigger] last_under(v@, q) == or_else(last_under(all.take(i + 1), q), last_under(before, q)) by {
                assert(last_under(v@, q) == (if q == k@ { Some(x) } else { last_under(mid, q) }));
            }
        }
        i = i + 1;
        assert(rest@ =~= all.skip(i as int));
    }
    assert(all.take(i as int) =~= all);
}

/// A metric declared in the project config: its key, whether it measures
/// nodes, and its spec.
pub struct ProjectMetric {
    pub key: String,
    pub node_scope: bool,
    pub spec: AttributeSpec,
}

/// The spec of the first node-scope project metric with key `k`.
pub open spec fn first_node_metric(ps: Seq<ProjectMetric>, k: Seq<char>) -> Option<AttributeSpec>
    decreases ps.len(),
{
    if ps.len() == 0 {
        None
    } else {
        match first_node_metric(ps.drop_last(), k) {
            Some(s) => Some(s),
            None => if ps.last().node_scope && ps.last().key@ == k {
                Some(ps.last().spec)
            } else {
                None
            },
        }
    }
}

/// Adds the node-scope project metrics whose key `v` lacks, the first of each
/// key winning.
fn fill_project(v: &mut Vec<(String, AttributeSpec)>, project: Vec<ProjectMetric>)
    requires
        strictly_sorted(keys_of(old(v)@)),
    ensures
        strictly_sorted(keys_of(final(v)@)),
        forall|q: Seq<char>| #[trigger] last_under(final(v)@, q) == or_else(last_under(old(v)@, q), first_node_metric(project@, q)),
{
    let ghost before = v@;
    let ghost all = project@;
    let n = project.len();
    let mut rest = project;
    let mut i: usize = 0;
    while rest.len() > 0
        invariant
            i <= all.len(),
            all.len() == n,
            rest@ == all.skip(i as int),
            strictly_sorted(keys_of(v@)),
            forall|q: Seq<char>| #[trigger] last_under(v@, q) == or_else(last_under(before, q), first_node_metric(all.take(i as int), q)),
        decreases rest.len(),
    {
        let ghost mid = v@;
        let m = rest.remove(0);
        assert(all[i as int] == m);
        assert(all.take(i + 1).drop_last() =~= all.take(i as int));
        if m.node_scope {
            let ghost mk = m.key@;
            let ghost ms = m.spec;
            put(v, m.key, m.spec, false);
            proof {
                assert forall|q: Seq<char>| #[trigger] last_under(v@, q) == or_else(last_under(before, q), first_node_metric(all.take(i + 1), q)) by {
                    assert(last_under(v@, q) == (if q == mk && last_under(mid, q) is None { Some(ms) } else { last_under(mid, q) }));
                }
            }
        } else {
            proof {
                assert forall|q: Seq<char>| #[trigger] last_under(v@, q) == or_else(last_under(before, q), first_node_metric(all.take(i + 1), q)) by {
                    assert(last_under(v@, q) == last_under(mid, q));
                }
            }
        }
        i = i + 1;
        assert(rest@ =~= all.skip(i as int));
    }
    assert(all.take(i as int) =~= all);
}

/// The built-in spec of metric `k`: the coupling catalog's, else the central
/// catalog's, else the plugin level's own.
pub open spec fn builtin_spec(
    level: Seq<(String, AttributeSpec)>,
    metrics: Seq<(String, AttributeSpec)>,
    coupling: Seq<(String, AttributeSpec)>,
    k: Seq<char>,
) -> Option<AttributeSpec> {
    or_else(last_under(coupling, k), or_else(last_under(metrics, k), last_under(level, k)))
}

/// The category group `k`: the coupling catalog's, else the central
/// catalog's, else the plugin level's own.
pub open spec fn builtin_group(
    level: Seq<(String, AttributeGroup)>,
    metrics: Seq<(String, AttributeGroup)>,
    coupling: Seq<(String, AttributeGroup)>,
    k: Seq<char>,
) -> Option<AttributeGroup> {
    or_else(last_under(coupling, k), or_else(last_under(metrics, k), last_under(level, k)))
}

/// Built-ins win: where any built-in layer has a spec for a key, a project
/// metric of the same key is not used.
pub proof fn lemma_builtins_win(
    level: Seq<(String, AttributeSpec)>,
    metrics: Seq<(String, AttributeSpec)>,
    coupling: Seq<(String, AttributeSpec)>,
    project: Seq<ProjectMetric>,
    k: Seq<char>,
)
    requires
        builtin_spec(level, metrics, coupling, k) is Some,
    ensures
        or_else(builtin_spec(level, metrics, coupling, k), first_node_metric(project, k)) == builtin_spec(
            level,
            metrics,
            coupling,
            k,
        ),
{
}

/// The docs specs of one plugin: the metric specs of its `files` level,
/// overlaid by the central metric catalog and then the coupling catalog, and
/// the project's node-scope metrics under the keys no built-in has (built-ins
/// win a collision); the category groups layered the same way; the principles
/// as given. Both keyed lists come out sorted by key, each key once.
pub fn build_specs(
    level: Vec<(String, AttributeSpec)>,
    metrics: Vec<(String, AttributeSpec)>,
    coupling: Vec<(String, AttributeSpec)>,
    project: Vec<ProjectMetric>,
    level_groups: Vec<(String, AttributeGroup)>,
    metric_groups: Vec<(String, AttributeGroup)>,
    coupling_groups: Vec<(String, AttributeGroup)>,
    principles: Vec<Preset>,
) -> (r: DocSpecs)
    ensures
        strictly_sorted(keys_of(r.node_attributes@)),
        forall|q: Seq<char>|
            #[trigger] last_under(r.node_attributes@, q) == or_else(
                builtin_spec(level@, metrics@, coupling@, q),
                first_node_metric(project@, q),
            ),
        strictly_sorted(keys_of(r.groups@)),
        forall|q: Seq<char>|
            #[trigger] last_under(r.groups@, q) == builtin_group(level_groups@, metric_groups@, coupling_groups@, q),
        r.principles@ == principles@,
{
    let ghost (l, m, c, p) = (level@, metrics@, coupling@, project@);
    let ghost (lg, mg, cg) = (level_groups@, metric_groups@, coupling_groups@);
    let mut attrs: Vec<(String, AttributeSpec)> = Vec::new();
    assert(keys_of(attrs@) =~= Seq::<Seq<char>>::empty());
    overlay(&mut attrs, level);
    let ghost a1 = attrs@;
    overlay(&mut attrs, metrics);
    let ghost a2 = attrs@;
    overlay(&mut attrs, coupling);
    let ghost a3 = attrs@;
    fill_project(&mut attrs, project);
    proof {
        assert forall|q: Seq<char>| #[trigger] last_under(attrs@, q) == or_else(builtin_spec(l, m, c, q), first_node_metric(p, q)) by {
            assert(last_under(Seq::<(String, AttributeSpec)>::empty(), q) is None);
            assert(last_under(a1, q) == or_else(last_under(l, q), None));
            assert(last_under(a2, q) == or_else(last_under(m, q), last_under(a1, q)));
            assert(last_under(a3, q) == or_else(last_under(c, q), last_under(a2, q)));
        }
    }
    let mut groups: Vec<(String, AttributeGroup)> = Vec::new();
    assert(keys_of(groups@) =~= Seq::<Seq<char>>::empty());
    overlay(&mut groups, level_groups);
    let ghost g1 = groups@;
    overlay(&mut groups, metric_groups);
    let ghost g2 = groups@;
    overlay(&mut groups, coupling_groups);
    proof {
        assert forall|q: Seq<char>| #[trigger] last_under(groups@, q) == builtin_group(lg, mg, cg, q) by {
            assert(last_under(Seq::<(String, AttributeGroup)>::empty(), q) is None);
            assert(last_under(g1, q) == or_else(last_under(lg, q), None));
            assert(last_under(g2, q) == or_else(last_under(mg, q), last_under(g1, q)));
        }
    }
    DocSpecs { principles, node_attributes: attrs, groups }
}

} // verus!
