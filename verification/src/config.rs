//! Layered configuration: a TOML value model, merging `[[principles]]` arrays
//! by `id`, and resolving the principle catalog (with each principle's doc link)
//! from a merged config.

use vstd::prelude::*;
use crate::docs::AttributeSpec;
use crate::maps::path_view;
use crate::strs::{chars_of, opt_view, push_str, str_eq, string_of};

verus! {

/// A TOML value. A float is held by its IEEE-754 bit pattern and a date-time
/// by its TOML text; tables keep their keys unique.
pub enum TomlValue {
    String(String),
    Integer(i64),
    Float(u64),
    Boolean(bool),
    Datetime(String),
    Array(Vec<TomlValue>),
    Table(TomlTable),
}

/// A TOML table: key / value entries, each key once.
pub struct TomlTable {
    pub entries: Vec<(String, TomlValue)>,
}

/// The value stored under `key` in `entries` (the first entry with that key).
pub open spec fn table_lookup(entries: Seq<(String, TomlValue)>, key: Seq<char>) -> Option<TomlValue>
    decreases entries.len(),
{
    if entries.len() == 0 {
        None
    } else if entries[0].0@ == key {
        Some(entries[0].1)
    } else {
        table_lookup(entries.drop_first(), key)
    }
}

impl TomlTable {
    /// The value stored under `key`, if any.
    pub fn get(&self, key: &str) -> (r: Option<&TomlValue>)
        ensures
            match r {
                Some(v) => table_lookup(self.entries@, key@) == Some(*v),
                None => table_lookup(self.entries@, key@) is None,
            },
    {
        let mut i: usize = 0;
        assert(self.entries@.skip(0) =~= self.entries@);
        while i < self.entries.len()
            invariant
                i <= self.entries@.len(),
                table_lookup(self.entries@.skip(i as int), key@) == table_lookup(self.entries@, key@),
            decreases self.entries.len() - i,
        {
            assert(self.entries@.skip(i as int).drop_first() =~= self.entries@.skip(i + 1));
            if str_eq(self.entries[i].0.as_str(), key) {
                return Some(&self.entries[i].1);
            }
            i = i + 1;
        }
        None
    }
}

/// The string stored under `key`, if it is a string.
pub open spec fn spec_string_field(cfg: TomlTable, key: Seq<char>) -> Option<Seq<char>> {
    match table_lookup(cfg.entries@, key) {
        Some(TomlValue::String(s)) => Some(s@),
        _ => None,
    }
}

/// The string stored under a top-level `key`, if it is a string.
pub fn string_field<'a>(cfg: &'a TomlTable, key: &str) -> (r: Option<&'a str>)
    ensures
        match r {
            Some(s) => spec_string_field(*cfg, key@) == Some(s@),
            None => spec_string_field(*cfg, key@) is None,
        },
{
    match cfg.get(key) {
        Some(TomlValue::String(s)) => Some(s.as_str()),
        _ => None,
    }
}

/// The `id` of a `[[principles]]` entry: the string under `id` of a table.
pub open spec fn spec_principle_id(v: TomlValue) -> Option<Seq<char>> {
    match v {
        TomlValue::Table(t) => match table_lookup(t.entries@, "id"@) {
            Some(TomlValue::String(s)) => Some(s@),
            _ => None,
        },
        _ => None,
    }
}

/// The `id` of a `[[principles]]` entry, if it is a table with a string `id`.
pub fn principle_id(v: &TomlValue) -> (r: Option<&str>)
    ensures
        match r {
            Some(s) => spec_principle_id(*v) == Some(s@),
            None => spec_principle_id(*v) is None,
        },
{
    match v {
        TomlValue::Table(t) => match t.get("id") {
            Some(TomlValue::String(s)) => Some(s.as_str()),
            _ => None,
        },
        _ => None,
    }
}

/// The first entry at or after `i` whose principle id is `id`.
pub open spec fn position_of_id(base: Seq<TomlValue>, id: Seq<char>, i: int) -> Option<int>
    decreases base.len() - i,
{
    if i < 0 || i >= base.len() {
        None
    } else if spec_principle_id(base[i]) == Some(id) {
        Some(i)
    } else {
        position_of_id(base, id, i + 1)
    }
}

/// One overlay principle merged into `base`: it replaces, in place, the first
/// base entry with the same `id`; a new `id`, or an entry without a string
/// `id`, is appended.
pub open spec fn merge_one(base: Seq<TomlValue>, ov: TomlValue) -> Seq<TomlValue> {
    match spec_principle_id(ov) {
        Some(id) => match position_of_id(base, id, 0) {
            Some(p) => base.update(p, ov),
            None => base.push(ov),
        },
        None => base.push(ov),
    }
}

/// The overlay principles merged into `base` one after another, in order.
pub open spec fn spec_merge_principles(base: Seq<TomlValue>, overlay: Seq<TomlValue>) -> Seq<TomlValue>
    decreases overlay.len(),
{
    if overlay.len() == 0 {
        base
    } else {
        merge_one(spec_merge_principles(base, overlay.drop_last()), overlay.last())
    }
}

proof fn lemma_position_bounds(base: Seq<TomlValue>, id: Seq<char>, i: int)
    ensures
        position_of_id(base, id, i) matches Some(p) ==> i <= p < base.len() && spec_principle_id(base[p]) == Some(id),
    decreases base.len() - i,
{
    if !(i < 0 || i >= base.len()) && spec_principle_id(base[i]) != Some(id) {
        lemma_position_bounds(base, id, i + 1);
    }
}

/// Merging keeps every base principle in its place: the merged list is at
/// least as long as the base, and each base position holds a principle with
/// the same id (an overlay principle replaces the base one with its id).
pub proof fn lemma_merge_keeps_base_positions(base: Seq<TomlValue>, overlay: Seq<TomlValue>)
    ensures
        spec_merge_principles(base, overlay).len() >= base.len(),
        forall|i: int| 0 <= i < base.len() ==>
            spec_principle_id(#[trigger] spec_merge_principles(base, overlay)[i]) == spec_principle_id(base[i]),
    decreases overlay.len(),
{
    if overlay.len() > 0 {
        lemma_merge_keeps_base_positions(base, overlay.drop_last());
        let m = spec_merge_principles(base, overlay.drop_last());
        let ov = overlay.last();
        match spec_principle_id(ov) {
            Some(id) => {
                lemma_position_bounds(m, id, 0);
            },
            None => {},
        }
        let r = merge_one(m, ov);
        assert forall|i: int| 0 <= i < base.len() implies spec_principle_id(#[trigger] r[i]) == spec_principle_id(base[i]) by {
            assert(spec_principle_id(m[i]) == spec_principle_id(base[i]));
        }
    }
}

fn str_opt_eq(a: Option<&str>, b: &str) -> (r: bool)
    ensures
        r == (match a { Some(x) => x@ == b@, None => false }),
{
    match a {
        Some(x) => str_eq(x, b),
        None => false,
    }
}

fn position_of(base: &Vec<TomlValue>, id: &str) -> (r: Option<usize>)
    ensures
        match r {
            Some(p) => position_of_id(base@, id@, 0) == Some(p as int),
            None => position_of_id(base@, id@, 0) is None,
        },
{
    let mut i: usize = 0;
    while i < base.len()
        invariant
            i <= base@.len(),
            position_of_id(base@, id@, i as int) == position_of_id(base@, id@, 0),
        decreases base.len() - i,
    {
        if str_opt_eq(principle_id(&base[i]), id) {
            return Some(i);
        }
        i = i + 1;
    }
    None
}

/// Merges two `[[principles]]` arrays by `id` (see `spec_merge_principles`).
pub fn merge_principles(base: Vec<TomlValue>, overlay: Vec<TomlValue>) -> (r: Vec<TomlValue>)
    ensures
        r@ == spec_merge_principles(base@, overlay@),
{
    let ghost ovs = overlay@;
    let n = overlay.len();
    let mut out = base;
    let mut rest = overlay;
    let mut done: usize = 0;
    assert(ovs.take(0) =~= Seq::<TomlValue>::empty());
    assert(ovs.skip(0) =~= ovs);
    while rest.len() > 0
        invariant
            n == ovs.len(),
            done + rest@.len() == ovs.len(),
            rest@ == ovs.skip(done as int),
            out@ == spec_merge_principles(base@, ovs.take(done as int)),
        decreases rest.len(),
    {
        let ov = rest.remove(0);
        assert(ov == ovs[done as int]);
        assert(rest@ =~= ovs.skip(done + 1));
        assert(ovs.take(done + 1).drop_last() =~= ovs.take(done as int));
        assert(ovs.take(done + 1).last() == ov);
        let ghost prev = out@;
        let pos: Option<usize> = match principle_id(&ov) {
            Some(id) => position_of(&out, id),
            None => None,
        };
        proof {
            match spec_principle_id(ov) {
                Some(id) => lemma_position_bounds(prev, id, 0),
                None => {},
            }
        }
        match pos {
            Some(p) => {
                out.set(p, ov);
            },
            None => {
                out.push(ov);
            },
        }
        assert(out@ == merge_one(prev, ov));
        done = done + 1;
    }
    assert(ovs.take(ovs.len() as int) =~= ovs);
    out
}

/// A Prompt-Generator preset (a refactoring principle): the instruction text,
/// how the principle is shown, the metric its recommended-node list sorts by,
/// and which connection sets it pre-selects.
pub struct Preset {
    pub id: String,
    pub label: String,
    pub title: String,
    pub prompt: String,
    pub doc_url: Option<String>,
    pub sort_metric: String,
    pub connections: Vec<String>,
}

/// One `[[principles]]` entry as read from config.
pub struct PrincipleCfg {
    pub id: String,
    pub title: String,
    pub sort_metric: String,
    pub connections: Vec<String>,
    pub prompt: String,
}

/// One `[specs.<key>]` entry: the per-language fields that override an
/// inherited attribute spec.
pub struct SpecOverride {
    pub description: Option<String>,
}

/// An attribute spec as plain values: name, label, short name, group,
/// description, formula.
pub type AttrSpecView = (
    Option<Seq<char>>,
    Option<Seq<char>>,
    Option<Seq<char>>,
    Option<Seq<char>>,
    Option<Seq<char>>,
    Option<Seq<char>>,
);

/// The plain-value view of an attribute spec.
pub open spec fn attr_spec_view(a: AttributeSpec) -> AttrSpecView {
    (opt_view(a.name), opt_view(a.label), opt_view(a.short), opt_view(a.group), opt_view(a.description), opt_view(a.formula))
}

/// The description metric `key` ends with once `overrides` are applied in
/// order: that of the last override for `key` that sets one, else `orig`.
pub open spec fn overridden_description(
    overrides: Seq<(String, SpecOverride)>,
    key: Seq<char>,
    orig: Option<Seq<char>>,
) -> Option<Seq<char>>
    decreases overrides.len(),
{
    if overrides.len() == 0 {
        orig
    } else {
        let last = overrides.last();
        if last.0@ == key && last.1.description is Some {
            opt_view(last.1.description)
        } else {
            overridden_description(overrides.drop_last(), key, orig)
        }
    }
}

/// The metric specs with the language's description overrides applied: every
/// spec keeps its key, position and other fields; an override whose key is no
/// known metric, or that sets no description, changes nothing.
pub open spec fn spec_apply_spec_overrides(
    defaults: Seq<(String, AttributeSpec)>,
    overrides: Seq<(String, SpecOverride)>,
) -> Seq<(Seq<char>, AttrSpecView)> {
    defaults.map_values(|e: (String, AttributeSpec)| {
        let v = attr_spec_view(e.1);
        (e.0@, (v.0, v.1, v.2, v.3, overridden_description(overrides, e.0@, v.4), v.5))
    })
}

/// Applying description overrides keeps every metric's key, position and other
/// fields; a metric gets the description of the last override for its key that
/// sets one, and keeps its own otherwise (overrides of unknown keys change
/// nothing).
pub proof fn lemma_spec_overrides_per_metric(
    defaults: Seq<(String, AttributeSpec)>,
    overrides: Seq<(String, SpecOverride)>,
)
    ensures
        spec_apply_spec_overrides(defaults, overrides).len() == defaults.len(),
        forall|i: int| 0 <= i < defaults.len() ==> {
            let e = #[trigger] spec_apply_spec_overrides(defaults, overrides)[i];
            let d = attr_spec_view(defaults[i].1);
            &&& e.0 == defaults[i].0@
            &&& e.1.0 == d.0 && e.1.1 == d.1 && e.1.2 == d.2 && e.1.3 == d.3 && e.1.5 == d.5
            &&& e.1.4 == overridden_description(overrides, defaults[i].0@, d.4)
        },
        forall|i: int| 0 <= i < defaults.len()
            && (forall|j: int| 0 <= j < overrides.len() ==> #[trigger] overrides[j].0@ != defaults[i].0@)
            ==> #[trigger] spec_apply_spec_overrides(defaults, overrides)[i].1 == attr_spec_view(defaults[i].1),
{
    assert forall|i: int| 0 <= i < defaults.len()
        && (forall|j: int| 0 <= j < overrides.len() ==> #[trigger] overrides[j].0@ != defaults[i].0@)
        implies #[trigger] spec_apply_spec_overrides(defaults, overrides)[i].1 == attr_spec_view(defaults[i].1) by {
        lemma_no_override(overrides, defaults[i].0@, attr_spec_view(defaults[i].1).4);
    }
}

proof fn lemma_no_override(overrides: Seq<(String, SpecOverride)>, key: Seq<char>, orig: Option<Seq<char>>)
    requires
        forall|j: int| 0 <= j < overrides.len() ==> #[trigger] overrides[j].0@ != key,
    ensures
        overridden_description(overrides, key, orig) == orig,
    decreases overrides.len(),
{
    if overrides.len() > 0 {
        assert(overrides.last() == overrides[overrides.len() - 1]);
        assert forall|j: int| 0 <= j < overrides.drop_last().len() implies #[trigger] overrides.drop_last()[j].0@ != key by {
            assert(overrides.drop_last()[j] == overrides[j]);
        }
        lemma_no_override(overrides.drop_last(), key, orig);
    }
}

fn opt_string(o: &Option<String>) -> (r: Option<String>)
    ensures
        opt_view(r) == opt_view(*o),
{
    match o {
        Some(s) => Some(s.clone()),
        None => None,
    }
}

fn description_for(overrides: &Vec<(String, SpecOverride)>, key: &str, orig: &Option<String>) -> (r: Option<String>)
    ensures
        opt_view(r) == overridden_description(overrides@, key@, opt_view(*orig)),
{
    let mut cur = opt_string(orig);
    let mut i: usize = 0;
    while i < overrides.len()
        invariant
            i <= overrides@.len(),
            opt_view(cur) == overridden_description(overrides@.take(i as int), key@, opt_view(*orig)),
        decreases overrides.len() - i,
    {
        assert(overrides@.take(i + 1).drop_last() =~= overrides@.take(i as int));
        assert(overrides@.take(i + 1).last() == overrides@[i as int]);
        if str_eq(overrides[i].0.as_str(), key) {
            match &overrides[i].1.description {
                Some(d) => {
                    cur = Some(d.clone());
                },
                None => {},
            }
        }
        i = i + 1;
    }
    assert(overrides@.take(overrides@.len() as int) =~= overrides@);
    cur
}

/// Applies a language's `[specs.<key>]` description overrides over the metric
/// specs (see `spec_apply_spec_overrides`).
pub fn apply_spec_overrides(
    defaults: &Vec<(String, AttributeSpec)>,
    overrides: &Vec<(String, SpecOverride)>,
) -> (r: Vec<(String, AttributeSpec)>)
    ensures
        r@.map_values(|e: (String, AttributeSpec)| (e.0@, attr_spec_view(e.1)))
            == spec_apply_spec_overrides(defaults@, overrides@),
{
    let mut out: Vec<(String, AttributeSpec)> = Vec::new();
    let mut i: usize = 0;
    while i < defaults.len()
        invariant
            i <= defaults@.len(),
            out@.map_values(|e: (String, AttributeSpec)| (e.0@, attr_spec_view(e.1)))
                == spec_apply_spec_overrides(defaults@.take(i as int), overrides@),
        decreases defaults.len() - i,
    {
        let key = &defaults[i].0;
        let a = &defaults[i].1;
        let spec = AttributeSpec {
            name: opt_string(&a.name),
            label: opt_string(&a.label),
            short: opt_string(&a.short),
            group: opt_string(&a.group),
            description: description_for(overrides, key.as_str(), &a.description),
            formula: opt_string(&a.formula),
        };
        let ghost before = out@.map_values(|e: (String, AttributeSpec)| (e.0@, attr_spec_view(e.1)));
        let k2 = key.clone();
        assert(k2@ == key@);
        let ghost want = spec_apply_spec_overrides(defaults@.take(i + 1), overrides@);
        assert(defaults@.take(i + 1).drop_last() =~= defaults@.take(i as int));
        assert(want =~= spec_apply_spec_overrides(defaults@.take(i as int), overrides@).push(
            (key@, (opt_view(a.name), opt_view(a.label), opt_view(a.short), opt_view(a.group),
                overridden_description(overrides@, key@, opt_view(a.description)), opt_view(a.formula))),
        ));
        out.push((k2, spec));
        assert(out@.map_values(|e: (String, AttributeSpec)| (e.0@, attr_spec_view(e.1))) =~= want);
        i = i + 1;
    }
    assert(defaults@.take(defaults@.len() as int) =~= defaults@);
    out
}

/// Which principle ids a language documents in its own folder.
pub enum DocOverrides {
    /// Every principle.
    All,
    /// Only these ids.
    Ids(Vec<String>),
    /// No own docs: every doc resolves to the shared corpus.
    Absent,
}

/// The abstract form of `DocOverrides`.
pub enum DocOverridesView {
    All,
    Ids(Seq<Seq<char>>),
    Nothing,
}

impl View for DocOverrides {
    type V = DocOverridesView;

    open spec fn view(&self) -> DocOverridesView {
        match self {
            DocOverrides::All => DocOverridesView::All,
            DocOverrides::Ids(v) => DocOverridesView::Ids(path_view(v@)),
            DocOverrides::Absent => DocOverridesView::Nothing,
        }
    }
}

/// Whether the overrides give principle `id` a language-specific doc.
pub open spec fn spec_covers(o: DocOverridesView, id: Seq<char>) -> bool {
    match o {
        DocOverridesView::All => true,
        DocOverridesView::Ids(ids) => ids.contains(id),
        DocOverridesView::Nothing => false,
    }
}

impl DocOverrides {
    /// Whether principle `id` has a language-specific doc.
    pub fn covers(&self, id: &str) -> (r: bool)
        ensures
            r == spec_covers(self@, id@),
    {
        match self {
            DocOverrides::All => true,
            DocOverrides::Ids(ids) => {
                let mut i: usize = 0;
                while i < ids.len()
                    invariant
                        i <= ids@.len(),
                        self@ == DocOverridesView::Ids(path_view(ids@)),
                        forall|k: int| 0 <= k < i ==> ids@[k]@ != id@,
                    decreases ids.len() - i,
                {
                    if str_eq(ids[i].as_str(), id) {
                        assert(path_view(ids@)[i as int] == id@);
                        return true;
                    }
                    i = i + 1;
                }
                assert(!path_view(ids@).contains(id@));
                false
            },
            DocOverrides::Absent => false,
        }
    }
}

/// The strings of an array, in order (other items skipped).
pub open spec fn spec_string_items(a: Seq<TomlValue>) -> Seq<Seq<char>>
    decreases a.len(),
{
    if a.len() == 0 {
        Seq::empty()
    } else {
        let prev = spec_string_items(a.drop_last());
        match a.last() {
            TomlValue::String(s) => prev.push(s@),
            _ => prev,
        }
    }
}

/// The `doc_overrides` setting of a merged config: `"*"` covers every
/// principle, an array covers the strings it holds, anything else none.
pub open spec fn spec_doc_overrides(v: Option<TomlValue>) -> DocOverridesView {
    match v {
        Some(TomlValue::String(s)) => if s@ == "*"@ { DocOverridesView::All } else { DocOverridesView::Nothing },
        Some(TomlValue::Array(a)) => DocOverridesView::Ids(spec_string_items(a@)),
        _ => DocOverridesView::Nothing,
    }
}

/// Reads the `doc_overrides` key of a merged config.
pub fn doc_overrides(cfg: &TomlTable) -> (r: DocOverrides)
    ensures
        r@ == spec_doc_overrides(table_lookup(cfg.entries@, "doc_overrides"@)),
{
    match cfg.get("doc_overrides") {
        Some(TomlValue::String(s)) => {
            if str_eq(s.as_str(), "*") {
                DocOverrides::All
            } else {
                DocOverrides::Absent
            }
        },
        Some(TomlValue::Array(a)) => {
            let mut ids: Vec<String> = Vec::new();
            let mut i: usize = 0;
            while i < a.len()
                invariant
                    i <= a@.len(),
                    path_view(ids@) == spec_string_items(a@.take(i as int)),
                decreases a.len() - i,
            {
                assert(a@.take(i + 1).drop_last() =~= a@.take(i as int));
                let ghost before = path_view(ids@);
                match &a[i] {
                    TomlValue::String(s) => {
                        ids.push(s.clone());
                        assert(path_view(ids@) =~= before.push(s@));
                    },
                    _ => {
                        assert(path_view(ids@) =~= before);
                    },
                }
                i = i + 1;
            }
            assert(a@.take(a@.len() as int) =~= a@);
            DocOverrides::Ids(ids)
        },
        _ => DocOverrides::Absent,
    }
}

/// A principle's doc link: `{base}/{folder}/{id}.md`, the folder being the
/// language's own when it overrides this id (and names a language), `base`
/// otherwise; no link without a `doc_base`.
pub open spec fn spec_doc_url(
    base: Option<Seq<char>>,
    lang: Option<Seq<char>>,
    o: DocOverridesView,
    id: Seq<char>,
) -> Option<Seq<char>> {
    match base {
        Some(b) => {
            let folder = match lang {
                Some(l) => if spec_covers(o, id) { l } else { "base"@ },
                None => "base"@,
            };
            Some(b + "/"@ + folder + "/"@ + id + ".md"@)
        },
        None => None,
    }
}

/// The resolved principle for one catalog entry: its label is its id, and its
/// doc link follows `spec_doc_url`.
pub open spec fn resolves_to(r: Preset, p: PrincipleCfg, base: Option<Seq<char>>, lang: Option<Seq<char>>, o: DocOverridesView) -> bool {
    &&& r.id@ == p.id@
    &&& r.label@ == p.id@
    &&& r.title@ == p.title@
    &&& r.prompt@ == p.prompt@
    &&& r.sort_metric@ == p.sort_metric@
    &&& path_view(r.connections@) == path_view(p.connections@)
    &&& opt_view(r.doc_url) == spec_doc_url(base, lang, o, p.id@)
}

fn doc_url(base: Option<&str>, lang: Option<&str>, overrides: &DocOverrides, id: &str) -> (r: Option<String>)
    ensures
        opt_view(r) == spec_doc_url(
            match base { Some(b) => Some(b@), None => None },
            match lang { Some(l) => Some(l@), None => None },
            overrides@,
            id@,
        ),
{
    match base {
        Some(b) => {
            let folder: &str = match lang {
                Some(l) => if overrides.covers(id) { l } else { "base" },
                None => "base",
            };
            let mut v = chars_of(b);
            push_str(&mut v, "/");
            push_str(&mut v, folder);
            push_str(&mut v, "/");
            push_str(&mut v, id);
            push_str(&mut v, ".md");
            Some(string_of(&v))
        },
        None => None,
    }
}

/// The fully resolved principles of a merged config, in catalog order:
/// `principles` is its `[[principles]]` array, and `doc_base`, `doc_lang` and
/// `doc_overrides` decide each principle's doc link.
pub fn resolved_principles(cfg: &TomlTable, principles: Vec<PrincipleCfg>) -> (r: Vec<Preset>)
    ensures
        r@.len() == principles@.len(),
        forall|i: int| 0 <= i < r@.len() ==> resolves_to(
            #[trigger] r@[i],
            principles@[i],
            spec_string_field(*cfg, "doc_base"@),
            spec_string_field(*cfg, "doc_lang"@),
            spec_doc_overrides(table_lookup(cfg.entries@, "doc_overrides"@)),
        ),
{
    let base = string_field(cfg, "doc_base");
    let lang = string_field(cfg, "doc_lang");
    let overrides = doc_overrides(cfg);
    let ghost gb = match base { Some(b) => Some(b@), None => None::<Seq<char>> };
    let ghost gl = match lang { Some(l) => Some(l@), None => None::<Seq<char>> };
    let ghost ps = principles@;
    let mut rest = principles;
    let mut out: Vec<Preset> = Vec::new();
    let n = rest.len();
    while rest.len() > 0
        invariant
            n == ps.len(),
            out@.len() + rest@.len() == ps.len(),
            rest@ == ps.skip(out@.len() as int),
            gb == spec_string_field(*cfg, "doc_base"@),
            gl == spec_string_field(*cfg, "doc_lang"@),
            overrides@ == spec_doc_overrides(table_lookup(cfg.entries@, "doc_overrides"@)),
            gb == match base { Some(b) => Some(b@), None => None::<Seq<char>> },
            gl == match lang { Some(l) => Some(l@), None => None::<Seq<char>> },
            forall|i: int| 0 <= i < out@.len() ==> resolves_to(#[trigger] out@[i], ps[i], gb, gl, overrides@),
        decreases rest.len(),
    {
        let k = out.len();
        let p = rest.remove(0);
        assert(p == ps[k as int]);
        assert(rest@ =~= ps.skip(k + 1));
        let url = doc_url(base, lang, &overrides, p.id.as_str());
        let label = p.id.clone();
        let r = Preset {
            id: p.id,
            label,
            title: p.title,
            prompt: p.prompt,
            doc_url: url,
            sort_metric: p.sort_metric,
            connections: p.connections,
        };
        out.push(r);
    }
    out
}

} // verus!
