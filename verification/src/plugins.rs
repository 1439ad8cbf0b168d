//! The language-plugin registry: matching a `--plugin` name or alias, listing
//! the built-in names, and auto-detecting a workspace's language from the
//! marker files at its root.

use vstd::prelude::*;
use crate::paths::detect_with_marker;
use crate::strs::{chars_of, push_all, push_str, str_eq, string_of};

verus! {

/// What the registry knows of one language plugin.
pub struct PluginInfo {
    /// Canonical name, e.g. `rust`.
    pub name: String,
    /// Extra names accepted on the command line.
    pub aliases: Vec<String>,
    /// Workspace-root files that indicate the language.
    pub markers: Vec<String>,
}

/// `query` names plugin `p` (its name or one of its aliases).
pub open spec fn spec_matches(p: PluginInfo, query: Seq<char>) -> bool {
    p.name@ == query || exists|j: int| 0 <= j < p.aliases@.len() && p.aliases@[j]@ == query
}

impl PluginInfo {
    /// Whether `query` is this plugin's name or one of its aliases.
    pub fn matches(&self, query: &str) -> (r: bool)
        ensures
            r == spec_matches(*self, query@),
    {
        if str_eq(self.name.as_str(), query) {
            return true;
        }
        let mut j: usize = 0;
        while j < self.aliases.len()
            invariant
                j <= self.aliases@.len(),
                self.name@ != query@,
                forall|k: int| 0 <= k < j ==> self.aliases@[k]@ != query@,
            decreases self.aliases.len() - j,
        {
            if str_eq(self.aliases[j].as_str(), query) {
                return true;
            }
            j = j + 1;
        }
        false
    }
}

/// The first plugin at or after `i` that `query` names.
pub open spec fn find_from_index(reg: Seq<PluginInfo>, query: Seq<char>, i: int) -> Option<int>
    decreases reg.len() - i,
{
    if i < 0 || i >= reg.len() {
        None
    } else if spec_matches(reg[i], query) {
        Some(i)
    } else {
        find_from_index(reg, query, i + 1)
    }
}

proof fn lemma_find_from_index_bounds(reg: Seq<PluginInfo>, query: Seq<char>, i: int)
    ensures
        find_from_index(reg, query, i) matches Some(j) ==> i <= j < reg.len() && spec_matches(reg[j], query),
    decreases reg.len() - i,
{
    if !(i < 0 || i >= reg.len()) && !spec_matches(reg[i], query) {
        lemma_find_from_index_bounds(reg, query, i + 1);
    }
}

/// The first plugin that `query` names.
pub open spec fn spec_find_plugin(reg: Seq<PluginInfo>, query: Seq<char>) -> Option<int> {
    find_from_index(reg, query, 0)
}

/// The position of the first plugin that `name` names, if any.
pub fn find_plugin(registry: &Vec<PluginInfo>, name: &str) -> (r: Option<usize>)
    ensures
        match r {
            Some(i) => spec_find_plugin(registry@, name@) == Some(i as int),
            None => spec_find_plugin(registry@, name@) is None,
        },
{
    let mut i: usize = 0;
    while i < registry.len()
        invariant
            i <= registry@.len(),
            find_from_index(registry@, name@, i as int) == find_from_index(registry@, name@, 0),
        decreases registry.len() - i,
    {
        if registry[i].matches(name) {
            return Some(i);
        }
        i = i + 1;
    }
    None
}

/// The canonical names of the plugins.
pub open spec fn plugin_names(reg: Seq<PluginInfo>) -> Seq<Seq<char>> {
    reg.map_values(|p: PluginInfo| p.name@)
}

/// The canonical plugin names joined with `", "`, for help and error messages.
pub fn names(registry: &Vec<PluginInfo>) -> (r: String)
    ensures
        r@ == crate::maps::spec_join(plugin_names(registry@), ", "@),
{
    let mut out: Vec<char> = Vec::new();
    let sep = chars_of(", ");
    let mut i: usize = 0;
    while i < registry.len()
        invariant
            i <= registry@.len(),
            sep@ == ", "@,
            out@ == crate::maps::spec_join(plugin_names(registry@.take(i as int)), ", "@),
        decreases registry.len() - i,
    {
        let ghost before = plugin_names(registry@.take(i as int));
        assert(plugin_names(registry@.take(i + 1)) =~= before.push(registry@[i as int].name@));
        if i > 0 {
            push_all(&mut out, &sep);
        } else {
            assert(before =~= Seq::<Seq<char>>::empty());
        }
        push_str(&mut out, registry[i].name.as_str());
        proof {
            let now = before.push(registry@[i as int].name@);
            assert(now.drop_last() =~= before);
        }
        i = i + 1;
    }
    assert(registry@.take(registry@.len() as int) =~= registry@);
    string_of(&out)
}

/// The tool versions the plugin that `name` names wants recorded
/// (`versions_of(i)` reports those of plugin `i`); none when no plugin matches.
pub fn versions<F: Fn(usize) -> Vec<(String, String)>>(
    registry: &Vec<PluginInfo>,
    name: &str,
    versions_of: F,
) -> (r: Vec<(String, String)>)
    requires
        forall|i: usize| 0 <= i < registry@.len() ==> versions_of.requires((i,)),
    ensures
        match spec_find_plugin(registry@, name@) {
            Some(i) => versions_of.ensures((i as usize,), r),
            None => r@.len() == 0,
        },
{
    match find_plugin(registry, name) {
        Some(i) => {
            proof {
                lemma_find_from_index_bounds(registry@, name@, 0);
            }
            versions_of(i)
        },
        None => Vec::new(),
    }
}

/// The names of the plugins whose markers were found (`hits[i]` for plugin `i`).
pub open spec fn detected_names(reg: Seq<PluginInfo>, hits: Seq<bool>) -> Seq<Seq<char>>
    decreases reg.len(),
{
    if reg.len() == 0 || hits.len() == 0 {
        Seq::empty()
    } else {
        let prev = detected_names(reg.drop_last(), hits.drop_last());
        if hits.last() { prev.push(reg.last().name@) } else { prev }
    }
}

/// The outcome of auto-detection given the names of the plugins whose markers
/// were found: the one name, or an error saying that none or several matched.
pub open spec fn spec_detection(found: Seq<Seq<char>>, workspace: Seq<char>, all_names: Seq<char>) -> Result<Seq<char>, Seq<char>> {
    if found.len() == 1 {
        Ok(found[0])
    } else if found.len() == 0 {
        Err("could not auto-detect a plugin in "@ + workspace + ": no project marker found — pass --plugin "@ + all_names)
    } else {
        Err("ambiguous project in "@ + workspace + ": markers for multiple plugins found ("@
            + crate::maps::spec_join(found, ", "@) + ") — pass --plugin to choose"@)
    }
}

/// The view of a detection result.
pub open spec fn result_view(r: Result<String, String>) -> Result<Seq<char>, Seq<char>> {
    match r {
        Ok(s) => Ok(s@),
        Err(e) => Err(e@),
    }
}

/// Decides auto-detection from the names of the plugins whose markers were
/// found (see `spec_detection`).
pub fn decide_detection(found: &Vec<String>, workspace: &str, all_names: &str) -> (r: Result<String, String>)
    ensures
        result_view(r) == spec_detection(crate::maps::path_view(found@), workspace@, all_names@),
{
    if found.len() == 1 {
        let one = found[0].clone();
        return Ok(one);
    }
    let mut v: Vec<char> = Vec::new();
    if found.len() == 0 {
        push_str(&mut v, "could not auto-detect a plugin in ");
        push_str(&mut v, workspace);
        push_str(&mut v, ": no project marker found — pass --plugin ");
        push_str(&mut v, all_names);
    } else {
        push_str(&mut v, "ambiguous project in ");
        push_str(&mut v, workspace);
        push_str(&mut v, ": markers for multiple plugins found (");
        let joined = crate::maps::join_strings(found, ", ");
        push_str(&mut v, joined.as_str());
        push_str(&mut v, ") — pass --plugin to choose");
    }
    Err(string_of(&v))
}

/// Some probe found its marker (`present[j]` for marker `j`).
pub open spec fn some_marker_present(present: Seq<bool>) -> bool {
    exists|j: int| 0 <= j < present.len() && present[j]
}

/// Which plugins were hit, given which of each plugin's markers were found
/// (`presence[k][j]` for marker `j` of plugin `k`).
pub open spec fn plugin_hits(presence: Seq<Seq<bool>>) -> Seq<bool> {
    presence.map_values(|p: Seq<bool>| some_marker_present(p))
}

/// Whether some marker of a plugin is present (`present[j]` for its marker
/// `j`): a plugin is detected exactly when any one of its markers exists,
/// whichever it is.
pub fn any_marker_present(present: &Vec<bool>) -> (r: bool)
    ensures
        r == exists|j: int| 0 <= j < present@.len() && present@[j],
{
    let mut j: usize = 0;
    while j < present.len()
        invariant
            j <= present@.len(),
            forall|q: int| 0 <= q < j ==> !present@[q],
        decreases present.len() - j,
    {
        if present[j] {
            return true;
        }
        j = j + 1;
    }
    false
}

/// Probes each of plugin `p`'s markers at the workspace root, in order. What
/// each probe answers is read from the disk, so nothing is stated of it.
fn marker_presence(p: &PluginInfo, workspace: &str) -> (r: Vec<bool>)
    ensures
        r@.len() == p.markers@.len(),
{
    let mut present: Vec<bool> = Vec::new();
    let mut j: usize = 0;
    while j < p.markers.len()
        invariant
            j <= p.markers@.len(),
            present@.len() == j,
        decreases p.markers.len() - j,
    {
        present.push(detect_with_marker(workspace, p.markers[j].as_str()));
        j = j + 1;
    }
    present
}

/// Whether any of plugin `p`'s marker files exists at the workspace root: each
/// marker is probed, and the plugin is detected when any probe finds its file.
/// A plugin without markers is never detected.
fn plugin_detect(p: &PluginInfo, workspace: &str) -> (r: bool)
    ensures
        r ==> p.markers@.len() > 0,
        exists|present: Seq<bool>|
            present.len() == p.markers@.len() && r == #[trigger] some_marker_present(present),
{
    let present = marker_presence(p, workspace);
    let r = any_marker_present(&present);
    assert(r == some_marker_present(present@));
    r
}

/// Auto-detects the plugin from workspace-root marker files: the one plugin
/// whose markers are present, or an error when none or several are. Which
/// markers exist is up to the filesystem; whatever it answers, the result is
/// the decision on the plugins found, in registry order.
pub fn detect(registry: &Vec<PluginInfo>, workspace: &str) -> (r: Result<String, String>)
    ensures
        exists|hits: Seq<bool>|
            hits.len() == registry@.len()
            && (forall|k: int| 0 <= k < hits.len() && #[trigger] hits[k] ==> registry@[k].markers@.len() > 0)
            && result_view(r) == spec_detection(
                detected_names(registry@, hits),
                workspace@,
                crate::maps::spec_join(plugin_names(registry@), ", "@),
            ),
        exists|presence: Seq<Seq<bool>>|
            presence.len() == registry@.len()
            && (forall|k: int| 0 <= k < presence.len() ==> (#[trigger] presence[k]).len() == registry@[k].markers@.len())
            && result_view(r) == spec_detection(
                detected_names(registry@, plugin_hits(presence)),
                workspace@,
                crate::maps::spec_join(plugin_names(registry@), ", "@),
            ),
{
    let mut found: Vec<String> = Vec::new();
    let ghost mut hits: Seq<bool> = Seq::empty();
    let ghost mut presence: Seq<Seq<bool>> = Seq::empty();
    let mut i: usize = 0;
    while i < registry.len()
        invariant
            i <= registry@.len(),
            hits.len() == i,
            presence.len() == i,
            hits == plugin_hits(presence),
            forall|k: int| 0 <= k < presence.len() ==> (#[trigger] presence[k]).len() == registry@[k].markers@.len(),
            forall|k: int| 0 <= k < hits.len() && #[trigger] hits[k] ==> registry@[k].markers@.len() > 0,
            crate::maps::path_view(found@) == detected_names(registry@.take(i as int), hits),
        decreases registry.len() - i,
    {
        let hit = plugin_detect(&registry[i], workspace);
        let ghost before = crate::maps::path_view(found@);
        if hit {
            found.push(registry[i].name.clone());
            assert(crate::maps::path_view(found@) =~= before.push(registry@[i as int].name@));
        } else {
            assert(crate::maps::path_view(found@) =~= before);
        }
        proof {
            assert(registry@.take(i + 1).drop_last() =~= registry@.take(i as int));
            assert(hits.push(hit).drop_last() =~= hits);
            let pr = choose|pr: Seq<bool>| pr.len() == registry@[i as int].markers@.len() && hit == #[trigger] some_marker_present(pr);
            assert(plugin_hits(presence.push(pr)) =~= hits.push(hit));
            hits = hits.push(hit);
            presence = presence.push(pr);
        }
        i = i + 1;
    }
    assert(registry@.take(registry@.len() as int) =~= registry@);
    let all = names(registry);
    decide_detection(&found, workspace, all.as_str())
}

/// How many plugins were hit.
pub open spec fn hit_count(hits: Seq<bool>) -> nat
    decreases hits.len(),
{
    if hits.len() == 0 {
        0
    } else {
        hit_count(hits.drop_last()) + if hits.last() {
            1nat
        } else {
            0nat
        }
    }
}

/// `name` is the name of a plugin that was hit.
pub open spec fn hit_name(reg: Seq<PluginInfo>, hits: Seq<bool>, name: Seq<char>) -> bool {
    exists|k: int| 0 <= k < reg.len() && hits[k] && #[trigger] reg[k].name@ == name
}

proof fn lemma_detected_names_hits(reg: Seq<PluginInfo>, hits: Seq<bool>)
    requires
        reg.len() == hits.len(),
    ensures
        detected_names(reg, hits).len() == hit_count(hits),
        forall|i: int|
            0 <= i < detected_names(reg, hits).len() ==> hit_name(reg, hits, #[trigger] detected_names(reg, hits)[i]),
    decreases reg.len(),
{
    if reg.len() > 0 {
        let r0 = reg.drop_last();
        let h0 = hits.drop_last();
        lemma_detected_names_hits(r0, h0);
        let prev = detected_names(r0, h0);
        let all = detected_names(reg, hits);
        assert(all == (if hits.last() { prev.push(reg.last().name@) } else { prev }));
        assert forall|i: int| 0 <= i < detected_names(reg, hits).len() implies hit_name(
            reg,
            hits,
            #[trigger] detected_names(reg, hits)[i],
        ) by {
            if i < prev.len() {
                assert(all[i] == prev[i]);
                assert(hit_name(r0, h0, prev[i]));
                let k = choose|k: int| 0 <= k < r0.len() && h0[k] && #[trigger] r0[k].name@ == prev[i];
                assert(hits[k] && reg[k] == r0[k]);
            } else {
                let k = reg.len() - 1;
                assert(hits.last());
                assert(all[i] == reg.last().name@);
                assert(hits[k] && reg[k].name@ == all[i]);
            }
        }
    }
}

/// Auto-detection succeeds exactly when one plugin's markers were found, and
/// then names a plugin whose markers were found; with none or several it fails.
pub proof fn lemma_detection_needs_one_hit(reg: Seq<PluginInfo>, hits: Seq<bool>, workspace: Seq<char>, all_names: Seq<char>)
    requires
        reg.len() == hits.len(),
    ensures
        spec_detection(detected_names(reg, hits), workspace, all_names) is Ok <==> hit_count(hits) == 1,
        spec_detection(detected_names(reg, hits), workspace, all_names) matches Ok(name) ==> hit_name(reg, hits, name),
{
    lemma_detected_names_hits(reg, hits);
    let d = detected_names(reg, hits);
    if d.len() == 1 {
        assert(d[0] == d[0]);
    }
}

} // verus!
