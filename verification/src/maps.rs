//! Small association maps keyed by names and by module paths.
//!
//! The analysis keeps its lookup tables (module indexes, dependency maps) as
//! association lists whose keys are unique: `insert` replaces an existing entry
//! in place and appends a new key. Each map is viewed as a mathematical `Map`.

use vstd::prelude::*;
use crate::strs::{chars_eq, chars_of};

verus! {

/// A module path (`["a", "b"]` for `a::b`) as a sequence of character runs.
pub open spec fn path_view(p: Seq<String>) -> Seq<Seq<char>> {
    p.map_values(|s: String| s@)
}

/// First value stored under `k` in an association list.
pub open spec fn name_lookup<V>(s: Seq<(String, V)>, k: Seq<char>) -> Option<V>
    decreases s.len(),
{
    if s.len() == 0 {
        None
    } else if s[0].0@ == k {
        Some(s[0].1)
    } else {
        name_lookup(s.drop_first(), k)
    }
}

/// First value stored under the module path `k` in an association list.
pub open spec fn path_lookup(s: Seq<(Vec<String>, String)>, k: Seq<Seq<char>>) -> Option<Seq<char>>
    decreases s.len(),
{
    if s.len() == 0 {
        None
    } else if path_view(s[0].0@) == k {
        Some(s[0].1@)
    } else {
        path_lookup(s.drop_first(), k)
    }
}

/// A map from names to values.
pub struct NameMap<V> {
    pub entries: Vec<(String, V)>,
}

impl<V> View for NameMap<V> {
    type V = Map<Seq<char>, V>;

    open spec fn view(&self) -> Map<Seq<char>, V> {
        Map::new(
            |k: Seq<char>| name_lookup(self.entries@, k) is Some,
            |k: Seq<char>| name_lookup(self.entries@, k).unwrap(),
        )
    }
}

proof fn lemma_name_lookup_skip<V>(s: Seq<(String, V)>, i: int, k: Seq<char>)
    requires
        0 <= i <= s.len(),
        forall|j: int| 0 <= j < i ==> s[j].0@ != k,
    ensures
        name_lookup(s, k) == name_lookup(s.subrange(i, s.len() as int), k),
    decreases i,
{
    if i > 0 {
        assert(s[0].0@ != k);
        lemma_name_lookup_skip(s.drop_first(), i - 1, k);
        assert(s.drop_first().subrange(i - 1, s.len() - 1) =~= s.subrange(i, s.len() as int));
    } else {
        assert(s.subrange(0, s.len() as int) =~= s);
    }
}

proof fn lemma_name_lookup_push<V>(s: Seq<(String, V)>, e: (String, V), k: Seq<char>)
    ensures
        name_lookup(s.push(e), k) == (match name_lookup(s, k) {
            Some(v) => Some(v),
            None => if e.0@ == k { Some(e.1) } else { None },
        }),
    decreases s.len(),
{
    if s.len() > 0 {
        assert(s.push(e)[0] == s[0]);
        assert(s.push(e).drop_first() =~= s.drop_first().push(e));
        lemma_name_lookup_push(s.drop_first(), e, k);
    } else {
        assert(s.push(e).drop_first() =~= Seq::<(String, V)>::empty());
        assert(s.push(e)[0] == e);
        assert(name_lookup(Seq::<(String, V)>::empty(), k) is None);
    }
}

proof fn lemma_name_lookup_update<V>(s: Seq<(String, V)>, i: int, e: (String, V), k: Seq<char>)
    requires
        0 <= i < s.len(),
        s[i].0@ == e.0@,
        forall|j: int| 0 <= j < i ==> s[j].0@ != e.0@,
    ensures
        name_lookup(s.update(i, e), k) == (if k == e.0@ { Some(e.1) } else { name_lookup(s, k) }),
    decreases i,
{
    if i > 0 {
        assert(s.update(i, e)[0] == s[0]);
        assert(s.update(i, e).drop_first() =~= s.drop_first().update(i - 1, e));
        lemma_name_lookup_update(s.drop_first(), i - 1, e, k);
    } else {
        assert(s.update(0, e)[0] == e);
        assert(s.update(0, e).drop_first() =~= s.drop_first());
    }
}

impl<V> NameMap<V> {
    /// An empty map.
    pub fn new() -> (m: Self)
        ensures
            m@ == Map::<Seq<char>, V>::empty(),
    {
        let m = NameMap { entries: Vec::new() };
        assert(m@ =~= Map::<Seq<char>, V>::empty());
        m
    }

    /// Position of the first entry stored under `k`.
    fn find(&self, k: &str) -> (r: Option<usize>)
        ensures
            r matches Some(i) ==> i < self.entries@.len() && self.entries@[i as int].0@ == k@
                && forall|j: int| 0 <= j < i ==> self.entries@[j].0@ != k@,
            r is None ==> forall|j: int| 0 <= j < self.entries@.len() ==> self.entries@[j].0@ != k@,
    {
        let kc = chars_of(k);
        let mut i: usize = 0;
        while i < self.entries.len()
            invariant
                i <= self.entries@.len(),
                kc@ == k@,
                forall|j: int| 0 <= j < i ==> self.entries@[j].0@ != k@,
            decreases self.entries.len() - i,
        {
            let ec = chars_of(self.entries[i].0.as_str());
            if chars_eq(&ec, &kc) {
                return Some(i);
            }
            i = i + 1;
        }
        None
    }

    /// The value stored under `k`, if any.
    pub fn get(&self, k: &str) -> (r: Option<&V>)
        ensures
            r is Some == self@.contains_key(k@),
            r matches Some(v) ==> *v == self@[k@],
    {
        let f = self.find(k);
        proof {
            match f {
                Some(i) => lemma_name_lookup_skip(self.entries@, i as int, k@),
                None => lemma_name_lookup_skip(self.entries@, self.entries@.len() as int, k@),
            }
        }
        match f {
            Some(i) => Some(&self.entries[i].1),
            None => None,
        }
    }

    /// Stores `v` under `k`, replacing any previous value.
    pub fn insert(&mut self, k: String, v: V)
        ensures
            final(self)@ == old(self)@.insert(k@, v),
    {
        let f = self.find(k.as_str());
        let ghost old_entries = self.entries@;
        match f {
            Some(i) => {
                proof {
                    assert forall|kk: Seq<char>| #[trigger] name_lookup(old_entries.update(i as int, (k, v)), kk)
                        == (if kk == k@ { Some(v) } else { name_lookup(old_entries, kk) }) by {
                        lemma_name_lookup_update(old_entries, i as int, (k, v), kk);
                    }
                }
                self.entries.set(i, (k, v));
            },
            None => {
                proof {
                    assert forall|kk: Seq<char>| #[trigger] name_lookup(old_entries.push((k, v)), kk)
                        == (if kk == k@ { Some(v) } else { name_lookup(old_entries, kk) }) by {
                        lemma_name_lookup_push(old_entries, (k, v), kk);
                        lemma_name_lookup_skip(old_entries, old_entries.len() as int, k@);
                    }
                }
                self.entries.push((k, v));
            },
        }
        assert(self@ =~= old(self)@.insert(k@, v));
    }
}

/// Element-wise equality of two module paths.
pub fn paths_eq(a: &Vec<String>, b: &Vec<String>) -> (r: bool)
    ensures
        r == (path_view(a@) == path_view(b@)),
{
    if a.len() != b.len() {
        return false;
    }
    let mut i: usize = 0;
    while i < a.len()
        invariant
            a.len() == b.len(),
            i <= a.len(),
            forall|j: int| 0 <= j < i ==> a@[j]@ == b@[j]@,
        decreases a.len() - i,
    {
        if a[i] != b[i] {
            assert(path_view(a@)[i as int] != path_view(b@)[i as int]);
            return false;
        }
        i = i + 1;
    }
    assert(path_view(a@) =~= path_view(b@));
    true
}

/// A module index: module path (relative to a target root) to module node id.
pub struct ModuleIndex {
    pub entries: Vec<(Vec<String>, String)>,
}

impl View for ModuleIndex {
    type V = Map<Seq<Seq<char>>, Seq<char>>;

    open spec fn view(&self) -> Map<Seq<Seq<char>>, Seq<char>> {
        Map::new(
            |k: Seq<Seq<char>>| path_lookup(self.entries@, k) is Some,
            |k: Seq<Seq<char>>| path_lookup(self.entries@, k).unwrap(),
        )
    }
}

proof fn lemma_path_lookup_skip(s: Seq<(Vec<String>, String)>, i: int, k: Seq<Seq<char>>)
    requires
        0 <= i <= s.len(),
        forall|j: int| 0 <= j < i ==> path_view(s[j].0@) != k,
    ensures
        path_lookup(s, k) == path_lookup(s.subrange(i, s.len() as int), k),
    decreases i,
{
    if i > 0 {
        assert(path_view(s[0].0@) != k);
        lemma_path_lookup_skip(s.drop_first(), i - 1, k);
        assert(s.drop_first().subrange(i - 1, s.len() - 1) =~= s.subrange(i, s.len() as int));
    } else {
        assert(s.subrange(0, s.len() as int) =~= s);
    }
}

proof fn lemma_path_lookup_push(s: Seq<(Vec<String>, String)>, e: (Vec<String>, String), k: Seq<Seq<char>>)
    ensures
        path_lookup(s.push(e), k) == (match path_lookup(s, k) {
            Some(v) => Some(v),
            None => if path_view(e.0@) == k { Some(e.1@) } else { None },
        }),
    decreases s.len(),
{
    if s.len() > 0 {
        assert(s.push(e)[0] == s[0]);
        assert(s.push(e).drop_first() =~= s.drop_first().push(e));
        lemma_path_lookup_push(s.drop_first(), e, k);
    } else {
        assert(s.push(e).drop_first() =~= Seq::<(Vec<String>, String)>::empty());
        assert(s.push(e)[0] == e);
        assert(path_lookup(Seq::<(Vec<String>, String)>::empty(), k) is None);
    }
}

proof fn lemma_path_lookup_update(s: Seq<(Vec<String>, String)>, i: int, e: (Vec<String>, String), k: Seq<Seq<char>>)
    requires
        0 <= i < s.len(),
        path_view(s[i].0@) == path_view(e.0@),
        forall|j: int| 0 <= j < i ==> path_view(s[j].0@) != path_view(e.0@),
    ensures
        path_lookup(s.update(i, e), k) == (if k == path_view(e.0@) { Some(e.1@) } else { path_lookup(s, k) }),
    decreases i,
{
    if i > 0 {
        assert(s.update(i, e)[0] == s[0]);
        assert(s.update(i, e).drop_first() =~= s.drop_first().update(i - 1, e));
        lemma_path_lookup_update(s.drop_first(), i - 1, e, k);
    } else {
        assert(s.update(0, e)[0] == e);
        assert(s.update(0, e).drop_first() =~= s.drop_first());
    }
}

impl ModuleIndex {
    /// An empty index.
    pub fn new() -> (m: Self)
        ensures
            m@ == Map::<Seq<Seq<char>>, Seq<char>>::empty(),
    {
        let m = ModuleIndex { entries: Vec::new() };
        assert(m@ =~= Map::<Seq<Seq<char>>, Seq<char>>::empty());
        m
    }

    fn find(&self, k: &Vec<String>) -> (r: Option<usize>)
        ensures
            r matches Some(i) ==> i < self.entries@.len() && path_view(self.entries@[i as int].0@) == path_view(k@)
                && forall|j: int| 0 <= j < i ==> path_view(self.entries@[j].0@) != path_view(k@),
            r is None ==> forall|j: int| 0 <= j < self.entries@.len() ==> path_view(self.entries@[j].0@) != path_view(k@),
    {
        let mut i: usize = 0;
        while i < self.entries.len()
            invariant
                i <= self.entries@.len(),
                forall|j: int| 0 <= j < i ==> path_view(self.entries@[j].0@) != path_view(k@),
            decreases self.entries.len() - i,
        {
            if paths_eq(&self.entries[i].0, k) {
                return Some(i);
            }
            i = i + 1;
        }
        None
    }

    /// The node id stored under module path `k`, if any.
    pub fn get(&self, k: &Vec<String>) -> (r: Option<String>)
        ensures
            r is Some == self@.contains_key(path_view(k@)),
            r matches Some(v) ==> v@ == self@[path_view(k@)],
    {
        let f = self.find(k);
        proof {
            match f {
                Some(i) => lemma_path_lookup_skip(self.entries@, i as int, path_view(k@)),
                None => lemma_path_lookup_skip(self.entries@, self.entries@.len() as int, path_view(k@)),
            }
        }
        match f {
            Some(i) => Some(self.entries[i].1.clone()),
            None => None,
        }
    }

    /// Whether module path `k` is indexed.
    pub fn contains(&self, k: &Vec<String>) -> (r: bool)
        ensures
            r == self@.contains_key(path_view(k@)),
    {
        self.get(k).is_some()
    }

    /// Stores node id `v` under module path `k`, replacing any previous id.
    pub fn insert(&mut self, k: Vec<String>, v: String)
        ensures
            final(self)@ == old(self)@.insert(path_view(k@), v@),
    {
        let f = self.find(&k);
        let ghost old_entries = self.entries@;
        let ghost kv = path_view(k@);
        match f {
            Some(i) => {
                proof {
                    assert forall|kk: Seq<Seq<char>>| #[trigger] path_lookup(old_entries.update(i as int, (k, v)), kk)
                        == (if kk == kv { Some(v@) } else { path_lookup(old_entries, kk) }) by {
                        lemma_path_lookup_update(old_entries, i as int, (k, v), kk);
                    }
                }
                self.entries.set(i, (k, v));
            },
            None => {
                proof {
                    assert forall|kk: Seq<Seq<char>>| #[trigger] path_lookup(old_entries.push((k, v)), kk)
                        == (if kk == kv { Some(v@) } else { path_lookup(old_entries, kk) }) by {
                        lemma_path_lookup_push(old_entries, (k, v), kk);
                        lemma_path_lookup_skip(old_entries, old_entries.len() as int, kv);
                    }
                }
                self.entries.push((k, v));
            },
        }
        assert(self@ =~= old(self)@.insert(kv, v@));
    }
}

/// First value stored under the module path `k` in an association list.
pub open spec fn pmap_lookup<V>(s: Seq<(Vec<String>, V)>, k: Seq<Seq<char>>) -> Option<V>
    decreases s.len(),
{
    if s.len() == 0 {
        None
    } else if path_view(s[0].0@) == k {
        Some(s[0].1)
    } else {
        pmap_lookup(s.drop_first(), k)
    }
}

/// A map from module paths to values.
pub struct PathMap<V> {
    pub entries: Vec<(Vec<String>, V)>,
}

impl<V> View for PathMap<V> {
    type V = Map<Seq<Seq<char>>, V>;

    open spec fn view(&self) -> Map<Seq<Seq<char>>, V> {
        Map::new(
            |k: Seq<Seq<char>>| pmap_lookup(self.entries@, k) is Some,
            |k: Seq<Seq<char>>| pmap_lookup(self.entries@, k).unwrap(),
        )
    }
}

proof fn lemma_pmap_lookup_skip<V>(s: Seq<(Vec<String>, V)>, i: int, k: Seq<Seq<char>>)
    requires
        0 <= i <= s.len(),
        forall|j: int| 0 <= j < i ==> path_view(s[j].0@) != k,
    ensures
        pmap_lookup(s, k) == pmap_lookup(s.subrange(i, s.len() as int), k),
    decreases i,
{
    if i > 0 {
        assert(path_view(s[0].0@) != k);
        lemma_pmap_lookup_skip(s.drop_first(), i - 1, k);
        assert(s.drop_first().subrange(i - 1, s.len() - 1) =~= s.subrange(i, s.len() as int));
    } else {
        assert(s.subrange(0, s.len() as int) =~= s);
    }
}

proof fn lemma_pmap_lookup_push<V>(s: Seq<(Vec<String>, V)>, e: (Vec<String>, V), k: Seq<Seq<char>>)
    ensures
        pmap_lookup(s.push(e), k) == (match pmap_lookup(s, k) {
            Some(v) => Some(v),
            None => if path_view(e.0@) == k { Some(e.1) } else { None },
        }),
    decreases s.len(),
{
    if s.len() > 0 {
        assert(s.push(e)[0] == s[0]);
        assert(s.push(e).drop_first() =~= s.drop_first().push(e));
        lemma_pmap_lookup_push(s.drop_first(), e, k);
    } else {
        assert(s.push(e).drop_first() =~= Seq::<(Vec<String>, V)>::empty());
        assert(s.push(e)[0] == e);
        assert(pmap_lookup(Seq::<(Vec<String>, V)>::empty(), k) is None);
    }
}

proof fn lemma_pmap_lookup_update<V>(s: Seq<(Vec<String>, V)>, i: int, e: (Vec<String>, V), k: Seq<Seq<char>>)
    requires
        0 <= i < s.len(),
        path_view(s[i].0@) == path_view(e.0@),
        forall|j: int| 0 <= j < i ==> path_view(s[j].0@) != path_view(e.0@),
    ensures
        pmap_lookup(s.update(i, e), k) == (if k == path_view(e.0@) { Some(e.1) } else { pmap_lookup(s, k) }),
    decreases i,
{
    if i > 0 {
        assert(s.update(i, e)[0] == s[0]);
        assert(s.update(i, e).drop_first() =~= s.drop_first().update(i - 1, e));
        lemma_pmap_lookup_update(s.drop_first(), i - 1, e, k);
    } else {
        assert(s.update(0, e)[0] == e);
        assert(s.update(0, e).drop_first() =~= s.drop_first());
    }
}

impl<V> PathMap<V> {
    /// An empty map.
    pub fn new() -> (m: Self)
        ensures
            m@ == Map::<Seq<Seq<char>>, V>::empty(),
    {
        let m = PathMap { entries: Vec::new() };
        assert(m@ =~= Map::<Seq<Seq<char>>, V>::empty());
        m
    }

    fn find(&self, k: &Vec<String>) -> (r: Option<usize>)
        ensures
            r matches Some(i) ==> i < self.entries@.len() && path_view(self.entries@[i as int].0@) == path_view(k@)
                && forall|j: int| 0 <= j < i ==> path_view(self.entries@[j].0@) != path_view(k@),
            r is None ==> forall|j: int| 0 <= j < self.entries@.len() ==> path_view(self.entries@[j].0@) != path_view(k@),
    {
        let mut i: usize = 0;
        while i < self.entries.len()
            invariant
                i <= self.entries@.len(),
                forall|j: int| 0 <= j < i ==> path_view(self.entries@[j].0@) != path_view(k@),
            decreases self.entries.len() - i,
        {
            if paths_eq(&self.entries[i].0, k) {
                return Some(i);
            }
            i = i + 1;
        }
        None
    }

    /// The value stored under module path `k`, if any.
    pub fn get(&self, k: &Vec<String>) -> (r: Option<&V>)
        ensures
            r is Some == self@.contains_key(path_view(k@)),
            r matches Some(v) ==> *v == self@[path_view(k@)],
    {
        let f = self.find(k);
        proof {
            match f {
                Some(i) => lemma_pmap_lookup_skip(self.entries@, i as int, path_view(k@)),
                None => lemma_pmap_lookup_skip(self.entries@, self.entries@.len() as int, path_view(k@)),
            }
        }
        match f {
            Some(i) => Some(&self.entries[i].1),
            None => None,
        }
    }

    /// Stores `v` under module path `k`, replacing any previous value.
    pub fn insert(&mut self, k: Vec<String>, v: V)
        ensures
            final(self)@ == old(self)@.insert(path_view(k@), v),
    {
        let f = self.find(&k);
        let ghost old_entries = self.entries@;
        let ghost kv = path_view(k@);
        match f {
            Some(i) => {
                proof {
                    assert forall|kk: Seq<Seq<char>>| #[trigger] pmap_lookup(old_entries.update(i as int, (k, v)), kk)
                        == (if kk == kv { Some(v) } else { pmap_lookup(old_entries, kk) }) by {
                        lemma_pmap_lookup_update(old_entries, i as int, (k, v), kk);
                    }
                }
                self.entries.set(i, (k, v));
            },
            None => {
                proof {
                    assert forall|kk: Seq<Seq<char>>| #[trigger] pmap_lookup(old_entries.push((k, v)), kk)
                        == (if kk == kv { Some(v) } else { pmap_lookup(old_entries, kk) }) by {
                        lemma_pmap_lookup_push(old_entries, (k, v), kk);
                        lemma_pmap_lookup_skip(old_entries, old_entries.len() as int, kv);
                    }
                }
                self.entries.push((k, v));
            },
        }
        assert(self@ =~= old(self)@.insert(kv, v));
    }
}

/// `segs` joined by `sep`.
pub open spec fn spec_join(segs: Seq<Seq<char>>, sep: Seq<char>) -> Seq<char>
    decreases segs.len(),
{
    if segs.len() == 0 {
        Seq::empty()
    } else if segs.len() == 1 {
        segs[0]
    } else {
        spec_join(segs.drop_last(), sep) + sep + segs.last()
    }
}

/// Joins the strings of `segs` with `sep`.
pub fn join_strings(segs: &Vec<String>, sep: &str) -> (r: String)
    ensures
        r@ == spec_join(path_view(segs@), sep@),
{
    let mut out = String::new();
    let mut i: usize = 0;
    while i < segs.len()
        invariant
            i <= segs.len(),
            out@ == spec_join(path_view(segs@.take(i as int)), sep@),
        decreases segs.len() - i,
    {
        let ghost before = out@;
        if i > 0 {
            out.append(sep);
        }
        out.append(segs[i].as_str());
        proof {
            let p = path_view(segs@.take(i + 1));
            assert(p.drop_last() =~= path_view(segs@.take(i as int)));
            assert(p.last() == segs@[i as int]@);
            if i == 0 {
                assert(out@ =~= segs@[0]@);
            }
        }
        i = i + 1;
    }
    assert(segs@.take(segs.len() as int) =~= segs@);
    out
}

/// Joins the character runs `parts[from..to]` with `sep`.
pub fn join_chars(parts: &Vec<Vec<char>>, from: usize, to: usize, sep: &Vec<char>) -> (r: Vec<char>)
    requires
        from <= to <= parts.len(),
    ensures
        r@ == spec_join(parts@.map_values(|v: Vec<char>| v@).subrange(from as int, to as int), sep@),
{
    let ghost pv = parts@.map_values(|v: Vec<char>| v@);
    let mut out: Vec<char> = Vec::new();
    let mut i = from;
    assert(pv.subrange(from as int, from as int) =~= Seq::<Seq<char>>::empty());
    while i < to
        invariant
            from <= i <= to <= parts.len(),
            pv == parts@.map_values(|v: Vec<char>| v@),
            out@ == spec_join(pv.subrange(from as int, i as int), sep@),
        decreases to - i,
    {
        let ghost sub = pv.subrange(from as int, i + 1);
        assert(sub.drop_last() =~= pv.subrange(from as int, i as int));
        assert(sub.last() == parts@[i as int]@);
        if i > from {
            crate::strs::push_all(&mut out, sep);
        }
        crate::strs::push_all(&mut out, &parts[i]);
        proof {
            if i == from {
                assert(out@ =~= parts@[i as int]@);
            }
        }
        i = i + 1;
    }
    out
}

} // verus!
