//! Values by string id: the running modules of the audio thread and the
//! open MIDI connections are kept this way. A patch update changes the
//! modules: renames first, then new modules where none runs under the id,
//! then every module the update does not name is dropped, apart from the
//! reserved system modules. A module that keeps its id keeps running with
//! its state.

use vstd::prelude::*;
use crate::engine::{is_reserved_module_id, reserved_id};
use crate::graph::ModuleIdRemap;
use crate::text::str_eq;

verus! {

/// The first module under `id`.
pub open spec fn find<M>(entries: Seq<(String, M)>, id: Seq<char>) -> Option<M>
    decreases entries.len(),
{
    if entries.len() == 0 {
        None
    } else {
        match find(entries.drop_last(), id) {
            Some(m) => Some(m),
            None => if entries.last().0@ == id { Some(entries.last().1) } else { None },
        }
    }
}

/// No id occurs twice.
pub open spec fn distinct_ids<M>(entries: Seq<(String, M)>) -> bool {
    forall|i: int, j: int| 0 <= i < j < entries.len() ==> #[trigger] entries[i].0@ != #[trigger] entries[j].0@
}

/// The modules as a map from id.
pub open spec fn as_map<M>(entries: Seq<(String, M)>) -> Map<Seq<char>, M> {
    Map::new(|id: Seq<char>| find(entries, id) is Some, |id: Seq<char>| find(entries, id)->Some_0)
}

/// A rename, where it applies: the module under `from` moves to `to`,
/// replacing what ran there. Renames touching a reserved id, renames to
/// the same id and renames of absent modules change nothing.
pub open spec fn rename<M>(m: Map<Seq<char>, M>, from: Seq<char>, to: Seq<char>) -> Map<Seq<char>, M> {
    if reserved_id(from) || reserved_id(to) || from == to || !m.contains_key(from) {
        m
    } else {
        m.remove(from).remove(to).insert(to, m[from])
    }
}

/// The renames applied in order.
pub open spec fn renamed<M>(m: Map<Seq<char>, M>, remaps: Seq<ModuleIdRemap>) -> Map<Seq<char>, M>
    decreases remaps.len(),
{
    if remaps.len() == 0 {
        m
    } else {
        let r = remaps.last();
        rename(renamed(m, remaps.drop_last()), r.from@, r.to@)
    }
}

/// New modules in order, each only where no module runs under its id.
pub open spec fn with_new<M>(m: Map<Seq<char>, M>, inserts: Seq<(String, M)>) -> Map<Seq<char>, M>
    decreases inserts.len(),
{
    if inserts.len() == 0 {
        m
    } else {
        let prev = with_new(m, inserts.drop_last());
        let (id, module) = inserts.last();
        if prev.contains_key(id@) { prev } else { prev.insert(id@, module) }
    }
}

/// The ids the update names.
pub open spec fn named<M>(inserts: Seq<(String, M)>, id: Seq<char>) -> bool {
    exists|i: int| 0 <= i < inserts.len() && #[trigger] inserts[i].0@ == id
}

/// The modules after an update: renamed, completed with the new modules,
/// then restricted to the named and the reserved ids.
pub open spec fn updated<M>(m: Map<Seq<char>, M>, remaps: Seq<ModuleIdRemap>, inserts: Seq<(String, M)>) -> Map<Seq<char>, M> {
    let full = with_new(renamed(m, remaps), inserts);
    full.restrict(full.dom().filter(|id: Seq<char>| reserved_id(id) || named(inserts, id)))
}

/// Values by id; each id occurs once.
pub struct IdMap<M> {
    entries: Vec<(String, M)>,
}

proof fn lemma_find_prefix<M>(entries: Seq<(String, M)>, id: Seq<char>, k: int)
    requires
        0 <= k <= entries.len(),
        find(entries.take(k), id) is Some,
    ensures
        find(entries, id) == find(entries.take(k), id),
    decreases entries.len() - k,
{
    if k < entries.len() {
        assert(entries.take(k + 1).drop_last() =~= entries.take(k));
        lemma_find_prefix(entries, id, k + 1);
    } else {
        assert(entries.take(k) =~= entries);
    }
}

proof fn lemma_find_entry<M>(entries: Seq<(String, M)>, i: int)
    requires
        distinct_ids(entries),
        0 <= i < entries.len(),
    ensures
        find(entries, entries[i].0@) == Some(entries[i].1),
    decreases entries.len(),
{
    if i < entries.len() - 1 {
        let t = entries.drop_last();
        assert(t[i] == entries[i]);
        lemma_find_entry(t, i);
    } else {
        lemma_find_absent(entries.drop_last(), entries[i].0@);
    }
}

proof fn lemma_find_absent<M>(entries: Seq<(String, M)>, id: Seq<char>)
    requires
        forall|i: int| 0 <= i < entries.len() ==> #[trigger] entries[i].0@ != id,
    ensures
        find(entries, id) is None,
    decreases entries.len(),
{
    if entries.len() > 0 {
        let t = entries.drop_last();
        assert forall|i: int| 0 <= i < t.len() implies #[trigger] t[i].0@ != id by {
            assert(t[i] == entries[i]);
        }
        lemma_find_absent(t, id);
    }
}

/// With distinct ids, the map holds exactly the entries.
pub proof fn lemma_map_entries<M>(entries: Seq<(String, M)>)
    requires
        distinct_ids(entries),
    ensures
        forall|i: int| 0 <= i < entries.len() ==> as_map(entries).contains_key(#[trigger] entries[i].0@)
            && as_map(entries)[entries[i].0@] == entries[i].1,
        forall|id: Seq<char>| #[trigger] as_map(entries).contains_key(id)
            ==> exists|i: int| 0 <= i < entries.len() && entries[i].0@ == id,
{
    assert forall|i: int| 0 <= i < entries.len() implies as_map(entries).contains_key(#[trigger] entries[i].0@)
        && as_map(entries)[entries[i].0@] == entries[i].1 by {
        lemma_find_entry(entries, i);
    }
    assert forall|id: Seq<char>| #[trigger] as_map(entries).contains_key(id)
        implies exists|i: int| 0 <= i < entries.len() && entries[i].0@ == id by {
        if !(exists|i: int| 0 <= i < entries.len() && entries[i].0@ == id) {
            lemma_find_absent(entries, id);
        }
    }
}

impl<M> IdMap<M> {
    pub closed spec fn wf(&self) -> bool {
        distinct_ids(self.entries@)
    }

    /// The modules, by id.
    pub closed spec fn view(&self) -> Map<Seq<char>, M> {
        as_map(self.entries@)
    }

    /// No modules.
    pub fn new() -> (r: Self)
        ensures
            r.wf(),
            r@ == Map::<Seq<char>, M>::empty(),
    {
        let r = IdMap { entries: Vec::new() };
        assert(r@ =~= Map::<Seq<char>, M>::empty());
        r
    }

    fn position(&self, id: &str) -> (r: Option<usize>)
        requires
            self.wf(),
        ensures
            match r {
                Some(i) => i < self.entries@.len() && self.entries@[i as int].0@ == id@,
                None => !self@.contains_key(id@),
            },
    {
        let mut i: usize = 0;
        while i < self.entries.len()
            invariant
                i <= self.entries@.len(),
                forall|j: int| 0 <= j < i ==> #[trigger] self.entries@[j].0@ != id@,
            decreases self.entries@.len() - i,
        {
            if str_eq(self.entries[i].0.as_str(), id) {
                return Some(i);
            }
            i = i + 1;
        }
        proof {
            lemma_find_absent(self.entries@, id@);
        }
        None
    }

    /// The module under `id`.
    pub fn get(&self, id: &str) -> (r: Option<&M>)
        requires
            self.wf(),
        ensures
            match r {
                Some(m) => self@.contains_key(id@) && self@[id@] == *m,
                None => !self@.contains_key(id@),
            },
    {
        match self.position(id) {
            Some(i) => {
                proof {
                    lemma_find_entry(self.entries@, i as int);
                }
                Some(&self.entries[i].1)
            },
            None => None,
        }
    }

    /// Whether a module runs under `id`.
    pub fn contains(&self, id: &str) -> (r: bool)
        requires
            self.wf(),
        ensures
            r == self@.contains_key(id@),
    {
        match self.position(id) {
            Some(i) => {
                proof {
                    lemma_find_entry(self.entries@, i as int);
                }
                true
            },
            None => false,
        }
    }

    /// Takes out the module under `id`.
    pub fn remove(&mut self, id: &str) -> (r: Option<M>)
        requires
            old(self).wf(),
        ensures
            final(self).wf(),
            final(self)@ == old(self)@.remove(id@),
            match r {
                Some(m) => old(self)@.contains_key(id@) && old(self)@[id@] == m,
                None => !old(self)@.contains_key(id@),
            },
    {
        match self.position(id) {
            Some(i) => {
                let ghost before = self.entries@;
                proof {
                    lemma_find_entry(before, i as int);
                    lemma_map_entries(before);
                }
                let e = self.entries.remove(i);
                proof {
                    let after = self.entries@;
                    assert(after =~= before.remove(i as int));
                    assert(distinct_ids(after)) by {
                        assert forall|a: int, b: int| 0 <= a < b < after.len() implies #[trigger] after[a].0@ != #[trigger] after[b].0@ by {
                            let a2 = if a < i { a } else { a + 1 };
                            let b2 = if b < i { b } else { b + 1 };
                            assert(after[a] == before[a2]);
                            assert(after[b] == before[b2]);
                        }
                    }
                    lemma_map_entries(after);
                    assert forall|k: Seq<char>| #[trigger] as_map(after).contains_key(k) == before_has(before, k, id@) by {
                        if as_map(after).contains_key(k) {
                            let j = choose|j: int| 0 <= j < after.len() && after[j].0@ == k;
                            let j2 = if j < i { j } else { j + 1 };
                            assert(after[j] == before[j2]);
                        }
                        if before_has(before, k, id@) {
                            let j = choose|j: int| 0 <= j < before.len() && before[j].0@ == k;
                            assert(j != i);
                            if j < i {
                                assert(after[j] == before[j]);
                            } else {
                                assert(after[j - 1] == before[j]);
                            }
                        }
                    }
                    assert forall|k: Seq<char>| #[trigger] as_map(after).contains_key(k)
                        implies as_map(after)[k] == as_map(before)[k] by {
                        let j = choose|j: int| 0 <= j < after.len() && after[j].0@ == k;
                        let j2 = if j < i { j } else { j + 1 };
                        assert(after[j] == before[j2]);
                    }
                    assert(as_map(after) =~= as_map(before).remove(id@));
                }
                Some(e.1)
            },
            None => {
                assert(self@ =~= self@.remove(id@));
                None
            },
        }
    }

    /// Puts `m` under `id`, where no module runs under it.
    pub fn insert_new(&mut self, id: String, m: M)
        requires
            old(self).wf(),
            !old(self)@.contains_key(id@),
        ensures
            final(self).wf(),
            final(self)@ == old(self)@.insert(id@, m),
    {
        let ghost before = self.entries@;
        let ghost key = id@;
        proof {
            lemma_map_entries(before);
        }
        self.entries.push((id, m));
        proof {
            let after = self.entries@;
            assert(forall|j: int| 0 <= j < before.len() ==> #[trigger] before[j].0@ != key);
            assert(distinct_ids(after)) by {
                assert forall|a: int, b: int| 0 <= a < b < after.len() implies #[trigger] after[a].0@ != #[trigger] after[b].0@ by {
                    assert(after[a] == before[a]);
                    if b < before.len() {
                        assert(after[b] == before[b]);
                    }
                }
            }
            lemma_map_entries(after);
            assert forall|k: Seq<char>| #[trigger] as_map(after).contains_key(k) == (as_map(before).contains_key(k) || k == key) by {
                if as_map(after).contains_key(k) {
                    let j = choose|j: int| 0 <= j < after.len() && after[j].0@ == k;
                    if j < before.len() {
                        assert(after[j] == before[j]);
                    }
                }
                if as_map(before).contains_key(k) {
                    let j = choose|j: int| 0 <= j < before.len() && before[j].0@ == k;
                    assert(after[j] == before[j]);
                }
                if k == key {
                    assert(after[before.len() as int].0@ == k);
                }
            }
            assert forall|k: Seq<char>| #[trigger] as_map(after).contains_key(k)
                implies as_map(after)[k] == as_map(before).insert(key, m)[k] by {
                let j = choose|j: int| 0 <= j < after.len() && after[j].0@ == k;
                if j < before.len() {
                    assert(after[j] == before[j]);
                }
            }
            assert(as_map(after) =~= as_map(before).insert(key, m));
        }
    }
}

impl<M> IdMap<M> {
    /// Puts `m` under `id`, replacing what was there.
    pub fn insert(&mut self, id: String, m: M)
        requires
            old(self).wf(),
        ensures
            final(self).wf(),
            final(self)@ == old(self)@.insert(id@, m),
    {
        let _ = self.remove(id.as_str());
        self.insert_new(id, m);
        assert(self@ =~= old(self)@.insert(id@, m));
    }

    /// The ids, each once.
    pub fn keys(&self) -> (r: Vec<String>)
        requires
            self.wf(),
        ensures
            forall|i: int| 0 <= i < r@.len() ==> self@.contains_key(#[trigger] r@[i]@),
            forall|id: Seq<char>| self@.contains_key(id) ==> exists|i: int| 0 <= i < r@.len() && #[trigger] r@[i]@ == id,
            forall|i: int, j: int| 0 <= i < j < r@.len() ==> #[trigger] r@[i]@ != #[trigger] r@[j]@,
    {
        proof {
            lemma_map_entries(self.entries@);
        }
        let mut r: Vec<String> = Vec::new();
        let mut i: usize = 0;
        while i < self.entries.len()
            invariant
                self.wf(),
                i <= self.entries@.len(),
                r@.len() == i,
                forall|k: int| 0 <= k < i ==> #[trigger] r@[k]@ == self.entries@[k].0@,
            decreases self.entries@.len() - i,
        {
            r.push(self.entries[i].0.clone());
            i = i + 1;
        }
        proof {
            assert forall|k: int| 0 <= k < r@.len() implies self@.contains_key(#[trigger] r@[k]@) by {
                assert(r@[k]@ == self.entries@[k].0@);
            }
            assert forall|id: Seq<char>| self@.contains_key(id) implies exists|k: int| 0 <= k < r@.len() && #[trigger] r@[k]@ == id by {
                let k = choose|k: int| 0 <= k < self.entries@.len() && self.entries@[k].0@ == id;
                assert(r@[k]@ == id);
            }
            assert forall|a: int, b: int| 0 <= a < b < r@.len() implies #[trigger] r@[a]@ != #[trigger] r@[b]@ by {
                assert(r@[a]@ == self.entries@[a].0@);
                assert(r@[b]@ == self.entries@[b].0@);
            }
        }
        r
    }

    /// The first id, if any.
    pub fn first_key(&self) -> (r: Option<String>)
        requires
            self.wf(),
        ensures
            match r {
                Some(id) => self@.contains_key(id@),
                None => self@.dom().is_empty(),
            },
    {
        proof {
            lemma_map_entries(self.entries@);
        }
        if self.entries.len() == 0 {
            assert(self@.dom() =~= Set::<Seq<char>>::empty());
            None
        } else {
            Some(self.entries[0].0.clone())
        }
    }

    /// Takes out everything, as (id, value) pairs, each id once.
    pub fn drain(&mut self) -> (r: Vec<(String, M)>)
        requires
            old(self).wf(),
        ensures
            final(self).wf(),
            final(self)@ == Map::<Seq<char>, M>::empty(),
            as_map(r@) == old(self)@,
            distinct_ids(r@),
    {
        let mut r: Vec<(String, M)> = Vec::new();
        std::mem::swap(&mut r, &mut self.entries);
        assert(self@ =~= Map::<Seq<char>, M>::empty());
        r
    }
}

/// Whether `id` is among `ids`.
fn is_named(ids: &Vec<String>, id: &str) -> (r: bool)
    ensures
        r == exists|i: int| 0 <= i < ids@.len() && #[trigger] ids@[i]@ == id@,
{
    let mut i: usize = 0;
    while i < ids.len()
        invariant
            i <= ids@.len(),
            forall|j: int| 0 <= j < i ==> #[trigger] ids@[j]@ != id@,
        decreases ids@.len() - i,
    {
        if str_eq(ids[i].as_str(), id) {
            return true;
        }
        i = i + 1;
    }
    false
}

impl<M> IdMap<M> {
    /// Applies the renames in order (see `rename`).
    pub fn apply_remaps(&mut self, remaps: &Vec<ModuleIdRemap>)
        requires
            old(self).wf(),
        ensures
            final(self).wf(),
            final(self)@ == renamed(old(self)@, remaps@),
    {
        let mut k: usize = 0;
        while k < remaps.len()
            invariant
                self.wf(),
                k <= remaps@.len(),
                self@ == renamed(old(self)@, remaps@.take(k as int)),
            decreases remaps@.len() - k,
        {
            assert(remaps@.take(k + 1).drop_last() =~= remaps@.take(k as int));
            let r = &remaps[k];
            let skip = is_reserved_module_id(r.from.as_str()) || is_reserved_module_id(r.to.as_str())
                || str_eq(r.from.as_str(), r.to.as_str());
            if !skip {
                match self.remove(r.from.as_str()) {
                    Some(m) => {
                        let _ = self.remove(r.to.as_str());
                        self.insert_new(r.to.clone(), m);
                    },
                    None => {},
                }
            }
            proof {
                let before = renamed(old(self)@, remaps@.take(k as int));
                assert(self@ =~= rename(before, r.from@, r.to@));
            }
            k = k + 1;
        }
        assert(remaps@.take(k as int) =~= remaps@);
    }

    /// Keeps the reserved modules and those whose ids are among `ids`.
    pub fn retain_named(&mut self, ids: &Vec<String>)
        requires
            old(self).wf(),
        ensures
            final(self).wf(),
            final(self)@ == old(self)@.restrict(old(self)@.dom().filter(|id: Seq<char>| kept(ids@, id))),
    {
        let ghost before = self.entries@;
        assert(before.len() == self.entries.len());
        let mut out: Vec<(String, M)> = Vec::new();
        let mut taken: usize = 0;
        while self.entries.len() > 0
            invariant
                distinct_ids(before),
                before.len() <= usize::MAX,
                taken + self.entries@.len() == before.len(),
                self.entries@ == before.skip(taken as int),
                out@ == filtered(before, ids@, taken as int),
            decreases self.entries@.len(),
        {
            let e = self.entries.remove(0);
            assert(e == before[taken as int]);
            assert(self.entries@ =~= before.skip(taken + 1));
            let keep = is_reserved_module_id(e.0.as_str()) || is_named(ids, e.0.as_str());
            if keep {
                out.push(e);
            }
            taken = taken + 1;
        }
        self.entries = out;
        proof {
            let n = before.len() as int;
            assert(before.take(n) =~= before);
            lemma_filtered_distinct(before, ids@, n);
            let after = self.entries@;
            let target = as_map(before).restrict(as_map(before).dom().filter(|id: Seq<char>| kept(ids@, id)));
            assert forall|k: Seq<char>| #[trigger] as_map(after).contains_key(k) == target.contains_key(k) by {
                lemma_filtered_find(before, ids@, n, k);
            }
            assert forall|k: Seq<char>| #[trigger] as_map(after).contains_key(k) implies as_map(after)[k] == target[k] by {
                lemma_filtered_find(before, ids@, n, k);
            }
            assert(as_map(after) =~= target);
        }
    }
}

impl<M> IdMap<M> {
    /// Adds the new modules in order, each only where no module runs under its id.
    pub fn insert_missing(&mut self, inserts: Vec<(String, M)>)
        requires
            old(self).wf(),
        ensures
            final(self).wf(),
            final(self)@ == with_new(old(self)@, inserts@),
    {
        let ghost all = inserts@;
        assert(all.len() == inserts.len());
        let mut rest = inserts;
        let mut k: usize = 0;
        assert(all.take(0) =~= Seq::<(String, M)>::empty());
        while rest.len() > 0
            invariant
                self.wf(),
                all.len() <= usize::MAX,
                k + rest@.len() == all.len(),
                rest@ == all.skip(k as int),
                self@ == with_new(old(self)@, all.take(k as int)),
            decreases rest@.len(),
        {
            let (id, m) = rest.remove(0);
            assert((id, m) == all[k as int]);
            assert(rest@ =~= all.skip(k + 1));
            assert(all.take(k + 1).drop_last() =~= all.take(k as int));
            if !self.contains(id.as_str()) {
                self.insert_new(id, m);
            }
            k = k + 1;
        }
        assert(all.take(k as int) =~= all);
    }

    /// Applies a patch update: the renames, then the new modules where no
    /// module runs under their ids, then only the reserved modules and those
    /// the update names are kept.
    pub fn apply_patch_update(&mut self, remaps: &Vec<ModuleIdRemap>, inserts: Vec<(String, M)>)
        requires
            old(self).wf(),
        ensures
            final(self).wf(),
            final(self)@ == updated(old(self)@, remaps@, inserts@),
    {
        let mut ids: Vec<String> = Vec::new();
        let mut i: usize = 0;
        while i < inserts.len()
            invariant
                i <= inserts@.len(),
                ids@.len() == i,
                forall|j: int| 0 <= j < i ==> #[trigger] ids@[j]@ == inserts@[j].0@,
            decreases inserts@.len() - i,
        {
            ids.push(inserts[i].0.clone());
            i = i + 1;
        }
        let ghost ins = inserts@;
        self.apply_remaps(remaps);
        self.insert_missing(inserts);
        let ghost full = self@;
        self.retain_named(&ids);
        proof {
            assert forall|id: Seq<char>| kept(ids@, id) == (reserved_id(id) || named(ins, id)) by {
                if exists|j: int| 0 <= j < ids@.len() && #[trigger] ids@[j]@ == id {
                    let j = choose|j: int| 0 <= j < ids@.len() && #[trigger] ids@[j]@ == id;
                    assert(ins[j].0@ == id);
                }
                if named(ins, id) {
                    let j = choose|j: int| 0 <= j < ins.len() && #[trigger] ins[j].0@ == id;
                    assert(ids@[j]@ == id);
                }
            }
            assert(full.dom().filter(|id: Seq<char>| kept(ids@, id))
                =~= full.dom().filter(|id: Seq<char>| reserved_id(id) || named(ins, id)));
        }
    }
}

/// The modules kept: the reserved ones and those among `ids`.
pub open spec fn kept(ids: Seq<String>, id: Seq<char>) -> bool {
    reserved_id(id) || exists|i: int| 0 <= i < ids.len() && #[trigger] ids[i]@ == id
}

/// The kept entries among the first `k`, in order.
pub open spec fn filtered<M>(s: Seq<(String, M)>, ids: Seq<String>, k: int) -> Seq<(String, M)>
    decreases k,
{
    if k <= 0 {
        Seq::empty()
    } else if kept(ids, s[k - 1].0@) {
        filtered(s, ids, k - 1).push(s[k - 1])
    } else {
        filtered(s, ids, k - 1)
    }
}

proof fn lemma_filtered_find<M>(s: Seq<(String, M)>, ids: Seq<String>, k: int, id: Seq<char>)
    requires
        0 <= k <= s.len(),
    ensures
        find(filtered(s, ids, k), id) == (if kept(ids, id) { find(s.take(k), id) } else { None }),
    decreases k,
{
    if k > 0 {
        lemma_filtered_find(s, ids, k - 1, id);
        assert(s.take(k).drop_last() =~= s.take(k - 1));
        if kept(ids, s[k - 1].0@) {
            assert(filtered(s, ids, k).drop_last() =~= filtered(s, ids, k - 1));
        }
    }
}

proof fn lemma_find_some_index<M>(s: Seq<(String, M)>, id: Seq<char>)
    requires
        find(s, id) is Some,
    ensures
        exists|j: int| 0 <= j < s.len() && #[trigger] s[j].0@ == id,
{
    if !(exists|j: int| 0 <= j < s.len() && #[trigger] s[j].0@ == id) {
        lemma_find_absent(s, id);
    }
}

proof fn lemma_filtered_distinct<M>(s: Seq<(String, M)>, ids: Seq<String>, k: int)
    requires
        0 <= k <= s.len(),
        distinct_ids(s),
    ensures
        distinct_ids(filtered(s, ids, k)),
    decreases k,
{
    if k > 0 {
        lemma_filtered_distinct(s, ids, k - 1);
        if kept(ids, s[k - 1].0@) {
            let prev = filtered(s, ids, k - 1);
            let now = filtered(s, ids, k);
            let x = s[k - 1];
            assert forall|a: int| 0 <= a < prev.len() implies #[trigger] prev[a].0@ != x.0@ by {
                if prev[a].0@ == x.0@ {
                    lemma_find_entry(prev, a);
                    lemma_filtered_find(s, ids, k - 1, x.0@);
                    lemma_find_some_index(s.take(k - 1), x.0@);
                    let j = choose|j: int| 0 <= j < s.take(k - 1).len() && #[trigger] s.take(k - 1)[j].0@ == x.0@;
                    assert(s[j].0@ == s[k - 1].0@);
                }
            }
            assert forall|a: int, b: int| 0 <= a < b < now.len() implies #[trigger] now[a].0@ != #[trigger] now[b].0@ by {
                assert(now[a] == prev[a]);
                if b < prev.len() {
                    assert(now[b] == prev[b]);
                }
            }
        }
    }
}

/// `k` is an id of `entries` other than `id`.
pub open spec fn before_has<M>(entries: Seq<(String, M)>, k: Seq<char>, id: Seq<char>) -> bool {
    k != id && exists|j: int| 0 <= j < entries.len() && entries[j].0@ == k
}

proof fn lemma_with_new_keeps<M>(m: Map<Seq<char>, M>, inserts: Seq<(String, M)>, id: Seq<char>)
    requires
        m.contains_key(id),
    ensures
        with_new(m, inserts).contains_key(id),
        with_new(m, inserts)[id] == m[id],
    decreases inserts.len(),
{
    if inserts.len() > 0 {
        lemma_with_new_keeps(m, inserts.drop_last(), id);
    }
}

proof fn lemma_with_new_has_named<M>(m: Map<Seq<char>, M>, inserts: Seq<(String, M)>, id: Seq<char>)
    requires
        named(inserts, id),
    ensures
        with_new(m, inserts).contains_key(id),
    decreases inserts.len(),
{
    let j = choose|j: int| 0 <= j < inserts.len() && #[trigger] inserts[j].0@ == id;
    if j < inserts.len() - 1 {
        assert(inserts.drop_last()[j].0@ == id);
        lemma_with_new_has_named(m, inserts.drop_last(), id);
        lemma_with_new_keeps(with_new(m, inserts.drop_last()), seq![inserts.last()], id);
    }
}

proof fn lemma_renamed_keeps_reserved<M>(m: Map<Seq<char>, M>, remaps: Seq<ModuleIdRemap>, id: Seq<char>)
    requires
        reserved_id(id),
    ensures
        renamed(m, remaps).contains_key(id) == m.contains_key(id),
        m.contains_key(id) ==> renamed(m, remaps)[id] == m[id],
    decreases remaps.len(),
{
    if remaps.len() > 0 {
        lemma_renamed_keeps_reserved(m, remaps.drop_last(), id);
    }
}

/// A patch update keeps exactly what it should: every module it names
/// runs afterwards; a module already running under a named id (after the
/// renames) keeps running with its state rather than being replaced;
/// nothing runs that is neither named nor reserved; and a reserved system
/// module that runs keeps running as it was.
pub proof fn lemma_patch_update_laws<M>(m: Map<Seq<char>, M>, remaps: Seq<ModuleIdRemap>, inserts: Seq<(String, M)>, id: Seq<char>)
    ensures
        named(inserts, id) ==> updated(m, remaps, inserts).contains_key(id),
        named(inserts, id) && renamed(m, remaps).contains_key(id)
            ==> updated(m, remaps, inserts)[id] == renamed(m, remaps)[id],
        updated(m, remaps, inserts).contains_key(id) ==> reserved_id(id) || named(inserts, id),
        reserved_id(id) && !named(inserts, id) ==> updated(m, remaps, inserts).contains_key(id) == m.contains_key(id),
        reserved_id(id) && m.contains_key(id) ==> updated(m, remaps, inserts)[id] == m[id],
{
    let r = renamed(m, remaps);
    if named(inserts, id) {
        lemma_with_new_has_named(r, inserts, id);
    }
    if r.contains_key(id) {
        lemma_with_new_keeps(r, inserts, id);
    }
    if reserved_id(id) {
        lemma_renamed_keeps_reserved(m, remaps, id);
        if !r.contains_key(id) && with_new(r, inserts).contains_key(id) {
            lemma_with_new_named(r, inserts, id);
        }
    }
}

proof fn lemma_with_new_named<M>(m: Map<Seq<char>, M>, inserts: Seq<(String, M)>, id: Seq<char>)
    requires
        !m.contains_key(id),
        with_new(m, inserts).contains_key(id),
    ensures
        named(inserts, id),
    decreases inserts.len(),
{
    if inserts.len() > 0 {
        let t = inserts.drop_last();
        if with_new(m, t).contains_key(id) {
            lemma_with_new_named(m, t, id);
            let j = choose|j: int| 0 <= j < t.len() && #[trigger] t[j].0@ == id;
            assert(inserts[j].0@ == id);
        } else {
            assert(inserts[inserts.len() - 1].0@ == id);
        }
    }
}

} // verus!
