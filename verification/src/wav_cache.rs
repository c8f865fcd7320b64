//! The cache of decoded WAV files: keyed by the path relative to the
//! workspace, each entry remembers the file's modification time, so a file
//! is decoded again only when it changed. Changing the workspace empties
//! the cache. Decoding and reading the file system are the engine's work.

use vstd::prelude::*;
use crate::text::str_eq;

verus! {

/// A file modification time.
#[derive(Clone, Copy, Debug, PartialEq, Eq, Structural)]
pub struct FileStamp {
    pub secs: u64,
    pub nanos: u32,
}

/// One cached file.
pub struct WavCacheEntry<T> {
    pub path: String,
    pub mtime: FileStamp,
    pub data: T,
}

/// The first entry for `path`, as (modification time, data).
pub open spec fn lookup<T>(entries: Seq<WavCacheEntry<T>>, path: Seq<char>) -> Option<(FileStamp, T)>
    decreases entries.len(),
{
    if entries.len() == 0 {
        None
    } else {
        match lookup(entries.drop_last(), path) {
            Some(x) => Some(x),
            None => if entries.last().path@ == path {
                Some((entries.last().mtime, entries.last().data))
            } else {
                None
            },
        }
    }
}

/// The decoded WAV files of a workspace.
pub struct WavCache<T> {
    entries: Vec<WavCacheEntry<T>>,
    workspace_path: String,
}

impl<T> WavCache<T> {
    /// No path is cached twice.
    pub closed spec fn wf(&self) -> bool {
        distinct_paths(self.entries@)
    }

    /// What is cached: path to (modification time, data).
    pub closed spec fn view(&self) -> Map<Seq<char>, (FileStamp, T)> {
        Map::new(
            |p: Seq<char>| lookup(self.entries@, p) is Some,
            |p: Seq<char>| lookup(self.entries@, p)->Some_0,
        )
    }

    /// The workspace the paths are relative to.
    pub closed spec fn workspace(&self) -> Seq<char> {
        self.workspace_path@
    }

    /// An empty cache for a workspace.
    pub fn new(workspace_path: String) -> (r: Self)
        ensures
            r.wf(),
            r@ == Map::<Seq<char>, (FileStamp, T)>::empty(),
            r.workspace() == workspace_path@,
    {
        let r = WavCache { entries: Vec::new(), workspace_path };
        assert(r@ =~= Map::<Seq<char>, (FileStamp, T)>::empty());
        r
    }

    /// Moves to another workspace; the cache empties when it changes.
    pub fn set_workspace_path(&mut self, path: String)
        requires
            old(self).wf(),
        ensures
            final(self).wf(),
            final(self).workspace() == path@,
            final(self)@ == (if old(self).workspace() == path@ {
                old(self)@
            } else {
                Map::<Seq<char>, (FileStamp, T)>::empty()
            }),
    {
        if !str_eq(self.workspace_path.as_str(), path.as_str()) {
            self.entries = Vec::new();
            self.workspace_path = path;
            assert(self@ =~= Map::<Seq<char>, (FileStamp, T)>::empty());
        }
    }

    /// Every cached file: its path and its data.
    pub fn snapshot(&self) -> (r: Vec<(&str, &T)>)
        requires
            self.wf(),
        ensures
            forall|i: int| 0 <= i < r@.len() ==> {
                &&& self@.contains_key(#[trigger] r@[i].0@)
                &&& self@[r@[i].0@].1 == *r@[i].1
            },
            forall|p: Seq<char>| self@.contains_key(p) ==> exists|i: int| 0 <= i < r@.len() && #[trigger] r@[i].0@ == p,
            forall|i: int, j: int| 0 <= i < j < r@.len() ==> #[trigger] r@[i].0@ != #[trigger] r@[j].0@,
    {
        let mut r: Vec<(&str, &T)> = Vec::new();
        let mut i: usize = 0;
        while i < self.entries.len()
            invariant
                self.wf(),
                i <= self.entries@.len(),
                r@.len() == i,
                forall|k: int| 0 <= k < i ==> (#[trigger] r@[k]).0@ == self.entries@[k].path@ && *r@[k].1 == self.entries@[k].data,
            decreases self.entries@.len() - i,
        {
            let e = &self.entries[i];
            r.push((e.path.as_str(), &e.data));
            i = i + 1;
        }
        proof {
            assert forall|k: int| 0 <= k < r@.len() implies {
                &&& self@.contains_key(#[trigger] r@[k].0@)
                &&& self@[r@[k].0@].1 == *r@[k].1
            } by {
                lemma_lookup_entry(self.entries@, k);
            }
            assert forall|p: Seq<char>| self@.contains_key(p) implies exists|k: int| 0 <= k < r@.len() && #[trigger] r@[k].0@ == p by {
                let k = lemma_cache_map(self.entries@, p);
                assert(r@[k].0@ == p);
            }
        }
        r
    }

    /// The workspace the paths are relative to.
    pub fn workspace_path(&self) -> (r: &str)
        ensures
            r@ == self.workspace(),
    {
        self.workspace_path.as_str()
    }

    fn position(&self, rel_path: &str) -> (r: Option<usize>)
        requires
            self.wf(),
        ensures
            match r {
                Some(i) => i < self.entries@.len() && self.entries@[i as int].path@ == rel_path@
                    && lookup(self.entries@, rel_path@) == Some((self.entries@[i as int].mtime, self.entries@[i as int].data)),
                None => lookup(self.entries@, rel_path@) is None,
            },
    {
        let mut i: usize = 0;
        while i < self.entries.len()
            invariant
                i <= self.entries@.len(),
                lookup(self.entries@.take(i as int), rel_path@) is None,
            decreases self.entries@.len() - i,
        {
            assert(self.entries@.take(i + 1).drop_last() =~= self.entries@.take(i as int));
            if str_eq(self.entries[i].path.as_str(), rel_path) {
                proof {
                    lemma_lookup_prefix(self.entries@, rel_path@, i + 1);
                }
                return Some(i);
            }
            i = i + 1;
        }
        assert(self.entries@.take(i as int) =~= self.entries@);
        None
    }

    /// The cached data of `rel_path`, when it was cached at modification time `mtime`.
    pub fn cached(&self, rel_path: &str, mtime: FileStamp) -> (r: Option<&T>)
        requires
            self.wf(),
        ensures
            match r {
                Some(d) => self@.contains_key(rel_path@) && self@[rel_path@] == (mtime, *d),
                None => !(self@.contains_key(rel_path@) && self@[rel_path@].0 == mtime),
            },
    {
        match self.position(rel_path) {
            Some(i) => {
                if self.entries[i].mtime == mtime {
                    Some(&self.entries[i].data)
                } else {
                    None
                }
            },
            None => None,
        }
    }

    /// Caches `data` for `rel_path`, decoded at modification time `mtime`.
    pub fn insert(&mut self, rel_path: String, mtime: FileStamp, data: T)
        requires
            old(self).wf(),
        ensures
            final(self).wf(),
            final(self)@ == old(self)@.insert(rel_path@, (mtime, data)),
            final(self).workspace() == old(self).workspace(),
    {
        let ghost before = self.entries@;
        match self.position(rel_path.as_str()) {
            Some(i) => {
                let ghost p = rel_path@;
                let e = WavCacheEntry { path: rel_path, mtime, data };
                self.entries.set(i, e);
                proof {
                    let after = self.entries@;
                    assert(distinct_paths(after)) by {
                        assert forall|a: int, b: int| 0 <= a < b < after.len() implies #[trigger] after[a].path@ != #[trigger] after[b].path@ by {
                            if a != i && b != i {
                                assert(after[a] == before[a] && after[b] == before[b]);
                            } else if a == i {
                                assert(after[b] == before[b]);
                            } else {
                                assert(after[a] == before[a]);
                            }
                        }
                    }
                    assert forall|q: Seq<char>| #[trigger] lookup(after, q) == (if q == p {
                        Some((mtime, after[i as int].data))
                    } else {
                        lookup(before, q)
                    }) by {
                        if q == p {
                            lemma_lookup_entry(after, i as int);
                        } else {
                            lemma_lookup_cases(before, q);
                            lemma_lookup_cases(after, q);
                            if lookup(before, q) is Some {
                                let j = lemma_cache_map(before, q);
                                assert(after[j] == before[j]);
                                lemma_lookup_entry(after, j);
                            } else if lookup(after, q) is Some {
                                let j = lemma_cache_map(after, q);
                                assert(after[j] == before[j]);
                                lemma_lookup_entry(before, j);
                            }
                        }
                    }
                }
            },
            None => {
                let ghost p = rel_path@;
                self.entries.push(WavCacheEntry { path: rel_path, mtime, data });
                proof {
                    let after = self.entries@;
                    assert(after.drop_last() =~= before);
                    assert forall|j: int| 0 <= j < before.len() implies #[trigger] before[j].path@ != p by {
                        if before[j].path@ == p {
                            lemma_lookup_entry(before, j);
                        }
                    }
                    assert(distinct_paths(after)) by {
                        assert forall|a: int, b: int| 0 <= a < b < after.len() implies #[trigger] after[a].path@ != #[trigger] after[b].path@ by {
                            assert(after[a] == before[a]);
                            if b < before.len() {
                                assert(after[b] == before[b]);
                            }
                        }
                    }
                }
            },
        }
        assert(self@ =~= old(self)@.insert(rel_path@, (mtime, data)));
    }
}

proof fn lemma_lookup_prefix<T>(entries: Seq<WavCacheEntry<T>>, path: Seq<char>, k: int)
    requires
        0 <= k <= entries.len(),
        lookup(entries.take(k), path) is Some,
    ensures
        lookup(entries, path) == lookup(entries.take(k), path),
    decreases entries.len() - k,
{
    if k < entries.len() {
        assert(entries.take(k + 1).drop_last() =~= entries.take(k));
        lemma_lookup_prefix(entries, path, k + 1);
    } else {
        assert(entries.take(k) =~= entries);
    }
}

/// No path is cached twice.
pub open spec fn distinct_paths<T>(entries: Seq<WavCacheEntry<T>>) -> bool {
    forall|i: int, j: int| 0 <= i < j < entries.len() ==> #[trigger] entries[i].path@ != #[trigger] entries[j].path@
}

proof fn lemma_lookup_entry<T>(entries: Seq<WavCacheEntry<T>>, i: int)
    requires
        distinct_paths(entries),
        0 <= i < entries.len(),
    ensures
        lookup(entries, entries[i].path@) == Some((entries[i].mtime, entries[i].data)),
    decreases entries.len(),
{
    if i < entries.len() - 1 {
        let t = entries.drop_last();
        assert(t[i] == entries[i]);
        lemma_lookup_entry(t, i);
    } else {
        lemma_lookup_absent(entries.drop_last(), entries[i].path@);
    }
}

proof fn lemma_lookup_absent<T>(entries: Seq<WavCacheEntry<T>>, p: Seq<char>)
    requires
        forall|i: int| 0 <= i < entries.len() ==> #[trigger] entries[i].path@ != p,
    ensures
        lookup(entries, p) is None,
    decreases entries.len(),
{
    if entries.len() > 0 {
        let t = entries.drop_last();
        assert forall|i: int| 0 <= i < t.len() implies #[trigger] t[i].path@ != p by {
            assert(t[i] == entries[i]);
        }
        lemma_lookup_absent(t, p);
    }
}

/// What is found for each path, when no path is cached twice.
proof fn lemma_lookup_cases<T>(entries: Seq<WavCacheEntry<T>>, p: Seq<char>)
    requires
        distinct_paths(entries),
    ensures
        (exists|i: int| 0 <= i < entries.len() && #[trigger] entries[i].path@ == p) || lookup(entries, p) is None,
{
    if !(exists|i: int| 0 <= i < entries.len() && #[trigger] entries[i].path@ == p) {
        lemma_lookup_absent(entries, p);
    }
}

proof fn lemma_cache_map<T>(entries: Seq<WavCacheEntry<T>>, p: Seq<char>) -> (i: int)
    requires
        distinct_paths(entries),
        lookup(entries, p) is Some,
    ensures
        0 <= i < entries.len(),
        entries[i].path@ == p,
        lookup(entries, p) == Some((entries[i].mtime, entries[i].data)),
{
    lemma_lookup_cases(entries, p);
    let i = choose|i: int| 0 <= i < entries.len() && #[trigger] entries[i].path@ == p;
    lemma_lookup_entry(entries, i);
    i
}

/// After a file is cached at a modification time, asking for it at that
/// time finds the data, asking at any other time finds nothing, and every
/// other file stays as it was.
pub proof fn lemma_cached_after_insert<T>(
    m: Map<Seq<char>, (FileStamp, T)>,
    path: Seq<char>,
    mtime: FileStamp,
    data: T,
    other_time: FileStamp,
    other: Seq<char>,
)
    requires
        other_time != mtime,
        other != path,
    ensures
        m.insert(path, (mtime, data)).contains_key(path),
        m.insert(path, (mtime, data))[path] == (mtime, data),
        m.insert(path, (mtime, data))[path].0 != other_time,
        m.insert(path, (mtime, data)).contains_key(other) == m.contains_key(other),
        m.contains_key(other) ==> m.insert(path, (mtime, data))[other] == m[other],
{
}

} // verus!
