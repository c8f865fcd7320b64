//! Which MIDI inputs are open and which are wanted. The engine opens and
//! closes the ports; this bookkeeping decides which to open, which to
//! close and which to try again after a device was unplugged.

use vstd::prelude::*;
use crate::id_map::IdMap;

verus! {

/// No name twice.
pub open spec fn distinct_names(names: Seq<String>) -> bool {
    forall|i: int, j: int| 0 <= i < j < names.len() ==> #[trigger] names[i]@ != #[trigger] names[j]@
}

/// The names of `names`, as a set of texts.
pub open spec fn name_set(names: Seq<String>) -> Set<Seq<char>> {
    Set::new(|n: Seq<char>| exists|i: int| 0 <= i < names.len() && #[trigger] names[i]@ == n)
}

/// The open MIDI inputs (each with the connection handle `C` the engine
/// keeps for it) and the inputs wanted, by port name.
pub struct MidiInputManager<C> {
    connections: IdMap<C>,
    desired: IdMap<()>,
}

impl<C> MidiInputManager<C> {
    pub closed spec fn wf(&self) -> bool {
        self.connections.wf() && self.desired.wf()
    }

    /// The open inputs, by port name.
    pub closed spec fn open(&self) -> Map<Seq<char>, C> {
        self.connections@
    }

    /// The port names wanted.
    pub closed spec fn wanted(&self) -> Set<Seq<char>> {
        self.desired@.dom()
    }

    /// Nothing open, nothing wanted.
    pub fn new() -> (r: Self)
        ensures
            r.wf(),
            r.open() == Map::<Seq<char>, C>::empty(),
            r.wanted() == Set::<Seq<char>>::empty(),
    {
        MidiInputManager { connections: IdMap::new(), desired: IdMap::new() }
    }

    /// Asks for `port_name`: it becomes wanted. Returns whether it still
    /// has to be opened (false when it is open already).
    pub fn connect(&mut self, port_name: &str) -> (r: bool)
        requires
            old(self).wf(),
        ensures
            final(self).wf(),
            final(self).wanted() == old(self).wanted().insert(port_name@),
            final(self).open() == old(self).open(),
            r == !old(self).open().contains_key(port_name@),
    {
        self.desired.insert(port_name.to_string(), ());
        !self.connections.contains(port_name)
    }

    /// Records an input the engine opened, replacing any open under that name.
    pub fn add_connection(&mut self, port_name: String, connection: C)
        requires
            old(self).wf(),
        ensures
            final(self).wf(),
            final(self).open() == old(self).open().insert(port_name@, connection),
            final(self).wanted() == old(self).wanted(),
    {
        self.connections.insert(port_name, connection);
    }

    /// Whether `port_name` is open.
    pub fn is_connected(&self, port_name: &str) -> (r: bool)
        requires
            self.wf(),
        ensures
            r == self.open().contains_key(port_name@),
    {
        self.connections.contains(port_name)
    }

    /// Stops wanting `port_name` and hands back its connection, if open, to be closed.
    pub fn disconnect(&mut self, port_name: &str) -> (r: Option<C>)
        requires
            old(self).wf(),
        ensures
            final(self).wf(),
            final(self).wanted() == old(self).wanted().remove(port_name@),
            final(self).open() == old(self).open().remove(port_name@),
            match r {
                Some(c) => old(self).open().contains_key(port_name@) && old(self).open()[port_name@] == c,
                None => !old(self).open().contains_key(port_name@),
            },
    {
        let _ = self.desired.remove(port_name);
        self.connections.remove(port_name)
    }

    /// Stops wanting anything and hands back every open connection.
    pub fn disconnect_all(&mut self) -> (r: Vec<(String, C)>)
        requires
            old(self).wf(),
        ensures
            final(self).wf(),
            final(self).wanted() == Set::<Seq<char>>::empty(),
            final(self).open() == Map::<Seq<char>, C>::empty(),
            crate::id_map::as_map(r@) == old(self).open(),
            crate::id_map::distinct_ids(r@),
    {
        let _ = self.desired.drain();
        self.connections.drain()
    }

    /// The open port names, each once.
    pub fn connected_ports(&self) -> (r: Vec<String>)
        requires
            self.wf(),
        ensures
            distinct_names(r@),
            name_set(r@) == self.open().dom(),
    {
        let r = self.connections.keys();
        assert(name_set(r@) =~= self.open().dom());
        r
    }

    /// One open port name, if any is open.
    pub fn connected_port(&self) -> (r: Option<String>)
        requires
            self.wf(),
        ensures
            match r {
                Some(n) => self.open().contains_key(n@),
                None => self.open().dom().is_empty(),
            },
    {
        self.connections.first_key()
    }

    /// Makes `device_names` the wanted inputs. Hands back the open
    /// connections no longer wanted, to be closed, and the wanted names that
    /// are not open, to be opened.
    pub fn sync_devices(&mut self, device_names: &Vec<String>) -> (r: (Vec<(String, C)>, Vec<String>))
        requires
            old(self).wf(),
            distinct_names(device_names@),
        ensures
            final(self).wf(),
            final(self).wanted() == name_set(device_names@),
            final(self).open() == old(self).open().restrict(name_set(device_names@)),
            crate::id_map::as_map(r.0@) == old(self).open().remove_keys(name_set(device_names@)),
            distinct_names(r.1@),
            name_set(r.1@) == name_set(device_names@).difference(old(self).open().dom()),
    {
        // Close what is no longer wanted.
        let open_names = self.connections.keys();
        let mut closed: Vec<(String, C)> = Vec::new();
        let ghost before = self.connections@;
        let ghost wanted = name_set(device_names@);
        let mut i: usize = 0;
        while i < open_names.len()
            invariant
                self.connections.wf(),
                self.desired.wf(),
                self.desired == old(self).desired,
                i <= open_names@.len(),
                before == old(self).open(),
                wanted == name_set(device_names@),
                distinct_names(open_names@),
                forall|k: int| 0 <= k < open_names@.len() ==> before.contains_key(#[trigger] open_names@[k]@),
                forall|n: Seq<char>| before.contains_key(n) ==> exists|k: int| 0 <= k < open_names@.len() && #[trigger] open_names@[k]@ == n,
                self.connections@ == before.remove_keys(removed_names(open_names@, i as int, wanted)),
                crate::id_map::distinct_ids(closed@),
                crate::id_map::as_map(closed@) == before.restrict(removed_names(open_names@, i as int, wanted)),
            decreases open_names@.len() - i,
        {
            let name = &open_names[i];
            assert(self.connections@ =~= before.remove_keys(removed_names(open_names@, i as int, wanted)));
            if !contains_name(device_names, name.as_str()) {
                let ghost prev = closed@;
                proof {
                    assert(!crate::id_map::as_map(prev).contains_key(name@)) by {
                        if removed_names(open_names@, i as int, wanted).contains(name@) {
                            let j = choose|j: int| 0 <= j < i && #[trigger] open_names@[j]@ == name@;
                            assert(open_names@[j]@ == open_names@[i as int]@);
                        }
                    }
                }
                match self.connections.remove(name.as_str()) {
                    Some(c) => {
                        let e = (name.clone(), c);
                        proof {
                            lemma_push_fresh(prev, e);
                        }
                        closed.push(e);
                    },
                    None => {},
                }
            }
            proof {
                lemma_removed_step(open_names@, i as int, wanted);
                assert(self.connections@ =~= before.remove_keys(removed_names(open_names@, i + 1, wanted)));
                assert(crate::id_map::as_map(closed@) =~= before.restrict(removed_names(open_names@, i + 1, wanted)));
            }
            i = i + 1;
        }
        proof {
            lemma_removed_all(open_names@, before, wanted);
        }
        // Want exactly the names given.
        let _ = self.desired.drain();
        let mut k: usize = 0;
        while k < device_names.len()
            invariant
                self.desired.wf(),
                self.connections.wf(),
                self.connections@ == before.restrict(wanted),
                k <= device_names@.len(),
                self.desired@.dom() == name_set(device_names@.take(k as int)),
            decreases device_names@.len() - k,
        {
            self.desired.insert(device_names[k].clone(), ());
            proof {
                assert(name_set(device_names@.take(k + 1)) =~= name_set(device_names@.take(k as int)).insert(device_names@[k as int]@)) by {
                    assert forall|n: Seq<char>| name_set(device_names@.take(k + 1)).contains(n)
                        == name_set(device_names@.take(k as int)).insert(device_names@[k as int]@).contains(n) by {
                        if name_set(device_names@.take(k + 1)).contains(n) {
                            let j = choose|j: int| 0 <= j < k + 1 && #[trigger] device_names@.take(k + 1)[j]@ == n;
                            if j < k {
                                assert(device_names@.take(k as int)[j]@ == n);
                            }
                        }
                        if name_set(device_names@.take(k as int)).contains(n) {
                            let j = choose|j: int| 0 <= j < k && #[trigger] device_names@.take(k as int)[j]@ == n;
                            assert(device_names@.take(k + 1)[j]@ == n);
                        }
                        if n == device_names@[k as int]@ {
                            assert(device_names@.take(k + 1)[k as int]@ == n);
                        }
                    }
                }
                assert(self.desired@.dom() =~= name_set(device_names@.take(k + 1)));
            }
            k = k + 1;
        }
        assert(device_names@.take(k as int) =~= device_names@);
        // Open what is wanted and not open.
        let mut to_open: Vec<String> = Vec::new();
        let mut j: usize = 0;
        while j < device_names.len()
            invariant
                self.connections.wf(),
                j <= device_names@.len(),
                distinct_names(device_names@),
                self.connections@ == before.restrict(wanted),
                wanted == name_set(device_names@),
                distinct_names(to_open@),
                name_set(to_open@) == name_set(device_names@.take(j as int)).difference(before.dom()),
                forall|a: int| 0 <= a < to_open@.len() ==> name_set(device_names@.take(j as int)).contains(#[trigger] to_open@[a]@),
            decreases device_names@.len() - j,
        {
            let name = &device_names[j];
            let open = self.connections.contains(name.as_str());
            let ghost prev = to_open@;
            proof {
                assert(device_names@.take(j + 1) =~= device_names@.take(j as int).push(device_names@[j as int]));
                assert(wanted.contains(name@)) by {
                    assert(device_names@[j as int]@ == name@);
                }
            }
            if !open {
                to_open.push(name.clone());
            }
            proof {
                lemma_to_open_step(device_names@, j as int, prev, to_open@, before, open);
            }
            j = j + 1;
        }
        assert(device_names@.take(j as int) =~= device_names@);
        (closed, to_open)
    }

    /// The wanted inputs that are not open: those to try opening again.
    pub fn try_reconnect(&self) -> (r: Vec<String>)
        requires
            self.wf(),
        ensures
            distinct_names(r@),
            name_set(r@) == self.wanted().difference(self.open().dom()),
    {
        let wanted = self.desired.keys();
        let mut r: Vec<String> = Vec::new();
        let mut i: usize = 0;
        while i < wanted.len()
            invariant
                self.wf(),
                i <= wanted@.len(),
                distinct_names(wanted@),
                name_set(wanted@) == self.wanted(),
                distinct_names(r@),
                name_set(r@) == name_set(wanted@.take(i as int)).difference(self.open().dom()),
                forall|a: int| 0 <= a < r@.len() ==> name_set(wanted@.take(i as int)).contains(#[trigger] r@[a]@),
            decreases wanted@.len() - i,
        {
            let ghost prev = r@;
            let open = self.connections.contains(wanted[i].as_str());
            proof {
                assert(wanted@.take(i + 1) =~= wanted@.take(i as int).push(wanted@[i as int]));
            }
            if !open {
                r.push(wanted[i].clone());
            }
            proof {
                lemma_to_open_step(wanted@, i as int, prev, r@, self.open(), open);
            }
            i = i + 1;
        }
        assert(wanted@.take(i as int) =~= wanted@);
        r
    }
}

/// Whether `name` is among `names`.
fn contains_name(names: &Vec<String>, name: &str) -> (r: bool)
    ensures
        r == name_set(names@).contains(name@),
{
    let mut i: usize = 0;
    while i < names.len()
        invariant
            i <= names@.len(),
            forall|j: int| 0 <= j < i ==> #[trigger] names@[j]@ != name@,
        decreases names@.len() - i,
    {
        if crate::text::str_eq(names[i].as_str(), name) {
            assert(names@[i as int]@ == name@);
            return true;
        }
        i = i + 1;
    }
    false
}

/// The names among the first `k` of `names` that are not wanted.
pub open spec fn removed_names(names: Seq<String>, k: int, wanted: Set<Seq<char>>) -> Set<Seq<char>> {
    Set::new(|n: Seq<char>| !wanted.contains(n) && exists|j: int| 0 <= j < k && #[trigger] names[j]@ == n)
}

proof fn lemma_removed_step(names: Seq<String>, k: int, wanted: Set<Seq<char>>)
    requires
        0 <= k < names.len(),
    ensures
        removed_names(names, k + 1, wanted) == (if wanted.contains(names[k]@) {
            removed_names(names, k, wanted)
        } else {
            removed_names(names, k, wanted).insert(names[k]@)
        }),
{
    assert forall|n: Seq<char>| #[trigger] removed_names(names, k + 1, wanted).contains(n)
        implies removed_names(names, k, wanted).contains(n) || n == names[k]@ by {
        let j = choose|j: int| 0 <= j < k + 1 && #[trigger] names[j]@ == n;
        if j < k {
            assert(names[j]@ == n);
        }
    }
    assert forall|n: Seq<char>| #[trigger] removed_names(names, k, wanted).contains(n)
        implies removed_names(names, k + 1, wanted).contains(n) by {
        let j = choose|j: int| 0 <= j < k && #[trigger] names[j]@ == n;
        assert(names[j]@ == n);
    }
    if !wanted.contains(names[k]@) {
        assert(removed_names(names, k + 1, wanted).contains(names[k]@)) by {
            assert(names[k]@ == names[k]@);
        }
    }
    if wanted.contains(names[k]@) {
        assert(removed_names(names, k + 1, wanted) =~= removed_names(names, k, wanted));
    } else {
        assert(removed_names(names, k + 1, wanted) =~= removed_names(names, k, wanted).insert(names[k]@));
    }
}

proof fn lemma_removed_all<C>(names: Seq<String>, open: Map<Seq<char>, C>, wanted: Set<Seq<char>>)
    requires
        forall|k: int| 0 <= k < names.len() ==> open.contains_key(#[trigger] names[k]@),
        forall|n: Seq<char>| open.contains_key(n) ==> exists|k: int| 0 <= k < names.len() && #[trigger] names[k]@ == n,
    ensures
        open.remove_keys(removed_names(names, names.len() as int, wanted)) == open.restrict(wanted),
        open.restrict(removed_names(names, names.len() as int, wanted)) == open.remove_keys(wanted),
{
    let gone = removed_names(names, names.len() as int, wanted);
    assert forall|n: Seq<char>| open.contains_key(n) implies (gone.contains(n) <==> !wanted.contains(n)) by {
        let k = choose|k: int| 0 <= k < names.len() && #[trigger] names[k]@ == n;
        if !wanted.contains(n) {
            assert(names[k]@ == n);
        }
    }
    assert(open.remove_keys(gone) =~= open.restrict(wanted));
    assert(open.restrict(gone) =~= open.remove_keys(wanted));
}

proof fn lemma_push_fresh<C>(prev: Seq<(String, C)>, e: (String, C))
    requires
        crate::id_map::distinct_ids(prev),
        !crate::id_map::as_map(prev).contains_key(e.0@),
    ensures
        crate::id_map::distinct_ids(prev.push(e)),
        crate::id_map::as_map(prev.push(e)) == crate::id_map::as_map(prev).insert(e.0@, e.1),
{
    let now = prev.push(e);
    crate::id_map::lemma_map_entries(prev);
    assert forall|j: int| 0 <= j < prev.len() implies #[trigger] prev[j].0@ != e.0@ by {
        assert(crate::id_map::as_map(prev).contains_key(prev[j].0@));
    }
    assert(crate::id_map::distinct_ids(now)) by {
        assert forall|a: int, b: int| 0 <= a < b < now.len() implies #[trigger] now[a].0@ != #[trigger] now[b].0@ by {
            assert(now[a] == prev[a]);
            if b < prev.len() {
                assert(now[b] == prev[b]);
            }
        }
    }
    crate::id_map::lemma_map_entries(now);
    assert forall|k: Seq<char>| #[trigger] crate::id_map::as_map(now).contains_key(k)
        == crate::id_map::as_map(prev).insert(e.0@, e.1).contains_key(k) by {
        if crate::id_map::as_map(now).contains_key(k) {
            let j = choose|j: int| 0 <= j < now.len() && now[j].0@ == k;
            if j < prev.len() {
                assert(now[j] == prev[j]);
            }
        }
        if crate::id_map::as_map(prev).contains_key(k) {
            let j = choose|j: int| 0 <= j < prev.len() && prev[j].0@ == k;
            assert(now[j] == prev[j]);
        }
        if k == e.0@ {
            assert(now[prev.len() as int] == e);
        }
    }
    assert forall|k: Seq<char>| #[trigger] crate::id_map::as_map(now).contains_key(k)
        implies crate::id_map::as_map(now)[k] == crate::id_map::as_map(prev).insert(e.0@, e.1)[k] by {
        let j = choose|j: int| 0 <= j < now.len() && now[j].0@ == k;
        if j < prev.len() {
            assert(now[j] == prev[j]);
        } else {
            assert(now[j] == e);
        }
    }
    assert(crate::id_map::as_map(now) =~= crate::id_map::as_map(prev).insert(e.0@, e.1));
}

proof fn lemma_to_open_step<C>(
    names: Seq<String>,
    j: int,
    prev: Seq<String>,
    now: Seq<String>,
    open: Map<Seq<char>, C>,
    is_open: bool,
)
    requires
        0 <= j < names.len(),
        distinct_names(names),
        distinct_names(prev),
        name_set(prev) == name_set(names.take(j)).difference(open.dom()),
        forall|a: int| 0 <= a < prev.len() ==> name_set(names.take(j)).contains(#[trigger] prev[a]@),
        is_open == open.contains_key(names[j]@),
        is_open ==> now == prev,
        !is_open ==> now == prev.push(names[j]),
        names.take(j + 1) == names.take(j).push(names[j]),
    ensures
        distinct_names(now),
        name_set(now) == name_set(names.take(j + 1)).difference(open.dom()),
        forall|a: int| 0 <= a < now.len() ==> name_set(names.take(j + 1)).contains(#[trigger] now[a]@),
{
    let pre = names.take(j);
    let post = names.take(j + 1);
    assert forall|n: Seq<char>| name_set(post).contains(n) == (name_set(pre).contains(n) || n == names[j]@) by {
        if name_set(post).contains(n) {
            let i = choose|i: int| 0 <= i < post.len() && #[trigger] post[i]@ == n;
            if i < j {
                assert(pre[i]@ == n);
            }
        }
        if name_set(pre).contains(n) {
            let i = choose|i: int| 0 <= i < pre.len() && #[trigger] pre[i]@ == n;
            assert(post[i]@ == n);
        }
        if n == names[j]@ {
            assert(post[j]@ == n);
        }
    }
    assert(!name_set(pre).contains(names[j]@)) by {
        if name_set(pre).contains(names[j]@) {
            let i = choose|i: int| 0 <= i < pre.len() && #[trigger] pre[i]@ == names[j]@;
            assert(names[i]@ == names[j]@);
        }
    }
    assert forall|a: int| 0 <= a < now.len() implies name_set(post).contains(#[trigger] now[a]@) by {
        if a < prev.len() {
            assert(now[a] == prev[a]);
            assert(name_set(pre).contains(prev[a]@));
        } else {
            assert(now[a] == names[j]);
        }
    }
    if !is_open {
        assert forall|a: int, b: int| 0 <= a < b < now.len() implies #[trigger] now[a]@ != #[trigger] now[b]@ by {
            assert(now[a] == prev[a]);
            if b < prev.len() {
                assert(now[b] == prev[b]);
            } else {
                assert(name_set(pre).contains(prev[a]@));
            }
        }
        assert forall|n: Seq<char>| name_set(now).contains(n) == name_set(post).difference(open.dom()).contains(n) by {
            if name_set(now).contains(n) {
                let i = choose|i: int| 0 <= i < now.len() && #[trigger] now[i]@ == n;
                if i < prev.len() {
                    assert(now[i] == prev[i]);
                    assert(name_set(prev).contains(n));
                }
            }
            if name_set(post).difference(open.dom()).contains(n) {
                if n == names[j]@ {
                    assert(now[prev.len() as int]@ == n);
                } else {
                    assert(name_set(prev).contains(n));
                    let i = choose|i: int| 0 <= i < prev.len() && #[trigger] prev[i]@ == n;
                    assert(now[i] == prev[i]);
                }
            }
        }
        assert(name_set(now) =~= name_set(post).difference(open.dom()));
    } else {
        assert(name_set(now) =~= name_set(post).difference(open.dom()));
    }
}

} // verus!
