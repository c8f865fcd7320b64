//! Patch graphs and their cycle analysis.
//!
//! A module that reads another module's output through a cable depends on
//! it. Modules that lie on a dependency cycle (a strongly connected group of
//! several modules, or a module that reads itself) must be processed one
//! sample at a time; all others can be processed a block at a time.

use vstd::prelude::*;
use crate::json::{JsonValue, cable_producers, collect_cable_producers, is_cable_object, lemma_member_producers_found, member_str, string_views};
use crate::text::str_eq;

verus! {

/// One module instance of a patch.
pub struct ModuleState {
    pub id: String,
    pub module_type: String,
    /// Whether the user named this module explicitly.
    pub id_is_explicit: Option<bool>,
    /// Parameter values as sent by the editor.
    pub params: JsonValue,
}

/// A renaming of a module id between two versions of a patch.
pub struct ModuleIdRemap {
    pub from: String,
    pub to: String,
}

/// One traced output of a scope.
pub struct ScopeChannel {
    pub module_id: String,
    pub port_name: String,
}

/// An oscilloscope view onto module outputs.
pub struct Scope {
    pub channels: Vec<ScopeChannel>,
}

/// A whole patch: its modules, id remappings and scopes.
pub struct PatchGraph {
    pub modules: Vec<ModuleState>,
    pub module_id_remaps: Option<Vec<ModuleIdRemap>>,
    pub scopes: Vec<Scope>,
}

/// How a module is scheduled.
#[derive(Clone, Copy, Debug, PartialEq, Eq, Structural)]
pub enum ProcessingMode {
    /// Processed one sample at a time (the module lies on a cycle).
    Sample,
    /// Processed a block at a time.
    Block,
}

// ---------------------------------------------------------------------------
// Graphs over node indices
// ---------------------------------------------------------------------------

/// Some edge of the list goes from `i` to `j`.
pub open spec fn idx_edge(edges: Seq<(usize, usize)>, i: int, j: int) -> bool {
    exists|k: int| #![trigger edges[k]] 0 <= k < edges.len() && edges[k].0 == i && edges[k].1 == j
}

/// Step `k` of the walk `w` follows an edge.
pub open spec fn idx_step(edges: Seq<(usize, usize)>, w: Seq<int>, k: int) -> bool {
    idx_edge(edges, w[k], w[k + 1])
}

/// Every step of `w` follows an edge.
pub open spec fn is_idx_walk(edges: Seq<(usize, usize)>, w: Seq<int>) -> bool {
    forall|k: int| 0 <= k < w.len() - 1 ==> #[trigger] idx_step(edges, w, k)
}

/// `b` can be reached from `a` by following at least one edge.
pub open spec fn reach_plus(edges: Seq<(usize, usize)>, a: int, b: int) -> bool {
    exists|w: Seq<int>| #![trigger is_idx_walk(edges, w)]
        w.len() >= 2 && w[0] == a && w[w.len() - 1] == b && is_idx_walk(edges, w)
}

/// Every edge joins two of the first `n` nodes.
pub open spec fn edges_within(edges: Seq<(usize, usize)>, n: int) -> bool {
    forall|k: int| 0 <= k < edges.len() ==> (#[trigger] edges[k]).0 < n && edges[k].1 < n
}

/// Number of `false` entries.
pub open spec fn count_false(s: Seq<bool>) -> nat
    decreases s.len(),
{
    if s.len() == 0 {
        0
    } else {
        count_false(s.drop_last()) + if s.last() { 0nat } else { 1nat }
    }
}

proof fn lemma_count_false_update(s: Seq<bool>, i: int)
    requires
        0 <= i < s.len(),
        !s[i],
    ensures
        count_false(s.update(i, true)) + 1 == count_false(s),
    decreases s.len(),
{
    let t = s.update(i, true);
    if i == s.len() - 1 {
        assert(t.drop_last() =~= s.drop_last());
    } else {
        assert(t.drop_last() =~= s.drop_last().update(i, true));
        lemma_count_false_update(s.drop_last(), i);
    }
}

proof fn lemma_walk_extend(edges: Seq<(usize, usize)>, w: Seq<int>, x: int)
    requires
        w.len() >= 1,
        is_idx_walk(edges, w),
        idx_edge(edges, w[w.len() - 1], x),
    ensures
        is_idx_walk(edges, w.push(x)),
{
    let v = w.push(x);
    assert forall|k: int| 0 <= k < v.len() - 1 implies #[trigger] idx_step(edges, v, k) by {
        if k < w.len() - 1 {
            assert(idx_step(edges, w, k));
            assert(v[k] == w[k] && v[k + 1] == w[k + 1]);
        } else {
            assert(v[k] == w[w.len() - 1] && v[k + 1] == x);
        }
    }
}

/// Walks from `src` stay inside the visited set when that set holds every
/// successor of `src` and is closed under edges.
proof fn lemma_closed_walk(edges: Seq<(usize, usize)>, visited: Seq<bool>, src: int, w: Seq<int>, k: int)
    requires
        edges_within(edges, visited.len() as int),
        0 <= src < visited.len(),
        w.len() >= 2,
        w[0] == src,
        is_idx_walk(edges, w),
        1 <= k < w.len(),
        forall|e: int| 0 <= e < edges.len() && (#[trigger] edges[e]).0 == src ==> visited[edges[e].1 as int],
        forall|e: int| 0 <= e < edges.len() && visited[(#[trigger] edges[e]).0 as int]
            ==> visited[edges[e].1 as int],
    ensures
        0 <= w[k] < visited.len(),
        visited[w[k]],
    decreases k,
{
    assert(idx_step(edges, w, k - 1));
    let e = choose|e: int| #![trigger edges[e]] 0 <= e < edges.len() && edges[e].0 == w[k - 1] && edges[e].1 == w[k];
    if k == 1 {
    } else {
        lemma_closed_walk(edges, visited, src, w, k - 1);
    }
}

/// The nodes reachable from `src` by following at least one edge.
fn reachable_from(n: usize, edges: &Vec<(usize, usize)>, src: usize) -> (visited: Vec<bool>)
    requires
        src < n,
        edges_within(edges@, n as int),
    ensures
        visited@.len() == n,
        forall|x: int| 0 <= x < n ==> (visited@[x] <==> reach_plus(edges@, src as int, x)),
{
    let mut visited: Vec<bool> = Vec::new();
    let mut i: usize = 0;
    while i < n
        invariant
            i <= n,
            visited@.len() == i,
            forall|x: int| 0 <= x < i ==> !visited@[x],
        decreases n - i,
    {
        visited.push(false);
        i = i + 1;
    }
    let mut stack: Vec<usize> = Vec::new();
    let mut k: usize = 0;
    while k < edges.len()
        invariant
            k <= edges@.len(),
            src < n,
            edges_within(edges@, n as int),
            visited@.len() == n,
            forall|x: int| 0 <= x < n && visited@[x] ==> reach_plus(edges@, src as int, x),
            forall|t: int| 0 <= t < stack@.len() ==> (#[trigger] stack@[t]) < n && visited@[stack@[t] as int],
            forall|x: int| 0 <= x < n && visited@[x] ==> stack@.contains(x as usize),
            forall|e: int| 0 <= e < k && (#[trigger] edges@[e]).0 == src ==> visited@[edges@[e].1 as int],
        decreases edges@.len() - k,
    {
        let (a, b) = edges[k];
        if a == src && !visited[b] {
            proof {
                let w = seq![src as int, b as int];
                assert(idx_step(edges@, w, 0));
                assert(is_idx_walk(edges@, w));
            }
            let ghost stack1 = stack@;
            visited.set(b, true);
            stack.push(b);
            proof {
                assert(stack@[stack@.len() - 1] == b);
                assert forall|x: int| 0 <= x < n && visited@[x] implies stack@.contains(x as usize) by {
                    if x != b as int {
                        let t = choose|t: int| 0 <= t < stack1.len() && stack1[t] == x as usize;
                        assert(stack@[t] == x as usize);
                    }
                }
            }
        }
        k = k + 1;
    }
    while stack.len() > 0
        invariant
            src < n,
            edges_within(edges@, n as int),
            visited@.len() == n,
            forall|x: int| 0 <= x < n && visited@[x] ==> reach_plus(edges@, src as int, x),
            forall|t: int| 0 <= t < stack@.len() ==> (#[trigger] stack@[t]) < n && visited@[stack@[t] as int],
            forall|e: int| 0 <= e < edges@.len() && visited@[(#[trigger] edges@[e]).0 as int]
                && !stack@.contains(edges@[e].0) ==> visited@[edges@[e].1 as int],
            forall|e: int| 0 <= e < edges@.len() && (#[trigger] edges@[e]).0 == src ==> visited@[edges@[e].1 as int],
        decreases 2 * count_false(visited@) + stack@.len(),
    {
        let ghost measure0 = 2 * count_false(visited@) + stack@.len();
        let ghost stack0 = stack@;
        let u = stack.pop().unwrap();
        proof {
            assert(stack0.last() == u);
            assert(stack@ =~= stack0.drop_last());
        }
        let ghost popped = stack@;
        proof {
            assert forall|e: int| 0 <= e < edges@.len() && visited@[(#[trigger] edges@[e]).0 as int]
                && !stack@.contains(edges@[e].0) && edges@[e].0 != u implies visited@[edges@[e].1 as int] by {
                let x = edges@[e].0;
                if stack0.contains(x) {
                    let t = choose|t: int| 0 <= t < stack0.len() && stack0[t] == x;
                    if t < popped.len() {
                        assert(stack@[t] == x);
                    }
                }
            }
        }
        let mut k: usize = 0;
        while k < edges.len()
            invariant
                k <= edges@.len(),
                src < n,
                u < n,
                visited@[u as int],
                edges_within(edges@, n as int),
                visited@.len() == n,
                2 * count_false(visited@) + stack@.len() < measure0,
                stack@.len() >= popped.len(),
                stack@.subrange(0, popped.len() as int) == popped,
                stack0 == popped.push(u),
                forall|x: int| 0 <= x < n && visited@[x] ==> reach_plus(edges@, src as int, x),
                forall|t: int| 0 <= t < stack@.len() ==> (#[trigger] stack@[t]) < n && visited@[stack@[t] as int],
                forall|e: int| 0 <= e < edges@.len() && visited@[(#[trigger] edges@[e]).0 as int]
                    && !stack@.contains(edges@[e].0) && edges@[e].0 != u ==> visited@[edges@[e].1 as int],
                forall|e: int| 0 <= e < edges@.len() && (#[trigger] edges@[e]).0 == src ==> visited@[edges@[e].1 as int],
                forall|e: int| 0 <= e < k && (#[trigger] edges@[e]).0 == u ==> visited@[edges@[e].1 as int],
            decreases edges@.len() - k,
        {
            let (a, b) = edges[k];
            if a == u && !visited[b] {
                proof {
                    let wu = choose|w: Seq<int>| #![trigger is_idx_walk(edges@, w)]
                        w.len() >= 2 && w[0] == src as int && w[w.len() - 1] == u as int && is_idx_walk(edges@, w);
                    assert(idx_edge(edges@, u as int, b as int));
                    lemma_walk_extend(edges@, wu, b as int);
                    let wb = wu.push(b as int);
                    assert(wb[wb.len() - 1] == b as int);
                    assert(wb[0] == src as int);
                    lemma_count_false_update(visited@, b as int);
                }
                let ghost stack1 = stack@;
                visited.set(b, true);
                stack.push(b);
                proof {
                    assert(stack@.subrange(0, popped.len() as int) =~= popped);
                    assert(stack@[stack@.len() - 1] == b);
                    assert forall|e: int| 0 <= e < edges@.len() && visited@[(#[trigger] edges@[e]).0 as int]
                        && !stack@.contains(edges@[e].0) && edges@[e].0 != u implies visited@[edges@[e].1 as int] by {
                        let x = edges@[e].0;
                        if stack1.contains(x) {
                            let t = choose|t: int| 0 <= t < stack1.len() && stack1[t] == x;
                            assert(stack@[t] == x);
                        }
                    }
                }
            }
            k = k + 1;
        }
        proof {
            assert forall|e: int| 0 <= e < edges@.len() && visited@[(#[trigger] edges@[e]).0 as int]
                && !stack@.contains(edges@[e].0) implies visited@[edges@[e].1 as int] by {
            }
        }
    }
    proof {
        assert forall|x: int| 0 <= x < n && reach_plus(edges@, src as int, x) implies visited@[x] by {
            let w = choose|w: Seq<int>| #![trigger is_idx_walk(edges@, w)]
                w.len() >= 2 && w[0] == src as int && w[w.len() - 1] == x && is_idx_walk(edges@, w);
            lemma_closed_walk(edges@, visited@, src as int, w, w.len() - 1);
        }
    }
    visited
}


// ---------------------------------------------------------------------------
// The dependency graph of a patch
// ---------------------------------------------------------------------------

/// Module `a` reads an output of module `b` through a cable in its params.
pub open spec fn dep_edge(modules: Seq<ModuleState>, a: Seq<char>, b: Seq<char>) -> bool {
    exists|i: int| #![trigger modules[i]]
        0 <= i < modules.len() && modules[i].id@ == a && cable_producers(modules[i].params).contains(b)
}

/// `a` is a node of the dependency graph: a module id, or a module that
/// some cable reads from.
pub open spec fn graph_node(modules: Seq<ModuleState>, a: Seq<char>) -> bool {
    exists|i: int| #![trigger modules[i]]
        0 <= i < modules.len() && (modules[i].id@ == a || cable_producers(modules[i].params).contains(a))
}

/// Step `k` of `w` follows a dependency.
pub open spec fn dep_step(modules: Seq<ModuleState>, w: Seq<Seq<char>>, k: int) -> bool {
    dep_edge(modules, w[k], w[k + 1])
}

/// Every step of `w` follows a dependency.
pub open spec fn is_dep_walk(modules: Seq<ModuleState>, w: Seq<Seq<char>>) -> bool {
    forall|k: int| 0 <= k < w.len() - 1 ==> #[trigger] dep_step(modules, w, k)
}

/// Module `a` lies on a dependency cycle: following one or more cables
/// from `a` leads back to `a`.
pub open spec fn on_cycle(modules: Seq<ModuleState>, a: Seq<char>) -> bool {
    exists|w: Seq<Seq<char>>| #![trigger is_dep_walk(modules, w)]
        w.len() >= 2 && w[0] == a && w[w.len() - 1] == a && is_dep_walk(modules, w)
}

/// The processing mode of a graph node.
pub open spec fn spec_mode(modules: Seq<ModuleState>, a: Seq<char>) -> ProcessingMode {
    if on_cycle(modules, a) {
        ProcessingMode::Sample
    } else {
        ProcessingMode::Block
    }
}

/// No two strings of the list have the same contents.
pub open spec fn distinct_views(s: Seq<String>) -> bool {
    forall|i: int, j: int| 0 <= i < s.len() && 0 <= j < s.len() && i != j ==> s[i]@ != s[j]@
}

/// The node list and edge list describe the dependency graph of `modules`.
pub open spec fn describes(modules: Seq<ModuleState>, nodes: Seq<String>, edges: Seq<(usize, usize)>) -> bool {
    &&& distinct_views(nodes)
    &&& forall|i: int| 0 <= i < nodes.len() ==> graph_node(modules, #[trigger] nodes[i]@)
    &&& forall|a: Seq<char>| graph_node(modules, a) ==> exists|i: int| 0 <= i < nodes.len() && #[trigger] nodes[i]@ == a
    &&& edges_within(edges, nodes.len() as int)
    &&& forall|i: int, j: int| 0 <= i < nodes.len() && 0 <= j < nodes.len() ==>
        (idx_edge(edges, i, j) <==> dep_edge(modules, #[trigger] nodes[i]@, #[trigger] nodes[j]@))
}

/// Index of `s` in the node list, appending it when absent.
fn intern(nodes: &mut Vec<String>, s: &String) -> (r: usize)
    requires
        distinct_views(old(nodes)@),
    ensures
        distinct_views(final(nodes)@),
        r < final(nodes)@.len(),
        final(nodes)@[r as int]@ == s@,
        (exists|i: int| 0 <= i < old(nodes)@.len() && #[trigger] old(nodes)@[i]@ == s@) ==> final(nodes)@ == old(nodes)@,
        !(exists|i: int| 0 <= i < old(nodes)@.len() && #[trigger] old(nodes)@[i]@ == s@) ==> final(nodes)@ == old(nodes)@.push(*s),
{
    let mut i: usize = 0;
    while i < nodes.len()
        invariant
            i <= nodes@.len(),
            nodes@ == old(nodes)@,
            distinct_views(nodes@),
            forall|j: int| 0 <= j < i ==> (#[trigger] nodes@[j])@ != s@,
        decreases nodes@.len() - i,
    {
        if str_eq(nodes[i].as_str(), s.as_str()) {
            return i;
        }
        i = i + 1;
    }
    let r = nodes.len();
    let ghost before = nodes@;
    nodes.push(s.clone());
    proof {
        assert forall|a: int, b: int| 0 <= a < nodes@.len() && 0 <= b < nodes@.len() && a != b
            implies nodes@[a]@ != nodes@[b]@ by {
            if a < before.len() && b < before.len() {
                assert(nodes@[a] == before[a] && nodes@[b] == before[b]);
            } else if a < before.len() {
                assert(nodes@[a] == before[a]);
            } else {
                assert(nodes@[b] == before[b]);
            }
        }
    }
    r
}

proof fn lemma_edge_ends_are_nodes(modules: Seq<ModuleState>, a: Seq<char>, b: Seq<char>)
    requires
        dep_edge(modules, a, b),
    ensures
        graph_node(modules, a),
        graph_node(modules, b),
{
    let i = choose|i: int| #![trigger modules[i]]
        0 <= i < modules.len() && modules[i].id@ == a && cable_producers(modules[i].params).contains(b);
    assert(modules[i].id@ == a);
}

proof fn lemma_take_step(modules: Seq<ModuleState>, t: int)
    requires
        0 <= t < modules.len(),
    ensures
        forall|a: Seq<char>| #[trigger] graph_node(modules.take(t + 1), a) <==> (graph_node(modules.take(t), a)
            || modules[t].id@ == a || cable_producers(modules[t].params).contains(a)),
        forall|a: Seq<char>, b: Seq<char>| #[trigger] dep_edge(modules.take(t + 1), a, b) <==> (dep_edge(modules.take(t), a, b)
            || (modules[t].id@ == a && cable_producers(modules[t].params).contains(b))),
{
    let m0 = modules.take(t);
    let m1 = modules.take(t + 1);
    assert forall|a: Seq<char>| #[trigger] graph_node(m1, a) <==> (graph_node(m0, a)
        || modules[t].id@ == a || cable_producers(modules[t].params).contains(a)) by {
        if graph_node(m1, a) {
            let i = choose|i: int| #![trigger m1[i]]
                0 <= i < m1.len() && (m1[i].id@ == a || cable_producers(m1[i].params).contains(a));
            if i < t {
                assert(m0[i] == m1[i]);
            }
        }
        if graph_node(m0, a) {
            let i = choose|i: int| #![trigger m0[i]]
                0 <= i < m0.len() && (m0[i].id@ == a || cable_producers(m0[i].params).contains(a));
            assert(m1[i] == m0[i]);
        }
        if modules[t].id@ == a || cable_producers(modules[t].params).contains(a) {
            assert(m1[t] == modules[t]);
        }
    }
    assert forall|a: Seq<char>, b: Seq<char>| #[trigger] dep_edge(m1, a, b) <==> (dep_edge(m0, a, b)
        || (modules[t].id@ == a && cable_producers(modules[t].params).contains(b))) by {
        if dep_edge(m1, a, b) {
            let i = choose|i: int| #![trigger m1[i]]
                0 <= i < m1.len() && m1[i].id@ == a && cable_producers(m1[i].params).contains(b);
            if i < t {
                assert(m0[i] == m1[i]);
            }
        }
        if dep_edge(m0, a, b) {
            let i = choose|i: int| #![trigger m0[i]]
                0 <= i < m0.len() && m0[i].id@ == a && cable_producers(m0[i].params).contains(b);
            assert(m1[i] == m0[i]);
        }
        if modules[t].id@ == a && cable_producers(modules[t].params).contains(b) {
            assert(m1[t] == modules[t]);
        }
    }
}

/// Builds the node and edge lists of the dependency graph.
fn build_dependency_graph(modules: &Vec<ModuleState>) -> (r: (Vec<String>, Vec<(usize, usize)>))
    ensures
        describes(modules@, r.0@, r.1@),
{
    let mut nodes: Vec<String> = Vec::new();
    let mut edges: Vec<(usize, usize)> = Vec::new();
    let mut t: usize = 0;
    assert(modules@.take(0) =~= Seq::<ModuleState>::empty());
    while t < modules.len()
        invariant
            t <= modules@.len(),
            describes(modules@.take(t as int), nodes@, edges@),
        decreases modules@.len() - t,
    {
        let ghost mods = modules@.take(t as int);
        let m = &modules[t];
        let ghost nodes0 = nodes@;
        let c = intern(&mut nodes, &m.id);
        let mut producers: Vec<String> = Vec::new();
        collect_cable_producers(&m.params, &mut producers);
        let ghost pv = string_views(producers@);
        proof {
            assert(pv =~= cable_producers(m.params));
            assert(pv.len() == producers@.len());
            assert(pv.take(0) =~= Seq::<Seq<char>>::empty());
            assert forall|i: int| 0 <= i < nodes@.len() implies graph_node(mods, #[trigger] nodes@[i]@)
                || nodes@[i]@ == m.id@ || pv.take(0).contains(nodes@[i]@) by {
                if i < nodes0.len() {
                    assert(nodes@[i] == nodes0[i]);
                }
            }
            assert forall|a: Seq<char>| graph_node(mods, a) || a == m.id@ || pv.take(0).contains(a) implies
                exists|i: int| 0 <= i < nodes@.len() && #[trigger] nodes@[i]@ == a by {
                if a == m.id@ {
                    assert(nodes@[c as int]@ == a);
                } else {
                    let i = choose|i: int| 0 <= i < nodes0.len() && #[trigger] nodes0[i]@ == a;
                    assert(nodes@[i] == nodes0[i]);
                }
            }
            let fresh_c = !(exists|i: int| 0 <= i < nodes0.len() && #[trigger] nodes0[i]@ == m.id@);
            assert forall|i: int, j: int| 0 <= i < nodes@.len() && 0 <= j < nodes@.len() implies
                (idx_edge(edges@, i, j) <==> (dep_edge(mods, #[trigger] nodes@[i]@, #[trigger] nodes@[j]@)
                    || (nodes@[i]@ == m.id@ && pv.take(0).contains(nodes@[j]@)))) by {
                if i < nodes0.len() && j < nodes0.len() {
                    assert(nodes@[i] == nodes0[i] && nodes@[j] == nodes0[j]);
                } else {
                    assert(fresh_c);
                    assert(!idx_edge(edges@, i, j));
                    if dep_edge(mods, nodes@[i]@, nodes@[j]@) {
                        lemma_edge_ends_are_nodes(mods, nodes@[i]@, nodes@[j]@);
                        if i >= nodes0.len() {
                            let k = choose|k: int| 0 <= k < nodes0.len() && #[trigger] nodes0[k]@ == nodes@[i]@;
                        } else {
                            let k = choose|k: int| 0 <= k < nodes0.len() && #[trigger] nodes0[k]@ == nodes@[j]@;
                        }
                    }
                }
            }
            if !(exists|i: int| 0 <= i < nodes0.len() && #[trigger] nodes0[i]@ == m.id@) {
                assert forall|j: int| 0 <= j < nodes@.len() implies !dep_edge(mods, #[trigger] nodes@[c as int]@, nodes@[j]@)
                    && !dep_edge(mods, nodes@[j]@, #[trigger] nodes@[c as int]@) by {
                    if dep_edge(mods, nodes@[c as int]@, nodes@[j]@) {
                        lemma_edge_ends_are_nodes(mods, nodes@[c as int]@, nodes@[j]@);
                    }
                    if dep_edge(mods, nodes@[j]@, nodes@[c as int]@) {
                        lemma_edge_ends_are_nodes(mods, nodes@[j]@, nodes@[c as int]@);
                    }
                }
            }
        }
        let mut u: usize = 0;
        while u < producers.len()
            invariant
                t < modules@.len(),
                m == modules@[t as int],
                mods == modules@.take(t as int),
                pv == string_views(producers@),
                pv == cable_producers(m.params),
                pv.len() == producers@.len(),
                u <= producers@.len(),
                c < nodes@.len(),
                nodes@[c as int]@ == m.id@,
                distinct_views(nodes@),
                forall|i: int| 0 <= i < nodes@.len() ==> graph_node(mods, #[trigger] nodes@[i]@)
                    || nodes@[i]@ == m.id@ || pv.take(u as int).contains(nodes@[i]@),
                forall|a: Seq<char>| #![trigger graph_node(mods, a)] #![trigger pv.take(u as int).contains(a)]
                    graph_node(mods, a) || a == m.id@ || pv.take(u as int).contains(a) ==>
                    exists|i: int| 0 <= i < nodes@.len() && #[trigger] nodes@[i]@ == a,
                edges_within(edges@, nodes@.len() as int),
                forall|i: int, j: int| 0 <= i < nodes@.len() && 0 <= j < nodes@.len() ==>
                    (idx_edge(edges@, i, j) <==> (dep_edge(mods, #[trigger] nodes@[i]@, #[trigger] nodes@[j]@)
                        || (nodes@[i]@ == m.id@ && pv.take(u as int).contains(nodes@[j]@)))),
            decreases producers@.len() - u,
        {
            let ghost nodes1 = nodes@;
            let ghost edges1 = edges@;
            let ghost q = pv[u as int];
            proof {
                assert(pv.take(u + 1) =~= pv.take(u as int).push(q));
                assert(producers@[u as int]@ == q);
                if !(exists|i: int| 0 <= i < nodes1.len() && #[trigger] nodes1[i]@ == q) {
                    assert(!pv.take(u as int).contains(q));
                    assert(!graph_node(mods, q));
                    assert(q != m.id@);
                }
            }
            let p = intern(&mut nodes, &producers[u]);
            proof {
                let fresh = !(exists|i: int| 0 <= i < nodes1.len() && #[trigger] nodes1[i]@ == q);
                if fresh {
                    assert forall|j: int| 0 <= j < nodes@.len() implies
                        !dep_edge(mods, #[trigger] nodes@[p as int]@, nodes@[j]@)
                        && !dep_edge(mods, nodes@[j]@, #[trigger] nodes@[p as int]@) by {
                        if dep_edge(mods, nodes@[p as int]@, nodes@[j]@) {
                            lemma_edge_ends_are_nodes(mods, nodes@[p as int]@, nodes@[j]@);
                        }
                        if dep_edge(mods, nodes@[j]@, nodes@[p as int]@) {
                            lemma_edge_ends_are_nodes(mods, nodes@[j]@, nodes@[p as int]@);
                        }
                    }
                    assert(nodes@[p as int]@ != m.id@);
                    assert(!pv.take(u as int).contains(q));
                }
            }
            edges.push((c, p));
            proof {
                assert(pv.take(u + 1) =~= pv.take(u as int).push(q));
                assert(edges@[edges@.len() - 1] == (c, p));
                assert forall|i: int| 0 <= i < nodes@.len() implies graph_node(mods, #[trigger] nodes@[i]@)
                    || nodes@[i]@ == m.id@ || pv.take(u + 1).contains(nodes@[i]@) by {
                    if i < nodes1.len() {
                        assert(nodes@[i] == nodes1[i]);
                        if pv.take(u as int).contains(nodes1[i]@) {
                            let k = choose|k: int| 0 <= k < pv.take(u as int).len() && pv.take(u as int)[k] == nodes1[i]@;
                            assert(pv.take(u + 1)[k] == nodes1[i]@);
                        }
                    } else {
                        assert(pv.take(u + 1)[u as int] == q);
                    }
                }
                assert forall|a: Seq<char>| #![trigger graph_node(mods, a)] #![trigger pv.take(u + 1).contains(a)]
                    graph_node(mods, a) || a == m.id@ || pv.take(u + 1).contains(a) implies
                    exists|i: int| 0 <= i < nodes@.len() && #[trigger] nodes@[i]@ == a by {
                    if a == q {
                        assert(nodes@[p as int]@ == a);
                    } else if a == m.id@ {
                        assert(nodes@[c as int]@ == a);
                    } else {
                        if !graph_node(mods, a) && a != m.id@ {
                            let pu1 = pv.take(u + 1);
                            let k = choose|k: int| 0 <= k < pu1.len() && pu1[k] == a;
                            assert(pu1[k] == pv[k]);
                            assert(k != u);
                            let pu = pv.take(u as int);
                            assert(pu[k] == pv[k]);
                            assert(pu.contains(a));
                        }
                        let i = choose|i: int| 0 <= i < nodes1.len() && #[trigger] nodes1[i]@ == a;
                        assert(nodes@[i] == nodes1[i]);
                    }
                }
                assert forall|i: int, j: int| 0 <= i < nodes@.len() && 0 <= j < nodes@.len() implies
                    (idx_edge(edges@, i, j) <==> (dep_edge(mods, #[trigger] nodes@[i]@, #[trigger] nodes@[j]@)
                        || (nodes@[i]@ == m.id@ && pv.take(u + 1).contains(nodes@[j]@)))) by {
                    let old_edge = idx_edge(edges1, i, j);
                    assert(idx_edge(edges@, i, j) <==> (old_edge || (i == c && j == p))) by {
                        if idx_edge(edges@, i, j) {
                            let k = choose|k: int| #![trigger edges@[k]] 0 <= k < edges@.len() && edges@[k].0 == i && edges@[k].1 == j;
                            if k < edges1.len() {
                                assert(edges1[k] == edges@[k]);
                            }
                        }
                        if old_edge {
                            let k = choose|k: int| #![trigger edges1[k]] 0 <= k < edges1.len() && edges1[k].0 == i && edges1[k].1 == j;
                            assert(edges@[k] == edges1[k]);
                        }
                    }
                    assert((i == c) <==> (nodes@[i]@ == m.id@));
                    assert((j == p) <==> (nodes@[j]@ == q));
                    if pv.take(u + 1).contains(nodes@[j]@) && nodes@[j]@ != q {
                        let pu1 = pv.take(u + 1);
                        let k = choose|k: int| 0 <= k < pu1.len() && pu1[k] == nodes@[j]@;
                        assert(pv.take(u as int)[k] == nodes@[j]@);
                    }
                    if pv.take(u as int).contains(nodes@[j]@) {
                        let k = choose|k: int| 0 <= k < pv.take(u as int).len() && pv.take(u as int)[k] == nodes@[j]@;
                        assert(pv.take(u + 1)[k] == nodes@[j]@);
                    }
                    assert(pv.take(u + 1)[u as int] == q);
                    assert(pv.take(u + 1).contains(nodes@[j]@) <==> (pv.take(u as int).contains(nodes@[j]@) || nodes@[j]@ == q));
                    assert((nodes@[i]@ == m.id@ && pv.take(u + 1).contains(nodes@[j]@)) <==>
                        ((nodes@[i]@ == m.id@ && pv.take(u as int).contains(nodes@[j]@)) || (i == c && j == p)));
                    if i < nodes1.len() && j < nodes1.len() {
                        assert(nodes@[i] == nodes1[i] && nodes@[j] == nodes1[j]);
                        assert(nodes1[i]@ == nodes@[i]@ && nodes1[j]@ == nodes@[j]@);
                        assert(old_edge <==> (dep_edge(mods, nodes1[i]@, nodes1[j]@)
                            || (nodes1[i]@ == m.id@ && pv.take(u as int).contains(nodes1[j]@))));
                    } else {
                        assert(!old_edge);
                        assert(nodes@.len() == nodes1.len() + 1);
                        assert(p as int == nodes1.len());
                        assert(!dep_edge(mods, nodes@[i]@, nodes@[j]@));
                        if i == p {
                            assert(i != c);
                        }
                    }
                }
            }
            u = u + 1;
            proof {
                assert forall|a: Seq<char>| #![trigger graph_node(mods, a)] #![trigger pv.take(u as int).contains(a)]
                    graph_node(mods, a) || a == m.id@ || pv.take(u as int).contains(a) implies
                    exists|i: int| 0 <= i < nodes@.len() && #[trigger] nodes@[i]@ == a by {
                    if graph_node(mods, a) {
                    } else if pv.take(u as int).contains(a) {
                    } else {
                        assert(nodes@[c as int]@ == a);
                    }
                }
            }
        }
        proof {
            lemma_take_step(modules@, t as int);
            assert(pv.take(pv.len() as int) =~= pv);
            let mods1 = modules@.take(t + 1);
            assert(pv.take(u as int) =~= pv);
            assert forall|i: int| 0 <= i < nodes@.len() implies graph_node(mods1, #[trigger] nodes@[i]@) by {
                assert(graph_node(mods, nodes@[i]@) || nodes@[i]@ == m.id@ || pv.contains(nodes@[i]@));
            }
            assert forall|a: Seq<char>| graph_node(mods1, a) implies exists|i: int| 0 <= i < nodes@.len() && #[trigger] nodes@[i]@ == a by {
                assert(graph_node(mods, a) || a == m.id@ || pv.take(pv.len() as int).contains(a));
            }
            assert forall|i: int, j: int| 0 <= i < nodes@.len() && 0 <= j < nodes@.len() implies
                (idx_edge(edges@, i, j) <==> dep_edge(mods1, #[trigger] nodes@[i]@, #[trigger] nodes@[j]@)) by {
                assert(dep_edge(mods1, nodes@[i]@, nodes@[j]@) <==> (dep_edge(mods, nodes@[i]@, nodes@[j]@)
                    || (nodes@[i]@ == m.id@ && pv.contains(nodes@[j]@))));
            }
        }
        t = t + 1;
    }
    proof {
        assert(modules@.take(modules@.len() as int) =~= modules@);
    }
    (nodes, edges)
}


/// Index of the node named `a`.
spec fn node_index(nodes: Seq<String>, a: Seq<char>) -> int {
    choose|i: int| 0 <= i < nodes.len() && #[trigger] nodes[i]@ == a
}

/// On a described graph, a node reaches itself by one or more index edges
/// exactly when its module lies on a dependency cycle.
proof fn lemma_cycle_iff_reach(modules: Seq<ModuleState>, nodes: Seq<String>, edges: Seq<(usize, usize)>, v: int)
    requires
        describes(modules, nodes, edges),
        0 <= v < nodes.len(),
    ensures
        reach_plus(edges, v, v) <==> on_cycle(modules, nodes[v]@),
{
    if reach_plus(edges, v, v) {
        let w = choose|w: Seq<int>| #![trigger is_idx_walk(edges, w)]
            w.len() >= 2 && w[0] == v && w[w.len() - 1] == v && is_idx_walk(edges, w);
        assert forall|k: int| 0 <= k < w.len() implies 0 <= #[trigger] w[k] < nodes.len() by {
            if k > 0 {
                assert(idx_step(edges, w, k - 1));
                let e = choose|e: int| #![trigger edges[e]] 0 <= e < edges.len() && edges[e].0 == w[k - 1] && edges[e].1 == w[k];
            }
        }
        let big = Seq::new(w.len(), |k: int| nodes[w[k]]@);
        assert forall|k: int| 0 <= k < big.len() - 1 implies #[trigger] dep_step(modules, big, k) by {
            assert(idx_step(edges, w, k));
            assert(0 <= w[k] < nodes.len() && 0 <= w[k + 1] < nodes.len());
            assert(idx_edge(edges, w[k], w[k + 1]));
            assert(dep_edge(modules, nodes[w[k]]@, nodes[w[k + 1]]@));
        }
        assert(is_dep_walk(modules, big));
        assert(big[0] == nodes[v]@ && big[big.len() - 1] == nodes[v]@);
    }
    if on_cycle(modules, nodes[v]@) {
        let big = choose|w: Seq<Seq<char>>| #![trigger is_dep_walk(modules, w)]
            w.len() >= 2 && w[0] == nodes[v]@ && w[w.len() - 1] == nodes[v]@ && is_dep_walk(modules, w);
        assert forall|k: int| 0 <= k < big.len() implies graph_node(modules, #[trigger] big[k]) by {
            if k < big.len() - 1 {
                assert(dep_step(modules, big, k));
                lemma_edge_ends_are_nodes(modules, big[k], big[k + 1]);
            } else {
                assert(dep_step(modules, big, k - 1));
                lemma_edge_ends_are_nodes(modules, big[k - 1], big[k]);
            }
        }
        let w = Seq::new(big.len(), |k: int| node_index(nodes, big[k]));
        assert forall|k: int| 0 <= k < big.len() implies 0 <= #[trigger] w[k] < nodes.len() && nodes[w[k]]@ == big[k] by {
            assert(graph_node(modules, big[k]));
        }
        assert(w[0] == v) by {
            assert(nodes[w[0]]@ == nodes[v]@);
        }
        assert(w[w.len() - 1] == v) by {
            assert(nodes[w[w.len() - 1]]@ == nodes[v]@);
        }
        assert forall|k: int| 0 <= k < w.len() - 1 implies #[trigger] idx_step(edges, w, k) by {
            assert(dep_step(modules, big, k));
            assert(0 <= w[k] < nodes.len() && nodes[w[k]]@ == big[k]);
            assert(0 <= w[k + 1] < nodes.len() && nodes[w[k + 1]]@ == big[k + 1]);
            assert(dep_edge(modules, nodes[w[k]]@, nodes[w[k + 1]]@));
        }
        assert(is_idx_walk(edges, w));
    }
}

/// `a` is the id of one of the modules.
pub open spec fn is_module_id(modules: Seq<ModuleState>, a: Seq<char>) -> bool {
    exists|i: int| 0 <= i < modules.len() && (#[trigger] modules[i]).id@ == a
}

/// Whether one of the modules has the id `id`.
fn has_module_id(modules: &Vec<ModuleState>, id: &String) -> (r: bool)
    ensures
        r == is_module_id(modules@, id@),
{
    let mut i: usize = 0;
    while i < modules.len()
        invariant
            i <= modules@.len(),
            forall|j: int| 0 <= j < i ==> (#[trigger] modules@[j]).id@ != id@,
        decreases modules@.len() - i,
    {
        if str_eq(modules[i].id.as_str(), id.as_str()) {
            return true;
        }
        i = i + 1;
    }
    false
}

/// Assigns each module of the patch its processing mode.
///
/// The result has one entry per module id of the patch, each id once; ids
/// that cables read from but that name no module get no entry. A module is
/// processed per sample exactly when it lies on a dependency cycle, per
/// block otherwise.
pub fn classify_modules(graph: &PatchGraph) -> (r: Vec<(String, ProcessingMode)>)
    ensures
        forall|i: int, j: int| 0 <= i < r@.len() && 0 <= j < r@.len() && i != j ==> r@[i].0@ != r@[j].0@,
        forall|k: int| 0 <= k < r@.len() ==> is_module_id(graph.modules@, (#[trigger] r@[k]).0@)
            && r@[k].1 == spec_mode(graph.modules@, r@[k].0@),
        forall|a: Seq<char>| is_module_id(graph.modules@, a) ==> exists|k: int| 0 <= k < r@.len() && (#[trigger] r@[k]).0@ == a,
{
    let (nodes, edges) = build_dependency_graph(&graph.modules);
    let ghost modules = graph.modules@;
    let n = nodes.len();
    let mut out: Vec<(String, ProcessingMode)> = Vec::new();
    let mut v: usize = 0;
    while v < n
        invariant
            n == nodes@.len(),
            v <= n,
            describes(modules, nodes@, edges@),
            modules == graph.modules@,
            forall|k: int| 0 <= k < out@.len() ==> exists|j: int| 0 <= j < v && #[trigger] nodes@[j]@ == (#[trigger] out@[k]).0@,
            forall|k: int| 0 <= k < out@.len() ==> is_module_id(modules, (#[trigger] out@[k]).0@)
                && out@[k].1 == spec_mode(modules, out@[k].0@),
            forall|i: int, j: int| 0 <= i < out@.len() && 0 <= j < out@.len() && i != j ==> out@[i].0@ != out@[j].0@,
            forall|j: int| 0 <= j < v && is_module_id(modules, (#[trigger] nodes@[j])@) ==>
                exists|k: int| 0 <= k < out@.len() && (#[trigger] out@[k]).0@ == nodes@[j]@,
        decreases n - v,
    {
        if has_module_id(&graph.modules, &nodes[v]) {
            let visited = reachable_from(n, &edges, v);
            proof {
                lemma_cycle_iff_reach(modules, nodes@, edges@, v as int);
            }
            let mode = if visited[v] { ProcessingMode::Sample } else { ProcessingMode::Block };
            let ghost before = out@;
            out.push((nodes[v].clone(), mode));
            proof {
                assert(out@[before.len() as int].0@ == nodes@[v as int]@);
                assert forall|k: int| 0 <= k < out@.len() implies exists|j: int| 0 <= j < v + 1 && #[trigger] nodes@[j]@ == (#[trigger] out@[k]).0@ by {
                    if k < before.len() {
                        assert(out@[k] == before[k]);
                        let j = choose|j: int| 0 <= j < v && #[trigger] nodes@[j]@ == before[k].0@;
                        assert(nodes@[j]@ == out@[k].0@);
                    } else {
                        assert(nodes@[v as int]@ == out@[k].0@);
                    }
                }
                assert forall|i: int, j: int| 0 <= i < out@.len() && 0 <= j < out@.len() && i != j implies out@[i].0@ != out@[j].0@ by {
                    if i < before.len() && j < before.len() {
                        assert(out@[i] == before[i] && out@[j] == before[j]);
                    } else if i < before.len() {
                        assert(out@[i] == before[i]);
                        let t = choose|t: int| 0 <= t < v && #[trigger] nodes@[t]@ == before[i].0@;
                        assert(t != v);
                    } else if j < before.len() {
                        assert(out@[j] == before[j]);
                        let t = choose|t: int| 0 <= t < v && #[trigger] nodes@[t]@ == before[j].0@;
                        assert(t != v);
                    }
                }
                assert forall|k: int| 0 <= k < out@.len() implies is_module_id(modules, (#[trigger] out@[k]).0@)
                    && out@[k].1 == spec_mode(modules, out@[k].0@) by {
                    if k < before.len() {
                        assert(out@[k] == before[k]);
                    }
                }
                assert forall|j: int| 0 <= j < v + 1 && is_module_id(modules, (#[trigger] nodes@[j])@) implies
                    exists|k: int| 0 <= k < out@.len() && (#[trigger] out@[k]).0@ == nodes@[j]@ by {
                    if j < v {
                        let k = choose|k: int| 0 <= k < before.len() && #[trigger] before[k].0@ == nodes@[j]@;
                        assert(out@[k] == before[k]);
                    } else {
                        assert(out@[before.len() as int].0@ == nodes@[j]@);
                    }
                }
            }
        }
        v = v + 1;
    }
    proof {
        assert forall|a: Seq<char>| is_module_id(modules, a) implies exists|k: int| 0 <= k < out@.len() && (#[trigger] out@[k]).0@ == a by {
            let m = choose|m: int| 0 <= m < modules.len() && (#[trigger] modules[m]).id@ == a;
            assert(graph_node(modules, a)) by {
                assert(modules[m].id@ == a);
            }
            let i = choose|i: int| 0 <= i < nodes@.len() && #[trigger] nodes@[i]@ == a;
            assert(is_module_id(modules, nodes@[i]@));
        }
    }
    out
}

/// A cable in any param of a module makes that module read from the
/// cable's module, whichever member holds it.
pub proof fn lemma_cable_param_is_edge(modules: Seq<ModuleState>, ia: int, pa: Vec<(String, JsonValue)>, ja: int, producer: Seq<char>)
    requires
        0 <= ia < modules.len(),
        modules[ia].params == JsonValue::Object(pa),
        !is_cable_object(pa@),
        0 <= ja < pa@.len(),
        pa@[ja].1 matches JsonValue::Object(c) && is_cable_object(c@) && member_str(c@, "module"@) == Some(producer),
    ensures
        dep_edge(modules, modules[ia].id@, producer),
{
    reveal_strlit("module");
    let c = pa@[ja].1->Object_0;
    assert("module"@ =~= seq!['m', 'o', 'd', 'u', 'l', 'e']);
    assert(cable_producers(pa@[ja].1) =~= seq![producer]);
    lemma_member_producers_found(pa, ja);
    let all = cable_producers(modules[ia].params);
    let k = choose|k: int| 0 <= k && k + 1 <= all.len() && #[trigger] all.subrange(k, k + 1) == seq![producer];
    assert(all.subrange(k, k + 1)[0] == all[k]);
    assert(all.contains(producer));
    assert(modules[ia].id@ == modules[ia].id@);
}

/// Two modules that read each other through cables, in any of their
/// params, form a feedback cycle: both are processed per sample.
pub proof fn lemma_mutual_cables_are_sample(
    modules: Seq<ModuleState>,
    ia: int,
    pa: Vec<(String, JsonValue)>,
    ja: int,
    ib: int,
    pb: Vec<(String, JsonValue)>,
    jb: int,
)
    requires
        0 <= ia < modules.len(),
        0 <= ib < modules.len(),
        modules[ia].params == JsonValue::Object(pa),
        modules[ib].params == JsonValue::Object(pb),
        !is_cable_object(pa@),
        !is_cable_object(pb@),
        0 <= ja < pa@.len(),
        0 <= jb < pb@.len(),
        pa@[ja].1 matches JsonValue::Object(c) && is_cable_object(c@) && member_str(c@, "module"@) == Some(modules[ib].id@),
        pb@[jb].1 matches JsonValue::Object(c) && is_cable_object(c@) && member_str(c@, "module"@) == Some(modules[ia].id@),
    ensures
        spec_mode(modules, modules[ia].id@) == ProcessingMode::Sample,
        spec_mode(modules, modules[ib].id@) == ProcessingMode::Sample,
{
    let a = modules[ia].id@;
    let b = modules[ib].id@;
    lemma_cable_param_is_edge(modules, ia, pa, ja, b);
    lemma_cable_param_is_edge(modules, ib, pb, jb, a);
    let wa = seq![a, b, a];
    assert forall|k: int| 0 <= k < wa.len() - 1 implies #[trigger] dep_step(modules, wa, k) by {
        if k == 0 {
            assert(wa[0] == a && wa[1] == b);
        } else {
            assert(wa[1] == b && wa[2] == a);
        }
    }
    assert(is_dep_walk(modules, wa));
    assert(on_cycle(modules, a));
    let wb = seq![b, a, b];
    assert forall|k: int| 0 <= k < wb.len() - 1 implies #[trigger] dep_step(modules, wb, k) by {
        if k == 0 {
            assert(wb[0] == b && wb[1] == a);
        } else {
            assert(wb[1] == a && wb[2] == b);
        }
    }
    assert(is_dep_walk(modules, wb));
    assert(on_cycle(modules, b));
}

} // verus!
