//! Queries over the performance log the engine writes: which entries a
//! filter selects, per-module-type totals, and orderings by time. Reading
//! the log file and printing are the command-line tool's work; these
//! functions answer with positions into the entries they are given.

use vstd::prelude::*;
use crate::text::{contains_seq, contains_str, starts_with};

verus! {

/// The numbers and names of one log entry.
pub struct PerfSample {
    pub ts: u64,
    pub module_id: String,
    pub module_type: String,
    pub count: u64,
    pub total_ns: u64,
    pub avg_ns: u64,
    pub min_ns: u64,
    pub max_ns: u64,
}

/// A filter of the `query` command: a module type substring, a module id
/// prefix and a least average time, each optional.
pub struct PerfQuery {
    pub module_type: Option<String>,
    pub module_id: Option<String>,
    pub min_avg: Option<u64>,
}

/// The entry passes the filter.
pub open spec fn selects(q: PerfQuery, e: PerfSample) -> bool {
    &&& match q.module_type {
        Some(t) => contains_seq(e.module_type@, t@),
        None => true,
    }
    &&& match q.module_id {
        Some(p) => p@.len() <= e.module_id@.len() && e.module_id@.subrange(0, p@.len() as int) == p@,
        None => true,
    }
    &&& match q.min_avg {
        Some(m) => e.avg_ns >= m,
        None => true,
    }
}

/// The places of the selected entries among the first `k`, in order.
pub open spec fn selected(q: PerfQuery, entries: Seq<PerfSample>, k: int) -> Seq<usize>
    decreases k,
{
    if k <= 0 {
        Seq::empty()
    } else if selects(q, entries[k - 1]) {
        selected(q, entries, k - 1).push((k - 1) as usize)
    } else {
        selected(q, entries, k - 1)
    }
}

/// Whether the entry passes the filter.
pub fn entry_selected(q: &PerfQuery, e: &PerfSample) -> (r: bool)
    ensures
        r == selects(*q, *e),
{
    let type_ok = match &q.module_type {
        Some(t) => contains_str(e.module_type.as_str(), t.as_str()),
        None => true,
    };
    let id_ok = match &q.module_id {
        Some(p) => starts_with(e.module_id.as_str(), p.as_str()),
        None => true,
    };
    let avg_ok = match q.min_avg {
        Some(m) => e.avg_ns >= m,
        None => true,
    };
    type_ok && id_ok && avg_ok
}

/// The places of the first `limit` entries the filter selects, in order.
pub fn query_entries(entries: &Vec<PerfSample>, q: &PerfQuery, limit: usize) -> (r: Vec<usize>)
    ensures
        r@ == selected(*q, entries@, entries@.len() as int).take(
            if limit < selected(*q, entries@, entries@.len() as int).len() { limit as int } else {
                selected(*q, entries@, entries@.len() as int).len() as int
            },
        ),
{
    let mut all: Vec<usize> = Vec::new();
    let mut i: usize = 0;
    while i < entries.len()
        invariant
            i <= entries@.len(),
            all@ == selected(*q, entries@, i as int),
        decreases entries@.len() - i,
    {
        if entry_selected(q, &entries[i]) {
            all.push(i);
        }
        i = i + 1;
    }
    let n = if limit < all.len() { limit } else { all.len() };
    let mut r: Vec<usize> = Vec::new();
    let mut k: usize = 0;
    while k < n
        invariant
            n <= all@.len(),
            k <= n,
            r@ == all@.take(k as int),
        decreases n - k,
    {
        r.push(all[k]);
        k = k + 1;
        assert(r@ =~= all@.take(k as int));
    }
    r
}

/// Where the last `lines` entries start.
pub fn tail_start(len: usize, lines: usize) -> (r: usize)
    ensures
        r == (if len > lines { len - lines } else { 0 }),
{
    len.saturating_sub(lines)
}

/// Totals of one module type.
pub struct TypeStats {
    pub module_type: String,
    pub total_ns: u64,
    pub count: u64,
    pub min_ns: u64,
    pub max_ns: u64,
    /// Number of log entries (time periods).
    pub periods: u64,
}

/// The average time of a call: total over count, 0 without calls.
pub open spec fn average(total_ns: u64, count: u64) -> u64 {
    if count > 0 { (total_ns / count) as u64 } else { 0 }
}

/// The average time of a call of a module type.
pub fn type_average(s: &TypeStats) -> (r: u64)
    ensures
        r == average(s.total_ns, s.count),
{
    if s.count > 0 { s.total_ns / s.count } else { 0 }
}

/// Totals as numbers: (type, total, count, min, max, periods).
pub type Totals = (Seq<char>, int, int, int, int, int);

/// The place of the totals of `t` in `groups`.
pub open spec fn group_of(groups: Seq<Totals>, t: Seq<char>) -> Option<int>
    decreases groups.len(),
{
    if groups.len() == 0 {
        None
    } else {
        match group_of(groups.drop_last(), t) {
            Some(i) => Some(i),
            None => if groups.last().0 == t { Some(groups.len() - 1) } else { None },
        }
    }
}

/// The totals after the first `k` entries, one group per module type in
/// the order the types first appear.
pub open spec fn totals(entries: Seq<PerfSample>, k: int) -> Seq<Totals>
    decreases k,
{
    if k <= 0 {
        Seq::empty()
    } else {
        let g = totals(entries, k - 1);
        let e = entries[k - 1];
        match group_of(g, e.module_type@) {
            Some(i) => g.update(i, (
                g[i].0,
                g[i].1 + e.total_ns,
                g[i].2 + e.count,
                if e.min_ns < g[i].3 { e.min_ns as int } else { g[i].3 },
                if e.max_ns > g[i].4 { e.max_ns as int } else { g[i].4 },
                g[i].5 + 1,
            )),
            None => g.push((e.module_type@, e.total_ns as int, e.count as int, e.min_ns as int, e.max_ns as int, 1)),
        }
    }
}

/// The sums over the first `k` entries.
pub open spec fn sum_total(entries: Seq<PerfSample>, k: int) -> int
    decreases k,
{
    if k <= 0 { 0 } else { sum_total(entries, k - 1) + entries[k - 1].total_ns }
}

pub open spec fn sum_count(entries: Seq<PerfSample>, k: int) -> int
    decreases k,
{
    if k <= 0 { 0 } else { sum_count(entries, k - 1) + entries[k - 1].count }
}

pub open spec fn stats_view(s: TypeStats) -> Totals {
    (s.module_type@, s.total_ns as int, s.count as int, s.min_ns as int, s.max_ns as int, s.periods as int)
}

pub open spec fn stats_seq(s: Seq<TypeStats>) -> Seq<Totals> {
    s.map_values(|x: TypeStats| stats_view(x))
}

proof fn lemma_group_prefix(groups: Seq<Totals>, t: Seq<char>, k: int)
    requires
        0 <= k <= groups.len(),
        group_of(groups.take(k), t) is Some,
    ensures
        group_of(groups, t) == group_of(groups.take(k), t),
    decreases groups.len() - k,
{
    if k < groups.len() {
        assert(groups.take(k + 1).drop_last() =~= groups.take(k));
        lemma_group_prefix(groups, t, k + 1);
    } else {
        assert(groups.take(k) =~= groups);
    }
}

proof fn lemma_group_bounds(groups: Seq<Totals>, t: Seq<char>)
    ensures
        group_of(groups, t) matches Some(i) ==> 0 <= i < groups.len() && groups[i].0 == t,
    decreases groups.len(),
{
    if groups.len() > 0 {
        lemma_group_bounds(groups.drop_last(), t);
    }
}

fn find_group(stats: &Vec<TypeStats>, t: &str) -> (r: Option<usize>)
    ensures
        match r {
            Some(i) => group_of(stats_seq(stats@), t@) == Some(i as int) && i < stats@.len(),
            None => group_of(stats_seq(stats@), t@) is None,
        },
{
    let ghost g = stats_seq(stats@);
    let mut i: usize = 0;
    while i < stats.len()
        invariant
            g == stats_seq(stats@),
            g.len() == stats@.len(),
            i <= stats@.len(),
            group_of(g.take(i as int), t@) is None,
        decreases stats@.len() - i,
    {
        assert(g.take(i + 1).drop_last() =~= g.take(i as int));
        assert(g[i as int].0 == stats@[i as int].module_type@);
        if crate::text::str_eq(stats[i].module_type.as_str(), t) {
            proof {
                lemma_group_prefix(g, t@, i + 1);
            }
            return Some(i);
        }
        i = i + 1;
    }
    assert(g.take(i as int) =~= g);
    None
}

proof fn lemma_sums_grow(entries: Seq<PerfSample>, k: int, n: int)
    requires
        0 <= k <= n <= entries.len(),
    ensures
        sum_total(entries, k) <= sum_total(entries, n),
        sum_count(entries, k) <= sum_count(entries, n),
    decreases n - k,
{
    if k < n {
        lemma_sums_grow(entries, k, n - 1);
    }
}

/// Totals per module type, in the order the types first appear: the sum
/// of the times and calls, the least and greatest single call, and the
/// number of entries.
pub fn aggregate_by_type(entries: &Vec<PerfSample>) -> (r: Vec<TypeStats>)
    requires
        sum_total(entries@, entries@.len() as int) <= u64::MAX,
        sum_count(entries@, entries@.len() as int) <= u64::MAX,
    ensures
        stats_seq(r@) == totals(entries@, entries@.len() as int),
{
    let n = entries.len();
    let mut stats: Vec<TypeStats> = Vec::new();
    let mut i: usize = 0;
    while i < n
        invariant
            n == entries@.len(),
            i <= n,
            sum_total(entries@, n as int) <= u64::MAX,
            sum_count(entries@, n as int) <= u64::MAX,
            stats_seq(stats@) == totals(entries@, i as int),
            forall|g: int| 0 <= g < stats@.len() ==> (#[trigger] stats@[g]).total_ns <= sum_total(entries@, i as int)
                && stats@[g].count <= sum_count(entries@, i as int) && stats@[g].periods <= i,
        decreases n - i,
    {
        let e = &entries[i];
        proof {
            lemma_sums_grow(entries@, i + 1, n as int);
        }
        let ghost before = stats@;
        assert(forall|g: int| 0 <= g < before.len() ==> (#[trigger] before[g]).total_ns <= sum_total(entries@, i as int)
                && before[g].count <= sum_count(entries@, i as int) && before[g].periods <= i);
        match find_group(&stats, e.module_type.as_str()) {
            Some(g) => {
                let old_s = &stats[g];
                let s = TypeStats {
                    module_type: old_s.module_type.clone(),
                    total_ns: old_s.total_ns + e.total_ns,
                    count: old_s.count + e.count,
                    min_ns: if e.min_ns < old_s.min_ns { e.min_ns } else { old_s.min_ns },
                    max_ns: if e.max_ns > old_s.max_ns { e.max_ns } else { old_s.max_ns },
                    periods: old_s.periods + 1,
                };
                stats.set(g, s);
                proof {
                    assert(stats_seq(stats@) =~= totals(entries@, i + 1));
                    assert forall|h: int| 0 <= h < stats@.len() implies (#[trigger] stats@[h]).total_ns <= sum_total(entries@, i + 1)
                        && stats@[h].count <= sum_count(entries@, i + 1) && stats@[h].periods <= i + 1 by {
                        if h != g {
                            assert(stats@[h] == before[h]);
                        } else {
                            let b = before[h];
                            assert(b.total_ns <= sum_total(entries@, i as int));
                            assert(b.count <= sum_count(entries@, i as int));
                            assert(sum_total(entries@, i + 1) == sum_total(entries@, i as int) + entries@[i as int].total_ns);
                            assert(sum_count(entries@, i + 1) == sum_count(entries@, i as int) + entries@[i as int].count);
                            assert(stats@[h].total_ns == b.total_ns + entries@[i as int].total_ns);
                            assert(stats@[h].count == b.count + entries@[i as int].count);
                            assert(stats@[h].periods == b.periods + 1);
                        }
                    }
                }
            },
            None => {
                stats.push(TypeStats {
                    module_type: e.module_type.clone(),
                    total_ns: e.total_ns,
                    count: e.count,
                    min_ns: e.min_ns,
                    max_ns: e.max_ns,
                    periods: 1,
                });
                proof {
                    assert(stats_seq(stats@) =~= totals(entries@, i + 1));
                    assert forall|h: int| 0 <= h < stats@.len() implies (#[trigger] stats@[h]).total_ns <= sum_total(entries@, i + 1)
                        && stats@[h].count <= sum_count(entries@, i + 1) && stats@[h].periods <= i + 1 by {
                        lemma_sums_grow(entries@, 0, i as int);
                        if h < before.len() {
                            assert(stats@[h] == before[h]);
                        }
                    }
                }
            },
        }
        i = i + 1;
    }
    stats
}

/// `order` lists the places `0..keys.len()` each once, largest key first,
/// and places with equal keys in their own order.
pub open spec fn ordered_desc(keys: Seq<u64>, order: Seq<usize>) -> bool {
    &&& order.len() == keys.len()
    &&& forall|i: int| 0 <= i < order.len() ==> (#[trigger] order[i]) < keys.len()
    &&& forall|i: int, j: int| 0 <= i < j < order.len() ==> #[trigger] order[i] != #[trigger] order[j]
    &&& forall|i: int, j: int| 0 <= i < j < order.len() ==> keys[#[trigger] order[i] as int] > keys[#[trigger] order[j] as int]
        || (keys[order[i] as int] == keys[order[j] as int] && order[i] < order[j])
}

/// The places of `keys`, largest key first; equal keys keep their order.
pub fn order_desc(keys: &Vec<u64>) -> (r: Vec<usize>)
    ensures
        ordered_desc(keys@, r@),
{
    let n = keys.len();
    let mut order: Vec<usize> = Vec::new();
    let mut k: usize = 0;
    while k < n
        invariant
            n == keys@.len(),
            k <= n,
            ordered_desc(keys@.take(k as int), order@),
            forall|i: int| 0 <= i < order@.len() ==> (#[trigger] order@[i]) < k,
        decreases n - k,
    {
        let key = keys[k];
        let mut p: usize = 0;
        while p < order.len() && keys[order[p]] >= key
            invariant
                n == keys@.len(),
                k < n,
                p <= order@.len(),
                forall|i: int| 0 <= i < order@.len() ==> (#[trigger] order@[i]) < k,
                forall|i: int| 0 <= i < p ==> keys@[#[trigger] order@[i] as int] >= key,
            decreases order@.len() - p,
        {
            p = p + 1;
        }
        let ghost before = order@;
        order.insert(p, k);
        proof {
            let ks = keys@.take(k + 1);
            let after = order@;
            assert(after =~= before.insert(p as int, k));
            assert forall|i: int| 0 <= i < after.len() implies (#[trigger] after[i]) < k + 1 by {
                if i < p {
                    assert(after[i] == before[i]);
                } else if i > p {
                    assert(after[i] == before[i - 1]);
                }
            }
            assert forall|i: int| 0 <= i < after.len() implies (#[trigger] after[i]) < ks.len() by {
                if i < p {
                    assert(after[i] == before[i]);
                } else if i > p {
                    assert(after[i] == before[i - 1]);
                }
            }
            assert forall|a: int, b: int| 0 <= a < b < after.len() implies #[trigger] after[a] != #[trigger] after[b] by {
                if a < p && b < p {
                    assert(after[a] == before[a] && after[b] == before[b]);
                } else if a < p && b == p {
                    assert(after[a] == before[a]);
                } else if a < p {
                    assert(after[a] == before[a] && after[b] == before[b - 1]);
                } else if a == p {
                    assert(after[b] == before[b - 1]);
                } else {
                    assert(after[a] == before[a - 1] && after[b] == before[b - 1]);
                }
            }
            assert forall|a: int, b: int| 0 <= a < b < after.len() implies ks[#[trigger] after[a] as int] > ks[#[trigger] after[b] as int]
                || (ks[after[a] as int] == ks[after[b] as int] && after[a] < after[b]) by {
                let kp = keys@.take(k as int);
                if a < p && b < p {
                    assert(after[a] == before[a] && after[b] == before[b]);
                    assert(kp[before[a] as int] == ks[before[a] as int]);
                    assert(kp[before[b] as int] == ks[before[b] as int]);
                } else if a < p && b == p {
                    assert(after[a] == before[a]);
                } else if a < p {
                    assert(after[a] == before[a] && after[b] == before[b - 1]);
                    assert(kp[before[a] as int] == ks[before[a] as int]);
                    assert(kp[before[b - 1] as int] == ks[before[b - 1] as int]);
                } else if a == p {
                    assert(after[b] == before[b - 1]);
                    if p < before.len() {
                        assert(keys@[before[p as int] as int] < key);
                        if b - 1 > p {
                            assert(kp[before[p as int] as int] == ks[before[p as int] as int]);
                            assert(kp[before[b - 1] as int] == ks[before[b - 1] as int]);
                        }
                    }
                } else {
                    assert(after[a] == before[a - 1] && after[b] == before[b - 1]);
                    assert(kp[before[a - 1] as int] == ks[before[a - 1] as int]);
                    assert(kp[before[b - 1] as int] == ks[before[b - 1] as int]);
                }
            }
        }
        k = k + 1;
    }
    assert(keys@.take(n as int) =~= keys@);
    order
}

} // verus!
