//! Short listings of module ids for diagnostics: the ids in string order,
//! at most a given number of them, with a count of the rest.

use vstd::prelude::*;
use crate::text::{decimal, push_decimal, str_eq};

verus! {

/// String order: by character code, a proper prefix first.
pub open spec fn lex_lt(a: Seq<char>, b: Seq<char>) -> bool
    decreases a.len(),
{
    if a.len() == 0 {
        b.len() > 0
    } else if b.len() == 0 {
        false
    } else if (a[0] as int) < (b[0] as int) {
        true
    } else if a[0] == b[0] {
        lex_lt(a.drop_first(), b.drop_first())
    } else {
        false
    }
}

/// No string comes before itself.
pub proof fn lemma_lex_irreflexive(a: Seq<char>)
    ensures
        !lex_lt(a, a),
    decreases a.len(),
{
    if a.len() > 0 {
        lemma_lex_irreflexive(a.drop_first());
    }
}

/// String order is transitive.
pub proof fn lemma_lex_transitive(a: Seq<char>, b: Seq<char>, c: Seq<char>)
    requires
        lex_lt(a, b),
        lex_lt(b, c),
    ensures
        lex_lt(a, c),
    decreases a.len(),
{
    if a.len() > 0 && b.len() > 0 && c.len() > 0 && a[0] == b[0] && b[0] == c[0] {
        lemma_lex_transitive(a.drop_first(), b.drop_first(), c.drop_first());
    }
}

/// Of two different strings, one comes first.
pub proof fn lemma_lex_total(a: Seq<char>, b: Seq<char>)
    requires
        a != b,
    ensures
        lex_lt(a, b) || lex_lt(b, a),
    decreases a.len(),
{
    if a.len() > 0 && b.len() > 0 && a[0] == b[0] {
        if a.drop_first() == b.drop_first() {
            assert(a =~= seq![a[0]] + a.drop_first());
            assert(b =~= seq![b[0]] + b.drop_first());
        }
        lemma_lex_total(a.drop_first(), b.drop_first());
    } else if a.len() > 0 && b.len() > 0 {
        assert((a[0] as int) != (b[0] as int));
    } else if a.len() == 0 && b.len() == 0 {
        assert(a =~= b);
    }
}

/// Whether `a` comes before `b` in string order.
pub fn str_lt(a: &str, b: &str) -> (r: bool)
    ensures
        r == lex_lt(a@, b@),
{
    let n = a.unicode_len();
    let m = b.unicode_len();
    let mut i: usize = 0;
    assert(a@.skip(0) =~= a@);
    assert(b@.skip(0) =~= b@);
    while i < n && i < m
        invariant
            n == a@.len(),
            m == b@.len(),
            i <= n,
            i <= m,
            lex_lt(a@, b@) == lex_lt(a@.skip(i as int), b@.skip(i as int)),
        decreases n - i,
    {
        let x = a.get_char(i);
        let y = b.get_char(i);
        assert(a@.skip(i as int)[0] == x);
        assert(b@.skip(i as int)[0] == y);
        if (x as u32) < (y as u32) {
            return true;
        }
        if x != y {
            return false;
        }
        assert(a@.skip(i as int).drop_first() =~= a@.skip(i + 1));
        assert(b@.skip(i as int).drop_first() =~= b@.skip(i + 1));
        i = i + 1;
    }
    i < m
}

/// The strings of `s`, as text.
pub open spec fn texts(s: Seq<String>) -> Seq<Seq<char>> {
    s.map_values(|x: String| x@)
}

/// Strictly increasing in string order (so no string twice).
pub open spec fn lex_sorted(s: Seq<Seq<char>>) -> bool {
    forall|i: int, j: int| 0 <= i < j < s.len() ==> lex_lt(#[trigger] s[i], #[trigger] s[j])
}

/// No string twice.
pub open spec fn distinct_texts(s: Seq<Seq<char>>) -> bool {
    forall|i: int, j: int| 0 <= i < j < s.len() ==> #[trigger] s[i] != #[trigger] s[j]
}

/// `p` holds the strings of `s` in string order.
pub open spec fn sorted_order_of(p: Seq<Seq<char>>, s: Seq<Seq<char>>) -> bool {
    &&& p.len() == s.len()
    &&& lex_sorted(p)
    &&& forall|x: Seq<char>| p.contains(x) <==> s.contains(x)
}

proof fn lemma_insert_contains(before: Seq<Seq<char>>, k: int, x: Seq<char>)
    requires
        0 <= k <= before.len(),
    ensures
        forall|y: Seq<char>| before.insert(k, x).contains(y) <==> (before.contains(y) || y == x),
{
    let after = before.insert(k, x);
    assert forall|y: Seq<char>| after.contains(y) <==> (before.contains(y) || y == x) by {
        if after.contains(y) {
            let j = choose|j: int| 0 <= j < after.len() && after[j] == y;
            if j < k {
                assert(before[j] == y);
            } else if j > k {
                assert(before[j - 1] == y);
            }
        }
        if before.contains(y) {
            let m = choose|m: int| 0 <= m < before.len() && before[m] == y;
            if m < k {
                assert(after[m] == y);
            } else {
                assert(after[m + 1] == y);
            }
        }
        if y == x {
            assert(after[k] == y);
        }
    }
}

proof fn lemma_push_contains(s: Seq<Seq<char>>, x: Seq<char>)
    ensures
        forall|y: Seq<char>| s.push(x).contains(y) <==> (s.contains(y) || y == x),
{
    let t = s.push(x);
    assert forall|y: Seq<char>| t.contains(y) <==> (s.contains(y) || y == x) by {
        if t.contains(y) {
            let j = choose|j: int| 0 <= j < t.len() && t[j] == y;
            if j < s.len() {
                assert(s[j] == y);
            }
        }
        if s.contains(y) {
            let m = choose|m: int| 0 <= m < s.len() && s[m] == y;
            assert(t[m] == y);
        }
        if y == x {
            assert(t[s.len() as int] == y);
        }
    }
}

/// The ids of a set in string order.
pub fn sorted_ids(ids: &Vec<String>) -> (r: Vec<String>)
    requires
        distinct_texts(texts(ids@)),
    ensures
        sorted_order_of(texts(r@), texts(ids@)),
{
    let mut out: Vec<String> = Vec::new();
    let mut i: usize = 0;
    while i < ids.len()
        invariant
            i <= ids@.len(),
            distinct_texts(texts(ids@)),
            sorted_order_of(texts(out@), texts(ids@.take(i as int))),
        decreases ids@.len() - i,
    {
        let x = &ids[i];
        let mut k: usize = 0;
        while k < out.len() && str_lt(out[k].as_str(), x.as_str())
            invariant
                k <= out@.len(),
                forall|j: int| 0 <= j < k ==> lex_lt(#[trigger] texts(out@)[j], x@),
            decreases out@.len() - k,
        {
            k = k + 1;
        }
        let ghost before = texts(out@);
        proof {
            // x is new: it differs from every id placed so far.
            assert forall|j: int| 0 <= j < before.len() implies before[j] != x@ by {
                assert(texts(ids@.take(i as int)).contains(before[j]));
                let m = choose|m: int| 0 <= m < i && texts(ids@.take(i as int))[m] == before[j];
                assert(texts(ids@)[m] == before[j]);
                assert(texts(ids@)[i as int] == x@);
            }
            if k < before.len() {
                lemma_lex_total(before[k as int], x@);
                assert(lex_lt(x@, before[k as int]));
            }
        }
        out.insert(k, x.clone());
        proof {
            let after = texts(out@);
            assert(after =~= before.insert(k as int, x@));
            assert forall|a: int, b: int| 0 <= a < b < after.len() implies lex_lt(#[trigger] after[a], #[trigger] after[b]) by {
                if b < k {
                } else if a < k && b == k {
                } else if a < k && b > k {
                    assert(after[b] == before[b - 1]);
                    if b - 1 > k {
                        lemma_lex_transitive(x@, before[k as int], before[b - 1]);
                    }
                    lemma_lex_transitive(after[a], x@, before[b - 1]);
                } else if a == k {
                    assert(after[b] == before[b - 1]);
                    if b - 1 > k {
                        lemma_lex_transitive(x@, before[k as int], before[b - 1]);
                    }
                } else {
                    assert(after[a] == before[a - 1]);
                    assert(after[b] == before[b - 1]);
                }
            }
            let prefix = texts(ids@.take(i + 1));
            assert(prefix =~= texts(ids@.take(i as int)).push(x@));
            lemma_insert_contains(before, k as int, x@);
            lemma_push_contains(texts(ids@.take(i as int)), x@);
            assert(after.len() == prefix.len());
            assert(lex_sorted(after));
            assert forall|y: Seq<char>| after.contains(y) <==> prefix.contains(y) by {
                assert(before.contains(y) <==> texts(ids@.take(i as int)).contains(y));
            }
            assert(sorted_order_of(after, prefix));
        }
        i = i + 1;
    }
    assert(ids@.take(i as int) =~= ids@);
    out
}

/// The listing: the first `max` ids joined with ", ", then ` …(+n)` when
/// `n` more are left out; `(empty)` for no ids.
pub open spec fn sample_text(sorted: Seq<Seq<char>>, max: nat) -> Seq<char> {
    if sorted.len() == 0 {
        "(empty)"@
    } else if sorted.len() <= max {
        joined(sorted, ", "@)
    } else {
        joined(sorted.take(max as int), ", "@) + " …(+"@ + decimal((sorted.len() - max) as nat) + ")"@
    }
}

/// The strings of `s` with `sep` between them.
pub open spec fn joined(s: Seq<Seq<char>>, sep: Seq<char>) -> Seq<char>
    decreases s.len(),
{
    if s.len() == 0 {
        Seq::empty()
    } else if s.len() == 1 {
        s[0]
    } else {
        joined(s.drop_last(), sep) + sep + s.last()
    }
}

/// A short listing of a set of module ids, for diagnostics.
pub fn format_id_set_sample(set: &Vec<String>, max: usize) -> (r: String)
    requires
        distinct_texts(texts(set@)),
    ensures
        exists|p: Seq<Seq<char>>| sorted_order_of(p, texts(set@)) && r@ == sample_text(p, max as nat),
{
    if set.len() == 0 {
        let r = String::from_str("(empty)");
        proof {
            assert(sorted_order_of(texts(set@), texts(set@)));
            assert(r@ == sample_text(texts(set@), max as nat));
        }
        return r;
    }
    let ids = sorted_ids(set);
    let ghost p = texts(ids@);
    let shown: usize = if ids.len() <= max { ids.len() } else { max };
    let mut r = String::new();
    let mut k: usize = 0;
    while k < shown
        invariant
            shown <= ids@.len(),
            k <= shown,
            p == texts(ids@),
            r@ == joined(p.take(k as int), ", "@),
        decreases shown - k,
    {
        if k > 0 {
            r.append(", ");
        }
        r.append(ids[k].as_str());
        proof {
            assert(p.take(k + 1).drop_last() =~= p.take(k as int));
            if k == 0 {
                assert(r@ =~= p.take(1)[0]);
            }
        }
        k = k + 1;
    }
    if ids.len() > max {
        r.append(" …(+");
        push_decimal(&mut r, (ids.len() - max) as u64);
        r.append(")");
    }
    proof {
        if ids.len() <= max {
            assert(p.take(shown as int) =~= p);
        }
        assert(r@ =~= sample_text(p, max as nat));
        assert(sorted_order_of(p, texts(set@)));
    }
    r
}

/// A set of strings has one string order: two sequences that hold the
/// same strings, each in increasing string order, are the same sequence.
/// So the listing of a set of ids is determined by the set.
pub proof fn lemma_sorted_order_unique(p: Seq<Seq<char>>, q: Seq<Seq<char>>, s: Seq<Seq<char>>)
    requires
        sorted_order_of(p, s),
        sorted_order_of(q, s),
    ensures
        p == q,
{
    lemma_sorted_same_elements(p, q);
}

proof fn lemma_sorted_same_elements(p: Seq<Seq<char>>, q: Seq<Seq<char>>)
    requires
        lex_sorted(p),
        lex_sorted(q),
        p.len() == q.len(),
        forall|x: Seq<char>| p.contains(x) <==> q.contains(x),
    ensures
        p == q,
    decreases p.len(),
{
    if p.len() == 0 {
        assert(p =~= q);
    } else {
        assert(p.contains(p[0]));
        assert(q.contains(q[0]));
        let jq = choose|j: int| 0 <= j < q.len() && q[j] == p[0];
        let jp = choose|j: int| 0 <= j < p.len() && p[j] == q[0];
        if p[0] != q[0] {
            assert(jq > 0 && jp > 0);
            assert(lex_lt(q[0], q[jq]));
            assert(lex_lt(p[0], p[jp]));
            lemma_lex_transitive(q[0], p[0], q[0]);
            lemma_lex_irreflexive(q[0]);
        }
        let p2 = p.drop_first();
        let q2 = q.drop_first();
        assert forall|x: Seq<char>| p2.contains(x) <==> q2.contains(x) by {
            if p2.contains(x) {
                let j = choose|j: int| 0 <= j < p2.len() && p2[j] == x;
                assert(p[j + 1] == x);
                assert(lex_lt(p[0], p[j + 1]));
                if x == q[0] {
                    lemma_lex_irreflexive(x);
                }
                assert(p.contains(x));
                let m = choose|m: int| 0 <= m < q.len() && q[m] == x;
                assert(m != 0);
                assert(q2[m - 1] == x);
            }
            if q2.contains(x) {
                let j = choose|j: int| 0 <= j < q2.len() && q2[j] == x;
                assert(q[j + 1] == x);
                assert(lex_lt(q[0], q[j + 1]));
                if x == p[0] {
                    lemma_lex_irreflexive(x);
                }
                assert(q.contains(x));
                let m = choose|m: int| 0 <= m < p.len() && p[m] == x;
                assert(m != 0);
                assert(p2[m - 1] == x);
            }
        }
        lemma_sorted_same_elements(p2, q2);
        assert(p =~= q) by {
            assert forall|i: int| 0 <= i < p.len() implies p[i] == q[i] by {
                if i > 0 {
                    assert(p2[i - 1] == q2[i - 1]);
                }
            }
        }
    }
}

} // verus!
