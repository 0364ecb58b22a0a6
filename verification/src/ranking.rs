//! The order in which counts are reported.

use crate::json::{array_value, json_of, row_json, row_value, Json};
use crate::key::Key;
use crate::sorted_map::{
    counts_of, is_row, lemma_rows_keys, lemma_rows_lookup, rows_map, rows_sorted, SortedMap,
};
use serde_json::Value;
use vstd::multiset::Multiset;
use vstd::prelude::*;
use vstd::relations::{sorted_by, total_ordering};

verus! {

/// The order of a ranking: larger counts first, and equal counts in the order of their keys.
pub open spec fn ranks<K: Key>() -> spec_fn((K::V, nat), (K::V, nat)) -> bool {
    |a: (K::V, nat), b: (K::V, nat)|
        a.1 > b.1 || (a.1 == b.1 && (a.0 == b.0 || K::before(a.0, b.0)))
}

/// The order of the keys, an equal key included.
pub open spec fn key_order<K: Key>() -> spec_fn(K::V, K::V) -> bool {
    |a: K::V, b: K::V| a == b || K::before(a, b)
}

/// The first `n` of a sequence, or all of it.
pub open spec fn first<A>(s: Seq<A>, n: nat) -> Seq<A> {
    if n < s.len() {
        s.take(n as int)
    } else {
        s
    }
}

/// The `n` largest counts, in the order of a ranking.
pub open spec fn top_rows<K: Key>(m: Map<K::V, nat>, n: nat) -> Seq<(K::V, nat)> {
    first(m.kv_pairs().to_sorted_seq(ranks::<K>()), n)
}

/// All counts, in the order of their keys.
pub open spec fn key_rows<K: Key>(m: Map<K::V, nat>) -> Seq<(K::V, nat)> {
    m.dom().to_sorted_seq(key_order::<K>()).map_values(|k: K::V| (k, m[k]))
}

pub proof fn lemma_ranks_total<K: Key>()
    ensures
        total_ordering(ranks::<K>()),
{
    let leq = ranks::<K>();
    assert forall|x: (K::V, nat), y: (K::V, nat)| #[trigger] leq(x, y) && #[trigger] leq(y, x) implies x
        == y by {
        if x.0 != y.0 {
            K::before_transitive(x.0, y.0, x.0);
            K::before_irreflexive(x.0);
        }
    }
    assert forall|x: (K::V, nat), y: (K::V, nat), z: (K::V, nat)| #[trigger]
        leq(x, y) && #[trigger] leq(y, z) implies leq(x, z) by {
        if x.1 == y.1 && y.1 == z.1 && x.0 != y.0 && y.0 != z.0 {
            K::before_transitive(x.0, y.0, z.0);
        }
    }
    assert forall|x: (K::V, nat), y: (K::V, nat)| #[trigger] leq(x, y) || #[trigger] leq(y, x) by {
        K::before_total(x.0, y.0);
    }
}

pub proof fn lemma_key_order_total<K: Key>()
    ensures
        total_ordering(key_order::<K>()),
{
    let leq = key_order::<K>();
    assert forall|x: K::V, y: K::V| #[trigger] leq(x, y) && #[trigger] leq(y, x) implies x == y by {
        if x != y {
            K::before_transitive(x, y, x);
            K::before_irreflexive(x);
        }
    }
    assert forall|x: K::V, y: K::V, z: K::V| #[trigger] leq(x, y) && #[trigger] leq(y, z) implies leq(
        x,
        z,
    ) by {
        if x != y && y != z {
            K::before_transitive(x, y, z);
        }
    }
    assert forall|x: K::V, y: K::V| #[trigger] leq(x, y) || #[trigger] leq(y, x) by {
        K::before_total(x, y);
    }
}

proof fn lemma_to_seq_no_duplicates<A>(s: Set<A>)
    requires
        s.finite(),
    ensures
        s.to_seq().no_duplicates(),
    decreases s.len(),
{
    broadcast use vstd::set::group_set_axioms;

    if s.len() > 0 {
        let x = s.choose();
        let rest = s.remove(x);
        lemma_to_seq_no_duplicates(rest);
        rest.lemma_to_seq_to_set_id();
        assert(!rest.to_seq().contains(x)) by {
            assert(!rest.to_seq().to_set().contains(x));
        }
        let q = rest.to_seq();
        assert(s.to_seq() =~= seq![x] + q);
        assert forall|i: int, j: int|
            0 <= i < s.to_seq().len() && 0 <= j < s.to_seq().len() && i
                != j implies s.to_seq()[i] != s.to_seq()[j] by {
            if i > 0 {
                assert(s.to_seq()[i] == q[i - 1]);
            }
            if j > 0 {
                assert(s.to_seq()[j] == q[j - 1]);
            }
        }
    }
}

proof fn lemma_same_multiset<A>(a: Seq<A>, b: Seq<A>)
    requires
        a.no_duplicates(),
        b.no_duplicates(),
        a.to_set() == b.to_set(),
    ensures
        a.to_multiset() == b.to_multiset(),
{
    broadcast use vstd::multiset::group_multiset_axioms;
    broadcast use vstd::seq_lib::group_to_multiset_ensures;

    a.lemma_multiset_has_no_duplicates();
    b.lemma_multiset_has_no_duplicates();
    assert forall|x: A| #[trigger] a.to_multiset().count(x) == b.to_multiset().count(x) by {
        assert(a.to_set().contains(x) == a.contains(x));
        assert(b.to_set().contains(x) == b.contains(x));
        if a.contains(x) {
            assert(a.to_multiset().contains(x));
            assert(b.to_multiset().contains(x));
        }
    }
    assert(a.to_multiset() =~= b.to_multiset());
}

/// A sequence that holds what a set holds, once each and in order, is the set's sorted sequence.
pub proof fn lemma_sorted_seq<A>(s: Set<A>, x: Seq<A>, leq: spec_fn(A, A) -> bool)
    requires
        s.finite(),
        total_ordering(leq),
        sorted_by(x, leq),
        x.no_duplicates(),
        x.to_set() == s,
    ensures
        x == s.to_sorted_seq(leq),
{
    lemma_to_seq_no_duplicates(s);
    s.lemma_to_seq_to_set_id();
    lemma_same_multiset(x, s.to_seq());
    s.to_seq().lemma_sort_by_ensures(leq);
    vstd::seq_lib::lemma_sorted_unique(x, s.to_sorted_seq(leq), leq);
}

/// The rows of a map of counts, as mathematical numbers.
pub open spec fn nat_rows<A>(rows: Seq<(A, usize)>) -> Seq<(A, nat)> {
    rows.map_values(|r: (A, usize)| (r.0, r.1 as nat))
}

/// Rows in the order of their keys hold each pair of their map once.
pub proof fn lemma_rows_pairs<K: Key>(rows: Seq<(K::V, usize)>)
    requires
        rows_sorted::<K, usize>(rows),
    ensures
        nat_rows(rows).no_duplicates(),
        nat_rows(rows).to_set() == counts_of(rows_map(rows)).kv_pairs(),
        counts_of(rows_map(rows)).kv_pairs().finite(),
{
    let m = counts_of(rows_map(rows));
    let nr = nat_rows(rows);
    assert forall|i: int, j: int| 0 <= i < nr.len() && 0 <= j < nr.len() && i != j implies nr[i]
        != nr[j] by {
        K::before_irreflexive(rows[i].0);
        if i < j {
            assert(K::before(rows[i].0, rows[j].0));
        } else {
            assert(K::before(rows[j].0, rows[i].0));
        }
    }
    assert forall|p: (K::V, nat)| nr.to_set().contains(p) <==> m.kv_pairs().contains(p) by {
        if nr.contains(p) {
            let i = choose|i: int| 0 <= i < nr.len() && nr[i] == p;
            lemma_rows_lookup::<K, usize>(rows, i);
        }
        if m.kv_pairs().contains(p) {
            let i = choose|i: int| #[trigger] is_row(rows, p.0, i);
            lemma_rows_lookup::<K, usize>(rows, i);
            assert(nr[i] == p);
        }
    }
    assert(nr.to_set() =~= m.kv_pairs());
    nr.unique_seq_to_set();
}

/// Rows in the order of their keys are the rows of their map.
pub proof fn lemma_key_rows<K: Key>(rows: Seq<(K::V, usize)>)
    requires
        rows_sorted::<K, usize>(rows),
    ensures
        nat_rows(rows) == key_rows::<K>(counts_of(rows_map(rows))),
{
    let m = counts_of(rows_map(rows));
    let keys = rows.map_values(|r: (K::V, usize)| r.0);
    lemma_rows_keys::<K, usize>(rows);
    lemma_key_order_total::<K>();
    assert(m.dom() =~= rows_map(rows).dom());
    assert(sorted_by(keys, key_order::<K>())) by {
        assert forall|i: int, j: int| 0 <= i < j < keys.len() implies #[trigger] key_order::<K>()(
            keys[i],
            keys[j],
        ) by {
            assert(K::before(rows[i].0, rows[j].0));
        }
    }
    lemma_sorted_seq(m.dom(), keys, key_order::<K>());
    assert forall|i: int| 0 <= i < rows.len() implies nat_rows(rows)[i] == (keys[i], m[keys[i]]) by {
        lemma_rows_lookup::<K, usize>(rows, i);
    }
    assert(nat_rows(rows) =~= key_rows::<K>(m));
}

/// The rows that positions in a map of counts stand for.
pub open spec fn rows_at<A>(rows: Seq<(A, usize)>, positions: Seq<usize>) -> Seq<(A, nat)> {
    positions.map_values(|i: usize| nat_rows(rows)[i as int])
}

/// The positions of the `n` largest counts, in the order of a ranking.
pub fn ranking<K: Key>(m: &SortedMap<K, usize>, n: usize) -> (best: Vec<usize>)
    requires
        m.wf(),
    ensures
        forall|i: int| 0 <= i < best.len() ==> (#[trigger] best[i]) < m.rows().len(),
        rows_at(m.rows(), best@) == top_rows::<K>(m.counts(), n as nat),
{
    let ghost rows = m.rows();
    let ghost all = nat_rows(rows);
    let ghost leq = ranks::<K>();
    let ghost mut rest: Seq<(K::V, nat)> = Seq::empty();
    let mut best: Vec<usize> = Vec::new();
    proof {
        lemma_ranks_total::<K>();
        assert(all.take(0) =~= Seq::empty());
        assert(rows_at(rows, best@) =~= Seq::empty());
        assert(rest.to_multiset() =~= Multiset::empty()) by {
            broadcast use vstd::multiset::group_multiset_axioms;
            broadcast use vstd::seq_lib::group_to_multiset_ensures;

        }
        assert(rest.to_multiset().add(rest.to_multiset()) =~= rest.to_multiset()) by {
            broadcast use vstd::multiset::group_multiset_axioms;

        }
    }
    let len = m.len();
    let mut i: usize = 0;
    while i < len
        invariant
            m.wf(),
            rows == m.rows(),
            len == rows.len(),
            all == nat_rows(rows),
            leq == ranks::<K>(),
            total_ordering(leq),
            i <= len,
            best.len() <= n,
            rest.len() > 0 ==> best.len() == n,
            forall|b: int| 0 <= b < best.len() ==> (#[trigger] best[b]) < i,
            sorted_by(rows_at(rows, best@), leq),
            forall|b: int, r: int|
                0 <= b < best.len() && 0 <= r < rest.len() ==> leq(
                    #[trigger] rows_at(rows, best@)[b],
                    #[trigger] rest[r],
                ),
            rows_at(rows, best@).to_multiset().add(rest.to_multiset()) == all.take(
                i as int,
            ).to_multiset(),
        decreases len - i,
    {
        let count: usize = *m.value_at(i);
        let ghost row = all[i as int];
        let ghost before = rows_at(rows, best@);
        let mut p: usize = best.len();
        while p > 0 && *m.value_at(best[p - 1]) < count
            invariant
                m.wf(),
                rows == m.rows(),
                len == rows.len(),
                all == nat_rows(rows),
                leq == ranks::<K>(),
                i < len,
                p <= best.len(),
                count == rows[i as int].1,
                row == all[i as int],
                before == rows_at(rows, best@),
                forall|b: int| 0 <= b < best.len() ==> (#[trigger] best[b]) < i,
                forall|b: int| p <= b < best.len() ==> leq(row, #[trigger] before[b]),
            decreases p,
        {
            p -= 1;
        }
        proof {
            assert forall|b: int| 0 <= b < p implies leq(#[trigger] before[b], row) by {
                let top = before[p - 1];
                assert(top == all[best[p - 1] as int]);
                assert(K::before(rows[best[p - 1] as int].0, rows[i as int].0));
                assert(leq(top, row));
                if b < p - 1 {
                    assert(leq(before[b], top));
                }
            }
        }
        best.insert(p, i);
        let ghost inserted = rows_at(rows, best@);
        proof {
            broadcast use vstd::multiset::group_multiset_axioms;
            broadcast use vstd::seq_lib::group_to_multiset_ensures;

            assert(inserted =~= before.insert(p as int, row));
            assert(sorted_by(inserted, leq)) by {
                assert forall|a: int, b: int| 0 <= a < b < inserted.len() implies #[trigger] leq(
                    inserted[a],
                    inserted[b],
                ) by {
                    let x = if a < p { a } else { a - 1 };
                    let y = if b < p { b } else { b - 1 };
                    if a == p {
                        assert(inserted[b] == before[y]);
                    } else if b == p {
                        assert(inserted[a] == before[x]);
                    } else {
                        assert(inserted[a] == before[x] && inserted[b] == before[y]);
                        assert(leq(before[x], before[y]));
                    }
                }
            }
            assert(all.take(i + 1) =~= all.take(i as int).push(row));
            assert(inserted.to_multiset().add(rest.to_multiset()) =~= all.take(
                i + 1,
            ).to_multiset());
        }
        if best.len() > n {
            let ghost last = inserted.last();
            best.pop();
            proof {
                broadcast use vstd::multiset::group_multiset_axioms;
                broadcast use vstd::seq_lib::group_to_multiset_ensures;

                let kept = rows_at(rows, best@);
                assert(kept =~= inserted.drop_last());
                assert(inserted =~= kept.push(last));
                let next = rest.push(last);
                assert forall|b: int, r: int| 0 <= b < kept.len() && 0 <= r < next.len() implies leq(
                    #[trigger] kept[b],
                    #[trigger] next[r],
                ) by {
                    assert(kept[b] == inserted[b]);
                    if r == rest.len() {
                        assert(leq(inserted[b], inserted[inserted.len() - 1]));
                    } else {
                        assert(next[r] == rest[r]);
                        if b < p {
                            assert(kept[b] == before[b]);
                        } else if b > p {
                            assert(kept[b] == before[b - 1]);
                        } else {
                            let y = before[before.len() - 1];
                            assert(leq(row, y));
                            assert(leq(y, rest[r]));
                        }
                    }
                }
                assert(kept.to_multiset().add(next.to_multiset()) =~= inserted.to_multiset().add(
                    rest.to_multiset(),
                ));
                assert(sorted_by(kept, leq)) by {
                    assert forall|a: int, b: int| 0 <= a < b < kept.len() implies #[trigger] leq(
                        kept[a],
                        kept[b],
                    ) by {
                        assert(leq(inserted[a], inserted[b]));
                    }
                }
                rest = next;
            }
        } else {
            proof {
                assert(rest.len() == 0);
            }
        }
        i += 1;
    }
    proof {
        let out = rows_at(rows, best@);
        assert(all.take(i as int) =~= all);
        rest.lemma_sort_by_ensures(leq);
        let tail = rest.sort_by(leq);
        let whole = out + tail;
        lemma_whole::<K>(rows, out, rest);
        assert(first(whole, n as nat) =~= out) by {
            broadcast use vstd::seq_lib::group_to_multiset_ensures;

            assert(tail.to_multiset().len() == rest.to_multiset().len());
            assert(tail.len() == rest.len());
        }
    }
    best
}

proof fn lemma_whole<K: Key>(rows: Seq<(K::V, usize)>, out: Seq<(K::V, nat)>, rest: Seq<(K::V, nat)>)
    requires
        rows_sorted::<K, usize>(rows),
        sorted_by(out, ranks::<K>()),
        forall|b: int, r: int|
            0 <= b < out.len() && 0 <= r < rest.len() ==> ranks::<K>()(
                #[trigger] out[b],
                #[trigger] rest[r],
            ),
        out.to_multiset().add(rest.to_multiset()) == nat_rows(rows).to_multiset(),
    ensures
        out + rest.sort_by(ranks::<K>()) == counts_of(rows_map(rows)).kv_pairs().to_sorted_seq(
            ranks::<K>(),
        ),
{
    broadcast use vstd::multiset::group_multiset_axioms;
    broadcast use vstd::seq_lib::group_to_multiset_ensures;

    let leq = ranks::<K>();
    lemma_ranks_total::<K>();
    lemma_rows_pairs::<K>(rows);
    rest.lemma_sort_by_ensures(leq);
    let all = nat_rows(rows);
    let tail = rest.sort_by(leq);
    let whole = out + tail;
    vstd::seq_lib::lemma_multiset_commutative(out, tail);
    assert(whole.to_multiset() =~= all.to_multiset());
    assert(sorted_by(whole, leq)) by {
        assert forall|a: int, b: int| 0 <= a < b < whole.len() implies #[trigger] leq(
            whole[a],
            whole[b],
        ) by {
            if b < out.len() {
                assert(leq(out[a], out[b]));
            } else if a >= out.len() {
                assert(leq(tail[a - out.len()], tail[b - out.len()]));
            } else {
                let y = tail[b - out.len()];
                assert(tail.contains(y));
                assert(rest.contains(y));
                let r = choose|r: int| 0 <= r < rest.len() && rest[r] == y;
                assert(leq(out[a], rest[r]));
            }
        }
    }
    all.lemma_multiset_has_no_duplicates();
    whole.lemma_multiset_has_no_duplicates_conv();
    assert forall|x: (K::V, nat)| whole.to_set().contains(x) <==> all.to_set().contains(x) by {
        assert(whole.contains(x) <==> whole.to_multiset().count(x) > 0);
        assert(all.contains(x) <==> all.to_multiset().count(x) > 0);
    }
    assert(whole.to_set() =~= all.to_set());
    lemma_sorted_seq(counts_of(rows_map(rows)).kv_pairs(), whole, leq);
}

/// Keys with their counts, as an array.
pub open spec fn rows_json<K: Key>(rows: Seq<(K::V, nat)>) -> Json {
    Json::Array(rows.map_values(|r: (K::V, nat)| row_json(K::json(r.0), r.1)))
}

/// Writes the rows at some positions of a map of counts.
fn rows_value<K: Key>(m: &SortedMap<K, usize>, positions: &Vec<usize>) -> (v: Value)
    requires
        forall|i: int| 0 <= i < positions.len() ==> (#[trigger] positions[i]) < m.rows().len(),
    ensures
        json_of(v) == rows_json::<K>(rows_at(m.rows(), positions@)),
{
    let ghost want = rows_at(m.rows(), positions@);
    let mut items: Vec<Value> = Vec::new();
    let mut i: usize = 0;
    while i < positions.len()
        invariant
            i <= positions.len(),
            forall|i: int| 0 <= i < positions.len() ==> (#[trigger] positions[i]) < m.rows().len(),
            want == rows_at(m.rows(), positions@),
            items.len() == i,
            forall|j: int|
                0 <= j < i ==> json_of(#[trigger] items[j]) == row_json(
                    K::json(want[j].0),
                    want[j].1,
                ),
        decreases positions.len() - i,
    {
        let p: usize = positions[i];
        items.push(row_value(m.key_at(p).to_json(), *m.value_at(p)));
        i += 1;
    }
    let ghost docs = items@.map_values(|item: Value| json_of(item));
    proof {
        assert(docs =~= want.map_values(|r: (K::V, nat)| row_json(K::json(r.0), r.1)));
    }
    array_value(items)
}

/// Writes the `n` largest counts, in the order of a ranking.
pub fn top_value<K: Key>(m: &SortedMap<K, usize>, n: usize) -> (v: Value)
    requires
        m.wf(),
    ensures
        json_of(v) == rows_json::<K>(top_rows::<K>(m.counts(), n as nat)),
{
    let best = ranking(m, n);
    rows_value(m, &best)
}

/// Writes all counts, in the order of their keys.
pub fn all_value<K: Key>(m: &SortedMap<K, usize>) -> (v: Value)
    requires
        m.wf(),
    ensures
        json_of(v) == rows_json::<K>(key_rows::<K>(m.counts())),
{
    let mut positions: Vec<usize> = Vec::new();
    let mut i: usize = 0;
    while i < m.len()
        invariant
            i <= m.rows().len(),
            positions.len() == i,
            forall|j: int| 0 <= j < i ==> positions[j] == j,
        decreases m.rows().len() - i,
    {
        positions.push(i);
        i += 1;
    }
    proof {
        lemma_key_rows::<K>(m.rows());
        assert(rows_at(m.rows(), positions@) =~= nat_rows(m.rows()));
    }
    rows_value(m, &positions)
}

/// A map has as many pairs as keys.
proof fn lemma_pairs<A>(m: Map<A, nat>)
    requires
        m.dom().finite(),
    ensures
        m.kv_pairs().finite(),
        m.kv_pairs().len() == m.dom().len(),
    decreases m.dom().len(),
{
    broadcast use vstd::set::group_set_axioms;

    if m.dom().len() == 0 {
        assert(m.kv_pairs() =~= Set::empty());
    } else {
        let k = m.dom().choose();
        let rest = m.remove(k);
        lemma_pairs(rest);
        assert(m.kv_pairs() =~= rest.kv_pairs().insert((k, m[k])));
        assert(!rest.kv_pairs().contains((k, m[k])));
    }
}

/// A ranking lists `n` counts, or all if there are fewer, each once and the largest first, equal
/// ones in the order of their keys. No count that it leaves out is larger than one that it lists.
pub proof fn law_ranking<K: Key>(m: Map<K::V, nat>, n: nat)
    requires
        m.dom().finite(),
    ensures
        ({
            let rows = top_rows::<K>(m, n);
            &&& rows.len() == if n < m.dom().len() {
                n
            } else {
                m.dom().len()
            }
            &&& forall|i: int|
                0 <= i < rows.len() ==> m.contains_key((#[trigger] rows[i]).0) && m[rows[i].0]
                    == rows[i].1
            &&& forall|i: int, j: int|
                0 <= i < j < rows.len() ==> (#[trigger] rows[i]).1 >= (#[trigger] rows[j]).1
                    && rows[i].0 != rows[j].0 && (rows[i].1 == rows[j].1 ==> K::before(
                    rows[i].0,
                    rows[j].0,
                ))
            &&& forall|i: int, k: K::V|
                0 <= i < rows.len() && #[trigger] m.contains_key(k) && !rows.contains((k, m[k]))
                    ==> m[k] <= (#[trigger] rows[i]).1
        }),
{
    broadcast use vstd::multiset::group_multiset_axioms;
    broadcast use vstd::seq_lib::group_to_multiset_ensures;

    let s = m.kv_pairs();
    let leq = ranks::<K>();
    let all = s.to_sorted_seq(leq);
    let rows = top_rows::<K>(m, n);
    lemma_pairs(m);
    lemma_ranks_total::<K>();
    lemma_to_seq_no_duplicates(s);
    s.lemma_to_seq_to_set_id();
    s.to_seq().lemma_sort_by_ensures(leq);
    s.to_seq().unique_seq_to_set();
    s.to_seq().lemma_multiset_has_no_duplicates();
    assert(all.to_multiset().len() == s.to_seq().to_multiset().len());
    assert(all.len() == s.to_seq().len());
    all.lemma_multiset_has_no_duplicates_conv();
    assert forall|p: (K::V, nat)| all.contains(p) <==> s.contains(p) by {
        assert(all.to_multiset().contains(p) <==> s.to_seq().to_multiset().contains(p));
        assert(s.to_seq().to_set().contains(p) <==> s.to_seq().contains(p));
    }
    assert forall|i: int| 0 <= i < rows.len() implies m.contains_key((#[trigger] rows[i]).0)
        && m[rows[i].0] == rows[i].1 by {
        assert(all.contains(all[i]));
    }
    assert forall|i: int, j: int| 0 <= i < j < rows.len() implies (#[trigger] rows[i]).1 >= (
    #[trigger] rows[j]).1 && rows[i].0 != rows[j].0 && (rows[i].1 == rows[j].1 ==> K::before(
        rows[i].0,
        rows[j].0,
    )) by {
        assert(leq(all[i], all[j]));
        assert(all[i] != all[j]);
    }
    assert forall|i: int, k: K::V|
        0 <= i < rows.len() && #[trigger] m.contains_key(k) && !rows.contains(
            (k, m[k]),
        ) implies m[k] <= (#[trigger] rows[i]).1 by {
        assert(s.contains((k, m[k])));
        let j = choose|j: int| 0 <= j < all.len() && all[j] == (k, m[k]);
        if j < rows.len() {
            assert(rows[j] == (k, m[k]));
        } else {
            assert(leq(all[i], all[j]));
        }
    }
}

/// The sorted sequence of a set holds what the set holds, once each and in order.
pub proof fn lemma_sorted_facts<A>(s: Set<A>, leq: spec_fn(A, A) -> bool)
    requires
        s.finite(),
        total_ordering(leq),
    ensures
        sorted_by(s.to_sorted_seq(leq), leq),
        s.to_sorted_seq(leq).no_duplicates(),
        s.to_sorted_seq(leq).len() == s.len(),
        forall|x: A| #[trigger] s.to_sorted_seq(leq).contains(x) <==> s.contains(x),
{
    broadcast use vstd::multiset::group_multiset_axioms;
    broadcast use vstd::seq_lib::group_to_multiset_ensures;

    let all = s.to_sorted_seq(leq);
    lemma_to_seq_no_duplicates(s);
    s.lemma_to_seq_to_set_id();
    s.to_seq().lemma_sort_by_ensures(leq);
    s.to_seq().unique_seq_to_set();
    s.to_seq().lemma_multiset_has_no_duplicates();
    assert(all.to_multiset().len() == s.to_seq().to_multiset().len());
    all.lemma_multiset_has_no_duplicates_conv();
    assert forall|x: A| #[trigger] all.contains(x) <==> s.contains(x) by {
        assert(all.to_multiset().contains(x) <==> s.to_seq().to_multiset().contains(x));
        assert(s.to_seq().to_set().contains(x) <==> s.to_seq().contains(x));
    }
}

/// All counts, listed by key: each key once with its count, the smallest key first.
pub proof fn law_key_rows<K: Key>(m: Map<K::V, nat>)
    requires
        m.dom().finite(),
    ensures
        ({
            let rows = key_rows::<K>(m);
            &&& rows.len() == m.dom().len()
            &&& forall|i: int|
                0 <= i < rows.len() ==> m.contains_key((#[trigger] rows[i]).0) && m[rows[i].0]
                    == rows[i].1
            &&& forall|i: int, j: int|
                0 <= i < j < rows.len() ==> K::before(
                    (#[trigger] rows[i]).0,
                    (#[trigger] rows[j]).0,
                )
            &&& forall|k: K::V| #[trigger] m.contains_key(k) ==> rows.contains((k, m[k]))
        }),
{
    let leq = key_order::<K>();
    let keys = m.dom().to_sorted_seq(leq);
    let rows = key_rows::<K>(m);
    lemma_key_order_total::<K>();
    lemma_sorted_facts(m.dom(), leq);
    assert forall|i: int| 0 <= i < rows.len() implies m.contains_key((#[trigger] rows[i]).0)
        && m[rows[i].0] == rows[i].1 by {
        assert(keys.contains(keys[i]));
    }
    assert forall|i: int, j: int| 0 <= i < j < rows.len() implies K::before(
        (#[trigger] rows[i]).0,
        (#[trigger] rows[j]).0,
    ) by {
        assert(leq(keys[i], keys[j]));
        assert(keys[i] != keys[j]);
    }
    assert forall|k: K::V| #[trigger] m.contains_key(k) implies rows.contains((k, m[k])) by {
        assert(keys.contains(k));
        let i = choose|i: int| 0 <= i < keys.len() && keys[i] == k;
        assert(rows[i] == (k, m[k]));
    }
}

/// An array of rows has one object for each row, in their order: the key under `key`, the count
/// under `value`, and nothing else.
pub proof fn law_rows_json<K: Key>(rows: Seq<(K::V, nat)>, i: int)
    requires
        0 <= i < rows.len(),
    ensures
        rows_json::<K>(rows) is Array,
        rows_json::<K>(rows)->Array_0.len() == rows.len(),
        ({
            let row = rows_json::<K>(rows)->Array_0[i];
            &&& row is Object
            &&& row->Object_0.dom() == set!["key"@, "value"@]
            &&& row->Object_0["key"@] == K::json(rows[i].0)
            &&& row->Object_0["value"@] == Json::Number(rows[i].1 as int)
        }),
{
    lemma_row_names();
    let row = rows_json::<K>(rows)->Array_0[i];
    assert(row->Object_0.dom() =~= set!["key"@, "value"@]);
}

/// The members of a row have different names.
pub proof fn lemma_row_names()
    ensures
        "key"@ != "value"@,
{
    reveal_strlit("key");
    reveal_strlit("value");
    assert("key"@.len() != "value"@.len());
}

} // verus!
