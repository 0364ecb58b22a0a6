//! Exact counts of the values of a stream.

use crate::json::{array_value, json_of, row_json, row_value, text_value, Json};
use crate::key::{text_before, Key};
use crate::ranking::{
    all_value, first, key_rows, lemma_row_names, lemma_rows_pairs, lemma_sorted_facts,
    lemma_sorted_seq, nat_rows, ranking, rows_at, rows_json, top_rows,
};
use crate::sorted_map::{
    counts_at_most, counts_of, is_row, lemma_rows_insert, lemma_rows_lookup, rows_map, SortedMap,
};
use serde_json::Value;
use vstd::prelude::*;
use vstd::relations::{sorted_by, total_ordering};

verus! {

/// How often a value was counted.
pub open spec fn bag_count<A>(m: Map<A, nat>, n: A) -> nat {
    if m.contains_key(n) {
        m[n]
    } else {
        0
    }
}

/// `amount` more of the value `n`.
pub open spec fn bag_add<A>(m: Map<A, nat>, n: A, amount: nat) -> Map<A, nat> {
    m.insert(n, bag_count(m, n) + amount)
}

/// The rows of a ranking, with the texts of their keys.
pub open spec fn text_rows<K: Key>(rows: Seq<(K::V, nat)>) -> Seq<(Seq<char>, nat)> {
    rows.map_values(|r: (K::V, nat)| (K::text(r.0), r.1))
}

/// The pairs of a map of counts, with the texts of their keys.
pub open spec fn text_pairs<K: Key>(m: Map<K::V, nat>) -> Set<(Seq<char>, nat)> {
    m.kv_pairs().map(|r: (K::V, nat)| (K::text(r.0), r.1))
}

/// The descending order of texts.
pub open spec fn text_descending() -> spec_fn((Seq<char>, nat), (Seq<char>, nat)) -> bool {
    |a: (Seq<char>, nat), b: (Seq<char>, nat)|
        text_before(b.0, a.0) || (a.0 == b.0 && a.1 <= b.1)
}

/// The `n` counts whose keys have the largest texts, the largest first.
pub open spec fn max_rows<K: Key>(m: Map<K::V, nat>, n: nat) -> Seq<(Seq<char>, nat)> {
    first(text_pairs::<K>(m).to_sorted_seq(text_descending()), n)
}

/// Texts with their counts, as an array.
pub open spec fn texts_json(rows: Seq<(Seq<char>, nat)>) -> Json {
    Json::Array(rows.map_values(|r: (Seq<char>, nat)| row_json(Json::Text(r.0), r.1)))
}

/// The texts and counts of a vector.
pub open spec fn texts_of(v: Seq<(String, usize)>) -> Seq<(Seq<char>, nat)> {
    v.map_values(|r: (String, usize)| (r.0@, r.1 as nat))
}

/// Exact counts by value.
pub struct Bag<N> {
    inner: SortedMap<N, usize>,
}

impl<N: Key> View for Bag<N> {
    type V = Map<N::V, nat>;

    closed spec fn view(&self) -> Map<N::V, nat> {
        self.inner.counts()
    }
}

impl<N: Key> Bag<N> {
    /// The counts stand in order.
    pub closed spec fn ordered(self) -> bool {
        self.inner.wf()
    }

    /// The counts stand in order and are machine numbers.
    pub open spec fn wf(self) -> bool {
        self.ordered() && self@.dom().finite() && counts_at_most(self@, usize::MAX as nat)
    }

    /// Nothing counted yet.
    pub fn new() -> (b: Self)
        ensures
            b.wf(),
            b@ == Map::<N::V, nat>::empty(),
    {
        let b = Bag { inner: SortedMap::new() };
        proof {
            assert(b@ =~= Map::<N::V, nat>::empty());
        }
        b
    }

    /// Counts `n` once.
    pub fn inc(&mut self, n: N)
        requires
            old(self).wf(),
            bag_count(old(self)@, n@) < usize::MAX,
        ensures
            final(self).wf(),
            final(self)@ == bag_add(old(self)@, n@, 1),
    {
        self.insert(n, 1);
    }

    /// Counts `n` `amount` times.
    pub fn insert(&mut self, n: N, amount: usize)
        requires
            old(self).wf(),
            bag_count(old(self)@, n@) + amount <= usize::MAX,
        ensures
            final(self).wf(),
            final(self)@ == bag_add(old(self)@, n@, amount as nat),
    {
        match self.inner.find(&n) {
            Ok(i) => {
                proof {
                    lemma_rows_lookup::<N, usize>(self.inner.rows(), i as int);
                }
                let entry = self.inner.value_mut(i);
                *entry += amount;
            },
            Err(i) => {
                proof {
                    lemma_rows_insert::<N, usize>(self.inner.rows(), i as int, n@, amount);
                }
                self.inner.insert_at(i, n, amount);
            },
        }
        proof {
            assert(self@ =~= bag_add(old(self)@, n@, amount as nat));
        }
    }

    /// Whether the count of `n` can grow by one.
    pub fn can_inc(&self, n: &N) -> (r: bool)
        requires
            self.wf(),
        ensures
            r == (bag_count(self@, n@) < usize::MAX),
            r == counts_at_most(bag_add(self@, n@, 1), usize::MAX as nat),
    {
        let r = self.inner.count(n) < usize::MAX;
        proof {
            let next = bag_add(self@, n@, 1);
            assert(next.contains_key(n@));
            assert forall|a: N::V| r && #[trigger] next.contains_key(a) implies next[a]
                <= usize::MAX by {
                if self@.contains_key(a) {
                    assert(self@[a] <= usize::MAX);
                }
            }
        }
        r
    }

    /// A second bag with the same counts.
    pub fn copied(&self) -> (b: Self)
        requires
            self.wf(),
        ensures
            b.wf(),
            b@ == self@,
    {
        Bag { inner: self.inner.copied() }
    }

    /// Whether every count leaves room for `work` more.
    pub fn has_room(&self, work: usize) -> (r: bool)
        requires
            self.wf(),
        ensures
            r == counts_at_most(self@, (usize::MAX - work) as nat),
    {
        self.inner.leaves_room(work)
    }

    /// Writes the first `top_amount` of some texts with their counts.
    pub fn sorted_to_value(v: Vec<(String, usize)>, top_amount: usize) -> (r: Value)
        ensures
            json_of(r) == texts_json(first(texts_of(v@), top_amount as nat)),
    {
        let ghost want = first(texts_of(v@), top_amount as nat);
        let mut items: Vec<Value> = Vec::new();
        let mut i: usize = 0;
        while i < v.len() && i < top_amount
            invariant
                i <= v.len(),
                i <= top_amount,
                want == first(texts_of(v@), top_amount as nat),
                items.len() == i,
                forall|j: int|
                    0 <= j < i ==> json_of(#[trigger] items[j]) == row_json(
                        Json::Text(want[j].0),
                        want[j].1,
                    ),
            decreases v.len() - i,
        {
            items.push(row_value(text_value(v[i].0.clone()), v[i].1));
            i += 1;
        }
        let ghost docs = items@.map_values(|item: Value| json_of(item));
        proof {
            assert(docs =~= want.map_values(
                |r: (Seq<char>, nat)| row_json(Json::Text(r.0), r.1),
            ));
        }
        array_value(items)
    }

    /// Writes the `top_amount` largest counts, the largest first.
    pub fn serialize_top(&self, top_amount: usize) -> (r: Value)
        requires
            self.wf(),
        ensures
            json_of(r) == texts_json(text_rows::<N>(top_rows::<N>(self@, top_amount as nat))),
    {
        let best = ranking(&self.inner, top_amount);
        let ghost rows = rows_at(self.inner.rows(), best@);
        let mut v: Vec<(String, usize)> = Vec::new();
        let mut i: usize = 0;
        while i < best.len()
            invariant
                i <= best.len(),
                forall|j: int| 0 <= j < best.len() ==> (#[trigger] best[j]) < self.inner.rows().len(),
                rows == rows_at(self.inner.rows(), best@),
                v.len() == i,
                forall|j: int|
                    0 <= j < i ==> (#[trigger] v[j]).0@ == N::text(rows[j].0) && v[j].1
                        == rows[j].1,
            decreases best.len() - i,
        {
            let p: usize = best[i];
            v.push((self.inner.key_at(p).to_text(), *self.inner.value_at(p)));
            i += 1;
        }
        proof {
            assert(texts_of(v@) =~= text_rows::<N>(rows));
            assert(first(texts_of(v@), top_amount as nat) =~= texts_of(v@));
        }
        Self::sorted_to_value(v, top_amount)
    }

    /// Writes the `top_amount` counts whose keys have the largest texts, the largest first.
    pub fn serialize_max(&self, top_amount: usize) -> (r: Value)
        requires
            self.wf(),
        ensures
            json_of(r) == texts_json(max_rows::<N>(self@, top_amount as nat)),
    {
        Self::sorted_to_value(self.by_text(), top_amount)
    }

    /// The texts of the values with their counts, the largest text first.
    fn by_text(&self) -> (v: Vec<(String, usize)>)
        requires
            self.wf(),
        ensures
            texts_of(v@) == text_pairs::<N>(self@).to_sorted_seq(text_descending()),
    {
        let ghost rows = self.inner.rows();
        let mut texts: SortedMap<String, usize> = SortedMap::new();
        let mut i: usize = 0;
        while i < self.inner.len()
            invariant
                self.inner.wf(),
                rows == self.inner.rows(),
                i <= rows.len(),
                texts.wf(),
                forall|j: int|
                    #![trigger rows[j]]
                    0 <= j < i ==> texts@.contains_key(N::text(rows[j].0))
                        && texts@[N::text(rows[j].0)] == rows[j].1,
                forall|t: Seq<char>| #[trigger]
                    texts@.contains_key(t) ==> exists|j: int|
                        0 <= j < i && N::text((#[trigger] rows[j]).0) == t,
            decreases rows.len() - i,
        {
            let text = self.inner.key_at(i).to_text();
            let count: usize = *self.inner.value_at(i);
            let ghost t = text@;
            match texts.find(&text) {
                Ok(p) => {
                    proof {
                        lemma_rows_lookup::<String, usize>(texts.rows(), p as int);
                        assert(texts@.contains_key(t));
                        let j = choose|j: int| 0 <= j < i && N::text((#[trigger] rows[j]).0) == t;
                        N::text_injective(rows[j].0, rows[i as int].0);
                        assert(N::before(rows[j].0, rows[i as int].0));
                        N::before_irreflexive(rows[j].0);
                    }
                },
                Err(p) => {
                    let ghost before = texts@;
                    texts.insert_at(p, text, count);
                    proof {
                        assert(texts@ == before.insert(t, count));
                        assert forall|u: Seq<char>| #[trigger] texts@.contains_key(u) implies exists|
                            j: int,
                        | 0 <= j < i + 1 && N::text((#[trigger] rows[j]).0) == u by {
                            if u == t {
                                assert(N::text(rows[i as int].0) == u);
                            } else {
                                assert(before.contains_key(u));
                                let j = choose|j: int|
                                    0 <= j < i && N::text((#[trigger] rows[j]).0) == u;
                                assert(N::text(rows[j].0) == u);
                            }
                        }
                    }
                },
            }
            i += 1;
        }
        let mut v: Vec<(String, usize)> = Vec::new();
        let mut left: usize = texts.len();
        let ghost asc = nat_rows(texts.rows());
        while left > 0
            invariant
                left <= texts.rows().len(),
                asc == nat_rows(texts.rows()),
                v.len() == asc.len() - left,
                forall|j: int|
                    0 <= j < v.len() ==> texts_of(v@)[j] == #[trigger] asc.reverse()[j],
            decreases left,
        {
            left -= 1;
            v.push((texts.key_at(left).copied(), *texts.value_at(left)));
        }
        proof {
            let out = texts_of(v@);
            assert(out =~= asc.reverse());
            assert forall|t: Seq<char>| #[trigger]
                rows_map(texts.rows()).contains_key(t) implies exists|j: int|
                0 <= j < rows.len() && N::text((#[trigger] rows[j]).0) == t by {
                assert(texts@.contains_key(t));
            }
            lemma_by_text::<N>(rows, texts.rows());
        }
        v
    }

    /// Writes all counts, in the order of their values.
    pub fn serialize(&self) -> (r: Value)
        requires
            self.wf(),
        ensures
            json_of(r) == rows_json::<N>(key_rows::<N>(self@)),
    {
        all_value(&self.inner)
    }
}

proof fn lemma_text_descending_total()
    ensures
        total_ordering(text_descending()),
{
    let leq = text_descending();
    assert forall|x: (Seq<char>, nat), y: (Seq<char>, nat)| #[trigger] leq(x, y) && #[trigger] leq(
        y,
        x,
    ) implies x == y by {
        <String as Key>::before_irreflexive(x.0);
        if text_before(y.0, x.0) && text_before(x.0, y.0) {
            <String as Key>::before_transitive(x.0, y.0, x.0);
        }
    }
    assert forall|x: (Seq<char>, nat), y: (Seq<char>, nat), z: (Seq<char>, nat)| #[trigger]
        leq(x, y) && #[trigger] leq(y, z) implies leq(x, z) by {
        if text_before(y.0, x.0) && text_before(z.0, y.0) {
            <String as Key>::before_transitive(z.0, y.0, x.0);
        }
    }
    assert forall|x: (Seq<char>, nat), y: (Seq<char>, nat)| #[trigger] leq(x, y) || #[trigger] leq(
        y,
        x,
    ) by {
        <String as Key>::before_total(x.0, y.0);
    }
}

proof fn lemma_by_text<N: Key>(rows: Seq<(N::V, usize)>, texts: Seq<(Seq<char>, usize)>)
    requires
        crate::sorted_map::rows_sorted::<N, usize>(rows),
        crate::sorted_map::rows_sorted::<String, usize>(texts),
        forall|j: int|
            #![trigger rows[j]]
            0 <= j < rows.len() ==> rows_map(texts).contains_key(N::text(rows[j].0)) && rows_map(
                texts,
            )[N::text(rows[j].0)] == rows[j].1,
        forall|t: Seq<char>| #[trigger]
            rows_map(texts).contains_key(t) ==> exists|j: int|
                0 <= j < rows.len() && N::text((#[trigger] rows[j]).0) == t,
    ensures
        nat_rows(texts).reverse() == text_pairs::<N>(
            counts_of(rows_map(rows)),
        ).to_sorted_seq(text_descending()),
{
    let m = counts_of(rows_map(rows));
    let asc = nat_rows(texts);
    let desc = asc.reverse();
    let leq = text_descending();
    let f = |r: (N::V, nat)| (N::text(r.0), r.1);
    lemma_rows_pairs::<N>(rows);
    lemma_rows_pairs::<String>(texts);
    lemma_text_descending_total();
    assert forall|p: (Seq<char>, nat)| asc.to_set().contains(p) <==> text_pairs::<N>(
        m,
    ).contains(p) by {
        if asc.to_set().contains(p) {
            assert(counts_of(rows_map(texts)).kv_pairs().contains(p));
            assert(rows_map(texts).contains_key(p.0));
            let j = choose|j: int| 0 <= j < rows.len() && N::text((#[trigger] rows[j]).0) == p.0;
            lemma_rows_lookup::<N, usize>(rows, j);
            let q = (rows[j].0, rows[j].1 as nat);
            assert(m.kv_pairs().contains(q));
            assert(f(q) == p);
        }
        if text_pairs::<N>(m).contains(p) {
            let q = choose|q: (N::V, nat)| m.kv_pairs().contains(q) && p == f(q);
            let j = choose|j: int| #[trigger] is_row(rows, q.0, j);
            lemma_rows_lookup::<N, usize>(rows, j);
            assert(rows_map(texts).contains_key(N::text(rows[j].0)));
            assert(counts_of(rows_map(texts)).kv_pairs().contains(p));
        }
    }
    assert(asc.to_set() =~= text_pairs::<N>(m));
    assert forall|p: (Seq<char>, nat)| asc.to_set().contains(p) <==> desc.to_set().contains(p) by {
        if asc.contains(p) {
            let i = choose|i: int| 0 <= i < asc.len() && asc[i] == p;
            assert(desc[asc.len() - 1 - i] == p);
        }
        if desc.contains(p) {
            let i = choose|i: int| 0 <= i < desc.len() && desc[i] == p;
            assert(asc[asc.len() - 1 - i] == p);
        }
    }
    assert(desc.to_set() =~= asc.to_set());
    assert(sorted_by(desc, leq)) by {
        assert forall|i: int, j: int| 0 <= i < j < desc.len() implies #[trigger] leq(
            desc[i],
            desc[j],
        ) by {
            let a = asc.len() - 1 - j;
            let b = asc.len() - 1 - i;
            assert(text_before(texts[a].0, texts[b].0));
        }
    }
    assert(desc.no_duplicates());
    vstd::seq_lib::seq_to_set_is_finite(desc);
    lemma_sorted_seq(text_pairs::<N>(m), desc, leq);
}

/// To count a value some times adds just that to its count, and leaves every other count.
pub proof fn law_bag_add<A>(m: Map<A, nat>, n: A, amount: nat, a: A)
    ensures
        bag_add(m, n, amount).contains_key(n),
        m.contains_key(n) ==> bag_add(m, n, amount)[n] == m[n] + amount,
        !m.contains_key(n) ==> bag_add(m, n, amount)[n] == amount,
        a != n ==> (bag_add(m, n, amount).contains_key(a) <==> m.contains_key(a)),
        a != n && m.contains_key(a) ==> bag_add(m, n, amount)[a] == m[a],
        bag_count(m, a) == if m.contains_key(a) {
            m[a]
        } else {
            0
        },
{
}

/// A text is listed with the count of the value that it is the text of.
pub proof fn law_text_rows<K: Key>(rows: Seq<(K::V, nat)>, i: int)
    requires
        0 <= i < rows.len(),
    ensures
        text_rows::<K>(rows).len() == rows.len(),
        text_rows::<K>(rows)[i].0 == K::text(rows[i].0),
        text_rows::<K>(rows)[i].1 == rows[i].1,
{
}

/// An array of texts has one object for each, in their order: the text under `key`, the count under
/// `value`, and nothing else.
pub proof fn law_texts_json(rows: Seq<(Seq<char>, nat)>, i: int)
    requires
        0 <= i < rows.len(),
    ensures
        texts_json(rows) is Array,
        texts_json(rows)->Array_0.len() == rows.len(),
        ({
            let row = texts_json(rows)->Array_0[i];
            &&& row is Object
            &&& row->Object_0.dom() == set!["key"@, "value"@]
            &&& row->Object_0["key"@] == Json::Text(rows[i].0)
            &&& row->Object_0["value"@] == Json::Number(rows[i].1 as int)
        }),
{
    lemma_row_names();
    let row = texts_json(rows)->Array_0[i];
    assert(row->Object_0.dom() =~= set!["key"@, "value"@]);
}

/// The first rows of a list are its own, as many as asked for, or all of it.
pub proof fn law_first<A>(s: Seq<A>, n: nat)
    ensures
        first(s, n).len() == if n < s.len() {
            n
        } else {
            s.len()
        },
        forall|i: int| 0 <= i < first(s, n).len() ==> #[trigger] first(s, n)[i] == s[i],
{
}

/// The largest texts: each row is the text of a value with its count, a larger text stands first,
/// and no text that is left out is larger than one that is listed.
pub proof fn law_max_rows<K: Key>(m: Map<K::V, nat>, n: nat)
    requires
        m.dom().finite(),
    ensures
        ({
            let rows = max_rows::<K>(m, n);
            &&& rows.len() == if n < m.dom().len() {
                n
            } else {
                m.dom().len()
            }
            &&& forall|i: int|
                0 <= i < rows.len() ==> exists|k: K::V| #[trigger]
                    m.contains_key(k) && #[trigger] rows[i] == (K::text(k), m[k])
            &&& forall|i: int, j: int|
                0 <= i < j < rows.len() ==> text_before(
                    (#[trigger] rows[j]).0,
                    (#[trigger] rows[i]).0,
                )
            &&& forall|i: int, k: K::V|
                0 <= i < rows.len() && #[trigger] m.contains_key(k) && !rows.contains(
                    (K::text(k), m[k]),
                ) ==> text_before(K::text(k), (#[trigger] rows[i]).0)
        }),
{
    let s = text_pairs::<K>(m);
    let leq = text_descending();
    let all = s.to_sorted_seq(leq);
    let rows = max_rows::<K>(m, n);
    lemma_text_pairs::<K>(m);
    lemma_text_descending_total();
    lemma_sorted_facts(s, leq);
    assert forall|i: int| 0 <= i < all.len() implies exists|k: K::V| #[trigger]
        m.contains_key(k) && #[trigger] all[i] == (K::text(k), m[k]) by {
        assert(all.contains(all[i]));
        let p = choose|p: (K::V, nat)| #[trigger]
            m.kv_pairs().contains(p) && (K::text(p.0), p.1) == all[i];
        assert(m.contains_key(p.0));
    }
    assert forall|i: int, j: int| 0 <= i < j < all.len() implies text_before(
        (#[trigger] all[j]).0,
        (#[trigger] all[i]).0,
    ) by {
        assert(leq(all[i], all[j]));
        assert(all[i] != all[j]);
        let a = choose|k: K::V| #[trigger] m.contains_key(k) && all[i] == (K::text(k), m[k]);
        let b = choose|k: K::V| #[trigger] m.contains_key(k) && all[j] == (K::text(k), m[k]);
        if all[i].0 == all[j].0 {
            K::text_injective(a, b);
        }
    }
    assert forall|i: int, k: K::V|
        0 <= i < rows.len() && #[trigger] m.contains_key(k) && !rows.contains(
            (K::text(k), m[k]),
        ) implies text_before(K::text(k), (#[trigger] rows[i]).0) by {
        assert(m.kv_pairs().contains((k, m[k])));
        assert(s.contains((K::text(k), m[k])));
        assert(all.contains((K::text(k), m[k])));
        let j = choose|j: int| 0 <= j < all.len() && all[j] == (K::text(k), m[k]);
        if j < rows.len() {
            assert(rows[j] == (K::text(k), m[k]));
        }
        assert(rows[i] == all[i]);
    }
    assert forall|i: int| 0 <= i < rows.len() implies exists|k: K::V| #[trigger]
        m.contains_key(k) && #[trigger] rows[i] == (K::text(k), m[k]) by {
        assert(rows[i] == all[i]);
    }
}

/// A map of counts has as many pairs with texts as keys.
proof fn lemma_text_pairs<K: Key>(m: Map<K::V, nat>)
    requires
        m.dom().finite(),
    ensures
        text_pairs::<K>(m).finite(),
        text_pairs::<K>(m).len() == m.dom().len(),
    decreases m.dom().len(),
{
    broadcast use vstd::set::group_set_axioms;

    let s = text_pairs::<K>(m);
    if m.dom().len() == 0 {
        assert(m.kv_pairs() =~= Set::empty());
        assert(s =~= Set::empty());
    } else {
        let k = m.dom().choose();
        let rest = m.remove(k);
        let t = text_pairs::<K>(rest);
        lemma_text_pairs::<K>(rest);
        let row = (K::text(k), m[k]);
        assert forall|p: (Seq<char>, nat)| s.contains(p) <==> t.insert(row).contains(p) by {
            if s.contains(p) {
                let q = choose|q: (K::V, nat)| #[trigger]
                    m.kv_pairs().contains(q) && (K::text(q.0), q.1) == p;
                if q.0 != k {
                    assert(rest.kv_pairs().contains(q));
                }
            }
            if t.contains(p) {
                let q = choose|q: (K::V, nat)| #[trigger]
                    rest.kv_pairs().contains(q) && (K::text(q.0), q.1) == p;
                assert(m.kv_pairs().contains(q));
            }
            if p == row {
                assert(m.kv_pairs().contains((k, m[k])));
            }
        }
        assert(s =~= t.insert(row));
        if t.contains(row) {
            let q = choose|q: (K::V, nat)| #[trigger]
                rest.kv_pairs().contains(q) && (K::text(q.0), q.1) == row;
            K::text_injective(q.0, k);
        }
    }
}

/// A list of strings with counts is that of their texts, in their order.
pub proof fn law_texts_of(v: Seq<(String, usize)>, i: int)
    requires
        0 <= i < v.len(),
    ensures
        texts_of(v).len() == v.len(),
        texts_of(v)[i].0 == v[i].0@,
        texts_of(v)[i].1 == v[i].1,
{
}

} // verus!
