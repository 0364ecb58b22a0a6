//! The most frequent values of a stream, counted in bounded space.

use crate::json::json_of;
use crate::key::Key;
use crate::ranking::{rows_json, top_rows, top_value};
use crate::sorted_map::{
    counts_at_most, decremented, lemma_rows_insert, lemma_rows_keys, lemma_rows_lookup, SortedMap,
};
use serde_json::Value;
use vstd::prelude::*;

verus! {

/// What a [`TopN`] is: the number of counters it may hold, and its counters.
#[verifier::ext_equal]
#[verifier::reject_recursive_types(A)]
pub struct TopView<A> {
    pub k: nat,
    pub counts: Map<A, nat>,
}

impl<A> TopView<A> {
    /// No counter yet, and room for `k`.
    pub open spec fn empty(k: nat) -> Self {
        TopView { k, counts: Map::empty() }
    }

    /// One more occurrence of `n`: its counter grows; where it has none it gets one while there
    /// is room; where there is no room every counter shrinks instead.
    pub open spec fn inc(self, n: A) -> Self {
        if self.counts.contains_key(n) {
            TopView { k: self.k, counts: self.counts.insert(n, self.counts[n] + 1) }
        } else if self.counts.dom().len() < self.k {
            TopView { k: self.k, counts: self.counts.insert(n, 1) }
        } else {
            TopView { k: self.k, counts: decremented(self.counts) }
        }
    }

    /// A sequence of occurrences, first to last.
    pub open spec fn inc_all(self, s: Seq<A>) -> Self
        decreases s.len(),
    {
        if s.len() == 0 {
            self
        } else {
            self.inc_all(s.drop_last()).inc(s.last())
        }
    }

    /// The counter of `n`, or nothing.
    pub open spec fn count(self, n: A) -> nat {
        if self.counts.contains_key(n) {
            self.counts[n]
        } else {
            0
        }
    }

    /// At most `k` counters, and none that is zero.
    pub open spec fn wf(self) -> bool {
        &&& self.counts.dom().finite()
        &&& self.counts.dom().len() <= self.k
        &&& forall|a: A| #[trigger] self.counts.contains_key(a) ==> self.counts[a] >= 1
    }

    /// Whether no counter is larger than `bound`.
    pub open spec fn at_most(self, bound: nat) -> bool {
        counts_at_most(self.counts, bound)
    }
}

/// The most frequent values of a stream.
///
/// A value that makes up more than one in `k + 1` of the stream has a counter.
pub struct TopN<N> {
    k: usize,
    counters: SortedMap<N, usize>,
}

impl<N: Key> View for TopN<N> {
    type V = TopView<N::V>;

    closed spec fn view(&self) -> TopView<N::V> {
        TopView { k: self.k as nat, counts: self.counters.counts() }
    }
}

impl<N: Key> TopN<N> {
    /// The counters stand in order.
    pub closed spec fn ordered(self) -> bool {
        self.counters.wf()
    }

    /// The counters stand in order, there are at most `k`, and none is zero.
    pub open spec fn wf(self) -> bool {
        self.ordered() && self@.wf() && self@.at_most(usize::MAX as nat)
    }

    /// An empty table with two counters for each of the `top_amount` values to be reported.
    pub fn new(top_amount: usize) -> (t: Self)
        requires
            2 * top_amount <= usize::MAX,
        ensures
            t.wf(),
            t@ == TopView::<N::V>::empty(2 * top_amount as nat),
    {
        let t = TopN { k: top_amount * 2, counters: SortedMap::new() };
        proof {
            assert(t@.counts =~= Map::<N::V, nat>::empty());
        }
        t
    }

    /// Counts one occurrence of `n`.
    pub fn inc(&mut self, n: N)
        requires
            old(self).wf(),
            old(self)@.inc(n@).at_most(usize::MAX as nat),
        ensures
            final(self).wf(),
            final(self)@ == old(self)@.inc(n@),
    {
        proof {
            lemma_rows_keys::<N, usize>(self.counters.rows());
            assert(self@.counts.dom() =~= self.counters@.dom());
            lemma_inc_wf(self@, n@);
        }
        match self.counters.find(&n) {
            Ok(i) => {
                proof {
                    lemma_rows_lookup::<N, usize>(self.counters.rows(), i as int);
                    assert(self@.counts[n@] == self.counters.rows()[i as int].1);
                    assert(self@.inc(n@).counts.contains_key(n@));
                }
                let slot = self.counters.value_mut(i);
                *slot += 1;
                proof {
                    assert(self@.counts =~= old(self)@.inc(n@).counts);
                }
            },
            Err(i) => {
                proof {
                    lemma_rows_insert::<N, usize>(
                        self.counters.rows(),
                        i as int,
                        n@,
                        1,
                    );
                }
                if self.counters.len() < self.k {
                    self.counters.insert_at(i, n, 1);
                    proof {
                        assert(self@.counts =~= old(self)@.inc(n@).counts);
                    }
                } else {
                    proof {
                        let rows = self.counters.rows();
                        assert forall|j: int| 0 <= j < rows.len() implies (#[trigger] rows[j]).1
                            >= 1 by {
                            lemma_rows_lookup::<N, usize>(rows, j);
                            assert(self@.counts.contains_key(rows[j].0));
                        }
                    }
                    self.counters.decrement();
                }
            },
        }
    }

    /// Whether one more occurrence of `n` keeps its counter within its type.
    pub fn can_inc(&self, n: &N) -> (r: bool)
        requires
            self.wf(),
        ensures
            r == self@.inc(n@).at_most(usize::MAX as nat),
    {
        let r = self.counters.count(n) < usize::MAX;
        proof {
            let next = self@.inc(n@);
            if !r {
                assert(next.counts.contains_key(n@));
            }
            assert forall|a: N::V| r && #[trigger] next.counts.contains_key(a) implies next.counts[a]
                <= usize::MAX by {
                if self@.counts.contains_key(a) {
                    assert(self@.counts[a] <= usize::MAX);
                }
            }
        }
        r
    }

    /// A second table with the same counters.
    pub fn copied(&self) -> (t: Self)
        requires
            self.wf(),
        ensures
            t.wf(),
            t@ == self@,
    {
        TopN { k: self.k, counters: self.counters.copied() }
    }

    /// Whether every counter leaves room for `work` more.
    pub fn has_room(&self, work: usize) -> (r: bool)
        requires
            self.wf(),
        ensures
            r == self@.at_most((usize::MAX - work) as nat),
    {
        self.counters.leaves_room(work)
    }

    /// Writes the `top_amount` largest counters.
    pub fn serialize(&self, top_amount: usize) -> (v: Value)
        requires
            self.wf(),
        ensures
            json_of(v) == rows_json::<N>(top_rows::<N>(self@.counts, top_amount as nat)),
    {
        top_value(&self.counters, top_amount)
    }
}

/// One more occurrence keeps a table well formed.
pub proof fn lemma_inc_wf<A>(t: TopView<A>, n: A)
    requires
        t.wf(),
    ensures
        t.inc(n).wf(),
{
    let next = t.inc(n);
    if t.counts.contains_key(n) {
        assert(next.counts.dom() =~= t.counts.dom());
    } else if t.counts.dom().len() < t.k {
        assert(next.counts.dom() =~= t.counts.dom().insert(n));
    } else {
        assert(next.counts.dom().subset_of(t.counts.dom()));
        vstd::set_lib::lemma_len_subset(next.counts.dom(), t.counts.dom());
    }
}

/// How often `x` occurs in a stream.
pub open spec fn occurrences<A>(s: Seq<A>, x: A) -> nat {
    s.to_multiset().count(x)
}

/// The sum of all counters.
spec fn total<A>(m: Map<A, nat>) -> nat
    decreases m.dom().len(),
{
    if m.dom().finite() && m.dom().len() > 0 {
        let a = m.dom().choose();
        m[a] + total(m.remove(a))
    } else {
        0
    }
}

/// How often the counters shrank while a stream was counted.
spec fn shrinks<A>(t: TopView<A>, s: Seq<A>) -> nat
    decreases s.len(),
{
    if s.len() == 0 {
        0
    } else {
        let before = t.inc_all(s.drop_last());
        if before.counts.contains_key(s.last()) || before.counts.dom().len() < before.k {
            shrinks(t, s.drop_last())
        } else {
            shrinks(t, s.drop_last()) + 1
        }
    }
}

proof fn lemma_total_remove<A>(m: Map<A, nat>, a: A)
    requires
        m.dom().finite(),
        m.contains_key(a),
    ensures
        total(m) == m[a] + total(m.remove(a)),
    decreases m.dom().len(),
{
    let c = m.dom().choose();
    assert(m.dom().contains(c));
    if c != a {
        assert(m.remove(c).dom() =~= m.dom().remove(c));
        assert(m.remove(a).dom() =~= m.dom().remove(a));
        lemma_total_remove(m.remove(c), a);
        lemma_total_remove(m.remove(a), c);
        assert(m.remove(c).remove(a) =~= m.remove(a).remove(c));
    }
}

proof fn lemma_total_insert<A>(m: Map<A, nat>, a: A, n: nat)
    requires
        m.dom().finite(),
    ensures
        total(m.insert(a, n)) == total(m) + n - (if m.contains_key(a) {
            m[a]
        } else {
            0
        }),
{
    let next = m.insert(a, n);
    assert(next.dom() =~= m.dom().insert(a));
    lemma_total_remove(next, a);
    if m.contains_key(a) {
        lemma_total_remove(m, a);
        assert(next.remove(a) =~= m.remove(a));
    } else {
        assert(next.remove(a) =~= m);
    }
}

proof fn lemma_total_decremented<A>(m: Map<A, nat>)
    requires
        m.dom().finite(),
        forall|a: A| #[trigger] m.contains_key(a) ==> m[a] >= 1,
    ensures
        total(decremented(m)) + m.dom().len() == total(m),
    decreases m.dom().len(),
{
    let less = decremented(m);
    assert(less.dom().subset_of(m.dom()));
    vstd::set_lib::lemma_len_subset(less.dom(), m.dom());
    if m.dom().len() > 0 {
        let a = m.dom().choose();
        assert(m.dom().contains(a));
        let rest = m.remove(a);
        assert(rest.dom() =~= m.dom().remove(a));
        lemma_total_decremented(rest);
        if m[a] > 1 {
            lemma_total_remove(less, a);
            assert(less.remove(a) =~= decremented(rest));
        } else {
            assert(less =~= decremented(rest));
        }
    }
}

proof fn lemma_stream<A>(k: nat, s: Seq<A>)
    ensures
        TopView::<A>::empty(k).inc_all(s).wf(),
        TopView::<A>::empty(k).inc_all(s).k == k,
        total(TopView::<A>::empty(k).inc_all(s).counts) + shrinks(TopView::<A>::empty(k), s) * (k
            + 1) == s.len(),
        forall|x: A|
            TopView::<A>::empty(k).inc_all(s).count(x) <= #[trigger] occurrences(s, x)
                <= TopView::<A>::empty(k).inc_all(s).count(x) + shrinks(TopView::<A>::empty(k), s),
    decreases s.len(),
{
    broadcast use vstd::multiset::group_multiset_axioms;
    broadcast use vstd::seq_lib::group_to_multiset_ensures;

    let start = TopView::<A>::empty(k);
    if s.len() == 0 {
        assert(start.counts.dom() =~= Set::<A>::empty());
        assert(0 * (k + 1) == 0) by (nonlinear_arith);
        assert forall|x: A| #[trigger] occurrences(s, x) == 0 by {
            assert(!s.contains(x));
        }
    } else {
        let front = s.drop_last();
        let last = s.last();
        lemma_stream(k, front);
        let before = start.inc_all(front);
        lemma_inc_wf(before, last);
        let d = shrinks(start, front);
        if before.counts.contains_key(last) {
            lemma_total_insert(before.counts, last, before.counts[last] + 1);
        } else if before.counts.dom().len() < before.k {
            lemma_total_insert(before.counts, last, 1);
        } else {
            lemma_total_decremented(before.counts);
            assert(shrinks(start, s) == d + 1);
            assert((d + 1) * (k + 1) == d * (k + 1) + (k + 1)) by (nonlinear_arith);
        }
        assert(s =~= front.push(last));
        assert forall|x: A|
            start.inc_all(s).count(x) <= #[trigger] occurrences(s, x) <= start.inc_all(s).count(x)
                + shrinks(start, s) by {
            assert(occurrences(s, x) == occurrences(front, x) + (if x == last {
                1nat
            } else {
                0
            }));
            assert(before.count(x) <= occurrences(front, x) <= before.count(x) + d);
        }
    }
}

/// However long a stream is, its table holds at most `k` counters, and none that is zero.
pub proof fn law_top_bounded<A>(k: nat, s: Seq<A>)
    ensures
        TopView::<A>::empty(k).inc_all(s).k == k,
        TopView::<A>::empty(k).inc_all(s).wf(),
{
    lemma_stream(k, s);
}

/// A counter never exceeds the number of occurrences of its value, and falls short of it by at
/// most one in `k + 1` of the stream.
pub proof fn law_top_error<A>(k: nat, s: Seq<A>, x: A)
    ensures
        TopView::<A>::empty(k).inc_all(s).count(x) <= occurrences(s, x),
        (occurrences(s, x) - TopView::<A>::empty(k).inc_all(s).count(x)) * (k + 1) <= s.len(),
{
    lemma_stream(k, s);
    let d = shrinks(TopView::<A>::empty(k), s);
    let e = occurrences(s, x) - TopView::<A>::empty(k).inc_all(s).count(x);
    assert(e * (k + 1) <= d * (k + 1)) by (nonlinear_arith)
        requires
            e <= d,
            k >= 0,
    ;
}

/// A value that makes up more than one in `k + 1` of a stream has a counter at its end.
pub proof fn law_top_keeps_frequent<A>(k: nat, s: Seq<A>, x: A)
    requires
        occurrences(s, x) * (k + 1) > s.len(),
    ensures
        TopView::<A>::empty(k).inc_all(s).counts.contains_key(x),
{
    law_top_error(k, s, x);
}

/// A stream with no more distinct values than there are counters is counted exactly.
pub proof fn law_top_exact<A>(k: nat, s: Seq<A>, x: A)
    requires
        s.to_set().len() <= k,
    ensures
        TopView::<A>::empty(k).inc_all(s).count(x) == occurrences(s, x),
{
    lemma_exact(k, s);
    lemma_stream(k, s);
}

proof fn lemma_exact<A>(k: nat, s: Seq<A>)
    requires
        s.to_set().len() <= k,
    ensures
        shrinks(TopView::<A>::empty(k), s) == 0,
        TopView::<A>::empty(k).inc_all(s).counts.dom() == s.to_set(),
    decreases s.len(),
{
    let start = TopView::<A>::empty(k);
    if s.len() == 0 {
        assert(start.counts.dom() =~= s.to_set());
    } else {
        let front = s.drop_last();
        let last = s.last();
        assert(s.to_set() =~= front.to_set().insert(last)) by {
            assert forall|x: A| s.to_set().contains(x) <==> front.to_set().insert(last).contains(x) by {
                if s.contains(x) {
                    let i = choose|i: int| 0 <= i < s.len() && s[i] == x;
                    if i < front.len() {
                        assert(front[i] == x);
                    }
                }
                if front.contains(x) {
                    let i = choose|i: int| 0 <= i < front.len() && front[i] == x;
                    assert(s[i] == x);
                }
                assert(s[s.len() - 1] == last);
            }
        }
        vstd::seq_lib::seq_to_set_is_finite(front);
        lemma_exact(k, front);
        let before = start.inc_all(front);
        lemma_stream(k, front);
        assert(start.inc_all(s).counts.dom() =~= s.to_set());
    }
}

/// What one occurrence does to the counters. Where the value has a counter, or there is room for
/// one, its count grows by one and all others stay. Where there is neither, every count falls by
/// one, and the value gets none.
pub proof fn law_top_step<A>(t: TopView<A>, n: A, a: A)
    requires
        t.wf(),
    ensures
        t.inc(n).k == t.k,
        t.counts.contains_key(n) || t.counts.dom().len() < t.k ==> t.inc(n).count(a) == t.count(a)
            + if a == n {
            1int
        } else {
            0
        },
        !t.counts.contains_key(n) && t.counts.dom().len() >= t.k ==> t.inc(n).count(n) == 0 && (
        t.counts.contains_key(a) ==> t.inc(n).count(a) == t.count(a) - 1) && (
        !t.counts.contains_key(a) ==> t.inc(n).count(a) == 0),
        t.inc(n).wf(),
{
    lemma_inc_wf(t, n);
    if t.counts.contains_key(a) {
        assert(t.counts[a] >= 1);
    }
}

/// A stream is counted value by value, from the first to the last. An empty table has no counter.
pub proof fn law_top_stream<A>(t: TopView<A>, s: Seq<A>, x: A, k: nat)
    ensures
        t.inc_all(Seq::empty()) == t,
        t.inc_all(s.push(x)) == t.inc_all(s).inc(x),
        TopView::<A>::empty(k).k == k,
        TopView::<A>::empty(k).counts.is_empty(),
{
    assert(s.push(x).drop_last() =~= s);
}

} // verus!
