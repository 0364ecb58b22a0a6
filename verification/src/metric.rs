//! Metrics over the values of requests.

use crate::json::{
    json_of, members_of, new_members, object_value, set_member, signed_value, unsigned_value, Json,
};
use crate::key::Key;
use crate::ranking::{rows_json, top_rows, top_value};
use crate::settings::Settings;
use crate::sketch::Item;
use crate::sorted_map::{
    is_row, lemma_rows_insert, lemma_rows_lookup, SortedMap,
};
use crate::top::{TopN, TopView};
use pdatastructs::hyperloglog::HyperLogLog;
use serde_json::Value;
use vstd::prelude::*;

verus! {

/// What a [`Metric`] is.
#[verifier::ext_equal]
#[verifier::reject_recursive_types(A)]
pub struct MetricView<A> {
    /// How many bits select a register of its sketches.
    pub bits: nat,
    /// The distinct values seen.
    pub unique: Set<A>,
    /// Those of blocked requests.
    pub unique_blocked: Set<A>,
    /// Those of requests that passed.
    pub unique_passed: Set<A>,
    /// The most frequent values of blocked requests.
    pub top_blocked: TopView<A>,
    /// The most frequent values of requests that passed.
    pub top_passed: TopView<A>,
}

impl<A> MetricView<A> {
    /// Nothing seen yet.
    pub open spec fn empty(bits: nat, k: nat) -> Self {
        MetricView {
            bits,
            unique: Set::empty(),
            unique_blocked: Set::empty(),
            unique_passed: Set::empty(),
            top_blocked: TopView::empty(k),
            top_passed: TopView::empty(k),
        }
    }

    /// One more request with the value `n`.
    pub open spec fn inc(self, n: A, blocked: bool) -> Self {
        if blocked {
            MetricView {
                unique: self.unique.insert(n),
                unique_blocked: self.unique_blocked.insert(n),
                top_blocked: self.top_blocked.inc(n),
                ..self
            }
        } else {
            MetricView {
                unique: self.unique.insert(n),
                unique_passed: self.unique_passed.insert(n),
                top_passed: self.top_passed.inc(n),
                ..self
            }
        }
    }

    /// Whether no counter is larger than `bound`.
    pub open spec fn at_most(self, bound: nat) -> bool {
        self.top_blocked.at_most(bound) && self.top_passed.at_most(bound)
    }
}

/// The distinct values of a part of a request, and the most frequent ones.
#[verifier::reject_recursive_types(T)]
pub struct Metric<T: Item> {
    unique: HyperLogLog<T>,
    unique_blocked: HyperLogLog<T>,
    unique_passed: HyperLogLog<T>,
    top_blocked: TopN<T>,
    top_passed: TopN<T>,
}

/// What the sketches of a [`Metric`] gave.
pub struct MetricEstimate {
    pub unique: usize,
    pub unique_blocked: usize,
    pub unique_passed: usize,
}

impl MetricEstimate {
    /// Whether the sketches of a metric may give these numbers.
    pub open spec fn possible<T: Item>(self, m: MetricView<T::V>) -> bool {
        &&& T::estimate(m.bits, m.unique, self.unique as nat)
        &&& T::estimate(m.bits, m.unique_blocked, self.unique_blocked as nat)
        &&& T::estimate(m.bits, m.unique_passed, self.unique_passed as nat)
        &&& m.unique == Set::<T::V>::empty() ==> self.unique == 0
        &&& m.unique_blocked == Set::<T::V>::empty() ==> self.unique_blocked == 0
        &&& m.unique_passed == Set::<T::V>::empty() ==> self.unique_passed == 0
    }
}

/// The members that a metric adds to a report, each named after the part `tp` of the request.
pub open spec fn metric_members<T: Key>(
    members: Map<Seq<char>, Json>,
    tp: Seq<char>,
    m: MetricView<T::V>,
    estimate: MetricEstimate,
    top_amount: nat,
) -> Map<Seq<char>, Json> {
    members.insert("unique_"@ + tp, Json::Number(estimate.unique as int)).insert(
        "unique_blocked_"@ + tp,
        Json::Number(estimate.unique_blocked as int),
    ).insert("unique_passed_"@ + tp, Json::Number(estimate.unique_passed as int)).insert(
        "top_blocked_"@ + tp,
        rows_json::<T>(top_rows::<T>(m.top_blocked.counts, top_amount)),
    ).insert(
        "top_passed_"@ + tp,
        rows_json::<T>(top_rows::<T>(m.top_passed.counts, top_amount)),
    )
}

impl<T: Item> View for Metric<T> {
    type V = MetricView<T::V>;

    closed spec fn view(&self) -> MetricView<T::V> {
        MetricView {
            bits: T::bits(self.unique),
            unique: T::items(self.unique),
            unique_blocked: T::items(self.unique_blocked),
            unique_passed: T::items(self.unique_passed),
            top_blocked: self.top_blocked@,
            top_passed: self.top_passed@,
        }
    }
}

impl<T: Item> Metric<T> {
    /// The sketches have one size, and the counters stand in order.
    pub closed spec fn ordered(self) -> bool {
        &&& T::bits(self.unique_blocked) == T::bits(self.unique)
        &&& T::bits(self.unique_passed) == T::bits(self.unique)
        &&& self.top_blocked.ordered()
        &&& self.top_passed.ordered()
    }

    /// The sketches have one size, and the tables are well formed.
    pub open spec fn wf(self) -> bool {
        &&& self.ordered()
        &&& self@.top_blocked.wf()
        &&& self@.top_passed.wf()
        &&& self@.at_most(usize::MAX as nat)
    }

    /// Nothing seen yet.
    pub fn new(settings: &Settings) -> (m: Self)
        requires
            settings.valid(),
        ensures
            m.wf(),
            m@ == MetricView::<T::V>::empty(
                settings.hyperloglog_size as nat,
                2 * settings.top_amount as nat,
            ),
    {
        Metric {
            unique: T::new_sketch(settings.hyperloglog_size),
            unique_blocked: T::new_sketch(settings.hyperloglog_size),
            unique_passed: T::new_sketch(settings.hyperloglog_size),
            top_blocked: TopN::new(settings.top_amount),
            top_passed: TopN::new(settings.top_amount),
        }
    }

    /// Counts a request with the value `n`.
    pub fn inc(&mut self, n: &T, blocked: bool)
        requires
            old(self).wf(),
            old(self)@.inc(n@, blocked).at_most(usize::MAX as nat),
        ensures
            final(self).wf(),
            final(self)@ == old(self)@.inc(n@, blocked),
    {
        n.add_to(&mut self.unique);
        if blocked {
            n.add_to(&mut self.unique_blocked);
            self.top_blocked.inc(n.copied());
        } else {
            n.add_to(&mut self.unique_passed);
            self.top_passed.inc(n.copied());
        }
    }

    /// Whether one more request with the value `n` keeps the counters within their type.
    pub fn can_inc(&self, n: &T, blocked: bool) -> (r: bool)
        requires
            self.wf(),
        ensures
            r == self@.inc(n@, blocked).at_most(usize::MAX as nat),
    {
        if blocked {
            self.top_blocked.can_inc(n)
        } else {
            self.top_passed.can_inc(n)
        }
    }

    /// Asks the sketches.
    pub fn estimate(&self) -> (e: MetricEstimate)
        requires
            self.wf(),
        ensures
            e.possible::<T>(self@),
    {
        MetricEstimate {
            unique: T::count_in(&self.unique),
            unique_blocked: T::count_in(&self.unique_blocked),
            unique_passed: T::count_in(&self.unique_passed),
        }
    }

    /// Adds the metric to a report, with what its sketches gave.
    pub fn serialize_estimate(
        &self,
        estimate: &MetricEstimate,
        tp: &str,
        mp: &mut serde_json::Map<String, Value>,
        top_amount: usize,
    )
        requires
            self.wf(),
        ensures
            members_of(*final(mp)) == metric_members::<T>(
                members_of(*old(mp)),
                tp@,
                self@,
                *estimate,
                top_amount as nat,
            ),
    {
        set_member(mp, "unique_".to_owned().concat(tp), unsigned_value(estimate.unique as u64));
        set_member(
            mp,
            "unique_blocked_".to_owned().concat(tp),
            unsigned_value(estimate.unique_blocked as u64),
        );
        set_member(
            mp,
            "unique_passed_".to_owned().concat(tp),
            unsigned_value(estimate.unique_passed as u64),
        );
        set_member(
            mp,
            "top_blocked_".to_owned().concat(tp),
            self.top_blocked.serialize(top_amount),
        );
        set_member(mp, "top_passed_".to_owned().concat(tp), self.top_passed.serialize(top_amount));
    }

    /// Adds the metric to a report.
    pub fn serialize_map(
        &self,
        tp: &str,
        mp: &mut serde_json::Map<String, Value>,
        top_amount: usize,
    )
        requires
            self.wf(),
        ensures
            exists|e: MetricEstimate| #[trigger]
                e.possible::<T>(self@) && members_of(*final(mp)) == metric_members::<T>(
                    members_of(*old(mp)),
                    tp@,
                    self@,
                    e,
                    top_amount as nat,
                ),
    {
        let e = self.estimate();
        self.serialize_estimate(&e, tp, mp, top_amount);
    }
}

/// What a [`UniqueTopNBy`] is.
#[verifier::ext_equal]
#[verifier::reject_recursive_types(A)]
#[verifier::reject_recursive_types(B)]
pub struct UniqueView<A, B> {
    /// How many bits select a register of its sketches.
    pub bits: nat,
    /// The distinct values seen with each key.
    pub seen: Map<A, Set<B>>,
}

impl<A, B> UniqueView<A, B> {
    /// Nothing seen yet.
    pub open spec fn empty(bits: nat) -> Self {
        UniqueView { bits, seen: Map::empty() }
    }

    /// The distinct values seen with a key.
    pub open spec fn with(self, n: A) -> Set<B> {
        if self.seen.contains_key(n) {
            self.seen[n]
        } else {
            Set::empty()
        }
    }

    /// The value `by` seen with the key `n`.
    pub open spec fn add(self, n: A, by: B) -> Self {
        UniqueView { bits: self.bits, seen: self.seen.insert(n, self.with(n).insert(by)) }
    }
}

/// Whether the sketches of a [`UniqueTopNBy`] may give these numbers, one for each key.
pub open spec fn unique_possible<A, B: Item>(u: UniqueView<A, B::V>, estimates: Map<A, nat>) -> bool {
    &&& estimates.dom() == u.seen.dom()
    &&& estimates.dom().finite()
    &&& forall|n: A| #[trigger]
        u.seen.contains_key(n) ==> B::estimate(u.bits, u.seen[n], estimates[n])
}

/// How many distinct values were seen with each key.
#[verifier::reject_recursive_types(B)]
pub struct UniqueTopNBy<N, B: Item> {
    size: usize,
    inner: SortedMap<N, HyperLogLog<B>>,
}

impl<N: Key, B: Item> View for UniqueTopNBy<N, B> {
    type V = UniqueView<N::V, B::V>;

    closed spec fn view(&self) -> UniqueView<N::V, B::V> {
        UniqueView {
            bits: self.size as nat,
            seen: self.inner@.map_values(|h: HyperLogLog<B>| B::items(h)),
        }
    }
}

impl<N: Key, B: Item> UniqueTopNBy<N, B> {
    /// The keys stand in order, and the sketches have one size.
    pub closed spec fn ordered(self) -> bool {
        &&& self.inner.wf()
        &&& 4 <= self.size <= 18
        &&& forall|n: N::V| #[trigger]
            self.inner@.contains_key(n) ==> B::bits(self.inner@[n]) == self.size
    }

    /// The keys stand in order and are finitely many, and the sketches have one size.
    pub open spec fn wf(self) -> bool {
        self.ordered() && self@.seen.dom().finite()
    }

    /// Nothing seen yet.
    pub fn new(settings: &Settings) -> (u: Self)
        requires
            settings.valid(),
        ensures
            u.wf(),
            u@ == UniqueView::<N::V, B::V>::empty(settings.hyperloglog_size as nat),
    {
        let u = UniqueTopNBy { size: settings.hyperloglog_size, inner: SortedMap::new() };
        proof {
            assert(u@.seen =~= Map::<N::V, Set<B::V>>::empty());
        }
        u
    }

    /// Adds a value seen with a key.
    pub fn add(&mut self, n: N, by: &B)
        requires
            old(self).wf(),
        ensures
            final(self).wf(),
            final(self)@ == old(self)@.add(n@, by@),
    {
        match self.inner.find(&n) {
            Ok(i) => {
                proof {
                    lemma_rows_lookup::<N, HyperLogLog<B>>(self.inner.rows(), i as int);
                    assert(self.inner@.contains_key(n@));
                }
                let entry = self.inner.value_mut(i);
                by.add_to(entry);
            },
            Err(i) => {
                let mut h = B::new_sketch(self.size);
                by.add_to(&mut h);
                proof {
                    lemma_rows_insert::<N, HyperLogLog<B>>(self.inner.rows(), i as int, n@, h);
                }
                self.inner.insert_at(i, n, h);
            },
        }
        proof {
            assert(self@.seen =~= old(self)@.add(n@, by@).seen);
        }
    }

    /// Asks the sketches.
    pub fn estimates(&self) -> (e: SortedMap<N, usize>)
        requires
            self.wf(),
        ensures
            e.wf(),
            unique_possible::<N::V, B>(self@, e.counts()),
    {
        let ghost rows = self.inner.rows();
        let mut e: SortedMap<N, usize> = SortedMap::new();
        let mut i: usize = 0;
        while i < self.inner.len()
            invariant
                self.wf(),
                rows == self.inner.rows(),
                i <= rows.len(),
                e.wf(),
                e.rows().len() == i,
                forall|j: int|
                    #![trigger e.rows()[j]]
                    0 <= j < i ==> e.rows()[j].0 == rows[j].0 && B::estimate(
                        self.size as nat,
                        B::items(rows[j].1),
                        e.rows()[j].1 as nat,
                    ),
            decreases rows.len() - i,
        {
            proof {
                lemma_rows_lookup::<N, HyperLogLog<B>>(rows, i as int);
                assert(self.inner@.contains_key(rows[i as int].0));
            }
            let n = B::count_in(self.inner.value_at(i));
            let key = self.inner.key_at(i).copied();
            proof {
                assert forall|j: int| 0 <= j < i implies N::before(
                    (#[trigger] e.rows()[j]).0,
                    key@,
                ) by {
                    assert(N::before(rows[j].0, rows[i as int].0));
                }
            }
            e.insert_at(i, key, n);
            i += 1;
        }
        proof {
            let er = e.rows();
            let m = e.counts();
            assert forall|n: N::V| m.dom().contains(n) <==> self@.seen.dom().contains(n) by {
                if m.dom().contains(n) {
                    let j = choose|j: int| #[trigger] is_row(er, n, j);
                    assert(er[j].0 == rows[j].0);
                    assert(is_row(rows, n, j));
                }
                if self@.seen.dom().contains(n) {
                    let j = choose|j: int| #[trigger] is_row(rows, n, j);
                    assert(er[j].0 == rows[j].0);
                    assert(is_row(er, n, j));
                }
            }
            assert(m.dom() =~= self@.seen.dom());
            assert forall|n: N::V| #[trigger] self@.seen.contains_key(n) implies B::estimate(
                self@.bits,
                self@.seen[n],
                m[n],
            ) by {
                let j = choose|j: int| #[trigger] is_row(rows, n, j);
                assert(er[j].0 == rows[j].0);
                lemma_rows_lookup::<N, HyperLogLog<B>>(rows, j);
                lemma_rows_lookup::<N, usize>(er, j);
            }
        }
        e
    }

    /// Writes the `top_amount` keys with the most distinct values, as the sketches estimate them.
    pub fn serialize(&self, top_amount: usize) -> (v: Value)
        requires
            self.wf(),
        ensures
            exists|e: Map<N::V, nat>| #[trigger]
                unique_possible::<N::V, B>(self@, e) && json_of(v) == rows_json::<N>(
                    top_rows::<N>(e, top_amount as nat),
                ),
    {
        let e = self.estimates();
        top_value(&e, top_amount)
    }
}

/// The range and the sum of a series of samples.
pub struct IntegerMetric {
    pub min: i64,
    pub max: i64,
    pub total: i64,
    pub n_sample: u64,
}

/// The members of a series in a report. `average` is its mean, which is no integer.
pub open spec fn integer_json(m: IntegerMetric, average: Json) -> Json {
    Json::Object(
        Map::empty().insert(
            "min"@,
            Json::Number(if m.n_sample == 0 {
                0
            } else {
                m.min as int
            }),
        ).insert(
            "max"@,
            Json::Number(if m.n_sample == 0 {
                0
            } else {
                m.max as int
            }),
        ).insert("average"@, average),
    )
}

impl IntegerMetric {
    /// Whether one more sample keeps the sum and the number of samples within their types.
    pub open spec fn takes(self, sample: i64) -> bool {
        self.n_sample < u64::MAX && i64::MIN <= self.total + sample <= i64::MAX
    }

    /// One more sample.
    pub open spec fn incremented(self, sample: i64) -> IntegerMetric {
        IntegerMetric {
            min: if sample < self.min {
                sample
            } else {
                self.min
            },
            max: if sample > self.max {
                sample
            } else {
                self.max
            },
            total: (self.total + sample) as i64,
            n_sample: (self.n_sample + 1) as u64,
        }
    }

    /// No sample yet.
    pub open spec fn empty() -> IntegerMetric {
        IntegerMetric { min: i64::MAX, max: i64::MIN, total: 0, n_sample: 0 }
    }

    /// Adds a sample.
    pub fn increment(&mut self, sample: i64)
        requires
            old(self).takes(sample),
        ensures
            *final(self) == old(self).incremented(sample),
    {
        self.n_sample += 1;
        if sample < self.min {
            self.min = sample;
        }
        if sample > self.max {
            self.max = sample;
        }
        self.total += sample;
    }

    /// Whether one more sample keeps the sum and the number of samples within their types.
    pub fn can_take(&self, sample: i64) -> (r: bool)
        ensures
            r == self.takes(sample),
    {
        self.n_sample < u64::MAX && self.total.checked_add(sample).is_some()
    }

    /// Writes the series. `average` is its mean, which is no integer.
    pub fn to_json(&self, average: Value) -> (v: Value)
        ensures
            json_of(v) == integer_json(*self, json_of(average)),
    {
        let mut m = new_members();
        if self.n_sample == 0 {
            set_member(&mut m, "min".to_owned(), signed_value(0));
            set_member(&mut m, "max".to_owned(), signed_value(0));
        } else {
            set_member(&mut m, "min".to_owned(), signed_value(self.min));
            set_member(&mut m, "max".to_owned(), signed_value(self.max));
        }
        set_member(&mut m, "average".to_owned(), average);
        object_value(m)
    }
}

impl Default for IntegerMetric {
    /// No sample yet.
    fn default() -> (m: Self)
        ensures
            m == IntegerMetric::empty(),
    {
        IntegerMetric { min: i64::MAX, max: i64::MIN, total: 0, n_sample: 0 }
    }
}

} // verus!
