//! The counters of the last seconds, by key.

use crate::clock::{elapsed_micros, processing_micros, utc_now, Timestamp};
use crate::counters::{texts, AggregatedCounters, CountersView};
use crate::key::same_text;
use crate::report::{AggregationKey, KeyView};
use crate::request::{BlockReason, Decision, RequestInfo, Tags};
use crate::settings::Settings;
use std::collections::BTreeMap;
use vstd::prelude::*;

verus! {

broadcast use {vstd::std_specs::btree::group_btree_axioms, vstd::laws_cmp::group_laws_cmp};

/// The entries of the seconds after `limit`.
pub open spec fn after<A>(m: Map<i64, A>, limit: int) -> Map<i64, A> {
    Map::new(|k: i64| m.contains_key(k) && k > limit, |k: i64| m[k])
}

proof fn lemma_take_contains(s: Seq<i64>, i: int)
    requires
        0 <= i < s.len(),
    ensures
        forall|k: i64| #[trigger]
            s.take(i + 1).contains(k) <==> s.take(i).contains(k) || k == s[i],
{
    let front = s.take(i);
    let next = s.take(i + 1);
    assert forall|k: i64| #[trigger] next.contains(k) <==> front.contains(k) || k == s[i] by {
        if next.contains(k) {
            let j = choose|j: int| 0 <= j < next.len() && next[j] == k;
            if j < i {
                assert(front[j] == k);
            }
        }
        if front.contains(k) {
            let j = choose|j: int| 0 <= j < front.len() && front[j] == k;
            assert(next[j] == k);
        }
        if k == s[i] {
            assert(next[i] == k);
        }
    }
}

/// Drops the entries up to `limit`.
fn drop_until<A>(mp: &mut BTreeMap<i64, A>, limit: i64)
    ensures
        final(mp)@ == after(old(mp)@, limit as int),
{
    let ghost start = mp@;
    let mut keys: Vec<i64> = Vec::new();
    for k in it: mp.keys()
        invariant
            it.seq().unref().to_set() == start.dom(),
            keys@ == it.seq().unref().take(it.index() as int),
            it.index() == it.seq().len() ==> keys@.to_set() == start.dom(),
    {
        keys.push(*k);
        assert(keys@ =~= it.seq().unref().take(it.index() + 1));
        assert(it.index() + 1 == it.seq().len() ==> keys@ =~= it.seq().unref());
    }
    let mut i: usize = 0;
    while i < keys.len()
        invariant
            i <= keys.len(),
            keys@.to_set() == start.dom(),
            forall|k: i64| #[trigger]
                mp@.contains_key(k) <==> start.contains_key(k) && !(k <= limit && keys@.take(
                    i as int,
                ).contains(k)),
            forall|k: i64| #[trigger] mp@.contains_key(k) ==> mp@[k] == start[k],
        decreases keys.len() - i,
    {
        let ghost before = mp@;
        proof {
            lemma_take_contains(keys@, i as int);
        }
        if keys[i] <= limit {
            mp.remove(&keys[i]);
            proof {
                assert(mp@ == before.remove(keys@[i as int]));
            }
        }
        i += 1;
    }
    proof {
        assert(keys@.take(i as int) =~= keys@);
        assert forall|k: i64| start.contains_key(k) implies #[trigger] keys@.contains(k) by {
            assert(keys@.to_set().contains(k));
        }
        assert(mp@ =~= after(start, limit as int));
    }
}

/// The counters of the last seconds, by key. The keys stand in the order of their first request.
pub struct Aggregated<A> {
    entries: Vec<(AggregationKey, BTreeMap<i64, A>)>,
}

impl<A> View for Aggregated<A> {
    type V = Seq<(KeyView, Map<i64, A>)>;

    closed spec fn view(&self) -> Seq<(KeyView, Map<i64, A>)> {
        self.entries@.map_values(|e: (AggregationKey, BTreeMap<i64, A>)| (e.0@, e.1@))
    }
}

/// Whether entry `i` is the one of a key.
pub open spec fn is_entry<A>(s: Seq<(KeyView, Map<i64, A>)>, key: KeyView, i: int) -> bool {
    0 <= i < s.len() && s[i].0 == key
}

/// Whether a key has an entry.
pub open spec fn has_key<A>(s: Seq<(KeyView, Map<i64, A>)>, key: KeyView) -> bool {
    exists|i: int| is_entry(s, key, i)
}

/// Whether no two entries have the same key.
pub open spec fn keys_distinct<A>(s: Seq<(KeyView, Map<i64, A>)>) -> bool {
    forall|i: int, j: int| 0 <= i < j < s.len() ==> (#[trigger] s[i]).0 != (#[trigger] s[j]).0
}

/// The seconds of a key.
pub open spec fn seconds_of<A>(s: Seq<(KeyView, Map<i64, A>)>, key: KeyView) -> Map<i64, A> {
    if has_key(s, key) {
        s[choose|i: int| is_entry(s, key, i)].1
    } else {
        Map::empty()
    }
}

/// The seconds of a key replaced. A new key goes to the end.
pub open spec fn with_seconds<A>(
    s: Seq<(KeyView, Map<i64, A>)>,
    key: KeyView,
    m: Map<i64, A>,
) -> Seq<(KeyView, Map<i64, A>)> {
    if has_key(s, key) {
        s.update(choose|i: int| is_entry(s, key, i), (key, m))
    } else {
        s.push((key, m))
    }
}

/// The seconds after `limit` of every key.
pub open spec fn pruned<A>(s: Seq<(KeyView, Map<i64, A>)>, limit: int) -> Seq<
    (KeyView, Map<i64, A>),
> {
    s.map_values(|e: (KeyView, Map<i64, A>)| (e.0, after(e.1, limit)))
}

/// Whether the first second that is kept is a machine number, where there is a second at all.
pub open spec fn prunable<A>(
    s: Seq<(KeyView, Map<i64, A>)>,
    curtime: i64,
    seconds_kept: i64,
) -> bool {
    (exists|i: int| 0 <= i < s.len() && !(#[trigger] s[i]).1.is_empty()) ==> i64::MIN <= curtime
        - seconds_kept <= i64::MAX
}

/// What counters are, second by second.
pub open spec fn counter_views(m: Map<i64, AggregatedCounters>) -> Map<i64, CountersView> {
    m.map_values(|c: AggregatedCounters| c@)
}

impl<A> Aggregated<A> {
    /// No two entries have the same key.
    pub open spec fn wf(self) -> bool {
        keys_distinct(self@)
    }

    /// No key yet.
    pub fn new() -> (a: Self)
        ensures
            a.wf(),
            a@ == Seq::<(KeyView, Map<i64, A>)>::empty(),
    {
        let a = Aggregated { entries: Vec::new() };
        proof {
            assert(a@ =~= Seq::<(KeyView, Map<i64, A>)>::empty());
        }
        a
    }

    /// How many keys there are.
    pub fn len(&self) -> (n: usize)
        ensures
            n == self@.len(),
    {
        self.entries.len()
    }

    /// A key.
    pub fn key_at(&self, i: usize) -> (key: &AggregationKey)
        requires
            i < self@.len(),
        ensures
            key@ == self@[i as int].0,
    {
        &self.entries[i].0
    }

    /// The seconds of a key.
    pub fn seconds_at(&self, i: usize) -> (m: &BTreeMap<i64, A>)
        requires
            i < self@.len(),
        ensures
            m@ == self@[i as int].1,
    {
        &self.entries[i].1
    }

    /// Whether [`prune_old_values`] can be called.
    pub fn can_prune(&self, curtime: i64, seconds_kept: i64) -> (r: bool)
        ensures
            r == prunable(self@, curtime, seconds_kept),
    {
        if curtime.checked_sub(seconds_kept).is_some() {
            return true;
        }
        let mut i: usize = 0;
        while i < self.entries.len()
            invariant
                i <= self.entries.len(),
                forall|j: int| 0 <= j < i ==> (#[trigger] self@[j]).1.is_empty(),
                !(i64::MIN <= curtime - seconds_kept <= i64::MAX),
            decreases self.entries.len() - i,
        {
            proof {
                assert(self@[i as int].1 == self.entries@[i as int].1@);
            }
            if !self.entries[i].1.is_empty() {
                return false;
            }
            i += 1;
        }
        true
    }

    /// Where a key has its entry.
    fn find(&self, key: &AggregationKey) -> (r: Option<usize>)
        ensures
            match r {
                Some(i) => is_entry(self@, key@, i as int),
                None => !has_key(self@, key@),
            },
    {
        let mut i: usize = 0;
        while i < self.entries.len()
            invariant
                i <= self.entries.len(),
                forall|j: int| 0 <= j < i ==> (#[trigger] self@[j]).0 != key@,
            decreases self.entries.len() - i,
        {
            if same_key(&self.entries[i].0, key) {
                return Some(i);
            }
            proof {
                assert(self@[i as int].0 == self.entries@[i as int].0@);
            }
            i += 1;
        }
        proof {
            assert forall|j: int| !is_entry(self@, key@, j) by {
                if 0 <= j < self@.len() {
                    assert(self@[j].0 != key@);
                }
            }
        }
        None
    }
}

/// Whether two keys are the same.
pub fn same_key(a: &AggregationKey, b: &AggregationKey) -> (r: bool)
    ensures
        r == (a@ == b@),
{
    let proxy = match (&a.proxy, &b.proxy) {
        (Some(x), Some(y)) => same_text(x.as_str(), y.as_str()),
        (None, None) => true,
        _ => false,
    };
    proxy && same_text(a.secpolid.as_str(), b.secpolid.as_str()) && same_text(
        a.secpolentryid.as_str(),
        b.secpolentryid.as_str(),
    )
}

/// Drops the counters of all seconds that are `seconds_kept` or more before `curtime`.
pub fn prune_old_values<A>(amp: &mut Aggregated<A>, curtime: i64, seconds_kept: i64)
    requires
        old(amp).wf(),
        prunable(old(amp)@, curtime, seconds_kept),
    ensures
        final(amp).wf(),
        final(amp)@ == pruned(old(amp)@, curtime - seconds_kept),
{
    let ghost start = amp@;
    let ghost want = pruned(start, curtime - seconds_kept);
    match curtime.checked_sub(seconds_kept) {
        None => {
            proof {
                assert forall|i: int| 0 <= i < start.len() implies start[i] == #[trigger] want[i] by {
                    assert(start[i].1 == amp.entries@[i].1@);
                    assert(start[i].1 =~= after(start[i].1, curtime - seconds_kept));
                }
                assert(start =~= want);
            }
        },
        Some(limit) => {
            let mut i: usize = 0;
            while i < amp.entries.len()
                invariant
                    i <= amp.entries.len(),
                    amp.entries.len() == start.len(),
                    limit == curtime - seconds_kept,
                    want == pruned(start, limit as int),
                    forall|j: int| 0 <= j < i ==> amp@[j] == #[trigger] want[j],
                    forall|j: int| i <= j < start.len() ==> amp@[j] == #[trigger] start[j],
                decreases amp.entries.len() - i,
            {
                let ghost before = amp@;
                proof {
                    assert(before[i as int] == start[i as int]);
                }
                drop_until(&mut amp.entries[i].1, limit);
                proof {
                    assert(amp@ =~= before.update(
                        i as int,
                        (start[i as int].0, after(start[i as int].1, limit as int)),
                    ));
                    assert(amp@[i as int] == want[i as int]);
                }
                i += 1;
            }
            proof {
                assert(amp@ =~= want);
            }
        },
    }
    proof {
        assert forall|i: int, j: int| 0 <= i < j < want.len() implies (#[trigger] want[i]).0 != (
        #[trigger] want[j]).0 by {
            assert(start[i].0 != start[j].0);
        }
    }
}

/// What is kept, as values: the counters of each key, second by second.
pub open spec fn states(s: Seq<(KeyView, Map<i64, AggregatedCounters>)>) -> Seq<
    (KeyView, Map<i64, CountersView>),
> {
    s.map_values(|e: (KeyView, Map<i64, AggregatedCounters>)| (e.0, counter_views(e.1)))
}

/// Whether all counters are well formed.
pub open spec fn all_wf(s: Seq<(KeyView, Map<i64, AggregatedCounters>)>) -> bool {
    forall|i: int, k: i64|
        0 <= i < s.len() && (#[trigger] s[i]).1.contains_key(k) ==> (#[trigger] s[i].1[k]).wf()
}

/// The counters of a key and a second, or those of a second without requests.
pub open spec fn counters_at(
    s: Seq<(KeyView, Map<i64, CountersView>)>,
    key: KeyView,
    secs: i64,
    empty: CountersView,
) -> CountersView {
    if seconds_of(s, key).contains_key(secs) {
        seconds_of(s, key)[secs]
    } else {
        empty
    }
}

/// The counters of a key and a second replaced.
pub open spec fn with_counters<A>(
    s: Seq<(KeyView, Map<i64, A>)>,
    key: KeyView,
    secs: i64,
    c: A,
) -> Seq<(KeyView, Map<i64, A>)> {
    with_seconds(s, key, seconds_of(s, key).insert(secs, c))
}

/// The counters of a second without requests.
pub open spec fn no_requests(settings: Settings) -> CountersView {
    CountersView::empty(settings.hyperloglog_size as nat, 2 * settings.top_amount as nat)
}

/// What a request is grouped by.
pub open spec fn key_of(rinfo: RequestInfo) -> KeyView {
    KeyView {
        proxy: match rinfo.container_name {
            Some(name) => Some(name@),
            None => None,
        },
        secpolid: rinfo.secpolicy_id@,
        secpolentryid: rinfo.secpolicy_entry_id@,
    }
}

/// The counters that a request is added to, once the seconds too long before it are dropped.
pub open spec fn target(
    s: Seq<(KeyView, Map<i64, CountersView>)>,
    settings: Settings,
    rinfo: RequestInfo,
) -> CountersView {
    counters_at(
        pruned(s, rinfo.timestamp.secs - settings.seconds_kept),
        key_of(rinfo),
        rinfo.timestamp.secs,
        no_requests(settings),
    )
}

/// What is kept after one more request.
pub open spec fn aggregated(
    s: Seq<(KeyView, Map<i64, CountersView>)>,
    settings: Settings,
    reasons: Seq<BlockReason>,
    rcode: Option<u32>,
    rinfo: RequestInfo,
    tags: Seq<Seq<char>>,
    processing_time: Option<i64>,
) -> Seq<(KeyView, Map<i64, CountersView>)> {
    with_counters(
        pruned(s, rinfo.timestamp.secs - settings.seconds_kept),
        key_of(rinfo),
        rinfo.timestamp.secs,
        target(s, settings, rinfo).incremented(reasons, rcode, rinfo, tags, processing_time),
    )
}

/// The entry of a key is the only one with that key.
pub proof fn lemma_entry<A>(s: Seq<(KeyView, Map<i64, A>)>, key: KeyView, i: int)
    requires
        keys_distinct(s),
        is_entry(s, key, i),
    ensures
        has_key(s, key),
        seconds_of(s, key) == s[i].1,
        forall|m: Map<i64, A>| #[trigger] with_seconds(s, key, m) == s.update(i, (key, m)),
{
    let j = choose|j: int| is_entry(s, key, j);
    assert(is_entry(s, key, j));
    if i < j {
        assert(s[i].0 != s[j].0);
    } else if j < i {
        assert(s[j].0 != s[i].0);
    }
}

/// Pruning counters prunes what they are as values.
pub proof fn lemma_states_pruned(s: Seq<(KeyView, Map<i64, AggregatedCounters>)>, limit: int)
    requires
        all_wf(s),
    ensures
        states(pruned(s, limit)) == pruned(states(s), limit),
        all_wf(pruned(s, limit)),
{
    let l = states(pruned(s, limit));
    let r = pruned(states(s), limit);
    assert forall|i: int| 0 <= i < s.len() implies l[i] == r[i] by {
        assert(l[i].1 =~= r[i].1);
    }
    assert(l =~= r);
    let p = pruned(s, limit);
    assert forall|i: int, k: i64|
        0 <= i < p.len() && (#[trigger] p[i]).1.contains_key(k) implies (#[trigger] p[i].1[k]).wf() by {
        assert(s[i].1.contains_key(k));
        assert(p[i].1[k] == s[i].1[k]);
    }
}

/// Finding the seconds of a key finds what they are as values.
proof fn lemma_states_found(
    s: Seq<(KeyView, Map<i64, AggregatedCounters>)>,
    key: KeyView,
    slot: Option<usize>,
)
    requires
        keys_distinct(s),
        match slot {
            Some(i) => is_entry(s, key, i as int),
            None => !has_key(s, key),
        },
    ensures
        keys_distinct(states(s)),
        seconds_of(states(s), key) == counter_views(seconds_of(s, key)),
        match slot {
            Some(i) => seconds_of(s, key) == s[i as int].1,
            None => seconds_of(s, key) == Map::<i64, AggregatedCounters>::empty(),
        },
{
    let t = states(s);
    assert forall|i: int, j: int| 0 <= i < j < t.len() implies (#[trigger] t[i]).0 != (
    #[trigger] t[j]).0 by {
        assert(s[i].0 != s[j].0);
    }
    match slot {
        Some(i) => {
            lemma_entry(s, key, i as int);
            assert(is_entry(t, key, i as int));
            lemma_entry(t, key, i as int);
        },
        None => {
            assert forall|i: int| !is_entry(t, key, i) by {
                if is_entry(t, key, i) {
                    assert(is_entry(s, key, i));
                }
            }
            assert(counter_views(seconds_of(s, key)) =~= Map::empty());
        },
    }
}

/// Replacing counters replaces what they are as values.
proof fn lemma_states_put(
    s: Seq<(KeyView, Map<i64, AggregatedCounters>)>,
    key: KeyView,
    slot: Option<usize>,
    secs: i64,
    c: AggregatedCounters,
)
    requires
        keys_distinct(s),
        match slot {
            Some(i) => is_entry(s, key, i as int),
            None => !has_key(s, key),
        },
        all_wf(s),
        c.wf(),
    ensures
        states(with_counters(s, key, secs, c)) == with_counters(states(s), key, secs, c@),
        all_wf(with_counters(s, key, secs, c)),
        keys_distinct(with_counters(s, key, secs, c)),
        match slot {
            Some(i) => with_counters(s, key, secs, c) == s.update(
                i as int,
                (key, s[i as int].1.insert(secs, c)),
            ),
            None => with_counters(s, key, secs, c) == s.push((key, Map::empty().insert(secs, c))),
        },
{
    lemma_states_found(s, key, slot);
    let t = states(s);
    let u = with_counters(s, key, secs, c);
    let m = seconds_of(s, key).insert(secs, c);
    assert(counter_views(m) =~= counter_views(seconds_of(s, key)).insert(secs, c@));
    match slot {
        Some(i) => {
            lemma_entry(s, key, i as int);
            assert(is_entry(t, key, i as int));
            lemma_entry(t, key, i as int);
            assert(states(u) =~= t.update(i as int, (key, counter_views(m))));
        },
        None => {
            assert forall|i: int| !is_entry(t, key, i) by {
                if is_entry(t, key, i) {
                    assert(is_entry(s, key, i));
                }
            }
            assert(states(u) =~= t.push((key, counter_views(m))));
        },
    }
    assert forall|i: int, j: int| 0 <= i < j < u.len() implies (#[trigger] u[i]).0 != (
    #[trigger] u[j]).0 by {
        if j < s.len() {
            assert(s[i].0 != s[j].0);
        } else if u[i].0 == key {
            assert(is_entry(s, key, i));
        }
    }
    assert forall|i: int, k: i64|
        0 <= i < u.len() && (#[trigger] u[i]).1.contains_key(k) implies (#[trigger] u[i].1[k]).wf() by {
        if u[i].0 != key || k != secs {
            assert(s[i].1.contains_key(k));
            assert(u[i].1[k] == s[i].1[k]);
        }
    }
}

impl Aggregated<AggregatedCounters> {
    /// What is kept, as values.
    pub open spec fn state(self) -> Seq<(KeyView, Map<i64, CountersView>)> {
        states(self@)
    }

    /// No two entries have the same key, and all counters are well formed.
    pub open spec fn valid(self) -> bool {
        self.wf() && all_wf(self@)
    }

    /// Takes the counters of a key and a second out, and tells where the entry of the key is.
    fn take_counters(&mut self, key: &AggregationKey, secs: i64) -> (r: (
        Option<usize>,
        Option<AggregatedCounters>,
    ))
        requires
            old(self).wf(),
        ensures
            match r.0 {
                Some(i) => {
                    &&& is_entry(old(self)@, key@, i as int)
                    &&& final(self)@ == old(self)@.update(
                        i as int,
                        (key@, old(self)@[i as int].1.remove(secs)),
                    )
                    &&& r.1 == if old(self)@[i as int].1.contains_key(secs) {
                        Some(old(self)@[i as int].1[secs])
                    } else {
                        None
                    }
                },
                None => {
                    &&& !has_key(old(self)@, key@)
                    &&& final(self)@ == old(self)@
                    &&& r.1 is None
                },
            },
    {
        let ghost start = self@;
        match self.find(key) {
            Some(i) => {
                proof {
                    assert(start[i as int].1 == self.entries@[i as int].1@);
                }
                let found = self.entries[i].1.remove(&secs);
                proof {
                    assert(self@ =~= start.update(
                        i as int,
                        (key@, start[i as int].1.remove(secs)),
                    ));
                }
                (Some(i), found)
            },
            None => (None, None),
        }
    }

    /// Puts the counters of a key and a second in, at the entry of the key.
    fn put_counters(
        &mut self,
        slot: Option<usize>,
        key: AggregationKey,
        secs: i64,
        c: AggregatedCounters,
    )
        requires
            match slot {
                Some(i) => is_entry(old(self)@, key@, i as int),
                None => true,
            },
        ensures
            match slot {
                Some(i) => final(self)@ == old(self)@.update(
                    i as int,
                    (key@, old(self)@[i as int].1.insert(secs, c)),
                ),
                None => final(self)@ == old(self)@.push((key@, Map::empty().insert(secs, c))),
            },
    {
        let ghost start = self@;
        match slot {
            Some(i) => {
                proof {
                    assert(start[i as int].1 == self.entries@[i as int].1@);
                }
                self.entries[i].1.insert(secs, c);
                proof {
                    assert(self@ =~= start.update(
                        i as int,
                        (key@, start[i as int].1.insert(secs, c)),
                    ));
                }
            },
            None => {
                let mut mp: BTreeMap<i64, AggregatedCounters> = BTreeMap::new();
                mp.insert(secs, c);
                self.entries.push((key, mp));
                proof {
                    assert(self@ =~= start.push((key@, Map::empty().insert(secs, c))));
                }
            },
        }
    }
}

/// What a request is grouped by.
fn aggregation_key(rinfo: &RequestInfo) -> (key: AggregationKey)
    ensures
        key@ == key_of(*rinfo),
        key.secpolid@ == rinfo.secpolicy_id@,
        key.secpolentryid@ == rinfo.secpolicy_entry_id@,
{
    AggregationKey {
        proxy: match &rinfo.container_name {
            Some(name) => Some(name.clone()),
            None => None,
        },
        secpolid: rinfo.secpolicy_id.clone(),
        secpolentryid: rinfo.secpolicy_entry_id.clone(),
    }
}

/// Adds a request, given how many microseconds it took. Says whether it was added: it is not where
/// a counter would grow past its type. Seconds too long before the request are dropped in any case.
pub fn try_aggregate(
    amp: &mut Aggregated<AggregatedCounters>,
    settings: &Settings,
    dec: &Decision,
    rcode: Option<u32>,
    rinfo: &RequestInfo,
    tags: &Tags,
    processing_time: Option<i64>,
) -> (done: bool)
    requires
        old(amp).valid(),
        settings.valid(),
        prunable(old(amp)@, rinfo.timestamp.secs, settings.seconds_kept),
    ensures
        final(amp).valid(),
        done == target(old(amp).state(), *settings, *rinfo).takes(
            dec.reasons@,
            rcode,
            *rinfo,
            texts(tags.tags@),
            processing_time,
        ),
        final(amp).state() == if done {
            aggregated(
                old(amp).state(),
                *settings,
                dec.reasons@,
                rcode,
                *rinfo,
                texts(tags.tags@),
                processing_time,
            )
        } else {
            pruned(old(amp).state(), rinfo.timestamp.secs - settings.seconds_kept)
        },
{
    let secs = rinfo.timestamp.secs;
    let key = aggregation_key(rinfo);
    let ghost hdr = key@;
    let ghost before = amp@;
    let ghost kept = pruned(before, secs - settings.seconds_kept);
    prune_old_values(amp, secs, settings.seconds_kept);
    proof {
        lemma_states_pruned(before, secs - settings.seconds_kept);
    }
    let (slot, found) = amp.take_counters(&key, secs);
    proof {
        lemma_states_found(kept, hdr, slot);
    }
    let known = found.is_some();
    let mut c = match found {
        Some(c) => c,
        None => AggregatedCounters::new(settings),
    };
    proof {
        assert(c@ == target(states(before), *settings, *rinfo));
    }
    let done = c.try_increment(dec, rcode, rinfo, tags, processing_time);
    proof {
        lemma_states_put(kept, hdr, slot, secs, c);
    }
    if done || known {
        amp.put_counters(slot, key, secs, c);
        proof {
            if let Some(i) = slot {
                let m = kept[i as int].1;
                assert(m.remove(secs).insert(secs, c) =~= m.insert(secs, c));
            }
            assert(amp@ =~= with_counters(kept, hdr, secs, c));
            if !done {
                let m = seconds_of(states(kept), hdr);
                assert(m.insert(secs, c@) =~= m);
                assert(is_entry(states(kept), hdr, slot->0 as int));
                lemma_entry(states(kept), hdr, slot->0 as int);
                assert(with_counters(states(kept), hdr, secs, c@) =~= states(kept));
            }
        }
    } else {
        proof {
            if let Some(i) = slot {
                assert(kept[i as int].1.remove(secs) =~= kept[i as int].1);
            }
            assert(amp@ =~= kept);
        }
    }
    done
}

/// Adds a request for which there is room, given how many microseconds it took.
pub fn aggregate_timed(
    amp: &mut Aggregated<AggregatedCounters>,
    settings: &Settings,
    dec: &Decision,
    rcode: Option<u32>,
    rinfo: &RequestInfo,
    tags: &Tags,
    processing_time: Option<i64>,
)
    requires
        old(amp).valid(),
        settings.valid(),
        prunable(old(amp)@, rinfo.timestamp.secs, settings.seconds_kept),
        target(old(amp).state(), *settings, *rinfo).takes(
            dec.reasons@,
            rcode,
            *rinfo,
            texts(tags.tags@),
            processing_time,
        ),
    ensures
        final(amp).valid(),
        final(amp).state() == aggregated(
            old(amp).state(),
            *settings,
            dec.reasons@,
            rcode,
            *rinfo,
            texts(tags.tags@),
            processing_time,
        ),
{
    try_aggregate(amp, settings, dec, rcode, rinfo, tags, processing_time);
}

/// Adds a request that ends now. Says whether it was added: it is not where a counter would grow
/// past its type. Seconds too long before the request are dropped in any case.
pub fn aggregate(
    amp: &mut Aggregated<AggregatedCounters>,
    settings: &Settings,
    dec: &Decision,
    rcode: Option<u32>,
    rinfo: &RequestInfo,
    tags: &Tags,
) -> (done: bool)
    requires
        old(amp).valid(),
        settings.valid(),
        rinfo.timestamp.valid(),
        prunable(old(amp)@, rinfo.timestamp.secs, settings.seconds_kept),
    ensures
        final(amp).valid(),
        exists|now: Timestamp| #[trigger]
            now.valid() && done == target(old(amp).state(), *settings, *rinfo).takes(
                dec.reasons@,
                rcode,
                *rinfo,
                texts(tags.tags@),
                elapsed_micros(now, rinfo.timestamp),
            ) && final(amp).state() == if done {
                aggregated(
                    old(amp).state(),
                    *settings,
                    dec.reasons@,
                    rcode,
                    *rinfo,
                    texts(tags.tags@),
                    elapsed_micros(now, rinfo.timestamp),
                )
            } else {
                pruned(old(amp).state(), rinfo.timestamp.secs - settings.seconds_kept)
            },
{
    let now = utc_now();
    let processing_time = processing_micros(&now, &rinfo.timestamp);
    try_aggregate(amp, settings, dec, rcode, rinfo, tags, processing_time)
}

} // verus!
