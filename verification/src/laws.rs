//! What holds of the counters and of the aggregation as a whole.

use crate::aggregated::{
    after, aggregated, counters_at, has_key, is_entry, key_of, keys_distinct, lemma_entry,
    no_requests, pruned, seconds_of, target, with_seconds,
};
use crate::bag::{bag_add, bag_count};
use crate::counters::{
    bag_add_all, blocking, challenges, has_acl, has_block, has_rule, has_skip, header_value,
    listed_tag, listed_tags, outcome_of, tag_count, texts, triggered, CountersView, Trigger,
};
use crate::metric::{IntegerMetric, MetricEstimate, MetricView, UniqueView};
use crate::report::{Estimates, KeyView};
use crate::request::{distinct_names, BlockReason, RequestInfo, Tags};
use crate::settings::{report_seconds, Settings};
use crate::sketch::Item;
use crate::top::{occurrences, TopView};
use crate::values::{all_rows, default_key, key_rows, rows_at, RowView};
use vstd::prelude::*;

verus! {

/// A request with all that is counted of it.
pub struct Request {
    pub reasons: Seq<BlockReason>,
    pub rcode: Option<u32>,
    pub rinfo: RequestInfo,
    pub tags: Seq<Seq<char>>,
    pub processing_time: Option<i64>,
}

/// The counters after one more request.
pub open spec fn after_request(c: CountersView, r: Request) -> CountersView {
    c.incremented(r.reasons, r.rcode, r.rinfo, r.tags, r.processing_time)
}

/// The counters after some requests.
pub open spec fn after_requests(c: CountersView, requests: Seq<Request>) -> CountersView
    decreases requests.len(),
{
    if requests.len() == 0 {
        c
    } else {
        after_request(after_requests(c, requests.drop_last()), requests.last())
    }
}

/// How many requests have a property.
pub open spec fn how_many(requests: Seq<Request>, p: spec_fn(Request) -> bool) -> nat
    decreases requests.len(),
{
    if requests.len() == 0 {
        0
    } else {
        how_many(requests.drop_last(), p) + if p(requests.last()) {
            1nat
        } else {
            0
        }
    }
}

/// Every request is a hit, and either blocked or reported.
pub proof fn law_hits(bits: nat, k: nat, requests: Seq<Request>)
    ensures
        ({
            let c = after_requests(CountersView::empty(bits, k), requests);
            &&& c.hits == requests.len()
            &&& c.hits == c.blocks + c.report
            &&& c.blocks == how_many(requests, |r: Request| outcome_of(r.reasons).blocked)
        }),
    decreases requests.len(),
{
    if requests.len() > 0 {
        law_hits(bits, k, requests.drop_last());
    }
}

/// The status codes, the methods and the sizes of requests are counted exactly.
pub proof fn law_exact_counts(
    bits: nat,
    k: nat,
    requests: Seq<Request>,
    code: u32,
    method: Seq<char>,
    n: usize,
)
    ensures
        ({
            let c = after_requests(CountersView::empty(bits, k), requests);
            &&& bag_count(c.status, code) == how_many(requests, |r: Request| r.rcode == Some(code))
            &&& bag_count(c.methods, method) == how_many(
                requests,
                |r: Request| r.rinfo.method@ == method,
            )
            &&& bag_count(c.args_amount, n) == how_many(requests, |r: Request| r.rinfo.args == n)
            &&& bag_count(c.cookies_amount, n) == how_many(
                requests,
                |r: Request| r.rinfo.cookies == n,
            )
            &&& bag_count(c.headers_amount, n) == how_many(
                requests,
                |r: Request| r.rinfo.headers@.len() == n,
            )
        }),
    decreases requests.len(),
{
    if requests.len() > 0 {
        law_exact_counts(bits, k, requests.drop_last(), code, method, n);
    }
}

/// A match that skips undoes all that block: the request counts as reported, and in no table of
/// blocked requests.
pub proof fn law_skip(c: CountersView, r: Request)
    requires
        has_skip(r.reasons),
    ensures
        ({
            let d = after_request(c, r);
            &&& d.blocks == c.blocks
            &&& d.report == c.report + 1
            &&& d.aclid_active == c.aclid_active
            &&& d.cfid_active == c.cfid_active
            &&& d.secpolid_active == c.secpolid_active
            &&& d.secpolentryid_active == c.secpolentryid_active
            &&& d.ip.unique_blocked == c.ip.unique_blocked
            &&& d.ip.top_blocked == c.ip.top_blocked
            &&& d.session.unique_blocked == c.session.unique_blocked
            &&& d.session.top_blocked == c.session.top_blocked
            &&& d.uri.unique_blocked == c.uri.unique_blocked
            &&& d.uri.top_blocked == c.uri.top_blocked
            &&& d.user_agent.unique_blocked == c.user_agent.unique_blocked
            &&& d.user_agent.top_blocked == c.user_agent.top_blocked
            &&& d.country.unique_blocked == c.country.unique_blocked
            &&& d.country.top_blocked == c.country.top_blocked
            &&& d.asn.unique_blocked == c.asn.unique_blocked
            &&& d.asn.top_blocked == c.asn.top_blocked
        }),
{
}

/// A request is blocked exactly if a match blocks and none skips. What blocks it is reported too:
/// an access rule or a content filter rule that is counted as active is counted as reporting.
pub proof fn law_outcome(reasons: Seq<BlockReason>)
    ensures
        outcome_of(reasons).blocked == (has_block(reasons) && !has_skip(reasons)),
        outcome_of(reasons).acl_blocked ==> outcome_of(reasons).blocked,
        outcome_of(reasons).acl_blocked ==> outcome_of(reasons).acl_report,
        outcome_of(reasons).cf_blocked ==> outcome_of(reasons).blocked,
        outcome_of(reasons).cf_blocked ==> outcome_of(reasons).cf_report,
        outcome_of(reasons).acl_report ==> has_acl(reasons, true) || has_acl(reasons, false),
        outcome_of(reasons).cf_report ==> has_rule(reasons, true) || has_rule(reasons, false),
{
    if has_acl(reasons, true) {
        let i = choose|i: int|
            0 <= i < reasons.len() && (#[trigger] reasons[i]).initiator is Acl
                && blocking(reasons[i]) == true;
        assert(blocking(reasons[i]));
    }
    if has_rule(reasons, true) {
        let i = choose|i: int|
            0 <= i < reasons.len() && (#[trigger] reasons[i]).initiator is ContentFilter
                && blocking(reasons[i]) == true;
        assert(blocking(reasons[i]));
    }
}

/// A series after some samples.
pub open spec fn series(samples: Seq<i64>) -> IntegerMetric
    decreases samples.len(),
{
    if samples.len() == 0 {
        IntegerMetric::empty()
    } else {
        series(samples.drop_last()).incremented(samples.last())
    }
}

/// The sum of some samples.
pub open spec fn sum(samples: Seq<i64>) -> int
    decreases samples.len(),
{
    if samples.len() == 0 {
        0
    } else {
        sum(samples.drop_last()) + samples.last()
    }
}

/// Whether the sums of the first samples are machine numbers, and their number is.
pub open spec fn summable(samples: Seq<i64>) -> bool
    decreases samples.len(),
{
    samples.len() == 0 || {
        &&& summable(samples.drop_last())
        &&& samples.len() <= u64::MAX
        &&& i64::MIN <= sum(samples) <= i64::MAX
    }
}

/// A series holds the number and the sum of its samples, and their exact range.
pub proof fn law_series(samples: Seq<i64>)
    requires
        summable(samples),
    ensures
        series(samples).n_sample == samples.len(),
        series(samples).total == sum(samples),
        forall|i: int|
            0 <= i < samples.len() ==> series(samples).min <= #[trigger] samples[i] <= series(
                samples,
            ).max,
        samples.len() > 0 ==> samples.contains(series(samples).min) && samples.contains(
            series(samples).max,
        ),
    decreases samples.len(),
{
    if samples.len() > 0 {
        let front = samples.drop_last();
        law_series(front);
        let m = series(samples);
        assert(samples[samples.len() - 1] == samples.last());
        assert forall|i: int| 0 <= i < samples.len() implies m.min <= #[trigger] samples[i] <= m.max by {
            if i < front.len() {
                assert(front[i] == samples[i]);
            }
        }
        if front.len() > 0 {
            let lo = choose|i: int| 0 <= i < front.len() && front[i] == series(front).min;
            assert(samples[lo] == series(front).min);
            let hi = choose|i: int| 0 <= i < front.len() && front[i] == series(front).max;
            assert(samples[hi] == series(front).max);
        }
    }
}

/// A part of the requests that are blocked or not, in their order.
pub open spec fn parts<A>(
    requests: Seq<Request>,
    blocked: bool,
    part: spec_fn(Request) -> A,
) -> Seq<A>
    decreases requests.len(),
{
    if requests.len() == 0 {
        Seq::empty()
    } else if outcome_of(requests.last().reasons).blocked == blocked {
        parts(requests.drop_last(), blocked, part).push(part(requests.last()))
    } else {
        parts(requests.drop_last(), blocked, part)
    }
}

proof fn lemma_inc_all_push<A>(t: TopView<A>, s: Seq<A>, x: A)
    ensures
        t.inc_all(s.push(x)) == t.inc_all(s).inc(x),
{
    assert(s.push(x).drop_last() =~= s);
}

/// The tables of frequent values are those of the streams of blocked requests and of requests that
/// passed.
pub proof fn law_tables(bits: nat, k: nat, requests: Seq<Request>)
    ensures
        ({
            let c = after_requests(CountersView::empty(bits, k), requests);
            let none = TopView::<Seq<char>>::empty(k);
            let ip = |r: Request| r.rinfo.ip@;
            let session = |r: Request| r.rinfo.session@;
            let uri = |r: Request| r.rinfo.uri@;
            let policy = |r: Request| r.rinfo.secpolicy_id@;
            let entry = |r: Request| r.rinfo.secpolicy_entry_id@;
            &&& c.ip.top_blocked == none.inc_all(parts(requests, true, ip))
            &&& c.ip.top_passed == none.inc_all(parts(requests, false, ip))
            &&& c.session.top_blocked == none.inc_all(parts(requests, true, session))
            &&& c.session.top_passed == none.inc_all(parts(requests, false, session))
            &&& c.uri.top_blocked == none.inc_all(parts(requests, true, uri))
            &&& c.uri.top_passed == none.inc_all(parts(requests, false, uri))
            &&& c.secpolid_active == none.inc_all(parts(requests, true, policy))
            &&& c.secpolid_report == none.inc_all(parts(requests, false, policy))
            &&& c.secpolentryid_active == none.inc_all(parts(requests, true, entry))
            &&& c.secpolentryid_report == none.inc_all(parts(requests, false, entry))
        }),
    decreases requests.len(),
{
    if requests.len() > 0 {
        let front = requests.drop_last();
        let r = requests.last();
        let blocked = outcome_of(r.reasons).blocked;
        let none = TopView::<Seq<char>>::empty(k);
        let ip = |r: Request| r.rinfo.ip@;
        let session = |r: Request| r.rinfo.session@;
        let uri = |r: Request| r.rinfo.uri@;
        let policy = |r: Request| r.rinfo.secpolicy_id@;
        let entry = |r: Request| r.rinfo.secpolicy_entry_id@;
        law_tables(bits, k, front);
        lemma_inc_all_push(none, parts(front, blocked, ip), ip(r));
        lemma_inc_all_push(none, parts(front, blocked, session), session(r));
        lemma_inc_all_push(none, parts(front, blocked, uri), uri(r));
        lemma_inc_all_push(none, parts(front, blocked, policy), policy(r));
        lemma_inc_all_push(none, parts(front, blocked, entry), entry(r));
    }
}

/// The processing times of some requests, where they are known.
pub open spec fn times(requests: Seq<Request>) -> Seq<i64>
    decreases requests.len(),
{
    if requests.len() == 0 {
        Seq::empty()
    } else {
        match requests.last().processing_time {
            Some(sample) => times(requests.drop_last()).push(sample),
            None => times(requests.drop_last()),
        }
    }
}

/// The series of processing times is that of the requests, in their order.
pub proof fn law_times(bits: nat, k: nat, requests: Seq<Request>)
    ensures
        after_requests(CountersView::empty(bits, k), requests).processing_time == series(
            times(requests),
        ),
    decreases requests.len(),
{
    if requests.len() > 0 {
        let front = requests.drop_last();
        law_times(bits, k, front);
        if let Some(sample) = requests.last().processing_time {
            assert(times(front).push(sample).drop_last() =~= times(front));
        }
    }
}

/// All tags of some requests.
pub open spec fn all_tags(requests: Seq<Request>) -> Seq<Seq<char>>
    decreases requests.len(),
{
    if requests.len() == 0 {
        Seq::empty()
    } else {
        all_tags(requests.drop_last()) + requests.last().tags
    }
}

proof fn lemma_inc_all_add<A>(t: TopView<A>, a: Seq<A>, b: Seq<A>)
    ensures
        t.inc_all(a + b) == t.inc_all(a).inc_all(b),
    decreases b.len(),
{
    if b.len() == 0 {
        assert(a + b =~= a);
    } else {
        assert((a + b).drop_last() =~= a + b.drop_last());
        lemma_inc_all_add(t, a, b.drop_last());
    }
}

proof fn lemma_filter_add<A>(a: Seq<A>, b: Seq<A>, p: spec_fn(A) -> bool)
    ensures
        (a + b).filter(p) == a.filter(p) + b.filter(p),
    decreases b.len(),
{
    reveal(Seq::filter);
    if b.len() == 0 {
        assert(a + b =~= a);
        assert(a.filter(p) + b.filter(p) =~= a.filter(p));
    } else {
        assert((a + b).drop_last() =~= a + b.drop_last());
        lemma_filter_add(a, b.drop_last(), p);
        assert((a + b).filter(p) =~= a.filter(p) + b.filter(p));
    }
}

/// The tags of the requests are counted as one stream.
pub proof fn law_tags(bits: nat, k: nat, requests: Seq<Request>)
    ensures
        ({
            let c = after_requests(CountersView::empty(bits, k), requests);
            &&& c.bot == tag_count(all_tags(requests), "bot"@)
            &&& c.human == tag_count(all_tags(requests), "human"@)
            &&& c.top_tags == TopView::<Seq<char>>::empty(k).inc_all(
                listed_tags(all_tags(requests)),
            )
        }),
    decreases requests.len(),
{
    if requests.len() > 0 {
        let front = all_tags(requests.drop_last());
        let tags = requests.last().tags;
        law_tags(bits, k, requests.drop_last());
        lemma_filter_add(front, tags, |t: Seq<char>| t == "bot"@);
        lemma_filter_add(front, tags, |t: Seq<char>| t == "human"@);
        lemma_filter_add(front, tags, |t: Seq<char>| listed_tag(t));
        lemma_inc_all_add(
            TopView::<Seq<char>>::empty(k),
            listed_tags(front),
            listed_tags(tags),
        );
    } else {
        reveal(Seq::filter);
    }
}

/// Counting in two steps is counting once, and the order does not matter.
pub proof fn law_bag<A>(m: Map<A, nat>, a: A, b: A, x: nat, y: nat)
    ensures
        bag_add(bag_add(m, a, x), a, y) == bag_add(m, a, x + y),
        bag_add(bag_add(m, a, x), b, y) == bag_add(bag_add(m, b, y), a, x),
{
    assert(bag_add(bag_add(m, a, x), a, y) =~= bag_add(m, a, x + y));
    assert(bag_add(bag_add(m, a, x), b, y) =~= bag_add(bag_add(m, b, y), a, x));
}

/// A bag holds how often each value came.
pub proof fn law_bag_occurrences<A>(s: Seq<A>, a: A)
    ensures
        bag_count(bag_add_all(Map::empty(), s), a) == occurrences(s, a),
    decreases s.len(),
{
    broadcast use vstd::multiset::group_multiset_axioms;
    broadcast use vstd::seq_lib::group_to_multiset_ensures;

    if s.len() > 0 {
        law_bag_occurrences(s.drop_last(), a);
        assert(s =~= s.drop_last().push(s.last()));
    }
}

/// Whether the distinct values of a metric are those of blocked requests and those of requests
/// that passed.
pub open spec fn split<A>(m: MetricView<A>) -> bool {
    m.unique == m.unique_blocked.union(m.unique_passed)
}

proof fn lemma_split<A>(m: MetricView<A>, n: A, blocked: bool)
    requires
        split(m),
    ensures
        split(m.inc(n, blocked)),
{
    let d = m.inc(n, blocked);
    assert(d.unique =~= d.unique_blocked.union(d.unique_passed));
}

/// The distinct values that a metric sees are those of blocked requests and those of requests
/// that passed.
pub proof fn law_metrics(bits: nat, k: nat, requests: Seq<Request>)
    ensures
        ({
            let c = after_requests(CountersView::empty(bits, k), requests);
            &&& split(c.ip)
            &&& split(c.session)
            &&& split(c.uri)
            &&& split(c.user_agent)
            &&& split(c.country)
            &&& split(c.asn)
        }),
    decreases requests.len(),
{
    if requests.len() > 0 {
        let c = after_requests(CountersView::empty(bits, k), requests.drop_last());
        let r = requests.last();
        let blocked = outcome_of(r.reasons).blocked;
        law_metrics(bits, k, requests.drop_last());
        lemma_split(c.ip, r.rinfo.ip@, blocked);
        lemma_split(c.session, r.rinfo.session@, blocked);
        lemma_split(c.uri, r.rinfo.uri@, blocked);
        if let Some(user_agent) = header_value(r.rinfo.headers@, "user-agent"@) {
            lemma_split(c.user_agent, user_agent, blocked);
        }
        if let Some(country) = r.rinfo.country {
            lemma_split(c.country, country@, blocked);
        }
        if let Some(asn) = r.rinfo.asn {
            lemma_split(c.asn, asn, blocked);
        }
    } else {
        let c = CountersView::empty(bits, k);
        assert(c.ip.unique =~= c.ip.unique_blocked.union(c.ip.unique_passed));
        assert(c.asn.unique =~= c.asn.unique_blocked.union(c.asn.unique_passed));
    }
}

/// A value seen again with a key changes nothing, and the order of what is seen does not matter.
pub proof fn law_unique<A, B>(u: UniqueView<A, B>, n: A, by: B, m: A, other: B)
    ensures
        u.add(n, by).add(n, by) == u.add(n, by),
        u.add(n, by).add(m, other) == u.add(m, other).add(n, by),
{
    let once = u.add(n, by);
    assert(once.with(n).insert(by) =~= once.with(n));
    assert(once.add(n, by).seen =~= once.seen);
    let l = u.add(n, by).add(m, other);
    let r = u.add(m, other).add(n, by);
    assert forall|x: A| l.seen.contains_key(x) implies l.seen[x] == r.seen[x] by {
        assert(l.seen[x] =~= r.seen[x]);
    }
    assert(l.seen =~= r.seen);
}

/// Every match but a failed first phase is counted once, as active or as reporting. A challenge
/// is one of the access rules' matches.
pub proof fn law_triggers(reasons: Seq<BlockReason>)
    ensures
        triggered(reasons, Trigger::GlobalFilter, true) + triggered(
            reasons,
            Trigger::GlobalFilter,
            false,
        ) + triggered(reasons, Trigger::ContentFilter, true) + triggered(
            reasons,
            Trigger::ContentFilter,
            false,
        ) + triggered(reasons, Trigger::Acl, true) + triggered(reasons, Trigger::Acl, false)
            + triggered(reasons, Trigger::RateLimit, true) + triggered(
            reasons,
            Trigger::RateLimit,
            false,
        ) == reasons.filter(|r: BlockReason| !(r.initiator is Phase01Fail)).len(),
        challenges(reasons) <= triggered(reasons, Trigger::Acl, true) + triggered(
            reasons,
            Trigger::Acl,
            false,
        ),
    decreases reasons.len(),
{
    reveal(Seq::filter);
    if reasons.len() > 0 {
        law_triggers(reasons.drop_last());
    }
}

/// Pruning keeps the keys and their order. It drops the seconds up to the limit, and leaves the
/// others as they are.
pub proof fn law_prune<A>(s: Seq<(KeyView, Map<i64, A>)>, limit: int)
    ensures
        pruned(s, limit).len() == s.len(),
        forall|i: int|
            #![trigger pruned(s, limit)[i]]
            0 <= i < s.len() ==> {
                &&& pruned(s, limit)[i].0 == s[i].0
                &&& forall|k: i64| #[trigger]
                    pruned(s, limit)[i].1.contains_key(k) <==> s[i].1.contains_key(k) && k > limit
                &&& forall|k: i64| #[trigger]
                    pruned(s, limit)[i].1.contains_key(k) ==> pruned(s, limit)[i].1[k] == s[i].1[k]
            },
{
}

/// Pruning twice is pruning once, with the later limit.
pub proof fn law_prune_twice<A>(s: Seq<(KeyView, Map<i64, A>)>, a: int, b: int)
    ensures
        pruned(pruned(s, a), b) == pruned(
            s,
            if a < b {
                b
            } else {
                a
            },
        ),
{
    let limit = if a < b {
        b
    } else {
        a
    };
    let l = pruned(pruned(s, a), b);
    let r = pruned(s, limit);
    assert forall|i: int| 0 <= i < s.len() implies l[i] == r[i] by {
        assert(l[i].1 =~= r[i].1);
    }
    assert(l =~= r);
}

/// What is kept after one more request.
pub open spec fn with_request(
    s: Seq<(KeyView, Map<i64, CountersView>)>,
    settings: Settings,
    r: Request,
) -> Seq<(KeyView, Map<i64, CountersView>)> {
    aggregated(s, settings, r.reasons, r.rcode, r.rinfo, r.tags, r.processing_time)
}

/// What is kept after some requests.
pub open spec fn with_requests(
    s: Seq<(KeyView, Map<i64, CountersView>)>,
    settings: Settings,
    requests: Seq<Request>,
) -> Seq<(KeyView, Map<i64, CountersView>)>
    decreases requests.len(),
{
    if requests.len() == 0 {
        s
    } else {
        with_request(with_requests(s, settings, requests.drop_last()), settings, requests.last())
    }
}

/// A key has the same entry before and after pruning.
proof fn lemma_pruned_seconds<A>(s: Seq<(KeyView, Map<i64, A>)>, limit: int, key: KeyView)
    requires
        keys_distinct(s),
    ensures
        keys_distinct(pruned(s, limit)),
        seconds_of(pruned(s, limit), key) == after(seconds_of(s, key), limit),
{
    let p = pruned(s, limit);
    assert forall|i: int, j: int| 0 <= i < j < p.len() implies (#[trigger] p[i]).0 != (
    #[trigger] p[j]).0 by {
        assert(s[i].0 != s[j].0);
    }
    if has_key(s, key) {
        let i = choose|i: int| is_entry(s, key, i);
        assert(is_entry(p, key, i));
        lemma_entry(p, key, i);
    } else {
        if has_key(p, key) {
            let i = choose|i: int| is_entry(p, key, i);
            assert(is_entry(s, key, i));
        }
        assert(after(seconds_of(s, key), limit) =~= Map::empty());
    }
}

/// Replacing the seconds of a key replaces those, and no others.
proof fn lemma_with_seconds<A>(
    s: Seq<(KeyView, Map<i64, A>)>,
    key: KeyView,
    m: Map<i64, A>,
    other: KeyView,
)
    requires
        keys_distinct(s),
    ensures
        keys_distinct(with_seconds(s, key, m)),
        has_key(with_seconds(s, key, m), key),
        seconds_of(with_seconds(s, key, m), key) == m,
        other != key ==> seconds_of(with_seconds(s, key, m), other) == seconds_of(s, other),
{
    let u = with_seconds(s, key, m);
    let at = if has_key(s, key) {
        choose|i: int| is_entry(s, key, i)
    } else {
        s.len() as int
    };
    assert forall|i: int, j: int| 0 <= i < j < u.len() implies (#[trigger] u[i]).0 != (
    #[trigger] u[j]).0 by {
        if j < s.len() {
            assert(s[i].0 != s[j].0);
        } else if u[i].0 == key {
            assert(is_entry(s, key, i));
        }
    }
    assert(is_entry(u, key, at));
    lemma_entry(u, key, at);
    if other != key {
        if has_key(s, other) {
            let i = choose|i: int| is_entry(s, other, i);
            assert(is_entry(u, other, i));
            lemma_entry(u, other, i);
        } else if has_key(u, other) {
            let i = choose|i: int| is_entry(u, other, i);
            assert(is_entry(s, other, i));
        }
    }
}

/// A request is added to the counters of its key and its second. The counters of other keys and
/// seconds stay, but for seconds too long before the request, which are dropped.
pub proof fn law_aggregate(
    s: Seq<(KeyView, Map<i64, CountersView>)>,
    settings: Settings,
    r: Request,
    key: KeyView,
    secs: i64,
)
    requires
        keys_distinct(s),
    ensures
        ({
            let t = with_request(s, settings, r);
            let mine = key == key_of(r.rinfo) && secs == r.rinfo.timestamp.secs;
            let old_second = secs <= r.rinfo.timestamp.secs - settings.seconds_kept;
            &&& keys_distinct(t)
            &&& mine ==> seconds_of(t, key).contains_key(secs) && seconds_of(t, key)[secs]
                == after_request(target(s, settings, r.rinfo), r)
            &&& !mine && old_second ==> !seconds_of(t, key).contains_key(secs)
            &&& !mine && !old_second ==> seconds_of(t, key).contains_key(secs) == seconds_of(
                s,
                key,
            ).contains_key(secs)
            &&& !mine && !old_second && seconds_of(s, key).contains_key(secs) ==> seconds_of(
                t,
                key,
            )[secs] == seconds_of(s, key)[secs]
        }),
{
    let limit = r.rinfo.timestamp.secs - settings.seconds_kept;
    let p = pruned(s, limit);
    let hdr = key_of(r.rinfo);
    let c = after_request(target(s, settings, r.rinfo), r);
    lemma_pruned_seconds(s, limit, key);
    lemma_pruned_seconds(s, limit, hdr);
    lemma_with_seconds(p, hdr, seconds_of(p, hdr).insert(r.rinfo.timestamp.secs, c), key);
}

/// Requests of one key and one second are counted together, in their order.
pub proof fn law_aggregate_second(
    s: Seq<(KeyView, Map<i64, CountersView>)>,
    settings: Settings,
    requests: Seq<Request>,
    key: KeyView,
    secs: i64,
)
    requires
        keys_distinct(s),
        settings.seconds_kept > 0,
        requests.len() > 0,
        forall|i: int|
            0 <= i < requests.len() ==> key_of((#[trigger] requests[i]).rinfo) == key
                && requests[i].rinfo.timestamp.secs == secs,
    ensures
        ({
            let t = with_requests(s, settings, requests);
            &&& keys_distinct(t)
            &&& seconds_of(t, key).contains_key(secs)
            &&& seconds_of(t, key)[secs] == after_requests(
                target(s, settings, requests[0].rinfo),
                requests,
            )
        }),
    decreases requests.len(),
{
    let front = requests.drop_last();
    let before = with_requests(s, settings, front);
    let r = requests.last();
    assert(requests[requests.len() - 1] == r);
    if front.len() > 0 {
        assert forall|i: int| 0 <= i < front.len() implies key_of((#[trigger] front[i]).rinfo) == key
            && front[i].rinfo.timestamp.secs == secs by {
            assert(front[i] == requests[i]);
        }
        law_aggregate_second(s, settings, front, key, secs);
        lemma_pruned_seconds(before, secs - settings.seconds_kept, key);
    } else {
        assert(after_requests(target(s, settings, requests[0].rinfo), front) == target(
            s,
            settings,
            requests[0].rinfo,
        ));
    }
    law_aggregate(before, settings, r, key, secs);
}

proof fn lemma_all_rows(
    s: Seq<(KeyView, Map<i64, CountersView>)>,
    seconds: Seq<int>,
    empty: CountersView,
    i: int,
    n: int,
)
    requires
        0 <= i < s.len(),
        !s[i].1.is_empty(),
        0 <= n < seconds.len(),
    ensures
        all_rows(s, seconds, empty).contains(key_rows(s[i].0, s[i].1, seconds, empty)[n]),
    decreases s.len(),
{
    let front = s.drop_last();
    let rest = all_rows(front, seconds, empty);
    let rows = all_rows(s, seconds, empty);
    let row = key_rows(s[i].0, s[i].1, seconds, empty)[n];
    if i < front.len() {
        assert(front[i] == s[i]);
        lemma_all_rows(front, seconds, empty, i, n);
        let j = choose|j: int| 0 <= j < rest.len() && rest[j] == row;
        assert(rows[j] == row);
    } else {
        assert(rows[rest.len() + n] == row);
    }
}

/// A second that is kept and lies in the range of a document has a row in it, with its counters.
pub proof fn law_reported(
    s: Seq<(KeyView, Map<i64, CountersView>)>,
    settings: Settings,
    timestamp: i64,
    proxy: Option<Seq<char>>,
    key: KeyView,
    secs: i64,
)
    requires
        keys_distinct(s),
        seconds_of(s, key).contains_key(secs),
        timestamp - settings.seconds_kept < secs <= timestamp,
    ensures
        rows_at(s, settings, timestamp, proxy).contains(
            (RowView { secs: secs as int, key, counters: seconds_of(s, key)[secs] }),
        ),
{
    let limit = timestamp - settings.seconds_kept;
    let p = pruned(s, limit);
    let seconds = report_seconds(settings.seconds_kept as int, timestamp as int);
    let empty = no_requests(settings);
    lemma_pruned_seconds(s, limit, key);
    assert(seconds_of(p, key).contains_key(secs));
    let i = choose|i: int| is_entry(p, key, i);
    assert(is_entry(p, key, i));
    lemma_entry(p, key, i);
    let n = secs - limit - 1;
    assert(seconds[n] == secs);
    assert(p[i].1.contains_key(secs));
    lemma_all_rows(p, seconds, empty, i, n);
}

/// A request is in every document of the seconds for which it is kept: the document has the row of
/// its key and second, with the request counted.
pub proof fn law_aggregate_reported(
    s: Seq<(KeyView, Map<i64, CountersView>)>,
    settings: Settings,
    r: Request,
    timestamp: i64,
    proxy: Option<Seq<char>>,
)
    requires
        keys_distinct(s),
        r.rinfo.timestamp.secs <= timestamp < r.rinfo.timestamp.secs + settings.seconds_kept,
    ensures
        rows_at(with_request(s, settings, r), settings, timestamp, proxy).contains(
            (RowView {
                secs: r.rinfo.timestamp.secs as int,
                key: key_of(r.rinfo),
                counters: after_request(target(s, settings, r.rinfo), r),
            }),
        ),
{
    let key = key_of(r.rinfo);
    let secs = r.rinfo.timestamp.secs;
    law_aggregate(s, settings, r, key, secs);
    law_reported(with_request(s, settings, r), settings, timestamp, proxy, key, secs);
}

/// How many keys have any second.
pub open spec fn live_keys<A>(s: Seq<(KeyView, Map<i64, A>)>) -> nat
    decreases s.len(),
{
    if s.len() == 0 {
        0
    } else {
        live_keys(s.drop_last()) + if s.last().1.is_empty() {
            0nat
        } else {
            1
        }
    }
}

proof fn lemma_row_count(
    s: Seq<(KeyView, Map<i64, CountersView>)>,
    seconds: Seq<int>,
    empty: CountersView,
)
    ensures
        all_rows(s, seconds, empty).len() == live_keys(s) * seconds.len(),
    decreases s.len(),
{
    if s.len() > 0 {
        lemma_row_count(s.drop_last(), seconds, empty);
        let n = live_keys(s.drop_last());
        let len = seconds.len();
        assert((n + 1) * len == n * len + len) by (nonlinear_arith);
    } else {
        assert(0 * seconds.len() == 0) by (nonlinear_arith);
    }
}

/// A document has one row for each second and each key that has any second in range or later, and
/// one for each second where no key has. It has no row at all where no second is kept.
pub proof fn law_row_count(
    s: Seq<(KeyView, Map<i64, CountersView>)>,
    settings: Settings,
    timestamp: i64,
    proxy: Option<Seq<char>>,
)
    ensures
        ({
            let rows = rows_at(s, settings, timestamp, proxy);
            let keys = live_keys(pruned(s, timestamp - settings.seconds_kept));
            &&& settings.seconds_kept <= 0 ==> rows.len() == 0
            &&& settings.seconds_kept > 0 && keys == 0 ==> rows.len() == settings.seconds_kept
            &&& settings.seconds_kept > 0 && keys > 0 ==> rows.len() == keys
                * settings.seconds_kept
        }),
{
    let p = pruned(s, timestamp - settings.seconds_kept);
    let seconds = report_seconds(settings.seconds_kept as int, timestamp as int);
    lemma_row_count(p, seconds, no_requests(settings));
    let keys = live_keys(p);
    let len = seconds.len();
    assert(len > 0 && keys > 0 ==> keys * len > 0) by (nonlinear_arith);
    assert(len == 0 ==> keys * len == 0) by (nonlinear_arith);
    assert(keys == 0 ==> keys * len == 0) by (nonlinear_arith);
}

/// Which key and which second a row is of.
proof fn lemma_rows_only(
    s: Seq<(KeyView, Map<i64, CountersView>)>,
    seconds: Seq<int>,
    empty: CountersView,
    j: int,
) -> (at: (int, int))
    requires
        0 <= j < all_rows(s, seconds, empty).len(),
    ensures
        0 <= at.0 < s.len(),
        0 <= at.1 < seconds.len(),
        !s[at.0].1.is_empty(),
        all_rows(s, seconds, empty)[j] == key_rows(s[at.0].0, s[at.0].1, seconds, empty)[at.1],
    decreases s.len(),
{
    let front = s.drop_last();
    let rest = all_rows(front, seconds, empty);
    if j < rest.len() {
        let at = lemma_rows_only(front, seconds, empty, j);
        assert(s[at.0] == front[at.0]);
        at
    } else {
        (s.len() - 1, j - rest.len())
    }
}

/// Each row of a document lies in its range, and has the counters of its key and second, or those
/// of a second without requests. Its key has a second, unless no key has.
pub proof fn law_rows(
    s: Seq<(KeyView, Map<i64, CountersView>)>,
    settings: Settings,
    timestamp: i64,
    proxy: Option<Seq<char>>,
    j: int,
)
    requires
        keys_distinct(s),
        settings.reportable(timestamp),
        0 <= j < rows_at(s, settings, timestamp, proxy).len(),
    ensures
        ({
            let p = pruned(s, timestamp - settings.seconds_kept);
            let row = rows_at(s, settings, timestamp, proxy)[j];
            &&& timestamp - settings.seconds_kept < row.secs <= timestamp
            &&& live_keys(p) > 0 ==> !seconds_of(p, row.key).is_empty() && row.counters
                == counters_at(p, row.key, row.secs as i64, no_requests(settings))
            &&& live_keys(p) == 0 ==> row.key == default_key(proxy) && row.counters == no_requests(
                settings,
            )
        }),
{
    let limit = timestamp - settings.seconds_kept;
    let p = pruned(s, limit);
    let seconds = report_seconds(settings.seconds_kept as int, timestamp as int);
    let empty = no_requests(settings);
    law_row_count(s, settings, timestamp, proxy);
    lemma_row_count(p, seconds, empty);
    let keys = live_keys(p);
    let len = seconds.len();
    assert(len > 0 && keys > 0 ==> keys * len > 0) by (nonlinear_arith);
    assert(keys == 0 ==> keys * len == 0) by (nonlinear_arith);
    if keys > 0 {
        let (i, n) = lemma_rows_only(p, seconds, empty, j);
        lemma_pruned_seconds(s, limit, p[i].0);
        assert(is_entry(p, p[i].0, i));
        lemma_entry(p, p[i].0, i);
        assert(seconds[n] == limit + 1 + n);
    } else {
        assert(seconds[j] == limit + 1 + j);
    }
}

/// The sketches of a second without requests give zero, and no key of a pairing.
pub proof fn law_no_requests(settings: Settings, e: Estimates)
    requires
        e.possible(no_requests(settings)),
    ensures
        e.ip == (MetricEstimate { unique: 0, unique_blocked: 0, unique_passed: 0 }),
        e.session == e.ip,
        e.uri == e.ip,
        e.user_agent == e.ip,
        e.country == e.ip,
        e.asn == e.ip,
        e.ip_per_uri.counts() == Map::<Seq<char>, nat>::empty(),
        e.uri_per_ip.counts() == Map::<Seq<char>, nat>::empty(),
        e.session_per_uri.counts() == Map::<Seq<char>, nat>::empty(),
        e.uri_per_session.counts() == Map::<Seq<char>, nat>::empty(),
{
    assert(e.ip_per_uri.counts() =~= Map::empty());
    assert(e.uri_per_ip.counts() =~= Map::empty());
    assert(e.session_per_uri.counts() =~= Map::empty());
    assert(e.uri_per_session.counts() =~= Map::empty());
}

/// A metric after some requests, each with its value and whether it was blocked.
pub open spec fn metric_after<A>(m: MetricView<A>, calls: Seq<(A, bool)>) -> MetricView<A>
    decreases calls.len(),
{
    if calls.len() == 0 {
        m
    } else {
        metric_after(m, calls.drop_last()).inc(calls.last().0, calls.last().1)
    }
}

/// What a metric has seen it keeps.
proof fn lemma_seen<A>(m: MetricView<A>, calls: Seq<(A, bool)>, n: A, blocked: bool)
    requires
        calls.contains((n, blocked)),
    ensures
        metric_after(m, calls).unique.contains(n),
        blocked ==> metric_after(m, calls).unique_blocked.contains(n),
        !blocked ==> metric_after(m, calls).unique_passed.contains(n),
    decreases calls.len(),
{
    if calls.last() != (n, blocked) {
        let front = calls.drop_last();
        let i = choose|i: int| 0 <= i < calls.len() && calls[i] == (n, blocked);
        assert(front[i] == (n, blocked));
        lemma_seen(m, front, n, blocked);
    }
}

/// A value that comes again, among blocked requests or among those that passed, adds nothing to the
/// distinct values of a metric. Its sketches may give just the numbers that they might before.
pub proof fn law_metric_again<T: Item>(
    m: MetricView<T::V>,
    calls: Seq<(T::V, bool)>,
    n: T::V,
    blocked: bool,
)
    requires
        calls.contains((n, blocked)),
    ensures
        ({
            let before = metric_after(m, calls);
            let again = before.inc(n, blocked);
            &&& again.unique == before.unique
            &&& again.unique_blocked == before.unique_blocked
            &&& again.unique_passed == before.unique_passed
            &&& forall|e: MetricEstimate| #[trigger]
                e.possible::<T>(again) == e.possible::<T>(before)
        }),
{
    let before = metric_after(m, calls);
    let again = before.inc(n, blocked);
    lemma_seen(m, calls, n, blocked);
    assert(again.unique =~= before.unique);
    assert(again.unique_blocked =~= before.unique_blocked);
    assert(again.unique_passed =~= before.unique_passed);
}

/// In a sequence without repetition a value stands once at most.
proof fn lemma_once<A>(s: Seq<A>, x: A)
    requires
        s.no_duplicates(),
    ensures
        s.filter(|y: A| y == x).len() <= 1,
        !s.contains(x) ==> s.filter(|y: A| y == x).len() == 0,
    decreases s.len(),
{
    reveal(Seq::filter);
    if s.len() > 0 {
        let front = s.drop_last();
        assert forall|i: int, j: int|
            0 <= i < front.len() && 0 <= j < front.len() && i != j implies front[i] != front[j] by {
            assert(s[i] != s[j]);
        }
        lemma_once(front, x);
        assert(s.contains(s.last())) by {
            assert(s[s.len() - 1] == s.last());
        }
        if front.contains(x) {
            let i = choose|i: int| 0 <= i < front.len() && front[i] == x;
            assert(s[i] != s[s.len() - 1]);
            assert(s[i] == x);
        }
    }
}

/// A value of a sequence stands in it at least once.
proof fn lemma_some<A>(s: Seq<A>, x: A)
    requires
        s.contains(x),
    ensures
        s.filter(|y: A| y == x).len() >= 1,
    decreases s.len(),
{
    reveal(Seq::filter);
    let front = s.drop_last();
    if s.last() != x {
        let i = choose|i: int| 0 <= i < s.len() && s[i] == x;
        assert(front[i] == x);
        lemma_some(front, x);
    }
}

/// Where no tag is given twice, a request is one bot and one human at most.
pub proof fn law_visitors(
    c: CountersView,
    reasons: Seq<BlockReason>,
    rcode: Option<u32>,
    rinfo: RequestInfo,
    tags: Tags,
    processing_time: Option<i64>,
)
    requires
        tags.distinct(),
    ensures
        ({
            let names = texts(tags.tags@);
            let d = c.incremented(reasons, rcode, rinfo, names, processing_time);
            &&& d.bot == c.bot + if names.contains("bot"@) {
                1nat
            } else {
                0
            }
            &&& d.human == c.human + if names.contains("human"@) {
                1nat
            } else {
                0
            }
        }),
{
    let names = texts(tags.tags@);
    assert forall|i: int, j: int|
        0 <= i < names.len() && 0 <= j < names.len() && i != j implies names[i] != names[j] by {
        if i < j {
            assert(tags.tags@[i]@ != tags.tags@[j]@);
        } else {
            assert(tags.tags@[j]@ != tags.tags@[i]@);
        }
    }
    lemma_once(names, "bot"@);
    lemma_once(names, "human"@);
    if names.contains("bot"@) {
        lemma_some(names, "bot"@);
    }
    if names.contains("human"@) {
        lemma_some(names, "human"@);
    }
}

/// Where no two headers have the same name, each header is found by its name.
pub proof fn law_headers(rinfo: RequestInfo, i: int)
    requires
        rinfo.distinct_headers(),
        0 <= i < rinfo.headers@.len(),
    ensures
        header_value(rinfo.headers@, rinfo.headers@[i].0@) == Some(rinfo.headers@[i].1@),
{
    lemma_header(rinfo.headers@, i);
}

proof fn lemma_header(headers: Seq<(String, String)>, i: int)
    requires
        distinct_names(headers),
        0 <= i < headers.len(),
    ensures
        header_value(headers, headers[i].0@) == Some(headers[i].1@),
    decreases headers.len(),
{
    if i > 0 {
        let rest = headers.drop_first();
        assert(headers[0].0@ != headers[i].0@);
        assert(rest[i - 1] == headers[i]);
        assert forall|a: int, b: int| 0 <= a < b < rest.len() implies (#[trigger] rest[a]).0@ != (
        #[trigger] rest[b]).0@ by {
            assert(headers[a + 1].0@ != headers[b + 1].0@);
        }
        lemma_header(rest, i - 1);
    }
}

} // verus!
