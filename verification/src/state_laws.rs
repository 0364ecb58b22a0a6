//! What is kept after requests, and which rows are reported, entry by entry.

use crate::aggregated::{
    after, has_key, is_entry, key_of, keys_distinct, lemma_entry, no_requests, prunable, pruned,
    Aggregated,
};
use crate::clock::{FIRST_SECOND, LAST_SECOND};
use crate::counters::{texts, AggregatedCounters, CountersView};
use crate::json::json_of;
use crate::laws::{after_request, with_request, Request};
use crate::report::{AggregationKey, KeyView};
use crate::request::RequestInfo;
use crate::settings::{report_seconds, Settings};
use crate::values::{all_rows, jsons, key_rows, name_view, row_times, rows_at, Row, RowView};
use serde_json::Value;
use vstd::prelude::*;

verus! {

/// A key has the parts of its fields, and two keys are the same exactly if all parts are.
pub proof fn law_key_parts(a: AggregationKey, b: AggregationKey)
    ensures
        a@.secpolid == a.secpolid@,
        a@.secpolentryid == a.secpolentryid@,
        a.proxy is None <==> a@.proxy is None,
        a.proxy matches Some(name) ==> a@.proxy == Some(name@),
        a@ == b@ <==> a.secpolid@ == b.secpolid@ && a.secpolentryid@ == b.secpolentryid@ && (
        match (a.proxy, b.proxy) {
            (Some(x), Some(y)) => x@ == y@,
            (None, None) => true,
            _ => false,
        }),
{
}

/// A request is grouped by its own proxy, policy and entry. Two requests share a key exactly if
/// they agree in all three.
pub proof fn law_request_key(a: RequestInfo, b: RequestInfo)
    ensures
        key_of(a).secpolid == a.secpolicy_id@,
        key_of(a).secpolentryid == a.secpolicy_entry_id@,
        a.container_name is None <==> key_of(a).proxy is None,
        a.container_name matches Some(name) ==> key_of(a).proxy == Some(name@),
        key_of(a) == key_of(b) <==> a.secpolicy_id@ == b.secpolicy_id@ && a.secpolicy_entry_id@
            == b.secpolicy_entry_id@ && (match (a.container_name, b.container_name) {
            (Some(x), Some(y)) => x@ == y@,
            (None, None) => true,
            _ => false,
        }),
{
}

/// Whether a key is that of a request, part by part.
pub open spec fn key_matches(key: KeyView, rinfo: RequestInfo) -> bool {
    &&& key.secpolid == rinfo.secpolicy_id@
    &&& key.secpolentryid == rinfo.secpolicy_entry_id@
    &&& match (key.proxy, rinfo.container_name) {
        (Some(x), Some(y)) => x == y@,
        (None, None) => true,
        _ => false,
    }
}

/// Whether an entry kept just its seconds after a limit, but for one second.
pub open spec fn kept_but<A>(before: Map<i64, A>, now: Map<i64, A>, limit: int, but: i64) -> bool {
    forall|k: i64|
        k != but ==> {
            &&& #[trigger] now.contains_key(k) <==> before.contains_key(k) && k > limit
            &&& now.contains_key(k) ==> now[k] == before[k]
        }
}

/// What one request changes, entry by entry. Every entry keeps its place, its key, and its seconds
/// that are less than the kept number before the request. The entry with the request's proxy,
/// policy and entry id holds the second of the request too: with the request counted on top of
/// what that second held, or on top of nothing. Where no entry has that key, one comes at the end.
pub proof fn law_aggregate_entries(
    s: Seq<(KeyView, Map<i64, CountersView>)>,
    settings: Settings,
    r: Request,
)
    requires
        keys_distinct(s),
    ensures
        ({
            let t = with_request(s, settings, r);
            let secs = r.rinfo.timestamp.secs;
            let limit = secs - settings.seconds_kept;
            let nothing = CountersView::empty(
                settings.hyperloglog_size as nat,
                2 * settings.top_amount as nat,
            );
            let known = exists|i: int|
                0 <= i < s.len() && key_matches((#[trigger] s[i]).0, r.rinfo);
            &&& t.len() == if known {
                s.len()
            } else {
                s.len() + 1
            }
            &&& forall|i: int|
                0 <= i < s.len() ==> {
                    let mine = key_matches((#[trigger] s[i]).0, r.rinfo);
                    &&& t[i].0 == s[i].0
                    &&& kept_but(s[i].1, t[i].1, limit, secs)
                    &&& mine ==> t[i].1.contains_key(secs) && t[i].1[secs] == after_request(
                        if s[i].1.contains_key(secs) && settings.seconds_kept > 0 {
                            s[i].1[secs]
                        } else {
                            nothing
                        },
                        r,
                    )
                    &&& !mine ==> (t[i].1.contains_key(secs) <==> s[i].1.contains_key(secs)
                        && settings.seconds_kept > 0)
                    &&& !mine && t[i].1.contains_key(secs) ==> t[i].1[secs] == s[i].1[secs]
                }
            &&& !known ==> {
                let last = t[s.len() as int];
                &&& key_matches(last.0, r.rinfo)
                &&& last.1.contains_key(secs) && last.1[secs] == after_request(nothing, r)
                &&& forall|k: i64| #[trigger] last.1.contains_key(k) ==> k == secs
            }
        }),
{
    let secs = r.rinfo.timestamp.secs;
    let limit = secs - settings.seconds_kept;
    let p = pruned(s, limit);
    let hdr = key_of(r.rinfo);
    let t = with_request(s, settings, r);
    assert forall|k: KeyView| #[trigger] key_matches(k, r.rinfo) == (k == hdr) by {
        if key_matches(k, r.rinfo) {
            assert(k.secpolid == hdr.secpolid);
            assert(k.proxy == hdr.proxy);
        }
    }
    assert(keys_distinct(p)) by {
        assert forall|i: int, j: int| 0 <= i < j < p.len() implies (#[trigger] p[i]).0 != (
        #[trigger] p[j]).0 by {
            assert(s[i].0 != s[j].0);
        }
    }
    if has_key(p, hdr) {
        let at = choose|i: int| is_entry(p, hdr, i);
        assert(is_entry(p, hdr, at));
        lemma_entry(p, hdr, at);
        assert(key_matches(s[at].0, r.rinfo));
        assert forall|i: int| 0 <= i < s.len() && key_matches((#[trigger] s[i]).0, r.rinfo) implies i
            == at by {
            if i < at {
                assert(s[i].0 != s[at].0);
            } else if at < i {
                assert(s[at].0 != s[i].0);
            }
        }
    } else {
        assert forall|i: int| 0 <= i < s.len() implies !key_matches(
            (#[trigger] s[i]).0,
            r.rinfo,
        ) by {
            assert(!is_entry(p, hdr, i));
        }
    }
}

/// Whether a key has a second after a limit.
pub open spec fn live<A>(m: Map<i64, A>, limit: int) -> bool {
    exists|k: i64| #[trigger] m.contains_key(k) && k > limit
}

/// How many entries have a second after a limit.
pub open spec fn lives<A>(s: Seq<(KeyView, Map<i64, A>)>, limit: int) -> nat
    decreases s.len(),
{
    if s.len() == 0 {
        0
    } else {
        lives(s.drop_last(), limit) + if live(s.last().1, limit) {
            1nat
        } else {
            0
        }
    }
}

proof fn lemma_live<A>(m: Map<i64, A>, limit: int)
    ensures
        after(m, limit).is_empty() == !live(m, limit),
{
    if live(m, limit) {
        let k = choose|k: i64| #[trigger] m.contains_key(k) && k > limit;
        assert(after(m, limit).contains_key(k));
    } else {
        assert(after(m, limit).dom() =~= Set::empty());
    }
}

proof fn lemma_lives(
    s: Seq<(KeyView, Map<i64, CountersView>)>,
    limit: int,
    seconds: Seq<int>,
    empty: CountersView,
)
    ensures
        all_rows(pruned(s, limit), seconds, empty).len() == lives(s, limit) * seconds.len(),
    decreases s.len(),
{
    let p = pruned(s, limit);
    let len = seconds.len();
    if s.len() > 0 {
        let front = s.drop_last();
        assert(p.drop_last() =~= pruned(front, limit));
        lemma_lives(front, limit, seconds, empty);
        lemma_live(s.last().1, limit);
        let n = lives(front, limit);
        assert((n + 1) * len == n * len + len) by (nonlinear_arith);
    } else {
        assert(0 * len == 0) by (nonlinear_arith);
    }
}

proof fn lemma_row_place(
    s: Seq<(KeyView, Map<i64, CountersView>)>,
    limit: int,
    seconds: Seq<int>,
    empty: CountersView,
    i: int,
    n: int,
)
    requires
        0 <= i < s.len(),
        live(s[i].1, limit),
        0 <= n < seconds.len(),
    ensures
        ({
            let rows = all_rows(pruned(s, limit), seconds, empty);
            let at = lives(s.take(i), limit) * seconds.len() + n;
            &&& 0 <= at < rows.len()
            &&& rows[at] == key_rows(s[i].0, after(s[i].1, limit), seconds, empty)[n]
        }),
    decreases s.len(),
{
    let p = pruned(s, limit);
    let front = s.drop_last();
    let len = seconds.len();
    assert(p.drop_last() =~= pruned(front, limit));
    lemma_lives(front, limit, seconds, empty);
    lemma_lives(s.take(i), limit, seconds, empty);
    let ghost_at = lives(s.take(i), limit) * len;
    assert(ghost_at >= 0) by (nonlinear_arith)
        requires
            ghost_at == lives(s.take(i), limit) * len,
            len >= 0,
            lives(s.take(i), limit) >= 0,
    ;
    if i < front.len() {
        assert(front[i] == s[i]);
        assert(front.take(i) =~= s.take(i));
        lemma_row_place(front, limit, seconds, empty, i, n);
    } else {
        assert(s.take(i) =~= front);
        lemma_live(s.last().1, limit);
    }
}

/// Which rows a document has, and in which order. Each entry with a second that is still kept has
/// one row for each of the last seconds, from the first to the last, behind the rows of the
/// entries before it. A row holds the counters that its entry has for its second, or those of a
/// second without requests.
pub proof fn law_row_places(
    s: Seq<(KeyView, Map<i64, CountersView>)>,
    settings: Settings,
    timestamp: i64,
    proxy: Option<Seq<char>>,
    i: int,
    n: int,
)
    requires
        settings.reportable(timestamp),
        0 <= n < settings.seconds_kept,
        0 <= i < s.len(),
        live(s[i].1, timestamp - settings.seconds_kept),
    ensures
        ({
            let limit = timestamp - settings.seconds_kept;
            let rows = rows_at(s, settings, timestamp, proxy);
            let at = lives(s.take(i), limit) * settings.seconds_kept + n;
            let secs = timestamp - settings.seconds_kept + 1 + n;
            &&& rows.len() == lives(s, limit) * settings.seconds_kept
            &&& 0 <= at < rows.len()
            &&& rows[at].secs == secs
            &&& rows[at].key == s[i].0
            &&& s[i].1.contains_key(secs as i64) ==> rows[at].counters == s[i].1[secs as i64]
            &&& !s[i].1.contains_key(secs as i64) ==> rows[at].counters == CountersView::empty(
                settings.hyperloglog_size as nat,
                2 * settings.top_amount as nat,
            )
        }),
{
    let limit = timestamp - settings.seconds_kept;
    let seconds = report_seconds(settings.seconds_kept as int, timestamp as int);
    let empty = no_requests(settings);
    lemma_row_place(s, limit, seconds, empty, i, n);
    lemma_lives(s, limit, seconds, empty);
    assert(seconds[n] == limit + 1 + n);
}

/// Where no entry has a second that is still kept, a document has one row for each of the last
/// seconds, under the proxy's name and the default policy, without requests.
pub proof fn law_default_rows(
    s: Seq<(KeyView, Map<i64, CountersView>)>,
    settings: Settings,
    timestamp: i64,
    proxy: Option<Seq<char>>,
    n: int,
)
    requires
        0 <= n < settings.seconds_kept,
        forall|i: int|
            0 <= i < s.len() ==> !live((#[trigger] s[i]).1, timestamp - settings.seconds_kept),
    ensures
        ({
            let rows = rows_at(s, settings, timestamp, proxy);
            &&& rows.len() == settings.seconds_kept
            &&& rows[n].secs == timestamp - settings.seconds_kept + 1 + n
            &&& rows[n].key.proxy == proxy
            &&& rows[n].key.secpolid == "__default__"@
            &&& rows[n].key.secpolentryid == "__default__"@
            &&& rows[n].counters == CountersView::empty(
                settings.hyperloglog_size as nat,
                2 * settings.top_amount as nat,
            )
        }),
{
    let limit = timestamp - settings.seconds_kept;
    let seconds = report_seconds(settings.seconds_kept as int, timestamp as int);
    let empty = no_requests(settings);
    lemma_no_lives(s, limit);
    lemma_lives(s, limit, seconds, empty);
    assert(0 * seconds.len() == 0) by (nonlinear_arith);
    assert(seconds[n] == limit + 1 + n);
}

proof fn lemma_no_lives<A>(s: Seq<(KeyView, Map<i64, A>)>, limit: int)
    requires
        forall|i: int| 0 <= i < s.len() ==> !live((#[trigger] s[i]).1, limit),
    ensures
        lives(s, limit) == 0,
    decreases s.len(),
{
    if s.len() > 0 {
        let front = s.drop_last();
        assert forall|i: int| 0 <= i < front.len() implies !live((#[trigger] front[i]).1, limit) by {
            assert(front[i] == s[i]);
        }
        lemma_no_lives(front, limit);
        assert(!live(s[s.len() - 1].1, limit));
    }
}

/// Where no second is kept, a document has no row.
pub proof fn law_no_rows(
    s: Seq<(KeyView, Map<i64, CountersView>)>,
    settings: Settings,
    timestamp: i64,
    proxy: Option<Seq<char>>,
)
    requires
        settings.seconds_kept <= 0,
    ensures
        rows_at(s, settings, timestamp, proxy).len() == 0,
{
    let limit = timestamp - settings.seconds_kept;
    let seconds = report_seconds(settings.seconds_kept as int, timestamp as int);
    lemma_lives(s, limit, seconds, no_requests(settings));
    let n = lives(s, limit);
    assert(n * 0 == 0) by (nonlinear_arith);
}

/// The processing times of a document are the sums and the numbers of its rows, in their order.
pub proof fn law_row_times(rows: Seq<RowView>, i: int)
    requires
        0 <= i < rows.len(),
    ensures
        row_times(rows).len() == rows.len(),
        row_times(rows)[i].0 == rows[i].counters.processing_time.total,
        row_times(rows)[i].1 == rows[i].counters.processing_time.n_sample,
{
}

/// What a vector of entries holds as values: the same keys in the same order, and for each second
/// what its counters are.
pub proof fn law_state(a: Aggregated<AggregatedCounters>, i: int)
    requires
        0 <= i < a@.len(),
    ensures
        a.state().len() == a@.len(),
        a.state()[i].0 == a@[i].0,
        forall|k: i64| #[trigger]
            a.state()[i].1.contains_key(k) <==> a@[i].1.contains_key(k),
        forall|k: i64|
            a@[i].1.contains_key(k) ==> #[trigger] a.state()[i].1[k] == a@[i].1[k]@,
{
}

/// A row is what its fields say.
pub proof fn law_row_fields<'a>(row: Row<'a>, name: Option<String>)
    ensures
        row@.secs == row.secs,
        row@.key == row.key@,
        row@.counters == row.counters@,
        name is None <==> name_view(name) is None,
        name matches Some(n) ==> name_view(name) == Some(n@),
{
}

/// The settings that counters can be made with: sketches of 4 to 18 bits, and tables whose size is
/// a machine number.
pub proof fn law_valid_settings(settings: Settings)
    ensures
        settings.valid() <==> 4 <= settings.hyperloglog_size <= 18 && 2 * settings.top_amount
            <= usize::MAX,
{
}

/// The texts of strings and the JSON of values are their own, one by one and in their order.
pub proof fn law_one_by_one(v: Seq<String>, w: Seq<Value>, i: int)
    ensures
        texts(v).len() == v.len(),
        0 <= i < v.len() ==> texts(v)[i] == v[i]@,
        jsons(w).len() == w.len(),
        0 <= i < w.len() ==> jsons(w)[i] == json_of(w[i]),
{
}

/// A document can be written where all its seconds lie on the calendar. Where it has none, only the
/// limit of what is kept has to be a machine number.
pub proof fn law_reportable(settings: Settings, timestamp: i64)
    ensures
        settings.seconds_kept > 0 && FIRST_SECOND <= timestamp - settings.seconds_kept + 1
            && timestamp <= LAST_SECOND ==> settings.reportable(timestamp),
        settings.reportable(timestamp) && settings.seconds_kept > 0 ==> FIRST_SECOND <= timestamp
            - settings.seconds_kept + 1 && timestamp <= LAST_SECOND,
        settings.seconds_kept <= 0 ==> (settings.reportable(timestamp) <==> timestamp < i64::MAX
            && timestamp - settings.seconds_kept < i64::MAX),
{
}

/// What is kept can be pruned where the limit is a machine number, and where no entry has a second.
pub proof fn law_prunable<A>(s: Seq<(KeyView, Map<i64, A>)>, curtime: i64, seconds_kept: i64)
    ensures
        i64::MIN <= curtime - seconds_kept <= i64::MAX ==> prunable(s, curtime, seconds_kept),
        (forall|i: int, k: i64|
            0 <= i < s.len() ==> !(#[trigger] s[i].1.contains_key(k))) ==> prunable(
            s,
            curtime,
            seconds_kept,
        ),
{
    if forall|i: int, k: i64| 0 <= i < s.len() ==> !(#[trigger] s[i].1.contains_key(k)) {
        assert forall|i: int| 0 <= i < s.len() implies (#[trigger] s[i]).1.is_empty() by {
            assert(s[i].1.dom() =~= Set::empty()) by {
                assert forall|k: i64| !s[i].1.dom().contains(k) by {
                    assert(!s[i].1.contains_key(k));
                }
            }
        }
    }
}

} // verus!
