//! The counters of the last seconds, as one document.

use crate::aggregated::{
    counter_views, lemma_states_pruned, no_requests, prune_old_values, pruned, states,
    Aggregated,
};
use crate::clock::{on_calendar, timestamp_text};
use crate::counters::{AggregatedCounters, CountersView};
use crate::json::{documents_text, json_of, print_documents, Json};
use crate::report::{
    counters_json, entry_json, serialize_entry_estimated, AggregationKey, Estimates, KeyView,
};
use crate::settings::{report_seconds, Settings};
use serde_json::Value;
use std::collections::BTreeMap;
use vstd::prelude::*;

verus! {

broadcast use {vstd::std_specs::btree::group_btree_axioms, vstd::laws_cmp::group_laws_cmp};

/// What a [`Row`] is.
pub struct RowView {
    pub secs: int,
    pub key: KeyView,
    pub counters: CountersView,
}

/// The counters of a key and a second.
pub struct Row<'a> {
    pub secs: i64,
    pub key: &'a AggregationKey,
    pub counters: &'a AggregatedCounters,
}

impl<'a> View for Row<'a> {
    type V = RowView;

    open spec fn view(&self) -> RowView {
        RowView { secs: self.secs as int, key: self.key@, counters: self.counters@ }
    }
}

/// The rows of a key: one for each second, with or without requests.
pub open spec fn key_rows(
    key: KeyView,
    m: Map<i64, CountersView>,
    seconds: Seq<int>,
    empty: CountersView,
) -> Seq<RowView> {
    seconds.map_values(
        |secs: int|
            RowView {
                secs,
                key,
                counters: if m.contains_key(secs as i64) {
                    m[secs as i64]
                } else {
                    empty
                },
            },
    )
}

/// The rows of all keys that have any second.
pub open spec fn all_rows(
    s: Seq<(KeyView, Map<i64, CountersView>)>,
    seconds: Seq<int>,
    empty: CountersView,
) -> Seq<RowView>
    decreases s.len(),
{
    if s.len() == 0 {
        Seq::empty()
    } else if s.last().1.is_empty() {
        all_rows(s.drop_last(), seconds, empty)
    } else {
        all_rows(s.drop_last(), seconds, empty) + key_rows(
            s.last().0,
            s.last().1,
            seconds,
            empty,
        )
    }
}

/// The key of the rows when there is no request at all.
pub open spec fn default_key(proxy: Option<Seq<char>>) -> KeyView {
    KeyView { proxy, secpolid: "__default__"@, secpolentryid: "__default__"@ }
}

/// The rows of a document: those of the keys, or seconds without requests where there are none.
pub open spec fn document_rows(
    s: Seq<(KeyView, Map<i64, CountersView>)>,
    seconds: Seq<int>,
    empty: CountersView,
    proxy: Option<Seq<char>>,
) -> Seq<RowView> {
    let rows = all_rows(s, seconds, empty);
    if rows.len() == 0 {
        key_rows(default_key(proxy), Map::empty(), seconds, empty)
    } else {
        rows
    }
}

/// The rows of a document at `timestamp`, from what was kept before it.
pub open spec fn rows_at(
    s: Seq<(KeyView, Map<i64, CountersView>)>,
    settings: Settings,
    timestamp: i64,
    proxy: Option<Seq<char>>,
) -> Seq<RowView> {
    document_rows(
        pruned(s, timestamp - settings.seconds_kept),
        report_seconds(settings.seconds_kept as int, timestamp as int),
        no_requests(settings),
        proxy,
    )
}

/// Rows as values.
pub open spec fn row_views<'a>(rows: Seq<Row<'a>>) -> Seq<RowView> {
    rows.map_values(|r: Row<'a>| r@)
}

/// Whether rows can be written.
pub open spec fn rows_wf<'a>(rows: Seq<Row<'a>>) -> bool {
    forall|i: int|
        0 <= i < rows.len() ==> on_calendar((#[trigger] rows[i]).secs as int)
            && rows[i].counters.wf()
}

/// Adds the rows of a key.
fn push_rows<'a>(
    rows: &mut Vec<Row<'a>>,
    key: &'a AggregationKey,
    mp: Option<&'a BTreeMap<i64, AggregatedCounters>>,
    settings: &Settings,
    timestamp: i64,
    empty: &'a AggregatedCounters,
)
    requires
        rows_wf(old(rows)@),
        settings.reportable(timestamp),
        empty.wf(),
        mp matches Some(m) ==> forall|k: i64| m@.contains_key(k) ==> (#[trigger] m@[k]).wf(),
    ensures
        rows_wf(final(rows)@),
        row_views(final(rows)@) == row_views(old(rows)@) + key_rows(
            key@,
            match mp {
                Some(m) => counter_views(m@),
                None => Map::empty(),
            },
            report_seconds(settings.seconds_kept as int, timestamp as int),
            empty@,
        ),
{
    let ghost seconds = report_seconds(settings.seconds_kept as int, timestamp as int);
    let ghost m = match mp {
        Some(m) => counter_views(m@),
        None => Map::empty(),
    };
    let ghost want = key_rows(key@, m, seconds, empty@);
    let ghost start = row_views(rows@);
    let mut secs: i64 = timestamp - settings.seconds_kept + 1;
    let ghost mut n: int = 0;
    proof {
        assert(want.take(0) =~= Seq::empty());
        assert(start + want.take(0) =~= start);
    }
    while secs <= timestamp
        invariant
            settings.reportable(timestamp),
            empty.wf(),
            mp matches Some(m) ==> forall|k: i64| m@.contains_key(k) ==> (#[trigger] m@[k]).wf(),
            m == match mp {
                Some(m) => counter_views(m@),
                None => Map::empty(),
            },
            seconds == report_seconds(settings.seconds_kept as int, timestamp as int),
            want == key_rows(key@, m, seconds, empty@),
            secs == 1 + timestamp - settings.seconds_kept + n,
            0 <= n <= seconds.len(),
            rows_wf(rows@),
            row_views(rows@) == start + want.take(n),
        decreases timestamp - secs + 1,
    {
        let counters = match mp {
            Some(mp) => match mp.get(&secs) {
                Some(c) => c,
                None => empty,
            },
            None => empty,
        };
        let ghost before = rows@;
        rows.push(Row { secs, key, counters });
        proof {
            assert(seconds[n] == secs);
            assert(want[n] == rows@.last()@);
            assert(row_views(rows@) =~= row_views(before).push(want[n]));
            assert(want.take(n + 1) =~= want.take(n).push(want[n]));
            assert(start + want.take(n + 1) =~= (start + want.take(n)).push(want[n]));
            n = n + 1;
        }
        secs = secs + 1;
    }
    proof {
        assert(want.take(n) =~= want);
    }
}

/// The rows of a document.
fn rows_of<'a>(
    amp: &'a Aggregated<AggregatedCounters>,
    settings: &Settings,
    timestamp: i64,
    default_hdr: &'a AggregationKey,
    empty: &'a AggregatedCounters,
) -> (rows: Vec<Row<'a>>)
    requires
        amp.valid(),
        settings.reportable(timestamp),
        empty.wf(),
        default_hdr@ == default_key(default_hdr@.proxy),
    ensures
        rows_wf(rows@),
        row_views(rows@) == document_rows(
            amp.state(),
            report_seconds(settings.seconds_kept as int, timestamp as int),
            empty@,
            default_hdr@.proxy,
        ),
{
    let ghost seconds = report_seconds(settings.seconds_kept as int, timestamp as int);
    let ghost s = amp.state();
    let mut rows: Vec<Row<'a>> = Vec::new();
    let mut i: usize = 0;
    proof {
        assert(row_views(rows@) =~= Seq::empty());
    }
    while i < amp.len()
        invariant
            i <= amp@.len(),
            amp.valid(),
            settings.reportable(timestamp),
            empty.wf(),
            s == amp.state(),
            seconds == report_seconds(settings.seconds_kept as int, timestamp as int),
            rows_wf(rows@),
            row_views(rows@) == all_rows(s.take(i as int), seconds, empty@),
        decreases amp@.len() - i,
    {
        let mp = amp.seconds_at(i);
        proof {
            let next = s.take(i + 1);
            assert(next.drop_last() =~= s.take(i as int));
            assert(next.last() == s[i as int]);
            assert(s[i as int].1 == counter_views(mp@));
            if mp@.is_empty() {
                assert(counter_views(mp@).dom() =~= Set::empty());
            } else {
                let k = choose|k: i64| mp@.contains_key(k);
                assert(mp@.contains_key(k));
                assert(counter_views(mp@).contains_key(k));
            }
        }
        if !mp.is_empty() {
            push_rows(&mut rows, amp.key_at(i), Some(mp), settings, timestamp, empty);
        }
        i += 1;
    }
    proof {
        assert(s.take(i as int) =~= s);
    }
    if rows.len() == 0 {
        push_rows(&mut rows, default_hdr, None, settings, timestamp, empty);
        proof {
            let all = key_rows(default_hdr@, Map::empty(), seconds, empty@);
            assert(Seq::<RowView>::empty() + all =~= all);
        }
    }
    rows
}

/// The sum and the number of the processing times of each row.
pub open spec fn row_times(rows: Seq<RowView>) -> Seq<(i64, u64)> {
    rows.map_values(
        |r: RowView| (r.counters.processing_time.total, r.counters.processing_time.n_sample),
    )
}

/// Whether the sketches of the rows may give these numbers, with the keys in order.
pub open spec fn all_possible(rows: Seq<RowView>, estimates: Seq<Estimates>) -> bool {
    &&& estimates.len() == rows.len()
    &&& forall|i: int|
        0 <= i < rows.len() ==> (#[trigger] estimates[i]).possible(rows[i].counters)
            && estimates[i].wf()
}

/// The document of some rows, with what their sketches gave and their mean processing times.
pub open spec fn document_json(
    rows: Seq<RowView>,
    estimates: Seq<Estimates>,
    averages: Seq<Json>,
    top_amount: nat,
) -> Seq<Json> {
    Seq::new(
        rows.len(),
        |i: int|
            entry_json(
                Json::Text(timestamp_text(rows[i].secs)),
                rows[i].key,
                counters_json(rows[i].counters, estimates[i], averages[i], top_amount),
            ),
    )
}

/// Values as JSON.
pub open spec fn jsons(values: Seq<Value>) -> Seq<Json> {
    values.map_values(|v: Value| json_of(v))
}

/// Writes rows, with what their sketches gave. `averages` are their mean processing times.
pub fn document<'a>(
    rows: &Vec<Row<'a>>,
    estimates: &Vec<Estimates>,
    averages: Vec<Value>,
    top_amount: usize,
) -> (entries: Vec<Value>)
    requires
        rows_wf(rows@),
        estimates@.len() == rows@.len(),
        averages@.len() == rows@.len(),
        forall|i: int| 0 <= i < estimates@.len() ==> (#[trigger] estimates@[i]).wf(),
    ensures
        jsons(entries@) == document_json(
            row_views(rows@),
            estimates@,
            jsons(averages@),
            top_amount as nat,
        ),
{
    let ghost want = document_json(
        row_views(rows@),
        estimates@,
        jsons(averages@),
        top_amount as nat,
    );
    let ghost all = averages@;
    let mut entries: Vec<Value> = Vec::new();
    let n = rows.len();
    let mut i: usize = 0;
    for average in it: averages
        invariant
            n == rows@.len(),
            rows_wf(rows@),
            i == it.index(),
            it.seq() == all,
            all.len() == rows@.len(),
            estimates@.len() == rows@.len(),
            forall|j: int| 0 <= j < estimates@.len() ==> (#[trigger] estimates@[j]).wf(),
            want == document_json(row_views(rows@), estimates@, jsons(all), top_amount as nat),
            entries@.len() == i,
            forall|j: int| 0 <= j < i ==> json_of(#[trigger] entries@[j]) == want[j],
    {
        let row = &rows[i];
        let entry = serialize_entry_estimated(
            row.secs,
            row.key,
            row.counters,
            &estimates[i],
            average,
            top_amount,
        );
        proof {
            assert(row_views(rows@)[i as int] == row@);
            assert(jsons(all)[i as int] == json_of(average));
        }
        entries.push(entry);
        i += 1;
    }
    proof {
        assert(jsons(entries@) =~= want);
    }
    entries
}

/// The text of a document, or that of an empty one where the printer failed.
pub fn document_text(text: Result<String, serde_json::Error>) -> (r: String)
    ensures
        r@ == match text {
            Ok(text) => text@,
            Err(_) => "[]"@,
        },
{
    match text {
        Ok(text) => text,
        Err(_) => "[]".to_owned(),
    }
}

/// Asks the sketches of all rows.
fn estimates_of<'a>(rows: &Vec<Row<'a>>) -> (estimates: Vec<Estimates>)
    requires
        rows_wf(rows@),
    ensures
        all_possible(row_views(rows@), estimates@),
        forall|i: int| 0 <= i < estimates@.len() ==> (#[trigger] estimates@[i]).wf(),
{
    let mut estimates: Vec<Estimates> = Vec::new();
    let mut i: usize = 0;
    while i < rows.len()
        invariant
            rows_wf(rows@),
            i <= rows@.len(),
            estimates@.len() == i,
            forall|j: int|
                0 <= j < i ==> (#[trigger] estimates@[j]).possible(row_views(rows@)[j].counters),
            forall|j: int| 0 <= j < i ==> (#[trigger] estimates@[j]).wf(),
        decreases rows@.len() - i,
    {
        estimates.push(Estimates::of(rows[i].counters));
        i += 1;
    }
    estimates
}

/// The key of the rows when there is no request at all.
fn default_header(proxy: &Option<String>) -> (key: AggregationKey)
    ensures
        key@ == default_key(name_view(*proxy)),
{
    AggregationKey {
        proxy: match proxy {
            Some(name) => Some(name.clone()),
            None => None,
        },
        secpolid: "__default__".to_owned(),
        secpolentryid: "__default__".to_owned(),
    }
}

/// A name that may be missing.
pub open spec fn name_view(name: Option<String>) -> Option<Seq<char>> {
    match name {
        Some(name) => Some(name@),
        None => None,
    }
}

/// Where no second is kept there is no row.
proof fn lemma_no_seconds(
    p: Seq<(KeyView, Map<i64, CountersView>)>,
    settings: Settings,
    timestamp: i64,
    proxy: Option<Seq<char>>,
)
    requires
        settings.seconds_kept <= 0,
    ensures
        document_rows(
            p,
            report_seconds(settings.seconds_kept as int, timestamp as int),
            no_requests(settings),
            proxy,
        ).len() == 0,
    decreases p.len(),
{
    if p.len() > 0 {
        lemma_no_seconds(p.drop_last(), settings, timestamp, proxy);
    }
}

/// The sums and numbers that the mean processing times of a document come from, row by row.
pub fn processing_times(
    amp: &mut Aggregated<AggregatedCounters>,
    settings: &Settings,
    timestamp: i64,
    proxy: &Option<String>,
) -> (times: Vec<(i64, u64)>)
    requires
        old(amp).valid(),
        settings.seconds_kept > 0 ==> settings.valid(),
        settings.reportable(timestamp),
    ensures
        final(amp).valid(),
        final(amp).state() == pruned(old(amp).state(), timestamp - settings.seconds_kept),
        times@ == row_times(rows_at(old(amp).state(), *settings, timestamp, name_view(*proxy))),
{
    let ghost before = amp@;
    prune_old_values(amp, timestamp, settings.seconds_kept);
    proof {
        lemma_states_pruned(before, timestamp - settings.seconds_kept);
    }
    if settings.seconds_kept <= 0 {
        let times: Vec<(i64, u64)> = Vec::new();
        proof {
            lemma_no_seconds(amp.state(), *settings, timestamp, name_view(*proxy));
            let rows = rows_at(states(before), *settings, timestamp, name_view(*proxy));
            assert(times@ =~= row_times(rows));
        }
        return times;
    }
    let hdr = default_header(proxy);
    let empty = AggregatedCounters::new(settings);
    let rows = rows_of(amp, settings, timestamp, &hdr, &empty);
    let mut times: Vec<(i64, u64)> = Vec::new();
    let mut i: usize = 0;
    while i < rows.len()
        invariant
            i <= rows@.len(),
            times@ == row_times(row_views(rows@)).take(i as int),
        decreases rows@.len() - i,
    {
        let metric = &rows[i].counters.processing_time;
        times.push((metric.total, metric.n_sample));
        i += 1;
        proof {
            assert(times@ =~= row_times(row_views(rows@)).take(i as int));
        }
    }
    proof {
        assert(times@ =~= row_times(row_views(rows@)));
    }
    times
}

/// Writes the last seconds up to `timestamp`, after dropping what is older. `averages` are the mean
/// processing times of the rows.
pub fn aggregated_values(
    amp: &mut Aggregated<AggregatedCounters>,
    settings: &Settings,
    timestamp: i64,
    proxy: &Option<String>,
    averages: Vec<Value>,
) -> (text: String)
    requires
        old(amp).valid(),
        settings.seconds_kept > 0 ==> settings.valid(),
        settings.reportable(timestamp),
        averages@.len() == rows_at(
            old(amp).state(),
            *settings,
            timestamp,
            name_view(*proxy),
        ).len(),
    ensures
        final(amp).valid(),
        final(amp).state() == pruned(old(amp).state(), timestamp - settings.seconds_kept),
        exists|estimates: Seq<Estimates>| #[trigger]
            all_possible(
                rows_at(old(amp).state(), *settings, timestamp, name_view(*proxy)),
                estimates,
            ) && text@ == documents_text(
                document_json(
                    rows_at(old(amp).state(), *settings, timestamp, name_view(*proxy)),
                    estimates,
                    jsons(averages@),
                    settings.top_amount as nat,
                ),
            ),
{
    let ghost before = amp@;
    prune_old_values(amp, timestamp, settings.seconds_kept);
    proof {
        lemma_states_pruned(before, timestamp - settings.seconds_kept);
    }
    if settings.seconds_kept <= 0 {
        let entries: Vec<Value> = Vec::new();
        proof {
            lemma_no_seconds(amp.state(), *settings, timestamp, name_view(*proxy));
            let rows = rows_at(states(before), *settings, timestamp, name_view(*proxy));
            let none = Seq::<Estimates>::empty();
            assert(all_possible(rows, none));
            assert(jsons(entries@) =~= document_json(
                rows,
                none,
                jsons(averages@),
                settings.top_amount as nat,
            ));
        }
        return document_text(print_documents(&entries));
    }
    let hdr = default_header(proxy);
    let empty = AggregatedCounters::new(settings);
    let rows = rows_of(amp, settings, timestamp, &hdr, &empty);
    let estimates = estimates_of(&rows);
    let entries = document(&rows, &estimates, averages, settings.top_amount);
    document_text(print_documents(&entries))
}

} // verus!
