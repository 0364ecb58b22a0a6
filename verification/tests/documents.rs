//! The counters of the last seconds, and their documents.

use aggregator::aggregated::{
    aggregate, aggregate_timed, prune_old_values, same_key, try_aggregate, Aggregated,
};
use aggregator::clock::{current_second, Timestamp};
use aggregator::counters::AggregatedCounters;
use aggregator::report::{serialize_entry, timestamp_or_unknown, AggregationKey};
use aggregator::request::{Decision, RequestInfo, Tags};
use aggregator::settings::Settings;
use aggregator::values::{aggregated_values, document_text, processing_times};
use serde_json::Value;

fn settings(seconds_kept: i64) -> Settings {
    Settings { seconds_kept, top_amount: 25, hyperloglog_size: 8 }
}

fn request(secs: i64, policy: &str) -> RequestInfo {
    RequestInfo {
        timestamp: Timestamp { secs, nanos: 0 },
        container_name: Some("proxy".to_string()),
        acl_profile_id: "acl".to_string(),
        content_filter_profile_id: "cf".to_string(),
        secpolicy_id: policy.to_string(),
        secpolicy_entry_id: "entry".to_string(),
        method: "GET".to_string(),
        ip: "1.2.3.4".to_string(),
        session: "session".to_string(),
        uri: "/a".to_string(),
        country: None,
        asn: None,
        headers: Vec::new(),
        cookies: 0,
        args: 0,
    }
}

fn add(a: &mut Aggregated<AggregatedCounters>, s: &Settings, secs: i64, policy: &str, micros: i64) {
    let dec = Decision { reasons: Vec::new() };
    let tags = Tags { tags: Vec::new() };
    assert!(a.can_prune(secs, s.seconds_kept));
    aggregate_timed(a, s, &dec, Some(200), &request(secs, policy), &tags, Some(micros));
}

fn document(a: &mut Aggregated<AggregatedCounters>, s: &Settings, timestamp: i64) -> String {
    assert!(s.can_report(timestamp));
    let proxy = Some("default proxy".to_string());
    let times = processing_times(a, s, timestamp, &proxy);
    let averages = times
        .into_iter()
        .map(|(total, n)| Value::from(if n == 0 { 0.0 } else { total as f64 / n as f64 }))
        .collect();
    aggregated_values(a, s, timestamp, &proxy, averages)
}

fn rows(a: &mut Aggregated<AggregatedCounters>, s: &Settings, timestamp: i64) -> Vec<Value> {
    let v: Value = serde_json::from_str(&document(a, s, timestamp)).unwrap();
    v.as_array().unwrap().clone()
}

fn hits(rows: &[Value]) -> Vec<(String, String, u64)> {
    rows.iter()
        .map(|r| {
            (
                r["secpolid"].as_str().unwrap().to_string(),
                r["timestamp"].as_str().unwrap().to_string(),
                r["counters"]["hits"].as_u64().unwrap(),
            )
        })
        .collect()
}

fn kept(a: &Aggregated<AggregatedCounters>, i: usize) -> Vec<i64> {
    a.seconds_at(i).keys().copied().collect()
}

#[test]
fn requests_of_a_second_are_counted_together() {
    let s = settings(5);
    let mut a = Aggregated::new();
    add(&mut a, &s, 1000, "p", 10);
    add(&mut a, &s, 1000, "p", 30);
    add(&mut a, &s, 1001, "p", 5);
    add(&mut a, &s, 1000, "q", 1);
    assert_eq!(a.len(), 2);
    assert_eq!(a.key_at(0).secpolid, "p");
    assert_eq!(kept(&a, 0), vec![1000, 1001]);
    assert_eq!(a.seconds_at(0)[&1000].hits, 2);
    assert_eq!(a.seconds_at(0)[&1000].processing_time.total, 40);
    assert_eq!(a.seconds_at(0)[&1001].hits, 1);
    assert_eq!(a.seconds_at(1)[&1000].hits, 1);
}

#[test]
fn pruning_drops_old_seconds() {
    let s = settings(1000);
    let mut a = Aggregated::new();
    for secs in [100, 101, 102, 103, 104, 105, 110] {
        add(&mut a, &s, secs, "p", 1);
    }
    add(&mut a, &s, 101, "q", 1);
    prune_old_values(&mut a, 105, 3);
    assert_eq!(kept(&a, 0), vec![103, 104, 105, 110]);
    assert_eq!(kept(&a, 1), Vec::<i64>::new());
    assert_eq!(a.len(), 2);
    prune_old_values(&mut a, 105, 3);
    assert_eq!(kept(&a, 0), vec![103, 104, 105, 110]);
    prune_old_values(&mut a, 106, 3);
    prune_old_values(&mut a, 104, 3);
    assert_eq!(kept(&a, 0), vec![104, 105, 110]);
}

#[test]
fn pruning_needs_a_limit_only_for_seconds() {
    let s = settings(5);
    let mut a = Aggregated::new();
    assert!(a.can_prune(i64::MIN, 5));
    prune_old_values(&mut a, i64::MIN, 5);
    add(&mut a, &s, 1000, "p", 1);
    assert!(!a.can_prune(i64::MIN, 5));
    assert!(a.can_prune(1000, 5));
    prune_old_values(&mut a, 2000, 5);
    assert_eq!(a.len(), 1);
    assert!(a.can_prune(i64::MIN, 5));
}

#[test]
fn a_late_request_drops_what_is_older() {
    let s = settings(5);
    let mut a = Aggregated::new();
    add(&mut a, &s, 1000, "p", 1);
    add(&mut a, &s, 1003, "q", 1);
    add(&mut a, &s, 1005, "p", 1);
    assert_eq!(kept(&a, 0), vec![1005]);
    assert_eq!(kept(&a, 1), vec![1003]);
    add(&mut a, &s, 1002, "p", 1);
    assert_eq!(kept(&a, 0), vec![1002, 1005]);
}

#[test]
fn a_document_has_a_row_for_each_second_and_key() {
    let s = settings(3);
    let mut a = Aggregated::new();
    add(&mut a, &s, 1431648000, "p", 10);
    add(&mut a, &s, 1431648000, "p", 20);
    add(&mut a, &s, 1431648001, "q", 7);
    let r = rows(&mut a, &s, 1431648001);
    let line = |p: &str, t: &str, n: u64| (p.to_string(), t.to_string(), n);
    assert_eq!(
        hits(&r),
        vec![
            line("p", "2015-05-14T23:59:59Z", 0),
            line("p", "2015-05-15T00:00:00Z", 2),
            line("p", "2015-05-15T00:00:01Z", 0),
            line("q", "2015-05-14T23:59:59Z", 0),
            line("q", "2015-05-15T00:00:00Z", 0),
            line("q", "2015-05-15T00:00:01Z", 1),
        ]
    );
    assert_eq!(r[1]["proxy"], Value::from("proxy"));
    assert_eq!(r[1]["secpolentryid"], Value::from("entry"));
    assert_eq!(r[1]["counters"]["processing_time"]["average"], Value::from(15.0));
    assert_eq!(r[0]["counters"]["processing_time"]["average"], Value::from(0.0));
    assert_eq!(r[0]["counters"]["unique_ip"], Value::from(0));
    assert_eq!(r[1]["counters"]["unique_ip"], Value::from(1));
    assert_eq!(r[0].as_object().unwrap().len(), 5);
}

#[test]
fn a_request_is_in_the_documents_while_it_is_kept() {
    let s = settings(3);
    for (timestamp, expected) in [(1000, 1), (1001, 1), (1002, 1), (1003, 0)] {
        let mut a = Aggregated::new();
        add(&mut a, &s, 1000, "p", 1);
        let r = rows(&mut a, &s, timestamp);
        let total: u64 = hits(&r).iter().map(|row| row.2).sum();
        assert_eq!((r.len(), total), (3, expected));
    }
}

#[test]
fn a_key_with_later_seconds_only_has_empty_rows() {
    let s = settings(2);
    let mut a = Aggregated::new();
    add(&mut a, &s, 1000, "p", 1);
    let r = rows(&mut a, &s, 990);
    assert_eq!(r.len(), 2);
    assert!(hits(&r).iter().all(|row| row.0 == "p" && row.2 == 0));
    assert_eq!(kept(&a, 0), vec![1000]);
}

#[test]
fn without_requests_the_rows_are_default_ones() {
    let s = settings(5);
    let mut a = Aggregated::new();
    let r = rows(&mut a, &s, 1000);
    assert_eq!(r.len(), 5);
    for row in &r {
        assert_eq!(row["proxy"], Value::from("default proxy"));
        assert_eq!(row["secpolid"], Value::from("__default__"));
        assert_eq!(row["secpolentryid"], Value::from("__default__"));
        assert_eq!(row["counters"]["hits"], Value::from(0));
        assert_eq!(row["counters"]["unique_session"], Value::from(0));
    }
    assert_eq!(r[4]["timestamp"], Value::from("1970-01-01T00:16:40Z"));
    assert_eq!(r[0]["timestamp"], Value::from("1970-01-01T00:16:36Z"));
}

#[test]
fn a_key_whose_seconds_are_dropped_leaves_default_rows() {
    let s = settings(2);
    let mut a = Aggregated::new();
    add(&mut a, &s, 1000, "p", 1);
    let r = rows(&mut a, &s, 2000);
    assert_eq!(r.len(), 2);
    assert!(hits(&r).iter().all(|row| row.0 == "__default__"));
    assert_eq!(a.len(), 1);
}

#[test]
fn without_seconds_a_document_is_empty() {
    let s = settings(0);
    let mut a = Aggregated::new();
    add(&mut a, &s, 1000, "p", 1);
    assert_eq!(document(&mut a, &s, 1000), "[]");
    let s = settings(-10);
    add(&mut a, &s, 1000, "p", 1);
    assert_eq!(document(&mut a, &s, 1000), "[]");
}

#[test]
fn a_missing_proxy_is_null() {
    let c = AggregatedCounters::new(&settings(5));
    let hdr = AggregationKey {
        proxy: None,
        secpolid: "p".to_string(),
        secpolentryid: "e".to_string(),
    };
    let v = serialize_entry(0, &hdr, &c, Value::from(0.0), 25);
    assert_eq!(v["proxy"], Value::Null);
    assert_eq!(v["timestamp"], Value::from("1970-01-01T00:00:00Z"));
    assert_eq!(v["secpolid"], Value::from("p"));
    assert_eq!(v["secpolentryid"], Value::from("e"));
}

#[test]
fn keys_are_the_same_in_all_parts() {
    let key = |proxy: Option<&str>, p: &str, e: &str| AggregationKey {
        proxy: proxy.map(|s| s.to_string()),
        secpolid: p.to_string(),
        secpolentryid: e.to_string(),
    };
    let k = key(Some("x"), "p", "e");
    assert!(same_key(&k, &key(Some("x"), "p", "e")));
    assert!(!same_key(&k, &key(None, "p", "e")));
    assert!(!same_key(&k, &key(Some("y"), "p", "e")));
    assert!(!same_key(&k, &key(Some("x"), "q", "e")));
    assert!(!same_key(&k, &key(Some("x"), "p", "f")));
    assert!(same_key(&key(None, "p", "e"), &key(None, "p", "e")));
}

#[test]
fn a_failed_printer_leaves_an_empty_document() {
    let error = serde_json::from_str::<Value>("{").unwrap_err();
    assert_eq!(document_text(Err(error)), "[]");
    assert_eq!(document_text(Ok("[1]".to_string())), "[1]");
}

#[test]
fn a_second_without_a_text_is_unknown() {
    let error = serde_json::from_str::<Value>("{").unwrap_err();
    assert_eq!(timestamp_or_unknown(Err(error)), Value::from("??"));
    assert_eq!(timestamp_or_unknown(Ok(Value::from("now"))), Value::from("now"));
}

#[test]
fn the_calendar_can_be_written_to_its_ends() {
    let s = settings(1);
    for (secs, text) in [
        (-62_167_219_200, "0000-01-01T00:00:00Z"),
        (-62_167_219_201, "-0001-12-31T23:59:59Z"),
        (253_402_300_800, "+10000-01-01T00:00:00Z"),
        (-8_334_601_228_800, "-262143-01-01T00:00:00Z"),
        (8_210_266_876_799, "+262142-12-31T23:59:59Z"),
    ] {
        let mut a = Aggregated::new();
        assert_eq!(rows(&mut a, &s, secs)[0]["timestamp"], Value::from(text));
    }
}

#[test]
fn aggregating_now() {
    let s = settings(60);
    let mut a = Aggregated::new();
    let secs = current_second();
    let dec = Decision { reasons: Vec::new() };
    let tags = Tags { tags: vec!["human".to_string()] };
    assert!(aggregate(&mut a, &s, &dec, Some(200), &request(secs, "p"), &tags));
    assert!(aggregate(&mut a, &s, &dec, Some(200), &request(secs, "p"), &tags));
    assert_eq!(a.seconds_at(0)[&secs].hits, 2);
    assert_eq!(a.seconds_at(0)[&secs].human, 2);
    assert_eq!(a.seconds_at(0)[&secs].processing_time.n_sample, 2);
    assert!(a.seconds_at(0)[&secs].processing_time.min >= 0);
}

#[test]
fn a_refused_request_leaves_the_rest() {
    let s = settings(5);
    let mut a = Aggregated::new();
    add(&mut a, &s, 990, "p", 1);
    let mut full = AggregatedCounters::new(&s);
    full.hits = usize::MAX;
    let dec = Decision { reasons: Vec::new() };
    let tags = Tags { tags: Vec::new() };
    assert!(!full.increment(&dec, None, &request(1000, "p"), &tags));
    assert_eq!(full.hits, usize::MAX);
    add(&mut a, &s, 1000, "p", i64::MAX);
    let done = aggregate(&mut a, &s, &dec, None, &request(1000, "p"), &tags);
    assert!(!done);
    assert_eq!(kept(&a, 0), vec![1000]);
    assert_eq!(a.seconds_at(0)[&1000].hits, 1);
    let later = request(1001, "q");
    assert!(try_aggregate(&mut a, &s, &dec, None, &later, &tags, Some(i64::MAX)));
    assert!(!try_aggregate(&mut a, &s, &dec, None, &later, &tags, Some(1)));
    assert!(try_aggregate(&mut a, &s, &dec, None, &later, &tags, None));
    assert_eq!(a.seconds_at(1)[&1001].hits, 2);
}

#[test]
fn a_document_lists_the_most_frequent_values_first() {
    let s = Settings { seconds_kept: 1, top_amount: 2, hyperloglog_size: 8 };
    let mut a = Aggregated::new();
    let dec = Decision { reasons: Vec::new() };
    let tags = Tags { tags: Vec::new() };
    for (uri, n) in [("/a", 1), ("/b", 3), ("/c", 2)] {
        for _ in 0..n {
            let mut r = request(1000, "p");
            r.uri = uri.to_string();
            aggregate_timed(&mut a, &s, &dec, None, &r, &tags, None);
        }
    }
    let r = rows(&mut a, &s, 1000);
    let top = &r[0]["counters"]["top_passed_uri"];
    assert_eq!(top.to_string(), "[{\"key\":\"/b\",\"value\":3},{\"key\":\"/c\",\"value\":2}]");
    let ips = &r[0]["counters"]["top_ip_per_unique_uri"];
    assert_eq!(ips.to_string(), "[{\"key\":\"1.2.3.4\",\"value\":3}]");
}
