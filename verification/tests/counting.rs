//! Tables, bags, metrics, numbers and settings.

use aggregator::bag::Bag;
use aggregator::key::{decimal_text, rank_text, same_text, Rank};
use aggregator::metric::{IntegerMetric, Metric, UniqueTopNBy};
use aggregator::number::{parse_i64, parse_usize};
use aggregator::settings::Settings;
use aggregator::top::TopN;
use serde_json::Value;

fn settings(top_amount: usize) -> Settings {
    Settings { seconds_kept: 5, top_amount, hyperloglog_size: 8 }
}

fn rows(v: &Value) -> Vec<(String, u64)> {
    v.as_array()
        .unwrap()
        .iter()
        .map(|row| {
            let key = match &row["key"] {
                Value::String(s) => s.clone(),
                other => other.to_string(),
            };
            (key, row["value"].as_u64().unwrap())
        })
        .collect()
}

fn pairs(expected: &[(&str, u64)]) -> Vec<(String, u64)> {
    expected.iter().map(|(k, v)| (k.to_string(), *v)).collect()
}

#[test]
fn top_counts_exactly_while_there_is_room() {
    let mut t: TopN<String> = TopN::new(2);
    for s in ["a", "b", "a", "c", "a", "d", "b"] {
        t.inc(s.to_string());
    }
    assert_eq!(rows(&t.serialize(10)), pairs(&[("a", 3), ("b", 2), ("c", 1), ("d", 1)]));
}

#[test]
fn top_shrinks_when_it_is_full() {
    let mut t: TopN<String> = TopN::new(1);
    for s in ["a", "a", "b"] {
        t.inc(s.to_string());
    }
    t.inc("c".to_string());
    assert_eq!(rows(&t.serialize(10)), pairs(&[("a", 1)]));
    t.inc("c".to_string());
    assert_eq!(rows(&t.serialize(10)), pairs(&[("a", 1), ("c", 1)]));
}

#[test]
fn top_keeps_a_frequent_value() {
    let mut t: TopN<u32> = TopN::new(1);
    for i in 0..100 {
        t.inc(7);
        t.inc(1000 + i);
    }
    let kept = rows(&t.serialize(2));
    assert!(kept.iter().any(|(k, n)| k == "7" && *n <= 100 && (100 - n) * 3 <= 200));
}

#[test]
fn top_without_room_holds_nothing() {
    let mut t: TopN<u32> = TopN::new(0);
    t.inc(1);
    t.inc(1);
    assert_eq!(rows(&t.serialize(5)), pairs(&[]));
    assert!(t.has_room(usize::MAX));
}

#[test]
fn top_reports_the_largest_first_and_ties_by_key() {
    let mut t: TopN<u32> = TopN::new(3);
    for n in [10, 9, 9, 8, 8, 10, 1] {
        t.inc(n);
    }
    assert_eq!(rows(&t.serialize(2)), pairs(&[("8", 2), ("9", 2)]));
    assert_eq!(t.serialize(1)[0]["key"], Value::from(8u32));
}

#[test]
fn bag_inc_and_insert() {
    let mut b: Bag<u32> = Bag::new();
    b.inc(200);
    b.insert(200, 4);
    b.insert(404, 2);
    b.insert(500, 0);
    assert_eq!(rows(&b.serialize_top(10)), pairs(&[("200", 5), ("404", 2), ("500", 0)]));
    assert_eq!(b.serialize_top(1)[0]["key"], Value::from("200"));
    assert!(b.has_room(usize::MAX - 5));
    assert!(!b.has_room(usize::MAX - 4));
}

#[test]
fn bag_order_does_not_matter() {
    let mut a: Bag<String> = Bag::new();
    let mut b: Bag<String> = Bag::new();
    a.insert("x".to_string(), 2);
    a.insert("y".to_string(), 3);
    a.insert("x".to_string(), 5);
    b.insert("y".to_string(), 3);
    b.insert("x".to_string(), 7);
    assert_eq!(a.serialize_top(9), b.serialize_top(9));
    assert_eq!(rows(&a.serialize_top(9)), pairs(&[("x", 7), ("y", 3)]));
}

#[test]
fn bag_max_compares_texts() {
    let mut b: Bag<usize> = Bag::new();
    b.insert(10, 1);
    b.insert(9, 2);
    b.insert(100, 3);
    assert_eq!(rows(&b.serialize_max(10)), pairs(&[("9", 2), ("100", 3), ("10", 1)]));
    assert_eq!(rows(&b.serialize_max(1)), pairs(&[("9", 2)]));
    assert_eq!(rows(&b.serialize_max(0)), pairs(&[]));
}

#[test]
fn bag_serializes_all_with_numbers_as_keys() {
    let mut b: Bag<u8> = Bag::new();
    b.inc(5);
    b.inc(1);
    b.inc(5);
    let v = b.serialize();
    assert_eq!(rows(&v), pairs(&[("1", 1), ("5", 2)]));
    assert_eq!(v[0]["key"], Value::from(1u8));
}

#[test]
fn sorted_to_value_takes_the_first_rows() {
    let v = vec![("b".to_string(), 1), ("a".to_string(), 9), ("c".to_string(), 5)];
    let r = Bag::<String>::sorted_to_value(v, 2);
    assert_eq!(rows(&r), pairs(&[("b", 1), ("a", 9)]));
}

#[test]
fn integer_metric_keeps_range_and_sum() {
    let mut m = IntegerMetric::default();
    for sample in [5, -3, 12, 0] {
        assert!(m.can_take(sample));
        m.increment(sample);
    }
    assert_eq!((m.min, m.max, m.total, m.n_sample), (-3, 12, 14, 4));
    let v = m.to_json(Value::from(3.5));
    assert_eq!(v["min"], Value::from(-3));
    assert_eq!(v["max"], Value::from(12));
    assert_eq!(v["average"], Value::from(3.5));
    assert_eq!(v.as_object().unwrap().len(), 3);
}

#[test]
fn integer_metric_without_samples_is_zero() {
    let m = IntegerMetric::default();
    let v = m.to_json(Value::from(0.0));
    assert_eq!(v.to_string(), "{\"average\":0.0,\"max\":0,\"min\":0}");
}

#[test]
fn integer_metric_knows_its_limits() {
    let mut m = IntegerMetric::default();
    m.increment(i64::MAX);
    assert!(!m.can_take(1));
    assert!(m.can_take(0));
    assert!(m.can_take(i64::MIN));
    let full = IntegerMetric { min: 0, max: 0, total: 0, n_sample: u64::MAX };
    assert!(!full.can_take(0));
}

#[test]
fn metric_counts_distinct_values() {
    let mut m: Metric<String> = Metric::new(&settings(25));
    m.inc(&"a".to_string(), true);
    m.inc(&"a".to_string(), true);
    m.inc(&"b".to_string(), false);
    m.inc(&"a".to_string(), false);
    let e = m.estimate();
    assert_eq!((e.unique, e.unique_blocked, e.unique_passed), (2, 1, 2));
    let mut mp = serde_json::Map::new();
    m.serialize_map("ip", &mut mp, 25);
    assert_eq!(mp["unique_ip"], Value::from(2));
    assert_eq!(mp["unique_blocked_ip"], Value::from(1));
    assert_eq!(mp["unique_passed_ip"], Value::from(2));
    assert_eq!(rows(&mp["top_blocked_ip"]), pairs(&[("a", 2)]));
    assert_eq!(rows(&mp["top_passed_ip"]), pairs(&[("a", 1), ("b", 1)]));
    assert_eq!(mp.len(), 5);
}

#[test]
fn metric_of_numbers() {
    let mut m: Metric<u32> = Metric::new(&settings(25));
    assert_eq!(m.estimate().unique, 0);
    m.inc(&7, true);
    m.inc(&8, true);
    m.inc(&8, true);
    let e = m.estimate();
    assert_eq!((e.unique, e.unique_blocked, e.unique_passed), (2, 2, 0));
    let mut mp = serde_json::Map::new();
    mp.insert("kept".to_string(), Value::Null);
    m.serialize_map("asn", &mut mp, 1);
    assert_eq!(rows(&mp["top_blocked_asn"]), pairs(&[("8", 2)]));
    assert_eq!(mp["kept"], Value::Null);
}

#[test]
fn unique_by_ignores_repetition_and_order() {
    let s = settings(25);
    let mut u: UniqueTopNBy<String, String> = UniqueTopNBy::new(&s);
    let mut w: UniqueTopNBy<String, String> = UniqueTopNBy::new(&s);
    u.add("x".to_string(), &"1".to_string());
    u.add("x".to_string(), &"1".to_string());
    u.add("y".to_string(), &"1".to_string());
    u.add("y".to_string(), &"2".to_string());
    w.add("y".to_string(), &"2".to_string());
    w.add("x".to_string(), &"1".to_string());
    w.add("y".to_string(), &"1".to_string());
    assert_eq!(rows(&u.serialize(25)), pairs(&[("y", 2), ("x", 1)]));
    assert_eq!(u.serialize(25), w.serialize(25));
    assert_eq!(rows(&u.serialize(1)), pairs(&[("y", 2)]));
}

#[test]
fn texts_are_ordered_like_strings() {
    let words = ["", "a", "ab", "b", "é", "z", "10", "9", "user-agent"];
    for a in words {
        for b in words {
            assert_eq!(same_text(a, b), a == b);
            match rank_text(a, b) {
                Rank::Before => assert!(a < b),
                Rank::Same => assert!(a == b),
                Rank::After => assert!(a > b),
            }
        }
    }
}

#[test]
fn numbers_are_written_in_decimal() {
    for n in [0, 7, 10, 99, 100, 12345, u64::MAX] {
        assert_eq!(decimal_text(n), n.to_string());
    }
}

#[test]
fn numbers_are_read_as_the_standard_library_reads_them() {
    let texts = [
        "", "+", "-", "0", "-0", "+0", "5", "+5", "-5", "007", "5 ", " 5", "1_000", "5a", "--5", "+-5",
        "9223372036854775807", "9223372036854775808", "-9223372036854775808", "-9223372036854775809",
        "18446744073709551615", "18446744073709551616", "99999999999999999999999999",
        "000000000000000000000000000000000000000001", "٣", "1.5",
    ];
    for t in texts {
        assert_eq!(parse_i64(t), t.parse::<i64>().ok(), "{}", t);
        assert_eq!(parse_usize(t), t.parse::<usize>().ok(), "{}", t);
    }
}

#[test]
fn settings_have_defaults() {
    let s = Settings::from_vars(&None, &None, &None);
    assert_eq!((s.seconds_kept, s.top_amount, s.hyperloglog_size), (5, 25, 8));
    assert!(s.is_valid());
    let bad = Some("many".to_string());
    let s = Settings::from_vars(&bad, &Some("-3".to_string()), &Some("".to_string()));
    assert_eq!((s.seconds_kept, s.top_amount, s.hyperloglog_size), (5, 25, 8));
}

#[test]
fn settings_can_be_set() {
    let s = Settings::from_vars(
        &Some("-60".to_string()),
        &Some("+3".to_string()),
        &Some("19".to_string()),
    );
    assert_eq!((s.seconds_kept, s.top_amount, s.hyperloglog_size), (-60, 3, 19));
    assert!(!s.is_valid());
    assert!(Settings { seconds_kept: 0, top_amount: 0, hyperloglog_size: 4 }.is_valid());
    assert!(Settings { seconds_kept: 0, top_amount: 0, hyperloglog_size: 18 }.is_valid());
    assert!(!Settings { seconds_kept: 0, top_amount: 0, hyperloglog_size: 3 }.is_valid());
    assert!(!Settings { seconds_kept: 0, top_amount: usize::MAX, hyperloglog_size: 8 }.is_valid());
}

#[test]
fn settings_know_which_documents_can_be_written() {
    let s = Settings { seconds_kept: 5, top_amount: 25, hyperloglog_size: 8 };
    assert!(s.can_report(0));
    assert!(!s.can_report(i64::MAX));
    assert!(!s.can_report(i64::MIN));
    assert!(s.can_report(8_210_266_876_799));
    assert!(!s.can_report(8_210_266_876_800));
    assert!(s.can_report(-8_334_601_228_796));
    assert!(!s.can_report(-8_334_601_228_797));
    let none = Settings { seconds_kept: 0, top_amount: 25, hyperloglog_size: 8 };
    assert!(none.can_report(i64::MAX - 1));
}

#[test]
fn a_metric_ignores_a_value_that_comes_again() {
    let mut m: Metric<String> = Metric::new(&settings(25));
    m.inc(&"a".to_string(), true);
    m.inc(&"b".to_string(), false);
    let before = m.estimate();
    assert!(m.can_inc(&"a".to_string(), true));
    m.inc(&"a".to_string(), true);
    m.inc(&"b".to_string(), false);
    let after = m.estimate();
    assert_eq!(
        (before.unique, before.unique_blocked, before.unique_passed),
        (after.unique, after.unique_blocked, after.unique_passed)
    );
}

#[test]
fn copies_hold_the_same_counts() {
    let mut t: TopN<u32> = TopN::new(2);
    let mut b: Bag<u32> = Bag::new();
    for n in [3, 1, 3, 2] {
        t.inc(n);
        b.inc(n);
    }
    assert_eq!(t.copied().serialize(9), t.serialize(9));
    assert_eq!(b.copied().serialize(), b.serialize());
    b.insert(7, usize::MAX);
    assert!(!b.can_inc(&7) && b.can_inc(&8) && t.can_inc(&3));
}
