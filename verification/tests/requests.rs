//! The counters of a second.

use aggregator::clock::{
    current_second, processing_micros, Timestamp, FIRST_SECOND, LAST_SECOND,
};
use aggregator::counters::{find_header, outcome, AggSection, AggregatedCounters};
use aggregator::report::{section_value, serialize_counters};
use aggregator::request::{
    BDecision, BlockReason, Decision, Initiator, Location, RequestInfo, Tags,
};
use aggregator::settings::Settings;
use serde_json::Value;

fn settings() -> Settings {
    Settings { seconds_kept: 5, top_amount: 25, hyperloglog_size: 8 }
}

fn request(secs: i64) -> RequestInfo {
    RequestInfo {
        timestamp: Timestamp { secs, nanos: 0 },
        container_name: Some("proxy".to_string()),
        acl_profile_id: "acl".to_string(),
        content_filter_profile_id: "cf".to_string(),
        secpolicy_id: "policy".to_string(),
        secpolicy_entry_id: "entry".to_string(),
        method: "GET".to_string(),
        ip: "1.2.3.4".to_string(),
        session: "session".to_string(),
        uri: "/a".to_string(),
        country: Some("FR".to_string()),
        asn: Some(64500),
        headers: vec![
            ("host".to_string(), "localhost".to_string()),
            ("user-agent".to_string(), "curl".to_string()),
        ],
        cookies: 1,
        args: 3,
    }
}

fn reason(initiator: Initiator, decision: BDecision, location: Vec<Location>) -> BlockReason {
    BlockReason { initiator, location, decision }
}

fn rule(id: &str, risk_level: u8, decision: BDecision) -> BlockReason {
    reason(Initiator::ContentFilter { ruleid: id.to_string(), risk_level }, decision, Vec::new())
}

fn tags(names: &[&str]) -> Tags {
    Tags { tags: names.iter().map(|s| s.to_string()).collect() }
}

fn count(reasons: Vec<BlockReason>, rcode: Option<u32>, names: &[&str]) -> Value {
    let mut c = AggregatedCounters::new(&settings());
    let dec = Decision { reasons };
    let t = tags(names);
    assert!(c.can_take(&dec, rcode, &request(1000), &t, Some(1500)));
    c.increment_timed(&dec, rcode, &request(1000), &t, Some(1500));
    serialize_counters(&c, Value::from(1500.0), 25)
}

fn number(v: &Value, name: &str) -> u64 {
    v[name].as_u64().unwrap()
}

fn keys(v: &Value, name: &str) -> Vec<(String, u64)> {
    v[name]
        .as_array()
        .unwrap()
        .iter()
        .map(|row| {
            let key = match &row["key"] {
                Value::String(s) => s.clone(),
                other => other.to_string(),
            };
            (key, row["value"].as_u64().unwrap())
        })
        .collect()
}

fn one(key: &str) -> Vec<(String, u64)> {
    vec![(key.to_string(), 1)]
}

#[test]
fn a_plain_request_is_reported() {
    let v = count(Vec::new(), Some(503), &["all", "human", "geo:fr", "trusted"]);
    assert_eq!(number(&v, "hits"), 1);
    assert_eq!(number(&v, "blocks"), 0);
    assert_eq!(number(&v, "report"), 1);
    assert_eq!(number(&v, "human"), 1);
    assert_eq!(number(&v, "bot"), 0);
    assert_eq!(number(&v, "challenge"), 0);
    assert_eq!(keys(&v, "top_tags"), one("trusted"));
    assert_eq!(keys(&v, "status"), one("503"));
    assert_eq!(keys(&v, "status_classes"), one("5"));
    assert_eq!(keys(&v, "methods"), one("GET"));
    assert_eq!(keys(&v, "cf_top_secpolid_report"), one("policy"));
    assert_eq!(keys(&v, "cf_top_secpolentryid_report"), one("entry"));
    assert_eq!(keys(&v, "cf_top_secpolid_active"), Vec::new());
    assert_eq!(keys(&v, "top_request_per_cookies"), one("1"));
    assert_eq!(keys(&v, "top_request_per_args"), one("3"));
    assert_eq!(keys(&v, "top_request_per_headers"), one("2"));
    assert_eq!(keys(&v, "top_max_args_per_request"), one("3"));
    assert_eq!(keys(&v, "top_max_cookies_per_request"), one("1"));
    assert_eq!(keys(&v, "top_max_headers_per_request"), one("2"));
    assert_eq!(keys(&v, "top_passed_ip"), one("1.2.3.4"));
    assert_eq!(keys(&v, "top_passed_session"), one("session"));
    assert_eq!(keys(&v, "top_passed_uri"), one("/a"));
    assert_eq!(keys(&v, "top_passed_user_agent"), one("curl"));
    assert_eq!(keys(&v, "top_passed_country"), one("FR"));
    assert_eq!(keys(&v, "top_passed_asn"), one("64500"));
    assert_eq!(keys(&v, "top_blocked_ip"), Vec::new());
    assert_eq!(number(&v, "unique_ip"), 1);
    assert_eq!(number(&v, "unique_passed_ip"), 1);
    assert_eq!(number(&v, "unique_blocked_ip"), 0);
    assert_eq!(keys(&v, "top_ip_per_unique_uri"), one("1.2.3.4"));
    assert_eq!(keys(&v, "top_uri_per_unique_ip"), one("/a"));
    assert_eq!(keys(&v, "top_session_per_unique_uri"), one("session"));
    assert_eq!(keys(&v, "top_uri_per_unique_session"), one("/a"));
    assert_eq!(v["processing_time"]["min"], Value::from(1500));
    assert_eq!(v["processing_time"]["max"], Value::from(1500));
    assert_eq!(v["processing_time"]["average"], Value::from(1500.0));
}

#[test]
fn a_document_of_counters_has_all_members() {
    let v = count(Vec::new(), None, &[]);
    assert_eq!(v.as_object().unwrap().len(), 71);
    assert_eq!(keys(&v, "status"), Vec::new());
    assert_eq!(keys(&v, "status_classes"), Vec::new());
}

#[test]
fn a_blocked_request() {
    let v = count(
        vec![
            reason(Initiator::Acl, BDecision::Blocking, vec![Location::Attributes]),
            rule("r1", 3, BDecision::Blocking),
            rule("r2", 5, BDecision::Monitor),
        ],
        Some(403),
        &["bot"],
    );
    assert_eq!(number(&v, "blocks"), 1);
    assert_eq!(number(&v, "report"), 0);
    assert_eq!(number(&v, "bot"), 1);
    assert_eq!(number(&v, "requests_triggered_acl_active"), 1);
    assert_eq!(number(&v, "requests_triggered_acl_report"), 0);
    assert_eq!(number(&v, "requests_triggered_cf_active"), 1);
    assert_eq!(number(&v, "requests_triggered_cf_report"), 1);
    assert_eq!(keys(&v, "cf_top_aclid_active"), one("acl"));
    assert_eq!(keys(&v, "cf_top_aclid_report"), one("acl"));
    assert_eq!(keys(&v, "cf_top_ruleid_active"), one("r1"));
    assert_eq!(keys(&v, "cf_top_ruleid_report"), one("r2"));
    assert_eq!(keys(&v, "cf_risk_level_active"), one("3"));
    assert_eq!(keys(&v, "cf_risk_level_report"), one("5"));
    assert_eq!(keys(&v, "cf_top_secpolid_active"), one("policy"));
    assert_eq!(keys(&v, "cf_top_secpolid_report"), Vec::new());
    assert_eq!(keys(&v, "top_blocked_ip"), one("1.2.3.4"));
    assert_eq!(keys(&v, "top_passed_ip"), Vec::new());
    assert_eq!(v["cf_section_active"]["attrs"], Value::from(1));
    assert_eq!(v["cf_section_report"]["attrs"], Value::from(0));
}

#[test]
fn a_skip_undoes_what_blocks() {
    let v = count(
        vec![
            reason(Initiator::Acl, BDecision::Blocking, Vec::new()),
            rule("r1", 3, BDecision::Blocking),
            reason(Initiator::Acl, BDecision::Skip, Vec::new()),
        ],
        None,
        &[],
    );
    assert_eq!(number(&v, "blocks"), 0);
    assert_eq!(number(&v, "report"), 1);
    assert_eq!(keys(&v, "cf_top_aclid_active"), Vec::new());
    assert_eq!(keys(&v, "cf_top_aclid_report"), one("acl"));
    assert_eq!(keys(&v, "top_blocked_ip"), Vec::new());
    assert_eq!(number(&v, "requests_triggered_acl_active"), 1);
    assert_eq!(number(&v, "requests_triggered_acl_report"), 1);
    assert_eq!(keys(&v, "cf_top_ruleid_active"), one("r1"));
}

#[test]
fn outcomes() {
    let o = outcome(&Vec::new());
    assert!(!o.blocked && !o.acl_blocked && !o.acl_report && !o.cf_blocked && !o.cf_report);
    let o = outcome(&vec![rule("r", 1, BDecision::Blocking)]);
    assert!(o.blocked && o.cf_blocked && o.cf_report && !o.acl_blocked && !o.acl_report);
    let o = outcome(&vec![rule("r", 1, BDecision::Monitor)]);
    assert!(!o.blocked && !o.cf_blocked && o.cf_report);
    let o = outcome(&vec![
        rule("r", 1, BDecision::Blocking),
        reason(Initiator::GlobalFilter, BDecision::Skip, Vec::new()),
    ]);
    assert!(!o.blocked && !o.cf_blocked && !o.cf_report);
    let o = outcome(&vec![reason(Initiator::Phase02, BDecision::Blocking, Vec::new())]);
    assert!(o.blocked && !o.acl_blocked && !o.acl_report);
}

#[test]
fn every_initiator_is_counted_once() {
    let all = || {
        vec![
            Initiator::GlobalFilter,
            Initiator::Acl,
            Initiator::Phase01Fail,
            Initiator::Phase02,
            Initiator::Limit,
            Initiator::ContentFilter { ruleid: "r".to_string(), risk_level: 1 },
            Initiator::BodyTooDeep,
            Initiator::BodyMissing,
            Initiator::BodyMalformed,
            Initiator::Sqli,
            Initiator::Xss,
            Initiator::Restricted,
            Initiator::TooManyEntries,
            Initiator::EntryTooLarge,
        ]
    };
    let mut reasons = Vec::new();
    for i in all() {
        reasons.push(reason(i, BDecision::Blocking, Vec::new()));
    }
    for i in all() {
        reasons.push(reason(i, BDecision::AlterRequest, Vec::new()));
    }
    let v = count(reasons, None, &[]);
    for end in ["active", "report"] {
        assert_eq!(number(&v, &format!("requests_triggered_globalfilter_{}", end)), 1);
        assert_eq!(number(&v, &format!("requests_triggered_acl_{}", end)), 2);
        assert_eq!(number(&v, &format!("requests_triggered_ratelimit_{}", end)), 1);
        assert_eq!(number(&v, &format!("requests_triggered_cf_{}", end)), 9);
    }
    assert_eq!(number(&v, "challenge"), 2);
}

#[test]
fn locations_are_counted_by_section() {
    let v = count(
        vec![
            reason(
                Initiator::Sqli,
                BDecision::Blocking,
                vec![
                    Location::Uri,
                    Location::UriArgument("q".to_string()),
                    Location::BodyArgument("b".to_string()),
                    Location::Headers,
                    Location::Other,
                ],
            ),
            reason(
                Initiator::Xss,
                BDecision::InitiatorInactive,
                vec![Location::Body, Location::RefererArgument("r".to_string()), Location::Attributes],
            ),
        ],
        None,
        &[],
    );
    let active = &v["cf_section_active"];
    let report = &v["cf_section_report"];
    assert_eq!(active.to_string(), "{\"args\":2,\"attrs\":0,\"body\":0,\"headers\":1,\"uri\":1}");
    assert_eq!(report.to_string(), "{\"args\":1,\"attrs\":1,\"body\":1,\"headers\":0,\"uri\":0}");
}

#[test]
fn a_new_section_is_empty() {
    let v = section_value(&AggSection::default());
    assert_eq!(v.to_string(), "{\"args\":0,\"attrs\":0,\"body\":0,\"headers\":0,\"uri\":0}");
}

#[test]
fn tags_with_a_value_are_not_listed() {
    let v = count(Vec::new(), None, &["all", "bot", "human", "ip:1-2-3-4", "b", "a"]);
    assert_eq!(keys(&v, "top_tags"), vec![("a".to_string(), 1), ("b".to_string(), 1)]);
    assert_eq!((number(&v, "bot"), number(&v, "human")), (1, 1));
}

#[test]
fn a_status_class_is_a_byte() {
    let v = count(Vec::new(), Some(25_700), &[]);
    assert_eq!(keys(&v, "status_classes"), one("1"));
    assert_eq!(keys(&v, "status"), one("25700"));
}

#[test]
fn hits_are_blocks_and_reports() {
    let mut c = AggregatedCounters::new(&settings());
    let none = tags(&[]);
    for i in 0..7 {
        let reasons = if i % 3 == 0 { vec![rule("r", 1, BDecision::Blocking)] } else { Vec::new() };
        let dec = Decision { reasons };
        c.increment_timed(&dec, Some(200), &request(1000), &none, Some(i));
    }
    assert_eq!((c.hits, c.blocks, c.report), (7, 3, 4));
    assert_eq!((c.processing_time.total, c.processing_time.n_sample), (21, 7));
    assert_eq!((c.processing_time.min, c.processing_time.max), (0, 6));
    let v = serialize_counters(&c, Value::from(3.0), 25);
    assert_eq!(keys(&v, "status"), vec![("200".to_string(), 7)]);
    assert_eq!(keys(&v, "top_blocked_ip"), vec![("1.2.3.4".to_string(), 3)]);
    assert_eq!(keys(&v, "top_passed_ip"), vec![("1.2.3.4".to_string(), 4)]);
}

#[test]
fn missing_parts_are_not_counted() {
    let mut c = AggregatedCounters::new(&settings());
    let mut r = request(1000);
    r.headers = vec![("host".to_string(), "localhost".to_string())];
    r.country = None;
    r.asn = None;
    let dec = Decision { reasons: Vec::new() };
    c.increment_timed(&dec, None, &r, &tags(&[]), None);
    let v = serialize_counters(&c, Value::from(0.0), 25);
    assert_eq!(number(&v, "unique_user_agent"), 0);
    assert_eq!(number(&v, "unique_country"), 0);
    assert_eq!(number(&v, "unique_asn"), 0);
    assert_eq!(number(&v, "unique_uri"), 1);
    assert_eq!(v["processing_time"]["min"], Value::from(0));
    assert_eq!(keys(&v, "top_request_per_headers"), one("1"));
}

#[test]
fn the_clock_measures_the_processing_time() {
    let mut c = AggregatedCounters::new(&settings());
    let start = current_second();
    let dec = Decision { reasons: Vec::new() };
    assert!(c.increment(&dec, Some(200), &request(start - 2), &tags(&[])));
    assert_eq!(c.hits, 1);
    assert_eq!(c.processing_time.n_sample, 1);
    let micros = c.processing_time.total;
    assert!(2_000_000 <= micros && micros < 60_000_000);
}

#[test]
fn a_time_that_is_no_number_is_left_out() {
    let mut c = AggregatedCounters::new(&settings());
    let dec = Decision { reasons: Vec::new() };
    let mut r = request(LAST_SECOND);
    assert!(c.increment(&dec, None, &r, &tags(&[])));
    assert_eq!(c.processing_time.n_sample, 1);
    assert!(c.processing_time.total < -8_000_000_000_000_000_000);
    r.timestamp.secs = FIRST_SECOND;
    assert!(c.increment(&dec, None, &r, &tags(&[])));
    assert_eq!(c.hits, 2);
}

#[test]
fn full_counters_refuse_a_request() {
    let mut c = AggregatedCounters::new(&settings());
    c.hits = usize::MAX;
    let dec = Decision { reasons: Vec::new() };
    assert!(!c.can_take(&dec, None, &request(1000), &tags(&[]), None));
    assert!(!c.increment(&dec, None, &request(1000), &tags(&[])));
    assert_eq!((c.hits, c.report), (usize::MAX, 0));
    c.hits = usize::MAX - 1;
    assert!(c.increment(&dec, None, &request(1000), &tags(&[])));
    assert_eq!((c.hits, c.report), (usize::MAX, 1));
}

#[test]
fn only_what_a_request_counts_needs_room() {
    let mut c = AggregatedCounters::new(&settings());
    c.hits = usize::MAX - 1;
    c.report = usize::MAX - 1;
    c.blocks = usize::MAX;
    c.bot = usize::MAX;
    c.requests_triggered_cf_active = usize::MAX;
    let dec = Decision { reasons: Vec::new() };
    assert!(!c.try_increment(&dec, None, &request(1000), &tags(&["bot"]), None));
    assert!(c.try_increment(&dec, None, &request(1000), &tags(&["geo:fr"]), None));
    assert_eq!((c.hits, c.report, c.bot), (usize::MAX, usize::MAX, usize::MAX));
}

fn fits(c: &AggregatedCounters, reasons: Vec<BlockReason>, rcode: Option<u32>) -> bool {
    c.can_take(&Decision { reasons }, rcode, &request(1000), &tags(&["a", "b"]), Some(1))
}

#[test]
fn matches_need_room_in_their_own_counters() {
    let mut c = AggregatedCounters::new(&settings());
    c.requests_triggered_acl_active = usize::MAX;
    c.challenge = usize::MAX - 1;
    let acl = |d| reason(Initiator::Acl, d, Vec::new());
    let phase = |d| reason(Initiator::Phase02, d, Vec::new());
    assert!(!fits(&c, vec![acl(BDecision::Blocking)], None));
    assert!(fits(&c, vec![acl(BDecision::Monitor)], None));
    assert!(!fits(&c, vec![phase(BDecision::Blocking)], None));
    assert!(fits(&c, vec![phase(BDecision::Skip)], None));
    assert!(!fits(&c, vec![phase(BDecision::Skip), phase(BDecision::Skip)], None));
}

#[test]
fn locations_need_room_in_their_own_counters() {
    let mut c = AggregatedCounters::new(&settings());
    c.location_active.body = usize::MAX;
    c.location_active.uri = usize::MAX - 2;
    let at = |locations, d| reason(Initiator::Sqli, d, locations);
    assert!(!fits(&c, vec![at(vec![Location::Body], BDecision::Blocking)], None));
    assert!(fits(&c, vec![at(vec![Location::Body], BDecision::Monitor)], None));
    let two = || at(vec![Location::Uri, Location::Uri], BDecision::Blocking);
    assert!(fits(&c, vec![two()], None));
    assert!(!fits(&c, vec![two(), at(vec![Location::Uri], BDecision::Blocking)], None));
}

#[test]
fn values_need_room_in_their_own_counts() {
    let mut c = AggregatedCounters::new(&settings());
    c.status.insert(200, usize::MAX);
    c.status_classes.insert(4, usize::MAX);
    c.risk_level_active.insert(3, usize::MAX - 1);
    assert!(!fits(&c, Vec::new(), Some(200)));
    assert!(!fits(&c, Vec::new(), Some(404)));
    assert!(fits(&c, Vec::new(), Some(302)));
    assert!(fits(&c, vec![rule("r", 3, BDecision::Blocking)], None));
    let two = || vec![rule("r", 3, BDecision::Blocking), rule("s", 3, BDecision::Blocking)];
    assert!(!fits(&c, two(), None));
    c.methods.insert("GET".to_string(), usize::MAX);
    assert!(!fits(&c, Vec::new(), None));
}

#[test]
fn headers_are_found_by_name() {
    let r = request(0);
    assert_eq!(find_header(&r.headers, "user-agent").unwrap(), "curl");
    assert_eq!(find_header(&r.headers, "host").unwrap(), "localhost");
    assert!(find_header(&r.headers, "Host").is_none());
}

#[test]
fn the_calendar_ends_where_chrono_ends() {
    assert_eq!(FIRST_SECOND, chrono::DateTime::<chrono::Utc>::MIN_UTC.timestamp());
    assert_eq!(LAST_SECOND, chrono::DateTime::<chrono::Utc>::MAX_UTC.timestamp());
    for (secs, nanos) in [
        (0, 0),
        (FIRST_SECOND, 0),
        (FIRST_SECOND - 1, 0),
        (LAST_SECOND, 999_999_999),
        (LAST_SECOND + 1, 0),
        (59, 1_999_999_999),
        (58, 1_000_000_000),
        (-1, 1_000_000_000),
        (59, 2_000_000_000),
    ] {
        let known = chrono::DateTime::from_timestamp(secs, nanos).is_some();
        assert_eq!(Timestamp { secs, nanos }.is_valid(), known, "{} {}", secs, nanos);
    }
}

#[test]
fn processing_times_are_whole_microseconds() {
    let at = |secs, nanos| Timestamp { secs, nanos };
    assert_eq!(processing_micros(&at(10, 0), &at(8, 500_000_000)), Some(1_500_000));
    assert_eq!(processing_micros(&at(10, 1_999), &at(10, 0)), Some(1));
    assert_eq!(processing_micros(&at(10, 0), &at(10, 1_999)), Some(-1));
    assert_eq!(processing_micros(&at(8, 0), &at(10, 0)), Some(-2_000_000));
    assert_eq!(processing_micros(&at(60, 0), &at(59, 1_500_000_000)), Some(500_000));
    assert_eq!(processing_micros(&at(59, 1_500_000_000), &at(60, 0)), Some(-500_000));
    assert_eq!(processing_micros(&at(59, 1_500_000_000), &at(59, 0)), Some(1_500_000));
    assert_eq!(processing_micros(&at(86_400, 0), &at(59, 1_000_000_000)), Some(86_340_000_000));
    assert_eq!(processing_micros(&at(LAST_SECOND, 0), &at(FIRST_SECOND, 0)), None);
}
