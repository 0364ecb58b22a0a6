//! The reports.

use crate::bag::{max_rows, text_rows, texts_json};
use crate::clock::{on_calendar, timestamp_text, timestamp_value};
use crate::counters::{AggSection, AggregatedCounters, CountersView, SectionView};
use crate::json::{
    json_of, members_of, new_members, null_value, object_value, set_member, text_value,
    unsigned_value, Json,
};
use crate::metric::{integer_json, metric_members, unique_possible, MetricEstimate};
use crate::ranking::{key_rows, rows_json, top_rows, top_value};
use crate::sorted_map::SortedMap;
use crate::top::TopView;
use serde_json::Value;
use vstd::prelude::*;

verus! {

/// What an [`AggregationKey`] is.
pub struct KeyView {
    pub proxy: Option<Seq<char>>,
    pub secpolid: Seq<char>,
    pub secpolentryid: Seq<char>,
}

/// What requests are grouped by.
#[derive(Debug)]
pub struct AggregationKey {
    /// The name of the proxy.
    pub proxy: Option<String>,
    /// The security policy.
    pub secpolid: String,
    /// Its entry for the path of the request.
    pub secpolentryid: String,
}

impl View for AggregationKey {
    type V = KeyView;

    open spec fn view(&self) -> KeyView {
        KeyView {
            proxy: match self.proxy {
                Some(proxy) => Some(proxy@),
                None => None,
            },
            secpolid: self.secpolid@,
            secpolentryid: self.secpolentryid@,
        }
    }
}

/// What the sketches of a second gave.
pub struct Estimates {
    pub ip: MetricEstimate,
    pub session: MetricEstimate,
    pub uri: MetricEstimate,
    pub user_agent: MetricEstimate,
    pub country: MetricEstimate,
    pub asn: MetricEstimate,
    pub ip_per_uri: SortedMap<String, usize>,
    pub uri_per_ip: SortedMap<String, usize>,
    pub session_per_uri: SortedMap<String, usize>,
    pub uri_per_session: SortedMap<String, usize>,
}

impl Estimates {
    /// The keys stand in order.
    pub open spec fn wf(self) -> bool {
        &&& self.ip_per_uri.wf()
        &&& self.uri_per_ip.wf()
        &&& self.session_per_uri.wf()
        &&& self.uri_per_session.wf()
    }

    /// Whether the sketches of a second may give these numbers.
    pub open spec fn possible(self, c: CountersView) -> bool {
        &&& self.ip.possible::<String>(c.ip)
        &&& self.session.possible::<String>(c.session)
        &&& self.uri.possible::<String>(c.uri)
        &&& self.user_agent.possible::<String>(c.user_agent)
        &&& self.country.possible::<String>(c.country)
        &&& self.asn.possible::<u32>(c.asn)
        &&& unique_possible::<Seq<char>, String>(c.ip_per_uri, self.ip_per_uri.counts())
        &&& unique_possible::<Seq<char>, String>(c.uri_per_ip, self.uri_per_ip.counts())
        &&& unique_possible::<Seq<char>, String>(c.session_per_uri, self.session_per_uri.counts())
        &&& unique_possible::<Seq<char>, String>(c.uri_per_session, self.uri_per_session.counts())
    }

    /// Asks the sketches of a second.
    pub fn of(e: &AggregatedCounters) -> (r: Estimates)
        requires
            e.wf(),
        ensures
            r.wf(),
            r.possible(e@),
    {
        Estimates {
            ip: e.ip.estimate(),
            session: e.session.estimate(),
            uri: e.uri.estimate(),
            user_agent: e.user_agent.estimate(),
            country: e.country.estimate(),
            asn: e.asn.estimate(),
            ip_per_uri: e.ip_per_uri.estimates(),
            uri_per_ip: e.uri_per_ip.estimates(),
            session_per_uri: e.session_per_uri.estimates(),
            uri_per_session: e.uri_per_session.estimates(),
        }
    }
}

/// The sections, as an object.
pub open spec fn section_json(s: SectionView) -> Json {
    Json::Object(
        Map::empty().insert("headers"@, Json::Number(s.headers as int)).insert(
            "uri"@,
            Json::Number(s.uri as int),
        ).insert("args"@, Json::Number(s.args as int)).insert(
            "body"@,
            Json::Number(s.body as int),
        ).insert("attrs"@, Json::Number(s.attrs as int)),
    )
}

/// The largest counters of a table of texts.
pub open spec fn top_json(t: TopView<Seq<char>>, top_amount: nat) -> Json {
    rows_json::<String>(top_rows::<String>(t.counts, top_amount))
}

fn put_number(content: &mut serde_json::Map<String, Value>, key: &str, n: usize)
    ensures
        members_of(*final(content)) == members_of(*old(content)).insert(
            key@,
            Json::Number(n as int),
        ),
{
    set_member(content, key.to_owned(), unsigned_value(n as u64));
}

/// Writes the sections.
pub fn section_value(s: &AggSection) -> (v: Value)
    ensures
        json_of(v) == section_json(s@),
{
    let mut m = new_members();
    put_number(&mut m, "headers", s.headers);
    put_number(&mut m, "uri", s.uri);
    put_number(&mut m, "args", s.args);
    put_number(&mut m, "body", s.body);
    put_number(&mut m, "attrs", s.attrs);
    object_value(m)
}

/// The decisions, and the rules that led to them.
pub open spec fn decision_members(
    members: Map<Seq<char>, Json>,
    c: CountersView,
    top_amount: nat,
) -> Map<Seq<char>, Json> {
    members.insert(
        "hits"@,
        Json::Number(c.hits as int),
    ).insert(
        "blocks"@,
        Json::Number(c.blocks as int),
    ).insert(
        "report"@,
        Json::Number(c.report as int),
    ).insert(
        "bot"@,
        Json::Number(c.bot as int),
    ).insert(
        "human"@,
        Json::Number(c.human as int),
    ).insert(
        "challenge"@,
        Json::Number(c.challenge as int),
    ).insert(
        "cf_section_active"@,
        section_json(c.location_active),
    ).insert(
        "cf_section_report"@,
        section_json(c.location_report),
    ).insert(
        "cf_top_ruleid_active"@,
        top_json(c.ruleid_active, top_amount),
    ).insert(
        "cf_top_ruleid_report"@,
        top_json(c.ruleid_report, top_amount),
    ).insert(
        "cf_top_aclid_active"@,
        top_json(c.aclid_active, top_amount),
    ).insert(
        "cf_top_aclid_report"@,
        top_json(c.aclid_report, top_amount),
    ).insert(
        "cf_top_secpolid_active"@,
        top_json(c.secpolid_active, top_amount),
    ).insert(
        "cf_top_secpolid_report"@,
        top_json(c.secpolid_report, top_amount),
    ).insert(
        "cf_top_secpolentryid_active"@,
        top_json(c.secpolentryid_active, top_amount),
    ).insert(
        "cf_top_secpolentryid_report"@,
        top_json(c.secpolentryid_report, top_amount),
    ).insert(
        "cf_risk_level_active"@,
        rows_json::<u8>(key_rows::<u8>(c.risk_level_active)),
    ).insert(
        "cf_risk_level_report"@,
        rows_json::<u8>(key_rows::<u8>(c.risk_level_report)),
    )
}

fn put_decision(
    content: &mut serde_json::Map<String, Value>,
    e: &AggregatedCounters,
    top_amount: usize,
)
    requires
        e.wf(),
    ensures
        members_of(*final(content)) == decision_members(
            members_of(*old(content)),
            e@,
            top_amount as nat,
        ),
{
    put_number(content, "hits", e.hits);
    put_number(content, "blocks", e.blocks);
    put_number(content, "report", e.report);
    put_number(content, "bot", e.bot);
    put_number(content, "human", e.human);
    put_number(content, "challenge", e.challenge);
    set_member(content, "cf_section_active".to_owned(), section_value(&e.location_active));
    set_member(content, "cf_section_report".to_owned(), section_value(&e.location_report));
    set_member(content, "cf_top_ruleid_active".to_owned(), e.ruleid_active.serialize(top_amount));
    set_member(content, "cf_top_ruleid_report".to_owned(), e.ruleid_report.serialize(top_amount));
    set_member(content, "cf_top_aclid_active".to_owned(), e.aclid_active.serialize(top_amount));
    set_member(content, "cf_top_aclid_report".to_owned(), e.aclid_report.serialize(top_amount));
    set_member(
        content,
        "cf_top_secpolid_active".to_owned(),
        e.secpolid_active.serialize(top_amount),
    );
    set_member(
        content,
        "cf_top_secpolid_report".to_owned(),
        e.secpolid_report.serialize(top_amount),
    );
    set_member(
        content,
        "cf_top_secpolentryid_active".to_owned(),
        e.secpolentryid_active.serialize(top_amount),
    );
    set_member(
        content,
        "cf_top_secpolentryid_report".to_owned(),
        e.secpolentryid_report.serialize(top_amount),
    );
    set_member(content, "cf_risk_level_active".to_owned(), e.risk_level_active.serialize());
    set_member(content, "cf_risk_level_report".to_owned(), e.risk_level_report.serialize());
}

/// How often each kind of rule matched.
pub open spec fn trigger_members(members: Map<Seq<char>, Json>, c: CountersView) -> Map<
    Seq<char>,
    Json,
> {
    members.insert(
        "requests_triggered_globalfilter_active"@,
        Json::Number(c.requests_triggered_globalfilter_active as int),
    ).insert(
        "requests_triggered_globalfilter_report"@,
        Json::Number(c.requests_triggered_globalfilter_report as int),
    ).insert(
        "requests_triggered_cf_active"@,
        Json::Number(c.requests_triggered_cf_active as int),
    ).insert(
        "requests_triggered_cf_report"@,
        Json::Number(c.requests_triggered_cf_report as int),
    ).insert(
        "requests_triggered_acl_active"@,
        Json::Number(c.requests_triggered_acl_active as int),
    ).insert(
        "requests_triggered_acl_report"@,
        Json::Number(c.requests_triggered_acl_report as int),
    ).insert(
        "requests_triggered_ratelimit_active"@,
        Json::Number(c.requests_triggered_ratelimit_active as int),
    ).insert(
        "requests_triggered_ratelimit_report"@,
        Json::Number(c.requests_triggered_ratelimit_report as int),
    )
}

fn put_trigger(content: &mut serde_json::Map<String, Value>, e: &AggregatedCounters)
    requires
        e.wf(),
    ensures
        members_of(*final(content)) == trigger_members(members_of(*old(content)), e@),
{
    put_number(
        content,
        "requests_triggered_globalfilter_active",
        e.requests_triggered_globalfilter_active,
    );
    put_number(
        content,
        "requests_triggered_globalfilter_report",
        e.requests_triggered_globalfilter_report,
    );
    put_number(content, "requests_triggered_cf_active", e.requests_triggered_cf_active);
    put_number(content, "requests_triggered_cf_report", e.requests_triggered_cf_report);
    put_number(content, "requests_triggered_acl_active", e.requests_triggered_acl_active);
    put_number(content, "requests_triggered_acl_report", e.requests_triggered_acl_report);
    put_number(
        content,
        "requests_triggered_ratelimit_active",
        e.requests_triggered_ratelimit_active,
    );
    put_number(
        content,
        "requests_triggered_ratelimit_report",
        e.requests_triggered_ratelimit_report,
    );
}

/// Where the requests came from and where they went.
pub open spec fn value_members(
    members: Map<Seq<char>, Json>,
    c: CountersView,
    e: Estimates,
    top_amount: nat,
) -> Map<Seq<char>, Json> {
    let members = metric_members::<String>(members, "ip"@, c.ip, e.ip, top_amount);
    let members = metric_members::<String>(members, "session"@, c.session, e.session, top_amount);
    let members = metric_members::<String>(members, "uri"@, c.uri, e.uri, top_amount);
    let members = metric_members::<String>(
        members,
        "user_agent"@,
        c.user_agent,
        e.user_agent,
        top_amount,
    );
    let members = metric_members::<String>(members, "country"@, c.country, e.country, top_amount);
    metric_members::<u32>(members, "asn"@, c.asn, e.asn, top_amount)
}

fn put_value(
    content: &mut serde_json::Map<String, Value>,
    e: &AggregatedCounters,
    estimates: &Estimates,
    top_amount: usize,
)
    requires
        e.wf(),
    ensures
        members_of(*final(content)) == value_members(
            members_of(*old(content)),
            e@,
            *estimates,
            top_amount as nat,
        ),
{
    e.ip.serialize_estimate(&estimates.ip, "ip", content, top_amount);
    e.session.serialize_estimate(&estimates.session, "session", content, top_amount);
    e.uri.serialize_estimate(&estimates.uri, "uri", content, top_amount);
    e.user_agent.serialize_estimate(&estimates.user_agent, "user_agent", content, top_amount);
    e.country.serialize_estimate(&estimates.country, "country", content, top_amount);
    e.asn.serialize_estimate(&estimates.asn, "asn", content, top_amount);
}

/// The answers, the tags and the sizes of the requests.
pub open spec fn size_members(
    members: Map<Seq<char>, Json>,
    c: CountersView,
    top_amount: nat,
) -> Map<Seq<char>, Json> {
    members.insert(
        "status"@,
        texts_json(text_rows::<u32>(top_rows::<u32>(c.status, top_amount))),
    ).insert(
        "status_classes"@,
        texts_json(text_rows::<u8>(top_rows::<u8>(c.status_classes, top_amount))),
    ).insert(
        "methods"@,
        texts_json(text_rows::<String>(top_rows::<String>(c.methods, top_amount))),
    ).insert(
        "top_tags"@,
        top_json(c.top_tags, top_amount),
    ).insert(
        "top_request_per_cookies"@,
        texts_json(text_rows::<usize>(top_rows::<usize>(c.cookies_amount, top_amount))),
    ).insert(
        "top_request_per_args"@,
        texts_json(text_rows::<usize>(top_rows::<usize>(c.args_amount, top_amount))),
    ).insert(
        "top_request_per_headers"@,
        texts_json(text_rows::<usize>(top_rows::<usize>(c.headers_amount, top_amount))),
    ).insert(
        "top_max_cookies_per_request"@,
        texts_json(max_rows::<usize>(c.cookies_amount, top_amount)),
    ).insert(
        "top_max_args_per_request"@,
        texts_json(max_rows::<usize>(c.args_amount, top_amount)),
    ).insert(
        "top_max_headers_per_request"@,
        texts_json(max_rows::<usize>(c.headers_amount, top_amount)),
    )
}

fn put_size(content: &mut serde_json::Map<String, Value>, e: &AggregatedCounters, top_amount: usize)
    requires
        e.wf(),
    ensures
        members_of(*final(content)) == size_members(
            members_of(*old(content)),
            e@,
            top_amount as nat,
        ),
{
    set_member(content, "status".to_owned(), e.status.serialize_top(top_amount));
    set_member(content, "status_classes".to_owned(), e.status_classes.serialize_top(top_amount));
    set_member(content, "methods".to_owned(), e.methods.serialize_top(top_amount));
    set_member(content, "top_tags".to_owned(), e.top_tags.serialize(top_amount));
    set_member(
        content,
        "top_request_per_cookies".to_owned(),
        e.cookies_amount.serialize_top(top_amount),
    );
    set_member(content, "top_request_per_args".to_owned(), e.args_amount.serialize_top(top_amount));
    set_member(
        content,
        "top_request_per_headers".to_owned(),
        e.headers_amount.serialize_top(top_amount),
    );
    set_member(
        content,
        "top_max_cookies_per_request".to_owned(),
        e.cookies_amount.serialize_max(top_amount),
    );
    set_member(
        content,
        "top_max_args_per_request".to_owned(),
        e.args_amount.serialize_max(top_amount),
    );
    set_member(
        content,
        "top_max_headers_per_request".to_owned(),
        e.headers_amount.serialize_max(top_amount),
    );
}

/// What was seen together.
pub open spec fn pair_members(members: Map<Seq<char>, Json>, e: Estimates, top_amount: nat) -> Map<
    Seq<char>,
    Json,
> {
    members.insert(
        "top_ip_per_unique_uri"@,
        rows_json::<String>(top_rows::<String>(e.ip_per_uri.counts(), top_amount)),
    ).insert(
        "top_uri_per_unique_ip"@,
        rows_json::<String>(top_rows::<String>(e.uri_per_ip.counts(), top_amount)),
    ).insert(
        "top_session_per_unique_uri"@,
        rows_json::<String>(top_rows::<String>(e.session_per_uri.counts(), top_amount)),
    ).insert(
        "top_uri_per_unique_session"@,
        rows_json::<String>(top_rows::<String>(e.uri_per_session.counts(), top_amount)),
    )
}

fn put_pair(content: &mut serde_json::Map<String, Value>, estimates: &Estimates, top_amount: usize)
    requires
        estimates.wf(),
    ensures
        members_of(*final(content)) == pair_members(
            members_of(*old(content)),
            *estimates,
            top_amount as nat,
        ),
{
    set_member(
        content,
        "top_ip_per_unique_uri".to_owned(),
        top_value(&estimates.ip_per_uri, top_amount),
    );
    set_member(
        content,
        "top_uri_per_unique_ip".to_owned(),
        top_value(&estimates.uri_per_ip, top_amount),
    );
    set_member(
        content,
        "top_session_per_unique_uri".to_owned(),
        top_value(&estimates.session_per_uri, top_amount),
    );
    set_member(
        content,
        "top_uri_per_unique_session".to_owned(),
        top_value(&estimates.uri_per_session, top_amount),
    );
}

/// The counters of a second, as an object. `average` is the mean processing time, which is no
/// integer.
pub open spec fn counters_json(
    c: CountersView,
    e: Estimates,
    average: Json,
    top_amount: nat,
) -> Json {
    let members = trigger_members(decision_members(Map::empty(), c, top_amount), c).insert(
        "processing_time"@,
        integer_json(c.processing_time, average),
    );
    Json::Object(
        pair_members(
            size_members(value_members(members, c, e, top_amount), c, top_amount),
            e,
            top_amount,
        ),
    )
}

/// Writes the counters of a second, with what their sketches gave.
pub fn serialize_estimated(
    e: &AggregatedCounters,
    estimates: &Estimates,
    average: Value,
    top_amount: usize,
) -> (v: Value)
    requires
        e.wf(),
        estimates.wf(),
    ensures
        json_of(v) == counters_json(e@, *estimates, json_of(average), top_amount as nat),
{
    let mut content = new_members();
    put_decision(&mut content, e, top_amount);
    put_trigger(&mut content, e);
    set_member(&mut content, "processing_time".to_owned(), e.processing_time.to_json(average));
    put_value(&mut content, e, estimates, top_amount);
    put_size(&mut content, e, top_amount);
    put_pair(&mut content, estimates, top_amount);
    object_value(content)
}

/// Writes the counters of a second. `average` is the mean processing time.
pub fn serialize_counters(e: &AggregatedCounters, average: Value, top_amount: usize) -> (v: Value)
    requires
        e.wf(),
    ensures
        exists|estimates: Estimates| #[trigger]
            estimates.possible(e@) && estimates.wf() && json_of(v) == counters_json(
                e@,
                estimates,
                json_of(average),
                top_amount as nat,
            ),
{
    let estimates = Estimates::of(e);
    serialize_estimated(e, &estimates, average, top_amount)
}

/// The text of a second, or question marks where it could not be written.
pub fn timestamp_or_unknown(timestamp: Result<Value, serde_json::Error>) -> (v: Value)
    ensures
        json_of(v) == match timestamp {
            Ok(text) => json_of(text),
            Err(_) => Json::Text("??"@),
        },
{
    match timestamp {
        Ok(text) => text,
        Err(_) => text_value("??".to_owned()),
    }
}

/// The counters of a key and a second, as an object.
pub open spec fn entry_json(timestamp: Json, hdr: KeyView, counters: Json) -> Json {
    Json::Object(
        Map::empty().insert("timestamp"@, timestamp).insert(
            "proxy"@,
            match hdr.proxy {
                Some(proxy) => Json::Text(proxy),
                None => Json::Null,
            },
        ).insert("secpolid"@, Json::Text(hdr.secpolid)).insert(
            "secpolentryid"@,
            Json::Text(hdr.secpolentryid),
        ).insert("counters"@, counters),
    )
}

/// Writes the counters of a key and a second, all parts given.
pub fn entry_value(timestamp: Value, hdr: &AggregationKey, counters: Value) -> (v: Value)
    ensures
        json_of(v) == entry_json(json_of(timestamp), hdr@, json_of(counters)),
{
    let mut content = new_members();
    set_member(&mut content, "timestamp".to_owned(), timestamp);
    let proxy = match &hdr.proxy {
        Some(proxy) => text_value(proxy.clone()),
        None => null_value(),
    };
    set_member(&mut content, "proxy".to_owned(), proxy);
    set_member(&mut content, "secpolid".to_owned(), text_value(hdr.secpolid.clone()));
    set_member(&mut content, "secpolentryid".to_owned(), text_value(hdr.secpolentryid.clone()));
    set_member(&mut content, "counters".to_owned(), counters);
    object_value(content)
}

/// Writes the counters of a key and a second, with what their sketches gave.
pub fn serialize_entry_estimated(
    secs: i64,
    hdr: &AggregationKey,
    counters: &AggregatedCounters,
    estimates: &Estimates,
    average: Value,
    top_amount: usize,
) -> (v: Value)
    requires
        on_calendar(secs as int),
        counters.wf(),
        estimates.wf(),
    ensures
        json_of(v) == entry_json(
            Json::Text(timestamp_text(secs as int)),
            hdr@,
            counters_json(counters@, *estimates, json_of(average), top_amount as nat),
        ),
{
    let timestamp = timestamp_or_unknown(timestamp_value(secs));
    let counters = serialize_estimated(counters, estimates, average, top_amount);
    entry_value(timestamp, hdr, counters)
}

/// Writes the counters of a key and a second. `average` is the mean processing time.
pub fn serialize_entry(
    secs: i64,
    hdr: &AggregationKey,
    counters: &AggregatedCounters,
    average: Value,
    top_amount: usize,
) -> (v: Value)
    requires
        on_calendar(secs as int),
        counters.wf(),
    ensures
        exists|estimates: Estimates| #[trigger]
            estimates.possible(counters@) && estimates.wf() && json_of(v) == entry_json(
                Json::Text(timestamp_text(secs as int)),
                hdr@,
                counters_json(counters@, estimates, json_of(average), top_amount as nat),
            ),
{
    let estimates = Estimates::of(counters);
    serialize_entry_estimated(secs, hdr, counters, &estimates, average, top_amount)
}

} // verus!
