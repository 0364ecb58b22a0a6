//! What stands under each name in a document.

use crate::bag::{max_rows, text_rows, texts_json};
use crate::clock::timestamp_text;
use crate::counters::{outcome_of, CountersView, SectionView};
use crate::json::Json;
use crate::key::Key;
use crate::laws::{after_requests, how_many, law_hits, law_tables, parts, Request};
use crate::metric::{integer_json, metric_members, IntegerMetric, MetricEstimate, MetricView};
use crate::ranking::{key_rows, rows_json, top_rows};
use crate::report::{counters_json, entry_json, section_json, Estimates, KeyView};
use crate::sketch::{number_estimate, text_estimate};
use crate::top::TopView;
use crate::values::{all_possible, document_json, RowView};
use vstd::prelude::*;

verus! {

/// Whether an object has a member with this name and this value.
pub open spec fn member(doc: Json, name: Seq<char>, value: Json) -> bool {
    &&& doc is Object
    &&& doc->Object_0.contains_key(name)
    &&& doc->Object_0[name] == value
}

/// Whether an object has a member with this name that is an object in turn, with this member.
pub open spec fn inner(doc: Json, name: Seq<char>, part: Seq<char>, value: Json) -> bool {
    &&& doc is Object
    &&& doc->Object_0.contains_key(name)
    &&& member(doc->Object_0[name], part, value)
}

proof fn lemma_decision_names()
    ensures
        "hits"@.len() == 4,
        "hits"@[3] == 's',
        "blocks"@.len() == 6,
        "blocks"@[3] == 'c',
        "report"@.len() == 6,
        "report"@[3] == 'o',
        "bot"@.len() == 3,
        "human"@.len() == 5,
        "human"@[3] == 'a',
        "challenge"@.len() == 9,
        "challenge"@[3] == 'l',
        "challenge"@[7] == 'g',
        "cf_top_ruleid_active"@.len() == 20,
        "cf_top_ruleid_active"@[13] == '_',
        "cf_top_ruleid_active"@[16] == 't',
        "cf_top_ruleid_active"@[3] == 't',
        "cf_top_ruleid_active"@[7] == 'r',
        "cf_top_ruleid_report"@.len() == 20,
        "cf_top_ruleid_report"@[13] == '_',
        "cf_top_ruleid_report"@[16] == 'p',
        "cf_top_ruleid_report"@[3] == 't',
        "cf_top_ruleid_report"@[7] == 'r',
        "cf_top_aclid_active"@.len() == 19,
        "cf_top_aclid_active"@[13] == 'a',
        "cf_top_aclid_active"@[16] == 'i',
        "cf_top_aclid_active"@[3] == 't',
        "cf_top_aclid_active"@[7] == 'a',
        "cf_top_aclid_report"@.len() == 19,
        "cf_top_aclid_report"@[13] == 'r',
        "cf_top_aclid_report"@[16] == 'o',
        "cf_top_aclid_report"@[3] == 't',
        "cf_top_aclid_report"@[7] == 'a',
        "cf_top_secpolid_active"@.len() == 22,
        "cf_top_secpolid_active"@[13] == 'i',
        "cf_top_secpolid_active"@[16] == 'a',
        "cf_top_secpolid_active"@[3] == 't',
        "cf_top_secpolid_active"@[7] == 's',
        "cf_top_secpolid_report"@.len() == 22,
        "cf_top_secpolid_report"@[13] == 'i',
        "cf_top_secpolid_report"@[16] == 'r',
        "cf_top_secpolid_report"@[3] == 't',
        "cf_top_secpolid_report"@[7] == 's',
        "cf_top_secpolentryid_active"@.len() == 27,
        "cf_top_secpolentryid_active"@[13] == 'e',
        "cf_top_secpolentryid_active"@[16] == 'r',
        "cf_top_secpolentryid_active"@[3] == 't',
        "cf_top_secpolentryid_active"@[23] == 't',
        "cf_top_secpolentryid_active"@[7] == 's',
        "cf_top_secpolentryid_report"@.len() == 27,
        "cf_top_secpolentryid_report"@[13] == 'e',
        "cf_top_secpolentryid_report"@[16] == 'r',
        "cf_top_secpolentryid_report"@[3] == 't',
        "cf_top_secpolentryid_report"@[23] == 'p',
        "cf_top_secpolentryid_report"@[7] == 's',
        "cf_risk_level_active"@.len() == 20,
        "cf_risk_level_active"@[13] == '_',
        "cf_risk_level_active"@[16] == 't',
        "cf_risk_level_active"@[3] == 'r',
        "cf_risk_level_active"@[7] == '_',
        "cf_risk_level_report"@.len() == 20,
        "cf_risk_level_report"@[13] == '_',
        "cf_risk_level_report"@[16] == 'p',
        "cf_risk_level_report"@[3] == 'r',
        "cf_risk_level_report"@[7] == '_',
        "cf_section_active"@.len() == 17,
        "cf_section_active"@[13] == 't',
        "cf_section_active"@[16] == 'e',
        "cf_section_active"@[3] == 's',
        "cf_section_active"@[7] == 'i',
        "cf_section_report"@.len() == 17,
        "cf_section_report"@[13] == 'p',
        "cf_section_report"@[16] == 't',
        "cf_section_report"@[3] == 's',
        "cf_section_report"@[7] == 'i',
{
    reveal_strlit("hits");
    reveal_strlit("blocks");
    reveal_strlit("report");
    reveal_strlit("bot");
    reveal_strlit("human");
    reveal_strlit("challenge");
    reveal_strlit("cf_top_ruleid_active");
    reveal_strlit("cf_top_ruleid_report");
    reveal_strlit("cf_top_aclid_active");
    reveal_strlit("cf_top_aclid_report");
    reveal_strlit("cf_top_secpolid_active");
    reveal_strlit("cf_top_secpolid_report");
    reveal_strlit("cf_top_secpolentryid_active");
    reveal_strlit("cf_top_secpolentryid_report");
    reveal_strlit("cf_risk_level_active");
    reveal_strlit("cf_risk_level_report");
    reveal_strlit("cf_section_active");
    reveal_strlit("cf_section_report");
}

proof fn lemma_trigger_names()
    ensures
        "requests_triggered_globalfilter_active"@.len() == 38,
        "requests_triggered_globalfilter_active"@[13] == 'g',
        "requests_triggered_globalfilter_active"@[16] == 'e',
        "requests_triggered_globalfilter_active"@[3] == 'u',
        "requests_triggered_globalfilter_active"@[23] == 'a',
        "requests_triggered_globalfilter_active"@[32] == 'a',
        "requests_triggered_globalfilter_active"@[7] == 's',
        "requests_triggered_globalfilter_report"@.len() == 38,
        "requests_triggered_globalfilter_report"@[13] == 'g',
        "requests_triggered_globalfilter_report"@[16] == 'e',
        "requests_triggered_globalfilter_report"@[3] == 'u',
        "requests_triggered_globalfilter_report"@[23] == 'a',
        "requests_triggered_globalfilter_report"@[32] == 'r',
        "requests_triggered_globalfilter_report"@[7] == 's',
        "requests_triggered_cf_active"@.len() == 28,
        "requests_triggered_cf_active"@[13] == 'g',
        "requests_triggered_cf_active"@[16] == 'e',
        "requests_triggered_cf_active"@[3] == 'u',
        "requests_triggered_cf_active"@[23] == 'c',
        "requests_triggered_cf_active"@[7] == 's',
        "requests_triggered_cf_report"@.len() == 28,
        "requests_triggered_cf_report"@[13] == 'g',
        "requests_triggered_cf_report"@[16] == 'e',
        "requests_triggered_cf_report"@[3] == 'u',
        "requests_triggered_cf_report"@[23] == 'e',
        "requests_triggered_cf_report"@[7] == 's',
        "requests_triggered_acl_active"@.len() == 29,
        "requests_triggered_acl_active"@[13] == 'g',
        "requests_triggered_acl_active"@[16] == 'e',
        "requests_triggered_acl_active"@[3] == 'u',
        "requests_triggered_acl_active"@[23] == 'a',
        "requests_triggered_acl_active"@[7] == 's',
        "requests_triggered_acl_report"@.len() == 29,
        "requests_triggered_acl_report"@[13] == 'g',
        "requests_triggered_acl_report"@[16] == 'e',
        "requests_triggered_acl_report"@[3] == 'u',
        "requests_triggered_acl_report"@[23] == 'r',
        "requests_triggered_acl_report"@[7] == 's',
        "requests_triggered_ratelimit_active"@.len() == 35,
        "requests_triggered_ratelimit_active"@[13] == 'g',
        "requests_triggered_ratelimit_active"@[16] == 'e',
        "requests_triggered_ratelimit_active"@[3] == 'u',
        "requests_triggered_ratelimit_active"@[23] == 'l',
        "requests_triggered_ratelimit_active"@[32] == 'i',
        "requests_triggered_ratelimit_active"@[7] == 's',
        "requests_triggered_ratelimit_report"@.len() == 35,
        "requests_triggered_ratelimit_report"@[13] == 'g',
        "requests_triggered_ratelimit_report"@[16] == 'e',
        "requests_triggered_ratelimit_report"@[3] == 'u',
        "requests_triggered_ratelimit_report"@[23] == 'l',
        "requests_triggered_ratelimit_report"@[32] == 'o',
        "requests_triggered_ratelimit_report"@[7] == 's',
        "processing_time"@.len() == 15,
        "processing_time"@[13] == 'm',
        "processing_time"@[3] == 'c',
        "processing_time"@[7] == 'i',
{
    reveal_strlit("requests_triggered_globalfilter_active");
    reveal_strlit("requests_triggered_globalfilter_report");
    reveal_strlit("requests_triggered_cf_active");
    reveal_strlit("requests_triggered_cf_report");
    reveal_strlit("requests_triggered_acl_active");
    reveal_strlit("requests_triggered_acl_report");
    reveal_strlit("requests_triggered_ratelimit_active");
    reveal_strlit("requests_triggered_ratelimit_report");
    reveal_strlit("processing_time");
}

proof fn lemma_value_names()
    ensures
        "unique_ip"@.len() == 9,
        "unique_ip"@[3] == 'q',
        "unique_ip"@[7] == 'i',
        "unique_blocked_ip"@.len() == 17,
        "unique_blocked_ip"@[13] == 'd',
        "unique_blocked_ip"@[16] == 'p',
        "unique_blocked_ip"@[3] == 'q',
        "unique_blocked_ip"@[7] == 'b',
        "unique_passed_ip"@.len() == 16,
        "unique_passed_ip"@[13] == '_',
        "unique_passed_ip"@[3] == 'q',
        "unique_passed_ip"@[7] == 'p',
        "top_blocked_ip"@.len() == 14,
        "top_blocked_ip"@[13] == 'p',
        "top_blocked_ip"@[3] == '_',
        "top_blocked_ip"@[7] == 'c',
        "top_passed_ip"@.len() == 13,
        "top_passed_ip"@[3] == '_',
        "top_passed_ip"@[7] == 's',
        "unique_session"@.len() == 14,
        "unique_session"@[13] == 'n',
        "unique_session"@[3] == 'q',
        "unique_session"@[7] == 's',
        "unique_blocked_session"@.len() == 22,
        "unique_blocked_session"@[13] == 'd',
        "unique_blocked_session"@[16] == 'e',
        "unique_blocked_session"@[3] == 'q',
        "unique_blocked_session"@[7] == 'b',
        "unique_passed_session"@.len() == 21,
        "unique_passed_session"@[13] == '_',
        "unique_passed_session"@[16] == 's',
        "unique_passed_session"@[3] == 'q',
        "unique_passed_session"@[7] == 'p',
        "top_blocked_session"@.len() == 19,
        "top_blocked_session"@[13] == 'e',
        "top_blocked_session"@[16] == 'i',
        "top_blocked_session"@[3] == '_',
        "top_blocked_session"@[7] == 'c',
        "top_passed_session"@.len() == 18,
        "top_passed_session"@[13] == 's',
        "top_passed_session"@[16] == 'o',
        "top_passed_session"@[3] == '_',
        "top_passed_session"@[7] == 's',
        "unique_uri"@.len() == 10,
        "unique_uri"@[3] == 'q',
        "unique_uri"@[7] == 'u',
        "unique_blocked_uri"@.len() == 18,
        "unique_blocked_uri"@[13] == 'd',
        "unique_blocked_uri"@[16] == 'r',
        "unique_blocked_uri"@[3] == 'q',
        "unique_blocked_uri"@[7] == 'b',
        "unique_passed_uri"@.len() == 17,
        "unique_passed_uri"@[13] == '_',
        "unique_passed_uri"@[16] == 'i',
        "unique_passed_uri"@[3] == 'q',
        "unique_passed_uri"@[7] == 'p',
        "top_blocked_uri"@.len() == 15,
        "top_blocked_uri"@[13] == 'r',
        "top_blocked_uri"@[3] == '_',
        "top_blocked_uri"@[7] == 'c',
        "top_passed_uri"@.len() == 14,
        "top_passed_uri"@[13] == 'i',
        "top_passed_uri"@[3] == '_',
        "top_passed_uri"@[7] == 's',
        "unique_user_agent"@.len() == 17,
        "unique_user_agent"@[13] == 'g',
        "unique_user_agent"@[16] == 't',
        "unique_user_agent"@[3] == 'q',
        "unique_user_agent"@[7] == 'u',
        "unique_blocked_user_agent"@.len() == 25,
        "unique_blocked_user_agent"@[13] == 'd',
        "unique_blocked_user_agent"@[16] == 's',
        "unique_blocked_user_agent"@[3] == 'q',
        "unique_blocked_user_agent"@[23] == 'n',
        "unique_blocked_user_agent"@[7] == 'b',
        "unique_passed_user_agent"@.len() == 24,
        "unique_passed_user_agent"@[13] == '_',
        "unique_passed_user_agent"@[16] == 'e',
        "unique_passed_user_agent"@[3] == 'q',
        "unique_passed_user_agent"@[23] == 't',
        "unique_passed_user_agent"@[7] == 'p',
        "top_blocked_user_agent"@.len() == 22,
        "top_blocked_user_agent"@[13] == 's',
        "top_blocked_user_agent"@[16] == '_',
        "top_blocked_user_agent"@[3] == '_',
        "top_blocked_user_agent"@[7] == 'c',
        "top_passed_user_agent"@.len() == 21,
        "top_passed_user_agent"@[13] == 'e',
        "top_passed_user_agent"@[16] == 'a',
        "top_passed_user_agent"@[3] == '_',
        "top_passed_user_agent"@[7] == 's',
        "unique_country"@.len() == 14,
        "unique_country"@[13] == 'y',
        "unique_country"@[3] == 'q',
        "unique_country"@[7] == 'c',
        "unique_blocked_country"@.len() == 22,
        "unique_blocked_country"@[13] == 'd',
        "unique_blocked_country"@[16] == 'o',
        "unique_blocked_country"@[3] == 'q',
        "unique_blocked_country"@[7] == 'b',
        "unique_passed_country"@.len() == 21,
        "unique_passed_country"@[13] == '_',
        "unique_passed_country"@[16] == 'u',
        "unique_passed_country"@[3] == 'q',
        "unique_passed_country"@[7] == 'p',
        "top_blocked_country"@.len() == 19,
        "top_blocked_country"@[13] == 'o',
        "top_blocked_country"@[16] == 't',
        "top_blocked_country"@[3] == '_',
        "top_blocked_country"@[7] == 'c',
        "top_passed_country"@.len() == 18,
        "top_passed_country"@[13] == 'u',
        "top_passed_country"@[16] == 'r',
        "top_passed_country"@[3] == '_',
        "top_passed_country"@[7] == 's',
        "unique_asn"@.len() == 10,
        "unique_asn"@[3] == 'q',
        "unique_asn"@[7] == 'a',
        "unique_blocked_asn"@.len() == 18,
        "unique_blocked_asn"@[13] == 'd',
        "unique_blocked_asn"@[16] == 's',
        "unique_blocked_asn"@[3] == 'q',
        "unique_blocked_asn"@[7] == 'b',
        "unique_passed_asn"@.len() == 17,
        "unique_passed_asn"@[13] == '_',
        "unique_passed_asn"@[16] == 'n',
        "unique_passed_asn"@[3] == 'q',
        "unique_passed_asn"@[7] == 'p',
        "top_blocked_asn"@.len() == 15,
        "top_blocked_asn"@[13] == 's',
        "top_blocked_asn"@[3] == '_',
        "top_blocked_asn"@[7] == 'c',
        "top_passed_asn"@.len() == 14,
        "top_passed_asn"@[13] == 'n',
        "top_passed_asn"@[3] == '_',
        "top_passed_asn"@[7] == 's',
{
    reveal_strlit("unique_ip");
    reveal_strlit("unique_blocked_ip");
    reveal_strlit("unique_passed_ip");
    reveal_strlit("top_blocked_ip");
    reveal_strlit("top_passed_ip");
    reveal_strlit("unique_session");
    reveal_strlit("unique_blocked_session");
    reveal_strlit("unique_passed_session");
    reveal_strlit("top_blocked_session");
    reveal_strlit("top_passed_session");
    reveal_strlit("unique_uri");
    reveal_strlit("unique_blocked_uri");
    reveal_strlit("unique_passed_uri");
    reveal_strlit("top_blocked_uri");
    reveal_strlit("top_passed_uri");
    reveal_strlit("unique_user_agent");
    reveal_strlit("unique_blocked_user_agent");
    reveal_strlit("unique_passed_user_agent");
    reveal_strlit("top_blocked_user_agent");
    reveal_strlit("top_passed_user_agent");
    reveal_strlit("unique_country");
    reveal_strlit("unique_blocked_country");
    reveal_strlit("unique_passed_country");
    reveal_strlit("top_blocked_country");
    reveal_strlit("top_passed_country");
    reveal_strlit("unique_asn");
    reveal_strlit("unique_blocked_asn");
    reveal_strlit("unique_passed_asn");
    reveal_strlit("top_blocked_asn");
    reveal_strlit("top_passed_asn");
}

proof fn lemma_size_names()
    ensures
        "status"@.len() == 6,
        "status"@[3] == 't',
        "status_classes"@.len() == 14,
        "status_classes"@[13] == 's',
        "status_classes"@[3] == 't',
        "status_classes"@[7] == 'c',
        "methods"@.len() == 7,
        "methods"@[3] == 'h',
        "top_tags"@.len() == 8,
        "top_tags"@[3] == '_',
        "top_tags"@[7] == 's',
        "top_request_per_cookies"@.len() == 23,
        "top_request_per_cookies"@[13] == 'e',
        "top_request_per_cookies"@[16] == 'c',
        "top_request_per_cookies"@[3] == '_',
        "top_request_per_cookies"@[7] == 'u',
        "top_max_cookies_per_request"@.len() == 27,
        "top_max_cookies_per_request"@[13] == 'e',
        "top_max_cookies_per_request"@[16] == 'p',
        "top_max_cookies_per_request"@[3] == '_',
        "top_max_cookies_per_request"@[23] == 'u',
        "top_max_cookies_per_request"@[7] == '_',
        "top_request_per_args"@.len() == 20,
        "top_request_per_args"@[13] == 'e',
        "top_request_per_args"@[16] == 'a',
        "top_request_per_args"@[3] == '_',
        "top_request_per_args"@[7] == 'u',
        "top_max_args_per_request"@.len() == 24,
        "top_max_args_per_request"@[13] == 'p',
        "top_max_args_per_request"@[16] == '_',
        "top_max_args_per_request"@[3] == '_',
        "top_max_args_per_request"@[23] == 't',
        "top_max_args_per_request"@[7] == '_',
        "top_request_per_headers"@.len() == 23,
        "top_request_per_headers"@[13] == 'e',
        "top_request_per_headers"@[16] == 'h',
        "top_request_per_headers"@[3] == '_',
        "top_request_per_headers"@[7] == 'u',
        "top_max_headers_per_request"@.len() == 27,
        "top_max_headers_per_request"@[13] == 'r',
        "top_max_headers_per_request"@[16] == 'p',
        "top_max_headers_per_request"@[3] == '_',
        "top_max_headers_per_request"@[23] == 'u',
        "top_max_headers_per_request"@[7] == '_',
        "top_ip_per_unique_uri"@.len() == 21,
        "top_ip_per_unique_uri"@[13] == 'i',
        "top_ip_per_unique_uri"@[16] == 'e',
        "top_ip_per_unique_uri"@[3] == '_',
        "top_ip_per_unique_uri"@[7] == 'p',
        "top_uri_per_unique_ip"@.len() == 21,
        "top_uri_per_unique_ip"@[13] == 'n',
        "top_uri_per_unique_ip"@[16] == 'u',
        "top_uri_per_unique_ip"@[3] == '_',
        "top_uri_per_unique_ip"@[7] == '_',
        "top_session_per_unique_uri"@.len() == 26,
        "top_session_per_unique_uri"@[13] == 'e',
        "top_session_per_unique_uri"@[16] == 'u',
        "top_session_per_unique_uri"@[3] == '_',
        "top_session_per_unique_uri"@[23] == 'u',
        "top_session_per_unique_uri"@[7] == 's',
        "top_uri_per_unique_session"@.len() == 26,
        "top_uri_per_unique_session"@[13] == 'n',
        "top_uri_per_unique_session"@[16] == 'u',
        "top_uri_per_unique_session"@[3] == '_',
        "top_uri_per_unique_session"@[23] == 'i',
        "top_uri_per_unique_session"@[7] == '_',
{
    reveal_strlit("status");
    reveal_strlit("status_classes");
    reveal_strlit("methods");
    reveal_strlit("top_tags");
    reveal_strlit("top_request_per_cookies");
    reveal_strlit("top_max_cookies_per_request");
    reveal_strlit("top_request_per_args");
    reveal_strlit("top_max_args_per_request");
    reveal_strlit("top_request_per_headers");
    reveal_strlit("top_max_headers_per_request");
    reveal_strlit("top_ip_per_unique_uri");
    reveal_strlit("top_uri_per_unique_ip");
    reveal_strlit("top_session_per_unique_uri");
    reveal_strlit("top_uri_per_unique_session");
}

/// The names of the members of a metric, put together.
proof fn lemma_joined_names()
    ensures
        "unique_"@ + "ip"@ == "unique_ip"@,
        "unique_blocked_"@ + "ip"@ == "unique_blocked_ip"@,
        "unique_passed_"@ + "ip"@ == "unique_passed_ip"@,
        "top_blocked_"@ + "ip"@ == "top_blocked_ip"@,
        "top_passed_"@ + "ip"@ == "top_passed_ip"@,
        "unique_"@ + "session"@ == "unique_session"@,
        "unique_blocked_"@ + "session"@ == "unique_blocked_session"@,
        "unique_passed_"@ + "session"@ == "unique_passed_session"@,
        "top_blocked_"@ + "session"@ == "top_blocked_session"@,
        "top_passed_"@ + "session"@ == "top_passed_session"@,
        "unique_"@ + "uri"@ == "unique_uri"@,
        "unique_blocked_"@ + "uri"@ == "unique_blocked_uri"@,
        "unique_passed_"@ + "uri"@ == "unique_passed_uri"@,
        "top_blocked_"@ + "uri"@ == "top_blocked_uri"@,
        "top_passed_"@ + "uri"@ == "top_passed_uri"@,
        "unique_"@ + "user_agent"@ == "unique_user_agent"@,
        "unique_blocked_"@ + "user_agent"@ == "unique_blocked_user_agent"@,
        "unique_passed_"@ + "user_agent"@ == "unique_passed_user_agent"@,
        "top_blocked_"@ + "user_agent"@ == "top_blocked_user_agent"@,
        "top_passed_"@ + "user_agent"@ == "top_passed_user_agent"@,
        "unique_"@ + "country"@ == "unique_country"@,
        "unique_blocked_"@ + "country"@ == "unique_blocked_country"@,
        "unique_passed_"@ + "country"@ == "unique_passed_country"@,
        "top_blocked_"@ + "country"@ == "top_blocked_country"@,
        "top_passed_"@ + "country"@ == "top_passed_country"@,
        "unique_"@ + "asn"@ == "unique_asn"@,
        "unique_blocked_"@ + "asn"@ == "unique_blocked_asn"@,
        "unique_passed_"@ + "asn"@ == "unique_passed_asn"@,
        "top_blocked_"@ + "asn"@ == "top_blocked_asn"@,
        "top_passed_"@ + "asn"@ == "top_passed_asn"@,
{
    reveal_strlit("unique_");
    reveal_strlit("unique_blocked_");
    reveal_strlit("unique_passed_");
    reveal_strlit("top_blocked_");
    reveal_strlit("top_passed_");
    reveal_strlit("ip");
    reveal_strlit("session");
    reveal_strlit("uri");
    reveal_strlit("user_agent");
    reveal_strlit("country");
    reveal_strlit("asn");
    reveal_strlit("unique_ip");
    assert("unique_"@ + "ip"@ =~= "unique_ip"@);
    reveal_strlit("unique_blocked_ip");
    assert("unique_blocked_"@ + "ip"@ =~= "unique_blocked_ip"@);
    reveal_strlit("unique_passed_ip");
    assert("unique_passed_"@ + "ip"@ =~= "unique_passed_ip"@);
    reveal_strlit("top_blocked_ip");
    assert("top_blocked_"@ + "ip"@ =~= "top_blocked_ip"@);
    reveal_strlit("top_passed_ip");
    assert("top_passed_"@ + "ip"@ =~= "top_passed_ip"@);
    reveal_strlit("unique_session");
    assert("unique_"@ + "session"@ =~= "unique_session"@);
    reveal_strlit("unique_blocked_session");
    assert("unique_blocked_"@ + "session"@ =~= "unique_blocked_session"@);
    reveal_strlit("unique_passed_session");
    assert("unique_passed_"@ + "session"@ =~= "unique_passed_session"@);
    reveal_strlit("top_blocked_session");
    assert("top_blocked_"@ + "session"@ =~= "top_blocked_session"@);
    reveal_strlit("top_passed_session");
    assert("top_passed_"@ + "session"@ =~= "top_passed_session"@);
    reveal_strlit("unique_uri");
    assert("unique_"@ + "uri"@ =~= "unique_uri"@);
    reveal_strlit("unique_blocked_uri");
    assert("unique_blocked_"@ + "uri"@ =~= "unique_blocked_uri"@);
    reveal_strlit("unique_passed_uri");
    assert("unique_passed_"@ + "uri"@ =~= "unique_passed_uri"@);
    reveal_strlit("top_blocked_uri");
    assert("top_blocked_"@ + "uri"@ =~= "top_blocked_uri"@);
    reveal_strlit("top_passed_uri");
    assert("top_passed_"@ + "uri"@ =~= "top_passed_uri"@);
    reveal_strlit("unique_user_agent");
    assert("unique_"@ + "user_agent"@ =~= "unique_user_agent"@);
    reveal_strlit("unique_blocked_user_agent");
    assert("unique_blocked_"@ + "user_agent"@ =~= "unique_blocked_user_agent"@);
    reveal_strlit("unique_passed_user_agent");
    assert("unique_passed_"@ + "user_agent"@ =~= "unique_passed_user_agent"@);
    reveal_strlit("top_blocked_user_agent");
    assert("top_blocked_"@ + "user_agent"@ =~= "top_blocked_user_agent"@);
    reveal_strlit("top_passed_user_agent");
    assert("top_passed_"@ + "user_agent"@ =~= "top_passed_user_agent"@);
    reveal_strlit("unique_country");
    assert("unique_"@ + "country"@ =~= "unique_country"@);
    reveal_strlit("unique_blocked_country");
    assert("unique_blocked_"@ + "country"@ =~= "unique_blocked_country"@);
    reveal_strlit("unique_passed_country");
    assert("unique_passed_"@ + "country"@ =~= "unique_passed_country"@);
    reveal_strlit("top_blocked_country");
    assert("top_blocked_"@ + "country"@ =~= "top_blocked_country"@);
    reveal_strlit("top_passed_country");
    assert("top_passed_"@ + "country"@ =~= "top_passed_country"@);
    reveal_strlit("unique_asn");
    assert("unique_"@ + "asn"@ =~= "unique_asn"@);
    reveal_strlit("unique_blocked_asn");
    assert("unique_blocked_"@ + "asn"@ =~= "unique_blocked_asn"@);
    reveal_strlit("unique_passed_asn");
    assert("unique_passed_"@ + "asn"@ =~= "unique_passed_asn"@);
    reveal_strlit("top_blocked_asn");
    assert("top_blocked_"@ + "asn"@ =~= "top_blocked_asn"@);
    reveal_strlit("top_passed_asn");
    assert("top_passed_"@ + "asn"@ =~= "top_passed_asn"@);
}

/// All names of the members of a second.
proof fn lemma_names()
    ensures
        "hits"@.len() == 4,
        "hits"@[3] == 's',
        "blocks"@.len() == 6,
        "blocks"@[3] == 'c',
        "report"@.len() == 6,
        "report"@[3] == 'o',
        "bot"@.len() == 3,
        "human"@.len() == 5,
        "human"@[3] == 'a',
        "challenge"@.len() == 9,
        "challenge"@[3] == 'l',
        "challenge"@[7] == 'g',
        "cf_top_ruleid_active"@.len() == 20,
        "cf_top_ruleid_active"@[13] == '_',
        "cf_top_ruleid_active"@[16] == 't',
        "cf_top_ruleid_active"@[3] == 't',
        "cf_top_ruleid_active"@[7] == 'r',
        "cf_top_ruleid_report"@.len() == 20,
        "cf_top_ruleid_report"@[13] == '_',
        "cf_top_ruleid_report"@[16] == 'p',
        "cf_top_ruleid_report"@[3] == 't',
        "cf_top_ruleid_report"@[7] == 'r',
        "cf_top_aclid_active"@.len() == 19,
        "cf_top_aclid_active"@[13] == 'a',
        "cf_top_aclid_active"@[16] == 'i',
        "cf_top_aclid_active"@[3] == 't',
        "cf_top_aclid_active"@[7] == 'a',
        "cf_top_aclid_report"@.len() == 19,
        "cf_top_aclid_report"@[13] == 'r',
        "cf_top_aclid_report"@[16] == 'o',
        "cf_top_aclid_report"@[3] == 't',
        "cf_top_aclid_report"@[7] == 'a',
        "cf_top_secpolid_active"@.len() == 22,
        "cf_top_secpolid_active"@[13] == 'i',
        "cf_top_secpolid_active"@[16] == 'a',
        "cf_top_secpolid_active"@[3] == 't',
        "cf_top_secpolid_active"@[7] == 's',
        "cf_top_secpolid_report"@.len() == 22,
        "cf_top_secpolid_report"@[13] == 'i',
        "cf_top_secpolid_report"@[16] == 'r',
        "cf_top_secpolid_report"@[3] == 't',
        "cf_top_secpolid_report"@[7] == 's',
        "cf_top_secpolentryid_active"@.len() == 27,
        "cf_top_secpolentryid_active"@[13] == 'e',
        "cf_top_secpolentryid_active"@[16] == 'r',
        "cf_top_secpolentryid_active"@[3] == 't',
        "cf_top_secpolentryid_active"@[23] == 't',
        "cf_top_secpolentryid_active"@[7] == 's',
        "cf_top_secpolentryid_report"@.len() == 27,
        "cf_top_secpolentryid_report"@[13] == 'e',
        "cf_top_secpolentryid_report"@[16] == 'r',
        "cf_top_secpolentryid_report"@[3] == 't',
        "cf_top_secpolentryid_report"@[23] == 'p',
        "cf_top_secpolentryid_report"@[7] == 's',
        "cf_risk_level_active"@.len() == 20,
        "cf_risk_level_active"@[13] == '_',
        "cf_risk_level_active"@[16] == 't',
        "cf_risk_level_active"@[3] == 'r',
        "cf_risk_level_active"@[7] == '_',
        "cf_risk_level_report"@.len() == 20,
        "cf_risk_level_report"@[13] == '_',
        "cf_risk_level_report"@[16] == 'p',
        "cf_risk_level_report"@[3] == 'r',
        "cf_risk_level_report"@[7] == '_',
        "cf_section_active"@.len() == 17,
        "cf_section_active"@[13] == 't',
        "cf_section_active"@[16] == 'e',
        "cf_section_active"@[3] == 's',
        "cf_section_active"@[7] == 'i',
        "cf_section_report"@.len() == 17,
        "cf_section_report"@[13] == 'p',
        "cf_section_report"@[16] == 't',
        "cf_section_report"@[3] == 's',
        "cf_section_report"@[7] == 'i',
        "requests_triggered_globalfilter_active"@.len() == 38,
        "requests_triggered_globalfilter_active"@[13] == 'g',
        "requests_triggered_globalfilter_active"@[16] == 'e',
        "requests_triggered_globalfilter_active"@[3] == 'u',
        "requests_triggered_globalfilter_active"@[23] == 'a',
        "requests_triggered_globalfilter_active"@[32] == 'a',
        "requests_triggered_globalfilter_active"@[7] == 's',
        "requests_triggered_globalfilter_report"@.len() == 38,
        "requests_triggered_globalfilter_report"@[13] == 'g',
        "requests_triggered_globalfilter_report"@[16] == 'e',
        "requests_triggered_globalfilter_report"@[3] == 'u',
        "requests_triggered_globalfilter_report"@[23] == 'a',
        "requests_triggered_globalfilter_report"@[32] == 'r',
        "requests_triggered_globalfilter_report"@[7] == 's',
        "requests_triggered_cf_active"@.len() == 28,
        "requests_triggered_cf_active"@[13] == 'g',
        "requests_triggered_cf_active"@[16] == 'e',
        "requests_triggered_cf_active"@[3] == 'u',
        "requests_triggered_cf_active"@[23] == 'c',
        "requests_triggered_cf_active"@[7] == 's',
        "requests_triggered_cf_report"@.len() == 28,
        "requests_triggered_cf_report"@[13] == 'g',
        "requests_triggered_cf_report"@[16] == 'e',
        "requests_triggered_cf_report"@[3] == 'u',
        "requests_triggered_cf_report"@[23] == 'e',
        "requests_triggered_cf_report"@[7] == 's',
        "requests_triggered_acl_active"@.len() == 29,
        "requests_triggered_acl_active"@[13] == 'g',
        "requests_triggered_acl_active"@[16] == 'e',
        "requests_triggered_acl_active"@[3] == 'u',
        "requests_triggered_acl_active"@[23] == 'a',
        "requests_triggered_acl_active"@[7] == 's',
        "requests_triggered_acl_report"@.len() == 29,
        "requests_triggered_acl_report"@[13] == 'g',
        "requests_triggered_acl_report"@[16] == 'e',
        "requests_triggered_acl_report"@[3] == 'u',
        "requests_triggered_acl_report"@[23] == 'r',
        "requests_triggered_acl_report"@[7] == 's',
        "requests_triggered_ratelimit_active"@.len() == 35,
        "requests_triggered_ratelimit_active"@[13] == 'g',
        "requests_triggered_ratelimit_active"@[16] == 'e',
        "requests_triggered_ratelimit_active"@[3] == 'u',
        "requests_triggered_ratelimit_active"@[23] == 'l',
        "requests_triggered_ratelimit_active"@[32] == 'i',
        "requests_triggered_ratelimit_active"@[7] == 's',
        "requests_triggered_ratelimit_report"@.len() == 35,
        "requests_triggered_ratelimit_report"@[13] == 'g',
        "requests_triggered_ratelimit_report"@[16] == 'e',
        "requests_triggered_ratelimit_report"@[3] == 'u',
        "requests_triggered_ratelimit_report"@[23] == 'l',
        "requests_triggered_ratelimit_report"@[32] == 'o',
        "requests_triggered_ratelimit_report"@[7] == 's',
        "processing_time"@.len() == 15,
        "processing_time"@[13] == 'm',
        "processing_time"@[3] == 'c',
        "processing_time"@[7] == 'i',
        "unique_ip"@.len() == 9,
        "unique_ip"@[3] == 'q',
        "unique_ip"@[7] == 'i',
        "unique_blocked_ip"@.len() == 17,
        "unique_blocked_ip"@[13] == 'd',
        "unique_blocked_ip"@[16] == 'p',
        "unique_blocked_ip"@[3] == 'q',
        "unique_blocked_ip"@[7] == 'b',
        "unique_passed_ip"@.len() == 16,
        "unique_passed_ip"@[13] == '_',
        "unique_passed_ip"@[3] == 'q',
        "unique_passed_ip"@[7] == 'p',
        "top_blocked_ip"@.len() == 14,
        "top_blocked_ip"@[13] == 'p',
        "top_blocked_ip"@[3] == '_',
        "top_blocked_ip"@[7] == 'c',
        "top_passed_ip"@.len() == 13,
        "top_passed_ip"@[3] == '_',
        "top_passed_ip"@[7] == 's',
        "unique_session"@.len() == 14,
        "unique_session"@[13] == 'n',
        "unique_session"@[3] == 'q',
        "unique_session"@[7] == 's',
        "unique_blocked_session"@.len() == 22,
        "unique_blocked_session"@[13] == 'd',
        "unique_blocked_session"@[16] == 'e',
        "unique_blocked_session"@[3] == 'q',
        "unique_blocked_session"@[7] == 'b',
        "unique_passed_session"@.len() == 21,
        "unique_passed_session"@[13] == '_',
        "unique_passed_session"@[16] == 's',
        "unique_passed_session"@[3] == 'q',
        "unique_passed_session"@[7] == 'p',
        "top_blocked_session"@.len() == 19,
        "top_blocked_session"@[13] == 'e',
        "top_blocked_session"@[16] == 'i',
        "top_blocked_session"@[3] == '_',
        "top_blocked_session"@[7] == 'c',
        "top_passed_session"@.len() == 18,
        "top_passed_session"@[13] == 's',
        "top_passed_session"@[16] == 'o',
        "top_passed_session"@[3] == '_',
        "top_passed_session"@[7] == 's',
        "unique_uri"@.len() == 10,
        "unique_uri"@[3] == 'q',
        "unique_uri"@[7] == 'u',
        "unique_blocked_uri"@.len() == 18,
        "unique_blocked_uri"@[13] == 'd',
        "unique_blocked_uri"@[16] == 'r',
        "unique_blocked_uri"@[3] == 'q',
        "unique_blocked_uri"@[7] == 'b',
        "unique_passed_uri"@.len() == 17,
        "unique_passed_uri"@[13] == '_',
        "unique_passed_uri"@[16] == 'i',
        "unique_passed_uri"@[3] == 'q',
        "unique_passed_uri"@[7] == 'p',
        "top_blocked_uri"@.len() == 15,
        "top_blocked_uri"@[13] == 'r',
        "top_blocked_uri"@[3] == '_',
        "top_blocked_uri"@[7] == 'c',
        "top_passed_uri"@.len() == 14,
        "top_passed_uri"@[13] == 'i',
        "top_passed_uri"@[3] == '_',
        "top_passed_uri"@[7] == 's',
        "unique_user_agent"@.len() == 17,
        "unique_user_agent"@[13] == 'g',
        "unique_user_agent"@[16] == 't',
        "unique_user_agent"@[3] == 'q',
        "unique_user_agent"@[7] == 'u',
        "unique_blocked_user_agent"@.len() == 25,
        "unique_blocked_user_agent"@[13] == 'd',
        "unique_blocked_user_agent"@[16] == 's',
        "unique_blocked_user_agent"@[3] == 'q',
        "unique_blocked_user_agent"@[23] == 'n',
        "unique_blocked_user_agent"@[7] == 'b',
        "unique_passed_user_agent"@.len() == 24,
        "unique_passed_user_agent"@[13] == '_',
        "unique_passed_user_agent"@[16] == 'e',
        "unique_passed_user_agent"@[3] == 'q',
        "unique_passed_user_agent"@[23] == 't',
        "unique_passed_user_agent"@[7] == 'p',
        "top_blocked_user_agent"@.len() == 22,
        "top_blocked_user_agent"@[13] == 's',
        "top_blocked_user_agent"@[16] == '_',
        "top_blocked_user_agent"@[3] == '_',
        "top_blocked_user_agent"@[7] == 'c',
        "top_passed_user_agent"@.len() == 21,
        "top_passed_user_agent"@[13] == 'e',
        "top_passed_user_agent"@[16] == 'a',
        "top_passed_user_agent"@[3] == '_',
        "top_passed_user_agent"@[7] == 's',
        "unique_country"@.len() == 14,
        "unique_country"@[13] == 'y',
        "unique_country"@[3] == 'q',
        "unique_country"@[7] == 'c',
        "unique_blocked_country"@.len() == 22,
        "unique_blocked_country"@[13] == 'd',
        "unique_blocked_country"@[16] == 'o',
        "unique_blocked_country"@[3] == 'q',
        "unique_blocked_country"@[7] == 'b',
        "unique_passed_country"@.len() == 21,
        "unique_passed_country"@[13] == '_',
        "unique_passed_country"@[16] == 'u',
        "unique_passed_country"@[3] == 'q',
        "unique_passed_country"@[7] == 'p',
        "top_blocked_country"@.len() == 19,
        "top_blocked_country"@[13] == 'o',
        "top_blocked_country"@[16] == 't',
        "top_blocked_country"@[3] == '_',
        "top_blocked_country"@[7] == 'c',
        "top_passed_country"@.len() == 18,
        "top_passed_country"@[13] == 'u',
        "top_passed_country"@[16] == 'r',
        "top_passed_country"@[3] == '_',
        "top_passed_country"@[7] == 's',
        "unique_asn"@.len() == 10,
        "unique_asn"@[3] == 'q',
        "unique_asn"@[7] == 'a',
        "unique_blocked_asn"@.len() == 18,
        "unique_blocked_asn"@[13] == 'd',
        "unique_blocked_asn"@[16] == 's',
        "unique_blocked_asn"@[3] == 'q',
        "unique_blocked_asn"@[7] == 'b',
        "unique_passed_asn"@.len() == 17,
        "unique_passed_asn"@[13] == '_',
        "unique_passed_asn"@[16] == 'n',
        "unique_passed_asn"@[3] == 'q',
        "unique_passed_asn"@[7] == 'p',
        "top_blocked_asn"@.len() == 15,
        "top_blocked_asn"@[13] == 's',
        "top_blocked_asn"@[3] == '_',
        "top_blocked_asn"@[7] == 'c',
        "top_passed_asn"@.len() == 14,
        "top_passed_asn"@[13] == 'n',
        "top_passed_asn"@[3] == '_',
        "top_passed_asn"@[7] == 's',
        "status"@.len() == 6,
        "status"@[3] == 't',
        "status_classes"@.len() == 14,
        "status_classes"@[13] == 's',
        "status_classes"@[3] == 't',
        "status_classes"@[7] == 'c',
        "methods"@.len() == 7,
        "methods"@[3] == 'h',
        "top_tags"@.len() == 8,
        "top_tags"@[3] == '_',
        "top_tags"@[7] == 's',
        "top_request_per_cookies"@.len() == 23,
        "top_request_per_cookies"@[13] == 'e',
        "top_request_per_cookies"@[16] == 'c',
        "top_request_per_cookies"@[3] == '_',
        "top_request_per_cookies"@[7] == 'u',
        "top_max_cookies_per_request"@.len() == 27,
        "top_max_cookies_per_request"@[13] == 'e',
        "top_max_cookies_per_request"@[16] == 'p',
        "top_max_cookies_per_request"@[3] == '_',
        "top_max_cookies_per_request"@[23] == 'u',
        "top_max_cookies_per_request"@[7] == '_',
        "top_request_per_args"@.len() == 20,
        "top_request_per_args"@[13] == 'e',
        "top_request_per_args"@[16] == 'a',
        "top_request_per_args"@[3] == '_',
        "top_request_per_args"@[7] == 'u',
        "top_max_args_per_request"@.len() == 24,
        "top_max_args_per_request"@[13] == 'p',
        "top_max_args_per_request"@[16] == '_',
        "top_max_args_per_request"@[3] == '_',
        "top_max_args_per_request"@[23] == 't',
        "top_max_args_per_request"@[7] == '_',
        "top_request_per_headers"@.len() == 23,
        "top_request_per_headers"@[13] == 'e',
        "top_request_per_headers"@[16] == 'h',
        "top_request_per_headers"@[3] == '_',
        "top_request_per_headers"@[7] == 'u',
        "top_max_headers_per_request"@.len() == 27,
        "top_max_headers_per_request"@[13] == 'r',
        "top_max_headers_per_request"@[16] == 'p',
        "top_max_headers_per_request"@[3] == '_',
        "top_max_headers_per_request"@[23] == 'u',
        "top_max_headers_per_request"@[7] == '_',
        "top_ip_per_unique_uri"@.len() == 21,
        "top_ip_per_unique_uri"@[13] == 'i',
        "top_ip_per_unique_uri"@[16] == 'e',
        "top_ip_per_unique_uri"@[3] == '_',
        "top_ip_per_unique_uri"@[7] == 'p',
        "top_uri_per_unique_ip"@.len() == 21,
        "top_uri_per_unique_ip"@[13] == 'n',
        "top_uri_per_unique_ip"@[16] == 'u',
        "top_uri_per_unique_ip"@[3] == '_',
        "top_uri_per_unique_ip"@[7] == '_',
        "top_session_per_unique_uri"@.len() == 26,
        "top_session_per_unique_uri"@[13] == 'e',
        "top_session_per_unique_uri"@[16] == 'u',
        "top_session_per_unique_uri"@[3] == '_',
        "top_session_per_unique_uri"@[23] == 'u',
        "top_session_per_unique_uri"@[7] == 's',
        "top_uri_per_unique_session"@.len() == 26,
        "top_uri_per_unique_session"@[13] == 'n',
        "top_uri_per_unique_session"@[16] == 'u',
        "top_uri_per_unique_session"@[3] == '_',
        "top_uri_per_unique_session"@[23] == 'i',
        "top_uri_per_unique_session"@[7] == '_',
{
    lemma_decision_names();
    lemma_trigger_names();
    lemma_value_names();
    lemma_size_names();
}

proof fn lemma_small_names()
    ensures
        "headers"@.len() == 7,
        "uri"@.len() == 3,
        "args"@.len() == 4,
        "body"@.len() == 4,
        "attrs"@.len() == 5,
        "args"@[0] == 'a',
        "body"@[0] == 'b',
        "min"@.len() == 3,
        "max"@.len() == 3,
        "average"@.len() == 7,
        "min"@[1] == 'i',
        "max"@[1] == 'a',
        "timestamp"@.len() == 9,
        "proxy"@.len() == 5,
        "secpolid"@.len() == 8,
        "secpolentryid"@.len() == 13,
        "counters"@.len() == 8,
        "secpolid"@[0] == 's',
        "counters"@[0] == 'c',
{
    reveal_strlit("headers");
    reveal_strlit("uri");
    reveal_strlit("args");
    reveal_strlit("body");
    reveal_strlit("attrs");
    reveal_strlit("min");
    reveal_strlit("max");
    reveal_strlit("average");
    reveal_strlit("timestamp");
    reveal_strlit("proxy");
    reveal_strlit("secpolid");
    reveal_strlit("secpolentryid");
    reveal_strlit("counters");
}

/// The numbers of decisions and the tables of rules, profiles and policies stand under their own
/// names.
pub proof fn law_decision_members(c: CountersView, e: Estimates, average: Json, n: nat)
    ensures
        ({
            let doc = counters_json(c, e, average, n);
            &&& member(doc, "hits"@, Json::Number(c.hits as int))
            &&& member(doc, "blocks"@, Json::Number(c.blocks as int))
            &&& member(doc, "report"@, Json::Number(c.report as int))
            &&& member(doc, "bot"@, Json::Number(c.bot as int))
            &&& member(doc, "human"@, Json::Number(c.human as int))
            &&& member(doc, "challenge"@, Json::Number(c.challenge as int))
            &&& member(
                doc,
                "cf_top_ruleid_active"@,
                rows_json::<String>(top_rows::<String>(c.ruleid_active.counts, n)),
            )
            &&& member(
                doc,
                "cf_top_ruleid_report"@,
                rows_json::<String>(top_rows::<String>(c.ruleid_report.counts, n)),
            )
            &&& member(
                doc,
                "cf_top_aclid_active"@,
                rows_json::<String>(top_rows::<String>(c.aclid_active.counts, n)),
            )
            &&& member(
                doc,
                "cf_top_aclid_report"@,
                rows_json::<String>(top_rows::<String>(c.aclid_report.counts, n)),
            )
            &&& member(
                doc,
                "cf_top_secpolid_active"@,
                rows_json::<String>(top_rows::<String>(c.secpolid_active.counts, n)),
            )
            &&& member(
                doc,
                "cf_top_secpolid_report"@,
                rows_json::<String>(top_rows::<String>(c.secpolid_report.counts, n)),
            )
            &&& member(
                doc,
                "cf_top_secpolentryid_active"@,
                rows_json::<String>(top_rows::<String>(c.secpolentryid_active.counts, n)),
            )
            &&& member(
                doc,
                "cf_top_secpolentryid_report"@,
                rows_json::<String>(top_rows::<String>(c.secpolentryid_report.counts, n)),
            )
            &&& member(
                doc,
                "cf_risk_level_active"@,
                rows_json::<u8>(key_rows::<u8>(c.risk_level_active)),
            )
            &&& member(
                doc,
                "cf_risk_level_report"@,
                rows_json::<u8>(key_rows::<u8>(c.risk_level_report)),
            )
            &&& inner(
                doc,
                "cf_section_active"@,
                "headers"@,
                Json::Number(c.location_active.headers as int),
            )
            &&& inner(
                doc,
                "cf_section_active"@,
                "uri"@,
                Json::Number(c.location_active.uri as int),
            )
            &&& inner(
                doc,
                "cf_section_active"@,
                "args"@,
                Json::Number(c.location_active.args as int),
            )
            &&& inner(
                doc,
                "cf_section_active"@,
                "body"@,
                Json::Number(c.location_active.body as int),
            )
            &&& inner(
                doc,
                "cf_section_active"@,
                "attrs"@,
                Json::Number(c.location_active.attrs as int),
            )
            &&& inner(
                doc,
                "cf_section_report"@,
                "headers"@,
                Json::Number(c.location_report.headers as int),
            )
            &&& inner(
                doc,
                "cf_section_report"@,
                "uri"@,
                Json::Number(c.location_report.uri as int),
            )
            &&& inner(
                doc,
                "cf_section_report"@,
                "args"@,
                Json::Number(c.location_report.args as int),
            )
            &&& inner(
                doc,
                "cf_section_report"@,
                "body"@,
                Json::Number(c.location_report.body as int),
            )
            &&& inner(
                doc,
                "cf_section_report"@,
                "attrs"@,
                Json::Number(c.location_report.attrs as int),
            )
        }),
{
    lemma_names();
    lemma_joined_names();
    lemma_small_names();
}

/// The counters of rules and the processing times stand under their own names.
pub proof fn law_trigger_members(c: CountersView, e: Estimates, average: Json, n: nat)
    ensures
        ({
            let doc = counters_json(c, e, average, n);
            &&& member(
                doc,
                "requests_triggered_globalfilter_active"@,
                Json::Number(c.requests_triggered_globalfilter_active as int),
            )
            &&& member(
                doc,
                "requests_triggered_globalfilter_report"@,
                Json::Number(c.requests_triggered_globalfilter_report as int),
            )
            &&& member(
                doc,
                "requests_triggered_cf_active"@,
                Json::Number(c.requests_triggered_cf_active as int),
            )
            &&& member(
                doc,
                "requests_triggered_cf_report"@,
                Json::Number(c.requests_triggered_cf_report as int),
            )
            &&& member(
                doc,
                "requests_triggered_acl_active"@,
                Json::Number(c.requests_triggered_acl_active as int),
            )
            &&& member(
                doc,
                "requests_triggered_acl_report"@,
                Json::Number(c.requests_triggered_acl_report as int),
            )
            &&& member(
                doc,
                "requests_triggered_ratelimit_active"@,
                Json::Number(c.requests_triggered_ratelimit_active as int),
            )
            &&& member(
                doc,
                "requests_triggered_ratelimit_report"@,
                Json::Number(c.requests_triggered_ratelimit_report as int),
            )
            &&& inner(
                doc,
                "processing_time"@,
                "min"@,
                Json::Number(
                    if c.processing_time.n_sample == 0 {
                        0
                    } else {
                        c.processing_time.min as int
                    },
                ),
            )
            &&& inner(
                doc,
                "processing_time"@,
                "max"@,
                Json::Number(
                    if c.processing_time.n_sample == 0 {
                        0
                    } else {
                        c.processing_time.max as int
                    },
                ),
            )
            &&& inner(doc, "processing_time"@, "average"@, average)
        }),
{
    lemma_names();
    lemma_joined_names();
    lemma_small_names();
}

/// What the sketches gave and the frequent values stand under the names of their own parts.
pub proof fn law_value_members(c: CountersView, e: Estimates, average: Json, n: nat)
    ensures
        ({
            let doc = counters_json(c, e, average, n);
            &&& member(doc, "unique_ip"@, Json::Number(e.ip.unique as int))
            &&& member(doc, "unique_blocked_ip"@, Json::Number(e.ip.unique_blocked as int))
            &&& member(doc, "unique_passed_ip"@, Json::Number(e.ip.unique_passed as int))
            &&& member(
                doc,
                "top_blocked_ip"@,
                rows_json::<String>(top_rows::<String>(c.ip.top_blocked.counts, n)),
            )
            &&& member(
                doc,
                "top_passed_ip"@,
                rows_json::<String>(top_rows::<String>(c.ip.top_passed.counts, n)),
            )
            &&& member(doc, "unique_session"@, Json::Number(e.session.unique as int))
            &&& member(
                doc,
                "unique_blocked_session"@,
                Json::Number(e.session.unique_blocked as int),
            )
            &&& member(doc, "unique_passed_session"@, Json::Number(e.session.unique_passed as int))
            &&& member(
                doc,
                "top_blocked_session"@,
                rows_json::<String>(top_rows::<String>(c.session.top_blocked.counts, n)),
            )
            &&& member(
                doc,
                "top_passed_session"@,
                rows_json::<String>(top_rows::<String>(c.session.top_passed.counts, n)),
            )
            &&& member(doc, "unique_uri"@, Json::Number(e.uri.unique as int))
            &&& member(doc, "unique_blocked_uri"@, Json::Number(e.uri.unique_blocked as int))
            &&& member(doc, "unique_passed_uri"@, Json::Number(e.uri.unique_passed as int))
            &&& member(
                doc,
                "top_blocked_uri"@,
                rows_json::<String>(top_rows::<String>(c.uri.top_blocked.counts, n)),
            )
            &&& member(
                doc,
                "top_passed_uri"@,
                rows_json::<String>(top_rows::<String>(c.uri.top_passed.counts, n)),
            )
            &&& member(doc, "unique_user_agent"@, Json::Number(e.user_agent.unique as int))
            &&& member(
                doc,
                "unique_blocked_user_agent"@,
                Json::Number(e.user_agent.unique_blocked as int),
            )
            &&& member(
                doc,
                "unique_passed_user_agent"@,
                Json::Number(e.user_agent.unique_passed as int),
            )
            &&& member(
                doc,
                "top_blocked_user_agent"@,
                rows_json::<String>(top_rows::<String>(c.user_agent.top_blocked.counts, n)),
            )
            &&& member(
                doc,
                "top_passed_user_agent"@,
                rows_json::<String>(top_rows::<String>(c.user_agent.top_passed.counts, n)),
            )
            &&& member(doc, "unique_country"@, Json::Number(e.country.unique as int))
            &&& member(
                doc,
                "unique_blocked_country"@,
                Json::Number(e.country.unique_blocked as int),
            )
            &&& member(doc, "unique_passed_country"@, Json::Number(e.country.unique_passed as int))
            &&& member(
                doc,
                "top_blocked_country"@,
                rows_json::<String>(top_rows::<String>(c.country.top_blocked.counts, n)),
            )
            &&& member(
                doc,
                "top_passed_country"@,
                rows_json::<String>(top_rows::<String>(c.country.top_passed.counts, n)),
            )
            &&& member(doc, "unique_asn"@, Json::Number(e.asn.unique as int))
            &&& member(doc, "unique_blocked_asn"@, Json::Number(e.asn.unique_blocked as int))
            &&& member(doc, "unique_passed_asn"@, Json::Number(e.asn.unique_passed as int))
            &&& member(
                doc,
                "top_blocked_asn"@,
                rows_json::<u32>(top_rows::<u32>(c.asn.top_blocked.counts, n)),
            )
            &&& member(
                doc,
                "top_passed_asn"@,
                rows_json::<u32>(top_rows::<u32>(c.asn.top_passed.counts, n)),
            )
        }),
{
    lemma_names();
    lemma_joined_names();
}

/// The answers, the tags and the sizes of the requests stand under their own names.
pub proof fn law_size_members(c: CountersView, e: Estimates, average: Json, n: nat)
    ensures
        ({
            let doc = counters_json(c, e, average, n);
            &&& member(doc, "status"@, texts_json(text_rows::<u32>(top_rows::<u32>(c.status, n))))
            &&& member(
                doc,
                "status_classes"@,
                texts_json(text_rows::<u8>(top_rows::<u8>(c.status_classes, n))),
            )
            &&& member(
                doc,
                "methods"@,
                texts_json(text_rows::<String>(top_rows::<String>(c.methods, n))),
            )
            &&& member(
                doc,
                "top_tags"@,
                rows_json::<String>(top_rows::<String>(c.top_tags.counts, n)),
            )
            &&& member(
                doc,
                "top_request_per_cookies"@,
                texts_json(text_rows::<usize>(top_rows::<usize>(c.cookies_amount, n))),
            )
            &&& member(
                doc,
                "top_max_cookies_per_request"@,
                texts_json(max_rows::<usize>(c.cookies_amount, n)),
            )
            &&& member(
                doc,
                "top_request_per_args"@,
                texts_json(text_rows::<usize>(top_rows::<usize>(c.args_amount, n))),
            )
            &&& member(
                doc,
                "top_max_args_per_request"@,
                texts_json(max_rows::<usize>(c.args_amount, n)),
            )
            &&& member(
                doc,
                "top_request_per_headers"@,
                texts_json(text_rows::<usize>(top_rows::<usize>(c.headers_amount, n))),
            )
            &&& member(
                doc,
                "top_max_headers_per_request"@,
                texts_json(max_rows::<usize>(c.headers_amount, n)),
            )
        }),
{
    lemma_names();
    lemma_joined_names();
}

/// What was seen together stands under its own name: what the sketches gave, the most first.
pub proof fn law_pair_members(c: CountersView, e: Estimates, average: Json, n: nat)
    ensures
        ({
            let doc = counters_json(c, e, average, n);
            &&& member(
                doc,
                "top_ip_per_unique_uri"@,
                rows_json::<String>(top_rows::<String>(e.ip_per_uri.counts(), n)),
            )
            &&& member(
                doc,
                "top_uri_per_unique_ip"@,
                rows_json::<String>(top_rows::<String>(e.uri_per_ip.counts(), n)),
            )
            &&& member(
                doc,
                "top_session_per_unique_uri"@,
                rows_json::<String>(top_rows::<String>(e.session_per_uri.counts(), n)),
            )
            &&& member(
                doc,
                "top_uri_per_unique_session"@,
                rows_json::<String>(top_rows::<String>(e.uri_per_session.counts(), n)),
            )
        }),
{
    lemma_names();
    lemma_joined_names();
}

/// A series has its range and its mean under their names, and zeros where it has no sample.
pub proof fn law_series_members(m: IntegerMetric, average: Json)
    ensures
        ({
            let doc = integer_json(m, average);
            &&& m.n_sample > 0 ==> member(doc, "min"@, Json::Number(m.min as int))
            &&& m.n_sample > 0 ==> member(doc, "max"@, Json::Number(m.max as int))
            &&& m.n_sample == 0 ==> member(doc, "min"@, Json::Number(0))
            &&& m.n_sample == 0 ==> member(doc, "max"@, Json::Number(0))
            &&& member(doc, "average"@, average)
            &&& doc->Object_0.dom() == set!["min"@, "max"@, "average"@]
        }),
{
    lemma_small_names();
    assert(integer_json(m, average)->Object_0.dom() =~= set!["min"@, "max"@, "average"@]);
}

/// The sections stand under their own names.
pub proof fn law_section_members(s: SectionView)
    ensures
        ({
            let doc = section_json(s);
            &&& member(doc, "headers"@, Json::Number(s.headers as int))
            &&& member(doc, "uri"@, Json::Number(s.uri as int))
            &&& member(doc, "args"@, Json::Number(s.args as int))
            &&& member(doc, "body"@, Json::Number(s.body as int))
            &&& member(doc, "attrs"@, Json::Number(s.attrs as int))
            &&& doc->Object_0.dom() == set!["headers"@, "uri"@, "args"@, "body"@, "attrs"@]
        }),
{
    lemma_small_names();
    assert(section_json(s)->Object_0.dom() =~= set![
        "headers"@,
        "uri"@,
        "args"@,
        "body"@,
        "attrs"@,
    ]);
}

/// A metric adds its own members, each named after the part of the request, and leaves the others.
pub proof fn law_metric_members<T: Key>(
    members: Map<Seq<char>, Json>,
    tp: Seq<char>,
    m: MetricView<T::V>,
    e: MetricEstimate,
    n: nat,
    other: Seq<char>,
)
    ensures
        ({
            let doc = Json::Object(metric_members::<T>(members, tp, m, e, n));
            &&& member(doc, "unique_"@ + tp, Json::Number(e.unique as int))
            &&& member(doc, "unique_blocked_"@ + tp, Json::Number(e.unique_blocked as int))
            &&& member(doc, "unique_passed_"@ + tp, Json::Number(e.unique_passed as int))
            &&& member(
                doc,
                "top_blocked_"@ + tp,
                rows_json::<T>(top_rows::<T>(m.top_blocked.counts, n)),
            )
            &&& member(
                doc,
                "top_passed_"@ + tp,
                rows_json::<T>(top_rows::<T>(m.top_passed.counts, n)),
            )
            &&& other != "unique_"@ + tp && other != "unique_blocked_"@ + tp && other
                != "unique_passed_"@ + tp && other != "top_blocked_"@ + tp && other
                != "top_passed_"@ + tp ==> (doc->Object_0.contains_key(other)
                <==> members.contains_key(other)) && (members.contains_key(other)
                ==> doc->Object_0[other] == members[other])
        }),
{
    reveal_strlit("unique_");
    reveal_strlit("unique_blocked_");
    reveal_strlit("unique_passed_");
    reveal_strlit("top_blocked_");
    reveal_strlit("top_passed_");
    assert(("unique_"@ + tp).len() == 7 + tp.len());
    assert(("unique_blocked_"@ + tp).len() == 15 + tp.len());
    assert(("unique_passed_"@ + tp).len() == 14 + tp.len());
    assert(("top_blocked_"@ + tp).len() == 12 + tp.len());
    assert(("top_passed_"@ + tp).len() == 11 + tp.len());
}

/// An entry of a document has its second, its key part by part, and its counters under their names.
pub proof fn law_entry_members(timestamp: Json, hdr: KeyView, counters: Json)
    ensures
        ({
            let doc = entry_json(timestamp, hdr, counters);
            &&& member(doc, "timestamp"@, timestamp)
            &&& hdr.proxy is None ==> member(doc, "proxy"@, Json::Null)
            &&& hdr.proxy matches Some(name) ==> member(doc, "proxy"@, Json::Text(name))
            &&& member(doc, "secpolid"@, Json::Text(hdr.secpolid))
            &&& member(doc, "secpolentryid"@, Json::Text(hdr.secpolentryid))
            &&& member(doc, "counters"@, counters)
            &&& doc->Object_0.dom() == set![
                "timestamp"@,
                "proxy"@,
                "secpolid"@,
                "secpolentryid"@,
                "counters"@,
            ]
        }),
{
    lemma_small_names();
    assert(entry_json(timestamp, hdr, counters)->Object_0.dom() =~= set![
        "timestamp"@,
        "proxy"@,
        "secpolid"@,
        "secpolentryid"@,
        "counters"@,
    ]);
}

/// A document has one entry for each row, in their order: the second as text, the parts of the key,
/// and the counters with their own estimates and their own mean.
pub proof fn law_document(
    rows: Seq<RowView>,
    estimates: Seq<Estimates>,
    averages: Seq<Json>,
    n: nat,
    i: int,
)
    requires
        0 <= i < rows.len(),
    ensures
        ({
            let docs = document_json(rows, estimates, averages, n);
            &&& docs.len() == rows.len()
            &&& member(docs[i], "timestamp"@, Json::Text(timestamp_text(rows[i].secs)))
            &&& rows[i].key.proxy is None ==> member(docs[i], "proxy"@, Json::Null)
            &&& rows[i].key.proxy matches Some(name) ==> member(
                docs[i],
                "proxy"@,
                Json::Text(name),
            )
            &&& member(docs[i], "secpolid"@, Json::Text(rows[i].key.secpolid))
            &&& member(docs[i], "secpolentryid"@, Json::Text(rows[i].key.secpolentryid))
            &&& member(
                docs[i],
                "counters"@,
                counters_json(rows[i].counters, estimates[i], averages[i], n),
            )
        }),
{
    let docs = document_json(rows, estimates, averages, n);
    law_entry_members(
        Json::Text(timestamp_text(rows[i].secs)),
        rows[i].key,
        counters_json(rows[i].counters, estimates[i], averages[i], n),
    );
}

/// Whether three numbers are such as the sketches of a metric of texts may give.
pub open spec fn texts_estimated(m: MetricView<Seq<char>>, e: MetricEstimate) -> bool {
    &&& text_estimate(m.bits, m.unique, e.unique as nat)
    &&& text_estimate(m.bits, m.unique_blocked, e.unique_blocked as nat)
    &&& text_estimate(m.bits, m.unique_passed, e.unique_passed as nat)
    &&& m.unique.is_empty() ==> e.unique == 0
    &&& m.unique_blocked.is_empty() ==> e.unique_blocked == 0
    &&& m.unique_passed.is_empty() ==> e.unique_passed == 0
}

/// The estimates of a second come from the sketches of their own parts, each for the values that
/// were seen there.
pub proof fn law_estimates(c: CountersView, e: Estimates, key: Seq<char>)
    requires
        e.possible(c),
    ensures
        texts_estimated(c.ip, e.ip),
        texts_estimated(c.session, e.session),
        texts_estimated(c.uri, e.uri),
        texts_estimated(c.user_agent, e.user_agent),
        texts_estimated(c.country, e.country),
        number_estimate(c.asn.bits, c.asn.unique, e.asn.unique as nat),
        number_estimate(c.asn.bits, c.asn.unique_blocked, e.asn.unique_blocked as nat),
        number_estimate(c.asn.bits, c.asn.unique_passed, e.asn.unique_passed as nat),
        c.asn.unique.is_empty() ==> e.asn.unique == 0,
        c.asn.unique_blocked.is_empty() ==> e.asn.unique_blocked == 0,
        c.asn.unique_passed.is_empty() ==> e.asn.unique_passed == 0,
        e.ip_per_uri.counts().contains_key(key) <==> c.ip_per_uri.seen.contains_key(key),
        c.ip_per_uri.seen.contains_key(key) ==> text_estimate(
            c.ip_per_uri.bits,
            c.ip_per_uri.seen[key],
            e.ip_per_uri.counts()[key],
        ),
        e.uri_per_ip.counts().contains_key(key) <==> c.uri_per_ip.seen.contains_key(key),
        c.uri_per_ip.seen.contains_key(key) ==> text_estimate(
            c.uri_per_ip.bits,
            c.uri_per_ip.seen[key],
            e.uri_per_ip.counts()[key],
        ),
        e.session_per_uri.counts().contains_key(key) <==> c.session_per_uri.seen.contains_key(key),
        c.session_per_uri.seen.contains_key(key) ==> text_estimate(
            c.session_per_uri.bits,
            c.session_per_uri.seen[key],
            e.session_per_uri.counts()[key],
        ),
        e.uri_per_session.counts().contains_key(key) <==> c.uri_per_session.seen.contains_key(key),
        c.uri_per_session.seen.contains_key(key) ==> text_estimate(
            c.uri_per_session.bits,
            c.uri_per_session.seen[key],
            e.uri_per_session.counts()[key],
        ),
{
    assert forall|s: Set<Seq<char>>| s.is_empty() implies s == Set::<Seq<char>>::empty() by {
        assert(s =~= Set::empty());
    }
    assert(c.asn.unique.is_empty() ==> c.asn.unique =~= Set::empty());
    assert(c.asn.unique_blocked.is_empty() ==> c.asn.unique_blocked =~= Set::empty());
    assert(c.asn.unique_passed.is_empty() ==> c.asn.unique_passed =~= Set::empty());
    assert(e.ip_per_uri.counts().dom().contains(key) == c.ip_per_uri.seen.dom().contains(key));
    assert(e.uri_per_ip.counts().dom().contains(key) == c.uri_per_ip.seen.dom().contains(key));
    assert(e.session_per_uri.counts().dom().contains(key) == c.session_per_uri.seen.dom().contains(key));
    assert(e.uri_per_session.counts().dom().contains(key) == c.uri_per_session.seen.dom().contains(key));
}

/// The estimates of a document are those of its rows, in their order.
pub proof fn law_all_estimates(rows: Seq<RowView>, estimates: Seq<Estimates>, i: int)
    requires
        all_possible(rows, estimates),
        0 <= i < rows.len(),
    ensures
        estimates.len() == rows.len(),
        estimates[i].possible(rows[i].counters),
{
}

/// What a document says of requests, looked up by name: how many there were, how many were blocked,
/// and the rankings of what the blocked ones and the others name.
pub proof fn law_requests_written(
    bits: nat,
    k: nat,
    requests: Seq<Request>,
    e: Estimates,
    average: Json,
    n: nat,
)
    ensures
        ({
            let c = after_requests(CountersView::empty(bits, k), requests);
            let doc = counters_json(c, e, average, n);
            let policy = |r: Request| r.rinfo.secpolicy_id@;
            let entry = |r: Request| r.rinfo.secpolicy_entry_id@;
            let ip = |r: Request| r.rinfo.ip@;
            let session = |r: Request| r.rinfo.session@;
            let uri = |r: Request| r.rinfo.uri@;
            &&& member(doc, "hits"@, Json::Number(requests.len() as int))
            &&& member(doc, "blocks"@, Json::Number(parts(requests, true, uri).len() as int))
            &&& member(doc, "report"@, Json::Number(parts(requests, false, uri).len() as int))
            &&& member(
                doc,
                "cf_top_secpolid_active"@,
                frequent(k, parts(requests, true, policy), n),
            )
            &&& member(
                doc,
                "cf_top_secpolid_report"@,
                frequent(k, parts(requests, false, policy), n),
            )
            &&& member(
                doc,
                "cf_top_secpolentryid_active"@,
                frequent(k, parts(requests, true, entry), n),
            )
            &&& member(
                doc,
                "cf_top_secpolentryid_report"@,
                frequent(k, parts(requests, false, entry), n),
            )
            &&& member(doc, "top_blocked_ip"@, frequent(k, parts(requests, true, ip), n))
            &&& member(doc, "top_passed_ip"@, frequent(k, parts(requests, false, ip), n))
            &&& member(doc, "top_blocked_session"@, frequent(k, parts(requests, true, session), n))
            &&& member(doc, "top_passed_session"@, frequent(k, parts(requests, false, session), n))
            &&& member(doc, "top_blocked_uri"@, frequent(k, parts(requests, true, uri), n))
            &&& member(doc, "top_passed_uri"@, frequent(k, parts(requests, false, uri), n))
        }),
{
    let c = after_requests(CountersView::empty(bits, k), requests);
    law_decision_members(c, e, average, n);
    law_value_members(c, e, average, n);
    law_tables(bits, k, requests);
    law_hits(bits, k, requests);
    lemma_parts_len(requests);
}

/// The ranking of the frequent values of a stream, counted with `k` counters.
pub open spec fn frequent(k: nat, stream: Seq<Seq<char>>, n: nat) -> Json {
    rows_json::<String>(
        top_rows::<String>(TopView::<Seq<char>>::empty(k).inc_all(stream).counts, n),
    )
}

proof fn lemma_parts_len(requests: Seq<Request>)
    ensures
        ({
            let uri = |r: Request| r.rinfo.uri@;
            &&& parts(requests, true, uri).len() == how_many(
                requests,
                |r: Request| outcome_of(r.reasons).blocked,
            )
            &&& parts(requests, true, uri).len() + parts(requests, false, uri).len()
                == requests.len()
        }),
    decreases requests.len(),
{
    if requests.len() > 0 {
        lemma_parts_len(requests.drop_last());
    }
}

} // verus!
