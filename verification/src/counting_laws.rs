//! What one request changes in the counters of a second, counter by counter.
//!
//! The laws speak of the parts of the request themselves: of the initiators and decisions of its
//! matches, of its fields, of its tags.

use crate::counters::{
    bag_add_all, by_rule, counts_as, has_acl, has_block, has_rule, has_skip, header_value,
    is_challenge, is_listed, is_tag, lies_in, outcome_of, risk_levels, rule_ids, section_hits, AggSection,
    AggregatedCounters, CountersView, Section, Trigger,
};
use crate::laws::{after_request, after_requests, Request};
use crate::metric::{MetricView, UniqueView};
use crate::request::{BlockReason, Initiator, Location};
use crate::top::TopView;
use vstd::prelude::*;

verus! {

/// Whether some element has a property.
pub open spec fn any<A>(s: Seq<A>, p: spec_fn(A) -> bool) -> bool {
    exists|i: int| 0 <= i < s.len() && p(#[trigger] s[i])
}

/// What a map of counts holds for a value.
pub open spec fn held<A>(m: Map<A, nat>, a: A) -> nat {
    if m.contains_key(a) {
        m[a]
    } else {
        0
    }
}

proof fn lemma_filter_same<A>(s: Seq<A>, p: spec_fn(A) -> bool, q: spec_fn(A) -> bool)
    requires
        forall|i: int| 0 <= i < s.len() ==> p(#[trigger] s[i]) == q(s[i]),
    ensures
        s.filter(p) == s.filter(q),
    decreases s.len(),
{
    reveal(Seq::filter);
    if s.len() > 0 {
        let front = s.drop_last();
        assert forall|i: int| 0 <= i < front.len() implies p(#[trigger] front[i]) == q(front[i]) by {
            assert(front[i] == s[i]);
        }
        lemma_filter_same(front, p, q);
        assert(p(s[s.len() - 1]) == q(s[s.len() - 1]));
    }
}

/// How the counters of rules grow: by the matches of their own initiators, those that block in the
/// active counters and all others in the reporting ones.
pub proof fn law_rule_counters(c: CountersView, r: Request)
    ensures
        ({
            let d = after_request(c, r);
            let m = r.reasons;
            &&& d.requests_triggered_globalfilter_active
                == c.requests_triggered_globalfilter_active + m.filter(
                |m: BlockReason| m.initiator is GlobalFilter && m.decision is Blocking,
            ).len()
            &&& d.requests_triggered_globalfilter_report
                == c.requests_triggered_globalfilter_report + m.filter(
                |m: BlockReason| m.initiator is GlobalFilter && !(m.decision is Blocking),
            ).len()
            &&& d.requests_triggered_ratelimit_active == c.requests_triggered_ratelimit_active
                + m.filter(
                |m: BlockReason| m.initiator is Limit && m.decision is Blocking,
            ).len()
            &&& d.requests_triggered_ratelimit_report == c.requests_triggered_ratelimit_report
                + m.filter(
                |m: BlockReason| m.initiator is Limit && !(m.decision is Blocking),
            ).len()
            &&& d.requests_triggered_acl_active == c.requests_triggered_acl_active + m.filter(
                |m: BlockReason|
                    (m.initiator is Acl || m.initiator is Phase02) && m.decision is Blocking,
            ).len()
            &&& d.requests_triggered_acl_report == c.requests_triggered_acl_report + m.filter(
                |m: BlockReason|
                    (m.initiator is Acl || m.initiator is Phase02) && !(m.decision is Blocking),
            ).len()
            &&& d.requests_triggered_cf_active == c.requests_triggered_cf_active + m.filter(
                |m: BlockReason| content_check(m.initiator) && m.decision is Blocking,
            ).len()
            &&& d.requests_triggered_cf_report == c.requests_triggered_cf_report + m.filter(
                |m: BlockReason| content_check(m.initiator) && !(m.decision is Blocking),
            ).len()
            &&& d.challenge == c.challenge + m.filter(
                |m: BlockReason| m.initiator is Phase02,
            ).len()
        }),
{
    let m = r.reasons;
    lemma_filter_same(
        m,
        counts_as(Trigger::GlobalFilter, true),
        |m: BlockReason| m.initiator is GlobalFilter && m.decision is Blocking,
    );
    lemma_filter_same(
        m,
        counts_as(Trigger::GlobalFilter, false),
        |m: BlockReason| m.initiator is GlobalFilter && !(m.decision is Blocking),
    );
    lemma_filter_same(
        m,
        counts_as(Trigger::RateLimit, true),
        |m: BlockReason| m.initiator is Limit && m.decision is Blocking,
    );
    lemma_filter_same(
        m,
        counts_as(Trigger::RateLimit, false),
        |m: BlockReason| m.initiator is Limit && !(m.decision is Blocking),
    );
    lemma_filter_same(
        m,
        counts_as(Trigger::Acl, true),
        |m: BlockReason|
            (m.initiator is Acl || m.initiator is Phase02) && m.decision is Blocking,
    );
    lemma_filter_same(
        m,
        counts_as(Trigger::Acl, false),
        |m: BlockReason|
            (m.initiator is Acl || m.initiator is Phase02) && !(m.decision is Blocking),
    );
    lemma_filter_same(
        m,
        counts_as(Trigger::ContentFilter, true),
        |m: BlockReason| content_check(m.initiator) && m.decision is Blocking,
    );
    lemma_filter_same(
        m,
        counts_as(Trigger::ContentFilter, false),
        |m: BlockReason| content_check(m.initiator) && !(m.decision is Blocking),
    );
    lemma_filter_same(m, is_challenge(), |m: BlockReason| m.initiator is Phase02);
}

/// The initiators that check the content of a request.
pub open spec fn content_check(initiator: Initiator) -> bool {
    ||| initiator is ContentFilter
    ||| initiator is BodyTooDeep
    ||| initiator is BodyMissing
    ||| initiator is BodyMalformed
    ||| initiator is Sqli
    ||| initiator is Xss
    ||| initiator is Restricted
    ||| initiator is TooManyEntries
    ||| initiator is EntryTooLarge
}

/// How many parts of a sort the matches name that block, or that do not.
pub open spec fn parts_named(
    reasons: Seq<BlockReason>,
    active: bool,
    sort: spec_fn(Location) -> bool,
) -> nat
    decreases reasons.len(),
{
    if reasons.len() == 0 {
        0
    } else {
        parts_named(reasons.drop_last(), active, sort) + if (reasons.last().decision is Blocking)
            == active {
            reasons.last().location@.filter(sort).len()
        } else {
            0
        }
    }
}

proof fn lemma_parts_named(
    reasons: Seq<BlockReason>,
    active: bool,
    s: Section,
    sort: spec_fn(Location) -> bool,
)
    requires
        forall|l: Location| #[trigger] sort(l) == lies_in(s)(l),
    ensures
        section_hits(reasons, active, s) == parts_named(reasons, active, sort),
    decreases reasons.len(),
{
    if reasons.len() > 0 {
        lemma_parts_named(reasons.drop_last(), active, s, sort);
        lemma_filter_same(reasons.last().location@, lies_in(s), sort);
    }
}

/// How the counters of sections grow: by the parts of their own sort that the matches name.
pub proof fn law_section_counters(c: CountersView, r: Request)
    ensures
        ({
            let d = after_request(c, r);
            let headers = |l: Location| l is Headers;
            let uri = |l: Location| l is Uri;
            let body = |l: Location| l is Body;
            let attrs = |l: Location| l is Attributes;
            let args = |l: Location|
                l is BodyArgument || l is RefererArgument || l is UriArgument;
            let m = r.reasons;
            &&& d.location_active.headers == c.location_active.headers + parts_named(m, true, headers)
            &&& d.location_active.uri == c.location_active.uri + parts_named(m, true, uri)
            &&& d.location_active.body == c.location_active.body + parts_named(m, true, body)
            &&& d.location_active.attrs == c.location_active.attrs + parts_named(m, true, attrs)
            &&& d.location_active.args == c.location_active.args + parts_named(m, true, args)
            &&& d.location_report.headers == c.location_report.headers + parts_named(
                m,
                false,
                headers,
            )
            &&& d.location_report.uri == c.location_report.uri + parts_named(m, false, uri)
            &&& d.location_report.body == c.location_report.body + parts_named(m, false, body)
            &&& d.location_report.attrs == c.location_report.attrs + parts_named(m, false, attrs)
            &&& d.location_report.args == c.location_report.args + parts_named(m, false, args)
        }),
{
    let headers = |l: Location| l is Headers;
    let uri = |l: Location| l is Uri;
    let body = |l: Location| l is Body;
    let attrs = |l: Location| l is Attributes;
    let args = |l: Location| l is BodyArgument || l is RefererArgument || l is UriArgument;
    lemma_parts_named(r.reasons, true, Section::Headers, headers);
    lemma_parts_named(r.reasons, true, Section::Uri, uri);
    lemma_parts_named(r.reasons, true, Section::Body, body);
    lemma_parts_named(r.reasons, true, Section::Attrs, attrs);
    lemma_parts_named(r.reasons, true, Section::Args, args);
    lemma_parts_named(r.reasons, false, Section::Headers, headers);
    lemma_parts_named(r.reasons, false, Section::Uri, uri);
    lemma_parts_named(r.reasons, false, Section::Body, body);
    lemma_parts_named(r.reasons, false, Section::Attrs, attrs);
    lemma_parts_named(r.reasons, false, Section::Args, args);
}

/// How the tables of content filter rules grow: by the rules that matched, in their order, and by
/// their risk levels.
pub proof fn law_rule_tables(c: CountersView, r: Request, level: u8)
    ensures
        ({
            let d = after_request(c, r);
            let active = |m: BlockReason| m.initiator is ContentFilter && m.decision is Blocking;
            let report = |m: BlockReason| m.initiator is ContentFilter && !(m.decision is Blocking);
            let id = |m: BlockReason| m.initiator->ruleid@;
            &&& d.ruleid_active == c.ruleid_active.inc_all(r.reasons.filter(active).map_values(id))
            &&& d.ruleid_report == c.ruleid_report.inc_all(r.reasons.filter(report).map_values(id))
            &&& held(d.risk_level_active, level) == held(c.risk_level_active, level)
                + r.reasons.filter(
                |m: BlockReason| active(m) && m.initiator->risk_level == level,
            ).len()
            &&& held(d.risk_level_report, level) == held(c.risk_level_report, level)
                + r.reasons.filter(
                |m: BlockReason| report(m) && m.initiator->risk_level == level,
            ).len()
            &&& d.risk_level_active.contains_key(level) == (c.risk_level_active.contains_key(level)
                || any(r.reasons, |m: BlockReason| active(m) && m.initiator->risk_level == level))
            &&& d.risk_level_report.contains_key(level) == (c.risk_level_report.contains_key(level)
                || any(r.reasons, |m: BlockReason| report(m) && m.initiator->risk_level == level))
        }),
{
    let active = |m: BlockReason| m.initiator is ContentFilter && m.decision is Blocking;
    let report = |m: BlockReason| m.initiator is ContentFilter && !(m.decision is Blocking);
    let id = |m: BlockReason| m.initiator->ruleid@;
    lemma_filter_same(r.reasons, by_rule(true), active);
    lemma_filter_same(r.reasons, by_rule(false), report);
    assert(rule_ids(r.reasons, true) =~= r.reasons.filter(active).map_values(id));
    assert(rule_ids(r.reasons, false) =~= r.reasons.filter(report).map_values(id));
    lemma_levels(
        c.risk_level_active,
        r.reasons,
        true,
        level,
        |m: BlockReason| active(m) && m.initiator->risk_level == level,
    );
    lemma_levels(
        c.risk_level_report,
        r.reasons,
        false,
        level,
        |m: BlockReason| report(m) && m.initiator->risk_level == level,
    );
}

proof fn lemma_levels(
    m: Map<u8, nat>,
    reasons: Seq<BlockReason>,
    active: bool,
    level: u8,
    p: spec_fn(BlockReason) -> bool,
)
    requires
        forall|r: BlockReason| #[trigger]
            p(r) == (r.initiator is ContentFilter && (r.decision is Blocking) == active
                && r.initiator->risk_level == level),
    ensures
        ({
            let d = bag_add_all(m, risk_levels(reasons, active));
            &&& held(d, level) == held(m, level) + reasons.filter(p).len()
            &&& d.contains_key(level) == (m.contains_key(level) || any(reasons, p))
        }),
    decreases reasons.len(),
{
    reveal(Seq::filter);
    if reasons.len() > 0 {
        let front = reasons.drop_last();
        let last = reasons.last();
        lemma_levels(m, front, active, level, p);
        let a = risk_levels(front, active);
        let b = risk_levels(reasons, active);
        if by_rule(active)(last) {
            assert(b =~= a.push(last.initiator->risk_level));
            assert(b.drop_last() =~= a);
        } else {
            assert(b =~= a);
        }
        assert(any(reasons, p) == (any(front, p) || p(last))) by {
            if any(front, p) {
                let i = choose|i: int| 0 <= i < front.len() && p(#[trigger] front[i]);
                assert(p(reasons[i]));
            }
            if p(last) {
                assert(p(reasons[reasons.len() - 1]));
            }
            if any(reasons, p) {
                let i = choose|i: int| 0 <= i < reasons.len() && p(#[trigger] reasons[i]);
                if i < front.len() {
                    assert(p(front[i]));
                }
            }
        }
    } else {
        assert(risk_levels(reasons, active) =~= Seq::empty());
    }
}

/// What the matches of a request come to, exactly.
pub proof fn law_outcome_exact(reasons: Seq<BlockReason>)
    ensures
        ({
            let o = outcome_of(reasons);
            let skipped = any(reasons, |m: BlockReason| m.decision is Skip);
            let blocked = any(reasons, |m: BlockReason| m.decision is Blocking);
            let acl_active = any(
                reasons,
                |m: BlockReason| m.initiator is Acl && m.decision is Blocking,
            );
            let acl_other = any(
                reasons,
                |m: BlockReason| m.initiator is Acl && !(m.decision is Blocking),
            );
            let cf_active = any(
                reasons,
                |m: BlockReason| m.initiator is ContentFilter && m.decision is Blocking,
            );
            let cf_other = any(
                reasons,
                |m: BlockReason| m.initiator is ContentFilter && !(m.decision is Blocking),
            );
            &&& o.blocked <==> blocked && !skipped
            &&& o.acl_blocked <==> acl_active && !skipped
            &&& o.acl_report <==> acl_other || (acl_active && !skipped)
            &&& o.cf_blocked <==> cf_active && !skipped
            &&& o.cf_report <==> cf_other || (cf_active && !skipped)
        }),
{
    lemma_any(reasons);
}

proof fn lemma_any(reasons: Seq<BlockReason>)
    ensures
        has_skip(reasons) == any(reasons, |m: BlockReason| m.decision is Skip),
        has_block(reasons) == any(reasons, |m: BlockReason| m.decision is Blocking),
        has_acl(reasons, true) == any(
            reasons,
            |m: BlockReason| m.initiator is Acl && m.decision is Blocking,
        ),
        has_acl(reasons, false) == any(
            reasons,
            |m: BlockReason| m.initiator is Acl && !(m.decision is Blocking),
        ),
        has_rule(reasons, true) == any(
            reasons,
            |m: BlockReason| m.initiator is ContentFilter && m.decision is Blocking,
        ),
        has_rule(reasons, false) == any(
            reasons,
            |m: BlockReason| m.initiator is ContentFilter && !(m.decision is Blocking),
        ),
{
}

/// Which profiles and policies a request counts for: those that it names, each in the table that
/// its matches call for. One hit, and one block or one report.
pub proof fn law_profiles(c: CountersView, r: Request)
    ensures
        ({
            let d = after_request(c, r);
            let i = r.rinfo;
            let skipped = any(r.reasons, |m: BlockReason| m.decision is Skip);
            let blocked = any(r.reasons, |m: BlockReason| m.decision is Blocking) && !skipped;
            let acl_active = any(
                r.reasons,
                |m: BlockReason| m.initiator is Acl && m.decision is Blocking,
            ) && !skipped;
            let acl_report = acl_active || any(
                r.reasons,
                |m: BlockReason| m.initiator is Acl && !(m.decision is Blocking),
            );
            let cf_active = any(
                r.reasons,
                |m: BlockReason| m.initiator is ContentFilter && m.decision is Blocking,
            ) && !skipped;
            let cf_report = cf_active || any(
                r.reasons,
                |m: BlockReason| m.initiator is ContentFilter && !(m.decision is Blocking),
            );
            &&& d.hits == c.hits + 1
            &&& blocked ==> d.blocks == c.blocks + 1 && d.report == c.report
            &&& !blocked ==> d.blocks == c.blocks && d.report == c.report + 1
            &&& counted_if(c.aclid_active, d.aclid_active, acl_active, i.acl_profile_id@)
            &&& counted_if(c.aclid_report, d.aclid_report, acl_report, i.acl_profile_id@)
            &&& counted_if(c.cfid_active, d.cfid_active, cf_active, i.content_filter_profile_id@)
            &&& counted_if(c.cfid_report, d.cfid_report, cf_report, i.content_filter_profile_id@)
            &&& counted_if(c.secpolid_active, d.secpolid_active, blocked, i.secpolicy_id@)
            &&& counted_if(c.secpolid_report, d.secpolid_report, !blocked, i.secpolicy_id@)
            &&& counted_if(
                c.secpolentryid_active,
                d.secpolentryid_active,
                blocked,
                i.secpolicy_entry_id@,
            )
            &&& counted_if(
                c.secpolentryid_report,
                d.secpolentryid_report,
                !blocked,
                i.secpolicy_entry_id@,
            )
        }),
{
    lemma_any(r.reasons);
}

/// Whether a table counted a value where it should, and stayed as it was elsewhere.
pub open spec fn counted_if<A>(before: TopView<A>, now: TopView<A>, yes: bool, n: A) -> bool {
    &&& yes ==> now == before.inc(n)
    &&& !yes ==> now == before
}

/// How the answer to a request and its sizes are counted: each value once more, and nothing else.
pub proof fn law_answer(c: CountersView, r: Request)
    ensures
        ({
            let d = after_request(c, r);
            let i = r.rinfo;
            &&& r.rcode is None ==> d.status == c.status && d.status_classes == c.status_classes
            &&& r.rcode matches Some(code) ==> {
                &&& once_more(c.status, d.status, code)
                &&& exists|class: u8|
                    class == (code / 100) % 256 && #[trigger] once_more(
                        c.status_classes,
                        d.status_classes,
                        class,
                    )
            }
            &&& once_more(c.methods, d.methods, i.method@)
            &&& once_more(c.args_amount, d.args_amount, i.args)
            &&& once_more(c.cookies_amount, d.cookies_amount, i.cookies)
            &&& once_more(c.headers_amount, d.headers_amount, i.headers@.len() as usize)
        }),
{
    if let Some(code) = r.rcode {
        let class = ((code / 100) % 256) as u8;
        assert(once_more(c.status_classes, after_request(c, r).status_classes, class));
    }
}

/// Whether a value is counted once more, and every other count stays.
pub open spec fn once_more<A>(before: Map<A, nat>, now: Map<A, nat>, n: A) -> bool {
    now == before.insert(n, held(before, n) + 1)
}

/// How the processing time of a request is counted: into the number, the sum and the range.
pub proof fn law_time(c: CountersView, r: Request)
    ensures
        ({
            let before = c.processing_time;
            let now = after_request(c, r).processing_time;
            &&& r.processing_time is None ==> now == before
            &&& r.processing_time matches Some(t) ==> before.n_sample < u64::MAX && i64::MIN
                <= before.total + t <= i64::MAX ==> {
                &&& now.n_sample == before.n_sample + 1
                &&& now.total == before.total + t
                &&& now.min <= t <= now.max
                &&& now.min <= before.min && before.max <= now.max
                &&& now.min == t || now.min == before.min
                &&& now.max == t || now.max == before.max
            }
        }),
{
}

/// Whether a metric counted a value: as seen, and among blocked requests or among those that passed.
pub open spec fn metric_counted<A>(
    before: MetricView<A>,
    now: MetricView<A>,
    n: A,
    blocked: bool,
) -> bool {
    &&& now.bits == before.bits
    &&& now.unique == before.unique.insert(n)
    &&& blocked ==> now.unique_blocked == before.unique_blocked.insert(n) && now.unique_passed
        == before.unique_passed
    &&& !blocked ==> now.unique_passed == before.unique_passed.insert(n) && now.unique_blocked
        == before.unique_blocked
    &&& counted_if(before.top_blocked, now.top_blocked, blocked, n)
    &&& counted_if(before.top_passed, now.top_passed, !blocked, n)
}

/// Whether header `i` is the first of a name.
pub open spec fn first_header(headers: Seq<(String, String)>, name: Seq<char>, i: int) -> bool {
    &&& 0 <= i < headers.len()
    &&& headers[i].0@ == name
    &&& forall|j: int| 0 <= j < i ==> (#[trigger] headers[j]).0@ != name
}

/// A header is looked up by its name: the first one of that name is found, and none where there is
/// none.
pub proof fn law_header(headers: Seq<(String, String)>, name: Seq<char>)
    ensures
        match header_value(headers, name) {
            Some(value) => exists|i: int| #[trigger]
                first_header(headers, name, i) && value == headers[i].1@,
            None => forall|i: int| 0 <= i < headers.len() ==> (#[trigger] headers[i]).0@ != name,
        },
    decreases headers.len(),
{
    if headers.len() > 0 {
        let rest = headers.drop_first();
        if headers[0].0@ == name {
            assert(first_header(headers, name, 0));
        } else {
            law_header(rest, name);
            match header_value(headers, name) {
                Some(value) => {
                    let i = choose|i: int| #[trigger]
                        first_header(rest, name, i) && value == rest[i].1@;
                    assert forall|j: int| 0 <= j < i + 1 implies (#[trigger] headers[j]).0@
                        != name by {
                        if j > 0 {
                            assert(rest[j - 1] == headers[j]);
                        }
                    }
                    assert(rest[i] == headers[i + 1]);
                    assert(first_header(headers, name, i + 1));
                },
                None => {
                    assert forall|i: int| 0 <= i < headers.len() implies (
                    #[trigger] headers[i]).0@ != name by {
                        if i > 0 {
                            assert(rest[i - 1] == headers[i]);
                        }
                    }
                },
            }
        }
    }
}

/// Which values the metrics of a request count: each that of its own part. A part that is missing
/// changes nothing.
pub proof fn law_values(c: CountersView, r: Request)
    ensures
        ({
            let d = after_request(c, r);
            let i = r.rinfo;
            let blocked = any(r.reasons, |m: BlockReason| m.decision is Blocking) && !any(
                r.reasons,
                |m: BlockReason| m.decision is Skip,
            );
            &&& metric_counted(c.ip, d.ip, i.ip@, blocked)
            &&& metric_counted(c.session, d.session, i.session@, blocked)
            &&& metric_counted(c.uri, d.uri, i.uri@, blocked)
            &&& i.country is None ==> d.country == c.country
            &&& i.country matches Some(country) ==> metric_counted(
                c.country,
                d.country,
                country@,
                blocked,
            )
            &&& i.asn is None ==> d.asn == c.asn
            &&& i.asn matches Some(asn) ==> metric_counted(c.asn, d.asn, asn, blocked)
            &&& forall|j: int| #[trigger]
                first_header(i.headers@, "user-agent"@, j) ==> metric_counted(
                    c.user_agent,
                    d.user_agent,
                    i.headers@[j].1@,
                    blocked,
                )
            &&& (forall|j: int| !#[trigger] first_header(i.headers@, "user-agent"@, j))
                ==> d.user_agent == c.user_agent
        }),
{
    lemma_any(r.reasons);
    let headers = r.rinfo.headers@;
    let name = "user-agent"@;
    law_header(headers, name);
    if let Some(value) = header_value(headers, name) {
        let i = choose|i: int| #[trigger] first_header(headers, name, i) && value == headers[i].1@;
        assert(first_header(headers, name, i));
        assert forall|j: int| #[trigger] first_header(headers, name, j) implies j == i by {
            if j < i {
                assert(headers[j].0@ != name);
            } else if i < j {
                assert(headers[i].0@ != name);
            }
        }
    }
}

/// How tags are counted: bots and humans by number, and in the table each tag without a value, but
/// for those that every request or every visitor of a kind has.
pub proof fn law_tag_counters(c: CountersView, r: Request)
    ensures
        ({
            let d = after_request(c, r);
            &&& d.bot == c.bot + r.tags.filter(|t: Seq<char>| t == "bot"@).len()
            &&& d.human == c.human + r.tags.filter(|t: Seq<char>| t == "human"@).len()
            &&& d.top_tags == c.top_tags.inc_all(
                r.tags.filter(
                    |t: Seq<char>|
                        t != "all"@ && t != "bot"@ && t != "human"@ && !t.contains(':'),
                ),
            )
        }),
{
    lemma_filter_same(r.tags, is_tag("bot"@), |t: Seq<char>| t == "bot"@);
    lemma_filter_same(r.tags, is_tag("human"@), |t: Seq<char>| t == "human"@);
    lemma_filter_same(
        r.tags,
        is_listed(),
        |t: Seq<char>| t != "all"@ && t != "bot"@ && t != "human"@ && !t.contains(':'),
    );
}

/// Whether a value was seen with a key.
pub open spec fn seen<A, B>(u: UniqueView<A, B>, n: A, by: B) -> bool {
    u.seen.contains_key(n) && u.seen[n].contains(by)
}

/// Which pairs a request adds: its address with its target, its session with its target, and the
/// other way round. No others.
pub proof fn law_pair_step(c: CountersView, r: Request, n: Seq<char>, by: Seq<char>)
    ensures
        ({
            let d = after_request(c, r);
            let ip = r.rinfo.ip@;
            let session = r.rinfo.session@;
            let uri = r.rinfo.uri@;
            &&& seen(d.ip_per_uri, n, by) <==> seen(c.ip_per_uri, n, by) || (n == ip && by == uri)
            &&& seen(d.uri_per_ip, n, by) <==> seen(c.uri_per_ip, n, by) || (n == uri && by == ip)
            &&& seen(d.session_per_uri, n, by) <==> seen(c.session_per_uri, n, by) || (n == session
                && by == uri)
            &&& seen(d.uri_per_session, n, by) <==> seen(c.uri_per_session, n, by) || (n == uri
                && by == session)
            &&& d.ip_per_uri.seen.contains_key(n) <==> c.ip_per_uri.seen.contains_key(n) || n == ip
            &&& d.uri_per_ip.seen.contains_key(n) <==> c.uri_per_ip.seen.contains_key(n) || n
                == uri
            &&& d.session_per_uri.seen.contains_key(n) <==> c.session_per_uri.seen.contains_key(n)
                || n == session
            &&& d.uri_per_session.seen.contains_key(n) <==> c.uri_per_session.seen.contains_key(n)
                || n == uri
            &&& d.ip_per_uri.bits == c.ip_per_uri.bits
            &&& d.uri_per_ip.bits == c.uri_per_ip.bits
            &&& d.session_per_uri.bits == c.session_per_uri.bits
            &&& d.uri_per_session.bits == c.uri_per_session.bits
        }),
{
}

/// What the pairings hold after some requests: for each target exactly the addresses and exactly
/// the sessions of the requests for it, for each address and each session exactly the targets of
/// its requests.
pub proof fn law_pairs(bits: nat, k: nat, requests: Seq<Request>, n: Seq<char>, by: Seq<char>)
    ensures
        ({
            let c = after_requests(CountersView::empty(bits, k), requests);
            &&& seen(c.ip_per_uri, n, by) <==> any(
                requests,
                |r: Request| r.rinfo.ip@ == n && r.rinfo.uri@ == by,
            )
            &&& seen(c.uri_per_ip, n, by) <==> any(
                requests,
                |r: Request| r.rinfo.uri@ == n && r.rinfo.ip@ == by,
            )
            &&& seen(c.session_per_uri, n, by) <==> any(
                requests,
                |r: Request| r.rinfo.session@ == n && r.rinfo.uri@ == by,
            )
            &&& seen(c.uri_per_session, n, by) <==> any(
                requests,
                |r: Request| r.rinfo.uri@ == n && r.rinfo.session@ == by,
            )
            &&& c.ip_per_uri.seen.contains_key(n) <==> any(requests, |r: Request| r.rinfo.ip@ == n)
            &&& c.uri_per_ip.seen.contains_key(n) <==> any(requests, |r: Request| r.rinfo.uri@ == n)
            &&& c.session_per_uri.seen.contains_key(n) <==> any(
                requests,
                |r: Request| r.rinfo.session@ == n,
            )
            &&& c.uri_per_session.seen.contains_key(n) <==> any(
                requests,
                |r: Request| r.rinfo.uri@ == n,
            )
        }),
    decreases requests.len(),
{
    if requests.len() > 0 {
        let front = requests.drop_last();
        let c = after_requests(CountersView::empty(bits, k), front);
        law_pairs(bits, k, front, n, by);
        law_pair_step(c, requests.last(), n, by);
        lemma_any_last(requests, |r: Request| r.rinfo.ip@ == n && r.rinfo.uri@ == by);
        lemma_any_last(requests, |r: Request| r.rinfo.uri@ == n && r.rinfo.ip@ == by);
        lemma_any_last(requests, |r: Request| r.rinfo.session@ == n && r.rinfo.uri@ == by);
        lemma_any_last(requests, |r: Request| r.rinfo.uri@ == n && r.rinfo.session@ == by);
        lemma_any_last(requests, |r: Request| r.rinfo.ip@ == n);
        lemma_any_last(requests, |r: Request| r.rinfo.uri@ == n);
        lemma_any_last(requests, |r: Request| r.rinfo.session@ == n);
    }
}

proof fn lemma_any_last<A>(s: Seq<A>, p: spec_fn(A) -> bool)
    requires
        s.len() > 0,
    ensures
        any(s, p) == (any(s.drop_last(), p) || p(s.last())),
{
    let front = s.drop_last();
    if any(front, p) {
        let i = choose|i: int| 0 <= i < front.len() && p(#[trigger] front[i]);
        assert(p(s[i]));
    }
    if p(s.last()) {
        assert(p(s[s.len() - 1]));
    }
    if any(s, p) {
        let i = choose|i: int| 0 <= i < s.len() && p(#[trigger] s[i]);
        if i < front.len() {
            assert(p(front[i]));
        }
    }
}

/// Whether a metric has seen nothing.
pub open spec fn nothing_seen<A>(m: MetricView<A>, bits: nat, k: nat) -> bool {
    &&& m.bits == bits
    &&& m.unique.is_empty()
    &&& m.unique_blocked.is_empty()
    &&& m.unique_passed.is_empty()
    &&& m.top_blocked.k == k && m.top_blocked.counts.is_empty()
    &&& m.top_passed.k == k && m.top_passed.counts.is_empty()
}

/// The counters of a second start at nothing.
pub proof fn law_nothing_counted(bits: nat, k: nat)
    ensures
        ({
            let c = CountersView::empty(bits, k);
            &&& c.hits == 0
            &&& c.blocks == 0
            &&& c.report == 0
            &&& c.requests_triggered_globalfilter_active == 0
            &&& c.requests_triggered_globalfilter_report == 0
            &&& c.requests_triggered_cf_active == 0
            &&& c.requests_triggered_cf_report == 0
            &&& c.requests_triggered_acl_active == 0
            &&& c.requests_triggered_acl_report == 0
            &&& c.requests_triggered_ratelimit_active == 0
            &&& c.requests_triggered_ratelimit_report == 0
            &&& c.bot == 0
            &&& c.human == 0
            &&& c.challenge == 0
            &&& c.status.is_empty()
            &&& c.status_classes.is_empty()
            &&& c.methods.is_empty()
            &&& c.risk_level_active.is_empty()
            &&& c.risk_level_report.is_empty()
            &&& c.headers_amount.is_empty()
            &&& c.cookies_amount.is_empty()
            &&& c.args_amount.is_empty()
            &&& c.aclid_active.k == k && c.aclid_active.counts.is_empty()
            &&& c.aclid_report.k == k && c.aclid_report.counts.is_empty()
            &&& c.secpolid_active.k == k && c.secpolid_active.counts.is_empty()
            &&& c.secpolid_report.k == k && c.secpolid_report.counts.is_empty()
            &&& c.secpolentryid_active.k == k && c.secpolentryid_active.counts.is_empty()
            &&& c.secpolentryid_report.k == k && c.secpolentryid_report.counts.is_empty()
            &&& c.cfid_active.k == k && c.cfid_active.counts.is_empty()
            &&& c.cfid_report.k == k && c.cfid_report.counts.is_empty()
            &&& c.ruleid_active.k == k && c.ruleid_active.counts.is_empty()
            &&& c.ruleid_report.k == k && c.ruleid_report.counts.is_empty()
            &&& c.top_tags.k == k && c.top_tags.counts.is_empty()
            &&& c.location_active.headers == 0
            &&& c.location_active.uri == 0
            &&& c.location_active.args == 0
            &&& c.location_active.body == 0
            &&& c.location_active.attrs == 0
            &&& c.location_report.headers == 0
            &&& c.location_report.uri == 0
            &&& c.location_report.args == 0
            &&& c.location_report.body == 0
            &&& c.location_report.attrs == 0
            &&& c.processing_time.n_sample == 0 && c.processing_time.total == 0
            &&& c.processing_time.min == i64::MAX && c.processing_time.max == i64::MIN
            &&& nothing_seen(c.ip, bits, k)
            &&& nothing_seen(c.session, bits, k)
            &&& nothing_seen(c.uri, bits, k)
            &&& nothing_seen(c.user_agent, bits, k)
            &&& nothing_seen(c.country, bits, k)
            &&& nothing_seen(c.asn, bits, k)
            &&& c.ip_per_uri.bits == bits && c.ip_per_uri.seen.is_empty()
            &&& c.uri_per_ip.bits == bits && c.uri_per_ip.seen.is_empty()
            &&& c.session_per_uri.bits == bits && c.session_per_uri.seen.is_empty()
            &&& c.uri_per_session.bits == bits && c.uri_per_session.seen.is_empty()
        }),
{
}

/// The counters are what their fields say, each under its own name.
pub proof fn law_counter_fields(c: AggregatedCounters, s: AggSection)
    ensures
        c@.hits == c.hits,
        c@.blocks == c.blocks,
        c@.report == c.report,
        c@.requests_triggered_globalfilter_active == c.requests_triggered_globalfilter_active,
        c@.requests_triggered_globalfilter_report == c.requests_triggered_globalfilter_report,
        c@.requests_triggered_cf_active == c.requests_triggered_cf_active,
        c@.requests_triggered_cf_report == c.requests_triggered_cf_report,
        c@.requests_triggered_acl_active == c.requests_triggered_acl_active,
        c@.requests_triggered_acl_report == c.requests_triggered_acl_report,
        c@.requests_triggered_ratelimit_active == c.requests_triggered_ratelimit_active,
        c@.requests_triggered_ratelimit_report == c.requests_triggered_ratelimit_report,
        c@.bot == c.bot,
        c@.human == c.human,
        c@.challenge == c.challenge,
        c@.status == c.status@,
        c@.status_classes == c.status_classes@,
        c@.methods == c.methods@,
        c@.risk_level_active == c.risk_level_active@,
        c@.risk_level_report == c.risk_level_report@,
        c@.headers_amount == c.headers_amount@,
        c@.cookies_amount == c.cookies_amount@,
        c@.args_amount == c.args_amount@,
        c@.aclid_active == c.aclid_active@,
        c@.aclid_report == c.aclid_report@,
        c@.secpolid_active == c.secpolid_active@,
        c@.secpolid_report == c.secpolid_report@,
        c@.secpolentryid_active == c.secpolentryid_active@,
        c@.secpolentryid_report == c.secpolentryid_report@,
        c@.cfid_active == c.cfid_active@,
        c@.cfid_report == c.cfid_report@,
        c@.ruleid_active == c.ruleid_active@,
        c@.ruleid_report == c.ruleid_report@,
        c@.top_tags == c.top_tags@,
        c@.ip == c.ip@,
        c@.session == c.session@,
        c@.uri == c.uri@,
        c@.user_agent == c.user_agent@,
        c@.country == c.country@,
        c@.asn == c.asn@,
        c@.ip_per_uri == c.ip_per_uri@,
        c@.uri_per_ip == c.uri_per_ip@,
        c@.session_per_uri == c.session_per_uri@,
        c@.uri_per_session == c.uri_per_session@,
        c@.location_active == c.location_active@,
        c@.location_report == c.location_report@,
        c@.processing_time == c.processing_time,
        s@.headers == s.headers,
        s@.uri == s.uri,
        s@.args == s.args,
        s@.body == s.body,
        s@.attrs == s.attrs,
{
}

} // verus!
