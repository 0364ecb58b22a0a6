//! The counters of one second.

use crate::bag::{bag_add, Bag};
use crate::clock::{elapsed_micros, processing_micros, utc_now, Timestamp};
use crate::key::same_text;
use crate::metric::{IntegerMetric, Metric, MetricView, UniqueTopNBy, UniqueView};
use crate::request::{BDecision, BlockReason, Decision, Initiator, Location, RequestInfo, Tags};
use crate::settings::Settings;
use crate::sorted_map::counts_at_most;
use crate::top::{TopN, TopView};
use vstd::prelude::*;

verus! {

/// What an [`AggSection`] is.
#[verifier::ext_equal]
pub struct SectionView {
    pub headers: nat,
    pub uri: nat,
    pub args: nat,
    pub body: nat,
    pub attrs: nat,
}

/// The sections that a match can lie in.
pub enum Section {
    Headers,
    Uri,
    Args,
    Body,
    Attrs,
}

impl SectionView {
    /// No match yet.
    pub open spec fn empty() -> SectionView {
        SectionView { headers: 0, uri: 0, args: 0, body: 0, attrs: 0 }
    }

    /// Whether no count is larger than `bound`.
    pub open spec fn at_most(self, bound: nat) -> bool {
        &&& self.headers <= bound
        &&& self.uri <= bound
        &&& self.args <= bound
        &&& self.body <= bound
        &&& self.attrs <= bound
    }

    /// The parts that some locations name.
    pub open spec fn located(self, locations: Seq<Location>) -> SectionView {
        SectionView {
            headers: self.headers + locations_in(locations, Section::Headers),
            uri: self.uri + locations_in(locations, Section::Uri),
            args: self.args + locations_in(locations, Section::Args),
            body: self.body + locations_in(locations, Section::Body),
            attrs: self.attrs + locations_in(locations, Section::Attrs),
        }
    }

    /// The parts that some matches lie in.
    pub open spec fn counted(self, reasons: Seq<BlockReason>, active: bool) -> SectionView {
        SectionView {
            headers: self.headers + section_hits(reasons, active, Section::Headers),
            uri: self.uri + section_hits(reasons, active, Section::Uri),
            args: self.args + section_hits(reasons, active, Section::Args),
            body: self.body + section_hits(reasons, active, Section::Body),
            attrs: self.attrs + section_hits(reasons, active, Section::Attrs),
        }
    }
}

/// In which sections of the requests the matches lay.
#[derive(Debug)]
pub struct AggSection {
    pub headers: usize,
    pub uri: usize,
    pub args: usize,
    pub body: usize,
    pub attrs: usize,
}

impl View for AggSection {
    type V = SectionView;

    open spec fn view(&self) -> SectionView {
        SectionView {
            headers: self.headers as nat,
            uri: self.uri as nat,
            args: self.args as nat,
            body: self.body as nat,
            attrs: self.attrs as nat,
        }
    }
}

impl Default for AggSection {
    /// No match yet.
    fn default() -> (s: Self)
        ensures
            s@ == SectionView::empty(),
    {
        AggSection { headers: 0, uri: 0, args: 0, body: 0, attrs: 0 }
    }
}

impl AggSection {
    /// Counts the parts that some locations name.
    pub fn count(&mut self, locations: &Vec<Location>)
        requires
            old(self)@.located(locations@).at_most(usize::MAX as nat),
        ensures
            final(self)@ == old(self)@.located(locations@),
    {
        let mut i: usize = 0;
        proof {
            lemma_located_empty(self@, locations@.take(0));
        }
        while i < locations.len()
            invariant
                i <= locations.len(),
                self@ == old(self)@.located(locations@.take(i as int)),
                old(self)@.located(locations@).at_most(usize::MAX as nat),
            decreases locations.len() - i,
        {
            proof {
                lemma_located_step(locations@, i as int);
                assert(old(self)@.located(locations@.take(i + 1)).at_most(usize::MAX as nat));
            }
            match &locations[i] {
                Location::Body => {
                    self.body += 1;
                },
                Location::Attributes => {
                    self.attrs += 1;
                },
                Location::Uri => {
                    self.uri += 1;
                },
                Location::Headers => {
                    self.headers += 1;
                },
                Location::BodyArgument(_)
                | Location::RefererArgument(_)
                | Location::UriArgument(_) => {
                    self.args += 1;
                },
                Location::Other => {},
            }
            i += 1;
        }
        proof {
            assert(locations@.take(i as int) =~= locations@);
        }
    }
}

pub proof fn lemma_filter_push<A>(s: Seq<A>, p: spec_fn(A) -> bool, x: A)
    ensures
        s.push(x).filter(p) == if p(x) {
            s.filter(p).push(x)
        } else {
            s.filter(p)
        },
{
    reveal(Seq::filter);
    assert(s.push(x).drop_last() =~= s);
}

pub proof fn lemma_filter_prefix<A>(s: Seq<A>, p: spec_fn(A) -> bool, i: int)
    requires
        0 <= i <= s.len(),
    ensures
        s.take(i).filter(p).len() <= s.filter(p).len(),
    decreases s.len() - i,
{
    if i < s.len() {
        lemma_filter_push(s.take(i), p, s[i]);
        assert(s.take(i + 1) =~= s.take(i).push(s[i]));
        lemma_filter_prefix(s, p, i + 1);
    } else {
        assert(s.take(i) =~= s);
    }
}

pub open spec fn lies_in(s: Section) -> spec_fn(Location) -> bool {
    |l: Location| section_of(l) == Some(s)
}

proof fn lemma_located_empty(v: SectionView, none: Seq<Location>)
    requires
        none.len() == 0,
    ensures
        v.located(none) == v,
{
    reveal(Seq::filter);
}

proof fn lemma_located_step(locations: Seq<Location>, i: int)
    requires
        0 <= i < locations.len(),
    ensures
        forall|s: Section| #[trigger]
            locations_in(locations.take(i + 1), s) == locations_in(locations.take(i), s) + if section_of(
                locations[i],
            ) == Some(s) {
                1nat
            } else {
                0
            },
        forall|s: Section| #[trigger]
            locations_in(locations.take(i + 1), s) <= locations_in(locations, s),
{
    assert(locations.take(i + 1) =~= locations.take(i).push(locations[i]));
    assert forall|s: Section| #[trigger]
        locations_in(locations.take(i + 1), s) == locations_in(locations.take(i), s) + if section_of(
            locations[i],
        ) == Some(s) {
            1nat
        } else {
            0
        } by {
        lemma_filter_push(locations.take(i), lies_in(s), locations[i]);
    }
    assert forall|s: Section| #[trigger]
        locations_in(locations.take(i + 1), s) <= locations_in(locations, s) by {
        lemma_filter_prefix(locations, lies_in(s), i + 1);
    }
}

/// What a rule is counted as.
#[derive(Clone, Copy, PartialEq, Eq, Structural, Debug)]
pub enum Trigger {
    GlobalFilter,
    ContentFilter,
    Acl,
    RateLimit,
}

/// What a rule is counted as, if it is.
pub open spec fn trigger_of(initiator: Initiator) -> Option<Trigger> {
    match initiator {
        Initiator::GlobalFilter => Some(Trigger::GlobalFilter),
        Initiator::Acl | Initiator::Phase02 => Some(Trigger::Acl),
        Initiator::Limit => Some(Trigger::RateLimit),
        Initiator::Phase01Fail => None,
        _ => Some(Trigger::ContentFilter),
    }
}

/// The section that a part of a request lies in, if it is aggregated.
pub open spec fn section_of(location: Location) -> Option<Section> {
    match location {
        Location::Body => Some(Section::Body),
        Location::Attributes => Some(Section::Attrs),
        Location::Uri => Some(Section::Uri),
        Location::Headers => Some(Section::Headers),
        Location::BodyArgument(_) | Location::RefererArgument(_) | Location::UriArgument(_) => Some(
            Section::Args,
        ),
        Location::Other => None,
    }
}

/// Whether a match asks to block the request.
pub open spec fn blocking(r: BlockReason) -> bool {
    r.decision == BDecision::Blocking
}

/// Whether a match is one of the content filter's rules, and blocks or not.
pub open spec fn by_rule(active: bool) -> spec_fn(BlockReason) -> bool {
    |r: BlockReason| r.initiator is ContentFilter && blocking(r) == active
}

/// How many matches are counted as `t`, and block or not.
pub open spec fn triggered(reasons: Seq<BlockReason>, t: Trigger, active: bool) -> nat {
    reasons.filter(
        |r: BlockReason| trigger_of(r.initiator) == Some(t) && blocking(r) == active,
    ).len()
}

/// How many matches are challenges.
pub open spec fn challenges(reasons: Seq<BlockReason>) -> nat {
    reasons.filter(|r: BlockReason| r.initiator is Phase02).len()
}

/// The content filter rules that matched, and block or not.
pub open spec fn rule_ids(reasons: Seq<BlockReason>, active: bool) -> Seq<Seq<char>> {
    reasons.filter(by_rule(active)).map_values(|r: BlockReason| r.initiator->ruleid@)
}

/// The risk levels of the content filter rules that matched, and block or not.
pub open spec fn risk_levels(reasons: Seq<BlockReason>, active: bool) -> Seq<u8> {
    reasons.filter(by_rule(active)).map_values(|r: BlockReason| r.initiator->risk_level)
}

/// How many parts of a section some locations name.
pub open spec fn locations_in(locations: Seq<Location>, s: Section) -> nat {
    locations.filter(|l: Location| section_of(l) == Some(s)).len()
}

/// How many parts of a section the matches name that block or not.
pub open spec fn section_hits(reasons: Seq<BlockReason>, active: bool, s: Section) -> nat
    decreases reasons.len(),
{
    if reasons.len() == 0 {
        0
    } else {
        section_hits(reasons.drop_last(), active, s) + if blocking(reasons.last()) == active {
            locations_in(reasons.last().location@, s)
        } else {
            0
        }
    }
}

/// One more of each value of a sequence.
pub open spec fn bag_add_all<A>(m: Map<A, nat>, s: Seq<A>) -> Map<A, nat>
    decreases s.len(),
{
    if s.len() == 0 {
        m
    } else {
        bag_add(bag_add_all(m, s.drop_last()), s.last(), 1)
    }
}

/// What the matches of a request come to.
pub struct Outcome {
    /// The request is blocked.
    pub blocked: bool,
    /// An access rule is counted as active.
    pub acl_blocked: bool,
    /// An access rule is counted as reporting.
    pub acl_report: bool,
    /// A content filter rule is counted as active.
    pub cf_blocked: bool,
    /// A content filter rule is counted as reporting.
    pub cf_report: bool,
}

/// Whether a match asks to let the request pass unchecked.
pub open spec fn has_skip(reasons: Seq<BlockReason>) -> bool {
    exists|i: int| 0 <= i < reasons.len() && (#[trigger] reasons[i]).decision == BDecision::Skip
}

/// Whether a match asks to block the request.
pub open spec fn has_block(reasons: Seq<BlockReason>) -> bool {
    exists|i: int| 0 <= i < reasons.len() && blocking(#[trigger] reasons[i])
}

/// Whether an access rule matched, and blocks or not.
pub open spec fn has_acl(reasons: Seq<BlockReason>, active: bool) -> bool {
    exists|i: int|
        0 <= i < reasons.len() && (#[trigger] reasons[i]).initiator is Acl && blocking(reasons[i])
            == active
}

/// Whether a content filter rule matched, and blocks or not.
pub open spec fn has_rule(reasons: Seq<BlockReason>, active: bool) -> bool {
    exists|i: int|
        0 <= i < reasons.len() && (#[trigger] reasons[i]).initiator is ContentFilter && blocking(
            reasons[i],
        ) == active
}

/// What the matches of a request come to: a match that skips undoes all that block, and what is
/// counted as active is counted as reporting too.
pub open spec fn outcome_of(reasons: Seq<BlockReason>) -> Outcome {
    let passed = !has_skip(reasons);
    Outcome {
        blocked: has_block(reasons) && passed,
        acl_blocked: has_acl(reasons, true) && passed,
        acl_report: has_acl(reasons, false) || (has_acl(reasons, true) && passed),
        cf_blocked: has_rule(reasons, true) && passed,
        cf_report: has_rule(reasons, false) || (has_rule(reasons, true) && passed),
    }
}

/// Whether a tag has a name of its own in the list of tags: none of those that every request or
/// every visitor of a kind has, and none with a value.
pub open spec fn listed_tag(tag: Seq<char>) -> bool {
    tag != "all"@ && tag != "bot"@ && tag != "human"@ && !tag.contains(':')
}

/// The texts of some strings.
pub open spec fn texts(v: Seq<String>) -> Seq<Seq<char>> {
    v.map_values(|s: String| s@)
}

/// How often a tag is given.
pub open spec fn tag_count(tags: Seq<Seq<char>>, tag: Seq<char>) -> nat {
    tags.filter(|t: Seq<char>| t == tag).len()
}

/// The tags that are listed, in their order.
pub open spec fn listed_tags(tags: Seq<Seq<char>>) -> Seq<Seq<char>> {
    tags.filter(|t: Seq<char>| listed_tag(t))
}

/// The value of the first header of a name, if there is one.
pub open spec fn header_value(headers: Seq<(String, String)>, name: Seq<char>) -> Option<Seq<char>>
    decreases headers.len(),
{
    if headers.len() == 0 {
        None
    } else if headers[0].0@ == name {
        Some(headers[0].1@)
    } else {
        header_value(headers.drop_first(), name)
    }
}

/// The class of a status code: its hundreds, as far as a byte holds them.
pub open spec fn status_class(code: u32) -> u8 {
    ((code / 100) % 256) as u8
}

/// What the counters of a second are.
#[verifier::ext_equal]
pub struct CountersView {
    pub status: Map<u32, nat>,
    pub status_classes: Map<u8, nat>,
    pub methods: Map<Seq<char>, nat>,
    pub hits: nat,
    pub blocks: nat,
    pub report: nat,
    pub requests_triggered_globalfilter_active: nat,
    pub requests_triggered_globalfilter_report: nat,
    pub requests_triggered_cf_active: nat,
    pub requests_triggered_cf_report: nat,
    pub requests_triggered_acl_active: nat,
    pub requests_triggered_acl_report: nat,
    pub requests_triggered_ratelimit_active: nat,
    pub requests_triggered_ratelimit_report: nat,
    pub aclid_active: TopView<Seq<char>>,
    pub aclid_report: TopView<Seq<char>>,
    pub secpolid_active: TopView<Seq<char>>,
    pub secpolid_report: TopView<Seq<char>>,
    pub secpolentryid_active: TopView<Seq<char>>,
    pub secpolentryid_report: TopView<Seq<char>>,
    pub cfid_active: TopView<Seq<char>>,
    pub cfid_report: TopView<Seq<char>>,
    pub location_active: SectionView,
    pub location_report: SectionView,
    pub ruleid_active: TopView<Seq<char>>,
    pub ruleid_report: TopView<Seq<char>>,
    pub risk_level_active: Map<u8, nat>,
    pub risk_level_report: Map<u8, nat>,
    pub bot: nat,
    pub human: nat,
    pub challenge: nat,
    pub processing_time: IntegerMetric,
    pub ip: MetricView<Seq<char>>,
    pub session: MetricView<Seq<char>>,
    pub uri: MetricView<Seq<char>>,
    pub user_agent: MetricView<Seq<char>>,
    pub country: MetricView<Seq<char>>,
    pub asn: MetricView<u32>,
    pub top_tags: TopView<Seq<char>>,
    pub headers_amount: Map<usize, nat>,
    pub cookies_amount: Map<usize, nat>,
    pub args_amount: Map<usize, nat>,
    pub ip_per_uri: UniqueView<Seq<char>, Seq<char>>,
    pub uri_per_ip: UniqueView<Seq<char>, Seq<char>>,
    pub session_per_uri: UniqueView<Seq<char>, Seq<char>>,
    pub uri_per_session: UniqueView<Seq<char>, Seq<char>>,
}

impl CountersView {
    /// Nothing counted yet.
    pub open spec fn empty(bits: nat, k: nat) -> CountersView {
        CountersView {
            status: Map::empty(),
            status_classes: Map::empty(),
            methods: Map::empty(),
            hits: 0,
            blocks: 0,
            report: 0,
            requests_triggered_globalfilter_active: 0,
            requests_triggered_globalfilter_report: 0,
            requests_triggered_cf_active: 0,
            requests_triggered_cf_report: 0,
            requests_triggered_acl_active: 0,
            requests_triggered_acl_report: 0,
            requests_triggered_ratelimit_active: 0,
            requests_triggered_ratelimit_report: 0,
            aclid_active: TopView::empty(k),
            aclid_report: TopView::empty(k),
            secpolid_active: TopView::empty(k),
            secpolid_report: TopView::empty(k),
            secpolentryid_active: TopView::empty(k),
            secpolentryid_report: TopView::empty(k),
            cfid_active: TopView::empty(k),
            cfid_report: TopView::empty(k),
            location_active: SectionView::empty(),
            location_report: SectionView::empty(),
            ruleid_active: TopView::empty(k),
            ruleid_report: TopView::empty(k),
            risk_level_active: Map::empty(),
            risk_level_report: Map::empty(),
            bot: 0,
            human: 0,
            challenge: 0,
            processing_time: IntegerMetric::empty(),
            ip: MetricView::empty(bits, k),
            session: MetricView::empty(bits, k),
            uri: MetricView::empty(bits, k),
            user_agent: MetricView::empty(bits, k),
            country: MetricView::empty(bits, k),
            asn: MetricView::empty(bits, k),
            top_tags: TopView::empty(k),
            headers_amount: Map::empty(),
            cookies_amount: Map::empty(),
            args_amount: Map::empty(),
            ip_per_uri: UniqueView::empty(bits),
            uri_per_ip: UniqueView::empty(bits),
            session_per_uri: UniqueView::empty(bits),
            uri_per_session: UniqueView::empty(bits),
        }
    }

    /// Whether no counter is larger than `bound`.
    pub open spec fn at_most(self, bound: nat) -> bool {
        &&& counts_at_most(self.status, bound)
        &&& counts_at_most(self.status_classes, bound)
        &&& counts_at_most(self.methods, bound)
        &&& self.hits <= bound
        &&& self.blocks <= bound
        &&& self.report <= bound
        &&& self.requests_triggered_globalfilter_active <= bound
        &&& self.requests_triggered_globalfilter_report <= bound
        &&& self.requests_triggered_cf_active <= bound
        &&& self.requests_triggered_cf_report <= bound
        &&& self.requests_triggered_acl_active <= bound
        &&& self.requests_triggered_acl_report <= bound
        &&& self.requests_triggered_ratelimit_active <= bound
        &&& self.requests_triggered_ratelimit_report <= bound
        &&& self.aclid_active.at_most(bound)
        &&& self.aclid_report.at_most(bound)
        &&& self.secpolid_active.at_most(bound)
        &&& self.secpolid_report.at_most(bound)
        &&& self.secpolentryid_active.at_most(bound)
        &&& self.secpolentryid_report.at_most(bound)
        &&& self.cfid_active.at_most(bound)
        &&& self.cfid_report.at_most(bound)
        &&& self.location_active.at_most(bound)
        &&& self.location_report.at_most(bound)
        &&& self.ruleid_active.at_most(bound)
        &&& self.ruleid_report.at_most(bound)
        &&& counts_at_most(self.risk_level_active, bound)
        &&& counts_at_most(self.risk_level_report, bound)
        &&& self.bot <= bound
        &&& self.human <= bound
        &&& self.challenge <= bound
        &&& self.ip.at_most(bound)
        &&& self.session.at_most(bound)
        &&& self.uri.at_most(bound)
        &&& self.user_agent.at_most(bound)
        &&& self.country.at_most(bound)
        &&& self.asn.at_most(bound)
        &&& self.top_tags.at_most(bound)
        &&& counts_at_most(self.headers_amount, bound)
        &&& counts_at_most(self.cookies_amount, bound)
        &&& counts_at_most(self.args_amount, bound)
    }

    /// Whether every counter is a machine number.
    pub open spec fn fits(self) -> bool {
        self.at_most(usize::MAX as nat)
    }

    /// The matches of a request.
    pub open spec fn counted(self, reasons: Seq<BlockReason>) -> CountersView {
        CountersView {
            requests_triggered_globalfilter_active: self.requests_triggered_globalfilter_active
                + triggered(reasons, Trigger::GlobalFilter, true),
            requests_triggered_globalfilter_report: self.requests_triggered_globalfilter_report
                + triggered(reasons, Trigger::GlobalFilter, false),
            requests_triggered_cf_active: self.requests_triggered_cf_active + triggered(
                reasons,
                Trigger::ContentFilter,
                true,
            ),
            requests_triggered_cf_report: self.requests_triggered_cf_report + triggered(
                reasons,
                Trigger::ContentFilter,
                false,
            ),
            requests_triggered_acl_active: self.requests_triggered_acl_active + triggered(
                reasons,
                Trigger::Acl,
                true,
            ),
            requests_triggered_acl_report: self.requests_triggered_acl_report + triggered(
                reasons,
                Trigger::Acl,
                false,
            ),
            requests_triggered_ratelimit_active: self.requests_triggered_ratelimit_active
                + triggered(reasons, Trigger::RateLimit, true),
            requests_triggered_ratelimit_report: self.requests_triggered_ratelimit_report
                + triggered(reasons, Trigger::RateLimit, false),
            challenge: self.challenge + challenges(reasons),
            ruleid_active: self.ruleid_active.inc_all(rule_ids(reasons, true)),
            ruleid_report: self.ruleid_report.inc_all(rule_ids(reasons, false)),
            risk_level_active: bag_add_all(self.risk_level_active, risk_levels(reasons, true)),
            risk_level_report: bag_add_all(self.risk_level_report, risk_levels(reasons, false)),
            location_active: self.location_active.counted(reasons, true),
            location_report: self.location_report.counted(reasons, false),
            ..self
        }
    }

    /// The policies of a request, and whether it is blocked.
    pub open spec fn decided(self, o: Outcome, rinfo: RequestInfo) -> CountersView {
        let acl = rinfo.acl_profile_id@;
        let cf = rinfo.content_filter_profile_id@;
        let policy = rinfo.secpolicy_id@;
        let entry = rinfo.secpolicy_entry_id@;
        CountersView {
            hits: self.hits + 1,
            aclid_active: if o.acl_blocked {
                self.aclid_active.inc(acl)
            } else {
                self.aclid_active
            },
            aclid_report: if o.acl_report {
                self.aclid_report.inc(acl)
            } else {
                self.aclid_report
            },
            cfid_active: if o.cf_blocked {
                self.cfid_active.inc(cf)
            } else {
                self.cfid_active
            },
            cfid_report: if o.cf_report {
                self.cfid_report.inc(cf)
            } else {
                self.cfid_report
            },
            secpolid_active: if o.blocked {
                self.secpolid_active.inc(policy)
            } else {
                self.secpolid_active
            },
            secpolid_report: if o.blocked {
                self.secpolid_report
            } else {
                self.secpolid_report.inc(policy)
            },
            secpolentryid_active: if o.blocked {
                self.secpolentryid_active.inc(entry)
            } else {
                self.secpolentryid_active
            },
            secpolentryid_report: if o.blocked {
                self.secpolentryid_report
            } else {
                self.secpolentryid_report.inc(entry)
            },
            blocks: self.blocks + if o.blocked {
                1nat
            } else {
                0
            },
            report: self.report + if o.blocked {
                0nat
            } else {
                1
            },
            ..self
        }
    }

    /// The answer to a request, its method, and how long it took.
    pub open spec fn answered(
        self,
        rcode: Option<u32>,
        rinfo: RequestInfo,
        processing_time: Option<i64>,
    ) -> CountersView {
        CountersView {
            status: match rcode {
                Some(code) => bag_add(self.status, code, 1),
                None => self.status,
            },
            status_classes: match rcode {
                Some(code) => bag_add(self.status_classes, status_class(code), 1),
                None => self.status_classes,
            },
            methods: bag_add(self.methods, rinfo.method@, 1),
            processing_time: match processing_time {
                Some(sample) => self.processing_time.incremented(sample),
                None => self.processing_time,
            },
            ..self
        }
    }

    /// Where a request came from and where it went.
    pub open spec fn measured(self, rinfo: RequestInfo, blocked: bool) -> CountersView {
        CountersView {
            ip: self.ip.inc(rinfo.ip@, blocked),
            session: self.session.inc(rinfo.session@, blocked),
            uri: self.uri.inc(rinfo.uri@, blocked),
            user_agent: match header_value(rinfo.headers@, "user-agent"@) {
                Some(user_agent) => self.user_agent.inc(user_agent, blocked),
                None => self.user_agent,
            },
            country: match rinfo.country {
                Some(country) => self.country.inc(country@, blocked),
                None => self.country,
            },
            asn: match rinfo.asn {
                Some(asn) => self.asn.inc(asn, blocked),
                None => self.asn,
            },
            ..self
        }
    }

    /// The tags of a request.
    pub open spec fn tagged(self, tags: Seq<Seq<char>>) -> CountersView {
        CountersView {
            bot: self.bot + tag_count(tags, "bot"@),
            human: self.human + tag_count(tags, "human"@),
            top_tags: self.top_tags.inc_all(listed_tags(tags)),
            ..self
        }
    }

    /// The size of a request.
    pub open spec fn sized(self, rinfo: RequestInfo) -> CountersView {
        CountersView {
            args_amount: bag_add(self.args_amount, rinfo.args, 1),
            cookies_amount: bag_add(self.cookies_amount, rinfo.cookies, 1),
            headers_amount: bag_add(self.headers_amount, rinfo.headers.len(), 1),
            ..self
        }
    }

    /// What was seen together in a request.
    pub open spec fn paired(self, rinfo: RequestInfo) -> CountersView {
        let ip = rinfo.ip@;
        let session = rinfo.session@;
        let uri = rinfo.uri@;
        CountersView {
            ip_per_uri: self.ip_per_uri.add(ip, uri),
            uri_per_ip: self.uri_per_ip.add(uri, ip),
            session_per_uri: self.session_per_uri.add(session, uri),
            uri_per_session: self.uri_per_session.add(uri, session),
            ..self
        }
    }

    /// One more request.
    pub open spec fn incremented(
        self,
        reasons: Seq<BlockReason>,
        rcode: Option<u32>,
        rinfo: RequestInfo,
        tags: Seq<Seq<char>>,
        processing_time: Option<i64>,
    ) -> CountersView {
        let o = outcome_of(reasons);
        self.counted(reasons).decided(o, rinfo).answered(rcode, rinfo, processing_time).measured(
            rinfo,
            o.blocked,
        ).tagged(tags).sized(rinfo).paired(rinfo)
    }

    /// Whether a processing time can be added to the series.
    pub open spec fn takes_time(self, processing_time: Option<i64>) -> bool {
        processing_time matches Some(sample) ==> self.processing_time.takes(sample)
    }

    /// Whether one more request keeps every counter within its type, at each step.
    pub open spec fn takes(
        self,
        reasons: Seq<BlockReason>,
        rcode: Option<u32>,
        rinfo: RequestInfo,
        tags: Seq<Seq<char>>,
        processing_time: Option<i64>,
    ) -> bool {
        &&& forall|i: int| 0 <= i <= reasons.len() ==> self.counted(#[trigger] reasons.take(i)).fits()
        &&& forall|i: int| 0 <= i <= tags.len() ==> self.tagged(#[trigger] tags.take(i)).fits()
        &&& self.takes_time(processing_time)
        &&& self.incremented(reasons, rcode, rinfo, tags, processing_time).fits()
    }
}

/// The counters of one second.
pub struct AggregatedCounters {
    pub status: Bag<u32>,
    pub status_classes: Bag<u8>,
    pub methods: Bag<String>,

    // By decision.
    pub hits: usize,
    pub blocks: usize,
    pub report: usize,
    pub requests_triggered_globalfilter_active: usize,
    pub requests_triggered_globalfilter_report: usize,
    pub requests_triggered_cf_active: usize,
    pub requests_triggered_cf_report: usize,
    pub requests_triggered_acl_active: usize,
    pub requests_triggered_acl_report: usize,
    pub requests_triggered_ratelimit_active: usize,
    pub requests_triggered_ratelimit_report: usize,
    pub aclid_active: TopN<String>,
    pub aclid_report: TopN<String>,
    pub secpolid_active: TopN<String>,
    pub secpolid_report: TopN<String>,
    pub secpolentryid_active: TopN<String>,
    pub secpolentryid_report: TopN<String>,
    pub cfid_active: TopN<String>,
    pub cfid_report: TopN<String>,
    pub location_active: AggSection,
    pub location_report: AggSection,
    pub ruleid_active: TopN<String>,
    pub ruleid_report: TopN<String>,
    pub risk_level_active: Bag<u8>,
    pub risk_level_report: Bag<u8>,
    pub bot: usize,
    pub human: usize,
    pub challenge: usize,
    /// Processing times in microseconds.
    pub processing_time: IntegerMetric,
    pub ip: Metric<String>,
    pub session: Metric<String>,
    pub uri: Metric<String>,
    pub user_agent: Metric<String>,
    pub country: Metric<String>,
    pub asn: Metric<u32>,
    pub top_tags: TopN<String>,
    pub headers_amount: Bag<usize>,
    pub cookies_amount: Bag<usize>,
    pub args_amount: Bag<usize>,

    // One value by another.
    pub ip_per_uri: UniqueTopNBy<String, String>,
    pub uri_per_ip: UniqueTopNBy<String, String>,
    pub session_per_uri: UniqueTopNBy<String, String>,
    pub uri_per_session: UniqueTopNBy<String, String>,
}

impl View for AggregatedCounters {
    type V = CountersView;

    open spec fn view(&self) -> CountersView {
        CountersView {
            status: self.status@,
            status_classes: self.status_classes@,
            methods: self.methods@,
            hits: self.hits as nat,
            blocks: self.blocks as nat,
            report: self.report as nat,
            requests_triggered_globalfilter_active: self.requests_triggered_globalfilter_active as nat,
            requests_triggered_globalfilter_report: self.requests_triggered_globalfilter_report as nat,
            requests_triggered_cf_active: self.requests_triggered_cf_active as nat,
            requests_triggered_cf_report: self.requests_triggered_cf_report as nat,
            requests_triggered_acl_active: self.requests_triggered_acl_active as nat,
            requests_triggered_acl_report: self.requests_triggered_acl_report as nat,
            requests_triggered_ratelimit_active: self.requests_triggered_ratelimit_active as nat,
            requests_triggered_ratelimit_report: self.requests_triggered_ratelimit_report as nat,
            aclid_active: self.aclid_active@,
            aclid_report: self.aclid_report@,
            secpolid_active: self.secpolid_active@,
            secpolid_report: self.secpolid_report@,
            secpolentryid_active: self.secpolentryid_active@,
            secpolentryid_report: self.secpolentryid_report@,
            cfid_active: self.cfid_active@,
            cfid_report: self.cfid_report@,
            location_active: self.location_active@,
            location_report: self.location_report@,
            ruleid_active: self.ruleid_active@,
            ruleid_report: self.ruleid_report@,
            risk_level_active: self.risk_level_active@,
            risk_level_report: self.risk_level_report@,
            bot: self.bot as nat,
            human: self.human as nat,
            challenge: self.challenge as nat,
            processing_time: self.processing_time,
            ip: self.ip@,
            session: self.session@,
            uri: self.uri@,
            user_agent: self.user_agent@,
            country: self.country@,
            asn: self.asn@,
            top_tags: self.top_tags@,
            headers_amount: self.headers_amount@,
            cookies_amount: self.cookies_amount@,
            args_amount: self.args_amount@,
            ip_per_uri: self.ip_per_uri@,
            uri_per_ip: self.uri_per_ip@,
            session_per_uri: self.session_per_uri@,
            uri_per_session: self.uri_per_session@,
        }
    }
}

impl AggregatedCounters {
    /// Every part is well formed.
    pub open spec fn wf(self) -> bool {
        &&& self.status.wf()
        &&& self.status_classes.wf()
        &&& self.methods.wf()
        &&& self.aclid_active.wf()
        &&& self.aclid_report.wf()
        &&& self.secpolid_active.wf()
        &&& self.secpolid_report.wf()
        &&& self.secpolentryid_active.wf()
        &&& self.secpolentryid_report.wf()
        &&& self.cfid_active.wf()
        &&& self.cfid_report.wf()
        &&& self.ruleid_active.wf()
        &&& self.ruleid_report.wf()
        &&& self.risk_level_active.wf()
        &&& self.risk_level_report.wf()
        &&& self.ip.wf()
        &&& self.session.wf()
        &&& self.uri.wf()
        &&& self.user_agent.wf()
        &&& self.country.wf()
        &&& self.asn.wf()
        &&& self.top_tags.wf()
        &&& self.headers_amount.wf()
        &&& self.cookies_amount.wf()
        &&& self.args_amount.wf()
        &&& self.ip_per_uri.wf()
        &&& self.uri_per_ip.wf()
        &&& self.session_per_uri.wf()
        &&& self.uri_per_session.wf()
    }

    /// Nothing counted yet.
    pub fn new(settings: &Settings) -> (c: Self)
        requires
            settings.valid(),
        ensures
            c.wf(),
            c@ == CountersView::empty(
                settings.hyperloglog_size as nat,
                2 * settings.top_amount as nat,
            ),
    {
        AggregatedCounters {
            status: Bag::new(),
            status_classes: Bag::new(),
            methods: Bag::new(),
            hits: 0,
            blocks: 0,
            report: 0,
            requests_triggered_globalfilter_active: 0,
            requests_triggered_globalfilter_report: 0,
            requests_triggered_cf_active: 0,
            requests_triggered_cf_report: 0,
            requests_triggered_acl_active: 0,
            requests_triggered_acl_report: 0,
            requests_triggered_ratelimit_active: 0,
            requests_triggered_ratelimit_report: 0,
            aclid_active: TopN::new(settings.top_amount),
            aclid_report: TopN::new(settings.top_amount),
            secpolid_active: TopN::new(settings.top_amount),
            secpolid_report: TopN::new(settings.top_amount),
            secpolentryid_active: TopN::new(settings.top_amount),
            secpolentryid_report: TopN::new(settings.top_amount),
            cfid_active: TopN::new(settings.top_amount),
            cfid_report: TopN::new(settings.top_amount),
            location_active: AggSection::default(),
            location_report: AggSection::default(),
            ruleid_active: TopN::new(settings.top_amount),
            ruleid_report: TopN::new(settings.top_amount),
            risk_level_active: Bag::new(),
            risk_level_report: Bag::new(),
            bot: 0,
            human: 0,
            challenge: 0,
            processing_time: IntegerMetric::default(),
            ip: Metric::new(settings),
            session: Metric::new(settings),
            uri: Metric::new(settings),
            user_agent: Metric::new(settings),
            country: Metric::new(settings),
            asn: Metric::new(settings),
            top_tags: TopN::new(settings.top_amount),
            headers_amount: Bag::new(),
            cookies_amount: Bag::new(),
            args_amount: Bag::new(),
            ip_per_uri: UniqueTopNBy::new(settings),
            uri_per_ip: UniqueTopNBy::new(settings),
            session_per_uri: UniqueTopNBy::new(settings),
            uri_per_session: UniqueTopNBy::new(settings),
        }
    }

    /// Counts one match.
    fn count_reason(&mut self, r: &BlockReason)
        requires
            old(self).wf(),
            old(self)@.counted(seq![*r]).fits(),
        ensures
            final(self).wf(),
            final(self)@ == old(self)@.counted(seq![*r]),
    {
        let active = r.decision == BDecision::Blocking;
        proof {
            lemma_one_reason(*r);
            lemma_one_inc(self@.ruleid_active, *r, true);
            lemma_one_inc(self@.ruleid_report, *r, false);
            lemma_one_bag(self@.risk_level_active, *r, true);
            lemma_one_bag(self@.risk_level_report, *r, false);
            lemma_one_section(self@.location_active, *r, true);
            lemma_one_section(self@.location_report, *r, false);
        }
        match &r.initiator {
            Initiator::GlobalFilter => {
                if active {
                    self.requests_triggered_globalfilter_active += 1;
                } else {
                    self.requests_triggered_globalfilter_report += 1;
                }
            },
            Initiator::Acl => {
                if active {
                    self.requests_triggered_acl_active += 1;
                } else {
                    self.requests_triggered_acl_report += 1;
                }
            },
            Initiator::Phase01Fail => {},
            Initiator::Phase02 => {
                if active {
                    self.requests_triggered_acl_active += 1;
                } else {
                    self.requests_triggered_acl_report += 1;
                }
                self.challenge += 1;
            },
            Initiator::Limit => {
                if active {
                    self.requests_triggered_ratelimit_active += 1;
                } else {
                    self.requests_triggered_ratelimit_report += 1;
                }
            },
            Initiator::ContentFilter { ruleid, risk_level } => {
                if active {
                    self.requests_triggered_cf_active += 1;
                    self.ruleid_active.inc(ruleid.clone());
                    self.risk_level_active.inc(*risk_level);
                } else {
                    self.requests_triggered_cf_report += 1;
                    self.ruleid_report.inc(ruleid.clone());
                    self.risk_level_report.inc(*risk_level);
                }
            },
            Initiator::BodyTooDeep
            | Initiator::BodyMissing
            | Initiator::BodyMalformed
            | Initiator::Sqli
            | Initiator::Xss
            | Initiator::Restricted
            | Initiator::TooManyEntries
            | Initiator::EntryTooLarge => {
                if active {
                    self.requests_triggered_cf_active += 1;
                } else {
                    self.requests_triggered_cf_report += 1;
                }
            },
        }
        if active {
            self.location_active.count(&r.location);
        } else {
            self.location_report.count(&r.location);
        }
    }

    /// Counts the matches of a request.
    fn count_reasons(&mut self, reasons: &Vec<BlockReason>)
        requires
            old(self).wf(),
            forall|i: int|
                0 <= i <= reasons.len() ==> old(self)@.counted(
                    #[trigger] reasons@.take(i),
                ).fits(),
        ensures
            final(self).wf(),
            final(self)@ == old(self)@.counted(reasons@),
    {
        let mut i: usize = 0;
        proof {
            lemma_counted_empty(self@, reasons@.take(0));
        }
        while i < reasons.len()
            invariant
                i <= reasons.len(),
                self.wf(),
                self@ == old(self)@.counted(reasons@.take(i as int)),
                forall|i: int|
                    0 <= i <= reasons.len() ==> old(self)@.counted(
                        #[trigger] reasons@.take(i),
                    ).fits(),
            decreases reasons.len() - i,
        {
            proof {
                lemma_counted_push(old(self)@, reasons@.take(i as int), reasons@[i as int]);
                assert(reasons@.take(i + 1) =~= reasons@.take(i as int).push(reasons@[i as int]));
            }
            self.count_reason(&reasons[i]);
            i += 1;
        }
        proof {
            assert(reasons@.take(i as int) =~= reasons@);
        }
    }

    /// Counts the policies of a request, and whether it is blocked.
    fn count_decision(&mut self, o: &Outcome, rinfo: &RequestInfo)
        requires
            old(self).wf(),
            old(self)@.decided(*o, *rinfo).fits(),
        ensures
            final(self).wf(),
            final(self)@ == old(self)@.decided(*o, *rinfo),
    {
        self.hits += 1;
        if o.acl_blocked {
            self.aclid_active.inc(rinfo.acl_profile_id.clone());
        }
        if o.acl_report {
            self.aclid_report.inc(rinfo.acl_profile_id.clone());
        }
        if o.cf_blocked {
            self.cfid_active.inc(rinfo.content_filter_profile_id.clone());
        }
        if o.cf_report {
            self.cfid_report.inc(rinfo.content_filter_profile_id.clone());
        }
        if o.blocked {
            self.secpolid_active.inc(rinfo.secpolicy_id.clone());
            self.secpolentryid_active.inc(rinfo.secpolicy_entry_id.clone());
            self.blocks += 1;
        } else {
            self.secpolid_report.inc(rinfo.secpolicy_id.clone());
            self.secpolentryid_report.inc(rinfo.secpolicy_entry_id.clone());
            self.report += 1;
        }
    }

    /// Counts the answer to a request, its method, and how long it took.
    fn count_answer(&mut self, rcode: Option<u32>, rinfo: &RequestInfo, processing_time: Option<i64>)
        requires
            old(self).wf(),
            old(self)@.answered(rcode, *rinfo, processing_time).fits(),
            old(self)@.takes_time(processing_time),
        ensures
            final(self).wf(),
            final(self)@ == old(self)@.answered(rcode, *rinfo, processing_time),
    {
        let ghost next = self@.answered(rcode, *rinfo, processing_time);
        if let Some(code) = rcode {
            proof {
                assert(next.status.contains_key(code));
                assert(next.status_classes.contains_key(status_class(code)));
            }
            self.status.inc(code);
            self.status_classes.inc(((code / 100) % 256) as u8);
        }
        proof {
            assert(next.methods.contains_key(rinfo.method@));
        }
        self.methods.inc(rinfo.method.clone());
        if let Some(sample) = processing_time {
            self.processing_time.increment(sample);
        }
    }

    /// Counts where a request came from and where it went.
    fn count_values(&mut self, rinfo: &RequestInfo, blocked: bool)
        requires
            old(self).wf(),
            old(self)@.measured(*rinfo, blocked).fits(),
        ensures
            final(self).wf(),
            final(self)@ == old(self)@.measured(*rinfo, blocked),
    {
        self.ip.inc(&rinfo.ip, blocked);
        self.session.inc(&rinfo.session, blocked);
        self.uri.inc(&rinfo.uri, blocked);
        if let Some(user_agent) = find_header(&rinfo.headers, "user-agent") {
            self.user_agent.inc(user_agent, blocked);
        }
        if let Some(country) = &rinfo.country {
            self.country.inc(country, blocked);
        }
        if let Some(asn) = &rinfo.asn {
            self.asn.inc(asn, blocked);
        }
    }

    /// Counts the tags of a request.
    fn count_tags(&mut self, tags: &Vec<String>)
        requires
            old(self).wf(),
            forall|i: int|
                0 <= i <= tags.len() ==> old(self)@.tagged(#[trigger] texts(tags@).take(i)).fits(),
        ensures
            final(self).wf(),
            final(self)@ == old(self)@.tagged(texts(tags@)),
    {
        let ghost all = texts(tags@);
        let mut i: usize = 0;
        proof {
            lemma_tagged_empty(self@, all.take(0));
        }
        while i < tags.len()
            invariant
                i <= tags.len(),
                all == texts(tags@),
                self.wf(),
                self@ == old(self)@.tagged(all.take(i as int)),
                forall|i: int|
                    0 <= i <= tags.len() ==> old(self)@.tagged(#[trigger] all.take(i)).fits(),
            decreases tags.len() - i,
        {
            proof {
                lemma_tagged_push(old(self)@, all.take(i as int), all[i as int]);
                assert(all.take(i + 1) =~= all.take(i as int).push(all[i as int]));
                lemma_tag_names();
            }
            let tag = tags[i].as_str();
            if same_text(tag, "all") {
            } else if same_text(tag, "bot") {
                self.bot += 1;
            } else if same_text(tag, "human") {
                self.human += 1;
            } else if !has_colon(tag) {
                self.top_tags.inc(tags[i].clone());
            }
            i += 1;
        }
        proof {
            assert(all.take(i as int) =~= all);
        }
    }

    /// Counts the size of a request.
    fn count_sizes(&mut self, rinfo: &RequestInfo)
        requires
            old(self).wf(),
            old(self)@.sized(*rinfo).fits(),
        ensures
            final(self).wf(),
            final(self)@ == old(self)@.sized(*rinfo),
    {
        let ghost next = self@.sized(*rinfo);
        let headers: usize = rinfo.headers.len();
        proof {
            assert(next.args_amount.contains_key(rinfo.args));
            assert(next.cookies_amount.contains_key(rinfo.cookies));
            assert(next.headers_amount.contains_key(headers));
        }
        self.args_amount.inc(rinfo.args);
        self.cookies_amount.inc(rinfo.cookies);
        self.headers_amount.inc(headers);
    }

    /// Counts what was seen together in a request.
    fn count_pairs(&mut self, rinfo: &RequestInfo)
        requires
            old(self).wf(),
        ensures
            final(self).wf(),
            final(self)@ == old(self)@.paired(*rinfo),
    {
        self.ip_per_uri.add(rinfo.ip.clone(), &rinfo.uri);
        self.uri_per_ip.add(rinfo.uri.clone(), &rinfo.ip);
        self.session_per_uri.add(rinfo.session.clone(), &rinfo.uri);
        self.uri_per_session.add(rinfo.uri.clone(), &rinfo.session);
    }

    /// Counts a request that took `processing_time` microseconds, if that is known.
    pub fn increment_timed(
        &mut self,
        dec: &Decision,
        rcode: Option<u32>,
        rinfo: &RequestInfo,
        tags: &Tags,
        processing_time: Option<i64>,
    )
        requires
            old(self).wf(),
            old(self)@.takes(
                dec.reasons@,
                rcode,
                *rinfo,
                texts(tags.tags@),
                processing_time,
            ),
        ensures
            final(self).wf(),
            final(self)@ == old(self)@.incremented(
                dec.reasons@,
                rcode,
                *rinfo,
                texts(tags.tags@),
                processing_time,
            ),
    {
        let ghost start = self@;
        let ghost all = texts(tags.tags@);
        let ghost reasons = dec.reasons@;
        let ghost end = start.incremented(reasons, rcode, *rinfo, all, processing_time);
        proof {
            lemma_counted_empty(start, reasons.take(0));
            assert(start.fits());
            assert(reasons.take(reasons.len() as int) =~= reasons);
            assert(start.counted(reasons).fits());
            assert(end.fits());
        }
        let o = outcome(&dec.reasons);
        self.count_reasons(&dec.reasons);
        self.count_decision(&o, rinfo);
        self.count_answer(rcode, rinfo, processing_time);
        self.count_values(rinfo, o.blocked);
        proof {
            assert forall|i: int| 0 <= i <= all.len() implies self@.tagged(
                #[trigger] all.take(i),
            ).fits() by {
                assert(start.tagged(all.take(i)).fits());
            }
        }
        self.count_tags(&tags.tags);
        self.count_sizes(rinfo);
        self.count_pairs(rinfo);
    }

    /// Counts a request that took `processing_time` microseconds, if that is known.
    ///
    /// Nothing is counted, and the answer is `false`, where a counter would grow past its type.
    pub fn try_increment(
        &mut self,
        dec: &Decision,
        rcode: Option<u32>,
        rinfo: &RequestInfo,
        tags: &Tags,
        processing_time: Option<i64>,
    ) -> (done: bool)
        requires
            old(self).wf(),
        ensures
            final(self).wf(),
            done == old(self)@.takes(
                dec.reasons@,
                rcode,
                *rinfo,
                texts(tags.tags@),
                processing_time,
            ),
            final(self)@ == if done {
                old(self)@.incremented(
                    dec.reasons@,
                    rcode,
                    *rinfo,
                    texts(tags.tags@),
                    processing_time,
                )
            } else {
                old(self)@
            },
    {
        if self.can_take(dec, rcode, rinfo, tags, processing_time) {
            self.increment_timed(dec, rcode, rinfo, tags, processing_time);
            true
        } else {
            false
        }
    }

    /// Counts a request that is being answered now.
    ///
    /// Nothing is counted, and the answer is `false`, where a counter would grow past its type.
    pub fn increment(
        &mut self,
        dec: &Decision,
        rcode: Option<u32>,
        rinfo: &RequestInfo,
        tags: &Tags,
    ) -> (done: bool)
        requires
            old(self).wf(),
            rinfo.timestamp.valid(),
        ensures
            final(self).wf(),
            exists|now: Timestamp| #[trigger]
                now.valid() && done == old(self)@.takes(
                    dec.reasons@,
                    rcode,
                    *rinfo,
                    texts(tags.tags@),
                    elapsed_micros(now, rinfo.timestamp),
                ) && final(self)@ == if done {
                    old(self)@.incremented(
                        dec.reasons@,
                        rcode,
                        *rinfo,
                        texts(tags.tags@),
                        elapsed_micros(now, rinfo.timestamp),
                    )
                } else {
                    old(self)@
                },
    {
        let now = utc_now();
        let processing_time = processing_micros(&now, &rinfo.timestamp);
        self.try_increment(dec, rcode, rinfo, tags, processing_time)
    }
}

/// What the matches of a request come to.
pub fn outcome(reasons: &Vec<BlockReason>) -> (o: Outcome)
    ensures
        o == outcome_of(reasons@),
{
    let mut skip = false;
    let mut block = false;
    let mut acl_active = false;
    let mut acl_inactive = false;
    let mut rule_active = false;
    let mut rule_inactive = false;
    let mut i: usize = 0;
    while i < reasons.len()
        invariant
            i <= reasons.len(),
            skip == has_skip(reasons@.take(i as int)),
            block == has_block(reasons@.take(i as int)),
            acl_active == has_acl(reasons@.take(i as int), true),
            acl_inactive == has_acl(reasons@.take(i as int), false),
            rule_active == has_rule(reasons@.take(i as int), true),
            rule_inactive == has_rule(reasons@.take(i as int), false),
        decreases reasons.len() - i,
    {
        proof {
            lemma_has_push(reasons@, i as int);
        }
        let r = &reasons[i];
        let active = r.decision == BDecision::Blocking;
        if r.decision == BDecision::Skip {
            skip = true;
        }
        if active {
            block = true;
        }
        match &r.initiator {
            Initiator::Acl => {
                if active {
                    acl_active = true;
                } else {
                    acl_inactive = true;
                }
            },
            Initiator::ContentFilter { ruleid: _, risk_level: _ } => {
                if active {
                    rule_active = true;
                } else {
                    rule_inactive = true;
                }
            },
            _ => {},
        }
        i += 1;
    }
    proof {
        assert(reasons@.take(i as int) =~= reasons@);
    }
    Outcome {
        blocked: block && !skip,
        acl_blocked: acl_active && !skip,
        acl_report: acl_inactive || (acl_active && !skip),
        cf_blocked: rule_active && !skip,
        cf_report: rule_inactive || (rule_active && !skip),
    }
}

proof fn lemma_has_push(reasons: Seq<BlockReason>, i: int)
    requires
        0 <= i < reasons.len(),
    ensures
        ({
            let front = reasons.take(i);
            let next = reasons.take(i + 1);
            let r = reasons[i];
            &&& has_skip(next) == (has_skip(front) || r.decision == BDecision::Skip)
            &&& has_block(next) == (has_block(front) || blocking(r))
            &&& forall|active: bool| #[trigger]
                has_acl(next, active) == (has_acl(front, active) || (r.initiator is Acl && blocking(r)
                    == active))
            &&& forall|active: bool| #[trigger]
                has_rule(next, active) == (has_rule(front, active) || (r.initiator is ContentFilter
                    && blocking(r) == active))
        }),
{
    let front = reasons.take(i);
    let next = reasons.take(i + 1);
    assert(next[i] == reasons[i]);
    assert forall|j: int| 0 <= j < i implies next[j] == #[trigger] front[j] by {
        assert(front[j] == reasons[j]);
    }
    assert forall|j: int| 0 <= j < i implies front[j] == #[trigger] next[j] by {
        assert(next[j] == reasons[j]);
    }
}

/// The value of the first header of a name.
pub fn find_header<'a>(headers: &'a Vec<(String, String)>, name: &str) -> (r: Option<&'a String>)
    ensures
        match r {
            Some(value) => header_value(headers@, name@) == Some(value@),
            None => header_value(headers@, name@) is None,
        },
{
    let mut i: usize = 0;
    proof {
        assert(headers@.skip(0) =~= headers@);
    }
    while i < headers.len()
        invariant
            i <= headers.len(),
            header_value(headers@, name@) == header_value(headers@.skip(i as int), name@),
        decreases headers.len() - i,
    {
        if same_text(headers[i].0.as_str(), name) {
            return Some(&headers[i].1);
        }
        proof {
            assert(headers@.skip(i as int).drop_first() =~= headers@.skip(i + 1));
        }
        i += 1;
    }
    None
}

/// Whether a text holds a colon.
pub fn has_colon(text: &str) -> (r: bool)
    ensures
        r == text@.contains(':'),
{
    let mut chars = text.chars();
    let ghost mut i: int = 0;
    proof {
        assert(text@.skip(0) =~= text@);
    }
    loop
        invariant
            0 <= i <= text@.len(),
            vstd::std_specs::iter::IteratorSpec::remaining(&chars) == text@.skip(i),
            forall|j: int| 0 <= j < i ==> text@[j] != ':',
        decreases text@.len() - i,
    {
        match chars.next() {
            None => {
                return false;
            },
            Some(c) => {
                proof {
                    assert(c == text@[i]);
                    assert(text@.skip(i).drop_first() =~= text@.skip(i + 1));
                }
                if c == ':' {
                    return true;
                }
                proof {
                    i = i + 1;
                }
            },
        }
    }
}

proof fn lemma_tag_names()
    ensures
        "all"@ != "bot"@,
        "all"@ != "human"@,
        "bot"@ != "human"@,
{
    reveal_strlit("all");
    reveal_strlit("bot");
    reveal_strlit("human");
    assert("all"@[0] != "bot"@[0]);
    assert("all"@.len() != "human"@.len());
    assert("bot"@.len() != "human"@.len());
}

pub open spec fn is_tag(tag: Seq<char>) -> spec_fn(Seq<char>) -> bool {
    |t: Seq<char>| t == tag
}

pub open spec fn is_listed() -> spec_fn(Seq<char>) -> bool {
    |t: Seq<char>| listed_tag(t)
}

proof fn lemma_tagged_empty(c: CountersView, none: Seq<Seq<char>>)
    requires
        none.len() == 0,
    ensures
        c.tagged(none) == c,
{
    reveal(Seq::filter);
}

proof fn lemma_tagged_push(c: CountersView, tags: Seq<Seq<char>>, tag: Seq<char>)
    ensures
        tag_count(tags.push(tag), "bot"@) == tag_count(tags, "bot"@) + if tag == "bot"@ {
            1nat
        } else {
            0
        },
        tag_count(tags.push(tag), "human"@) == tag_count(tags, "human"@) + if tag == "human"@ {
            1nat
        } else {
            0
        },
        c.top_tags.inc_all(listed_tags(tags.push(tag))) == if listed_tag(tag) {
            c.top_tags.inc_all(listed_tags(tags)).inc(tag)
        } else {
            c.top_tags.inc_all(listed_tags(tags))
        },
{
    lemma_filter_push(tags, is_tag("bot"@), tag);
    lemma_filter_push(tags, is_tag("human"@), tag);
    lemma_filter_push(tags, is_listed(), tag);
    if listed_tag(tag) {
        assert(listed_tags(tags.push(tag)).drop_last() =~= listed_tags(tags));
    }
}

proof fn lemma_one<A>(p: spec_fn(A) -> bool, x: A)
    ensures
        seq![x].filter(p) == if p(x) {
            seq![x]
        } else {
            Seq::empty()
        },
{
    lemma_filter_push(Seq::empty(), p, x);
    reveal(Seq::filter);
    assert(seq![x] =~= Seq::empty().push(x));
    assert(Seq::<A>::empty().filter(p) =~= Seq::empty());
    assert(Seq::<A>::empty().push(x) =~= seq![x]);
}

pub open spec fn counts_as(t: Trigger, active: bool) -> spec_fn(BlockReason) -> bool {
    |r: BlockReason| trigger_of(r.initiator) == Some(t) && blocking(r) == active
}

pub open spec fn is_challenge() -> spec_fn(BlockReason) -> bool {
    |r: BlockReason| r.initiator is Phase02
}

proof fn lemma_one_reason(r: BlockReason)
    ensures
        forall|t: Trigger, active: bool| #[trigger]
            triggered(seq![r], t, active) == if trigger_of(r.initiator) == Some(t) && blocking(r)
                == active {
                1nat
            } else {
                0
            },
        challenges(seq![r]) == if r.initiator is Phase02 {
            1nat
        } else {
            0
        },
{
    assert forall|t: Trigger, active: bool| #[trigger] triggered(seq![r], t, active) == if trigger_of(
        r.initiator,
    ) == Some(t) && blocking(r) == active {
        1nat
    } else {
        0
    } by {
        lemma_one(counts_as(t, active), r);
    }
    lemma_one(is_challenge(), r);
}

proof fn lemma_one_rule(r: BlockReason, active: bool)
    ensures
        rule_ids(seq![r], active) == if by_rule(active)(r) {
            seq![r.initiator->ruleid@]
        } else {
            Seq::empty()
        },
        risk_levels(seq![r], active) == if by_rule(active)(r) {
            seq![r.initiator->risk_level]
        } else {
            Seq::empty()
        },
{
    lemma_one(by_rule(active), r);
    if by_rule(active)(r) {
        assert(rule_ids(seq![r], active) =~= seq![r.initiator->ruleid@]);
        assert(risk_levels(seq![r], active) =~= seq![r.initiator->risk_level]);
    } else {
        assert(rule_ids(seq![r], active) =~= Seq::empty());
        assert(risk_levels(seq![r], active) =~= Seq::empty());
    }
}

pub proof fn lemma_one_inc(t: TopView<Seq<char>>, r: BlockReason, active: bool)
    ensures
        t.inc_all(rule_ids(seq![r], active)) == if by_rule(active)(r) {
            t.inc(r.initiator->ruleid@)
        } else {
            t
        },
{
    lemma_one_rule(r, active);
    reveal_with_fuel(TopView::inc_all, 2);
    if by_rule(active)(r) {
        assert(rule_ids(seq![r], active).drop_last() =~= Seq::empty());
    }
}

pub proof fn lemma_one_bag(m: Map<u8, nat>, r: BlockReason, active: bool)
    ensures
        bag_add_all(m, risk_levels(seq![r], active)) == if by_rule(active)(r) {
            bag_add(m, r.initiator->risk_level, 1)
        } else {
            m
        },
        by_rule(active)(r) ==> bag_add(m, r.initiator->risk_level, 1).contains_key(
            r.initiator->risk_level,
        ),
{
    lemma_one_rule(r, active);
    reveal_with_fuel(bag_add_all, 2);
    if by_rule(active)(r) {
        assert(risk_levels(seq![r], active).drop_last() =~= Seq::empty());
    }
}

pub proof fn lemma_one_section(v: SectionView, r: BlockReason, active: bool)
    ensures
        v.counted(seq![r], active) == if blocking(r) == active {
            v.located(r.location@)
        } else {
            v
        },
{
    reveal_with_fuel(section_hits, 2);
    assert(seq![r].drop_last() =~= Seq::empty());
}

pub proof fn lemma_counted_empty(c: CountersView, none: Seq<BlockReason>)
    requires
        none.len() == 0,
    ensures
        c.counted(none) == c,
{
    reveal(Seq::filter);
    assert(rule_ids(none, true) =~= Seq::empty());
    assert(rule_ids(none, false) =~= Seq::empty());
    assert(risk_levels(none, true) =~= Seq::empty());
    assert(risk_levels(none, false) =~= Seq::empty());
}

proof fn lemma_push_rule(reasons: Seq<BlockReason>, r: BlockReason, active: bool)
    ensures
        rule_ids(reasons.push(r), active) == rule_ids(reasons, active) + rule_ids(
            seq![r],
            active,
        ),
        risk_levels(reasons.push(r), active) == risk_levels(reasons, active) + risk_levels(
            seq![r],
            active,
        ),
{
    lemma_filter_push(reasons, by_rule(active), r);
    lemma_one_rule(r, active);
    assert(rule_ids(reasons.push(r), active) =~= rule_ids(reasons, active) + rule_ids(
        seq![r],
        active,
    ));
    assert(risk_levels(reasons.push(r), active) =~= risk_levels(reasons, active) + risk_levels(
        seq![r],
        active,
    ));
}

proof fn lemma_push_inc(
    t: TopView<Seq<char>>,
    reasons: Seq<BlockReason>,
    r: BlockReason,
    active: bool,
)
    ensures
        t.inc_all(rule_ids(reasons.push(r), active)) == t.inc_all(
            rule_ids(reasons, active),
        ).inc_all(rule_ids(seq![r], active)),
{
    lemma_push_rule(reasons, r, active);
    lemma_one_rule(r, active);
    lemma_one_inc(t.inc_all(rule_ids(reasons, active)), r, active);
    let ids = rule_ids(reasons, active);
    if by_rule(active)(r) {
        let all = rule_ids(reasons.push(r), active);
        assert(all.drop_last() =~= ids);
    } else {
        assert(ids + Seq::empty() =~= ids);
    }
}

proof fn lemma_push_bag(
    m: Map<u8, nat>,
    reasons: Seq<BlockReason>,
    r: BlockReason,
    active: bool,
)
    ensures
        bag_add_all(m, risk_levels(reasons.push(r), active)) == bag_add_all(
            bag_add_all(m, risk_levels(reasons, active)),
            risk_levels(seq![r], active),
        ),
{
    lemma_push_rule(reasons, r, active);
    lemma_one_rule(r, active);
    lemma_one_bag(bag_add_all(m, risk_levels(reasons, active)), r, active);
    let levels = risk_levels(reasons, active);
    if by_rule(active)(r) {
        let all = risk_levels(reasons.push(r), active);
        assert(all.drop_last() =~= levels);
    } else {
        assert(levels + Seq::empty() =~= levels);
    }
}

pub proof fn lemma_push_section(v: SectionView, reasons: Seq<BlockReason>, r: BlockReason, active: bool)
    ensures
        v.counted(reasons.push(r), active) == v.counted(reasons, active).counted(seq![r], active),
{
    lemma_one_section(v.counted(reasons, active), r, active);
    assert(reasons.push(r).drop_last() =~= reasons);
}

proof fn lemma_push_trigger(reasons: Seq<BlockReason>, r: BlockReason)
    ensures
        forall|t: Trigger, active: bool| #[trigger]
            triggered(reasons.push(r), t, active) == triggered(reasons, t, active) + triggered(
                seq![r],
                t,
                active,
            ),
        challenges(reasons.push(r)) == challenges(reasons) + challenges(seq![r]),
{
    assert forall|t: Trigger, active: bool| #[trigger]
        triggered(reasons.push(r), t, active) == triggered(reasons, t, active) + triggered(
            seq![r],
            t,
            active,
        ) by {
        lemma_filter_push(reasons, counts_as(t, active), r);
        lemma_one(counts_as(t, active), r);
    }
    lemma_filter_push(reasons, is_challenge(), r);
    lemma_one(is_challenge(), r);
}

/// To count one match more is to count it on its own afterwards.
pub proof fn lemma_counted_push(c: CountersView, reasons: Seq<BlockReason>, r: BlockReason)
    ensures
        c.counted(reasons.push(r)) == c.counted(reasons).counted(seq![r]),
{
    lemma_push_trigger(reasons, r);
    lemma_push_inc(c.ruleid_active, reasons, r, true);
    lemma_push_inc(c.ruleid_report, reasons, r, false);
    lemma_push_bag(c.risk_level_active, reasons, r, true);
    lemma_push_bag(c.risk_level_report, reasons, r, false);
    lemma_push_section(c.location_active, reasons, r, true);
    lemma_push_section(c.location_report, reasons, r, false);
}

} // verus!
