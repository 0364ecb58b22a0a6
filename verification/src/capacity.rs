//! Whether a request fits into the counters of a second.

use crate::bag::bag_add;
use crate::counters::{
    bag_add_all, by_rule, challenges, counts_as, find_header, has_colon, is_challenge, is_listed,
    is_tag, lemma_counted_empty, lemma_counted_push, lemma_filter_prefix, lemma_filter_push,
    lemma_one_bag, lemma_one_inc, lemma_one_section, lemma_push_section, lies_in, listed_tag,
    listed_tags, outcome, outcome_of, risk_levels, rule_ids, section_hits, tag_count, texts,
    triggered, AggSection, AggregatedCounters, CountersView, Outcome, Section, SectionView,
    Trigger,
};
use crate::key::same_text;
use crate::request::{BDecision, BlockReason, Decision, Initiator, Location, RequestInfo, Tags};
use crate::sorted_map::counts_at_most;
use crate::top::{TopN, TopView};
use vstd::prelude::*;

verus! {

proof fn lemma_filter_len<A>(s: Seq<A>, p: spec_fn(A) -> bool)
    ensures
        s.filter(p).len() <= s.len(),
    decreases s.len(),
{
    reveal(Seq::filter);
    if s.len() > 0 {
        lemma_filter_len(s.drop_last(), p);
    }
}

proof fn lemma_tops_room<A>(t: TopView<A>, s: Seq<A>, bound: nat)
    requires
        t.at_most(bound),
    ensures
        t.inc_all(s).at_most(bound + s.len()),
    decreases s.len(),
{
    if s.len() > 0 {
        let front = t.inc_all(s.drop_last());
        lemma_tops_room(t, s.drop_last(), bound);
        let next = front.inc(s.last());
        assert forall|a: A| #[trigger] next.counts.contains_key(a) implies next.counts[a] <= bound
            + s.len() by {
            if front.counts.contains_key(a) {
                assert(front.counts[a] <= bound + s.len() - 1);
            }
        }
    }
}

proof fn lemma_bags_room<A>(m: Map<A, nat>, s: Seq<A>, bound: nat)
    requires
        counts_at_most(m, bound),
    ensures
        counts_at_most(bag_add_all(m, s), bound + s.len()),
    decreases s.len(),
{
    if s.len() > 0 {
        let front = bag_add_all(m, s.drop_last());
        lemma_bags_room(m, s.drop_last(), bound);
        let next = bag_add(front, s.last(), 1);
        assert forall|a: A| #[trigger] next.contains_key(a) implies next[a] <= bound + s.len() by {
            if front.contains_key(a) {
                assert(front[a] <= bound + s.len() - 1);
            }
        }
    }
}

fn counted_as(r: &BlockReason, t: Trigger, active: bool) -> (b: bool)
    ensures
        b == counts_as(t, active)(*r),
{
    if (r.decision == BDecision::Blocking) != active {
        return false;
    }
    match &r.initiator {
        Initiator::GlobalFilter => t == Trigger::GlobalFilter,
        Initiator::Acl | Initiator::Phase02 => t == Trigger::Acl,
        Initiator::Limit => t == Trigger::RateLimit,
        Initiator::Phase01Fail => false,
        _ => t == Trigger::ContentFilter,
    }
}

/// Whether a counter of matches can take some more.
fn trigger_fits(start: usize, reasons: &Vec<BlockReason>, t: Trigger, active: bool) -> (r: bool)
    ensures
        r == (start + triggered(reasons@, t, active) <= usize::MAX),
{
    let mut n: usize = 0;
    let mut i: usize = 0;
    proof {
        reveal(Seq::filter);
    }
    while i < reasons.len()
        invariant
            n <= i <= reasons.len(),
            n == triggered(reasons@.take(i as int), t, active),
        decreases reasons.len() - i,
    {
        proof {
            lemma_filter_push(reasons@.take(i as int), counts_as(t, active), reasons@[i as int]);
            assert(reasons@.take(i + 1) =~= reasons@.take(i as int).push(reasons@[i as int]));
        }
        if counted_as(&reasons[i], t, active) {
            n += 1;
        }
        i += 1;
    }
    proof {
        assert(reasons@.take(i as int) =~= reasons@);
    }
    n <= usize::MAX - start
}

/// Whether the counter of challenges can take some more.
fn challenges_fit(start: usize, reasons: &Vec<BlockReason>) -> (r: bool)
    ensures
        r == (start + challenges(reasons@) <= usize::MAX),
{
    let mut n: usize = 0;
    let mut i: usize = 0;
    proof {
        reveal(Seq::filter);
    }
    while i < reasons.len()
        invariant
            n <= i <= reasons.len(),
            n == challenges(reasons@.take(i as int)),
        decreases reasons.len() - i,
    {
        proof {
            lemma_filter_push(reasons@.take(i as int), is_challenge(), reasons@[i as int]);
            assert(reasons@.take(i + 1) =~= reasons@.take(i as int).push(reasons@[i as int]));
        }
        if matches!(reasons[i].initiator, Initiator::Phase02) {
            n += 1;
        }
        i += 1;
    }
    proof {
        assert(reasons@.take(i as int) =~= reasons@);
    }
    n <= usize::MAX - start
}

/// More matches lie in no fewer parts.
proof fn lemma_hits_grow(reasons: Seq<BlockReason>, active: bool, s: Section, i: int)
    requires
        0 <= i <= reasons.len(),
    ensures
        section_hits(reasons.take(i), active, s) <= section_hits(reasons, active, s),
    decreases reasons.len() - i,
{
    if i < reasons.len() {
        lemma_hits_grow(reasons, active, s, i + 1);
        assert(reasons.take(i + 1).drop_last() =~= reasons.take(i));
    } else {
        assert(reasons.take(i) =~= reasons);
    }
}

proof fn lemma_sections_grow(v: SectionView, reasons: Seq<BlockReason>, active: bool, i: int)
    requires
        0 <= i <= reasons.len(),
    ensures
        v.counted(reasons, active).at_most(usize::MAX as nat) ==> v.counted(
            reasons.take(i),
            active,
        ).at_most(usize::MAX as nat),
{
    lemma_hits_grow(reasons, active, Section::Headers, i);
    lemma_hits_grow(reasons, active, Section::Uri, i);
    lemma_hits_grow(reasons, active, Section::Args, i);
    lemma_hits_grow(reasons, active, Section::Body, i);
    lemma_hits_grow(reasons, active, Section::Attrs, i);
}

/// Adds the parts that some locations name, if the counters can take them.
fn try_count(s: &mut AggSection, locations: &Vec<Location>) -> (done: bool)
    ensures
        done == old(s)@.located(locations@).at_most(usize::MAX as nat),
        done ==> final(s)@ == old(s)@.located(locations@),
{
    let mut more = AggSection::default();
    proof {
        lemma_filter_len(locations@, lies_in(Section::Headers));
        lemma_filter_len(locations@, lies_in(Section::Uri));
        lemma_filter_len(locations@, lies_in(Section::Args));
        lemma_filter_len(locations@, lies_in(Section::Body));
        lemma_filter_len(locations@, lies_in(Section::Attrs));
        assert(locations.len() <= usize::MAX);
    }
    more.count(locations);
    let fits = more.headers <= usize::MAX - s.headers && more.uri <= usize::MAX - s.uri && more.args
        <= usize::MAX - s.args && more.body <= usize::MAX - s.body && more.attrs <= usize::MAX
        - s.attrs;
    if fits {
        s.headers += more.headers;
        s.uri += more.uri;
        s.args += more.args;
        s.body += more.body;
        s.attrs += more.attrs;
    }
    fits
}

/// Whether the counters of the parts that matches lie in can take some more.
fn sections_fit(s: &AggSection, reasons: &Vec<BlockReason>, active: bool) -> (r: bool)
    ensures
        r == s@.counted(reasons@, active).at_most(usize::MAX as nat),
{
    let mut next = AggSection {
        headers: s.headers,
        uri: s.uri,
        args: s.args,
        body: s.body,
        attrs: s.attrs,
    };
    let mut i: usize = 0;
    while i < reasons.len()
        invariant
            i <= reasons.len(),
            next@ == s@.counted(reasons@.take(i as int), active),
        decreases reasons.len() - i,
    {
        let ghost r = reasons@[i as int];
        proof {
            lemma_push_section(s@, reasons@.take(i as int), r, active);
            lemma_one_section(next@, r, active);
            assert(reasons@.take(i + 1) =~= reasons@.take(i as int).push(r));
            lemma_sections_grow(s@, reasons@, active, i + 1);
        }
        if (reasons[i].decision == BDecision::Blocking) == active {
            if !try_count(&mut next, &reasons[i].location) {
                return false;
            }
        }
        i += 1;
    }
    proof {
        assert(reasons@.take(i as int) =~= reasons@);
    }
    true
}

/// Whether the tables of content filter rules are within their types.
spec fn rules_fit(c: CountersView) -> bool {
    &&& c.ruleid_active.at_most(usize::MAX as nat)
    &&& c.ruleid_report.at_most(usize::MAX as nat)
    &&& counts_at_most(c.risk_level_active, usize::MAX as nat)
    &&& counts_at_most(c.risk_level_report, usize::MAX as nat)
}

proof fn lemma_rules_room(c: CountersView, reasons: Seq<BlockReason>, work: nat)
    requires
        reasons.len() <= work <= usize::MAX,
        c.ruleid_active.at_most((usize::MAX - work) as nat),
        c.ruleid_report.at_most((usize::MAX - work) as nat),
        counts_at_most(c.risk_level_active, (usize::MAX - work) as nat),
        counts_at_most(c.risk_level_report, (usize::MAX - work) as nat),
    ensures
        rules_fit(c.counted(reasons)),
{
    let bound = (usize::MAX - work) as nat;
    lemma_filter_len(reasons, by_rule(true));
    lemma_filter_len(reasons, by_rule(false));
    lemma_tops_room(c.ruleid_active, rule_ids(reasons, true), bound);
    lemma_tops_room(c.ruleid_report, rule_ids(reasons, false), bound);
    lemma_bags_room(c.risk_level_active, risk_levels(reasons, true), bound);
    lemma_bags_room(c.risk_level_report, risk_levels(reasons, false), bound);
}

/// The scalar counters of matches, and the parts that they lie in.
spec fn matches_fit(c: CountersView) -> bool {
    &&& c.requests_triggered_globalfilter_active <= usize::MAX
    &&& c.requests_triggered_globalfilter_report <= usize::MAX
    &&& c.requests_triggered_cf_active <= usize::MAX
    &&& c.requests_triggered_cf_report <= usize::MAX
    &&& c.requests_triggered_acl_active <= usize::MAX
    &&& c.requests_triggered_acl_report <= usize::MAX
    &&& c.requests_triggered_ratelimit_active <= usize::MAX
    &&& c.requests_triggered_ratelimit_report <= usize::MAX
    &&& c.challenge <= usize::MAX
    &&& c.location_active.at_most(usize::MAX as nat)
    &&& c.location_report.at_most(usize::MAX as nat)
}

/// Where all matches fit, the first ones do.
proof fn lemma_matches_grow(c: CountersView, reasons: Seq<BlockReason>, i: int)
    requires
        0 <= i <= reasons.len(),
        matches_fit(c.counted(reasons)),
    ensures
        matches_fit(c.counted(reasons.take(i))),
{
    assert forall|t: Trigger, active: bool| #[trigger]
        triggered(reasons.take(i), t, active) <= triggered(reasons, t, active) by {
        lemma_filter_prefix(reasons, counts_as(t, active), i);
    }
    lemma_filter_prefix(reasons, is_challenge(), i);
    lemma_sections_grow(c.location_active, reasons, true, i);
    lemma_sections_grow(c.location_report, reasons, false, i);
}

/// A request is taken where each of its parts is.
proof fn lemma_takes(
    c: CountersView,
    reasons: Seq<BlockReason>,
    rcode: Option<u32>,
    rinfo: RequestInfo,
    tags: Seq<Seq<char>>,
    processing_time: Option<i64>,
)
    requires
        c.fits(),
    ensures
        c.takes(reasons, rcode, rinfo, tags, processing_time) == {
            let o = outcome_of(reasons);
            &&& forall|i: int|
                0 <= i <= reasons.len() ==> c.counted(#[trigger] reasons.take(i)).fits()
            &&& forall|i: int| 0 <= i <= tags.len() ==> c.tagged(#[trigger] tags.take(i)).fits()
            &&& c.takes_time(processing_time)
            &&& c.decided(o, rinfo).fits()
            &&& c.answered(rcode, rinfo, processing_time).fits()
            &&& c.measured(rinfo, o.blocked).fits()
            &&& c.sized(rinfo).fits()
        },
{
    assert(reasons.take(reasons.len() as int) =~= reasons);
    assert(tags.take(tags.len() as int) =~= tags);
    let all = c.incremented(reasons, rcode, rinfo, tags, processing_time);
    let o = outcome_of(reasons);
    if all.fits() {
        assert(c.decided(o, rinfo).fits());
        assert(c.answered(rcode, rinfo, processing_time).fits());
        assert(c.measured(rinfo, o.blocked).fits());
        assert(c.sized(rinfo).fits());
    }
    if c.counted(reasons).fits() && c.tagged(tags).fits() && c.decided(o, rinfo).fits()
        && c.answered(rcode, rinfo, processing_time).fits() && c.measured(rinfo, o.blocked).fits()
        && c.sized(rinfo).fits() {
        assert(all.fits());
    }
}

/// Whether the counter of a tag can take some more.
fn tag_fits(start: usize, tags: &Vec<String>, name: &str) -> (r: bool)
    ensures
        r == (start + tag_count(texts(tags@), name@) <= usize::MAX),
{
    let ghost all = texts(tags@);
    let mut n: usize = 0;
    let mut i: usize = 0;
    proof {
        reveal(Seq::filter);
    }
    while i < tags.len()
        invariant
            n <= i <= tags.len(),
            all == texts(tags@),
            n == tag_count(all.take(i as int), name@),
        decreases tags.len() - i,
    {
        proof {
            lemma_filter_push(all.take(i as int), is_tag(name@), all[i as int]);
            assert(all.take(i + 1) =~= all.take(i as int).push(all[i as int]));
        }
        if same_text(tags[i].as_str(), name) {
            n += 1;
        }
        i += 1;
    }
    proof {
        assert(all.take(i as int) =~= all);
    }
    n <= usize::MAX - start
}

/// Whether the table of tags can take some more, one after the other.
fn listed_fit(top: &TopN<String>, tags: &Vec<String>) -> (r: bool)
    requires
        top.wf(),
    ensures
        r == forall|i: int|
            0 <= i <= tags@.len() ==> top@.inc_all(
                listed_tags(#[trigger] texts(tags@).take(i)),
            ).at_most(usize::MAX as nat),
{
    let ghost all = texts(tags@);
    let work: usize = tags.len();
    if top.has_room(work) {
        proof {
            assert forall|i: int| 0 <= i <= all.len() implies top@.inc_all(
                listed_tags(#[trigger] all.take(i)),
            ).at_most(usize::MAX as nat) by {
                lemma_filter_len(all.take(i), is_listed());
                lemma_tops_room(top@, listed_tags(all.take(i)), (usize::MAX - work) as nat);
            }
        }
        return true;
    }
    let mut next = top.copied();
    let mut i: usize = 0;
    proof {
        reveal(Seq::filter);
        assert(listed_tags(all.take(0)) =~= Seq::empty());
    }
    while i < tags.len()
        invariant
            i <= tags.len(),
            all == texts(tags@),
            next.wf(),
            next@ == top@.inc_all(listed_tags(all.take(i as int))),
            forall|j: int|
                0 <= j <= i ==> top@.inc_all(listed_tags(#[trigger] all.take(j))).at_most(
                    usize::MAX as nat,
                ),
        decreases tags.len() - i,
    {
        let tag = tags[i].as_str();
        proof {
            lemma_filter_push(all.take(i as int), is_listed(), all[i as int]);
            assert(all.take(i + 1) =~= all.take(i as int).push(all[i as int]));
            if listed_tag(all[i as int]) {
                assert(listed_tags(all.take(i + 1)).drop_last() =~= listed_tags(all.take(i as int)));
            }
        }
        let listed = !same_text(tag, "all") && !same_text(tag, "bot") && !same_text(tag, "human")
            && !has_colon(tag);
        if listed {
            if !next.can_inc(&tags[i]) {
                return false;
            }
            next.inc(tags[i].clone());
        }
        i += 1;
    }
    true
}

/// More tags name no tag less often.
proof fn lemma_tags_grow(tags: Seq<Seq<char>>, i: int)
    requires
        0 <= i <= tags.len(),
    ensures
        tag_count(tags.take(i), "bot"@) <= tag_count(tags, "bot"@),
        tag_count(tags.take(i), "human"@) <= tag_count(tags, "human"@),
{
    lemma_filter_prefix(tags, is_tag("bot"@), i);
    lemma_filter_prefix(tags, is_tag("human"@), i);
}

impl AggregatedCounters {
    /// Whether the tables of content filter rules can take some matches, one after the other.
    fn rules_fit(&self, reasons: &Vec<BlockReason>) -> (r: bool)
        requires
            self.wf(),
        ensures
            r == forall|i: int|
                0 <= i <= reasons@.len() ==> rules_fit(self@.counted(#[trigger] reasons@.take(i))),
    {
        let ghost c = self@;
        let work: usize = reasons.len();
        if self.ruleid_active.has_room(work) && self.ruleid_report.has_room(work)
            && self.risk_level_active.has_room(work) && self.risk_level_report.has_room(work) {
            proof {
                assert forall|i: int| 0 <= i <= reasons@.len() implies rules_fit(
                    c.counted(#[trigger] reasons@.take(i)),
                ) by {
                    lemma_rules_room(c, reasons@.take(i), work as nat);
                }
            }
            return true;
        }
        let mut ruleid_active = self.ruleid_active.copied();
        let mut ruleid_report = self.ruleid_report.copied();
        let mut risk_level_active = self.risk_level_active.copied();
        let mut risk_level_report = self.risk_level_report.copied();
        let mut i: usize = 0;
        proof {
            lemma_counted_empty(c, reasons@.take(0));
        }
        while i < reasons.len()
            invariant
                i <= reasons.len(),
                c == self@,
                ruleid_active.wf(),
                ruleid_report.wf(),
                risk_level_active.wf(),
                risk_level_report.wf(),
                ruleid_active@ == c.counted(reasons@.take(i as int)).ruleid_active,
                ruleid_report@ == c.counted(reasons@.take(i as int)).ruleid_report,
                risk_level_active@ == c.counted(reasons@.take(i as int)).risk_level_active,
                risk_level_report@ == c.counted(reasons@.take(i as int)).risk_level_report,
                forall|j: int|
                    0 <= j <= i ==> rules_fit(c.counted(#[trigger] reasons@.take(j))),
            decreases reasons.len() - i,
        {
            let ghost front = c.counted(reasons@.take(i as int));
            let ghost r = reasons@[i as int];
            proof {
                lemma_counted_push(c, reasons@.take(i as int), r);
                assert(reasons@.take(i + 1) =~= reasons@.take(i as int).push(r));
                lemma_one_inc(front.ruleid_active, r, true);
                lemma_one_inc(front.ruleid_report, r, false);
                lemma_one_bag(front.risk_level_active, r, true);
                lemma_one_bag(front.risk_level_report, r, false);
            }
            let active = reasons[i].decision == BDecision::Blocking;
            if let Initiator::ContentFilter { ruleid, risk_level } = &reasons[i].initiator {
                if active {
                    if !ruleid_active.can_inc(ruleid) || !risk_level_active.can_inc(risk_level) {
                        return false;
                    }
                    ruleid_active.inc(ruleid.clone());
                    risk_level_active.inc(*risk_level);
                } else {
                    if !ruleid_report.can_inc(ruleid) || !risk_level_report.can_inc(risk_level) {
                        return false;
                    }
                    ruleid_report.inc(ruleid.clone());
                    risk_level_report.inc(*risk_level);
                }
            }
            i += 1;
        }
        true
    }

    /// Whether the counters of matches can take some more.
    fn matches_fit(&self, reasons: &Vec<BlockReason>) -> (r: bool)
        ensures
            r == matches_fit(self@.counted(reasons@)),
    {
        trigger_fits(
            self.requests_triggered_globalfilter_active,
            reasons,
            Trigger::GlobalFilter,
            true,
        ) && trigger_fits(
            self.requests_triggered_globalfilter_report,
            reasons,
            Trigger::GlobalFilter,
            false,
        ) && trigger_fits(self.requests_triggered_cf_active, reasons, Trigger::ContentFilter, true)
            && trigger_fits(
            self.requests_triggered_cf_report,
            reasons,
            Trigger::ContentFilter,
            false,
        ) && trigger_fits(self.requests_triggered_acl_active, reasons, Trigger::Acl, true)
            && trigger_fits(self.requests_triggered_acl_report, reasons, Trigger::Acl, false)
            && trigger_fits(
            self.requests_triggered_ratelimit_active,
            reasons,
            Trigger::RateLimit,
            true,
        ) && trigger_fits(
            self.requests_triggered_ratelimit_report,
            reasons,
            Trigger::RateLimit,
            false,
        ) && challenges_fit(self.challenge, reasons) && sections_fit(
            &self.location_active,
            reasons,
            true,
        ) && sections_fit(&self.location_report, reasons, false)
    }

    /// Whether the matches of a request fit, one after the other.
    fn reasons_fit(&self, reasons: &Vec<BlockReason>) -> (r: bool)
        requires
            self.wf(),
        ensures
            r == forall|i: int|
                0 <= i <= reasons@.len() ==> self@.counted(#[trigger] reasons@.take(i)).fits(),
    {
        let scalars = self.matches_fit(reasons);
        let tables = self.rules_fit(reasons);
        proof {
            let c = self@;
            assert(c.fits());
            assert(reasons@.take(reasons@.len() as int) =~= reasons@);
            if scalars {
                assert forall|i: int| 0 <= i <= reasons@.len() implies matches_fit(
                    c.counted(#[trigger] reasons@.take(i)),
                ) by {
                    lemma_matches_grow(c, reasons@, i);
                }
            }
            if scalars && tables {
                assert forall|i: int| 0 <= i <= reasons@.len() implies c.counted(
                    #[trigger] reasons@.take(i),
                ).fits() by {
                    assert(rules_fit(c.counted(reasons@.take(i))));
                    assert(matches_fit(c.counted(reasons@.take(i))));
                }
            }
            if !scalars {
                assert(!c.counted(reasons@.take(reasons@.len() as int)).fits());
            }
            if !tables {
                let i = choose|i: int|
                    0 <= i <= reasons@.len() && !rules_fit(c.counted(#[trigger] reasons@.take(i)));
                assert(!c.counted(reasons@.take(i)).fits());
            }
        }
        scalars && tables
    }

    /// Whether the tags of a request fit, one after the other.
    fn tags_fit(&self, tags: &Vec<String>) -> (r: bool)
        requires
            self.wf(),
        ensures
            r == forall|i: int|
                0 <= i <= tags@.len() ==> self@.tagged(#[trigger] texts(tags@).take(i)).fits(),
    {
        let scalars = tag_fits(self.bot, tags, "bot") && tag_fits(self.human, tags, "human");
        let table = listed_fit(&self.top_tags, tags);
        proof {
            let c = self@;
            let all = texts(tags@);
            assert(c.fits());
            assert(all.take(all.len() as int) =~= all);
            if scalars && table {
                assert forall|i: int| 0 <= i <= all.len() implies c.tagged(
                    #[trigger] all.take(i),
                ).fits() by {
                    lemma_tags_grow(all, i);
                    assert(c.top_tags.inc_all(listed_tags(all.take(i))).at_most(usize::MAX as nat));
                }
            }
            if !scalars {
                assert(!c.tagged(all.take(all.len() as int)).fits());
            }
            if !table {
                let i = choose|i: int|
                    0 <= i <= all.len() && !c.top_tags.inc_all(
                        listed_tags(#[trigger] all.take(i)),
                    ).at_most(usize::MAX as nat);
                assert(!c.tagged(all.take(i)).fits());
            }
        }
        scalars && table
    }

    /// Whether the policies of a request fit.
    fn decision_fits(&self, o: &Outcome, rinfo: &RequestInfo) -> (r: bool)
        requires
            self.wf(),
        ensures
            r == self@.decided(*o, *rinfo).fits(),
    {
        proof {
            assert(self@.fits());
        }
        self.hits < usize::MAX && (!o.acl_blocked || self.aclid_active.can_inc(
            &rinfo.acl_profile_id,
        )) && (!o.acl_report || self.aclid_report.can_inc(&rinfo.acl_profile_id)) && (!o.cf_blocked
            || self.cfid_active.can_inc(&rinfo.content_filter_profile_id)) && (!o.cf_report
            || self.cfid_report.can_inc(&rinfo.content_filter_profile_id)) && if o.blocked {
            self.blocks < usize::MAX && self.secpolid_active.can_inc(&rinfo.secpolicy_id)
                && self.secpolentryid_active.can_inc(&rinfo.secpolicy_entry_id)
        } else {
            self.report < usize::MAX && self.secpolid_report.can_inc(&rinfo.secpolicy_id)
                && self.secpolentryid_report.can_inc(&rinfo.secpolicy_entry_id)
        }
    }

    /// Whether the answer to a request and its method fit.
    fn answer_fits(
        &self,
        rcode: Option<u32>,
        rinfo: &RequestInfo,
        processing_time: Option<i64>,
    ) -> (r: bool)
        requires
            self.wf(),
        ensures
            r == self@.answered(rcode, *rinfo, processing_time).fits(),
    {
        proof {
            assert(self@.fits());
        }
        let known = match rcode {
            Some(code) => self.status.can_inc(&code) && self.status_classes.can_inc(
                &(((code / 100) % 256) as u8),
            ),
            None => true,
        };
        known && self.methods.can_inc(&rinfo.method)
    }

    /// Whether the origin and the target of a request fit.
    fn values_fit(&self, rinfo: &RequestInfo, blocked: bool) -> (r: bool)
        requires
            self.wf(),
        ensures
            r == self@.measured(*rinfo, blocked).fits(),
    {
        proof {
            assert(self@.fits());
        }
        let user_agent = match find_header(&rinfo.headers, "user-agent") {
            Some(user_agent) => self.user_agent.can_inc(user_agent, blocked),
            None => true,
        };
        let country = match &rinfo.country {
            Some(country) => self.country.can_inc(country, blocked),
            None => true,
        };
        let asn = match &rinfo.asn {
            Some(asn) => self.asn.can_inc(asn, blocked),
            None => true,
        };
        self.ip.can_inc(&rinfo.ip, blocked) && self.session.can_inc(&rinfo.session, blocked)
            && self.uri.can_inc(&rinfo.uri, blocked) && user_agent && country && asn
    }

    /// Whether the size of a request fits.
    fn sizes_fit(&self, rinfo: &RequestInfo) -> (r: bool)
        requires
            self.wf(),
        ensures
            r == self@.sized(*rinfo).fits(),
    {
        proof {
            assert(self@.fits());
        }
        self.args_amount.can_inc(&rinfo.args) && self.cookies_amount.can_inc(&rinfo.cookies)
            && self.headers_amount.can_inc(&rinfo.headers.len())
    }

    /// Whether a request keeps every counter within its type.
    pub fn can_take(
        &self,
        dec: &Decision,
        rcode: Option<u32>,
        rinfo: &RequestInfo,
        tags: &Tags,
        processing_time: Option<i64>,
    ) -> (r: bool)
        requires
            self.wf(),
        ensures
            r == self@.takes(dec.reasons@, rcode, *rinfo, texts(tags.tags@), processing_time),
    {
        proof {
            assert(self@.fits());
            lemma_takes(self@, dec.reasons@, rcode, *rinfo, texts(tags.tags@), processing_time);
        }
        let o = outcome(&dec.reasons);
        let time = match processing_time {
            Some(sample) => self.processing_time.can_take(sample),
            None => true,
        };
        time && self.reasons_fit(&dec.reasons) && self.tags_fit(&tags.tags) && self.decision_fits(
            &o,
            rinfo,
        ) && self.answer_fits(rcode, rinfo, processing_time) && self.values_fit(rinfo, o.blocked)
            && self.sizes_fit(rinfo)
    }
}

/// Whether every count of a map is a machine number.
pub open spec fn map_fits<A>(m: Map<A, nat>) -> bool {
    forall|a: A| #[trigger] m.contains_key(a) ==> m[a] <= usize::MAX
}

/// Whether every counter is a machine number, counter by counter.
pub open spec fn all_fit(c: CountersView) -> bool {
    &&& c.hits <= usize::MAX
    &&& c.blocks <= usize::MAX
    &&& c.report <= usize::MAX
    &&& c.requests_triggered_globalfilter_active <= usize::MAX
    &&& c.requests_triggered_globalfilter_report <= usize::MAX
    &&& c.requests_triggered_cf_active <= usize::MAX
    &&& c.requests_triggered_cf_report <= usize::MAX
    &&& c.requests_triggered_acl_active <= usize::MAX
    &&& c.requests_triggered_acl_report <= usize::MAX
    &&& c.requests_triggered_ratelimit_active <= usize::MAX
    &&& c.requests_triggered_ratelimit_report <= usize::MAX
    &&& c.bot <= usize::MAX
    &&& c.human <= usize::MAX
    &&& c.challenge <= usize::MAX
    &&& c.location_active.headers <= usize::MAX
    &&& c.location_active.uri <= usize::MAX
    &&& c.location_active.args <= usize::MAX
    &&& c.location_active.body <= usize::MAX
    &&& c.location_active.attrs <= usize::MAX
    &&& c.location_report.headers <= usize::MAX
    &&& c.location_report.uri <= usize::MAX
    &&& c.location_report.args <= usize::MAX
    &&& c.location_report.body <= usize::MAX
    &&& c.location_report.attrs <= usize::MAX
    &&& map_fits(c.status)
    &&& map_fits(c.status_classes)
    &&& map_fits(c.methods)
    &&& map_fits(c.risk_level_active)
    &&& map_fits(c.risk_level_report)
    &&& map_fits(c.headers_amount)
    &&& map_fits(c.cookies_amount)
    &&& map_fits(c.args_amount)
    &&& map_fits(c.aclid_active.counts)
    &&& map_fits(c.aclid_report.counts)
    &&& map_fits(c.secpolid_active.counts)
    &&& map_fits(c.secpolid_report.counts)
    &&& map_fits(c.secpolentryid_active.counts)
    &&& map_fits(c.secpolentryid_report.counts)
    &&& map_fits(c.cfid_active.counts)
    &&& map_fits(c.cfid_report.counts)
    &&& map_fits(c.ruleid_active.counts)
    &&& map_fits(c.ruleid_report.counts)
    &&& map_fits(c.top_tags.counts)
    &&& map_fits(c.ip.top_blocked.counts) && map_fits(c.ip.top_passed.counts)
    &&& map_fits(c.session.top_blocked.counts) && map_fits(c.session.top_passed.counts)
    &&& map_fits(c.uri.top_blocked.counts) && map_fits(c.uri.top_passed.counts)
    &&& map_fits(c.user_agent.top_blocked.counts) && map_fits(c.user_agent.top_passed.counts)
    &&& map_fits(c.country.top_blocked.counts) && map_fits(c.country.top_passed.counts)
    &&& map_fits(c.asn.top_blocked.counts) && map_fits(c.asn.top_passed.counts)
}

/// A bag with more values fits only where it fits without them.
proof fn lemma_bag_shrinks<A>(m: Map<A, nat>, n: A)
    requires
        map_fits(bag_add(m, n, 1)),
    ensures
        map_fits(m),
{
    let next = bag_add(m, n, 1);
    assert forall|a: A| #[trigger] m.contains_key(a) implies m[a] <= usize::MAX by {
        assert(next.contains_key(a));
    }
}

proof fn lemma_levels_shrink(c: CountersView, reasons: Seq<BlockReason>, i: int)
    requires
        0 <= i <= reasons.len(),
        map_fits(c.counted(reasons).risk_level_active),
        map_fits(c.counted(reasons).risk_level_report),
    ensures
        map_fits(c.counted(reasons.take(i)).risk_level_active),
        map_fits(c.counted(reasons.take(i)).risk_level_report),
    decreases reasons.len() - i,
{
    if i < reasons.len() {
        lemma_levels_shrink(c, reasons, i + 1);
        let front = c.counted(reasons.take(i));
        let r = reasons[i];
        lemma_counted_push(c, reasons.take(i), r);
        assert(reasons.take(i + 1) =~= reasons.take(i).push(r));
        lemma_one_bag(front.risk_level_active, r, true);
        lemma_one_bag(front.risk_level_report, r, false);
        if by_rule(true)(r) {
            lemma_bag_shrinks(front.risk_level_active, r.initiator->risk_level);
        }
        if by_rule(false)(r) {
            lemma_bag_shrinks(front.risk_level_report, r.initiator->risk_level);
        }
    } else {
        assert(reasons.take(i) =~= reasons);
    }
}

/// When a request is counted: exactly if every counter is a machine number afterwards, the sum and
/// the number of processing times too, and the tables of rules and of tags stay within their types
/// on the way.
pub proof fn law_takes(
    c: CountersView,
    reasons: Seq<BlockReason>,
    rcode: Option<u32>,
    rinfo: RequestInfo,
    tags: Seq<Seq<char>>,
    processing_time: Option<i64>,
)
    requires
        all_fit(c),
    ensures
        c.takes(reasons, rcode, rinfo, tags, processing_time) <==> {
            &&& all_fit(c.incremented(reasons, rcode, rinfo, tags, processing_time))
            &&& processing_time matches Some(t) ==> c.processing_time.n_sample < u64::MAX
                && i64::MIN <= c.processing_time.total + t <= i64::MAX
            &&& forall|i: int|
                0 <= i <= reasons.len() ==> {
                    let d = c.counted(#[trigger] reasons.take(i));
                    map_fits(d.ruleid_active.counts) && map_fits(d.ruleid_report.counts)
                }
            &&& forall|i: int|
                0 <= i <= tags.len() ==> map_fits(c.tagged(#[trigger] tags.take(i)).top_tags.counts)
        },
{
    let all = c.incremented(reasons, rcode, rinfo, tags, processing_time);
    assert(c.fits());
    assert(all.fits() == all_fit(all));
    assert(reasons.take(reasons.len() as int) =~= reasons);
    if all_fit(all) {
        assert(matches_fit(c.counted(reasons)));
        assert forall|i: int| 0 <= i <= reasons.len() implies matches_fit(
            c.counted(#[trigger] reasons.take(i)),
        ) && map_fits(c.counted(reasons.take(i)).risk_level_active) && map_fits(
            c.counted(reasons.take(i)).risk_level_report,
        ) by {
            lemma_matches_grow(c, reasons, i);
            lemma_levels_shrink(c, reasons, i);
        }
        assert forall|i: int| 0 <= i <= tags.len() implies tag_count(
            #[trigger] tags.take(i),
            "bot"@,
        ) <= tag_count(tags, "bot"@) && tag_count(tags.take(i), "human"@) <= tag_count(
            tags,
            "human"@,
        ) by {
            lemma_tags_grow(tags, i);
        }
        if forall|i: int|
            0 <= i <= reasons.len() ==> {
                let d = c.counted(#[trigger] reasons.take(i));
                map_fits(d.ruleid_active.counts) && map_fits(d.ruleid_report.counts)
            } {
            assert forall|i: int| 0 <= i <= reasons.len() implies c.counted(
                #[trigger] reasons.take(i),
            ).fits() by {
                let d = c.counted(reasons.take(i));
                assert(map_fits(d.ruleid_active.counts));
                assert(matches_fit(d));
            }
        }
        if forall|i: int|
            0 <= i <= tags.len() ==> map_fits(c.tagged(#[trigger] tags.take(i)).top_tags.counts) {
            assert forall|i: int| 0 <= i <= tags.len() implies c.tagged(
                #[trigger] tags.take(i),
            ).fits() by {
                assert(map_fits(c.tagged(tags.take(i)).top_tags.counts));
            }
        }
    }
    if c.takes(reasons, rcode, rinfo, tags, processing_time) {
        assert forall|i: int| 0 <= i <= reasons.len() implies {
            let d = c.counted(#[trigger] reasons.take(i));
            map_fits(d.ruleid_active.counts) && map_fits(d.ruleid_report.counts)
        } by {
            assert(c.counted(reasons.take(i)).fits());
        }
        assert forall|i: int| 0 <= i <= tags.len() implies map_fits(
            c.tagged(#[trigger] tags.take(i)).top_tags.counts,
        ) by {
            assert(c.tagged(tags.take(i)).fits());
        }
    }
}

} // verus!
