//! Deterministic ownership resolver for resources whose exact ancestry is
//! unavailable — re-parented, detached, or never directly observed.
//!
//! A session becomes a candidate only through an **anchor** (project and
//! timing alone never create ownership). Anchors score; capped evidence
//! families add support; hard contradictions reject. The result is a scored
//! candidate set plus a verdict, never a probability.

use crate::classify::ownership::rules::{ResolverRules, RESOLVER_VERSION};
use crate::model::session::RuntimeSessionId;
use vstd::multiset::Multiset;
use vstd::prelude::*;

verus! {

/// Why a session is a candidate owner. Never project/timing alone.
#[derive(Debug, Clone, Copy, PartialEq, Eq, Structural)]
pub enum AnchorKind {
    /// Vendor registration. Strongest.
    Explicit,
    /// Direct child of the session root.
    DirectChild,
    /// Observed descendant of the session root.
    Descendant,
    /// Ownership persisted from a previous observation.
    PersistedPrevious,
    /// Inherited through an already-attributed owned parent.
    Propagated,
}

/// A hard contradiction. Rejects the candidate — it never subtracts points.
#[derive(Debug, Clone, Copy, PartialEq, Eq, Structural)]
pub enum Rejection {
    /// The resource started before the session; the session cannot have
    /// spawned it.
    PredatesSession,
    /// Observed ancestry reaches another agent session.
    ReachesOtherAgent,
}

/// Per-session evidence fed to the resolver for one resource.
#[derive(Debug, Clone, Copy, PartialEq, Eq, Structural)]
pub struct CandidateInput {
    pub session: RuntimeSessionId,
    pub anchor: Option<AnchorKind>,
    /// Score for `PersistedPrevious` / `Propagated` anchors.
    pub anchor_score: Option<u8>,
    /// Cap from owned-parent propagation: a downstream node can never exceed
    /// the score of the chain that established its ownership.
    pub propagate_cap: Option<u8>,
    // Project family
    pub exact_cwd: bool,
    pub same_git_root: bool,
    // Temporal family (seconds after the session started)
    pub start_delta_secs: Option<u64>,
    // Tool relationship family
    pub tool_relationship: bool,
    // Contradictions
    pub predates_session: bool,
    pub reaches_other_agent: bool,
}

/// One scored candidate for a resource, with its rejected reason if any.
#[derive(Debug, Clone, Copy, PartialEq, Eq, Structural)]
pub struct AttributionCandidate {
    pub session: RuntimeSessionId,
    pub anchor: AnchorKind,
    pub anchor_score: u8,
    pub project_support: u8,
    pub temporal_support: u8,
    pub relationship_support: u8,
    pub total: u8,
    pub rejected: Option<Rejection>,
}

#[derive(Debug, Clone, Copy, PartialEq, Eq, Structural)]
pub enum Verdict {
    Owned,
    Ambiguous,
    Unknown,
}

/// The full decision for one resource: verdict, winner, and the complete
/// candidate set (for reproducibility and explanations).
#[derive(Debug, Clone)]
pub struct AttributionDecision {
    pub resolver_version: u32,
    pub verdict: Verdict,
    pub winner: Option<RuntimeSessionId>,
    pub candidates: Vec<AttributionCandidate>,
}

// ---------------------------------------------------------------------------
// Model
// ---------------------------------------------------------------------------

pub open spec fn least(a: u8, b: u8) -> u8 {
    if a <= b {
        a
    } else {
        b
    }
}

pub open spec fn anchor_points(rules: ResolverRules, input: CandidateInput, anchor: AnchorKind) -> u8 {
    match anchor {
        AnchorKind::Explicit => rules.explicit_anchor,
        AnchorKind::DirectChild => rules.direct_parent_anchor,
        AnchorKind::Descendant => rules.descendant_anchor,
        AnchorKind::PersistedPrevious | AnchorKind::Propagated => match input.anchor_score {
            Some(s) => s,
            None => rules.descendant_anchor,
        },
    }
}

/// The project family counts once, within its cap.
pub open spec fn project_points(rules: ResolverRules, input: CandidateInput) -> u8 {
    least(
        if input.exact_cwd {
            rules.exact_cwd
        } else if input.same_git_root {
            rules.same_git_root
        } else {
            0
        },
        rules.project_cap,
    )
}

/// The sooner after the session started, the more.
pub open spec fn temporal_points(rules: ResolverRules, delta: Option<u64>) -> u8 {
    match delta {
        None => 0,
        Some(d) => least(
            if d <= 10 {
                rules.temporal_10s
            } else if d <= 60 {
                rules.temporal_60s
            } else if d <= 300 {
                rules.temporal_5m
            } else {
                0
            },
            rules.temporal_cap,
        ),
    }
}

pub open spec fn relationship_points(rules: ResolverRules, input: CandidateInput) -> u8 {
    if input.tool_relationship {
        rules.relationship_support
    } else {
        0
    }
}

pub open spec fn contradiction(input: CandidateInput) -> Option<Rejection> {
    if input.predates_session {
        Some(Rejection::PredatesSession)
    } else if input.reaches_other_agent {
        Some(Rejection::ReachesOtherAgent)
    } else {
        None
    }
}

/// All points together, at most 100 and at most the propagation cap.
pub open spec fn total_points(rules: ResolverRules, input: CandidateInput, anchor: AnchorKind) -> int {
    let sum = anchor_points(rules, input, anchor) + project_points(rules, input) + temporal_points(
        rules,
        input.start_delta_secs,
    ) + relationship_points(rules, input);
    let t = if sum > 100 {
        100
    } else {
        sum
    };
    match input.propagate_cap {
        Some(cap) if cap < t => cap as int,
        _ => t,
    }
}

/// What an anchored session scores.
pub open spec fn candidate(
    rules: ResolverRules,
    input: CandidateInput,
    anchor: AnchorKind,
) -> AttributionCandidate {
    AttributionCandidate {
        session: input.session,
        anchor,
        anchor_score: anchor_points(rules, input, anchor),
        project_support: project_points(rules, input),
        temporal_support: temporal_points(rules, input.start_delta_secs),
        relationship_support: relationship_points(rules, input),
        total: total_points(rules, input, anchor) as u8,
        rejected: contradiction(input),
    }
}

/// The candidates: one for each input with an anchor, in order.
pub open spec fn candidates(
    rules: ResolverRules,
    inputs: Seq<CandidateInput>,
) -> Seq<AttributionCandidate>
    decreases inputs.len(),
{
    if inputs.len() == 0 {
        Seq::empty()
    } else {
        let rest = candidates(rules, inputs.drop_last());
        match inputs.last().anchor {
            Some(anchor) => rest.push(candidate(rules, inputs.last(), anchor)),
            None => rest,
        }
    }
}

pub open spec fn is_eligible(cs: Seq<AttributionCandidate>, i: int) -> bool {
    0 <= i < cs.len() && cs[i].rejected is None
}

/// The first of the eligible candidates with the highest total.
pub open spec fn is_top(cs: Seq<AttributionCandidate>, i: int) -> bool {
    is_eligible(cs, i) && forall|j: int| #[trigger]
        is_eligible(cs, j) ==> cs[j].total <= cs[i].total && (cs[j].total == cs[i].total ==> i
            <= j)
}

/// No other eligible candidate comes within the margin.
pub open spec fn is_clear(cs: Seq<AttributionCandidate>, i: int, margin: u8) -> bool {
    forall|j: int| #[trigger]
        is_eligible(cs, j) && j != i ==> cs[i].total - cs[j].total >= margin
}

/// What a set of candidates amounts to.
pub open spec fn verdict_of(rules: ResolverRules, cs: Seq<AttributionCandidate>) -> Verdict {
    if exists|i: int| is_top(cs, i) {
        let i = choose|i: int| is_top(cs, i);
        if cs[i].total < rules.ownership_threshold {
            Verdict::Unknown
        } else if is_clear(cs, i, rules.ambiguity_margin) {
            Verdict::Owned
        } else {
            Verdict::Ambiguous
        }
    } else {
        Verdict::Unknown
    }
}

pub open spec fn winner_of(rules: ResolverRules, cs: Seq<AttributionCandidate>) -> Option<
    RuntimeSessionId,
> {
    if verdict_of(rules, cs) == Verdict::Owned {
        Some(cs[choose|i: int| is_top(cs, i)].session)
    } else {
        None
    }
}

// ---------------------------------------------------------------------------
// Laws
// ---------------------------------------------------------------------------

/// Project and timing alone never make a candidate: without an anchor, an
/// input leaves no trace in the decision.
pub proof fn no_anchor_no_candidate(
    rules: ResolverRules,
    inputs: Seq<CandidateInput>,
    extra: CandidateInput,
)
    requires
        extra.anchor is None,
    ensures
        candidates(rules, inputs.push(extra)) == candidates(rules, inputs),
{
    assert(inputs.push(extra).drop_last() =~= inputs);
}

/// Propagated ownership never exceeds the score of the chain that
/// established it, and no score exceeds 100.
pub proof fn score_is_capped(rules: ResolverRules, input: CandidateInput, anchor: AnchorKind)
    ensures
        candidate(rules, input, anchor).total <= 100,
        match input.propagate_cap {
            Some(cap) => candidate(rules, input, anchor).total <= cap,
            None => true,
        },
{
}

/// Whoever wins was not rejected, reaches the threshold, and leads every
/// other candidate that was not rejected by the margin.
pub proof fn winner_is_clear(rules: ResolverRules, cs: Seq<AttributionCandidate>)
    ensures
        match winner_of(rules, cs) {
            Some(session) => exists|i: int|
                #![trigger cs[i]]
                0 <= i < cs.len() && cs[i].session == session && cs[i].rejected is None
                    && cs[i].total >= rules.ownership_threshold && forall|j: int|
                    0 <= j < cs.len() && j != i && (#[trigger] cs[j]).rejected is None
                        ==> cs[i].total - cs[j].total >= rules.ambiguity_margin,
            None => true,
        },
        winner_of(rules, cs) is Some <==> verdict_of(rules, cs) == Verdict::Owned,
{
    if verdict_of(rules, cs) == Verdict::Owned {
        let i = choose|i: int| is_top(cs, i);
        assert(is_top(cs, i));
        assert forall|j: int|
            0 <= j < cs.len() && j != i && (#[trigger] cs[j]).rejected is None implies cs[i].total
            - cs[j].total >= rules.ambiguity_margin by {
            assert(is_eligible(cs, j));
        }
        assert(cs[i].session == winner_of(rules, cs)->Some_0);
    }
}

/// Where one candidate is eligible, one of them is the first with the highest
/// total, and it is the only one.
proof fn top_exists(cs: Seq<AttributionCandidate>, i: int) -> (t: int)
    requires
        is_eligible(cs, i),
        forall|j: int| #[trigger] is_eligible(cs, j) ==> cs[j].total <= cs[i].total,
    ensures
        is_top(cs, t),
        cs[t].total == cs[i].total,
        forall|j: int| is_top(cs, j) ==> j == t,
    decreases i,
{
    if exists|j: int| j < i && #[trigger] is_eligible(cs, j) && cs[j].total == cs[i].total {
        let j = choose|j: int|
            j < i && #[trigger] is_eligible(cs, j) && cs[j].total == cs[i].total;
        top_exists(cs, j)
    } else {
        assert(is_top(cs, i));
        assert forall|j: int| is_top(cs, j) implies j == i by {
            assert(is_eligible(cs, j) && is_eligible(cs, i));
        }
        i
    }
}

/// A best candidate decides. Below the threshold nothing is known; from there
/// on the resource is its session's where it leads every other candidate that
/// was not rejected by the margin, and ambiguous otherwise.
pub proof fn the_best_decides(rules: ResolverRules, cs: Seq<AttributionCandidate>, i: int)
    requires
        rules.ambiguity_margin > 0,
        is_eligible(cs, i),
        forall|j: int| #[trigger] is_eligible(cs, j) ==> cs[j].total <= cs[i].total,
    ensures
        verdict_of(rules, cs) == if cs[i].total < rules.ownership_threshold {
            Verdict::Unknown
        } else if is_clear(cs, i, rules.ambiguity_margin) {
            Verdict::Owned
        } else {
            Verdict::Ambiguous
        },
        winner_of(rules, cs) == if verdict_of(rules, cs) == Verdict::Owned {
            Some(cs[i].session)
        } else {
            None
        },
{
    let t = top_exists(cs, i);
    assert((choose|k: int| is_top(cs, k)) == t);
    if t != i {
        assert(is_eligible(cs, t) && is_eligible(cs, i));
        assert(!is_clear(cs, t, rules.ambiguity_margin));
        assert(!is_clear(cs, i, rules.ambiguity_margin));
    }
}

/// Where every candidate was rejected, or there is none, nothing is known.
pub proof fn nobody_eligible_nothing_known(rules: ResolverRules, cs: Seq<AttributionCandidate>)
    requires
        forall|i: int| !is_eligible(cs, i),
    ensures
        verdict_of(rules, cs) == Verdict::Unknown,
        winner_of(rules, cs) is None,
{
}

/// A candidate is rejected exactly where the resource is older than the
/// session or reaches another agent.
pub proof fn contradictions_reject(rules: ResolverRules, input: CandidateInput, anchor: AnchorKind)
    ensures
        candidate(rules, input, anchor).rejected is Some <==> input.predates_session
            || input.reaches_other_agent,
{
}

/// How a score is made up. The reported parts are the anchor's points (or the
/// score it was inherited with), the better of the two project points within
/// their cap, the points of the closest time window within theirs, and the
/// relationship's; the total is their sum, but no more than 100 and no more
/// than the chain it was propagated through.
pub proof fn total_is_the_sum_of_its_parts(
    rules: ResolverRules,
    input: CandidateInput,
    anchor: AnchorKind,
)
    ensures
        ({
            let c = candidate(rules, input, anchor);
            let sum = c.anchor_score + c.project_support + c.temporal_support
                + c.relationship_support;
            &&& c.session == input.session
            &&& c.anchor == anchor
            &&& anchor == AnchorKind::Explicit ==> c.anchor_score == rules.explicit_anchor
            &&& anchor == AnchorKind::DirectChild ==> c.anchor_score == rules.direct_parent_anchor
            &&& anchor == AnchorKind::Descendant ==> c.anchor_score == rules.descendant_anchor
            &&& anchor == AnchorKind::PersistedPrevious || anchor == AnchorKind::Propagated
                ==> c.anchor_score == (if input.anchor_score is Some {
                input.anchor_score->0
            } else {
                rules.descendant_anchor
            })
            &&& !input.exact_cwd && !input.same_git_root ==> c.project_support == 0
            &&& input.exact_cwd && rules.exact_cwd <= rules.project_cap ==> c.project_support
                == rules.exact_cwd
            &&& !input.exact_cwd && input.same_git_root && rules.same_git_root <= rules.project_cap
                ==> c.project_support == rules.same_git_root
            &&& c.project_support <= rules.project_cap
            &&& input.start_delta_secs is None ==> c.temporal_support == 0
            &&& input.start_delta_secs is Some && rules.temporal_10s <= rules.temporal_cap
                && rules.temporal_60s <= rules.temporal_cap && rules.temporal_5m
                <= rules.temporal_cap ==> c.temporal_support == (if input.start_delta_secs->0
                <= 10 {
                rules.temporal_10s
            } else if input.start_delta_secs->0 <= 60 {
                rules.temporal_60s
            } else if input.start_delta_secs->0 <= 300 {
                rules.temporal_5m
            } else {
                0
            })
            &&& c.temporal_support <= rules.temporal_cap
            &&& c.relationship_support == (if input.tool_relationship {
                rules.relationship_support
            } else {
                0
            })
            &&& c.total == (if input.propagate_cap is Some && input.propagate_cap->0 < sum
                && input.propagate_cap->0 < 100 {
                input.propagate_cap->0 as int
            } else if sum > 100 {
                100
            } else {
                sum
            })
            &&& input.predates_session ==> c.rejected == Some(Rejection::PredatesSession)
            &&& !input.predates_session && input.reaches_other_agent ==> c.rejected == Some(
                Rejection::ReachesOtherAgent,
            )
        }),
{
}

/// What the first version of the rules gives: an observed descendant reaches
/// the threshold by itself, a direct child and a registration more, and no
/// support without an anchor could.
pub proof fn an_anchor_alone_reaches_the_threshold(input: CandidateInput)
    requires
        input.propagate_cap is None,
    ensures
        ({
            let rules = ResolverRules::first_version();
            &&& candidate(rules, input, AnchorKind::Descendant).total >= 75
            &&& candidate(rules, input, AnchorKind::DirectChild).total >= 85
            &&& candidate(rules, input, AnchorKind::Explicit).total == 100
            &&& rules.ownership_threshold == 75
            &&& rules.ambiguity_margin == 15
            &&& rules.project_cap + rules.temporal_cap + rules.relationship_cap
                < rules.ownership_threshold
        }),
{
}

/// There is one candidate for each input with an anchor, in the order of the
/// inputs.
pub proof fn anchored_inputs_are_the_candidates(
    rules: ResolverRules,
    inputs: Seq<CandidateInput>,
)
    ensures
        ({
            let anchored = inputs.filter(|input: CandidateInput| input.anchor is Some);
            &&& candidates(rules, inputs).len() == anchored.len()
            &&& forall|k: int|
                0 <= k < anchored.len() ==> (#[trigger] candidates(rules, inputs)[k]) == candidate(
                    rules,
                    anchored[k],
                    anchored[k].anchor->0,
                )
        }),
    decreases inputs.len(),
{
    reveal(Seq::filter);
    if inputs.len() > 0 {
        anchored_inputs_are_the_candidates(rules, inputs.drop_last());
    }
}

/// A lead of exactly the margin is enough: whoever was not rejected, reaches
/// the threshold and leads everybody else who was not rejected by at least
/// the margin owns the resource.
pub proof fn a_lead_of_the_margin_is_enough(
    rules: ResolverRules,
    cs: Seq<AttributionCandidate>,
    i: int,
)
    requires
        rules.ambiguity_margin > 0,
        0 <= i < cs.len(),
        cs[i].rejected is None,
        cs[i].total >= rules.ownership_threshold,
        forall|j: int|
            0 <= j < cs.len() && j != i && (#[trigger] cs[j]).rejected is None ==> cs[i].total
                - cs[j].total >= rules.ambiguity_margin,
    ensures
        verdict_of(rules, cs) == Verdict::Owned,
        winner_of(rules, cs) == Some(cs[i].session),
{
    assert(is_eligible(cs, i));
    assert forall|j: int| #[trigger] is_eligible(cs, j) implies cs[j].total <= cs[i].total by {
        if j != i {
            assert(cs[j].rejected is None);
        }
    }
    the_best_decides(rules, cs, i);
}

/// Two that reach the threshold and lie within the margin of each other leave
/// the resource to nobody.
pub proof fn a_close_second_makes_it_ambiguous(
    rules: ResolverRules,
    cs: Seq<AttributionCandidate>,
    i: int,
    j: int,
)
    requires
        rules.ambiguity_margin > 0,
        0 <= i < cs.len(),
        0 <= j < cs.len(),
        i != j,
        cs[i].rejected is None,
        cs[j].rejected is None,
        cs[i].total >= rules.ownership_threshold,
        cs[i].total - cs[j].total < rules.ambiguity_margin,
        forall|k: int|
            0 <= k < cs.len() && (#[trigger] cs[k]).rejected is None ==> cs[k].total
                <= cs[i].total,
    ensures
        verdict_of(rules, cs) == Verdict::Ambiguous,
        winner_of(rules, cs) is None,
{
    assert(is_eligible(cs, i));
    assert(is_eligible(cs, j));
    assert forall|k: int| #[trigger] is_eligible(cs, k) implies cs[k].total <= cs[i].total by {
        assert(cs[k].rejected is None);
    }
    the_best_decides(rules, cs, i);
}

/// Where nobody who was not rejected reaches the threshold, nothing is known.
pub proof fn below_the_threshold_nothing_is_known(
    rules: ResolverRules,
    cs: Seq<AttributionCandidate>,
)
    requires
        forall|k: int|
            0 <= k < cs.len() && (#[trigger] cs[k]).rejected is None ==> cs[k].total
                < rules.ownership_threshold,
    ensures
        verdict_of(rules, cs) == Verdict::Unknown,
        winner_of(rules, cs) is None,
{
    if exists|i: int| is_top(cs, i) {
        let i = choose|i: int| is_top(cs, i);
        assert(is_eligible(cs, i));
        assert(cs[i].rejected is None);
    }
}

spec fn gather(rules: ResolverRules) -> spec_fn(
    Multiset<AttributionCandidate>,
    CandidateInput,
) -> Multiset<AttributionCandidate> {
    |m: Multiset<AttributionCandidate>, input: CandidateInput|
        match input.anchor {
            Some(anchor) => m.insert(candidate(rules, input, anchor)),
            None => m,
        }
}

proof fn gathered(rules: ResolverRules, inputs: Seq<CandidateInput>)
    ensures
        candidates(rules, inputs).to_multiset() == inputs.fold_left(
            Multiset::empty(),
            gather(rules),
        ),
    decreases inputs.len(),
{
    broadcast use vstd::seq_lib::group_to_multiset_ensures;

    if inputs.len() == 0 {
        assert(candidates(rules, inputs).to_multiset() =~= Multiset::empty());
    } else {
        gathered(rules, inputs.drop_last());
    }
}

/// The same inputs in any order give the same candidates, in some order.
proof fn order_keeps_the_candidates(
    rules: ResolverRules,
    a: Seq<CandidateInput>,
    b: Seq<CandidateInput>,
)
    requires
        a.to_multiset() == b.to_multiset(),
    ensures
        candidates(rules, a).to_multiset() == candidates(rules, b).to_multiset(),
{
    let f = gather(rules);
    assert forall|x: CandidateInput, y: CandidateInput, v: Multiset<AttributionCandidate>|
        #[trigger] f(f(v, x), y) == f(f(v, y), x) by {
        assert(f(f(v, x), y) =~= f(f(v, y), x));
    }
    vstd::seq_lib::lemma_fold_left_permutation(a, b, f, Multiset::empty());
    gathered(rules, a);
    gathered(rules, b);
}

/// The lead of a candidate rests on the others alone, whatever their order.
proof fn clear_among(
    a: Seq<AttributionCandidate>,
    b: Seq<AttributionCandidate>,
    i: int,
    j: int,
    margin: u8,
)
    requires
        a.to_multiset() == b.to_multiset(),
        0 <= i < a.len(),
        0 <= j < b.len(),
        a[i] == b[j],
        is_clear(a, i, margin),
    ensures
        is_clear(b, j, margin),
{
    broadcast use vstd::seq_lib::group_to_multiset_ensures;

    assert forall|k: int| #[trigger] is_eligible(b, k) && k != j implies b[j].total - b[k].total
        >= margin by {
        let rest = b.remove(j);
        let at = if k < j {
            k
        } else {
            k - 1
        };
        assert(rest[at] == b[k]);
        assert(rest.contains(b[k]));
        assert(rest.to_multiset() == a.remove(i).to_multiset());
        assert(rest.to_multiset().count(b[k]) > 0);
        assert(a.remove(i).contains(b[k]));
        let p = choose|p: int| 0 <= p < a.remove(i).len() && a.remove(i)[p] == b[k];
        let q = if p < i {
            p
        } else {
            p + 1
        };
        assert(a[q] == b[k]);
        assert(is_eligible(a, q));
    }
}

/// The order in which the evidence comes in changes neither the verdict nor
/// the winner.
pub proof fn order_does_not_matter(
    rules: ResolverRules,
    a: Seq<CandidateInput>,
    b: Seq<CandidateInput>,
)
    requires
        rules.ambiguity_margin > 0,
        a.to_multiset() == b.to_multiset(),
    ensures
        verdict_of(rules, candidates(rules, a)) == verdict_of(rules, candidates(rules, b)),
        winner_of(rules, candidates(rules, a)) == winner_of(rules, candidates(rules, b)),
{
    broadcast use vstd::seq_lib::group_to_multiset_ensures;

    let (ca, cb) = (candidates(rules, a), candidates(rules, b));
    order_keeps_the_candidates(rules, a, b);
    assert forall|k: int| #[trigger] is_eligible(cb, k) implies exists|m: int|
        is_eligible(ca, m) && #[trigger] ca[m] == cb[k] by {
        assert(cb.to_multiset().count(cb[k]) > 0);
        assert(ca.contains(cb[k]));
        let m = choose|m: int| 0 <= m < ca.len() && ca[m] == cb[k];
        assert(is_eligible(ca, m));
    }
    if exists|i: int| is_eligible(ca, i) {
        let i = best(ca, ca.len() as int);
        assert(ca.to_multiset().count(ca[i]) > 0);
        assert(cb.contains(ca[i]));
        let j = choose|j: int| 0 <= j < cb.len() && cb[j] == ca[i];
        assert(is_eligible(cb, j));
        the_best_decides(rules, ca, i);
        the_best_decides(rules, cb, j);
        if is_clear(ca, i, rules.ambiguity_margin) {
            clear_among(ca, cb, i, j, rules.ambiguity_margin);
        }
        if is_clear(cb, j, rules.ambiguity_margin) {
            clear_among(cb, ca, j, i, rules.ambiguity_margin);
        }
    } else {
        nobody_eligible_nothing_known(rules, ca);
        nobody_eligible_nothing_known(rules, cb);
    }
}

/// An eligible candidate among the first `n` that none of them exceeds.
proof fn best(cs: Seq<AttributionCandidate>, n: int) -> (b: int)
    requires
        0 <= n <= cs.len(),
        exists|i: int| is_eligible(cs, i) && i < n,
    ensures
        is_eligible(cs, b),
        b < n,
        forall|j: int| #[trigger] is_eligible(cs, j) && j < n ==> cs[j].total <= cs[b].total,
    decreases n,
{
    if exists|i: int| is_eligible(cs, i) && i < n - 1 {
        let b = best(cs, n - 1);
        if is_eligible(cs, n - 1) && cs[n - 1].total > cs[b].total {
            n - 1
        } else {
            b
        }
    } else {
        let i = choose|i: int| is_eligible(cs, i) && i < n;
        assert(i == n - 1);
        i
    }
}

// ---------------------------------------------------------------------------
// Resolver
// ---------------------------------------------------------------------------

fn min_of(a: u8, b: u8) -> (r: u8)
    ensures
        r == least(a, b),
{
    if a <= b {
        a
    } else {
        b
    }
}

pub fn resolve(rules: &ResolverRules, inputs: Vec<CandidateInput>) -> (r: AttributionDecision)
    ensures
        r.resolver_version == RESOLVER_VERSION,
        r.candidates@ == candidates(*rules, inputs@),
        r.verdict == verdict_of(*rules, r.candidates@),
        r.winner == winner_of(*rules, r.candidates@),
{
    let mut found: Vec<AttributionCandidate> = Vec::new();
    let mut i: usize = 0;
    assert(inputs@.take(0) =~= Seq::<CandidateInput>::empty());
    assert(found@ =~= Seq::<AttributionCandidate>::empty());
    while i < inputs.len()
        invariant
            i <= inputs.len(),
            found@ == candidates(*rules, inputs@.take(i as int)),
        decreases inputs.len() - i,
    {
        let input: CandidateInput = inputs[i];
        assert(inputs@.take(i + 1).drop_last() =~= inputs@.take(i as int));
        // Project/timing alone is never a candidate.
        if let Some(anchor) = input.anchor {
            found.push(score(rules, input, anchor));
        }
        i += 1;
    }
    assert(inputs@.take(inputs@.len() as int) =~= inputs@);
    select(rules, found)
}

fn score(rules: &ResolverRules, input: CandidateInput, anchor: AnchorKind) -> (r: AttributionCandidate)
    ensures
        r == candidate(*rules, input, anchor),
{
    let anchor_score: u8 = match anchor {
        AnchorKind::Explicit => rules.explicit_anchor,
        AnchorKind::DirectChild => rules.direct_parent_anchor,
        AnchorKind::Descendant => rules.descendant_anchor,
        AnchorKind::PersistedPrevious | AnchorKind::Propagated => match input.anchor_score {
            Some(s) => s,
            None => rules.descendant_anchor,
        },
    };
    let rejected: Option<Rejection> = if input.predates_session {
        Some(Rejection::PredatesSession)
    } else if input.reaches_other_agent {
        Some(Rejection::ReachesOtherAgent)
    } else {
        None
    };
    let project: u8 = project_support(rules, &input);
    let temporal: u8 = temporal_support(rules, input.start_delta_secs);
    let relationship: u8 = if input.tool_relationship {
        rules.relationship_support
    } else {
        0
    };
    let sum: u16 = anchor_score as u16 + project as u16 + temporal as u16 + relationship as u16;
    let bounded: u8 = if sum > 100 {
        100
    } else {
        sum as u8
    };
    // Propagated ownership can never exceed its parent's score.
    let total: u8 = match input.propagate_cap {
        Some(cap) => min_of(bounded, cap),
        None => bounded,
    };
    AttributionCandidate {
        session: input.session,
        anchor,
        anchor_score,
        project_support: project,
        temporal_support: temporal,
        relationship_support: relationship,
        total,
        rejected,
    }
}

fn project_support(rules: &ResolverRules, input: &CandidateInput) -> (r: u8)
    ensures
        r == project_points(*rules, *input),
{
    let points: u8 = if input.exact_cwd {
        rules.exact_cwd
    } else if input.same_git_root {
        rules.same_git_root
    } else {
        0
    };
    min_of(points, rules.project_cap)
}

fn temporal_support(rules: &ResolverRules, delta: Option<u64>) -> (r: u8)
    ensures
        r == temporal_points(*rules, delta),
{
    match delta {
        None => 0,
        Some(d) => {
            let points: u8 = if d <= 10 {
                rules.temporal_10s
            } else if d <= 60 {
                rules.temporal_60s
            } else if d <= 5 * 60 {
                rules.temporal_5m
            } else {
                0
            };
            min_of(points, rules.temporal_cap)
        },
    }
}

fn select(rules: &ResolverRules, cs: Vec<AttributionCandidate>) -> (r: AttributionDecision)
    ensures
        r.resolver_version == RESOLVER_VERSION,
        r.candidates == cs,
        r.verdict == verdict_of(*rules, cs@),
        r.winner == winner_of(*rules, cs@),
{
    let mut top: Option<usize> = None;
    let mut i: usize = 0;
    while i < cs.len()
        invariant
            i <= cs.len(),
            match top {
                Some(t) => t < i && is_eligible(cs@, t as int) && forall|j: int|
                    0 <= j < i && #[trigger] is_eligible(cs@, j) ==> cs@[j].total
                        <= cs@[t as int].total && (cs@[j].total == cs@[t as int].total ==> t <= j),
                None => forall|j: int| 0 <= j < i ==> !is_eligible(cs@, j),
            },
        decreases cs.len() - i,
    {
        if cs[i].rejected.is_none() {
            assert(is_eligible(cs@, i as int));
            match top {
                Some(t) => {
                    if cs[i].total > cs[t].total {
                        top = Some(i);
                    }
                },
                None => {
                    top = Some(i);
                },
            }
        }
        i += 1;
    }
    match top {
        None => {
            assert(forall|j: int| !is_top(cs@, j));
            AttributionDecision {
                resolver_version: RESOLVER_VERSION,
                verdict: Verdict::Unknown,
                winner: None,
                candidates: cs,
            }
        },
        Some(t) => {
            assert(is_top(cs@, t as int));
            assert forall|j: int| is_top(cs@, j) implies j == t by {
                assert(is_eligible(cs@, j) && is_eligible(cs@, t as int));
            }
            let mut clear: bool = true;
            let mut i: usize = 0;
            while i < cs.len()
                invariant
                    i <= cs.len(),
                    t < cs.len(),
                    is_top(cs@, t as int),
                    clear == forall|j: int|
                        0 <= j < i && #[trigger] is_eligible(cs@, j) && j != t ==> cs@[t as int].total
                            - cs@[j].total >= rules.ambiguity_margin,
                decreases cs.len() - i,
            {
                if cs[i].rejected.is_none() && i != t {
                    assert(is_eligible(cs@, i as int));
                    if cs[t].total - cs[i].total < rules.ambiguity_margin {
                        clear = false;
                    }
                }
                i += 1;
            }
            assert(clear == is_clear(cs@, t as int, rules.ambiguity_margin));
            let verdict: Verdict = if cs[t].total < rules.ownership_threshold {
                Verdict::Unknown
            } else if clear {
                Verdict::Owned
            } else {
                Verdict::Ambiguous
            };
            let winner: Option<RuntimeSessionId> = if verdict == Verdict::Owned {
                Some(cs[t].session)
            } else {
                None
            };
            AttributionDecision {
                resolver_version: RESOLVER_VERSION,
                verdict,
                winner,
                candidates: cs,
            }
        },
    }
}

} // verus!
