//! Allocation of an experience budget to ranked opportunities.
use vstd::prelude::*;
use crate::common::{severity_rank, ExperienceBudget, Severity, TrialSafety};
use crate::economics::{
    dominance, dominance_spec, exposure_rank_spec, fits_spec, has_reason, initial_remaining, novelty_rank_spec,
    portfolio_category_spec, priority_class, priority_class_spec, reuse_rank_spec, usage_of, usage_sub,
    value_rank, DeferralReason, DominanceStatus, EvidenceSaturation, ExperienceAllocationPolicyRef,
    ExperienceBudgetLedger, ExperienceOpportunity, ExperienceOpportunityStatus, ExperienceOpportunityTarget,
    ExperiencePlanningContext, ExperiencePortfolio, ExperiencePortfolioObjective, ExposureBand, OpportunityReason,
    PortfolioDeferral, PortfolioPolicyVersions, PortfolioRevisionReason, PortfolioSelection, SelectionReason,
    ValueBand, BudgetUsage, usage_add, ALLOCATION_POLICY_VERSION, COST_ESTIMATOR_VERSION, OPPORTUNITY_GENERATOR_VERSION,
    SATURATION_POLICY_VERSION,
};
use crate::effects::effect_risk_rank;
use crate::error::Error;
use crate::text::{bytes_lt, lemma_bytes_lt_transitive, lemma_bytes_lt_trichotomy, opt_view, str_eq};

verus! {

// ------------------------------------------------------------------------------------------
// Ranking.
// ------------------------------------------------------------------------------------------

/// The ranking key of an opportunity: priority class first, then risk reduction, affected
/// decisions, exposure, learning value, reuse and novelty (each higher first), then trials and
/// agent runs (each lower first), then identity.
#[verifier::opaque]
pub open spec fn rank_lt(a: ExperienceOpportunity, b: ExperienceOpportunity, obj: ExperiencePortfolioObjective) -> bool {
    let (a1, b1) = (priority_class_spec(a, obj), priority_class_spec(b, obj));
    let (a2, b2) = (value_rank(a.value.risk_reduction), value_rank(b.value.risk_reduction));
    let (a3, b3) = (a.decision_relevance.affected_decisions, b.decision_relevance.affected_decisions);
    let (a4, b4) = (exposure_rank_spec(a.risk_reduction.occurrence_exposure), exposure_rank_spec(b.risk_reduction.occurrence_exposure));
    let (a5, b5) = (value_rank(a.value.learning_value), value_rank(b.value.learning_value));
    let (a6, b6) = (reuse_rank_spec(a.reuse), reuse_rank_spec(b.reuse));
    let (a7, b7) = (novelty_rank_spec(a.novelty), novelty_rank_spec(b.novelty));
    let (a8, b8) = (a.estimated_cost.trials, b.estimated_cost.trials);
    let (a9, b9) = (a.estimated_cost.agent_runs, b.estimated_cost.agent_runs);
    if a1 != b1 {
        a1 < b1
    } else if a2 != b2 {
        a2 > b2
    } else if a3 != b3 {
        a3 > b3
    } else if a4 != b4 {
        a4 > b4
    } else if a5 != b5 {
        a5 > b5
    } else if a6 != b6 {
        a6 > b6
    } else if a7 != b7 {
        a7 > b7
    } else if a8 != b8 {
        a8 < b8
    } else if a9 != b9 {
        a9 < b9
    } else {
        bytes_lt(vstd::utf8::encode_utf8(a.id@), vstd::utf8::encode_utf8(b.id@))
    }
}

proof fn lemma_rank_lt_order(a: ExperienceOpportunity, b: ExperienceOpportunity, c: ExperienceOpportunity, obj: ExperiencePortfolioObjective)
    ensures
        !rank_lt(a, a, obj),
        rank_lt(a, b, obj) && rank_lt(b, c, obj) ==> rank_lt(a, c, obj),
        !rank_lt(a, b, obj) && !rank_lt(b, a, obj) && rank_lt(a, c, obj) ==> rank_lt(b, c, obj),
        !rank_lt(a, b, obj) && !rank_lt(b, a, obj) && rank_lt(c, a, obj) ==> rank_lt(c, b, obj),
{
    reveal(rank_lt);
    let (ka, kb, kc) = (
        vstd::utf8::encode_utf8(a.id@),
        vstd::utf8::encode_utf8(b.id@),
        vstd::utf8::encode_utf8(c.id@),
    );
    lemma_bytes_lt_trichotomy(ka, ka);
    lemma_bytes_lt_trichotomy(ka, kb);
    lemma_bytes_lt_trichotomy(kb, kc);
    lemma_bytes_lt_trichotomy(ka, kc);
    if bytes_lt(ka, kb) && bytes_lt(kb, kc) {
        lemma_bytes_lt_transitive(ka, kb, kc);
    }
}

fn rank_lt_exec(a: &ExperienceOpportunity, b: &ExperienceOpportunity, obj: ExperiencePortfolioObjective) -> (r: bool)
    ensures
        r == rank_lt(*a, *b, obj),
{
    reveal(rank_lt);
    let a1 = priority_class(a, obj);
    let b1 = priority_class(b, obj);
    if a1 != b1 {
        return a1 < b1;
    }
    let a2 = a.value.risk_reduction.rank();
    let b2 = b.value.risk_reduction.rank();
    if a2 != b2 {
        return a2 > b2;
    }
    let a3 = a.decision_relevance.affected_decisions;
    let b3 = b.decision_relevance.affected_decisions;
    if a3 != b3 {
        return a3 > b3;
    }
    let a4 = crate::economics::exposure_rank(a.risk_reduction.occurrence_exposure);
    let b4 = crate::economics::exposure_rank(b.risk_reduction.occurrence_exposure);
    if a4 != b4 {
        return a4 > b4;
    }
    let a5 = a.value.learning_value.rank();
    let b5 = b.value.learning_value.rank();
    if a5 != b5 {
        return a5 > b5;
    }
    let a6 = crate::economics::reuse_rank(a.reuse);
    let b6 = crate::economics::reuse_rank(b.reuse);
    if a6 != b6 {
        return a6 > b6;
    }
    let a7 = crate::economics::novelty_rank(a.novelty);
    let b7 = crate::economics::novelty_rank(b.novelty);
    if a7 != b7 {
        return a7 > b7;
    }
    if a.estimated_cost.trials != b.estimated_cost.trials {
        return a.estimated_cost.trials < b.estimated_cost.trials;
    }
    if a.estimated_cost.agent_runs != b.estimated_cost.agent_runs {
        return a.estimated_cost.agent_runs < b.estimated_cost.agent_runs;
    }
    crate::text::compare_bytes(a.id.as_str().as_bytes(), b.id.as_str().as_bytes()) < 0
}

/// `order` lists every opportunity once, by rank, ties in input order.
pub open spec fn ranked_order(ops: Seq<ExperienceOpportunity>, obj: ExperiencePortfolioObjective, order: Seq<usize>) -> bool {
    &&& order.len() == ops.len()
    &&& order.no_duplicates()
    &&& forall|q: int| 0 <= q < order.len() ==> #[trigger] order[q] < ops.len()
    &&& forall|i: usize| i < ops.len() ==> #[trigger] order.contains(i)
    &&& forall|p: int, q: int| 0 <= p < q < order.len() ==> !rank_lt(
        ops[#[trigger] order[q] as int],
        ops[#[trigger] order[p] as int],
        obj,
    )
    &&& forall|p: int, q: int|
        0 <= p < q < order.len() && !rank_lt(ops[#[trigger] order[p] as int], ops[#[trigger] order[q] as int], obj)
            ==> order[p] < order[q]
}

/// Inserting the next index before the first entry that ranks strictly after it keeps the
/// order ranked and stable.
proof fn lemma_rank_insert(ops: Seq<ExperienceOpportunity>, obj: ExperiencePortfolioObjective, before: Seq<usize>, p: int, i: usize)
    requires
        0 <= p <= before.len(),
        i < ops.len(),
        before.len() == i,
        before.no_duplicates(),
        forall|q: int| 0 <= q < before.len() ==> #[trigger] before[q] < i,
        forall|a: int, b: int| 0 <= a < b < before.len() ==> !rank_lt(
            ops[#[trigger] before[b] as int],
            ops[#[trigger] before[a] as int],
            obj,
        ),
        forall|a: int, b: int|
            0 <= a < b < before.len() && !rank_lt(ops[#[trigger] before[a] as int], ops[#[trigger] before[b] as int], obj)
                ==> before[a] < before[b],
        forall|q: int| 0 <= q < p ==> !rank_lt(ops[i as int], ops[#[trigger] before[q] as int], obj),
        p < before.len() ==> rank_lt(ops[i as int], ops[before[p] as int], obj),
    ensures
        ({
            let order = before.insert(p, i);
            &&& order.len() == i + 1
            &&& order.no_duplicates()
            &&& forall|q: int| 0 <= q < order.len() ==> #[trigger] order[q] < i + 1
            &&& forall|a: int, b: int| 0 <= a < b < order.len() ==> !rank_lt(
                ops[#[trigger] order[b] as int],
                ops[#[trigger] order[a] as int],
                obj,
            )
            &&& forall|a: int, b: int|
                0 <= a < b < order.len() && !rank_lt(ops[#[trigger] order[a] as int], ops[#[trigger] order[b] as int], obj)
                    ==> order[a] < order[b]
        }),
{
    let order = before.insert(p, i);
    let x = ops[i as int];
    assert forall|a: int, b: int| 0 <= a < order.len() && 0 <= b < order.len() && a != b implies order[a] != order[b] by {
        if a != p && b != p {
            let a0 = if a < p { a } else { a - 1 };
            let b0 = if b < p { b } else { b - 1 };
            assert(order[a] == before[a0] && order[b] == before[b0]);
        } else if a == p {
            let b0 = if b < p { b } else { b - 1 };
            assert(order[b] == before[b0]);
        } else {
            let a0 = if a < p { a } else { a - 1 };
            assert(order[a] == before[a0]);
        }
    }
    assert forall|q: int| 0 <= q < order.len() implies #[trigger] order[q] < i + 1 by {
        if q < p {
            assert(order[q] == before[q]);
        } else if q > p {
            assert(order[q] == before[q - 1]);
        }
    }
    assert forall|q: int| p <= q < before.len() implies rank_lt(x, ops[#[trigger] before[q] as int], obj) by {
        if q > p {
            lemma_rank_lt_order(x, ops[before[p] as int], ops[before[q] as int], obj);
            lemma_rank_lt_order(ops[before[q] as int], ops[before[p] as int], x, obj);
            lemma_rank_lt_order(ops[before[p] as int], ops[before[q] as int], x, obj);
        }
    }
    assert forall|a: int, b: int| 0 <= a < b < order.len() implies !rank_lt(
        ops[#[trigger] order[b] as int],
        ops[#[trigger] order[a] as int],
        obj,
    ) by {
        if b < p {
            assert(order[a] == before[a] && order[b] == before[b]);
        } else if b == p {
            assert(order[a] == before[a]);
        } else if a < p {
            assert(order[a] == before[a] && order[b] == before[b - 1]);
        } else if a == p {
            assert(order[b] == before[b - 1]);
            assert(rank_lt(x, ops[before[b - 1] as int], obj));
            lemma_rank_lt_order(x, ops[before[b - 1] as int], x, obj);
            lemma_rank_lt_order(ops[before[b - 1] as int], x, ops[before[b - 1] as int], obj);
        } else {
            assert(order[a] == before[a - 1] && order[b] == before[b - 1]);
        }
    }
    assert forall|a: int, b: int|
        0 <= a < b < order.len() && !rank_lt(ops[#[trigger] order[a] as int], ops[#[trigger] order[b] as int], obj)
            implies order[a] < order[b] by {
        if b < p {
            assert(order[a] == before[a] && order[b] == before[b]);
        } else if b == p {
            assert(order[a] == before[a]);
        } else if a < p {
            assert(order[a] == before[a] && order[b] == before[b - 1]);
        } else if a == p {
            assert(order[b] == before[b - 1]);
            assert(rank_lt(x, ops[before[b - 1] as int], obj));
        } else {
            assert(order[a] == before[a - 1] && order[b] == before[b - 1]);
        }
    }
}

fn rank_order(ops: &[ExperienceOpportunity], obj: ExperiencePortfolioObjective) -> (order: Vec<usize>)
    ensures
        ranked_order(ops@, obj, order@),
{
    let mut order: Vec<usize> = Vec::new();
    let mut i: usize = 0;
    while i < ops.len()
        invariant
            i <= ops@.len(),
            order@.len() == i,
            order@.no_duplicates(),
            forall|q: int| 0 <= q < order@.len() ==> #[trigger] order@[q] < i,
            forall|j: usize| j < i ==> #[trigger] order@.contains(j),
            forall|p: int, q: int| 0 <= p < q < order@.len() ==> !rank_lt(
                ops@[#[trigger] order@[q] as int],
                ops@[#[trigger] order@[p] as int],
                obj,
            ),
            forall|p: int, q: int|
                0 <= p < q < order@.len() && !rank_lt(ops@[#[trigger] order@[p] as int], ops@[#[trigger] order@[q] as int], obj)
                    ==> order@[p] < order@[q],
        decreases ops.len() - i,
    {
        let mut p: usize = 0;
        while p < order.len() && !rank_lt_exec(&ops[i], &ops[order[p]], obj)
            invariant
                p <= order@.len(),
                i < ops@.len(),
                forall|q: int| 0 <= q < order@.len() ==> #[trigger] order@[q] < i,
                forall|q: int| 0 <= q < p ==> !rank_lt(ops@[i as int], ops@[#[trigger] order@[q] as int], obj),
            decreases order.len() - p,
        {
            p = p + 1;
        }
        let ghost before = order@;
        order.insert(p, i);
        proof {
            lemma_rank_insert(ops@, obj, before, p as int, i);
            assert forall|j: usize| j < i + 1 implies #[trigger] order@.contains(j) by {
                if j == i {
                    assert(order@[p as int] == i);
                } else {
                    assert(before.contains(j));
                    let q = choose|q: int| 0 <= q < before.len() && before[q] == j;
                    if q < p {
                        assert(order@[q] == j);
                    } else {
                        assert(order@[q + 1] == j);
                    }
                }
            }
        }
        i = i + 1;
    }
    order
}

// ------------------------------------------------------------------------------------------
// The allocation, stated as a fold over the ranked opportunities.
// ------------------------------------------------------------------------------------------

/// What a deferral reason says, with a dominator taken by its characters.
pub ghost enum DeferralTag {
    BudgetInsufficient,
    LowerMarginalValue,
    EvidenceSaturated,
    DependencyNotSatisfied,
    UnsafeToExperiment,
    MissingRealityCapability,
    HumanApprovalUnavailable,
    HigherPriorityRiskExists,
    DuplicateOpportunity,
    StaleOpportunity,
    DominatedBy(Seq<char>),
}

pub open spec fn deferral_tag(r: DeferralReason) -> DeferralTag {
    match r {
        DeferralReason::BudgetInsufficient => DeferralTag::BudgetInsufficient,
        DeferralReason::LowerMarginalValue => DeferralTag::LowerMarginalValue,
        DeferralReason::EvidenceSaturated => DeferralTag::EvidenceSaturated,
        DeferralReason::DependencyNotSatisfied => DeferralTag::DependencyNotSatisfied,
        DeferralReason::UnsafeToExperiment => DeferralTag::UnsafeToExperiment,
        DeferralReason::MissingRealityCapability => DeferralTag::MissingRealityCapability,
        DeferralReason::HumanApprovalUnavailable => DeferralTag::HumanApprovalUnavailable,
        DeferralReason::HigherPriorityRiskExists => DeferralTag::HigherPriorityRiskExists,
        DeferralReason::DuplicateOpportunity => DeferralTag::DuplicateOpportunity,
        DeferralReason::StaleOpportunity => DeferralTag::StaleOpportunity,
        DeferralReason::DominatedBy(id) => DeferralTag::DominatedBy(id@),
    }
}

pub open spec fn deferral_tags(rs: Seq<DeferralReason>) -> Seq<DeferralTag> {
    rs.map_values(|r: DeferralReason| deferral_tag(r))
}

/// What the allocation reads besides the opportunities' own fields.
pub ghost struct AllocInput {
    pub ops: Seq<ExperienceOpportunity>,
    pub objective: ExperiencePortfolioObjective,
    pub budget: ExperienceBudget,
    pub completed: Seq<Seq<char>>,
    pub order: Seq<usize>,
}

/// `ops[j]`, of another identity and the same priority class, dominates `ops[c]`.
pub open spec fn dominates_in_class(ops: Seq<ExperienceOpportunity>, obj: ExperiencePortfolioObjective, c: int, j: int) -> bool {
    &&& ops[j].id@ != ops[c].id@
    &&& priority_class_spec(ops[j], obj) == priority_class_spec(ops[c], obj)
    &&& dominance_spec(ops[c], ops[j]) is DominatedBy
}

/// The identity of the first opportunity at or after `j`, in input order, that dominates
/// `ops[c]` within its class.
pub open spec fn first_dominator_from(ops: Seq<ExperienceOpportunity>, obj: ExperiencePortfolioObjective, c: int, j: int) -> Option<Seq<char>>
    decreases ops.len() - j,
{
    if j < 0 || j >= ops.len() {
        None
    } else if dominates_in_class(ops, obj, c, j) {
        Some(ops[j].id@)
    } else {
        first_dominator_from(ops, obj, c, j + 1)
    }
}

/// The dominator recorded for identity `id` among the first `n` opportunities: that of the
/// last opportunity with this identity that has one.
pub open spec fn recorded_dominator(ops: Seq<ExperienceOpportunity>, obj: ExperiencePortfolioObjective, id: Seq<char>, n: int) -> Option<Seq<char>>
    decreases n,
{
    if n <= 0 {
        None
    } else if ops[n - 1].id@ == id && first_dominator_from(ops, obj, n - 1, 0) is Some {
        first_dominator_from(ops, obj, n - 1, 0)
    } else {
        recorded_dominator(ops, obj, id, n - 1)
    }
}

/// Two targets name the same thing.
pub open spec fn targets_same(a: ExperienceOpportunityTarget, b: ExperienceOpportunityTarget) -> bool {
    match (a, b) {
        (ExperienceOpportunityTarget::Skill(x), ExperienceOpportunityTarget::Skill(y)) => x@ == y@,
        (ExperienceOpportunityTarget::Lesson(x), ExperienceOpportunityTarget::Lesson(y)) => x@ == y@,
        (ExperienceOpportunityTarget::Reflex(x), ExperienceOpportunityTarget::Reflex(y)) => x@ == y@,
        (ExperienceOpportunityTarget::Recovery(x), ExperienceOpportunityTarget::Recovery(y)) => x@ == y@,
        (ExperienceOpportunityTarget::CausalHypothesis(x), ExperienceOpportunityTarget::CausalHypothesis(y)) => x@ == y@,
        (ExperienceOpportunityTarget::EarlyWarning(x), ExperienceOpportunityTarget::EarlyWarning(y)) => x@ == y@,
        (ExperienceOpportunityTarget::FailureSignature(x), ExperienceOpportunityTarget::FailureSignature(y)) => x@ == y@,
        (ExperienceOpportunityTarget::AssuranceGap(x), ExperienceOpportunityTarget::AssuranceGap(y)) => x@ == y@,
        (ExperienceOpportunityTarget::RuntimeGap(x), ExperienceOpportunityTarget::RuntimeGap(y)) => x@ == y@,
        (ExperienceOpportunityTarget::FederatedObject(x), ExperienceOpportunityTarget::FederatedObject(y)) =>
            x.node_id@ == y.node_id@ && x.object_id@ == y.object_id@,
        (ExperienceOpportunityTarget::Tool(x), ExperienceOpportunityTarget::Tool(y)) => x@ == y@,
        (ExperienceOpportunityTarget::TaskFamily(x), ExperienceOpportunityTarget::TaskFamily(y)) => x@ == y@,
        _ => false,
    }
}

/// The opportunity ranked at `p` targets what one ranked before it targets.
pub open spec fn duplicate_at(input: AllocInput, p: int) -> bool {
    exists|q: int| 0 <= q < p && #[trigger] targets_same(
        input.ops[input.order[q] as int].target,
        input.ops[input.order[p] as int].target,
    )
}

/// Human approvals an opportunity reserves.
pub open spec fn approvals_of(o: ExperienceOpportunity) -> usize {
    if o.risk.approval_required { 1 } else { 0 }
}

pub open spec fn saturated_opportunity(o: ExperienceOpportunity) -> bool {
    o.status == ExperienceOpportunityStatus::Saturated
        || (o.saturation == EvidenceSaturation::Saturated && !has_reason(o.rationale@, OpportunityReason::EvidenceStale))
}

pub open spec fn unsafe_opportunity(o: ExperienceOpportunity, budget: ExperienceBudget) -> bool {
    o.risk.trial_safety == TrialSafety::Unsupported
        || effect_risk_rank(o.risk.external_effect_risk) > effect_risk_rank(budget.allowed_effect_risk)
}

pub open spec fn dependency_missing(o: ExperienceOpportunity, completed: Seq<Seq<char>>) -> bool {
    exists|i: int| 0 <= i < o.dependencies@.len() && !completed.contains(#[trigger] o.dependencies@[i]@)
}

pub open spec fn approval_unavailable(o: ExperienceOpportunity, budget: ExperienceBudget) -> bool {
    o.risk.approval_required && budget.max_human_approvals == Some(0usize)
}

/// Little left to learn about a minor, rare failure.
pub open spec fn low_marginal(o: ExperienceOpportunity) -> bool {
    &&& value_rank(o.marginal_value.band) <= value_rank(ValueBand::Low)
    &&& severity_rank(o.risk_reduction.failure_severity) <= severity_rank(Severity::Low)
    &&& (o.risk_reduction.occurrence_exposure == ExposureBand::Rare
        || o.risk_reduction.occurrence_exposure == ExposureBand::Unknown)
}

/// The reasons to defer the opportunity ranked at `p` that do not depend on what was
/// selected before it, in the order they are checked.
pub open spec fn base_tags(input: AllocInput, p: int) -> Seq<DeferralTag> {
    let o = input.ops[input.order[p] as int];
    let t0: Seq<DeferralTag> = match recorded_dominator(input.ops, input.objective, o.id@, input.ops.len() as int) {
        Some(d) => seq![DeferralTag::DominatedBy(d)],
        None => Seq::empty(),
    };
    let t1 = if duplicate_at(input, p) { t0.push(DeferralTag::DuplicateOpportunity) } else { t0 };
    let t2 = if saturated_opportunity(o) { t1.push(DeferralTag::EvidenceSaturated) } else { t1 };
    let t3 = if o.status == ExperienceOpportunityStatus::Invalidated { t2.push(DeferralTag::StaleOpportunity) } else { t2 };
    let t4 = if unsafe_opportunity(o, input.budget) { t3.push(DeferralTag::UnsafeToExperiment) } else { t3 };
    let t5 = if dependency_missing(o, input.completed) { t4.push(DeferralTag::DependencyNotSatisfied) } else { t4 };
    if approval_unavailable(o, input.budget) { t5.push(DeferralTag::HumanApprovalUnavailable) } else { t5 }
}

/// Some opportunity with identity `id` is in priority class 0.
pub open spec fn critical_id(ops: Seq<ExperienceOpportunity>, obj: ExperiencePortfolioObjective, id: Seq<char>) -> bool {
    exists|j: int| 0 <= j < ops.len() && #[trigger] ops[j].id@ == id && priority_class_spec(ops[j], obj) == 0
}

/// Some selected opportunity shares its identity with one in priority class 0.
pub open spec fn any_critical(ops: Seq<ExperienceOpportunity>, obj: ExperiencePortfolioObjective, selected: Seq<int>) -> bool {
    exists|q: int| 0 <= q < selected.len() && #[trigger] critical_id(ops, obj, ops[selected[q]].id@)
}

/// The allocation after the first ranked opportunities: what remains and is reserved, the
/// selected opportunities (by input position) and the deferred ones with their reasons.
pub ghost struct AllocState {
    pub remaining: BudgetUsage,
    pub reserved: BudgetUsage,
    pub selected: Seq<int>,
    pub deferred: Seq<(int, Seq<DeferralTag>)>,
}

/// The reasons to defer the opportunity ranked at `p`, given the allocation so far; none
/// when it is selected.
pub open spec fn tags_at(input: AllocInput, p: int, s: AllocState) -> Seq<DeferralTag> {
    let o = input.ops[input.order[p] as int];
    let base = base_tags(input, p);
    if base.len() > 0 {
        base
    } else if low_marginal(o) {
        seq![DeferralTag::LowerMarginalValue]
    } else if !fits_spec(s.remaining, usage_of(o.estimated_cost, approvals_of(o)), input.budget, o.estimated_cost.external_effect_risk) {
        if any_critical(input.ops, input.objective, s.selected) {
            seq![DeferralTag::BudgetInsufficient, DeferralTag::HigherPriorityRiskExists]
        } else {
            seq![DeferralTag::BudgetInsufficient]
        }
    } else {
        Seq::empty()
    }
}

/// One step of the allocation: defer the opportunity ranked at `p`, or reserve its cost and
/// select it.
pub open spec fn alloc_step(input: AllocInput, s: AllocState, p: int) -> AllocState {
    let idx = input.order[p] as int;
    let o = input.ops[idx];
    let tags = tags_at(input, p, s);
    if tags.len() > 0 {
        AllocState { remaining: s.remaining, reserved: s.reserved, selected: s.selected, deferred: s.deferred.push((idx, tags)) }
    } else {
        let u = usage_of(o.estimated_cost, approvals_of(o));
        AllocState {
            remaining: usage_sub(s.remaining, u),
            reserved: usage_add(s.reserved, u),
            selected: s.selected.push(idx),
            deferred: s.deferred,
        }
    }
}

/// The allocation after the first `p` ranked opportunities.
pub open spec fn alloc_state(input: AllocInput, p: int) -> AllocState
    decreases p,
{
    if p <= 0 {
        AllocState {
            remaining: initial_remaining(input.budget),
            reserved: BudgetUsage::default_spec(),
            selected: Seq::empty(),
            deferred: Seq::empty(),
        }
    } else {
        alloc_step(input, alloc_state(input, p - 1), p - 1)
    }
}

/// Every opportunity the allocation selects is one of the opportunities.
pub proof fn lemma_selected_in_range(input: AllocInput, p: int)
    requires
        0 <= p <= input.order.len(),
        forall|q: int| 0 <= q < input.order.len() ==> #[trigger] input.order[q] < input.ops.len(),
    ensures
        forall|k: int| 0 <= k < alloc_state(input, p).selected.len() ==> 0 <= #[trigger] alloc_state(input, p).selected[k] < input.ops.len(),
    decreases p,
{
    if p > 0 {
        lemma_selected_in_range(input, p - 1);
        let prev = alloc_state(input, p - 1);
        let next = alloc_step(input, prev, p - 1);
        assert(alloc_state(input, p) == next);
        assert(input.order[p - 1] < input.ops.len());
        assert forall|k: int| 0 <= k < next.selected.len() implies 0 <= #[trigger] next.selected[k] < input.ops.len() by {
            if k < prev.selected.len() {
                assert(prev.selected[k] == next.selected[k]) by {
                    if tags_at(input, p - 1, prev).len() == 0 {
                        assert(next.selected == prev.selected.push(input.order[p - 1] as int));
                    }
                }
            }
        }
    }
}

/// The indices of the deferred opportunities, in order.
pub open spec fn deferred_indices(d: Seq<(int, Seq<DeferralTag>)>) -> Seq<int> {
    d.map_values(|e: (int, Seq<DeferralTag>)| e.0)
}

/// After the first `p` ranked opportunities, the selected and the deferred ones are exactly
/// those ranked first, each once.
proof fn lemma_partition_prefix(input: AllocInput, p: int)
    requires
        0 <= p <= input.order.len(),
        input.order.no_duplicates(),
    ensures
        ({
            let s = alloc_state(input, p);
            &&& s.selected.len() + s.deferred.len() == p
            &&& s.selected.no_duplicates()
            &&& deferred_indices(s.deferred).no_duplicates()
            &&& forall|x: int| #[trigger] s.selected.contains(x) ==> !deferred_indices(s.deferred).contains(x)
            &&& forall|x: int|
                (#[trigger] s.selected.contains(x) || #[trigger] deferred_indices(s.deferred).contains(x)) <==> exists|q: int|
                    0 <= q < p && input.order[q] == x
        }),
    decreases p,
{
    if p > 0 {
        lemma_partition_prefix(input, p - 1);
        let prev = alloc_state(input, p - 1);
        let next = alloc_state(input, p);
        let idx = input.order[p - 1] as int;
        assert(next == alloc_step(input, prev, p - 1));
        assert(!prev.selected.contains(idx) && !deferred_indices(prev.deferred).contains(idx)) by {
            if prev.selected.contains(idx) || deferred_indices(prev.deferred).contains(idx) {
                let q = choose|q: int| 0 <= q < p - 1 && input.order[q] == idx;
                assert(input.order[q] == input.order[p - 1]);
            }
        }
        let dp = deferred_indices(prev.deferred);
        let dn = deferred_indices(next.deferred);
        if tags_at(input, p - 1, prev).len() > 0 {
            assert(dn =~= dp.push(idx));
            assert(next.selected == prev.selected);
            assert forall|a: int, b: int| 0 <= a < dn.len() && 0 <= b < dn.len() && a != b implies dn[a] != dn[b] by {
                if a < dp.len() && b < dp.len() {
                } else if a < dp.len() {
                    assert(dp.contains(dn[a]));
                } else if b < dp.len() {
                    assert(dp.contains(dn[b]));
                }
            }
            assert forall|x: int| #[trigger] next.selected.contains(x) implies !dn.contains(x) by {
                if dn.contains(x) {
                    let k = choose|k: int| 0 <= k < dn.len() && dn[k] == x;
                    if k < dp.len() {
                        assert(dp.contains(x));
                    }
                }
            }
        } else {
            assert(next.selected =~= prev.selected.push(idx));
            assert(next.deferred == prev.deferred);
            let sp = prev.selected;
            let sn = next.selected;
            assert forall|a: int, b: int| 0 <= a < sn.len() && 0 <= b < sn.len() && a != b implies sn[a] != sn[b] by {
                if a < sp.len() && b < sp.len() {
                } else if a < sp.len() {
                    assert(sp.contains(sn[a]));
                } else if b < sp.len() {
                    assert(sp.contains(sn[b]));
                }
            }
            assert forall|x: int| #[trigger] sn.contains(x) implies !dn.contains(x) by {
                let k = choose|k: int| 0 <= k < sn.len() && sn[k] == x;
                if k < sp.len() {
                    assert(sp.contains(x));
                }
            }
        }
        assert forall|x: int|
            (#[trigger] next.selected.contains(x) || #[trigger] deferred_indices(next.deferred).contains(x)) <==> exists|q: int|
                0 <= q < p && input.order[q] == x by {
            if x == idx {
                assert(input.order[p - 1] == x);
                if tags_at(input, p - 1, prev).len() > 0 {
                    assert(deferred_indices(next.deferred)[deferred_indices(next.deferred).len() - 1] == x);
                } else {
                    assert(next.selected[next.selected.len() - 1] == x);
                }
            } else {
                if prev.selected.contains(x) {
                    let k = choose|k: int| 0 <= k < prev.selected.len() && prev.selected[k] == x;
                    assert(next.selected[k] == x);
                }
                if deferred_indices(prev.deferred).contains(x) {
                    let k = choose|k: int| 0 <= k < deferred_indices(prev.deferred).len() && deferred_indices(prev.deferred)[k] == x;
                    assert(deferred_indices(next.deferred)[k] == x);
                }
                if next.selected.contains(x) {
                    let k = choose|k: int| 0 <= k < next.selected.len() && next.selected[k] == x;
                    assert(prev.selected[k] == x);
                }
                if deferred_indices(next.deferred).contains(x) {
                    let k = choose|k: int| 0 <= k < deferred_indices(next.deferred).len() && deferred_indices(next.deferred)[k] == x;
                    assert(deferred_indices(prev.deferred)[k] == x);
                }
            }
        }
    } else {
        assert(deferred_indices(alloc_state(input, 0).deferred) =~= Seq::<int>::empty());
    }
}

/// Allocation law: every deferral gives at least one reason.
pub proof fn lemma_deferrals_have_reasons(input: AllocInput, p: int)
    requires
        0 <= p,
    ensures
        forall|i: int| 0 <= i < alloc_state(input, p).deferred.len() ==> (#[trigger] alloc_state(input, p).deferred[i]).1.len() > 0,
    decreases p,
{
    if p > 0 {
        lemma_deferrals_have_reasons(input, p - 1);
        let prev = alloc_state(input, p - 1);
        assert forall|i: int| 0 <= i < alloc_state(input, p).deferred.len() implies (#[trigger] alloc_state(input, p).deferred[i]).1.len() > 0 by {
            if i < prev.deferred.len() {
                assert(alloc_state(input, p).deferred[i] == prev.deferred[i]);
            }
        }
    }
}

/// Allocation law: what the selected opportunities reserve and what remains always add up
/// to the budget's limits, so the selected opportunities never exceed the initial budget.
pub proof fn lemma_allocation_within_budget(input: AllocInput, p: int)
    requires
        0 <= p,
    ensures
        ({
            let s = alloc_state(input, p);
            let init = initial_remaining(input.budget);
            &&& s.reserved.trials + s.remaining.trials == init.trials
            &&& s.reserved.agent_runs + s.remaining.agent_runs == init.agent_runs
            &&& s.reserved.duration_ms + s.remaining.duration_ms == init.duration_ms
            &&& s.reserved.human_approvals + s.remaining.human_approvals == init.human_approvals
            &&& s.reserved.trials <= init.trials
            &&& s.reserved.agent_runs <= init.agent_runs
            &&& s.reserved.duration_ms <= init.duration_ms
            &&& s.reserved.human_approvals <= init.human_approvals
        }),
    decreases p,
{
    if p > 0 {
        lemma_allocation_within_budget(input, p - 1);
    }
}

/// Allocation law: every opportunity is either selected or deferred, never both, and none
/// is listed twice.
pub proof fn lemma_allocation_partitions(input: AllocInput)
    requires
        ranked_order(input.ops, input.objective, input.order),
        input.ops.len() <= usize::MAX,
    ensures
        ({
            let s = alloc_state(input, input.ops.len() as int);
            &&& s.selected.len() + s.deferred.len() == input.ops.len()
            &&& s.selected.no_duplicates()
            &&& deferred_indices(s.deferred).no_duplicates()
            &&& forall|i: int| 0 <= i < input.ops.len() ==> (#[trigger] s.selected.contains(i) != deferred_indices(
                s.deferred,
            ).contains(i))
        }),
{
    let n = input.ops.len() as int;
    lemma_partition_prefix(input, n);
    let s = alloc_state(input, n);
    assert forall|i: int| 0 <= i < n implies (#[trigger] s.selected.contains(i) != deferred_indices(s.deferred).contains(i)) by {
        assert(input.order.contains(i as usize));
        let q = choose|q: int| 0 <= q < input.order.len() && input.order[q] == i as usize;
        assert(input.order[q] == i);
    }
}

/// The label of a priority class.
pub open spec fn class_label(c: u8) -> Seq<char> {
    if c == 0 {
        "class-0"@
    } else if c == 1 {
        "class-1"@
    } else if c == 2 {
        "class-2"@
    } else if c == 3 {
        "class-3"@
    } else if c == 4 {
        "class-4"@
    } else if c == 5 {
        "class-5"@
    } else if c == 6 {
        "class-6"@
    } else if c == 7 {
        "class-7"@
    } else {
        "class-8"@
    }
}

/// The reasons given for a selection in priority class `c`.
pub open spec fn selection_reasons_ok(rs: Seq<SelectionReason>, c: u8) -> bool {
    &&& rs.len() == (if c == 0 { 7int } else { 6int })
    &&& rs[0] matches SelectionReason::PriorityClass(l) && l@ == class_label(c)
    &&& rs[1] is HigherRiskReduction
    &&& rs[2] is HigherDecisionRelevance
    &&& rs[3] is HigherLearningValue
    &&& rs[4] is HigherReusePotential
    &&& rs[5] is FitsRemainingBudget
    &&& c == 0 ==> rs[6] is CriticalBudgetReserved
}

/// `s` records the selection of `o` as the `(rank + 1)`-th selected opportunity.
pub open spec fn selection_matches(s: PortfolioSelection, o: ExperienceOpportunity, obj: ExperiencePortfolioObjective, rank: int) -> bool {
    &&& s.opportunity@ == o.id@
    &&& s.priority == rank + 1
    &&& s.category == portfolio_category_spec(o.kind)
    &&& selection_reasons_ok(s.reasons@, priority_class_spec(o, obj))
    &&& s.reserved_cost == o.estimated_cost
}

/// `d` records the deferral of `o` for `tags`.
pub open spec fn deferral_matches(d: PortfolioDeferral, o: ExperienceOpportunity, tags: Seq<DeferralTag>) -> bool {
    d.opportunity@ == o.id@ && deferral_tags(d.reasons@) == tags
}

/// The selections, deferrals and ledger counters of `p` are those of the allocation of
/// `input`.
pub open spec fn allocates_with(p: ExperiencePortfolio, input: AllocInput) -> bool {
    let s = alloc_state(input, input.ops.len() as int);
    &&& p.selected@.len() == s.selected.len()
    &&& forall|i: int| 0 <= i < s.selected.len() ==> #[trigger] selection_matches(
        p.selected@[i],
        input.ops[s.selected[i]],
        input.objective,
        i,
    )
    &&& p.deferred@.len() == s.deferred.len()
    &&& forall|i: int| 0 <= i < s.deferred.len() ==> #[trigger] deferral_matches(
        p.deferred@[i],
        input.ops[s.deferred[i].0],
        s.deferred[i].1,
    )
    &&& p.ledger.remaining == s.remaining
    &&& p.ledger.reserved == s.reserved
}

/// `p` allocates `budget` over `ops`, ranked by `objective`, with `completed` dependencies
/// done: its selections, deferrals and counters are those of the fold over the ranked order,
/// and it lists every opportunity and the policy versions.
pub open spec fn allocates(
    p: ExperiencePortfolio,
    ops: Seq<ExperienceOpportunity>,
    objective: ExperiencePortfolioObjective,
    budget: ExperienceBudget,
    completed: Seq<Seq<char>>,
    now: i64,
) -> bool {
    &&& exists|order: Seq<usize>| ranked_order(ops, objective, order) && #[trigger] allocates_with(
        p,
        AllocInput { ops, objective, budget, completed, order },
    )
    &&& p.opportunities@.len() == ops.len()
    &&& forall|i: int| 0 <= i < ops.len() ==> #[trigger] p.opportunities@[i]@ == ops[i].id@
    &&& p.objective == objective
    &&& p.created_at == now
    &&& p.policy.version@ == ALLOCATION_POLICY_VERSION@
    &&& p.policy_versions.opportunity_generator@ == OPPORTUNITY_GENERATOR_VERSION@
    &&& p.policy_versions.allocation_policy@ == ALLOCATION_POLICY_VERSION@
    &&& p.policy_versions.saturation_policy@ == SATURATION_POLICY_VERSION@
    &&& p.policy_versions.cost_estimator@ == COST_ESTIMATOR_VERSION@
}

// ------------------------------------------------------------------------------------------
// The allocation's checks.
// ------------------------------------------------------------------------------------------

fn classes_of(ops: &[ExperienceOpportunity], obj: ExperiencePortfolioObjective) -> (r: Vec<u8>)
    ensures
        r@.len() == ops@.len(),
        forall|i: int| 0 <= i < ops@.len() ==> #[trigger] r@[i] == priority_class_spec(ops@[i], obj),
{
    let mut r: Vec<u8> = Vec::new();
    let mut i: usize = 0;
    while i < ops.len()
        invariant
            i <= ops@.len(),
            r@.len() == i,
            forall|k: int| 0 <= k < i ==> #[trigger] r@[k] == priority_class_spec(ops@[k], obj),
        decreases ops.len() - i,
    {
        r.push(priority_class(&ops[i], obj));
        i = i + 1;
    }
    r
}

fn first_dominator(ops: &[ExperienceOpportunity], classes: &Vec<u8>, Ghost(obj): Ghost<ExperiencePortfolioObjective>, c: usize) -> (r: Option<String>)
    requires
        c < ops@.len(),
        classes@.len() == ops@.len(),
        forall|i: int| 0 <= i < ops@.len() ==> #[trigger] classes@[i] == priority_class_spec(ops@[i], obj),
    ensures
        opt_view(r) == first_dominator_from(ops@, obj, c as int, 0),
{
    let mut j: usize = 0;
    while j < ops.len()
        invariant
            j <= ops@.len(),
            c < ops@.len(),
            classes@.len() == ops@.len(),
            forall|i: int| 0 <= i < ops@.len() ==> #[trigger] classes@[i] == priority_class_spec(ops@[i], obj),
            first_dominator_from(ops@, obj, c as int, 0) == first_dominator_from(ops@, obj, c as int, j as int),
        decreases ops.len() - j,
    {
        let other = &ops[j];
        if !str_eq(other.id.as_str(), ops[c].id.as_str()) && classes[j] == classes[c] {
            if let DominanceStatus::DominatedBy(_) = dominance(&ops[c], other) {
                return Some(other.id.clone());
            }
        }
        j = j + 1;
    }
    None
}

fn recorded_for(
    ops: &[ExperienceOpportunity],
    doms: &Vec<Option<String>>,
    Ghost(obj): Ghost<ExperiencePortfolioObjective>,
    id: &str,
) -> (r: Option<String>)
    requires
        doms@.len() == ops@.len(),
        forall|c: int| 0 <= c < ops@.len() ==> #[trigger] opt_view(doms@[c]) == first_dominator_from(ops@, obj, c, 0),
    ensures
        opt_view(r) == recorded_dominator(ops@, obj, id@, ops@.len() as int),
{
    let mut found: Option<String> = None;
    let mut c: usize = 0;
    while c < ops.len()
        invariant
            c <= ops@.len(),
            doms@.len() == ops@.len(),
            forall|k: int| 0 <= k < ops@.len() ==> #[trigger] opt_view(doms@[k]) == first_dominator_from(ops@, obj, k, 0),
            opt_view(found) == recorded_dominator(ops@, obj, id@, c as int),
        decreases ops.len() - c,
    {
        if str_eq(ops[c].id.as_str(), id) {
            if let Some(d) = &doms[c] {
                found = Some(d.clone());
            }
        }
        proof {
            assert(opt_view(doms@[c as int]) == first_dominator_from(ops@, obj, c as int, 0));
        }
        c = c + 1;
    }
    found
}

fn targets_same_exec(a: &ExperienceOpportunityTarget, b: &ExperienceOpportunityTarget) -> (r: bool)
    ensures
        r == targets_same(*a, *b),
{
    match (a, b) {
        (ExperienceOpportunityTarget::Skill(x), ExperienceOpportunityTarget::Skill(y)) => str_eq(x.as_str(), y.as_str()),
        (ExperienceOpportunityTarget::Lesson(x), ExperienceOpportunityTarget::Lesson(y)) => str_eq(x.as_str(), y.as_str()),
        (ExperienceOpportunityTarget::Reflex(x), ExperienceOpportunityTarget::Reflex(y)) => str_eq(x.as_str(), y.as_str()),
        (ExperienceOpportunityTarget::Recovery(x), ExperienceOpportunityTarget::Recovery(y)) => str_eq(x.as_str(), y.as_str()),
        (ExperienceOpportunityTarget::CausalHypothesis(x), ExperienceOpportunityTarget::CausalHypothesis(y)) =>
            str_eq(x.as_str(), y.as_str()),
        (ExperienceOpportunityTarget::EarlyWarning(x), ExperienceOpportunityTarget::EarlyWarning(y)) =>
            str_eq(x.as_str(), y.as_str()),
        (ExperienceOpportunityTarget::FailureSignature(x), ExperienceOpportunityTarget::FailureSignature(y)) =>
            str_eq(x.as_str(), y.as_str()),
        (ExperienceOpportunityTarget::AssuranceGap(x), ExperienceOpportunityTarget::AssuranceGap(y)) =>
            str_eq(x.as_str(), y.as_str()),
        (ExperienceOpportunityTarget::RuntimeGap(x), ExperienceOpportunityTarget::RuntimeGap(y)) => str_eq(x.as_str(), y.as_str()),
        (ExperienceOpportunityTarget::FederatedObject(x), ExperienceOpportunityTarget::FederatedObject(y)) =>
            str_eq(x.node_id.as_str(), y.node_id.as_str()) && str_eq(x.object_id.as_str(), y.object_id.as_str()),
        (ExperienceOpportunityTarget::Tool(x), ExperienceOpportunityTarget::Tool(y)) => str_eq(x.as_str(), y.as_str()),
        (ExperienceOpportunityTarget::TaskFamily(x), ExperienceOpportunityTarget::TaskFamily(y)) => str_eq(x.as_str(), y.as_str()),
        _ => false,
    }
}

fn duplicate_exec(ops: &[ExperienceOpportunity], order: &Vec<usize>, Ghost(input): Ghost<AllocInput>, p: usize) -> (r: bool)
    requires
        input.ops == ops@,
        input.order == order@,
        p < order@.len(),
        forall|q: int| 0 <= q < order@.len() ==> #[trigger] order@[q] < ops@.len(),
    ensures
        r == duplicate_at(input, p as int),
{
    let mut q: usize = 0;
    while q < p
        invariant
            q <= p,
            p < order@.len(),
            input.ops == ops@,
            input.order == order@,
            forall|k: int| 0 <= k < order@.len() ==> #[trigger] order@[k] < ops@.len(),
            forall|k: int| 0 <= k < q ==> !#[trigger] targets_same(
                input.ops[input.order[k] as int].target,
                input.ops[input.order[p as int] as int].target,
            ),
        decreases p - q,
    {
        if targets_same_exec(&ops[order[q]].target, &ops[order[p]].target) {
            return true;
        }
        q = q + 1;
    }
    false
}

fn dependency_missing_exec(o: &ExperienceOpportunity, completed: &Vec<String>) -> (r: bool)
    ensures
        r == dependency_missing(*o, completed@.map_values(|x: String| x@)),
{
    let ghost done = completed@.map_values(|x: String| x@);
    let mut i: usize = 0;
    while i < o.dependencies.len()
        invariant
            i <= o.dependencies@.len(),
            done == completed@.map_values(|x: String| x@),
            forall|k: int| 0 <= k < i ==> done.contains(#[trigger] o.dependencies@[k]@),
        decreases o.dependencies.len() - i,
    {
        let dep = o.dependencies[i].as_str();
        let mut found = false;
        let mut j: usize = 0;
        while j < completed.len()
            invariant
                j <= completed@.len(),
                done == completed@.map_values(|x: String| x@),
                found ==> done.contains(dep@),
                !found ==> forall|k: int| 0 <= k < j ==> #[trigger] done[k] != dep@,
            decreases completed.len() - j,
        {
            if str_eq(completed[j].as_str(), dep) {
                found = true;
                proof {
                    assert(done[j as int] == dep@);
                }
            }
            j = j + 1;
        }
        if !found {
            proof {
                assert forall|k: int| 0 <= k < done.len() implies done[k] != dep@ by {}
            }
            return true;
        }
        i = i + 1;
    }
    false
}

fn low_marginal_exec(o: &ExperienceOpportunity) -> (r: bool)
    ensures
        r == low_marginal(*o),
{
    o.marginal_value.band.rank() <= 1 && o.risk_reduction.failure_severity.rank() <= 1
        && (o.risk_reduction.occurrence_exposure == ExposureBand::Rare
            || o.risk_reduction.occurrence_exposure == ExposureBand::Unknown)
}

fn base_deferrals(
    ops: &[ExperienceOpportunity],
    order: &Vec<usize>,
    doms: &Vec<Option<String>>,
    budget: &ExperienceBudget,
    completed: &Vec<String>,
    Ghost(input): Ghost<AllocInput>,
    p: usize,
) -> (r: Vec<DeferralReason>)
    requires
        input.ops == ops@,
        input.order == order@,
        input.budget == *budget,
        input.completed == completed@.map_values(|x: String| x@),
        p < order@.len(),
        forall|q: int| 0 <= q < order@.len() ==> #[trigger] order@[q] < ops@.len(),
        doms@.len() == ops@.len(),
        forall|c: int| 0 <= c < ops@.len() ==> #[trigger] opt_view(doms@[c]) == first_dominator_from(ops@, input.objective, c, 0),
    ensures
        deferral_tags(r@) == base_tags(input, p as int),
{
    let o = &ops[order[p]];
    let mut reasons: Vec<DeferralReason> = Vec::new();
    if let Some(d) = recorded_for(ops, doms, Ghost(input.objective), o.id.as_str()) {
        reasons.push(DeferralReason::DominatedBy(d));
    }
    proof {
        assert(deferral_tags(reasons@) =~= match recorded_dominator(input.ops, input.objective, o.id@, input.ops.len() as int) {
            Some(d) => seq![DeferralTag::DominatedBy(d)],
            None => Seq::<DeferralTag>::empty(),
        });
    }
    if duplicate_exec(ops, order, Ghost(input), p) {
        reasons.push(DeferralReason::DuplicateOpportunity);
    }
    let ghost t1 = deferral_tags(reasons@);
    if o.status == ExperienceOpportunityStatus::Saturated
        || (o.saturation == EvidenceSaturation::Saturated
            && !crate::economics::contains_reason(&o.rationale, &OpportunityReason::EvidenceStale)) {
        reasons.push(DeferralReason::EvidenceSaturated);
    }
    let ghost t2 = deferral_tags(reasons@);
    if o.status == ExperienceOpportunityStatus::Invalidated {
        reasons.push(DeferralReason::StaleOpportunity);
    }
    let ghost t3 = deferral_tags(reasons@);
    if o.risk.trial_safety == TrialSafety::Unsupported
        || o.risk.external_effect_risk.rank() > budget.allowed_effect_risk.rank() {
        reasons.push(DeferralReason::UnsafeToExperiment);
    }
    let ghost t4 = deferral_tags(reasons@);
    if dependency_missing_exec(o, completed) {
        reasons.push(DeferralReason::DependencyNotSatisfied);
    }
    let ghost t5 = deferral_tags(reasons@);
    let no_approvals = match budget.max_human_approvals {
        Some(n) => n == 0,
        None => false,
    };
    if o.risk.approval_required && no_approvals {
        reasons.push(DeferralReason::HumanApprovalUnavailable);
    }
    proof {
        assert(deferral_tags(reasons@) =~= base_tags(input, p as int));
    }
    reasons
}

fn class_label_exec(c: u8) -> (r: String)
    ensures
        r@ == class_label(c),
{
    let l = if c == 0 {
        "class-0"
    } else if c == 1 {
        "class-1"
    } else if c == 2 {
        "class-2"
    } else if c == 3 {
        "class-3"
    } else if c == 4 {
        "class-4"
    } else if c == 5 {
        "class-5"
    } else if c == 6 {
        "class-6"
    } else if c == 7 {
        "class-7"
    } else {
        "class-8"
    };
    l.to_string()
}

fn selection_reasons(c: u8) -> (r: Vec<SelectionReason>)
    ensures
        selection_reasons_ok(r@, c),
{
    let mut r: Vec<SelectionReason> = Vec::new();
    r.push(SelectionReason::PriorityClass(class_label_exec(c)));
    r.push(SelectionReason::HigherRiskReduction);
    r.push(SelectionReason::HigherDecisionRelevance);
    r.push(SelectionReason::HigherLearningValue);
    r.push(SelectionReason::HigherReusePotential);
    r.push(SelectionReason::FitsRemainingBudget);
    if c == 0 {
        r.push(SelectionReason::CriticalBudgetReserved);
    }
    r
}

fn critical_id_exec(ops: &[ExperienceOpportunity], classes: &Vec<u8>, Ghost(obj): Ghost<ExperiencePortfolioObjective>, id: &str) -> (r: bool)
    requires
        classes@.len() == ops@.len(),
        forall|i: int| 0 <= i < ops@.len() ==> #[trigger] classes@[i] == priority_class_spec(ops@[i], obj),
    ensures
        r == critical_id(ops@, obj, id@),
{
    let mut j: usize = 0;
    while j < ops.len()
        invariant
            j <= ops@.len(),
            classes@.len() == ops@.len(),
            forall|i: int| 0 <= i < ops@.len() ==> #[trigger] classes@[i] == priority_class_spec(ops@[i], obj),
            forall|k: int| 0 <= k < j ==> !(#[trigger] ops@[k].id@ == id@ && priority_class_spec(ops@[k], obj) == 0),
        decreases ops.len() - j,
    {
        if classes[j] == 0 && str_eq(ops[j].id.as_str(), id) {
            return true;
        }
        j = j + 1;
    }
    false
}

proof fn lemma_any_critical_push(ops: Seq<ExperienceOpportunity>, obj: ExperiencePortfolioObjective, sel: Seq<int>, x: int)
    ensures
        any_critical(ops, obj, sel.push(x)) == (any_critical(ops, obj, sel) || critical_id(ops, obj, ops[x].id@)),
{
    let t = sel.push(x);
    assert(t[sel.len() as int] == x);
    if any_critical(ops, obj, sel) {
        let q = choose|q: int| 0 <= q < sel.len() && #[trigger] critical_id(ops, obj, ops[sel[q]].id@);
        assert(t[q] == sel[q]);
        assert(critical_id(ops, obj, ops[t[q]].id@));
    }
    if any_critical(ops, obj, t) {
        let q = choose|q: int| 0 <= q < t.len() && #[trigger] critical_id(ops, obj, ops[t[q]].id@);
        if q < sel.len() {
            assert(t[q] == sel[q]);
            assert(critical_id(ops, obj, ops[sel[q]].id@));
        }
    }
}

// ------------------------------------------------------------------------------------------
// The allocation policy.
// ------------------------------------------------------------------------------------------

/// The budget a revision allocates: the previous budget, limited to what its ledger still
/// had remaining.
pub open spec fn replan_budget(previous: ExperiencePortfolio) -> ExperienceBudget {
    ExperienceBudget {
        max_realities: previous.ledger.remaining.trials,
        max_curriculum_trials: Some(previous.ledger.remaining.trials),
        max_agent_runs: previous.ledger.remaining.agent_runs,
        max_duration_ms: Some(previous.ledger.remaining.duration_ms),
        max_human_approvals: Some(previous.ledger.remaining.human_approvals),
        max_parallel_trials: previous.budget.max_parallel_trials,
        max_commands_per_reality: previous.budget.max_commands_per_reality,
        allowed_effect_risk: previous.budget.allowed_effect_risk,
    }
}

/// Ranks opportunities lexicographically and selects them greedily within the budget.
#[derive(Clone, Copy, Debug)]
pub struct DeterministicExperienceAllocationPolicy;

impl DeterministicExperienceAllocationPolicy {
    /// Ranks the opportunities by priority class and value, then walks them in rank order:
    /// each is deferred with every reason that applies (a dominator of its class, a target
    /// already seen, saturation, invalidation, unsafe effects, missing dependencies, approvals
    /// that cannot be had, little marginal value, an exhausted budget), or has its cost
    /// reserved and is selected. A budget that allows no parallel trial is refused.
    pub fn allocate(
        &self,
        opportunities: &[ExperienceOpportunity],
        budget: &ExperienceBudget,
        context: &ExperiencePlanningContext,
    ) -> (r: Result<ExperiencePortfolio, Error>)
        ensures
            r is Err <==> budget.max_parallel_trials == Some(0usize),
            r matches Err(e) ==> e is InvalidInput,
            r matches Ok(p) ==> {
                &&& allocates(p, opportunities@, context.objective, *budget,
                    context.completed_dependencies@.map_values(|x: String| x@), context.now)
                &&& p.budget == *budget
                &&& p.ledger.budget == *budget
                &&& p.ledger.consumed == BudgetUsage::default_spec()
                &&& p.ledger.wf()
                &&& p.revision == 1
                &&& p.revision_reason is None
            },
    {
        let no_parallel = match budget.max_parallel_trials {
            Some(n) => n == 0,
            None => false,
        };
        if no_parallel {
            return Err(Error::InvalidInput("Experience budget must allow at least one parallel trial".to_string()));
        }
        let obj = context.objective;
        let ops = opportunities;
        let mut ledger = ExperienceBudgetLedger::new(*budget);
        let order = rank_order(ops, obj);
        let classes = classes_of(ops, obj);
        let mut doms: Vec<Option<String>> = Vec::new();
        let mut c: usize = 0;
        while c < ops.len()
            invariant
                c <= ops@.len(),
                doms@.len() == c,
                classes@.len() == ops@.len(),
                forall|i: int| 0 <= i < ops@.len() ==> #[trigger] classes@[i] == priority_class_spec(ops@[i], obj),
                forall|k: int| 0 <= k < c ==> #[trigger] opt_view(doms@[k]) == first_dominator_from(ops@, obj, k, 0),
            decreases ops.len() - c,
        {
            doms.push(first_dominator(ops, &classes, Ghost(obj), c));
            c = c + 1;
        }
        let ghost input = AllocInput {
            ops: ops@,
            objective: obj,
            budget: *budget,
            completed: context.completed_dependencies@.map_values(|x: String| x@),
            order: order@,
        };
        let mut selected: Vec<PortfolioSelection> = Vec::new();
        let mut deferred: Vec<PortfolioDeferral> = Vec::new();
        let mut critical_selected = false;
        let mut p: usize = 0;
        while p < order.len()
            invariant
                ranked_order(ops@, obj, order@),
                input == (AllocInput {
                    ops: ops@,
                    objective: obj,
                    budget: *budget,
                    completed: context.completed_dependencies@.map_values(|x: String| x@),
                    order: order@,
                }),
                p <= order@.len(),
                classes@.len() == ops@.len(),
                forall|i: int| 0 <= i < ops@.len() ==> #[trigger] classes@[i] == priority_class_spec(ops@[i], obj),
                doms@.len() == ops@.len(),
                forall|k: int| 0 <= k < ops@.len() ==> #[trigger] opt_view(doms@[k]) == first_dominator_from(ops@, obj, k, 0),
                ledger.budget == *budget,
                ledger.consumed == BudgetUsage::default_spec(),
                ledger.wf(),
                ({
                    let s = alloc_state(input, p as int);
                    &&& ledger.remaining == s.remaining
                    &&& ledger.reserved == s.reserved
                    &&& critical_selected == any_critical(ops@, obj, s.selected)
                    &&& selected@.len() == s.selected.len()
                    &&& s.selected.len() <= p
                    &&& forall|i: int| 0 <= i < s.selected.len() ==> #[trigger] selection_matches(
                        selected@[i],
                        ops@[s.selected[i]],
                        obj,
                        i,
                    )
                    &&& deferred@.len() == s.deferred.len()
                    &&& forall|i: int| 0 <= i < s.deferred.len() ==> #[trigger] deferral_matches(
                        deferred@[i],
                        ops@[s.deferred[i].0],
                        s.deferred[i].1,
                    )
                }),
            decreases order.len() - p,
        {
            let ghost s = alloc_state(input, p as int);
            proof {
                assert(order@[p as int] < ops@.len());
            }
            let idx = order[p];
            let o = &ops[idx];
            let approvals: usize = if o.risk.approval_required { 1 } else { 0 };
            let mut reasons = base_deferrals(ops, &order, &doms, budget, &context.completed_dependencies, Ghost(input), p);
            if reasons.len() == 0 && low_marginal_exec(o) {
                reasons.push(DeferralReason::LowerMarginalValue);
            }
            if reasons.len() == 0 && !ledger.can_reserve(&o.estimated_cost, approvals) {
                reasons.push(DeferralReason::BudgetInsufficient);
                if critical_selected {
                    reasons.push(DeferralReason::HigherPriorityRiskExists);
                }
            }
            proof {
                assert(deferral_tags(reasons@) =~= tags_at(input, p as int, s));
            }
            if reasons.len() > 0 {
                deferred.push(PortfolioDeferral { opportunity: o.id.clone(), reasons });
                proof {
                    let s2 = alloc_state(input, p as int + 1);
                    assert(s2 == alloc_step(input, s, p as int));
                    assert forall|i: int| 0 <= i < s2.deferred.len() implies #[trigger] deferral_matches(
                        deferred@[i],
                        ops@[s2.deferred[i].0],
                        s2.deferred[i].1,
                    ) by {
                        if i < s.deferred.len() {
                            assert(s2.deferred[i] == s.deferred[i]);
                        }
                    }
                }
            } else {
                let reserved = ledger.reserve(&o.estimated_cost, approvals);
                let class = classes[idx];
                let selection = PortfolioSelection {
                    opportunity: o.id.clone(),
                    priority: selected.len() + 1,
                    category: crate::economics::portfolio_category(&o.kind),
                    reasons: selection_reasons(class),
                    reserved_cost: o.estimated_cost,
                };
                selected.push(selection);
                let now_critical = critical_id_exec(ops, &classes, Ghost(obj), o.id.as_str());
                proof {
                    lemma_any_critical_push(ops@, obj, s.selected, idx as int);
                }
                critical_selected = critical_selected || now_critical;
                proof {
                    let s2 = alloc_state(input, p as int + 1);
                    assert(s2 == alloc_step(input, s, p as int));
                    assert forall|i: int| 0 <= i < s2.selected.len() implies #[trigger] selection_matches(
                        selected@[i],
                        ops@[s2.selected[i]],
                        obj,
                        i,
                    ) by {
                        if i < s.selected.len() {
                            assert(s2.selected[i] == s.selected[i]);
                        }
                    }
                }
            }
            p = p + 1;
        }
        let portfolio = ExperiencePortfolio {
            id: crate::ids::fresh_id("portfolio-"),
            opportunities: ids_of(ops),
            selected,
            deferred,
            budget: *budget,
            ledger,
            policy: ExperienceAllocationPolicyRef {
                id: crate::ids::fresh_id("allocation-policy-"),
                version: ALLOCATION_POLICY_VERSION.to_string(),
            },
            objective: obj,
            policy_versions: PortfolioPolicyVersions {
                opportunity_generator: OPPORTUNITY_GENERATOR_VERSION.to_string(),
                allocation_policy: ALLOCATION_POLICY_VERSION.to_string(),
                saturation_policy: SATURATION_POLICY_VERSION.to_string(),
                cost_estimator: COST_ESTIMATOR_VERSION.to_string(),
            },
            created_at: context.now,
            revision: 1,
            revision_reason: None,
        };
        proof {
            assert(ops@.len() == order@.len());
            assert(allocates_with(portfolio, input));
        }
        Ok(portfolio)
    }

    /// Allocates again within what the previous portfolio's ledger still had remaining, and
    /// returns the result as the next revision of that portfolio: its identity, budget and
    /// consumption are kept, and the revision is numbered one higher, for `reason`.
    pub fn replan(
        &self,
        previous: &ExperiencePortfolio,
        opportunities: &[ExperienceOpportunity],
        context: &ExperiencePlanningContext,
        reason: PortfolioRevisionReason,
    ) -> (r: Result<ExperiencePortfolio, Error>)
        ensures
            r is Err <==> previous.budget.max_parallel_trials == Some(0usize),
            r matches Err(e) ==> e is InvalidInput,
            r matches Ok(p) ==> {
                &&& allocates(p, opportunities@, context.objective, replan_budget(*previous),
                    context.completed_dependencies@.map_values(|x: String| x@), context.now)
                &&& p.id@ == previous.id@
                &&& p.revision == crate::economics::sat_add_u64(previous.revision, 1)
                &&& p.revision_reason == Some(reason)
                &&& p.budget == previous.budget
                &&& p.ledger.budget == previous.budget
                &&& p.ledger.consumed == previous.ledger.consumed
            },
    {
        let mut budget = previous.budget;
        budget.max_realities = previous.ledger.remaining.trials;
        budget.max_curriculum_trials = Some(previous.ledger.remaining.trials);
        budget.max_agent_runs = previous.ledger.remaining.agent_runs;
        budget.max_duration_ms = Some(previous.ledger.remaining.duration_ms);
        budget.max_human_approvals = Some(previous.ledger.remaining.human_approvals);
        let mut revised = match self.allocate(opportunities, &budget, context) {
            Ok(p) => p,
            Err(e) => return Err(e),
        };
        let ghost first = revised;
        revised.id = previous.id.clone();
        revised.revision = previous.revision.saturating_add(1);
        revised.revision_reason = Some(reason);
        revised.budget = previous.budget;
        revised.ledger.budget = previous.budget;
        revised.ledger.consumed = previous.ledger.consumed;
        proof {
            let completed = context.completed_dependencies@.map_values(|x: String| x@);
            let order = choose|order: Seq<usize>| ranked_order(opportunities@, context.objective, order) && #[trigger] allocates_with(
                first,
                AllocInput { ops: opportunities@, objective: context.objective, budget, completed, order },
            );
            assert(allocates_with(
                revised,
                AllocInput { ops: opportunities@, objective: context.objective, budget, completed, order },
            ));
        }
        Ok(revised)
    }
}

fn ids_of(ops: &[ExperienceOpportunity]) -> (r: Vec<String>)
    ensures
        r@.len() == ops@.len(),
        forall|i: int| 0 <= i < ops@.len() ==> #[trigger] r@[i]@ == ops@[i].id@,
{
    let mut r: Vec<String> = Vec::new();
    let mut i: usize = 0;
    while i < ops.len()
        invariant
            i <= ops@.len(),
            r@.len() == i,
            forall|k: int| 0 <= k < i ==> #[trigger] r@[k]@ == ops@[k].id@,
        decreases ops.len() - i,
    {
        r.push(ops[i].id.clone());
        i = i + 1;
    }
    r
}

/// In a ranked order, an opportunity of a more urgent priority class comes first, and among
/// opportunities of one priority class the one with the strictly higher risk-reduction value
/// comes first.
pub proof fn lemma_ranked_by_class_then_risk_reduction(
    ops: Seq<ExperienceOpportunity>,
    obj: ExperiencePortfolioObjective,
    order: Seq<usize>,
    p: int,
    q: int,
)
    requires
        ranked_order(ops, obj, order),
        0 <= p < order.len(),
        0 <= q < order.len(),
        priority_class_spec(ops[order[p] as int], obj) < priority_class_spec(ops[order[q] as int], obj) || (
        priority_class_spec(ops[order[p] as int], obj) == priority_class_spec(ops[order[q] as int], obj)
            && value_rank(ops[order[p] as int].value.risk_reduction) > value_rank(ops[order[q] as int].value.risk_reduction)),
    ensures
        p < q,
{
    reveal(rank_lt);
    assert(rank_lt(ops[order[p] as int], ops[order[q] as int], obj));
    if q < p {
        assert(!rank_lt(ops[order[p] as int], ops[order[q] as int], obj));
    }
}

} // verus!
