use hardknock::common::{ExperienceBudget, Severity, TrialSafety};
use hardknock::economics::allocation::DeterministicExperienceAllocationPolicy;
use hardknock::economics::{
    default_opportunity_risk, dominance, priority_class, BudgetUsage, DeferralReason, DeterministicEvidenceSaturationPolicy,
    DeterministicExperienceOpportunityGenerator, DeterministicOpportunityStopPolicy, DecisionRelevance, DominanceStatus,
    EvidenceNovelty, EvidenceSaturation, EvidenceSummary, ExperienceBudgetLedger, ExperienceGap, ExperienceOpportunity,
    ExperienceOpportunityKind, ExperienceOpportunityStatus, ExperienceOpportunityTarget, ExperiencePlanningContext,
    ExperiencePortfolioObjective, ExperienceValueVector, ExperimentCost, ExposureBand, LearningValueEstimate,
    MarginalEvidenceValue, MarginalValueReason, MitigationGap, OpportunityReason, PortfolioRevisionReason,
    ReusePotential, RiskReductionEstimate, RuntimeUseBand, SelectionReason, StopDecision, ValueBand,
};
use hardknock::effects::EffectRisk;
use hardknock::error::Error;

fn s(v: &str) -> String {
    v.to_string()
}

fn values(band: ValueBand) -> ExperienceValueVector {
    ExperienceValueVector {
        risk_reduction: band,
        learning_value: band,
        reuse_potential: band,
        decision_relevance: band,
        evidence_gap: band,
        novelty: band,
    }
}

fn opportunity(id: &str, target: &str, severity: Severity, gap: MitigationGap) -> ExperienceOpportunity {
    ExperienceOpportunity {
        id: s(id),
        kind: ExperienceOpportunityKind::ValidateLesson,
        target: ExperienceOpportunityTarget::Lesson(s(target)),
        rationale: Vec::new(),
        value: values(ValueBand::Medium),
        estimated_cost: ExperimentCost::default(),
        risk: default_opportunity_risk(),
        dependencies: Vec::new(),
        status: ExperienceOpportunityStatus::Eligible,
        created_at: 0,
        risk_reduction: RiskReductionEstimate {
            failure_severity: severity,
            occurrence_exposure: ExposureBand::Frequent,
            mitigation_gap: gap,
            rationale: Vec::new(),
        },
        learning: LearningValueEstimate {
            band: ValueBand::Medium,
            possible_outcomes: Vec::new(),
            decision_changing_outcomes: 0,
            rationale: Vec::new(),
        },
        decision_relevance: DecisionRelevance {
            affected_decisions: 1,
            affected_task_families: 1,
            current_runtime_use: RuntimeUseBand::Medium,
            likely_decision_change: ValueBand::Medium,
        },
        reuse: ReusePotential::Reusable,
        novelty: EvidenceNovelty::Replication,
        saturation: EvidenceSaturation::Developing,
        marginal_value: MarginalEvidenceValue { band: ValueBand::Medium, reason: MarginalValueReason::Replication },
        generator_version: s("deterministic-opportunity-generator-v1"),
    }
}

fn context(completed: Vec<String>) -> ExperiencePlanningContext {
    ExperiencePlanningContext {
        gaps: Vec::new(),
        completed_dependencies: completed,
        objective: ExperiencePortfolioObjective::Balanced,
        now: 1_700_000_000_000,
    }
}

fn budget(trials: usize) -> ExperienceBudget {
    ExperienceBudget {
        max_realities: trials,
        max_curriculum_trials: None,
        max_agent_runs: 3,
        max_duration_ms: Some(300_000),
        max_human_approvals: None,
        max_parallel_trials: None,
        max_commands_per_reality: None,
        allowed_effect_risk: EffectRisk::ReadOnly,
    }
}

fn deferral_of<'a>(p: &'a hardknock::economics::ExperiencePortfolio, id: &str) -> &'a Vec<DeferralReason> {
    &p.deferred.iter().find(|d| d.opportunity == id).expect("deferred").reasons
}

#[test]
fn allocate_refuses_a_budget_without_parallel_trials() {
    let mut b = budget(3);
    b.max_parallel_trials = Some(0);
    let ops = vec![opportunity("a", "x", Severity::Low, MitigationGap::Partial)];
    let r = DeterministicExperienceAllocationPolicy.allocate(&ops, &b, &context(Vec::new()));
    assert!(matches!(r, Err(Error::InvalidInput(_))));
}

#[test]
fn allocate_selects_the_critical_opportunity_first() {
    let ops = vec![
        opportunity("low", "x", Severity::Low, MitigationGap::Partial),
        opportunity("crit", "y", Severity::Critical, MitigationGap::Unmitigated),
    ];
    let p = DeterministicExperienceAllocationPolicy.allocate(&ops, &budget(3), &context(Vec::new())).unwrap();
    assert_eq!(p.selected.len(), 2);
    assert_eq!(p.selected[0].opportunity, "crit");
    assert_eq!(p.selected[0].priority, 1);
    assert_eq!(p.selected[1].opportunity, "low");
    assert_eq!(p.selected[1].priority, 2);
    assert_eq!(p.selected[0].reasons.len(), 7);
    assert!(matches!(&p.selected[0].reasons[0], SelectionReason::PriorityClass(l) if l == "class-0"));
    assert!(matches!(p.selected[0].reasons[6], SelectionReason::CriticalBudgetReserved));
    assert_eq!(p.selected[1].reasons.len(), 6);
    assert!(matches!(&p.selected[1].reasons[0], SelectionReason::PriorityClass(l) if l == "class-8"));
    assert_eq!(p.ledger.remaining.trials, 1);
    assert_eq!(p.ledger.reserved.trials, 2);
    assert_eq!(p.revision, 1);
    assert!(p.revision_reason.is_none());
    assert_eq!(p.opportunities, vec![s("low"), s("crit")]);
    assert_eq!(p.policy.version, "lexicographic-experience-allocation-v1");
    assert_eq!(p.created_at, 1_700_000_000_000);
}

#[test]
fn allocate_defers_for_budget_behind_a_critical_selection() {
    let ops = vec![
        opportunity("crit", "y", Severity::Critical, MitigationGap::Unmitigated),
        opportunity("other", "z", Severity::High, MitigationGap::Partial),
    ];
    let p = DeterministicExperienceAllocationPolicy.allocate(&ops, &budget(1), &context(Vec::new())).unwrap();
    assert_eq!(p.selected.len(), 1);
    assert_eq!(p.selected[0].opportunity, "crit");
    let reasons = deferral_of(&p, "other");
    assert_eq!(reasons.len(), 2);
    assert!(matches!(reasons[0], DeferralReason::BudgetInsufficient));
    assert!(matches!(reasons[1], DeferralReason::HigherPriorityRiskExists));
    assert_eq!(p.ledger.remaining.trials, 0);
}

#[test]
fn allocate_defers_a_duplicate_target() {
    let mut first = opportunity("a", "same", Severity::High, MitigationGap::Partial);
    first.decision_relevance.affected_decisions = 5;
    let second = opportunity("b", "same", Severity::High, MitigationGap::Partial);
    let ops = vec![second, first];
    let p = DeterministicExperienceAllocationPolicy.allocate(&ops, &budget(3), &context(Vec::new())).unwrap();
    assert_eq!(p.selected.len(), 1);
    assert_eq!(p.selected[0].opportunity, "a");
    let reasons = deferral_of(&p, "b");
    assert!(reasons.iter().any(|r| matches!(r, DeferralReason::DuplicateOpportunity)));
}

#[test]
fn allocate_defers_missing_dependencies_unsafe_and_unapprovable_opportunities() {
    let mut dep = opportunity("dep", "d", Severity::High, MitigationGap::Partial);
    dep.dependencies = vec![s("first"), s("second")];
    let mut unsafe_op = opportunity("unsafe", "u", Severity::High, MitigationGap::Partial);
    unsafe_op.risk.trial_safety = TrialSafety::Unsupported;
    let mut approval = opportunity("approval", "p", Severity::High, MitigationGap::Partial);
    approval.risk.approval_required = true;
    let mut b = budget(5);
    b.max_human_approvals = Some(0);
    let ops = vec![dep, unsafe_op, approval];
    let p = DeterministicExperienceAllocationPolicy.allocate(&ops, &b, &context(vec![s("first")])).unwrap();
    assert!(p.selected.is_empty());
    assert!(matches!(deferral_of(&p, "dep")[..], [DeferralReason::DependencyNotSatisfied]));
    assert!(matches!(deferral_of(&p, "unsafe")[..], [DeferralReason::UnsafeToExperiment]));
    assert!(matches!(deferral_of(&p, "approval")[..], [DeferralReason::HumanApprovalUnavailable]));
}

#[test]
fn allocate_accepts_completed_dependencies() {
    let mut dep = opportunity("dep", "d", Severity::High, MitigationGap::Partial);
    dep.dependencies = vec![s("first")];
    let p = DeterministicExperienceAllocationPolicy.allocate(&[dep], &budget(5), &context(vec![s("first")])).unwrap();
    assert_eq!(p.selected.len(), 1);
}

#[test]
fn allocate_defers_saturated_stale_and_low_value_opportunities() {
    let mut saturated = opportunity("sat", "s", Severity::High, MitigationGap::Partial);
    saturated.saturation = EvidenceSaturation::Saturated;
    let mut stale = opportunity("stale", "t", Severity::High, MitigationGap::Partial);
    stale.status = ExperienceOpportunityStatus::Invalidated;
    let mut low = opportunity("low", "l", Severity::Low, MitigationGap::Partial);
    low.marginal_value.band = ValueBand::Low;
    low.risk_reduction.occurrence_exposure = ExposureBand::Rare;
    let ops = vec![saturated, stale, low];
    let p = DeterministicExperienceAllocationPolicy.allocate(&ops, &budget(5), &context(Vec::new())).unwrap();
    assert!(p.selected.is_empty());
    assert!(matches!(deferral_of(&p, "sat")[..], [DeferralReason::EvidenceSaturated]));
    assert!(matches!(deferral_of(&p, "stale")[..], [DeferralReason::StaleOpportunity]));
    assert!(matches!(deferral_of(&p, "low")[..], [DeferralReason::LowerMarginalValue]));
}

#[test]
fn allocate_records_a_dominating_opportunity() {
    let strong = opportunity("strong", "a", Severity::High, MitigationGap::Partial);
    let mut weak = opportunity("weak", "b", Severity::High, MitigationGap::Partial);
    weak.value = values(ValueBand::Low);
    let ops = vec![weak, strong];
    let p = DeterministicExperienceAllocationPolicy.allocate(&ops, &budget(5), &context(Vec::new())).unwrap();
    assert_eq!(p.selected.len(), 1);
    assert_eq!(p.selected[0].opportunity, "strong");
    assert!(matches!(&deferral_of(&p, "weak")[..], [DeferralReason::DominatedBy(id)] if id == "strong"));
}

#[test]
fn allocate_leaves_every_opportunity_selected_or_deferred_once() {
    let ops = vec![
        opportunity("a", "1", Severity::Critical, MitigationGap::Unmitigated),
        opportunity("b", "2", Severity::High, MitigationGap::Partial),
        opportunity("c", "2", Severity::Medium, MitigationGap::Partial),
        opportunity("d", "3", Severity::Medium, MitigationGap::Partial),
    ];
    let p = DeterministicExperienceAllocationPolicy.allocate(&ops, &budget(2), &context(Vec::new())).unwrap();
    let mut seen: Vec<String> = p.selected.iter().map(|x| x.opportunity.clone()).collect();
    seen.extend(p.deferred.iter().map(|x| x.opportunity.clone()));
    seen.sort();
    assert_eq!(seen, vec![s("a"), s("b"), s("c"), s("d")]);
}

#[test]
fn replan_keeps_identity_and_consumption() {
    let ops = vec![opportunity("a", "x", Severity::High, MitigationGap::Partial)];
    let policy = DeterministicExperienceAllocationPolicy;
    let first = policy.allocate(&ops, &budget(3), &context(Vec::new())).unwrap();
    let revised = policy.replan(&first, &ops, &context(Vec::new()), PortfolioRevisionReason::NewEvidence).unwrap();
    assert_eq!(revised.id, first.id);
    assert_eq!(revised.revision, 2);
    assert_eq!(revised.revision_reason, Some(PortfolioRevisionReason::NewEvidence));
    assert_eq!(revised.budget, first.budget);
    assert_eq!(revised.ledger.consumed, first.ledger.consumed);
    assert_eq!(revised.selected.len(), 1);
    assert_eq!(revised.ledger.remaining.trials, 1);
}

#[test]
fn ledger_reserve_then_release_restores_remaining() {
    let mut ledger = ExperienceBudgetLedger::new(budget(3));
    let before = ledger.remaining;
    let cost = ExperimentCost::default();
    ledger.reserve(&cost, 1).unwrap();
    assert_eq!(ledger.remaining.trials, before.trials - 1);
    assert_eq!(ledger.reserved, BudgetUsage { trials: 1, agent_runs: 0, duration_ms: 0, human_approvals: 1 });
    ledger.release(&cost, 1);
    assert_eq!(ledger.remaining, before);
    assert_eq!(ledger.reserved, BudgetUsage::default());
}

#[test]
fn ledger_refuses_a_reservation_beyond_the_budget() {
    let mut ledger = ExperienceBudgetLedger::new(budget(0));
    let r = ledger.reserve(&ExperimentCost::default(), 0);
    assert!(matches!(r, Err(Error::Intervention(_))));
    assert_eq!(ledger.reserved, BudgetUsage::default());
}

#[test]
fn saturation_assessment_follows_the_evidence() {
    let policy = DeterministicEvidenceSaturationPolicy;
    let t = ExperienceOpportunityTarget::Skill(s("k"));
    let mut e = EvidenceSummary {
        observations: 0,
        equivalent_replications: 0,
        distinct_contexts: 0,
        counterfactuals: 0,
        diversity_domains: 0,
        contradictions: 0,
        fresh: true,
    };
    assert_eq!(policy.assess(&t, &e), EvidenceSaturation::Sparse);
    e.observations = 3;
    assert_eq!(policy.assess(&t, &e), EvidenceSaturation::Developing);
    e.counterfactuals = 1;
    e.distinct_contexts = 1;
    e.equivalent_replications = 2;
    assert_eq!(policy.assess(&t, &e), EvidenceSaturation::Mature);
    e.counterfactuals = 2;
    e.distinct_contexts = 2;
    e.diversity_domains = 2;
    e.equivalent_replications = 4;
    assert_eq!(policy.assess(&t, &e), EvidenceSaturation::Saturated);
    e.contradictions = 1;
    assert_eq!(policy.assess(&t, &e), EvidenceSaturation::Contradicted);
}

#[test]
fn dominance_compares_value_and_cost() {
    let a = opportunity("a", "x", Severity::High, MitigationGap::Partial);
    let mut b = opportunity("b", "y", Severity::High, MitigationGap::Partial);
    b.value = values(ValueBand::Low);
    assert!(matches!(dominance(&a, &b), DominanceStatus::NonDominated));
    assert!(matches!(dominance(&b, &a), DominanceStatus::DominatedBy(id) if id == "a"));
    assert!(matches!(dominance(&a, &a.clone()), DominanceStatus::Incomparable));
}

#[test]
fn priority_classes_order_critical_and_contradicted_first() {
    let obj = ExperiencePortfolioObjective::Balanced;
    assert_eq!(priority_class(&opportunity("a", "x", Severity::Critical, MitigationGap::Significant), obj), 0);
    let mut c = opportunity("c", "x", Severity::High, MitigationGap::Partial);
    c.rationale = vec![OpportunityReason::EvidenceContradicted];
    assert_eq!(priority_class(&c, obj), 1);
    c.rationale = vec![OpportunityReason::EvidenceStale];
    assert_eq!(priority_class(&c, obj), 3);
    c.rationale = vec![OpportunityReason::LowEvidenceDiversity];
    assert_eq!(priority_class(&c, obj), 6);
    assert_eq!(priority_class(&c, ExperiencePortfolioObjective::Research), 3);
    c.rationale = Vec::new();
    assert_eq!(priority_class(&c, obj), 8);
}

#[test]
fn stop_policy_stops_on_satisfaction_marker() {
    let policy = DeterministicOpportunityStopPolicy;
    let o = opportunity("a", "x", Severity::High, MitigationGap::Partial);
    assert_eq!(policy.should_stop(&o, &vec![s("other")]), StopDecision::Continue);
    assert_eq!(policy.should_stop(&o, &vec![s("objective_satisfied")]), StopDecision::StopSatisfied);
    let mut unsafe_op = o.clone();
    unsafe_op.risk.trial_safety = TrialSafety::Unsupported;
    assert_eq!(policy.should_stop(&unsafe_op, &Vec::new()), StopDecision::StopUnsafe);
}

#[test]
fn generator_builds_one_opportunity_per_gap_identity() {
    let gap = ExperienceGap {
        kind: ExperienceOpportunityKind::ValidateLesson,
        target: ExperienceOpportunityTarget::Lesson(s("lesson-1")),
        reasons: vec![OpportunityReason::RepeatedFailure],
        severity: Severity::High,
        exposure: ExposureBand::Frequent,
        mitigation_gap: MitigationGap::Partial,
        learning: LearningValueEstimate {
            band: ValueBand::High,
            possible_outcomes: Vec::new(),
            decision_changing_outcomes: 1,
            rationale: Vec::new(),
        },
        decision_relevance: DecisionRelevance {
            affected_decisions: 2,
            affected_task_families: 1,
            current_runtime_use: RuntimeUseBand::High,
            likely_decision_change: ValueBand::High,
        },
        reuse: ReusePotential::Reusable,
        novelty: EvidenceNovelty::ContextExtension,
        evidence: EvidenceSummary {
            observations: 0,
            equivalent_replications: 0,
            distinct_contexts: 0,
            counterfactuals: 0,
            diversity_domains: 0,
            contradictions: 0,
            fresh: true,
        },
        estimated_cost: ExperimentCost::default(),
        risk: default_opportunity_risk(),
        dependencies: Vec::new(),
    };
    let mut ctx = context(Vec::new());
    ctx.gaps = vec![gap.clone(), gap];
    let ops = DeterministicExperienceOpportunityGenerator.generate(&ctx).unwrap();
    assert_eq!(ops.len(), 1);
    assert!(ops[0].id.starts_with("opportunity-"));
    assert_eq!(ops[0].id.len(), "opportunity-".len() + 36);
    assert_eq!(ops[0].saturation, EvidenceSaturation::Sparse);
    assert_eq!(ops[0].created_at, 1_700_000_000_000);
    let again = DeterministicExperienceOpportunityGenerator.generate(&ctx).unwrap();
    assert_eq!(again[0].id, ops[0].id);
}

use hardknock::economics::benchmark::{
    benchmark_context, evaluate, round_robin, run, static_priority, Allocation, BENCHMARK_FIXTURE,
};

fn with_kind(id: &str, kind: ExperienceOpportunityKind, trials: usize) -> ExperienceOpportunity {
    let mut o = opportunity(id, id, Severity::Medium, MitigationGap::Partial);
    o.kind = kind;
    o.estimated_cost.trials = trials;
    o
}

#[test]
fn round_robin_cycles_and_groups_by_identifier() {
    let ops = vec![
        with_kind("b", ExperienceOpportunityKind::ValidateLesson, 1),
        with_kind("a", ExperienceOpportunityKind::ValidateLesson, 1),
        with_kind("c", ExperienceOpportunityKind::ValidateLesson, 1),
    ];
    let r = round_robin(&ops, 5);
    assert_eq!(r, vec![Allocation { index: 1, trials: 2 }, Allocation { index: 0, trials: 2 }, Allocation { index: 2, trials: 1 }]);
    assert!(round_robin(&ops, 0).is_empty());
    assert!(round_robin(&[], 4).is_empty());
    let twice = vec![with_kind("x", ExperienceOpportunityKind::ValidateLesson, 1), with_kind("x", ExperienceOpportunityKind::HardenSkill, 1)];
    assert_eq!(round_robin(&twice, 3), vec![Allocation { index: 0, trials: 3 }]);
}

#[test]
fn static_priority_orders_by_kind_then_identifier_and_fits_the_budget() {
    let ops = vec![
        with_kind("z", ExperienceOpportunityKind::ResolveContradiction, 2),
        with_kind("b", ExperienceOpportunityKind::HardenSkill, 2),
        with_kind("a", ExperienceOpportunityKind::HardenSkill, 3),
        with_kind("m", ExperienceOpportunityKind::ValidateLesson, 1),
    ];
    let r = static_priority(&ops, 6);
    assert_eq!(r, vec![Allocation { index: 2, trials: 3 }, Allocation { index: 1, trials: 2 }, Allocation { index: 3, trials: 1 }]);
}

#[test]
fn evaluate_counts_complete_material_and_wasted_trials() {
    let mut critical = with_kind("crit", ExperienceOpportunityKind::ValidateRecovery, 2);
    critical.risk_reduction.failure_severity = Severity::Critical;
    critical.estimated_cost.agent_runs = 1;
    let mut saturated = with_kind("sat", ExperienceOpportunityKind::HardenSkill, 1);
    saturated.saturation = EvidenceSaturation::Saturated;
    let warning = with_kind("warn", ExperienceOpportunityKind::ValidateEarlyWarning, 3);
    let ops = vec![critical, saturated, warning];
    let allocations = vec![
        Allocation { index: 0, trials: 2 },
        Allocation { index: 1, trials: 1 },
        Allocation { index: 2, trials: 1 },
    ];
    let c = evaluate("arm", &ops, &allocations, 10);
    assert_eq!(c.arm, "arm");
    assert_eq!(c.selected, vec![s("crit"), s("sat"), s("warn")]);
    assert_eq!(c.trials_consumed, 4);
    assert_eq!(c.agent_runs_consumed, 1);
    assert_eq!(c.critical_gaps_closed, 1);
    assert_eq!(c.high_severity_failures_mitigated, 1);
    assert_eq!(c.early_warnings_validated, 0);
    assert_eq!(c.material_trials, 2);
    assert_eq!(c.saturated_evidence_spend, 1);
    assert_eq!(c.wasted_trials, 2);
    assert_eq!(c.unused_budget, 6);
    assert_eq!(evaluate("arm", &ops, &allocations, 3).unused_budget, 0);
}

#[test]
fn benchmark_fixture_has_a_mixed_backlog() {
    let c = benchmark_context();
    assert_eq!(c.gaps.len(), 22);
    assert!(matches!(&c.gaps[0].target, ExperienceOpportunityTarget::RuntimeGap(l) if l == "saturated-low-0"));
    assert!(matches!(&c.gaps[16].target, ExperienceOpportunityTarget::RuntimeGap(l) if l == "capability-minimization"));
    assert!(matches!(&c.gaps[21].target, ExperienceOpportunityTarget::RuntimeGap(l) if l == "critical-1"));
    assert_eq!(c.gaps[21].estimated_cost.trials, 3);
    assert_eq!(c.gaps[21].estimated_cost.estimated_duration_ms, Some(90_000));
    assert_eq!(c.gaps[10].mitigation_gap, MitigationGap::Unmitigated);
    assert_eq!(c.gaps[5].decision_relevance.affected_decisions, 5);
}

#[test]
fn adaptive_portfolio_beats_round_robin_on_the_fixture() {
    let b = run().unwrap();
    assert_eq!(b.fixture, BENCHMARK_FIXTURE);
    assert_eq!(b.backlog_size, 22);
    assert_eq!(b.arms.len(), 3);
    let (rr, adaptive) = (&b.arms[0], &b.arms[2]);
    assert_eq!(rr.arm, "round_robin");
    assert_eq!(b.arms[1].arm, "static_priority");
    assert_eq!(adaptive.arm, "hardknock_adaptive_portfolio");
    assert_eq!(rr.trials_consumed, 20);
    assert!(adaptive.high_severity_failures_mitigated > rr.high_severity_failures_mitigated);
    assert!(adaptive.saturated_evidence_spend < rr.saturated_evidence_spend);
    assert!(adaptive.trials_consumed <= 20);
}
