//! Deterministic, explainable allocation of bounded experience-acquisition budgets.
use vstd::prelude::*;
use crate::common::{
    Severity, severity_rank, TrialSafety, IsolationLevel, RealityRequirements, ExperienceBudget,
    CurriculumGoalKind,
};
use crate::effects::{EffectRisk, effect_risk_rank};
use crate::epistemic::FederatedObjectRef;
use crate::experimentation::ExperimentIntent;
use crate::error::Error;
use crate::text::{lemma_encode_utf8_injective, str_eq};

pub mod allocation;
pub mod benchmark;

verus! {

pub const OPPORTUNITY_GENERATOR_VERSION: &'static str = "deterministic-opportunity-generator-v1";
pub const ALLOCATION_POLICY_VERSION: &'static str = "lexicographic-experience-allocation-v1";
pub const SATURATION_POLICY_VERSION: &'static str = "contextual-saturation-v1";
pub const COST_ESTIMATOR_VERSION: &'static str = "explicit-cost-estimator-v1";

/// Value of an opportunity along one dimension, ordered from no value to critical.
#[derive(Clone, Copy, Debug, PartialEq, Eq, Structural, PartialOrd, Ord)]
pub enum ValueBand {
    NoValue,
    Low,
    Medium,
    High,
    Critical,
}

pub open spec fn value_rank(b: ValueBand) -> u8 {
    match b {
        ValueBand::NoValue => 0,
        ValueBand::Low => 1,
        ValueBand::Medium => 2,
        ValueBand::High => 3,
        ValueBand::Critical => 4,
    }
}

impl ValueBand {
    /// Position of the band in its total order.
    pub fn rank(&self) -> (r: u8)
        ensures
            r == value_rank(*self),
    {
        match self {
            ValueBand::NoValue => 0,
            ValueBand::Low => 1,
            ValueBand::Medium => 2,
            ValueBand::High => 3,
            ValueBand::Critical => 4,
        }
    }

    pub open spec fn max_spec(self, other: Self) -> Self {
        if value_rank(self) >= value_rank(other) { self } else { other }
    }

    /// The higher of two bands.
    pub fn max(self, other: Self) -> (r: Self)
        ensures
            r == self.max_spec(other),
    {
        if self.rank() >= other.rank() { self } else { other }
    }
}

impl Default for ValueBand {
    fn default() -> (r: Self)
        ensures
            r == ValueBand::NoValue,
    {
        ValueBand::NoValue
    }
}

#[derive(Clone, Copy, Debug, PartialEq, Eq, Structural)]
pub struct ExperienceValueVector {
    pub risk_reduction: ValueBand,
    pub learning_value: ValueBand,
    pub reuse_potential: ValueBand,
    pub decision_relevance: ValueBand,
    pub evidence_gap: ValueBand,
    pub novelty: ValueBand,
}

#[derive(Clone, Copy, Debug, PartialEq, Eq, Structural)]
pub enum ExposureBand {
    Rare,
    Occasional,
    Frequent,
    VeryFrequent,
    Unknown,
}

#[derive(Clone, Copy, Debug, PartialEq, Eq, Structural)]
pub enum MitigationGap {
    NoGap,
    Partial,
    Significant,
    Unmitigated,
    Unknown,
}

#[derive(Clone, Debug)]
pub struct RiskReductionEstimate {
    pub failure_severity: Severity,
    pub occurrence_exposure: ExposureBand,
    pub mitigation_gap: MitigationGap,
    pub rationale: Vec<String>,
}

#[derive(Clone, Copy, Debug, PartialEq, Eq, Structural)]
pub enum LearningOutcomeClass {
    Strengthen,
    Contradict,
    NarrowScope,
    Validate,
    Retire,
    DiscoverFailureBoundary,
    DiscoverRecovery,
    ChangeRuntimeDecision,
    ChangeAssurance,
    NoMaterialChange,
}

#[derive(Clone, Debug)]
pub struct LearningValueEstimate {
    pub band: ValueBand,
    pub possible_outcomes: Vec<LearningOutcomeClass>,
    pub decision_changing_outcomes: usize,
    pub rationale: Vec<String>,
}

#[derive(Clone, Copy, Debug, PartialEq, Eq, Structural)]
pub enum RuntimeUseBand {
    Unused,
    Low,
    Medium,
    High,
    Unknown,
}

#[derive(Clone, Copy, Debug, PartialEq, Eq, Structural)]
pub struct DecisionRelevance {
    pub affected_decisions: usize,
    pub affected_task_families: usize,
    pub current_runtime_use: RuntimeUseBand,
    pub likely_decision_change: ValueBand,
}

#[derive(Clone, Copy, Debug, PartialEq, Eq, Structural)]
pub enum ReusePotential {
    OneOff,
    Narrow,
    Reusable,
    Broad,
    Unknown,
}

#[derive(Clone, Copy, Debug, PartialEq, Eq, Structural)]
pub enum EvidenceNovelty {
    Duplicate,
    Replication,
    ContextExtension,
    MechanismChallenge,
    NewFailureClass,
    Unknown,
}

#[derive(Clone, Copy, Debug, PartialEq, Eq, Structural)]
pub enum ComputeCostBand {
    Negligible,
    Low,
    Medium,
    High,
}

#[derive(Clone, Copy, Debug, PartialEq, Eq, Structural)]
pub enum AttentionCostBand {
    NoAttention,
    Low,
    Medium,
    High,
}

#[derive(Clone, Copy, Debug, PartialEq, Eq, Structural)]
pub enum ResourceCostBand {
    NoResources,
    Low,
    Medium,
    High,
}

/// Estimated cost of an experiment; durations are in milliseconds.
#[derive(Clone, Copy, Debug, PartialEq, Eq, Structural)]
pub struct ExperimentCost {
    pub trials: usize,
    pub agent_runs: usize,
    pub estimated_duration_ms: Option<u64>,
    pub compute: ComputeCostBand,
    pub human_attention: AttentionCostBand,
    pub staging_resources: ResourceCostBand,
    pub external_effect_risk: EffectRisk,
}

impl Default for ExperimentCost {
    fn default() -> (r: Self)
        ensures
            r == (ExperimentCost {
                trials: 1,
                agent_runs: 0,
                estimated_duration_ms: None,
                compute: ComputeCostBand::Negligible,
                human_attention: AttentionCostBand::NoAttention,
                staging_resources: ResourceCostBand::NoResources,
                external_effect_risk: EffectRisk::ReadOnly,
            }),
    {
        ExperimentCost {
            trials: 1,
            agent_runs: 0,
            estimated_duration_ms: None,
            compute: ComputeCostBand::Negligible,
            human_attention: AttentionCostBand::NoAttention,
            staging_resources: ResourceCostBand::NoResources,
            external_effect_risk: EffectRisk::ReadOnly,
        }
    }
}

/// What an experiment actually consumed; the duration is in milliseconds.
#[derive(Clone, Copy, Debug, PartialEq, Eq, Structural)]
pub struct ActualExperimentCost {
    pub trials: usize,
    pub agent_runs: usize,
    pub duration_ms: u64,
    pub approvals_requested: usize,
}

#[derive(Clone, Copy, Debug, PartialEq, Eq, Structural)]
pub struct OpportunityRisk {
    pub trial_safety: TrialSafety,
    pub external_effect_risk: EffectRisk,
    pub isolation_required: RealityRequirements,
    pub approval_required: bool,
}

#[derive(Clone, Debug)]
pub enum ExperienceOpportunityKind {
    ValidateLesson,
    RevalidateStaleExperience,
    ResolveContradiction,
    ValidateRecovery,
    HardenSkill,
    ExploreOperatingEnvelope,
    ValidateReflex,
    ReduceReflexFalsePositives,
    ChallengeCausalHypothesis,
    DiscriminateCausalHypotheses,
    IncreaseEvidenceDiversity,
    ReproduceFederatedExperience,
    ValidateEarlyWarning,
    ValidatePreventiveIntervention,
    InvestigateForecastMiss,
    ReduceForecastFalsePositives,
    MinimizeCapability,
    ResolveRuntimeUnknown,
    CloseAssuranceGap,
    ValidateAbstraction,
    ValidateTransfer,
    ChallengeAbstraction,
    ReduceKnowledgeFragmentation,
    Custom(String),
}

#[derive(Clone, Debug)]
pub enum ExperienceOpportunityTarget {
    Skill(String),
    Lesson(String),
    Reflex(String),
    Recovery(String),
    CausalHypothesis(String),
    EarlyWarning(String),
    FailureSignature(String),
    AssuranceGap(String),
    RuntimeGap(String),
    FederatedObject(FederatedObjectRef),
    Tool(String),
    TaskFamily(String),
}

#[derive(Clone, Debug)]
pub enum OpportunityReason {
    CriticalFailureUnmitigated,
    RepeatedFailure,
    HighUsageSkillGap,
    RuntimeAbstention,
    RuntimeUnknown,
    EvidenceStale,
    EvidenceContradicted,
    LargeBlastRadius,
    AssuranceBlocked,
    RecoveryMissing,
    ReflexNoisy,
    ForecastMiss,
    ForecastNoisy,
    CausalMechanismUnknown,
    LowEvidenceDiversity,
    FederatedEvidenceUnreproduced,
    CapabilityOverprovisioned,
    OperatingEnvelopeUnknown,
    EvidenceSaturated,
    Custom(String),
}

#[derive(Clone, Copy, Debug, PartialEq, Eq, Structural)]
pub enum ExperienceOpportunityStatus {
    Candidate,
    Eligible,
    Selected,
    Running,
    Completed,
    Deferred,
    Saturated,
    Blocked,
    Invalidated,
}

#[derive(Clone, Copy, Debug, PartialEq, Eq, Structural)]
pub enum EvidenceSaturation {
    Sparse,
    Developing,
    Mature,
    Saturated,
    Contradicted,
}

#[derive(Clone, Copy, Debug, PartialEq, Eq, Structural)]
pub enum MarginalValueReason {
    FirstEvidence,
    FirstCounterfactual,
    FirstTransfer,
    FirstContextExtension,
    ResolvesContradiction,
    AddsDiversity,
    Replication,
    RepeatedEquivalentReplication,
    Saturated,
}

#[derive(Clone, Copy, Debug, PartialEq, Eq, Structural)]
pub struct MarginalEvidenceValue {
    pub band: ValueBand,
    pub reason: MarginalValueReason,
}

#[derive(Clone, Copy, Debug, PartialEq, Eq, Structural)]
pub struct EvidenceSummary {
    pub observations: usize,
    pub equivalent_replications: usize,
    pub distinct_contexts: usize,
    pub counterfactuals: usize,
    pub diversity_domains: usize,
    pub contradictions: usize,
    pub fresh: bool,
}

/// A candidate piece of experience worth acquiring; `created_at` is in Unix milliseconds.
#[derive(Clone, Debug)]
pub struct ExperienceOpportunity {
    pub id: String,
    pub kind: ExperienceOpportunityKind,
    pub target: ExperienceOpportunityTarget,
    pub rationale: Vec<OpportunityReason>,
    pub value: ExperienceValueVector,
    pub estimated_cost: ExperimentCost,
    pub risk: OpportunityRisk,
    pub dependencies: Vec<String>,
    pub status: ExperienceOpportunityStatus,
    pub created_at: i64,
    pub risk_reduction: RiskReductionEstimate,
    pub learning: LearningValueEstimate,
    pub decision_relevance: DecisionRelevance,
    pub reuse: ReusePotential,
    pub novelty: EvidenceNovelty,
    pub saturation: EvidenceSaturation,
    pub marginal_value: MarginalEvidenceValue,
    pub generator_version: String,
}

#[derive(Clone, Debug)]
pub struct ExperienceGap {
    pub kind: ExperienceOpportunityKind,
    pub target: ExperienceOpportunityTarget,
    pub reasons: Vec<OpportunityReason>,
    pub severity: Severity,
    pub exposure: ExposureBand,
    pub mitigation_gap: MitigationGap,
    pub learning: LearningValueEstimate,
    pub decision_relevance: DecisionRelevance,
    pub reuse: ReusePotential,
    pub novelty: EvidenceNovelty,
    pub evidence: EvidenceSummary,
    pub estimated_cost: ExperimentCost,
    pub risk: OpportunityRisk,
    pub dependencies: Vec<String>,
}

/// The gaps to plan for; `now` is in Unix milliseconds.
#[derive(Clone, Debug)]
pub struct ExperiencePlanningContext {
    pub gaps: Vec<ExperienceGap>,
    pub completed_dependencies: Vec<String>,
    pub objective: ExperiencePortfolioObjective,
    pub now: i64,
}

#[derive(Clone, Copy, Debug, PartialEq, Eq, Structural)]
pub struct BudgetUsage {
    pub trials: usize,
    pub agent_runs: usize,
    pub duration_ms: u64,
    pub human_approvals: usize,
}

impl Default for BudgetUsage {
    fn default() -> (r: Self)
        ensures
            r == (BudgetUsage { trials: 0, agent_runs: 0, duration_ms: 0, human_approvals: 0 }),
    {
        BudgetUsage { trials: 0, agent_runs: 0, duration_ms: 0, human_approvals: 0 }
    }
}

#[derive(Clone, Debug)]
pub struct ExperienceBudgetLedger {
    pub id: String,
    pub budget: ExperienceBudget,
    pub reserved: BudgetUsage,
    pub consumed: BudgetUsage,
    pub remaining: BudgetUsage,
}

#[derive(Clone, Copy, Debug, PartialEq, Eq, Structural)]
pub enum ExperiencePortfolioObjective {
    Balanced,
    Resilience,
    Assurance,
    Research,
    Efficiency,
}

impl Default for ExperiencePortfolioObjective {
    fn default() -> (r: Self)
        ensures
            r == ExperiencePortfolioObjective::Balanced,
    {
        ExperiencePortfolioObjective::Balanced
    }
}

#[derive(Clone, Debug)]
pub struct ExperienceAllocationPolicyRef {
    pub id: String,
    pub version: String,
}

#[derive(Clone, Debug)]
pub enum SelectionReason {
    PriorityClass(String),
    HigherRiskReduction,
    HigherDecisionRelevance,
    HigherLearningValue,
    HigherReusePotential,
    HigherNovelty,
    LowerCost,
    CriticalBudgetReserved,
    FitsRemainingBudget,
}

#[derive(Clone, Copy, Debug, PartialEq, Eq, Structural)]
pub enum EvidencePortfolioCategory {
    Validation,
    Revalidation,
    Challenge,
    Discovery,
    Hardening,
    Prevention,
    Efficiency,
}

impl Default for EvidencePortfolioCategory {
    fn default() -> (r: Self)
        ensures
            r == EvidencePortfolioCategory::Validation,
    {
        EvidencePortfolioCategory::Validation
    }
}

#[derive(Clone, Debug)]
pub enum DeferralReason {
    BudgetInsufficient,
    LowerMarginalValue,
    EvidenceSaturated,
    DependencyNotSatisfied,
    UnsafeToExperiment,
    MissingRealityCapability,
    HumanApprovalUnavailable,
    HigherPriorityRiskExists,
    DuplicateOpportunity,
    StaleOpportunity,
    DominatedBy(String),
}

#[derive(Clone, Debug)]
pub struct PortfolioSelection {
    pub opportunity: String,
    pub priority: usize,
    pub category: EvidencePortfolioCategory,
    pub reasons: Vec<SelectionReason>,
    pub reserved_cost: ExperimentCost,
}

#[derive(Clone, Debug)]
pub struct PortfolioDeferral {
    pub opportunity: String,
    pub reasons: Vec<DeferralReason>,
}

#[derive(Clone, Debug)]
pub enum DominanceStatus {
    NonDominated,
    DominatedBy(String),
    Incomparable,
}

#[derive(Clone, Copy, Debug, PartialEq, Eq, Structural)]
pub enum PortfolioRevisionReason {
    NewEvidence,
    Contradiction,
    OpportunityCompleted,
    OpportunityInvalidated,
    BudgetChanged,
    RuntimeExposureChanged,
    ForecastMiss,
    AssuranceChanged,
}

#[derive(Clone, Debug)]
pub struct PortfolioPolicyVersions {
    pub opportunity_generator: String,
    pub allocation_policy: String,
    pub saturation_policy: String,
    pub cost_estimator: String,
}

/// A budgeted selection of opportunities; `created_at` is in Unix milliseconds.
#[derive(Clone, Debug)]
pub struct ExperiencePortfolio {
    pub id: String,
    pub opportunities: Vec<String>,
    pub selected: Vec<PortfolioSelection>,
    pub deferred: Vec<PortfolioDeferral>,
    pub budget: ExperienceBudget,
    pub ledger: ExperienceBudgetLedger,
    pub policy: ExperienceAllocationPolicyRef,
    pub objective: ExperiencePortfolioObjective,
    pub policy_versions: PortfolioPolicyVersions,
    pub created_at: i64,
    pub revision: u64,
    pub revision_reason: Option<PortfolioRevisionReason>,
}

#[derive(Clone, Debug)]
pub enum ExecutableLearningPlan {
    Curriculum { target: ExperienceOpportunityTarget, goal: CurriculumGoalKind },
    Experiment { target: ExperienceOpportunityTarget, intent: ExperimentIntent },
    CausalInvestigation(String),
    FederationReproduction(FederatedObjectRef),
    CapabilityCurriculum(String),
}

#[derive(Clone, Copy, Debug, PartialEq, Eq, Structural)]
pub enum OpportunityOutcome {
    MaterialLearning,
    StrengthenedExistingEvidence,
    ContradictedExistingEvidence,
    NoMaterialChange,
    Inconclusive,
    FailedToExecute,
    Cancelled,
}

#[derive(Clone, Copy, Debug, PartialEq, Eq, Structural)]
pub struct LearningYield {
    pub material_updates: usize,
    pub decisions_changed: usize,
    pub gaps_closed: usize,
    pub contradictions_resolved: usize,
    pub failures_mitigated: usize,
}

#[derive(Clone, Debug)]
pub struct ExperienceAcquisitionSummary {
    pub open_opportunities: usize,
    pub critical_opportunities: usize,
    pub high_opportunities: usize,
    pub last_portfolio: Option<String>,
    pub trials_consumed: usize,
    pub material_outcomes: usize,
    pub critical_gaps_closed: usize,
    pub early_stop_trial_savings: usize,
}

/// Outstanding experience debt; `age_ms` is in milliseconds.
#[derive(Clone, Debug)]
pub struct ExperienceDebtItem {
    pub target: ExperienceOpportunityTarget,
    pub severity: Severity,
    pub exposure: ExposureBand,
    pub age_ms: u64,
    pub reason: OpportunityReason,
}

#[derive(Clone, Copy, Debug, PartialEq, Eq, Structural)]
pub enum StopDecision {
    Continue,
    StopSatisfied,
    StopSaturated,
    StopContradicted,
    StopUnsafe,
    StopBudget,
}

} // verus!

verus! {

// ---------------------------------------------------------------------------
// Evidence saturation and marginal value
// ---------------------------------------------------------------------------

/// How saturated the evidence about a target is.
pub open spec fn saturation_spec(e: EvidenceSummary) -> EvidenceSaturation {
    if e.contradictions > 0 {
        EvidenceSaturation::Contradicted
    } else if e.observations == 0 {
        EvidenceSaturation::Sparse
    } else if e.counterfactuals >= 2 && e.distinct_contexts >= 2 && e.diversity_domains >= 2
        && e.equivalent_replications >= 4 {
        EvidenceSaturation::Saturated
    } else if e.counterfactuals > 0 && e.distinct_contexts > 0 && e.equivalent_replications >= 2 {
        EvidenceSaturation::Mature
    } else {
        EvidenceSaturation::Developing
    }
}

#[derive(Clone, Copy, Debug)]
pub struct DeterministicEvidenceSaturationPolicy;

impl DeterministicEvidenceSaturationPolicy {
    /// Contradictions first; no observations is sparse; counterfactuals, contexts, diversity
    /// domains and equivalent replications decide between developing, mature and saturated.
    pub fn assess(&self, _target: &ExperienceOpportunityTarget, evidence: &EvidenceSummary) -> (r: EvidenceSaturation)
        ensures
            r == saturation_spec(*evidence),
    {
        if evidence.contradictions > 0 {
            return EvidenceSaturation::Contradicted;
        }
        if evidence.observations == 0 {
            EvidenceSaturation::Sparse
        } else if evidence.counterfactuals >= 2 && evidence.distinct_contexts >= 2
            && evidence.diversity_domains >= 2 && evidence.equivalent_replications >= 4 {
            EvidenceSaturation::Saturated
        } else if evidence.counterfactuals > 0 && evidence.distinct_contexts > 0
            && evidence.equivalent_replications >= 2 {
            EvidenceSaturation::Mature
        } else {
            EvidenceSaturation::Developing
        }
    }
}

/// Value of one more piece of evidence, given the saturation it would add to.
pub open spec fn marginal_value_spec(s: EvidenceSaturation, e: EvidenceSummary) -> MarginalEvidenceValue {
    if s == EvidenceSaturation::Contradicted {
        MarginalEvidenceValue { band: ValueBand::Critical, reason: MarginalValueReason::ResolvesContradiction }
    } else if !e.fresh && e.observations > 0 {
        MarginalEvidenceValue { band: ValueBand::High, reason: MarginalValueReason::FirstContextExtension }
    } else {
        match s {
            EvidenceSaturation::Sparse => MarginalEvidenceValue { band: ValueBand::High, reason: MarginalValueReason::FirstEvidence },
            EvidenceSaturation::Developing => if e.counterfactuals == 0 {
                MarginalEvidenceValue { band: ValueBand::High, reason: MarginalValueReason::FirstCounterfactual }
            } else {
                MarginalEvidenceValue { band: ValueBand::Medium, reason: MarginalValueReason::Replication }
            },
            EvidenceSaturation::Mature => MarginalEvidenceValue { band: ValueBand::Low, reason: MarginalValueReason::RepeatedEquivalentReplication },
            _ => MarginalEvidenceValue { band: ValueBand::NoValue, reason: MarginalValueReason::Saturated },
        }
    }
}

fn marginal_value(saturation: EvidenceSaturation, evidence: &EvidenceSummary) -> (r: MarginalEvidenceValue)
    ensures
        r == marginal_value_spec(saturation, *evidence),
{
    if saturation == EvidenceSaturation::Contradicted {
        return MarginalEvidenceValue { band: ValueBand::Critical, reason: MarginalValueReason::ResolvesContradiction };
    }
    if !evidence.fresh && evidence.observations > 0 {
        return MarginalEvidenceValue { band: ValueBand::High, reason: MarginalValueReason::FirstContextExtension };
    }
    match saturation {
        EvidenceSaturation::Sparse => MarginalEvidenceValue { band: ValueBand::High, reason: MarginalValueReason::FirstEvidence },
        EvidenceSaturation::Developing => if evidence.counterfactuals == 0 {
            MarginalEvidenceValue { band: ValueBand::High, reason: MarginalValueReason::FirstCounterfactual }
        } else {
            MarginalEvidenceValue { band: ValueBand::Medium, reason: MarginalValueReason::Replication }
        },
        EvidenceSaturation::Mature => MarginalEvidenceValue { band: ValueBand::Low, reason: MarginalValueReason::RepeatedEquivalentReplication },
        _ => MarginalEvidenceValue { band: ValueBand::NoValue, reason: MarginalValueReason::Saturated },
    }
}

pub open spec fn severity_value_spec(s: Severity) -> ValueBand {
    match s {
        Severity::Informational => ValueBand::NoValue,
        Severity::Low => ValueBand::Low,
        Severity::Medium => ValueBand::Medium,
        Severity::High => ValueBand::High,
        Severity::Critical => ValueBand::Critical,
    }
}

fn severity_value(severity: Severity) -> (r: ValueBand)
    ensures
        r == severity_value_spec(severity),
{
    match severity {
        Severity::Informational => ValueBand::NoValue,
        Severity::Low => ValueBand::Low,
        Severity::Medium => ValueBand::Medium,
        Severity::High => ValueBand::High,
        Severity::Critical => ValueBand::Critical,
    }
}

pub open spec fn exposure_value_spec(e: ExposureBand) -> ValueBand {
    match e {
        ExposureBand::Rare => ValueBand::Low,
        ExposureBand::Occasional => ValueBand::Medium,
        ExposureBand::Frequent => ValueBand::High,
        ExposureBand::VeryFrequent => ValueBand::Critical,
        ExposureBand::Unknown => ValueBand::NoValue,
    }
}

fn exposure_value(exposure: ExposureBand) -> (r: ValueBand)
    ensures
        r == exposure_value_spec(exposure),
{
    match exposure {
        ExposureBand::Rare => ValueBand::Low,
        ExposureBand::Occasional => ValueBand::Medium,
        ExposureBand::Frequent => ValueBand::High,
        ExposureBand::VeryFrequent => ValueBand::Critical,
        ExposureBand::Unknown => ValueBand::NoValue,
    }
}

pub open spec fn reuse_value_spec(r: ReusePotential) -> ValueBand {
    match r {
        ReusePotential::OneOff => ValueBand::Low,
        ReusePotential::Narrow => ValueBand::Medium,
        ReusePotential::Reusable => ValueBand::High,
        ReusePotential::Broad => ValueBand::Critical,
        ReusePotential::Unknown => ValueBand::NoValue,
    }
}

fn reuse_value(reuse: ReusePotential) -> (r: ValueBand)
    ensures
        r == reuse_value_spec(reuse),
{
    match reuse {
        ReusePotential::OneOff => ValueBand::Low,
        ReusePotential::Narrow => ValueBand::Medium,
        ReusePotential::Reusable => ValueBand::High,
        ReusePotential::Broad => ValueBand::Critical,
        ReusePotential::Unknown => ValueBand::NoValue,
    }
}

pub open spec fn novelty_value_spec(n: EvidenceNovelty) -> ValueBand {
    match n {
        EvidenceNovelty::Duplicate => ValueBand::NoValue,
        EvidenceNovelty::Replication => ValueBand::Low,
        EvidenceNovelty::ContextExtension => ValueBand::Medium,
        EvidenceNovelty::MechanismChallenge => ValueBand::High,
        EvidenceNovelty::NewFailureClass => ValueBand::Critical,
        EvidenceNovelty::Unknown => ValueBand::NoValue,
    }
}

fn novelty_value(novelty: EvidenceNovelty) -> (r: ValueBand)
    ensures
        r == novelty_value_spec(novelty),
{
    match novelty {
        EvidenceNovelty::Duplicate => ValueBand::NoValue,
        EvidenceNovelty::Replication => ValueBand::Low,
        EvidenceNovelty::ContextExtension => ValueBand::Medium,
        EvidenceNovelty::MechanismChallenge => ValueBand::High,
        EvidenceNovelty::NewFailureClass => ValueBand::Critical,
        EvidenceNovelty::Unknown => ValueBand::NoValue,
    }
}

// ---------------------------------------------------------------------------
// Budget ledger
// ---------------------------------------------------------------------------

pub open spec fn sat_add_usize(a: usize, b: usize) -> usize {
    if a + b > usize::MAX { usize::MAX } else { (a + b) as usize }
}

pub open spec fn sat_sub_usize(a: usize, b: usize) -> usize {
    if a >= b { (a - b) as usize } else { 0 }
}

pub open spec fn sat_add_u64(a: u64, b: u64) -> u64 {
    if a + b > u64::MAX { u64::MAX } else { (a + b) as u64 }
}

pub open spec fn sat_sub_u64(a: u64, b: u64) -> u64 {
    if a >= b { (a - b) as u64 } else { 0 }
}

pub open spec fn min_usize(a: usize, b: usize) -> usize {
    if a <= b { a } else { b }
}

pub open spec fn min_u64(a: u64, b: u64) -> u64 {
    if a <= b { a } else { b }
}

/// Component-wise saturating sum.
pub open spec fn usage_add(a: BudgetUsage, b: BudgetUsage) -> BudgetUsage {
    BudgetUsage {
        trials: sat_add_usize(a.trials, b.trials),
        agent_runs: sat_add_usize(a.agent_runs, b.agent_runs),
        duration_ms: sat_add_u64(a.duration_ms, b.duration_ms),
        human_approvals: sat_add_usize(a.human_approvals, b.human_approvals),
    }
}

/// Component-wise saturating difference.
pub open spec fn usage_sub(a: BudgetUsage, b: BudgetUsage) -> BudgetUsage {
    BudgetUsage {
        trials: sat_sub_usize(a.trials, b.trials),
        agent_runs: sat_sub_usize(a.agent_runs, b.agent_runs),
        duration_ms: sat_sub_u64(a.duration_ms, b.duration_ms),
        human_approvals: sat_sub_usize(a.human_approvals, b.human_approvals),
    }
}

/// The usage an estimated cost stands for; an unknown duration counts as zero.
pub open spec fn usage_of(cost: ExperimentCost, approvals: usize) -> BudgetUsage {
    BudgetUsage {
        trials: cost.trials,
        agent_runs: cost.agent_runs,
        duration_ms: match cost.estimated_duration_ms { Some(d) => d, None => 0 },
        human_approvals: approvals,
    }
}

fn duration_ms(duration: Option<u64>) -> (r: u64)
    ensures
        r == (match duration { Some(d) => d, None => 0u64 }),
{
    match duration {
        Some(d) => d,
        None => 0,
    }
}

impl BudgetUsage {
    /// The usage that reserving `cost` with `approvals` human approvals stands for.
    pub fn from_cost(cost: &ExperimentCost, approvals: usize) -> (r: Self)
        ensures
            r == usage_of(*cost, approvals),
    {
        BudgetUsage {
            trials: cost.trials,
            agent_runs: cost.agent_runs,
            duration_ms: duration_ms(cost.estimated_duration_ms),
            human_approvals: approvals,
        }
    }
}

fn add_usage(target: &mut BudgetUsage, value: &BudgetUsage)
    ensures
        *final(target) == usage_add(*old(target), *value),
{
    target.trials = target.trials.saturating_add(value.trials);
    target.agent_runs = target.agent_runs.saturating_add(value.agent_runs);
    target.duration_ms = target.duration_ms.saturating_add(value.duration_ms);
    target.human_approvals = target.human_approvals.saturating_add(value.human_approvals);
}

fn subtract_usage(target: &mut BudgetUsage, value: &BudgetUsage)
    ensures
        *final(target) == usage_sub(*old(target), *value),
{
    target.trials = target.trials.saturating_sub(value.trials);
    target.agent_runs = target.agent_runs.saturating_sub(value.agent_runs);
    target.duration_ms = target.duration_ms.saturating_sub(value.duration_ms);
    target.human_approvals = target.human_approvals.saturating_sub(value.human_approvals);
}

/// The most that may remain of each dimension once `consumed` has been spent.
pub open spec fn remaining_cap(budget: ExperienceBudget, consumed: BudgetUsage, remaining: BudgetUsage) -> BudgetUsage {
    BudgetUsage {
        trials: min_usize(remaining.trials, sat_sub_usize(budget.max_trials_spec(), consumed.trials)),
        agent_runs: min_usize(remaining.agent_runs, sat_sub_usize(budget.max_agent_runs, consumed.agent_runs)),
        duration_ms: match budget.max_duration_ms {
            Some(limit) => min_u64(remaining.duration_ms, sat_sub_u64(limit, consumed.duration_ms)),
            None => remaining.duration_ms,
        },
        human_approvals: match budget.max_human_approvals {
            Some(limit) => min_usize(remaining.human_approvals, sat_sub_usize(limit, consumed.human_approvals)),
            None => remaining.human_approvals,
        },
    }
}

/// Whether `usage` fits in `remaining` and `risk` is within the budget's allowed risk.
pub open spec fn fits_spec(remaining: BudgetUsage, usage: BudgetUsage, budget: ExperienceBudget, risk: EffectRisk) -> bool {
    usage.trials <= remaining.trials && usage.agent_runs <= remaining.agent_runs
        && usage.duration_ms <= remaining.duration_ms && usage.human_approvals <= remaining.human_approvals
        && effect_risk_rank(risk) <= effect_risk_rank(budget.allowed_effect_risk)
}

/// The usage a fresh ledger may still spend: every limit, unlimited dimensions at their maximum.
pub open spec fn initial_remaining(budget: ExperienceBudget) -> BudgetUsage {
    BudgetUsage {
        trials: budget.max_trials_spec(),
        agent_runs: budget.max_agent_runs,
        duration_ms: match budget.max_duration_ms { Some(d) => d, None => u64::MAX },
        human_approvals: match budget.max_human_approvals { Some(a) => a, None => usize::MAX },
    }
}

impl ExperienceBudgetLedger {
    /// The ledger never lets more remain than the budget minus what was consumed, in
    /// every limited dimension.
    pub open spec fn wf(&self) -> bool {
        &&& self.remaining.trials <= sat_sub_usize(self.budget.max_trials_spec(), self.consumed.trials)
        &&& self.remaining.agent_runs <= sat_sub_usize(self.budget.max_agent_runs, self.consumed.agent_runs)
        &&& (self.budget.max_duration_ms matches Some(l) ==> self.remaining.duration_ms <= sat_sub_u64(l, self.consumed.duration_ms))
        &&& (self.budget.max_human_approvals matches Some(l) ==> self.remaining.human_approvals <= sat_sub_usize(l, self.consumed.human_approvals))
    }

    /// A fresh ledger: nothing reserved or consumed, every limit remaining.
    pub fn new(budget: ExperienceBudget) -> (r: Self)
        ensures
            r.budget == budget,
            r.reserved == BudgetUsage::default_spec(),
            r.consumed == BudgetUsage::default_spec(),
            r.remaining == initial_remaining(budget),
            r.wf(),
    {
        let remaining = BudgetUsage {
            trials: budget.max_trials(),
            agent_runs: budget.max_agent_runs,
            duration_ms: match budget.max_duration_ms { Some(d) => d, None => u64::MAX },
            human_approvals: match budget.max_human_approvals { Some(a) => a, None => usize::MAX },
        };
        ExperienceBudgetLedger {
            id: crate::ids::fresh_id("ledger-"),
            budget,
            reserved: BudgetUsage { trials: 0, agent_runs: 0, duration_ms: 0, human_approvals: 0 },
            consumed: BudgetUsage { trials: 0, agent_runs: 0, duration_ms: 0, human_approvals: 0 },
            remaining,
        }
    }

    /// Whether the cost fits what remains and its effect risk is allowed by the budget.
    pub fn can_reserve(&self, cost: &ExperimentCost, approvals: usize) -> (r: bool)
        ensures
            r == fits_spec(self.remaining, usage_of(*cost, approvals), self.budget, cost.external_effect_risk),
    {
        let usage = BudgetUsage::from_cost(cost, approvals);
        usage.trials <= self.remaining.trials && usage.agent_runs <= self.remaining.agent_runs
            && usage.duration_ms <= self.remaining.duration_ms
            && usage.human_approvals <= self.remaining.human_approvals
            && cost.external_effect_risk.rank() <= self.budget.allowed_effect_risk.rank()
    }

    /// Moves the cost from remaining to reserved, or refuses when it does not fit.
    pub fn reserve(&mut self, cost: &ExperimentCost, approvals: usize) -> (r: Result<(), Error>)
        ensures
            r is Ok <==> fits_spec(old(self).remaining, usage_of(*cost, approvals), old(self).budget, cost.external_effect_risk),
            r is Ok ==> final(self).reserved == usage_add(old(self).reserved, usage_of(*cost, approvals))
                && final(self).remaining == usage_sub(old(self).remaining, usage_of(*cost, approvals))
                && final(self).consumed == old(self).consumed
                && final(self).budget == old(self).budget
                && final(self).id == old(self).id,
            r is Err ==> *final(self) == *old(self),
            r matches Err(e) ==> e is Intervention,
            old(self).wf() ==> final(self).wf(),
    {
        if !self.can_reserve(cost, approvals) {
            return Err(Error::Intervention("Experience opportunity exceeds remaining acquisition budget".to_string()));
        }
        let usage = BudgetUsage::from_cost(cost, approvals);
        add_usage(&mut self.reserved, &usage);
        subtract_usage(&mut self.remaining, &usage);
        Ok(())
    }

    /// Returns a reservation: reserved shrinks, remaining grows, capped by the budget.
    pub fn release(&mut self, cost: &ExperimentCost, approvals: usize)
        ensures
            final(self).reserved == usage_sub(old(self).reserved, usage_of(*cost, approvals)),
            final(self).remaining == remaining_cap(old(self).budget, old(self).consumed,
                usage_add(old(self).remaining, usage_of(*cost, approvals))),
            final(self).consumed == old(self).consumed,
            final(self).budget == old(self).budget,
            final(self).id == old(self).id,
            final(self).wf(),
    {
        let usage = BudgetUsage::from_cost(cost, approvals);
        subtract_usage(&mut self.reserved, &usage);
        add_usage(&mut self.remaining, &usage);
        self.cap_remaining();
    }

    /// Releases the reservation, then records what was actually spent.
    pub fn consume(&mut self, reserved: &ExperimentCost, approval_reserved: usize, actual: &ActualExperimentCost)
        ensures
            ({
                let released = remaining_cap(old(self).budget, old(self).consumed,
                    usage_add(old(self).remaining, usage_of(*reserved, approval_reserved)));
                let spent = BudgetUsage { trials: actual.trials, agent_runs: actual.agent_runs,
                    duration_ms: actual.duration_ms, human_approvals: actual.approvals_requested };
                &&& final(self).reserved == usage_sub(old(self).reserved, usage_of(*reserved, approval_reserved))
                &&& final(self).consumed == usage_add(old(self).consumed, spent)
                &&& final(self).remaining == usage_sub(released, spent)
            }),
            final(self).budget == old(self).budget,
            final(self).id == old(self).id,
            final(self).wf(),
    {
        self.release(reserved, approval_reserved);
        let actual_usage = BudgetUsage {
            trials: actual.trials,
            agent_runs: actual.agent_runs,
            duration_ms: actual.duration_ms,
            human_approvals: actual.approvals_requested,
        };
        add_usage(&mut self.consumed, &actual_usage);
        subtract_usage(&mut self.remaining, &actual_usage);
    }

    fn cap_remaining(&mut self)
        ensures
            final(self).remaining == remaining_cap(old(self).budget, old(self).consumed, old(self).remaining),
            final(self).reserved == old(self).reserved,
            final(self).consumed == old(self).consumed,
            final(self).budget == old(self).budget,
            final(self).id == old(self).id,
            final(self).wf(),
    {
        let t = self.budget.max_trials().saturating_sub(self.consumed.trials);
        if t < self.remaining.trials {
            self.remaining.trials = t;
        }
        let a = self.budget.max_agent_runs.saturating_sub(self.consumed.agent_runs);
        if a < self.remaining.agent_runs {
            self.remaining.agent_runs = a;
        }
        if let Some(limit) = self.budget.max_duration_ms {
            let d = limit.saturating_sub(self.consumed.duration_ms);
            if d < self.remaining.duration_ms {
                self.remaining.duration_ms = d;
            }
        }
        if let Some(limit) = self.budget.max_human_approvals {
            let h = limit.saturating_sub(self.consumed.human_approvals);
            if h < self.remaining.human_approvals {
                self.remaining.human_approvals = h;
            }
        }
    }
}

impl BudgetUsage {
    pub open spec fn default_spec() -> BudgetUsage {
        BudgetUsage { trials: 0, agent_runs: 0, duration_ms: 0, human_approvals: 0 }
    }
}

/// Reserving a cost and then releasing it leaves a well-formed ledger as it was, provided
/// the reservation did not saturate the reserved counters.
pub proof fn lemma_reserve_then_release_restores(l: ExperienceBudgetLedger, cost: ExperimentCost, approvals: usize)
    requires
        l.wf(),
        fits_spec(l.remaining, usage_of(cost, approvals), l.budget, cost.external_effect_risk),
        l.reserved.trials + cost.trials <= usize::MAX,
        l.reserved.agent_runs + cost.agent_runs <= usize::MAX,
        l.reserved.duration_ms + usage_of(cost, approvals).duration_ms <= u64::MAX,
        l.reserved.human_approvals + approvals <= usize::MAX,
    ensures
        ({
            let u = usage_of(cost, approvals);
            let reserved = usage_add(l.reserved, u);
            let remaining = usage_sub(l.remaining, u);
            &&& usage_sub(reserved, u) == l.reserved
            &&& remaining_cap(l.budget, l.consumed, usage_add(remaining, u)) == l.remaining
        }),
{
}

} // verus!

verus! {

// ---------------------------------------------------------------------------
// Ranking
// ---------------------------------------------------------------------------

pub open spec fn reason_code(r: OpportunityReason) -> u8 {
    match r {
        OpportunityReason::CriticalFailureUnmitigated => 0,
        OpportunityReason::RepeatedFailure => 1,
        OpportunityReason::HighUsageSkillGap => 2,
        OpportunityReason::RuntimeAbstention => 3,
        OpportunityReason::RuntimeUnknown => 4,
        OpportunityReason::EvidenceStale => 5,
        OpportunityReason::EvidenceContradicted => 6,
        OpportunityReason::LargeBlastRadius => 7,
        OpportunityReason::AssuranceBlocked => 8,
        OpportunityReason::RecoveryMissing => 9,
        OpportunityReason::ReflexNoisy => 10,
        OpportunityReason::ForecastMiss => 11,
        OpportunityReason::ForecastNoisy => 12,
        OpportunityReason::CausalMechanismUnknown => 13,
        OpportunityReason::LowEvidenceDiversity => 14,
        OpportunityReason::FederatedEvidenceUnreproduced => 15,
        OpportunityReason::CapabilityOverprovisioned => 16,
        OpportunityReason::OperatingEnvelopeUnknown => 17,
        OpportunityReason::EvidenceSaturated => 18,
        OpportunityReason::Custom(_) => 19,
    }
}

impl OpportunityReason {
    fn code(&self) -> (r: u8)
        ensures
            r == reason_code(*self),
    {
        match self {
            OpportunityReason::CriticalFailureUnmitigated => 0,
            OpportunityReason::RepeatedFailure => 1,
            OpportunityReason::HighUsageSkillGap => 2,
            OpportunityReason::RuntimeAbstention => 3,
            OpportunityReason::RuntimeUnknown => 4,
            OpportunityReason::EvidenceStale => 5,
            OpportunityReason::EvidenceContradicted => 6,
            OpportunityReason::LargeBlastRadius => 7,
            OpportunityReason::AssuranceBlocked => 8,
            OpportunityReason::RecoveryMissing => 9,
            OpportunityReason::ReflexNoisy => 10,
            OpportunityReason::ForecastMiss => 11,
            OpportunityReason::ForecastNoisy => 12,
            OpportunityReason::CausalMechanismUnknown => 13,
            OpportunityReason::LowEvidenceDiversity => 14,
            OpportunityReason::FederatedEvidenceUnreproduced => 15,
            OpportunityReason::CapabilityOverprovisioned => 16,
            OpportunityReason::OperatingEnvelopeUnknown => 17,
            OpportunityReason::EvidenceSaturated => 18,
            OpportunityReason::Custom(_) => 19,
        }
    }

    /// Equality of two reasons, custom reasons compared by their text.
    pub fn same_as(&self, other: &Self) -> (r: bool)
        ensures
            r == reason_eqv(*self, *other),
    {
        match (self, other) {
            (OpportunityReason::Custom(a), OpportunityReason::Custom(b)) => str_eq(a.as_str(), b.as_str()),
            _ => self.code() == other.code(),
        }
    }
}

/// Two reasons are the same reason: the same variant, and for custom reasons the same text.
pub open spec fn reason_eqv(a: OpportunityReason, b: OpportunityReason) -> bool {
    match (a, b) {
        (OpportunityReason::Custom(x), OpportunityReason::Custom(y)) => x@ == y@,
        _ => reason_code(a) == reason_code(b),
    }
}

/// Whether `s` holds a reason that is the same as `r`.
pub open spec fn has_reason(s: Seq<OpportunityReason>, r: OpportunityReason) -> bool {
    exists|i: int| 0 <= i < s.len() && reason_eqv(#[trigger] s[i], r)
}

/// Whether `reasons` holds `reason`.
pub fn contains_reason(reasons: &Vec<OpportunityReason>, reason: &OpportunityReason) -> (r: bool)
    ensures
        r == has_reason(reasons@, *reason),
{
    let mut i: usize = 0;
    while i < reasons.len()
        invariant
            i <= reasons@.len(),
            forall|j: int| 0 <= j < i ==> !reason_eqv(#[trigger] reasons@[j], *reason),
        decreases reasons.len() - i,
    {
        if reasons[i].same_as(reason) {
            return true;
        }
        i = i + 1;
    }
    false
}

pub open spec fn exposure_rank_spec(v: ExposureBand) -> u8 {
    match v {
        ExposureBand::Unknown => 0,
        ExposureBand::Rare => 1,
        ExposureBand::Occasional => 2,
        ExposureBand::Frequent => 3,
        ExposureBand::VeryFrequent => 4,
    }
}

pub(crate) fn exposure_rank(value: ExposureBand) -> (r: u8)
    ensures
        r == exposure_rank_spec(value),
{
    match value {
        ExposureBand::Unknown => 0,
        ExposureBand::Rare => 1,
        ExposureBand::Occasional => 2,
        ExposureBand::Frequent => 3,
        ExposureBand::VeryFrequent => 4,
    }
}

pub open spec fn reuse_rank_spec(v: ReusePotential) -> u8 {
    match v {
        ReusePotential::Unknown => 0,
        ReusePotential::OneOff => 1,
        ReusePotential::Narrow => 2,
        ReusePotential::Reusable => 3,
        ReusePotential::Broad => 4,
    }
}

pub(crate) fn reuse_rank(value: ReusePotential) -> (r: u8)
    ensures
        r == reuse_rank_spec(value),
{
    match value {
        ReusePotential::Unknown => 0,
        ReusePotential::OneOff => 1,
        ReusePotential::Narrow => 2,
        ReusePotential::Reusable => 3,
        ReusePotential::Broad => 4,
    }
}

pub open spec fn novelty_rank_spec(v: EvidenceNovelty) -> u8 {
    match v {
        EvidenceNovelty::Unknown => 0,
        EvidenceNovelty::Duplicate => 1,
        EvidenceNovelty::Replication => 2,
        EvidenceNovelty::ContextExtension => 3,
        EvidenceNovelty::MechanismChallenge => 4,
        EvidenceNovelty::NewFailureClass => 5,
    }
}

pub(crate) fn novelty_rank(value: EvidenceNovelty) -> (r: u8)
    ensures
        r == novelty_rank_spec(value),
{
    match value {
        EvidenceNovelty::Unknown => 0,
        EvidenceNovelty::Duplicate => 1,
        EvidenceNovelty::Replication => 2,
        EvidenceNovelty::ContextExtension => 3,
        EvidenceNovelty::MechanismChallenge => 4,
        EvidenceNovelty::NewFailureClass => 5,
    }
}

/// The priority class of an opportunity under an objective; 0 is most urgent.
pub open spec fn priority_class_spec(o: ExperienceOpportunity, objective: ExperiencePortfolioObjective) -> u8 {
    let has = |r: OpportunityReason| has_reason(o.rationale@, r);
    if o.risk_reduction.failure_severity == Severity::Critical
        && (o.risk_reduction.mitigation_gap == MitigationGap::Significant
            || o.risk_reduction.mitigation_gap == MitigationGap::Unmitigated) {
        0
    } else if has(OpportunityReason::EvidenceContradicted) || o.saturation == EvidenceSaturation::Contradicted {
        1
    } else if (objective == ExperiencePortfolioObjective::Assurance && has(OpportunityReason::AssuranceBlocked))
        || (objective == ExperiencePortfolioObjective::Efficiency && has(OpportunityReason::CapabilityOverprovisioned))
        || (o.kind is DiscriminateCausalHypotheses && has(OpportunityReason::CausalMechanismUnknown)) {
        2
    } else if has(OpportunityReason::RepeatedFailure) || has(OpportunityReason::RecoveryMissing)
        || has(OpportunityReason::ForecastMiss) {
        2
    } else if has(OpportunityReason::EvidenceStale) {
        3
    } else if has(OpportunityReason::RuntimeAbstention) || has(OpportunityReason::RuntimeUnknown) {
        4
    } else if has(OpportunityReason::AssuranceBlocked) {
        5
    } else if has(OpportunityReason::CausalMechanismUnknown) || has(OpportunityReason::LowEvidenceDiversity) {
        if objective == ExperiencePortfolioObjective::Research { 3 } else { 6 }
    } else if has(OpportunityReason::CapabilityOverprovisioned) {
        7
    } else {
        8
    }
}

/// Critical unmitigated failures first, then contradictions, repeated failures and
/// objective-specific blockers, staleness, runtime unknowns and so on down to class 8.
pub fn priority_class(o: &ExperienceOpportunity, objective: ExperiencePortfolioObjective) -> (r: u8)
    ensures
        r == priority_class_spec(*o, objective),
{
    let has_contradicted = contains_reason(&o.rationale, &OpportunityReason::EvidenceContradicted);
    let has_assurance = contains_reason(&o.rationale, &OpportunityReason::AssuranceBlocked);
    let has_capability = contains_reason(&o.rationale, &OpportunityReason::CapabilityOverprovisioned);
    let has_mechanism = contains_reason(&o.rationale, &OpportunityReason::CausalMechanismUnknown);
    let has_repeated = contains_reason(&o.rationale, &OpportunityReason::RepeatedFailure);
    let has_recovery = contains_reason(&o.rationale, &OpportunityReason::RecoveryMissing);
    let has_forecast = contains_reason(&o.rationale, &OpportunityReason::ForecastMiss);
    let has_stale = contains_reason(&o.rationale, &OpportunityReason::EvidenceStale);
    let has_abstention = contains_reason(&o.rationale, &OpportunityReason::RuntimeAbstention);
    let has_runtime_unknown = contains_reason(&o.rationale, &OpportunityReason::RuntimeUnknown);
    let has_diversity = contains_reason(&o.rationale, &OpportunityReason::LowEvidenceDiversity);
    let discriminate = matches!(o.kind, ExperienceOpportunityKind::DiscriminateCausalHypotheses);
    if o.risk_reduction.failure_severity == Severity::Critical
        && (o.risk_reduction.mitigation_gap == MitigationGap::Significant
            || o.risk_reduction.mitigation_gap == MitigationGap::Unmitigated) {
        0
    } else if has_contradicted || o.saturation == EvidenceSaturation::Contradicted {
        1
    } else if (objective == ExperiencePortfolioObjective::Assurance && has_assurance)
        || (objective == ExperiencePortfolioObjective::Efficiency && has_capability)
        || (discriminate && has_mechanism) {
        // A single discriminating intervention can dominate another replay of the same
        // failure when it separates competing mechanisms.
        2
    } else if has_repeated || has_recovery || has_forecast {
        2
    } else if has_stale {
        3
    } else if has_abstention || has_runtime_unknown {
        4
    } else if has_assurance {
        5
    } else if has_mechanism || has_diversity {
        if objective == ExperiencePortfolioObjective::Research { 3 } else { 6 }
    } else if has_capability {
        7
    } else {
        8
    }
}

/// The evidence-portfolio category an opportunity kind contributes to.
pub open spec fn portfolio_category_spec(kind: ExperienceOpportunityKind) -> EvidencePortfolioCategory {
    match kind {
        ExperienceOpportunityKind::RevalidateStaleExperience => EvidencePortfolioCategory::Revalidation,
        ExperienceOpportunityKind::ResolveContradiction
        | ExperienceOpportunityKind::ChallengeCausalHypothesis
        | ExperienceOpportunityKind::DiscriminateCausalHypotheses
        | ExperienceOpportunityKind::ChallengeAbstraction
        | ExperienceOpportunityKind::ReduceReflexFalsePositives
        | ExperienceOpportunityKind::ReduceForecastFalsePositives => EvidencePortfolioCategory::Challenge,
        ExperienceOpportunityKind::ExploreOperatingEnvelope
        | ExperienceOpportunityKind::InvestigateForecastMiss
        | ExperienceOpportunityKind::ResolveRuntimeUnknown
        | ExperienceOpportunityKind::IncreaseEvidenceDiversity
        | ExperienceOpportunityKind::ReduceKnowledgeFragmentation => EvidencePortfolioCategory::Discovery,
        ExperienceOpportunityKind::HardenSkill => EvidencePortfolioCategory::Hardening,
        ExperienceOpportunityKind::ValidateEarlyWarning
        | ExperienceOpportunityKind::ValidatePreventiveIntervention => EvidencePortfolioCategory::Prevention,
        ExperienceOpportunityKind::MinimizeCapability => EvidencePortfolioCategory::Efficiency,
        _ => EvidencePortfolioCategory::Validation,
    }
}

pub(crate) fn portfolio_category(kind: &ExperienceOpportunityKind) -> (r: EvidencePortfolioCategory)
    ensures
        r == portfolio_category_spec(*kind),
{
    match kind {
        ExperienceOpportunityKind::RevalidateStaleExperience => EvidencePortfolioCategory::Revalidation,
        ExperienceOpportunityKind::ResolveContradiction
        | ExperienceOpportunityKind::ChallengeCausalHypothesis
        | ExperienceOpportunityKind::DiscriminateCausalHypotheses
        | ExperienceOpportunityKind::ChallengeAbstraction
        | ExperienceOpportunityKind::ReduceReflexFalsePositives
        | ExperienceOpportunityKind::ReduceForecastFalsePositives => EvidencePortfolioCategory::Challenge,
        ExperienceOpportunityKind::ExploreOperatingEnvelope
        | ExperienceOpportunityKind::InvestigateForecastMiss
        | ExperienceOpportunityKind::ResolveRuntimeUnknown
        | ExperienceOpportunityKind::IncreaseEvidenceDiversity
        | ExperienceOpportunityKind::ReduceKnowledgeFragmentation => EvidencePortfolioCategory::Discovery,
        ExperienceOpportunityKind::HardenSkill => EvidencePortfolioCategory::Hardening,
        ExperienceOpportunityKind::ValidateEarlyWarning
        | ExperienceOpportunityKind::ValidatePreventiveIntervention => EvidencePortfolioCategory::Prevention,
        ExperienceOpportunityKind::MinimizeCapability => EvidencePortfolioCategory::Efficiency,
        _ => EvidencePortfolioCategory::Validation,
    }
}

/// `a` is no worse than `b` in every value dimension and costs no more trials or agent runs.
pub open spec fn no_worse(a: ExperienceOpportunity, b: ExperienceOpportunity) -> bool {
    value_rank(a.value.risk_reduction) >= value_rank(b.value.risk_reduction)
        && value_rank(a.value.learning_value) >= value_rank(b.value.learning_value)
        && value_rank(a.value.reuse_potential) >= value_rank(b.value.reuse_potential)
        && value_rank(a.value.decision_relevance) >= value_rank(b.value.decision_relevance)
        && value_rank(a.value.evidence_gap) >= value_rank(b.value.evidence_gap)
        && value_rank(a.value.novelty) >= value_rank(b.value.novelty)
        && a.estimated_cost.trials <= b.estimated_cost.trials
        && a.estimated_cost.agent_runs <= b.estimated_cost.agent_runs
}

/// The two value vectors differ, or `a` is strictly cheaper than `b`.
pub open spec fn strictly_differs(a: ExperienceOpportunity, b: ExperienceOpportunity) -> bool {
    a.value != b.value || a.estimated_cost.trials < b.estimated_cost.trials
        || a.estimated_cost.agent_runs < b.estimated_cost.agent_runs
}

pub open spec fn dominance_spec(c: ExperienceOpportunity, o: ExperienceOpportunity) -> DominanceStatus {
    if no_worse(c, o) && strictly_differs(c, o) {
        DominanceStatus::NonDominated
    } else if no_worse(o, c) && strictly_differs(o, c) {
        DominanceStatus::DominatedBy(o.id)
    } else {
        DominanceStatus::Incomparable
    }
}

fn no_worse_exec(a: &ExperienceOpportunity, b: &ExperienceOpportunity) -> (r: bool)
    ensures
        r == no_worse(*a, *b),
{
    a.value.risk_reduction.rank() >= b.value.risk_reduction.rank()
        && a.value.learning_value.rank() >= b.value.learning_value.rank()
        && a.value.reuse_potential.rank() >= b.value.reuse_potential.rank()
        && a.value.decision_relevance.rank() >= b.value.decision_relevance.rank()
        && a.value.evidence_gap.rank() >= b.value.evidence_gap.rank()
        && a.value.novelty.rank() >= b.value.novelty.rank()
        && a.estimated_cost.trials <= b.estimated_cost.trials
        && a.estimated_cost.agent_runs <= b.estimated_cost.agent_runs
}

/// Pareto comparison of `candidate` with `other` over value and cost.
pub fn dominance(candidate: &ExperienceOpportunity, other: &ExperienceOpportunity) -> (r: DominanceStatus)
    ensures
        r == dominance_spec(*candidate, *other),
{
    let same_value = candidate.value == other.value;
    let better = !same_value || candidate.estimated_cost.trials < other.estimated_cost.trials
        || candidate.estimated_cost.agent_runs < other.estimated_cost.agent_runs;
    if no_worse_exec(candidate, other) && better {
        DominanceStatus::NonDominated
    } else {
        let reverse_better = !same_value || other.estimated_cost.trials < candidate.estimated_cost.trials
            || other.estimated_cost.agent_runs < candidate.estimated_cost.agent_runs;
        if no_worse_exec(other, candidate) && reverse_better {
            DominanceStatus::DominatedBy(other.id.clone())
        } else {
            DominanceStatus::Incomparable
        }
    }
}

// ---------------------------------------------------------------------------
// Compilation into executable plans, stopping, default risk
// ---------------------------------------------------------------------------

pub open spec fn compile_spec(o: ExperienceOpportunity) -> ExecutableLearningPlan {
    let target = o.target;
    match (o.kind, o.target) {
        (ExperienceOpportunityKind::ChallengeCausalHypothesis, ExperienceOpportunityTarget::CausalHypothesis(id)) => ExecutableLearningPlan::CausalInvestigation(id),
        (ExperienceOpportunityKind::DiscriminateCausalHypotheses, ExperienceOpportunityTarget::CausalHypothesis(id)) => ExecutableLearningPlan::CausalInvestigation(id),
        (ExperienceOpportunityKind::ReproduceFederatedExperience, ExperienceOpportunityTarget::FederatedObject(obj)) => ExecutableLearningPlan::FederationReproduction(obj),
        (ExperienceOpportunityKind::MinimizeCapability, ExperienceOpportunityTarget::Tool(tool)) => ExecutableLearningPlan::CapabilityCurriculum(tool),
        (ExperienceOpportunityKind::ValidateRecovery, _) => ExecutableLearningPlan::Experiment { target, intent: ExperimentIntent::ValidateRecovery },
        (ExperienceOpportunityKind::ExploreOperatingEnvelope, _) => ExecutableLearningPlan::Experiment { target, intent: ExperimentIntent::MapBoundary },
        (ExperienceOpportunityKind::ValidateLesson, _) => ExecutableLearningPlan::Curriculum { target, goal: CurriculumGoalKind::ValidateSkill },
        (ExperienceOpportunityKind::HardenSkill, _) => ExecutableLearningPlan::Curriculum { target, goal: CurriculumGoalKind::ValidateSkill },
        (ExperienceOpportunityKind::ValidateReflex, _) => ExecutableLearningPlan::Curriculum { target, goal: CurriculumGoalKind::ValidateReflex },
        (ExperienceOpportunityKind::ReduceReflexFalsePositives, _) => ExecutableLearningPlan::Curriculum { target, goal: CurriculumGoalKind::ValidateReflex },
        (ExperienceOpportunityKind::RevalidateStaleExperience, _) => ExecutableLearningPlan::Curriculum { target, goal: CurriculumGoalKind::RevalidateOldExperience },
        (ExperienceOpportunityKind::IncreaseEvidenceDiversity, _) => ExecutableLearningPlan::Curriculum { target, goal: CurriculumGoalKind::IncreaseEvidenceDiversity },
        (ExperienceOpportunityKind::CloseAssuranceGap, _) => ExecutableLearningPlan::Curriculum { target, goal: CurriculumGoalKind::SatisfyAssuranceRequirement },
        (ExperienceOpportunityKind::ValidateEarlyWarning, _) => ExecutableLearningPlan::Curriculum { target, goal: CurriculumGoalKind::ValidateEarlyWarning },
        (ExperienceOpportunityKind::ValidatePreventiveIntervention, _) => ExecutableLearningPlan::Curriculum { target, goal: CurriculumGoalKind::ValidatePreventiveIntervention },
        (ExperienceOpportunityKind::InvestigateForecastMiss, _) => ExecutableLearningPlan::Curriculum { target, goal: CurriculumGoalKind::DiscoverEarlyWarning },
        (ExperienceOpportunityKind::ReduceForecastFalsePositives, _) => ExecutableLearningPlan::Curriculum { target, goal: CurriculumGoalKind::ReduceForecastFalsePositives },
        (ExperienceOpportunityKind::ResolveContradiction, _) => ExecutableLearningPlan::Curriculum { target, goal: CurriculumGoalKind::ResolveContradiction },
        (ExperienceOpportunityKind::ValidateAbstraction, _) => ExecutableLearningPlan::Experiment { target, intent: ExperimentIntent::ValidateTransfer },
        (ExperienceOpportunityKind::ValidateTransfer, _) => ExecutableLearningPlan::Experiment { target, intent: ExperimentIntent::ValidateTransfer },
        (ExperienceOpportunityKind::ChallengeAbstraction, _) => ExecutableLearningPlan::Curriculum { target, goal: CurriculumGoalKind::ChallengeAbstraction },
        (ExperienceOpportunityKind::ReduceKnowledgeFragmentation, _) => ExecutableLearningPlan::Curriculum { target, goal: CurriculumGoalKind::FindGeneralizationBoundary },
        _ => ExecutableLearningPlan::Experiment { target, intent: ExperimentIntent::ResolveUncertainty },
    }
}

impl FederatedObjectRef {
    pub fn duplicate(&self) -> (r: Self)
        ensures
            r == *self,
    {
        FederatedObjectRef { node_id: self.node_id.clone(), object_id: self.object_id.clone() }
    }
}

impl ExperienceOpportunityTarget {
    /// A copy of the target.
    pub fn duplicate(&self) -> (r: Self)
        ensures
            r == *self,
    {
        match self {
            ExperienceOpportunityTarget::Skill(s) => ExperienceOpportunityTarget::Skill(s.clone()),
            ExperienceOpportunityTarget::Lesson(s) => ExperienceOpportunityTarget::Lesson(s.clone()),
            ExperienceOpportunityTarget::Reflex(s) => ExperienceOpportunityTarget::Reflex(s.clone()),
            ExperienceOpportunityTarget::Recovery(s) => ExperienceOpportunityTarget::Recovery(s.clone()),
            ExperienceOpportunityTarget::CausalHypothesis(s) => ExperienceOpportunityTarget::CausalHypothesis(s.clone()),
            ExperienceOpportunityTarget::EarlyWarning(s) => ExperienceOpportunityTarget::EarlyWarning(s.clone()),
            ExperienceOpportunityTarget::FailureSignature(s) => ExperienceOpportunityTarget::FailureSignature(s.clone()),
            ExperienceOpportunityTarget::AssuranceGap(s) => ExperienceOpportunityTarget::AssuranceGap(s.clone()),
            ExperienceOpportunityTarget::RuntimeGap(s) => ExperienceOpportunityTarget::RuntimeGap(s.clone()),
            ExperienceOpportunityTarget::FederatedObject(o) => ExperienceOpportunityTarget::FederatedObject(o.duplicate()),
            ExperienceOpportunityTarget::Tool(s) => ExperienceOpportunityTarget::Tool(s.clone()),
            ExperienceOpportunityTarget::TaskFamily(s) => ExperienceOpportunityTarget::TaskFamily(s.clone()),
        }
    }
}

#[derive(Clone, Copy, Debug)]
pub struct DeterministicExperienceOpportunityCompiler;

impl DeterministicExperienceOpportunityCompiler {
    /// Maps an opportunity to the curriculum, experiment or investigation that acquires it.
    pub fn compile(&self, opportunity: &ExperienceOpportunity) -> (r: Result<ExecutableLearningPlan, Error>)
        ensures
            r == Ok::<ExecutableLearningPlan, Error>(compile_spec(*opportunity)),
    {
        let target = opportunity.target.duplicate();
        match (&opportunity.kind, &opportunity.target) {
            (ExperienceOpportunityKind::ChallengeCausalHypothesis, ExperienceOpportunityTarget::CausalHypothesis(id)) =>
                Ok(ExecutableLearningPlan::CausalInvestigation(id.clone())),
            (ExperienceOpportunityKind::DiscriminateCausalHypotheses, ExperienceOpportunityTarget::CausalHypothesis(id)) =>
                Ok(ExecutableLearningPlan::CausalInvestigation(id.clone())),
            (ExperienceOpportunityKind::ReproduceFederatedExperience, ExperienceOpportunityTarget::FederatedObject(obj)) =>
                Ok(ExecutableLearningPlan::FederationReproduction(obj.duplicate())),
            (ExperienceOpportunityKind::MinimizeCapability, ExperienceOpportunityTarget::Tool(tool)) =>
                Ok(ExecutableLearningPlan::CapabilityCurriculum(tool.clone())),
            (ExperienceOpportunityKind::ValidateRecovery, _) => Ok(ExecutableLearningPlan::Experiment { target, intent: ExperimentIntent::ValidateRecovery }),
            (ExperienceOpportunityKind::ExploreOperatingEnvelope, _) => Ok(ExecutableLearningPlan::Experiment { target, intent: ExperimentIntent::MapBoundary }),
            (ExperienceOpportunityKind::ValidateLesson, _) => Ok(ExecutableLearningPlan::Curriculum { target, goal: CurriculumGoalKind::ValidateSkill }),
            (ExperienceOpportunityKind::HardenSkill, _) => Ok(ExecutableLearningPlan::Curriculum { target, goal: CurriculumGoalKind::ValidateSkill }),
            (ExperienceOpportunityKind::ValidateReflex, _) => Ok(ExecutableLearningPlan::Curriculum { target, goal: CurriculumGoalKind::ValidateReflex }),
            (ExperienceOpportunityKind::ReduceReflexFalsePositives, _) => Ok(ExecutableLearningPlan::Curriculum { target, goal: CurriculumGoalKind::ValidateReflex }),
            (ExperienceOpportunityKind::RevalidateStaleExperience, _) => Ok(ExecutableLearningPlan::Curriculum { target, goal: CurriculumGoalKind::RevalidateOldExperience }),
            (ExperienceOpportunityKind::IncreaseEvidenceDiversity, _) => Ok(ExecutableLearningPlan::Curriculum { target, goal: CurriculumGoalKind::IncreaseEvidenceDiversity }),
            (ExperienceOpportunityKind::CloseAssuranceGap, _) => Ok(ExecutableLearningPlan::Curriculum { target, goal: CurriculumGoalKind::SatisfyAssuranceRequirement }),
            (ExperienceOpportunityKind::ValidateEarlyWarning, _) => Ok(ExecutableLearningPlan::Curriculum { target, goal: CurriculumGoalKind::ValidateEarlyWarning }),
            (ExperienceOpportunityKind::ValidatePreventiveIntervention, _) => Ok(ExecutableLearningPlan::Curriculum { target, goal: CurriculumGoalKind::ValidatePreventiveIntervention }),
            (ExperienceOpportunityKind::InvestigateForecastMiss, _) => Ok(ExecutableLearningPlan::Curriculum { target, goal: CurriculumGoalKind::DiscoverEarlyWarning }),
            (ExperienceOpportunityKind::ReduceForecastFalsePositives, _) => Ok(ExecutableLearningPlan::Curriculum { target, goal: CurriculumGoalKind::ReduceForecastFalsePositives }),
            (ExperienceOpportunityKind::ResolveContradiction, _) => Ok(ExecutableLearningPlan::Curriculum { target, goal: CurriculumGoalKind::ResolveContradiction }),
            (ExperienceOpportunityKind::ValidateAbstraction, _) => Ok(ExecutableLearningPlan::Experiment { target, intent: ExperimentIntent::ValidateTransfer }),
            (ExperienceOpportunityKind::ValidateTransfer, _) => Ok(ExecutableLearningPlan::Experiment { target, intent: ExperimentIntent::ValidateTransfer }),
            (ExperienceOpportunityKind::ChallengeAbstraction, _) => Ok(ExecutableLearningPlan::Curriculum { target, goal: CurriculumGoalKind::ChallengeAbstraction }),
            (ExperienceOpportunityKind::ReduceKnowledgeFragmentation, _) => Ok(ExecutableLearningPlan::Curriculum { target, goal: CurriculumGoalKind::FindGeneralizationBoundary }),
            _ => Ok(ExecutableLearningPlan::Experiment { target, intent: ExperimentIntent::ResolveUncertainty }),
        }
    }
}

pub open spec fn stop_spec(o: ExperienceOpportunity, evidence: Seq<String>) -> StopDecision {
    if o.risk.trial_safety == TrialSafety::Unsupported {
        StopDecision::StopUnsafe
    } else if o.saturation == EvidenceSaturation::Contradicted {
        StopDecision::StopContradicted
    } else if o.saturation == EvidenceSaturation::Saturated {
        StopDecision::StopSaturated
    } else if exists|i: int| 0 <= i < evidence.len() && evidence[i]@ == "objective_satisfied"@ {
        StopDecision::StopSatisfied
    } else {
        StopDecision::Continue
    }
}

#[derive(Clone, Copy, Debug)]
pub struct DeterministicOpportunityStopPolicy;

impl DeterministicOpportunityStopPolicy {
    /// Stop when unsafe, contradicted or saturated, or once the evidence reports
    /// `objective_satisfied`; otherwise continue.
    pub fn should_stop(&self, opportunity: &ExperienceOpportunity, evidence: &Vec<String>) -> (r: StopDecision)
        ensures
            r == stop_spec(*opportunity, evidence@),
    {
        if opportunity.risk.trial_safety == TrialSafety::Unsupported {
            return StopDecision::StopUnsafe;
        }
        if opportunity.saturation == EvidenceSaturation::Contradicted {
            return StopDecision::StopContradicted;
        }
        if opportunity.saturation == EvidenceSaturation::Saturated {
            return StopDecision::StopSaturated;
        }
        let marker = "objective_satisfied";
        let mut i: usize = 0;
        while i < evidence.len()
            invariant
                i <= evidence@.len(),
                marker@ == "objective_satisfied"@,
                opportunity.risk.trial_safety != TrialSafety::Unsupported,
                opportunity.saturation != EvidenceSaturation::Contradicted,
                opportunity.saturation != EvidenceSaturation::Saturated,
                forall|j: int| 0 <= j < i ==> evidence@[j]@ != "objective_satisfied"@,
            decreases evidence.len() - i,
        {
            if str_eq(evidence[i].as_str(), marker) {
                assert(evidence@[i as int]@ == "objective_satisfied"@);
                return StopDecision::StopSatisfied;
            }
            i = i + 1;
        }
        StopDecision::Continue
    }
}

/// A safe, read-only opportunity with no isolation and no approval.
pub fn default_opportunity_risk() -> (r: OpportunityRisk)
    ensures
        r == (OpportunityRisk {
            trial_safety: TrialSafety::Safe,
            external_effect_risk: EffectRisk::ReadOnly,
            isolation_required: RealityRequirements {
                filesystem_isolation: IsolationLevel::Unisolated,
                process_isolation: IsolationLevel::Unisolated,
                network_isolation: IsolationLevel::Unisolated,
                credential_isolation: IsolationLevel::Unisolated,
                effect_gating: false,
            },
            approval_required: false,
        }),
{
    OpportunityRisk {
        trial_safety: TrialSafety::Safe,
        external_effect_risk: EffectRisk::ReadOnly,
        isolation_required: RealityRequirements {
            filesystem_isolation: IsolationLevel::Unisolated,
            process_isolation: IsolationLevel::Unisolated,
            network_isolation: IsolationLevel::Unisolated,
            credential_isolation: IsolationLevel::Unisolated,
            effect_gating: false,
        },
        approval_required: false,
    }
}

} // verus!

verus! {

// ---------------------------------------------------------------------------
// Stable opportunity identifiers
// ---------------------------------------------------------------------------

/// The canonical text of an opportunity kind.
pub open spec fn kind_text(k: ExperienceOpportunityKind) -> Seq<char> {
    match k {
        ExperienceOpportunityKind::ValidateLesson => "validate_lesson"@,
        ExperienceOpportunityKind::RevalidateStaleExperience => "revalidate_stale_experience"@,
        ExperienceOpportunityKind::ResolveContradiction => "resolve_contradiction"@,
        ExperienceOpportunityKind::ValidateRecovery => "validate_recovery"@,
        ExperienceOpportunityKind::HardenSkill => "harden_skill"@,
        ExperienceOpportunityKind::ExploreOperatingEnvelope => "explore_operating_envelope"@,
        ExperienceOpportunityKind::ValidateReflex => "validate_reflex"@,
        ExperienceOpportunityKind::ReduceReflexFalsePositives => "reduce_reflex_false_positives"@,
        ExperienceOpportunityKind::ChallengeCausalHypothesis => "challenge_causal_hypothesis"@,
        ExperienceOpportunityKind::DiscriminateCausalHypotheses => "discriminate_causal_hypotheses"@,
        ExperienceOpportunityKind::IncreaseEvidenceDiversity => "increase_evidence_diversity"@,
        ExperienceOpportunityKind::ReproduceFederatedExperience => "reproduce_federated_experience"@,
        ExperienceOpportunityKind::ValidateEarlyWarning => "validate_early_warning"@,
        ExperienceOpportunityKind::ValidatePreventiveIntervention => "validate_preventive_intervention"@,
        ExperienceOpportunityKind::InvestigateForecastMiss => "investigate_forecast_miss"@,
        ExperienceOpportunityKind::ReduceForecastFalsePositives => "reduce_forecast_false_positives"@,
        ExperienceOpportunityKind::MinimizeCapability => "minimize_capability"@,
        ExperienceOpportunityKind::ResolveRuntimeUnknown => "resolve_runtime_unknown"@,
        ExperienceOpportunityKind::CloseAssuranceGap => "close_assurance_gap"@,
        ExperienceOpportunityKind::ValidateAbstraction => "validate_abstraction"@,
        ExperienceOpportunityKind::ValidateTransfer => "validate_transfer"@,
        ExperienceOpportunityKind::ChallengeAbstraction => "challenge_abstraction"@,
        ExperienceOpportunityKind::ReduceKnowledgeFragmentation => "reduce_knowledge_fragmentation"@,
        ExperienceOpportunityKind::Custom(s) => "custom:"@ + s@,
    }
}

fn kind_text_exec(k: &ExperienceOpportunityKind) -> (r: String)
    ensures
        r@ == kind_text(*k),
{
    match k {
        ExperienceOpportunityKind::ValidateLesson => String::from_str("validate_lesson"),
        ExperienceOpportunityKind::RevalidateStaleExperience => String::from_str("revalidate_stale_experience"),
        ExperienceOpportunityKind::ResolveContradiction => String::from_str("resolve_contradiction"),
        ExperienceOpportunityKind::ValidateRecovery => String::from_str("validate_recovery"),
        ExperienceOpportunityKind::HardenSkill => String::from_str("harden_skill"),
        ExperienceOpportunityKind::ExploreOperatingEnvelope => String::from_str("explore_operating_envelope"),
        ExperienceOpportunityKind::ValidateReflex => String::from_str("validate_reflex"),
        ExperienceOpportunityKind::ReduceReflexFalsePositives => String::from_str("reduce_reflex_false_positives"),
        ExperienceOpportunityKind::ChallengeCausalHypothesis => String::from_str("challenge_causal_hypothesis"),
        ExperienceOpportunityKind::DiscriminateCausalHypotheses => String::from_str("discriminate_causal_hypotheses"),
        ExperienceOpportunityKind::IncreaseEvidenceDiversity => String::from_str("increase_evidence_diversity"),
        ExperienceOpportunityKind::ReproduceFederatedExperience => String::from_str("reproduce_federated_experience"),
        ExperienceOpportunityKind::ValidateEarlyWarning => String::from_str("validate_early_warning"),
        ExperienceOpportunityKind::ValidatePreventiveIntervention => String::from_str("validate_preventive_intervention"),
        ExperienceOpportunityKind::InvestigateForecastMiss => String::from_str("investigate_forecast_miss"),
        ExperienceOpportunityKind::ReduceForecastFalsePositives => String::from_str("reduce_forecast_false_positives"),
        ExperienceOpportunityKind::MinimizeCapability => String::from_str("minimize_capability"),
        ExperienceOpportunityKind::ResolveRuntimeUnknown => String::from_str("resolve_runtime_unknown"),
        ExperienceOpportunityKind::CloseAssuranceGap => String::from_str("close_assurance_gap"),
        ExperienceOpportunityKind::ValidateAbstraction => String::from_str("validate_abstraction"),
        ExperienceOpportunityKind::ValidateTransfer => String::from_str("validate_transfer"),
        ExperienceOpportunityKind::ChallengeAbstraction => String::from_str("challenge_abstraction"),
        ExperienceOpportunityKind::ReduceKnowledgeFragmentation => String::from_str("reduce_knowledge_fragmentation"),
        ExperienceOpportunityKind::Custom(s) => {
            let mut r = String::from_str("custom:");
            r.append(s.as_str());
            r
        }
    }
}

/// The canonical text of an opportunity target.
pub open spec fn target_text(t: ExperienceOpportunityTarget) -> Seq<char> {
    match t {
        ExperienceOpportunityTarget::Skill(s) => "skill:"@ + s@,
        ExperienceOpportunityTarget::Lesson(s) => "lesson:"@ + s@,
        ExperienceOpportunityTarget::Reflex(s) => "reflex:"@ + s@,
        ExperienceOpportunityTarget::Recovery(s) => "recovery:"@ + s@,
        ExperienceOpportunityTarget::CausalHypothesis(s) => "causal_hypothesis:"@ + s@,
        ExperienceOpportunityTarget::EarlyWarning(s) => "early_warning:"@ + s@,
        ExperienceOpportunityTarget::FailureSignature(s) => "failure_signature:"@ + s@,
        ExperienceOpportunityTarget::AssuranceGap(s) => "assurance_gap:"@ + s@,
        ExperienceOpportunityTarget::RuntimeGap(s) => "runtime_gap:"@ + s@,
        ExperienceOpportunityTarget::Tool(s) => "tool:"@ + s@,
        ExperienceOpportunityTarget::TaskFamily(s) => "task_family:"@ + s@,
        ExperienceOpportunityTarget::FederatedObject(o) => "federated_object:"@ + o.node_id@ + "/"@ + o.object_id@,
    }
}

fn target_text_exec(t: &ExperienceOpportunityTarget) -> (r: String)
    ensures
        r@ == target_text(*t),
{
    match t {
        ExperienceOpportunityTarget::Skill(s) => {
            let mut r = String::from_str("skill:");
            r.append(s.as_str());
            r
        }
        ExperienceOpportunityTarget::Lesson(s) => {
            let mut r = String::from_str("lesson:");
            r.append(s.as_str());
            r
        }
        ExperienceOpportunityTarget::Reflex(s) => {
            let mut r = String::from_str("reflex:");
            r.append(s.as_str());
            r
        }
        ExperienceOpportunityTarget::Recovery(s) => {
            let mut r = String::from_str("recovery:");
            r.append(s.as_str());
            r
        }
        ExperienceOpportunityTarget::CausalHypothesis(s) => {
            let mut r = String::from_str("causal_hypothesis:");
            r.append(s.as_str());
            r
        }
        ExperienceOpportunityTarget::EarlyWarning(s) => {
            let mut r = String::from_str("early_warning:");
            r.append(s.as_str());
            r
        }
        ExperienceOpportunityTarget::FailureSignature(s) => {
            let mut r = String::from_str("failure_signature:");
            r.append(s.as_str());
            r
        }
        ExperienceOpportunityTarget::AssuranceGap(s) => {
            let mut r = String::from_str("assurance_gap:");
            r.append(s.as_str());
            r
        }
        ExperienceOpportunityTarget::RuntimeGap(s) => {
            let mut r = String::from_str("runtime_gap:");
            r.append(s.as_str());
            r
        }
        ExperienceOpportunityTarget::Tool(s) => {
            let mut r = String::from_str("tool:");
            r.append(s.as_str());
            r
        }
        ExperienceOpportunityTarget::TaskFamily(s) => {
            let mut r = String::from_str("task_family:");
            r.append(s.as_str());
            r
        }
        ExperienceOpportunityTarget::FederatedObject(o) => {
            let mut r = String::from_str("federated_object:");
            r.append(o.node_id.as_str());
            r.append("/");
            r.append(o.object_id.as_str());
            r
        }
    }
}

/// The canonical text of an opportunity reason.
pub open spec fn reason_text(r: OpportunityReason) -> Seq<char> {
    match r {
        OpportunityReason::CriticalFailureUnmitigated => "critical_failure_unmitigated"@,
        OpportunityReason::RepeatedFailure => "repeated_failure"@,
        OpportunityReason::HighUsageSkillGap => "high_usage_skill_gap"@,
        OpportunityReason::RuntimeAbstention => "runtime_abstention"@,
        OpportunityReason::RuntimeUnknown => "runtime_unknown"@,
        OpportunityReason::EvidenceStale => "evidence_stale"@,
        OpportunityReason::EvidenceContradicted => "evidence_contradicted"@,
        OpportunityReason::LargeBlastRadius => "large_blast_radius"@,
        OpportunityReason::AssuranceBlocked => "assurance_blocked"@,
        OpportunityReason::RecoveryMissing => "recovery_missing"@,
        OpportunityReason::ReflexNoisy => "reflex_noisy"@,
        OpportunityReason::ForecastMiss => "forecast_miss"@,
        OpportunityReason::ForecastNoisy => "forecast_noisy"@,
        OpportunityReason::CausalMechanismUnknown => "causal_mechanism_unknown"@,
        OpportunityReason::LowEvidenceDiversity => "low_evidence_diversity"@,
        OpportunityReason::FederatedEvidenceUnreproduced => "federated_evidence_unreproduced"@,
        OpportunityReason::CapabilityOverprovisioned => "capability_overprovisioned"@,
        OpportunityReason::OperatingEnvelopeUnknown => "operating_envelope_unknown"@,
        OpportunityReason::EvidenceSaturated => "evidence_saturated"@,
        OpportunityReason::Custom(s) => "custom:"@ + s@,
    }
}

fn reason_text_exec(r: &OpportunityReason) -> (s: String)
    ensures
        s@ == reason_text(*r),
{
    match r {
        OpportunityReason::CriticalFailureUnmitigated => String::from_str("critical_failure_unmitigated"),
        OpportunityReason::RepeatedFailure => String::from_str("repeated_failure"),
        OpportunityReason::HighUsageSkillGap => String::from_str("high_usage_skill_gap"),
        OpportunityReason::RuntimeAbstention => String::from_str("runtime_abstention"),
        OpportunityReason::RuntimeUnknown => String::from_str("runtime_unknown"),
        OpportunityReason::EvidenceStale => String::from_str("evidence_stale"),
        OpportunityReason::EvidenceContradicted => String::from_str("evidence_contradicted"),
        OpportunityReason::LargeBlastRadius => String::from_str("large_blast_radius"),
        OpportunityReason::AssuranceBlocked => String::from_str("assurance_blocked"),
        OpportunityReason::RecoveryMissing => String::from_str("recovery_missing"),
        OpportunityReason::ReflexNoisy => String::from_str("reflex_noisy"),
        OpportunityReason::ForecastMiss => String::from_str("forecast_miss"),
        OpportunityReason::ForecastNoisy => String::from_str("forecast_noisy"),
        OpportunityReason::CausalMechanismUnknown => String::from_str("causal_mechanism_unknown"),
        OpportunityReason::LowEvidenceDiversity => String::from_str("low_evidence_diversity"),
        OpportunityReason::FederatedEvidenceUnreproduced => String::from_str("federated_evidence_unreproduced"),
        OpportunityReason::CapabilityOverprovisioned => String::from_str("capability_overprovisioned"),
        OpportunityReason::OperatingEnvelopeUnknown => String::from_str("operating_envelope_unknown"),
        OpportunityReason::EvidenceSaturated => String::from_str("evidence_saturated"),
        OpportunityReason::Custom(c) => {
            let mut s = String::from_str("custom:");
            s.append(c.as_str());
            s
        }
    }
}

/// Reason texts, each followed by a comma.
pub open spec fn reasons_text(rs: Seq<OpportunityReason>) -> Seq<char>
    decreases rs.len(),
{
    if rs.len() == 0 {
        Seq::empty()
    } else {
        reasons_text(rs.drop_last()) + reason_text(rs.last()) + ","@
    }
}

/// The text an opportunity's identifier is derived from: kind, target and reasons,
/// separated by the unit separator.
pub open spec fn gap_material(g: ExperienceGap) -> Seq<char> {
    kind_text(g.kind) + "\u{1f}"@ + target_text(g.target) + "\u{1f}"@ + reasons_text(g.reasons@)
}

/// `opportunity-` and the UUID-shaped text of the BLAKE3 digest of the gap's material.
#[verifier::opaque]
pub open spec fn opportunity_id_spec(g: ExperienceGap) -> Seq<char> {
    "opportunity-"@ + crate::digest::uuid_text(crate::digest::blake3_hash(vstd::utf8::encode_utf8(gap_material(g))))
}

fn gap_material_exec(g: &ExperienceGap) -> (r: String)
    ensures
        r@ == gap_material(*g),
{
    let mut s = kind_text_exec(&g.kind);
    s.append("\u{1f}");
    let t = target_text_exec(&g.target);
    s.append(t.as_str());
    s.append("\u{1f}");
    let mut i: usize = 0;
    assert(g.reasons@.subrange(0, 0) =~= Seq::<OpportunityReason>::empty());
    while i < g.reasons.len()
        invariant
            i <= g.reasons@.len(),
            s@ == kind_text(g.kind) + "\u{1f}"@ + target_text(g.target) + "\u{1f}"@ + reasons_text(g.reasons@.subrange(0, i as int)),
        decreases g.reasons.len() - i,
    {
        let r = reason_text_exec(&g.reasons[i]);
        s.append(r.as_str());
        s.append(",");
        proof {
            let next = g.reasons@.subrange(0, i + 1);
            assert(next.drop_last() =~= g.reasons@.subrange(0, i as int));
            assert(next.last() == g.reasons@[i as int]);
        }
        i = i + 1;
    }
    assert(g.reasons@.subrange(0, g.reasons@.len() as int) =~= g.reasons@);
    s
}

/// A stable identifier for a gap, derived from its kind, target and reasons.
fn stable_opportunity_id(gap: &ExperienceGap) -> (r: String)
    ensures
        r@ == opportunity_id_spec(*gap),
{
    let material = gap_material_exec(gap);
    let digest = crate::digest::blake3_digest(material.as_str().as_bytes());
    let mut id = String::from_str("opportunity-");
    crate::digest::push_uuid_text(&mut id, &digest);
    proof {
        reveal(opportunity_id_spec);
    }
    id
}

/// Debug name of an exposure band.
pub open spec fn exposure_name(e: ExposureBand) -> Seq<char> {
    match e {
        ExposureBand::Rare => "Rare"@,
        ExposureBand::Occasional => "Occasional"@,
        ExposureBand::Frequent => "Frequent"@,
        ExposureBand::VeryFrequent => "VeryFrequent"@,
        ExposureBand::Unknown => "Unknown"@,
    }
}

fn exposure_name_exec(e: ExposureBand) -> (r: &'static str)
    ensures
        r@ == exposure_name(e),
{
    match e {
        ExposureBand::Rare => "Rare",
        ExposureBand::Occasional => "Occasional",
        ExposureBand::Frequent => "Frequent",
        ExposureBand::VeryFrequent => "VeryFrequent",
        ExposureBand::Unknown => "Unknown",
    }
}

/// Debug name of a mitigation gap.
pub open spec fn mitigation_name(m: MitigationGap) -> Seq<char> {
    match m {
        MitigationGap::NoGap => "None"@,
        MitigationGap::Partial => "Partial"@,
        MitigationGap::Significant => "Significant"@,
        MitigationGap::Unmitigated => "Unmitigated"@,
        MitigationGap::Unknown => "Unknown"@,
    }
}

fn mitigation_name_exec(m: MitigationGap) -> (r: &'static str)
    ensures
        r@ == mitigation_name(m),
{
    match m {
        MitigationGap::NoGap => "None",
        MitigationGap::Partial => "Partial",
        MitigationGap::Significant => "Significant",
        MitigationGap::Unmitigated => "Unmitigated",
        MitigationGap::Unknown => "Unknown",
    }
}

} // verus!

verus! {

// ---------------------------------------------------------------------------
// Opportunity generation
// ---------------------------------------------------------------------------

impl ExperienceOpportunityKind {
    /// A copy of the kind.
    pub fn duplicate(&self) -> (r: Self)
        ensures
            r == *self,
    {
        match self {
            ExperienceOpportunityKind::Custom(s) => ExperienceOpportunityKind::Custom(s.clone()),
            ExperienceOpportunityKind::ValidateLesson => ExperienceOpportunityKind::ValidateLesson,
            ExperienceOpportunityKind::RevalidateStaleExperience => ExperienceOpportunityKind::RevalidateStaleExperience,
            ExperienceOpportunityKind::ResolveContradiction => ExperienceOpportunityKind::ResolveContradiction,
            ExperienceOpportunityKind::ValidateRecovery => ExperienceOpportunityKind::ValidateRecovery,
            ExperienceOpportunityKind::HardenSkill => ExperienceOpportunityKind::HardenSkill,
            ExperienceOpportunityKind::ExploreOperatingEnvelope => ExperienceOpportunityKind::ExploreOperatingEnvelope,
            ExperienceOpportunityKind::ValidateReflex => ExperienceOpportunityKind::ValidateReflex,
            ExperienceOpportunityKind::ReduceReflexFalsePositives => ExperienceOpportunityKind::ReduceReflexFalsePositives,
            ExperienceOpportunityKind::ChallengeCausalHypothesis => ExperienceOpportunityKind::ChallengeCausalHypothesis,
            ExperienceOpportunityKind::DiscriminateCausalHypotheses => ExperienceOpportunityKind::DiscriminateCausalHypotheses,
            ExperienceOpportunityKind::IncreaseEvidenceDiversity => ExperienceOpportunityKind::IncreaseEvidenceDiversity,
            ExperienceOpportunityKind::ReproduceFederatedExperience => ExperienceOpportunityKind::ReproduceFederatedExperience,
            ExperienceOpportunityKind::ValidateEarlyWarning => ExperienceOpportunityKind::ValidateEarlyWarning,
            ExperienceOpportunityKind::ValidatePreventiveIntervention => ExperienceOpportunityKind::ValidatePreventiveIntervention,
            ExperienceOpportunityKind::InvestigateForecastMiss => ExperienceOpportunityKind::InvestigateForecastMiss,
            ExperienceOpportunityKind::ReduceForecastFalsePositives => ExperienceOpportunityKind::ReduceForecastFalsePositives,
            ExperienceOpportunityKind::MinimizeCapability => ExperienceOpportunityKind::MinimizeCapability,
            ExperienceOpportunityKind::ResolveRuntimeUnknown => ExperienceOpportunityKind::ResolveRuntimeUnknown,
            ExperienceOpportunityKind::CloseAssuranceGap => ExperienceOpportunityKind::CloseAssuranceGap,
            ExperienceOpportunityKind::ValidateAbstraction => ExperienceOpportunityKind::ValidateAbstraction,
            ExperienceOpportunityKind::ValidateTransfer => ExperienceOpportunityKind::ValidateTransfer,
            ExperienceOpportunityKind::ChallengeAbstraction => ExperienceOpportunityKind::ChallengeAbstraction,
            ExperienceOpportunityKind::ReduceKnowledgeFragmentation => ExperienceOpportunityKind::ReduceKnowledgeFragmentation,
        }
    }
}

impl OpportunityReason {
    /// A copy of the reason.
    pub fn duplicate(&self) -> (r: Self)
        ensures
            r == *self,
    {
        match self {
            OpportunityReason::Custom(s) => OpportunityReason::Custom(s.clone()),
            OpportunityReason::CriticalFailureUnmitigated => OpportunityReason::CriticalFailureUnmitigated,
            OpportunityReason::RepeatedFailure => OpportunityReason::RepeatedFailure,
            OpportunityReason::HighUsageSkillGap => OpportunityReason::HighUsageSkillGap,
            OpportunityReason::RuntimeAbstention => OpportunityReason::RuntimeAbstention,
            OpportunityReason::RuntimeUnknown => OpportunityReason::RuntimeUnknown,
            OpportunityReason::EvidenceStale => OpportunityReason::EvidenceStale,
            OpportunityReason::EvidenceContradicted => OpportunityReason::EvidenceContradicted,
            OpportunityReason::LargeBlastRadius => OpportunityReason::LargeBlastRadius,
            OpportunityReason::AssuranceBlocked => OpportunityReason::AssuranceBlocked,
            OpportunityReason::RecoveryMissing => OpportunityReason::RecoveryMissing,
            OpportunityReason::ReflexNoisy => OpportunityReason::ReflexNoisy,
            OpportunityReason::ForecastMiss => OpportunityReason::ForecastMiss,
            OpportunityReason::ForecastNoisy => OpportunityReason::ForecastNoisy,
            OpportunityReason::CausalMechanismUnknown => OpportunityReason::CausalMechanismUnknown,
            OpportunityReason::LowEvidenceDiversity => OpportunityReason::LowEvidenceDiversity,
            OpportunityReason::FederatedEvidenceUnreproduced => OpportunityReason::FederatedEvidenceUnreproduced,
            OpportunityReason::CapabilityOverprovisioned => OpportunityReason::CapabilityOverprovisioned,
            OpportunityReason::OperatingEnvelopeUnknown => OpportunityReason::OperatingEnvelopeUnknown,
            OpportunityReason::EvidenceSaturated => OpportunityReason::EvidenceSaturated,
        }
    }
}

/// A copy of a list of reasons.
pub fn duplicate_reasons(v: &Vec<OpportunityReason>) -> (r: Vec<OpportunityReason>)
    ensures
        r@ == v@,
{
    let mut r: Vec<OpportunityReason> = Vec::new();
    let mut i: usize = 0;
    while i < v.len()
        invariant
            i <= v@.len(),
            r@ =~= v@.subrange(0, i as int),
        decreases v.len() - i,
    {
        r.push(v[i].duplicate());
        i = i + 1;
    }
    assert(r@ =~= v@);
    r
}

impl LearningValueEstimate {
    /// Equal band, outcomes, count and rationale.
    pub open spec fn same_as(self, other: Self) -> bool {
        &&& self.band == other.band
        &&& self.possible_outcomes@ == other.possible_outcomes@
        &&& self.decision_changing_outcomes == other.decision_changing_outcomes
        &&& self.rationale@ == other.rationale@
    }

    /// A copy of the estimate.
    pub fn duplicate(&self) -> (r: Self)
        ensures
            r.same_as(*self),
    {
        let mut outcomes: Vec<LearningOutcomeClass> = Vec::new();
        let mut i: usize = 0;
        while i < self.possible_outcomes.len()
            invariant
                i <= self.possible_outcomes@.len(),
                outcomes@ =~= self.possible_outcomes@.subrange(0, i as int),
            decreases self.possible_outcomes.len() - i,
        {
            outcomes.push(self.possible_outcomes[i]);
            i = i + 1;
        }
        assert(outcomes@ =~= self.possible_outcomes@);
        let rationale = crate::text::clone_strings(&self.rationale);
        let r = LearningValueEstimate {
            band: self.band,
            possible_outcomes: outcomes,
            decision_changing_outcomes: self.decision_changing_outcomes,
            rationale,
        };
        assert(r.possible_outcomes@ == self.possible_outcomes@);
        assert(r.rationale@ == self.rationale@);
        r
    }
}

/// The rationale a generated opportunity carries: the gap's reasons, plus
/// `EvidenceSaturated` when the evidence is saturated and the reason is not already there.
pub open spec fn generated_rationale(g: ExperienceGap) -> Seq<OpportunityReason> {
    if saturation_spec(g.evidence) == EvidenceSaturation::Saturated
        && !has_reason(g.reasons@, OpportunityReason::EvidenceSaturated) {
        g.reasons@.push(OpportunityReason::EvidenceSaturated)
    } else {
        g.reasons@
    }
}

/// The value vector of the opportunity generated from a gap.
pub open spec fn generated_value(g: ExperienceGap) -> ExperienceValueVector {
    let s = saturation_spec(g.evidence);
    ExperienceValueVector {
        risk_reduction: severity_value_spec(g.severity),
        learning_value: g.learning.band,
        reuse_potential: reuse_value_spec(g.reuse),
        decision_relevance: g.decision_relevance.likely_decision_change.max_spec(exposure_value_spec(g.exposure)),
        evidence_gap: if g.evidence.contradictions > 0 {
            ValueBand::Critical
        } else {
            match s {
                EvidenceSaturation::Sparse => ValueBand::High,
                EvidenceSaturation::Developing => ValueBand::Medium,
                EvidenceSaturation::Mature => ValueBand::Low,
                EvidenceSaturation::Saturated => ValueBand::NoValue,
                EvidenceSaturation::Contradicted => ValueBand::Critical,
            }
        },
        novelty: novelty_value_spec(g.novelty),
    }
}

/// `o` is the opportunity generated from gap `g` at time `now`.
#[verifier::opaque]
pub open spec fn generated_from(o: ExperienceOpportunity, g: ExperienceGap, now: i64) -> bool {
    let s = saturation_spec(g.evidence);
    &&& o.id@ == opportunity_id_spec(g)
    &&& o.kind == g.kind
    &&& o.target == g.target
    &&& o.rationale@ == generated_rationale(g)
    &&& o.value == generated_value(g)
    &&& o.estimated_cost == g.estimated_cost
    &&& o.risk == g.risk
    &&& o.dependencies@ == g.dependencies@
    &&& o.status == (if s == EvidenceSaturation::Saturated && g.evidence.fresh {
            ExperienceOpportunityStatus::Saturated
        } else {
            ExperienceOpportunityStatus::Eligible
        })
    &&& o.created_at == now
    &&& o.risk_reduction.failure_severity == g.severity
    &&& o.risk_reduction.occurrence_exposure == g.exposure
    &&& o.risk_reduction.mitigation_gap == g.mitigation_gap
    &&& o.risk_reduction.rationale@.len() == 1
    &&& o.risk_reduction.rationale@[0]@ == exposure_name(g.exposure) + " exposure with "@ + mitigation_name(g.mitigation_gap) + " mitigation"@
    &&& o.learning.same_as(g.learning)
    &&& o.decision_relevance == g.decision_relevance
    &&& o.reuse == g.reuse
    &&& o.novelty == g.novelty
    &&& o.saturation == s
    &&& o.marginal_value == marginal_value_spec(s, g.evidence)
    &&& o.generator_version@ == OPPORTUNITY_GENERATOR_VERSION@
}

/// The opportunity for one gap.
fn opportunity_for_gap(gap: &ExperienceGap, id: String, now: i64) -> (r: ExperienceOpportunity)
    requires
        id@ == opportunity_id_spec(*gap),
    ensures
        generated_from(r, *gap, now),
        r.id == id,
{
    reveal(generated_from);
    let policy = DeterministicEvidenceSaturationPolicy;
    let saturation = policy.assess(&gap.target, &gap.evidence);
    let marginal = marginal_value(saturation, &gap.evidence);
    let evidence_gap = if gap.evidence.contradictions > 0 {
        ValueBand::Critical
    } else {
        match saturation {
            EvidenceSaturation::Sparse => ValueBand::High,
            EvidenceSaturation::Developing => ValueBand::Medium,
            EvidenceSaturation::Mature => ValueBand::Low,
            EvidenceSaturation::Saturated => ValueBand::NoValue,
            EvidenceSaturation::Contradicted => ValueBand::Critical,
        }
    };
    let mut text = String::from_str(exposure_name_exec(gap.exposure));
    text.append(" exposure with ");
    text.append(mitigation_name_exec(gap.mitigation_gap));
    text.append(" mitigation");
    let mut risk_rationale: Vec<String> = Vec::new();
    risk_rationale.push(text);
    let mut rationale = duplicate_reasons(&gap.reasons);
    if saturation == EvidenceSaturation::Saturated
        && !contains_reason(&rationale, &OpportunityReason::EvidenceSaturated) {
        rationale.push(OpportunityReason::EvidenceSaturated);
    }
    let status = if saturation == EvidenceSaturation::Saturated && gap.evidence.fresh {
        ExperienceOpportunityStatus::Saturated
    } else {
        ExperienceOpportunityStatus::Eligible
    };
    ExperienceOpportunity {
        id,
        kind: gap.kind.duplicate(),
        target: gap.target.duplicate(),
        rationale,
        value: ExperienceValueVector {
            risk_reduction: severity_value(gap.severity),
            learning_value: gap.learning.band,
            reuse_potential: reuse_value(gap.reuse),
            decision_relevance: gap.decision_relevance.likely_decision_change.max(exposure_value(gap.exposure)),
            evidence_gap,
            novelty: novelty_value(gap.novelty),
        },
        estimated_cost: gap.estimated_cost,
        risk: gap.risk,
        dependencies: crate::text::clone_strings(&gap.dependencies),
        status,
        created_at: now,
        risk_reduction: RiskReductionEstimate {
            failure_severity: gap.severity,
            occurrence_exposure: gap.exposure,
            mitigation_gap: gap.mitigation_gap,
            rationale: risk_rationale,
        },
        learning: gap.learning.duplicate(),
        decision_relevance: gap.decision_relevance,
        reuse: gap.reuse,
        novelty: gap.novelty,
        saturation,
        marginal_value: marginal,
        generator_version: String::from_str(OPPORTUNITY_GENERATOR_VERSION),
    }
}

/// Identifier bytes, the key by which opportunities are ordered.
pub open spec fn id_bytes(o: ExperienceOpportunity) -> Seq<u8> {
    vstd::utf8::encode_utf8(o.id@)
}

/// Gap `i` is the first gap with its identifier.
#[verifier::opaque]
pub open spec fn first_with_id(gaps: Seq<ExperienceGap>, i: int) -> bool {
    forall|j: int| 0 <= j < i ==> opportunity_id_spec(#[trigger] gaps[j]) != opportunity_id_spec(gaps[i])
}

/// Opportunities strictly increasing by identifier.
pub open spec fn sorted_by_id(s: Seq<ExperienceOpportunity>) -> bool {
    forall|a: int, b: int| 0 <= a < b < s.len() ==> crate::text::bytes_lt(id_bytes(#[trigger] s[a]), id_bytes(#[trigger] s[b]))
}

/// The opportunities generated from the first `n` gaps: one per distinct identifier,
/// built from the first gap that has it, in identifier order.
#[verifier::opaque]
pub open spec fn generated_exactly(r: Seq<ExperienceOpportunity>, gaps: Seq<ExperienceGap>, n: int, now: i64) -> bool {
    &&& sorted_by_id(r)
    &&& forall|k: int| 0 <= k < r.len() ==> exists|i: int| 0 <= i < n && first_with_id(gaps, i)
            && generated_from(#[trigger] r[k], gaps[i], now)
    &&& forall|i: int| #![trigger opportunity_id_spec(gaps[i])] 0 <= i < n ==> exists|k: int| 0 <= k < r.len()
            && (#[trigger] r[k]).id@ == opportunity_id_spec(gaps[i])
}

#[verifier::rlimit(60)]
proof fn lemma_generate_step_duplicate(r: Seq<ExperienceOpportunity>, gaps: Seq<ExperienceGap>, idx: int, now: i64, p: int)
    requires
        0 <= idx < gaps.len(),
        0 <= p < r.len(),
        generated_exactly(r, gaps, idx, now),
        r[p].id@ == opportunity_id_spec(gaps[idx]),
    ensures
        generated_exactly(r, gaps, idx + 1, now),
{
    reveal(generated_exactly);
    assert forall|k: int| 0 <= k < r.len() implies exists|i: int| 0 <= i < idx + 1 && first_with_id(gaps, i)
        && generated_from(#[trigger] r[k], gaps[i], now) by {
        let i = choose|i: int| 0 <= i < idx && first_with_id(gaps, i) && generated_from(r[k], gaps[i], now);
    }
    assert forall|i: int| #![trigger opportunity_id_spec(gaps[i])] 0 <= i < idx + 1 implies exists|k: int| 0 <= k < r.len()
        && (#[trigger] r[k]).id@ == opportunity_id_spec(gaps[i]) by {
        if i == idx {
            assert(r[p].id@ == opportunity_id_spec(gaps[i]));
        }
    }
}

proof fn lemma_insert_sorted(before: Seq<ExperienceOpportunity>, p: int, o: ExperienceOpportunity)
    requires
        0 <= p <= before.len(),
        sorted_by_id(before),
        forall|k: int| 0 <= k < p ==> crate::text::bytes_lt(id_bytes(#[trigger] before[k]), id_bytes(o)),
        p < before.len() ==> crate::text::bytes_lt(id_bytes(o), id_bytes(before[p])),
    ensures
        sorted_by_id(before.insert(p, o)),
        forall|k: int| 0 <= k < before.len() ==> id_bytes(#[trigger] before[k]) != id_bytes(o),
{
    let key = id_bytes(o);
    let after = before.insert(p, o);
    assert forall|k: int| 0 <= k < before.len() implies id_bytes(#[trigger] before[k]) != key by {
        crate::text::lemma_bytes_lt_trichotomy(id_bytes(before[k]), key);
        if k > p {
            crate::text::lemma_bytes_lt_transitive(key, id_bytes(before[p]), id_bytes(before[k]));
        }
    }
    assert forall|a: int, b: int| 0 <= a < b < after.len() implies crate::text::bytes_lt(id_bytes(#[trigger] after[a]), id_bytes(#[trigger] after[b])) by {
        if b < p {
            assert(after[a] == before[a]);
            assert(after[b] == before[b]);
        } else if b == p {
            assert(after[a] == before[a]);
        } else if a < p {
            assert(after[a] == before[a]);
            assert(after[b] == before[b - 1]);
            if b - 1 > p {
                crate::text::lemma_bytes_lt_transitive(key, id_bytes(before[p]), id_bytes(before[b - 1]));
            }
            crate::text::lemma_bytes_lt_transitive(id_bytes(before[a]), key, id_bytes(before[b - 1]));
        } else if a == p {
            assert(after[b] == before[b - 1]);
            if b - 1 > p {
                crate::text::lemma_bytes_lt_transitive(key, id_bytes(before[p]), id_bytes(before[b - 1]));
            }
        } else {
            assert(after[a] == before[a - 1]);
            assert(after[b] == before[b - 1]);
        }
    }
}

/// A gap whose identity no generated opportunity has is the first gap with that identity.
proof fn lemma_new_id_is_first(before: Seq<ExperienceOpportunity>, gaps: Seq<ExperienceGap>, idx: int, now: i64, p: int, o: ExperienceOpportunity)
    requires
        0 <= idx < gaps.len(),
        0 <= p <= before.len(),
        generated_exactly(before, gaps, idx, now),
        o.id@ == opportunity_id_spec(gaps[idx]),
        forall|k: int| 0 <= k < p ==> crate::text::bytes_lt(id_bytes(#[trigger] before[k]), id_bytes(o)),
        p < before.len() ==> crate::text::bytes_lt(id_bytes(o), id_bytes(before[p])),
    ensures
        first_with_id(gaps, idx),
        forall|k: int| 0 <= k < before.len() ==> id_bytes(#[trigger] before[k]) != id_bytes(o),
{
    reveal(generated_exactly);
    reveal(first_with_id);
    lemma_insert_sorted(before, p, o);
    assert forall|j: int| 0 <= j < idx implies opportunity_id_spec(#[trigger] gaps[j]) != opportunity_id_spec(gaps[idx]) by {
        if opportunity_id_spec(gaps[j]) == opportunity_id_spec(gaps[idx]) {
            let k = choose|k: int| 0 <= k < before.len() && (#[trigger] before[k]).id@ == opportunity_id_spec(gaps[j]);
            assert(id_bytes(before[k]) == id_bytes(o));
        }
    }
}

#[verifier::rlimit(60)]
#[verifier::spinoff_prover]
proof fn lemma_generate_step_insert(before: Seq<ExperienceOpportunity>, gaps: Seq<ExperienceGap>, idx: int, now: i64, p: int, o: ExperienceOpportunity)
    requires
        0 <= idx < gaps.len(),
        0 <= p <= before.len(),
        generated_exactly(before, gaps, idx, now),
        generated_from(o, gaps[idx], now),
        o.id@ == opportunity_id_spec(gaps[idx]),
        forall|k: int| 0 <= k < p ==> crate::text::bytes_lt(id_bytes(#[trigger] before[k]), id_bytes(o)),
        p < before.len() ==> crate::text::bytes_lt(id_bytes(o), id_bytes(before[p])),
    ensures
        generated_exactly(before.insert(p, o), gaps, idx + 1, now),
{
    lemma_new_id_is_first(before, gaps, idx, now, p, o);
    reveal(generated_exactly);
    let after = before.insert(p, o);
    lemma_insert_sorted(before, p, o);
    assert forall|k: int| 0 <= k < after.len() implies exists|i: int| 0 <= i < idx + 1 && first_with_id(gaps, i)
        && generated_from(#[trigger] after[k], gaps[i], now) by {
        if k == p {
            assert(generated_from(after[k], gaps[idx], now));
        } else if k < p {
            assert(after[k] == before[k]);
        } else {
            assert(after[k] == before[k - 1]);
        }
    }
    assert forall|i: int| #![trigger opportunity_id_spec(gaps[i])] 0 <= i < idx + 1 implies exists|k: int| 0 <= k < after.len()
        && (#[trigger] after[k]).id@ == opportunity_id_spec(gaps[i]) by {
        if i == idx {
            assert(after[p].id@ == opportunity_id_spec(gaps[i]));
        } else {
            let k0 = choose|k: int| 0 <= k < before.len() && (#[trigger] before[k]).id@ == opportunity_id_spec(gaps[i]);
            if k0 < p {
                assert(after[k0] == before[k0]);
            } else {
                assert(after[k0 + 1] == before[k0]);
            }
        }
    }
}

#[derive(Clone, Copy, Debug)]
pub struct DeterministicExperienceOpportunityGenerator;

impl DeterministicExperienceOpportunityGenerator {
    /// One opportunity per distinct gap identity, built from the first gap with that
    /// identity, in identifier order.
    pub fn generate(&self, context: &ExperiencePlanningContext) -> (r: Result<Vec<ExperienceOpportunity>, Error>)
        ensures
            r matches Ok(v) && generated_exactly(v@, context.gaps@, context.gaps@.len() as int, context.now),
    {
        let mut result: Vec<ExperienceOpportunity> = Vec::new();
        let mut idx: usize = 0;
        proof {
            reveal(generated_exactly);
        }
        while idx < context.gaps.len()
            invariant
                idx <= context.gaps@.len(),
                generated_exactly(result@, context.gaps@, idx as int, context.now),
            decreases context.gaps.len() - idx,
        {
            let gap = &context.gaps[idx];
            let id = stable_opportunity_id(gap);
            let mut p: usize = 0;
            let mut stop = false;
            let mut duplicate = false;
            while p < result.len() && !stop
                invariant
                    p <= result@.len(),
                    forall|k: int| 0 <= k < p ==> crate::text::bytes_lt(id_bytes(#[trigger] result@[k]), vstd::utf8::encode_utf8(id@)),
                    stop ==> p < result@.len(),
                    stop && duplicate ==> id_bytes(result@[p as int]) =~= vstd::utf8::encode_utf8(id@),
                    stop && !duplicate ==> crate::text::bytes_lt(vstd::utf8::encode_utf8(id@), id_bytes(result@[p as int])),
                    !stop ==> !duplicate,
                decreases result.len() - p + (if stop { 0int } else { 1int }),
            {
                let c = crate::text::compare_bytes(result[p].id.as_str().as_bytes(), id.as_str().as_bytes());
                if c == 0 {
                    duplicate = true;
                    stop = true;
                } else if c > 0 {
                    stop = true;
                } else {
                    p = p + 1;
                }
            }
            if duplicate {
                proof {
                    lemma_encode_utf8_injective(result@[p as int].id@, id@);
                    lemma_generate_step_duplicate(result@, context.gaps@, idx as int, context.now, p as int);
                }
            } else {
                let opportunity = opportunity_for_gap(gap, id, context.now);
                proof {
                    lemma_generate_step_insert(result@, context.gaps@, idx as int, context.now, p as int, opportunity);
                }
                result.insert(p, opportunity);
            }
            idx = idx + 1;
        }
        Ok(result)
    }
}

} // verus!
