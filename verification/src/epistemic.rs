//! Diversity-aware empirical evidence coordination.
//!
//! The dependency graph records observable, known dependencies which may create
//! correlated failures. It does not prove statistical independence or causality.
//! Unknown dependency metadata never earns diversity credit.
use vstd::prelude::*;
use crate::common::ExperienceBudget;
use crate::text::{is_blank, is_blank_spec, str_eq};

pub mod diversity;
pub mod planning;
pub mod echo;
pub mod structure;
pub mod graph;

verus! {

pub const DIVERSITY_POLICY_VERSION: &'static str = "hardknock.epistemic-diversity.v1";
pub const FUSION_POLICY_VERSION: &'static str = "hardknock.evidence-fusion.v1";

/// An agent, identified by its kind.
#[derive(Clone, Debug)]
pub struct AgentIdentity {
    pub kind: String,
}

/// A tool and the version used.
#[derive(Clone, Debug)]
pub struct ToolIdentity {
    pub name: String,
    pub version: String,
}

/// A reference to a piece of experience.
#[derive(Clone, Debug)]
pub struct ExperienceRef {
    pub kind: String,
    pub id: String,
}

#[derive(Clone, Debug)]
pub struct ClaimRef {
    pub id: String,
}

impl ClaimRef {
    /// The reference to the claim with identifier `id`.
    pub fn from_id(id: String) -> (r: Self)
        ensures
            r.id == id,
    {
        ClaimRef { id }
    }
}
#[derive(Clone, Copy, Debug, PartialEq, Eq, Structural)]
pub enum ClaimKind {
    StrategyPreference,
    LessonClaim,
    RecoveryClaim,
    SkillBehavior,
    FailureCause,
    OperatingEnvelopeClaim,
    RuntimeDecisionClaim,
    Custom,
}

/// A claim about behaviour; `created_at` is in Unix milliseconds.
#[derive(Clone, Debug)]
pub struct Claim {
    pub id: String,
    pub kind: ClaimKind,
    pub statement: String,
    pub scope: String,
    pub created_at: i64,
}

#[derive(Clone, Copy, Debug, PartialEq, Eq, Structural, PartialOrd, Ord)]
pub enum EvidenceSourceKind {
    Agent,
    Experiment,
    Chaos,
    RecoveryTrial,
    Federation,
    StaticCheck,
    HumanObservation,
}

pub open spec fn evidence_source_kind_rank(v: EvidenceSourceKind) -> u8 {
    match v {
        EvidenceSourceKind::Agent => 0,
        EvidenceSourceKind::Experiment => 1,
        EvidenceSourceKind::Chaos => 2,
        EvidenceSourceKind::RecoveryTrial => 3,
        EvidenceSourceKind::Federation => 4,
        EvidenceSourceKind::StaticCheck => 5,
        EvidenceSourceKind::HumanObservation => 6,
    }
}

impl EvidenceSourceKind {
    /// Position in the order of declaration.
    pub fn rank(&self) -> (r: u8)
        ensures
            r == evidence_source_kind_rank(*self),
    {
        match self {
            EvidenceSourceKind::Agent => 0,
            EvidenceSourceKind::Experiment => 1,
            EvidenceSourceKind::Chaos => 2,
            EvidenceSourceKind::RecoveryTrial => 3,
            EvidenceSourceKind::Federation => 4,
            EvidenceSourceKind::StaticCheck => 5,
            EvidenceSourceKind::HumanObservation => 6,
        }
    }
}

#[derive(Clone, Debug)]
pub enum EvidenceSource {
    Agent { identity: AgentIdentity },
    Experiment { experiment_id: String },
    Chaos { campaign_id: String },
    RecoveryTrial { recovery_id: String },
    Federation { node_id: String },
    StaticCheck { evaluator: String },
    HumanObservation { label: String },
}

#[derive(Clone, Copy, Debug, PartialEq, Eq, Structural)]
pub enum EvidenceOutcome {
    Supports,
    Contradicts,
    Inconclusive,
}

#[derive(Clone, Debug)]
pub struct EvidenceRef {
    pub kind: String,
    pub id: String,
}

#[derive(Clone, Copy, Debug, PartialEq, Eq, Structural, PartialOrd, Ord)]
pub enum EvaluatorKind {
    TestSuite,
    BehavioralContract,
    StaticAnalysis,
    PropertyCheck,
    ExternalOracle,
    HumanReview,
    Custom,
}

pub open spec fn evaluator_kind_rank(v: EvaluatorKind) -> u8 {
    match v {
        EvaluatorKind::TestSuite => 0,
        EvaluatorKind::BehavioralContract => 1,
        EvaluatorKind::StaticAnalysis => 2,
        EvaluatorKind::PropertyCheck => 3,
        EvaluatorKind::ExternalOracle => 4,
        EvaluatorKind::HumanReview => 5,
        EvaluatorKind::Custom => 6,
    }
}

impl EvaluatorKind {
    /// Position in the order of declaration.
    pub fn rank(&self) -> (r: u8)
        ensures
            r == evaluator_kind_rank(*self),
    {
        match self {
            EvaluatorKind::TestSuite => 0,
            EvaluatorKind::BehavioralContract => 1,
            EvaluatorKind::StaticAnalysis => 2,
            EvaluatorKind::PropertyCheck => 3,
            EvaluatorKind::ExternalOracle => 4,
            EvaluatorKind::HumanReview => 5,
            EvaluatorKind::Custom => 6,
        }
    }
}

/// The variant's name, as `Debug` prints it.
pub open spec fn evaluator_kind_name(v: EvaluatorKind) -> Seq<char> {
    match v {
        EvaluatorKind::TestSuite => "TestSuite"@,
        EvaluatorKind::BehavioralContract => "BehavioralContract"@,
        EvaluatorKind::StaticAnalysis => "StaticAnalysis"@,
        EvaluatorKind::PropertyCheck => "PropertyCheck"@,
        EvaluatorKind::ExternalOracle => "ExternalOracle"@,
        EvaluatorKind::HumanReview => "HumanReview"@,
        EvaluatorKind::Custom => "Custom"@,
    }
}

impl EvaluatorKind {
    /// The variant's name, as `Debug` prints it.
    pub fn name(&self) -> (r: &'static str)
        ensures
            r@ == evaluator_kind_name(*self),
    {
        match self {
            EvaluatorKind::TestSuite => "TestSuite",
            EvaluatorKind::BehavioralContract => "BehavioralContract",
            EvaluatorKind::StaticAnalysis => "StaticAnalysis",
            EvaluatorKind::PropertyCheck => "PropertyCheck",
            EvaluatorKind::ExternalOracle => "ExternalOracle",
            EvaluatorKind::HumanReview => "HumanReview",
            EvaluatorKind::Custom => "Custom",
        }
    }
}

#[derive(Clone, Debug)]
pub struct EvaluatorIdentity {
    pub name: String,
    pub version: String,
    pub kind: EvaluatorKind,
}

#[derive(Clone, Debug)]
pub struct EpistemicDependencySet {
    pub model_family: Option<String>,
    pub model_version: Option<String>,
    pub agent_runtime: Option<String>,
    pub system_prompt_family: Option<String>,
    pub experience_profile: Option<String>,
    pub retrieval_sources: Vec<String>,
    pub external_documents: Vec<String>,
    pub tools: Vec<ToolIdentity>,
    pub evaluators: Vec<String>,
    pub evaluator_identities: Vec<EvaluatorIdentity>,
    pub environment_family: Option<String>,
    pub originating_lessons: Vec<String>,
    pub originating_federated_nodes: Vec<String>,
}

#[derive(Clone, Copy, Debug, PartialEq, Eq, Structural, PartialOrd, Ord)]
pub enum EpistemicDependencyKind {
    Model,
    AgentRuntime,
    Prompt,
    RetrievalSource,
    Experience,
    Tool,
    Evaluator,
    Environment,
    ExternalEvidence,
}

pub open spec fn epistemic_dependency_kind_rank(v: EpistemicDependencyKind) -> u8 {
    match v {
        EpistemicDependencyKind::Model => 0,
        EpistemicDependencyKind::AgentRuntime => 1,
        EpistemicDependencyKind::Prompt => 2,
        EpistemicDependencyKind::RetrievalSource => 3,
        EpistemicDependencyKind::Experience => 4,
        EpistemicDependencyKind::Tool => 5,
        EpistemicDependencyKind::Evaluator => 6,
        EpistemicDependencyKind::Environment => 7,
        EpistemicDependencyKind::ExternalEvidence => 8,
    }
}

impl EpistemicDependencyKind {
    /// Position in the order of declaration.
    pub fn rank(&self) -> (r: u8)
        ensures
            r == epistemic_dependency_kind_rank(*self),
    {
        match self {
            EpistemicDependencyKind::Model => 0,
            EpistemicDependencyKind::AgentRuntime => 1,
            EpistemicDependencyKind::Prompt => 2,
            EpistemicDependencyKind::RetrievalSource => 3,
            EpistemicDependencyKind::Experience => 4,
            EpistemicDependencyKind::Tool => 5,
            EpistemicDependencyKind::Evaluator => 6,
            EpistemicDependencyKind::Environment => 7,
            EpistemicDependencyKind::ExternalEvidence => 8,
        }
    }
}

/// The variant's name, as `Debug` prints it.
pub open spec fn dependency_kind_name(v: EpistemicDependencyKind) -> Seq<char> {
    match v {
        EpistemicDependencyKind::Model => "Model"@,
        EpistemicDependencyKind::AgentRuntime => "AgentRuntime"@,
        EpistemicDependencyKind::Prompt => "Prompt"@,
        EpistemicDependencyKind::RetrievalSource => "RetrievalSource"@,
        EpistemicDependencyKind::Experience => "Experience"@,
        EpistemicDependencyKind::Tool => "Tool"@,
        EpistemicDependencyKind::Evaluator => "Evaluator"@,
        EpistemicDependencyKind::Environment => "Environment"@,
        EpistemicDependencyKind::ExternalEvidence => "ExternalEvidence"@,
    }
}

impl EpistemicDependencyKind {
    /// The variant's name, as `Debug` prints it.
    pub fn name(&self) -> (r: &'static str)
        ensures
            r@ == dependency_kind_name(*self),
    {
        match self {
            EpistemicDependencyKind::Model => "Model",
            EpistemicDependencyKind::AgentRuntime => "AgentRuntime",
            EpistemicDependencyKind::Prompt => "Prompt",
            EpistemicDependencyKind::RetrievalSource => "RetrievalSource",
            EpistemicDependencyKind::Experience => "Experience",
            EpistemicDependencyKind::Tool => "Tool",
            EpistemicDependencyKind::Evaluator => "Evaluator",
            EpistemicDependencyKind::Environment => "Environment",
            EpistemicDependencyKind::ExternalEvidence => "ExternalEvidence",
        }
    }
}

#[derive(Clone, Debug)]
pub struct DependencyValue {
    pub kind: EpistemicDependencyKind,
    pub value: String,
}

#[derive(Clone, Debug)]
pub struct EpistemicDependencyNode {
    pub id: String,
    pub kind: EpistemicDependencyNodeKind,
    pub label: String,
}

#[derive(Clone, Copy, Debug, PartialEq, Eq, Structural)]
pub enum EpistemicDependencyNodeKind {
    EvidencePath,
    Source,
    Dependency,
}

#[derive(Clone, Copy, Debug, PartialEq, Eq, Structural, PartialOrd, Ord)]
pub enum EpistemicDependencyEdgeKind {
    Uses,
    DerivedFrom,
    RetrievedFrom,
    EvaluatedBy,
    SharesWith,
}

pub open spec fn epistemic_dependency_edge_kind_rank(v: EpistemicDependencyEdgeKind) -> u8 {
    match v {
        EpistemicDependencyEdgeKind::Uses => 0,
        EpistemicDependencyEdgeKind::DerivedFrom => 1,
        EpistemicDependencyEdgeKind::RetrievedFrom => 2,
        EpistemicDependencyEdgeKind::EvaluatedBy => 3,
        EpistemicDependencyEdgeKind::SharesWith => 4,
    }
}

impl EpistemicDependencyEdgeKind {
    /// Position in the order of declaration.
    pub fn rank(&self) -> (r: u8)
        ensures
            r == epistemic_dependency_edge_kind_rank(*self),
    {
        match self {
            EpistemicDependencyEdgeKind::Uses => 0,
            EpistemicDependencyEdgeKind::DerivedFrom => 1,
            EpistemicDependencyEdgeKind::RetrievedFrom => 2,
            EpistemicDependencyEdgeKind::EvaluatedBy => 3,
            EpistemicDependencyEdgeKind::SharesWith => 4,
        }
    }
}

#[derive(Clone, Debug)]
pub struct EpistemicDependencyEdge {
    pub from: String,
    pub to: String,
    pub kind: EpistemicDependencyEdgeKind,
}

#[derive(Clone, Debug)]
pub struct EpistemicDependencyGraph {
    pub nodes: Vec<EpistemicDependencyNode>,
    pub edges: Vec<EpistemicDependencyEdge>,
}

#[derive(Clone, Debug)]
pub enum EvidenceContextMode {
    Normal,
    BlindToSelectedExperience { excluded: Vec<ExperienceRef> },
    IndependentRetrieval,
    AlternativeTooling,
    AlternativeEvaluator,
}

#[derive(Clone, Debug)]
pub struct EpistemicContextFingerprint {
    pub hash: String,
    pub model_family: Option<String>,
    pub active_experience_hash: String,
    pub retrieval_source_hash: String,
    pub toolset_hash: String,
    pub evaluator_hash: String,
}

#[derive(Clone, Debug)]
pub struct EvidenceContext {
    pub mode: EvidenceContextMode,
    pub repository: Option<String>,
    pub task: Option<String>,
    pub injected_experience: Vec<ExperienceRef>,
    pub active_experience_package: Option<String>,
    pub visible_federated_evidence: Vec<EvidenceRef>,
    pub available_tools: Vec<String>,
    pub evaluators: Vec<EvaluatorIdentity>,
    pub root_evidence_origins: Vec<String>,
    pub fingerprint: EpistemicContextFingerprint,
}

/// One path of evidence for a claim; `created_at` is in Unix milliseconds.
#[derive(Clone, Debug)]
pub struct EvidencePath {
    pub id: String,
    pub claim: ClaimRef,
    pub source: EvidenceSource,
    pub context: EvidenceContext,
    pub dependencies: EpistemicDependencySet,
    pub evidence_refs: Vec<EvidenceRef>,
    pub outcome: EvidenceOutcome,
    pub created_at: i64,
}

#[derive(Clone, Debug)]
pub struct DependencyOverlap {
    pub kind: EpistemicDependencyKind,
    pub shared_value: String,
    pub paths: Vec<String>,
}

/// Known evidence diversity, from unknown to high.
#[derive(Clone, Copy, Debug, PartialEq, Eq, Structural, PartialOrd, Ord)]
pub enum DiversityClass {
    Unknown,
    Low,
    Moderate,
    High,
}

pub open spec fn diversity_class_rank(v: DiversityClass) -> u8 {
    match v {
        DiversityClass::Unknown => 0,
        DiversityClass::Low => 1,
        DiversityClass::Moderate => 2,
        DiversityClass::High => 3,
    }
}

impl DiversityClass {
    /// Position in the order of declaration.
    pub fn rank(&self) -> (r: u8)
        ensures
            r == diversity_class_rank(*self),
    {
        match self {
            DiversityClass::Unknown => 0,
            DiversityClass::Low => 1,
            DiversityClass::Moderate => 2,
            DiversityClass::High => 3,
        }
    }
}

#[derive(Clone, Debug)]
pub struct EvidenceDiversityAssessment {
    pub path_count: usize,
    pub source_type_count: usize,
    pub model_family_count: usize,
    pub agent_runtime_count: usize,
    pub retrieval_source_count: usize,
    pub evaluator_count: usize,
    pub environment_count: usize,
    pub dependency_overlaps: Vec<DependencyOverlap>,
    pub diversity_class: DiversityClass,
    pub duplicate_fingerprints: Vec<(String, Vec<String>)>,
    pub missing_metadata: Vec<String>,
    pub caveats: Vec<String>,
}

#[derive(Clone, Copy, Debug, PartialEq, Eq, Structural)]
pub enum FusedEvidenceStatus {
    WeakSupport,
    Supported,
    DiverseSupport,
    Disputed,
    Inconclusive,
}

#[derive(Clone, Debug)]
pub struct FusedEvidenceAssessment {
    pub claim: String,
    pub support_paths: Vec<String>,
    pub contradiction_paths: Vec<String>,
    pub inconclusive_paths: Vec<String>,
    pub diversity: EvidenceDiversityAssessment,
    pub status: FusedEvidenceStatus,
    pub caveats: Vec<String>,
}

#[derive(Clone, Debug)]
pub struct EpistemicFaultDomain {
    pub id: String,
    pub kind: EpistemicDependencyKind,
    pub dependency: String,
    pub members: Vec<String>,
}

#[derive(Clone, Copy, Debug, PartialEq, Eq, Structural)]
pub struct OriginDiversity {
    pub immediate_nodes: usize,
    pub root_evidence_origins: usize,
}

#[derive(Clone, Copy, Debug, PartialEq, Eq, Structural)]
pub enum EvidenceEchoStatus {
    NoEcho,
    Possible,
    Strong,
}

#[derive(Clone, Debug)]
pub struct EvidenceEchoAssessment {
    pub origin_diversity: OriginDiversity,
    pub dominant_root: Option<String>,
    pub dominant_root_paths: usize,
    pub status: EvidenceEchoStatus,
    pub caveats: Vec<String>,
}

#[derive(Clone, Copy, Debug, PartialEq, Eq, Structural)]
pub enum ChallengeStrategy {
    RemoveDominantExperience,
    AlternativeAgent,
    AlternativeEvaluator,
    AlternativeTool,
    AlternativeEnvironment,
    CounterfactualExperiment,
    AdversarialPerturbation,
}

#[derive(Clone, Debug)]
pub struct FederatedObjectRef {
    pub node_id: String,
    pub object_id: String,
}

#[derive(Clone, Debug)]
pub enum EvidenceAcquisitionAction {
    AskAgent { agent: AgentIdentity, context_mode: EvidenceContextMode },
    RunControlledExperiment { request_id: String },
    RunAlternativeEvaluator { evaluator: String },
    ReproduceFederatedEvidence { object: FederatedObjectRef },
    ChallengeClaim { strategy: ChallengeStrategy },
}

#[derive(Clone, Debug)]
pub struct EvidenceAcquisitionPlan {
    pub claim: String,
    pub actions: Vec<EvidenceAcquisitionAction>,
    pub rationale: Vec<String>,
    pub requirement_satisfied: bool,
    pub stop_reason: Option<String>,
}

#[derive(Clone, Copy, Debug, PartialEq, Eq, Structural)]
pub struct EvidenceAcquisitionBudget {
    pub experience_budget: ExperienceBudget,
    pub max_agents: usize,
    pub max_challenges: usize,
}

impl Default for EvidenceAcquisitionBudget {
    fn default() -> (r: Self)
        ensures
            r.experience_budget.max_realities == 3,
            r.experience_budget.max_agent_runs == 3,
            r.max_agents == 2,
            r.max_challenges == 3,
    {
        EvidenceAcquisitionBudget { experience_budget: ExperienceBudget::default(), max_agents: 2, max_challenges: 3 }
    }
}

#[derive(Clone, Debug)]
pub struct AgentCapabilityProfile {
    pub identity: AgentIdentity,
    pub model_family: Option<String>,
    pub runtime: String,
    pub available: bool,
    pub integration_mode: String,
}

#[derive(Clone, Debug)]
pub struct RuntimeDiversityRequirement {
    pub action_pattern: String,
    pub minimum_diversity: DiversityClass,
}

#[derive(Clone, Debug)]
pub struct EvidenceRequirement {
    pub claim: String,
    pub required_diversity: Option<DiversityClass>,
    pub preferred_sources: Vec<EvidenceSourceKind>,
}

#[derive(Clone, Copy, Debug, PartialEq, Eq, Structural)]
pub struct EvidenceQuorumPolicy {
    pub minimum_supporting_paths: usize,
    pub minimum_fault_domains: usize,
    pub require_controlled_empirical_path: bool,
}

#[derive(Clone, Copy, Debug, PartialEq, Eq, Structural)]
pub enum EvidenceSessionOrigin {
    Runtime,
    User,
    Curriculum,
    Assurance,
}

#[derive(Clone, Copy, Debug, PartialEq, Eq, Structural)]
pub enum InfluenceOutcome {
    Successful,
    Failed,
    Inconclusive,
}

#[derive(Clone, Copy, Debug, PartialEq, Eq, Structural)]
pub struct ExperienceBlastRadius {
    pub sessions_influenced: usize,
    pub agents_influenced: usize,
    pub repositories_influenced: usize,
    pub decisions_influenced: usize,
    pub successful: usize,
    pub failed: usize,
    pub inconclusive: usize,
}

#[derive(Clone, Copy, Debug, PartialEq, Eq, Structural)]
pub enum ExperienceActivationState {
    Active,
    Advisory,
    Quarantined,
    Disabled,
}

impl Default for ExperienceActivationState {
    fn default() -> (r: Self)
        ensures
            r == ExperienceActivationState::Active,
    {
        ExperienceActivationState::Active
    }
}

#[derive(Clone, Debug)]
pub struct LessonImpactAssessment {
    pub lesson_id: String,
    pub blast_radius: ExperienceBlastRadius,
    pub activation_state: ExperienceActivationState,
    pub revalidation_required: bool,
    pub reasons: Vec<String>,
}

#[derive(Clone, Debug)]
pub struct EvidenceContrast {
    pub left: String,
    pub right: String,
    pub shared: Vec<DependencyValue>,
    pub different: Vec<EpistemicDependencyKind>,
    pub missing: Vec<String>,
}

#[derive(Clone, Copy, Debug, PartialEq, Eq, Structural, PartialOrd, Ord)]
pub enum EpistemicBenchmarkArm {
    SingleAgent,
    NaiveMajority,
    DiversityAware,
}

pub open spec fn epistemic_benchmark_arm_rank(v: EpistemicBenchmarkArm) -> u8 {
    match v {
        EpistemicBenchmarkArm::SingleAgent => 0,
        EpistemicBenchmarkArm::NaiveMajority => 1,
        EpistemicBenchmarkArm::DiversityAware => 2,
    }
}

impl EpistemicBenchmarkArm {
    /// Position in the order of declaration.
    pub fn rank(&self) -> (r: u8)
        ensures
            r == epistemic_benchmark_arm_rank(*self),
    {
        match self {
            EpistemicBenchmarkArm::SingleAgent => 0,
            EpistemicBenchmarkArm::NaiveMajority => 1,
            EpistemicBenchmarkArm::DiversityAware => 2,
        }
    }
}

} // verus!

verus! {

// ---------------------------------------------------------------------------
// Sources, evaluators and diversity classes
// ---------------------------------------------------------------------------

pub open spec fn source_kind(s: EvidenceSource) -> EvidenceSourceKind {
    match s {
        EvidenceSource::Agent { .. } => EvidenceSourceKind::Agent,
        EvidenceSource::Experiment { .. } => EvidenceSourceKind::Experiment,
        EvidenceSource::Chaos { .. } => EvidenceSourceKind::Chaos,
        EvidenceSource::RecoveryTrial { .. } => EvidenceSourceKind::RecoveryTrial,
        EvidenceSource::Federation { .. } => EvidenceSourceKind::Federation,
        EvidenceSource::StaticCheck { .. } => EvidenceSourceKind::StaticCheck,
        EvidenceSource::HumanObservation { .. } => EvidenceSourceKind::HumanObservation,
    }
}

/// The label of a source: its kind and what identifies it, separated by a colon.
pub open spec fn source_label(s: EvidenceSource) -> Seq<char> {
    match s {
        EvidenceSource::Agent { identity } => "agent:"@ + identity.kind@,
        EvidenceSource::Experiment { experiment_id } => "experiment:"@ + experiment_id@,
        EvidenceSource::Chaos { campaign_id } => "chaos:"@ + campaign_id@,
        EvidenceSource::RecoveryTrial { recovery_id } => "recovery:"@ + recovery_id@,
        EvidenceSource::Federation { node_id } => "federation:"@ + node_id@,
        EvidenceSource::StaticCheck { evaluator } => "static-check:"@ + evaluator@,
        EvidenceSource::HumanObservation { label } => "human:"@ + label@,
    }
}

fn prefixed(prefix: &str, rest: &String) -> (r: String)
    ensures
        r@ == prefix@ + rest@,
{
    let mut s = String::from_str(prefix);
    s.append(rest.as_str());
    s
}

impl EvidenceSource {
    /// The kind of source.
    pub fn kind(&self) -> (r: EvidenceSourceKind)
        ensures
            r == source_kind(*self),
    {
        match self {
            EvidenceSource::Agent { .. } => EvidenceSourceKind::Agent,
            EvidenceSource::Experiment { .. } => EvidenceSourceKind::Experiment,
            EvidenceSource::Chaos { .. } => EvidenceSourceKind::Chaos,
            EvidenceSource::RecoveryTrial { .. } => EvidenceSourceKind::RecoveryTrial,
            EvidenceSource::Federation { .. } => EvidenceSourceKind::Federation,
            EvidenceSource::StaticCheck { .. } => EvidenceSourceKind::StaticCheck,
            EvidenceSource::HumanObservation { .. } => EvidenceSourceKind::HumanObservation,
        }
    }

    /// A short label naming the source.
    pub fn label(&self) -> (r: String)
        ensures
            r@ == source_label(*self),
    {
        match self {
            EvidenceSource::Agent { identity } => prefixed("agent:", &identity.kind),
            EvidenceSource::Experiment { experiment_id } => prefixed("experiment:", experiment_id),
            EvidenceSource::Chaos { campaign_id } => prefixed("chaos:", campaign_id),
            EvidenceSource::RecoveryTrial { recovery_id } => prefixed("recovery:", recovery_id),
            EvidenceSource::Federation { node_id } => prefixed("federation:", node_id),
            EvidenceSource::StaticCheck { evaluator } => prefixed("static-check:", evaluator),
            EvidenceSource::HumanObservation { label } => prefixed("human:", label),
        }
    }
}

/// `name@version:Kind`.
pub open spec fn dependency_key_spec(e: EvaluatorIdentity) -> Seq<char> {
    e.name@ + "@"@ + e.version@ + ":"@ + evaluator_kind_name(e.kind)
}

impl EvaluatorIdentity {
    /// The key under which an evaluator counts as a dependency: `name@version:Kind`.
    pub fn dependency_key(&self) -> (r: String)
        ensures
            r@ == dependency_key_spec(*self),
    {
        let mut s = self.name.clone();
        s.append("@");
        s.append(self.version.as_str());
        s.append(":");
        s.append(self.kind.name());
        s
    }
}

impl DiversityClass {
    /// Whether this class is at least `minimum`.
    pub fn satisfies(self, minimum: Self) -> (r: bool)
        ensures
            r == (diversity_class_rank(self) >= diversity_class_rank(minimum)),
    {
        self.rank() >= minimum.rank()
    }
}

// ---------------------------------------------------------------------------
// Copies
// ---------------------------------------------------------------------------

impl DependencyOverlap {
    pub open spec fn same_as(self, other: Self) -> bool {
        self.kind == other.kind && self.shared_value == other.shared_value && self.paths@ == other.paths@
    }

    /// A copy of the overlap.
    pub fn duplicate(&self) -> (r: Self)
        ensures
            r.same_as(*self),
    {
        DependencyOverlap { kind: self.kind, shared_value: self.shared_value.clone(), paths: crate::text::clone_strings(&self.paths) }
    }
}

impl EvidenceDiversityAssessment {
    /// Equal counts, class and lists.
    pub open spec fn same_as(self, other: Self) -> bool {
        &&& self.path_count == other.path_count
        &&& self.source_type_count == other.source_type_count
        &&& self.model_family_count == other.model_family_count
        &&& self.agent_runtime_count == other.agent_runtime_count
        &&& self.retrieval_source_count == other.retrieval_source_count
        &&& self.evaluator_count == other.evaluator_count
        &&& self.environment_count == other.environment_count
        &&& self.dependency_overlaps@.len() == other.dependency_overlaps@.len()
        &&& forall|i: int| 0 <= i < self.dependency_overlaps@.len() ==> (#[trigger] self.dependency_overlaps@[i]).same_as(other.dependency_overlaps@[i])
        &&& self.diversity_class == other.diversity_class
        &&& self.duplicate_fingerprints@.len() == other.duplicate_fingerprints@.len()
        &&& forall|i: int| 0 <= i < self.duplicate_fingerprints@.len() ==>
                (#[trigger] self.duplicate_fingerprints@[i]).0 == other.duplicate_fingerprints@[i].0
                && self.duplicate_fingerprints@[i].1@ == other.duplicate_fingerprints@[i].1@
        &&& self.missing_metadata@ == other.missing_metadata@
        &&& self.caveats@ == other.caveats@
    }

    /// A copy of the assessment.
    pub fn duplicate(&self) -> (r: Self)
        ensures
            r.same_as(*self),
    {
        let mut overlaps: Vec<DependencyOverlap> = Vec::new();
        let mut i: usize = 0;
        while i < self.dependency_overlaps.len()
            invariant
                i <= self.dependency_overlaps@.len(),
                overlaps@.len() == i,
                forall|k: int| 0 <= k < i ==> (#[trigger] overlaps@[k]).same_as(self.dependency_overlaps@[k]),
            decreases self.dependency_overlaps.len() - i,
        {
            overlaps.push(self.dependency_overlaps[i].duplicate());
            i = i + 1;
        }
        let mut prints: Vec<(String, Vec<String>)> = Vec::new();
        let mut j: usize = 0;
        while j < self.duplicate_fingerprints.len()
            invariant
                j <= self.duplicate_fingerprints@.len(),
                prints@.len() == j,
                forall|k: int| 0 <= k < j ==> (#[trigger] prints@[k]).0 == self.duplicate_fingerprints@[k].0
                    && prints@[k].1@ == self.duplicate_fingerprints@[k].1@,
            decreases self.duplicate_fingerprints.len() - j,
        {
            let entry = &self.duplicate_fingerprints[j];
            prints.push((entry.0.clone(), crate::text::clone_strings(&entry.1)));
            j = j + 1;
        }
        EvidenceDiversityAssessment {
            path_count: self.path_count,
            source_type_count: self.source_type_count,
            model_family_count: self.model_family_count,
            agent_runtime_count: self.agent_runtime_count,
            retrieval_source_count: self.retrieval_source_count,
            evaluator_count: self.evaluator_count,
            environment_count: self.environment_count,
            dependency_overlaps: overlaps,
            diversity_class: self.diversity_class,
            duplicate_fingerprints: prints,
            missing_metadata: crate::text::clone_strings(&self.missing_metadata),
            caveats: crate::text::clone_strings(&self.caveats),
        }
    }
}

// ---------------------------------------------------------------------------
// Fusion
// ---------------------------------------------------------------------------

/// Identifiers of the paths with the given outcome, in order.
pub open spec fn ids_with(ps: Seq<EvidencePath>, o: EvidenceOutcome) -> Seq<String>
    decreases ps.len(),
{
    if ps.len() == 0 {
        Seq::empty()
    } else if ps.last().outcome == o {
        ids_with(ps.drop_last(), o).push(ps.last().id)
    } else {
        ids_with(ps.drop_last(), o)
    }
}

fn ids_with_outcome(paths: &Vec<EvidencePath>, outcome: EvidenceOutcome) -> (r: Vec<String>)
    ensures
        r@ == ids_with(paths@, outcome),
{
    let mut r: Vec<String> = Vec::new();
    let mut i: usize = 0;
    while i < paths.len()
        invariant
            i <= paths@.len(),
            r@ == ids_with(paths@.subrange(0, i as int), outcome),
        decreases paths.len() - i,
    {
        proof {
            assert(paths@.subrange(0, i + 1).drop_last() =~= paths@.subrange(0, i as int));
        }
        if paths[i].outcome == outcome {
            r.push(paths[i].id.clone());
        }
        i = i + 1;
    }
    assert(paths@.subrange(0, paths@.len() as int) =~= paths@);
    r
}

/// Disputed when both support and contradiction exist, inconclusive without support,
/// diverse support with high diversity, weak support from a single path, else supported.
pub open spec fn fused_status(support: nat, contradictions: nat, class: DiversityClass) -> FusedEvidenceStatus {
    if support > 0 && contradictions > 0 {
        FusedEvidenceStatus::Disputed
    } else if support == 0 {
        FusedEvidenceStatus::Inconclusive
    } else if class == DiversityClass::High {
        FusedEvidenceStatus::DiverseSupport
    } else if support == 1 {
        FusedEvidenceStatus::WeakSupport
    } else {
        FusedEvidenceStatus::Supported
    }
}

pub open spec fn dispute_caveat() -> Seq<char> {
    "Contradictory evidence is preserved; majority count does not resolve the dispute"@
}

#[derive(Clone, Copy, Debug)]
pub struct DeterministicEvidenceFusionPolicy;

impl DeterministicEvidenceFusionPolicy {
    /// Partitions the paths of one claim by outcome and classifies the support.
    pub fn fuse(&self, claim: &Claim, paths: &Vec<EvidencePath>, diversity: &EvidenceDiversityAssessment)
        -> (r: Result<FusedEvidenceAssessment, crate::error::Error>)
        ensures
            r is Err <==> exists|i: int| 0 <= i < paths@.len() && (#[trigger] paths@[i]).claim.id@ != claim.id@,
            r matches Err(e) ==> e is InvalidInput,
            r matches Ok(f) ==> {
                &&& f.claim == claim.id
                &&& f.support_paths@ == ids_with(paths@, EvidenceOutcome::Supports)
                &&& f.contradiction_paths@ == ids_with(paths@, EvidenceOutcome::Contradicts)
                &&& f.inconclusive_paths@ == ids_with(paths@, EvidenceOutcome::Inconclusive)
                &&& f.diversity.same_as(*diversity)
                &&& f.status == fused_status(f.support_paths@.len(), f.contradiction_paths@.len(), diversity.diversity_class)
                &&& f.caveats@.len() == diversity.caveats@.len() + (if f.status == FusedEvidenceStatus::Disputed { 1int } else { 0int })
                &&& forall|i: int| 0 <= i < diversity.caveats@.len() ==> #[trigger] f.caveats@[i] == diversity.caveats@[i]
                &&& f.status == FusedEvidenceStatus::Disputed ==> f.caveats@.last()@ == dispute_caveat()
            },
    {
        let mut i: usize = 0;
        while i < paths.len()
            invariant
                i <= paths@.len(),
                forall|j: int| 0 <= j < i ==> (#[trigger] paths@[j]).claim.id@ == claim.id@,
            decreases paths.len() - i,
        {
            if !str_eq(paths[i].claim.id.as_str(), claim.id.as_str()) {
                return Err(crate::error::Error::InvalidInput("Cannot fuse evidence paths for another Claim".to_string()));
            }
            i = i + 1;
        }
        let support_paths = ids_with_outcome(paths, EvidenceOutcome::Supports);
        let contradiction_paths = ids_with_outcome(paths, EvidenceOutcome::Contradicts);
        let inconclusive_paths = ids_with_outcome(paths, EvidenceOutcome::Inconclusive);
        let status = if support_paths.len() > 0 && contradiction_paths.len() > 0 {
            FusedEvidenceStatus::Disputed
        } else if support_paths.len() == 0 {
            FusedEvidenceStatus::Inconclusive
        } else if diversity.diversity_class == DiversityClass::High {
            FusedEvidenceStatus::DiverseSupport
        } else if support_paths.len() == 1 {
            FusedEvidenceStatus::WeakSupport
        } else {
            FusedEvidenceStatus::Supported
        };
        let mut caveats = crate::text::clone_strings(&diversity.caveats);
        if status == FusedEvidenceStatus::Disputed {
            caveats.push(String::from_str("Contradictory evidence is preserved; majority count does not resolve the dispute"));
        }
        Ok(FusedEvidenceAssessment {
            claim: claim.id.clone(),
            support_paths,
            contradiction_paths,
            inconclusive_paths,
            diversity: diversity.duplicate(),
            status,
            caveats,
        })
    }
}

// ---------------------------------------------------------------------------
// Gaps
// ---------------------------------------------------------------------------

/// The evidence a claim still lacks, as short descriptions.
pub open spec fn epistemic_gaps_spec(paths: Seq<EvidencePath>, a: EvidenceDiversityAssessment) -> Seq<Seq<char>> {
    let empirical = exists|i: int| 0 <= i < paths.len() && (#[trigger] paths[i]).source is Experiment;
    let g1: Seq<Seq<char>> = if !empirical { seq!["controlled empirical path"@] } else { Seq::empty() };
    let g2: Seq<Seq<char>> = if a.evaluator_count < 2 { seq!["alternative evaluator"@] } else { Seq::empty() };
    let g3: Seq<Seq<char>> = if a.source_type_count < 2 { seq!["second evidence source type"@] } else { Seq::empty() };
    let g4: Seq<Seq<char>> = if a.retrieval_source_count < 2 { seq!["independent or varied retrieval source"@] } else { Seq::empty() };
    g1 + g2 + g3 + g4 + a.missing_metadata@.map_values(|m: String| "missing dependency metadata: "@ + m@)
}

/// What evidence is missing: a controlled experiment, a second evaluator, a second source
/// type, varied retrieval, and each item of missing metadata.
pub fn epistemic_gaps(paths: &Vec<EvidencePath>, assessment: &EvidenceDiversityAssessment) -> (r: Vec<String>)
    ensures
        crate::text::views(r@) == epistemic_gaps_spec(paths@, *assessment),
{
    let mut empirical = false;
    let mut i: usize = 0;
    while i < paths.len()
        invariant
            i <= paths@.len(),
            empirical == exists|j: int| 0 <= j < i && (#[trigger] paths@[j]).source is Experiment,
        decreases paths.len() - i,
    {
        if matches!(paths[i].source, EvidenceSource::Experiment { .. }) {
            empirical = true;
        }
        i = i + 1;
    }
    let mut gaps: Vec<String> = Vec::new();
    let ghost mut expected: Seq<Seq<char>> = Seq::empty();
    if !empirical {
        gaps.push(String::from_str("controlled empirical path"));
        proof { expected = expected.push("controlled empirical path"@); }
    }
    if assessment.evaluator_count < 2 {
        gaps.push(String::from_str("alternative evaluator"));
        proof { expected = expected.push("alternative evaluator"@); }
    }
    if assessment.source_type_count < 2 {
        gaps.push(String::from_str("second evidence source type"));
        proof { expected = expected.push("second evidence source type"@); }
    }
    if assessment.retrieval_source_count < 2 {
        gaps.push(String::from_str("independent or varied retrieval source"));
        proof { expected = expected.push("independent or varied retrieval source"@); }
    }
    assert(crate::text::views(gaps@) =~= expected);
    let ghost head = expected;
    let mut k: usize = 0;
    while k < assessment.missing_metadata.len()
        invariant
            k <= assessment.missing_metadata@.len(),
            crate::text::views(gaps@) =~= head + assessment.missing_metadata@.subrange(0, k as int).map_values(|m: String| "missing dependency metadata: "@ + m@),
        decreases assessment.missing_metadata.len() - k,
    {
        let mut line = String::from_str("missing dependency metadata: ");
        line.append(assessment.missing_metadata[k].as_str());
        let ghost before = gaps@;
        let ghost line_view = line@;
        gaps.push(line);
        proof {
            assert(crate::text::views(gaps@) =~= crate::text::views(before).push(line_view));
            assert(assessment.missing_metadata@.subrange(0, k + 1).map_values(|m: String| "missing dependency metadata: "@ + m@)
                =~= assessment.missing_metadata@.subrange(0, k as int).map_values(|m: String| "missing dependency metadata: "@ + m@)
                    .push("missing dependency metadata: "@ + assessment.missing_metadata@[k as int]@));
        }
        k = k + 1;
    }
    assert(assessment.missing_metadata@.subrange(0, assessment.missing_metadata@.len() as int) =~= assessment.missing_metadata@);
    assert(head =~= epistemic_gaps_spec(paths@, *assessment).subrange(0, head.len() as int));
    assert(crate::text::views(gaps@) =~= epistemic_gaps_spec(paths@, *assessment));
    gaps
}

} // verus!
