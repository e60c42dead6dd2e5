//! Explicit, deterministic operational knowledge: maturity, scopes, hierarchies of knowledge
//! and the resolution of what applies in a context.
use vstd::prelude::*;
use crate::epistemic::{EvidenceRef, ExperienceActivationState};
use crate::hierarchy::scope::{KnowledgeApplicability, KnowledgeScope};

pub mod scope;
pub mod relation;
pub mod validation;
pub mod resolution;

verus! {

/// How far a piece of knowledge has progressed; the first four stages are ordered support
/// stages, the others are terminal or degraded states.
#[derive(Clone, Copy, Debug, PartialEq, Eq, Structural)]
pub enum KnowledgeMaturity {
    Candidate,
    TransferTestable,
    Supported,
    Validated,
    Contradicted,
    Retired,
    Stale,
    Overgeneralized,
}

/// The abstract kinds of knowledge, each refining a concrete kind.
#[derive(Clone, Copy, Debug, PartialEq, Eq, Structural)]
pub enum AbstractKnowledgeKind {
    AbstractLesson,
    AbstractSkill,
    AbstractConstraint,
    AbstractAntiPattern,
    AbstractRecovery,
}

/// The kind of a knowledge artifact.
#[derive(Clone, Copy, Debug, PartialEq, Eq, Structural)]
pub enum KnowledgeArtifactKind {
    Lesson,
    Skill,
    Constraint,
    AntiPattern,
    Recovery,
    AbstractKnowledge(AbstractKnowledgeKind),
}

/// Whether knowledge is known to be current.
#[derive(Clone, Copy, Debug, PartialEq, Eq, Structural)]
pub enum FreshnessStatus {
    Fresh,
    Stale,
    Contradicted,
    Unknown,
}

/// A revision of a knowledge artifact.
#[derive(Debug)]
pub struct KnowledgeArtifactRef {
    pub kind: KnowledgeArtifactKind,
    pub id: String,
    pub revision: u64,
}

/// The evidence a piece of knowledge rests on.
#[derive(Debug)]
pub struct KnowledgeProvenance {
    pub evidence: Vec<EvidenceRef>,
}

#[derive(Debug)]
pub struct KnowledgeHierarchyNode {
    pub id: String,
    pub artifact: KnowledgeArtifactRef,
    pub scope: KnowledgeScope,
    pub maturity: KnowledgeMaturity,
    pub freshness: FreshnessStatus,
    pub activation: ExperienceActivationState,
    pub provenance: KnowledgeProvenance,
}

#[derive(Clone, Copy, Debug, PartialEq, Eq, Structural)]
pub enum KnowledgeHierarchyRelation {
    /// Narrower child becomes primary; parent remains supporting context.
    Specializes,
    /// Child adds independent detail; both remain effective.
    Refines,
    /// Supported child changes the parent directive within an overlapping scope.
    Excepts,
    /// Explicit replacement: parent is old, child is new. Time alone has no effect.
    Supersedes,
    /// Child depends on parent's health; never establishes inheritance precedence.
    DependsOn,
}

#[derive(Debug)]
pub struct KnowledgeHierarchyEdge {
    pub id: String,
    pub parent: String,
    pub child: String,
    pub relation: KnowledgeHierarchyRelation,
    pub evidence: Vec<EvidenceRef>,
    /// Unix milliseconds.
    pub created_at: i64,
}

/// A hierarchy of knowledge. `nodes` is a map from node key to node: its keys strictly
/// increase in byte order.
#[derive(Debug)]
pub struct KnowledgeHierarchy {
    pub id: String,
    pub name: String,
    pub root_nodes: Vec<String>,
    pub nodes: Vec<(String, KnowledgeHierarchyNode)>,
    pub edges: Vec<KnowledgeHierarchyEdge>,
    pub revision: u64,
    /// Unix milliseconds.
    pub created_at: i64,
    /// Unix milliseconds.
    pub updated_at: i64,
}

/// The byte text of a node key.
pub open spec fn key_bytes(k: Seq<char>) -> Seq<u8> {
    vstd::utf8::encode_utf8(k)
}

impl KnowledgeHierarchy {
    /// The node map is a map: keys strictly increase.
    pub open spec fn wf(&self) -> bool {
        forall|a: int, b: int|
            0 <= a < b < self.nodes@.len() ==> crate::text::bytes_lt(
                key_bytes((#[trigger] self.nodes@[a]).0@),
                key_bytes((#[trigger] self.nodes@[b]).0@),
            )
    }
}

#[derive(Debug)]
pub struct KnowledgeResolutionPolicy {
    pub minimum_primary_maturity: KnowledgeMaturity,
    pub allow_stale_advisory: bool,
    pub allow_candidate_advisory: bool,
    /// Reserved for compatibility; stale exceptions never override.
    pub stale_exception_can_override: bool,
}

impl Default for KnowledgeResolutionPolicy {
    fn default() -> (r: Self)
        ensures
            r.minimum_primary_maturity == KnowledgeMaturity::Validated,
            r.allow_stale_advisory,
            r.allow_candidate_advisory,
            !r.stale_exception_can_override,
    {
        KnowledgeResolutionPolicy {
            minimum_primary_maturity: KnowledgeMaturity::Validated,
            allow_stale_advisory: true,
            allow_candidate_advisory: true,
            stale_exception_can_override: false,
        }
    }
}

#[derive(Clone, Copy, Debug, PartialEq, Eq, Structural)]
pub enum AppliedKnowledgeRole {
    Primary,
    Refinement,
    Exception,
    SupportingContext,
}

#[derive(Debug)]
pub struct AppliedKnowledge {
    pub artifact: KnowledgeArtifactRef,
    pub node: String,
    pub role: AppliedKnowledgeRole,
    pub applicability: KnowledgeApplicability,
    pub lineage: Vec<String>,
}

#[derive(Clone, Copy, Debug, PartialEq, Eq, Structural)]
pub enum SuppressionReason {
    ExplicitException,
    MoreSpecificSpecialization,
    Superseded,
    StaleOverride,
    Contradicted,
    Inactive,
    Inapplicable,
}

#[derive(Debug)]
pub struct SuppressedKnowledge {
    pub artifact: KnowledgeArtifactRef,
    pub node: String,
    pub reason: SuppressionReason,
    pub suppressed_by: Option<String>,
}

#[derive(Clone, Copy, Debug, PartialEq, Eq, Structural)]
pub enum UnknownKnowledgeReason {
    MissingContext,
    UnsupportedPredicate,
    IncompleteScopeMatch,
    FreshnessUnknown,
    EvidenceStateUnknown,
}

#[derive(Debug)]
pub struct UnknownKnowledge {
    pub artifact: KnowledgeArtifactRef,
    pub node: String,
    pub reason: UnknownKnowledgeReason,
}

#[derive(Clone, Copy, Debug, PartialEq, Eq, Structural)]
pub enum KnowledgeConflictKind {
    CompetingExceptions,
    CompetingSpecializations,
    ContradictoryGuidance,
    AmbiguousSupersession,
    ScopeOverlap,
}

#[derive(Debug)]
pub struct KnowledgeConflict {
    pub artifacts: Vec<KnowledgeArtifactRef>,
    pub nodes: Vec<String>,
    pub kind: KnowledgeConflictKind,
    pub reason: String,
}

#[derive(Clone, Copy, Debug, PartialEq, Eq, Structural)]
pub enum ResolutionAction {
    CandidateFound,
    ScopeMatched,
    ScopeRejected,
    ScopeUnknown,
    LifecycleRejected,
    Applied,
    AppliedAsRefinement,
    AppliedAsException,
    Suppressed,
    Superseded,
    ConflictRaised,
}

#[derive(Debug)]
pub struct KnowledgeResolutionStep {
    pub sequence: u64,
    pub node: String,
    pub action: ResolutionAction,
    pub reason: String,
}

/// What applies: authoritative knowledge, advisory knowledge (visible, never authoritative),
/// and what was suppressed, left unknown or found in conflict, with a trace of every step.
#[derive(Debug)]
pub struct EffectiveKnowledge {
    pub applied: Vec<AppliedKnowledge>,
    pub advisory: Vec<AppliedKnowledge>,
    pub suppressed: Vec<SuppressedKnowledge>,
    pub unknown: Vec<UnknownKnowledge>,
    pub conflicts: Vec<KnowledgeConflict>,
    pub trace: Vec<KnowledgeResolutionStep>,
}

} // verus!
