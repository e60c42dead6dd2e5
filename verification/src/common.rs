//! Vocabulary shared by the planning, effect and experiment modules.
use vstd::prelude::*;
use crate::effects::EffectRisk;

verus! {

/// How bad a failure is, from informational to critical.
#[derive(Clone, Copy, Debug, PartialEq, Eq, Structural, PartialOrd, Ord)]
pub enum Severity {
    Informational,
    Low,
    Medium,
    High,
    Critical,
}

pub open spec fn severity_rank(s: Severity) -> u8 {
    match s {
        Severity::Informational => 0,
        Severity::Low => 1,
        Severity::Medium => 2,
        Severity::High => 3,
        Severity::Critical => 4,
    }
}

impl Severity {
    /// Position of the severity in its total order.
    pub fn rank(&self) -> (r: u8)
        ensures
            r == severity_rank(*self),
    {
        match self {
            Severity::Informational => 0,
            Severity::Low => 1,
            Severity::Medium => 2,
            Severity::High => 3,
            Severity::Critical => 4,
        }
    }
}

/// Whether a trial can be run safely at all.
#[derive(Clone, Copy, Debug, PartialEq, Eq, Structural)]
pub enum TrialSafety {
    Safe,
    Unsupported,
}

/// How strongly a resource must be isolated for a trial.
#[derive(Clone, Copy, Debug, PartialEq, Eq, Structural)]
pub enum IsolationLevel {
    Unisolated,
    Required,
}

/// The isolation a reality must offer before a trial may run in it.
#[derive(Clone, Copy, Debug, PartialEq, Eq, Structural)]
pub struct RealityRequirements {
    pub filesystem_isolation: IsolationLevel,
    pub process_isolation: IsolationLevel,
    pub network_isolation: IsolationLevel,
    pub credential_isolation: IsolationLevel,
    pub effect_gating: bool,
}

/// Limits on the experience a planner may acquire.
#[derive(Clone, Copy, Debug, PartialEq, Eq, Structural)]
pub struct ExperienceBudget {
    pub max_realities: usize,
    pub max_curriculum_trials: Option<usize>,
    pub max_agent_runs: usize,
    pub max_duration_ms: Option<u64>,
    pub max_human_approvals: Option<usize>,
    pub max_parallel_trials: Option<usize>,
    pub max_commands_per_reality: Option<usize>,
    pub allowed_effect_risk: EffectRisk,
}

impl ExperienceBudget {
    pub open spec fn max_trials_spec(&self) -> usize {
        match self.max_curriculum_trials {
            Some(n) => n,
            None => self.max_realities,
        }
    }

    /// Trials the budget admits: the curriculum limit where one is set, else the reality limit.
    pub fn max_trials(&self) -> (r: usize)
        ensures
            r == self.max_trials_spec(),
    {
        match self.max_curriculum_trials {
            Some(n) => n,
            None => self.max_realities,
        }
    }
}

impl Default for ExperienceBudget {
    fn default() -> (r: Self)
        ensures
            r.max_realities == 3,
            r.max_curriculum_trials is None,
            r.max_agent_runs == 3,
            r.max_duration_ms == Some(300_000u64),
            r.max_human_approvals is None,
            r.max_parallel_trials is None,
            r.max_commands_per_reality is None,
            r.allowed_effect_risk == EffectRisk::ReadOnly,
    {
        ExperienceBudget {
            max_realities: 3,
            max_curriculum_trials: None,
            max_agent_runs: 3,
            max_duration_ms: Some(300_000),
            max_human_approvals: None,
            max_parallel_trials: None,
            max_commands_per_reality: None,
            allowed_effect_risk: EffectRisk::ReadOnly,
        }
    }
}

/// The goal a curriculum pursues for a target.
#[derive(Clone, Copy, Debug, PartialEq, Eq, Structural)]
pub enum CurriculumGoalKind {
    ValidateSkill,
    ValidateReflex,
    RevalidateOldExperience,
    IncreaseEvidenceDiversity,
    SatisfyAssuranceRequirement,
    ValidateEarlyWarning,
    ValidatePreventiveIntervention,
    DiscoverEarlyWarning,
    ReduceForecastFalsePositives,
    ResolveContradiction,
    ChallengeAbstraction,
    FindGeneralizationBoundary,
}

/// How a supervised process ended.
#[derive(Clone, Copy, Debug, PartialEq, Eq, Structural)]
pub enum ProcessStatus {
    Succeeded,
    Failed,
    Interrupted,
    TimedOut,
}

} // verus!
