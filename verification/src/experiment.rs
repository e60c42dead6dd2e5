//! Counterfactual experiments on lessons: a baseline trial and an alternative trial from one
//! starting state, and what their paired outcomes conclude.
use vstd::prelude::*;
use crate::evaluation::{check_ok, Evaluation, EvaluationSpec};
use crate::experience::{outcome_of, ExperienceContext, Outcome};
use crate::text::{str_eq, views};

verus! {

#[derive(Clone, Copy, Debug, PartialEq, Eq, Structural)]
pub enum ExperimentConclusion {
    SupportsHypothesis,
    ContradictsHypothesis,
    Inconclusive,
}

#[derive(Clone, Copy, Debug, PartialEq, Eq, Structural)]
pub enum ExperimentStatus {
    Running,
    Completed,
    Interrupted,
    Failed,
}

#[derive(Clone, Debug)]
pub enum TrialMutation {
    ReplaceCommand { from: String, to: String },
}

#[derive(Clone, Debug)]
pub struct TrialSpec {
    pub id: String,
    pub name: String,
    pub command: String,
    pub mutations: Vec<TrialMutation>,
    pub evaluation: EvaluationSpec,
}

/// One trial's result; `execution_id` names the recorded execution, `starting_state` the
/// state it started from, and `artifacts` the kept artifacts by path.
#[derive(Clone, Debug)]
pub struct TrialResult {
    pub spec: TrialSpec,
    pub experience_id: String,
    pub reality_id: String,
    pub execution_id: String,
    pub evaluation: Evaluation,
    pub outcome: Outcome,
    pub starting_state: String,
    pub environment_fingerprint: String,
    pub artifacts: Vec<String>,
}

#[derive(Clone, Debug)]
pub struct RetestContext {
    pub goal: String,
    pub context: ExperienceContext,
    pub evaluation: EvaluationSpec,
}

/// A paired plan; `starting_state` names the state both trials start from.
#[derive(Clone, Debug)]
pub struct CounterfactualPlan {
    /// A paired, controlled reconstruction of a native observation, not a replay of its
    /// inherited environment.
    pub external_reconstruction: bool,
    pub starting_state: String,
    pub environment_fingerprint: String,
    pub timeout_secs: u64,
    pub trials: Vec<TrialSpec>,
    pub retest: Option<RetestContext>,
}

/// The trial replays exactly what its evaluation says and its checks are valid.
pub open spec fn trial_consistent(t: TrialResult) -> bool {
    &&& t.outcome == outcome_of(t.evaluation)
    &&& views(t.evaluation.spec.checks@) == views(t.spec.evaluation.checks@)
    &&& forall|i: int| 0 <= i < t.evaluation.spec.checks@.len() ==> check_ok(#[trigger] t.evaluation.spec.checks@[i]@)
}

/// The two trials form a clean pair: a baseline and an alternative from the same start under
/// the same checks, in distinct realities and experiences, the alternative replacing exactly
/// the baseline's command.
pub open spec fn clean_pair(b: TrialResult, a: TrialResult) -> bool {
    &&& b.spec.name@ == "baseline"@
    &&& a.spec.name@ == "alternative"@
    &&& b.starting_state@ == a.starting_state@
    &&& b.environment_fingerprint@ == a.environment_fingerprint@
    &&& views(b.spec.evaluation.checks@) == views(a.spec.evaluation.checks@)
    &&& b.reality_id@ != a.reality_id@
    &&& b.experience_id@ != a.experience_id@
    &&& b.spec.id@ != a.spec.id@
    &&& b.spec.command@ != a.spec.command@
    &&& b.spec.mutations@.len() == 0
    &&& a.spec.mutations@.len() == 1
    &&& (a.spec.mutations@[0] matches TrialMutation::ReplaceCommand { from, to } && from@ == b.spec.command@
        && to@ == a.spec.command@)
    &&& trial_consistent(b)
    &&& trial_consistent(a)
}

pub open spec fn conclusion_of(trials: Seq<TrialResult>) -> ExperimentConclusion {
    if trials.len() != 2 || !clean_pair(trials[0], trials[1]) {
        ExperimentConclusion::Inconclusive
    } else if trials[0].outcome == Outcome::Failure && trials[1].outcome == Outcome::Success {
        ExperimentConclusion::SupportsHypothesis
    } else if trials[0].outcome == Outcome::Success && trials[1].outcome == Outcome::Failure {
        ExperimentConclusion::ContradictsHypothesis
    } else {
        ExperimentConclusion::Inconclusive
    }
}

/// Concludes from exactly two paired trials: a failing baseline and a succeeding alternative
/// support the hypothesis, the reverse contradicts it, and anything else is inconclusive.
pub struct PairedComparison;

fn trial_consistent_exec(t: &TrialResult) -> (r: bool)
    ensures
        r == trial_consistent(*t),
{
    Outcome::from_evaluation(&t.evaluation) == t.outcome && t.evaluation.spec.same_checks(&t.spec.evaluation)
        && t.evaluation.spec.validate().is_ok()
}

impl PairedComparison {
    pub fn conclude(&self, trials: &Vec<TrialResult>) -> (r: ExperimentConclusion)
        ensures
            r == conclusion_of(trials@),
    {
        if trials.len() != 2 {
            return ExperimentConclusion::Inconclusive;
        }
        let b = &trials[0];
        let a = &trials[1];
        let replaces = a.spec.mutations.len() == 1 && match &a.spec.mutations[0] {
            TrialMutation::ReplaceCommand { from, to } => str_eq(from.as_str(), b.spec.command.as_str()) && str_eq(
                to.as_str(),
                a.spec.command.as_str(),
            ),
        };
        let clean = str_eq(b.spec.name.as_str(), "baseline") && str_eq(a.spec.name.as_str(), "alternative")
            && str_eq(b.starting_state.as_str(), a.starting_state.as_str())
            && str_eq(b.environment_fingerprint.as_str(), a.environment_fingerprint.as_str())
            && b.spec.evaluation.same_checks(&a.spec.evaluation) && !str_eq(b.reality_id.as_str(), a.reality_id.as_str())
            && !str_eq(b.experience_id.as_str(), a.experience_id.as_str()) && !str_eq(b.spec.id.as_str(), a.spec.id.as_str())
            && !str_eq(b.spec.command.as_str(), a.spec.command.as_str()) && b.spec.mutations.len() == 0 && replaces
            && trial_consistent_exec(b) && trial_consistent_exec(a);
        if !clean {
            return ExperimentConclusion::Inconclusive;
        }
        if b.outcome == Outcome::Failure && a.outcome == Outcome::Success {
            ExperimentConclusion::SupportsHypothesis
        } else if b.outcome == Outcome::Success && a.outcome == Outcome::Failure {
            ExperimentConclusion::ContradictsHypothesis
        } else {
            ExperimentConclusion::Inconclusive
        }
    }
}

/// A paired experiment supports the hypothesis only when the baseline failed and the
/// alternative succeeded, and contradicts it only when the baseline succeeded and the
/// alternative failed; two trials with the same outcome never decide it. On a clean pair the
/// opposite outcomes do decide it.
pub proof fn lemma_conclusion_follows_outcomes(trials: Seq<TrialResult>)
    ensures
        conclusion_of(trials) == ExperimentConclusion::SupportsHypothesis ==> trials.len() == 2
            && trials[0].outcome == Outcome::Failure && trials[1].outcome == Outcome::Success,
        conclusion_of(trials) == ExperimentConclusion::ContradictsHypothesis ==> trials.len() == 2
            && trials[0].outcome == Outcome::Success && trials[1].outcome == Outcome::Failure,
        trials.len() == 2 && trials[0].outcome == trials[1].outcome ==> conclusion_of(trials)
            == ExperimentConclusion::Inconclusive,
        trials.len() == 2 && clean_pair(trials[0], trials[1]) && trials[0].outcome == Outcome::Failure
            && trials[1].outcome == Outcome::Success ==> conclusion_of(trials) == ExperimentConclusion::SupportsHypothesis,
        trials.len() == 2 && clean_pair(trials[0], trials[1]) && trials[0].outcome == Outcome::Success
            && trials[1].outcome == Outcome::Failure ==> conclusion_of(trials) == ExperimentConclusion::ContradictsHypothesis,
        !(trials.len() == 2 && clean_pair(trials[0], trials[1])) ==> conclusion_of(trials) == ExperimentConclusion::Inconclusive,
{
}

} // verus!
