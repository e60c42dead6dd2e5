//! The decisions an experiment run makes around the work it hands out: whether a stored
//! experiment may start, whether the starting state and capacity allow it, how many
//! candidates run at once, how much weight the evidence carries, which prepared effects
//! survive, and the status the run ends in. Creating realities, running agents and writing
//! the store are left to the caller.
use vstd::prelude::*;
use crate::error::Error;
use crate::experimentation::{ExperimentOrigin, ExperimentPhase, ExperimentQuality, ExperimentStatus};
use crate::text::str_eq;

verus! {

pub open spec fn interrupted_message() -> Seq<char> {
    "Experiment was interrupted; use replay to create new evidence, not resume"@
}

/// Whether an experiment in status `s` runs now: a finished experiment is handed back as it
/// is (`Ok(false)`), an accepted one starts (`Ok(true)`), and a running one, found running
/// after an interruption, is refused: it is never resumed or replayed in place.
pub fn resume_decision(s: ExperimentStatus) -> (r: Result<bool, Error>)
    ensures
        s == ExperimentStatus::Running <==> r is Err,
        r matches Err(e) ==> e is InvalidInput && e.message_spec() == interrupted_message(),
        r matches Ok(start) ==> start == (s == ExperimentStatus::Accepted),
{
    if s.terminal() {
        Ok(false)
    } else if s == ExperimentStatus::Running {
        Err(Error::InvalidInput(String::from_str("Experiment was interrupted; use replay to create new evidence, not resume")))
    } else {
        Ok(true)
    }
}

pub open spec fn final_status_spec(
    cancel_reason: bool,
    cancelled: bool,
    failed: bool,
    candidates_empty: bool,
    scheduled: bool,
) -> ExperimentStatus {
    if cancel_reason || (cancelled && !failed) {
        ExperimentStatus::Cancelled
    } else if failed {
        if candidates_empty && !scheduled {
            ExperimentStatus::Rejected
        } else {
            ExperimentStatus::Failed
        }
    } else {
        ExperimentStatus::Completed
    }
}

/// The status a run ends in: cancelled when a cancellation reason was recorded or the run was
/// cancelled without failing; otherwise, after a failure, rejected when no candidate result
/// exists and no execution was scheduled, else failed; otherwise completed.
pub fn experiment_final_status(
    cancel_reason: &Option<String>,
    cancelled: bool,
    failure: &Option<String>,
    candidates_empty: bool,
    scheduled: bool,
) -> (r: ExperimentStatus)
    ensures
        r == final_status_spec(cancel_reason is Some, cancelled, failure is Some, candidates_empty, scheduled),
{
    if cancel_reason.is_some() || (cancelled && failure.is_none()) {
        ExperimentStatus::Cancelled
    } else if failure.is_some() {
        if candidates_empty && !scheduled {
            ExperimentStatus::Rejected
        } else {
            ExperimentStatus::Failed
        }
    } else {
        ExperimentStatus::Completed
    }
}

/// The failure recorded for a cancelled run: its cancellation reason, or that it was
/// cancelled before execution.
pub fn cancellation_failure(cancel_reason: Option<String>) -> (r: String)
    ensures
        cancel_reason matches Some(m) ==> r@ == m@,
        cancel_reason is None ==> r@ == "Cancelled before execution"@,
{
    match cancel_reason {
        Some(m) => m,
        None => String::from_str("Cancelled before execution"),
    }
}

pub open spec fn drift_message() -> Seq<char> {
    "Experiment refused: candidate realities cannot be created from equivalent state (starting fingerprint drift)"@
}

/// Refuses a run whose expected starting fingerprint, where one is given, differs from the
/// state actually captured.
pub fn check_starting_fingerprint(expected: &Option<String>, actual: &str) -> (r: Result<(), Error>)
    ensures
        r is Err <==> (expected matches Some(x) && x@ != actual@),
        r matches Err(e) ==> e is InvalidInput && e.message_spec() == drift_message(),
{
    match expected {
        Some(x) => {
            if !str_eq(x.as_str(), actual) {
                return Err(Error::InvalidInput(
                    String::from_str(
                        "Experiment refused: candidate realities cannot be created from equivalent state (starting fingerprint drift)",
                    ),
                ));
            }
            Ok(())
        },
        None => Ok(()),
    }
}

pub open spec fn capacity_message() -> Seq<char> {
    "Provider capacity exhausted; no candidate Reality was created"@
}

/// Refuses a run that could not lease one provider slot per candidate.
pub fn check_capacity(leased: usize, candidates: usize) -> (r: Result<(), Error>)
    ensures
        r is Err <==> leased < candidates,
        r matches Err(e) ==> e is InvalidInput && e.message_spec() == capacity_message(),
{
    if leased < candidates {
        Err(Error::InvalidInput(String::from_str("Provider capacity exhausted; no candidate Reality was created")))
    } else {
        Ok(())
    }
}

/// How many candidates run at once: agent-requested experiments are also bounded by the
/// agent request limit.
pub fn execution_parallelism(origin: ExperimentOrigin, max_parallel_realities: usize, agent_max_parallel: usize) -> (r: usize)
    ensures
        r == if origin == ExperimentOrigin::Agent {
            if max_parallel_realities <= agent_max_parallel {
                max_parallel_realities
            } else {
                agent_max_parallel
            }
        } else {
            max_parallel_realities
        },
{
    if origin == ExperimentOrigin::Agent {
        if max_parallel_realities <= agent_max_parallel {
            max_parallel_realities
        } else {
            agent_max_parallel
        }
    } else {
        max_parallel_realities
    }
}

pub open spec fn evidence_weight_spec(q: ExperimentQuality) -> Seq<char> {
    match q {
        ExperimentQuality::Controlled => "controlled single-state observation; replication required"@,
        ExperimentQuality::PartiallyControlled => "partial control; native settings/model/host state unverified"@,
        ExperimentQuality::Confounded => "confounded observation only; no causal strategy attribution"@,
        ExperimentQuality::Invalid => "invalid"@,
    }
}

/// The weight a comparison's evidence carries, by the experiment's control.
pub fn evidence_weight(q: ExperimentQuality) -> (r: &'static str)
    ensures
        r@ == evidence_weight_spec(q),
{
    match q {
        ExperimentQuality::Controlled => "controlled single-state observation; replication required",
        ExperimentQuality::PartiallyControlled => "partial control; native settings/model/host state unverified",
        ExperimentQuality::Confounded => "confounded observation only; no causal strategy attribution",
        ExperimentQuality::Invalid => "invalid",
    }
}

/// A comparison is incomplete, and recommends nothing, when a requested candidate has no
/// result or the run was cancelled.
pub fn comparison_incomplete(results: usize, requested: usize, cancelled: bool) -> (r: bool)
    ensures
        r == (results != requested || cancelled),
{
    results != requested || cancelled
}

/// A candidate's prepared effects are kept only when it succeeded and is the recommended
/// one; all others are discarded.
pub fn keeps_prepared_effects(success: bool, recommendation: &Option<String>, candidate: &str) -> (r: bool)
    ensures
        r == (success && (recommendation matches Some(x) && x@ == candidate@)),
{
    match recommendation {
        Some(x) => success && str_eq(x.as_str(), candidate),
        None => false,
    }
}

/// Candidate lessons are drawn only from a completed, controlled comparison.
pub fn reflects(status: ExperimentStatus, quality: ExperimentQuality) -> (r: bool)
    ensures
        r == (status == ExperimentStatus::Completed && quality == ExperimentQuality::Controlled),
{
    status == ExperimentStatus::Completed && quality == ExperimentQuality::Controlled
}

/// The phase recorded when a run ends.
pub fn final_phase(status: ExperimentStatus) -> (r: ExperimentPhase)
    ensures
        r == if status == ExperimentStatus::Cancelled {
            ExperimentPhase::Cancelled
        } else {
            ExperimentPhase::Completed
        },
{
    if status == ExperimentStatus::Cancelled {
        ExperimentPhase::Cancelled
    } else {
        ExperimentPhase::Completed
    }
}

/// A run ends completed exactly when it was neither cancelled nor failed, and a recorded
/// cancellation reason always ends it cancelled.
pub proof fn lemma_final_status_exclusive(cancel_reason: bool, cancelled: bool, failed: bool, candidates_empty: bool, scheduled: bool)
    ensures
        final_status_spec(cancel_reason, cancelled, failed, candidates_empty, scheduled) == ExperimentStatus::Completed
            <==> (!cancel_reason && !cancelled && !failed),
        cancel_reason ==> final_status_spec(cancel_reason, cancelled, failed, candidates_empty, scheduled)
            == ExperimentStatus::Cancelled,
{
}

} // verus!
