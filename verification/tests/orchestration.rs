use hardknock::error::Error;
use hardknock::experimentation::orchestration::{
    cancellation_failure, check_capacity, check_starting_fingerprint, comparison_incomplete, evidence_weight,
    execution_parallelism, experiment_final_status, final_phase, keeps_prepared_effects, reflects, resume_decision,
};
use hardknock::experimentation::{ExperimentOrigin, ExperimentPhase, ExperimentQuality, ExperimentStatus};

#[test]
fn running_experiments_are_never_resumed() {
    match resume_decision(ExperimentStatus::Running) {
        Err(Error::InvalidInput(m)) => assert_eq!(m, "Experiment was interrupted; use replay to create new evidence, not resume"),
        other => panic!("unexpected {:?}", other),
    }
    assert_eq!(resume_decision(ExperimentStatus::Accepted).unwrap(), true);
    assert_eq!(resume_decision(ExperimentStatus::Completed).unwrap(), false);
    assert_eq!(resume_decision(ExperimentStatus::Failed).unwrap(), false);
}

#[test]
fn final_status_follows_cancellation_then_failure() {
    let reason = Some("Explicit experiment cancellation".to_string());
    let failure = Some("boom".to_string());
    assert_eq!(experiment_final_status(&reason, true, &None, false, true), ExperimentStatus::Cancelled);
    assert_eq!(experiment_final_status(&None, true, &None, false, true), ExperimentStatus::Cancelled);
    assert_eq!(experiment_final_status(&None, true, &failure, true, false), ExperimentStatus::Rejected);
    assert_eq!(experiment_final_status(&None, false, &failure, false, false), ExperimentStatus::Failed);
    assert_eq!(experiment_final_status(&None, false, &failure, true, true), ExperimentStatus::Failed);
    assert_eq!(experiment_final_status(&None, false, &None, true, false), ExperimentStatus::Completed);
    assert_eq!(cancellation_failure(None), "Cancelled before execution");
    assert_eq!(cancellation_failure(reason), "Explicit experiment cancellation");
    assert_eq!(final_phase(ExperimentStatus::Cancelled), ExperimentPhase::Cancelled);
    assert_eq!(final_phase(ExperimentStatus::Failed), ExperimentPhase::Completed);
}

#[test]
fn preparation_refuses_drift_and_missing_capacity() {
    assert!(check_starting_fingerprint(&None, "abc").is_ok());
    assert!(check_starting_fingerprint(&Some("abc".to_string()), "abc").is_ok());
    assert!(matches!(check_starting_fingerprint(&Some("abc".to_string()), "abd"), Err(Error::InvalidInput(_))));
    assert!(check_capacity(2, 2).is_ok());
    assert!(matches!(check_capacity(1, 2), Err(Error::InvalidInput(_))));
}

#[test]
fn parallelism_weight_and_selection() {
    assert_eq!(execution_parallelism(ExperimentOrigin::Agent, 4, 2), 2);
    assert_eq!(execution_parallelism(ExperimentOrigin::Agent, 1, 2), 1);
    assert_eq!(execution_parallelism(ExperimentOrigin::User, 4, 2), 4);
    assert_eq!(evidence_weight(ExperimentQuality::Confounded), "confounded observation only; no causal strategy attribution");
    assert_eq!(evidence_weight(ExperimentQuality::Invalid), "invalid");
    assert!(comparison_incomplete(1, 2, false));
    assert!(comparison_incomplete(2, 2, true));
    assert!(!comparison_incomplete(2, 2, false));
    let rec = Some("c1".to_string());
    assert!(keeps_prepared_effects(true, &rec, "c1"));
    assert!(!keeps_prepared_effects(false, &rec, "c1"));
    assert!(!keeps_prepared_effects(true, &rec, "c2"));
    assert!(!keeps_prepared_effects(true, &None, "c1"));
    assert!(reflects(ExperimentStatus::Completed, ExperimentQuality::Controlled));
    assert!(!reflects(ExperimentStatus::Completed, ExperimentQuality::Confounded));
}
