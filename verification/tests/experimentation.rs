use hardknock::common::{ExperienceBudget, ProcessStatus};
use hardknock::effects::EffectRisk;
use hardknock::epistemic::AgentIdentity;
use hardknock::error::Error;
use hardknock::evaluation::{CheckResult, CheckStatus, Evaluation, EvaluationSpec, EvaluationStatus};
use hardknock::experimentation::admission::{effective_budget, screen_texts, validate_scope, validate_shape};
use hardknock::experimentation::comparison::EvaluatorSuccessFirst;
use hardknock::experimentation::{
    classify_quality, summarize_diff, AgentRequestsConfig, CandidateExecution, CandidateResult, ComparisonCriteria,
    DiffSummary, ExperienceBudgetConfig, ExperimentCandidate, ExperimentCapabilities, ExperimentIntent,
    ExperimentOrigin, ExperimentQuality, ExperimentRequest, ExperimentStartingState, ExperimentVariable,
    ExperimentsConfig, SnapshotSource,
};

fn s(v: &str) -> String {
    v.to_string()
}

fn evaluation(success: bool, failed: usize) -> Evaluation {
    let mut checks = Vec::new();
    for i in 0..failed {
        checks.push(CheckResult { name: format!("c{i}"), command: s("false"), status: CheckStatus::Failed, action: None });
    }
    checks.push(CheckResult { name: s("ok"), command: s("true"), status: CheckStatus::Passed, action: None });
    Evaluation {
        id: s("eval"),
        spec: EvaluationSpec { checks: vec![s("cargo test")] },
        status: EvaluationStatus::Completed,
        success,
        checks,
        summary: if success { s("all passed") } else { s("some failed") },
    }
}

fn candidate(id: &str, success: bool, failed: usize, duration_ms: u64) -> CandidateResult {
    CandidateResult {
        candidate_id: s(id),
        name: format!("name-{id}"),
        reality_id: s("r"),
        experience_id: s("e"),
        execution_status: ProcessStatus::Succeeded,
        evaluation: evaluation(success, failed),
        diff_summary: Some(DiffSummary { files_changed: 1, insertions: 3, deletions: 1, binary_files: 0 }),
        duration_ms,
        artifacts: Vec::new(),
        starting_fingerprint: s("fp"),
        agent: AgentIdentity { kind: s("codex") },
    }
}

fn criteria() -> ComparisonCriteria {
    ComparisonCriteria { require_success: true, minimize_duration: false, minimize_diff_size: false, custom_checks: Vec::new() }
}

#[test]
fn compare_needs_two_complete_candidates() {
    let c = EvaluatorSuccessFirst(criteria()).compare(&[candidate("a", true, 0, 1)]).unwrap();
    assert!(c.recommendation.is_none());
    assert_eq!(c.reasons, vec![s("Fewer than two complete, evaluated candidates; no comparative recommendation")]);
    assert_eq!(c.evidence_weight, "inconclusive");
    assert_eq!(c.policy, "evaluator-success-first");
}

#[test]
fn compare_recommends_the_successful_candidate() {
    let cands = [candidate("a", false, 2, 1), candidate("b", true, 0, 5)];
    let c = EvaluatorSuccessFirst(criteria()).compare(&cands).unwrap();
    assert_eq!(c.recommendation, Some(s("b")));
    assert_eq!(c.evidence_weight, "single-trial observation");
    assert_eq!(
        c.reasons,
        vec![
            s("name-b ranked first under the configured criteria in this starting state: all passed"),
            s("name-a: some failed"),
            s("name-b: all passed"),
        ]
    );
}

#[test]
fn compare_does_not_break_ties_by_order() {
    let cands = [candidate("a", true, 0, 1), candidate("b", true, 0, 9)];
    let c = EvaluatorSuccessFirst(criteria()).compare(&cands).unwrap();
    assert!(c.recommendation.is_none());
    assert_eq!(c.reasons[0], "No definitive winner under the configured criteria; ties are not broken by candidate order");
    let mut timed = criteria();
    timed.minimize_duration = true;
    let c = EvaluatorSuccessFirst(timed).compare(&cands).unwrap();
    assert_eq!(c.recommendation, Some(s("a")));
    assert_eq!(c.reasons[1], "Observed duration was an explicitly enabled secondary criterion; timing is noisy");
}

#[test]
fn compare_gives_the_same_recommendation_in_any_order() {
    let forward = [candidate("a", false, 2, 1), candidate("b", true, 0, 5), candidate("c", true, 1, 3)];
    let backward = [candidate("c", true, 1, 3), candidate("b", true, 0, 5), candidate("a", false, 2, 1)];
    let f = EvaluatorSuccessFirst(criteria()).compare(&forward).unwrap();
    let b = EvaluatorSuccessFirst(criteria()).compare(&backward).unwrap();
    assert_eq!(f.recommendation, Some(s("b")));
    assert_eq!(b.recommendation, Some(s("b")));
    let tied_forward = [candidate("a", true, 0, 1), candidate("b", true, 0, 9), candidate("c", false, 1, 2)];
    let tied_backward = [candidate("c", false, 1, 2), candidate("b", true, 0, 9), candidate("a", true, 0, 1)];
    assert!(EvaluatorSuccessFirst(criteria()).compare(&tied_forward).unwrap().recommendation.is_none());
    assert!(EvaluatorSuccessFirst(criteria()).compare(&tied_backward).unwrap().recommendation.is_none());
}

#[test]
fn compare_refuses_different_starting_states_and_invalid_checks() {
    let mut other = candidate("b", true, 0, 1);
    other.starting_fingerprint = s("elsewhere");
    let c = EvaluatorSuccessFirst(criteria()).compare(&[candidate("a", true, 0, 1), other]).unwrap();
    assert_eq!(c.reasons, vec![s("Starting fingerprints or evaluator specifications differ; comparison refused")]);
    let mut bad = candidate("b", true, 0, 1);
    bad.evaluation.spec.checks = vec![s("   ")];
    let r = EvaluatorSuccessFirst(criteria()).compare(&[candidate("a", true, 0, 1), bad]);
    assert!(matches!(r, Err(Error::InvalidInput(_))));
}

#[test]
fn compare_reports_an_unusable_diff_criterion_and_no_success() {
    let mut crit = criteria();
    crit.minimize_diff_size = true;
    let mut binary = candidate("b", false, 1, 1);
    binary.diff_summary = Some(DiffSummary { files_changed: 1, insertions: 0, deletions: 0, binary_files: 1 });
    let c = EvaluatorSuccessFirst(crit).compare(&[candidate("a", false, 2, 1), binary]).unwrap();
    assert!(c.recommendation.is_none());
    assert_eq!(c.reasons[0], "Diff-size criterion unavailable for missing or binary diffs; it was not used");
    assert_eq!(c.reasons[1], "No candidate passed all required checks");
    assert_eq!(c.reasons.len(), 4);
}

fn request(candidates: Vec<ExperimentCandidate>) -> ExperimentRequest {
    ExperimentRequest {
        id: s("req"),
        session_id: s("session"),
        question: s("Which fix is better?"),
        hypothesis: None,
        candidates,
        starting_state: ExperimentStartingState {
            state_ref: s("HEAD"),
            expected_fingerprint: None,
            parent_reality: None,
            source: SnapshotSource::RepositoryCommit,
        },
        evaluator: EvaluationSpec { checks: vec![s("cargo test")] },
        budget: ExperienceBudget {
            max_realities: 10,
            max_curriculum_trials: None,
            max_agent_runs: 1,
            max_duration_ms: None,
            max_human_approvals: None,
            max_parallel_trials: None,
            max_commands_per_reality: Some(20),
            allowed_effect_risk: EffectRisk::ReadOnly,
        },
        requested_by: AgentIdentity { kind: s("codex") },
        created_at: 0,
        criteria: criteria(),
        origin: ExperimentOrigin::User,
        intent: ExperimentIntent::CompareStrategies,
        capabilities: ExperimentCapabilities {
            filesystem_scope: Vec::new(),
            allow_network: false,
            allow_external_mutations: false,
            external_effects: Vec::new(),
        },
    }
}

fn shell(id: &str, name: &str, commands: &[&str]) -> ExperimentCandidate {
    ExperimentCandidate {
        id: s(id),
        name: s(name),
        description: s(""),
        execution: CandidateExecution::Shell { commands: commands.iter().map(|c| s(c)).collect() },
        expected_outcome: None,
    }
}

fn message(r: Result<(), Error>) -> String {
    match r {
        Err(Error::InvalidInput(m)) => m,
        other => panic!("expected an invalid input, got {:?}", other),
    }
}

#[test]
fn validate_shape_accepts_a_well_formed_request() {
    let r = request(vec![shell("1", "fix-a", &["make a"]), shell("2", "fix_b", &["make b"])]);
    assert!(validate_shape(&r, 1000).is_ok());
}

#[test]
fn validate_shape_refuses_oversized_and_empty_requests() {
    let r = request(vec![shell("1", "fix-a", &["make a"])]);
    assert_eq!(
        message(validate_shape(&r, 128 * 1024 + 1)),
        "Experiment needs a question, session, and 1–32 bounded candidates (128 KiB maximum)"
    );
    let empty = request(Vec::new());
    assert!(validate_shape(&empty, 10).is_err());
}

#[test]
fn validate_shape_refuses_duplicate_and_badly_named_candidates() {
    let dup = request(vec![shell("1", "fix", &["a"]), shell("1", "other", &["b"])]);
    assert_eq!(
        message(validate_shape(&dup, 10)),
        "Candidate IDs/names must be unique; names use letters, numbers, hyphens or underscores"
    );
    let bad = request(vec![shell("1", "has space", &["a"])]);
    assert!(validate_shape(&bad, 10).is_err());
    let unicode = request(vec![shell("1", "naïve", &["a"])]);
    assert!(validate_shape(&unicode, 10).is_ok());
}

#[test]
fn validate_shape_refuses_bad_commands() {
    let none = request(vec![shell("1", "fix", &[])]);
    assert_eq!(message(validate_shape(&none, 10)), "Shell candidate needs 1–64 explicit command entries");
    let blank = request(vec![shell("1", "fix", &["  "])]);
    assert_eq!(
        message(validate_shape(&blank, 10)),
        "Candidate commands/prompts must be nonempty, NUL-free, and bounded"
    );
    let mut many_checks = request(vec![shell("1", "fix", &["a"])]);
    many_checks.evaluator.checks = (0..17).map(|i| format!("check {i}")).collect();
    assert_eq!(
        message(validate_shape(&many_checks, 10)),
        "At most 16 evaluator checks; custom comparison checks are not supported"
    );
}

#[test]
fn validate_scope_refuses_forbidden_and_policy_commands() {
    let agent = AgentRequestsConfig::default();
    let ok = request(vec![shell("1", "fix", &["cargo build"])]);
    assert!(validate_scope(&ok, &agent, &Vec::new(), &Vec::new()).is_ok());
    let push = request(vec![shell("1", "fix", &["git push origin main"])]);
    assert_eq!(
        message(validate_scope(&push, &agent, &Vec::new(), &Vec::new())),
        "Experiment requires unsupported external side effects; external mutations cannot be isolated"
    );
    let blocked = request(vec![shell("1", "fix", &["  rm -rf target  "])]);
    assert_eq!(
        message(validate_scope(&blocked, &agent, &vec![s("rm -rf target")], &Vec::new())),
        "Experiment requires a command blocked by local policy or explicit approval; unattended execution cannot grant approval"
    );
}

#[test]
fn validate_scope_refuses_side_effects_agents_and_other_intents() {
    let agent = AgentRequestsConfig::default();
    let mut scoped = request(vec![shell("1", "fix", &["a"])]);
    scoped.capabilities.external_effects = vec![s("payment")];
    assert!(message(validate_scope(&scoped, &agent, &Vec::new(), &Vec::new())).starts_with("Experiment requires unsupported"));
    let mut network = request(vec![shell("1", "fix", &["a"])]);
    network.origin = ExperimentOrigin::Agent;
    network.capabilities.allow_network = true;
    assert_eq!(
        message(validate_scope(&network, &agent, &Vec::new(), &Vec::new())),
        "Agent experiment requests or requested network capability are disabled"
    );
    let mut lesson = request(vec![shell("1", "fix", &["a"])]);
    lesson.intent = ExperimentIntent::TestLesson;
    assert!(message(validate_scope(&lesson, &agent, &Vec::new(), &Vec::new())).starts_with("This experiment intent"));
}

#[test]
fn screen_texts_reports_the_first_refused_text() {
    let texts = vec![s("ok"), s("blocked"), s("forbidden")];
    assert!(screen_texts(&texts, &vec![false, false, false], &Vec::new()).is_ok());
    assert_eq!(
        message(screen_texts(&texts, &vec![false, false, true], &vec![s(" blocked ")])),
        "Experiment requires a command blocked by local policy or explicit approval; unattended execution cannot grant approval"
    );
}

#[test]
fn effective_budget_is_limited_by_configuration() {
    let mut r = request(vec![shell("1", "fix", &["a"])]);
    r.origin = ExperimentOrigin::Agent;
    let configured = ExperienceBudgetConfig { max_realities: 5, max_agent_runs: 3, max_duration_seconds: 60, max_commands_per_reality: Some(8) };
    let agent = AgentRequestsConfig { enabled: true, max_realities: 2, max_parallel: 2, allow_network: false, auto_request: false };
    let b = effective_budget(&r, &configured, &agent);
    assert_eq!(b.max_realities, 2);
    assert_eq!(b.max_agent_runs, 1);
    assert_eq!(b.max_duration_ms, Some(60_000));
    assert_eq!(b.max_commands_per_reality, Some(8));
    r.origin = ExperimentOrigin::User;
    assert_eq!(effective_budget(&r, &configured, &agent).max_realities, 5);
}

#[test]
fn diff_summary_counts_hunk_lines() {
    let diff = b"diff --git a/x b/x\n--- a/x\n+++ b/x\n@@ -1 +1,2 @@\n-old\n+new\n+more\ndiff --git a/y b/y\nGIT binary patch\n";
    let d = summarize_diff(diff);
    assert_eq!(d, DiffSummary { files_changed: 2, insertions: 2, deletions: 1, binary_files: 1 });
}

#[test]
fn quality_depends_on_variables_and_environment() {
    let one = vec![ExperimentVariable { name: s("v"), values: Vec::new() }];
    assert_eq!(classify_quality(&one, false), ExperimentQuality::Controlled);
    assert_eq!(classify_quality(&one, true), ExperimentQuality::PartiallyControlled);
    let two = vec![ExperimentVariable { name: s("v"), values: Vec::new() }, ExperimentVariable { name: s("w"), values: Vec::new() }];
    assert_eq!(classify_quality(&two, false), ExperimentQuality::Confounded);
}

#[test]
fn experiments_config_defaults_are_valid() {
    assert!(ExperimentsConfig::default().validate(&ExperienceBudgetConfig::default()).is_ok());
    let mut c = ExperimentsConfig::default();
    c.max_parallel_realities = 0;
    assert!(matches!(c.validate(&ExperienceBudgetConfig::default()), Err(Error::InvalidInput(_))));
}
