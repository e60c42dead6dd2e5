use hardknock::common::ProcessStatus;
use hardknock::effects::commit::{
    check_authorization, commit_admission, commit_precheck, commit_route, gate_response, outcome_transition, AdapterOutcomeKind, CommitRoute,
    GateResponse,
};
use hardknock::effects::effect::{
    CommitAuthorization, DefaultEffectPolicy, DeterministicCommitGate, Effect, EffectPreview, EffectRequest,
    ExternalStateSnapshot, PreparedEffect,
};
use hardknock::effects::{
    ActionRef, CommitAuthority, CommitGateDecision, CommitStrategy, EffectCapabilityGrant, EffectClassification,
    EffectContext, EffectDecision, EffectFault, EffectKind, EffectLifecycle, EffectOperation, EffectRisk, EffectTarget,
    ExternalityClass, IdempotencyClass, IsolationRequirement, ReversibilityClass,
};
use hardknock::error::Error;
use hardknock::evaluation::{Evaluation, EvaluationSpec, EvaluationStatus};
use hardknock::experience::{context_tags_for, controlled_environment, Outcome};
use hardknock::experiment::{ExperimentConclusion, PairedComparison, TrialMutation, TrialResult, TrialSpec};

fn s(v: &str) -> String {
    v.to_string()
}

fn request(uri: &str) -> EffectRequest {
    EffectRequest {
        session_id: s("session"),
        reality_id: None,
        source_action: ActionRef { id: s("action"), kind: s("shell") },
        kind: EffectKind::Database,
        target: EffectTarget { uri: s(uri) },
        operation: EffectOperation::Update,
        payload: s("{\"x\":1}"),
        adapter: None,
        evidence: Vec::new(),
        fault: EffectFault::NoFault,
    }
}

fn classification(externality: ExternalityClass, risk: EffectRisk) -> EffectClassification {
    EffectClassification {
        reversibility: ReversibilityClass::Compensatable,
        idempotency: IdempotencyClass::IdempotentWithKey,
        isolation_requirement: IsolationRequirement::Staged,
        externality,
        risk,
        commit_strategy: CommitStrategy::ReserveCommit,
    }
}

fn effect() -> Effect {
    let mut e = Effect::from_request(request("postgres://db/t"), s("ledger-1"), s("postgres"), 1000);
    e.classification = Some(classification(ExternalityClass::ExternalSystem, EffectRisk::Low));
    e.lifecycle = EffectLifecycle::Prepared;
    e
}

fn user(commit: bool) -> EffectContext {
    EffectContext {
        actor: s("user"),
        is_agent: false,
        capabilities: EffectCapabilityGrant { observe: true, propose: true, prepare: true, commit, compensate: false },
    }
}

fn snapshot(e: &Effect, fingerprint: &str, version: Option<&str>) -> ExternalStateSnapshot {
    ExternalStateSnapshot {
        id: s("snap"),
        effect_id: e.id.clone(),
        adapter: s("postgres"),
        target: e.target.clone(),
        version: version.map(s),
        fingerprint: s(fingerprint),
        state: s("{}"),
        captured_at: 0,
    }
}

fn prepared(e: &Effect, expires_at: Option<i64>) -> PreparedEffect {
    PreparedEffect {
        id: s("prep"),
        effect_id: e.id.clone(),
        adapter: s("postgres"),
        preparation_token: s("token"),
        expires_at,
        preview: EffectPreview { summary: s(""), current: s("{}"), prepared: s("{}") },
        before: snapshot(e, "fp", Some("v1")),
        scope_hash: e.scope_hash(),
        evidence: Vec::new(),
    }
}

fn message(r: Result<(), Error>) -> String {
    match r {
        Err(Error::InvalidInput(m)) | Err(Error::Intervention(m)) | Err(Error::NotFound(m)) => m,
        Ok(()) => panic!("expected an error"),
    }
}

#[test]
fn requests_need_bounded_identifiers_and_a_scheme() {
    assert!(request("postgres://db/t").validate().is_ok());
    assert_eq!(message(request("no-scheme").validate()), "Effect target must be a bounded single-line scheme URI");
    assert_eq!(message(request("http://a\nb").validate()), "Effect target must be a bounded single-line scheme URI");
    let mut blank = request("postgres://db/t");
    blank.session_id = s("  ");
    assert_eq!(message(blank.validate()), "Effect session/action identifiers must be nonempty and bounded");
    let mut big = request("postgres://db/t");
    big.evidence = vec![s("e"); 129];
    assert_eq!(message(big.validate()), "Effect payload or evidence exceeded its bound");
}

#[test]
fn effects_from_requests_get_an_idempotency_key_from_their_identity() {
    let e = Effect::from_request(request("postgres://db/t"), s("ledger-1"), s("postgres"), 42);
    assert!(e.id.starts_with("effect-"));
    assert_eq!(e.idempotency_key, format!("hk-effect:{}", e.id));
    assert_eq!(e.lifecycle, EffectLifecycle::Proposed);
    assert!(e.classification.is_none());
    assert_eq!(e.created_at, 42);
}

#[test]
fn scope_json_lists_the_scope_fields_in_order() {
    let mut e = effect();
    e.id = s("effect-1");
    e.idempotency_key = s("hk-effect:effect-1");
    let json = String::from_utf8(e.scope_json()).unwrap();
    assert_eq!(
        json,
        "{\"id\":\"effect-1\",\"adapter\":\"postgres\",\"kind\":\"database\",\"target\":{\"uri\":\"postgres://db/t\"},\"operation\":{\"kind\":\"update\"},\"payload\":{\"x\":1},\"idempotency_key\":\"hk-effect:effect-1\"}"
    );
    e.operation = EffectOperation::Custom(s("say \"hi\""));
    let json = String::from_utf8(e.scope_json()).unwrap();
    assert!(json.contains("\"operation\":{\"kind\":\"custom\",\"value\":\"say \\\"hi\\\"\"}"));
    let hash = e.scope_hash();
    assert_eq!(hash.len(), 64);
    assert_eq!(hash, e.scope_hash());
    let mut other = e.clone();
    other.payload = s("{\"x\":2}");
    assert_ne!(other.scope_hash(), hash);
}

#[test]
fn default_policy_decides_by_classification_and_context() {
    let policy = DefaultEffectPolicy;
    let mut e = effect();
    assert_eq!(policy.evaluate(&e, &user(true)), EffectDecision::RequirePrepare);
    assert_eq!(policy.evaluate(&e, &user(false)), EffectDecision::RequireApproval);
    e.classification = Some(classification(ExternalityClass::ExternalSystem, EffectRisk::ReadOnly));
    assert_eq!(policy.evaluate(&e, &user(true)), EffectDecision::AllowDirect);
    e.classification = Some(classification(ExternalityClass::Financial, EffectRisk::ReadOnly));
    assert_eq!(policy.evaluate(&e, &user(true)), EffectDecision::Reject);
    e.classification = Some(classification(ExternalityClass::HumanVisible, EffectRisk::Low));
    assert_eq!(policy.evaluate(&e, &user(true)), EffectDecision::RequireApproval);
    let mut shadow = classification(ExternalityClass::ExternalSystem, EffectRisk::Low);
    shadow.isolation_requirement = IsolationRequirement::Shadow;
    e.classification = Some(shadow);
    assert_eq!(policy.evaluate(&e, &user(true)), EffectDecision::RequireShadow);
    e.classification = None;
    assert_eq!(policy.evaluate(&e, &user(true)), EffectDecision::Reject);
}

#[test]
fn commit_gate_requires_unchanged_state_and_scope() {
    let gate = DeterministicCommitGate;
    let e = effect();
    let p = prepared(&e, Some(5000));
    assert_eq!(gate.evaluate(&e, &p, &snapshot(&e, "fp", Some("v1")), 1000), CommitGateDecision::Allow);
    assert_eq!(gate.evaluate(&e, &p, &snapshot(&e, "fp", Some("v2")), 1000), CommitGateDecision::Reprepare);
    assert_eq!(gate.evaluate(&e, &p, &snapshot(&e, "other", Some("v1")), 1000), CommitGateDecision::Reprepare);
    assert_eq!(gate.evaluate(&e, &p, &snapshot(&e, "fp", Some("v1")), 5000), CommitGateDecision::Reprepare);
    let mut changed = e.clone();
    changed.payload = s("{\"x\":3}");
    assert_eq!(gate.evaluate(&changed, &p, &snapshot(&e, "fp", Some("v1")), 1000), CommitGateDecision::Reprepare);
    let mut financial = e.clone();
    financial.classification = Some(classification(ExternalityClass::Financial, EffectRisk::Low));
    let pf = prepared(&financial, None);
    assert_eq!(gate.evaluate(&financial, &pf, &snapshot(&e, "fp", Some("v1")), 1000), CommitGateDecision::Reject);
}

#[test]
fn snapshots_are_fingerprinted_by_their_content() {
    let t = EffectTarget { uri: s("postgres://db/t") };
    let a = ExternalStateSnapshot::capture(s("e"), "postgres", t.clone(), Some(s("v1")), s("{\"rows\":1}"), 7);
    let b = ExternalStateSnapshot::capture(s("e"), "postgres", t.clone(), Some(s("v1")), s("{\"rows\":1}"), 8);
    let c = ExternalStateSnapshot::capture(s("e"), "postgres", t, Some(s("v2")), s("{\"rows\":1}"), 7);
    assert_eq!(a.fingerprint, b.fingerprint);
    assert_ne!(a.fingerprint, c.fingerprint);
    assert_eq!(a.fingerprint.len(), 64);
    assert_eq!(a.captured_at, 7);
}

#[test]
fn authorizations_bind_effects_until_they_expire() {
    let e1 = effect();
    let e2 = effect();
    let effects = vec![e1.clone(), e2.clone()];
    let a = CommitAuthorization::for_effects(CommitAuthority::User, &effects, 1000);
    assert_eq!(a.expires_at, Some(1000 + 900_000));
    assert!(a.validate(&effects, 2000).is_ok());
    let reordered = vec![e2.clone(), e1.clone()];
    assert!(a.validate(&reordered, 2000).is_ok());
    assert_eq!(message(a.validate(&effects, 1000 + 900_000)), "Commit authorization expired");
    let mut changed = e2.clone();
    changed.payload = s("{\"x\":9}");
    assert_eq!(
        message(a.validate(&vec![e1.clone(), changed], 2000)),
        "Commit authorization is not bound to the current effect scope"
    );
    assert!(a.validate(&vec![e1.clone()], 2000).is_err());
}

#[test]
fn commit_admission_applies_the_checks_in_order() {
    let e = effect();
    let scope = vec![e.clone()];
    let a = CommitAuthorization::for_effects(CommitAuthority::Policy, &scope, 0);
    let mut agent = user(true);
    agent.is_agent = true;
    let refused = commit_admission(&e, &agent, Some(&a), &scope, 10, true);
    assert!(matches!(&refused, Err(Error::Intervention(m)) if m == "Agent cannot self-authorize an external effect commit"));
    let mut done = effect();
    done.lifecycle = EffectLifecycle::Committed;
    let refused = commit_admission(&done, &user(true), None, &scope, 10, true);
    assert!(matches!(&refused, Err(Error::InvalidInput(_))));
    let refused = commit_admission(&e, &user(true), None, &scope, 10, true);
    assert!(matches!(&refused, Err(Error::Intervention(m)) if m == "Explicit commit authorization is required"));
    assert_eq!(commit_admission(&e, &user(true), Some(&a), &scope, 10, false).unwrap(), CommitRoute::ThroughGate);
    let mut unknown = effect();
    unknown.lifecycle = EffectLifecycle::Unknown;
    let unknown_scope = vec![unknown.clone()];
    let u = CommitAuthorization::for_effects(CommitAuthority::Policy, &unknown_scope, 0);
    let refused = commit_admission(&unknown, &user(true), Some(&u), &unknown_scope, 10, false);
    assert!(matches!(&refused, Err(Error::Intervention(m)) if m == "UNKNOWN effect cannot be retried without adapter idempotency support"));
    assert_eq!(commit_admission(&unknown, &user(true), Some(&u), &unknown_scope, 10, true).unwrap(), CommitRoute::RetryUnknown);
}

#[test]
fn commit_protocol_checks_actor_lifecycle_authorization_and_route() {
    let mut e = effect();
    let mut agent = user(true);
    agent.is_agent = true;
    assert_eq!(message(commit_precheck(&e, &agent)), "Agent cannot self-authorize an external effect commit");
    assert!(commit_precheck(&e, &user(true)).is_ok());
    e.lifecycle = EffectLifecycle::Committed;
    assert_eq!(message(commit_precheck(&e, &user(true))), format!("Effect {} is Committed; PREPARED or UNKNOWN required", e.id));
    let e = effect();
    let scope = vec![e.clone()];
    assert_eq!(message(check_authorization(&e, None, &scope, 0)), "Explicit commit authorization is required");
    let a = CommitAuthorization::for_effects(CommitAuthority::Policy, &scope, 0);
    assert!(check_authorization(&e, Some(&a), &scope, 10).is_ok());
    let other = effect();
    let other_scope = vec![other.clone()];
    let b = CommitAuthorization::for_effects(CommitAuthority::Policy, &other_scope, 0);
    assert_eq!(message(check_authorization(&e, Some(&b), &other_scope, 10)), "Authorization does not include this effect");
    let mut unknown = effect();
    unknown.lifecycle = EffectLifecycle::Unknown;
    assert!(matches!(commit_route(&unknown, false), Err(Error::Intervention(_))));
    assert_eq!(commit_route(&unknown, true).unwrap(), CommitRoute::RetryUnknown);
    assert_eq!(commit_route(&effect(), false).unwrap(), CommitRoute::ThroughGate);
    assert_eq!(gate_response(CommitGateDecision::Reprepare), GateResponse::RejectAndReprepare);
    assert_eq!(gate_response(CommitGateDecision::RequireApproval), GateResponse::Proceed);
    assert_eq!(outcome_transition(EffectLifecycle::Prepared, AdapterOutcomeKind::Unknown), Some(EffectLifecycle::Unknown));
    assert_eq!(outcome_transition(EffectLifecycle::Unknown, AdapterOutcomeKind::Unknown), None);
    assert!(EffectLifecycle::Prepared.allows(outcome_transition(EffectLifecycle::Prepared, AdapterOutcomeKind::NotCommitted).unwrap()));
}

fn evaluation(success: bool) -> Evaluation {
    Evaluation {
        id: s("eval"),
        spec: EvaluationSpec { checks: vec![s("cargo test")] },
        status: EvaluationStatus::Completed,
        success,
        checks: Vec::new(),
        summary: s(""),
    }
}

fn trial(name: &str, id: &str, command: &str, success: bool, mutations: Vec<TrialMutation>) -> TrialResult {
    TrialResult {
        spec: TrialSpec {
            id: s(id),
            name: s(name),
            command: s(command),
            mutations,
            evaluation: EvaluationSpec { checks: vec![s("cargo test")] },
        },
        experience_id: format!("exp-{id}"),
        reality_id: format!("reality-{id}"),
        execution_id: format!("exec-{id}"),
        evaluation: evaluation(success),
        outcome: if success { Outcome::Success } else { Outcome::Failure },
        starting_state: s("commit-abc"),
        environment_fingerprint: s("env"),
        artifacts: Vec::new(),
    }
}

fn replace(from: &str, to: &str) -> Vec<TrialMutation> {
    vec![TrialMutation::ReplaceCommand { from: s(from), to: s(to) }]
}

#[test]
fn paired_comparison_concludes_only_from_a_clean_pair() {
    let p = PairedComparison;
    let supports = vec![trial("baseline", "1", "npm i", false, Vec::new()), trial("alternative", "2", "pnpm i", true, replace("npm i", "pnpm i"))];
    assert_eq!(p.conclude(&supports), ExperimentConclusion::SupportsHypothesis);
    let contradicts = vec![trial("baseline", "1", "npm i", true, Vec::new()), trial("alternative", "2", "pnpm i", false, replace("npm i", "pnpm i"))];
    assert_eq!(p.conclude(&contradicts), ExperimentConclusion::ContradictsHypothesis);
    let wrong_mutation = vec![trial("baseline", "1", "npm i", false, Vec::new()), trial("alternative", "2", "pnpm i", true, replace("x", "pnpm i"))];
    assert_eq!(p.conclude(&wrong_mutation), ExperimentConclusion::Inconclusive);
    let mut inconsistent = supports.clone();
    inconsistent[1].outcome = Outcome::Failure;
    inconsistent[0].outcome = Outcome::Success;
    assert_eq!(p.conclude(&inconsistent), ExperimentConclusion::Inconclusive);
    assert_eq!(p.conclude(&supports[..1].to_vec()), ExperimentConclusion::Inconclusive);
}

#[test]
fn outcomes_follow_evaluations_and_exit_codes_follow_outcomes() {
    assert_eq!(Outcome::from_evaluation(&evaluation(true)), Outcome::Success);
    assert_eq!(Outcome::from_evaluation(&evaluation(false)), Outcome::Failure);
    let mut e = evaluation(true);
    e.status = EvaluationStatus::TimedOut;
    assert_eq!(Outcome::from_evaluation(&e), Outcome::TimedOut);
    assert_eq!(Outcome::Interrupted.exit_code(ProcessStatus::Succeeded), 5);
    assert_eq!(Outcome::Inconclusive.exit_code(ProcessStatus::Succeeded), 0);
    assert_eq!(Outcome::Inconclusive.exit_code(ProcessStatus::Failed), 1);
}

#[test]
fn controlled_environment_and_context_tags() {
    let env = controlled_environment("/tmp/reality");
    let keys: Vec<&str> = env.iter().map(|(k, _)| k.as_str()).collect();
    assert_eq!(keys, vec!["HOME", "LANG", "LC_ALL", "PATH", "PWD", "TZ"]);
    assert_eq!(env[0].1, "/tmp/reality");
    let tags = context_tags_for(&vec![s("Cargo.toml")], Some("pnpm-workspace-conflict"), Some(2));
    assert_eq!(tags, vec![s("marker:Cargo.toml"), s("fixture-kind:pnpm-workspace-conflict"), s("fixture-family:pnpm-workspace-v2")]);
    let plain = context_tags_for(&vec![s("go.mod")], Some("unknown-kind"), Some(2));
    assert_eq!(plain, vec![s("marker:go.mod")]);
}

use hardknock::effects::adapter::EffectAdapterRegistry;
use hardknock::effects::mock::{
    commit_step, compensation_step, discard_check, preparation_expiry, prepare_check, reconciliation_step, CommitStep,
    CompensationStep, Flavor, ReconciliationStep,
};
use hardknock::effects::{CompensationStatus, EffectAdapterCapabilities};

fn caps(compensate: bool) -> EffectAdapterCapabilities {
    EffectAdapterCapabilities {
        simulation: true,
        prepare: true,
        commit: true,
        discard: true,
        compensate,
        reconciliation: true,
        idempotency_keys: true,
        shadow_resources: false,
    }
}

#[test]
fn registry_keeps_names_and_schemes_unique() {
    let mut registry = EffectAdapterRegistry::new();
    assert!(registry.register("mock-http", &vec![s("mock"), s("mock-http")], caps(true)).is_ok());
    assert!(registry.register("mock-db", &vec![s("mock-db")], caps(false)).is_ok());
    assert_eq!(message(registry.register("mock-db", &vec![s("other")], caps(true))), "Effect adapter mock-db is already registered");
    assert_eq!(
        message(registry.register("dup", &vec![s("fresh"), s("mock")], caps(true))),
        "Effect target scheme mock has multiple adapters"
    );
    let names: Vec<String> = registry.capabilities().into_iter().map(|(n, _)| n).collect();
    assert_eq!(names, vec![s("mock-db"), s("mock-http")]);
    assert!(registry.get("mock-db").is_ok());
    assert!(!registry.get("mock-db").unwrap().compensate);
    match registry.get("dup") {
        Err(Error::NotFound(m)) => assert_eq!(m, "Effect adapter dup not found"),
        _ => panic!("expected not found"),
    }
}

#[test]
fn registry_selects_by_name_then_by_scheme() {
    let mut registry = EffectAdapterRegistry::new();
    registry.register("mock-http", &vec![s("mock"), s("mock-http")], caps(true)).unwrap();
    assert_eq!(registry.select_request(&request("mock://svc/a")).unwrap(), "mock-http");
    let mut named = request("nothing://x");
    named.adapter = Some(s("mock-http"));
    assert_eq!(registry.select_request(&named).unwrap(), "mock-http");
    match registry.select_request(&request("unknown://x")) {
        Err(Error::InvalidInput(m)) => assert_eq!(m, "No adapter supports this effect target"),
        _ => panic!("expected refusal"),
    }
    let mut missing = request("mock://x");
    missing.adapter = Some(s("ghost"));
    match registry.select_request(&missing) {
        Err(Error::NotFound(m)) => assert_eq!(m, "Effect adapter ghost not found"),
        _ => panic!("expected not found"),
    }
}

#[test]
fn mock_adapters_classify_by_scheme_and_balance() {
    assert_eq!(Flavor::Http.name(), "mock-http");
    assert_eq!(Flavor::Http.schemes(), vec!["mock", "mock-http"]);
    assert_eq!(Flavor::Shadow.schemes(), vec!["shadow"]);
    assert!(!Flavor::Message.capabilities().compensate);
    assert!(Flavor::Shadow.capabilities().shadow_resources);
    let c = Flavor::Message.classify_with_balance(&request("mock-message://queue"), None).unwrap();
    assert_eq!(c.commit_strategy, CommitStrategy::DeferredDispatch);
    assert_eq!(c.externality, ExternalityClass::HumanVisible);
    match Flavor::Database.classify_with_balance(&request("mock://x"), None) {
        Err(Error::InvalidInput(m)) => assert_eq!(m, "Adapter mock-db does not support target mock://x"),
        _ => panic!("expected refusal"),
    }
    match Flavor::Database.classify_with_balance(&request("mock-db://accounts"), Some(-5)) {
        Err(Error::Intervention(m)) => assert_eq!(m, "Mock database invariant rejected a negative balance"),
        _ => panic!("expected refusal"),
    }
    assert!(Flavor::Database.classify_with_balance(&request("mock-db://accounts"), Some(5)).is_ok());
    assert!(Flavor::Http.classify_with_balance(&request("no-scheme"), None).is_err());
}

#[test]
fn mock_fault_injection_steers_each_step() {
    assert_eq!(message(prepare_check(EffectFault::PrepareFailure)), "Injected prepare failure");
    assert!(prepare_check(EffectFault::NoFault).is_ok());
    assert_eq!(preparation_expiry(EffectFault::ReservationExpiry, 10_000), 9_000);
    assert_eq!(preparation_expiry(EffectFault::NoFault, 10_000), 310_000);
    assert!(matches!(commit_step(EffectFault::CommitFailureBeforeMutation, true, true, "1", "2"), CommitStep::ReportExisting));
    match commit_step(EffectFault::NoFault, false, false, "3", "2") {
        CommitStep::Decline { reason } => assert_eq!(reason, "Stale prepared effect: expected version 2, observed 3"),
        _ => panic!("expected decline"),
    }
    match commit_step(EffectFault::NoFault, false, true, "2", "2") {
        CommitStep::Decline { reason } => assert_eq!(reason, "Prepared effect expired"),
        _ => panic!("expected decline"),
    }
    assert!(matches!(
        commit_step(EffectFault::ResponseLossAfterMutation, false, false, "2", "2"),
        CommitStep::Apply { response_lost: true }
    ));
    assert!(matches!(commit_step(EffectFault::NoFault, false, false, "2", "2"), CommitStep::Apply { response_lost: false }));
    assert_eq!(message(discard_check(EffectFault::DiscardFailure)), "Injected discard failure");
    assert_eq!(
        compensation_step(Flavor::Message, EffectFault::NoFault),
        CompensationStep::Refuse(CompensationStatus::Unsupported)
    );
    assert_eq!(
        compensation_step(Flavor::Http, EffectFault::CompensationFailure),
        CompensationStep::Refuse(CompensationStatus::Failed)
    );
    assert_eq!(compensation_step(Flavor::Database, EffectFault::NoFault), CompensationStep::Restore);
    assert!(matches!(
        reconciliation_step(EffectFault::ResponseLossWithReconciliationFailure, true),
        ReconciliationStep::StillUnknown { .. }
    ));
    assert!(matches!(reconciliation_step(EffectFault::NoFault, true), ReconciliationStep::Committed));
    assert!(matches!(reconciliation_step(EffectFault::NoFault, false), ReconciliationStep::NotCommitted));
}

#[test]
fn database_classification_reads_the_payload_balance() {
    let mut negative = request("mock-db://accounts");
    negative.payload = s("{\"balance\":-3}");
    match Flavor::Database.classify(&negative) {
        Err(Error::Intervention(_)) => {}
        other => panic!("expected intervention, got {:?}", other),
    }
    let mut positive = request("mock-db://accounts");
    positive.payload = s("{\"balance\":7}");
    assert!(Flavor::Database.classify(&positive).is_ok());
    let mut unparsable = request("mock-db://accounts");
    unparsable.payload = s("not json");
    assert!(Flavor::Database.classify(&unparsable).is_ok());
}
