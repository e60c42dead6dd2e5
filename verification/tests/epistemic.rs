use hardknock::common::ExperienceBudget;
use hardknock::effects::EffectRisk;
use hardknock::epistemic::diversity::{dependency_values, DeterministicEvidenceDiversityPolicy};
use hardknock::epistemic::echo::evidence_echo_assessment;
use hardknock::epistemic::planning::DeterministicEvidenceAcquisitionPlanner;
use hardknock::epistemic::structure::{contrast, fault_domains};
use hardknock::epistemic::{
    epistemic_gaps, AgentCapabilityProfile, AgentIdentity, ChallengeStrategy, Claim, ClaimKind, ClaimRef,
    DeterministicEvidenceFusionPolicy, DiversityClass, EpistemicContextFingerprint, EpistemicDependencyKind,
    EpistemicDependencySet, EvidenceAcquisitionAction, EvidenceContext, EvidenceContextMode, EvidenceEchoStatus,
    EvidenceOutcome, EvidencePath, EvidenceSource, FusedEvidenceStatus,
};
use hardknock::error::Error;

fn s(v: &str) -> String {
    v.to_string()
}

fn deps() -> EpistemicDependencySet {
    EpistemicDependencySet {
        model_family: None,
        model_version: None,
        agent_runtime: None,
        system_prompt_family: None,
        experience_profile: None,
        retrieval_sources: Vec::new(),
        external_documents: Vec::new(),
        tools: Vec::new(),
        evaluators: Vec::new(),
        evaluator_identities: Vec::new(),
        environment_family: None,
        originating_lessons: Vec::new(),
        originating_federated_nodes: Vec::new(),
    }
}

fn path(id: &str, source: EvidenceSource, dependencies: EpistemicDependencySet, hash: &str) -> EvidencePath {
    EvidencePath {
        id: s(id),
        claim: ClaimRef { id: s("claim-1") },
        source,
        context: EvidenceContext {
            mode: EvidenceContextMode::Normal,
            repository: None,
            task: None,
            injected_experience: Vec::new(),
            active_experience_package: None,
            visible_federated_evidence: Vec::new(),
            available_tools: Vec::new(),
            evaluators: Vec::new(),
            root_evidence_origins: Vec::new(),
            fingerprint: EpistemicContextFingerprint {
                hash: s(hash),
                model_family: None,
                active_experience_hash: s(""),
                retrieval_source_hash: s(""),
                toolset_hash: s(""),
                evaluator_hash: s(""),
            },
        },
        dependencies,
        evidence_refs: Vec::new(),
        outcome: EvidenceOutcome::Supports,
        created_at: 0,
    }
}

fn agent(kind: &str) -> EvidenceSource {
    EvidenceSource::Agent { identity: AgentIdentity { kind: s(kind) } }
}

fn federated(node: &str, roots: &[&str], id: &str) -> EvidencePath {
    let mut p = path(id, EvidenceSource::Federation { node_id: s(node) }, deps(), id);
    p.context.root_evidence_origins = roots.iter().map(|r| s(r)).collect();
    p
}

fn claim() -> Claim {
    Claim { id: s("claim-1"), kind: ClaimKind::LessonClaim, statement: s("x"), scope: s("repo"), created_at: 0 }
}

fn budget(realities: usize, agent_runs: usize) -> ExperienceBudget {
    ExperienceBudget {
        max_realities: realities,
        max_curriculum_trials: None,
        max_agent_runs: agent_runs,
        max_duration_ms: None,
        max_human_approvals: None,
        max_parallel_trials: None,
        max_commands_per_reality: None,
        allowed_effect_risk: EffectRisk::ReadOnly,
    }
}

#[test]
fn dependency_values_are_sorted_deduplicated_and_known() {
    let mut d = deps();
    d.model_family = Some(s("family-a"));
    d.retrieval_sources = vec![s("wiki"), s("docs"), s("wiki"), s("  ")];
    d.evaluators = vec![s("tests")];
    let values = dependency_values(&path("p", agent("codex"), d, "h"));
    let pairs: Vec<(EpistemicDependencyKind, String)> = values.iter().map(|v| (v.kind, v.value.clone())).collect();
    assert_eq!(
        pairs,
        vec![
            (EpistemicDependencyKind::Model, s("family-a")),
            (EpistemicDependencyKind::RetrievalSource, s("docs")),
            (EpistemicDependencyKind::RetrievalSource, s("wiki")),
            (EpistemicDependencyKind::Evaluator, s("tests")),
        ]
    );
}

#[test]
fn one_path_has_low_diversity_and_shared_dependencies_are_overlaps() {
    let mut d = deps();
    d.evaluators = vec![s("tests")];
    let one = vec![path("a", agent("codex"), d.clone(), "h1")];
    let a = DeterministicEvidenceDiversityPolicy.assess(&one);
    assert_eq!(a.diversity_class, DiversityClass::Low);
    let two = vec![path("a", agent("codex"), d.clone(), "h1"), path("b", agent("family-b"), d, "h2")];
    let b = DeterministicEvidenceDiversityPolicy.assess(&two);
    assert_eq!(b.dependency_overlaps.len(), 1);
    assert_eq!(b.dependency_overlaps[0].kind, EpistemicDependencyKind::Evaluator);
    assert_eq!(b.dependency_overlaps[0].paths, vec![s("a"), s("b")]);
    assert_eq!(b.diversity_class, DiversityClass::Unknown);
}

#[test]
fn fusion_refuses_paths_of_another_claim_and_reports_disputes() {
    let mut contradicting = path("b", agent("x"), deps(), "h2");
    contradicting.outcome = EvidenceOutcome::Contradicts;
    let paths = vec![path("a", agent("x"), deps(), "h1"), contradicting];
    let d = DeterministicEvidenceDiversityPolicy.assess(&paths);
    let fused = DeterministicEvidenceFusionPolicy.fuse(&claim(), &paths, &d).unwrap();
    assert_eq!(fused.status, FusedEvidenceStatus::Disputed);
    assert_eq!(fused.support_paths, vec![s("a")]);
    assert_eq!(fused.contradiction_paths, vec![s("b")]);
    let mut other = claim();
    other.id = s("claim-2");
    assert!(matches!(DeterministicEvidenceFusionPolicy.fuse(&other, &paths, &d), Err(Error::InvalidInput(_))));
}

#[test]
fn gaps_name_what_is_missing() {
    let paths = vec![path("a", agent("x"), deps(), "h1")];
    let d = DeterministicEvidenceDiversityPolicy.assess(&paths);
    let gaps = epistemic_gaps(&paths, &d);
    assert_eq!(gaps[0], "controlled empirical path");
    assert_eq!(gaps[1], "alternative evaluator");
    assert_eq!(gaps[2], "second evidence source type");
    assert_eq!(gaps[3], "independent or varied retrieval source");
    assert!(gaps.contains(&s("missing dependency metadata: a model family")));
}

#[test]
fn plan_stops_when_diversity_suffices() {
    let planner = DeterministicEvidenceAcquisitionPlanner { agents: Vec::new(), minimum: Some(DiversityClass::Unknown) };
    let paths = vec![path("a", agent("x"), deps(), "h1")];
    let plan = planner.plan(&claim(), &paths, &budget(3, 3));
    assert!(plan.requirement_satisfied);
    assert!(plan.actions.is_empty());
    assert_eq!(plan.rationale, vec![s("Current Low evidence diversity satisfies the Unknown requirement")]);
    assert_eq!(plan.stop_reason, Some(s("evidence requirement satisfied")));
}

#[test]
fn plan_stops_when_budget_is_exhausted() {
    let planner = DeterministicEvidenceAcquisitionPlanner::default();
    let paths = vec![path("a", agent("x"), deps(), "h1")];
    let plan = planner.plan(&claim(), &paths, &budget(0, 0));
    assert!(!plan.requirement_satisfied);
    assert_eq!(plan.rationale, vec![s("Experience budget is exhausted")]);
    assert_eq!(plan.stop_reason, Some(s("budget exhausted")));
}

#[test]
fn plan_challenges_the_dominant_dependency_and_asks_a_novel_agent() {
    let mut d = deps();
    d.experience_profile = Some(s("lesson-7"));
    d.model_family = Some(s("family-a"));
    let mut e = d.clone();
    e.model_family = Some(s("family-c"));
    let paths = vec![path("a", agent("x"), d, "h1"), path("b", agent("y"), e, "h2")];
    let agents = vec![
        AgentCapabilityProfile {
            identity: AgentIdentity { kind: s("same-model") },
            model_family: Some(s("family-a")),
            runtime: s("z"),
            available: true,
            integration_mode: s("cli"),
        },
        AgentCapabilityProfile {
            identity: AgentIdentity { kind: s("novel") },
            model_family: Some(s("family-b")),
            runtime: s("a"),
            available: true,
            integration_mode: s("cli"),
        },
        AgentCapabilityProfile {
            identity: AgentIdentity { kind: s("offline") },
            model_family: Some(s("gemini")),
            runtime: s("z"),
            available: false,
            integration_mode: s("cli"),
        },
    ];
    let planner = DeterministicEvidenceAcquisitionPlanner { agents, minimum: None };
    let plan = planner.plan(&claim(), &paths, &budget(3, 1));
    assert!(!plan.requirement_satisfied);
    assert!(plan.stop_reason.is_none());
    assert!(matches!(
        plan.actions[0],
        EvidenceAcquisitionAction::ChallengeClaim { strategy: ChallengeStrategy::RemoveDominantExperience }
    ));
    assert_eq!(plan.rationale[0], "Challenge dominant Experience dependency lesson-7 shared by 2 paths");
    assert!(matches!(&plan.actions[1], EvidenceAcquisitionAction::RunAlternativeEvaluator { evaluator } if evaluator == "alternative-evaluator-required"));
    match &plan.actions[2] {
        EvidenceAcquisitionAction::AskAgent { agent, context_mode: EvidenceContextMode::BlindToSelectedExperience { excluded } } => {
            assert_eq!(agent.kind, "novel");
            assert_eq!(excluded.len(), 1);
            assert_eq!(excluded[0].kind, "experience");
            assert_eq!(excluded[0].id, "lesson-7");
        },
        _ => panic!("expected a blind agent request"),
    }
    assert_eq!(plan.actions.len(), 3);
    assert_eq!(plan.rationale.len(), 3);
}

#[test]
fn plan_keeps_no_more_actions_than_the_budget_allows() {
    let paths = vec![path("a", agent("x"), deps(), "h1"), path("b", agent("y"), deps(), "h2")];
    let helper = AgentCapabilityProfile {
        identity: AgentIdentity { kind: s("helper") },
        model_family: None,
        runtime: s("r"),
        available: true,
        integration_mode: s("cli"),
    };
    let planner = DeterministicEvidenceAcquisitionPlanner { agents: vec![helper], minimum: None };
    let plan = planner.plan(&claim(), &paths, &budget(0, 1));
    assert_eq!(plan.actions.len(), 1);
    assert_eq!(plan.rationale.len(), 2);
    assert!(matches!(
        plan.actions[0],
        EvidenceAcquisitionAction::ChallengeClaim { strategy: ChallengeStrategy::CounterfactualExperiment }
    ));
    assert_eq!(plan.rationale[0], "Acquire a controlled disconfirming path instead of another agreeing vote");
}

#[test]
fn echo_is_strong_when_nodes_share_one_root() {
    let paths = vec![federated("n1", &["root"], "a"), federated("n2", &["root"], "b")];
    let e = evidence_echo_assessment(&paths);
    assert_eq!(e.origin_diversity.immediate_nodes, 2);
    assert_eq!(e.origin_diversity.root_evidence_origins, 1);
    assert_eq!(e.dominant_root, Some(s("root")));
    assert_eq!(e.dominant_root_paths, 2);
    assert_eq!(e.status, EvidenceEchoStatus::Strong);
    assert!(e.caveats.is_empty());
}

#[test]
fn echo_is_possible_with_fewer_roots_than_nodes() {
    let paths = vec![
        federated("n1", &["r1"], "a"),
        federated("n2", &["r2"], "b"),
        federated("n3", &["r1"], "c"),
        federated("n4", &["r2"], "d"),
    ];
    let e = evidence_echo_assessment(&paths);
    assert_eq!(e.origin_diversity.immediate_nodes, 4);
    assert_eq!(e.origin_diversity.root_evidence_origins, 2);
    assert_eq!(e.dominant_root, Some(s("r2")));
    assert_eq!(e.status, EvidenceEchoStatus::Possible);
}

#[test]
fn echo_reports_missing_root_metadata() {
    let paths = vec![federated("n1", &[], "a")];
    let e = evidence_echo_assessment(&paths);
    assert_eq!(e.status, EvidenceEchoStatus::NoEcho);
    assert!(e.dominant_root.is_none());
    assert_eq!(
        e.caveats,
        vec![s("Federated root-origin metadata is missing; unknown origin is not credited as diverse")]
    );
}

#[test]
fn fault_domains_are_named_by_a_digest_of_the_dependency() {
    let mut d = deps();
    d.evaluators = vec![s("tests")];
    let paths = vec![path("a", agent("x"), d.clone(), "h1"), path("b", agent("y"), d, "h2")];
    let domains = fault_domains(&paths);
    assert_eq!(domains.len(), 1);
    assert!(domains[0].id.starts_with("fault-domain-"));
    assert_eq!(domains[0].id.len(), "fault-domain-".len() + 36);
    assert_eq!(&domains[0].id[13 + 14..13 + 15], "4");
    assert_eq!(domains[0].dependency, "tests");
    assert_eq!(domains[0].members, vec![s("a"), s("b")]);
    assert_eq!(fault_domains(&paths)[0].id, domains[0].id);
}

#[test]
fn contrast_lists_shared_values_and_differing_kinds() {
    let mut l = deps();
    l.model_family = Some(s("family-a"));
    l.evaluators = vec![s("tests")];
    l.tools = Vec::new();
    let mut r = deps();
    r.evaluators = vec![s("tests"), s("lint")];
    let c = contrast(&path("left", agent("x"), l, "h1"), &path("right", agent("y"), r, "h2"));
    assert_eq!(c.left, "left");
    assert_eq!(c.right, "right");
    assert_eq!(c.shared.len(), 1);
    assert_eq!(c.shared[0].value, "tests");
    assert_eq!(c.different, vec![EpistemicDependencyKind::Model, EpistemicDependencyKind::Evaluator]);
    assert_eq!(c.missing, vec![s("right model family")]);
}

use hardknock::epistemic::graph::dependency_graph;
use hardknock::epistemic::{EpistemicDependencyEdgeKind, EpistemicDependencyNodeKind};

#[test]
fn dependency_graph_links_paths_sources_dependencies_and_neighbours() {
    let mut d = deps();
    d.evaluators = vec![s("tests")];
    d.retrieval_sources = vec![s("docs")];
    let mut only_eval = deps();
    only_eval.evaluators = vec![s("tests")];
    let paths = vec![
        path("p2", agent("x"), d.clone(), "h1"),
        path("p1", agent("x"), only_eval.clone(), "h2"),
        path("p3", agent("y"), only_eval, "h3"),
    ];
    let g = dependency_graph(&paths);
    let ids: Vec<&str> = g.nodes.iter().map(|n| n.id.as_str()).collect();
    let digest = |v: &str| blake3::hash(v.as_bytes()).to_hex().to_string();
    let eval_id = format!("dependency:Evaluator:{}", digest("tests"));
    let docs_id = format!("dependency:RetrievalSource:{}", digest("docs"));
    let mut expected = vec![
        s("p1"),
        s("p2"),
        s("p3"),
        s("source:agent:x"),
        s("source:agent:y"),
        eval_id.clone(),
        docs_id.clone(),
    ];
    expected.sort();
    assert_eq!(ids, expected.iter().map(|x| x.as_str()).collect::<Vec<_>>());
    let eval = g.nodes.iter().find(|n| n.id == eval_id).unwrap();
    assert_eq!(eval.kind, EpistemicDependencyNodeKind::Dependency);
    assert_eq!(eval.label, "Evaluator: tests");
    let p2 = g.nodes.iter().find(|n| n.id == "p2").unwrap();
    assert_eq!(p2.kind, EpistemicDependencyNodeKind::EvidencePath);
    assert_eq!(p2.label, "agent:x");
    let edges: Vec<(String, String, EpistemicDependencyEdgeKind)> =
        g.edges.iter().map(|e| (e.from.clone(), e.to.clone(), e.kind)).collect();
    let mut want = vec![
        (s("p1"), eval_id.clone(), EpistemicDependencyEdgeKind::EvaluatedBy),
        (s("p1"), s("p2"), EpistemicDependencyEdgeKind::SharesWith),
        (s("p1"), s("source:agent:x"), EpistemicDependencyEdgeKind::DerivedFrom),
        (s("p2"), eval_id.clone(), EpistemicDependencyEdgeKind::EvaluatedBy),
        (s("p2"), docs_id.clone(), EpistemicDependencyEdgeKind::RetrievedFrom),
        (s("p2"), s("p3"), EpistemicDependencyEdgeKind::SharesWith),
        (s("p2"), s("source:agent:x"), EpistemicDependencyEdgeKind::DerivedFrom),
        (s("p3"), eval_id.clone(), EpistemicDependencyEdgeKind::EvaluatedBy),
        (s("p3"), s("source:agent:y"), EpistemicDependencyEdgeKind::DerivedFrom),
    ];
    want.sort_by(|a, b| (a.0.as_bytes(), a.1.as_bytes(), a.2 as u8).cmp(&(b.0.as_bytes(), b.1.as_bytes(), b.2 as u8)));
    assert_eq!(edges, want);
}
