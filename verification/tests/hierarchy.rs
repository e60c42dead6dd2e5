use hardknock::epistemic::{EvidenceRef, ExperienceActivationState};
use hardknock::hierarchy::relation::{DeterministicScopeRelationEvaluator, ScopeRelation};
use hardknock::hierarchy::resolution::{DeterministicKnowledgeResolver, report_json};
use hardknock::hierarchy::scope::{
    ApplicabilityStatus, DeterministicApplicabilityEvaluator, KnowledgeContext, KnowledgeScope, ScopePredicate,
    ScopeValue,
};
use hardknock::hierarchy::validation::{
    topological, validate_hierarchy, EdgeSelection, HierarchyValidationIssue, HierarchyValidationIssueKind,
    KnowledgeHierarchyValidationReport,
};
use hardknock::hierarchy::{
    AppliedKnowledgeRole, FreshnessStatus, KnowledgeArtifactKind, KnowledgeArtifactRef, KnowledgeHierarchy,
    KnowledgeHierarchyEdge, KnowledgeHierarchyNode, KnowledgeHierarchyRelation, KnowledgeMaturity,
    KnowledgeProvenance, KnowledgeResolutionPolicy, SuppressionReason, UnknownKnowledgeReason,
};

fn s(v: &str) -> String {
    v.to_string()
}

fn eq(key: &str, value: &str) -> ScopePredicate {
    ScopePredicate::Equals { key: s(key), value: ScopeValue::String(s(value)) }
}

fn context(pairs: &[(&str, ScopeValue)]) -> KnowledgeContext {
    let mut values: Vec<(String, ScopeValue)> = Vec::new();
    for (k, v) in pairs {
        let v = match v {
            ScopeValue::String(x) => ScopeValue::String(x.clone()),
            ScopeValue::Integer(x) => ScopeValue::Integer(*x),
            ScopeValue::Boolean(x) => ScopeValue::Boolean(*x),
            ScopeValue::Version(x) => ScopeValue::Version(x.clone()),
        };
        values.push((s(k), v));
    }
    KnowledgeContext { values }
}

fn scope(predicates: Vec<ScopePredicate>) -> KnowledgeScope {
    KnowledgeScope { predicates }
}

fn keyed(p: &ScopePredicate) -> String {
    match p {
        ScopePredicate::Equals { key, .. }
        | ScopePredicate::NotEquals { key, .. }
        | ScopePredicate::In { key, .. }
        | ScopePredicate::Exists { key }
        | ScopePredicate::Bool { key, .. }
        | ScopePredicate::IntegerRange { key, .. }
        | ScopePredicate::VersionRange { key, .. } => key.clone(),
        ScopePredicate::Custom { kind, .. } => kind.clone(),
    }
}

#[test]
fn applicability_splits_predicates_by_outcome() {
    let sc = scope(vec![
        ScopePredicate::Exists { key: s("region") },
        eq("environment", "prod"),
        ScopePredicate::Bool { key: s("canary"), expected: true },
    ]);
    let ctx = context(&[("environment", ScopeValue::String(s("prod"))), ("canary", ScopeValue::Boolean(false))]);
    let a = DeterministicApplicabilityEvaluator.evaluate(&sc, &ctx);
    assert_eq!(a.status, ApplicabilityStatus::Inapplicable);
    assert_eq!(a.matched.len(), 1);
    assert_eq!(keyed(&a.matched[0]), "environment");
    assert_eq!(a.failed.len(), 1);
    assert_eq!(keyed(&a.failed[0]), "canary");
    assert_eq!(a.unknown.len(), 1);
    assert_eq!(keyed(&a.unknown[0]), "region");
}

#[test]
fn applicability_orders_and_deduplicates_predicates() {
    let sc = scope(vec![
        ScopePredicate::Exists { key: s("b") },
        eq("a", "x"),
        ScopePredicate::Exists { key: s("b") },
        ScopePredicate::Bool { key: s("c"), expected: true },
    ]);
    let ctx = context(&[
        ("a", ScopeValue::String(s("x"))),
        ("b", ScopeValue::Integer(1)),
        ("c", ScopeValue::Boolean(true)),
    ]);
    let a = DeterministicApplicabilityEvaluator.evaluate(&sc, &ctx);
    assert_eq!(a.status, ApplicabilityStatus::Applicable);
    let order: Vec<String> = a.matched.iter().map(keyed).collect();
    // "bool" < "equals" < "exists" in the canonical text.
    assert_eq!(order, vec![s("c"), s("a"), s("b")]);
}

#[test]
fn applicability_partially_known_and_unknown() {
    let sc = scope(vec![eq("a", "x"), ScopePredicate::Exists { key: s("missing") }]);
    let ctx = context(&[("a", ScopeValue::String(s("x")))]);
    assert_eq!(DeterministicApplicabilityEvaluator.evaluate(&sc, &ctx).status, ApplicabilityStatus::PartiallyKnown);
    let only_missing = scope(vec![ScopePredicate::Exists { key: s("missing") }]);
    assert_eq!(DeterministicApplicabilityEvaluator.evaluate(&only_missing, &ctx).status, ApplicabilityStatus::Unknown);
    let empty = scope(vec![]);
    assert_eq!(DeterministicApplicabilityEvaluator.evaluate(&empty, &ctx).status, ApplicabilityStatus::Applicable);
}

#[test]
fn version_and_integer_predicates() {
    let ctx = context(&[("api", ScopeValue::Version(s("1.4.2"))), ("n", ScopeValue::Integer(7))]);
    let ok = scope(vec![ScopePredicate::VersionRange { key: s("api"), requirement: s("^1.2") }]);
    assert_eq!(DeterministicApplicabilityEvaluator.evaluate(&ok, &ctx).status, ApplicabilityStatus::Applicable);
    let old = scope(vec![ScopePredicate::VersionRange { key: s("api"), requirement: s("<1.0") }]);
    assert_eq!(DeterministicApplicabilityEvaluator.evaluate(&old, &ctx).status, ApplicabilityStatus::Inapplicable);
    let bad = scope(vec![ScopePredicate::VersionRange { key: s("api"), requirement: s("not a version") }]);
    assert_eq!(DeterministicApplicabilityEvaluator.evaluate(&bad, &ctx).status, ApplicabilityStatus::Unknown);
    let range = scope(vec![ScopePredicate::IntegerRange { key: s("n"), min: Some(5), max: Some(9) }]);
    assert_eq!(DeterministicApplicabilityEvaluator.evaluate(&range, &ctx).status, ApplicabilityStatus::Applicable);
    let empty_range = scope(vec![ScopePredicate::IntegerRange { key: s("n"), min: Some(9), max: Some(5) }]);
    assert_eq!(DeterministicApplicabilityEvaluator.evaluate(&empty_range, &ctx).status, ApplicabilityStatus::Unknown);
}

#[test]
fn canonical_json_matches_serde_shape() {
    let p = ScopePredicate::Equals { key: s("k\"q"), value: ScopeValue::Integer(-12) };
    assert_eq!(
        String::from_utf8(p.canonical_json()).unwrap(),
        "{\"predicate\":\"equals\",\"key\":\"k\\\"q\",\"value\":{\"type\":\"integer\",\"value\":-12}}"
    );
    let r = ScopePredicate::IntegerRange { key: s("n"), min: None, max: Some(3) };
    assert_eq!(
        String::from_utf8(r.canonical_json()).unwrap(),
        "{\"predicate\":\"integer_range\",\"key\":\"n\",\"min\":null,\"max\":3}"
    );
}

#[test]
fn scope_relations() {
    let e = DeterministicScopeRelationEvaluator;
    let prod = scope(vec![eq("env", "prod")]);
    let any = scope(vec![]);
    assert_eq!(e.compare(&prod, &any), ScopeRelation::Narrower);
    assert_eq!(e.compare(&any, &prod), ScopeRelation::Broader);
    assert_eq!(e.compare(&prod, &scope(vec![eq("env", "prod")])), ScopeRelation::Equal);
    assert_eq!(e.compare(&prod, &scope(vec![eq("env", "dev")])), ScopeRelation::Disjoint);
    let low = scope(vec![ScopePredicate::IntegerRange { key: s("n"), min: Some(0), max: Some(10) }]);
    let high = scope(vec![ScopePredicate::IntegerRange { key: s("n"), min: Some(5), max: Some(20) }]);
    assert_eq!(e.compare(&low, &high), ScopeRelation::Overlapping);
    let custom = scope(vec![ScopePredicate::Custom { kind: s("x"), payload: s("{}") }]);
    assert_eq!(e.compare(&custom, &any), ScopeRelation::Unknown);
    let v1 = scope(vec![ScopePredicate::VersionRange { key: s("api"), requirement: s("^1.2") }]);
    let v1_all = scope(vec![ScopePredicate::VersionRange { key: s("api"), requirement: s(">=1.0") }]);
    assert_eq!(e.compare(&v1, &v1_all), ScopeRelation::Narrower);
    let v2 = scope(vec![ScopePredicate::VersionRange { key: s("api"), requirement: s("^2") }]);
    assert_eq!(e.compare(&v1, &v2), ScopeRelation::Disjoint);
}

#[test]
fn specificity_counts_tightest_predicate_per_key() {
    let sc = scope(vec![
        eq("a", "x"),
        ScopePredicate::In { key: s("a"), values: vec![ScopeValue::Integer(1)] },
        ScopePredicate::Exists { key: s("b") },
        ScopePredicate::NotEquals { key: s("c"), value: ScopeValue::Boolean(true) },
        ScopePredicate::Custom { kind: s("k"), payload: s("1") },
    ]);
    let sp = sc.specificity();
    assert_eq!(sp.exact_predicates, 1);
    assert_eq!(sp.bounded_predicates, 1);
    assert_eq!(sp.existence_predicates, 1);
}

fn node(id: &str, sc: Vec<ScopePredicate>, maturity: KnowledgeMaturity) -> (String, KnowledgeHierarchyNode) {
    (
        s(id),
        KnowledgeHierarchyNode {
            id: s(id),
            artifact: KnowledgeArtifactRef { kind: KnowledgeArtifactKind::Lesson, id: format!("artifact-{id}"), revision: 1 },
            scope: scope(sc),
            maturity,
            freshness: FreshnessStatus::Fresh,
            activation: ExperienceActivationState::Active,
            provenance: KnowledgeProvenance { evidence: vec![EvidenceRef { kind: s("test"), id: s("e1") }] },
        },
    )
}

fn edge(id: &str, parent: &str, child: &str, relation: KnowledgeHierarchyRelation) -> KnowledgeHierarchyEdge {
    KnowledgeHierarchyEdge {
        id: s(id),
        parent: s(parent),
        child: s(child),
        relation,
        evidence: vec![EvidenceRef { kind: s("test"), id: s("e2") }],
        created_at: 0,
    }
}

fn hierarchy(nodes: Vec<(String, KnowledgeHierarchyNode)>, edges: Vec<KnowledgeHierarchyEdge>, roots: &[&str]) -> KnowledgeHierarchy {
    let mut nodes = nodes;
    nodes.sort_by(|a, b| a.0.cmp(&b.0));
    KnowledgeHierarchy {
        id: s("h"),
        name: s("h"),
        root_nodes: roots.iter().map(|r| s(r)).collect(),
        nodes,
        edges,
        revision: 1,
        created_at: 0,
        updated_at: 0,
    }
}

#[test]
fn validation_accepts_sound_and_rejects_cycles() {
    let h = hierarchy(
        vec![node("a", vec![], KnowledgeMaturity::Validated), node("b", vec![eq("env", "prod")], KnowledgeMaturity::Validated)],
        vec![edge("e1", "a", "b", KnowledgeHierarchyRelation::Specializes)],
        &["a"],
    );
    let report = validate_hierarchy(&h);
    assert!(report.valid, "{}", report_json(&report));
    assert_eq!(topological(&h, EdgeSelection::Precedence), vec![s("a"), s("b")]);

    let cyclic = hierarchy(
        vec![node("a", vec![], KnowledgeMaturity::Validated), node("b", vec![], KnowledgeMaturity::Validated)],
        vec![
            edge("e1", "a", "b", KnowledgeHierarchyRelation::Refines),
            edge("e2", "b", "a", KnowledgeHierarchyRelation::Refines),
        ],
        &[],
    );
    let report = validate_hierarchy(&cyclic);
    assert!(!report.valid);
    assert!(report.errors.iter().any(|e| e.kind == HierarchyValidationIssueKind::Cycle));
    assert!(topological(&cyclic, EdgeSelection::Precedence).is_empty());
}

#[test]
fn validation_reports_missing_roots_and_broad_specializations() {
    let h = hierarchy(
        vec![node("a", vec![eq("env", "prod")], KnowledgeMaturity::Validated), node("b", vec![], KnowledgeMaturity::Validated)],
        vec![edge("e1", "a", "b", KnowledgeHierarchyRelation::Specializes)],
        &["a", "zz"],
    );
    let report = validate_hierarchy(&h);
    assert!(!report.valid);
    assert!(report.errors.iter().any(|e| e.kind == HierarchyValidationIssueKind::MissingNode));
    assert!(report.errors.iter().any(|e| e.kind == HierarchyValidationIssueKind::InvalidSpecializationScope));
}

#[test]
fn resolution_prefers_the_specialization() {
    let h = hierarchy(
        vec![node("a", vec![], KnowledgeMaturity::Validated), node("b", vec![eq("env", "prod")], KnowledgeMaturity::Validated)],
        vec![edge("e1", "a", "b", KnowledgeHierarchyRelation::Specializes)],
        &["a"],
    );
    let ctx = context(&[("env", ScopeValue::String(s("prod")))]);
    let out = DeterministicKnowledgeResolver.resolve(&h, &ctx, &KnowledgeResolutionPolicy::default()).unwrap();
    assert_eq!(out.applied.len(), 2);
    assert_eq!(out.applied[0].node, "a");
    assert_eq!(out.applied[0].role, AppliedKnowledgeRole::SupportingContext);
    assert_eq!(out.applied[1].node, "b");
    assert_eq!(out.applied[1].role, AppliedKnowledgeRole::Primary);
    assert_eq!(out.applied[1].lineage, vec![s("a")]);
    for (k, step) in out.trace.iter().enumerate() {
        assert_eq!(step.sequence, k as u64 + 1);
    }
}

#[test]
fn resolution_supersedes_and_suppresses_out_of_scope() {
    let h = hierarchy(
        vec![
            node("a", vec![], KnowledgeMaturity::Validated),
            node("b", vec![], KnowledgeMaturity::Validated),
            node("c", vec![eq("env", "dev")], KnowledgeMaturity::Validated),
        ],
        vec![edge("e1", "a", "b", KnowledgeHierarchyRelation::Supersedes)],
        &["a", "c"],
    );
    let ctx = context(&[("env", ScopeValue::String(s("prod")))]);
    let out = DeterministicKnowledgeResolver.resolve(&h, &ctx, &KnowledgeResolutionPolicy::default()).unwrap();
    assert_eq!(out.applied.len(), 1);
    assert_eq!(out.applied[0].node, "b");
    assert_eq!(out.suppressed.len(), 2);
    assert_eq!(out.suppressed[0].node, "a");
    assert_eq!(out.suppressed[0].reason, SuppressionReason::Superseded);
    assert_eq!(out.suppressed[0].suppressed_by, Some(s("b")));
    assert_eq!(out.suppressed[1].node, "c");
    assert_eq!(out.suppressed[1].reason, SuppressionReason::Inapplicable);
}

#[test]
fn resolution_keeps_immature_knowledge_advisory_and_unknown_without_evidence() {
    let mut unsupported = node("b", vec![], KnowledgeMaturity::Validated);
    unsupported.1.provenance.evidence.clear();
    let h = hierarchy(vec![node("a", vec![], KnowledgeMaturity::Candidate), unsupported], vec![], &["a", "b"]);
    let ctx = context(&[]);
    let out = DeterministicKnowledgeResolver.resolve(&h, &ctx, &KnowledgeResolutionPolicy::default()).unwrap();
    assert!(out.applied.is_empty());
    assert_eq!(out.advisory.len(), 1);
    assert_eq!(out.advisory[0].node, "a");
    assert_eq!(out.unknown.len(), 1);
    assert_eq!(out.unknown[0].node, "b");
    assert_eq!(out.unknown[0].reason, UnknownKnowledgeReason::EvidenceStateUnknown);
}

#[test]
fn resolution_refuses_invalid_input() {
    let h = hierarchy(vec![node("a", vec![], KnowledgeMaturity::Validated)], vec![], &[]);
    let ctx = context(&[]);
    assert!(DeterministicKnowledgeResolver.resolve(&h, &ctx, &KnowledgeResolutionPolicy::default()).is_err());
    let ok = hierarchy(vec![node("a", vec![], KnowledgeMaturity::Validated)], vec![], &["a"]);
    let mut policy = KnowledgeResolutionPolicy::default();
    policy.minimum_primary_maturity = KnowledgeMaturity::Retired;
    assert!(DeterministicKnowledgeResolver.resolve(&ok, &ctx, &policy).is_err());
    let mut policy = KnowledgeResolutionPolicy::default();
    policy.stale_exception_can_override = true;
    assert!(DeterministicKnowledgeResolver.resolve(&ok, &ctx, &policy).is_err());
}

#[test]
fn report_json_escapes_like_serde_json() {
    let report = KnowledgeHierarchyValidationReport {
        valid: false,
        errors: vec![HierarchyValidationIssue {
            kind: HierarchyValidationIssueKind::SupersessionCycle,
            message: "a\"b\\c\nd\u{1}e\u{8}f\u{c}g\th\ri".to_string(),
            nodes: vec!["n1".to_string(), "n2".to_string()],
        }],
        warnings: vec![],
    };
    assert_eq!(
        report_json(&report),
        "{\"valid\":false,\"errors\":[{\"kind\":\"supersession_cycle\",\"message\":\"a\\\"b\\\\c\\nd\\u0001e\\bf\\fg\\th\\ri\",\"nodes\":[\"n1\",\"n2\"]}],\"warnings\":[]}"
    );
}

#[test]
fn resolution_raises_competing_exceptions_and_keeps_the_parent() {
    let h = hierarchy(
        vec![
            node("p", vec![], KnowledgeMaturity::Validated),
            node("x", vec![], KnowledgeMaturity::Validated),
            node("y", vec![], KnowledgeMaturity::Validated),
        ],
        vec![
            edge("e1", "p", "x", KnowledgeHierarchyRelation::Excepts),
            edge("e2", "p", "y", KnowledgeHierarchyRelation::Excepts),
        ],
        &["p"],
    );
    let out = DeterministicKnowledgeResolver.resolve(&h, &context(&[]), &KnowledgeResolutionPolicy::default()).unwrap();
    let nodes: Vec<String> = out.applied.iter().map(|a| a.node.clone()).collect();
    assert_eq!(nodes, vec![s("p"), s("x"), s("y")]);
    let roles: Vec<AppliedKnowledgeRole> = out.applied.iter().map(|a| a.role).collect();
    assert_eq!(
        roles,
        vec![AppliedKnowledgeRole::Primary, AppliedKnowledgeRole::SupportingContext, AppliedKnowledgeRole::SupportingContext]
    );
    assert!(out.applied[0].lineage.is_empty());
    assert_eq!(out.applied[1].lineage, vec![s("p")]);
    assert_eq!(out.applied[2].lineage, vec![s("p")]);
    assert_eq!(out.conflicts.len(), 1);
    assert_eq!(out.conflicts[0].nodes, vec![s("x"), s("y")]);
    assert!(matches!(out.conflicts[0].kind, hardknock::hierarchy::KnowledgeConflictKind::CompetingExceptions));
    assert!(out.suppressed.is_empty() && out.unknown.is_empty() && out.advisory.is_empty());
}

#[test]
fn resolution_fails_a_dependant_closed_when_its_prerequisite_is_unhealthy() {
    let h = hierarchy(
        vec![node("a", vec![], KnowledgeMaturity::Candidate), node("b", vec![], KnowledgeMaturity::Validated)],
        vec![edge("e1", "a", "b", KnowledgeHierarchyRelation::DependsOn)],
        &["a", "b"],
    );
    let out = DeterministicKnowledgeResolver.resolve(&h, &context(&[]), &KnowledgeResolutionPolicy::default()).unwrap();
    assert!(out.applied.is_empty());
    assert_eq!(out.advisory.len(), 1);
    assert_eq!(out.advisory[0].node, "a");
    assert_eq!(out.unknown.len(), 1);
    assert_eq!(out.unknown[0].node, "b");
    assert_eq!(out.unknown[0].reason, UnknownKnowledgeReason::EvidenceStateUnknown);
}

#[test]
fn validation_names_the_nodes_of_a_supersession_cycle() {
    let h = hierarchy(
        vec![node("a", vec![], KnowledgeMaturity::Validated), node("b", vec![], KnowledgeMaturity::Validated)],
        vec![
            edge("e1", "a", "b", KnowledgeHierarchyRelation::Supersedes),
            edge("e2", "b", "a", KnowledgeHierarchyRelation::Supersedes),
        ],
        &[],
    );
    let report = validate_hierarchy(&h);
    assert!(!report.valid);
    let sup: Vec<_> = report.errors.iter().filter(|e| e.kind == HierarchyValidationIssueKind::SupersessionCycle).collect();
    assert_eq!(sup.len(), 1);
    assert_eq!(sup[0].nodes, vec![s("a"), s("b")]);
    let cyc: Vec<_> = report.errors.iter().filter(|e| e.kind == HierarchyValidationIssueKind::Cycle).collect();
    assert_eq!(cyc.len(), 1);
    assert_eq!(cyc[0].nodes, vec![s("a"), s("b")]);
    let again = validate_hierarchy(&h);
    assert_eq!(report_json(&report), report_json(&again));
}
