use hardknock::error::Error;
use hardknock::experience::{EnvironmentContext, RepositoryContext};
use hardknock::experimentation::EnvironmentMode;
use hardknock::federation::compatibility::{DeterministicContextCompatibility, QueryContext};
use hardknock::federation::model::{
    BundleId, BundleLimits, EvidenceContext, ExperienceNodeId, ProvenanceEdge, ProvenanceGraph, ProvenanceNode,
    ProvenanceNodeId, ProvenanceNodeKind, ProvenanceRelationship,
};

fn s(v: &str) -> String {
    v.to_string()
}

fn hex(c: char) -> String {
    std::iter::repeat(c).take(64).collect()
}

fn message(e: Error) -> String {
    e.message()
}

#[test]
fn node_ids_need_prefix_and_lowercase_digest() {
    let good = format!("hk-node:{}", hex('a'));
    let id = ExperienceNodeId::parse(&good).unwrap();
    assert_eq!(id.as_str(), good);
    assert!(ExperienceNodeId::parse(&format!("hk-node:{}", hex('A'))).is_err());
    assert!(ExperienceNodeId::parse(&format!("hk-node:{}", &hex('a')[..63])).is_err());
    assert!(ExperienceNodeId::parse(&format!("hk-bundle:{}", hex('a'))).is_err());
    let err = ExperienceNodeId::parse("hk-node:xyz").unwrap_err();
    assert_eq!(message(err), "Expected hk-node:<64 lowercase hex characters>");
}

#[test]
fn ids_built_from_digests() {
    let bundle = BundleId::from_digest(&hex('0')).unwrap();
    assert_eq!(bundle.as_str(), format!("hk-bundle:{}", hex('0')));
    let node = ProvenanceNodeId::from_digest(&hex('f')).unwrap();
    assert_eq!(node.as_str(), format!("hk-provenance:{}", hex('f')));
    let err = BundleId::from_digest("123").unwrap_err();
    assert_eq!(message(err), "Expected hk-bundle:<64 lowercase hex characters>");
}

fn pnode(c: char) -> ProvenanceNode {
    ProvenanceNode {
        id: ProvenanceNodeId::from_digest(&hex(c)).unwrap(),
        kind: ProvenanceNodeKind::Experience,
        external_id: s("exp"),
        node: ExperienceNodeId::from_digest(&hex('1')).unwrap(),
        lineage_hash: None,
        summary: s("summary"),
    }
}

#[test]
fn provenance_references_are_checked() {
    let edge = |a: char, b: char| ProvenanceEdge {
        source: ProvenanceNodeId::from_digest(&hex(a)).unwrap(),
        target: ProvenanceNodeId::from_digest(&hex(b)).unwrap(),
        relationship: ProvenanceRelationship::DerivedFrom,
    };
    let ok = ProvenanceGraph { nodes: vec![pnode('a'), pnode('b')], edges: vec![edge('a', 'b')] };
    assert!(ok.validate_references().is_ok());
    let dangling = ProvenanceGraph { nodes: vec![pnode('a'), pnode('b')], edges: vec![edge('a', 'c')] };
    assert_eq!(message(dangling.validate_references().unwrap_err()), "Invalid provenance edge reference");
    let duplicate = ProvenanceGraph { nodes: vec![pnode('a'), pnode('a')], edges: vec![] };
    assert_eq!(message(duplicate.validate_references().unwrap_err()), "Duplicate provenance node ID");
}

#[test]
fn bundle_limits_defaults() {
    let limits = BundleLimits::default();
    assert_eq!(limits.max_bundle_bytes, 50 * 1024 * 1024);
    assert_eq!(limits.max_objects, 10_000);
    assert_eq!(limits.max_artifact_bytes, 10 * 1024 * 1024);
    assert_eq!(limits.max_nesting_depth, 32);
}

fn local() -> QueryContext {
    QueryContext {
        environment: EnvironmentContext {
            os: s("linux"),
            arch: s("x86_64"),
            cwd: s("/work"),
            mode: EnvironmentMode::Controlled,
            facts: vec![(s("cargo"), s("1.80.0")), (s("node"), s("20.1.0")), (s("python"), s("3.12.1"))],
            fingerprint: s("fp"),
        },
        repository: RepositoryContext { path: s("/work/app"), name: s("app"), commit: s("abc"), branch: None },
        detected_markers: vec![s("Cargo.toml")],
        tags: vec![s("runtime-family:tokio")],
    }
}

#[test]
fn compatibility_lists_matches_mismatches_and_unknowns() {
    let remote = EvidenceContext {
        repository_family: None,
        markers: vec![s("Cargo.toml"), s("package.json")],
        tags: vec![s("runtime-family:tokio"), s("unscoped"), s("fixture-family:db")],
        os: Some(s("linux")),
        arch: Some(s("aarch64")),
        versions: vec![(s("cargo"), s("1.80.0")), (s("node"), s("20.4.0")), (s("python"), s("2.7.0")), (s("ruby"), s("3.0"))],
        environment_fingerprint: None,
    };
    let c = DeterministicContextCompatibility.compare(&remote, &local());
    let matches: Vec<(String, String, String)> =
        c.matches.iter().map(|m| (m.field.clone(), m.remote.clone(), m.local.clone())).collect();
    assert_eq!(
        matches,
        vec![
            (s("os"), s("linux"), s("linux")),
            (s("marker"), s("Cargo.toml"), s("Cargo.toml")),
            (s("environment_family"), s("runtime-family:tokio"), s("runtime-family:tokio")),
            (s("cargo"), s("1.80.0"), s("1.80.0")),
        ]
    );
    let mismatches: Vec<(String, String, String, String)> = c
        .mismatches
        .iter()
        .map(|m| (m.field.clone(), m.remote.clone(), m.local.clone(), m.severity.clone()))
        .collect();
    assert_eq!(
        mismatches,
        vec![
            (s("arch"), s("aarch64"), s("x86_64"), s("different")),
            (s("marker"), s("package.json"), s("missing"), s("missing_required")),
            (s("environment_family"), s("fixture-family:db"), s("missing or different"), s("context_difference")),
            (s("node"), s("20.4.0"), s("20.1.0"), s("version_difference")),
            (s("python"), s("2.7.0"), s("3.12.1"), s("version_difference")),
        ]
    );
    assert_eq!(c.unknowns, vec![s("repository_family"), s("ruby")]);
    let t = c.tally;
    assert!(t.os_matched && !t.arch_matched && !t.repository_matched);
    assert_eq!((t.markers_total, t.markers_matched), (2, 1));
    assert_eq!((t.scoped_tags_total, t.scoped_tags_matched), (2, 1));
    assert_eq!((t.versions_total, t.versions_matched, t.versions_major_matched), (4, 1, 1));
}

#[test]
fn identical_context_matches_everything() {
    let remote = EvidenceContext {
        repository_family: Some(s("app")),
        markers: vec![s("Cargo.toml")],
        tags: vec![s("runtime-family:tokio")],
        os: Some(s("linux")),
        arch: Some(s("x86_64")),
        versions: vec![(s("python"), s("3.12.1"))],
        environment_fingerprint: None,
    };
    let c = DeterministicContextCompatibility.compare(&remote, &local());
    assert_eq!(c.matches.len(), 6);
    assert!(c.mismatches.is_empty());
    assert!(c.unknowns.is_empty());
    assert!(c.tally.repository_matched);
}

use hardknock::federation::{
    conservative_promotion_decision, prioritize_remote_artifacts, remote_exception_can_relax_local_constraint,
    remote_support_allows_act, ArtifactAvailability, ArtifactLineage, EnvironmentCompatibilityAssessment,
    EnvironmentCompatibilityStatus, EnvironmentIdentity, PeerTrust, PortableArtifactRef, RemoteArtifactState,
    RemoteFreshness, RemoteKnowledgeRecord, RemotePromotionDecision, RemoteReproducibility, RootEvidenceOrigin,
    SyncArtifact, SyncArtifactRef, SyncArtifactType,
};

fn record(kind: SyncArtifactType, state: RemoteArtifactState, status: EnvironmentCompatibilityStatus, evidence: Vec<String>) -> RemoteKnowledgeRecord {
    RemoteKnowledgeRecord {
        remote_artifact: SyncArtifactRef { origin: s("node"), artifact_id: s("a"), revision: 1, content_hash: s("h") },
        artifact_type: kind,
        origin_status: None,
        local_state: state,
        compatibility: EnvironmentCompatibilityAssessment {
            source: EnvironmentIdentity::default(),
            target: EnvironmentIdentity::default(),
            matched_dimensions: vec![],
            mismatched_dimensions: vec![],
            unknown_dimensions: vec![],
            status,
        },
        trust: PeerTrust::Known,
        local_evidence: evidence,
        availability: ArtifactAvailability::Full,
        reproducibility: RemoteReproducibility::Unknown,
        freshness: RemoteFreshness { artifact_created_at: 0, received_at: 0, origin_last_seen: None, stale: false },
        review_required: false,
        origin_certified: false,
        locally_certified: false,
        origin_revoked: false,
    }
}

#[test]
fn remote_knowledge_is_promoted_conservatively() {
    let lesson = SyncArtifactType::Lesson;
    assert_eq!(conservative_promotion_decision(&record(lesson, RemoteArtifactState::Verified, EnvironmentCompatibilityStatus::Incompatible, vec![s("e")]), false), RemotePromotionDecision::Reject);
    assert_eq!(conservative_promotion_decision(&record(lesson, RemoteArtifactState::Revoked, EnvironmentCompatibilityStatus::Compatible, vec![]), false), RemotePromotionDecision::Reject);
    let mut revoked = record(lesson, RemoteArtifactState::Verified, EnvironmentCompatibilityStatus::Compatible, vec![]);
    revoked.origin_revoked = true;
    assert_eq!(conservative_promotion_decision(&revoked, false), RemotePromotionDecision::Reject);
    assert_eq!(
        conservative_promotion_decision(&record(lesson, RemoteArtifactState::Verified, EnvironmentCompatibilityStatus::Compatible, vec![s("e")]), true),
        RemotePromotionDecision::PromoteWithLocalEvidence
    );
    assert_eq!(conservative_promotion_decision(&record(lesson, RemoteArtifactState::Verified, EnvironmentCompatibilityStatus::Unknown, vec![s("e")]), true), RemotePromotionDecision::NarrowScope);
    assert_eq!(conservative_promotion_decision(&record(lesson, RemoteArtifactState::Verified, EnvironmentCompatibilityStatus::Compatible, vec![]), true), RemotePromotionDecision::ReproduceLocally);
    assert_eq!(
        conservative_promotion_decision(&record(SyncArtifactType::Constraint, RemoteArtifactState::Verified, EnvironmentCompatibilityStatus::Compatible, vec![]), false),
        RemotePromotionDecision::ReproduceLocally
    );
    assert_eq!(conservative_promotion_decision(&record(lesson, RemoteArtifactState::Verified, EnvironmentCompatibilityStatus::Compatible, vec![]), false), RemotePromotionDecision::KeepAdvisory);
}

#[test]
fn remote_support_and_exceptions_need_local_evidence() {
    let supported = record(SyncArtifactType::KnowledgeException, RemoteArtifactState::LocallySupported, EnvironmentCompatibilityStatus::Compatible, vec![s("e")]);
    assert!(remote_support_allows_act(&supported, false));
    assert!(!remote_support_allows_act(&supported, true));
    assert!(!remote_support_allows_act(&record(SyncArtifactType::Lesson, RemoteArtifactState::Verified, EnvironmentCompatibilityStatus::Compatible, vec![s("e")]), false));
    assert!(remote_exception_can_relax_local_constraint(&supported, &vec![s("local")]));
    assert!(!remote_exception_can_relax_local_constraint(&supported, &vec![]));
    let lesson = record(SyncArtifactType::Lesson, RemoteArtifactState::LocallySupported, EnvironmentCompatibilityStatus::Compatible, vec![s("e")]);
    assert!(!remote_exception_can_relax_local_constraint(&lesson, &vec![s("local")]));
}

fn artifact(family: Option<&str>, critical: bool, kind: SyncArtifactType) -> SyncArtifact {
    SyncArtifact {
        id: s("id"),
        artifact_type: kind,
        artifact_ref: PortableArtifactRef { artifact_id: s("a"), schema_version: s("1") },
        lineage: ArtifactLineage { artifact_id: s("a"), origin: s("n"), revision: 1, parent_revision: None },
        origin: s("n"),
        root_origin: RootEvidenceOrigin { node: s("n"), artifact_id: s("a"), revision: 1 },
        relay_nodes: vec![],
        environment: EnvironmentIdentity::default(),
        dependencies: vec![],
        content_hash: s("h"),
        task_family: family.map(s),
        origin_maturity: None,
        critical,
        availability: ArtifactAvailability::Full,
        reproducibility: RemoteReproducibility::Unknown,
        payload: None,
        created_at: 0,
    }
}

#[test]
fn prioritized_artifacts_match_the_task_family() {
    let artifacts = vec![
        artifact(Some("build"), false, SyncArtifactType::Lesson),
        artifact(Some("deploy"), true, SyncArtifactType::Lesson),
        artifact(Some("build"), true, SyncArtifactType::Revocation),
        artifact(None, true, SyncArtifactType::Lesson),
        artifact(Some("build"), true, SyncArtifactType::Skill),
    ];
    assert_eq!(prioritize_remote_artifacts(&artifacts, "build", false), vec![0, 4]);
    assert_eq!(prioritize_remote_artifacts(&artifacts, "build", true), vec![4]);
}
