use hardknock::effects::record::{effect_experience_plan, EffectRelationKind};
use hardknock::error::Error;
use hardknock::experience::Outcome;
use hardknock::experiment::ExperimentStatus;
use hardknock::federation::lesson::{
    evidence_summary, lineage_hash, portable_lesson, reproduction_plan, reproduction_result, LessonApplicationRecord,
};
use hardknock::federation::model::{ExperienceNodeId, ReproductionResult};

#[test]
fn lineage_hash_hashes_the_json_pair() {
    let value = b"{\"claim\":\"x\"}";
    let expected = blake3::hash(b"[\"lesson\",{\"claim\":\"x\"}]").to_hex().to_string();
    assert_eq!(lineage_hash("lesson", value), expected);
}

#[test]
fn evidence_counts_follow_observed_applications() {
    let apps = vec![
        LessonApplicationRecord { success: true, observed: true },
        LessonApplicationRecord { success: true, observed: false },
        LessonApplicationRecord { success: false, observed: true },
    ];
    let exps = vec![
        ("l1".to_string(), ExperimentStatus::Completed),
        ("l1".to_string(), ExperimentStatus::Failed),
        ("l2".to_string(), ExperimentStatus::Completed),
    ];
    let s = evidence_summary(2, 1, &apps, &exps, "l1", "ok".to_string(), vec!["h".to_string()]);
    assert_eq!(s.support_count, 3);
    assert_eq!(s.contradiction_count, 2);
    assert_eq!(s.experiment_count, 1);
    assert_eq!(s.application_count, 3);
    assert_eq!(s.evaluation_summaries, vec!["ok".to_string()]);
}

#[test]
fn portable_lesson_carries_identity_and_provenance() {
    let node = ExperienceNodeId::parse(&format!("hk-node:{}", "a".repeat(64))).unwrap();
    let summary = evidence_summary(0, 0, &vec![], &vec![], "l1", "ok".to_string(), vec![]);
    let p = portable_lesson(&node, "l1", b"{}", "claim".to_string(), vec!["cargo test".to_string()], summary).unwrap();
    let hash = blake3::hash(b"[\"lesson\",{}]").to_hex().to_string();
    assert_eq!(p.identity.lineage_hash, hash);
    assert_eq!(p.identity.origin_object_id, "l1");
    let prov = blake3::hash(format!("[\"{}\",\"lesson\",\"{}\"]", node.as_str(), hash).as_bytes()).to_hex().to_string();
    assert_eq!(p.provenance_ref.as_str(), format!("hk-provenance:{prov}"));
    assert_eq!(p.freshness, "source-reported; local receiver must reassess");
}

#[test]
fn reproduction_plans_refuse_in_order() {
    let ok = reproduction_plan("obj", "lesson", "l1", Some("false".into()), Some("true".into()), vec![], vec!["check".into()]).unwrap();
    assert_eq!(ok.session_id, "federation:obj");
    assert_eq!(ok.question, "Locally reproduce external Lesson l1");
    assert_eq!(ok.checks, vec!["check".to_string()]);
    assert!(matches!(reproduction_plan("o", "skill", "l", None, None, vec![], vec![]), Err(Error::InvalidInput(_))));
    assert!(matches!(reproduction_plan("o", "lesson", "l", None, None, vec![], vec![]), Err(Error::Intervention(_))));
    assert!(matches!(reproduction_plan("o", "lesson", "l", Some("a".into()), Some("b".into()), vec![], vec![]), Err(Error::Intervention(_))));
    assert_eq!(reproduction_result(Some(Outcome::Failure), Some(Outcome::Success)), ReproductionResult::Supports);
    assert_eq!(reproduction_result(Some(Outcome::Success), Some(Outcome::Failure)), ReproductionResult::Contradicts);
    assert_eq!(reproduction_result(Some(Outcome::Success), Some(Outcome::Success)), ReproductionResult::Inconclusive);
    assert_eq!(reproduction_result(None, Some(Outcome::Success)), ReproductionResult::CannotReproduce);
}

#[test]
fn effect_experience_plan_records_kind_and_evidence() {
    let p = effect_experience_plan("eff-1", "mock-db", "compensation", false, b"{\"ok\":false}");
    assert_eq!(p.task, "Authoritative external effect compensation eff-1");
    assert_eq!(p.agent_kind, "effect-adapter:mock-db");
    assert_eq!(p.exit_code, 1);
    assert_eq!(p.relation, EffectRelationKind::CompensationOf);
    assert_eq!(p.relation_link, "commit");
    assert_eq!(p.evidence_hash, blake3::hash(b"{\"ok\":false}").to_hex().to_string());
    assert_eq!(p.outcome, Outcome::Failure);
    let c = effect_experience_plan("eff-2", "http", "commit", true, b"{}");
    assert_eq!(c.relation, EffectRelationKind::CommitOf);
    assert_eq!(c.relation_link, "experimental_candidate");
    assert_eq!(c.check_output, "authoritative effect evidence recorded\n");
}
