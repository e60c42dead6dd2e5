use hardknock::effects::{EffectConfig, EffectLifecycle, EffectTarget};
use hardknock::federation::{
    assess_environment_compatibility, remote_contradiction_plan_impact, EnvironmentCompatibilityStatus,
    EnvironmentIdentity, RemotePlanImpact,
};
use hardknock::ids::fresh_id;
use hardknock::text::{append_decimal, find, is_blank, str_eq, trim_str};

fn s(v: &str) -> String {
    v.to_string()
}

#[test]
fn lifecycle_allows_only_forward_transitions() {
    assert!(EffectLifecycle::Proposed.allows(EffectLifecycle::Classified));
    assert!(EffectLifecycle::Prepared.allows(EffectLifecycle::Committed));
    assert!(EffectLifecycle::Committed.allows(EffectLifecycle::Compensated));
    assert!(!EffectLifecycle::Classified.allows(EffectLifecycle::Committed));
    assert!(!EffectLifecycle::Rejected.allows(EffectLifecycle::Proposed));
    assert!(!EffectLifecycle::Prepared.allows(EffectLifecycle::Prepared));
}

#[test]
fn target_scheme_is_the_text_before_the_separator() {
    assert_eq!(EffectTarget { uri: s("postgres://db/table") }.scheme(), Some(s("postgres")));
    assert_eq!(EffectTarget { uri: s("no-scheme") }.scheme(), None);
}

#[test]
fn effect_config_default_is_valid() {
    assert!(EffectConfig::default().validate().is_ok());
}

#[test]
fn contradictions_change_only_overlapping_irreversible_plans() {
    let plan = s("plan-1");
    assert_eq!(remote_contradiction_plan_impact(Some(&plan), true, true), RemotePlanImpact::VerificationRequired);
    assert_eq!(remote_contradiction_plan_impact(Some(&plan), true, false), RemotePlanImpact::NoChange);
    assert_eq!(remote_contradiction_plan_impact(None, true, true), RemotePlanImpact::NoChange);
}

#[test]
fn identical_environments_are_compatible() {
    let a = EnvironmentIdentity::default();
    let b = EnvironmentIdentity::default();
    let r = assess_environment_compatibility(&a, &b);
    assert_eq!(r.matched_dimensions, vec![s("kind")]);
    assert!(r.mismatched_dimensions.is_empty());
    assert_ne!(r.status, EnvironmentCompatibilityStatus::Incompatible);
}

#[test]
fn fresh_identifiers_differ_and_keep_their_prefix() {
    let a = fresh_id("portfolio-");
    let b = fresh_id("portfolio-");
    assert!(a.starts_with("portfolio-"));
    assert_eq!(a.len(), "portfolio-".len() + 36);
    assert_ne!(a, b);
}

#[test]
fn text_helpers_behave_as_their_contracts_say() {
    let mut out = s("n=");
    append_decimal(&mut out, 1207);
    assert_eq!(out, "n=1207");
    let mut zero = String::new();
    append_decimal(&mut zero, 0);
    assert_eq!(zero, "0");
    assert_eq!(trim_str("  a b \t"), "a b");
    assert_eq!(trim_str("   "), "");
    assert!(is_blank(" \n"));
    assert!(!is_blank(" x"));
    assert!(str_eq("é", "é"));
    assert_eq!(find("ab://cd://", "://"), Some(2));
}
