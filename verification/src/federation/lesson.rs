//! Exporting a lesson and reproducing an external one: lineage hashes over the JSON of an
//! object's lineage, the evidence counts a portable lesson carries, the refusals and plan of
//! a local reproduction, and what its outcome means for the external object. Reading and
//! writing the store, and running the reproduction experiment, are left to the caller.
use vstd::prelude::*;
use crate::digest::{blake3_digest, blake3_hash, hex_text, push_hex};
use crate::error::Error;
use crate::experience::Outcome;
use crate::experiment::ExperimentStatus;
use crate::federation::model::{
    ExperienceNodeId, FederatedExperienceState, ProvenanceNodeId, ReproductionResult, ReproductionStatus,
};
use crate::hierarchy::resolution::{append_json_text, json_text};

verus! {

/// The JSON text of the pair `(kind, value)`, where `value_json` is the JSON of the value.
pub open spec fn framed_json(kind: Seq<char>, value_json: Seq<u8>) -> Seq<u8> {
    vstd::utf8::encode_utf8(seq!['['] + json_text(kind) + seq![',']) + value_json + seq![93u8]
}

/// The JSON text of an array of strings.
pub open spec fn string_array_json(items: Seq<Seq<char>>) -> Seq<char>
    decreases items.len(),
{
    if items.len() == 0 {
        seq!['[', ']']
    } else {
        string_array_json(items.drop_last()).drop_last() + (if items.len() > 1 { seq![','] } else { Seq::empty() })
            + json_text(items.last()) + seq![']']
    }
}

/// The lowercase hex BLAKE3 digest of `bytes`.
fn hex_digest(bytes: &[u8]) -> (r: String)
    ensures
        r@ == hex_text(blake3_hash(bytes@)),
{
    let d = blake3_digest(bytes);
    let mut out = String::new();
    push_hex(&mut out, d.as_slice(), 0, 32);
    proof {
        assert(d@.subrange(0, 32) =~= d@);
    }
    out
}

/// The lineage hash of an object of `kind` whose lineage value has the JSON text
/// `value_json`: the hex BLAKE3 digest of the JSON of `(kind, value)`.
pub fn lineage_hash(kind: &str, value_json: &[u8]) -> (r: String)
    ensures
        r@ == hex_text(blake3_hash(framed_json(kind@, value_json@))),
{
    let mut head = String::from_str("[");
    proof {
        reveal_strlit("[");
        reveal_strlit(",");
    }
    append_json_text(&mut head, kind);
    head.append(",");
    let mut bytes: Vec<u8> = head.as_str().as_bytes_vec();
    let ghost start = bytes@;
    let mut i: usize = 0;
    while i < value_json.len()
        invariant
            i <= value_json@.len(),
            bytes@ == start + value_json@.subrange(0, i as int),
        decreases value_json.len() - i,
    {
        bytes.push(value_json[i]);
        proof {
            assert(value_json@.subrange(0, i + 1) =~= value_json@.subrange(0, i as int).push(value_json@[i as int]));
        }
        i = i + 1;
    }
    bytes.push(93u8);
    proof {
        assert(value_json@.subrange(0, i as int) =~= value_json@);
        assert(head@ =~= seq!['['] + json_text(kind@) + seq![',']);
        assert(bytes@ =~= framed_json(kind@, value_json@));
    }
    hex_digest(bytes.as_slice())
}

/// The provenance identity digest of `parts`: the hex BLAKE3 digest of their JSON array.
pub fn provenance_digest(parts: &Vec<String>) -> (r: String)
    ensures
        r@ == hex_text(blake3_hash(vstd::utf8::encode_utf8(string_array_json(parts@.map_values(|p: String| p@))))),
{
    let ghost items = parts@.map_values(|p: String| p@);
    let mut text = String::from_str("[]");
    proof {
        reveal_strlit("[]");
        reveal_strlit(",");
        reveal_strlit("]");
        assert(items.take(0) =~= Seq::<Seq<char>>::empty());
    }
    let mut i: usize = 0;
    while i < parts.len()
        invariant
            i <= parts@.len(),
            items == parts@.map_values(|p: String| p@),
            text@ == string_array_json(items.take(i as int)),
        decreases parts.len() - i,
    {
        let mut next = String::new();
        let ghost prev = text@;
        let n = text.unicode_len();
        proof {
            assert(prev.len() > 0) by {
                if i > 0 {
                    assert(items.take(i as int).len() > 0);
                }
            }
        }
        next.append(text.as_str().substring_char(0, n - 1));
        if i > 0 {
            next.append(",");
        }
        append_json_text(&mut next, parts[i].as_str());
        next.append("]");
        proof {
            reveal_strlit(",");
            reveal_strlit("]");
            assert(items.take(i + 1).drop_last() =~= items.take(i as int));
            assert(items.take(i + 1).last() == parts@[i as int]@);
            assert(prev.subrange(0, n - 1) =~= prev.drop_last());
            assert(items.take(i + 1).len() == i + 1);
            let t = items.take(i + 1);
            assert(string_array_json(t) == string_array_json(t.drop_last()).drop_last() + (if t.len() > 1 {
                seq![',']
            } else {
                Seq::empty()
            }) + json_text(t.last()) + seq![']']);
            assert(next@ =~= string_array_json(items.take(i + 1)));
        }
        text = next;
        i = i + 1;
    }
    proof {
        assert(items.take(i as int) =~= items);
    }
    hex_digest(text.as_str().as_bytes_vec().as_slice())
}

/// How one local application of a lesson went.
#[derive(Clone, Copy, Debug)]
pub struct LessonApplicationRecord {
    pub success: bool,
    pub observed: bool,
}

/// The observed applications that succeeded (`success`) or failed (`!success`).
pub open spec fn observed_count(apps: Seq<LessonApplicationRecord>, success: bool) -> nat
    decreases apps.len(),
{
    if apps.len() == 0 {
        0
    } else {
        observed_count(apps.drop_last(), success) + if apps.last().observed && apps.last().success == success {
            1nat
        } else {
            0nat
        }
    }
}

/// The completed experiments about lesson `lesson`.
pub open spec fn completed_count(exps: Seq<(String, ExperimentStatus)>, lesson: Seq<char>) -> nat
    decreases exps.len(),
{
    if exps.len() == 0 {
        0
    } else {
        completed_count(exps.drop_last(), lesson) + if exps.last().0@ == lesson && exps.last().1 == ExperimentStatus::Completed {
            1nat
        } else {
            0nat
        }
    }
}

/// The evidence a portable lesson carries.
#[derive(Debug)]
pub struct PortableEvidenceSummary {
    pub support_count: usize,
    pub contradiction_count: usize,
    pub experiment_count: usize,
    pub application_count: usize,
    pub evaluation_summaries: Vec<String>,
    pub evidence_hashes: Vec<String>,
}

/// A lesson's portable evidence: supports are its controlled supports and observed successful
/// applications, contradictions its controlled contradictions and observed failed
/// applications; experiments are the completed ones about it.
pub fn evidence_summary(
    controlled_supports: usize,
    controlled_contradictions: usize,
    applications: &Vec<LessonApplicationRecord>,
    experiments: &Vec<(String, ExperimentStatus)>,
    lesson_id: &str,
    evaluation_summary: String,
    evidence_hashes: Vec<String>,
) -> (r: PortableEvidenceSummary)
    requires
        controlled_supports + applications@.len() <= usize::MAX,
        controlled_contradictions + applications@.len() <= usize::MAX,
    ensures
        r.support_count == controlled_supports + observed_count(applications@, true),
        r.contradiction_count == controlled_contradictions + observed_count(applications@, false),
        r.experiment_count == completed_count(experiments@, lesson_id@),
        r.application_count == applications@.len(),
        r.evaluation_summaries@ == seq![evaluation_summary],
        r.evidence_hashes@ == evidence_hashes@,
{
    let mut supports = controlled_supports;
    let mut contradictions = controlled_contradictions;
    let mut i: usize = 0;
    while i < applications.len()
        invariant
            i <= applications@.len(),
            controlled_supports + applications@.len() <= usize::MAX,
            controlled_contradictions + applications@.len() <= usize::MAX,
            supports == controlled_supports + observed_count(applications@.take(i as int), true),
            contradictions == controlled_contradictions + observed_count(applications@.take(i as int), false),
            observed_count(applications@.take(i as int), true) <= i,
            observed_count(applications@.take(i as int), false) <= i,
        decreases applications.len() - i,
    {
        let a = applications[i];
        proof {
            assert(applications@.take(i + 1).drop_last() =~= applications@.take(i as int));
        }
        if a.observed && a.success {
            supports = supports + 1;
        }
        if a.observed && !a.success {
            contradictions = contradictions + 1;
        }
        i = i + 1;
    }
    let mut completed: usize = 0;
    let mut k: usize = 0;
    while k < experiments.len()
        invariant
            k <= experiments@.len(),
            completed == completed_count(experiments@.take(k as int), lesson_id@),
            completed <= k,
        decreases experiments.len() - k,
    {
        proof {
            assert(experiments@.take(k + 1).drop_last() =~= experiments@.take(k as int));
        }
        if crate::text::str_eq(experiments[k].0.as_str(), lesson_id) && experiments[k].1 == ExperimentStatus::Completed {
            completed = completed + 1;
        }
        k = k + 1;
    }
    proof {
        assert(applications@.take(i as int) =~= applications@);
        assert(experiments@.take(k as int) =~= experiments@);
    }
    let mut summaries: Vec<String> = Vec::new();
    summaries.push(evaluation_summary);
    PortableEvidenceSummary {
        support_count: supports,
        contradiction_count: contradictions,
        experiment_count: completed,
        application_count: applications.len(),
        evaluation_summaries: summaries,
        evidence_hashes,
    }
}

/// An object's identity across nodes: where it came from and the hash of its lineage.
#[derive(Debug)]
pub struct FederatedObjectIdentity {
    pub origin_node: ExperienceNodeId,
    pub origin_object_id: String,
    pub lineage_hash: String,
}

/// The parts of a portable lesson that exporting it computes.
#[derive(Debug)]
pub struct PortableLessonRecord {
    pub identity: FederatedObjectIdentity,
    pub claim: String,
    pub evaluation_checks: Vec<String>,
    pub evidence_summary: PortableEvidenceSummary,
    pub freshness: String,
    pub provenance_ref: ProvenanceNodeId,
}

/// The provenance digest of a lesson exported by `node` with lineage hash `hash`.
pub open spec fn lesson_provenance_hex(node: Seq<char>, hash: Seq<char>) -> Seq<char> {
    hex_text(blake3_hash(vstd::utf8::encode_utf8(string_array_json(seq![node, "lesson"@, hash]))))
}

/// A lesson as `node` exports it: its identity hashes the JSON of `("lesson", lineage)`,
/// where `lineage_json` is the JSON of the lesson's claim, context match, avoided and
/// preferred actions and creation time; its provenance node hashes the node, `"lesson"` and
/// that lineage hash. Refused only where that digest does not make a provenance identity.
pub fn portable_lesson(
    node: &ExperienceNodeId,
    lesson_id: &str,
    lineage_json: &[u8],
    claim: String,
    evaluation_checks: Vec<String>,
    summary: PortableEvidenceSummary,
) -> (r: Result<PortableLessonRecord, Error>)
    ensures
        ({
            let hash = hex_text(blake3_hash(framed_json("lesson"@, lineage_json@)));
            let prov = lesson_provenance_hex(node.view(), hash);
            &&& r is Ok <==> crate::federation::model::prefixed_digest("hk-provenance:"@, "hk-provenance:"@ + prov)
            &&& r matches Ok(p) ==> {
                &&& p.identity.origin_node.view() == node.view()
                &&& p.identity.origin_object_id@ == lesson_id@
                &&& p.identity.lineage_hash@ == hash
                &&& p.claim == claim
                &&& p.evaluation_checks == evaluation_checks
                &&& p.evidence_summary == summary
                &&& p.freshness@ == "source-reported; local receiver must reassess"@
                &&& p.provenance_ref.view() == "hk-provenance:"@ + prov
            }
        }),
{
    let hash = lineage_hash("lesson", lineage_json);
    let mut parts: Vec<String> = Vec::new();
    parts.push(String::from_str(node.as_str()));
    parts.push(String::from_str("lesson"));
    parts.push(String::from_str(hash.as_str()));
    proof {
        assert(parts@.map_values(|p: String| p@) =~= seq![node.view(), "lesson"@, hash@]);
    }
    let prov = provenance_digest(&parts);
    let provenance_ref = match ProvenanceNodeId::from_digest(prov.as_str()) {
        Ok(p) => p,
        Err(e) => return Err(e),
    };
    Ok(PortableLessonRecord {
        identity: FederatedObjectIdentity {
            origin_node: node.duplicate(),
            origin_object_id: String::from_str(lesson_id),
            lineage_hash: hash,
        },
        claim,
        evaluation_checks,
        evidence_summary: summary,
        freshness: String::from_str("source-reported; local receiver must reassess"),
        provenance_ref,
    })
}

/// What a local reproduction runs: the remote baseline and alternative as shell scripts, the
/// evaluator checks, and the session and question it is filed under.
#[derive(Debug)]
pub struct ReproductionPlan {
    pub baseline: String,
    pub alternative: String,
    pub checks: Vec<String>,
    pub session_id: String,
    pub question: String,
}

/// Plans the local reproduction of external object `object_id`. Refused, in this order,
/// unless it is a lesson; unless it has a shell baseline (`baseline`, from its avoided
/// action) and a shell alternative (from its preferred action); and unless some evaluator
/// check is given, either `requested_checks` or, where none are requested, the lesson's own.
pub fn reproduction_plan(
    object_id: &str,
    object_type: &str,
    origin_object_id: &str,
    baseline: Option<String>,
    alternative: Option<String>,
    requested_checks: Vec<String>,
    lesson_checks: Vec<String>,
) -> (r: Result<ReproductionPlan, Error>)
    ensures
        object_type@ != "lesson"@ ==> (r matches Err(e) && e is InvalidInput && e.message_spec()
            == "V0.7 controlled reproduction currently supports external Lessons"@),
        object_type@ == "lesson"@ && baseline is None ==> (r matches Err(e) && e is Intervention && e.message_spec()
            == "External Lesson has no reproducible shell baseline"@),
        object_type@ == "lesson"@ && baseline is Some && alternative is None ==> (r matches Err(e) && e is Intervention
            && e.message_spec() == "External Lesson has no reproducible shell alternative"@),
        object_type@ == "lesson"@ && baseline is Some && alternative is Some && requested_checks@.len() == 0
            && lesson_checks@.len() == 0 ==> (r matches Err(e) && e is Intervention && e.message_spec()
            == "Local reproduction needs explicit evaluator checks"@),
        r is Ok <==> (object_type@ == "lesson"@ && baseline is Some && alternative is Some && (requested_checks@.len() > 0
            || lesson_checks@.len() > 0)),
        r matches Ok(p) ==> {
            &&& p.baseline == baseline->0
            &&& p.alternative == alternative->0
            &&& p.checks == if requested_checks@.len() == 0 { lesson_checks } else { requested_checks }
            &&& p.session_id@ == "federation:"@ + object_id@
            &&& p.question@ == "Locally reproduce external Lesson "@ + origin_object_id@
        },
{
    if !crate::text::str_eq(object_type, "lesson") {
        return Err(Error::InvalidInput(String::from_str("V0.7 controlled reproduction currently supports external Lessons")));
    }
    let baseline = match baseline {
        Some(b) => b,
        None => return Err(Error::Intervention(String::from_str("External Lesson has no reproducible shell baseline"))),
    };
    let alternative = match alternative {
        Some(a) => a,
        None => return Err(Error::Intervention(String::from_str("External Lesson has no reproducible shell alternative"))),
    };
    let checks = if requested_checks.len() == 0 { lesson_checks } else { requested_checks };
    if checks.len() == 0 {
        return Err(Error::Intervention(String::from_str("Local reproduction needs explicit evaluator checks")));
    }
    let mut session_id = String::from_str("federation:");
    session_id.append(object_id);
    let mut question = String::from_str("Locally reproduce external Lesson ");
    question.append(origin_object_id);
    Ok(ReproductionPlan { baseline, alternative, checks, session_id, question })
}

pub open spec fn reproduction_result_spec(baseline: Option<Outcome>, alternative: Option<Outcome>) -> ReproductionResult {
    match (baseline, alternative) {
        (Some(Outcome::Failure), Some(Outcome::Success)) => ReproductionResult::Supports,
        (Some(Outcome::Success), Some(Outcome::Failure)) => ReproductionResult::Contradicts,
        (Some(_), Some(_)) => ReproductionResult::Inconclusive,
        _ => ReproductionResult::CannotReproduce,
    }
}

/// What a reproduction shows: support where the remote baseline fails and the alternative
/// succeeds locally, contradiction where it is the other way round, inconclusive for any
/// other pair of outcomes, and no reproduction where either candidate has no result.
pub fn reproduction_result(baseline: Option<Outcome>, alternative: Option<Outcome>) -> (r: ReproductionResult)
    ensures
        r == reproduction_result_spec(baseline, alternative),
{
    match (baseline, alternative) {
        (Some(Outcome::Failure), Some(Outcome::Success)) => ReproductionResult::Supports,
        (Some(Outcome::Success), Some(Outcome::Failure)) => ReproductionResult::Contradicts,
        (Some(_), Some(_)) => ReproductionResult::Inconclusive,
        _ => ReproductionResult::CannotReproduce,
    }
}

/// The external object's local reproduction status after a reproduction.
pub fn reproduction_status(r: ReproductionResult) -> (s: ReproductionStatus)
    ensures
        s == match r {
            ReproductionResult::Supports => ReproductionStatus::Supports,
            ReproductionResult::Contradicts => ReproductionStatus::Contradicts,
            ReproductionResult::Inconclusive => ReproductionStatus::Inconclusive,
            ReproductionResult::CannotReproduce => ReproductionStatus::CannotReproduce,
        },
{
    match r {
        ReproductionResult::Supports => ReproductionStatus::Supports,
        ReproductionResult::Contradicts => ReproductionStatus::Contradicts,
        ReproductionResult::Inconclusive => ReproductionStatus::Inconclusive,
        ReproductionResult::CannotReproduce => ReproductionStatus::CannotReproduce,
    }
}

/// The external object's state after a reproduction: locally supported or contradicted, or
/// unchanged otherwise.
pub fn reproduced_state(r: ReproductionResult, current: FederatedExperienceState) -> (s: FederatedExperienceState)
    ensures
        s == match r {
            ReproductionResult::Supports => FederatedExperienceState::LocallySupported,
            ReproductionResult::Contradicts => FederatedExperienceState::LocallyContradicted,
            _ => current,
        },
{
    match r {
        ReproductionResult::Supports => FederatedExperienceState::LocallySupported,
        ReproductionResult::Contradicts => FederatedExperienceState::LocallyContradicted,
        _ => current,
    }
}

} // verus!
