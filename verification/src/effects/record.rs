//! The experience an authoritative effect leaves: what its execution and evaluation record,
//! how it is tagged, which earlier experience it relates to, and the hash of its evidence.
//! Writing the artifacts and the store is left to the caller.
use vstd::prelude::*;
use crate::digest::{blake3_digest, blake3_hash, hex_text, push_hex};
use crate::experience::Outcome;
use crate::text::str_eq;

verus! {

/// How an effect's experience relates to an earlier one.
#[derive(Clone, Copy, Debug, PartialEq, Eq, Structural)]
pub enum EffectRelationKind {
    CompensationOf,
    ReconciliationOf,
    CommitOf,
}

/// What recording an effect of kind `kind` computes.
#[derive(Debug)]
pub struct EffectExperiencePlan {
    pub task: String,
    pub agent_kind: String,
    pub args: Vec<String>,
    pub exit_code: i32,
    pub check_output: String,
    pub summary: String,
    pub outcome: Outcome,
    pub tags: Vec<String>,
    pub context_tags: Vec<String>,
    pub relation: EffectRelationKind,
    pub relation_link: String,
    pub evidence_hash: String,
}

pub open spec fn relation_of(kind: Seq<char>) -> EffectRelationKind {
    if kind == "compensation"@ {
        EffectRelationKind::CompensationOf
    } else if kind == "reconciliation"@ {
        EffectRelationKind::ReconciliationOf
    } else {
        EffectRelationKind::CommitOf
    }
}

/// The link kind under which the related experience is found: a compensation relates to the
/// commit, any other record to the experimental candidate.
pub open spec fn relation_link_of(kind: Seq<char>) -> Seq<char> {
    if kind == "compensation"@ {
        "commit"@
    } else {
        "experimental_candidate"@
    }
}

fn cat(a: &str, b: &str) -> (r: String)
    ensures
        r@ == a@ + b@,
{
    let mut s = String::from_str(a);
    s.append(b);
    s
}

/// The record of effect `effect_id` on adapter `adapter`, of kind `kind` (commit,
/// compensation, reconciliation), that succeeded or not, whose evidence has the JSON text
/// `evidence_json`.
pub fn effect_experience_plan(effect_id: &str, adapter: &str, kind: &str, success: bool, evidence_json: &[u8]) -> (r:
    EffectExperiencePlan)
    ensures
        r.task@ == "Authoritative external effect "@ + kind@ + " "@ + effect_id@,
        r.agent_kind@ == "effect-adapter:"@ + adapter@,
        r.args@.len() == 2 && r.args@[0]@ == kind@ && r.args@[1]@ == effect_id@,
        r.exit_code == if success { 0i32 } else { 1i32 },
        r.check_output@ == if success {
            "authoritative effect evidence recorded\n"@
        } else {
            "authoritative effect operation did not fully succeed\n"@
        },
        r.summary@ == if success {
            "Authoritative external effect and receipt observed"@
        } else {
            "External compensation outcome requires review"@
        },
        r.outcome == if success { Outcome::Success } else { Outcome::Failure },
        r.tags@.len() == 2 && r.tags@[0]@ == "authoritative-effect"@ && r.tags@[1]@ == "effect:"@ + kind@,
        r.context_tags@.len() == 2 && r.context_tags@[0]@ == "effect:"@ + kind@ && r.context_tags@[1]@ == "adapter:"@
            + adapter@,
        r.relation == relation_of(kind@),
        r.relation_link@ == relation_link_of(kind@),
        r.evidence_hash@ == hex_text(blake3_hash(evidence_json@)),
{
    let mut task = cat("Authoritative external effect ", kind);
    task.append(" ");
    task.append(effect_id);
    let mut args: Vec<String> = Vec::new();
    args.push(String::from_str(kind));
    args.push(String::from_str(effect_id));
    let mut tags: Vec<String> = Vec::new();
    tags.push(String::from_str("authoritative-effect"));
    tags.push(cat("effect:", kind));
    let mut context_tags: Vec<String> = Vec::new();
    context_tags.push(cat("effect:", kind));
    context_tags.push(cat("adapter:", adapter));
    let (relation, link) = if str_eq(kind, "compensation") {
        (EffectRelationKind::CompensationOf, "commit")
    } else if str_eq(kind, "reconciliation") {
        (EffectRelationKind::ReconciliationOf, "experimental_candidate")
    } else {
        (EffectRelationKind::CommitOf, "experimental_candidate")
    };
    let d = blake3_digest(evidence_json);
    let mut hash = String::new();
    push_hex(&mut hash, d.as_slice(), 0, 32);
    proof {
        assert(d@.subrange(0, 32) =~= d@);
    }
    EffectExperiencePlan {
        task,
        agent_kind: cat("effect-adapter:", adapter),
        args,
        exit_code: if success { 0 } else { 1 },
        check_output: String::from_str(
            if success {
                "authoritative effect evidence recorded\n"
            } else {
                "authoritative effect operation did not fully succeed\n"
            },
        ),
        summary: String::from_str(
            if success {
                "Authoritative external effect and receipt observed"
            } else {
                "External compensation outcome requires review"
            },
        ),
        outcome: if success { Outcome::Success } else { Outcome::Failure },
        tags,
        context_tags,
        relation,
        relation_link: String::from_str(link),
        evidence_hash: hash,
    }
}

} // verus!
