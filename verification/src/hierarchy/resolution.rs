//! Resolution of the knowledge that applies in a context: applicability and lifecycle first,
//! then health dependencies, then the precedence relations, each proven by evidence.
use vstd::prelude::*;
use crate::epistemic::ExperienceActivationState;
use crate::error::Error;
use crate::hierarchy::{
    key_bytes, AppliedKnowledge, AppliedKnowledgeRole, EffectiveKnowledge, FreshnessStatus,
    KnowledgeArtifactRef, KnowledgeConflict, KnowledgeConflictKind, KnowledgeHierarchy,
    KnowledgeHierarchyEdge, KnowledgeHierarchyNode, KnowledgeHierarchyRelation, KnowledgeMaturity,
    KnowledgeResolutionPolicy, KnowledgeResolutionStep, ResolutionAction, SuppressedKnowledge,
    SuppressionReason, UnknownKnowledge, UnknownKnowledgeReason,
};
use crate::hierarchy::relation::{DeterministicScopeRelationEvaluator, ScopeRelation};
use crate::hierarchy::scope::{
    predicates_same, ApplicabilityStatus, DeterministicApplicabilityEvaluator, KnowledgeApplicability,
    KnowledgeContext, KnowledgeScope, ScopePredicate,
};
use crate::hierarchy::validation::{
    first_pos, lemma_node_at, lemma_node_keys_distinct, node_at, string_views, edge_order, hierarchy_sound, is_node, node_index, node_keys, topological, validate_hierarchy,
    EdgeSelection, HierarchyValidationIssue, HierarchyValidationIssueKind,
    KnowledgeHierarchyValidationReport,
};
use crate::text::{bytes_lt, str_eq};
use crate::digest::hex_char;

verus! {

/// The rank of a support stage; terminal and degraded states have none.
pub open spec fn maturity_rank(m: KnowledgeMaturity) -> Option<u8> {
    match m {
        KnowledgeMaturity::Candidate => Some(0),
        KnowledgeMaturity::TransferTestable => Some(1),
        KnowledgeMaturity::Supported => Some(2),
        KnowledgeMaturity::Validated => Some(3),
        _ => None,
    }
}

fn maturity_rank_exec(m: KnowledgeMaturity) -> (r: Option<u8>)
    ensures
        r == maturity_rank(m),
{
    match m {
        KnowledgeMaturity::Candidate => Some(0),
        KnowledgeMaturity::TransferTestable => Some(1),
        KnowledgeMaturity::Supported => Some(2),
        KnowledgeMaturity::Validated => Some(3),
        _ => None,
    }
}

/// A resolution is refused for an unsound hierarchy, a minimum maturity that is not a support
/// stage, or a policy that lets stale exceptions override.
pub open spec fn resolution_refused(h: KnowledgeHierarchy, policy: KnowledgeResolutionPolicy) -> bool {
    !hierarchy_sound(h) || maturity_rank(policy.minimum_primary_maturity) is None || policy.stale_exception_can_override
}

/// The node may take authoritative precedence: active, fresh, mature enough, evidence-backed,
/// with a scope that applies.
pub open spec fn authoritative(n: KnowledgeHierarchyNode, threshold: u8, status: ApplicabilityStatus) -> bool {
    &&& status == ApplicabilityStatus::Applicable
    &&& n.activation == ExperienceActivationState::Active
    &&& n.freshness == FreshnessStatus::Fresh
    &&& n.maturity != KnowledgeMaturity::Stale
    &&& maturity_rank(n.maturity) is Some
    &&& maturity_rank(n.maturity)->0 >= threshold
    &&& n.provenance.evidence@.len() > 0
}

/// The keys at the flagged positions, in order.
pub open spec fn flagged_keys(keys: Seq<Seq<char>>, flags: Seq<bool>, upto: int) -> Seq<Seq<char>>
    decreases upto,
{
    if upto <= 0 {
        seq![]
    } else if flags[upto - 1] {
        flagged_keys(keys, flags, upto - 1).push(keys[upto - 1])
    } else {
        flagged_keys(keys, flags, upto - 1)
    }
}

pub open spec fn keys_ordered(s: Seq<Seq<char>>) -> bool {
    forall|a: int, b: int| 0 <= a < b < s.len() ==> bytes_lt(key_bytes(#[trigger] s[a]), key_bytes(#[trigger] s[b]))
}

pub open spec fn applied_nodes(s: Seq<AppliedKnowledge>) -> Seq<Seq<char>> {
    s.map_values(|x: AppliedKnowledge| x.node@)
}

pub open spec fn suppressed_nodes(s: Seq<SuppressedKnowledge>) -> Seq<Seq<char>> {
    s.map_values(|x: SuppressedKnowledge| x.node@)
}

pub open spec fn unknown_nodes(s: Seq<UnknownKnowledge>) -> Seq<Seq<char>> {
    s.map_values(|x: UnknownKnowledge| x.node@)
}

pub open spec fn one_if(b: bool) -> int {
    if b { 1 } else { 0 }
}

/// Every node is reported exactly once: applied, advisory, suppressed or unknown; nothing
/// else is reported; each list is in node-key order.
pub open spec fn partitions_nodes(h: KnowledgeHierarchy, r: EffectiveKnowledge) -> bool {
    &&& forall|k: Seq<char>| #[trigger] is_node(h, k) ==> one_if(applied_nodes(r.applied@).contains(k)) + one_if(
        applied_nodes(r.advisory@).contains(k)) + one_if(suppressed_nodes(r.suppressed@).contains(k)) + one_if(
        unknown_nodes(r.unknown@).contains(k)) == 1
    &&& forall|k: Seq<char>| applied_nodes(r.applied@).contains(k) ==> is_node(h, k)
    &&& forall|k: Seq<char>| applied_nodes(r.advisory@).contains(k) ==> is_node(h, k)
    &&& forall|k: Seq<char>| suppressed_nodes(r.suppressed@).contains(k) ==> is_node(h, k)
    &&& forall|k: Seq<char>| unknown_nodes(r.unknown@).contains(k) ==> is_node(h, k)
    &&& keys_ordered(applied_nodes(r.applied@))
    &&& keys_ordered(applied_nodes(r.advisory@))
    &&& keys_ordered(suppressed_nodes(r.suppressed@))
    &&& keys_ordered(unknown_nodes(r.unknown@))
}

/// Trace steps are numbered from one.
pub open spec fn trace_numbered(t: Seq<KnowledgeResolutionStep>) -> bool {
    forall|k: int| 0 <= k < t.len() ==> (#[trigger] t[k]).sequence == if k + 1 <= u64::MAX { (k + 1) as u64 } else { u64::MAX }
}

proof fn lemma_flagged_contains(keys: Seq<Seq<char>>, flags: Seq<bool>, upto: int, k: Seq<char>)
    requires
        0 <= upto <= keys.len(),
        upto <= flags.len(),
    ensures
        flagged_keys(keys, flags, upto).contains(k) == exists|i: int| 0 <= i < upto && flags[i] && keys[i] == k,
    decreases upto,
{
    if upto > 0 {
        lemma_flagged_contains(keys, flags, upto - 1, k);
        let prev = flagged_keys(keys, flags, upto - 1);
        if flags[upto - 1] {
            assert(flagged_keys(keys, flags, upto) == prev.push(keys[upto - 1]));
            if prev.contains(k) {
                let q = choose|q: int| 0 <= q < prev.len() && prev[q] == k;
                assert(prev.push(keys[upto - 1])[q] == k);
            }
            let cur = prev.push(keys[upto - 1]);
            if cur.contains(k) && k != keys[upto - 1] {
                let q = choose|q: int| 0 <= q < cur.len() && #[trigger] cur[q] == k;
                assert(prev[q] == k);
            }
            if k == keys[upto - 1] {
                assert(prev.push(keys[upto - 1])[prev.len() as int] == k);
            }
        }
    }
}

/// `k` is one of the first `upto` keys.
#[verifier::opaque]
pub open spec fn key_before(keys: Seq<Seq<char>>, upto: int, k: Seq<char>) -> bool {
    exists|i: int| 0 <= i < upto && keys[i] == k
}

proof fn lemma_flagged_ordered(keys: Seq<Seq<char>>, flags: Seq<bool>, upto: int)
    requires
        0 <= upto <= keys.len(),
        upto <= flags.len(),
        keys_ordered(keys),
    ensures
        keys_ordered(flagged_keys(keys, flags, upto)),
        forall|x: int| 0 <= x < flagged_keys(keys, flags, upto).len() ==> key_before(keys, upto, #[trigger] flagged_keys(keys, flags, upto)[x]),
    decreases upto,
{
    if upto > 0 {
        lemma_flagged_ordered(keys, flags, upto - 1);
        let prev = flagged_keys(keys, flags, upto - 1);
        if flags[upto - 1] {
            let cur = prev.push(keys[upto - 1]);
            assert forall|x: int| 0 <= x < cur.len() implies key_before(keys, upto, #[trigger] cur[x]) by {
                reveal(key_before);
                if x < prev.len() {
                    assert(cur[x] == prev[x]);
                    assert(key_before(keys, upto - 1, prev[x]));
                    let i = choose|i: int| 0 <= i < upto - 1 && keys[i] == prev[x];
                    assert(0 <= i < upto && keys[i] == cur[x]);
                } else {
                    assert(cur[x] == keys[upto - 1]);
                }
            }
            assert forall|a: int, b: int| 0 <= a < b < cur.len() implies bytes_lt(
                key_bytes(#[trigger] cur[a]),
                key_bytes(#[trigger] cur[b]),
            ) by {
                if b < prev.len() {
                    assert(cur[a] == prev[a] && cur[b] == prev[b]);
                } else {
                    assert(cur[a] == prev[a]);
                    assert(key_before(keys, upto - 1, prev[a]));
                    reveal(key_before);
                    let i = choose|i: int| 0 <= i < upto - 1 && keys[i] == prev[a];
                    assert(bytes_lt(key_bytes(keys[i]), key_bytes(keys[upto - 1])));
                }
            }
        } else {
            assert(flagged_keys(keys, flags, upto) == prev);
            assert forall|x: int| 0 <= x < prev.len() implies key_before(keys, upto, #[trigger] prev[x]) by {
                reveal(key_before);
                assert(key_before(keys, upto - 1, prev[x]));
                let i = choose|i: int| 0 <= i < upto - 1 && keys[i] == prev[x];
                assert(0 <= i < upto && keys[i] == prev[x]);
            }
        }
    }
}

fn text(s: &str) -> (r: String)
    ensures
        r@ == s@,
{
    String::from_str(s)
}

fn push_step(trace: &mut Vec<KnowledgeResolutionStep>, node: &String, action: ResolutionAction, reason: String)
    requires
        trace_numbered(old(trace)@),
    ensures
        trace_numbered(final(trace)@),
        final(trace)@.len() == old(trace)@.len() + 1,
        final(trace)@.drop_last() == old(trace)@,
        step_is(final(trace)@.last(), node@, action, reason@),
{
    let len = trace.len() as u64;
    let sequence = if len < u64::MAX { len + 1 } else { u64::MAX };
    let ghost before = trace@;
    trace.push(KnowledgeResolutionStep { sequence, node: node.clone(), action, reason });
    proof {
        assert(trace@.drop_last() =~= before);
        assert forall|k: int| 0 <= k < trace@.len() implies (#[trigger] trace@[k]).sequence == if k + 1 <= u64::MAX {
            (k + 1) as u64
        } else {
            u64::MAX
        } by {
            if k < before.len() {
                assert(trace@[k] == before[k]);
            }
        }
    }
}

fn duplicate_artifact(a: &KnowledgeArtifactRef) -> (r: KnowledgeArtifactRef)
    ensures
        r == *a,
{
    KnowledgeArtifactRef { kind: a.kind, id: a.id.clone(), revision: a.revision }
}

fn duplicate_predicates(v: &Vec<ScopePredicate>) -> (r: Vec<ScopePredicate>)
    ensures
        predicates_same(r@, v@),
{
    let mut r: Vec<ScopePredicate> = Vec::new();
    let mut i: usize = 0;
    while i < v.len()
        invariant
            i <= v@.len(),
            r@.len() == i,
            forall|k: int| 0 <= k < i ==> crate::hierarchy::scope::predicate_same(#[trigger] r@[k], v@[k]),
        decreases v.len() - i,
    {
        r.push(v[i].duplicate());
        i = i + 1;
    }
    r
}

fn duplicate_applicability(a: &KnowledgeApplicability) -> (r: KnowledgeApplicability)
    ensures
        r.status == a.status,
        predicates_same(r.matched@, a.matched@),
        predicates_same(r.failed@, a.failed@),
        predicates_same(r.unknown@, a.unknown@),
{
    KnowledgeApplicability {
        status: a.status,
        matched: duplicate_predicates(&a.matched),
        failed: duplicate_predicates(&a.failed),
        unknown: duplicate_predicates(&a.unknown),
    }
}

/// A step of the trace records this node, action and reason.
pub open spec fn step_is(step: KnowledgeResolutionStep, node: Seq<char>, action: ResolutionAction, reason: Seq<char>) -> bool {
    step.node@ == node && step.action == action && step.reason@ == reason
}

/// The variant's name, as `Debug` prints it.
pub open spec fn reason_name_spec(r: SuppressionReason) -> Seq<char> {
    match r {
        SuppressionReason::ExplicitException => "ExplicitException"@,
        SuppressionReason::MoreSpecificSpecialization => "MoreSpecificSpecialization"@,
        SuppressionReason::Superseded => "Superseded"@,
        SuppressionReason::StaleOverride => "StaleOverride"@,
        SuppressionReason::Contradicted => "Contradicted"@,
        SuppressionReason::Inactive => "Inactive"@,
        SuppressionReason::Inapplicable => "Inapplicable"@,
    }
}

/// The variant's name, as `Debug` prints it.
pub open spec fn unknown_reason_name_spec(r: UnknownKnowledgeReason) -> Seq<char> {
    match r {
        UnknownKnowledgeReason::MissingContext => "MissingContext"@,
        UnknownKnowledgeReason::UnsupportedPredicate => "UnsupportedPredicate"@,
        UnknownKnowledgeReason::IncompleteScopeMatch => "IncompleteScopeMatch"@,
        UnknownKnowledgeReason::FreshnessUnknown => "FreshnessUnknown"@,
        UnknownKnowledgeReason::EvidenceStateUnknown => "EvidenceStateUnknown"@,
    }
}

/// The variant's name, as `Debug` prints it.
pub open spec fn role_name_spec(r: AppliedKnowledgeRole) -> Seq<char> {
    match r {
        AppliedKnowledgeRole::Primary => "Primary"@,
        AppliedKnowledgeRole::Refinement => "Refinement"@,
        AppliedKnowledgeRole::Exception => "Exception"@,
        AppliedKnowledgeRole::SupportingContext => "SupportingContext"@,
    }
}

/// The variant's name, as `Debug` prints it.
pub open spec fn relation_name_spec(r: KnowledgeHierarchyRelation) -> Seq<char> {
    match r {
        KnowledgeHierarchyRelation::Specializes => "Specializes"@,
        KnowledgeHierarchyRelation::Refines => "Refines"@,
        KnowledgeHierarchyRelation::Excepts => "Excepts"@,
        KnowledgeHierarchyRelation::Supersedes => "Supersedes"@,
        KnowledgeHierarchyRelation::DependsOn => "DependsOn"@,
    }
}

/// A character as `Debug` writes it inside a quoted string: quotes and backslashes escaped.
pub open spec fn quoted_char(c: char) -> Seq<char> {
    if c == '"' {
        seq!['\\', '"']
    } else if c == '\\' {
        seq!['\\', '\\']
    } else {
        seq![c]
    }
}

pub open spec fn quoted_body(s: Seq<char>) -> Seq<char>
    decreases s.len(),
{
    if s.len() == 0 {
        Seq::empty()
    } else {
        quoted_body(s.drop_last()) + quoted_char(s.last())
    }
}

/// `s` between double quotes, quotes and backslashes escaped.
pub open spec fn quoted(s: Seq<char>) -> Seq<char> {
    seq!['"'] + quoted_body(s) + seq!['"']
}

/// The reason recorded when a node is suppressed.
pub open spec fn suppression_text_spec(reason: SuppressionReason, by: Option<String>) -> Seq<char> {
    reason_name_spec(reason) + "; suppressor="@ + match by {
        Some(b) => "Some("@ + quoted(b@) + ")"@,
        None => "None"@,
    }
}

/// The reason recorded when a node is left unknown.
pub open spec fn unknown_text_spec(reason: UnknownKnowledgeReason) -> Seq<char> {
    unknown_reason_name_spec(reason) + "; cannot override known guidance"@
}

fn reason_name(r: SuppressionReason) -> (t: &'static str)
    ensures
        t@ == reason_name_spec(r),
{
    match r {
        SuppressionReason::ExplicitException => "ExplicitException",
        SuppressionReason::MoreSpecificSpecialization => "MoreSpecificSpecialization",
        SuppressionReason::Superseded => "Superseded",
        SuppressionReason::StaleOverride => "StaleOverride",
        SuppressionReason::Contradicted => "Contradicted",
        SuppressionReason::Inactive => "Inactive",
        SuppressionReason::Inapplicable => "Inapplicable",
    }
}

fn unknown_reason_name(r: UnknownKnowledgeReason) -> (t: &'static str)
    ensures
        t@ == unknown_reason_name_spec(r),
{
    match r {
        UnknownKnowledgeReason::MissingContext => "MissingContext",
        UnknownKnowledgeReason::UnsupportedPredicate => "UnsupportedPredicate",
        UnknownKnowledgeReason::IncompleteScopeMatch => "IncompleteScopeMatch",
        UnknownKnowledgeReason::FreshnessUnknown => "FreshnessUnknown",
        UnknownKnowledgeReason::EvidenceStateUnknown => "EvidenceStateUnknown",
    }
}

fn role_name(r: AppliedKnowledgeRole) -> (t: &'static str)
    ensures
        t@ == role_name_spec(r),
{
    match r {
        AppliedKnowledgeRole::Primary => "Primary",
        AppliedKnowledgeRole::Refinement => "Refinement",
        AppliedKnowledgeRole::Exception => "Exception",
        AppliedKnowledgeRole::SupportingContext => "SupportingContext",
    }
}

fn relation_name(r: KnowledgeHierarchyRelation) -> (t: &'static str)
    ensures
        t@ == relation_name_spec(r),
{
    match r {
        KnowledgeHierarchyRelation::Specializes => "Specializes",
        KnowledgeHierarchyRelation::Refines => "Refines",
        KnowledgeHierarchyRelation::Excepts => "Excepts",
        KnowledgeHierarchyRelation::Supersedes => "Supersedes",
        KnowledgeHierarchyRelation::DependsOn => "DependsOn",
    }
}

/// `"text"` with quotes and backslashes escaped, as a debug rendering of a string.
fn append_quoted(out: &mut String, s: &str)
    ensures
        final(out)@ == old(out)@ + quoted(s@),
{
    let ghost start = out@;
    let open = "\"";
    proof {
        reveal_strlit("\"");
    }
    out.append(open);
    let mut i: usize = 0;
    let n = s.unicode_len();
    proof {
        assert(s@.take(0) =~= Seq::<char>::empty());
    }
    while i < n
        invariant
            n == s@.len(),
            i <= n,
            out@ == start + seq!['"'] + quoted_body(s@.take(i as int)),
        decreases n - i,
    {
        let c = s.get_char(i);
        let ghost before = out@;
        if c == '"' {
            let esc = "\\\"";
            proof {
                reveal_strlit("\\\"");
            }
            out.append(esc);
        } else if c == '\\' {
            let esc = "\\\\";
            proof {
                reveal_strlit("\\\\");
            }
            out.append(esc);
        } else {
            out.append(s.substring_char(i, i + 1));
            proof {
                assert(s@.subrange(i as int, i + 1) =~= seq![c]);
            }
        }
        proof {
            assert(s@.take(i + 1).drop_last() =~= s@.take(i as int));
            assert(s@.take(i + 1).last() == c);
            assert(out@ =~= start + seq!['"'] + quoted_body(s@.take(i + 1)));
        }
        i = i + 1;
    }
    out.append(open);
    proof {
        assert(s@.take(n as int) =~= s@);
        assert(out@ =~= start + quoted(s@));
    }
}

// ------------------------------------------------------------------------------------------
// The working ledger: one slot per node, filled exactly once.
// ------------------------------------------------------------------------------------------

struct Ledger {
    eligible: Vec<bool>,
    suppressed: Vec<Option<SuppressedKnowledge>>,
    unknown: Vec<Option<UnknownKnowledge>>,
    advisory: Vec<Option<AppliedKnowledge>>,
    scopes: Vec<KnowledgeApplicability>,
    trace: Vec<KnowledgeResolutionStep>,
}

impl Ledger {
    spec fn sized(&self, n: int) -> bool {
        &&& self.eligible@.len() == n
        &&& self.suppressed@.len() == n
        &&& self.unknown@.len() == n
        &&& self.advisory@.len() == n
    }

    /// Slot `i` is filled exactly once, by an entry for key `key`.
    spec fn slot_ok(&self, i: int, key: Seq<char>) -> bool {
        &&& one_if(self.eligible@[i]) + one_if(self.suppressed@[i] is Some) + one_if(self.unknown@[i] is Some) + one_if(
            self.advisory@[i] is Some) == 1
        &&& self.suppressed@[i] is Some ==> self.suppressed@[i]->0.node@ == key
        &&& self.unknown@[i] is Some ==> self.unknown@[i]->0.node@ == key
        &&& self.advisory@[i] is Some ==> self.advisory@[i]->0.node@ == key
    }

    /// Slot `i` is still empty.
    spec fn slot_empty(&self, i: int) -> bool {
        &&& !self.eligible@[i]
        &&& self.suppressed@[i] is None
        &&& self.unknown@[i] is None
        &&& self.advisory@[i] is None
    }

    /// Every slot is filled once and every eligible node may take precedence.
    spec fn settled(&self, h: KnowledgeHierarchy, threshold: u8) -> bool {
        &&& self.sized(h.nodes@.len() as int)
        &&& self.scopes@.len() == h.nodes@.len()
        &&& forall|i: int| 0 <= i < h.nodes@.len() ==> #[trigger] self.slot_ok(i, h.nodes@[i].0@)
        &&& forall|i: int| 0 <= i < h.nodes@.len() && #[trigger] self.eligible@[i] ==> authoritative(
            h.nodes@[i].1,
            threshold,
            self.scopes@[i].status,
        )
        &&& trace_numbered(self.trace@)
    }
}

fn suppress_entry(n: &KnowledgeHierarchyNode, reason: SuppressionReason, by: Option<String>) -> (r: SuppressedKnowledge)
    ensures
        r.node@ == n.id@,
        r.reason == reason,
        r.suppressed_by == by,
{
    SuppressedKnowledge { artifact: duplicate_artifact(&n.artifact), node: n.id.clone(), reason, suppressed_by: by }
}

fn suppression_text(reason: SuppressionReason, by: &Option<String>) -> (t: String)
    ensures
        t@ == suppression_text_spec(reason, *by),
{
    let mut t = text(reason_name(reason));
    t.append("; suppressor=");
    match by {
        Some(b) => {
            t.append("Some(");
            append_quoted(&mut t, b.as_str());
            t.append(")");
        },
        None => t.append("None"),
    }
    t
}

fn unknown_text(reason: UnknownKnowledgeReason) -> (t: String)
    ensures
        t@ == unknown_text_spec(reason),
{
    let mut t = text(unknown_reason_name(reason));
    t.append("; cannot override known guidance");
    t
}

/// Applicability and lifecycle of every node, independently of precedence.
/// `a` is what evaluating `scope` in `context` reports.
pub open spec fn scope_evaluated(scope: KnowledgeScope, context: KnowledgeContext, a: KnowledgeApplicability) -> bool {
    exists|order: Seq<ScopePredicate>|
        crate::hierarchy::scope::canonical_order(scope.predicates@, order) && crate::hierarchy::scope::reports(
            order,
            context.values@,
            a,
        )
}

fn assess_nodes(
    h: &KnowledgeHierarchy,
    context: &KnowledgeContext,
    policy: &KnowledgeResolutionPolicy,
    threshold: u8,
) -> (l: Ledger)
    requires
        context.wf(),
        crate::hierarchy::validation::nodes_sound(*h),
    ensures
        l.settled(*h, threshold),
        forall|i: int| 0 <= i < h.nodes@.len() ==> scope_evaluated(h.nodes@[i].1.scope, *context, #[trigger] l.scopes@[i]),
        forall|i: int| 0 <= i < h.nodes@.len() ==> #[trigger] l.eligible@[i] == authoritative(
            h.nodes@[i].1,
            threshold,
            l.scopes@[i].status,
        ),
{
    let n = h.nodes.len();
    let mut l = Ledger {
        eligible: Vec::new(),
        suppressed: Vec::new(),
        unknown: Vec::new(),
        advisory: Vec::new(),
        scopes: Vec::new(),
        trace: Vec::new(),
    };
    let mut k: usize = 0;
    while k < n
        invariant
            k <= n,
            n == h.nodes@.len(),
            l.sized(k as int),
            l.scopes@.len() == 0,
            l.trace@.len() == 0,
            forall|j: int| 0 <= j < k ==> #[trigger] l.slot_empty(j),
        decreases n - k,
    {
        let ghost prev = l;
        l.eligible.push(false);
        l.suppressed.push(None);
        l.unknown.push(None);
        l.advisory.push(None);
        proof {
            assert forall|j: int| 0 <= j < k + 1 implies #[trigger] l.slot_empty(j) by {
                if j < k {
                    assert(prev.slot_empty(j));
                    assert(l.eligible@[j] == prev.eligible@[j]);
                    assert(l.suppressed@[j] == prev.suppressed@[j]);
                    assert(l.unknown@[j] == prev.unknown@[j]);
                    assert(l.advisory@[j] == prev.advisory@[j]);
                }
            }
        }
        k = k + 1;
    }
    let mut i: usize = 0;
    while i < n
        invariant
            i <= n,
            n == h.nodes@.len(),
            context.wf(),
            crate::hierarchy::validation::nodes_sound(*h),
            l.sized(n as int),
            l.scopes@.len() == i,
            forall|j: int| 0 <= j < i ==> #[trigger] l.slot_ok(j, h.nodes@[j].0@),
            forall|j: int| i <= j < n ==> #[trigger] l.slot_empty(j),
            forall|j: int| 0 <= j < i && #[trigger] l.eligible@[j] ==> authoritative(h.nodes@[j].1, threshold, l.scopes@[j].status),
            forall|j: int| 0 <= j < i ==> scope_evaluated(h.nodes@[j].1.scope, *context, #[trigger] l.scopes@[j]),
            forall|j: int| 0 <= j < i ==> #[trigger] l.eligible@[j] == authoritative(h.nodes@[j].1, threshold, l.scopes@[j].status),
            trace_numbered(l.trace@),
        decreases n - i,
    {
        let ghost start = l;
        let id = &h.nodes[i].0;
        let node = &h.nodes[i].1;
        proof {
            assert(node.id@ == id@);
            assert(l.slot_empty(i as int));
        }
        let mut candidate = text("Candidate ");
        candidate.append(node.artifact.id.as_str());
        candidate.append(" revision ");
        crate::text::append_decimal(&mut candidate, node.artifact.revision);
        push_step(&mut l.trace, id, ResolutionAction::CandidateFound, candidate);
        let a = DeterministicApplicabilityEvaluator.evaluate(&node.scope, context);
        match a.status {
            ApplicabilityStatus::Inapplicable => {
                push_step(&mut l.trace, id, ResolutionAction::ScopeRejected, text("At least one required predicate failed"));
                let by: Option<String> = None;
                push_step(&mut l.trace, &node.id, ResolutionAction::Suppressed, suppression_text(SuppressionReason::Inapplicable, &by));
                l.suppressed.set(i, Some(suppress_entry(node, SuppressionReason::Inapplicable, None)));
            },
            ApplicabilityStatus::Unknown | ApplicabilityStatus::PartiallyKnown => {
                push_step(
                    &mut l.trace,
                    id,
                    ResolutionAction::ScopeUnknown,
                    text("Incomplete applicability cannot override known parent guidance"),
                );
                let mut custom = false;
                let mut q: usize = 0;
                while q < a.unknown.len()
                    invariant
                        q <= a.unknown@.len(),
                    decreases a.unknown.len() - q,
                {
                    if let ScopePredicate::Custom { .. } = &a.unknown[q] {
                        custom = true;
                    }
                    q = q + 1;
                }
                let reason = if custom {
                    UnknownKnowledgeReason::UnsupportedPredicate
                } else if a.matched.len() > 0 {
                    UnknownKnowledgeReason::IncompleteScopeMatch
                } else {
                    UnknownKnowledgeReason::MissingContext
                };
                l.unknown.set(i, Some(UnknownKnowledge { artifact: duplicate_artifact(&node.artifact), node: id.clone(), reason }));
            },
            ApplicabilityStatus::Applicable => {
                push_step(&mut l.trace, id, ResolutionAction::ScopeMatched, text("All required predicates matched"));
                if node.freshness == FreshnessStatus::Contradicted || node.maturity == KnowledgeMaturity::Contradicted {
                    let by: Option<String> = None;
                    push_step(&mut l.trace, &node.id, ResolutionAction::Suppressed, suppression_text(SuppressionReason::Contradicted, &by));
                    l.suppressed.set(i, Some(suppress_entry(node, SuppressionReason::Contradicted, None)));
                } else if node.activation == ExperienceActivationState::Disabled || node.activation
                    == ExperienceActivationState::Quarantined || node.maturity == KnowledgeMaturity::Retired
                    || node.maturity == KnowledgeMaturity::Overgeneralized {
                    let by: Option<String> = None;
                    push_step(&mut l.trace, &node.id, ResolutionAction::Suppressed, suppression_text(SuppressionReason::Inactive, &by));
                    l.suppressed.set(i, Some(suppress_entry(node, SuppressionReason::Inactive, None)));
                } else if node.freshness == FreshnessStatus::Unknown {
                    push_step(&mut l.trace, &node.id, ResolutionAction::LifecycleRejected, unknown_text(UnknownKnowledgeReason::FreshnessUnknown));
                    l.unknown.set(i, Some(UnknownKnowledge {
                        artifact: duplicate_artifact(&node.artifact),
                        node: node.id.clone(),
                        reason: UnknownKnowledgeReason::FreshnessUnknown,
                    }));
                } else {
                    let fresh = node.freshness == FreshnessStatus::Fresh && node.maturity != KnowledgeMaturity::Stale;
                    let mature = match maturity_rank_exec(node.maturity) {
                        Some(rank) => rank >= threshold,
                        None => false,
                    };
                    let supported = node.provenance.evidence.len() > 0;
                    if node.activation == ExperienceActivationState::Active && fresh && mature && supported {
                        l.eligible.set(i, true);
                        push_step(
                            &mut l.trace,
                            id,
                            ResolutionAction::ScopeMatched,
                            text("Active, fresh, sufficiently mature, evidence-backed, non-contradicted"),
                        );
                    } else {
                        push_step(&mut l.trace, id, ResolutionAction::LifecycleRejected, text("Not eligible for authoritative precedence"));
                        if !supported {
                            push_step(&mut l.trace, &node.id, ResolutionAction::LifecycleRejected, unknown_text(UnknownKnowledgeReason::EvidenceStateUnknown));
                            l.unknown.set(i, Some(UnknownKnowledge {
                                artifact: duplicate_artifact(&node.artifact),
                                node: node.id.clone(),
                                reason: UnknownKnowledgeReason::EvidenceStateUnknown,
                            }));
                        } else if (fresh || policy.allow_stale_advisory) && (mature || policy.allow_candidate_advisory
                            || node.maturity == KnowledgeMaturity::Stale) {
                            l.advisory.set(i, Some(AppliedKnowledge {
                                artifact: duplicate_artifact(&node.artifact),
                                node: node.id.clone(),
                                role: AppliedKnowledgeRole::SupportingContext,
                                applicability: duplicate_applicability(&a),
                                lineage: Vec::new(),
                            }));
                        } else {
                            let reason = if !fresh { SuppressionReason::StaleOverride } else { SuppressionReason::Inactive };
                            let by: Option<String> = None;
                            push_step(&mut l.trace, &node.id, ResolutionAction::Suppressed, suppression_text(reason, &by));
                            l.suppressed.set(i, Some(suppress_entry(node, reason, None)));
                        }
                    }
                }
            },
        }
        l.scopes.push(a);
        proof {
            assert(l.scopes@[i as int] == a);
            assert(scope_evaluated(h.nodes@[i as int].1.scope, *context, l.scopes@[i as int]));
            assert(l.eligible@[i as int] == authoritative(h.nodes@[i as int].1, threshold, l.scopes@[i as int].status));
            assert forall|j: int| 0 <= j < i + 1 implies scope_evaluated(h.nodes@[j].1.scope, *context, #[trigger] l.scopes@[j]) by {
                if j < i {
                    assert(l.scopes@[j] == start.scopes@[j]);
                }
            }
            assert forall|j: int| 0 <= j < i + 1 implies #[trigger] l.eligible@[j] == authoritative(
                h.nodes@[j].1,
                threshold,
                l.scopes@[j].status,
            ) by {
                if j < i {
                    assert(l.scopes@[j] == start.scopes@[j]);
                    assert(l.eligible@[j] == start.eligible@[j]);
                }
            }
            assert(l.slot_ok(i as int, h.nodes@[i as int].0@));
            assert forall|j: int| 0 <= j < i + 1 implies #[trigger] l.slot_ok(j, h.nodes@[j].0@) by {
                if j < i {
                    assert(start.slot_ok(j, h.nodes@[j].0@));
                    assert(l.eligible@[j] == start.eligible@[j]);
                    assert(l.suppressed@[j] == start.suppressed@[j]);
                    assert(l.unknown@[j] == start.unknown@[j]);
                    assert(l.advisory@[j] == start.advisory@[j]);
                }
            }
            assert forall|j: int| i + 1 <= j < n implies #[trigger] l.slot_empty(j) by {
                assert(start.slot_empty(j));
                assert(l.eligible@[j] == start.eligible@[j]);
                assert(l.suppressed@[j] == start.suppressed@[j]);
                assert(l.unknown@[j] == start.unknown@[j]);
                assert(l.advisory@[j] == start.advisory@[j]);
            }
            assert forall|j: int| 0 <= j < i + 1 && #[trigger] l.eligible@[j] implies authoritative(
                h.nodes@[j].1,
                threshold,
                l.scopes@[j].status,
            ) by {
                if j < i {
                    assert(l.eligible@[j] == start.eligible@[j]);
                    assert(l.scopes@[j] == start.scopes@[j]);
                }
            }
        }
        i = i + 1;
    }
    l
}

fn demote_to_unknown(
    l: &mut Ledger,
    h: &KnowledgeHierarchy,
    threshold: u8,
    i: usize,
    reason: UnknownKnowledgeReason,
)
    requires
        old(l).settled(*h, threshold),
        crate::hierarchy::validation::nodes_sound(*h),
        i < h.nodes@.len(),
        old(l).eligible@[i as int],
    ensures
        final(l).settled(*h, threshold),
        final(l).eligible@ == old(l).eligible@.update(i as int, false),
        final(l).scopes@ == old(l).scopes@,
        final(l).suppressed@ == old(l).suppressed@,
        final(l).advisory@ == old(l).advisory@,
        final(l).unknown@ == old(l).unknown@.update(i as int, final(l).unknown@[i as int]),
        final(l).unknown@[i as int] is Some,
        final(l).unknown@[i as int]->0.reason == reason,
        final(l).trace@.len() == old(l).trace@.len() + 1,
        final(l).trace@.drop_last() == old(l).trace@,
        step_is(final(l).trace@.last(), h.nodes@[i as int].0@, ResolutionAction::LifecycleRejected, unknown_text_spec(reason)),
{
    let node = &h.nodes[i].1;
    let ghost start = *l;
    proof {
        assert(start.slot_ok(i as int, h.nodes@[i as int].0@));
        assert(h.nodes@[i as int].0@ == node.id@);
    }
    push_step(&mut l.trace, &node.id, ResolutionAction::LifecycleRejected, unknown_text(reason));
    l.eligible.set(i, false);
    l.unknown.set(i, Some(UnknownKnowledge { artifact: duplicate_artifact(&node.artifact), node: node.id.clone(), reason }));
    proof {
        assert forall|j: int| 0 <= j < h.nodes@.len() implies #[trigger] l.slot_ok(j, h.nodes@[j].0@) by {
            assert(start.slot_ok(j, h.nodes@[j].0@));
        }
        assert forall|j: int| 0 <= j < h.nodes@.len() && #[trigger] l.eligible@[j] implies authoritative(
            h.nodes@[j].1,
            threshold,
            l.scopes@[j].status,
        ) by {
            assert(start.eligible@[j]);
        }
    }
}

/// The action that records a suppression.
pub open spec fn suppression_action(reason: SuppressionReason) -> ResolutionAction {
    if reason == SuppressionReason::Superseded {
        ResolutionAction::Superseded
    } else {
        ResolutionAction::Suppressed
    }
}

fn demote_to_suppressed(
    l: &mut Ledger,
    h: &KnowledgeHierarchy,
    threshold: u8,
    i: usize,
    reason: SuppressionReason,
    by: Option<String>,
)
    requires
        old(l).settled(*h, threshold),
        crate::hierarchy::validation::nodes_sound(*h),
        i < h.nodes@.len(),
        old(l).eligible@[i as int],
    ensures
        final(l).settled(*h, threshold),
        final(l).eligible@ == old(l).eligible@.update(i as int, false),
        final(l).scopes@ == old(l).scopes@,
        final(l).unknown@ == old(l).unknown@,
        final(l).advisory@ == old(l).advisory@,
        final(l).suppressed@ == old(l).suppressed@.update(i as int, final(l).suppressed@[i as int]),
        final(l).suppressed@[i as int] is Some,
        final(l).suppressed@[i as int]->0.reason == reason,
        final(l).suppressed@[i as int]->0.suppressed_by == by,
        final(l).trace@.len() == old(l).trace@.len() + 1,
        final(l).trace@.drop_last() == old(l).trace@,
        step_is(final(l).trace@.last(), h.nodes@[i as int].0@, suppression_action(reason), suppression_text_spec(reason, by)),
{
    let node = &h.nodes[i].1;
    let ghost start = *l;
    proof {
        assert(start.slot_ok(i as int, h.nodes@[i as int].0@));
    }
    let action = if reason == SuppressionReason::Superseded { ResolutionAction::Superseded } else { ResolutionAction::Suppressed };
    proof {
        assert(h.nodes@[i as int].0@ == node.id@);
    }
    push_step(&mut l.trace, &node.id, action, suppression_text(reason, &by));
    l.eligible.set(i, false);
    l.suppressed.set(i, Some(suppress_entry(node, reason, by)));
    proof {
        assert forall|j: int| 0 <= j < h.nodes@.len() implies #[trigger] l.slot_ok(j, h.nodes@[j].0@) by {
            assert(start.slot_ok(j, h.nodes@[j].0@));
        }
        assert forall|j: int| 0 <= j < h.nodes@.len() && #[trigger] l.eligible@[j] implies authoritative(
            h.nodes@[j].1,
            threshold,
            l.scopes@[j].status,
        ) by {
            assert(start.eligible@[j]);
        }
    }
}

pub open spec fn count_false(s: Seq<bool>) -> nat
    decreases s.len(),
{
    if s.len() == 0 {
        0
    } else {
        count_false(s.drop_last()) + if s.last() { 0nat } else { 1nat }
    }
}

proof fn lemma_count_false_set(s: Seq<bool>, i: int)
    requires
        0 <= i < s.len(),
        !s[i],
    ensures
        count_false(s.update(i, true)) + 1 == count_false(s),
    decreases s.len(),
{
    let t = s.update(i, true);
    if i == s.len() - 1 {
        assert(t.drop_last() =~= s.drop_last());
    } else {
        assert(t.drop_last() =~= s.drop_last().update(i, true));
        lemma_count_false_set(s.drop_last(), i);
    }
}

fn falses(n: usize) -> (v: Vec<bool>)
    ensures
        v@.len() == n,
        forall|i: int| 0 <= i < n ==> !#[trigger] v@[i],
{
    let mut v: Vec<bool> = Vec::new();
    let mut k: usize = 0;
    while k < n
        invariant
            k <= n,
            v@.len() == k,
            forall|i: int| 0 <= i < k ==> !#[trigger] v@[i],
        decreases n - k,
    {
        v.push(false);
        k = k + 1;
    }
    v
}

/// The (edge, child) pairs over the edges listed in `order` that run from node `p` to a
/// node over `relation`, in that order.
pub open spec fn children_spec(
    h: KnowledgeHierarchy,
    order: Seq<usize>,
    p: int,
    relation: KnowledgeHierarchyRelation,
) -> Seq<(usize, usize)>
    decreases order.len(),
{
    if order.len() == 0 {
        Seq::empty()
    } else {
        let j = order.last();
        let e = h.edges@[j as int];
        children_spec(h, order.drop_last(), p, relation) + if e.relation == relation && e.parent@ == h.nodes@[p].0@
            && is_node(h, e.child@) {
            seq![(j, first_pos(h, e.child@) as usize)]
        } else {
            Seq::empty()
        }
    }
}

/// The children of node `p` over edges of `relation`, with their edges, in edge order.
fn children_of(
    h: &KnowledgeHierarchy,
    order: &Vec<usize>,
    p: usize,
    relation: KnowledgeHierarchyRelation,
) -> (r: Vec<(usize, usize)>)
    requires
        p < h.nodes@.len(),
        forall|q: int| 0 <= q < order@.len() ==> #[trigger] order@[q] < h.edges@.len(),
    ensures
        forall|k: int| 0 <= k < r@.len() ==> (#[trigger] r@[k]).0 < h.edges@.len() && r@[k].1 < h.nodes@.len(),
        r@ == children_spec(*h, order@, p as int, relation),
{
    let mut r: Vec<(usize, usize)> = Vec::new();
    let mut q: usize = 0;
    while q < order.len()
        invariant
            q <= order@.len(),
            p < h.nodes@.len(),
            forall|x: int| 0 <= x < order@.len() ==> #[trigger] order@[x] < h.edges@.len(),
            forall|k: int| 0 <= k < r@.len() ==> (#[trigger] r@[k]).0 < h.edges@.len() && r@[k].1 < h.nodes@.len(),
            r@ == children_spec(*h, order@.take(q as int), p as int, relation),
        decreases order.len() - q,
    {
        let j = order[q];
        let e = &h.edges[j];
        proof {
            assert(order@.take(q + 1).drop_last() =~= order@.take(q as int));
            assert(order@.take(q + 1).last() == j);
        }
        if e.relation == relation && str_eq(e.parent.as_str(), h.nodes[p].0.as_str()) {
            if let Some(c) = node_index(h, e.child.as_str()) {
                r.push((j, c));
            }
        }
        proof {
            assert(r@ =~= children_spec(*h, order@.take(q + 1), p as int, relation));
        }
        q = q + 1;
    }
    proof {
        assert(order@.take(q as int) =~= order@);
    }
    r
}

/// Edge `j` makes node `c` depend on node `x`.
pub open spec fn health_edge(h: KnowledgeHierarchy, j: int, x: int, c: int) -> bool {
    &&& 0 <= j < h.edges@.len()
    &&& 0 <= x < h.nodes@.len()
    &&& 0 <= c < h.nodes@.len()
    &&& h.edges@[j].relation == KnowledgeHierarchyRelation::DependsOn
    &&& h.edges@[j].parent@ == h.nodes@[x].0@
    &&& h.edges@[j].child@ == h.nodes@[c].0@
}

/// Node `c` depends on node `x` over an edge listed in `order`.
pub open spec fn health_child(h: KnowledgeHierarchy, order: Seq<usize>, x: int, c: int) -> bool {
    exists|q: int| 0 <= q < order.len() && #[trigger] health_edge(h, order[q] as int, x, c)
}

/// Node `x` has no health of its own: it is not eligible, or no dependency order over
/// health edges (`drained`) reaches it.
pub open spec fn health_seed(h: KnowledgeHierarchy, eligible: Seq<bool>, drained: Seq<Seq<char>>, x: int) -> bool {
    !eligible[x] || !drained.contains(h.nodes@[x].0@)
}

/// `path` runs from a node without health of its own over dependencies listed in `order`.
pub open spec fn health_chain(
    h: KnowledgeHierarchy,
    order: Seq<usize>,
    eligible: Seq<bool>,
    drained: Seq<Seq<char>>,
    path: Seq<int>,
) -> bool {
    &&& path.len() >= 1
    &&& 0 <= path[0] < h.nodes@.len()
    &&& health_seed(h, eligible, drained, path[0])
    &&& forall|t: int| #![trigger path[t]] 0 <= t < path.len() - 1 ==> health_child(h, order, path[t], path[t + 1])
}

/// Node `x` is without health of its own or depends, directly or not, on such a node.
pub open spec fn unhealthy_node(
    h: KnowledgeHierarchy,
    order: Seq<usize>,
    eligible: Seq<bool>,
    drained: Seq<Seq<char>>,
    x: int,
) -> bool {
    exists|path: Seq<int>| #[trigger] health_chain(h, order, eligible, drained, path) && path.last() == x
}

/// The eligibility that health dependencies leave.
pub open spec fn healthy_eligible(
    h: KnowledgeHierarchy,
    order: Seq<usize>,
    eligible: Seq<bool>,
    drained: Seq<Seq<char>>,
) -> Seq<bool> {
    Seq::new(eligible.len(), |x: int| eligible[x] && !unhealthy_node(h, order, eligible, drained, x))
}

proof fn lemma_unhealthy_extend(
    h: KnowledgeHierarchy,
    order: Seq<usize>,
    eligible: Seq<bool>,
    drained: Seq<Seq<char>>,
    x: int,
    c: int,
    q: int,
)
    requires
        unhealthy_node(h, order, eligible, drained, x),
        0 <= q < order.len(),
        health_edge(h, order[q] as int, x, c),
    ensures
        unhealthy_node(h, order, eligible, drained, c),
{
    let path = choose|path: Seq<int>| #[trigger] health_chain(h, order, eligible, drained, path) && path.last() == x;
    let next = path.push(c);
    assert(health_child(h, order, x, c));
    assert forall|t: int| #![trigger next[t]] 0 <= t < next.len() - 1 implies health_child(h, order, next[t], next[t + 1]) by {
        if t < path.len() - 1 {
            assert(next[t] == path[t] && next[t + 1] == path[t + 1]);
        } else {
            assert(next[t] == x && next[t + 1] == c);
        }
    }
    assert(next[0] == path[0]);
    assert(health_chain(h, order, eligible, drained, next));
}

proof fn lemma_unhealthy_seed(h: KnowledgeHierarchy, order: Seq<usize>, eligible: Seq<bool>, drained: Seq<Seq<char>>, x: int)
    requires
        0 <= x < h.nodes@.len(),
        health_seed(h, eligible, drained, x),
    ensures
        unhealthy_node(h, order, eligible, drained, x),
{
    let path = seq![x];
    assert(health_chain(h, order, eligible, drained, path));
}

/// Every node of a health chain lies in a set that holds the seeds and the dependents of
/// each of its members.
proof fn lemma_health_chain_marked(
    h: KnowledgeHierarchy,
    order: Seq<usize>,
    eligible: Seq<bool>,
    drained: Seq<Seq<char>>,
    marked: Seq<bool>,
    path: Seq<int>,
)
    requires
        marked.len() == h.nodes@.len(),
        forall|x: int| 0 <= x < marked.len() && #[trigger] health_seed(h, eligible, drained, x) ==> marked[x],
        forall|x: int, q: int, c: int|
            0 <= x < marked.len() && marked[x] && 0 <= q < order.len() && #[trigger] health_edge(h, order[q] as int, x, c)
                ==> marked[c],
        health_chain(h, order, eligible, drained, path),
    ensures
        0 <= path.last() < marked.len() && marked[path.last()],
    decreases path.len(),
{
    if path.len() > 1 {
        let prev = path.drop_last();
        assert forall|t: int| #![trigger prev[t]] 0 <= t < prev.len() - 1 implies health_child(h, order, prev[t], prev[t + 1]) by {
            assert(prev[t] == path[t] && prev[t + 1] == path[t + 1]);
        }
        assert(prev[0] == path[0]);
        lemma_health_chain_marked(h, order, eligible, drained, marked, prev);
        let last = path.len() - 1;
        assert(path[last - 1] == prev.last());
        assert(health_child(h, order, path[last - 1], path[last]));
        let q = choose|q: int| 0 <= q < order.len() && #[trigger] health_edge(h, order[q] as int, path[last - 1], path[last]);
    } else {
        assert(path.last() == path[0]);
    }
}

/// `pair` is an edge listed in `order` with the node it runs to from node `p` over `relation`.
pub open spec fn listed_child(
    h: KnowledgeHierarchy,
    order: Seq<usize>,
    p: int,
    relation: KnowledgeHierarchyRelation,
    pair: (usize, usize),
) -> bool {
    &&& order.contains(pair.0)
    &&& pair.0 < h.edges@.len()
    &&& pair.1 < h.nodes@.len()
    &&& h.edges@[pair.0 as int].relation == relation
    &&& h.edges@[pair.0 as int].parent@ == h.nodes@[p].0@
    &&& h.edges@[pair.0 as int].child@ == h.nodes@[pair.1 as int].0@
}

/// The pairs that `children_spec` lists are the children over the listed edges.
proof fn lemma_children_spec(h: KnowledgeHierarchy, order: Seq<usize>, p: int, relation: KnowledgeHierarchyRelation)
    requires
        h.wf(),
        0 <= p < h.nodes@.len(),
        h.nodes@.len() <= usize::MAX,
        forall|q: int| 0 <= q < order.len() ==> #[trigger] order[q] < h.edges@.len(),
    ensures
        forall|k: int| 0 <= k < children_spec(h, order, p, relation).len() ==> listed_child(
            h,
            order,
            p,
            relation,
            #[trigger] children_spec(h, order, p, relation)[k],
        ),
        forall|q: int, c: int|
            0 <= q < order.len() && 0 <= c < h.nodes@.len() && h.edges@[order[q] as int].relation == relation
                && h.edges@[order[q] as int].parent@ == h.nodes@[p].0@ && #[trigger] h.edges@[order[q] as int].child@
                == #[trigger] h.nodes@[c].0@ ==> children_spec(h, order, p, relation).contains((order[q], c as usize)),
    decreases order.len(),
{
    lemma_node_keys_distinct(h);
    if order.len() > 0 {
        let prev = order.drop_last();
        lemma_children_spec(h, prev, p, relation);
        let cs = children_spec(h, order, p, relation);
        let ps = children_spec(h, prev, p, relation);
        let j = order.last();
        let e = h.edges@[j as int];
        assert forall|k: int| 0 <= k < cs.len() implies listed_child(h, order, p, relation, #[trigger] cs[k]) by {
            if k < ps.len() {
                assert(cs[k] == ps[k]);
                assert(listed_child(h, prev, p, relation, ps[k]));
                let q = choose|q: int| 0 <= q < prev.len() && prev[q] == ps[k].0;
                assert(order[q] == prev[q]);
            } else {
                let c = first_pos(h, e.child@);
                let w = choose|w: int| 0 <= w < node_keys(h).len() && node_keys(h)[w] == e.child@;
                assert(crate::hierarchy::validation::first_at(h, e.child@, w)) by {
                    assert forall|m: int| 0 <= m < w implies (#[trigger] h.nodes@[m]).0@ != e.child@ by {
                        assert(node_keys(h)[m] != node_keys(h)[w]);
                    }
                }
                crate::hierarchy::validation::lemma_first_pos(h, e.child@, w);
                assert(cs[k] == (j, c as usize));
                assert(order[order.len() - 1] == j);
                assert(order.contains(j));
                assert(c as usize as int == c);
            }
        }
        assert forall|q: int, c: int|
            0 <= q < order.len() && 0 <= c < h.nodes@.len() && h.edges@[order[q] as int].relation == relation
                && h.edges@[order[q] as int].parent@ == h.nodes@[p].0@ && #[trigger] h.edges@[order[q] as int].child@
                == #[trigger] h.nodes@[c].0@ implies cs.contains((order[q], c as usize)) by {
            if q < prev.len() {
                assert(prev[q] == order[q]);
                assert(h.edges@[prev[q] as int].child@ == h.nodes@[c].0@);
                assert(ps.contains((prev[q], c as usize)));
                let w = choose|w: int| 0 <= w < ps.len() && ps[w] == (prev[q], c as usize);
                assert(cs[w] == ps[w]);
            } else {
                assert(order[q] == j);
                assert(node_keys(h)[c] == e.child@);
                assert(crate::hierarchy::validation::first_at(h, e.child@, c)) by {
                    assert forall|m: int| 0 <= m < c implies (#[trigger] h.nodes@[m]).0@ != e.child@ by {
                        assert(node_keys(h)[m] != node_keys(h)[c]);
                    }
                }
                crate::hierarchy::validation::lemma_first_pos(h, e.child@, c);
                assert(cs[ps.len() as int] == (j, c as usize));
            }
        }
    }
}

/// The trace after `before` records, for each of `nodes` in order, that it was left unknown
/// for want of evidence.
pub open spec fn health_trace(
    h: KnowledgeHierarchy,
    trace: Seq<KnowledgeResolutionStep>,
    before: Seq<KnowledgeResolutionStep>,
    nodes: Seq<usize>,
) -> bool {
    &&& trace.len() == before.len() + nodes.len()
    &&& trace.subrange(0, before.len() as int) == before
    &&& forall|m: int| 0 <= m < nodes.len() ==> step_is(
        #[trigger] trace[before.len() + m],
        h.nodes@[nodes[m] as int].0@,
        ResolutionAction::LifecycleRejected,
        unknown_text_spec(UnknownKnowledgeReason::EvidenceStateUnknown),
    )
}

/// Health dependencies: prerequisites that are not eligible, or that no dependency order
/// reaches (they sit on or after a dependency cycle), leave every node that depends on them,
/// directly or not, without eligibility, as unknown for want of evidence.
fn propagate_health(l: &mut Ledger, h: &KnowledgeHierarchy, order: &Vec<usize>, threshold: u8)
    requires
        old(l).settled(*h, threshold),
        h.wf(),
        crate::hierarchy::validation::nodes_sound(*h),
        forall|q: int| 0 <= q < order@.len() ==> #[trigger] order@[q] < h.edges@.len(),
    ensures
        final(l).settled(*h, threshold),
        final(l).scopes@ == old(l).scopes@,
        final(l).suppressed@ == old(l).suppressed@,
        final(l).advisory@ == old(l).advisory@,
        exists|drained: Seq<Seq<char>>| {
            &&& crate::hierarchy::validation::drain_order(*h, EdgeSelection::Health, drained)
            &&& final(l).eligible@ == healthy_eligible(*h, order@, old(l).eligible@, drained)
        },
        exists|demoted: Seq<usize>| {
            &&& demoted.no_duplicates()
            &&& forall|x: int| 0 <= x < h.nodes@.len() ==> #[trigger] demoted.contains(x as usize) == (old(l).eligible@[x]
                && !final(l).eligible@[x])
            &&& health_trace(*h, final(l).trace@, old(l).trace@, demoted)
        },
        forall|x: int| 0 <= x < h.nodes@.len() ==> if old(l).eligible@[x] && !final(l).eligible@[x] {
            &&& (#[trigger] final(l).unknown@[x]) is Some
            &&& final(l).unknown@[x]->0.reason == UnknownKnowledgeReason::EvidenceStateUnknown
        } else {
            final(l).unknown@[x] == old(l).unknown@[x]
        },
{
    let ghost elig0 = l.eligible@;
    let ghost unknown0 = l.unknown@;
    let ghost trace0 = l.trace@;
    let ghost mut demoted: Seq<usize> = Seq::empty();
    let n = h.nodes.len();
    let health = topological(h, EdgeSelection::Health);
    let ghost drained = string_views(health@);
    proof {
        lemma_node_keys_distinct(*h);
    }
    let mut queue: Vec<usize> = Vec::new();
    let mut i: usize = 0;
    while i < n
        invariant
            i <= n,
            n == h.nodes@.len(),
            l.eligible@.len() == n,
            l.eligible@ == elig0,
            drained == string_views(health@),
            forall|k: int| 0 <= k < queue@.len() ==> #[trigger] queue@[k] < n
                && unhealthy_node(*h, order@, elig0, drained, queue@[k] as int),
            forall|x: int| 0 <= x < i && #[trigger] health_seed(*h, elig0, drained, x) ==> queue@.contains(x as usize),
        decreases n - i,
    {
        let ghost before = queue@;
        if !l.eligible[i] || !crate::hierarchy::validation::contains_string_pub(&health, h.nodes[i].0.as_str()) {
            queue.push(i);
            proof {
                lemma_unhealthy_seed(*h, order@, elig0, drained, i as int);
                assert(queue@[queue@.len() - 1] == i);
            }
        }
        proof {
            assert forall|k: int| 0 <= k < queue@.len() implies #[trigger] queue@[k] < n
                && unhealthy_node(*h, order@, elig0, drained, queue@[k] as int) by {
                if k < before.len() {
                    assert(queue@[k] == before[k]);
                }
            }
            assert forall|x: int| 0 <= x < i + 1 && #[trigger] health_seed(*h, elig0, drained, x) implies queue@.contains(x as usize) by {
                if x < i {
                    let w = choose|w: int| 0 <= w < before.len() && before[w] == x as usize;
                    assert(queue@[w] == x as usize);
                }
            }
        }
        i = i + 1;
    }
    let mut unhealthy = falses(n);
    let mut head: usize = 0;
    proof {
        assert(l.trace@.subrange(0, trace0.len() as int) =~= trace0);
    }
    while head < queue.len()
        invariant
            n == h.nodes@.len(),
            h.wf(),
            node_keys(*h).no_duplicates(),
            crate::hierarchy::validation::nodes_sound(*h),
            forall|q: int| 0 <= q < order@.len() ==> #[trigger] order@[q] < h.edges@.len(),
            l.settled(*h, threshold),
            l.scopes@ == old(l).scopes@,
            l.suppressed@ == old(l).suppressed@,
            l.advisory@ == old(l).advisory@,
            elig0 == old(l).eligible@,
            unknown0 == old(l).unknown@,
            trace0 == old(l).trace@,
            demoted.no_duplicates(),
            forall|x: int| 0 <= x < n ==> #[trigger] demoted.contains(x as usize) == (elig0[x] && unhealthy@[x]),
            forall|m: int| 0 <= m < demoted.len() ==> (#[trigger] demoted[m]) < n,
            health_trace(*h, l.trace@, trace0, demoted),
            drained == string_views(health@),
            unhealthy@.len() == n,
            head <= queue@.len(),
            forall|k: int| 0 <= k < queue@.len() ==> #[trigger] queue@[k] < n
                && unhealthy_node(*h, order@, elig0, drained, queue@[k] as int),
            forall|x: int| 0 <= x < n && #[trigger] health_seed(*h, elig0, drained, x) ==> queue@.contains(x as usize),
            forall|x: int| 0 <= x < n && #[trigger] unhealthy@[x] ==> unhealthy_node(*h, order@, elig0, drained, x),
            forall|k: int| 0 <= k < head ==> #[trigger] unhealthy@[queue@[k] as int],
            forall|x: int, q: int, c: int|
                0 <= x < n && unhealthy@[x] && 0 <= q < order@.len() && #[trigger] health_edge(*h, order@[q] as int, x, c)
                    ==> queue@.contains(c as usize),
            forall|x: int| 0 <= x < n ==> #[trigger] l.eligible@[x] == (elig0[x] && !unhealthy@[x]),
            forall|x: int| 0 <= x < n ==> if elig0[x] && unhealthy@[x] {
                &&& (#[trigger] l.unknown@[x]) is Some
                &&& l.unknown@[x]->0.reason == UnknownKnowledgeReason::EvidenceStateUnknown
            } else {
                l.unknown@[x] == unknown0[x]
            },
        decreases count_false(unhealthy@), queue@.len() - head,
    {
        let id = queue[head];
        head = head + 1;
        if !unhealthy[id] {
            let ghost q0 = queue@;
            let ghost un0 = l.unknown@;
            let ghost unh0 = unhealthy@;
            proof {
                lemma_count_false_set(unhealthy@, id as int);
            }
            unhealthy.set(id, true);
            let ghost dem_b = demoted;
            let ghost tr_b = l.trace@;
            if l.eligible[id] {
                demote_to_unknown(l, h, threshold, id, UnknownKnowledgeReason::EvidenceStateUnknown);
                proof {
                    demoted = demoted.push(id);
                    assert(dem_b.contains(id as int as usize) == (elig0[id as int] && unh0[id as int]));
                    assert(!dem_b.contains(id));
                    assert forall|a: int, b: int| 0 <= a < b < demoted.len() implies demoted[a] != demoted[b] by {
                        if b == demoted.len() - 1 {
                            assert(demoted[a] == dem_b[a]);
                        } else {
                            assert(demoted[a] == dem_b[a] && demoted[b] == dem_b[b]);
                        }
                    }
                    assert forall|u: usize| #[trigger] demoted.contains(u) == (dem_b.contains(u) || id == u) by {
                        lemma_contains_push(dem_b, id, u);
                    }
                    assert(l.trace@.subrange(0, trace0.len() as int) =~= tr_b.subrange(0, trace0.len() as int));
                    assert forall|m: int| 0 <= m < demoted.len() implies step_is(
                        #[trigger] l.trace@[trace0.len() + m],
                        h.nodes@[demoted[m] as int].0@,
                        ResolutionAction::LifecycleRejected,
                        unknown_text_spec(UnknownKnowledgeReason::EvidenceStateUnknown),
                    ) by {
                        if m < dem_b.len() {
                            assert(demoted[m] == dem_b[m]);
                            assert(l.trace@[trace0.len() + m] == tr_b[trace0.len() + m]);
                        } else {
                            assert(l.trace@[trace0.len() + m] == l.trace@.last());
                        }
                    }
                }
            }
            proof {
                assert forall|x: int| 0 <= x < n implies #[trigger] demoted.contains(x as usize) == (elig0[x] && unhealthy@[x]) by {
                    if x != id as int {
                        assert(x as usize != id);
                        assert(dem_b.contains(x as usize) == (elig0[x] && unh0[x]));
                    }
                }
            }
            proof {
                assert forall|x: int| 0 <= x < n && x != id implies #[trigger] l.unknown@[x] == un0[x] by {}
                assert forall|x: int| 0 <= x < n implies #[trigger] l.eligible@[x] == (elig0[x] && !unhealthy@[x]) by {
                    if x != id {
                        assert(unhealthy@[x] == unh0[x]);
                    }
                }
            }
            let kids = children_of(h, order, id, KnowledgeHierarchyRelation::DependsOn);
            proof {
                lemma_children_spec(*h, order@, id as int, KnowledgeHierarchyRelation::DependsOn);
            }
            let mut k: usize = 0;
            while k < kids.len()
                invariant
                    k <= kids@.len(),
                    n == h.nodes@.len(),
                    id < n,
                    forall|x: int| 0 <= x < kids@.len() ==> (#[trigger] kids@[x]).0 < h.edges@.len() && kids@[x].1 < n,
                    kids@ == children_spec(*h, order@, id as int, KnowledgeHierarchyRelation::DependsOn),
                    forall|kk: int| 0 <= kk < kids@.len() ==> listed_child(
                        *h,
                        order@,
                        id as int,
                        KnowledgeHierarchyRelation::DependsOn,
                        #[trigger] kids@[kk],
                    ),
                    unhealthy_node(*h, order@, elig0, drained, id as int),
                    queue@.len() >= q0.len(),
                    queue@.subrange(0, q0.len() as int) == q0,
                    forall|kk: int| 0 <= kk < k ==> queue@.contains(#[trigger] kids@[kk].1),
                    forall|x: int| 0 <= x < queue@.len() ==> #[trigger] queue@[x] < n
                        && unhealthy_node(*h, order@, elig0, drained, queue@[x] as int),
                decreases kids.len() - k,
            {
                let ghost qb = queue@;
                proof {
                    assert(listed_child(*h, order@, id as int, KnowledgeHierarchyRelation::DependsOn, kids@[k as int]));
                    let q = choose|q: int| 0 <= q < order@.len() && order@[q] == kids@[k as int].0;
                    assert(health_edge(*h, order@[q] as int, id as int, kids@[k as int].1 as int));
                    lemma_unhealthy_extend(*h, order@, elig0, drained, id as int, kids@[k as int].1 as int, q);
                }
                queue.push(kids[k].1);
                proof {
                    assert(queue@.subrange(0, q0.len() as int) =~= qb.subrange(0, q0.len() as int));
                    assert(queue@[queue@.len() - 1] == kids@[k as int].1);
                    assert forall|kk: int| 0 <= kk < k + 1 implies queue@.contains(#[trigger] kids@[kk].1) by {
                        if kk < k {
                            let w = choose|w: int| 0 <= w < qb.len() && qb[w] == kids@[kk].1;
                            assert(queue@[w] == kids@[kk].1);
                        }
                    }
                    assert forall|x: int| 0 <= x < queue@.len() implies #[trigger] queue@[x] < n
                        && unhealthy_node(*h, order@, elig0, drained, queue@[x] as int) by {
                        if x < qb.len() {
                            assert(queue@[x] == qb[x]);
                        }
                    }
                }
                k = k + 1;
            }
            proof {
                assert forall|x: int| 0 <= x < n && #[trigger] q0.contains(x as usize) implies queue@.contains(x as usize) by {
                    let w = choose|w: int| 0 <= w < q0.len() && q0[w] == x as usize;
                    assert(queue@.subrange(0, q0.len() as int)[w] == x as usize);
                    assert(queue@[w] == x as usize);
                }
                assert forall|x: int| 0 <= x < n && #[trigger] health_seed(*h, elig0, drained, x) implies queue@.contains(x as usize) by {
                    assert(q0.contains(x as usize));
                }
                assert forall|k2: int| 0 <= k2 < head implies #[trigger] unhealthy@[queue@[k2] as int] by {
                    assert(queue@.subrange(0, q0.len() as int)[k2] == q0[k2]);
                    assert(queue@[k2] == q0[k2]);
                    if k2 < head - 1 {
                        assert(unh0[q0[k2] as int]);
                    }
                }
                assert forall|x: int, q: int, c: int|
                    0 <= x < n && unhealthy@[x] && 0 <= q < order@.len() && #[trigger] health_edge(*h, order@[q] as int, x, c)
                        implies queue@.contains(c as usize) by {
                    if x == id {
                        assert(h.edges@[order@[q] as int].child@ == h.nodes@[c].0@);
                        assert(children_spec(*h, order@, id as int, KnowledgeHierarchyRelation::DependsOn).contains((order@[q], c as usize)));
                        let w = choose|w: int| 0 <= w < kids@.len() && kids@[w] == (order@[q], c as usize);
                        assert(queue@.contains(kids@[w].1));
                    } else {
                        assert(unh0[x]);
                        assert(q0.contains(c as usize));
                    }
                }
                assert forall|x: int| 0 <= x < n && #[trigger] unhealthy@[x] implies unhealthy_node(*h, order@, elig0, drained, x) by {
                    if x == id {
                        assert(q0[head - 1] == id);
                    } else {
                        assert(unh0[x]);
                    }
                }
            }
        }
    }
    proof {
        assert forall|x: int| 0 <= x < n implies unhealthy@[x] == unhealthy_node(*h, order@, elig0, drained, x) by {
            if unhealthy_node(*h, order@, elig0, drained, x) {
                let path = choose|path: Seq<int>| #[trigger] health_chain(*h, order@, elig0, drained, path) && path.last() == x;
                assert forall|y: int| 0 <= y < unhealthy@.len() && #[trigger] health_seed(*h, elig0, drained, y) implies unhealthy@[y] by {
                    assert(queue@.contains(y as usize));
                    let w = choose|w: int| 0 <= w < queue@.len() && queue@[w] == y as usize;
                    assert(unhealthy@[queue@[w] as int]);
                }
                assert forall|y: int, q: int, c: int|
                    0 <= y < unhealthy@.len() && unhealthy@[y] && 0 <= q < order@.len() && #[trigger] health_edge(*h, order@[q] as int, y, c)
                        implies unhealthy@[c] by {
                    assert(queue@.contains(c as usize));
                    let w = choose|w: int| 0 <= w < queue@.len() && queue@[w] == c as usize;
                    assert(unhealthy@[queue@[w] as int]);
                }
                lemma_health_chain_marked(*h, order@, elig0, drained, unhealthy@, path);
            }
        }
        assert(l.eligible@ =~= healthy_eligible(*h, order@, elig0, drained));
        assert(crate::hierarchy::validation::drain_order(*h, EdgeSelection::Health, drained));
        assert forall|x: int| 0 <= x < h.nodes@.len() implies #[trigger] demoted.contains(x as usize) == (elig0[x]
            && !l.eligible@[x]) by {
            assert(demoted.contains(x as usize) == (elig0[x] && unhealthy@[x]));
        }
    }
}

fn log_step(l: &mut Ledger, h: &KnowledgeHierarchy, threshold: u8, node: &String, action: ResolutionAction, reason: String)
    requires
        old(l).settled(*h, threshold),
    ensures
        final(l).settled(*h, threshold),
        final(l).eligible@ == old(l).eligible@,
        final(l).scopes@ == old(l).scopes@,
        final(l).suppressed@ == old(l).suppressed@,
        final(l).unknown@ == old(l).unknown@,
        final(l).advisory@ == old(l).advisory@,
        final(l).trace@.len() == old(l).trace@.len() + 1,
        final(l).trace@.drop_last() == old(l).trace@,
        step_is(final(l).trace@.last(), node@, action, reason@),
{
    let ghost start = *l;
    push_step(&mut l.trace, node, action, reason);
    proof {
        assert forall|j: int| 0 <= j < h.nodes@.len() implies #[trigger] l.slot_ok(j, h.nodes@[j].0@) by {
            assert(start.slot_ok(j, h.nodes@[j].0@));
        }
        assert forall|j: int| 0 <= j < h.nodes@.len() && #[trigger] l.eligible@[j] implies authoritative(
            h.nodes@[j].1,
            threshold,
            l.scopes@[j].status,
        ) by {
            assert(start.eligible@[j]);
        }
    }
}

/// An edge can change precedence: not a health dependency, backed by evidence, between two
/// nodes, and with a child scope that lies within the parent's (specialization, exception)
/// or meets it.
pub open spec fn usable_edge(h: KnowledgeHierarchy, e: KnowledgeHierarchyEdge) -> bool {
    &&& e.relation != KnowledgeHierarchyRelation::DependsOn
    &&& e.evidence@.len() > 0
    &&& is_node(h, e.child@)
    &&& is_node(h, e.parent@)
    &&& {
        let rel = crate::hierarchy::relation::scope_relation(
            h.nodes@[first_pos(h, e.child@)].1.scope.predicates@,
            h.nodes@[first_pos(h, e.parent@)].1.scope.predicates@,
        );
        if e.relation == KnowledgeHierarchyRelation::Specializes || e.relation == KnowledgeHierarchyRelation::Excepts {
            rel == ScopeRelation::Equal || rel == ScopeRelation::Narrower
        } else {
            !(rel == ScopeRelation::Unknown || rel == ScopeRelation::Disjoint)
        }
    }
}

fn usable(h: &KnowledgeHierarchy, j: usize) -> (r: bool)
    requires
        j < h.edges@.len(),
    ensures
        r == usable_edge(*h, h.edges@[j as int]),
{
    let e = &h.edges[j];
    if e.relation == KnowledgeHierarchyRelation::DependsOn || e.evidence.len() == 0 {
        return false;
    }
    let ci = match node_index(h, e.child.as_str()) {
        Some(c) => c,
        None => return false,
    };
    let pi = match node_index(h, e.parent.as_str()) {
        Some(p) => p,
        None => return false,
    };
    let rel = DeterministicScopeRelationEvaluator.compare(&h.nodes[ci].1.scope, &h.nodes[pi].1.scope);
    match e.relation {
        KnowledgeHierarchyRelation::Specializes | KnowledgeHierarchyRelation::Excepts => rel == ScopeRelation::Equal
            || rel == ScopeRelation::Narrower,
        _ => !(rel == ScopeRelation::Unknown || rel == ScopeRelation::Disjoint),
    }
}

fn role_list(n: usize) -> (v: Vec<AppliedKnowledgeRole>)
    ensures
        v@.len() == n,
        forall|i: int| 0 <= i < n ==> #[trigger] v@[i] == AppliedKnowledgeRole::Primary,
{
    let mut v: Vec<AppliedKnowledgeRole> = Vec::new();
    let mut k: usize = 0;
    while k < n
        invariant
            k <= n,
            v@.len() == k,
            forall|i: int| 0 <= i < k ==> #[trigger] v@[i] == AppliedKnowledgeRole::Primary,
        decreases n - k,
    {
        v.push(AppliedKnowledgeRole::Primary);
        k = k + 1;
    }
    v
}

/// The relation applied in each phase of precedence: supersession, exceptions,
/// specializations, then refinements.
pub open spec fn phase_relation_spec(phase: int) -> KnowledgeHierarchyRelation {
    if phase == 0 {
        KnowledgeHierarchyRelation::Supersedes
    } else if phase == 1 {
        KnowledgeHierarchyRelation::Excepts
    } else if phase == 2 {
        KnowledgeHierarchyRelation::Specializes
    } else {
        KnowledgeHierarchyRelation::Refines
    }
}

fn phase_relation(phase: usize) -> (r: KnowledgeHierarchyRelation)
    ensures
        r == phase_relation_spec(phase as int),
{
    if phase == 0 {
        KnowledgeHierarchyRelation::Supersedes
    } else if phase == 1 {
        KnowledgeHierarchyRelation::Excepts
    } else if phase == 2 {
        KnowledgeHierarchyRelation::Specializes
    } else {
        KnowledgeHierarchyRelation::Refines
    }
}

/// The children, in the order of `pairs`, that are eligible and reached over a usable edge.
pub open spec fn rival_children(h: KnowledgeHierarchy, eligible: Seq<bool>, pairs: Seq<(usize, usize)>) -> Seq<usize>
    decreases pairs.len(),
{
    if pairs.len() == 0 {
        Seq::empty()
    } else {
        rival_children(h, eligible, pairs.drop_last()) + if eligible[pairs.last().1 as int] && usable_edge(
            h,
            h.edges@[pairs.last().0 as int],
        ) {
            seq![pairs.last().1]
        } else {
            Seq::empty()
        }
    }
}

/// The eligible children of node `p` over usable edges of `relation` listed in `order`.
pub open spec fn rivals(
    h: KnowledgeHierarchy,
    eligible: Seq<bool>,
    order: Seq<usize>,
    p: int,
    relation: KnowledgeHierarchyRelation,
) -> Seq<usize> {
    rival_children(h, eligible, children_spec(h, order, p, relation))
}

/// Node `p` is eligible and has several rival children.
pub open spec fn contested_parent(
    h: KnowledgeHierarchy,
    eligible: Seq<bool>,
    order: Seq<usize>,
    p: int,
    relation: KnowledgeHierarchyRelation,
) -> bool {
    eligible[p] && rivals(h, eligible, order, p, relation).len() > 1
}

/// The contested parents among `topo`, in that order.
pub open spec fn conflict_parents(
    h: KnowledgeHierarchy,
    eligible: Seq<bool>,
    order: Seq<usize>,
    topo: Seq<usize>,
    relation: KnowledgeHierarchyRelation,
) -> Seq<usize>
    decreases topo.len(),
{
    if topo.len() == 0 {
        Seq::empty()
    } else {
        conflict_parents(h, eligible, order, topo.drop_last(), relation) + if contested_parent(
            h,
            eligible,
            order,
            topo.last() as int,
            relation,
        ) {
            seq![topo.last()]
        } else {
            Seq::empty()
        }
    }
}

/// Node `x` is a rival child of a contested parent among `topo`.
pub open spec fn contested(
    h: KnowledgeHierarchy,
    eligible: Seq<bool>,
    order: Seq<usize>,
    topo: Seq<usize>,
    relation: KnowledgeHierarchyRelation,
    x: usize,
) -> bool
    decreases topo.len(),
{
    topo.len() > 0 && (contested(h, eligible, order, topo.drop_last(), relation, x) || (contested_parent(
        h,
        eligible,
        order,
        topo.last() as int,
        relation,
    ) && rivals(h, eligible, order, topo.last() as int, relation).contains(x)))
}

/// The rival children of the contested parents among `topo`, parent by parent.
pub open spec fn conflict_steps(
    h: KnowledgeHierarchy,
    eligible: Seq<bool>,
    order: Seq<usize>,
    topo: Seq<usize>,
    relation: KnowledgeHierarchyRelation,
) -> Seq<usize>
    decreases topo.len(),
{
    if topo.len() == 0 {
        Seq::empty()
    } else {
        conflict_steps(h, eligible, order, topo.drop_last(), relation) + if contested_parent(
            h,
            eligible,
            order,
            topo.last() as int,
            relation,
        ) {
            rivals(h, eligible, order, topo.last() as int, relation)
        } else {
            Seq::empty()
        }
    }
}

/// The trace after `before` records a raised conflict for each of `nodes`, in order.
pub open spec fn conflict_trace(
    h: KnowledgeHierarchy,
    trace: Seq<KnowledgeResolutionStep>,
    before: Seq<KnowledgeResolutionStep>,
    nodes: Seq<usize>,
) -> bool {
    &&& trace.len() == before.len() + nodes.len()
    &&& trace.subrange(0, before.len() as int) == before
    &&& forall|m: int| 0 <= m < nodes.len() ==> step_is(
        #[trigger] trace[before.len() + m],
        h.nodes@[nodes[m] as int].0@,
        ResolutionAction::ConflictRaised,
        "Competing applicable siblings; parent retained and no arbitrary winner"@,
    )
}

pub open spec fn conflict_kind_spec(relation: KnowledgeHierarchyRelation) -> KnowledgeConflictKind {
    match relation {
        KnowledgeHierarchyRelation::Supersedes => KnowledgeConflictKind::AmbiguousSupersession,
        KnowledgeHierarchyRelation::Excepts => KnowledgeConflictKind::CompetingExceptions,
        _ => KnowledgeConflictKind::CompetingSpecializations,
    }
}

/// The conflict raised under parent `p` over `relation` among `kids`.
pub open spec fn conflict_is(
    c: KnowledgeConflict,
    h: KnowledgeHierarchy,
    p: int,
    kids: Seq<usize>,
    relation: KnowledgeHierarchyRelation,
) -> bool {
    &&& string_views(c.nodes@) == kids.map_values(|x: usize| h.nodes@[x as int].0@)
    &&& c.artifacts@ == kids.map_values(|x: usize| h.nodes@[x as int].1.artifact)
    &&& c.kind == conflict_kind_spec(relation)
    &&& c.reason@ == "Multiple eligible "@ + relation_name_spec(relation) + " children of "@ + h.nodes@[p].0@
        + "; explicit precedence required"@
}

proof fn lemma_contains_push<A>(s: Seq<A>, a: A, x: A)
    ensures
        s.push(a).contains(x) == (s.contains(x) || a == x),
{
    if s.contains(x) {
        let w = choose|w: int| 0 <= w < s.len() && s[w] == x;
        assert(s.push(a)[w] == x);
    }
    if a == x {
        assert(s.push(a)[s.len() as int] == x);
    }
    if s.push(a).contains(x) {
        let w = choose|w: int| 0 <= w < s.push(a).len() && s.push(a)[w] == x;
        if w < s.len() {
            assert(s[w] == x);
        }
    }
}

/// Raises a conflict for every eligible parent with several eligible, usable children over
/// `relation`: none of them may override, and each is demoted to supporting context.
fn raise_conflicts(
    l: &mut Ledger,
    h: &KnowledgeHierarchy,
    order: &Vec<usize>,
    topo: &Vec<usize>,
    threshold: u8,
    relation: KnowledgeHierarchyRelation,
    roles: &mut Vec<AppliedKnowledgeRole>,
    conflicted: &mut Vec<bool>,
    conflicts: &mut Vec<KnowledgeConflict>,
)
    requires
        old(l).settled(*h, threshold),
        old(roles)@.len() == h.nodes@.len(),
        old(conflicted)@.len() == h.nodes@.len(),
        forall|q: int| 0 <= q < order@.len() ==> #[trigger] order@[q] < h.edges@.len(),
        forall|q: int| 0 <= q < topo@.len() ==> #[trigger] topo@[q] < h.nodes@.len(),
    ensures
        final(l).settled(*h, threshold),
        final(l).eligible@ == old(l).eligible@,
        final(l).scopes@ == old(l).scopes@,
        final(l).suppressed@ == old(l).suppressed@,
        final(l).unknown@ == old(l).unknown@,
        final(l).advisory@ == old(l).advisory@,
        final(roles)@.len() == h.nodes@.len(),
        final(conflicted)@.len() == h.nodes@.len(),
        forall|x: int| 0 <= x < h.nodes@.len() ==> #[trigger] final(conflicted)@[x] == (old(conflicted)@[x] || contested(
            *h,
            old(l).eligible@,
            order@,
            topo@,
            relation,
            x as usize,
        )),
        forall|x: int| 0 <= x < h.nodes@.len() ==> #[trigger] final(roles)@[x] == if contested(
            *h,
            old(l).eligible@,
            order@,
            topo@,
            relation,
            x as usize,
        ) {
            AppliedKnowledgeRole::SupportingContext
        } else {
            old(roles)@[x]
        },
        conflict_trace(*h, final(l).trace@, old(l).trace@, conflict_steps(*h, old(l).eligible@, order@, topo@, relation)),
        final(conflicts)@.len() == old(conflicts)@.len() + conflict_parents(*h, old(l).eligible@, order@, topo@, relation).len(),
        final(conflicts)@.subrange(0, old(conflicts)@.len() as int) == old(conflicts)@,
        forall|m: int| 0 <= m < conflict_parents(*h, old(l).eligible@, order@, topo@, relation).len() ==> conflict_is(
            #[trigger] final(conflicts)@[old(conflicts)@.len() + m],
            *h,
            conflict_parents(*h, old(l).eligible@, order@, topo@, relation)[m] as int,
            rivals(*h, old(l).eligible@, order@, conflict_parents(*h, old(l).eligible@, order@, topo@, relation)[m] as int, relation),
            relation,
        ),
{
    let ghost elig0 = l.eligible@;
    let ghost cf0 = conflicted@;
    let ghost roles0 = roles@;
    let ghost conf0 = conflicts@;
    let ghost trace0 = l.trace@;
    let n = h.nodes.len();
    let mut t: usize = 0;
    proof {
        assert(l.trace@.subrange(0, trace0.len() as int) =~= trace0);
    }
    while t < topo.len()
        invariant
            t <= topo@.len(),
            n == h.nodes@.len(),
            l.settled(*h, threshold),
            l.eligible@ == old(l).eligible@,
            l.scopes@ == old(l).scopes@,
            l.suppressed@ == old(l).suppressed@,
            l.unknown@ == old(l).unknown@,
            l.advisory@ == old(l).advisory@,
            elig0 == old(l).eligible@,
            cf0 == old(conflicted)@,
            roles0 == old(roles)@,
            conf0 == old(conflicts)@,
            trace0 == old(l).trace@,
            conflict_trace(*h, l.trace@, trace0, conflict_steps(*h, elig0, order@, topo@.take(t as int), relation)),
            roles@.len() == n,
            conflicted@.len() == n,
            forall|q: int| 0 <= q < order@.len() ==> #[trigger] order@[q] < h.edges@.len(),
            forall|q: int| 0 <= q < topo@.len() ==> #[trigger] topo@[q] < n,
            forall|x: int| 0 <= x < n ==> #[trigger] conflicted@[x] == (cf0[x] || contested(
                *h,
                elig0,
                order@,
                topo@.take(t as int),
                relation,
                x as usize,
            )),
            forall|x: int| 0 <= x < n ==> #[trigger] roles@[x] == if contested(*h, elig0, order@, topo@.take(t as int), relation, x as usize) {
                AppliedKnowledgeRole::SupportingContext
            } else {
                roles0[x]
            },
            conflicts@.len() == conf0.len() + conflict_parents(*h, elig0, order@, topo@.take(t as int), relation).len(),
            conflicts@.subrange(0, conf0.len() as int) == conf0,
            forall|m: int| 0 <= m < conflict_parents(*h, elig0, order@, topo@.take(t as int), relation).len() ==> conflict_is(
                #[trigger] conflicts@[conf0.len() + m],
                *h,
                conflict_parents(*h, elig0, order@, topo@.take(t as int), relation)[m] as int,
                rivals(*h, elig0, order@, conflict_parents(*h, elig0, order@, topo@.take(t as int), relation)[m] as int, relation),
                relation,
            ),
        decreases topo.len() - t,
    {
        let parent = topo[t];
        let ghost pre = topo@.take(t as int);
        let ghost post = topo@.take(t + 1);
        proof {
            assert(post.drop_last() =~= pre);
            assert(post.last() == parent);
        }
        t = t + 1;
        if !l.eligible[parent] {
            proof {
                assert(conflict_parents(*h, elig0, order@, post, relation) =~= conflict_parents(*h, elig0, order@, pre, relation));
                assert(conflict_steps(*h, elig0, order@, post, relation) =~= conflict_steps(*h, elig0, order@, pre, relation));
            }
            continue;
        }
        let all = children_of(h, order, parent, relation);
        let mut kids: Vec<usize> = Vec::new();
        let mut k: usize = 0;
        while k < all.len()
            invariant
                k <= all@.len(),
                n == h.nodes@.len(),
                l.eligible@ == elig0,
                l.eligible@.len() == n,
                all@ == children_spec(*h, order@, parent as int, relation),
                forall|x: int| 0 <= x < all@.len() ==> (#[trigger] all@[x]).0 < h.edges@.len() && all@[x].1 < n,
                forall|x: int| 0 <= x < kids@.len() ==> #[trigger] kids@[x] < n,
                kids@ == rival_children(*h, elig0, all@.take(k as int)),
            decreases all.len() - k,
        {
            let (j, c) = all[k];
            proof {
                assert(all@.take(k + 1).drop_last() =~= all@.take(k as int));
                assert(all@.take(k + 1).last() == (j, c));
            }
            if l.eligible[c] && usable(h, j) {
                kids.push(c);
            }
            proof {
                assert(kids@ =~= rival_children(*h, elig0, all@.take(k + 1)));
            }
            k = k + 1;
        }
        proof {
            assert(all@.take(k as int) =~= all@);
            assert(kids@ == rivals(*h, elig0, order@, parent as int, relation));
        }
        if kids.len() <= 1 {
            proof {
                assert(conflict_parents(*h, elig0, order@, post, relation) =~= conflict_parents(*h, elig0, order@, pre, relation));
                assert(conflict_steps(*h, elig0, order@, post, relation) =~= conflict_steps(*h, elig0, order@, pre, relation));
            }
            continue;
        }
        let kind = match relation {
            KnowledgeHierarchyRelation::Supersedes => KnowledgeConflictKind::AmbiguousSupersession,
            KnowledgeHierarchyRelation::Excepts => KnowledgeConflictKind::CompetingExceptions,
            _ => KnowledgeConflictKind::CompetingSpecializations,
        };
        let ghost cf_t = conflicted@;
        let ghost roles_t = roles@;
        let ghost steps_pre = conflict_steps(*h, elig0, order@, pre, relation);
        proof {
            assert(conflict_trace(*h, l.trace@, trace0, steps_pre + kids@.take(0)));
        }
        let mut nodes: Vec<String> = Vec::new();
        let mut artifacts: Vec<KnowledgeArtifactRef> = Vec::new();
        let mut k: usize = 0;
        while k < kids.len()
            invariant
                k <= kids@.len(),
                n == h.nodes@.len(),
                parent < n,
                l.settled(*h, threshold),
                l.eligible@ == old(l).eligible@,
                l.scopes@ == old(l).scopes@,
                l.suppressed@ == old(l).suppressed@,
                l.unknown@ == old(l).unknown@,
                l.advisory@ == old(l).advisory@,
                roles@.len() == n,
                conflicted@.len() == n,
                cf_t.len() == n,
                roles_t.len() == n,
                forall|x: int| 0 <= x < kids@.len() ==> #[trigger] kids@[x] < n,
                forall|x: int| 0 <= x < n ==> #[trigger] conflicted@[x] == (cf_t[x] || kids@.take(k as int).contains(x as usize)),
                forall|x: int| 0 <= x < n ==> #[trigger] roles@[x] == if kids@.take(k as int).contains(x as usize) {
                    AppliedKnowledgeRole::SupportingContext
                } else {
                    roles_t[x]
                },
                string_views(nodes@) == kids@.take(k as int).map_values(|x: usize| h.nodes@[x as int].0@),
                artifacts@ == kids@.take(k as int).map_values(|x: usize| h.nodes@[x as int].1.artifact),
                conflict_trace(*h, l.trace@, trace0, steps_pre + kids@.take(k as int)),
            decreases kids.len() - k,
        {
            let c = kids[k];
            let ghost nodes_b = nodes@;
            let ghost arts_b = artifacts@;
            let ghost tr_b = l.trace@;
            proof {
                assert(kids@.take(k + 1) =~= kids@.take(k as int).push(c));
                assert forall|u: usize| #[trigger] kids@.take(k + 1).contains(u) == (kids@.take(k as int).contains(u) || c == u) by {
                    lemma_contains_push(kids@.take(k as int), c, u);
                }
            }
            conflicted.set(c, true);
            log_step(
                l,
                h,
                threshold,
                &h.nodes[c].0,
                ResolutionAction::ConflictRaised,
                text("Competing applicable siblings; parent retained and no arbitrary winner"),
            );
            roles.set(c, AppliedKnowledgeRole::SupportingContext);
            nodes.push(h.nodes[c].0.clone());
            artifacts.push(duplicate_artifact(&h.nodes[c].1.artifact));
            proof {
                reveal_strlit("Competing applicable siblings; parent retained and no arbitrary winner");
                let st = steps_pre + kids@.take(k + 1);
                assert(st =~= (steps_pre + kids@.take(k as int)).push(c));
                assert(l.trace@.subrange(0, trace0.len() as int) =~= tr_b.subrange(0, trace0.len() as int));
                assert forall|m: int| 0 <= m < st.len() implies step_is(
                    #[trigger] l.trace@[trace0.len() + m],
                    h.nodes@[st[m] as int].0@,
                    ResolutionAction::ConflictRaised,
                    "Competing applicable siblings; parent retained and no arbitrary winner"@,
                ) by {
                    if m < st.len() - 1 {
                        assert(l.trace@[trace0.len() + m] == tr_b[trace0.len() + m]);
                        assert(st[m] == (steps_pre + kids@.take(k as int))[m]);
                    } else {
                        assert(l.trace@[trace0.len() + m] == l.trace@.last());
                    }
                }
                assert(string_views(nodes@) =~= string_views(nodes_b).push(h.nodes@[c as int].0@));
                assert(string_views(nodes@) =~= kids@.take(k + 1).map_values(|x: usize| h.nodes@[x as int].0@));
                assert(artifacts@ =~= kids@.take(k + 1).map_values(|x: usize| h.nodes@[x as int].1.artifact));
                assert forall|x: int| 0 <= x < n implies #[trigger] conflicted@[x] == (cf_t[x] || kids@.take(k + 1).contains(
                    x as usize,
                )) by {
                    if x != c as int {
                        assert(x as usize != c);
                    }
                }
                assert forall|x: int| 0 <= x < n implies #[trigger] roles@[x] == if kids@.take(k + 1).contains(x as usize) {
                    AppliedKnowledgeRole::SupportingContext
                } else {
                    roles_t[x]
                } by {
                    if x != c as int {
                        assert(x as usize != c);
                    }
                }
            }
            k = k + 1;
        }
        let mut reason = text("Multiple eligible ");
        reason.append(relation_name(relation));
        reason.append(" children of ");
        reason.append(h.nodes[parent].0.as_str());
        reason.append("; explicit precedence required");
        let ghost conf_b = conflicts@;
        conflicts.push(KnowledgeConflict { artifacts, nodes, kind, reason });
        proof {
            assert(kids@.take(k as int) =~= kids@);
            let cp_pre = conflict_parents(*h, elig0, order@, pre, relation);
            let cp_post = conflict_parents(*h, elig0, order@, post, relation);
            assert(contested_parent(*h, elig0, order@, parent as int, relation));
            assert(cp_post =~= cp_pre.push(parent));
            assert(conflict_steps(*h, elig0, order@, post, relation) =~= steps_pre + kids@);
            assert(conflicts@.subrange(0, conf0.len() as int) =~= conf_b.subrange(0, conf0.len() as int));
            assert forall|m: int| 0 <= m < cp_post.len() implies conflict_is(
                #[trigger] conflicts@[conf0.len() + m],
                *h,
                cp_post[m] as int,
                rivals(*h, elig0, order@, cp_post[m] as int, relation),
                relation,
            ) by {
                if m < cp_pre.len() {
                    assert(conflicts@[conf0.len() + m] == conf_b[conf0.len() + m]);
                    assert(cp_post[m] == cp_pre[m]);
                } else {
                    assert(cp_post[m] == parent);
                    assert(conflicts@[conf0.len() + m] == conflicts@[conf_b.len() as int]);
                }
            }
            assert forall|x: int| 0 <= x < n implies #[trigger] conflicted@[x] == (cf0[x] || contested(
                *h,
                elig0,
                order@,
                post,
                relation,
                x as usize,
            )) by {
                assert(cf_t[x] == (cf0[x] || contested(*h, elig0, order@, pre, relation, x as usize)));
            }
            assert forall|x: int| 0 <= x < n implies #[trigger] roles@[x] == if contested(*h, elig0, order@, post, relation, x as usize) {
                AppliedKnowledgeRole::SupportingContext
            } else {
                roles0[x]
            } by {
                assert(roles_t[x] == if contested(*h, elig0, order@, pre, relation, x as usize) {
                    AppliedKnowledgeRole::SupportingContext
                } else {
                    roles0[x]
                });
            }
        }
    }
    proof {
        assert(topo@.take(t as int) =~= topo@);
    }
}

/// What a precedence phase has decided so far: eligibility, the node that stands in for each
/// replaced parent, roles, and each suppression made, with its reason and its suppressor.
pub struct PhaseState {
    pub eligible: Seq<bool>,
    pub replaced_by: Seq<Option<usize>>,
    pub roles: Seq<AppliedKnowledgeRole>,
    pub suppressions: Seq<Option<(SuppressionReason, usize)>>,
    pub steps: Seq<(usize, SuppressionReason, usize)>,
}

pub open spec fn phase_reason(relation: KnowledgeHierarchyRelation) -> SuppressionReason {
    if relation == KnowledgeHierarchyRelation::Supersedes {
        SuppressionReason::Superseded
    } else {
        SuppressionReason::ExplicitException
    }
}

/// Child `c` of parent `p` takes effect over `relation`: it replaces the parent (through the
/// node that already replaces it, if any), marks itself an exception, makes the parent
/// supporting context, or refines it.
pub open spec fn kid_step(relation: KnowledgeHierarchyRelation, p: int, s: PhaseState, c: usize) -> PhaseState {
    if relation == KnowledgeHierarchyRelation::Supersedes || relation == KnowledgeHierarchyRelation::Excepts {
        let sup = match s.replaced_by[c as int] {
            Some(x) => x,
            None => c,
        };
        PhaseState {
            eligible: s.eligible.update(p, false),
            replaced_by: s.replaced_by.update(p, Some(sup)),
            roles: if relation == KnowledgeHierarchyRelation::Excepts {
                s.roles.update(c as int, AppliedKnowledgeRole::Exception)
            } else {
                s.roles
            },
            suppressions: if s.eligible[p] {
                s.suppressions.update(p, Some((phase_reason(relation), sup)))
            } else {
                s.suppressions
            },
            steps: if s.eligible[p] {
                s.steps.push((p as usize, phase_reason(relation), sup))
            } else {
                s.steps
            },
        }
    } else if relation == KnowledgeHierarchyRelation::Specializes {
        PhaseState {
            eligible: s.eligible,
            replaced_by: s.replaced_by,
            roles: s.roles.update(p, AppliedKnowledgeRole::SupportingContext),
            suppressions: s.suppressions,
            steps: s.steps,
        }
    } else if relation == KnowledgeHierarchyRelation::Refines && s.roles[c as int] == AppliedKnowledgeRole::Primary {
        PhaseState {
            eligible: s.eligible,
            replaced_by: s.replaced_by,
            roles: s.roles.update(c as int, AppliedKnowledgeRole::Refinement),
            suppressions: s.suppressions,
            steps: s.steps,
        }
    } else {
        s
    }
}

pub open spec fn kids_apply(relation: KnowledgeHierarchyRelation, p: int, s: PhaseState, kids: Seq<usize>) -> PhaseState
    decreases kids.len(),
{
    if kids.len() == 0 {
        s
    } else {
        kid_step(relation, p, kids_apply(relation, p, s, kids.drop_last()), kids.last())
    }
}

/// The children that take effect: not in conflict, reached over a usable edge, and eligible
/// (or, for supersession, eligible when the phase began and since replaced).
pub open spec fn phase_kids(
    h: KnowledgeHierarchy,
    relation: KnowledgeHierarchyRelation,
    conflicted: Seq<bool>,
    start: Seq<bool>,
    s: PhaseState,
    pairs: Seq<(usize, usize)>,
) -> Seq<usize>
    decreases pairs.len(),
{
    if pairs.len() == 0 {
        Seq::empty()
    } else {
        let j = pairs.last().0;
        let c = pairs.last().1;
        phase_kids(h, relation, conflicted, start, s, pairs.drop_last()) + if !conflicted[c as int] && (s.eligible[c as int]
            || (relation == KnowledgeHierarchyRelation::Supersedes && start[c as int] && s.replaced_by[c as int] is Some))
            && usable_edge(h, h.edges@[j as int]) {
            seq![c]
        } else {
            Seq::empty()
        }
    }
}

pub open spec fn parent_apply(
    h: KnowledgeHierarchy,
    order: Seq<usize>,
    relation: KnowledgeHierarchyRelation,
    conflicted: Seq<bool>,
    start: Seq<bool>,
    s: PhaseState,
    p: int,
) -> PhaseState {
    if !s.eligible[p] {
        s
    } else {
        kids_apply(relation, p, s, phase_kids(h, relation, conflicted, start, s, children_spec(h, order, p, relation)))
    }
}

/// The phase state after the parents `topo[t..]`, taken from the last to `topo[t]`.
pub open spec fn apply_from(
    h: KnowledgeHierarchy,
    order: Seq<usize>,
    relation: KnowledgeHierarchyRelation,
    conflicted: Seq<bool>,
    init: PhaseState,
    topo: Seq<usize>,
    t: int,
) -> PhaseState
    decreases topo.len() - t,
{
    if t < 0 || t >= topo.len() {
        init
    } else {
        parent_apply(
            h,
            order,
            relation,
            conflicted,
            init.eligible,
            apply_from(h, order, relation, conflicted, init, topo, t + 1),
            topo[t] as int,
        )
    }
}

pub open spec fn phase_start(eligible: Seq<bool>, roles: Seq<AppliedKnowledgeRole>) -> PhaseState {
    PhaseState {
        eligible,
        replaced_by: Seq::new(eligible.len(), |x: int| None),
        roles,
        suppressions: Seq::new(eligible.len(), |x: int| None),
        steps: Seq::empty(),
    }
}

/// The trace after `before` records each suppression in `steps`, in order.
pub open spec fn phase_trace(
    h: KnowledgeHierarchy,
    trace: Seq<KnowledgeResolutionStep>,
    before: Seq<KnowledgeResolutionStep>,
    steps: Seq<(usize, SuppressionReason, usize)>,
) -> bool {
    &&& trace.len() == before.len() + steps.len()
    &&& trace.subrange(0, before.len() as int) == before
    &&& forall|m: int| 0 <= m < steps.len() ==> step_is(
        #[trigger] trace[before.len() + m],
        h.nodes@[steps[m].0 as int].0@,
        suppression_action(steps[m].1),
        suppression_text_spec(steps[m].1, Some(h.nodes@[steps[m].2 as int].0)),
    )
}

/// The suppression slots hold the suppressions made, each with its reason and its
/// suppressor's key, and are otherwise as they were.
pub open spec fn suppressions_recorded(
    h: KnowledgeHierarchy,
    now: Seq<Option<SuppressedKnowledge>>,
    before: Seq<Option<SuppressedKnowledge>>,
    made: Seq<Option<(SuppressionReason, usize)>>,
) -> bool {
    forall|x: int| 0 <= x < h.nodes@.len() ==> match #[trigger] made[x] {
        Some(m) => {
            &&& now[x] is Some
            &&& now[x]->0.reason == m.0
            &&& now[x]->0.suppressed_by is Some
            &&& m.1 < h.nodes@.len()
            &&& now[x]->0.suppressed_by->0@ == h.nodes@[m.1 as int].0@
        },
        None => now[x] == before[x],
    }
}

pub open spec fn state_ok(s: PhaseState, n: int) -> bool {
    &&& s.eligible.len() == n
    &&& s.replaced_by.len() == n
    &&& s.roles.len() == n
    &&& s.suppressions.len() == n
    &&& forall|x: int| 0 <= x < n ==> (#[trigger] s.replaced_by[x]) is Some ==> s.replaced_by[x]->0 < n
    &&& forall|x: int| 0 <= x < n ==> match #[trigger] s.suppressions[x] {
        Some(m) => m.1 < n,
        None => true,
    }
    &&& forall|m: int| 0 <= m < s.steps.len() ==> (#[trigger] s.steps[m]).0 < n && s.steps[m].2 < n
}

/// Applies one precedence relation, parents in reverse topological order so that a child
/// already replaced cannot suppress its own parent.
fn apply_relation(
    l: &mut Ledger,
    h: &KnowledgeHierarchy,
    order: &Vec<usize>,
    topo: &Vec<usize>,
    threshold: u8,
    relation: KnowledgeHierarchyRelation,
    roles: &mut Vec<AppliedKnowledgeRole>,
    conflicted: &Vec<bool>,
)
    requires
        old(l).settled(*h, threshold),
        crate::hierarchy::validation::nodes_sound(*h),
        old(roles)@.len() == h.nodes@.len(),
        conflicted@.len() == h.nodes@.len(),
        forall|q: int| 0 <= q < order@.len() ==> #[trigger] order@[q] < h.edges@.len(),
        forall|q: int| 0 <= q < topo@.len() ==> #[trigger] topo@[q] < h.nodes@.len(),
    ensures
        final(l).settled(*h, threshold),
        final(l).scopes@ == old(l).scopes@,
        final(roles)@.len() == h.nodes@.len(),
        final(l).unknown@ == old(l).unknown@,
        final(l).advisory@ == old(l).advisory@,
        final(l).eligible@ == apply_from(
            *h,
            order@,
            relation,
            conflicted@,
            phase_start(old(l).eligible@, old(roles)@),
            topo@,
            0,
        ).eligible,
        final(roles)@ == apply_from(*h, order@, relation, conflicted@, phase_start(old(l).eligible@, old(roles)@), topo@, 0).roles,
        suppressions_recorded(
            *h,
            final(l).suppressed@,
            old(l).suppressed@,
            apply_from(*h, order@, relation, conflicted@, phase_start(old(l).eligible@, old(roles)@), topo@, 0).suppressions,
        ),
        phase_trace(
            *h,
            final(l).trace@,
            old(l).trace@,
            apply_from(*h, order@, relation, conflicted@, phase_start(old(l).eligible@, old(roles)@), topo@, 0).steps,
        ),
{
    let ghost init = phase_start(l.eligible@, roles@);
    let ghost supp0 = l.suppressed@;
    let ghost trace0 = l.trace@;
    let n = h.nodes.len();
    let mut phase_eligible: Vec<bool> = Vec::new();
    let mut k: usize = 0;
    while k < n
        invariant
            k <= n,
            n == h.nodes@.len(),
            l.eligible@.len() == n,
            l.eligible@ == init.eligible,
            phase_eligible@ == init.eligible.take(k as int),
        decreases n - k,
    {
        phase_eligible.push(l.eligible[k]);
        proof {
            assert(phase_eligible@ =~= init.eligible.take(k + 1));
        }
        k = k + 1;
    }
    let mut replacements: Vec<Option<usize>> = Vec::new();
    let mut k: usize = 0;
    while k < n
        invariant
            k <= n,
            replacements@.len() == k,
            forall|x: int| 0 <= x < k ==> (#[trigger] replacements@[x]) is None,
        decreases n - k,
    {
        replacements.push(None);
        k = k + 1;
    }
    proof {
        assert(phase_eligible@ =~= init.eligible);
        assert(replacements@ =~= init.replaced_by);
        assert(state_ok(init, n as int));
        assert(suppressions_recorded(*h, l.suppressed@, supp0, init.suppressions));
        assert(l.trace@.subrange(0, trace0.len() as int) =~= trace0);
        assert(phase_trace(*h, l.trace@, trace0, init.steps));
    }
    let mut t: usize = topo.len();
    while t > 0
        invariant
            t <= topo@.len(),
            n == h.nodes@.len(),
            crate::hierarchy::validation::nodes_sound(*h),
            l.settled(*h, threshold),
            l.scopes@ == old(l).scopes@,
            l.unknown@ == old(l).unknown@,
            l.advisory@ == old(l).advisory@,
            init == phase_start(old(l).eligible@, old(roles)@),
            supp0 == old(l).suppressed@,
            conflicted@.len() == n,
            init.eligible.len() == n,
            phase_eligible@ == init.eligible,
            state_ok(apply_from(*h, order@, relation, conflicted@, init, topo@, t as int), n as int),
            l.eligible@ == apply_from(*h, order@, relation, conflicted@, init, topo@, t as int).eligible,
            replacements@ == apply_from(*h, order@, relation, conflicted@, init, topo@, t as int).replaced_by,
            roles@ == apply_from(*h, order@, relation, conflicted@, init, topo@, t as int).roles,
            suppressions_recorded(*h, l.suppressed@, supp0, apply_from(*h, order@, relation, conflicted@, init, topo@, t as int).suppressions),
            trace0 == old(l).trace@,
            phase_trace(*h, l.trace@, trace0, apply_from(*h, order@, relation, conflicted@, init, topo@, t as int).steps),
            forall|q: int| 0 <= q < order@.len() ==> #[trigger] order@[q] < h.edges@.len(),
            forall|q: int| 0 <= q < topo@.len() ==> #[trigger] topo@[q] < n,
        decreases t,
    {
        t = t - 1;
        let parent = topo[t];
        let ghost s0 = apply_from(*h, order@, relation, conflicted@, init, topo@, t + 1);
        proof {
            assert(apply_from(*h, order@, relation, conflicted@, init, topo@, t as int) == parent_apply(
                *h,
                order@,
                relation,
                conflicted@,
                init.eligible,
                s0,
                parent as int,
            ));
        }
        if !l.eligible[parent] {
            continue;
        }
        let all = children_of(h, order, parent, relation);
        let mut kids: Vec<usize> = Vec::new();
        let mut k: usize = 0;
        while k < all.len()
            invariant
                k <= all@.len(),
                n == h.nodes@.len(),
                l.eligible@ == s0.eligible,
                replacements@ == s0.replaced_by,
                state_ok(s0, n as int),
                conflicted@.len() == n,
                phase_eligible@ == init.eligible,
                init.eligible.len() == n,
                all@ == children_spec(*h, order@, parent as int, relation),
                forall|x: int| 0 <= x < all@.len() ==> (#[trigger] all@[x]).0 < h.edges@.len() && all@[x].1 < n,
                forall|x: int| 0 <= x < kids@.len() ==> #[trigger] kids@[x] < n,
                kids@ == phase_kids(*h, relation, conflicted@, init.eligible, s0, all@.take(k as int)),
            decreases all.len() - k,
        {
            let (j, c) = all[k];
            proof {
                assert(all@.take(k + 1).drop_last() =~= all@.take(k as int));
                assert(all@.take(k + 1).last() == (j, c));
            }
            if !conflicted[c] && (l.eligible[c] || (relation == KnowledgeHierarchyRelation::Supersedes && phase_eligible[c]
                && replacements[c].is_some())) && usable(h, j) {
                kids.push(c);
            }
            proof {
                assert(kids@ =~= phase_kids(*h, relation, conflicted@, init.eligible, s0, all@.take(k + 1)));
            }
            k = k + 1;
        }
        proof {
            assert(all@.take(k as int) =~= all@);
        }
        let mut k: usize = 0;
        while k < kids.len()
            invariant
                k <= kids@.len(),
                n == h.nodes@.len(),
                parent < n,
                crate::hierarchy::validation::nodes_sound(*h),
                l.settled(*h, threshold),
                l.scopes@ == old(l).scopes@,
                l.unknown@ == old(l).unknown@,
                l.advisory@ == old(l).advisory@,
                forall|x: int| 0 <= x < kids@.len() ==> #[trigger] kids@[x] < n,
                state_ok(kids_apply(relation, parent as int, s0, kids@.take(k as int)), n as int),
                l.eligible@ == kids_apply(relation, parent as int, s0, kids@.take(k as int)).eligible,
                replacements@ == kids_apply(relation, parent as int, s0, kids@.take(k as int)).replaced_by,
                roles@ == kids_apply(relation, parent as int, s0, kids@.take(k as int)).roles,
                suppressions_recorded(*h, l.suppressed@, supp0, kids_apply(relation, parent as int, s0, kids@.take(k as int)).suppressions),
                phase_trace(*h, l.trace@, trace0, kids_apply(relation, parent as int, s0, kids@.take(k as int)).steps),
            decreases kids.len() - k,
        {
            let c = kids[k];
            let ghost sb = kids_apply(relation, parent as int, s0, kids@.take(k as int));
            let ghost supp_b = l.suppressed@;
            let ghost tr_b = l.trace@;
            proof {
                assert(kids@.take(k + 1).drop_last() =~= kids@.take(k as int));
                assert(kids@.take(k + 1).last() == c);
                assert(kids_apply(relation, parent as int, s0, kids@.take(k + 1)) == kid_step(relation, parent as int, sb, c));
            }
            match relation {
                KnowledgeHierarchyRelation::Supersedes | KnowledgeHierarchyRelation::Excepts => {
                    let suppressor = match replacements[c] {
                        Some(s) => s,
                        None => c,
                    };
                    replacements.set(parent, Some(suppressor));
                    if l.eligible[parent] {
                        let reason = if relation == KnowledgeHierarchyRelation::Supersedes {
                            SuppressionReason::Superseded
                        } else {
                            SuppressionReason::ExplicitException
                        };
                        demote_to_suppressed(l, h, threshold, parent, reason, Some(h.nodes[suppressor].0.clone()));
                    }
                    if relation == KnowledgeHierarchyRelation::Excepts {
                        roles.set(c, AppliedKnowledgeRole::Exception);
                    }
                },
                KnowledgeHierarchyRelation::Specializes => {
                    roles.set(parent, AppliedKnowledgeRole::SupportingContext);
                },
                KnowledgeHierarchyRelation::Refines => {
                    if roles[c] == AppliedKnowledgeRole::Primary {
                        roles.set(c, AppliedKnowledgeRole::Refinement);
                    }
                },
                _ => {},
            }
            proof {
                let sa = kid_step(relation, parent as int, sb, c);
                assert(l.eligible@ =~= sa.eligible);
                assert(replacements@ =~= sa.replaced_by);
                assert(roles@ =~= sa.roles);
                assert(state_ok(sa, n as int));
                assert(l.trace@.subrange(0, trace0.len() as int) =~= tr_b.subrange(0, trace0.len() as int));
                assert forall|m: int| 0 <= m < sa.steps.len() implies step_is(
                    #[trigger] l.trace@[trace0.len() + m],
                    h.nodes@[sa.steps[m].0 as int].0@,
                    suppression_action(sa.steps[m].1),
                    suppression_text_spec(sa.steps[m].1, Some(h.nodes@[sa.steps[m].2 as int].0)),
                ) by {
                    if m < sb.steps.len() {
                        assert(sa.steps[m] == sb.steps[m]);
                        assert(l.trace@[trace0.len() + m] == tr_b[trace0.len() + m]);
                    } else {
                        assert(l.trace@[trace0.len() + m] == l.trace@.last());
                    }
                }
                assert forall|x: int| 0 <= x < h.nodes@.len() implies match #[trigger] sa.suppressions[x] {
                    Some(m) => {
                        &&& l.suppressed@[x] is Some
                        &&& l.suppressed@[x]->0.reason == m.0
                        &&& l.suppressed@[x]->0.suppressed_by is Some
                        &&& m.1 < h.nodes@.len()
                        &&& l.suppressed@[x]->0.suppressed_by->0@ == h.nodes@[m.1 as int].0@
                    },
                    None => l.suppressed@[x] == supp0[x],
                } by {
                    if x != parent as int {
                        assert(sa.suppressions[x] == sb.suppressions[x]);
                        assert(l.suppressed@[x] == supp_b[x]);
                    }
                }
            }
            k = k + 1;
        }
        proof {
            assert(kids@.take(k as int) =~= kids@);
        }
    }
}

/// What the precedence phases carry from one to the next: eligibility, roles, and which
/// nodes are in conflict.
pub struct ResolutionState {
    pub eligible: Seq<bool>,
    pub roles: Seq<AppliedKnowledgeRole>,
    pub conflicted: Seq<bool>,
}

/// A raised conflict: its parent, its relation, and the eligibility it was judged by.
pub struct ConflictCause {
    pub parent: usize,
    pub relation: KnowledgeHierarchyRelation,
    pub eligible: Seq<bool>,
}

/// The state after conflicts over `relation` are raised: each rival of a contested parent is
/// in conflict and only supporting context.
pub open spec fn after_conflicts(
    h: KnowledgeHierarchy,
    order: Seq<usize>,
    topo: Seq<usize>,
    relation: KnowledgeHierarchyRelation,
    s: ResolutionState,
) -> ResolutionState {
    ResolutionState {
        eligible: s.eligible,
        roles: Seq::new(
            s.roles.len(),
            |x: int|
                if contested(h, s.eligible, order, topo, relation, x as usize) {
                    AppliedKnowledgeRole::SupportingContext
                } else {
                    s.roles[x]
                },
        ),
        conflicted: Seq::new(
            s.conflicted.len(),
            |x: int| s.conflicted[x] || contested(h, s.eligible, order, topo, relation, x as usize),
        ),
    }
}

/// The conflicts raised over `relation`, one per contested parent in `topo` order.
pub open spec fn causes_of(
    h: KnowledgeHierarchy,
    order: Seq<usize>,
    topo: Seq<usize>,
    relation: KnowledgeHierarchyRelation,
    eligible: Seq<bool>,
) -> Seq<ConflictCause> {
    conflict_parents(h, eligible, order, topo, relation).map_values(
        |p: usize| ConflictCause { parent: p, relation, eligible },
    )
}

/// The state after a relation's phase has taken effect.
pub open spec fn after_apply(
    h: KnowledgeHierarchy,
    order: Seq<usize>,
    topo: Seq<usize>,
    relation: KnowledgeHierarchyRelation,
    s: ResolutionState,
) -> ResolutionState {
    let f = apply_from(h, order, relation, s.conflicted, phase_start(s.eligible, s.roles), topo, 0);
    ResolutionState { eligible: f.eligible, roles: f.roles, conflicted: s.conflicted }
}

/// Conflicts are found before a phase changes anything: supersessions before supersession,
/// exceptions and specializations before exceptions.
pub open spec fn phase_conflicted(
    h: KnowledgeHierarchy,
    order: Seq<usize>,
    topo: Seq<usize>,
    phase: int,
    s: ResolutionState,
) -> ResolutionState {
    let relation = phase_relation_spec(phase);
    if relation == KnowledgeHierarchyRelation::Supersedes {
        after_conflicts(h, order, topo, KnowledgeHierarchyRelation::Supersedes, s)
    } else if relation == KnowledgeHierarchyRelation::Excepts {
        after_conflicts(
            h,
            order,
            topo,
            KnowledgeHierarchyRelation::Specializes,
            after_conflicts(h, order, topo, KnowledgeHierarchyRelation::Excepts, s),
        )
    } else {
        s
    }
}

pub open spec fn phase_causes(
    h: KnowledgeHierarchy,
    order: Seq<usize>,
    topo: Seq<usize>,
    phase: int,
    s: ResolutionState,
) -> Seq<ConflictCause> {
    let relation = phase_relation_spec(phase);
    if relation == KnowledgeHierarchyRelation::Supersedes {
        causes_of(h, order, topo, KnowledgeHierarchyRelation::Supersedes, s.eligible)
    } else if relation == KnowledgeHierarchyRelation::Excepts {
        causes_of(h, order, topo, KnowledgeHierarchyRelation::Excepts, s.eligible) + causes_of(
            h,
            order,
            topo,
            KnowledgeHierarchyRelation::Specializes,
            s.eligible,
        )
    } else {
        Seq::empty()
    }
}

/// The state after the first `k` phases.
pub open spec fn phases_state(
    h: KnowledgeHierarchy,
    order: Seq<usize>,
    topo: Seq<usize>,
    s0: ResolutionState,
    k: nat,
) -> ResolutionState
    decreases k,
{
    if k == 0 {
        s0
    } else {
        let prev = phases_state(h, order, topo, s0, (k - 1) as nat);
        after_apply(h, order, topo, phase_relation_spec(k - 1), phase_conflicted(h, order, topo, k - 1, prev))
    }
}

/// The conflicts raised in the first `k` phases, in order.
pub open spec fn phases_causes(
    h: KnowledgeHierarchy,
    order: Seq<usize>,
    topo: Seq<usize>,
    s0: ResolutionState,
    k: nat,
) -> Seq<ConflictCause>
    decreases k,
{
    if k == 0 {
        Seq::empty()
    } else {
        phases_causes(h, order, topo, s0, (k - 1) as nat) + phase_causes(
            h,
            order,
            topo,
            k - 1,
            phases_state(h, order, topo, s0, (k - 1) as nat),
        )
    }
}

pub open spec fn conflict_recorded(h: KnowledgeHierarchy, order: Seq<usize>, c: KnowledgeConflict, cause: ConflictCause) -> bool {
    conflict_is(c, h, cause.parent as int, rivals(h, cause.eligible, order, cause.parent as int, cause.relation), cause.relation)
}

/// Before the phases: the nodes that are authoritative by themselves and keep their health,
/// all primary, none in conflict.
pub open spec fn health_start(
    h: KnowledgeHierarchy,
    threshold: u8,
    scopes: Seq<KnowledgeApplicability>,
    order: Seq<usize>,
    drained: Seq<Seq<char>>,
) -> ResolutionState {
    let n = h.nodes@.len();
    ResolutionState {
        eligible: healthy_eligible(
            h,
            order,
            Seq::new(n, |i: int| authoritative(h.nodes@[i].1, threshold, scopes[i].status)),
            drained,
        ),
        roles: Seq::new(n, |i: int| AppliedKnowledgeRole::Primary),
        conflicted: Seq::new(n, |i: int| false),
    }
}

/// The facts a resolution is computed from: each node's applicability in the context, every
/// edge once in (parent, child, relation, identity) order, and the drain orders over health
/// and precedence edges.
pub open spec fn resolution_inputs(
    h: KnowledgeHierarchy,
    context: KnowledgeContext,
    scopes: Seq<KnowledgeApplicability>,
    order: Seq<usize>,
    drained: Seq<Seq<char>>,
    topo_keys: Seq<String>,
) -> bool {
    &&& scopes.len() == h.nodes@.len()
    &&& forall|i: int| 0 <= i < h.nodes@.len() ==> scope_evaluated(h.nodes@[i].1.scope, context, #[trigger] scopes[i])
    &&& crate::hierarchy::validation::edge_listing(h, order)
    &&& crate::hierarchy::validation::edges_sorted(h, order)
    &&& crate::hierarchy::validation::drain_order(h, EdgeSelection::Health, drained)
    &&& crate::hierarchy::validation::drain_order(h, EdgeSelection::Precedence, string_views(topo_keys))
}

/// The applied nodes, their roles and lineages, and the conflicts are those the phases give.
pub open spec fn resolution_matches(
    h: KnowledgeHierarchy,
    threshold: u8,
    scopes: Seq<KnowledgeApplicability>,
    order: Seq<usize>,
    drained: Seq<Seq<char>>,
    topo_keys: Seq<String>,
    k: EffectiveKnowledge,
) -> bool {
    let s0 = health_start(h, threshold, scopes, order, drained);
    let topo = positions_spec(h, topo_keys);
    let fin = phases_state(h, order, topo, s0, 4);
    let causes = phases_causes(h, order, topo, s0, 4);
    &&& applied_nodes(k.applied@) == flagged_keys(node_keys(h), fin.eligible, h.nodes@.len() as int)
    &&& forall|x: int| 0 <= x < k.applied@.len() ==> applied_entry_ok(h, fin.roles, #[trigger] k.applied@[x])
    &&& k.conflicts@.len() == causes.len()
    &&& forall|m: int| 0 <= m < causes.len() ==> conflict_recorded(h, order, #[trigger] k.conflicts@[m], causes[m])
    &&& left_out_unhealthy(h, s0, k)
}

/// Edge `j` runs from node `p` to node `c` over a precedence relation (any relation but a
/// health dependency).
pub open spec fn precedence_edge(h: KnowledgeHierarchy, j: int, c: int, p: int) -> bool {
    &&& 0 <= j < h.edges@.len()
    &&& 0 <= c < h.nodes@.len()
    &&& 0 <= p < h.nodes@.len()
    &&& h.edges@[j].relation != KnowledgeHierarchyRelation::DependsOn
    &&& h.edges@[j].child@ == h.nodes@[c].0@
    &&& h.edges@[j].parent@ == h.nodes@[p].0@
}

/// Node `p` is a precedence parent of node `c`.
pub open spec fn precedence_parent(h: KnowledgeHierarchy, c: int, p: int) -> bool {
    exists|j: int| #[trigger] precedence_edge(h, j, c, p)
}

/// Each node of `path` after the first is a precedence parent of the one before it.
pub open spec fn parent_chain(h: KnowledgeHierarchy, path: Seq<int>) -> bool {
    forall|t: int| #![trigger path[t]] 0 <= t < path.len() - 1 ==> precedence_parent(h, path[t], path[t + 1])
}

/// Node `a` is an ancestor of node `i`: one or more steps from a node to a precedence parent
/// lead from `i` to `a`.
pub open spec fn ancestor_of(h: KnowledgeHierarchy, i: int, a: int) -> bool {
    exists|path: Seq<int>| #[trigger] parent_chain(h, path) && path.len() >= 2 && path[0] == i && path.last() == a
}

pub open spec fn ancestor_flags(h: KnowledgeHierarchy, i: int) -> Seq<bool> {
    Seq::new(h.nodes@.len(), |a: int| ancestor_of(h, i, a))
}

proof fn lemma_ancestor_extend(h: KnowledgeHierarchy, i: int, cur: int, p: int, j: int)
    requires
        cur == i || ancestor_of(h, i, cur),
        precedence_edge(h, j, cur, p),
    ensures
        ancestor_of(h, i, p),
{
    assert(precedence_parent(h, cur, p));
    if ancestor_of(h, i, cur) {
        let path = choose|path: Seq<int>| #[trigger] parent_chain(h, path) && path.len() >= 2 && path[0] == i && path.last() == cur;
        let next = path.push(p);
        assert forall|t: int| #![trigger next[t]] 0 <= t < next.len() - 1 implies precedence_parent(h, next[t], next[t + 1]) by {
            if t < path.len() - 1 {
                assert(next[t] == path[t] && next[t + 1] == path[t + 1]);
            } else {
                assert(next[t] == cur && next[t + 1] == p);
            }
        }
        assert(parent_chain(h, next));
    } else {
        let next = seq![i, p];
        assert forall|t: int| #![trigger next[t]] 0 <= t < next.len() - 1 implies precedence_parent(h, next[t], next[t + 1]) by {
            assert(t == 0);
        }
        assert(parent_chain(h, next));
    }
}

/// Every node on a chain from `i` lies in a set that holds the precedence parents of `i` and
/// of each of its members.
proof fn lemma_chain_marked(h: KnowledgeHierarchy, i: int, marked: Seq<bool>, path: Seq<int>)
    requires
        marked.len() == h.nodes@.len(),
        forall|x: int, j: int, p: int|
            (x == i || (0 <= x < marked.len() && marked[x])) && #[trigger] precedence_edge(h, j, x, p) ==> marked[p],
        path.len() >= 1,
        path[0] == i,
        parent_chain(h, path),
    ensures
        forall|t: int| 1 <= t < path.len() ==> 0 <= #[trigger] path[t] < marked.len() && marked[path[t]],
    decreases path.len(),
{
    if path.len() > 1 {
        let prev = path.drop_last();
        assert forall|t: int| #![trigger prev[t]] 0 <= t < prev.len() - 1 implies precedence_parent(h, prev[t], prev[t + 1]) by {
            assert(prev[t] == path[t] && prev[t + 1] == path[t + 1]);
        }
        lemma_chain_marked(h, i, marked, prev);
        let last = path.len() - 1;
        assert(precedence_parent(h, path[last - 1], path[last]));
        let j = choose|j: int| #[trigger] precedence_edge(h, j, path[last - 1], path[last]);
        if last - 1 > 0 {
            assert(prev[last - 1] == path[last - 1]);
        }
        assert forall|t: int| 1 <= t < path.len() implies 0 <= #[trigger] path[t] < marked.len() && marked[path[t]] by {
            if t < last {
                assert(prev[t] == path[t]);
            }
        }
    }
}

/// The ancestors of node `i` over precedence edges, in key order.
fn lineage(h: &KnowledgeHierarchy, i: usize) -> (out: Vec<String>)
    requires
        i < h.nodes@.len(),
        h.wf(),
    ensures
        string_views(out@) == flagged_keys(node_keys(*h), ancestor_flags(*h, i as int), h.nodes@.len() as int),
{
    proof {
        lemma_node_keys_distinct(*h);
    }
    let n = h.nodes.len();
    let mut ancestors = falses(n);
    let mut pending: Vec<usize> = Vec::new();
    pending.push(i);
    proof {
        assert(pending@[0] == i);
        assert(pending@.contains(i));
    }
    while pending.len() > 0
        invariant
            n == h.nodes@.len(),
            i < n,
            node_keys(*h).no_duplicates(),
            ancestors@.len() == n,
            forall|x: int| 0 <= x < pending@.len() ==> #[trigger] pending@[x] < n && (pending@[x] == i || ancestors@[pending@[x] as int]),
            forall|a: int| 0 <= a < n && #[trigger] ancestors@[a] ==> ancestor_of(*h, i as int, a),
            forall|x: int, j: int, p: int|
                (x == i || (0 <= x < n && ancestors@[x])) && !pending@.contains(x as usize) && #[trigger] precedence_edge(*h, j, x, p)
                    ==> ancestors@[p],
        decreases count_false(ancestors@), pending@.len(),
    {
        let ghost top = pending@;
        let cur = pending.pop().unwrap();
        let ghost rest = pending@;
        let ghost anc0 = ancestors@;
        let ghost c0 = count_false(ancestors@);
        let ghost p0 = pending@.len();
        proof {
            assert(top == rest.push(cur));
            assert(top[top.len() - 1] == cur);
        }
        let mut j: usize = 0;
        while j < h.edges.len()
            invariant
                j <= h.edges@.len(),
                n == h.nodes@.len(),
                i < n,
                node_keys(*h).no_duplicates(),
                cur < n,
                cur == i || ancestors@[cur as int],
                ancestors@.len() == n,
                anc0.len() == n,
                top == rest.push(cur),
                forall|x: int| 0 <= x < n && anc0[x] ==> #[trigger] ancestors@[x],
                forall|x: int| 0 <= x < n && #[trigger] ancestors@[x] && !anc0[x] ==> pending@.contains(x as usize),
                pending@.len() >= p0,
                p0 == rest.len(),
                pending@.subrange(0, p0 as int) == rest,
                forall|x: int| 0 <= x < pending@.len() ==> #[trigger] pending@[x] < n && (pending@[x] == i || ancestors@[pending@[x] as int]),
                forall|a: int| 0 <= a < n && #[trigger] ancestors@[a] ==> ancestor_of(*h, i as int, a),
                forall|x: int, j2: int, p: int|
                    (x == i || (0 <= x < n && anc0[x])) && !top.contains(x as usize) && #[trigger] precedence_edge(*h, j2, x, p)
                        ==> anc0[p],
                forall|j2: int, p: int| j2 < j && #[trigger] precedence_edge(*h, j2, cur as int, p) ==> ancestors@[p],
                count_false(ancestors@) + pending@.len() == c0 + p0,
                pending@.len() >= p0,
            decreases h.edges.len() - j,
        {
            let e = &h.edges[j];
            let ghost pend_before = pending@;
            if e.relation != KnowledgeHierarchyRelation::DependsOn && str_eq(e.child.as_str(), h.nodes[cur].0.as_str()) {
                if let Some(p) = node_index(h, e.parent.as_str()) {
                    proof {
                        assert(precedence_edge(*h, j as int, cur as int, p as int));
                        lemma_ancestor_extend(*h, i as int, cur as int, p as int, j as int);
                    }
                    if !ancestors[p] {
                        proof {
                            lemma_count_false_set(ancestors@, p as int);
                        }
                        ancestors.set(p, true);
                        pending.push(p);
                        proof {
                            assert(pending@.subrange(0, p0 as int) =~= pend_before.subrange(0, p0 as int));
                            assert(pending@[pending@.len() - 1] == p);
                            assert forall|x: int| 0 <= x < n && #[trigger] ancestors@[x] && !anc0[x] implies pending@.contains(x as usize) by {
                                if x != p {
                                    assert(pend_before.contains(x as usize));
                                    let w = choose|w: int| 0 <= w < pend_before.len() && pend_before[w] == x as usize;
                                    assert(pending@[w] == x as usize);
                                }
                            }
                            assert forall|x: int| 0 <= x < pending@.len() implies #[trigger] pending@[x] < n && (pending@[x] == i
                                || ancestors@[pending@[x] as int]) by {
                                if x < pend_before.len() {
                                    assert(pending@[x] == pend_before[x]);
                                }
                            }
                        }
                    }
                    proof {
                        assert forall|j2: int, q: int| j2 < j + 1 && #[trigger] precedence_edge(*h, j2, cur as int, q) implies ancestors@[q] by {
                            if j2 == j {
                                assert(node_keys(*h)[q] == node_keys(*h)[p as int]);
                            }
                        }
                    }
                } else {
                    proof {
                        assert forall|j2: int, q: int| j2 < j + 1 && #[trigger] precedence_edge(*h, j2, cur as int, q) implies ancestors@[q] by {
                            if j2 == j {
                                assert(node_keys(*h)[q] == e.parent@);
                            }
                        }
                    }
                }
            }
            j = j + 1;
        }
        proof {
            assert forall|x: int, j2: int, p: int|
                (x == i || (0 <= x < n && ancestors@[x])) && !pending@.contains(x as usize) && #[trigger] precedence_edge(*h, j2, x, p)
                    implies ancestors@[p] by {
                if x != cur {
                    if (x == i || anc0[x]) {
                        if top.contains(x as usize) {
                            let w = choose|w: int| 0 <= w < top.len() && top[w] == x as usize;
                            assert(w < rest.len());
                            assert(rest[w] == x as usize);
                            assert(pending@.subrange(0, p0 as int)[w] == x as usize);
                            assert(pending@[w] == x as usize);
                        }
                        assert(anc0[p]);
                    }
                }
            }
        }
    }
    proof {
        assert forall|a: int| 0 <= a < n implies ancestors@[a] == ancestor_of(*h, i as int, a) by {
            if ancestor_of(*h, i as int, a) {
                let path = choose|path: Seq<int>| #[trigger] parent_chain(*h, path) && path.len() >= 2 && path[0] == i && path.last() == a;
                lemma_chain_marked(*h, i as int, ancestors@, path);
                assert(path[path.len() - 1] == a);
            }
        }
        assert(ancestors@ =~= ancestor_flags(*h, i as int));
    }
    let mut out: Vec<String> = Vec::new();
    let mut k: usize = 0;
    while k < n
        invariant
            k <= n,
            n == h.nodes@.len(),
            ancestors@.len() == n,
            string_views(out@) == flagged_keys(node_keys(*h), ancestors@, k as int),
        decreases n - k,
    {
        let ghost before = out@;
        if ancestors[k] {
            out.push(h.nodes[k].0.clone());
            proof {
                assert(string_views(out@) =~= string_views(before).push(node_keys(*h)[k as int]));
            }
        }
        k = k + 1;
    }
    out
}

pub open spec fn some_flags<T>(s: Seq<Option<T>>) -> Seq<bool> {
    s.map_values(|o: Option<T>| o is Some)
}

/// In a map, each key's first position is its own.
pub proof fn lemma_first_pos_wf(h: KnowledgeHierarchy, i: int)
    requires
        h.wf(),
        0 <= i < h.nodes@.len(),
    ensures
        first_pos(h, h.nodes@[i].0@) == i,
{
    lemma_node_keys_distinct(h);
    assert(crate::hierarchy::validation::first_at(h, h.nodes@[i].0@, i)) by {
        assert forall|m: int| 0 <= m < i implies (#[trigger] h.nodes@[m]).0@ != h.nodes@[i].0@ by {
            assert(node_keys(h)[m] != node_keys(h)[i]);
        }
    }
    crate::hierarchy::validation::lemma_first_pos(h, h.nodes@[i].0@, i);
}

/// An applied entry carries its node's role and the keys of the node's ancestors.
pub open spec fn applied_entry_ok(h: KnowledgeHierarchy, roles: Seq<AppliedKnowledgeRole>, a: AppliedKnowledge) -> bool {
    &&& a.role == roles[first_pos(h, a.node@)]
    &&& string_views(a.lineage@) == flagged_keys(
        node_keys(h),
        ancestor_flags(h, first_pos(h, a.node@)),
        h.nodes@.len() as int,
    )
}

/// The applied entries: each eligible node in key order, with its final role and lineage.
fn assemble_applied(l: &mut Ledger, h: &KnowledgeHierarchy, roles: &Vec<AppliedKnowledgeRole>, threshold: u8) -> (applied: Vec<
    AppliedKnowledge,
>)
    requires
        old(l).settled(*h, threshold),
        crate::hierarchy::validation::nodes_sound(*h),
        h.wf(),
        roles@.len() == h.nodes@.len(),
    ensures
        final(l).settled(*h, threshold),
        final(l).eligible@ == old(l).eligible@,
        final(l).suppressed@ == old(l).suppressed@,
        final(l).unknown@ == old(l).unknown@,
        final(l).advisory@ == old(l).advisory@,
        applied_nodes(applied@) == flagged_keys(node_keys(*h), old(l).eligible@, h.nodes@.len() as int),
        forall|x: int| 0 <= x < applied@.len() ==> authoritative(
            node_at(*h, (#[trigger] applied@[x]).node@),
            threshold,
            applied@[x].applicability.status,
        ),
        forall|x: int| 0 <= x < applied@.len() ==> applied_entry_ok(*h, roles@, #[trigger] applied@[x]),
{
    let n = h.nodes.len();
    let ghost keys = node_keys(*h);
    let mut applied: Vec<AppliedKnowledge> = Vec::new();
    let mut i: usize = 0;
    while i < n
        invariant
            i <= n,
            n == h.nodes@.len(),
            keys == node_keys(*h),
            h.wf(),
            crate::hierarchy::validation::nodes_sound(*h),
            roles@.len() == n,
            l.settled(*h, threshold),
            l.eligible@ == old(l).eligible@,
            l.suppressed@ == old(l).suppressed@,
            l.unknown@ == old(l).unknown@,
            l.advisory@ == old(l).advisory@,
            applied_nodes(applied@) == flagged_keys(keys, l.eligible@, i as int),
            forall|x: int| 0 <= x < applied@.len() ==> authoritative(
                node_at(*h, (#[trigger] applied@[x]).node@),
                threshold,
                applied@[x].applicability.status,
            ),
            forall|x: int| 0 <= x < applied@.len() ==> applied_entry_ok(*h, roles@, #[trigger] applied@[x]),
        decreases n - i,
    {
        if l.eligible[i] {
            let node = &h.nodes[i].1;
            let lin = lineage(h, i);
            let role = roles[i];
            let action = match role {
                AppliedKnowledgeRole::Refinement => ResolutionAction::AppliedAsRefinement,
                AppliedKnowledgeRole::Exception => ResolutionAction::AppliedAsException,
                _ => ResolutionAction::Applied,
            };
            let mut reason = text("Final role: ");
            reason.append(role_name(role));
            log_step(l, h, threshold, &h.nodes[i].0, action, reason);
            let applicability = duplicate_applicability(&l.scopes[i]);
            let ghost before = applied@;
            applied.push(AppliedKnowledge {
                artifact: duplicate_artifact(&node.artifact),
                node: node.id.clone(),
                role,
                applicability,
                lineage: lin,
            });
            proof {
                assert(node.id@ == h.nodes@[i as int].0@);
                lemma_node_at(*h, i as int);
                lemma_first_pos_wf(*h, i as int);
                assert(applied_entry_ok(*h, roles@, applied@[applied@.len() - 1]));
                assert forall|x: int| 0 <= x < applied@.len() implies applied_entry_ok(*h, roles@, #[trigger] applied@[x]) by {
                    if x < before.len() {
                        assert(applied@[x] == before[x]);
                    }
                }
                assert(applied_nodes(applied@) =~= applied_nodes(before).push(keys[i as int]));
                assert(authoritative(h.nodes@[i as int].1, threshold, l.scopes@[i as int].status));
                assert forall|x: int| 0 <= x < applied@.len() implies authoritative(
                    node_at(*h, (#[trigger] applied@[x]).node@),
                    threshold,
                    applied@[x].applicability.status,
                ) by {
                    if x < before.len() {
                        assert(applied@[x] == before[x]);
                    }
                }
            }
        }
        i = i + 1;
    }
    applied
}

/// `v` fills one of `slots`.
pub open spec fn came_from<T>(slots: Seq<Option<T>>, v: T) -> bool {
    exists|i: int| 0 <= i < slots.len() && slots[i] == Some(v)
}

fn collect_suppressed(l: &mut Ledger, n: usize) -> (r: Vec<SuppressedKnowledge>)
    requires
        old(l).suppressed@.len() == n,
    ensures
        final(l).unknown@ == old(l).unknown@,
        final(l).advisory@ == old(l).advisory@,
        final(l).trace@ == old(l).trace@,
        suppressed_nodes(r@) == flagged_keys(
            old(l).suppressed@.map_values(|o: Option<SuppressedKnowledge>| if o is Some { o->0.node@ } else { Seq::empty() }),
            some_flags(old(l).suppressed@),
            n as int,
        ),
        forall|x: int| 0 <= x < r@.len() ==> came_from(old(l).suppressed@, #[trigger] r@[x]),
{
    let ghost orig = l.suppressed@;
    let ghost names = orig.map_values(|o: Option<SuppressedKnowledge>| if o is Some { o->0.node@ } else { Seq::empty() });
    let mut r: Vec<SuppressedKnowledge> = Vec::new();
    let mut i: usize = 0;
    while i < n
        invariant
            l.unknown@ == old(l).unknown@,
            l.advisory@ == old(l).advisory@,
            l.trace@ == old(l).trace@,
            i <= n,
            orig.len() == n,
            names == orig.map_values(|o: Option<SuppressedKnowledge>| if o is Some { o->0.node@ } else { Seq::empty() }),
            l.suppressed@ =~= orig.subrange(i as int, n as int),
            suppressed_nodes(r@) == flagged_keys(names, some_flags(orig), i as int),
            forall|x: int| 0 <= x < r@.len() ==> came_from(orig, #[trigger] r@[x]),
        decreases n - i,
    {
        let slot = l.suppressed.remove(0);
        let ghost before = r@;
        proof {
            assert(slot == orig[i as int]);
        }
        match slot {
            Some(x) => {
                r.push(x);
                proof {
                    assert(orig[i as int] == Some(x));
                    assert forall|y: int| 0 <= y < r@.len() implies came_from(orig, #[trigger] r@[y]) by {
                        if y < before.len() {
                            assert(r@[y] == before[y]);
                        }
                    }
                    assert(suppressed_nodes(r@) =~= suppressed_nodes(before).push(names[i as int]));
                }
            },
            None => {},
        }
        i = i + 1;
    }
    r
}

fn collect_unknown(l: &mut Ledger, n: usize) -> (r: Vec<UnknownKnowledge>)
    requires
        old(l).unknown@.len() == n,
    ensures
        final(l).suppressed@ == old(l).suppressed@,
        final(l).advisory@ == old(l).advisory@,
        final(l).trace@ == old(l).trace@,
        unknown_nodes(r@) == flagged_keys(
            old(l).unknown@.map_values(|o: Option<UnknownKnowledge>| if o is Some { o->0.node@ } else { Seq::empty() }),
            some_flags(old(l).unknown@),
            n as int,
        ),
        forall|x: int| 0 <= x < r@.len() ==> came_from(old(l).unknown@, #[trigger] r@[x]),
{
    let ghost orig = l.unknown@;
    let ghost names = orig.map_values(|o: Option<UnknownKnowledge>| if o is Some { o->0.node@ } else { Seq::empty() });
    let mut r: Vec<UnknownKnowledge> = Vec::new();
    let mut i: usize = 0;
    while i < n
        invariant
            l.suppressed@ == old(l).suppressed@,
            l.advisory@ == old(l).advisory@,
            l.trace@ == old(l).trace@,
            i <= n,
            orig.len() == n,
            names == orig.map_values(|o: Option<UnknownKnowledge>| if o is Some { o->0.node@ } else { Seq::empty() }),
            l.unknown@ =~= orig.subrange(i as int, n as int),
            unknown_nodes(r@) == flagged_keys(names, some_flags(orig), i as int),
            forall|x: int| 0 <= x < r@.len() ==> came_from(orig, #[trigger] r@[x]),
        decreases n - i,
    {
        let slot = l.unknown.remove(0);
        let ghost before = r@;
        proof {
            assert(slot == orig[i as int]);
        }
        match slot {
            Some(x) => {
                r.push(x);
                proof {
                    assert(orig[i as int] == Some(x));
                    assert forall|y: int| 0 <= y < r@.len() implies came_from(orig, #[trigger] r@[y]) by {
                        if y < before.len() {
                            assert(r@[y] == before[y]);
                        }
                    }
                    assert(unknown_nodes(r@) =~= unknown_nodes(before).push(names[i as int]));
                }
            },
            None => {},
        }
        i = i + 1;
    }
    r
}

fn collect_advisory(l: &mut Ledger, n: usize) -> (r: Vec<AppliedKnowledge>)
    requires
        old(l).advisory@.len() == n,
    ensures
        final(l).suppressed@ == old(l).suppressed@,
        final(l).unknown@ == old(l).unknown@,
        final(l).trace@ == old(l).trace@,
        applied_nodes(r@) == flagged_keys(
            old(l).advisory@.map_values(|o: Option<AppliedKnowledge>| if o is Some { o->0.node@ } else { Seq::empty() }),
            some_flags(old(l).advisory@),
            n as int,
        ),
        forall|x: int| 0 <= x < r@.len() ==> came_from(old(l).advisory@, #[trigger] r@[x]),
{
    let ghost orig = l.advisory@;
    let ghost names = orig.map_values(|o: Option<AppliedKnowledge>| if o is Some { o->0.node@ } else { Seq::empty() });
    let mut r: Vec<AppliedKnowledge> = Vec::new();
    let mut i: usize = 0;
    while i < n
        invariant
            l.suppressed@ == old(l).suppressed@,
            l.unknown@ == old(l).unknown@,
            l.trace@ == old(l).trace@,
            i <= n,
            orig.len() == n,
            names == orig.map_values(|o: Option<AppliedKnowledge>| if o is Some { o->0.node@ } else { Seq::empty() }),
            l.advisory@ =~= orig.subrange(i as int, n as int),
            applied_nodes(r@) == flagged_keys(names, some_flags(orig), i as int),
            forall|x: int| 0 <= x < r@.len() ==> came_from(orig, #[trigger] r@[x]),
        decreases n - i,
    {
        let slot = l.advisory.remove(0);
        let ghost before = r@;
        proof {
            assert(slot == orig[i as int]);
        }
        match slot {
            Some(x) => {
                r.push(x);
                proof {
                    assert(orig[i as int] == Some(x));
                    assert forall|y: int| 0 <= y < r@.len() implies came_from(orig, #[trigger] r@[y]) by {
                        if y < before.len() {
                            assert(r@[y] == before[y]);
                        }
                    }
                    assert(applied_nodes(r@) =~= applied_nodes(before).push(names[i as int]));
                }
            },
            None => {},
        }
        i = i + 1;
    }
    r
}

proof fn lemma_flagged_congruent(k1: Seq<Seq<char>>, k2: Seq<Seq<char>>, flags: Seq<bool>, upto: int)
    requires
        0 <= upto <= flags.len(),
        upto <= k1.len(),
        upto <= k2.len(),
        forall|i: int| 0 <= i < upto && #[trigger] flags[i] ==> k1[i] == k2[i],
    ensures
        flagged_keys(k1, flags, upto) == flagged_keys(k2, flags, upto),
    decreases upto,
{
    if upto > 0 {
        lemma_flagged_congruent(k1, k2, flags, upto - 1);
    }
}

proof fn lemma_list_partition(keys: Seq<Seq<char>>, flags: Seq<bool>, list: Seq<Seq<char>>, k: Seq<char>, i0: int)
    requires
        list == flagged_keys(keys, flags, keys.len() as int),
        flags.len() == keys.len(),
        keys.no_duplicates(),
        0 <= i0 < keys.len(),
        keys[i0] == k,
    ensures
        list.contains(k) == flags[i0],
{
    lemma_flagged_contains(keys, flags, keys.len() as int, k);
    if list.contains(k) {
        let i = choose|i: int| 0 <= i < keys.len() && flags[i] && keys[i] == k;
        assert(i == i0);
    }
}

proof fn lemma_partition(
    h: KnowledgeHierarchy,
    l: Ledger,
    threshold: u8,
    r: EffectiveKnowledge,
)
    requires
        h.wf(),
        l.settled(h, threshold),
        applied_nodes(r.applied@) == flagged_keys(node_keys(h), l.eligible@, h.nodes@.len() as int),
        suppressed_nodes(r.suppressed@) == flagged_keys(
            l.suppressed@.map_values(|o: Option<SuppressedKnowledge>| if o is Some { o->0.node@ } else { Seq::empty() }),
            some_flags(l.suppressed@),
            h.nodes@.len() as int,
        ),
        unknown_nodes(r.unknown@) == flagged_keys(
            l.unknown@.map_values(|o: Option<UnknownKnowledge>| if o is Some { o->0.node@ } else { Seq::empty() }),
            some_flags(l.unknown@),
            h.nodes@.len() as int,
        ),
        applied_nodes(r.advisory@) == flagged_keys(
            l.advisory@.map_values(|o: Option<AppliedKnowledge>| if o is Some { o->0.node@ } else { Seq::empty() }),
            some_flags(l.advisory@),
            h.nodes@.len() as int,
        ),
    ensures
        partitions_nodes(h, r),
{
    let n = h.nodes@.len() as int;
    let keys = node_keys(h);
    lemma_node_keys_distinct(h);
    let fs = some_flags(l.suppressed@);
    let fu = some_flags(l.unknown@);
    let fa = some_flags(l.advisory@);
    let fe = l.eligible@;
    assert forall|i: int| 0 <= i < n && #[trigger] fs[i] implies l.suppressed@.map_values(
        |o: Option<SuppressedKnowledge>| if o is Some { o->0.node@ } else { Seq::empty() },
    )[i] == keys[i] by {
        assert(l.slot_ok(i, h.nodes@[i].0@));
    }
    lemma_flagged_congruent(
        l.suppressed@.map_values(|o: Option<SuppressedKnowledge>| if o is Some { o->0.node@ } else { Seq::empty() }),
        keys,
        fs,
        n,
    );
    assert forall|i: int| 0 <= i < n && #[trigger] fu[i] implies l.unknown@.map_values(
        |o: Option<UnknownKnowledge>| if o is Some { o->0.node@ } else { Seq::empty() },
    )[i] == keys[i] by {
        assert(l.slot_ok(i, h.nodes@[i].0@));
    }
    lemma_flagged_congruent(
        l.unknown@.map_values(|o: Option<UnknownKnowledge>| if o is Some { o->0.node@ } else { Seq::empty() }),
        keys,
        fu,
        n,
    );
    assert forall|i: int| 0 <= i < n && #[trigger] fa[i] implies l.advisory@.map_values(
        |o: Option<AppliedKnowledge>| if o is Some { o->0.node@ } else { Seq::empty() },
    )[i] == keys[i] by {
        assert(l.slot_ok(i, h.nodes@[i].0@));
    }
    lemma_flagged_congruent(
        l.advisory@.map_values(|o: Option<AppliedKnowledge>| if o is Some { o->0.node@ } else { Seq::empty() }),
        keys,
        fa,
        n,
    );
    assert(keys_ordered(keys)) by {
        assert forall|a: int, b: int| 0 <= a < b < keys.len() implies bytes_lt(key_bytes(#[trigger] keys[a]), key_bytes(#[trigger] keys[b])) by {
            assert(keys[a] == h.nodes@[a].0@ && keys[b] == h.nodes@[b].0@);
        }
    }
    lemma_flagged_ordered(keys, fe, n);
    lemma_flagged_ordered(keys, fs, n);
    lemma_flagged_ordered(keys, fu, n);
    lemma_flagged_ordered(keys, fa, n);
    assert forall|k: Seq<char>| #[trigger] is_node(h, k) implies one_if(applied_nodes(r.applied@).contains(k)) + one_if(
        applied_nodes(r.advisory@).contains(k)) + one_if(suppressed_nodes(r.suppressed@).contains(k)) + one_if(
        unknown_nodes(r.unknown@).contains(k)) == 1 by {
        let i0 = choose|i: int| 0 <= i < keys.len() && keys[i] == k;
        lemma_list_partition(keys, fe, applied_nodes(r.applied@), k, i0);
        lemma_list_partition(keys, fs, suppressed_nodes(r.suppressed@), k, i0);
        lemma_list_partition(keys, fu, unknown_nodes(r.unknown@), k, i0);
        lemma_list_partition(keys, fa, applied_nodes(r.advisory@), k, i0);
        assert(l.slot_ok(i0, h.nodes@[i0].0@));
    }
    assert forall|k: Seq<char>| applied_nodes(r.applied@).contains(k) implies is_node(h, k) by {
        lemma_flagged_contains(keys, fe, n, k);
    }
    assert forall|k: Seq<char>| applied_nodes(r.advisory@).contains(k) implies is_node(h, k) by {
        lemma_flagged_contains(keys, fa, n, k);
    }
    assert forall|k: Seq<char>| suppressed_nodes(r.suppressed@).contains(k) implies is_node(h, k) by {
        lemma_flagged_contains(keys, fs, n, k);
    }
    assert forall|k: Seq<char>| unknown_nodes(r.unknown@).contains(k) implies is_node(h, k) by {
        lemma_flagged_contains(keys, fu, n, k);
    }
}

/// A character inside a JSON string literal, escaped as `serde_json` escapes it.
pub open spec fn json_char(c: char) -> Seq<char> {
    if c == '"' {
        seq!['\\', '"']
    } else if c == '\\' {
        seq!['\\', '\\']
    } else if c == '\n' {
        seq!['\\', 'n']
    } else if c == '\r' {
        seq!['\\', 'r']
    } else if c == '\t' {
        seq!['\\', 't']
    } else if c == '\u{8}' {
        seq!['\\', 'b']
    } else if c == '\u{c}' {
        seq!['\\', 'f']
    } else if (c as u32) < 0x20 {
        seq!['\\', 'u', '0', '0', hex_char(((c as u32) / 16) as u8), hex_char(((c as u32) % 16) as u8)]
    } else {
        seq![c]
    }
}

pub open spec fn json_body(s: Seq<char>) -> Seq<char>
    decreases s.len(),
{
    if s.len() == 0 {
        Seq::empty()
    } else {
        json_body(s.drop_last()) + json_char(s.last())
    }
}

/// A JSON string literal.
pub open spec fn json_text(s: Seq<char>) -> Seq<char> {
    seq!['"'] + json_body(s) + seq!['"']
}

pub(crate) fn append_json_text(out: &mut String, s: &str)
    ensures
        final(out)@ == old(out)@ + json_text(s@),
{
    let ghost start = out@;
    let quote = "\"";
    proof {
        reveal_strlit("\"");
    }
    out.append(quote);
    let n = s.unicode_len();
    let mut i: usize = 0;
    proof {
        assert(s@.take(0) =~= Seq::<char>::empty());
    }
    while i < n
        invariant
            n == s@.len(),
            i <= n,
            out@ == start + seq!['"'] + json_body(s@.take(i as int)),
        decreases n - i,
    {
        let c = s.get_char(i);
        let ghost before = out@;
        if c == '"' {
            proof {
                reveal_strlit("\\\"");
            }
            out.append("\\\"");
        } else if c == '\\' {
            proof {
                reveal_strlit("\\\\");
            }
            out.append("\\\\");
        } else if c == '\n' {
            proof {
                reveal_strlit("\\n");
            }
            out.append("\\n");
        } else if c == '\r' {
            proof {
                reveal_strlit("\\r");
            }
            out.append("\\r");
        } else if c == '\t' {
            proof {
                reveal_strlit("\\t");
            }
            out.append("\\t");
        } else if c == '\u{8}' {
            proof {
                reveal_strlit("\\b");
            }
            out.append("\\b");
        } else if c == '\u{c}' {
            proof {
                reveal_strlit("\\f");
            }
            out.append("\\f");
        } else if (c as u32) < 0x20 {
            proof {
                reveal_strlit("\\u00");
            }
            out.append("\\u00");
            let code = c as u32;
            out.append(crate::digest::hex_digit_str((code / 16) as u8));
            out.append(crate::digest::hex_digit_str((code % 16) as u8));
        } else {
            out.append(s.substring_char(i, i + 1));
            proof {
                assert(s@.subrange(i as int, i + 1) =~= seq![c]);
            }
        }
        proof {
            assert(s@.take(i + 1).drop_last() =~= s@.take(i as int));
            assert(s@.take(i + 1).last() == c);
            assert(out@ =~= start + seq!['"'] + json_body(s@.take(i + 1)));
        }
        i = i + 1;
    }
    out.append(quote);
    proof {
        assert(s@.take(n as int) =~= s@);
        assert(out@ =~= start + json_text(s@));
    }
}

pub open spec fn issue_kind_name_spec(k: HierarchyValidationIssueKind) -> Seq<char> {
    match k {
        HierarchyValidationIssueKind::Cycle => "cycle"@,
        HierarchyValidationIssueKind::SelfReference => "self_reference"@,
        HierarchyValidationIssueKind::MissingNode => "missing_node"@,
        HierarchyValidationIssueKind::InvalidSpecializationScope => "invalid_specialization_scope"@,
        HierarchyValidationIssueKind::InvalidExceptionScope => "invalid_exception_scope"@,
        HierarchyValidationIssueKind::SupersessionCycle => "supersession_cycle"@,
        HierarchyValidationIssueKind::IncompatibleArtifactKinds => "incompatible_artifact_kinds"@,
        HierarchyValidationIssueKind::OrphanedReference => "orphaned_reference"@,
        HierarchyValidationIssueKind::UnknownScopeRelationship => "unknown_scope_relationship"@,
    }
}

fn issue_kind_name(k: HierarchyValidationIssueKind) -> (t: &'static str)
    ensures
        t@ == issue_kind_name_spec(k),
{
    match k {
        HierarchyValidationIssueKind::Cycle => "cycle",
        HierarchyValidationIssueKind::SelfReference => "self_reference",
        HierarchyValidationIssueKind::MissingNode => "missing_node",
        HierarchyValidationIssueKind::InvalidSpecializationScope => "invalid_specialization_scope",
        HierarchyValidationIssueKind::InvalidExceptionScope => "invalid_exception_scope",
        HierarchyValidationIssueKind::SupersessionCycle => "supersession_cycle",
        HierarchyValidationIssueKind::IncompatibleArtifactKinds => "incompatible_artifact_kinds",
        HierarchyValidationIssueKind::OrphanedReference => "orphaned_reference",
        HierarchyValidationIssueKind::UnknownScopeRelationship => "unknown_scope_relationship",
    }
}

/// JSON string literals separated by commas.
pub open spec fn texts_json(s: Seq<String>) -> Seq<char>
    decreases s.len(),
{
    if s.len() == 0 {
        Seq::empty()
    } else {
        texts_json(s.drop_last()) + (if s.len() > 1 { ","@ } else { Seq::empty() }) + json_text(s.last()@)
    }
}

/// An issue as a JSON object of kind, message and nodes.
pub open spec fn issue_json(i: HierarchyValidationIssue) -> Seq<char> {
    "{\"kind\":\""@ + issue_kind_name_spec(i.kind) + "\",\"message\":"@ + json_text(i.message@) + ",\"nodes\":["@
        + texts_json(i.nodes@) + "]}"@
}

/// Issues as JSON objects separated by commas.
pub open spec fn issues_body(s: Seq<HierarchyValidationIssue>) -> Seq<char>
    decreases s.len(),
{
    if s.len() == 0 {
        Seq::empty()
    } else {
        issues_body(s.drop_last()) + (if s.len() > 1 { ","@ } else { Seq::empty() }) + issue_json(s.last())
    }
}

/// A validation report as compact JSON, fields in declaration order.
pub open spec fn report_json_spec(r: KnowledgeHierarchyValidationReport) -> Seq<char> {
    "{\"valid\":"@ + (if r.valid { "true"@ } else { "false"@ }) + ",\"errors\":"@ + "["@ + issues_body(r.errors@) + "]"@
        + ",\"warnings\":"@ + "["@ + issues_body(r.warnings@) + "]"@ + "}"@
}

fn append_issues(out: &mut String, issues: &Vec<HierarchyValidationIssue>)
    ensures
        final(out)@ == old(out)@ + "["@ + issues_body(issues@) + "]"@,
{
    let ghost start = out@;
    out.append("[");
    let mut i: usize = 0;
    proof {
        assert(issues@.take(0) =~= Seq::<HierarchyValidationIssue>::empty());
    }
    while i < issues.len()
        invariant
            i <= issues@.len(),
            out@ == start + "["@ + issues_body(issues@.take(i as int)),
        decreases issues.len() - i,
    {
        let ghost before = out@;
        if i > 0 {
            out.append(",");
        }
        let issue = &issues[i];
        out.append("{\"kind\":\"");
        out.append(issue_kind_name(issue.kind));
        out.append("\",\"message\":");
        append_json_text(out, issue.message.as_str());
        out.append(",\"nodes\":[");
        let ghost mid = out@;
        let mut j: usize = 0;
        proof {
            assert(issue.nodes@.take(0) =~= Seq::<String>::empty());
        }
        while j < issue.nodes.len()
            invariant
                j <= issue.nodes@.len(),
                out@ == mid + texts_json(issue.nodes@.take(j as int)),
            decreases issue.nodes.len() - j,
        {
            if j > 0 {
                out.append(",");
            }
            append_json_text(out, issue.nodes[j].as_str());
            proof {
                assert(issue.nodes@.take(j + 1).drop_last() =~= issue.nodes@.take(j as int));
                assert(issue.nodes@.take(j + 1).last() == issue.nodes@[j as int]);
                if j > 0 {
                    assert(out@ =~= mid + texts_json(issue.nodes@.take(j + 1)));
                } else {
                    assert(out@ =~= mid + texts_json(issue.nodes@.take(j + 1)));
                }
            }
            j = j + 1;
        }
        out.append("]}");
        proof {
            assert(issue.nodes@.take(j as int) =~= issue.nodes@);
            assert(issues@.take(i + 1).drop_last() =~= issues@.take(i as int));
            assert(issues@.take(i + 1).last() == issues@[i as int]);
            assert(out@ =~= start + "["@ + issues_body(issues@.take(i + 1)));
        }
        i = i + 1;
    }
    out.append("]");
    proof {
        assert(issues@.take(i as int) =~= issues@);
    }
}

/// The compact JSON text of a validation report.
pub fn report_json(r: &KnowledgeHierarchyValidationReport) -> (j: String)
    ensures
        j@ == report_json_spec(*r),
{
    let mut out = text("{\"valid\":");
    out.append(if r.valid { "true" } else { "false" });
    out.append(",\"errors\":");
    append_issues(&mut out, &r.errors);
    out.append(",\"warnings\":");
    append_issues(&mut out, &r.warnings);
    out.append("}");
    proof {
        assert(out@ =~= report_json_spec(*r));
    }
    out
}

/// The positions of those of `keys` that are nodes, in the order of `keys`.
pub open spec fn positions_spec(h: KnowledgeHierarchy, keys: Seq<String>) -> Seq<usize>
    decreases keys.len(),
{
    if keys.len() == 0 {
        Seq::empty()
    } else {
        positions_spec(h, keys.drop_last()) + if is_node(h, keys.last()@) {
            seq![first_pos(h, keys.last()@) as usize]
        } else {
            Seq::empty()
        }
    }
}

fn node_positions(h: &KnowledgeHierarchy, keys: &Vec<String>) -> (r: Vec<usize>)
    ensures
        forall|q: int| 0 <= q < r@.len() ==> #[trigger] r@[q] < h.nodes@.len(),
        r@ == positions_spec(*h, keys@),
{
    let mut r: Vec<usize> = Vec::new();
    let mut q: usize = 0;
    while q < keys.len()
        invariant
            q <= keys@.len(),
            forall|x: int| 0 <= x < r@.len() ==> #[trigger] r@[x] < h.nodes@.len(),
            r@ == positions_spec(*h, keys@.take(q as int)),
        decreases keys.len() - q,
    {
        proof {
            assert(keys@.take(q + 1).drop_last() =~= keys@.take(q as int));
            assert(keys@.take(q + 1).last() == keys@[q as int]);
        }
        if let Some(i) = node_index(h, keys[q].as_str()) {
            r.push(i);
        }
        proof {
            assert(r@ =~= positions_spec(*h, keys@.take(q + 1)));
        }
        q = q + 1;
    }
    proof {
        assert(keys@.take(q as int) =~= keys@);
    }
    r
}

/// A suppression made by a precedence phase: superseded or excepted.
pub open spec fn by_precedence(reason: SuppressionReason) -> bool {
    reason == SuppressionReason::Superseded || reason == SuppressionReason::ExplicitException
}

pub open spec fn precedence_suppressions(s: Seq<Option<(SuppressionReason, usize)>>) -> bool {
    forall|x: int| 0 <= x < s.len() ==> match #[trigger] s[x] {
        Some(m) => by_precedence(m.0),
        None => true,
    }
}

/// `b` keeps no eligibility that `a` lacks.
pub open spec fn shrinks(a: Seq<bool>, b: Seq<bool>) -> bool {
    &&& b.len() == a.len()
    &&& forall|x: int| 0 <= x < b.len() && #[trigger] b[x] ==> a[x]
}

proof fn lemma_kids_apply(relation: KnowledgeHierarchyRelation, p: int, s: PhaseState, kids: Seq<usize>)
    requires
        0 <= p < s.eligible.len(),
        s.suppressions.len() == s.eligible.len(),
    ensures
        shrinks(s.eligible, kids_apply(relation, p, s, kids).eligible),
        kids_apply(relation, p, s, kids).suppressions.len() == s.eligible.len(),
        precedence_suppressions(s.suppressions) ==> precedence_suppressions(kids_apply(relation, p, s, kids).suppressions),
    decreases kids.len(),
{
    if kids.len() > 0 {
        lemma_kids_apply(relation, p, s, kids.drop_last());
        let prev = kids_apply(relation, p, s, kids.drop_last());
        let next = kid_step(relation, p, prev, kids.last());
        assert(shrinks(prev.eligible, next.eligible));
        if precedence_suppressions(prev.suppressions) {
            assert forall|x: int| 0 <= x < next.suppressions.len() implies match #[trigger] next.suppressions[x] {
                Some(m) => by_precedence(m.0),
                None => true,
            } by {
                if x != p {
                    assert(prev.suppressions[x] == next.suppressions[x] || next.suppressions == prev.suppressions);
                }
            }
        }
    }
}

proof fn lemma_apply_from(
    h: KnowledgeHierarchy,
    order: Seq<usize>,
    relation: KnowledgeHierarchyRelation,
    conflicted: Seq<bool>,
    init: PhaseState,
    topo: Seq<usize>,
    t: int,
)
    requires
        init.suppressions.len() == init.eligible.len(),
        forall|q: int| 0 <= q < topo.len() ==> #[trigger] topo[q] < init.eligible.len(),
    ensures
        shrinks(init.eligible, apply_from(h, order, relation, conflicted, init, topo, t).eligible),
        apply_from(h, order, relation, conflicted, init, topo, t).suppressions.len() == init.eligible.len(),
        precedence_suppressions(init.suppressions) ==> precedence_suppressions(
            apply_from(h, order, relation, conflicted, init, topo, t).suppressions,
        ),
    decreases topo.len() - t,
{
    if 0 <= t < topo.len() {
        lemma_apply_from(h, order, relation, conflicted, init, topo, t + 1);
        let prev = apply_from(h, order, relation, conflicted, init, topo, t + 1);
        let p = topo[t] as int;
        if prev.eligible[p] {
            let kids = phase_kids(h, relation, conflicted, init.eligible, prev, children_spec(h, order, p, relation));
            lemma_kids_apply(relation, p, prev, kids);
        }
    }
}

proof fn lemma_phases_shrink(h: KnowledgeHierarchy, order: Seq<usize>, topo: Seq<usize>, s0: ResolutionState, k: nat)
    requires
        forall|q: int| 0 <= q < topo.len() ==> #[trigger] topo[q] < s0.eligible.len(),
    ensures
        shrinks(s0.eligible, phases_state(h, order, topo, s0, k).eligible),
    decreases k,
{
    if k > 0 {
        lemma_phases_shrink(h, order, topo, s0, (k - 1) as nat);
        let prev = phases_state(h, order, topo, s0, (k - 1) as nat);
        let mid = phase_conflicted(h, order, topo, k - 1, prev);
        assert(mid.eligible == prev.eligible);
        let init = phase_start(mid.eligible, mid.roles);
        lemma_apply_from(h, order, phase_relation_spec(k - 1), mid.conflicted, init, topo, 0);
    }
}

/// An entry that is not applied and was not overridden by precedence is one that kept no
/// authority of its own: not authoritative in the context, or failed by its health.
pub open spec fn left_out_unhealthy(h: KnowledgeHierarchy, s0: ResolutionState, k: EffectiveKnowledge) -> bool {
    &&& forall|x: int| 0 <= x < k.advisory@.len() ==> !s0.eligible[first_pos(h, (#[trigger] k.advisory@[x]).node@)]
    &&& forall|x: int| 0 <= x < k.unknown@.len() ==> !s0.eligible[first_pos(h, (#[trigger] k.unknown@[x]).node@)]
    &&& forall|x: int| 0 <= x < k.suppressed@.len() && !by_precedence((#[trigger] k.suppressed@[x]).reason) ==> !s0.eligible[first_pos(
        h,
        k.suppressed@[x].node@,
    )]
}

/// A node is out of the resolution by its own state: advisory, unknown, or suppressed for a
/// reason other than precedence.
pub open spec fn left_out(k: EffectiveKnowledge, key: Seq<char>) -> bool {
    ||| applied_nodes(k.advisory@).contains(key)
    ||| unknown_nodes(k.unknown@).contains(key)
    ||| exists|x: int| 0 <= x < k.suppressed@.len() && (#[trigger] k.suppressed@[x]).node@ == key && !by_precedence(
        k.suppressed@[x].reason,
    )
}

/// A dependant fails closed: where the node a health dependency rests on is advisory,
/// unknown, or suppressed for a reason of its own, the dependant is not applied.
pub proof fn lemma_dependant_fails_closed(
    h: KnowledgeHierarchy,
    context: KnowledgeContext,
    threshold: u8,
    scopes: Seq<KnowledgeApplicability>,
    order: Seq<usize>,
    drained: Seq<Seq<char>>,
    topo_keys: Seq<String>,
    k: EffectiveKnowledge,
    j: int,
)
    requires
        h.wf(),
        resolution_inputs(h, context, scopes, order, drained, topo_keys),
        resolution_matches(h, threshold, scopes, order, drained, topo_keys, k),
        partitions_nodes(h, k),
        0 <= j < h.edges@.len() <= usize::MAX,
        h.edges@[j].relation == KnowledgeHierarchyRelation::DependsOn,
        left_out(k, h.edges@[j].parent@),
    ensures
        !applied_nodes(k.applied@).contains(h.edges@[j].child@),
{
    let n = h.nodes@.len();
    let s0 = health_start(h, threshold, scopes, order, drained);
    let topo = positions_spec(h, topo_keys);
    let fin = phases_state(h, order, topo, s0, 4);
    let e0 = Seq::new(n, |i: int| authoritative(h.nodes@[i].1, threshold, scopes[i].status));
    let pk = h.edges@[j].parent@;
    let ck = h.edges@[j].child@;
    lemma_node_keys_distinct(h);
    if applied_nodes(k.applied@).contains(ck) {
        assert(is_node(h, pk)) by {
            if applied_nodes(k.advisory@).contains(pk) {
            } else if unknown_nodes(k.unknown@).contains(pk) {
            } else {
                let x = choose|x: int| 0 <= x < k.suppressed@.len() && (#[trigger] k.suppressed@[x]).node@ == pk && !by_precedence(
                    k.suppressed@[x].reason,
                );
                assert(suppressed_nodes(k.suppressed@)[x] == pk);
            }
        }
        let ip = choose|i: int| 0 <= i < node_keys(h).len() && node_keys(h)[i] == pk;
        lemma_first_pos_wf(h, ip);
        assert(!s0.eligible[ip]) by {
            if applied_nodes(k.advisory@).contains(pk) {
                let x = choose|x: int| 0 <= x < applied_nodes(k.advisory@).len() && applied_nodes(k.advisory@)[x] == pk;
                assert(k.advisory@[x].node@ == pk);
            } else if unknown_nodes(k.unknown@).contains(pk) {
                let x = choose|x: int| 0 <= x < unknown_nodes(k.unknown@).len() && unknown_nodes(k.unknown@)[x] == pk;
                assert(k.unknown@[x].node@ == pk);
            } else {
                let x = choose|x: int| 0 <= x < k.suppressed@.len() && (#[trigger] k.suppressed@[x]).node@ == pk && !by_precedence(
                    k.suppressed@[x].reason,
                );
            }
        }
        assert(is_node(h, ck));
        let ic = choose|i: int| 0 <= i < node_keys(h).len() && node_keys(h)[i] == ck;
        assert(order.contains(j as usize));
        let q = choose|q: int| 0 <= q < order.len() && order[q] == j as usize;
        assert(order[q] as int == j);
        assert(h.nodes@[ip].0@ == pk && h.nodes@[ic].0@ == ck);
        assert(health_edge(h, order[q] as int, ip, ic));
        assert(unhealthy_node(h, order, e0, drained, ip)) by {
            if !unhealthy_node(h, order, e0, drained, ip) {
                assert(!e0[ip]);
                assert(health_seed(h, e0, drained, ip));
                lemma_unhealthy_seed(h, order, e0, drained, ip);
            }
        }
        lemma_unhealthy_extend(h, order, e0, drained, ip, ic, q);
        assert(!s0.eligible[ic]);
        lemma_positions_in_range(h, topo_keys);
        lemma_phases_shrink(h, order, topo, s0, 4);
        assert(!fin.eligible[ic]);
        lemma_flagged_contains(node_keys(h), fin.eligible, n as int, ck);
        let w = choose|w: int| 0 <= w < n && fin.eligible[w] && node_keys(h)[w] == ck;
        assert(w == ic);
        assert(false);
    }
}

/// The positions of node keys lie among the nodes.
proof fn lemma_positions_in_range(h: KnowledgeHierarchy, keys: Seq<String>)
    requires
        h.wf(),
    ensures
        forall|q: int| 0 <= q < positions_spec(h, keys).len() ==> #[trigger] positions_spec(h, keys)[q] < h.nodes@.len(),
    decreases keys.len(),
{
    if keys.len() > 0 {
        lemma_positions_in_range(h, keys.drop_last());
        if is_node(h, keys.last()@) {
            let i = choose|i: int| 0 <= i < node_keys(h).len() && node_keys(h)[i] == keys.last()@;
            lemma_first_pos_wf(h, i);
        }
        let prev = positions_spec(h, keys.drop_last());
        assert forall|q: int| 0 <= q < positions_spec(h, keys).len() implies #[trigger] positions_spec(h, keys)[q] < h.nodes@.len() by {
            if q < prev.len() {
                assert(positions_spec(h, keys)[q] == prev[q]);
            }
        }
    }
}

/// Every slot outside eligibility belongs to a node without authority of its own, except
/// suppressions made by precedence.
spec fn slots_left(l: Ledger, e: Seq<bool>) -> bool {
    &&& forall|i: int| 0 <= i < e.len() && (#[trigger] l.advisory@[i]) is Some ==> !e[i]
    &&& forall|i: int| 0 <= i < e.len() && (#[trigger] l.unknown@[i]) is Some ==> !e[i]
    &&& forall|i: int| 0 <= i < e.len() && (#[trigger] l.suppressed@[i]) is Some && !by_precedence(l.suppressed@[i]->0.reason)
        ==> !e[i]
}

/// Raising conflicts over `relation` appends one recorded conflict per contested parent.
proof fn lemma_conflicts_step(
    h: KnowledgeHierarchy,
    order: Seq<usize>,
    topo: Seq<usize>,
    relation: KnowledgeHierarchyRelation,
    st: ResolutionState,
    before: Seq<KnowledgeConflict>,
    after: Seq<KnowledgeConflict>,
    cs: Seq<ConflictCause>,
)
    requires
        before.len() == cs.len(),
        forall|m: int| 0 <= m < cs.len() ==> conflict_recorded(h, order, #[trigger] before[m], cs[m]),
        after.len() == before.len() + conflict_parents(h, st.eligible, order, topo, relation).len(),
        after.subrange(0, before.len() as int) == before,
        forall|m: int| 0 <= m < conflict_parents(h, st.eligible, order, topo, relation).len() ==> conflict_is(
            #[trigger] after[before.len() + m],
            h,
            conflict_parents(h, st.eligible, order, topo, relation)[m] as int,
            rivals(h, st.eligible, order, conflict_parents(h, st.eligible, order, topo, relation)[m] as int, relation),
            relation,
        ),
    ensures
        after.len() == (cs + causes_of(h, order, topo, relation, st.eligible)).len(),
        forall|m: int| 0 <= m < (cs + causes_of(h, order, topo, relation, st.eligible)).len() ==> conflict_recorded(
            h,
            order,
            #[trigger] after[m],
            (cs + causes_of(h, order, topo, relation, st.eligible))[m],
        ),
{
    let all = cs + causes_of(h, order, topo, relation, st.eligible);
    assert forall|m: int| 0 <= m < all.len() implies conflict_recorded(h, order, #[trigger] after[m], all[m]) by {
        if m < cs.len() {
            assert(after.subrange(0, before.len() as int)[m] == after[m]);
            assert(all[m] == cs[m]);
        } else {
            let q = m - cs.len();
            assert(after[before.len() + q] == after[m]);
        }
    }
}

/// Resolves the knowledge that applies in a context.
#[derive(Clone, Copy, Debug)]
pub struct DeterministicKnowledgeResolver;

impl DeterministicKnowledgeResolver {
    /// Resolves `h` in `context` under `policy`. Refused, with an invalid-input error, for an
    /// unsound hierarchy, a minimum maturity that is not a support stage, or a policy that
    /// lets stale exceptions override. Otherwise every node is reported exactly once, as
    /// applied, advisory, suppressed or unknown, each list in key order; every applied node
    /// is active, fresh, mature enough, evidence-backed and applicable; the trace is numbered
    /// from one.
    pub fn resolve(
        &self,
        h: &KnowledgeHierarchy,
        context: &KnowledgeContext,
        policy: &KnowledgeResolutionPolicy,
    ) -> (r: Result<EffectiveKnowledge, Error>)
        requires
            h.wf(),
            context.wf(),
        ensures
            r is Err == resolution_refused(*h, *policy),
            match r {
                Err(e) => e is InvalidInput,
                Ok(k) => {
                    &&& partitions_nodes(*h, k)
                    &&& trace_numbered(k.trace@)
                    &&& forall|x: int| 0 <= x < k.applied@.len() ==> authoritative(
                        node_at(*h, (#[trigger] k.applied@[x]).node@),
                        maturity_rank(policy.minimum_primary_maturity)->0,
                        k.applied@[x].applicability.status,
                    )
                    &&& exists|scopes: Seq<KnowledgeApplicability>, order: Seq<usize>, drained: Seq<Seq<char>>, topo_keys: Seq<
                        String,
                    >| {
                        &&& #[trigger] resolution_inputs(*h, *context, scopes, order, drained, topo_keys)
                        &&& resolution_matches(
                            *h,
                            maturity_rank(policy.minimum_primary_maturity)->0,
                            scopes,
                            order,
                            drained,
                            topo_keys,
                            k,
                        )
                    }
                },
            },
    {
        let validation = validate_hierarchy(h);
        if !validation.valid {
            let mut m = text("Invalid knowledge hierarchy: ");
            m.append(report_json(&validation).as_str());
            return Err(Error::InvalidInput(m));
        }
        let threshold = match maturity_rank_exec(policy.minimum_primary_maturity) {
            Some(t) => t,
            None => return Err(Error::InvalidInput(text("Minimum maturity must be a support stage, not a terminal state"))),
        };
        if policy.stale_exception_can_override {
            return Err(Error::InvalidInput(text("Stale exception overrides are prohibited in Pass 1")));
        }
        let n = h.nodes.len();
        let order = edge_order(h);
        let topo_keys = topological(h, EdgeSelection::Precedence);
        let topo = node_positions(h, &topo_keys);
        let mut l = assess_nodes(h, context, policy, threshold);
        let ghost scopes = l.scopes@;
        let ghost e0 = l.eligible@;
        let ghost la = l;
        propagate_health(&mut l, h, &order, threshold);
        let ghost drained = choose|d: Seq<Seq<char>>| {
            &&& crate::hierarchy::validation::drain_order(*h, EdgeSelection::Health, d)
            &&& l.eligible@ == healthy_eligible(*h, order@, e0, d)
        };
        let mut roles = role_list(n);
        let mut conflicted = falses(n);
        let mut conflicts: Vec<KnowledgeConflict> = Vec::new();
        let ghost s0 = health_start(*h, threshold, scopes, order@, drained);
        proof {
            assert(e0 =~= Seq::new(n as nat, |i: int| authoritative(h.nodes@[i].1, threshold, scopes[i].status)));
            assert(roles@ =~= s0.roles);
            assert(conflicted@ =~= s0.conflicted);
            assert(l.eligible@ == s0.eligible);
            assert forall|i: int| 0 <= i < n && #[trigger] l.eligible@[i] implies e0[i] by {}
            assert forall|i: int| 0 <= i < s0.eligible.len() && (#[trigger] l.advisory@[i]) is Some implies !s0.eligible[i] by {
                assert(la.slot_ok(i, h.nodes@[i].0@));
            }
            assert forall|i: int| 0 <= i < s0.eligible.len() && (#[trigger] l.unknown@[i]) is Some implies !s0.eligible[i] by {
                assert(la.slot_ok(i, h.nodes@[i].0@));
            }
            assert forall|i: int| 0 <= i < s0.eligible.len() && (#[trigger] l.suppressed@[i]) is Some && !by_precedence(
                l.suppressed@[i]->0.reason,
            ) implies !s0.eligible[i] by {
                assert(la.slot_ok(i, h.nodes@[i].0@));
            }
            assert(slots_left(l, s0.eligible));
        }
        let mut phase: usize = 0;
        while phase < 4
            invariant
                n == h.nodes@.len(),
                h.wf(),
                phase <= 4,
                crate::hierarchy::validation::nodes_sound(*h),
                l.settled(*h, threshold),
                l.scopes@ == scopes,
                s0.eligible.len() == n,
                slots_left(l, s0.eligible),
                roles@.len() == n,
                conflicted@.len() == n,
                forall|q: int| 0 <= q < order@.len() ==> #[trigger] order@[q] < h.edges@.len(),
                forall|q: int| 0 <= q < topo@.len() ==> #[trigger] topo@[q] < n,
                l.eligible@ == phases_state(*h, order@, topo@, s0, phase as nat).eligible,
                roles@ == phases_state(*h, order@, topo@, s0, phase as nat).roles,
                conflicted@ == phases_state(*h, order@, topo@, s0, phase as nat).conflicted,
                conflicts@.len() == phases_causes(*h, order@, topo@, s0, phase as nat).len(),
                forall|m: int| 0 <= m < phases_causes(*h, order@, topo@, s0, phase as nat).len() ==> conflict_recorded(
                    *h,
                    order@,
                    #[trigger] conflicts@[m],
                    phases_causes(*h, order@, topo@, s0, phase as nat)[m],
                ),
            decreases 4 - phase,
        {
            let relation = phase_relation(phase);
            let ghost st = phases_state(*h, order@, topo@, s0, phase as nat);
            let ghost cs = phases_causes(*h, order@, topo@, s0, phase as nat);
            let ghost mid = phase_conflicted(*h, order@, topo@, phase as int, st);
            let ghost pc = phase_causes(*h, order@, topo@, phase as int, st);
            if relation == KnowledgeHierarchyRelation::Supersedes {
                let ghost c0 = conflicts@;
                raise_conflicts(&mut l, h, &order, &topo, threshold, relation, &mut roles, &mut conflicted, &mut conflicts);
                proof {
                    lemma_conflicts_step(*h, order@, topo@, relation, st, c0, conflicts@, cs);
                    assert(roles@ =~= mid.roles);
                    assert(conflicted@ =~= mid.conflicted);
                }
            } else if relation == KnowledgeHierarchyRelation::Excepts {
                let ghost c0 = conflicts@;
                raise_conflicts(&mut l, h, &order, &topo, threshold, relation, &mut roles, &mut conflicted, &mut conflicts);
                let ghost st1 = after_conflicts(*h, order@, topo@, relation, st);
                proof {
                    lemma_conflicts_step(*h, order@, topo@, relation, st, c0, conflicts@, cs);
                    assert(roles@ =~= st1.roles);
                    assert(conflicted@ =~= st1.conflicted);
                }
                let ghost c1 = conflicts@;
                let ghost cs1 = cs + causes_of(*h, order@, topo@, relation, st.eligible);
                raise_conflicts(
                    &mut l,
                    h,
                    &order,
                    &topo,
                    threshold,
                    KnowledgeHierarchyRelation::Specializes,
                    &mut roles,
                    &mut conflicted,
                    &mut conflicts,
                );
                proof {
                    lemma_conflicts_step(*h, order@, topo@, KnowledgeHierarchyRelation::Specializes, st1, c1, conflicts@, cs1);
                    assert(roles@ =~= mid.roles);
                    assert(conflicted@ =~= mid.conflicted);
                    assert(cs1 + causes_of(*h, order@, topo@, KnowledgeHierarchyRelation::Specializes, st1.eligible) =~= cs + pc);
                }
            } else {
                proof {
                    assert(pc =~= Seq::<ConflictCause>::empty());
                    assert(cs + pc =~= cs);
                }
            }
            let ghost lb = l;
            apply_relation(&mut l, h, &order, &topo, threshold, relation, &mut roles, &conflicted);
            proof {
                let init = phase_start(lb.eligible@, mid.roles);
                assert(precedence_suppressions(init.suppressions));
                lemma_apply_from(*h, order@, relation, conflicted@, init, topo@, 0);
                let made = apply_from(*h, order@, relation, conflicted@, init, topo@, 0).suppressions;
                assert forall|i: int| 0 <= i < s0.eligible.len() && (#[trigger] l.suppressed@[i]) is Some && !by_precedence(
                    l.suppressed@[i]->0.reason,
                ) implies !s0.eligible[i] by {
                    match made[i] {
                        Some(m) => {},
                        None => {},
                    }
                }
                assert(slots_left(l, s0.eligible));
                assert(phases_state(*h, order@, topo@, s0, (phase + 1) as nat) == after_apply(
                    *h,
                    order@,
                    topo@,
                    relation,
                    mid,
                ));
                assert(phases_causes(*h, order@, topo@, s0, (phase + 1) as nat) == cs + pc);
            }
            phase = phase + 1;
        }
        let ghost settled = l;
        let applied = assemble_applied(&mut l, h, &roles, threshold);
        let ghost before_collect = l;
        let suppressed = collect_suppressed(&mut l, n);
        let unknown = collect_unknown(&mut l, n);
        let advisory = collect_advisory(&mut l, n);
        let out = EffectiveKnowledge { applied, advisory, suppressed, unknown, conflicts, trace: l.trace };
        proof {
            lemma_partition(*h, before_collect, threshold, out);
            assert(resolution_inputs(*h, *context, scopes, order@, drained, topo_keys@));
            assert forall|x: int| 0 <= x < out.advisory@.len() implies !s0.eligible[first_pos(*h, (#[trigger] out.advisory@[x]).node@)] by {
                let i = choose|i: int| 0 <= i < before_collect.advisory@.len() && before_collect.advisory@[i] == Some(out.advisory@[x]);
                assert(before_collect.slot_ok(i, h.nodes@[i].0@));
                lemma_first_pos_wf(*h, i);
            }
            assert forall|x: int| 0 <= x < out.unknown@.len() implies !s0.eligible[first_pos(*h, (#[trigger] out.unknown@[x]).node@)] by {
                let i = choose|i: int| 0 <= i < before_collect.unknown@.len() && before_collect.unknown@[i] == Some(out.unknown@[x]);
                assert(before_collect.slot_ok(i, h.nodes@[i].0@));
                lemma_first_pos_wf(*h, i);
            }
            assert forall|x: int| 0 <= x < out.suppressed@.len() && !by_precedence((#[trigger] out.suppressed@[x]).reason) implies !s0.eligible[first_pos(
                *h,
                out.suppressed@[x].node@,
            )] by {
                let i = choose|i: int| 0 <= i < before_collect.suppressed@.len() && before_collect.suppressed@[i] == Some(out.suppressed@[x]);
                assert(before_collect.slot_ok(i, h.nodes@[i].0@));
                lemma_first_pos_wf(*h, i);
            }
            assert(resolution_matches(*h, threshold, scopes, order@, drained, topo_keys@, out));
        }
        Ok(out)
    }
}

} // verus!
