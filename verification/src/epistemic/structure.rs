//! The structure of a claim's evidence: its fault domains and how two paths differ.
use vstd::prelude::*;
use crate::digest::{blake3_digest, blake3_hash, push_uuid_text, uuid_text};
use crate::epistemic::diversity::{
    assessment_of, dependency_values, dependency_values_of, lists_value, named_dependencies, named_known, pair_key,
    value_listed, value_pair, DependencyPair, DeterministicEvidenceDiversityPolicy,
};
use crate::epistemic::{
    dependency_kind_name, epistemic_dependency_kind_rank, DependencyOverlap, DependencyValue, EpistemicDependencyKind,
    EpistemicFaultDomain, EvidenceContrast, EvidencePath,
};
use crate::text::{bytes_lt, is_blank_spec, views};

verus! {

// ------------------------------------------------------------------------------------------
// Fault domains.
// ------------------------------------------------------------------------------------------

/// The identity of the fault domain of a shared dependency: a UUID-shaped digest of the
/// dependency's kind and value.
pub open spec fn fault_domain_id(kind: EpistemicDependencyKind, value: Seq<char>) -> Seq<char> {
    "fault-domain-"@ + uuid_text(blake3_hash(vstd::utf8::encode_utf8(dependency_kind_name(kind) + "\u{1f}"@ + value)))
}

/// `d` is the fault domain of overlap `o`.
pub open spec fn domain_of(o: DependencyOverlap, d: EpistemicFaultDomain) -> bool {
    &&& d.id@ == fault_domain_id(o.kind, o.shared_value@)
    &&& d.kind == o.kind
    &&& d.dependency@ == o.shared_value@
    &&& views(d.members@) == views(o.paths@)
}

fn domain_for(o: &DependencyOverlap) -> (d: EpistemicFaultDomain)
    ensures
        domain_of(*o, d),
{
    let mut material = String::from_str(o.kind.name());
    material.append("\u{1f}");
    material.append(o.shared_value.as_str());
    let digest = blake3_digest(material.as_str().as_bytes());
    let mut id = String::from_str("fault-domain-");
    push_uuid_text(&mut id, &digest);
    let members = crate::text::clone_strings(&o.paths);
    EpistemicFaultDomain { id, kind: o.kind, dependency: o.shared_value.clone(), members }
}

/// The fault domains of a claim's evidence: one per dependency that paths share, in the
/// order of the diversity assessment's overlaps.
pub fn fault_domains(paths: &Vec<EvidencePath>) -> (r: Vec<EpistemicFaultDomain>)
    ensures
        exists|a: crate::epistemic::EvidenceDiversityAssessment| assessment_of(paths@, a)
            && #[trigger] domains_match(a.dependency_overlaps@, r@),
{
    let a = DeterministicEvidenceDiversityPolicy.assess(paths);
    let r = fault_domains_of(&a.dependency_overlaps);
    assert(domains_match(a.dependency_overlaps@, r@));
    r
}

/// One domain per overlap, in order.
pub open spec fn domains_match(overlaps: Seq<DependencyOverlap>, r: Seq<EpistemicFaultDomain>) -> bool {
    r.len() == overlaps.len() && forall|i: int| 0 <= i < r.len() ==> #[trigger] domain_of(overlaps[i], r[i])
}

/// The fault domain of each overlap, in order.
pub fn fault_domains_of(overlaps: &Vec<DependencyOverlap>) -> (r: Vec<EpistemicFaultDomain>)
    ensures
        domains_match(overlaps@, r@),
{
    let mut r: Vec<EpistemicFaultDomain> = Vec::new();
    let mut i: usize = 0;
    while i < overlaps.len()
        invariant
            i <= overlaps@.len(),
            r@.len() == i,
            forall|k: int| 0 <= k < i ==> #[trigger] domain_of(overlaps@[k], r@[k]),
        decreases overlaps.len() - i,
    {
        r.push(domain_for(&overlaps[i]));
        i = i + 1;
    }
    r
}

// ------------------------------------------------------------------------------------------
// Contrast of two paths.
// ------------------------------------------------------------------------------------------

/// A path knowingly depends on the pair.
pub open spec fn knows(p: EvidencePath, d: DependencyPair) -> bool {
    named_known(named_dependencies(p.dependencies), d)
}

proof fn lemma_known_iff_listed(named: Seq<DependencyPair>, r: Seq<DependencyValue>, d: DependencyPair)
    requires
        dependency_values_of(named, r),
    ensures
        named_known(named, d) <==> value_listed(r, d),
{
    reveal(named_known);
    reveal(value_listed);
    if named_known(named, d) {
        let j = choose|j: int| 0 <= j < named.len() && named[j] == d && !is_blank_spec(d.1);
        assert(!is_blank_spec(named[j].1));
        assert(value_listed(r, named[j]));
    }
    if value_listed(r, d) {
        let a = choose|a: int| 0 <= a < r.len() && value_pair(r[a]) == d;
        assert(named_known(named, value_pair(r[a])));
    }
}

/// The kinds on which two paths depend on different values, by kind.
pub open spec fn kind_differs(left: EvidencePath, right: EvidencePath, k: EpistemicDependencyKind) -> bool {
    exists|v: Seq<char>| #[trigger] knows(left, (k, v)) != knows(right, (k, v))
}

/// `r` contrasts `left` with `right`: the dependencies both knowingly share, ordered by kind
/// and value; the kinds on which their known values differ, ordered by kind; and a note for
/// each path that does not name its model family.
pub open spec fn contrast_of(left: EvidencePath, right: EvidencePath, r: EvidenceContrast) -> bool {
    &&& r.left@ == left.id@
    &&& r.right@ == right.id@
    &&& forall|a: int, b: int| 0 <= a < b < r.shared@.len() ==> bytes_lt(
        pair_key(value_pair(#[trigger] r.shared@[a])),
        pair_key(value_pair(#[trigger] r.shared@[b])),
    )
    &&& forall|a: int| 0 <= a < r.shared@.len() ==> knows(left, value_pair(#[trigger] r.shared@[a]))
        && knows(right, value_pair(r.shared@[a]))
    &&& forall|d: DependencyPair| #[trigger] knows(left, d) && knows(right, d) ==> value_listed(r.shared@, d)
    &&& forall|a: int, b: int| 0 <= a < b < r.different@.len() ==> epistemic_dependency_kind_rank(
        #[trigger] r.different@[a],
    ) < epistemic_dependency_kind_rank(#[trigger] r.different@[b])
    &&& forall|k: EpistemicDependencyKind| #[trigger] r.different@.contains(k) <==> kind_differs(left, right, k)
    &&& views(r.missing@) == (if left.dependencies.model_family is None {
        seq![left.id@ + " model family"@]
    } else {
        Seq::empty()
    }) + (if right.dependencies.model_family is None {
        seq![right.id@ + " model family"@]
    } else {
        Seq::empty()
    })
}

pub open spec fn kind_of_rank(n: u8) -> EpistemicDependencyKind {
    if n == 0 {
        EpistemicDependencyKind::Model
    } else if n == 1 {
        EpistemicDependencyKind::AgentRuntime
    } else if n == 2 {
        EpistemicDependencyKind::Prompt
    } else if n == 3 {
        EpistemicDependencyKind::RetrievalSource
    } else if n == 4 {
        EpistemicDependencyKind::Experience
    } else if n == 5 {
        EpistemicDependencyKind::Tool
    } else if n == 6 {
        EpistemicDependencyKind::Evaluator
    } else if n == 7 {
        EpistemicDependencyKind::Environment
    } else {
        EpistemicDependencyKind::ExternalEvidence
    }
}

fn kind_of_rank_exec(n: u8) -> (k: EpistemicDependencyKind)
    requires
        n < 9,
    ensures
        k == kind_of_rank(n),
        epistemic_dependency_kind_rank(k) == n,
{
    if n == 0 {
        EpistemicDependencyKind::Model
    } else if n == 1 {
        EpistemicDependencyKind::AgentRuntime
    } else if n == 2 {
        EpistemicDependencyKind::Prompt
    } else if n == 3 {
        EpistemicDependencyKind::RetrievalSource
    } else if n == 4 {
        EpistemicDependencyKind::Experience
    } else if n == 5 {
        EpistemicDependencyKind::Tool
    } else if n == 6 {
        EpistemicDependencyKind::Evaluator
    } else if n == 7 {
        EpistemicDependencyKind::Environment
    } else {
        EpistemicDependencyKind::ExternalEvidence
    }
}

/// Some value of kind `k` in `a` is not in `b`.
fn kind_value_missing(a: &Vec<DependencyValue>, b: &Vec<DependencyValue>, k: EpistemicDependencyKind) -> (r: bool)
    ensures
        r <==> exists|i: int| 0 <= i < a@.len() && (#[trigger] a@[i]).kind == k && !value_listed(b@, value_pair(a@[i])),
{
    let mut i: usize = 0;
    while i < a.len()
        invariant
            i <= a@.len(),
            forall|q: int| 0 <= q < i ==> !((#[trigger] a@[q]).kind == k && !value_listed(b@, value_pair(a@[q]))),
        decreases a.len() - i,
    {
        if a[i].kind == k && !lists_value(b, a[i].kind, &a[i].value) {
            return true;
        }
        i = i + 1;
    }
    false
}

fn model_note(id: &String) -> (r: String)
    ensures
        r@ == id@ + " model family"@,
{
    let mut s = id.clone();
    s.append(" model family");
    s
}

/// Contrasts the known dependencies of two evidence paths.
pub fn contrast(left: &EvidencePath, right: &EvidencePath) -> (r: EvidenceContrast)
    ensures
        contrast_of(*left, *right, r),
{
    let lv = dependency_values(left);
    let rv = dependency_values(right);
    let ghost ln = named_dependencies(left.dependencies);
    let ghost rn = named_dependencies(right.dependencies);
    let mut shared: Vec<DependencyValue> = Vec::new();
    let mut i: usize = 0;
    while i < lv.len()
        invariant
            i <= lv@.len(),
            dependency_values_of(ln, lv@),
            dependency_values_of(rn, rv@),
            ln == named_dependencies(left.dependencies),
            rn == named_dependencies(right.dependencies),
            forall|a: int| 0 <= a < shared@.len() ==> knows(*left, value_pair(#[trigger] shared@[a]))
                && knows(*right, value_pair(shared@[a])),
            forall|a: int, b: int| 0 <= a < b < shared@.len() ==> bytes_lt(
                pair_key(value_pair(#[trigger] shared@[a])),
                pair_key(value_pair(#[trigger] shared@[b])),
            ),
            shared@.len() > 0 ==> exists|q: int| 0 <= q < i && value_pair(lv@[q]) == value_pair(shared@.last()),
            forall|q: int| 0 <= q < i && #[trigger] value_listed(rv@, value_pair(lv@[q])) ==> value_listed(shared@, value_pair(lv@[q])),
        decreases lv.len() - i,
    {
        let v = &lv[i];
        if lists_value(&rv, v.kind, &v.value) {
            let ghost before = shared@;
            shared.push(DependencyValue { kind: v.kind, value: v.value.clone() });
            proof {
                reveal(value_listed);
                lemma_known_iff_listed(ln, lv@, value_pair(lv@[i as int]));
                assert(value_listed(lv@, value_pair(lv@[i as int])));
                lemma_known_iff_listed(rn, rv@, value_pair(lv@[i as int]));
                if before.len() > 0 {
                    let q = choose|q: int| 0 <= q < i && value_pair(lv@[q]) == value_pair(before.last());
                    assert(bytes_lt(pair_key(value_pair(lv@[q])), pair_key(value_pair(lv@[i as int]))));
                    assert forall|a: int| 0 <= a < before.len() implies bytes_lt(
                        pair_key(value_pair(#[trigger] shared@[a])),
                        pair_key(value_pair(lv@[i as int])),
                    ) by {
                        if a < before.len() - 1 {
                            crate::text::lemma_bytes_lt_transitive(
                                pair_key(value_pair(shared@[a])),
                                pair_key(value_pair(before.last())),
                                pair_key(value_pair(lv@[i as int])),
                            );
                        }
                    }
                }
                assert forall|q: int| 0 <= q < i + 1 && #[trigger] value_listed(rv@, value_pair(lv@[q])) implies value_listed(
                    shared@,
                    value_pair(lv@[q]),
                ) by {
                    if q < i {
                        let a = choose|a: int| 0 <= a < before.len() && value_pair(before[a]) == value_pair(lv@[q]);
                        assert(shared@[a] == before[a]);
                    } else {
                        assert(value_pair(shared@[before.len() as int]) == value_pair(lv@[q]));
                    }
                }
                assert(value_pair(lv@[i as int]) == value_pair(shared@.last()));
            }
        }
        i = i + 1;
    }
    proof {
        assert forall|d: DependencyPair| #[trigger] knows(*left, d) && knows(*right, d) implies value_listed(shared@, d) by {
            lemma_known_iff_listed(ln, lv@, d);
            lemma_known_iff_listed(rn, rv@, d);
            reveal(value_listed);
            let q = choose|q: int| 0 <= q < lv@.len() && value_pair(lv@[q]) == d;
            assert(value_listed(rv@, value_pair(lv@[q])));
        }
    }
    let mut different: Vec<EpistemicDependencyKind> = Vec::new();
    let mut n: u8 = 0;
    while n < 9
        invariant
            n <= 9,
            dependency_values_of(ln, lv@),
            dependency_values_of(rn, rv@),
            ln == named_dependencies(left.dependencies),
            rn == named_dependencies(right.dependencies),
            forall|a: int| 0 <= a < different@.len() ==> epistemic_dependency_kind_rank(#[trigger] different@[a]) < n,
            forall|a: int, b: int| 0 <= a < b < different@.len() ==> epistemic_dependency_kind_rank(
                #[trigger] different@[a],
            ) < epistemic_dependency_kind_rank(#[trigger] different@[b]),
            forall|k: EpistemicDependencyKind| epistemic_dependency_kind_rank(k) < n ==> (#[trigger] different@.contains(k)
                <==> kind_differs(*left, *right, k)),
        decreases 9 - n,
    {
        let k = kind_of_rank_exec(n);
        let differs = kind_value_missing(&lv, &rv, k) || kind_value_missing(&rv, &lv, k);
        proof {
            if differs {
                if exists|i: int| 0 <= i < lv@.len() && (#[trigger] lv@[i]).kind == k && !value_listed(rv@, value_pair(lv@[i])) {
                    let i = choose|i: int| 0 <= i < lv@.len() && (#[trigger] lv@[i]).kind == k && !value_listed(rv@, value_pair(lv@[i]));
                    reveal(value_listed);
                    assert(value_listed(lv@, value_pair(lv@[i])));
                    lemma_known_iff_listed(ln, lv@, value_pair(lv@[i]));
                    lemma_known_iff_listed(rn, rv@, value_pair(lv@[i]));
                    assert(knows(*left, (k, lv@[i].value@)) != knows(*right, (k, lv@[i].value@)));
                } else {
                    let i = choose|i: int| 0 <= i < rv@.len() && (#[trigger] rv@[i]).kind == k && !value_listed(lv@, value_pair(rv@[i]));
                    reveal(value_listed);
                    assert(value_listed(rv@, value_pair(rv@[i])));
                    lemma_known_iff_listed(ln, lv@, value_pair(rv@[i]));
                    lemma_known_iff_listed(rn, rv@, value_pair(rv@[i]));
                    assert(knows(*left, (k, rv@[i].value@)) != knows(*right, (k, rv@[i].value@)));
                }
            } else {
                assert forall|v: Seq<char>| #[trigger] knows(*left, (k, v)) == knows(*right, (k, v)) by {
                    lemma_known_iff_listed(ln, lv@, (k, v));
                    lemma_known_iff_listed(rn, rv@, (k, v));
                    reveal(value_listed);
                    if value_listed(lv@, (k, v)) {
                        let i = choose|i: int| 0 <= i < lv@.len() && value_pair(lv@[i]) == (k, v);
                        assert(lv@[i].kind == k);
                    }
                    if value_listed(rv@, (k, v)) {
                        let i = choose|i: int| 0 <= i < rv@.len() && value_pair(rv@[i]) == (k, v);
                        assert(rv@[i].kind == k);
                    }
                }
            }
        }
        let ghost before = different@;
        if differs {
            different.push(k);
        }
        proof {
            assert forall|q: EpistemicDependencyKind| epistemic_dependency_kind_rank(q) < n + 1 implies (#[trigger] different@.contains(q)
                <==> kind_differs(*left, *right, q)) by {
                if epistemic_dependency_kind_rank(q) < n {
                    if different@.contains(q) && !before.contains(q) {
                        let a = choose|a: int| 0 <= a < different@.len() && different@[a] == q;
                        assert(a == before.len());
                    }
                    if before.contains(q) {
                        let a = choose|a: int| 0 <= a < before.len() && before[a] == q;
                        assert(different@[a] == q);
                    }
                } else {
                    assert(q == k);
                    if differs {
                        assert(different@[before.len() as int] == q);
                    } else {
                        if before.contains(q) {
                            let a = choose|a: int| 0 <= a < before.len() && before[a] == q;
                        }
                    }
                }
            }
        }
        n = n + 1;
    }
    proof {
        assert forall|k: EpistemicDependencyKind| #[trigger] different@.contains(k) <==> kind_differs(*left, *right, k) by {
            assert(epistemic_dependency_kind_rank(k) < 9);
        }
    }
    let mut missing: Vec<String> = Vec::new();
    if left.dependencies.model_family.is_none() {
        missing.push(model_note(&left.id));
    }
    let ghost first = views(missing@);
    if right.dependencies.model_family.is_none() {
        missing.push(model_note(&right.id));
    }
    assert(views(missing@) =~= (if left.dependencies.model_family is None {
        seq![left.id@ + " model family"@]
    } else {
        Seq::empty()
    }) + (if right.dependencies.model_family is None {
        seq![right.id@ + " model family"@]
    } else {
        Seq::empty()
    }));
    EvidenceContrast { left: left.id.clone(), right: right.id.clone(), shared, different, missing }
}

} // verus!
