//! Known dependencies of evidence paths, and how diverse a set of paths is.
use vstd::prelude::*;
use crate::epistemic::{
    source_kind, DependencyOverlap, DiversityClass, EvidenceDiversityAssessment, EvidenceSource,
    EvidenceSourceKind, dependency_key_spec, epistemic_dependency_kind_rank, DependencyValue, EpistemicDependencyKind,
    EpistemicDependencySet, EvaluatorIdentity, EvidencePath, ToolIdentity,
};
use crate::sorted::{has_key, insert_unique, keys_sorted};
use crate::text::{bytes_lt, is_blank, is_blank_spec};

verus! {

/// A dependency as a pair of kind and value.
pub type DependencyPair = (EpistemicDependencyKind, Seq<char>);

pub open spec fn optional_pair(kind: EpistemicDependencyKind, o: Option<String>) -> Seq<DependencyPair> {
    match o {
        Some(s) => seq![(kind, s@)],
        None => seq![],
    }
}

pub open spec fn listed_pairs(kind: EpistemicDependencyKind, v: Seq<String>) -> Seq<DependencyPair> {
    v.map_values(|s: String| (kind, s@))
}

/// `name@version`.
pub open spec fn tool_text(t: ToolIdentity) -> Seq<char> {
    t.name@ + "@"@ + t.version@
}

/// Every dependency a set names, in the order: model family, model version, runtime, prompt,
/// experience profile, retrieval sources, external documents, tools, evaluators, evaluator
/// identities, environment, originating lessons, originating federated nodes.
pub open spec fn named_dependencies(d: EpistemicDependencySet) -> Seq<DependencyPair> {
    optional_pair(EpistemicDependencyKind::Model, d.model_family)
        + optional_pair(EpistemicDependencyKind::Model, d.model_version)
        + optional_pair(EpistemicDependencyKind::AgentRuntime, d.agent_runtime)
        + optional_pair(EpistemicDependencyKind::Prompt, d.system_prompt_family)
        + optional_pair(EpistemicDependencyKind::Experience, d.experience_profile)
        + listed_pairs(EpistemicDependencyKind::RetrievalSource, d.retrieval_sources@)
        + listed_pairs(EpistemicDependencyKind::ExternalEvidence, d.external_documents@)
        + d.tools@.map_values(|t: ToolIdentity| (EpistemicDependencyKind::Tool, tool_text(t)))
        + listed_pairs(EpistemicDependencyKind::Evaluator, d.evaluators@)
        + d.evaluator_identities@.map_values(|e: EvaluatorIdentity| (EpistemicDependencyKind::Evaluator, dependency_key_spec(e)))
        + optional_pair(EpistemicDependencyKind::Environment, d.environment_family)
        + listed_pairs(EpistemicDependencyKind::Experience, d.originating_lessons@)
        + listed_pairs(EpistemicDependencyKind::ExternalEvidence, d.originating_federated_nodes@)
}

/// The order of dependency values: by kind, then by value.
pub open spec fn pair_key(p: DependencyPair) -> Seq<u8> {
    seq![epistemic_dependency_kind_rank(p.0)] + vstd::utf8::encode_utf8(p.1)
}

pub open spec fn value_pair(v: DependencyValue) -> DependencyPair {
    (v.kind, v.value@)
}

/// `r` holds the known (non-blank) dependencies of `named`, each once, ordered by kind and
/// value.
pub open spec fn dependency_values_of(named: Seq<DependencyPair>, r: Seq<DependencyValue>) -> bool {
    &&& forall|a: int, b: int| 0 <= a < b < r.len() ==> bytes_lt(pair_key(value_pair(#[trigger] r[a])), pair_key(value_pair(#[trigger] r[b])))
    &&& forall|a: int| 0 <= a < r.len() ==> named_known(named, value_pair(#[trigger] r[a]))
    &&& forall|j: int| 0 <= j < named.len() && !is_blank_spec((#[trigger] named[j]).1) ==> value_listed(r, named[j])
}

/// The pair is one of `named` and not blank.
#[verifier::opaque]
pub open spec fn named_known(named: Seq<DependencyPair>, p: DependencyPair) -> bool {
    exists|j: int| 0 <= j < named.len() && named[j] == p && !is_blank_spec(p.1)
}

/// Some value of `r` is the pair.
#[verifier::opaque]
pub open spec fn value_listed(r: Seq<DependencyValue>, p: DependencyPair) -> bool {
    exists|a: int| 0 <= a < r.len() && value_pair(r[a]) == p
}

fn push_optional(out: &mut Vec<(EpistemicDependencyKind, String)>, kind: EpistemicDependencyKind, o: &Option<String>)
    ensures
        pairs_view(final(out)@) == pairs_view(old(out)@) + optional_pair(kind, *o),
{
    let ghost before = pairs_view(out@);
    match o {
        Some(s) => {
            out.push((kind, s.clone()));
            proof {
                assert(pairs_view(out@) =~= before + optional_pair(kind, *o));
            }
        },
        None => {
            proof {
                assert(pairs_view(out@) =~= before + optional_pair(kind, *o));
            }
        },
    }
}

fn push_listed(out: &mut Vec<(EpistemicDependencyKind, String)>, kind: EpistemicDependencyKind, v: &Vec<String>)
    ensures
        pairs_view(final(out)@) == pairs_view(old(out)@) + listed_pairs(kind, v@),
{
    let ghost before = pairs_view(out@);
    let mut i: usize = 0;
    while i < v.len()
        invariant
            i <= v@.len(),
            pairs_view(out@) =~= before + listed_pairs(kind, v@.subrange(0, i as int)),
        decreases v.len() - i,
    {
        let ghost pv = pairs_view(out@);
        out.push((kind, v[i].clone()));
        proof {
            assert(pairs_view(out@) =~= pv.push((kind, v@[i as int]@)));
            assert(listed_pairs(kind, v@.subrange(0, i + 1)) =~= listed_pairs(kind, v@.subrange(0, i as int)).push(
                (kind, v@[i as int]@),
            ));
        }
        i = i + 1;
    }
    proof {
        assert(v@.subrange(0, v@.len() as int) =~= v@);
    }
}

pub open spec fn pairs_view(s: Seq<(EpistemicDependencyKind, String)>) -> Seq<DependencyPair> {
    s.map_values(|e: (EpistemicDependencyKind, String)| (e.0, e.1@))
}

/// Every dependency the set names, blank or not, in the order of `named_dependencies`.
fn named_pairs(d: &EpistemicDependencySet) -> (r: Vec<(EpistemicDependencyKind, String)>)
    ensures
        pairs_view(r@) == named_dependencies(*d),
{
    let mut out: Vec<(EpistemicDependencyKind, String)> = Vec::new();
    proof {
        assert(pairs_view(out@) =~= Seq::<DependencyPair>::empty());
    }
    push_optional(&mut out, EpistemicDependencyKind::Model, &d.model_family);
    push_optional(&mut out, EpistemicDependencyKind::Model, &d.model_version);
    push_optional(&mut out, EpistemicDependencyKind::AgentRuntime, &d.agent_runtime);
    push_optional(&mut out, EpistemicDependencyKind::Prompt, &d.system_prompt_family);
    push_optional(&mut out, EpistemicDependencyKind::Experience, &d.experience_profile);
    push_listed(&mut out, EpistemicDependencyKind::RetrievalSource, &d.retrieval_sources);
    push_listed(&mut out, EpistemicDependencyKind::ExternalEvidence, &d.external_documents);
    let ghost before_tools = pairs_view(out@);
    let mut i: usize = 0;
    while i < d.tools.len()
        invariant
            i <= d.tools@.len(),
            pairs_view(out@) =~= before_tools + d.tools@.subrange(0, i as int).map_values(
                |t: ToolIdentity| (EpistemicDependencyKind::Tool, tool_text(t)),
            ),
        decreases d.tools.len() - i,
    {
        let mut t = d.tools[i].name.clone();
        t.append("@");
        t.append(d.tools[i].version.as_str());
        let ghost pv = pairs_view(out@);
        out.push((EpistemicDependencyKind::Tool, t));
        proof {
            assert(pairs_view(out@) =~= pv.push((EpistemicDependencyKind::Tool, tool_text(d.tools@[i as int]))));
            assert(d.tools@.subrange(0, i + 1).map_values(|t: ToolIdentity| (EpistemicDependencyKind::Tool, tool_text(t)))
                =~= d.tools@.subrange(0, i as int).map_values(|t: ToolIdentity| (EpistemicDependencyKind::Tool, tool_text(t))).push(
                (EpistemicDependencyKind::Tool, tool_text(d.tools@[i as int])),
            ));
        }
        i = i + 1;
    }
    proof {
        assert(d.tools@.subrange(0, d.tools@.len() as int) =~= d.tools@);
    }
    push_listed(&mut out, EpistemicDependencyKind::Evaluator, &d.evaluators);
    let ghost before_ids = pairs_view(out@);
    let mut i: usize = 0;
    while i < d.evaluator_identities.len()
        invariant
            i <= d.evaluator_identities@.len(),
            pairs_view(out@) =~= before_ids + d.evaluator_identities@.subrange(0, i as int).map_values(
                |e: EvaluatorIdentity| (EpistemicDependencyKind::Evaluator, dependency_key_spec(e)),
            ),
        decreases d.evaluator_identities.len() - i,
    {
        let ghost pv = pairs_view(out@);
        out.push((EpistemicDependencyKind::Evaluator, d.evaluator_identities[i].dependency_key()));
        proof {
            assert(pairs_view(out@) =~= pv.push((EpistemicDependencyKind::Evaluator, dependency_key_spec(d.evaluator_identities@[i as int]))));
            assert(d.evaluator_identities@.subrange(0, i + 1).map_values(
                |e: EvaluatorIdentity| (EpistemicDependencyKind::Evaluator, dependency_key_spec(e)),
            ) =~= d.evaluator_identities@.subrange(0, i as int).map_values(
                |e: EvaluatorIdentity| (EpistemicDependencyKind::Evaluator, dependency_key_spec(e)),
            ).push((EpistemicDependencyKind::Evaluator, dependency_key_spec(d.evaluator_identities@[i as int]))));
        }
        i = i + 1;
    }
    proof {
        assert(d.evaluator_identities@.subrange(0, d.evaluator_identities@.len() as int) =~= d.evaluator_identities@);
    }
    push_optional(&mut out, EpistemicDependencyKind::Environment, &d.environment_family);
    push_listed(&mut out, EpistemicDependencyKind::Experience, &d.originating_lessons);
    push_listed(&mut out, EpistemicDependencyKind::ExternalEvidence, &d.originating_federated_nodes);
    proof {
        assert(pairs_view(out@) =~= named_dependencies(*d));
    }
    out
}

fn pair_key_exec(kind: EpistemicDependencyKind, value: &String) -> (r: Vec<u8>)
    ensures
        r@ == pair_key((kind, value@)),
{
    let mut r: Vec<u8> = Vec::new();
    r.push(kind.rank());
    let bytes = value.as_str().as_bytes();
    let mut i: usize = 0;
    while i < bytes.len()
        invariant
            i <= bytes@.len(),
            r@ =~= seq![epistemic_dependency_kind_rank(kind)] + bytes@.subrange(0, i as int),
        decreases bytes.len() - i,
    {
        r.push(bytes[i]);
        i = i + 1;
    }
    proof {
        assert(bytes@.subrange(0, bytes@.len() as int) =~= bytes@);
    }
    r
}

/// The known dependencies of a path: every non-blank value it names, once each, ordered by
/// kind and then by value.
pub fn dependency_values(path: &EvidencePath) -> (r: Vec<DependencyValue>)
    ensures
        dependency_values_of(named_dependencies(path.dependencies), r@),
{
    let named = named_pairs(&path.dependencies);
    let ghost nv = pairs_view(named@);
    let mut sorted: Vec<(Vec<u8>, DependencyValue)> = Vec::new();
    let mut i: usize = 0;
    while i < named.len()
        invariant
            i <= named@.len(),
            nv == pairs_view(named@),
            keys_sorted(sorted@),
            forall|k: int| 0 <= k < sorted@.len() ==> (#[trigger] sorted@[k]).0@ == pair_key(value_pair(sorted@[k].1)),
            forall|k: int| 0 <= k < sorted@.len() ==> named_known(nv, value_pair((#[trigger] sorted@[k]).1)),
            forall|j: int| 0 <= j < i && !is_blank_spec((#[trigger] nv[j]).1) ==> has_key(sorted@, pair_key(nv[j])),
        decreases named.len() - i,
    {
        let (kind, value) = (named[i].0, &named[i].1);
        proof {
            assert(nv[i as int] == (kind, value@));
        }
        if !is_blank(value.as_str()) {
            let key = pair_key_exec(kind, value);
            let entry = DependencyValue { kind, value: value.clone() };
            let ghost before = sorted@;
            let ghost e = (key, entry);
            proof {
                assert(named_known(nv, (kind, value@))) by {
                    reveal(named_known);
                    assert(nv[i as int] == (kind, value@));
                }
            }
            let inserted = insert_unique(&mut sorted, key, entry);
            proof {
                if inserted {
                    let q = choose|q: int| 0 <= q <= before.len() && sorted@ == before.insert(q, e);
                    assert forall|k: int| 0 <= k < sorted@.len() implies (#[trigger] sorted@[k]).0@ == pair_key(value_pair(sorted@[k].1))
                        && named_known(nv, value_pair(sorted@[k].1)) by {
                        if k < q {
                            assert(sorted@[k] == before[k]);
                        } else if k > q {
                            assert(sorted@[k] == before[k - 1]);
                        }
                    }
                    assert forall|j: int| 0 <= j < i + 1 && !is_blank_spec((#[trigger] nv[j]).1) implies has_key(sorted@, pair_key(nv[j])) by {
                        if j == i {
                            assert(sorted@[q].0@ == pair_key(nv[j]));
                        } else {
                            let k = choose|k: int| 0 <= k < before.len() && (#[trigger] before[k]).0@ == pair_key(nv[j]);
                            if k < q {
                                assert(sorted@[k] == before[k]);
                            } else {
                                assert(sorted@[k + 1] == before[k]);
                            }
                        }
                    }
                }
            }
        }
        i = i + 1;
    }
    let ghost pairs = sorted@;
    let mut r: Vec<DependencyValue> = Vec::new();
    let ghost mut done: int = 0;
    while sorted.len() > 0
        invariant
            0 <= done <= pairs.len(),
            sorted@ =~= pairs.subrange(done, pairs.len() as int),
            r@ =~= pairs.subrange(0, done).map_values(|e: (Vec<u8>, DependencyValue)| e.1),
        decreases sorted.len(),
    {
        let (_, v) = sorted.remove(0);
        proof {
            assert(v == pairs[done].1);
        }
        r.push(v);
        proof {
            assert(pairs.subrange(0, done + 1).map_values(|e: (Vec<u8>, DependencyValue)| e.1) =~= pairs.subrange(0, done).map_values(
                |e: (Vec<u8>, DependencyValue)| e.1,
            ).push(v));
            done = done + 1;
        }
    }
    proof {
        assert(pairs.subrange(0, pairs.len() as int) =~= pairs);
        assert forall|a: int, b: int| 0 <= a < b < r@.len() implies bytes_lt(
            pair_key(value_pair(#[trigger] r@[a])),
            pair_key(value_pair(#[trigger] r@[b])),
        ) by {
            assert(r@[a] == pairs[a].1 && r@[b] == pairs[b].1);
        }
        assert forall|a: int| 0 <= a < r@.len() implies named_known(nv, value_pair(#[trigger] r@[a])) by {
            assert(r@[a] == pairs[a].1);
        }
        assert forall|j: int| 0 <= j < nv.len() && !is_blank_spec((#[trigger] nv[j]).1) implies value_listed(r@, nv[j]) by {
            reveal(value_listed);
            let k = choose|k: int| 0 <= k < pairs.len() && (#[trigger] pairs[k]).0@ == pair_key(nv[j]);
            assert(r@[k] == pairs[k].1);
            lemma_pair_key_injective(value_pair(pairs[k].1), nv[j]);
        }
    }
    r
}

/// Distinct pairs have distinct keys.
proof fn lemma_pair_key_injective(a: DependencyPair, b: DependencyPair)
    requires
        pair_key(a) == pair_key(b),
    ensures
        a == b,
{
    assert(pair_key(a)[0] == epistemic_dependency_kind_rank(a.0));
    assert(pair_key(b)[0] == epistemic_dependency_kind_rank(b.0));
    assert(epistemic_dependency_kind_rank(a.0) == epistemic_dependency_kind_rank(b.0));
    assert(a.0 == b.0);
    assert(vstd::utf8::encode_utf8(a.1) =~= pair_key(a).subrange(1, pair_key(a).len() as int));
    assert(vstd::utf8::encode_utf8(b.1) =~= pair_key(b).subrange(1, pair_key(b).len() as int));
    vstd::utf8::encode_utf8_decode_utf8(a.1);
    vstd::utf8::encode_utf8_decode_utf8(b.1);
}

// ------------------------------------------------------------------------------------------
// Distinct non-blank values.
// ------------------------------------------------------------------------------------------

pub open spec fn string_views(s: Seq<String>) -> Seq<Seq<char>> {
    s.map_values(|x: String| x@)
}

/// The distinct non-blank values.
pub open spec fn nonblank_set(vals: Seq<Seq<char>>) -> Set<Seq<char>> {
    Set::new(|x: Seq<char>| vals.contains(x) && !is_blank_spec(x))
}

/// How many distinct non-blank values there are.
pub open spec fn distinct_count(vals: Seq<Seq<char>>) -> nat {
    nonblank_set(vals).len()
}

fn utf8_bytes(s: &str) -> (r: Vec<u8>)
    ensures
        r@ == vstd::utf8::encode_utf8(s@),
{
    let bytes = s.as_bytes();
    let mut r: Vec<u8> = Vec::new();
    let mut i: usize = 0;
    while i < bytes.len()
        invariant
            i <= bytes@.len(),
            r@ =~= bytes@.subrange(0, i as int),
        decreases bytes.len() - i,
    {
        r.push(bytes[i]);
        i = i + 1;
    }
    proof {
        assert(bytes@.subrange(0, bytes@.len() as int) =~= bytes@);
    }
    r
}

fn count_distinct(vals: &Vec<String>) -> (r: usize)
    ensures
        r == distinct_count(string_views(vals@)),
{
    let ghost vs = string_views(vals@);
    let mut set: Vec<(Vec<u8>, String)> = Vec::new();
    let mut i: usize = 0;
    while i < vals.len()
        invariant
            i <= vals@.len(),
            vs == string_views(vals@),
            keys_sorted(set@),
            forall|k: int| 0 <= k < set@.len() ==> (#[trigger] set@[k]).0@ == vstd::utf8::encode_utf8(set@[k].1@),
            forall|k: int| 0 <= k < set@.len() ==> nonblank_set(vs).contains((#[trigger] set@[k]).1@),
            forall|j: int| 0 <= j < i && !is_blank_spec(#[trigger] vs[j]) ==> has_key(set@, vstd::utf8::encode_utf8(vs[j])),
        decreases vals.len() - i,
    {
        proof {
            assert(vs[i as int] == vals@[i as int]@);
        }
        if !is_blank(vals[i].as_str()) {
            let key = utf8_bytes(vals[i].as_str());
            let ghost before = set@;
            let value = vals[i].clone();
            proof {
                assert(vs.contains(vs[i as int]));
            }
            let inserted = insert_unique(&mut set, key, value);
            proof {
                if inserted {
                    let q = choose|q: int| 0 <= q <= before.len() && set@ == before.insert(q, (key, value));
                    assert forall|k: int| 0 <= k < set@.len() implies (#[trigger] set@[k]).0@ == vstd::utf8::encode_utf8(set@[k].1@)
                        && nonblank_set(vs).contains(set@[k].1@) by {
                        if k < q {
                            assert(set@[k] == before[k]);
                        } else if k > q {
                            assert(set@[k] == before[k - 1]);
                        }
                    }
                    assert forall|j: int| 0 <= j < i + 1 && !is_blank_spec(#[trigger] vs[j]) implies has_key(set@, vstd::utf8::encode_utf8(vs[j])) by {
                        if j == i {
                            assert(set@[q].0@ == vstd::utf8::encode_utf8(vs[j]));
                        } else {
                            let k = choose|k: int| 0 <= k < before.len() && (#[trigger] before[k]).0@ == vstd::utf8::encode_utf8(vs[j]);
                            if k < q {
                                assert(set@[k] == before[k]);
                            } else {
                                assert(set@[k + 1] == before[k]);
                            }
                        }
                    }
                }
            }
        }
        i = i + 1;
    }
    proof {
        let members = set@.map_values(|e: (Vec<u8>, String)| e.1@);
        assert(members.no_duplicates()) by {
            assert forall|a: int, b: int| 0 <= a < members.len() && 0 <= b < members.len() && a != b implies members[a] != members[b] by {
                let (x, y) = if a < b { (a, b) } else { (b, a) };
                assert(bytes_lt(set@[x].0@, set@[y].0@));
                crate::text::lemma_bytes_lt_trichotomy(set@[x].0@, set@[y].0@);
            }
        }
        assert(members.to_set() =~= nonblank_set(vs)) by {
            assert forall|x: Seq<char>| nonblank_set(vs).contains(x) implies members.to_set().contains(x) by {
                let j = choose|j: int| 0 <= j < vs.len() && vs[j] == x;
                assert(!is_blank_spec(vs[j]));
                let k = choose|k: int| 0 <= k < set@.len() && (#[trigger] set@[k]).0@ == vstd::utf8::encode_utf8(vs[j]);
                vstd::utf8::encode_utf8_decode_utf8(set@[k].1@);
                vstd::utf8::encode_utf8_decode_utf8(x);
                assert(members[k] == x);
            }
            assert forall|x: Seq<char>| members.to_set().contains(x) implies nonblank_set(vs).contains(x) by {
                let k = choose|k: int| 0 <= k < members.len() && members[k] == x;
                assert(nonblank_set(vs).contains(set@[k].1@));
            }
        }
        members.unique_seq_to_set();
    }
    set.len()
}

// ------------------------------------------------------------------------------------------
// The values each dimension draws from a set of paths.
// ------------------------------------------------------------------------------------------

pub open spec fn optional_view(o: Option<String>) -> Seq<Seq<char>> {
    match o {
        Some(s) => seq![s@],
        None => seq![],
    }
}

pub open spec fn model_families(paths: Seq<EvidencePath>) -> Seq<Seq<char>>
    decreases paths.len(),
{
    if paths.len() == 0 { seq![] } else { model_families(paths.drop_last()) + optional_view(paths.last().dependencies.model_family) }
}

pub open spec fn agent_runtimes(paths: Seq<EvidencePath>) -> Seq<Seq<char>>
    decreases paths.len(),
{
    if paths.len() == 0 { seq![] } else { agent_runtimes(paths.drop_last()) + optional_view(paths.last().dependencies.agent_runtime) }
}

pub open spec fn environment_families(paths: Seq<EvidencePath>) -> Seq<Seq<char>>
    decreases paths.len(),
{
    if paths.len() == 0 {
        seq![]
    } else {
        environment_families(paths.drop_last()) + optional_view(paths.last().dependencies.environment_family)
    }
}

pub open spec fn retrieval_sources(paths: Seq<EvidencePath>) -> Seq<Seq<char>>
    decreases paths.len(),
{
    if paths.len() == 0 {
        seq![]
    } else {
        retrieval_sources(paths.drop_last()) + string_views(paths.last().dependencies.retrieval_sources@)
    }
}

pub open spec fn evaluator_names(paths: Seq<EvidencePath>) -> Seq<Seq<char>>
    decreases paths.len(),
{
    if paths.len() == 0 {
        seq![]
    } else {
        evaluator_names(paths.drop_last()) + string_views(paths.last().dependencies.evaluators@)
            + paths.last().dependencies.evaluator_identities@.map_values(|e: EvaluatorIdentity| dependency_key_spec(e))
    }
}

/// Which dimension of values to draw from the paths.
#[derive(Clone, Copy, Debug, PartialEq, Eq, Structural)]
enum Dimension {
    ModelFamily,
    AgentRuntime,
    Environment,
    RetrievalSource,
    Evaluator,
}

spec fn dimension_values(dim: Dimension, paths: Seq<EvidencePath>) -> Seq<Seq<char>> {
    match dim {
        Dimension::ModelFamily => model_families(paths),
        Dimension::AgentRuntime => agent_runtimes(paths),
        Dimension::Environment => environment_families(paths),
        Dimension::RetrievalSource => retrieval_sources(paths),
        Dimension::Evaluator => evaluator_names(paths),
    }
}

fn push_strings(out: &mut Vec<String>, v: &Vec<String>)
    ensures
        string_views(final(out)@) == string_views(old(out)@) + string_views(v@),
{
    let ghost before = string_views(out@);
    let mut i: usize = 0;
    while i < v.len()
        invariant
            i <= v@.len(),
            string_views(out@) =~= before + string_views(v@.subrange(0, i as int)),
        decreases v.len() - i,
    {
        let ghost pv = string_views(out@);
        out.push(v[i].clone());
        proof {
            assert(string_views(out@) =~= pv.push(v@[i as int]@));
            assert(string_views(v@.subrange(0, i + 1)) =~= string_views(v@.subrange(0, i as int)).push(v@[i as int]@));
        }
        i = i + 1;
    }
    proof {
        assert(v@.subrange(0, v@.len() as int) =~= v@);
    }
}

fn push_optional_string(out: &mut Vec<String>, o: &Option<String>)
    ensures
        string_views(final(out)@) == string_views(old(out)@) + optional_view(*o),
{
    let ghost before = string_views(out@);
    if let Some(s) = o {
        out.push(s.clone());
    }
    proof {
        assert(string_views(out@) =~= before + optional_view(*o));
    }
}

fn dimension_collect(dim: Dimension, paths: &Vec<EvidencePath>) -> (r: Vec<String>)
    ensures
        string_views(r@) == dimension_values(dim, paths@),
{
    let mut out: Vec<String> = Vec::new();
    let mut i: usize = 0;
    proof {
        assert(string_views(out@) =~= Seq::<Seq<char>>::empty());
        assert(paths@.subrange(0, 0) =~= Seq::<EvidencePath>::empty());
    }
    while i < paths.len()
        invariant
            i <= paths@.len(),
            string_views(out@) == dimension_values(dim, paths@.subrange(0, i as int)),
        decreases paths.len() - i,
    {
        let d = &paths[i].dependencies;
        let ghost t = paths@.subrange(0, i + 1);
        proof {
            assert(t.drop_last() =~= paths@.subrange(0, i as int));
            assert(t.last() == paths@[i as int]);
        }
        match dim {
            Dimension::ModelFamily => push_optional_string(&mut out, &d.model_family),
            Dimension::AgentRuntime => push_optional_string(&mut out, &d.agent_runtime),
            Dimension::Environment => push_optional_string(&mut out, &d.environment_family),
            Dimension::RetrievalSource => push_strings(&mut out, &d.retrieval_sources),
            Dimension::Evaluator => {
                push_strings(&mut out, &d.evaluators);
                let ghost mid = string_views(out@);
                let mut k: usize = 0;
                while k < d.evaluator_identities.len()
                    invariant
                        k <= d.evaluator_identities@.len(),
                        string_views(out@) =~= mid + d.evaluator_identities@.subrange(0, k as int).map_values(
                            |e: EvaluatorIdentity| dependency_key_spec(e),
                        ),
                    decreases d.evaluator_identities.len() - k,
                {
                    let ghost pv = string_views(out@);
                    out.push(d.evaluator_identities[k].dependency_key());
                    proof {
                        assert(string_views(out@) =~= pv.push(dependency_key_spec(d.evaluator_identities@[k as int])));
                        assert(d.evaluator_identities@.subrange(0, k + 1).map_values(|e: EvaluatorIdentity| dependency_key_spec(e))
                            =~= d.evaluator_identities@.subrange(0, k as int).map_values(|e: EvaluatorIdentity| dependency_key_spec(e)).push(
                            dependency_key_spec(d.evaluator_identities@[k as int]),
                        ));
                    }
                    k = k + 1;
                }
                proof {
                    assert(d.evaluator_identities@.subrange(0, d.evaluator_identities@.len() as int) =~= d.evaluator_identities@);
                }
            },
        }
        proof {
            assert(string_views(out@) =~= dimension_values(dim, t));
        }
        i = i + 1;
    }
    proof {
        assert(paths@.subrange(0, paths@.len() as int) =~= paths@);
    }
    out
}

// ------------------------------------------------------------------------------------------
// Source kinds, missing metadata and fingerprints.
// ------------------------------------------------------------------------------------------

pub open spec fn has_source_kind(paths: Seq<EvidencePath>, k: EvidenceSourceKind) -> bool {
    exists|i: int| 0 <= i < paths.len() && source_kind(#[trigger] paths[i].source) == k
}

pub open spec fn one_if(b: bool) -> nat {
    if b { 1 } else { 0 }
}

/// How many kinds of source the paths come from.
pub open spec fn source_kind_count(paths: Seq<EvidencePath>) -> nat {
    one_if(has_source_kind(paths, EvidenceSourceKind::Agent)) + one_if(has_source_kind(paths, EvidenceSourceKind::Experiment))
        + one_if(has_source_kind(paths, EvidenceSourceKind::Chaos)) + one_if(has_source_kind(paths, EvidenceSourceKind::RecoveryTrial))
        + one_if(has_source_kind(paths, EvidenceSourceKind::Federation)) + one_if(has_source_kind(paths, EvidenceSourceKind::StaticCheck))
        + one_if(has_source_kind(paths, EvidenceSourceKind::HumanObservation))
}

fn has_kind_exec(paths: &Vec<EvidencePath>, k: EvidenceSourceKind) -> (r: bool)
    ensures
        r == has_source_kind(paths@, k),
{
    let mut i: usize = 0;
    while i < paths.len()
        invariant
            i <= paths@.len(),
            forall|j: int| 0 <= j < i ==> source_kind(#[trigger] paths@[j].source) != k,
        decreases paths.len() - i,
    {
        if paths[i].source.kind() == k {
            return true;
        }
        i = i + 1;
    }
    false
}

fn count_if(b: bool) -> (r: usize)
    ensures
        r == one_if(b),
{
    if b { 1 } else { 0 }
}

fn source_kind_count_exec(paths: &Vec<EvidencePath>) -> (r: usize)
    ensures
        r == source_kind_count(paths@),
{
    count_if(has_kind_exec(paths, EvidenceSourceKind::Agent)) + count_if(has_kind_exec(paths, EvidenceSourceKind::Experiment))
        + count_if(has_kind_exec(paths, EvidenceSourceKind::Chaos)) + count_if(has_kind_exec(paths, EvidenceSourceKind::RecoveryTrial))
        + count_if(has_kind_exec(paths, EvidenceSourceKind::Federation)) + count_if(has_kind_exec(paths, EvidenceSourceKind::StaticCheck))
        + count_if(has_kind_exec(paths, EvidenceSourceKind::HumanObservation))
}

/// The metadata notes for one path: an agent path without model family or retrieval sources,
/// and any path without an evaluator.
pub open spec fn path_missing(p: EvidencePath) -> Seq<Seq<char>> {
    (if p.source is Agent && p.dependencies.model_family is None { seq![p.id@ + " model family"@] } else { seq![] })
        + (if p.source is Agent && p.dependencies.retrieval_sources@.len() == 0 {
        seq![p.id@ + " retrieval sources"@]
    } else {
        seq![]
    }) + (if p.dependencies.evaluators@.len() == 0 && p.dependencies.evaluator_identities@.len() == 0 {
        seq![p.id@ + " evaluator"@]
    } else {
        seq![]
    })
}

pub open spec fn missing_notes(paths: Seq<EvidencePath>) -> Seq<Seq<char>>
    decreases paths.len(),
{
    if paths.len() == 0 { seq![] } else { missing_notes(paths.drop_last()) + path_missing(paths.last()) }
}

fn note(id: &String, suffix: &str) -> (r: String)
    ensures
        r@ == id@ + suffix@,
{
    let mut r = id.clone();
    r.append(suffix);
    r
}

fn missing_exec(paths: &Vec<EvidencePath>) -> (r: Vec<String>)
    ensures
        string_views(r@) == missing_notes(paths@),
{
    let mut out: Vec<String> = Vec::new();
    let mut i: usize = 0;
    proof {
        assert(string_views(out@) =~= Seq::<Seq<char>>::empty());
        assert(paths@.subrange(0, 0) =~= Seq::<EvidencePath>::empty());
    }
    while i < paths.len()
        invariant
            i <= paths@.len(),
            string_views(out@) == missing_notes(paths@.subrange(0, i as int)),
        decreases paths.len() - i,
    {
        let p = &paths[i];
        let ghost before = string_views(out@);
        let agent = match &p.source {
            EvidenceSource::Agent { .. } => true,
            _ => false,
        };
        if agent && p.dependencies.model_family.is_none() {
            out.push(note(&p.id, " model family"));
        }
        let ghost mid1 = string_views(out@);
        if agent && p.dependencies.retrieval_sources.len() == 0 {
            out.push(note(&p.id, " retrieval sources"));
        }
        let ghost mid2 = string_views(out@);
        if p.dependencies.evaluators.len() == 0 && p.dependencies.evaluator_identities.len() == 0 {
            out.push(note(&p.id, " evaluator"));
        }
        proof {
            let t = paths@.subrange(0, i + 1);
            assert(t.drop_last() =~= paths@.subrange(0, i as int));
            assert(t.last() == *p);
            assert(string_views(out@) =~= before + path_missing(*p));
        }
        i = i + 1;
    }
    proof {
        assert(paths@.subrange(0, paths@.len() as int) =~= paths@);
    }
    out
}

/// The identities of the paths whose context fingerprint is `h`, in path order.
pub open spec fn paths_with_fingerprint(paths: Seq<EvidencePath>, h: Seq<char>) -> Seq<Seq<char>>
    decreases paths.len(),
{
    if paths.len() == 0 {
        seq![]
    } else if paths.last().context.fingerprint.hash@ == h {
        paths_with_fingerprint(paths.drop_last(), h).push(paths.last().id@)
    } else {
        paths_with_fingerprint(paths.drop_last(), h)
    }
}

/// `r` lists each non-empty fingerprint shared by several paths, once, in byte order, with the
/// paths that share it.
pub open spec fn fingerprint_groups(paths: Seq<EvidencePath>, r: Seq<(String, Vec<String>)>) -> bool {
    &&& forall|a: int, b: int| 0 <= a < b < r.len() ==> bytes_lt(
        vstd::utf8::encode_utf8((#[trigger] r[a]).0@),
        vstd::utf8::encode_utf8((#[trigger] r[b]).0@),
    )
    &&& forall|a: int| 0 <= a < r.len() ==> {
        let e = #[trigger] r[a];
        &&& e.0@.len() > 0
        &&& string_views(e.1@) == paths_with_fingerprint(paths, e.0@)
        &&& e.1@.len() > 1
    }
    &&& forall|j: int| 0 <= j < paths.len() && (#[trigger] paths[j]).context.fingerprint.hash@.len() > 0
        && paths_with_fingerprint(paths, paths[j].context.fingerprint.hash@).len() > 1 ==> exists|a: int|
        0 <= a < r.len() && (#[trigger] r[a]).0@ == paths[j].context.fingerprint.hash@
}

fn fingerprint_members(paths: &Vec<EvidencePath>, h: &str) -> (r: Vec<String>)
    ensures
        string_views(r@) == paths_with_fingerprint(paths@, h@),
{
    let mut out: Vec<String> = Vec::new();
    let mut i: usize = 0;
    proof {
        assert(string_views(out@) =~= Seq::<Seq<char>>::empty());
        assert(paths@.subrange(0, 0) =~= Seq::<EvidencePath>::empty());
    }
    while i < paths.len()
        invariant
            i <= paths@.len(),
            string_views(out@) == paths_with_fingerprint(paths@.subrange(0, i as int), h@),
        decreases paths.len() - i,
    {
        let ghost before = string_views(out@);
        if crate::text::str_eq(paths[i].context.fingerprint.hash.as_str(), h) {
            out.push(paths[i].id.clone());
        }
        proof {
            let t = paths@.subrange(0, i + 1);
            assert(t.drop_last() =~= paths@.subrange(0, i as int));
            assert(t.last() == paths@[i as int]);
            assert(string_views(out@) =~= paths_with_fingerprint(t, h@));
        }
        i = i + 1;
    }
    proof {
        assert(paths@.subrange(0, paths@.len() as int) =~= paths@);
    }
    out
}

fn fingerprints_exec(paths: &Vec<EvidencePath>) -> (r: Vec<(String, Vec<String>)>)
    ensures
        fingerprint_groups(paths@, r@),
{
    let mut sorted: Vec<(Vec<u8>, (String, Vec<String>))> = Vec::new();
    let mut i: usize = 0;
    while i < paths.len()
        invariant
            i <= paths@.len(),
            keys_sorted(sorted@),
            forall|k: int| 0 <= k < sorted@.len() ==> {
                let e = #[trigger] sorted@[k];
                &&& e.0@ == vstd::utf8::encode_utf8(e.1.0@)
                &&& e.1.0@.len() > 0
                &&& string_views(e.1.1@) == paths_with_fingerprint(paths@, e.1.0@)
                &&& e.1.1@.len() > 1
            },
            forall|j: int| 0 <= j < i && (#[trigger] paths@[j]).context.fingerprint.hash@.len() > 0
                && paths_with_fingerprint(paths@, paths@[j].context.fingerprint.hash@).len() > 1 ==> has_key(
                sorted@,
                vstd::utf8::encode_utf8(paths@[j].context.fingerprint.hash@),
            ),
        decreases paths.len() - i,
    {
        let h = &paths[i].context.fingerprint.hash;
        if h.as_str().unicode_len() > 0 {
            let members = fingerprint_members(paths, h.as_str());
            if members.len() > 1 {
                let key = utf8_bytes(h.as_str());
                let ghost before = sorted@;
                let entry = (h.clone(), members);
                let ghost e = (key, entry);
                let inserted = insert_unique(&mut sorted, key, entry);
                proof {
                    if inserted {
                        let q = choose|q: int| 0 <= q <= before.len() && sorted@ == before.insert(q, e);
                        assert forall|k: int| 0 <= k < sorted@.len() implies {
                            let x = #[trigger] sorted@[k];
                            &&& x.0@ == vstd::utf8::encode_utf8(x.1.0@)
                            &&& x.1.0@.len() > 0
                            &&& string_views(x.1.1@) == paths_with_fingerprint(paths@, x.1.0@)
                            &&& x.1.1@.len() > 1
                        } by {
                            if k < q {
                                assert(sorted@[k] == before[k]);
                            } else if k > q {
                                assert(sorted@[k] == before[k - 1]);
                            }
                        }
                        assert forall|j: int| 0 <= j < i + 1 && (#[trigger] paths@[j]).context.fingerprint.hash@.len() > 0
                            && paths_with_fingerprint(paths@, paths@[j].context.fingerprint.hash@).len() > 1 implies has_key(
                            sorted@,
                            vstd::utf8::encode_utf8(paths@[j].context.fingerprint.hash@),
                        ) by {
                            if j == i {
                                assert(sorted@[q].0@ == vstd::utf8::encode_utf8(paths@[j].context.fingerprint.hash@));
                            } else {
                                let k = choose|k: int| 0 <= k < before.len() && (#[trigger] before[k]).0@
                                    == vstd::utf8::encode_utf8(paths@[j].context.fingerprint.hash@);
                                if k < q {
                                    assert(sorted@[k] == before[k]);
                                } else {
                                    assert(sorted@[k + 1] == before[k]);
                                }
                            }
                        }
                    } else {
                        assert(has_key(sorted@, vstd::utf8::encode_utf8(paths@[i as int].context.fingerprint.hash@)));
                    }
                }
            }
        }
        i = i + 1;
    }
    let ghost pairs = sorted@;
    let mut r: Vec<(String, Vec<String>)> = Vec::new();
    let ghost mut done: int = 0;
    while sorted.len() > 0
        invariant
            0 <= done <= pairs.len(),
            sorted@ =~= pairs.subrange(done, pairs.len() as int),
            r@ =~= pairs.subrange(0, done).map_values(|e: (Vec<u8>, (String, Vec<String>))| e.1),
        decreases sorted.len(),
    {
        let (_, v) = sorted.remove(0);
        proof {
            assert(v == pairs[done].1);
        }
        r.push(v);
        proof {
            assert(pairs.subrange(0, done + 1).map_values(|e: (Vec<u8>, (String, Vec<String>))| e.1) =~= pairs.subrange(
                0,
                done,
            ).map_values(|e: (Vec<u8>, (String, Vec<String>))| e.1).push(v));
            done = done + 1;
        }
    }
    proof {
        assert(pairs.subrange(0, pairs.len() as int) =~= pairs);
        assert forall|a: int, b: int| 0 <= a < b < r@.len() implies bytes_lt(
            vstd::utf8::encode_utf8((#[trigger] r@[a]).0@),
            vstd::utf8::encode_utf8((#[trigger] r@[b]).0@),
        ) by {
            assert(r@[a] == pairs[a].1 && r@[b] == pairs[b].1);
        }
        assert forall|a: int| 0 <= a < r@.len() implies {
            let e = #[trigger] r@[a];
            &&& e.0@.len() > 0
            &&& string_views(e.1@) == paths_with_fingerprint(paths@, e.0@)
            &&& e.1@.len() > 1
        } by {
            assert(r@[a] == pairs[a].1);
        }
        assert forall|j: int| 0 <= j < paths@.len() && (#[trigger] paths@[j]).context.fingerprint.hash@.len() > 0
            && paths_with_fingerprint(paths@, paths@[j].context.fingerprint.hash@).len() > 1 implies exists|a: int|
            0 <= a < r@.len() && (#[trigger] r@[a]).0@ == paths@[j].context.fingerprint.hash@ by {
            let k = choose|k: int| 0 <= k < pairs.len() && (#[trigger] pairs[k]).0@
                == vstd::utf8::encode_utf8(paths@[j].context.fingerprint.hash@);
            assert(r@[k] == pairs[k].1);
            vstd::utf8::encode_utf8_decode_utf8(r@[k].0@);
            vstd::utf8::encode_utf8_decode_utf8(paths@[j].context.fingerprint.hash@);
        }
    }
    r
}

// ------------------------------------------------------------------------------------------
// Dependency overlaps.
// ------------------------------------------------------------------------------------------

/// Path `i` knowingly depends on the pair.
pub open spec fn holds(paths: Seq<EvidencePath>, i: int, p: DependencyPair) -> bool {
    named_known(named_dependencies(paths[i].dependencies), p)
}

/// Some path with identity `m` depends on the pair.
#[verifier::opaque]
pub open spec fn member_holds(paths: Seq<EvidencePath>, m: Seq<char>, p: DependencyPair) -> bool {
    exists|i: int| 0 <= i < paths.len() && paths[i].id@ == m && holds(paths, i, p)
}

/// Some overlap is about the pair.
#[verifier::opaque]
pub open spec fn overlap_listed(r: Seq<DependencyOverlap>, p: DependencyPair) -> bool {
    exists|a: int| 0 <= a < r.len() && (r[a].kind, r[a].shared_value@) == p
}

pub open spec fn overlap_pair(o: DependencyOverlap) -> DependencyPair {
    (o.kind, o.shared_value@)
}

/// `o` names two or more distinct paths, in byte order, each depending on its pair.
pub open spec fn overlap_sound(paths: Seq<EvidencePath>, o: DependencyOverlap) -> bool {
    &&& o.paths@.len() > 1
    &&& forall|a: int, b: int| 0 <= a < b < o.paths@.len() ==> bytes_lt(
        vstd::utf8::encode_utf8((#[trigger] o.paths@[a])@),
        vstd::utf8::encode_utf8((#[trigger] o.paths@[b])@),
    )
    &&& forall|a: int| 0 <= a < o.paths@.len() ==> member_holds(paths, (#[trigger] o.paths@[a])@, overlap_pair(o))
}

/// `r` lists, for every dependency that two paths with distinct identities share, the
/// paths that share it; most shared first, then by kind and value.
pub open spec fn overlaps_of(paths: Seq<EvidencePath>, r: Seq<DependencyOverlap>) -> bool {
    &&& forall|a: int| 0 <= a < r.len() ==> overlap_sound(paths, #[trigger] r[a])
    &&& forall|a: int, b: int| 0 <= a < b < r.len() ==> (#[trigger] r[a]).paths@.len() > (#[trigger] r[b]).paths@.len() || (
    r[a].paths@.len() == r[b].paths@.len() && bytes_lt(pair_key(overlap_pair(r[a])), pair_key(overlap_pair(r[b]))))
    &&& forall|i: int, j: int, p: DependencyPair|
        0 <= i < paths.len() && 0 <= j < paths.len() && paths[i].id@ != paths[j].id@ && #[trigger] holds(paths, i, p)
            && #[trigger] holds(paths, j, p) ==> overlap_listed(r, p)
}

fn same_value_exec(v: &DependencyValue, kind: EpistemicDependencyKind, value: &String) -> (r: bool)
    ensures
        r == (value_pair(*v) == (kind, value@)),
{
    v.kind == kind && crate::text::str_eq(v.value.as_str(), value.as_str())
}

pub(crate) fn lists_value(list: &Vec<DependencyValue>, kind: EpistemicDependencyKind, value: &String) -> (r: bool)
    ensures
        r == value_listed(list@, (kind, value@)),
{
    let mut i: usize = 0;
    while i < list.len()
        invariant
            i <= list@.len(),
            forall|k: int| 0 <= k < i ==> value_pair(#[trigger] list@[k]) != (kind, value@),
        decreases list.len() - i,
    {
        if same_value_exec(&list[i], kind, value) {
            proof {
                reveal(value_listed);
            }
            return true;
        }
        i = i + 1;
    }
    proof {
        reveal(value_listed);
    }
    false
}

/// Per path, its dependency values.
pub(crate) fn all_dependency_values(paths: &Vec<EvidencePath>) -> (r: Vec<Vec<DependencyValue>>)
    ensures
        r@.len() == paths@.len(),
        forall|i: int| 0 <= i < paths@.len() ==> dependency_values_of(named_dependencies(paths@[i].dependencies), (#[trigger] r@[i])@),
{
    let mut r: Vec<Vec<DependencyValue>> = Vec::new();
    let mut i: usize = 0;
    while i < paths.len()
        invariant
            i <= paths@.len(),
            r@.len() == i,
            forall|k: int| 0 <= k < i ==> dependency_values_of(named_dependencies(paths@[k].dependencies), (#[trigger] r@[k])@),
        decreases paths.len() - i,
    {
        r.push(dependency_values(&paths[i]));
        i = i + 1;
    }
    r
}

pub(crate) proof fn lemma_listed_iff_holds(named: Seq<DependencyPair>, list: Seq<DependencyValue>, p: DependencyPair)
    requires
        dependency_values_of(named, list),
    ensures
        value_listed(list, p) == named_known(named, p),
{
    if value_listed(list, p) {
        reveal(value_listed);
        let a = choose|a: int| 0 <= a < list.len() && value_pair(list[a]) == p;
        assert(named_known(named, value_pair(list[a])));
    }
    if named_known(named, p) {
        reveal(named_known);
        let j = choose|j: int| 0 <= j < named.len() && named[j] == p && !is_blank_spec(p.1);
        assert(!is_blank_spec(named[j].1));
        assert(value_listed(list, named[j]));
    }
}

/// The identities of the paths that depend on the pair, once each, in byte order.
pub(crate) fn holders(
    paths: &Vec<EvidencePath>,
    deps: &Vec<Vec<DependencyValue>>,
    kind: EpistemicDependencyKind,
    value: &String,
) -> (r: Vec<String>)
    requires
        deps@.len() == paths@.len(),
        forall|i: int| 0 <= i < paths@.len() ==> dependency_values_of(named_dependencies(paths@[i].dependencies), (#[trigger] deps@[i])@),
    ensures
        forall|a: int, b: int| 0 <= a < b < r@.len() ==> bytes_lt(
            vstd::utf8::encode_utf8((#[trigger] r@[a])@),
            vstd::utf8::encode_utf8((#[trigger] r@[b])@),
        ),
        forall|a: int| 0 <= a < r@.len() ==> member_holds(paths@, (#[trigger] r@[a])@, (kind, value@)),
        forall|i: int| 0 <= i < paths@.len() && holds(paths@, i, (kind, value@)) ==> string_views(r@).contains(
            #[trigger] paths@[i].id@,
        ),
{
    let mut set: Vec<(Vec<u8>, String)> = Vec::new();
    let mut i: usize = 0;
    while i < paths.len()
        invariant
            i <= paths@.len(),
            deps@.len() == paths@.len(),
            forall|k: int| 0 <= k < paths@.len() ==> dependency_values_of(named_dependencies(paths@[k].dependencies), (#[trigger] deps@[k])@),
            keys_sorted(set@),
            forall|k: int| 0 <= k < set@.len() ==> (#[trigger] set@[k]).0@ == vstd::utf8::encode_utf8(set@[k].1@),
            forall|k: int| 0 <= k < set@.len() ==> member_holds(paths@, (#[trigger] set@[k]).1@, (kind, value@)),
            forall|j: int| 0 <= j < i && holds(paths@, j, (kind, value@)) ==> has_key(
                set@,
                vstd::utf8::encode_utf8((#[trigger] paths@[j]).id@),
            ),
        decreases paths.len() - i,
    {
        let listed = lists_value(&deps[i], kind, value);
        proof {
            lemma_listed_iff_holds(named_dependencies(paths@[i as int].dependencies), deps@[i as int]@, (kind, value@));
        }
        if listed {
            let key = utf8_bytes(paths[i].id.as_str());
            let id = paths[i].id.clone();
            let ghost before = set@;
            proof {
                assert(holds(paths@, i as int, (kind, value@)));
                assert(paths@[i as int].id@ == id@);
                reveal(member_holds);
                assert(member_holds(paths@, id@, (kind, value@)));
            }
            let inserted = insert_unique(&mut set, key, id);
            proof {
                if inserted {
                    let q = choose|q: int| 0 <= q <= before.len() && set@ == before.insert(q, (key, id));
                    assert forall|k: int| 0 <= k < set@.len() implies (#[trigger] set@[k]).0@ == vstd::utf8::encode_utf8(set@[k].1@)
                        && member_holds(paths@, set@[k].1@, (kind, value@)) by {
                        if k < q {
                            assert(set@[k] == before[k]);
                        } else if k > q {
                            assert(set@[k] == before[k - 1]);
                        }
                    }
                    assert forall|j: int| 0 <= j < i + 1 && holds(paths@, j, (kind, value@)) implies has_key(
                        set@,
                        vstd::utf8::encode_utf8((#[trigger] paths@[j]).id@),
                    ) by {
                        if j == i {
                            assert(set@[q].0@ == vstd::utf8::encode_utf8(paths@[j].id@));
                        } else {
                            let k = choose|k: int| 0 <= k < before.len() && (#[trigger] before[k]).0@ == vstd::utf8::encode_utf8(paths@[j].id@);
                            if k < q {
                                assert(set@[k] == before[k]);
                            } else {
                                assert(set@[k + 1] == before[k]);
                            }
                        }
                    }
                }
            }
        }
        i = i + 1;
    }
    let ghost pairs = set@;
    let mut r: Vec<String> = Vec::new();
    let ghost mut done: int = 0;
    while set.len() > 0
        invariant
            0 <= done <= pairs.len(),
            set@ =~= pairs.subrange(done, pairs.len() as int),
            r@ =~= pairs.subrange(0, done).map_values(|e: (Vec<u8>, String)| e.1),
        decreases set.len(),
    {
        let (_, v) = set.remove(0);
        proof {
            assert(v == pairs[done].1);
        }
        r.push(v);
        proof {
            assert(pairs.subrange(0, done + 1).map_values(|e: (Vec<u8>, String)| e.1) =~= pairs.subrange(0, done).map_values(
                |e: (Vec<u8>, String)| e.1,
            ).push(v));
            done = done + 1;
        }
    }
    proof {
        assert(pairs.subrange(0, pairs.len() as int) =~= pairs);
        assert forall|a: int, b: int| 0 <= a < b < r@.len() implies bytes_lt(
            vstd::utf8::encode_utf8((#[trigger] r@[a])@),
            vstd::utf8::encode_utf8((#[trigger] r@[b])@),
        ) by {
            assert(r@[a] == pairs[a].1 && r@[b] == pairs[b].1);
        }
        assert forall|a: int| 0 <= a < r@.len() implies member_holds(paths@, (#[trigger] r@[a])@, (kind, value@)) by {
            assert(r@[a] == pairs[a].1);
        }
        assert forall|i: int| 0 <= i < paths@.len() && holds(paths@, i, (kind, value@)) implies string_views(r@).contains(
            #[trigger] paths@[i].id@,
        ) by {
            let k = choose|k: int| 0 <= k < pairs.len() && (#[trigger] pairs[k]).0@ == vstd::utf8::encode_utf8(paths@[i].id@);
            assert(r@[k] == pairs[k].1);
            vstd::utf8::encode_utf8_decode_utf8(r@[k]@);
            vstd::utf8::encode_utf8_decode_utf8(paths@[i].id@);
            assert(string_views(r@)[k] == paths@[i].id@);
        }
    }
    r
}

/// Some path other than one with identity `id` depends on the pair.
pub open spec fn held_elsewhere(paths: Seq<EvidencePath>, id: Seq<char>, p: DependencyPair) -> bool {
    exists|j: int| 0 <= j < paths.len() && paths[j].id@ != id && holds(paths, j, p)
}

proof fn lemma_two_members(s: Seq<Seq<char>>, x: Seq<char>, y: Seq<char>)
    requires
        s.contains(x),
        s.contains(y),
        x != y,
    ensures
        s.len() > 1,
{
    let a = choose|a: int| 0 <= a < s.len() && s[a] == x;
    let b = choose|b: int| 0 <= b < s.len() && s[b] == y;
    assert(a != b);
}

/// Orders overlaps: more paths first, then by kind and value.
pub open spec fn overlap_before(x: DependencyOverlap, y: DependencyOverlap) -> bool {
    x.paths@.len() > y.paths@.len() || (x.paths@.len() == y.paths@.len() && bytes_lt(
        pair_key(overlap_pair(x)),
        pair_key(overlap_pair(y)),
    ))
}

fn overlaps_exec(paths: &Vec<EvidencePath>) -> (r: Vec<DependencyOverlap>)
    ensures
        overlaps_of(paths@, r@),
{
    let deps = all_dependency_values(paths);
    let mut map: Vec<(Vec<u8>, DependencyOverlap)> = Vec::new();
    let mut i: usize = 0;
    while i < paths.len()
        invariant
            i <= paths@.len(),
            deps@.len() == paths@.len(),
            forall|k: int| 0 <= k < paths@.len() ==> dependency_values_of(named_dependencies(paths@[k].dependencies), (#[trigger] deps@[k])@),
            keys_sorted(map@),
            forall|k: int| 0 <= k < map@.len() ==> (#[trigger] map@[k]).0@ == pair_key(overlap_pair(map@[k].1)),
            forall|k: int| 0 <= k < map@.len() ==> overlap_sound(paths@, (#[trigger] map@[k]).1),
            forall|x: int, t: int|
                0 <= x < i && 0 <= t < deps@[x]@.len() && held_elsewhere(paths@, paths@[x].id@, value_pair(#[trigger] deps@[x]@[t]))
                    ==> has_key(map@, pair_key(value_pair(deps@[x]@[t]))),
        decreases paths.len() - i,
    {
        let list = &deps[i];
        let mut t: usize = 0;
        while t < list.len()
            invariant
                i < paths@.len(),
                t <= list@.len(),
                *list == deps@[i as int],
                deps@.len() == paths@.len(),
                forall|k: int| 0 <= k < paths@.len() ==> dependency_values_of(named_dependencies(paths@[k].dependencies), (#[trigger] deps@[k])@),
                keys_sorted(map@),
                forall|k: int| 0 <= k < map@.len() ==> (#[trigger] map@[k]).0@ == pair_key(overlap_pair(map@[k].1)),
                forall|k: int| 0 <= k < map@.len() ==> overlap_sound(paths@, (#[trigger] map@[k]).1),
                forall|x: int, u: int|
                    0 <= x < i && 0 <= u < deps@[x]@.len() && held_elsewhere(paths@, paths@[x].id@, value_pair(#[trigger] deps@[x]@[u]))
                        ==> has_key(map@, pair_key(value_pair(deps@[x]@[u]))),
                forall|u: int|
                    0 <= u < t && held_elsewhere(paths@, paths@[i as int].id@, value_pair(#[trigger] list@[u]))
                        ==> has_key(map@, pair_key(value_pair(list@[u]))),
            decreases list.len() - t,
        {
            let v = &list[t];
            let key = pair_key_exec(v.kind, &v.value);
            let ghost vp = value_pair(*v);
            if crate::sorted::find_key(&map, key.as_slice()).is_none() {
                let members = holders(paths, &deps, v.kind, &v.value);
                proof {
                    if held_elsewhere(paths@, paths@[i as int].id@, vp) {
                        let j = choose|j: int| 0 <= j < paths@.len() && paths@[j].id@ != paths@[i as int].id@ && holds(paths@, j, vp);
                        reveal(value_listed);
                        assert(value_listed(deps@[i as int]@, vp));
                        lemma_listed_iff_holds(named_dependencies(paths@[i as int].dependencies), deps@[i as int]@, vp);
                        assert(holds(paths@, i as int, vp));
                        assert(string_views(members@).contains(paths@[i as int].id@));
                        assert(string_views(members@).contains(paths@[j].id@));
                        lemma_two_members(string_views(members@), paths@[i as int].id@, paths@[j].id@);
                    }
                }
                if members.len() > 1 {
                    let o = DependencyOverlap { kind: v.kind, shared_value: v.value.clone(), paths: members };
                    let ghost before = map@;
                    let ghost ok = key;
                    proof {
                        assert(overlap_pair(o) == vp);
                        assert(overlap_sound(paths@, o));
                    }
                    let inserted = insert_unique(&mut map, key, o);
                    proof {
                        assert(inserted);
                        let q = choose|q: int| 0 <= q <= before.len() && map@ == before.insert(q, (ok, o));
                        assert forall|k: int| 0 <= k < map@.len() implies (#[trigger] map@[k]).0@ == pair_key(overlap_pair(map@[k].1))
                            && overlap_sound(paths@, map@[k].1) by {
                            if k < q {
                                assert(map@[k] == before[k]);
                            } else if k > q {
                                assert(map@[k] == before[k - 1]);
                            }
                        }
                        assert forall|x: int, u: int|
                            0 <= x < i && 0 <= u < deps@[x]@.len() && held_elsewhere(paths@, paths@[x].id@, value_pair(#[trigger] deps@[x]@[u]))
                                implies has_key(map@, pair_key(value_pair(deps@[x]@[u]))) by {
                            let k = choose|k: int| 0 <= k < before.len() && (#[trigger] before[k]).0@ == pair_key(value_pair(deps@[x]@[u]));
                            if k < q {
                                assert(map@[k] == before[k]);
                            } else {
                                assert(map@[k + 1] == before[k]);
                            }
                        }
                        assert forall|w: int|
                            0 <= w < t + 1 && held_elsewhere(paths@, paths@[i as int].id@, value_pair(#[trigger] list@[w]))
                                implies has_key(map@, pair_key(value_pair(list@[w]))) by {
                            if w == t {
                                assert(map@[q].0@ == pair_key(vp));
                            } else {
                                let k = choose|k: int| 0 <= k < before.len() && (#[trigger] before[k]).0@ == pair_key(value_pair(list@[w]));
                                if k < q {
                                    assert(map@[k] == before[k]);
                                } else {
                                    assert(map@[k + 1] == before[k]);
                                }
                            }
                        }
                    }
                }
            }
            t = t + 1;
        }
        proof {
            assert forall|x: int, u: int|
                0 <= x < i + 1 && 0 <= u < deps@[x]@.len() && held_elsewhere(paths@, paths@[x].id@, value_pair(#[trigger] deps@[x]@[u]))
                    implies has_key(map@, pair_key(value_pair(deps@[x]@[u]))) by {
                if x == i {
                    assert(deps@[x]@[u] == list@[u]);
                }
            }
        }
        i = i + 1;
    }
    // Most shared first; kind and value order among equals.
    let ghost pairs = map@;
    let mut r: Vec<DependencyOverlap> = Vec::new();
    let ghost mut done: int = 0;
    while map.len() > 0
        invariant
            0 <= done <= pairs.len(),
            keys_sorted(pairs),
            forall|k: int| 0 <= k < pairs.len() ==> (#[trigger] pairs[k]).0@ == pair_key(overlap_pair(pairs[k].1)),
            map@ =~= pairs.subrange(done, pairs.len() as int),
            r@.len() == done,
            forall|a: int| 0 <= a < r@.len() ==> drawn_entry(pairs, done, #[trigger] r@[a]),
            forall|k: int| 0 <= k < done ==> in_result(r@, (#[trigger] pairs[k]).1),
            forall|a: int, b: int| 0 <= a < b < r@.len() ==> overlap_before(#[trigger] r@[a], #[trigger] r@[b]),
        decreases map.len(),
    {
        let (_, o) = map.remove(0);
        proof {
            assert(o == pairs[done].1);
        }
        let len = o.paths.len();
        let mut p: usize = 0;
        while p < r.len() && r[p].paths.len() >= len
            invariant
                p <= r@.len(),
                forall|a: int| 0 <= a < p ==> (#[trigger] r@[a]).paths@.len() >= len,
            decreases r.len() - p,
        {
            p = p + 1;
        }
        let ghost before = r@;
        r.insert(p, o);
        proof {
            assert(r@ == before.insert(p as int, o));
            // Everything already placed sorts before `o` by key.
            assert forall|a: int| 0 <= a < before.len() implies bytes_lt(
                pair_key(overlap_pair(#[trigger] before[a])),
                pair_key(overlap_pair(o)),
            ) by {
                assert(drawn_entry(pairs, done, before[a]));
                reveal(drawn_entry);
                let k = choose|k: int| 0 <= k < done && pairs[k].1 == before[a];
                assert(bytes_lt(pairs[k].0@, pairs[done].0@));
            }
            assert forall|b: int| p <= b < before.len() implies (#[trigger] before[b]).paths@.len() < len by {
                if p < before.len() {
                    assert(before[p as int].paths@.len() < len);
                    if b > p {
                        assert(overlap_before(before[p as int], before[b]));
                    }
                }
            }
            assert forall|a: int, b: int| 0 <= a < b < r@.len() implies overlap_before(#[trigger] r@[a], #[trigger] r@[b]) by {
                if b < p {
                    assert(r@[a] == before[a] && r@[b] == before[b]);
                } else if b == p {
                    assert(r@[a] == before[a]);
                } else if a < p {
                    assert(r@[a] == before[a] && r@[b] == before[b - 1]);
                    assert(overlap_before(before[a], before[b - 1]));
                } else if a == p {
                    assert(r@[b] == before[b - 1]);
                } else {
                    assert(r@[a] == before[a - 1] && r@[b] == before[b - 1]);
                }
            }
            assert forall|a: int| 0 <= a < r@.len() implies drawn_entry(pairs, done + 1, #[trigger] r@[a]) by {
                reveal(drawn_entry);
                if a == p {
                    assert(pairs[done].1 == r@[a]);
                } else {
                    let a0 = if a < p { a } else { a - 1 };
                    assert(r@[a] == before[a0]);
                    assert(drawn_entry(pairs, done, before[a0]));
                    let k = choose|k: int| 0 <= k < done && pairs[k].1 == before[a0];
                    assert(0 <= k < done + 1 && pairs[k].1 == r@[a]);
                }
            }
            assert forall|k: int| 0 <= k < done + 1 implies in_result(r@, (#[trigger] pairs[k]).1) by {
                reveal(in_result);
                if k == done {
                    assert(r@[p as int] == pairs[k].1);
                } else {
                    assert(in_result(before, pairs[k].1));
                    let a = choose|a: int| 0 <= a < before.len() && before[a] == pairs[k].1;
                    if a < p {
                        assert(r@[a] == before[a]);
                    } else {
                        assert(r@[a + 1] == before[a]);
                    }
                }
            }
            done = done + 1;
        }
    }
    proof {
        assert forall|a: int| 0 <= a < r@.len() implies overlap_sound(paths@, #[trigger] r@[a]) by {
            assert(drawn_entry(pairs, done, r@[a]));
            reveal(drawn_entry);
            let k = choose|k: int| 0 <= k < done && pairs[k].1 == r@[a];
            assert(overlap_sound(paths@, pairs[k].1));
        }
        assert forall|x: int, y: int, q: DependencyPair|
            0 <= x < paths@.len() && 0 <= y < paths@.len() && paths@[x].id@ != paths@[y].id@ && #[trigger] holds(paths@, x, q)
                && #[trigger] holds(paths@, y, q) implies overlap_listed(r@, q) by {
            lemma_listed_iff_holds(named_dependencies(paths@[x].dependencies), deps@[x]@, q);
            reveal(value_listed);
            let u = choose|u: int| 0 <= u < deps@[x]@.len() && value_pair(deps@[x]@[u]) == q;
            assert(held_elsewhere(paths@, paths@[x].id@, value_pair(deps@[x]@[u])));
            let k = choose|k: int| 0 <= k < pairs.len() && (#[trigger] pairs[k]).0@ == pair_key(q);
            assert(in_result(r@, pairs[k].1));
            reveal(in_result);
            let a = choose|a: int| 0 <= a < r@.len() && r@[a] == pairs[k].1;
            lemma_pair_key_injective(overlap_pair(r@[a]), q);
            reveal(overlap_listed);
        }
    }
    r
}

/// `x` is one of the first `done` entries.
#[verifier::opaque]
pub open spec fn drawn_entry(pairs: Seq<(Vec<u8>, DependencyOverlap)>, done: int, x: DependencyOverlap) -> bool {
    exists|k: int| 0 <= k < done && pairs[k].1 == x
}

/// `x` is in `r`.
#[verifier::opaque]
pub open spec fn in_result(r: Seq<DependencyOverlap>, x: DependencyOverlap) -> bool {
    exists|a: int| 0 <= a < r.len() && r[a] == x
}

// ------------------------------------------------------------------------------------------
// The assessment.
// ------------------------------------------------------------------------------------------

/// Some overlap names every path and is about shared experience, tooling, evaluation or
/// external evidence: a common-mode risk.
pub open spec fn common_mode(r: Seq<DependencyOverlap>, n: nat) -> bool {
    exists|a: int| 0 <= a < r.len() && (#[trigger] r[a]).paths@.len() == n && (r[a].kind == EpistemicDependencyKind::Experience
        || r[a].kind == EpistemicDependencyKind::Tool || r[a].kind == EpistemicDependencyKind::Evaluator || r[a].kind
        == EpistemicDependencyKind::ExternalEvidence)
}

/// Some path comes from an experiment, a chaos campaign or a recovery trial.
pub open spec fn empirical(paths: Seq<EvidencePath>) -> bool {
    exists|i: int| 0 <= i < paths.len() && ((#[trigger] paths[i]).source is Experiment || paths[i].source is Chaos
        || paths[i].source is RecoveryTrial)
}

/// The class a set of paths earns: unknown without paths; low for one path; unknown where
/// metadata is too incomplete to credit two dimensions; low where contexts repeat, a common
/// dependency dominates, or one kind of source dominates; high for empirical evidence from
/// several kinds of source and evaluators over at least three dimensions without a common
/// dependency; moderate otherwise.
pub open spec fn diversity_rule(
    n: nat,
    source_types: nat,
    models: nat,
    runtimes: nat,
    retrievals: nat,
    evaluators: nat,
    environments: nat,
    repeated_context: bool,
    common: bool,
    is_empirical: bool,
    missing: nat,
) -> DiversityClass {
    let positive = one_if(source_types > 1) + one_if(models > 1) + one_if(runtimes > 1) + one_if(retrievals > 1) + one_if(
        evaluators > 1) + one_if(environments > 1);
    let complete = missing < (if 2 * n > usize::MAX { usize::MAX as nat } else { 2 * n });
    if n == 0 {
        DiversityClass::Unknown
    } else if n == 1 {
        DiversityClass::Low
    } else if !complete && positive < 2 {
        DiversityClass::Unknown
    } else if repeated_context || (common && positive < 2) || (source_types == 1 && positive < 2) {
        DiversityClass::Low
    } else if is_empirical && source_types >= 2 && evaluators >= 2 && positive >= 3 && !common {
        DiversityClass::High
    } else {
        DiversityClass::Moderate
    }
}

/// The caveats, in order: common-mode risk, repeated context, incomplete metadata, and model
/// diversity undermined by a common dependency.
pub open spec fn caveats_for(common: bool, repeated_context: bool, incomplete: bool, models: nat) -> Seq<Seq<char>> {
    (if common { seq!["A known dependency is shared by every path; this is a common-mode risk"@] } else { seq![] })
        + (if repeated_context {
        seq!["Multiple observations have the same epistemic context fingerprint (high correlation risk)"@]
    } else {
        seq![]
    }) + (if incomplete {
        seq!["Dependency metadata is incomplete; unknown dependencies were not credited as diversity"@]
    } else {
        seq![]
    }) + (if models > 1 && common { seq!["Different model families still share another dominant dependency"@] } else { seq![] })
}

/// The assessment of `paths` that `r` is.
pub open spec fn assessment_of(paths: Seq<EvidencePath>, r: EvidenceDiversityAssessment) -> bool {
    &&& r.path_count == paths.len()
    &&& r.source_type_count == source_kind_count(paths)
    &&& r.model_family_count == distinct_count(model_families(paths))
    &&& r.agent_runtime_count == distinct_count(agent_runtimes(paths))
    &&& r.retrieval_source_count == distinct_count(retrieval_sources(paths))
    &&& r.evaluator_count == distinct_count(evaluator_names(paths))
    &&& r.environment_count == distinct_count(environment_families(paths))
    &&& overlaps_of(paths, r.dependency_overlaps@)
    &&& fingerprint_groups(paths, r.duplicate_fingerprints@)
    &&& string_views(r.missing_metadata@) == missing_notes(paths)
    &&& r.diversity_class == diversity_rule(
        paths.len(),
        r.source_type_count as nat,
        r.model_family_count as nat,
        r.agent_runtime_count as nat,
        r.retrieval_source_count as nat,
        r.evaluator_count as nat,
        r.environment_count as nat,
        r.duplicate_fingerprints@.len() > 0,
        common_mode(r.dependency_overlaps@, paths.len()),
        empirical(paths),
        r.missing_metadata@.len(),
    )
    &&& string_views(r.caveats@) == caveats_for(
        common_mode(r.dependency_overlaps@, paths.len()),
        r.duplicate_fingerprints@.len() > 0,
        r.missing_metadata@.len() > 0,
        r.model_family_count as nat,
    )
}

fn common_mode_exec(r: &Vec<DependencyOverlap>, n: usize) -> (b: bool)
    ensures
        b == common_mode(r@, n as nat),
{
    let mut a: usize = 0;
    while a < r.len()
        invariant
            a <= r@.len(),
            forall|k: int| 0 <= k < a ==> !((#[trigger] r@[k]).paths@.len() == n && (r@[k].kind == EpistemicDependencyKind::Experience
                || r@[k].kind == EpistemicDependencyKind::Tool || r@[k].kind == EpistemicDependencyKind::Evaluator
                || r@[k].kind == EpistemicDependencyKind::ExternalEvidence)),
        decreases r.len() - a,
    {
        let k = r[a].kind;
        if r[a].paths.len() == n && (k == EpistemicDependencyKind::Experience || k == EpistemicDependencyKind::Tool || k
            == EpistemicDependencyKind::Evaluator || k == EpistemicDependencyKind::ExternalEvidence) {
            return true;
        }
        a = a + 1;
    }
    false
}

fn empirical_exec(paths: &Vec<EvidencePath>) -> (b: bool)
    ensures
        b == empirical(paths@),
{
    let mut i: usize = 0;
    while i < paths.len()
        invariant
            i <= paths@.len(),
            forall|k: int| 0 <= k < i ==> !((#[trigger] paths@[k]).source is Experiment || paths@[k].source is Chaos
                || paths@[k].source is RecoveryTrial),
        decreases paths.len() - i,
    {
        match &paths[i].source {
            EvidenceSource::Experiment { .. } | EvidenceSource::Chaos { .. } | EvidenceSource::RecoveryTrial { .. } => {
                return true;
            },
            _ => {},
        }
        i = i + 1;
    }
    false
}

/// Assesses how diverse the evidence paths for a claim are.
#[derive(Clone, Copy, Debug)]
pub struct DeterministicEvidenceDiversityPolicy;

impl DeterministicEvidenceDiversityPolicy {
    /// Counts the distinct known values of each dimension (blank values earn no credit), the
    /// dependencies shared by paths with distinct identities, the repeated context
    /// fingerprints and the missing metadata, and classifies the diversity by them.
    #[verifier::rlimit(50)]
    #[verifier::spinoff_prover]
    pub fn assess(&self, paths: &Vec<EvidencePath>) -> (r: EvidenceDiversityAssessment)
        ensures
            assessment_of(paths@, r),
    {
        let n = paths.len();
        let source_type_count = source_kind_count_exec(paths);
        let model_family_count = count_distinct(&dimension_collect(Dimension::ModelFamily, paths));
        let agent_runtime_count = count_distinct(&dimension_collect(Dimension::AgentRuntime, paths));
        let retrieval_source_count = count_distinct(&dimension_collect(Dimension::RetrievalSource, paths));
        let evaluator_count = count_distinct(&dimension_collect(Dimension::Evaluator, paths));
        let environment_count = count_distinct(&dimension_collect(Dimension::Environment, paths));
        let dependency_overlaps = overlaps_exec(paths);
        let duplicate_fingerprints = fingerprints_exec(paths);
        let missing_metadata = missing_exec(paths);
        let is_empirical = empirical_exec(paths);
        let common = common_mode_exec(&dependency_overlaps, n);
        let positive = count_if(source_type_count > 1) + count_if(model_family_count > 1) + count_if(agent_runtime_count > 1)
            + count_if(retrieval_source_count > 1) + count_if(evaluator_count > 1) + count_if(environment_count > 1);
        let limit: usize = if n > usize::MAX / 2 { usize::MAX } else { n * 2 };
        let complete_enough = missing_metadata.len() < limit;
        let repeated = duplicate_fingerprints.len() > 0;
        let diversity_class = if n == 0 {
            DiversityClass::Unknown
        } else if n == 1 {
            DiversityClass::Low
        } else if !complete_enough && positive < 2 {
            DiversityClass::Unknown
        } else if repeated || (common && positive < 2) || (source_type_count == 1 && positive < 2) {
            DiversityClass::Low
        } else if is_empirical && source_type_count >= 2 && evaluator_count >= 2 && positive >= 3 && !common {
            DiversityClass::High
        } else {
            DiversityClass::Moderate
        };
        let mut caveats: Vec<String> = Vec::new();
        if common {
            caveats.push(String::from_str("A known dependency is shared by every path; this is a common-mode risk"));
        }
        if repeated {
            caveats.push(String::from_str(
                "Multiple observations have the same epistemic context fingerprint (high correlation risk)",
            ));
        }
        if missing_metadata.len() > 0 {
            caveats.push(String::from_str(
                "Dependency metadata is incomplete; unknown dependencies were not credited as diversity",
            ));
        }
        if model_family_count > 1 && common {
            caveats.push(String::from_str("Different model families still share another dominant dependency"));
        }
        let r = EvidenceDiversityAssessment {
            path_count: n,
            source_type_count,
            model_family_count,
            agent_runtime_count,
            retrieval_source_count,
            evaluator_count,
            environment_count,
            dependency_overlaps,
            diversity_class,
            duplicate_fingerprints,
            missing_metadata,
            caveats,
        };
        proof {
            assert(string_views(r.caveats@) =~= caveats_for(common, repeated, r.missing_metadata@.len() > 0, model_family_count as nat));
        }
        r
    }
}

/// Repeated context fingerprints cap the diversity of two or more paths at low (or unknown,
/// where too little metadata is known), and high diversity needs empirical evidence from two
/// kinds of source and two evaluators, with no repeated context and no dependency shared by
/// every path.
pub proof fn lemma_repeated_context_caps_diversity(paths: Seq<EvidencePath>, r: EvidenceDiversityAssessment)
    requires
        assessment_of(paths, r),
    ensures
        paths.len() >= 2 && r.duplicate_fingerprints@.len() > 0 ==> r.diversity_class == DiversityClass::Low
            || r.diversity_class == DiversityClass::Unknown,
        paths.len() >= 2 && r.duplicate_fingerprints@.len() > 0 && r.missing_metadata@.len() == 0 ==> r.diversity_class
            == DiversityClass::Low,
        r.diversity_class == DiversityClass::High ==> {
            &&& r.duplicate_fingerprints@.len() == 0
            &&& !common_mode(r.dependency_overlaps@, paths.len())
            &&& empirical(paths)
            &&& r.source_type_count >= 2
            &&& r.evaluator_count >= 2
            &&& one_if(r.source_type_count > 1) + one_if(r.model_family_count > 1) + one_if(r.agent_runtime_count > 1)
                + one_if(r.retrieval_source_count > 1) + one_if(r.evaluator_count > 1) + one_if(r.environment_count > 1) >= 3
        },
        paths.len() == 0 ==> r.diversity_class == DiversityClass::Unknown,
        paths.len() == 1 ==> r.diversity_class == DiversityClass::Low,
{
}

} // verus!
