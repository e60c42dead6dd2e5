//! Evidence echoes: federated evidence that looks independent but goes back to few roots.
use vstd::prelude::*;
use crate::epistemic::{EvidenceEchoAssessment, EvidenceEchoStatus, EvidencePath, EvidenceSource, OriginDiversity};
use crate::text::{bytes_lt, compare_bytes, str_eq, views};

verus! {

/// How often `x` occurs in `s`.
pub open spec fn occurrences(s: Seq<Seq<char>>, x: Seq<char>) -> nat
    decreases s.len(),
{
    if s.len() == 0 {
        0
    } else {
        occurrences(s.drop_last(), x) + if s.last() == x { 1nat } else { 0nat }
    }
}

proof fn lemma_occurrences_bound(s: Seq<Seq<char>>, x: Seq<char>)
    ensures
        occurrences(s, x) <= s.len(),
    decreases s.len(),
{
    if s.len() > 0 {
        lemma_occurrences_bound(s.drop_last(), x);
    }
}

proof fn lemma_occurrences_member(s: Seq<Seq<char>>, x: Seq<char>)
    ensures
        occurrences(s, x) > 0 <==> s.contains(x),
    decreases s.len(),
{
    if s.len() > 0 {
        lemma_occurrences_member(s.drop_last(), x);
        if s.drop_last().contains(x) {
            let k = choose|k: int| 0 <= k < s.drop_last().len() && s.drop_last()[k] == x;
            assert(s[k] == x);
        }
        if s.contains(x) && s.last() != x {
            let k = choose|k: int| 0 <= k < s.len() && s[k] == x;
            assert(s.drop_last()[k] == x);
        }
    }
}

/// The distinct values of a list of strings, each with how often it occurs.
pub open spec fn tallies(vs: Seq<Seq<char>>, keys: Seq<Seq<char>>, counts: Seq<usize>) -> bool {
    &&& keys.no_duplicates()
    &&& keys.to_set() == vs.to_set()
    &&& counts.len() == keys.len()
    &&& forall|k: int| 0 <= k < keys.len() ==> #[trigger] counts[k] == occurrences(vs, keys[k])
}

fn tally(vals: &Vec<String>) -> (r: (Vec<String>, Vec<usize>))
    ensures
        tallies(views(vals@), views(r.0@), r.1@),
{
    let ghost vs = views(vals@);
    let mut keys: Vec<String> = Vec::new();
    let mut counts: Vec<usize> = Vec::new();
    proof {
        assert(vs.subrange(0, 0).to_set() =~= views(keys@).to_set());
    }
    let mut i: usize = 0;
    while i < vals.len()
        invariant
            i <= vals@.len(),
            vs == views(vals@),
            tallies(vs.subrange(0, i as int), views(keys@), counts@),
            forall|k: int| 0 <= k < counts@.len() ==> #[trigger] counts@[k] <= i,
        decreases vals.len() - i,
    {
        let ghost before = vs.subrange(0, i as int);
        let ghost after = vs.subrange(0, i as int + 1);
        let ghost kb = views(keys@);
        let ghost cb = counts@;
        let v = vals[i].as_str();
        proof {
            assert(after.drop_last() =~= before);
            assert(after.last() == v@);
        }
        let mut j: usize = 0;
        while j < keys.len() && !str_eq(keys[j].as_str(), v)
            invariant
                j <= keys@.len(),
                forall|k: int| 0 <= k < j ==> #[trigger] keys@[k]@ != v@,
            decreases keys.len() - j,
        {
            j = j + 1;
        }
        if j < keys.len() {
            let c = counts[j];
            counts.set(j, c + 1);
            proof {
                assert(kb[j as int] == v@);
                assert forall|k: int| 0 <= k < kb.len() implies #[trigger] counts@[k] == occurrences(after, kb[k]) by {
                    if k != j {
                        assert(kb[k] != kb[j as int]);
                    }
                }
                assert(after.to_set() =~= before.to_set()) by {
                    assert(before.to_set().contains(v@));
                    assert forall|x: Seq<char>| after.to_set().contains(x) implies before.to_set().contains(x) by {
                        let k = choose|k: int| 0 <= k < after.len() && after[k] == x;
                        if k < before.len() {
                            assert(before[k] == x);
                        }
                    }
                    assert forall|x: Seq<char>| before.to_set().contains(x) implies after.to_set().contains(x) by {
                        let k = choose|k: int| 0 <= k < before.len() && before[k] == x;
                        assert(after[k] == x);
                    }
                }
                assert(views(keys@) == kb);
            }
        } else {
            keys.push(vals[i].clone());
            counts.push(1);
            proof {
                assert(views(keys@) =~= kb.push(v@));
                assert(!kb.contains(v@));
                assert(!before.to_set().contains(v@));
                lemma_occurrences_member(before, v@);
                assert forall|k: int| 0 <= k < views(keys@).len() implies #[trigger] counts@[k] == occurrences(
                    after,
                    views(keys@)[k],
                ) by {
                    if k < kb.len() {
                        assert(views(keys@)[k] == kb[k]);
                        assert(kb[k] != v@);
                    }
                }
                assert(views(keys@).no_duplicates());
                assert(views(keys@).to_set() =~= after.to_set()) by {
                    assert forall|x: Seq<char>| after.to_set().contains(x) implies views(keys@).to_set().contains(x) by {
                        let k = choose|k: int| 0 <= k < after.len() && after[k] == x;
                        if k < before.len() {
                            assert(before[k] == x);
                            assert(kb.to_set().contains(x));
                            let q = choose|q: int| 0 <= q < kb.len() && kb[q] == x;
                            assert(views(keys@)[q] == x);
                        } else {
                            assert(views(keys@)[kb.len() as int] == x);
                        }
                    }
                    assert forall|x: Seq<char>| views(keys@).to_set().contains(x) implies after.to_set().contains(x) by {
                        let q = choose|q: int| 0 <= q < views(keys@).len() && views(keys@)[q] == x;
                        if q < kb.len() {
                            assert(kb[q] == x);
                            assert(before.to_set().contains(x));
                            let k = choose|k: int| 0 <= k < before.len() && before[k] == x;
                            assert(after[k] == x);
                        } else {
                            assert(after[i as int] == x);
                        }
                    }
                }
            }
        }
        i = i + 1;
    }
    proof {
        assert(vs.subrange(0, vals@.len() as int) =~= vs);
    }
    (keys, counts)
}

/// The node identities of the paths that came through federation.
pub open spec fn federation_nodes(paths: Seq<EvidencePath>) -> Seq<Seq<char>>
    decreases paths.len(),
{
    if paths.len() == 0 {
        Seq::empty()
    } else {
        let prev = federation_nodes(paths.drop_last());
        match paths.last().source {
            EvidenceSource::Federation { node_id } => prev.push(node_id@),
            _ => prev,
        }
    }
}

/// The root evidence origins the paths name, in order, repeats included.
pub open spec fn all_roots(paths: Seq<EvidencePath>) -> Seq<Seq<char>>
    decreases paths.len(),
{
    if paths.len() == 0 {
        Seq::empty()
    } else {
        all_roots(paths.drop_last()) + views(paths.last().context.root_evidence_origins@)
    }
}

/// `d` is the most frequent root, the greatest one among equally frequent roots.
pub open spec fn dominant_root(roots: Seq<Seq<char>>, d: Seq<char>) -> bool {
    &&& roots.contains(d)
    &&& forall|x: Seq<char>| #[trigger] roots.contains(x) ==> occurrences(roots, x) <= occurrences(roots, d)
    &&& forall|x: Seq<char>| #[trigger] roots.contains(x) && occurrences(roots, x) == occurrences(roots, d) && x != d
        ==> bytes_lt(vstd::utf8::encode_utf8(x), vstd::utf8::encode_utf8(d))
}

pub open spec fn echo_status(immediate: nat, root_count: nat, dominant_paths: Option<nat>, path_count: nat) -> EvidenceEchoStatus {
    if immediate <= 1 {
        EvidenceEchoStatus::NoEcho
    } else if root_count <= 1 || (dominant_paths matches Some(c) && c * 4 >= (if path_count * 3 > usize::MAX {
        usize::MAX as nat
    } else {
        path_count * 3
    })) {
        EvidenceEchoStatus::Strong
    } else if root_count < immediate {
        EvidenceEchoStatus::Possible
    } else {
        EvidenceEchoStatus::NoEcho
    }
}

pub open spec fn missing_origin_caveat() -> Seq<char> {
    "Federated root-origin metadata is missing; unknown origin is not credited as diverse"@
}

/// The echo assessment of `paths`.
pub open spec fn echo_of(paths: Seq<EvidencePath>, r: EvidenceEchoAssessment) -> bool {
    let roots = all_roots(paths);
    let immediate = federation_nodes(paths).to_set().len();
    let root_count = roots.to_set().len();
    &&& r.origin_diversity.immediate_nodes == immediate
    &&& r.origin_diversity.root_evidence_origins == root_count
    &&& match r.dominant_root {
        None => roots.len() == 0 && r.dominant_root_paths == 0,
        Some(d) => dominant_root(roots, d@) && r.dominant_root_paths == occurrences(roots, d@),
    }
    &&& r.status == echo_status(
        immediate,
        root_count,
        if r.dominant_root is Some { Some(r.dominant_root_paths as nat) } else { None },
        paths.len(),
    )
    &&& views(r.caveats@) == if immediate > 0 && root_count == 0 { seq![missing_origin_caveat()] } else { Seq::empty() }
}

fn federation_node_list(paths: &Vec<EvidencePath>) -> (r: Vec<String>)
    ensures
        views(r@) == federation_nodes(paths@),
{
    let mut r: Vec<String> = Vec::new();
    let mut i: usize = 0;
    while i < paths.len()
        invariant
            i <= paths@.len(),
            views(r@) == federation_nodes(paths@.subrange(0, i as int)),
        decreases paths.len() - i,
    {
        proof {
            assert(paths@.subrange(0, i as int + 1).drop_last() =~= paths@.subrange(0, i as int));
        }
        if let EvidenceSource::Federation { node_id } = &paths[i].source {
            r.push(node_id.clone());
            assert(views(r@) =~= federation_nodes(paths@.subrange(0, i as int + 1)));
        }
        i = i + 1;
    }
    assert(paths@.subrange(0, paths@.len() as int) =~= paths@);
    r
}

fn root_list(paths: &Vec<EvidencePath>) -> (r: Vec<String>)
    ensures
        views(r@) == all_roots(paths@),
{
    let mut r: Vec<String> = Vec::new();
    let mut i: usize = 0;
    while i < paths.len()
        invariant
            i <= paths@.len(),
            views(r@) == all_roots(paths@.subrange(0, i as int)),
        decreases paths.len() - i,
    {
        let ghost start = views(r@);
        let origins = &paths[i].context.root_evidence_origins;
        let mut j: usize = 0;
        while j < origins.len()
            invariant
                j <= origins@.len(),
                views(r@) == start + views(origins@.subrange(0, j as int)),
            decreases origins.len() - j,
        {
            let ghost r0 = r@;
            r.push(origins[j].clone());
            proof {
                assert(views(r@) =~= views(r0).push(origins@[j as int]@));
                assert(views(origins@.subrange(0, j as int + 1)) =~= views(origins@.subrange(0, j as int)).push(origins@[j as int]@));
                assert(views(r@) =~= start + views(origins@.subrange(0, j as int + 1)));
            }
            j = j + 1;
        }
        proof {
            assert(origins@.subrange(0, origins@.len() as int) =~= origins@);
            assert(paths@.subrange(0, i as int + 1).drop_last() =~= paths@.subrange(0, i as int));
        }
        i = i + 1;
    }
    assert(paths@.subrange(0, paths@.len() as int) =~= paths@);
    r
}

/// Measures how many federation nodes the evidence came through and how many root origins
/// it goes back to. Evidence from several nodes is a strong echo when it has at most one
/// root, or its most frequent root accounts for at least three quarters of the paths; a
/// possible echo when it has fewer roots than nodes.
pub fn evidence_echo_assessment(paths: &Vec<EvidencePath>) -> (r: EvidenceEchoAssessment)
    requires
        all_roots(paths@).len() * 4 <= usize::MAX,
    ensures
        echo_of(paths@, r),
{
    let nodes = federation_node_list(paths);
    let (node_keys, _node_counts) = tally(&nodes);
    let immediate_nodes = node_keys.len();
    proof {
        views(node_keys@).unique_seq_to_set();
    }
    let roots = root_list(paths);
    let ghost rs = views(roots@);
    let (root_keys, root_counts) = tally(&roots);
    proof {
        views(root_keys@).unique_seq_to_set();
    }
    let root_count = root_keys.len();
    let mut best: Option<usize> = None;
    let mut k: usize = 0;
    while k < root_keys.len()
        invariant
            k <= root_keys@.len(),
            tallies(rs, views(root_keys@), root_counts@),
            match best {
                None => k == 0,
                Some(b) => {
                    &&& b < k
                    &&& forall|q: int| 0 <= q < k ==> #[trigger] root_counts@[q] <= root_counts@[b as int]
                    &&& forall|q: int| 0 <= q < k && q != b && #[trigger] root_counts@[q] == root_counts@[b as int]
                        ==> bytes_lt(vstd::utf8::encode_utf8(root_keys@[q]@), vstd::utf8::encode_utf8(root_keys@[b as int]@))
                },
            },
        decreases root_keys.len() - k,
    {
        match best {
            None => {
                best = Some(k);
            },
            Some(b) => {
                let c = compare_bytes(root_keys[k].as_str().as_bytes(), root_keys[b].as_str().as_bytes());
                if root_counts[k] > root_counts[b] || (root_counts[k] == root_counts[b] && c > 0) {
                    proof {
                        assert forall|q: int| 0 <= q < k + 1 && q != k && #[trigger] root_counts@[q] == root_counts@[k as int]
                            implies bytes_lt(vstd::utf8::encode_utf8(root_keys@[q]@), vstd::utf8::encode_utf8(root_keys@[k as int]@)) by {
                            if q != b {
                                crate::text::lemma_bytes_lt_transitive(
                                    vstd::utf8::encode_utf8(root_keys@[q]@),
                                    vstd::utf8::encode_utf8(root_keys@[b as int]@),
                                    vstd::utf8::encode_utf8(root_keys@[k as int]@),
                                );
                            }
                        }
                    }
                    best = Some(k);
                } else {
                    proof {
                        if root_counts@[k as int] == root_counts@[b as int] {
                            assert(views(root_keys@)[k as int] != views(root_keys@)[b as int]);
                            assert(root_keys@[k as int]@ != root_keys@[b as int]@);
                            let ek = vstd::utf8::encode_utf8(root_keys@[k as int]@);
                            let eb = vstd::utf8::encode_utf8(root_keys@[b as int]@);
                            vstd::utf8::encode_utf8_decode_utf8(root_keys@[k as int]@);
                            vstd::utf8::encode_utf8_decode_utf8(root_keys@[b as int]@);
                            crate::text::lemma_bytes_lt_trichotomy(ek, eb);
                        }
                    }
                }
            },
        }
        k = k + 1;
    }
    let (dominant_root, dominant_paths) = match best {
        None => (None, 0usize),
        Some(b) => (Some(root_keys[b].clone()), root_counts[b]),
    };
    proof {
        lemma_occurrences_bound(rs, rs[0]);
        match best {
            None => {
                assert(rs.to_set().len() == 0);
                if rs.len() > 0 {
                    assert(rs.to_set().contains(rs[0]));
                }
            },
            Some(b) => {
                let kv = views(root_keys@);
                let d = kv[b as int];
                assert(kv.to_set().contains(d));
                assert(rs.contains(d));
                lemma_occurrences_bound(rs, d);
                assert forall|x: Seq<char>| #[trigger] rs.contains(x) implies occurrences(rs, x) <= occurrences(rs, d) && (
                    occurrences(rs, x) == occurrences(rs, d) && x != d ==> bytes_lt(vstd::utf8::encode_utf8(x), vstd::utf8::encode_utf8(d))) by {
                    assert(rs.to_set().contains(x));
                    assert(kv.to_set().contains(x));
                    let q = choose|q: int| 0 <= q < kv.len() && kv[q] == x;
                    assert(root_counts@[q] == occurrences(rs, x));
                }
            },
        }
    }
    let three_quarters_of = if paths.len() <= usize::MAX / 3 { paths.len() * 3 } else { usize::MAX };
    let status = if immediate_nodes <= 1 {
        EvidenceEchoStatus::NoEcho
    } else if root_count <= 1 || (dominant_root.is_some() && dominant_paths * 4 >= three_quarters_of) {
        EvidenceEchoStatus::Strong
    } else if root_count < immediate_nodes {
        EvidenceEchoStatus::Possible
    } else {
        EvidenceEchoStatus::NoEcho
    };
    let mut caveats: Vec<String> = Vec::new();
    if immediate_nodes > 0 && root_count == 0 {
        caveats.push(String::from_str(
            "Federated root-origin metadata is missing; unknown origin is not credited as diverse",
        ));
    }
    assert(views(caveats@) =~= if immediate_nodes > 0 && root_count == 0 {
        seq![missing_origin_caveat()]
    } else {
        Seq::empty()
    });
    EvidenceEchoAssessment {
        origin_diversity: OriginDiversity { immediate_nodes, root_evidence_origins: root_count },
        dominant_root,
        dominant_root_paths: dominant_paths,
        status,
        caveats,
    }
}

} // verus!
