//! The dependency graph of evidence paths: a node for each path, for each source and for
//! each known dependency, and edges from paths to what they derive from, use, retrieve or
//! are evaluated by, and between paths that share a dependency.
use vstd::prelude::*;
use crate::digest::{blake3_digest, blake3_hash, hex_text, push_hex};
use crate::epistemic::diversity::{
    all_dependency_values, dependency_values_of, holders, holds, lemma_listed_iff_holds, member_holds,
    named_dependencies, string_views, value_listed, value_pair, DependencyPair,
};
use crate::epistemic::{
    dependency_kind_name, epistemic_dependency_edge_kind_rank, source_label, DependencyValue, EpistemicDependencyEdge,
    EpistemicDependencyEdgeKind, EpistemicDependencyGraph, EpistemicDependencyKind, EpistemicDependencyNode,
    EpistemicDependencyNodeKind, EvidencePath,
};
use crate::sorted::{
    entries_map, find_key, has_key, insert_unique, keys_sorted, lemma_entries_at, lemma_entries_insert,
    lemma_entries_update,
};
use crate::text::{bytes_lt, compare_bytes, lemma_bytes_lt_transitive, lemma_bytes_lt_trichotomy, lemma_encode_utf8_injective};

verus! {

pub open spec fn enc(s: Seq<char>) -> Seq<u8> {
    vstd::utf8::encode_utf8(s)
}

// ------------------------------------------------------------------------------------------
// Nodes.
// ------------------------------------------------------------------------------------------

/// A node by its characters.
pub ghost struct NodeView {
    pub id: Seq<char>,
    pub kind: EpistemicDependencyNodeKind,
    pub label: Seq<char>,
}

pub open spec fn node_view(n: EpistemicDependencyNode) -> NodeView {
    NodeView { id: n.id@, kind: n.kind, label: n.label@ }
}

/// Putting a node into the map by its identifier: replacing any node there, or only where
/// none is.
pub ghost struct NodeOp {
    pub replace: bool,
    pub node: NodeView,
}

pub open spec fn source_node_id(p: EvidencePath) -> Seq<char> {
    "source:"@ + source_label(p.source)
}

/// `dependency:`, the kind's name, `:` and the hex BLAKE3 digest of the value.
pub open spec fn dependency_node_id(p: DependencyPair) -> Seq<char> {
    "dependency:"@ + dependency_kind_name(p.0) + ":"@ + hex_text(blake3_hash(enc(p.1)))
}

pub open spec fn dependency_label(p: DependencyPair) -> Seq<char> {
    dependency_kind_name(p.0) + ": "@ + p.1
}

pub open spec fn dependency_op(v: DependencyValue) -> NodeOp {
    NodeOp {
        replace: false,
        node: NodeView {
            id: dependency_node_id(value_pair(v)),
            kind: EpistemicDependencyNodeKind::Dependency,
            label: dependency_label(value_pair(v)),
        },
    }
}

/// What one path puts into the node map: itself, replacing, then its source and its
/// dependencies, each only where no node has that identifier yet.
pub open spec fn path_ops(p: EvidencePath, values: Seq<DependencyValue>) -> Seq<NodeOp> {
    seq![
        NodeOp {
            replace: true,
            node: NodeView { id: p.id@, kind: EpistemicDependencyNodeKind::EvidencePath, label: source_label(p.source) },
        },
        NodeOp {
            replace: false,
            node: NodeView { id: source_node_id(p), kind: EpistemicDependencyNodeKind::Source, label: source_label(p.source) },
        },
    ] + values.map_values(|v: DependencyValue| dependency_op(v))
}

pub open spec fn all_ops(paths: Seq<EvidencePath>, values: Seq<Seq<DependencyValue>>) -> Seq<NodeOp>
    decreases paths.len(),
{
    if paths.len() == 0 {
        Seq::empty()
    } else {
        all_ops(paths.drop_last(), values.drop_last()) + path_ops(paths.last(), values.last())
    }
}

/// The node map after the operations, keyed by identifier bytes.
pub open spec fn apply_ops(ops: Seq<NodeOp>) -> Map<Seq<u8>, NodeView>
    decreases ops.len(),
{
    if ops.len() == 0 {
        Map::empty()
    } else {
        let m = apply_ops(ops.drop_last());
        let op = ops.last();
        if op.replace || !m.contains_key(enc(op.node.id)) {
            m.insert(enc(op.node.id), op.node)
        } else {
            m
        }
    }
}

/// The dependency lists, each by its items.
pub open spec fn dep_views(deps: Seq<Vec<DependencyValue>>) -> Seq<Seq<DependencyValue>> {
    deps.map_values(|v: Vec<DependencyValue>| v@)
}

/// `values` lists, for each path, its known dependencies.
pub open spec fn dependency_lists(paths: Seq<EvidencePath>, values: Seq<Seq<DependencyValue>>) -> bool {
    &&& values.len() == paths.len()
    &&& forall|i: int| 0 <= i < paths.len() ==> dependency_values_of(named_dependencies(paths[i].dependencies), #[trigger] values[i])
}

/// The nodes strictly increase by identifier bytes and are those of the map `m`.
pub open spec fn nodes_are(nodes: Seq<EpistemicDependencyNode>, m: Map<Seq<u8>, NodeView>) -> bool {
    &&& forall|a: int, b: int| 0 <= a < b < nodes.len() ==> bytes_lt(enc((#[trigger] nodes[a]).id@), enc((#[trigger] nodes[b]).id@))
    &&& forall|a: int| 0 <= a < nodes.len() ==> m.contains_key(enc((#[trigger] nodes[a]).id@)) && m[enc(nodes[a].id@)] == node_view(nodes[a])
    &&& forall|k: Seq<u8>| #[trigger] m.contains_key(k) ==> exists|a: int| 0 <= a < nodes.len() && enc(nodes[a].id@) == k
}

// ------------------------------------------------------------------------------------------
// Edges.
// ------------------------------------------------------------------------------------------

pub type EdgeView = (Seq<char>, Seq<char>, EpistemicDependencyEdgeKind);

pub open spec fn edge_view(e: EpistemicDependencyEdge) -> EdgeView {
    (e.from@, e.to@, e.kind)
}

/// The order of edges: by source, then target (each by bytes), then kind.
pub open spec fn edge_lt(a: EdgeView, b: EdgeView) -> bool {
    ||| bytes_lt(enc(a.0), enc(b.0))
    ||| enc(a.0) == enc(b.0) && bytes_lt(enc(a.1), enc(b.1))
    ||| enc(a.0) == enc(b.0) && enc(a.1) == enc(b.1) && epistemic_dependency_edge_kind_rank(a.2)
        < epistemic_dependency_edge_kind_rank(b.2)
}

proof fn lemma_kind_rank_injective(a: EpistemicDependencyEdgeKind, b: EpistemicDependencyEdgeKind)
    requires
        epistemic_dependency_edge_kind_rank(a) == epistemic_dependency_edge_kind_rank(b),
    ensures
        a == b,
{
}

proof fn lemma_edge_lt_trichotomy(a: EdgeView, b: EdgeView)
    ensures
        a == b ==> !edge_lt(a, b) && !edge_lt(b, a),
        a != b ==> edge_lt(a, b) != edge_lt(b, a),
{
    lemma_bytes_lt_trichotomy(enc(a.0), enc(b.0));
    lemma_bytes_lt_trichotomy(enc(a.1), enc(b.1));
    if enc(a.0) =~= enc(b.0) {
        lemma_encode_utf8_injective(a.0, b.0);
    }
    if enc(a.1) =~= enc(b.1) {
        lemma_encode_utf8_injective(a.1, b.1);
    }
    if epistemic_dependency_edge_kind_rank(a.2) == epistemic_dependency_edge_kind_rank(b.2) {
        lemma_kind_rank_injective(a.2, b.2);
    }
}

proof fn lemma_edge_lt_transitive(a: EdgeView, b: EdgeView, c: EdgeView)
    requires
        edge_lt(a, b),
        edge_lt(b, c),
    ensures
        edge_lt(a, c),
{
    if bytes_lt(enc(a.0), enc(b.0)) && bytes_lt(enc(b.0), enc(c.0)) {
        lemma_bytes_lt_transitive(enc(a.0), enc(b.0), enc(c.0));
    }
    if bytes_lt(enc(a.1), enc(b.1)) && bytes_lt(enc(b.1), enc(c.1)) {
        lemma_bytes_lt_transitive(enc(a.1), enc(b.1), enc(c.1));
    }
}

pub open spec fn edges_sorted(s: Seq<EpistemicDependencyEdge>) -> bool {
    forall|a: int, b: int| 0 <= a < b < s.len() ==> edge_lt(edge_view(#[trigger] s[a]), edge_view(#[trigger] s[b]))
}

pub open spec fn edge_listed(s: Seq<EpistemicDependencyEdge>, e: EdgeView) -> bool {
    exists|k: int| 0 <= k < s.len() && edge_view(#[trigger] s[k]) == e
}

fn edge_order(a: &EpistemicDependencyEdge, b: &EpistemicDependencyEdge) -> (r: i8)
    ensures
        r < 0 <==> edge_lt(edge_view(*a), edge_view(*b)),
        r == 0 <==> edge_view(*a) == edge_view(*b),
        r > 0 <==> edge_lt(edge_view(*b), edge_view(*a)),
{
    proof {
        lemma_edge_lt_trichotomy(edge_view(*a), edge_view(*b));
    }
    let c = compare_bytes(a.from.as_str().as_bytes(), b.from.as_str().as_bytes());
    if c != 0 {
        return c;
    }
    let d = compare_bytes(a.to.as_str().as_bytes(), b.to.as_str().as_bytes());
    if d != 0 {
        return d;
    }
    let (x, y) = (a.kind.rank(), b.kind.rank());
    if x < y {
        -1
    } else if x > y {
        1
    } else {
        0
    }
}

/// Adds an edge to the ordered set of edges.
fn add_edge(edges: &mut Vec<EpistemicDependencyEdge>, e: EpistemicDependencyEdge)
    requires
        edges_sorted(old(edges)@),
    ensures
        edges_sorted(final(edges)@),
        forall|x: EdgeView| edge_listed(final(edges)@, x) <==> (edge_listed(old(edges)@, x) || x == edge_view(e)),
{
    let n = edges.len();
    let mut p: usize = 0;
    while p < n && edge_order(&edges[p], &e) < 0
        invariant
            n == edges@.len(),
            p <= n,
            forall|k: int| 0 <= k < p ==> edge_lt(edge_view(#[trigger] edges@[k]), edge_view(e)),
        decreases n - p,
    {
        p = p + 1;
    }
    if p < n && edge_order(&edges[p], &e) == 0 {
        return;
    }
    let ghost before = edges@;
    proof {
        if p < n {
            lemma_edge_lt_trichotomy(edge_view(before[p as int]), edge_view(e));
        }
    }
    let ghost ev = edge_view(e);
    edges.insert(p, e);
    proof {
        let after = edges@;
        assert(after == before.insert(p as int, e));
        assert forall|a: int, b: int| 0 <= a < b < after.len() implies edge_lt(
            edge_view(#[trigger] after[a]),
            edge_view(#[trigger] after[b]),
        ) by {
            if b < p {
                assert(after[a] == before[a] && after[b] == before[b]);
            } else if b == p {
                assert(after[a] == before[a]);
            } else if a < p {
                assert(after[a] == before[a] && after[b] == before[b - 1]);
                lemma_edge_lt_transitive(edge_view(before[a]), ev, edge_view(before[p as int]));
                if b - 1 > p {
                    lemma_edge_lt_transitive(edge_view(before[a]), edge_view(before[p as int]), edge_view(before[b - 1]));
                }
            } else if a == p {
                assert(after[b] == before[b - 1]);
                if b - 1 > p {
                    lemma_edge_lt_transitive(ev, edge_view(before[p as int]), edge_view(before[b - 1]));
                }
            } else {
                assert(after[a] == before[a - 1] && after[b] == before[b - 1]);
            }
        }
        assert forall|x: EdgeView| edge_listed(after, x) <==> (edge_listed(before, x) || x == ev) by {
            if edge_listed(after, x) {
                let k = choose|k: int| 0 <= k < after.len() && edge_view(#[trigger] after[k]) == x;
                if k < p {
                    assert(after[k] == before[k]);
                } else if k > p {
                    assert(after[k] == before[k - 1]);
                }
            }
            if edge_listed(before, x) {
                let k = choose|k: int| 0 <= k < before.len() && edge_view(#[trigger] before[k]) == x;
                if k < p {
                    assert(after[k] == before[k]);
                } else {
                    assert(after[k + 1] == before[k]);
                }
            }
            if x == ev {
                assert(edge_view(after[p as int]) == x);
            }
        }
    }
}

pub open spec fn edge_kind_for(k: EpistemicDependencyKind) -> EpistemicDependencyEdgeKind {
    match k {
        EpistemicDependencyKind::RetrievalSource | EpistemicDependencyKind::ExternalEvidence => EpistemicDependencyEdgeKind::RetrievedFrom,
        EpistemicDependencyKind::Evaluator => EpistemicDependencyEdgeKind::EvaluatedBy,
        _ => EpistemicDependencyEdgeKind::Uses,
    }
}

/// Paths `a` and `b` are neighbours among the paths that hold dependency `p`: both hold it,
/// `a` comes first by bytes, and no path that holds it comes between.
pub open spec fn neighbours(paths: Seq<EvidencePath>, p: DependencyPair, a: Seq<char>, b: Seq<char>) -> bool {
    &&& member_holds(paths, a, p)
    &&& member_holds(paths, b, p)
    &&& bytes_lt(enc(a), enc(b))
    &&& forall|c: Seq<char>| #[trigger] member_holds(paths, c, p) ==> !(bytes_lt(enc(a), enc(c)) && bytes_lt(enc(c), enc(b)))
}

/// The edges of the graph: from each path to its source, from each path to each of its
/// known dependencies, and between neighbours among the paths that share a dependency.
pub open spec fn expected_edge(paths: Seq<EvidencePath>, e: EdgeView) -> bool {
    ||| exists|i: int| 0 <= i < paths.len() && e == (paths[i].id@, #[trigger] source_node_id(paths[i]), EpistemicDependencyEdgeKind::DerivedFrom)
    ||| exists|i: int, p: DependencyPair|
        0 <= i < paths.len() && #[trigger] holds(paths, i, p) && e == (paths[i].id@, dependency_node_id(p), edge_kind_for(p.0))
    ||| e.2 == EpistemicDependencyEdgeKind::SharesWith && exists|p: DependencyPair| #[trigger] neighbours(paths, p, e.0, e.1)
}

// ------------------------------------------------------------------------------------------
// Building the graph.
// ------------------------------------------------------------------------------------------

pub open spec fn node_list_wf(list: Seq<(Vec<u8>, EpistemicDependencyNode)>) -> bool {
    &&& keys_sorted(list)
    &&& forall|e: int| 0 <= e < list.len() ==> (#[trigger] list[e]).0@ == enc(list[e].1.id@)
}

pub open spec fn node_map(list: Seq<(Vec<u8>, EpistemicDependencyNode)>) -> Map<Seq<u8>, NodeView> {
    Map::new(|k: Seq<u8>| entries_map(list).contains_key(k), |k: Seq<u8>| node_view(entries_map(list)[k]))
}

pub open spec fn apply_op(m: Map<Seq<u8>, NodeView>, op: NodeOp) -> Map<Seq<u8>, NodeView> {
    if op.replace || !m.contains_key(enc(op.node.id)) {
        m.insert(enc(op.node.id), op.node)
    } else {
        m
    }
}

/// Puts a node into the ordered node list.
fn put_node(list: &mut Vec<(Vec<u8>, EpistemicDependencyNode)>, node: EpistemicDependencyNode, replace: bool)
    requires
        node_list_wf(old(list)@),
    ensures
        node_list_wf(final(list)@),
        node_map(final(list)@) == apply_op(node_map(old(list)@), NodeOp { replace, node: node_view(node) }),
{
    let ghost before = list@;
    let ghost nv = node_view(node);
    let key = node.id.as_str().as_bytes_vec();
    match find_key(list, key.as_slice()) {
        Some(p) => {
            proof {
                lemma_entries_at(before, p as int);
            }
            if replace {
                let ghost g_key = key;
                let ghost g_node = node;
                list.set(p, (key, node));
                proof {
                    lemma_entries_update(before, p as int, g_key, g_node);
                    assert forall|e: int| 0 <= e < list@.len() implies (#[trigger] list@[e]).0@ == enc(list@[e].1.id@) by {
                        if e != p {
                            assert(list@[e] == before[e]);
                        }
                    }
                    assert(node_map(list@) =~= node_map(before).insert(enc(nv.id), nv));
                }
            }
        },
        None => {
            proof {
                assert(!node_map(before).contains_key(enc(nv.id)));
            }
            let ghost g_key = key;
            let ghost g_node = node;
            insert_unique(list, key, node);
            proof {
                let p = choose|p: int| 0 <= p <= before.len() && list@ == before.insert(p, (g_key, g_node));
                lemma_entries_insert(before, p, g_key, g_node);
                assert forall|e: int| 0 <= e < list@.len() implies (#[trigger] list@[e]).0@ == enc(list@[e].1.id@) by {
                    if e < p {
                        assert(list@[e] == before[e]);
                    } else if e > p {
                        assert(list@[e] == before[e - 1]);
                    }
                }
                assert(node_map(list@) =~= node_map(before).insert(enc(nv.id), nv));
            }
        },
    }
}

fn dependency_node(v: &DependencyValue) -> (r: EpistemicDependencyNode)
    ensures
        node_view(r) == dependency_op(*v).node,
{
    let mut id = String::from_str("dependency:");
    id.append(v.kind.name());
    id.append(":");
    let digest = blake3_digest(v.value.as_str().as_bytes());
    push_hex(&mut id, digest.as_slice(), 0, 32);
    proof {
        assert(digest@.subrange(0, 32) =~= digest@);
    }
    let mut label = String::from_str(v.kind.name());
    label.append(": ");
    label.append(v.value.as_str());
    EpistemicDependencyNode { id, kind: EpistemicDependencyNodeKind::Dependency, label }
}

fn build_nodes(paths: &Vec<EvidencePath>, deps: &Vec<Vec<DependencyValue>>) -> (r: Vec<EpistemicDependencyNode>)
    requires
        deps@.len() == paths@.len(),
    ensures
        nodes_are(r@, apply_ops(all_ops(paths@, dep_views(deps@)))),
{
    let ghost values = dep_views(deps@);
    let mut list: Vec<(Vec<u8>, EpistemicDependencyNode)> = Vec::new();
    proof {
        assert(node_map(list@) =~= Map::<Seq<u8>, NodeView>::empty());
        assert(paths@.take(0) =~= Seq::<EvidencePath>::empty());
        assert(values.take(0) =~= Seq::<Seq<DependencyValue>>::empty());
    }
    let mut i: usize = 0;
    while i < paths.len()
        invariant
            i <= paths@.len(),
            deps@.len() == paths@.len(),
            values == dep_views(deps@),
            node_list_wf(list@),
            node_map(list@) == apply_ops(all_ops(paths@.take(i as int), values.take(i as int))),
        decreases paths.len() - i,
    {
        let path = &paths[i];
        let ghost ops = path_ops(paths@[i as int], values[i as int]);
        let ghost base = all_ops(paths@.take(i as int), values.take(i as int));
        proof {
            assert(paths@.take(i + 1).drop_last() =~= paths@.take(i as int));
            assert(values.take(i + 1).drop_last() =~= values.take(i as int));
            assert(all_ops(paths@.take(i + 1), values.take(i + 1)) == base + ops);
        }
        let label = path.source.label();
        let own = EpistemicDependencyNode { id: path.id.clone(), kind: EpistemicDependencyNodeKind::EvidencePath, label: label.clone() };
        proof {
            assert(node_view(own) == ops[0].node);
            assert(ops[0].replace);
        }
        put_node(&mut list, own, true);
        proof {
            assert((base + ops.take(1)).drop_last() =~= base);
            assert((base + ops.take(1)).last() == ops[0]);
            assert(node_map(list@) == apply_ops(base + ops.take(1)));
        }
        let mut source_id = String::from_str("source:");
        source_id.append(label.as_str());
        let source = EpistemicDependencyNode { id: source_id, kind: EpistemicDependencyNodeKind::Source, label };
        proof {
            assert(node_view(source) == ops[1].node);
            assert(!ops[1].replace);
        }
        put_node(&mut list, source, false);
        proof {
            assert((base + ops.take(2)).drop_last() =~= base + ops.take(1));
            assert((base + ops.take(2)).last() == ops[1]);
            assert(node_map(list@) == apply_ops(base + ops.take(2)));
        }
        let mut j: usize = 0;
        while j < deps[i].len()
            invariant
                i < paths@.len(),
                deps@.len() == paths@.len(),
                values == dep_views(deps@),
                ops == path_ops(paths@[i as int], values[i as int]),
                ops.len() == deps@[i as int]@.len() + 2,
                j <= deps@[i as int]@.len(),
                node_list_wf(list@),
                node_map(list@) == apply_ops(base + ops.take(j + 2)),
            decreases deps@[i as int]@.len() - j,
        {
            let node = dependency_node(&deps[i][j]);
            put_node(&mut list, node, false);
            proof {
                assert(ops[j + 2] == dependency_op(deps@[i as int]@[j as int]));
                assert((base + ops.take(j + 3)).drop_last() =~= base + ops.take(j + 2));
                assert((base + ops.take(j + 3)).last() == ops[j + 2]);
            }
            j = j + 1;
        }
        proof {
            assert(ops.take(j + 2) =~= ops);
        }
        i = i + 1;
    }
    proof {
        assert(paths@.take(i as int) =~= paths@);
        assert(values.take(i as int) =~= values);
    }
    let mut r: Vec<EpistemicDependencyNode> = Vec::new();
    let mut e: usize = 0;
    while e < list.len()
        invariant
            e <= list@.len(),
            node_list_wf(list@),
            r@.len() == e,
            forall|a: int| 0 <= a < e ==> node_view(#[trigger] r@[a]) == node_view(list@[a].1),
        decreases list.len() - e,
    {
        let n = &list[e].1;
        r.push(EpistemicDependencyNode { id: n.id.clone(), kind: n.kind, label: n.label.clone() });
        e = e + 1;
    }
    proof {
        let m = node_map(list@);
        assert forall|a: int, b: int| 0 <= a < b < r@.len() implies bytes_lt(enc((#[trigger] r@[a]).id@), enc((#[trigger] r@[b]).id@)) by {
            assert(list@[a].0@ == enc(r@[a].id@));
            assert(list@[b].0@ == enc(r@[b].id@));
        }
        assert forall|a: int| 0 <= a < r@.len() implies m.contains_key(enc((#[trigger] r@[a]).id@)) && m[enc(r@[a].id@)] == node_view(r@[a]) by {
            lemma_entries_at(list@, a);
        }
        assert forall|k: Seq<u8>| #[trigger] m.contains_key(k) implies exists|a: int| 0 <= a < r@.len() && enc(r@[a].id@) == k by {
            let w = choose|w: int| 0 <= w < list@.len() && (#[trigger] list@[w]).0@ == k;
            assert(enc(r@[w].id@) == k);
        }
    }
    r
}

pub open spec fn src_edge(p: EvidencePath) -> EdgeView {
    (p.id@, source_node_id(p), EpistemicDependencyEdgeKind::DerivedFrom)
}

pub open spec fn dep_edge(p: EvidencePath, q: DependencyPair) -> EdgeView {
    (p.id@, dependency_node_id(q), edge_kind_for(q.0))
}

/// `x` is the source edge of path `k` or the edge to one of its first `j` dependencies.
pub open spec fn path_edge(paths: Seq<EvidencePath>, values: Seq<Seq<DependencyValue>>, k: int, j: int, x: EdgeView) -> bool {
    ||| x == src_edge(paths[k])
    ||| exists|q: int| 0 <= q < j && x == #[trigger] dep_edge(paths[k], value_pair(values[k][q]))
}

/// `x` is an edge of one of the first `i` paths.
pub open spec fn edge_of_paths(paths: Seq<EvidencePath>, values: Seq<Seq<DependencyValue>>, i: int, x: EdgeView) -> bool {
    exists|k: int| 0 <= k < i && #[trigger] path_edge(paths, values, k, values[k].len() as int, x)
}

fn path_and_dependency_edges(paths: &Vec<EvidencePath>, deps: &Vec<Vec<DependencyValue>>) -> (r: Vec<EpistemicDependencyEdge>)
    requires
        deps@.len() == paths@.len(),
    ensures
        edges_sorted(r@),
        forall|x: EdgeView| edge_listed(r@, x) <==> edge_of_paths(
            paths@,
            dep_views(deps@),
            paths@.len() as int,
            x,
        ),
{
    let ghost values = dep_views(deps@);
    let mut edges: Vec<EpistemicDependencyEdge> = Vec::new();
    let mut i: usize = 0;
    while i < paths.len()
        invariant
            i <= paths@.len(),
            deps@.len() == paths@.len(),
            values == dep_views(deps@),
            edges_sorted(edges@),
            forall|x: EdgeView| edge_listed(edges@, x) <==> edge_of_paths(paths@, values, i as int, x),
        decreases paths.len() - i,
    {
        let path = &paths[i];
        let label = path.source.label();
        let mut source_id = String::from_str("source:");
        source_id.append(label.as_str());
        let ghost before = edges@;
        add_edge(&mut edges, EpistemicDependencyEdge { from: path.id.clone(), to: source_id, kind: EpistemicDependencyEdgeKind::DerivedFrom });
        let mut j: usize = 0;
        while j < deps[i].len()
            invariant
                i < paths@.len(),
                deps@.len() == paths@.len(),
                values == dep_views(deps@),
                j <= values[i as int].len(),
                values[i as int] == deps@[i as int]@,
                edges_sorted(edges@),
                forall|x: EdgeView| edge_listed(edges@, x) <==> (edge_of_paths(paths@, values, i as int, x) || path_edge(
                    paths@,
                    values,
                    i as int,
                    j as int,
                    x,
                )),
            decreases deps@[i as int]@.len() - j,
        {
            let v = &deps[i][j];
            let node = dependency_node(v);
            let kind = match v.kind {
                EpistemicDependencyKind::RetrievalSource | EpistemicDependencyKind::ExternalEvidence => EpistemicDependencyEdgeKind::RetrievedFrom,
                EpistemicDependencyKind::Evaluator => EpistemicDependencyEdgeKind::EvaluatedBy,
                _ => EpistemicDependencyEdgeKind::Uses,
            };
            let ghost e_new = dep_edge(paths@[i as int], value_pair(values[i as int][j as int]));
            let ghost node_id = node.id@;
            let from = paths[i].id.clone();
            let edge = EpistemicDependencyEdge { from, to: node.id, kind };
            proof {
                assert(values[i as int][j as int] == *v);
                assert(node_id == dependency_node_id(value_pair(*v)));
                assert(edge.to@ == node_id);
                assert(edge.from@ == paths@[i as int].id@);
                assert(kind == edge_kind_for(v.kind));
                assert(edge_view(edge) == e_new);
            }
            add_edge(&mut edges, edge);
            proof {
                assert forall|x: EdgeView| path_edge(paths@, values, i as int, j + 1, x) <==> (path_edge(
                    paths@,
                    values,
                    i as int,
                    j as int,
                    x,
                ) || x == e_new) by {
                    if path_edge(paths@, values, i as int, j + 1, x) && x != src_edge(paths@[i as int]) {
                        let q = choose|q: int| 0 <= q < j + 1 && x == #[trigger] dep_edge(paths@[i as int], value_pair(values[i as int][q]));
                    }
                }
            }
            j = j + 1;
        }
        proof {
            assert forall|x: EdgeView| edge_of_paths(paths@, values, i + 1, x) <==> (edge_of_paths(paths@, values, i as int, x)
                || path_edge(paths@, values, i as int, values[i as int].len() as int, x)) by {
                if edge_of_paths(paths@, values, i + 1, x) {
                    let k = choose|k: int| 0 <= k < i + 1 && #[trigger] path_edge(paths@, values, k, values[k].len() as int, x);
                }
            }
        }
        i = i + 1;
    }
    edges
}

/// `a` is directly followed by `b` in `h`.
pub open spec fn consecutive(h: Seq<Seq<char>>, a: Seq<char>, b: Seq<char>) -> bool {
    exists|t: int| 0 <= t && t + 1 < h.len() && #[trigger] h[t] == a && h[t + 1] == b
}

pub open spec fn sorted_by_bytes(h: Seq<Seq<char>>) -> bool {
    forall|a: int, b: int| 0 <= a < b < h.len() ==> bytes_lt(enc(#[trigger] h[a]), enc(#[trigger] h[b]))
}

proof fn lemma_sorted_index_order(h: Seq<Seq<char>>, x: int, y: int)
    requires
        sorted_by_bytes(h),
        0 <= x < h.len(),
        0 <= y < h.len(),
        bytes_lt(enc(h[x]), enc(h[y])),
    ensures
        x < y,
{
    lemma_bytes_lt_trichotomy(enc(h[x]), enc(h[y]));
}

/// Among the sorted holders of a dependency, neighbours are the entries that follow each
/// other.
proof fn lemma_neighbours_consecutive(paths: Seq<EvidencePath>, p: DependencyPair, h: Seq<Seq<char>>)
    requires
        sorted_by_bytes(h),
        forall|a: int| 0 <= a < h.len() ==> member_holds(paths, #[trigger] h[a], p),
        forall|c: Seq<char>| member_holds(paths, c, p) ==> #[trigger] h.contains(c),
    ensures
        forall|a: Seq<char>, b: Seq<char>| #[trigger] neighbours(paths, p, a, b) <==> consecutive(h, a, b),
{
    assert forall|a: Seq<char>, b: Seq<char>| #[trigger] neighbours(paths, p, a, b) <==> consecutive(h, a, b) by {
        if neighbours(paths, p, a, b) {
            assert(h.contains(a));
            assert(h.contains(b));
            let x = choose|x: int| 0 <= x < h.len() && h[x] == a;
            let y = choose|y: int| 0 <= y < h.len() && h[y] == b;
            lemma_sorted_index_order(h, x, y);
            if y > x + 1 {
                assert(member_holds(paths, h[x + 1], p));
                assert(bytes_lt(enc(h[x]), enc(h[x + 1])));
                assert(bytes_lt(enc(h[x + 1]), enc(h[y])));
            }
            assert(h[x] == a && h[x + 1] == b);
        }
        if consecutive(h, a, b) {
            let t = choose|t: int| 0 <= t && t + 1 < h.len() && #[trigger] h[t] == a && h[t + 1] == b;
            assert(member_holds(paths, h[t], p));
            assert(member_holds(paths, h[t + 1], p));
            assert forall|c: Seq<char>| #[trigger] member_holds(paths, c, p) implies !(bytes_lt(enc(a), enc(c)) && bytes_lt(
                enc(c),
                enc(b),
            )) by {
                if bytes_lt(enc(a), enc(c)) && bytes_lt(enc(c), enc(b)) {
                    assert(h.contains(c));
                    let y = choose|y: int| 0 <= y < h.len() && h[y] == c;
                    lemma_sorted_index_order(h, t, y);
                    lemma_sorted_index_order(h, y, t + 1);
                }
            }
        }
    }
}

/// `x` joins neighbours among the holders of one of the first `n` dependencies of `flat`.
pub open spec fn shared_upto(paths: Seq<EvidencePath>, flat: Seq<DependencyValue>, n: int, x: EdgeView) -> bool {
    &&& x.2 == EpistemicDependencyEdgeKind::SharesWith
    &&& exists|r: int| 0 <= r < n && #[trigger] neighbours(paths, value_pair(flat[r]), x.0, x.1)
}

proof fn lemma_shared_extend(
    paths: Seq<EvidencePath>,
    flat: Seq<DependencyValue>,
    r: int,
    before: Seq<EpistemicDependencyEdge>,
    after: Seq<EpistemicDependencyEdge>,
    start: Seq<EpistemicDependencyEdge>,
)
    requires
        0 <= r < flat.len(),
        neighbour_edges_added(paths, value_pair(flat[r]), before, after),
        forall|x: EdgeView| edge_listed(before, x) <==> (edge_listed(start, x) || shared_upto(paths, flat, r, x)),
    ensures
        forall|x: EdgeView| edge_listed(after, x) <==> (edge_listed(start, x) || shared_upto(paths, flat, r + 1, x)),
{
    assert forall|x: EdgeView| edge_listed(after, x) <==> (edge_listed(start, x) || shared_upto(paths, flat, r + 1, x)) by {
        if shared_upto(paths, flat, r + 1, x) {
            let w = choose|w: int| 0 <= w < r + 1 && #[trigger] neighbours(paths, value_pair(flat[w]), x.0, x.1);
            if w < r {
                assert(shared_upto(paths, flat, r, x));
            }
        }
        if shared_upto(paths, flat, r, x) {
            let w = choose|w: int| 0 <= w < r && #[trigger] neighbours(paths, value_pair(flat[w]), x.0, x.1);
            assert(shared_upto(paths, flat, r + 1, x));
        }
        if x.2 == EpistemicDependencyEdgeKind::SharesWith && neighbours(paths, value_pair(flat[r]), x.0, x.1) {
            assert(shared_upto(paths, flat, r + 1, x));
        }
    }
}

/// Each of the first `q` dependencies of path `k` is, as a pair, somewhere in `flat`.
pub open spec fn covers_path(flat: Seq<DependencyValue>, deps: Seq<Vec<DependencyValue>>, k: int, q: int) -> bool {
    forall|q2: int| #![trigger deps[k]@[q2]] 0 <= q2 < q ==> exists|r: int|
        0 <= r < flat.len() && value_pair(#[trigger] flat[r]) == value_pair(deps[k]@[q2])
}

/// Every dependency of the first `k` paths is, as a pair, somewhere in `flat`.
pub open spec fn covers(flat: Seq<DependencyValue>, deps: Seq<Vec<DependencyValue>>, k: int) -> bool {
    forall|k2: int| 0 <= k2 < k ==> #[trigger] covers_path(flat, deps, k2, deps[k2]@.len() as int)
}

proof fn lemma_covers_push(flat: Seq<DependencyValue>, v: DependencyValue, deps: Seq<Vec<DependencyValue>>, k: int, q: int)
    requires
        covers(flat, deps, k),
        covers_path(flat, deps, k, q),
        0 <= q < deps[k]@.len(),
        value_pair(v) == value_pair(deps[k]@[q]),
    ensures
        covers(flat.push(v), deps, k),
        covers_path(flat.push(v), deps, k, q + 1),
{
    let f2 = flat.push(v);
    assert forall|k2: int| 0 <= k2 < k implies #[trigger] covers_path(f2, deps, k2, deps[k2]@.len() as int) by {
        assert(covers_path(flat, deps, k2, deps[k2]@.len() as int));
        assert forall|q2: int| #![trigger deps[k2]@[q2]] 0 <= q2 < deps[k2]@.len() implies exists|r: int|
            0 <= r < f2.len() && value_pair(#[trigger] f2[r]) == value_pair(deps[k2]@[q2]) by {
            let r = choose|r: int| 0 <= r < flat.len() && value_pair(#[trigger] flat[r]) == value_pair(deps[k2]@[q2]);
            assert(f2[r] == flat[r]);
        }
    }
    assert forall|q2: int| #![trigger deps[k]@[q2]] 0 <= q2 < q + 1 implies exists|r: int|
        0 <= r < f2.len() && value_pair(#[trigger] f2[r]) == value_pair(deps[k]@[q2]) by {
        if q2 < q {
            let r = choose|r: int| 0 <= r < flat.len() && value_pair(#[trigger] flat[r]) == value_pair(deps[k]@[q2]);
            assert(f2[r] == flat[r]);
        } else {
            assert(f2[flat.len() as int] == v);
        }
    }
}

/// Every dependency of every path, one after another.
fn flatten_values(deps: &Vec<Vec<DependencyValue>>) -> (flat: Vec<DependencyValue>)
    ensures
        covers(flat@, deps@, deps@.len() as int),
{
    let mut flat: Vec<DependencyValue> = Vec::new();
    let mut k: usize = 0;
    while k < deps.len()
        invariant
            k <= deps@.len(),
            covers(flat@, deps@, k as int),
        decreases deps.len() - k,
    {
        let mut q: usize = 0;
        while q < deps[k].len()
            invariant
                k < deps@.len(),
                q <= deps@[k as int]@.len(),
                covers(flat@, deps@, k as int),
                covers_path(flat@, deps@, k as int, q as int),
            decreases deps@[k as int]@.len() - q,
        {
            let v = &deps[k][q];
            let item = DependencyValue { kind: v.kind, value: v.value.clone() };
            proof {
                lemma_covers_push(flat@, item, deps@, k as int, q as int);
            }
            flat.push(item);
            q = q + 1;
        }
        proof {
            assert forall|k2: int| 0 <= k2 < k + 1 implies #[trigger] covers_path(flat@, deps@, k2, deps@[k2]@.len() as int) by {
                if k2 < k {
                    assert(covers(flat@, deps@, k as int));
                }
            }
        }
        k = k + 1;
    }
    flat
}

/// `x` joins one of the first `t` entries of `h` to the entry after it.
pub open spec fn joins_prefix(h: Seq<Seq<char>>, t: int, x: EdgeView) -> bool {
    x.2 == EpistemicDependencyEdgeKind::SharesWith && exists|u: int| 0 <= u < t && #[trigger] h[u] == x.0 && h[u + 1] == x.1
}

proof fn lemma_joins_step(h: Seq<Seq<char>>, t: int, x: EdgeView)
    requires
        0 <= t,
        t + 1 < h.len(),
    ensures
        joins_prefix(h, t + 1, x) <==> (joins_prefix(h, t, x) || x == (h[t], h[t + 1], EpistemicDependencyEdgeKind::SharesWith)),
{
    if joins_prefix(h, t + 1, x) {
        let u = choose|u: int| 0 <= u < t + 1 && #[trigger] h[u] == x.0 && h[u + 1] == x.1;
        if u == t {
            assert(x == (h[t], h[t + 1], EpistemicDependencyEdgeKind::SharesWith));
        }
    }
    if x == (h[t], h[t + 1], EpistemicDependencyEdgeKind::SharesWith) {
        assert(h[t] == x.0);
    }
}

proof fn lemma_joins_all(h: Seq<Seq<char>>, t: int, x: EdgeView)
    requires
        t + 1 == h.len() || (t == 0 && h.len() == 0),
    ensures
        joins_prefix(h, t, x) <==> (x.2 == EpistemicDependencyEdgeKind::SharesWith && consecutive(h, x.0, x.1)),
{
    if consecutive(h, x.0, x.1) {
        let u = choose|u: int| 0 <= u && u + 1 < h.len() && #[trigger] h[u] == x.0 && h[u + 1] == x.1;
    }
}

proof fn lemma_listed_step(
    before: Seq<EpistemicDependencyEdge>,
    after: Seq<EpistemicDependencyEdge>,
    start: Seq<EpistemicDependencyEdge>,
    hv: Seq<Seq<char>>,
    t: int,
    ev: EdgeView,
)
    requires
        0 <= t,
        t + 1 < hv.len(),
        ev == (hv[t], hv[t + 1], EpistemicDependencyEdgeKind::SharesWith),
        forall|x: EdgeView| edge_listed(after, x) <==> (edge_listed(before, x) || x == ev),
        forall|x: EdgeView| edge_listed(before, x) <==> (edge_listed(start, x) || joins_prefix(hv, t, x)),
    ensures
        forall|x: EdgeView| edge_listed(after, x) <==> (edge_listed(start, x) || joins_prefix(hv, t + 1, x)),
{
    assert forall|x: EdgeView| edge_listed(after, x) <==> (edge_listed(start, x) || joins_prefix(hv, t + 1, x)) by {
        lemma_joins_step(hv, t, x);
    }
}

/// `after` holds the edges of `start` and an edge between each two neighbours among the
/// holders of `p`.
pub open spec fn neighbour_edges_added(
    paths: Seq<EvidencePath>,
    p: DependencyPair,
    start: Seq<EpistemicDependencyEdge>,
    after: Seq<EpistemicDependencyEdge>,
) -> bool {
    forall|x: EdgeView| edge_listed(after, x) <==> (edge_listed(start, x) || (x.2 == EpistemicDependencyEdgeKind::SharesWith
        && neighbours(paths, p, x.0, x.1)))
}

proof fn lemma_neighbours_done(
    paths: Seq<EvidencePath>,
    p: DependencyPair,
    hv: Seq<Seq<char>>,
    t: int,
    start: Seq<EpistemicDependencyEdge>,
    after: Seq<EpistemicDependencyEdge>,
)
    requires
        t + 1 == hv.len() || (t == 0 && hv.len() == 0),
        forall|x: EdgeView| edge_listed(after, x) <==> (edge_listed(start, x) || joins_prefix(hv, t, x)),
        forall|a: Seq<char>, b: Seq<char>| #[trigger] neighbours(paths, p, a, b) <==> consecutive(hv, a, b),
    ensures
        neighbour_edges_added(paths, p, start, after),
{
    assert forall|x: EdgeView| edge_listed(after, x) <==> (edge_listed(start, x) || (x.2 == EpistemicDependencyEdgeKind::SharesWith
        && neighbours(paths, p, x.0, x.1))) by {
        lemma_joins_all(hv, t, x);
        assert(neighbours(paths, p, x.0, x.1) <==> consecutive(hv, x.0, x.1));
    }
}

/// Adds an edge between each two neighbours among the holders of dependency `v`.
fn add_neighbour_edges(
    paths: &Vec<EvidencePath>,
    deps: &Vec<Vec<DependencyValue>>,
    v: &DependencyValue,
    edges: Vec<EpistemicDependencyEdge>,
) -> (r: Vec<EpistemicDependencyEdge>)
    requires
        deps@.len() == paths@.len(),
        forall|i: int| 0 <= i < paths@.len() ==> dependency_values_of(named_dependencies(paths@[i].dependencies), (#[trigger] deps@[i])@),
        edges_sorted(edges@),
    ensures
        edges_sorted(r@),
        neighbour_edges_added(paths@, value_pair(*v), edges@, r@),
{
    let ghost p = value_pair(*v);
    let h = holders(paths, deps, v.kind, &v.value);
    let ghost hv = string_views(h@);
    proof {
        assert forall|c: Seq<char>| member_holds(paths@, c, p) implies #[trigger] hv.contains(c) by {
            reveal(member_holds);
            let k = choose|k: int| 0 <= k < paths@.len() && paths@[k].id@ == c && holds(paths@, k, p);
        }
        assert forall|a: int| 0 <= a < hv.len() implies member_holds(paths@, #[trigger] hv[a], p) by {
            assert(hv[a] == h@[a]@);
        }
        assert(sorted_by_bytes(hv)) by {
            assert forall|a: int, b: int| 0 <= a < b < hv.len() implies bytes_lt(enc(#[trigger] hv[a]), enc(#[trigger] hv[b])) by {
                assert(hv[a] == h@[a]@ && hv[b] == h@[b]@);
            }
        }
        lemma_neighbours_consecutive(paths@, p, hv);
    }
    let ghost start = edges@;
    let mut edges = edges;
    let mut t: usize = 0;
    if h.len() == 0 {
        proof {
            lemma_neighbours_done(paths@, p, hv, 0, start, edges@);
        }
        return edges;
    }
    let n = h.len();
    while t + 1 < n
        invariant
            n == h@.len(),
            hv == string_views(h@),
            n > 0,
            t + 1 <= n,
            edges_sorted(edges@),
            forall|x: EdgeView| edge_listed(edges@, x) <==> (edge_listed(start, x) || joins_prefix(hv, t as int, x)),
            forall|a: Seq<char>, b: Seq<char>| #[trigger] neighbours(paths@, p, a, b) <==> consecutive(hv, a, b),
        decreases n - t,
    {
        let edge = EpistemicDependencyEdge { from: h[t].clone(), to: h[t + 1].clone(), kind: EpistemicDependencyEdgeKind::SharesWith };
        let ghost ev = edge_view(edge);
        let ghost before = edges@;
        proof {
            assert(ev == (hv[t as int], hv[t + 1], EpistemicDependencyEdgeKind::SharesWith));
        }
        add_edge(&mut edges, edge);
        proof {
            lemma_listed_step(before, edges@, start, hv, t as int, ev);
        }
        t = t + 1;
    }
    proof {
        lemma_neighbours_done(paths@, p, hv, t as int, start, edges@);
    }
    edges
}

fn shared_edges(paths: &Vec<EvidencePath>, deps: &Vec<Vec<DependencyValue>>, edges: Vec<EpistemicDependencyEdge>) -> (r: (
    Vec<EpistemicDependencyEdge>,
    Ghost<Seq<DependencyValue>>,
))
    requires
        deps@.len() == paths@.len(),
        forall|i: int| 0 <= i < paths@.len() ==> dependency_values_of(named_dependencies(paths@[i].dependencies), (#[trigger] deps@[i])@),
        edges_sorted(edges@),
    ensures
        edges_sorted(r.0@),
        covers(r.1@, deps@, deps@.len() as int),
        forall|x: EdgeView| edge_listed(r.0@, x) <==> (edge_listed(edges@, x) || shared_upto(paths@, r.1@, r.1@.len() as int, x)),
{
    let flat = flatten_values(deps);
    let ghost start = edges@;
    let mut edges = edges;
    let mut r: usize = 0;
    while r < flat.len()
        invariant
            r <= flat@.len(),
            deps@.len() == paths@.len(),
            forall|i: int| 0 <= i < paths@.len() ==> dependency_values_of(named_dependencies(paths@[i].dependencies), (#[trigger] deps@[i])@),
            edges_sorted(edges@),
            forall|x: EdgeView| edge_listed(edges@, x) <==> (edge_listed(start, x) || shared_upto(paths@, flat@, r as int, x)),
        decreases flat.len() - r,
    {
        let ghost before = edges@;
        edges = add_neighbour_edges(paths, deps, &flat[r], edges);
        proof {
            lemma_shared_extend(paths@, flat@, r as int, before, edges@, start);
        }
        r = r + 1;
    }
    (edges, Ghost(flat@))
}
proof fn lemma_expected_edge(
    paths: Seq<EvidencePath>,
    deps: Seq<Vec<DependencyValue>>,
    values: Seq<Seq<DependencyValue>>,
    flat: Seq<DependencyValue>,
    x: EdgeView,
)
    requires
        deps.len() == paths.len(),
        values == dep_views(deps),
        forall|i: int| 0 <= i < paths.len() ==> dependency_values_of(named_dependencies(paths[i].dependencies), (#[trigger] deps[i])@),
        covers(flat, deps, deps.len() as int),
    ensures
        (edge_of_paths(paths, values, paths.len() as int, x) || shared_upto(paths, flat, flat.len() as int, x)) <==> expected_edge(
            paths,
            x,
        ),
{
    let n = paths.len() as int;
    if edge_of_paths(paths, values, n, x) {
        let k = choose|k: int| 0 <= k < n && #[trigger] path_edge(paths, values, k, values[k].len() as int, x);
        if x == src_edge(paths[k]) {
            assert(x == (paths[k].id@, source_node_id(paths[k]), EpistemicDependencyEdgeKind::DerivedFrom));
        } else {
            let q = choose|q: int| 0 <= q < values[k].len() && x == #[trigger] dep_edge(paths[k], value_pair(values[k][q]));
            let pr = value_pair(values[k][q]);
            assert(values[k] == deps[k]@);
            lemma_listed_iff_holds(named_dependencies(paths[k].dependencies), deps[k]@, pr);
            assert(value_listed(deps[k]@, pr)) by {
                reveal(value_listed);
            }
            assert(holds(paths, k, pr));
        }
    }
    if shared_upto(paths, flat, flat.len() as int, x) {
        let r = choose|r: int| 0 <= r < flat.len() && #[trigger] neighbours(paths, value_pair(flat[r]), x.0, x.1);
        assert(neighbours(paths, value_pair(flat[r]), x.0, x.1));
    }
    if expected_edge(paths, x) {
        if exists|i: int| 0 <= i < paths.len() && x == (paths[i].id@, #[trigger] source_node_id(paths[i]), EpistemicDependencyEdgeKind::DerivedFrom) {
            let i = choose|i: int| 0 <= i < paths.len() && x == (paths[i].id@, #[trigger] source_node_id(paths[i]), EpistemicDependencyEdgeKind::DerivedFrom);
            assert(path_edge(paths, values, i, values[i].len() as int, x));
        } else if exists|i: int, pr: DependencyPair|
            0 <= i < paths.len() && #[trigger] holds(paths, i, pr) && x == (paths[i].id@, dependency_node_id(pr), edge_kind_for(pr.0)) {
            let (i, pr) = choose|i: int, pr: DependencyPair|
                0 <= i < paths.len() && #[trigger] holds(paths, i, pr) && x == (paths[i].id@, dependency_node_id(pr), edge_kind_for(pr.0));
            lemma_listed_iff_holds(named_dependencies(paths[i].dependencies), deps[i]@, pr);
            assert(value_listed(deps[i]@, pr));
            reveal(value_listed);
            let q = choose|q: int| 0 <= q < deps[i]@.len() && value_pair(deps[i]@[q]) == pr;
            assert(values[i] == deps[i]@);
            assert(x == dep_edge(paths[i], value_pair(values[i][q])));
            assert(path_edge(paths, values, i, values[i].len() as int, x));
        } else {
            let pr = choose|pr: DependencyPair| #[trigger] neighbours(paths, pr, x.0, x.1);
            assert(member_holds(paths, x.0, pr));
            reveal(member_holds);
            let i = choose|i: int| 0 <= i < paths.len() && paths[i].id@ == x.0 && holds(paths, i, pr);
            lemma_listed_iff_holds(named_dependencies(paths[i].dependencies), deps[i]@, pr);
            reveal(value_listed);
            let q = choose|q: int| 0 <= q < deps[i]@.len() && value_pair(deps[i]@[q]) == pr;
            assert(covers_path(flat, deps, i, deps[i]@.len() as int));
            assert(deps[i]@[q] == deps[i]@[q]);
            let r = choose|r: int| 0 <= r < flat.len() && value_pair(#[trigger] flat[r]) == value_pair(deps[i]@[q]);
            assert(neighbours(paths, value_pair(flat[r]), x.0, x.1));
        }
    }
}

/// The dependency graph of the paths: a node for each path (the last path with an
/// identifier names its node), for each source and for each known dependency (the first
/// to give an identifier names its node), in identifier order; and, in the order of source,
/// target and kind, an edge from each path to its source, from each path to each of its
/// known dependencies (retrieved from, evaluated by, or used), and between neighbours by
/// identifier among the paths that share a dependency.
pub fn dependency_graph(paths: &Vec<EvidencePath>) -> (r: EpistemicDependencyGraph)
    ensures
        exists|values: Seq<Seq<DependencyValue>>| #[trigger] dependency_lists(paths@, values) && nodes_are(
            r.nodes@,
            apply_ops(all_ops(paths@, values)),
        ),
        edges_sorted(r.edges@),
        forall|x: EdgeView| edge_listed(r.edges@, x) <==> expected_edge(paths@, x),
{
    let deps = all_dependency_values(paths);
    let ghost values = dep_views(deps@);
    let nodes = build_nodes(paths, &deps);
    let first = path_and_dependency_edges(paths, &deps);
    let ghost first_view = first@;
    let (edges, flat) = shared_edges(paths, &deps, first);
    proof {
        assert forall|i: int| 0 <= i < paths@.len() implies dependency_values_of(
            named_dependencies(paths@[i].dependencies),
            #[trigger] values[i],
        ) by {
            assert(values[i] == deps@[i]@);
        }
        assert(dependency_lists(paths@, values));
        assert forall|x: EdgeView| edge_listed(edges@, x) <==> expected_edge(paths@, x) by {
            assert(edge_listed(edges@, x) <==> (edge_listed(first_view, x) || shared_upto(paths@, flat@, flat@.len() as int, x)));
            assert(edge_listed(first_view, x) <==> edge_of_paths(paths@, values, paths@.len() as int, x));
            lemma_expected_edge(paths@, deps@, values, flat@, x);
        }
    }
    EpistemicDependencyGraph { nodes, edges }
}

} // verus!
