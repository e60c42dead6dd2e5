//! Structural validation of knowledge hierarchies and their topological orders.
use vstd::prelude::*;
use crate::hierarchy::{
    key_bytes, AbstractKnowledgeKind, KnowledgeArtifactKind, KnowledgeHierarchy, KnowledgeHierarchyEdge,
    KnowledgeHierarchyRelation,
};
use crate::hierarchy::relation::{scope_relation, DeterministicScopeRelationEvaluator, ScopeRelation};
use crate::text::{bytes_lt, lemma_bytes_lt_transitive, lemma_bytes_lt_trichotomy, str_eq};

verus! {

#[derive(Debug)]
pub struct KnowledgeHierarchyValidationReport {
    pub valid: bool,
    pub errors: Vec<HierarchyValidationIssue>,
    pub warnings: Vec<HierarchyValidationIssue>,
}

#[derive(Debug)]
pub struct HierarchyValidationIssue {
    pub kind: HierarchyValidationIssueKind,
    pub message: String,
    pub nodes: Vec<String>,
}

#[derive(Clone, Copy, Debug, PartialEq, Eq, Structural)]
pub enum HierarchyValidationIssueKind {
    Cycle,
    SelfReference,
    MissingNode,
    InvalidSpecializationScope,
    InvalidExceptionScope,
    SupersessionCycle,
    IncompatibleArtifactKinds,
    OrphanedReference,
    UnknownScopeRelationship,
}

/// Which edges an order follows.
#[derive(Clone, Copy, Debug, PartialEq, Eq, Structural)]
pub enum EdgeSelection {
    /// Every relation but `DependsOn`.
    Precedence,
    /// `DependsOn` only.
    Health,
    /// `Supersedes` only.
    Supersession,
}

pub open spec fn selects(sel: EdgeSelection, r: KnowledgeHierarchyRelation) -> bool {
    match sel {
        EdgeSelection::Precedence => r != KnowledgeHierarchyRelation::DependsOn,
        EdgeSelection::Health => r == KnowledgeHierarchyRelation::DependsOn,
        EdgeSelection::Supersession => r == KnowledgeHierarchyRelation::Supersedes,
    }
}

fn selects_exec(sel: EdgeSelection, r: KnowledgeHierarchyRelation) -> (b: bool)
    ensures
        b == selects(sel, r),
{
    match sel {
        EdgeSelection::Precedence => r != KnowledgeHierarchyRelation::DependsOn,
        EdgeSelection::Health => r == KnowledgeHierarchyRelation::DependsOn,
        EdgeSelection::Supersession => r == KnowledgeHierarchyRelation::Supersedes,
    }
}

/// The node keys, in map order.
pub open spec fn node_keys(h: KnowledgeHierarchy) -> Seq<Seq<char>> {
    h.nodes@.map_values(|e: (String, crate::hierarchy::KnowledgeHierarchyNode)| e.0@)
}

pub open spec fn is_node(h: KnowledgeHierarchy, k: Seq<char>) -> bool {
    node_keys(h).contains(k)
}

/// The edge takes part in an order over `sel`: selected, from a node.
pub open spec fn counted(h: KnowledgeHierarchy, sel: EdgeSelection, e: KnowledgeHierarchyEdge) -> bool {
    selects(sel, e.relation) && is_node(h, e.parent@)
}

/// Every counted edge into `k` comes from a key in `done`.
pub open spec fn ready_after(h: KnowledgeHierarchy, sel: EdgeSelection, done: Seq<Seq<char>>, k: Seq<char>) -> bool {
    forall|j: int|
        0 <= j < h.edges@.len() && counted(h, sel, #[trigger] h.edges@[j]) && h.edges@[j].child@ == k
            ==> done.contains(h.edges@[j].parent@)
}

/// Node `i` can come next after `done`.
pub open spec fn next_candidate(h: KnowledgeHierarchy, sel: EdgeSelection, done: Seq<Seq<char>>, i: int) -> bool {
    !done.contains(node_keys(h)[i]) && ready_after(h, sel, done, node_keys(h)[i])
}

/// `k` is the least node (in key order) that can come next after `done`.
#[verifier::opaque]
pub open spec fn least_next(h: KnowledgeHierarchy, sel: EdgeSelection, done: Seq<Seq<char>>, k: Seq<char>) -> bool {
    exists|i: int|
        0 <= i < node_keys(h).len() && node_keys(h)[i] == k && #[trigger] next_candidate(h, sel, done, i)
            && forall|i2: int| 0 <= i2 < i ==> !#[trigger] next_candidate(h, sel, done, i2)
}

/// `out` is the order in which nodes drain over `sel`: each element is the least node (in key
/// order) not yet taken whose counted parents are all taken, until no such node remains.
pub open spec fn drain_order(h: KnowledgeHierarchy, sel: EdgeSelection, out: Seq<Seq<char>>) -> bool {
    &&& forall|a: int| 0 <= a < out.len() ==> least_next(h, sel, out.subrange(0, a), #[trigger] out[a])
    &&& forall|i: int| 0 <= i < node_keys(h).len() ==> !#[trigger] next_candidate(h, sel, out, i)
}

pub open spec fn string_views(s: Seq<String>) -> Seq<Seq<char>> {
    s.map_values(|x: String| x@)
}

pub proof fn lemma_node_keys_distinct(h: KnowledgeHierarchy)
    requires
        h.wf(),
    ensures
        node_keys(h).no_duplicates(),
{
    assert forall|a: int, b: int| 0 <= a < node_keys(h).len() && 0 <= b < node_keys(h).len() && a != b
        implies node_keys(h)[a] != node_keys(h)[b] by {
        let (x, y) = if a < b { (a, b) } else { (b, a) };
        assert(bytes_lt(key_bytes(h.nodes@[x].0@), key_bytes(h.nodes@[y].0@)));
        lemma_bytes_lt_trichotomy(key_bytes(h.nodes@[x].0@), key_bytes(h.nodes@[y].0@));
    }
}

proof fn lemma_sub_len(sub: Seq<Seq<char>>, all: Seq<Seq<char>>)
    requires
        sub.no_duplicates(),
        all.no_duplicates(),
        forall|i: int| 0 <= i < sub.len() ==> all.contains(#[trigger] sub[i]),
    ensures
        sub.len() <= all.len(),
        sub.len() == all.len() ==> forall|k: Seq<char>| all.contains(k) ==> sub.contains(k),
{
    sub.unique_seq_to_set();
    all.unique_seq_to_set();
    vstd::seq_lib::seq_to_set_is_finite(sub);
    vstd::seq_lib::seq_to_set_is_finite(all);
    assert(sub.to_set().subset_of(all.to_set()));
    vstd::set_lib::lemma_len_subset(sub.to_set(), all.to_set());
    if sub.len() == all.len() {
        vstd::set_lib::lemma_subset_equality(sub.to_set(), all.to_set());
        assert forall|k: Seq<char>| all.contains(k) implies sub.contains(k) by {
            assert(all.to_set().contains(k));
        }
    }
}

/// Entry `i` is the first with key `k`.
pub open spec fn first_at(h: KnowledgeHierarchy, k: Seq<char>, i: int) -> bool {
    &&& 0 <= i < h.nodes@.len()
    &&& h.nodes@[i].0@ == k
    &&& forall|m: int| 0 <= m < i ==> (#[trigger] h.nodes@[m]).0@ != k
}

/// The position of the first entry with key `k`.
pub open spec fn first_pos(h: KnowledgeHierarchy, k: Seq<char>) -> int {
    choose|i: int| first_at(h, k, i)
}

pub proof fn lemma_first_pos(h: KnowledgeHierarchy, k: Seq<char>, i: int)
    requires
        first_at(h, k, i),
    ensures
        first_pos(h, k) == i,
{
    let c = first_pos(h, k);
    assert(first_at(h, k, c));
    if c < i {
        assert(h.nodes@[c].0@ != k);
    } else if i < c {
        assert(h.nodes@[i].0@ != k);
    }
}

/// The index of the first node with this key.
pub fn node_index(h: &KnowledgeHierarchy, key: &str) -> (r: Option<usize>)
    ensures
        match r {
            Some(i) => i < h.nodes@.len() && h.nodes@[i as int].0@ == key@ && is_node(*h, key@)
                && first_at(*h, key@, i as int) && first_pos(*h, key@) == i,
            None => !is_node(*h, key@),
        },
{
    let mut i: usize = 0;
    while i < h.nodes.len()
        invariant
            i <= h.nodes@.len(),
            forall|k: int| 0 <= k < i ==> (#[trigger] h.nodes@[k]).0@ != key@,
        decreases h.nodes.len() - i,
    {
        if str_eq(h.nodes[i].0.as_str(), key) {
            proof {
                assert(node_keys(*h)[i as int] == key@);
                lemma_first_pos(*h, key@, i as int);
            }
            return Some(i);
        }
        i = i + 1;
    }
    proof {
        if is_node(*h, key@) {
            let k = choose|k: int| 0 <= k < node_keys(*h).len() && node_keys(*h)[k] == key@;
            assert(h.nodes@[k].0@ == key@);
        }
    }
    None
}

fn contains_string(v: &Vec<String>, s: &str) -> (r: bool)
    ensures
        r == string_views(v@).contains(s@),
{
    let mut i: usize = 0;
    while i < v.len()
        invariant
            i <= v@.len(),
            forall|k: int| 0 <= k < i ==> (#[trigger] v@[k])@ != s@,
        decreases v.len() - i,
    {
        if str_eq(v[i].as_str(), s) {
            proof {
                assert(string_views(v@)[i as int] == s@);
            }
            return true;
        }
        i = i + 1;
    }
    proof {
        if string_views(v@).contains(s@) {
            let k = choose|k: int| 0 <= k < string_views(v@).len() && string_views(v@)[k] == s@;
            assert(v@[k]@ == s@);
        }
    }
    false
}

/// Whether the list holds the text.
pub fn contains_string_pub(v: &Vec<String>, s: &str) -> (r: bool)
    ensures
        r == string_views(v@).contains(s@),
{
    contains_string(v, s)
}

fn ready_exec(h: &KnowledgeHierarchy, sel: EdgeSelection, done: &Vec<String>, k: &str) -> (r: bool)
    ensures
        r == ready_after(*h, sel, string_views(done@), k@),
{
    let mut j: usize = 0;
    while j < h.edges.len()
        invariant
            j <= h.edges@.len(),
            forall|m: int|
                0 <= m < j && counted(*h, sel, #[trigger] h.edges@[m]) && h.edges@[m].child@ == k@
                    ==> string_views(done@).contains(h.edges@[m].parent@),
        decreases h.edges.len() - j,
    {
        let e = &h.edges[j];
        if selects_exec(sel, e.relation) && str_eq(e.child.as_str(), k) && !contains_string(done, e.parent.as_str()) {
            if let Some(pi) = node_index(h, e.parent.as_str()) {
                proof {
                    assert(node_keys(*h)[pi as int] == e.parent@);
                    assert(is_node(*h, e.parent@));
                    assert(counted(*h, sel, h.edges@[j as int]));
                }
                return false;
            }
        }
        j = j + 1;
    }
    true
}

/// The drain order of the hierarchy over the selected edges. Nodes on or after a cycle of
/// selected edges never drain.
pub fn topological(h: &KnowledgeHierarchy, sel: EdgeSelection) -> (out: Vec<String>)
    requires
        h.wf(),
    ensures
        drain_order(*h, sel, string_views(out@)),
        string_views(out@).no_duplicates(),
        forall|a: int| 0 <= a < out@.len() ==> is_node(*h, #[trigger] out@[a]@),
{
    let n = h.nodes.len();
    let ghost keys = node_keys(*h);
    proof {
        lemma_node_keys_distinct(*h);
    }
    let mut out: Vec<String> = Vec::new();
    let mut finished = false;
    while !finished
        invariant
            n == h.nodes@.len(),
            h.wf(),
            keys == node_keys(*h),
            keys.no_duplicates(),
            string_views(out@).no_duplicates(),
            forall|a: int| 0 <= a < out@.len() ==> keys.contains(#[trigger] string_views(out@)[a]),
            out@.len() <= n,
            forall|a: int| 0 <= a < out@.len() ==> least_next(*h, sel, string_views(out@).subrange(0, a), #[trigger] string_views(out@)[a]),
            finished ==> forall|i: int| 0 <= i < keys.len() ==> !#[trigger] next_candidate(*h, sel, string_views(out@), i),
        decreases n - out@.len() + (if finished { 0int } else { 1int }),
    {
        let ghost done = string_views(out@);
        let mut i: usize = 0;
        let mut found = false;
        while i < n && !found
            invariant
                n == h.nodes@.len(),
                keys == node_keys(*h),
                done == string_views(out@),
                i <= n,
                found ==> i < n && next_candidate(*h, sel, done, i as int),
                forall|i2: int| 0 <= i2 < i ==> !#[trigger] next_candidate(*h, sel, done, i2),
            decreases n - i + (if found { 0int } else { 1int }),
        {
            proof {
                assert(keys[i as int] == h.nodes@[i as int].0@);
            }
            if !contains_string(&out, h.nodes[i].0.as_str()) && ready_exec(h, sel, &out, h.nodes[i].0.as_str()) {
                found = true;
            } else {
                i = i + 1;
            }
        }
        if found {
            let ghost before = out@;
            let key = h.nodes[i].0.clone();
            out.push(key);
            proof {
                let views = string_views(out@);
                assert(views =~= done.push(keys[i as int]));
                assert(done =~= views.subrange(0, done.len() as int));
                assert(views.no_duplicates()) by {
                    assert forall|a: int, b: int| 0 <= a < views.len() && 0 <= b < views.len() && a != b
                        implies views[a] != views[b] by {
                        if a < done.len() && b < done.len() {
                            assert(views[a] == done[a] && views[b] == done[b]);
                        } else if a == done.len() {
                            assert(done[b] == views[b]);
                        } else {
                            assert(done[a] == views[a]);
                        }
                    }
                }
                assert forall|a: int| 0 <= a < out@.len() implies keys.contains(#[trigger] string_views(out@)[a]) by {
                    if a < done.len() {
                        assert(views[a] == done[a]);
                    } else {
                        assert(views[a] == keys[i as int]);
                    }
                }
                assert forall|a: int| 0 <= a < out@.len() implies least_next(*h, sel, string_views(out@).subrange(0, a), #[trigger] string_views(out@)[a]) by {
                    if a < done.len() {
                        assert(views[a] == done[a]);
                        assert(views.subrange(0, a) =~= done.subrange(0, a));
                    } else {
                        assert(views.subrange(0, a) =~= done);
                        assert(views[a] == keys[i as int]);
                        assert(next_candidate(*h, sel, views.subrange(0, a), i as int));
                        reveal(least_next);
                    }
                }
                lemma_sub_len(views, keys);
            }
        } else {
            finished = true;
        }
    }
    proof {
        assert forall|a: int| 0 <= a < out@.len() implies is_node(*h, #[trigger] out@[a]@) by {
            assert(string_views(out@)[a] == out@[a]@);
            assert(keys.contains(string_views(out@)[a]));
        }
    }
    out
}

// ------------------------------------------------------------------------------------------
// Acyclicity.
// ------------------------------------------------------------------------------------------

/// `ord` lists every node once, each counted edge between nodes going forward.
pub open spec fn forward_order(h: KnowledgeHierarchy, sel: EdgeSelection, ord: Seq<Seq<char>>) -> bool {
    &&& ord.no_duplicates()
    &&& forall|k: Seq<char>| is_node(h, k) <==> ord.contains(k)
    &&& forall|j: int, a: int, b: int|
        0 <= j < h.edges@.len() && counted(h, sel, #[trigger] h.edges@[j]) && 0 <= a < ord.len() && 0 <= b < ord.len()
            && #[trigger] ord[a] == h.edges@[j].parent@ && #[trigger] ord[b] == h.edges@[j].child@ ==> a < b
}

/// The selected edges admit an order of all nodes: they form no cycle among nodes.
pub open spec fn acyclic(h: KnowledgeHierarchy, sel: EdgeSelection) -> bool {
    exists|ord: Seq<Seq<char>>| forward_order(h, sel, ord)
}

proof fn lemma_drain_complete(h: KnowledgeHierarchy, sel: EdgeSelection, out: Seq<Seq<char>>, ord: Seq<Seq<char>>, b: int)
    requires
        drain_order(h, sel, out),
        forward_order(h, sel, ord),
        0 <= b < ord.len(),
    ensures
        out.contains(ord[b]),
    decreases b,
{
    let k = ord[b];
    assert(is_node(h, k));
    let i = choose|i: int| 0 <= i < node_keys(h).len() && node_keys(h)[i] == k;
    assert forall|j: int|
        0 <= j < h.edges@.len() && counted(h, sel, #[trigger] h.edges@[j]) && h.edges@[j].child@ == k
            implies out.contains(h.edges@[j].parent@) by {
        let p = h.edges@[j].parent@;
        assert(ord.contains(p));
        let a = choose|a: int| 0 <= a < ord.len() && ord[a] == p;
        assert(a < b);
        lemma_drain_complete(h, sel, out, ord, a);
    }
    assert(ready_after(h, sel, out, k));
    assert(!next_candidate(h, sel, out, i));
}

proof fn lemma_drain_acyclic(h: KnowledgeHierarchy, sel: EdgeSelection, out: Seq<Seq<char>>)
    requires
        h.wf(),
        drain_order(h, sel, out),
        out.no_duplicates(),
        forall|a: int| 0 <= a < out.len() ==> is_node(h, #[trigger] out[a]),
    ensures
        (out.len() == node_keys(h).len()) == acyclic(h, sel),
{
    lemma_node_keys_distinct(h);
    let keys = node_keys(h);
    lemma_sub_len(out, keys);
    if out.len() == keys.len() {
        assert forall|k: Seq<char>| is_node(h, k) <==> out.contains(k) by {
            if out.contains(k) {
                let a = choose|a: int| 0 <= a < out.len() && out[a] == k;
                assert(is_node(h, out[a]));
            }
        }
        assert forall|j: int, a: int, b: int|
            0 <= j < h.edges@.len() && counted(h, sel, #[trigger] h.edges@[j]) && 0 <= a < out.len() && 0 <= b < out.len()
                && #[trigger] out[a] == h.edges@[j].parent@ && #[trigger] out[b] == h.edges@[j].child@ implies a < b by {
            assert(least_next(h, sel, out.subrange(0, b), out[b]));
            reveal(least_next);
            let i = choose|i: int|
                0 <= i < node_keys(h).len() && node_keys(h)[i] == out[b] && #[trigger] next_candidate(h, sel, out.subrange(0, b), i)
                    && forall|i2: int| 0 <= i2 < i ==> !#[trigger] next_candidate(h, sel, out.subrange(0, b), i2);
            assert(ready_after(h, sel, out.subrange(0, b), out[b]));
            assert(out.subrange(0, b).contains(out[a]));
            let a2 = choose|a2: int| 0 <= a2 < b && out.subrange(0, b)[a2] == out[a];
            assert(out[a2] == out[a]);
        }
        assert(forward_order(h, sel, out));
    } else {
        if acyclic(h, sel) {
            let ord = choose|ord: Seq<Seq<char>>| forward_order(h, sel, ord);
            assert forall|i: int| 0 <= i < keys.len() implies out.contains(#[trigger] keys[i]) by {
                assert(is_node(h, keys[i]));
                assert(ord.contains(keys[i]));
                let b = choose|b: int| 0 <= b < ord.len() && ord[b] == keys[i];
                lemma_drain_complete(h, sel, out, ord, b);
            }
            lemma_sub_len(keys, out);
        }
    }
}

// ------------------------------------------------------------------------------------------
// Validation.
// ------------------------------------------------------------------------------------------

/// The concrete kind an artifact kind refines.
pub open spec fn concrete(kind: KnowledgeArtifactKind) -> KnowledgeArtifactKind {
    match kind {
        KnowledgeArtifactKind::AbstractKnowledge(k) => match k {
            AbstractKnowledgeKind::AbstractLesson => KnowledgeArtifactKind::Lesson,
            AbstractKnowledgeKind::AbstractSkill => KnowledgeArtifactKind::Skill,
            AbstractKnowledgeKind::AbstractConstraint => KnowledgeArtifactKind::Constraint,
            AbstractKnowledgeKind::AbstractAntiPattern => KnowledgeArtifactKind::AntiPattern,
            AbstractKnowledgeKind::AbstractRecovery => KnowledgeArtifactKind::Recovery,
        },
        k => k,
    }
}

fn concrete_exec(kind: KnowledgeArtifactKind) -> (r: KnowledgeArtifactKind)
    ensures
        r == concrete(kind),
{
    match kind {
        KnowledgeArtifactKind::AbstractKnowledge(k) => match k {
            AbstractKnowledgeKind::AbstractLesson => KnowledgeArtifactKind::Lesson,
            AbstractKnowledgeKind::AbstractSkill => KnowledgeArtifactKind::Skill,
            AbstractKnowledgeKind::AbstractConstraint => KnowledgeArtifactKind::Constraint,
            AbstractKnowledgeKind::AbstractAntiPattern => KnowledgeArtifactKind::AntiPattern,
            AbstractKnowledgeKind::AbstractRecovery => KnowledgeArtifactKind::Recovery,
        },
        k => k,
    }
}

/// The node stored under a key.
pub open spec fn node_at(h: KnowledgeHierarchy, k: Seq<char>) -> crate::hierarchy::KnowledgeHierarchyNode {
    h.nodes@[node_pos(h, k)].1
}

/// The position of the entry with key `k`.
pub open spec fn node_pos(h: KnowledgeHierarchy, k: Seq<char>) -> int {
    choose|i: int| 0 <= i < h.nodes@.len() && h.nodes@[i].0@ == k
}

/// The map entries are consistent: each key is its node's identity, each artifact has an
/// identity and a positive revision.
pub open spec fn nodes_sound(h: KnowledgeHierarchy) -> bool {
    forall|i: int| 0 <= i < h.nodes@.len() ==> {
        let e = #[trigger] h.nodes@[i];
        e.0@ == e.1.id@ && e.1.artifact.id@.len() > 0 && e.1.artifact.revision > 0
    }
}

/// Roots name nodes, each once.
pub open spec fn roots_sound(h: KnowledgeHierarchy) -> bool {
    &&& forall|r: int| 0 <= r < h.root_nodes@.len() ==> is_node(h, (#[trigger] h.root_nodes@[r])@)
    &&& string_views(h.root_nodes@).no_duplicates()
}

/// No two edges share an identity, or a parent, child and relation.
pub open spec fn edges_distinct(h: KnowledgeHierarchy) -> bool {
    forall|a: int, b: int| 0 <= a < b < h.edges@.len() ==> {
        let x = #[trigger] h.edges@[a];
        let y = #[trigger] h.edges@[b];
        x.id@ != y.id@ && !(x.parent@ == y.parent@ && x.child@ == y.child@ && x.relation == y.relation)
    }
}

/// An edge joins two distinct nodes; a precedence edge joins artifacts of one concrete kind,
/// and a specialization or exception lies within its parent's scope as far as that is known.
pub open spec fn edge_sound(h: KnowledgeHierarchy, e: KnowledgeHierarchyEdge) -> bool {
    &&& e.parent@ != e.child@
    &&& is_node(h, e.parent@)
    &&& is_node(h, e.child@)
    &&& e.relation != KnowledgeHierarchyRelation::DependsOn ==> {
        let parent = node_at(h, e.parent@);
        let child = node_at(h, e.child@);
        let rel = scope_relation(child.scope.predicates@, parent.scope.predicates@);
        &&& concrete(parent.artifact.kind) == concrete(child.artifact.kind)
        &&& (e.relation == KnowledgeHierarchyRelation::Specializes || e.relation == KnowledgeHierarchyRelation::Excepts)
            ==> !(rel == ScopeRelation::Broader || rel == ScopeRelation::Disjoint || rel == ScopeRelation::Overlapping)
    }
}

/// Some precedence edge enters `k`.
pub open spec fn has_precedence_parent(h: KnowledgeHierarchy, k: Seq<char>) -> bool {
    exists|j: int| 0 <= j < h.edges@.len() && (#[trigger] h.edges@[j]).child@ == k
        && h.edges@[j].relation != KnowledgeHierarchyRelation::DependsOn
}

/// The roots are exactly the nodes without an incoming precedence edge.
pub open spec fn roots_exact(h: KnowledgeHierarchy) -> bool {
    forall|i: int| 0 <= i < node_keys(h).len() ==> has_precedence_parent(h, #[trigger] node_keys(h)[i])
        != string_views(h.root_nodes@).contains(node_keys(h)[i])
}

/// A hierarchy whose precedence can be resolved.
pub open spec fn hierarchy_sound(h: KnowledgeHierarchy) -> bool {
    &&& nodes_sound(h)
    &&& roots_sound(h)
    &&& edges_distinct(h)
    &&& forall|j: int| 0 <= j < h.edges@.len() ==> edge_sound(h, #[trigger] h.edges@[j])
    &&& roots_exact(h)
    &&& acyclic(h, EdgeSelection::Supersession)
    &&& acyclic(h, EdgeSelection::Precedence)
}

pub proof fn lemma_node_at(h: KnowledgeHierarchy, i: int)
    requires
        h.wf(),
        0 <= i < h.nodes@.len(),
    ensures
        node_at(h, h.nodes@[i].0@) == h.nodes@[i].1,
{
    lemma_node_keys_distinct(h);
    let k = h.nodes@[i].0@;
    assert(exists|i: int| 0 <= i < h.nodes@.len() && h.nodes@[i].0@ == k);
    let c = node_pos(h, k);
    assert(0 <= c < h.nodes@.len() && h.nodes@[c].0@ == k);
    assert(node_keys(h)[i] == k);
    if c != i {
        assert(node_keys(h)[c] == k);
    }
}

/// The place of a relation in the edge order.
pub open spec fn relation_rank_spec(r: KnowledgeHierarchyRelation) -> u8 {
    match r {
        KnowledgeHierarchyRelation::Specializes => 0,
        KnowledgeHierarchyRelation::Refines => 1,
        KnowledgeHierarchyRelation::Excepts => 2,
        KnowledgeHierarchyRelation::Supersedes => 3,
        KnowledgeHierarchyRelation::DependsOn => 4,
    }
}

fn relation_rank(r: KnowledgeHierarchyRelation) -> (n: u8)
    ensures
        n < 5,
        n == relation_rank_spec(r),
{
    match r {
        KnowledgeHierarchyRelation::Specializes => 0,
        KnowledgeHierarchyRelation::Refines => 1,
        KnowledgeHierarchyRelation::Excepts => 2,
        KnowledgeHierarchyRelation::Supersedes => 3,
        KnowledgeHierarchyRelation::DependsOn => 4,
    }
}

/// Edge `a` sorts strictly before edge `b` by (parent, child, relation, identity), texts
/// compared by their UTF-8 bytes.
pub open spec fn edge_lt(a: KnowledgeHierarchyEdge, b: KnowledgeHierarchyEdge) -> bool {
    if key_bytes(a.parent@) != key_bytes(b.parent@) {
        bytes_lt(key_bytes(a.parent@), key_bytes(b.parent@))
    } else if key_bytes(a.child@) != key_bytes(b.child@) {
        bytes_lt(key_bytes(a.child@), key_bytes(b.child@))
    } else if relation_rank_spec(a.relation) != relation_rank_spec(b.relation) {
        relation_rank_spec(a.relation) < relation_rank_spec(b.relation)
    } else {
        bytes_lt(key_bytes(a.id@), key_bytes(b.id@))
    }
}

/// Whether edge `a` sorts strictly before edge `b` by (parent, child, relation, identity).
fn edge_before(a: &KnowledgeHierarchyEdge, b: &KnowledgeHierarchyEdge) -> (r: bool)
    ensures
        r == edge_lt(*a, *b),
{
    let c = crate::text::compare_bytes(a.parent.as_str().as_bytes(), b.parent.as_str().as_bytes());
    if c != 0 {
        return c < 0;
    }
    let c = crate::text::compare_bytes(a.child.as_str().as_bytes(), b.child.as_str().as_bytes());
    if c != 0 {
        return c < 0;
    }
    let ra = relation_rank(a.relation);
    let rb = relation_rank(b.relation);
    if ra != rb {
        return ra < rb;
    }
    crate::text::compare_bytes(a.id.as_str().as_bytes(), b.id.as_str().as_bytes()) < 0
}

/// The edges listed in `order` never decrease in edge order.
pub open spec fn edges_sorted(h: KnowledgeHierarchy, order: Seq<usize>) -> bool {
    forall|a: int, b: int| 0 <= a < b < order.len() ==> !edge_lt(
        h.edges@[#[trigger] order[b] as int],
        h.edges@[#[trigger] order[a] as int],
    )
}

proof fn lemma_edge_keys(a: KnowledgeHierarchyEdge, b: KnowledgeHierarchyEdge)
    ensures
        key_bytes(a.parent@) == key_bytes(b.parent@) || bytes_lt(key_bytes(a.parent@), key_bytes(b.parent@)) != bytes_lt(
            key_bytes(b.parent@),
            key_bytes(a.parent@),
        ),
        key_bytes(a.parent@) == key_bytes(b.parent@) ==> !bytes_lt(key_bytes(a.parent@), key_bytes(b.parent@)),
        key_bytes(a.child@) == key_bytes(b.child@) || bytes_lt(key_bytes(a.child@), key_bytes(b.child@)) != bytes_lt(
            key_bytes(b.child@),
            key_bytes(a.child@),
        ),
        key_bytes(a.child@) == key_bytes(b.child@) ==> !bytes_lt(key_bytes(a.child@), key_bytes(b.child@)),
        key_bytes(a.id@) == key_bytes(b.id@) || bytes_lt(key_bytes(a.id@), key_bytes(b.id@)) != bytes_lt(
            key_bytes(b.id@),
            key_bytes(a.id@),
        ),
        key_bytes(a.id@) == key_bytes(b.id@) ==> !bytes_lt(key_bytes(a.id@), key_bytes(b.id@)),
{
    lemma_bytes_lt_trichotomy(key_bytes(a.parent@), key_bytes(b.parent@));
    lemma_bytes_lt_trichotomy(key_bytes(a.child@), key_bytes(b.child@));
    lemma_bytes_lt_trichotomy(key_bytes(a.id@), key_bytes(b.id@));
}

/// The edge order is asymmetric.
proof fn lemma_edge_lt_asym(a: KnowledgeHierarchyEdge, b: KnowledgeHierarchyEdge)
    requires
        edge_lt(a, b),
    ensures
        !edge_lt(b, a),
{
    lemma_edge_keys(a, b);
}

/// A strictly smaller edge stays smaller than anything not below the larger one.
proof fn lemma_edge_lt_chain(a: KnowledgeHierarchyEdge, b: KnowledgeHierarchyEdge, c: KnowledgeHierarchyEdge)
    requires
        edge_lt(a, b),
        !edge_lt(c, b),
    ensures
        edge_lt(a, c),
{
    lemma_edge_keys(a, b);
    lemma_edge_keys(b, c);
    lemma_edge_keys(a, c);
    let (pa, pb, pc) = (key_bytes(a.parent@), key_bytes(b.parent@), key_bytes(c.parent@));
    let (ca, cb, cc) = (key_bytes(a.child@), key_bytes(b.child@), key_bytes(c.child@));
    let (ia, ib, ic) = (key_bytes(a.id@), key_bytes(b.id@), key_bytes(c.id@));
    if bytes_lt(pa, pb) && bytes_lt(pb, pc) {
        lemma_bytes_lt_transitive(pa, pb, pc);
    }
    if bytes_lt(ca, cb) && bytes_lt(cb, cc) {
        lemma_bytes_lt_transitive(ca, cb, cc);
    }
    if bytes_lt(ia, ib) && bytes_lt(ib, ic) {
        lemma_bytes_lt_transitive(ia, ib, ic);
    }
}

/// `order` lists every edge index once.
pub open spec fn edge_listing(h: KnowledgeHierarchy, order: Seq<usize>) -> bool {
    &&& order.len() == h.edges@.len()
    &&& order.no_duplicates()
    &&& forall|q: int| 0 <= q < order.len() ==> #[trigger] order[q] < h.edges@.len()
    &&& forall|j: int| 0 <= j < h.edges@.len() ==> #[trigger] order.contains(j as usize)
}

/// Edge indices that list every edge once, in (parent, child, relation, identity) order,
/// input order among equals.
pub fn edge_order(h: &KnowledgeHierarchy) -> (order: Vec<usize>)
    ensures
        edge_listing(*h, order@),
        edges_sorted(*h, order@),
        order@.len() == h.edges@.len(),
        order@.no_duplicates(),
        forall|q: int| 0 <= q < order@.len() ==> #[trigger] order@[q] < h.edges@.len(),
        forall|j: int| 0 <= j < h.edges@.len() ==> #[trigger] order@.contains(j as usize),
{
    let mut order: Vec<usize> = Vec::new();
    let mut i: usize = 0;
    while i < h.edges.len()
        invariant
            i <= h.edges@.len(),
            order@.len() == i,
            order@.no_duplicates(),
            forall|q: int| 0 <= q < order@.len() ==> #[trigger] order@[q] < i,
            forall|j: int| 0 <= j < i ==> #[trigger] order@.contains(j as usize),
            edges_sorted(*h, order@),
        decreases h.edges.len() - i,
    {
        let mut p: usize = 0;
        while p < order.len() && !edge_before(&h.edges[i], &h.edges[order[p]])
            invariant
                p <= order@.len(),
                i < h.edges@.len(),
                forall|q: int| 0 <= q < order@.len() ==> #[trigger] order@[q] < i,
                forall|q: int| 0 <= q < p ==> !edge_lt(h.edges@[i as int], h.edges@[#[trigger] order@[q] as int]),
            decreases order.len() - p,
        {
            p = p + 1;
        }
        let ghost before = order@;
        order.insert(p, i);
        proof {
            let ei = h.edges@[i as int];
            assert forall|a: int, b: int| 0 <= a < b < order@.len() implies !edge_lt(
                h.edges@[#[trigger] order@[b] as int],
                h.edges@[#[trigger] order@[a] as int],
            ) by {
                if a < p && b < p {
                    assert(order@[a] == before[a] && order@[b] == before[b]);
                } else if a > p {
                    assert(order@[a] == before[a - 1] && order@[b] == before[b - 1]);
                } else if a < p && b > p {
                    assert(order@[a] == before[a] && order@[b] == before[b - 1]);
                } else if a == p {
                    assert(order@[b] == before[b - 1]);
                    let eb = h.edges@[before[b - 1] as int];
                    let ep = h.edges@[before[p as int] as int];
                    assert(edge_lt(ei, ep));
                    if b - 1 > p {
                        assert(!edge_lt(eb, ep));
                        lemma_edge_lt_chain(ei, ep, eb);
                    }
                    lemma_edge_lt_asym(ei, eb);
                } else {
                    assert(b == p);
                    assert(order@[a] == before[a]);
                }
            }
            assert(order@ == before.insert(p as int, i));
            assert forall|a: int, b: int| 0 <= a < order@.len() && 0 <= b < order@.len() && a != b
                implies order@[a] != order@[b] by {
                if a != p && b != p {
                    let a0 = if a < p { a } else { a - 1 };
                    let b0 = if b < p { b } else { b - 1 };
                    assert(order@[a] == before[a0]);
                    assert(order@[b] == before[b0]);
                } else if a == p {
                    let b0 = if b < p { b } else { b - 1 };
                    assert(order@[b] == before[b0]);
                } else {
                    let a0 = if a < p { a } else { a - 1 };
                    assert(order@[a] == before[a0]);
                }
            }
            assert forall|q: int| 0 <= q < order@.len() implies #[trigger] order@[q] < i + 1 by {
                if q < p {
                    assert(order@[q] == before[q]);
                } else if q > p {
                    assert(order@[q] == before[q - 1]);
                }
            }
            assert forall|j: int| 0 <= j < i + 1 implies #[trigger] order@.contains(j as usize) by {
                if j == i {
                    assert(order@[p as int] == i);
                } else {
                    assert(before.contains(j as usize));
                    let q = choose|q: int| 0 <= q < before.len() && before[q] == j as usize;
                    if q < p {
                        assert(order@[q] == before[q]);
                    } else {
                        assert(order@[q + 1] == before[q]);
                    }
                }
            }
        }
        i = i + 1;
    }
    order
}

/// The kinds of a list of issues, in order.
pub open spec fn issue_kinds(s: Seq<HierarchyValidationIssue>) -> Seq<HierarchyValidationIssueKind> {
    s.map_values(|i: HierarchyValidationIssue| i.kind)
}

/// The kinds of the issues after the first `start`.
pub open spec fn kinds_added(s: Seq<HierarchyValidationIssue>, start: int) -> Seq<HierarchyValidationIssueKind> {
    issue_kinds(s.subrange(start, s.len() as int))
}

/// A scope relation that leaves a child outside its parent.
pub open spec fn outside_parent(rel: ScopeRelation) -> bool {
    rel == ScopeRelation::Broader || rel == ScopeRelation::Disjoint || rel == ScopeRelation::Overlapping
}

/// Edge `e` is reported with `kind`: joining a node to itself, missing an endpoint, joining
/// artifacts of different kinds by precedence, or specializing or excepting outside the
/// parent's scope.
pub open spec fn edge_fault(h: KnowledgeHierarchy, e: KnowledgeHierarchyEdge, kind: HierarchyValidationIssueKind) -> bool {
    let both = is_node(h, e.parent@) && is_node(h, e.child@);
    let rel = scope_relation(node_at(h, e.child@).scope.predicates@, node_at(h, e.parent@).scope.predicates@);
    match kind {
        HierarchyValidationIssueKind::SelfReference => e.parent@ == e.child@,
        HierarchyValidationIssueKind::MissingNode => !both,
        HierarchyValidationIssueKind::IncompatibleArtifactKinds => both && e.relation != KnowledgeHierarchyRelation::DependsOn
            && concrete(node_at(h, e.parent@).artifact.kind) != concrete(node_at(h, e.child@).artifact.kind),
        HierarchyValidationIssueKind::InvalidSpecializationScope => both && e.relation
            == KnowledgeHierarchyRelation::Specializes && outside_parent(rel),
        HierarchyValidationIssueKind::InvalidExceptionScope => both && e.relation == KnowledgeHierarchyRelation::Excepts
            && outside_parent(rel),
        _ => false,
    }
}

/// Some edge is reported with `kind`.
pub open spec fn some_edge_fault(h: KnowledgeHierarchy, kind: HierarchyValidationIssueKind) -> bool {
    exists|j: int| 0 <= j < h.edges@.len() && edge_fault(h, #[trigger] h.edges@[j], kind)
}

/// Some root names no node.
pub open spec fn root_missing(h: KnowledgeHierarchy) -> bool {
    exists|r: int| 0 <= r < h.root_nodes@.len() && !is_node(h, (#[trigger] h.root_nodes@[r])@)
}

/// What an error of each kind other than an orphaned reference reports: a cycle of
/// precedence, a cycle of supersession, a missing root or edge endpoint, or a fault of some
/// edge.
pub open spec fn error_cause(h: KnowledgeHierarchy, kind: HierarchyValidationIssueKind) -> bool {
    match kind {
        HierarchyValidationIssueKind::Cycle => !acyclic(h, EdgeSelection::Precedence),
        HierarchyValidationIssueKind::SupersessionCycle => !acyclic(h, EdgeSelection::Supersession),
        HierarchyValidationIssueKind::MissingNode => root_missing(h) || some_edge_fault(h, kind),
        _ => some_edge_fault(h, kind),
    }
}

/// The issue names exactly the nodes that the drain order over `sel` never reaches.
pub open spec fn names_undrained(h: KnowledgeHierarchy, sel: EdgeSelection, i: HierarchyValidationIssue) -> bool {
    exists|d: Seq<Seq<char>>| drain_order(h, sel, d) && string_views(i.nodes@) == keys_missing(node_keys(h), d)
}

pub proof fn lemma_kinds_push(s: Seq<HierarchyValidationIssue>, start: int, x: HierarchyValidationIssue)
    requires
        0 <= start <= s.len(),
    ensures
        kinds_added(s.push(x), start) == kinds_added(s, start).push(x.kind),
        s.push(x).subrange(0, start) == s.subrange(0, start),
{
    assert(s.push(x).subrange(start, s.len() + 1 as int) =~= s.subrange(start, s.len() as int).push(x));
    assert(kinds_added(s.push(x), start) =~= kinds_added(s, start).push(x.kind));
    assert(s.push(x).subrange(0, start) =~= s.subrange(0, start));
}

pub proof fn lemma_push_kind(s: Seq<HierarchyValidationIssue>, start: int, x: HierarchyValidationIssue)
    requires
        0 <= start <= s.len(),
    ensures
        forall|k: HierarchyValidationIssueKind| #[trigger] kinds_added(s.push(x), start).contains(k) == (kinds_added(
            s,
            start,
        ).contains(k) || x.kind == k),
        s.push(x).subrange(0, start) == s.subrange(0, start),
{
    lemma_kinds_push(s, start, x);
    assert forall|k: HierarchyValidationIssueKind| #[trigger] kinds_added(s.push(x), start).contains(k) == (kinds_added(
        s,
        start,
    ).contains(k) || x.kind == k) by {
        lemma_seq_contains_push(kinds_added(s, start), x.kind, k);
    }
}

/// The kinds of a list split at `a`: those before and those after.
pub proof fn lemma_kinds_split(s: Seq<HierarchyValidationIssue>, a: int, k: HierarchyValidationIssueKind)
    requires
        0 <= a <= s.len(),
    ensures
        issue_kinds(s).contains(k) == (issue_kinds(s.subrange(0, a)).contains(k) || kinds_added(s, a).contains(k)),
{
    assert(issue_kinds(s) =~= issue_kinds(s.subrange(0, a)) + kinds_added(s, a));
    lemma_seq_contains_concat(issue_kinds(s.subrange(0, a)), kinds_added(s, a), k);
}

/// An issue of the first `a` of `s` is one of `prev`, where `s` extends `prev`.
/// `js` lists selected edges that close a walk: each edge's child is the next edge's parent,
/// and the last edge's child is the first edge's parent.
pub open spec fn selected_cycle(h: KnowledgeHierarchy, sel: EdgeSelection, js: Seq<int>) -> bool {
    &&& js.len() > 0
    &&& forall|t: int| 0 <= t < js.len() ==> #[trigger] cycle_step(h, sel, js, t)
}

/// Edge `js[t]` is selected and leads to the parent of the next edge of the walk.
pub open spec fn cycle_step(h: KnowledgeHierarchy, sel: EdgeSelection, js: Seq<int>, t: int) -> bool {
    &&& 0 <= js[t] < h.edges@.len()
    &&& counted(h, sel, h.edges@[js[t]])
    &&& h.edges@[js[t]].child@ == h.edges@[js[(t + 1) % (js.len() as int)]].parent@
}

proof fn lemma_cycle_prefix_clean(h: KnowledgeHierarchy, sel: EdgeSelection, d: Seq<Seq<char>>, js: Seq<int>, a: int)
    requires
        drain_order(h, sel, d),
        selected_cycle(h, sel, js),
        0 <= a <= d.len(),
    ensures
        forall|b: int, t: int| 0 <= b < a && 0 <= t < js.len() ==> #[trigger] d[b] != h.edges@[#[trigger] js[t]].child@,
    decreases a,
{
    if a > 0 {
        lemma_cycle_prefix_clean(h, sel, d, js, a - 1);
        let m = js.len() as int;
        assert forall|b: int, t: int| 0 <= b < a && 0 <= t < m implies #[trigger] d[b] != h.edges@[#[trigger] js[t]].child@ by {
            if b == a - 1 && d[b] == h.edges@[js[t]].child@ {
                let u = if t == 0 { m - 1 } else { t - 1 };
                assert((u + 1) % m == t) by {
                    if t == 0 {
                        assert((m - 1 + 1) % m == 0) by (nonlinear_arith)
                            requires
                                m > 0,
                        ;
                    } else {
                        assert((t - 1 + 1) % m == t) by (nonlinear_arith)
                            requires
                                0 < t < m,
                        ;
                    }
                }
                assert(cycle_step(h, sel, js, u));
                assert(cycle_step(h, sel, js, t));
                assert(h.edges@[js[u]].child@ == h.edges@[js[t]].parent@);
                assert(least_next(h, sel, d.subrange(0, b), d[b]));
                reveal(least_next);
                let i = choose|i: int|
                    0 <= i < node_keys(h).len() && node_keys(h)[i] == d[b] && #[trigger] next_candidate(h, sel, d.subrange(0, b), i)
                        && forall|i2: int| 0 <= i2 < i ==> !#[trigger] next_candidate(h, sel, d.subrange(0, b), i2);
                assert(ready_after(h, sel, d.subrange(0, b), d[b]));
                assert(counted(h, sel, h.edges@[js[t]]));
                assert(d.subrange(0, b).contains(h.edges@[js[t]].parent@));
                let c = choose|c: int| 0 <= c < b && d.subrange(0, b)[c] == h.edges@[js[t]].parent@;
                assert(d[c] == h.edges@[js[u]].child@);
            }
        }
    }
}

/// Nodes on a cycle of selected edges never drain.
pub proof fn lemma_cycle_never_drains(h: KnowledgeHierarchy, sel: EdgeSelection, d: Seq<Seq<char>>, js: Seq<int>)
    requires
        drain_order(h, sel, d),
        selected_cycle(h, sel, js),
    ensures
        forall|t: int| 0 <= t < js.len() ==> !d.contains(h.edges@[#[trigger] js[t]].child@),
{
    lemma_cycle_prefix_clean(h, sel, d, js, d.len() as int);
}

proof fn lemma_keys_missing_contains(keys: Seq<Seq<char>>, done: Seq<Seq<char>>, k: Seq<char>)
    requires
        keys.contains(k),
        !done.contains(k),
    ensures
        keys_missing(keys, done).contains(k),
    decreases keys.len(),
{
    let prev = keys_missing(keys.drop_last(), done);
    if keys.last() == k {
        assert(keys_missing(keys, done) == prev + seq![k]);
        assert((prev + seq![k])[prev.len() as int] == k);
    } else {
        let w = choose|w: int| 0 <= w < keys.len() && keys[w] == k;
        assert(keys.drop_last()[w] == k);
        lemma_keys_missing_contains(keys.drop_last(), done, k);
        let v = choose|v: int| 0 <= v < prev.len() && prev[v] == k;
        assert(keys_missing(keys, done)[v] == k);
    }
}

/// A cycle is reported by the nodes it passes: an issue naming the nodes that never drain
/// over `sel` names every node of a cycle of selected edges.
pub proof fn lemma_cycle_issue_names_cycle(h: KnowledgeHierarchy, sel: EdgeSelection, i: HierarchyValidationIssue, js: Seq<int>)
    requires
        names_undrained(h, sel, i),
        selected_cycle(h, sel, js),
    ensures
        forall|t: int| 0 <= t < js.len() ==> string_views(i.nodes@).contains(h.edges@[#[trigger] js[t]].child@),
{
    let d = choose|d: Seq<Seq<char>>| drain_order(h, sel, d) && string_views(i.nodes@) == keys_missing(node_keys(h), d);
    lemma_cycle_never_drains(h, sel, d, js);
    let m = js.len() as int;
    assert forall|t: int| 0 <= t < m implies string_views(i.nodes@).contains(h.edges@[#[trigger] js[t]].child@) by {
        let n = (t + 1) % m;
        assert(0 <= n < m) by (nonlinear_arith)
            requires
                m > 0,
                n == (t + 1) % m,
        ;
        assert(cycle_step(h, sel, js, n));
        assert(cycle_step(h, sel, js, t));
        assert(counted(h, sel, h.edges@[js[n]]));
        assert(h.edges@[js[t]].child@ == h.edges@[js[n]].parent@);
        lemma_keys_missing_contains(node_keys(h), d, h.edges@[js[t]].child@);
    }
}

/// The position of `k` in `ord`.
pub open spec fn pos_of(ord: Seq<Seq<char>>, k: Seq<char>) -> int {
    choose|a: int| 0 <= a < ord.len() && ord[a] == k
}

/// A counted edge between nodes goes forward in a forward order.
proof fn lemma_forward_edge(h: KnowledgeHierarchy, sel: EdgeSelection, ord: Seq<Seq<char>>, j: int)
    requires
        forward_order(h, sel, ord),
        0 <= j < h.edges@.len(),
        counted(h, sel, h.edges@[j]),
        is_node(h, h.edges@[j].child@),
    ensures
        pos_of(ord, h.edges@[j].parent@) < pos_of(ord, h.edges@[j].child@),
        0 <= pos_of(ord, h.edges@[j].child@) < ord.len(),
        0 <= pos_of(ord, h.edges@[j].parent@) < ord.len(),
{
    let e = h.edges@[j];
    assert(ord.contains(e.parent@));
    assert(ord.contains(e.child@));
    let a = pos_of(ord, e.parent@);
    let b = pos_of(ord, e.child@);
    assert(ord[a] == e.parent@ && ord[b] == e.child@);
}

/// Along a cycle, each node after the first comes later in a forward order.
proof fn lemma_cycle_order(h: KnowledgeHierarchy, sel: EdgeSelection, ord: Seq<Seq<char>>, js: Seq<int>, t: int)
    requires
        forward_order(h, sel, ord),
        selected_cycle(h, sel, js),
        1 <= t < js.len(),
        forall|u: int| 0 <= u < js.len() ==> is_node(h, h.edges@[#[trigger] js[u]].child@),
    ensures
        pos_of(ord, h.edges@[js[0]].child@) < pos_of(ord, h.edges@[js[t]].child@),
    decreases t,
{
    let m = js.len() as int;
    if t > 1 {
        lemma_cycle_order(h, sel, ord, js, t - 1);
    }
    assert((t - 1 + 1) % m == t) by (nonlinear_arith)
        requires
            0 < t < m,
    ;
    assert(cycle_step(h, sel, js, t - 1));
    assert(cycle_step(h, sel, js, t));
    assert(h.edges@[js[t - 1]].child@ == h.edges@[js[t]].parent@);
    assert(counted(h, sel, h.edges@[js[t]]));
    assert(is_node(h, h.edges@[js[t]].child@));
    lemma_forward_edge(h, sel, ord, js[t]);
}

/// Every node a cycle passes is a node of the hierarchy.
proof fn lemma_cycle_nodes(h: KnowledgeHierarchy, sel: EdgeSelection, js: Seq<int>)
    requires
        selected_cycle(h, sel, js),
    ensures
        forall|u: int| 0 <= u < js.len() ==> is_node(h, h.edges@[#[trigger] js[u]].child@),
        h.edges@[js[js.len() - 1]].child@ == h.edges@[js[0]].parent@,
{
    let m = js.len() as int;
    assert forall|t: int| 0 <= t < m implies is_node(h, h.edges@[#[trigger] js[t]].child@) by {
        let n = (t + 1) % m;
        assert(0 <= n < m) by (nonlinear_arith)
            requires
                m > 0,
                n == (t + 1) % m,
        ;
        assert(cycle_step(h, sel, js, n));
        assert(cycle_step(h, sel, js, t));
        assert(counted(h, sel, h.edges@[js[n]]));
        assert(h.edges@[js[t]].child@ == h.edges@[js[n]].parent@);
    }
    assert(cycle_step(h, sel, js, m - 1));
    assert((m - 1 + 1) % m == 0) by (nonlinear_arith)
        requires
            m > 0,
    ;
    assert(h.edges@[js[m - 1]].child@ == h.edges@[js[(m - 1 + 1) % m]].parent@);
}

#[verifier::rlimit(40)]
proof fn lemma_cycle_no_order(h: KnowledgeHierarchy, sel: EdgeSelection, ord: Seq<Seq<char>>, js: Seq<int>)
    requires
        selected_cycle(h, sel, js),
    ensures
        !forward_order(h, sel, ord),
{
    if forward_order(h, sel, ord) {
        lemma_cycle_nodes(h, sel, js);
        let m = js.len() as int;
        let c0 = h.edges@[js[0]].child@;
        let p0 = h.edges@[js[0]].parent@;
        let cl = h.edges@[js[m - 1]].child@;
        assert(cycle_step(h, sel, js, 0));
        assert(cl == p0);
        assert(counted(h, sel, h.edges@[js[0]]));
        lemma_forward_edge(h, sel, ord, js[0]);
        assert(pos_of(ord, p0) < pos_of(ord, c0));
        if m > 1 {
            lemma_cycle_order(h, sel, ord, js, m - 1);
            assert(pos_of(ord, c0) < pos_of(ord, cl));
        } else {
            assert(cl == c0);
        }
        assert(pos_of(ord, cl) == pos_of(ord, p0));
    }
}

/// A cycle of selected edges leaves them without an order.
pub proof fn lemma_cycle_not_acyclic(h: KnowledgeHierarchy, sel: EdgeSelection, js: Seq<int>)
    requires
        selected_cycle(h, sel, js),
    ensures
        !acyclic(h, sel),
{
    if acyclic(h, sel) {
        let ord = choose|ord: Seq<Seq<char>>| forward_order(h, sel, ord);
        lemma_cycle_no_order(h, sel, ord, js);
    }
}

/// What validation reports of `h`.
pub open spec fn validation_reports(h: KnowledgeHierarchy, r: KnowledgeHierarchyValidationReport) -> bool {
    &&& r.valid == (r.errors@.len() == 0)
    &&& r.valid == hierarchy_sound(h)
    &&& forall|k: HierarchyValidationIssueKind| k != HierarchyValidationIssueKind::OrphanedReference ==> #[trigger] issue_kinds(
        r.errors@,
    ).contains(k) == error_cause(h, k)
    &&& forall|x: int| 0 <= x < r.errors@.len() && (#[trigger] r.errors@[x]).kind == HierarchyValidationIssueKind::Cycle
        ==> names_undrained(h, EdgeSelection::Precedence, r.errors@[x])
    &&& forall|x: int| 0 <= x < r.errors@.len() && (#[trigger] r.errors@[x]).kind == HierarchyValidationIssueKind::SupersessionCycle
        ==> names_undrained(h, EdgeSelection::Supersession, r.errors@[x])
}

/// A cycle of precedence is reported: the hierarchy is invalid and an error of kind cycle
/// names every node on it.
pub proof fn lemma_cycle_reported(h: KnowledgeHierarchy, r: KnowledgeHierarchyValidationReport, js: Seq<int>)
    requires
        validation_reports(h, r),
        selected_cycle(h, EdgeSelection::Precedence, js),
    ensures
        !r.valid,
        exists|x: int| 0 <= x < r.errors@.len() && (#[trigger] r.errors@[x]).kind == HierarchyValidationIssueKind::Cycle
            && forall|t: int| 0 <= t < js.len() ==> string_views(r.errors@[x].nodes@).contains(h.edges@[#[trigger] js[t]].child@),
{
    lemma_cycle_not_acyclic(h, EdgeSelection::Precedence, js);
    assert(issue_kinds(r.errors@).contains(HierarchyValidationIssueKind::Cycle));
    let x = choose|x: int| 0 <= x < issue_kinds(r.errors@).len() && issue_kinds(r.errors@)[x] == HierarchyValidationIssueKind::Cycle;
    assert(r.errors@[x].kind == HierarchyValidationIssueKind::Cycle);
    lemma_cycle_issue_names_cycle(h, EdgeSelection::Precedence, r.errors@[x], js);
}

/// Two reports on one hierarchy agree: on whether it is valid, on which kinds of error
/// (other than orphaned references) they raise, and on the nodes that each cycle error names.
pub proof fn lemma_reports_agree(
    h: KnowledgeHierarchy,
    r1: KnowledgeHierarchyValidationReport,
    r2: KnowledgeHierarchyValidationReport,
    x1: int,
    x2: int,
)
    requires
        validation_reports(h, r1),
        validation_reports(h, r2),
    ensures
        r1.valid == r2.valid,
        forall|k: HierarchyValidationIssueKind| k != HierarchyValidationIssueKind::OrphanedReference ==> #[trigger] issue_kinds(
            r1.errors@,
        ).contains(k) == issue_kinds(r2.errors@).contains(k),
        0 <= x1 < r1.errors@.len() && 0 <= x2 < r2.errors@.len() && r1.errors@[x1].kind == r2.errors@[x2].kind && (
        r1.errors@[x1].kind == HierarchyValidationIssueKind::Cycle || r1.errors@[x1].kind
            == HierarchyValidationIssueKind::SupersessionCycle) ==> string_views(r1.errors@[x1].nodes@) == string_views(
            r2.errors@[x2].nodes@),
{
    assert forall|k: HierarchyValidationIssueKind| k != HierarchyValidationIssueKind::OrphanedReference implies #[trigger] issue_kinds(
        r1.errors@,
    ).contains(k) == issue_kinds(r2.errors@).contains(k) by {
        assert(issue_kinds(r1.errors@).contains(k) == error_cause(h, k));
        assert(issue_kinds(r2.errors@).contains(k) == error_cause(h, k));
    }
    if 0 <= x1 < r1.errors@.len() && 0 <= x2 < r2.errors@.len() && r1.errors@[x1].kind == r2.errors@[x2].kind && (
    r1.errors@[x1].kind == HierarchyValidationIssueKind::Cycle || r1.errors@[x1].kind
        == HierarchyValidationIssueKind::SupersessionCycle) {
        let sel = if r1.errors@[x1].kind == HierarchyValidationIssueKind::Cycle {
            EdgeSelection::Precedence
        } else {
            EdgeSelection::Supersession
        };
        assert(names_undrained(h, sel, r1.errors@[x1]));
        assert(names_undrained(h, sel, r2.errors@[x2]));
        let d1 = choose|d: Seq<Seq<char>>| drain_order(h, sel, d) && string_views(r1.errors@[x1].nodes@) == keys_missing(node_keys(h), d);
        let d2 = choose|d: Seq<Seq<char>>| drain_order(h, sel, d) && string_views(r2.errors@[x2].nodes@) == keys_missing(node_keys(h), d);
        lemma_drain_unique(h, sel, d1, d2);
    }
}

/// Two hierarchies with the same nodes and the same edges, in any order.
pub open spec fn same_but_edge_order(h: KnowledgeHierarchy, h2: KnowledgeHierarchy) -> bool {
    &&& h2.nodes@ == h.nodes@
    &&& forall|e: KnowledgeHierarchyEdge| h.edges@.contains(e) <==> h2.edges@.contains(e)
}

proof fn lemma_ready_same(h: KnowledgeHierarchy, h2: KnowledgeHierarchy, sel: EdgeSelection, done: Seq<Seq<char>>, k: Seq<char>)
    requires
        same_but_edge_order(h, h2),
    ensures
        ready_after(h, sel, done, k) == ready_after(h2, sel, done, k),
{
    assert(node_keys(h) =~= node_keys(h2));
    if ready_after(h, sel, done, k) {
        assert forall|j: int| 0 <= j < h2.edges@.len() && counted(h2, sel, #[trigger] h2.edges@[j]) && h2.edges@[j].child@ == k
            implies done.contains(h2.edges@[j].parent@) by {
            assert(h2.edges@.contains(h2.edges@[j]));
            let q = choose|q: int| 0 <= q < h.edges@.len() && h.edges@[q] == h2.edges@[j];
            assert(counted(h, sel, h.edges@[q]));
        }
    }
    if ready_after(h2, sel, done, k) {
        assert forall|j: int| 0 <= j < h.edges@.len() && counted(h, sel, #[trigger] h.edges@[j]) && h.edges@[j].child@ == k
            implies done.contains(h.edges@[j].parent@) by {
            assert(h.edges@.contains(h.edges@[j]));
            let q = choose|q: int| 0 <= q < h2.edges@.len() && h2.edges@[q] == h.edges@[j];
            assert(counted(h2, sel, h2.edges@[q]));
        }
    }
}

proof fn lemma_drain_same(h: KnowledgeHierarchy, h2: KnowledgeHierarchy, sel: EdgeSelection, out: Seq<Seq<char>>)
    requires
        same_but_edge_order(h, h2),
        drain_order(h2, sel, out),
    ensures
        drain_order(h, sel, out),
{
    assert(node_keys(h) =~= node_keys(h2));
    assert forall|done: Seq<Seq<char>>, i: int| #[trigger] next_candidate(h, sel, done, i) == next_candidate(h2, sel, done, i) by {
        lemma_ready_same(h, h2, sel, done, node_keys(h)[i]);
    }
    reveal(least_next);
    assert forall|a: int| 0 <= a < out.len() implies least_next(h, sel, out.subrange(0, a), #[trigger] out[a]) by {
        let done = out.subrange(0, a);
        assert(least_next(h2, sel, done, out[a]));
        let i = choose|i: int|
            0 <= i < node_keys(h2).len() && node_keys(h2)[i] == out[a] && #[trigger] next_candidate(h2, sel, done, i)
                && forall|i2: int| 0 <= i2 < i ==> !#[trigger] next_candidate(h2, sel, done, i2);
        assert(next_candidate(h, sel, done, i) == next_candidate(h2, sel, done, i));
        assert forall|i2: int| 0 <= i2 < i implies !#[trigger] next_candidate(h, sel, done, i2) by {
            assert(next_candidate(h, sel, done, i2) == next_candidate(h2, sel, done, i2));
        }
    }
    assert forall|i: int| 0 <= i < node_keys(h).len() implies !#[trigger] next_candidate(h, sel, out, i) by {
        assert(next_candidate(h, sel, out, i) == next_candidate(h2, sel, out, i));
    }
}

proof fn lemma_least_next_unique(h: KnowledgeHierarchy, sel: EdgeSelection, done: Seq<Seq<char>>, k1: Seq<char>, k2: Seq<char>)
    requires
        least_next(h, sel, done, k1),
        least_next(h, sel, done, k2),
    ensures
        k1 == k2,
{
    reveal(least_next);
    let i1 = choose|i: int|
        0 <= i < node_keys(h).len() && node_keys(h)[i] == k1 && #[trigger] next_candidate(h, sel, done, i)
            && forall|i2: int| 0 <= i2 < i ==> !#[trigger] next_candidate(h, sel, done, i2);
    let i2 = choose|i: int|
        0 <= i < node_keys(h).len() && node_keys(h)[i] == k2 && #[trigger] next_candidate(h, sel, done, i)
            && forall|i3: int| 0 <= i3 < i ==> !#[trigger] next_candidate(h, sel, done, i3);
    if i1 < i2 {
        assert(!next_candidate(h, sel, done, i1));
    } else if i2 < i1 {
        assert(!next_candidate(h, sel, done, i2));
    }
}

proof fn lemma_drain_prefix_equal(h: KnowledgeHierarchy, sel: EdgeSelection, o1: Seq<Seq<char>>, o2: Seq<Seq<char>>, a: int)
    requires
        drain_order(h, sel, o1),
        drain_order(h, sel, o2),
        0 <= a <= o1.len(),
        a <= o2.len(),
    ensures
        o1.subrange(0, a) == o2.subrange(0, a),
    decreases a,
{
    if a > 0 {
        lemma_drain_prefix_equal(h, sel, o1, o2, a - 1);
        assert(least_next(h, sel, o1.subrange(0, a - 1), o1[a - 1]));
        assert(least_next(h, sel, o2.subrange(0, a - 1), o2[a - 1]));
        lemma_least_next_unique(h, sel, o1.subrange(0, a - 1), o1[a - 1], o2[a - 1]);
        assert(o1.subrange(0, a) =~= o1.subrange(0, a - 1).push(o1[a - 1]));
        assert(o2.subrange(0, a) =~= o2.subrange(0, a - 1).push(o2[a - 1]));
    }
}

/// There is one drain order.
pub proof fn lemma_drain_unique(h: KnowledgeHierarchy, sel: EdgeSelection, o1: Seq<Seq<char>>, o2: Seq<Seq<char>>)
    requires
        drain_order(h, sel, o1),
        drain_order(h, sel, o2),
    ensures
        o1 == o2,
{
    if o1.len() < o2.len() {
        lemma_drain_prefix_equal(h, sel, o1, o2, o1.len() as int);
        assert(o1.subrange(0, o1.len() as int) =~= o1);
        let a = o1.len() as int;
        assert(least_next(h, sel, o2.subrange(0, a), o2[a]));
        reveal(least_next);
        let i = choose|i: int|
            0 <= i < node_keys(h).len() && node_keys(h)[i] == o2[a] && #[trigger] next_candidate(h, sel, o2.subrange(0, a), i)
                && forall|i2: int| 0 <= i2 < i ==> !#[trigger] next_candidate(h, sel, o2.subrange(0, a), i2);
        assert(next_candidate(h, sel, o1, i));
    } else if o2.len() < o1.len() {
        lemma_drain_prefix_equal(h, sel, o1, o2, o2.len() as int);
        assert(o2.subrange(0, o2.len() as int) =~= o2);
        let a = o2.len() as int;
        assert(least_next(h, sel, o1.subrange(0, a), o1[a]));
        reveal(least_next);
        let i = choose|i: int|
            0 <= i < node_keys(h).len() && node_keys(h)[i] == o1[a] && #[trigger] next_candidate(h, sel, o1.subrange(0, a), i)
                && forall|i2: int| 0 <= i2 < i ==> !#[trigger] next_candidate(h, sel, o1.subrange(0, a), i2);
        assert(next_candidate(h, sel, o2, i));
    } else {
        lemma_drain_prefix_equal(h, sel, o1, o2, o1.len() as int);
        assert(o1.subrange(0, o1.len() as int) =~= o1);
        assert(o2.subrange(0, o2.len() as int) =~= o2);
    }
}

/// The drain order does not depend on the order in which the edges are listed: two
/// hierarchies that differ only in that order drain alike.
pub proof fn lemma_drain_edge_order_free(
    h: KnowledgeHierarchy,
    h2: KnowledgeHierarchy,
    sel: EdgeSelection,
    o1: Seq<Seq<char>>,
    o2: Seq<Seq<char>>,
)
    requires
        same_but_edge_order(h, h2),
        drain_order(h, sel, o1),
        drain_order(h2, sel, o2),
    ensures
        o1 == o2,
{
    lemma_drain_same(h, h2, sel, o2);
    lemma_drain_unique(h, sel, o1, o2);
}

pub proof fn lemma_issue_in_prefix(s: Seq<HierarchyValidationIssue>, prev: Seq<HierarchyValidationIssue>, a: int, x: int)
    requires
        0 <= x < a <= s.len(),
        s.subrange(0, a) == prev,
    ensures
        s[x] == prev[x],
{
    assert(s.subrange(0, a)[x] == s[x]);
}

/// An issue at `x` in a segment `[a, seg.len())` of `seg`, seen in `whole` that extends
/// `seg`, has a kind that the segment reports.
pub proof fn lemma_segment_kind(seg: Seq<HierarchyValidationIssue>, a: int, x: int, whole: Seq<HierarchyValidationIssue>)
    requires
        0 <= a,
        seg.len() <= whole.len(),
        whole.subrange(0, seg.len() as int) == seg,
    ensures
        a <= x < seg.len() ==> kinds_added(seg, a).contains(whole[x].kind),
{
    if a <= x < seg.len() {
        assert(whole.subrange(0, seg.len() as int)[x] == whole[x]);
        assert(kinds_added(seg, a)[x - a] == seg[x].kind);
    }
}

pub proof fn lemma_prefix_trans(whole: Seq<HierarchyValidationIssue>, mid: Seq<HierarchyValidationIssue>, seg: Seq<HierarchyValidationIssue>)
    requires
        mid.len() <= whole.len(),
        seg.len() <= mid.len(),
        whole.subrange(0, mid.len() as int) == mid,
        mid.subrange(0, seg.len() as int) == seg,
    ensures
        whole.subrange(0, seg.len() as int) == seg,
{
    assert(whole.subrange(0, seg.len() as int) =~= mid.subrange(0, seg.len() as int));
}

pub proof fn lemma_seq_contains_push<A>(s: Seq<A>, a: A, x: A)
    ensures
        s.push(a).contains(x) == (s.contains(x) || a == x),
{
    if s.contains(x) {
        let w = choose|w: int| 0 <= w < s.len() && s[w] == x;
        assert(s.push(a)[w] == x);
    }
    if a == x {
        assert(s.push(a)[s.len() as int] == x);
    }
    if s.push(a).contains(x) {
        let w = choose|w: int| 0 <= w < s.push(a).len() && s.push(a)[w] == x;
        if w < s.len() {
            assert(s[w] == x);
        }
    }
}

pub proof fn lemma_seq_contains_concat<A>(a: Seq<A>, b: Seq<A>, x: A)
    ensures
        (a + b).contains(x) == (a.contains(x) || b.contains(x)),
{
    if a.contains(x) {
        let w = choose|w: int| 0 <= w < a.len() && a[w] == x;
        assert((a + b)[w] == x);
    }
    if b.contains(x) {
        let w = choose|w: int| 0 <= w < b.len() && b[w] == x;
        assert((a + b)[a.len() + w] == x);
    }
    if (a + b).contains(x) {
        let w = choose|w: int| 0 <= w < (a + b).len() && (a + b)[w] == x;
        if w < a.len() {
            assert(a[w] == x);
        } else {
            assert(b[w - a.len()] == x);
        }
    }
}

fn make_issue(kind: HierarchyValidationIssueKind, message: &str, nodes: Vec<String>) -> (r: HierarchyValidationIssue)
    ensures
        r.kind == kind,
        r.message@ == message@,
        r.nodes@ == nodes@,
{
    HierarchyValidationIssue { kind, message: String::from_str(message), nodes }
}

fn check_nodes(h: &KnowledgeHierarchy, errors: &mut Vec<HierarchyValidationIssue>)
    ensures
        final(errors)@.len() >= old(errors)@.len(),
        (final(errors)@.len() == old(errors)@.len()) == nodes_sound(*h),
        final(errors)@.subrange(0, old(errors)@.len() as int) == old(errors)@,
        forall|k: HierarchyValidationIssueKind| k != HierarchyValidationIssueKind::OrphanedReference ==> !#[trigger] kinds_added(
            final(errors)@,
            old(errors)@.len() as int,
        ).contains(k),
{
    let ghost start = errors@.len();
    let ghost e0 = errors@;
    proof {
        assert(kinds_added(errors@, start as int) =~= Seq::<HierarchyValidationIssueKind>::empty());
        assert(errors@.subrange(0, start as int) =~= e0);
    }
    let mut i: usize = 0;
    while i < h.nodes.len()
        invariant
            i <= h.nodes@.len(),
            errors@.subrange(0, start as int) == e0,
            start == e0.len(),
            errors@.len() >= start,
            forall|k: HierarchyValidationIssueKind| k != HierarchyValidationIssueKind::OrphanedReference ==> !#[trigger] kinds_added(errors@, start as int).contains(k),
            (errors@.len() == start) == forall|k: int| 0 <= k < i ==> {
                let e = #[trigger] h.nodes@[k];
                e.0@ == e.1.id@ && e.1.artifact.id@.len() > 0 && e.1.artifact.revision > 0
            },
        decreases h.nodes.len() - i,
    {
        let key = &h.nodes[i].0;
        let node = &h.nodes[i].1;
        let ghost was_clean = errors@.len() == start;
        if !str_eq(key.as_str(), node.id.as_str()) {
            let issue = make_issue(
                HierarchyValidationIssueKind::OrphanedReference,
                "Node map key differs from node identity",
                vec![key.clone(), node.id.clone()],
            );
            let ghost ix = issue;
            let ghost eb = errors@;
            errors.push(issue);
            proof {
                lemma_push_kind(eb, start as int, ix);
            }
        }
        if node.artifact.id.as_str().is_empty() || node.artifact.revision == 0 {
            let issue = make_issue(
                HierarchyValidationIssueKind::OrphanedReference,
                "Artifact requires identity and positive revision",
                vec![key.clone()],
            );
            let ghost ix = issue;
            let ghost eb = errors@;
            errors.push(issue);
            proof {
                lemma_push_kind(eb, start as int, ix);
            }
        }
        i = i + 1;
    }
}

fn check_roots(h: &KnowledgeHierarchy, errors: &mut Vec<HierarchyValidationIssue>) -> (roots: Vec<String>)
    ensures
        final(errors)@.len() >= old(errors)@.len(),
        (final(errors)@.len() == old(errors)@.len()) == roots_sound(*h),
        forall|k: Seq<char>| string_views(roots@).contains(k) == string_views(h.root_nodes@).contains(k),
        final(errors)@.subrange(0, old(errors)@.len() as int) == old(errors)@,
        forall|k: HierarchyValidationIssueKind| k != HierarchyValidationIssueKind::OrphanedReference && k != HierarchyValidationIssueKind::MissingNode ==> !#[trigger] kinds_added(
            final(errors)@,
            old(errors)@.len() as int,
        ).contains(k),
        kinds_added(final(errors)@, old(errors)@.len() as int).contains(HierarchyValidationIssueKind::MissingNode) == root_missing(*h),
{
    let ghost start = errors@.len();
    let ghost e0 = errors@;
    proof {
        assert(kinds_added(errors@, start as int) =~= Seq::<HierarchyValidationIssueKind>::empty());
        assert(errors@.subrange(0, start as int) =~= e0);
    }
    let ghost rv = string_views(h.root_nodes@);
    let mut roots: Vec<String> = Vec::new();
    let mut i: usize = 0;
    while i < h.root_nodes.len()
        invariant
            i <= h.root_nodes@.len(),
            rv == string_views(h.root_nodes@),
            errors@.subrange(0, start as int) == e0,
            start == e0.len(),
            errors@.len() >= start,
            forall|k: HierarchyValidationIssueKind| k != HierarchyValidationIssueKind::OrphanedReference && k != HierarchyValidationIssueKind::MissingNode ==> !#[trigger] kinds_added(errors@, start as int).contains(k),
            kinds_added(errors@, start as int).contains(HierarchyValidationIssueKind::MissingNode) == exists|r: int| 0 <= r < i && !is_node(*h, (#[trigger] h.root_nodes@[r])@),
            forall|k: Seq<char>| string_views(roots@).contains(k) == rv.subrange(0, i as int).contains(k),
            (errors@.len() == start) == ((forall|r: int| 0 <= r < i ==> is_node(*h, (#[trigger] h.root_nodes@[r])@))
                && rv.subrange(0, i as int).no_duplicates()),
        decreases h.root_nodes.len() - i,
    {
        let root = &h.root_nodes[i];
        let ghost prefix = rv.subrange(0, i as int);
        let ghost next = rv.subrange(0, i + 1);
        proof {
            assert(next =~= prefix.push(root@));
        }
        let present = node_index(h, root.as_str()).is_some();
        if !present {
            let issue = make_issue(HierarchyValidationIssueKind::MissingNode, "Root not found", vec![root.clone()]);
            let ghost ix = issue;
            let ghost eb = errors@;
            errors.push(issue);
            proof {
                lemma_push_kind(eb, start as int, ix);
            }
        }
        let dup = contains_string(&roots, root.as_str());
        let ghost old_roots = string_views(roots@);
        if dup {
            let issue = make_issue(HierarchyValidationIssueKind::OrphanedReference, "Duplicate root", vec![root.clone()]);
            let ghost ix = issue;
            let ghost eb = errors@;
            errors.push(issue);
            proof {
                lemma_push_kind(eb, start as int, ix);
            }
        } else {
            roots.push(root.clone());
            proof {
                assert(string_views(roots@) =~= old_roots.push(root@));
            }
        }
        proof {
            assert forall|k: Seq<char>| string_views(roots@).contains(k) == next.contains(k) by {
                if next.contains(k) && k != root@ {
                    let q = choose|q: int| 0 <= q < next.len() && next[q] == k;
                    assert(prefix[q] == k);
                }
                if prefix.contains(k) {
                    let q = choose|q: int| 0 <= q < prefix.len() && prefix[q] == k;
                    assert(next[q] == k);
                }
                if string_views(roots@).contains(k) && !dup && k != root@ {
                    let q = choose|q: int| 0 <= q < string_views(roots@).len() && string_views(roots@)[q] == k;
                    assert(old_roots[q] == k);
                }
                if old_roots.contains(k) && !dup {
                    let q = choose|q: int| 0 <= q < old_roots.len() && old_roots[q] == k;
                    assert(string_views(roots@)[q] == k);
                }
                if !dup && k == root@ {
                    assert(string_views(roots@)[old_roots.len() as int] == k);
                }
                if k == root@ {
                    assert(next[i as int] == k);
                }
            }
        }
        proof {
            assert((forall|r: int| 0 <= r < i + 1 ==> is_node(*h, (#[trigger] h.root_nodes@[r])@)) == (
                (forall|r: int| 0 <= r < i ==> is_node(*h, (#[trigger] h.root_nodes@[r])@)) && is_node(*h, root@))) by {
                assert(h.root_nodes@[i as int]@ == root@);
            }
            assert(next.no_duplicates() == (prefix.no_duplicates() && !prefix.contains(root@))) by {
                if next.no_duplicates() {
                    if prefix.contains(root@) {
                        let q = choose|q: int| 0 <= q < prefix.len() && prefix[q] == root@;
                        assert(next[q] == next[i as int]);
                    }
                }
                if prefix.no_duplicates() && !prefix.contains(root@) {
                    assert forall|a: int, b: int| 0 <= a < next.len() && 0 <= b < next.len() && a != b
                        implies next[a] != next[b] by {
                        if a < i && b < i {
                            assert(next[a] == prefix[a] && next[b] == prefix[b]);
                        } else if a == i {
                            assert(next[b] == prefix[b]);
                        } else {
                            assert(next[a] == prefix[a]);
                        }
                    }
                }
            }
        }
        i = i + 1;
    }
    proof {
        assert(rv.subrange(0, rv.len() as int) =~= rv);
    }
    roots
}

pub open spec fn same_link(x: KnowledgeHierarchyEdge, y: KnowledgeHierarchyEdge) -> bool {
    x.parent@ == y.parent@ && x.child@ == y.child@ && x.relation == y.relation
}

pub open spec fn pair_distinct(x: KnowledgeHierarchyEdge, y: KnowledgeHierarchyEdge) -> bool {
    x.id@ != y.id@ && !same_link(x, y)
}

fn same_link_exec(x: &KnowledgeHierarchyEdge, y: &KnowledgeHierarchyEdge) -> (r: bool)
    ensures
        r == same_link(*x, *y),
{
    str_eq(x.parent.as_str(), y.parent.as_str()) && str_eq(x.child.as_str(), y.child.as_str()) && x.relation == y.relation
}

fn links_contain(h: &KnowledgeHierarchy, seen: &Vec<usize>, e: &KnowledgeHierarchyEdge) -> (r: bool)
    requires
        forall|q: int| 0 <= q < seen@.len() ==> #[trigger] seen@[q] < h.edges@.len(),
    ensures
        r == exists|q: int| 0 <= q < seen@.len() && same_link(h.edges@[#[trigger] seen@[q] as int], *e),
{
    let mut q: usize = 0;
    while q < seen.len()
        invariant
            q <= seen@.len(),
            forall|k: int| 0 <= k < seen@.len() ==> #[trigger] seen@[k] < h.edges@.len(),
            forall|k: int| 0 <= k < q ==> !same_link(h.edges@[#[trigger] seen@[k] as int], *e),
        decreases seen.len() - q,
    {
        if same_link_exec(&h.edges[seen[q]], e) {
            return true;
        }
        q = q + 1;
    }
    false
}

/// The edges visited so far in `order` are pairwise distinct and each sound.
pub open spec fn visited_clean(h: KnowledgeHierarchy, order: Seq<usize>, p: int) -> bool {
    &&& forall|q1: int, q2: int| 0 <= q1 < q2 < p ==> pair_distinct(
        #[trigger] h.edges@[order[q1] as int],
        #[trigger] h.edges@[order[q2] as int],
    )
    &&& forall|q: int| 0 <= q < p ==> edge_sound(h, #[trigger] h.edges@[order[q] as int])
}

fn check_edges(
    h: &KnowledgeHierarchy,
    order: &Vec<usize>,
    errors: &mut Vec<HierarchyValidationIssue>,
    warnings: &mut Vec<HierarchyValidationIssue>,
)
    requires
        h.wf(),
        order@.len() == h.edges@.len(),
        order@.no_duplicates(),
        forall|q: int| 0 <= q < order@.len() ==> #[trigger] order@[q] < h.edges@.len(),
        forall|j: int| 0 <= j < h.edges@.len() ==> #[trigger] order@.contains(j as usize),
    ensures
        final(errors)@.len() >= old(errors)@.len(),
        (final(errors)@.len() == old(errors)@.len()) == (edges_distinct(*h) && forall|j: int|
            0 <= j < h.edges@.len() ==> edge_sound(*h, #[trigger] h.edges@[j])),
        final(errors)@.subrange(0, old(errors)@.len() as int) == old(errors)@,
        forall|k: HierarchyValidationIssueKind| k != HierarchyValidationIssueKind::OrphanedReference ==> #[trigger] kinds_added(
            final(errors)@,
            old(errors)@.len() as int,
        ).contains(k) == some_edge_fault(*h, k),
        final(warnings)@.subrange(0, old(warnings)@.len() as int) == old(warnings)@,
        forall|x: int| old(warnings)@.len() <= x < final(warnings)@.len() ==> (#[trigger] final(warnings)@[x]).kind
            == HierarchyValidationIssueKind::UnknownScopeRelationship,
{
    let ghost w0 = warnings@;
    proof {
        assert(warnings@.subrange(0, w0.len() as int) =~= w0);
    }
    let ghost start = errors@.len();
    let ghost e0 = errors@;
    proof {
        assert(kinds_added(errors@, start as int) =~= Seq::<HierarchyValidationIssueKind>::empty());
        assert(errors@.subrange(0, start as int) =~= e0);
    }
    let mut seen_ids: Vec<String> = Vec::new();
    let mut seen_links: Vec<usize> = Vec::new();
    let n = order.len();
    let mut p: usize = 0;
    while p < n
        invariant
            n == order@.len(),
            n == h.edges@.len(),
            h.wf(),
            p <= n,
            order@.no_duplicates(),
            forall|q: int| 0 <= q < order@.len() ==> #[trigger] order@[q] < h.edges@.len(),
            errors@.subrange(0, start as int) == e0,
            start == e0.len(),
            errors@.len() >= start,
            forall|k: HierarchyValidationIssueKind| k != HierarchyValidationIssueKind::OrphanedReference ==> #[trigger] kinds_added(
                errors@,
                start as int,
            ).contains(k) == exists|q: int| 0 <= q < p && edge_fault(*h, h.edges@[#[trigger] order@[q] as int], k),
            warnings@.subrange(0, w0.len() as int) == w0,
            warnings@.len() >= w0.len(),
            forall|x: int| w0.len() <= x < warnings@.len() ==> (#[trigger] warnings@[x]).kind
                == HierarchyValidationIssueKind::UnknownScopeRelationship,
            errors@.len() == start ==> {
                &&& seen_ids@.len() == p
                &&& forall|q: int| 0 <= q < p ==> (#[trigger] seen_ids@[q])@ == h.edges@[order@[q] as int].id@
                &&& seen_links@ == order@.subrange(0, p as int)
                &&& visited_clean(*h, order@, p as int)
            },
            errors@.len() != start ==> !(edges_distinct(*h) && forall|j: int|
                0 <= j < h.edges@.len() ==> edge_sound(*h, #[trigger] h.edges@[j])),
            forall|q: int| 0 <= q < seen_links@.len() ==> #[trigger] seen_links@[q] < h.edges@.len(),
        decreases n - p,
    {
        let j = order[p];
        let e = &h.edges[j];
        let ghost e_it = errors@;
        let ghost w_it = warnings@;
        let ghost clean_before = errors@.len() == start;
        let ghost ids_before = string_views(seen_ids@);
        let ghost links_before = seen_links@;
        let id_dup = contains_string(&seen_ids, e.id.as_str());
        let mut dup = id_dup;
        if !id_dup {
            let link_dup = links_contain(h, &seen_links, e);
            seen_ids.push(e.id.clone());
            if !link_dup {
                seen_links.push(j);
            }
            dup = link_dup;
        }
        proof {
            if clean_before && dup {
                let (q, by_id) = if id_dup {
                    let k = choose|k: int| 0 <= k < ids_before.len() && ids_before[k] == e.id@;
                    assert(ids_before[k] == seen_ids@[k]@);
                    (k, true)
                } else {
                    let k = choose|k: int| 0 <= k < links_before.len()
                        && same_link(h.edges@[#[trigger] links_before[k] as int], *e);
                    assert(links_before[k] == order@[k]);
                    (k, false)
                };
                assert(0 <= q < p);
                assert(order@[q] != order@[p as int]);
                let a = order@[q] as int;
                let b = j as int;
                if by_id {
                    assert(ids_before[q] == h.edges@[a].id@);
                }
                assert(!pair_distinct(h.edges@[a], h.edges@[b]));
                if a < b {
                    assert(!edges_distinct(*h));
                } else {
                    assert(!edges_distinct(*h));
                }
            }
        }
        if dup {
            let issue = make_issue(
                HierarchyValidationIssueKind::OrphanedReference,
                "Duplicate edge identity or relationship",
                vec![e.parent.clone(), e.child.clone()],
            );
            let ghost ix = issue;
            let ghost eb = errors@;
            errors.push(issue);
            proof {
                lemma_push_kind(eb, start as int, ix);
            }
        }
        let self_loop = str_eq(e.parent.as_str(), e.child.as_str());
        if self_loop {
            let issue = make_issue(
                HierarchyValidationIssueKind::SelfReference,
                "Self relationship is invalid",
                vec![e.parent.clone(), e.child.clone()],
            );
            let ghost ix = issue;
            let ghost eb = errors@;
            errors.push(issue);
            proof {
                lemma_push_kind(eb, start as int, ix);
            }
        }
        let pi = node_index(h, e.parent.as_str());
        let ci = node_index(h, e.child.as_str());
        let mut sound_here = !self_loop;
        if pi.is_none() || ci.is_none() {
            let issue = make_issue(
                HierarchyValidationIssueKind::MissingNode,
                "Edge endpoint not found",
                vec![e.parent.clone(), e.child.clone()],
            );
            let ghost ix = issue;
            let ghost eb = errors@;
            errors.push(issue);
            proof {
                lemma_push_kind(eb, start as int, ix);
            }
            sound_here = false;
        } else if e.relation != KnowledgeHierarchyRelation::DependsOn {
            let pi = pi.unwrap();
            let ci = ci.unwrap();
            let parent = &h.nodes[pi].1;
            let child = &h.nodes[ci].1;
            proof {
                lemma_node_at(*h, pi as int);
                lemma_node_at(*h, ci as int);
            }
            if concrete_exec(parent.artifact.kind) != concrete_exec(child.artifact.kind) {
                let issue = make_issue(
                    HierarchyValidationIssueKind::IncompatibleArtifactKinds,
                    "Cross-kind precedence is not modeled; use DependsOn",
                    vec![e.parent.clone(), e.child.clone()],
                );
                let ghost ix = issue;
                let ghost eb = errors@;
                errors.push(issue);
                proof {
                    lemma_push_kind(eb, start as int, ix);
                }
                sound_here = false;
            }
            let rel = DeterministicScopeRelationEvaluator.compare(&child.scope, &parent.scope);
            let outside = rel == ScopeRelation::Broader || rel == ScopeRelation::Disjoint || rel == ScopeRelation::Overlapping;
            if e.relation == KnowledgeHierarchyRelation::Specializes && outside {
                let issue = make_issue(
                    HierarchyValidationIssueKind::InvalidSpecializationScope,
                    "Specialization must be contained in parent scope",
                    vec![e.parent.clone(), e.child.clone()],
                );
                let ghost ix = issue;
                let ghost eb = errors@;
                errors.push(issue);
                proof {
                    lemma_push_kind(eb, start as int, ix);
                }
                sound_here = false;
            } else if e.relation == KnowledgeHierarchyRelation::Excepts && outside {
                let issue = make_issue(
                    HierarchyValidationIssueKind::InvalidExceptionScope,
                    "Exception must be contained in parent scope",
                    vec![e.parent.clone(), e.child.clone()],
                );
                let ghost ix = issue;
                let ghost eb = errors@;
                errors.push(issue);
                proof {
                    lemma_push_kind(eb, start as int, ix);
                }
                sound_here = false;
            } else if rel == ScopeRelation::Unknown {
                warnings.push(make_issue(
                    HierarchyValidationIssueKind::UnknownScopeRelationship,
                    "Cannot prove scope relationship; edge cannot override",
                    vec![e.parent.clone(), e.child.clone()],
                ));
            } else if e.relation == KnowledgeHierarchyRelation::Supersedes && rel == ScopeRelation::Disjoint {
                warnings.push(make_issue(
                    HierarchyValidationIssueKind::UnknownScopeRelationship,
                    "Supersession scopes do not overlap",
                    vec![e.parent.clone(), e.child.clone()],
                ));
            }
        }
        proof {
            assert forall|k: HierarchyValidationIssueKind| k != HierarchyValidationIssueKind::OrphanedReference implies #[trigger] kinds_added(
                errors@,
                start as int,
            ).contains(k) == (kinds_added(e_it, start as int).contains(k) || edge_fault(*h, h.edges@[j as int], k)) by {
                if pi is Some && ci is Some {
                    lemma_node_at(*h, pi->0 as int);
                    lemma_node_at(*h, ci->0 as int);
                }
            }
            assert forall|k: HierarchyValidationIssueKind| k != HierarchyValidationIssueKind::OrphanedReference implies #[trigger] kinds_added(
                errors@,
                start as int,
            ).contains(k) == exists|q: int| 0 <= q < p + 1 && edge_fault(*h, h.edges@[#[trigger] order@[q] as int], k) by {
                if edge_fault(*h, h.edges@[j as int], k) {
                    assert(order@[p as int] == j);
                }
            }
            assert(warnings@.subrange(0, w0.len() as int) =~= w0.subrange(0, w0.len() as int)) by {
                assert(warnings@.subrange(0, w0.len() as int) =~= w_it.subrange(0, w0.len() as int));
            }
            assert forall|x: int| w0.len() <= x < warnings@.len() implies (#[trigger] warnings@[x]).kind
                == HierarchyValidationIssueKind::UnknownScopeRelationship by {
                if x < w_it.len() {
                    assert(warnings@[x] == w_it[x]);
                }
            }
            assert(sound_here == edge_sound(*h, h.edges@[j as int]));
            if clean_before && !sound_here {
                assert(!edge_sound(*h, h.edges@[j as int]));
            }
            if clean_before && !dup && sound_here {
                assert(string_views(seen_ids@).len() == p + 1);
                assert forall|q: int| 0 <= q < p + 1 implies (#[trigger] seen_ids@[q])@ == h.edges@[order@[q] as int].id@ by {
                }
                assert(seen_links@ =~= order@.subrange(0, p + 1));
                assert forall|q1: int, q2: int| 0 <= q1 < q2 < p + 1 implies pair_distinct(
                    #[trigger] h.edges@[order@[q1] as int],
                    #[trigger] h.edges@[order@[q2] as int],
                ) by {
                    if q2 == p {
                        assert(ids_before[q1] == h.edges@[order@[q1] as int].id@);
                        assert(!ids_before.contains(e.id@));
                        assert(links_before[q1] == order@[q1]);
                        assert(!same_link(h.edges@[links_before[q1] as int], *e));
                    }
                }
            }
        }
        p = p + 1;
    }
    proof {
        assert forall|k: HierarchyValidationIssueKind| k != HierarchyValidationIssueKind::OrphanedReference implies #[trigger] kinds_added(
            errors@,
            start as int,
        ).contains(k) == some_edge_fault(*h, k) by {
            if some_edge_fault(*h, k) {
                let j = choose|j: int| 0 <= j < h.edges@.len() && edge_fault(*h, #[trigger] h.edges@[j], k);
                assert(order@.contains(j as usize));
                let q = choose|q: int| 0 <= q < order@.len() && order@[q] == j as usize;
                assert(edge_fault(*h, h.edges@[order@[q] as int], k));
            }
        }
        if errors@.len() == start {
            assert forall|a: int, b: int| 0 <= a < b < h.edges@.len() implies {
                let x = #[trigger] h.edges@[a];
                let y = #[trigger] h.edges@[b];
                x.id@ != y.id@ && !(x.parent@ == y.parent@ && x.child@ == y.child@ && x.relation == y.relation)
            } by {
                assert(order@.contains(a as usize));
                assert(order@.contains(b as usize));
                let qa = choose|q: int| 0 <= q < order@.len() && order@[q] == a as usize;
                let qb = choose|q: int| 0 <= q < order@.len() && order@[q] == b as usize;
                if qa < qb {
                    assert(pair_distinct(h.edges@[order@[qa] as int], h.edges@[order@[qb] as int]));
                } else {
                    assert(pair_distinct(h.edges@[order@[qb] as int], h.edges@[order@[qa] as int]));
                }
            }
            assert forall|j: int| 0 <= j < h.edges@.len() implies edge_sound(*h, #[trigger] h.edges@[j]) by {
                assert(order@.contains(j as usize));
                let q = choose|q: int| 0 <= q < order@.len() && order@[q] == j as usize;
                assert(edge_sound(*h, h.edges@[order@[q] as int]));
            }
        }
    }
}

fn has_precedence_parent_exec(h: &KnowledgeHierarchy, key: &str) -> (r: bool)
    ensures
        r == has_precedence_parent(*h, key@),
{
    let mut j: usize = 0;
    while j < h.edges.len()
        invariant
            j <= h.edges@.len(),
            forall|m: int| 0 <= m < j ==> !((#[trigger] h.edges@[m]).child@ == key@
                && h.edges@[m].relation != KnowledgeHierarchyRelation::DependsOn),
        decreases h.edges.len() - j,
    {
        if str_eq(h.edges[j].child.as_str(), key) && h.edges[j].relation != KnowledgeHierarchyRelation::DependsOn {
            return true;
        }
        j = j + 1;
    }
    false
}

fn check_roots_exact(h: &KnowledgeHierarchy, roots: &Vec<String>, errors: &mut Vec<HierarchyValidationIssue>)
    requires
        forall|k: Seq<char>| string_views(roots@).contains(k) == string_views(h.root_nodes@).contains(k),
    ensures
        final(errors)@.len() >= old(errors)@.len(),
        (final(errors)@.len() == old(errors)@.len()) == roots_exact(*h),
        final(errors)@.subrange(0, old(errors)@.len() as int) == old(errors)@,
        forall|k: HierarchyValidationIssueKind| k != HierarchyValidationIssueKind::OrphanedReference ==> !#[trigger] kinds_added(
            final(errors)@,
            old(errors)@.len() as int,
        ).contains(k),
{
    let ghost start = errors@.len();
    let ghost e0 = errors@;
    proof {
        assert(kinds_added(errors@, start as int) =~= Seq::<HierarchyValidationIssueKind>::empty());
        assert(errors@.subrange(0, start as int) =~= e0);
    }
    let mut i: usize = 0;
    while i < h.nodes.len()
        invariant
            i <= h.nodes@.len(),
            forall|k: Seq<char>| string_views(roots@).contains(k) == string_views(h.root_nodes@).contains(k),
            errors@.subrange(0, start as int) == e0,
            start == e0.len(),
            errors@.len() >= start,
            forall|k: HierarchyValidationIssueKind| k != HierarchyValidationIssueKind::OrphanedReference ==> !#[trigger] kinds_added(errors@, start as int).contains(k),
            (errors@.len() == start) == forall|k: int| 0 <= k < i ==> has_precedence_parent(*h, #[trigger] node_keys(*h)[k])
                != string_views(h.root_nodes@).contains(node_keys(*h)[k]),
        decreases h.nodes.len() - i,
    {
        let key = &h.nodes[i].0;
        proof {
            assert(node_keys(*h)[i as int] == key@);
        }
        let incoming = has_precedence_parent_exec(h, key.as_str());
        let rooted = contains_string(roots, key.as_str());
        if incoming == rooted {
            let issue = make_issue(
                HierarchyValidationIssueKind::OrphanedReference,
                "Roots must exactly identify nodes without incoming precedence edges",
                vec![key.clone()],
            );
            let ghost ix = issue;
            let ghost eb = errors@;
            errors.push(issue);
            proof {
                lemma_push_kind(eb, start as int, ix);
            }
        }
        i = i + 1;
    }
}

/// The keys, in order, that `done` does not hold.
pub open spec fn keys_missing(keys: Seq<Seq<char>>, done: Seq<Seq<char>>) -> Seq<Seq<char>>
    decreases keys.len(),
{
    if keys.len() == 0 {
        Seq::empty()
    } else {
        keys_missing(keys.drop_last(), done) + if done.contains(keys.last()) {
            Seq::empty()
        } else {
            seq![keys.last()]
        }
    }
}

/// The node keys, in node order, that `out` does not list.
fn undrained(h: &KnowledgeHierarchy, out: &Vec<String>) -> (r: Vec<String>)
    ensures
        string_views(r@) == keys_missing(node_keys(*h), string_views(out@)),
{
    let mut r: Vec<String> = Vec::new();
    let mut i: usize = 0;
    while i < h.nodes.len()
        invariant
            i <= h.nodes@.len(),
            string_views(r@) == keys_missing(node_keys(*h).take(i as int), string_views(out@)),
        decreases h.nodes.len() - i,
    {
        let ghost before = r@;
        proof {
            assert(node_keys(*h).take(i + 1).drop_last() =~= node_keys(*h).take(i as int));
            assert(node_keys(*h).take(i + 1).last() == h.nodes@[i as int].0@);
        }
        if !contains_string(out, h.nodes[i].0.as_str()) {
            r.push(h.nodes[i].0.clone());
            proof {
                assert(string_views(r@) =~= string_views(before).push(h.nodes@[i as int].0@));
            }
        }
        proof {
            assert(string_views(r@) =~= keys_missing(node_keys(*h).take(i + 1), string_views(out@)));
        }
        i = i + 1;
    }
    proof {
        assert(node_keys(*h).take(i as int) =~= node_keys(*h));
    }
    r
}

fn check_cycle(
    h: &KnowledgeHierarchy,
    sel: EdgeSelection,
    kind: HierarchyValidationIssueKind,
    errors: &mut Vec<HierarchyValidationIssue>,
)
    requires
        h.wf(),
    ensures
        final(errors)@.len() >= old(errors)@.len(),
        (final(errors)@.len() == old(errors)@.len()) == acyclic(*h, sel),
        final(errors)@.subrange(0, old(errors)@.len() as int) == old(errors)@,
        forall|k: HierarchyValidationIssueKind| k != kind ==> !#[trigger] kinds_added(
            final(errors)@,
            old(errors)@.len() as int,
        ).contains(k),
        kinds_added(final(errors)@, old(errors)@.len() as int).contains(kind) == !acyclic(*h, sel),
        forall|x: int| old(errors)@.len() <= x < final(errors)@.len() ==> names_undrained(*h, sel, #[trigger] final(errors)@[x]),
{
    let ghost e0 = errors@;
    proof {
        assert(kinds_added(errors@, e0.len() as int) =~= Seq::<HierarchyValidationIssueKind>::empty());
        assert(errors@.subrange(0, e0.len() as int) =~= e0);
    }
    let out = topological(h, sel);
    proof {
        lemma_drain_acyclic(*h, sel, string_views(out@));
        assert forall|a: int| 0 <= a < string_views(out@).len() implies is_node(*h, #[trigger] string_views(out@)[a]) by {
            assert(string_views(out@)[a] == out@[a]@);
        }
    }
    if out.len() != h.nodes.len() {
        let issue = make_issue(kind, "Cycle in precedence graph", undrained(h, &out));
        let ghost ix = issue;
        let ghost eb = errors@;
        errors.push(issue);
        proof {
            lemma_push_kind(eb, e0.len() as int, ix);
            assert(kinds_added(errors@, e0.len() as int).contains(kind));
            assert(names_undrained(*h, sel, ix));
            assert forall|x: int| e0.len() <= x < errors@.len() implies names_undrained(*h, sel, #[trigger] errors@[x]) by {
                assert(x == e0.len());
            }
        }
    }
}

/// Validates a hierarchy. It is valid exactly when it is sound: consistent node entries,
/// roots that name nodes once, distinct edges, sound edges, roots that are exactly the nodes
/// without incoming precedence, and no cycle of supersession or of precedence. Errors and
/// warnings are reported in the order: nodes, roots, edges (in parent, child, relation,
/// identity order), roots again, cycles.
pub fn validate_hierarchy(h: &KnowledgeHierarchy) -> (r: KnowledgeHierarchyValidationReport)
    requires
        h.wf(),
    ensures
        r.valid == (r.errors@.len() == 0),
        r.valid == hierarchy_sound(*h),
        forall|k: HierarchyValidationIssueKind| k != HierarchyValidationIssueKind::OrphanedReference ==> #[trigger] issue_kinds(
            r.errors@,
        ).contains(k) == error_cause(*h, k),
        forall|x: int| 0 <= x < r.errors@.len() && (#[trigger] r.errors@[x]).kind == HierarchyValidationIssueKind::Cycle
            ==> names_undrained(*h, EdgeSelection::Precedence, r.errors@[x]),
        forall|x: int| 0 <= x < r.errors@.len() && (#[trigger] r.errors@[x]).kind == HierarchyValidationIssueKind::SupersessionCycle
            ==> names_undrained(*h, EdgeSelection::Supersession, r.errors@[x]),
        forall|x: int| 0 <= x < r.warnings@.len() ==> (#[trigger] r.warnings@[x]).kind == HierarchyValidationIssueKind::UnknownScopeRelationship
            || r.warnings@[x].kind == HierarchyValidationIssueKind::Cycle,
        validation_reports(*h, r),
{
    let mut errors: Vec<HierarchyValidationIssue> = Vec::new();
    let mut warnings: Vec<HierarchyValidationIssue> = Vec::new();
    let order = edge_order(h);
    check_nodes(h, &mut errors);
    let ghost s1 = errors@;
    let e1 = errors.len();
    let roots = check_roots(h, &mut errors);
    let ghost s2 = errors@;
    let e2 = errors.len();
    check_edges(h, &order, &mut errors, &mut warnings);
    let ghost s3 = errors@;
    let e3 = errors.len();
    check_roots_exact(h, &roots, &mut errors);
    let ghost s4 = errors@;
    let e4 = errors.len();
    check_cycle(h, EdgeSelection::Supersession, HierarchyValidationIssueKind::SupersessionCycle, &mut errors);
    let ghost s5 = errors@;
    let e5 = errors.len();
    check_cycle(h, EdgeSelection::Precedence, HierarchyValidationIssueKind::Cycle, &mut errors);
    let ghost s6 = errors@;
    let health = topological(h, EdgeSelection::Health);
    let ghost w_b = warnings@;
    if health.len() != h.nodes.len() {
        warnings.push(make_issue(
            HierarchyValidationIssueKind::Cycle,
            "Cyclic health dependencies are not independently supported",
            Vec::new(),
        ));
    }
    proof {
        assert forall|x: int| 0 <= x < warnings@.len() implies (#[trigger] warnings@[x]).kind
            == HierarchyValidationIssueKind::UnknownScopeRelationship || warnings@[x].kind == HierarchyValidationIssueKind::Cycle by {
            if x < w_b.len() {
                assert(warnings@[x] == w_b[x]);
            }
        }
        assert(s1.subrange(0, 0) =~= Seq::<HierarchyValidationIssue>::empty());
        assert forall|k: HierarchyValidationIssueKind| k != HierarchyValidationIssueKind::OrphanedReference implies #[trigger] issue_kinds(
            s6,
        ).contains(k) == error_cause(*h, k) by {
            lemma_kinds_split(s6, e5 as int, k);
            lemma_kinds_split(s5, e4 as int, k);
            lemma_kinds_split(s4, e3 as int, k);
            lemma_kinds_split(s3, e2 as int, k);
            lemma_kinds_split(s2, e1 as int, k);
            lemma_kinds_split(s1, 0, k);
            assert(issue_kinds(s1.subrange(0, 0)) =~= Seq::<HierarchyValidationIssueKind>::empty());
            assert(kinds_added(s1, 0) =~= issue_kinds(s1));
        }
        lemma_prefix_trans(s6, s5, s4);
        lemma_prefix_trans(s6, s4, s3);
        lemma_prefix_trans(s6, s3, s2);
        lemma_prefix_trans(s6, s2, s1);
        assert forall|x: int| 0 <= x < s6.len() && (#[trigger] s6[x]).kind == HierarchyValidationIssueKind::Cycle implies names_undrained(
            *h,
            EdgeSelection::Precedence,
            s6[x],
        ) by {
            lemma_segment_kind(s5, e4 as int, x, s6);
            lemma_segment_kind(s4, e3 as int, x, s6);
            lemma_segment_kind(s3, e2 as int, x, s6);
            lemma_segment_kind(s2, e1 as int, x, s6);
            lemma_segment_kind(s1, 0, x, s6);
            assert(kinds_added(s1, 0) =~= issue_kinds(s1.subrange(0, s1.len() as int)));
        }
        assert forall|x: int| 0 <= x < s6.len() && (#[trigger] s6[x]).kind == HierarchyValidationIssueKind::SupersessionCycle implies names_undrained(
            *h,
            EdgeSelection::Supersession,
            s6[x],
        ) by {
            assert(s6.subrange(0, s6.len() as int) =~= s6);
            lemma_segment_kind(s6, e5 as int, x, s6);
            lemma_segment_kind(s4, e3 as int, x, s6);
            lemma_segment_kind(s3, e2 as int, x, s6);
            lemma_segment_kind(s2, e1 as int, x, s6);
            lemma_segment_kind(s1, 0, x, s6);
            if e4 <= x < e5 {
                lemma_issue_in_prefix(s6, s5, e5 as int, x);
            }
        }
    }
    let valid = errors.len() == 0;
    KnowledgeHierarchyValidationReport { valid, errors, warnings }
}

} // verus!
