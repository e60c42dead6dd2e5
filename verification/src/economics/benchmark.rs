//! A deterministic comparison of three ways to spend one fixed trial budget on the same
//! backlog: round robin, a static priority by kind, and the adaptive portfolio.
//!
//! Each arm yields allocations; an arm's acquisition counts are integers computed here.
//! The rates derived from them are fractions and are left to the caller.
use vstd::prelude::*;
use crate::common::{severity_rank, ExperienceBudget, IsolationLevel, RealityRequirements, Severity, TrialSafety};
use crate::economics::allocation::{
    alloc_state, allocates, allocates_with, lemma_selected_in_range, ranked_order, selection_matches, AllocInput,
    DeterministicExperienceAllocationPolicy,
};
use crate::economics::{
    contains_reason, default_opportunity_risk, generated_exactly, has_reason, id_bytes, value_rank, AttentionCostBand,
    ComputeCostBand, DecisionRelevance, DeterministicExperienceOpportunityGenerator, EvidenceNovelty,
    EvidenceSaturation, EvidenceSummary, ExperienceGap, ExperienceOpportunity, ExperienceOpportunityKind,
    ExperienceOpportunityTarget, ExperiencePlanningContext, ExperiencePortfolio, ExperiencePortfolioObjective,
    ExperimentCost, ExposureBand, LearningOutcomeClass, LearningValueEstimate, MitigationGap, OpportunityReason,
    OpportunityRisk, PortfolioSelection, ResourceCostBand, ReusePotential, RuntimeUseBand, ValueBand,
};
use crate::effects::EffectRisk;
use crate::error::Error;
use crate::sorted::{find_key, has_key, insert_unique, keys_sorted, stable_order, stably_sorted};
use crate::text::{append_decimal, bytes_lt, decimal_chars, lemma_bytes_lt_trichotomy, str_eq, views};

verus! {

/// An opportunity an arm spends trials on, by its position in the backlog.
#[derive(Clone, Copy, Debug, PartialEq, Eq, Structural)]
pub struct Allocation {
    pub index: usize,
    pub trials: usize,
}

/// The identifier bytes of each opportunity, the key by which they are told apart.
pub open spec fn keys_of(ops: Seq<ExperienceOpportunity>) -> Seq<Seq<u8>> {
    ops.map_values(|o: ExperienceOpportunity| id_bytes(o))
}

// ------------------------------------------------------------------------------------------
// Round robin.
// ------------------------------------------------------------------------------------------

/// How many of the first `k` turns of cycling through `keys` land on `key`.
pub open spec fn turns(keys: Seq<Seq<u8>>, k: nat, key: Seq<u8>) -> nat
    decreases k,
{
    if k == 0 || keys.len() == 0 {
        0
    } else {
        turns(keys, (k - 1) as nat, key) + if keys[((k - 1) as nat % keys.len()) as int] == key {
            1nat
        } else {
            0nat
        }
    }
}

/// Position `a` is the first one with its key.
pub open spec fn first_of_key(keys: Seq<Seq<u8>>, a: int) -> bool {
    0 <= a < keys.len() && forall|j: int| 0 <= j < a ==> keys[j] != keys[a]
}

/// `r` is what round robin gives for `budget` turns over `ops`: one allocation per distinct
/// identifier reached, in identifier order, at the first opportunity with that identifier,
/// with as many trials as turns landed on it.
pub open spec fn round_robin_result(ops: Seq<ExperienceOpportunity>, budget: nat, r: Seq<Allocation>) -> bool {
    let keys = keys_of(ops);
    &&& forall|a: int, b: int| 0 <= a < b < r.len() ==> bytes_lt(keys[#[trigger] r[a].index as int], keys[#[trigger] r[b].index as int])
    &&& forall|a: int| 0 <= a < r.len() ==> {
        &&& first_of_key(keys, #[trigger] r[a].index as int)
        &&& r[a].index < budget
        &&& r[a].trials == turns(keys, budget, keys[r[a].index as int])
    }
    &&& forall|j: int| 0 <= j < ops.len() && j < budget ==> allocated(keys, r, #[trigger] keys[j])
}

/// Some allocation is at an opportunity with this key.
pub open spec fn allocated(keys: Seq<Seq<u8>>, r: Seq<Allocation>, key: Seq<u8>) -> bool {
    exists|a: int| 0 <= a < r.len() && keys[#[trigger] r[a].index as int] == key
}

/// The state of round robin after `k` turns: an entry per identifier reached, in order.
pub open spec fn round_robin_state(keys: Seq<Seq<u8>>, k: nat, list: Seq<(Vec<u8>, Allocation)>) -> bool {
    &&& keys_sorted(list)
    &&& forall|e: int| 0 <= e < list.len() ==> {
        &&& (#[trigger] list[e]).0@ == keys[list[e].1.index as int]
        &&& first_of_key(keys, list[e].1.index as int)
        &&& list[e].1.index < k
        &&& list[e].1.trials == turns(keys, k, list[e].0@)
        &&& list[e].1.trials <= k
    }
    &&& forall|j: int| 0 <= j < keys.len() && j < k ==> has_key(list, #[trigger] keys[j])
    &&& forall|key: Seq<u8>| !has_key(list, key) ==> turns(keys, k, key) == 0
}

proof fn lemma_sorted_keys_distinct<T>(list: Seq<(Vec<u8>, T)>, a: int, b: int)
    requires
        keys_sorted(list),
        0 <= a < list.len(),
        0 <= b < list.len(),
        a != b,
    ensures
        list[a].0@ != list[b].0@,
{
    lemma_bytes_lt_trichotomy(list[a].0@, list[b].0@);
}

/// Spends `budget` trials one at a time, cycling through the opportunities in order; trials
/// that land on one identifier add up in a single allocation. The allocations come in
/// identifier order.
pub fn round_robin(ops: &[ExperienceOpportunity], budget: usize) -> (r: Vec<Allocation>)
    ensures
        round_robin_result(ops@, budget as nat, r@),
{
    let n = ops.len();
    if n == 0 {
        return Vec::new();
    }
    let ghost keys = keys_of(ops@);
    let mut list: Vec<(Vec<u8>, Allocation)> = Vec::new();
    let mut k: usize = 0;
    while k < budget
        invariant
            n == ops@.len(),
            n > 0,
            keys == keys_of(ops@),
            k <= budget,
            round_robin_state(keys, k as nat, list@),
        decreases budget - k,
    {
        let i = k % n;
        proof {
            vstd::arithmetic::div_mod::lemma_mod_pos_bound(k as int, n as int);
            if k < n {
                vstd::arithmetic::div_mod::lemma_small_mod(k as nat, n as nat);
            }
        }
        let key = ops[i].id.as_str().as_bytes_vec();
        assert(key@ == keys[i as int]);
        let ghost old_list = list@;
        proof {
            assert forall|key2: Seq<u8>| key2 != key@ implies turns(keys, (k + 1) as nat, key2) == turns(keys, k as nat, key2) by {}
            assert(turns(keys, (k + 1) as nat, key@) == turns(keys, k as nat, key@) + 1);
        }
        match find_key(&list, key.as_slice()) {
            Some(p) => {
                let a = list[p].1;
                list.set(p, (key, Allocation { index: a.index, trials: a.trials + 1 }));
                proof {
                    assert forall|e: int| 0 <= e < list@.len() && e != p implies (#[trigger] list@[e]).0@ != key@ by {
                        lemma_sorted_keys_distinct(old_list, e, p as int);
                    }
                    assert(keys_sorted(list@)) by {
                        assert forall|x: int, y: int| 0 <= x < y < list@.len() implies bytes_lt(
                            #[trigger] list@[x].0@,
                            #[trigger] list@[y].0@,
                        ) by {
                            assert(old_list[x].0@ == list@[x].0@);
                            assert(old_list[y].0@ == list@[y].0@);
                        }
                    }
                    assert forall|j: int| 0 <= j < keys.len() && j < k + 1 implies has_key(list@, #[trigger] keys[j]) by {
                        if j < k {
                            let w = choose|w: int| 0 <= w < old_list.len() && (#[trigger] old_list[w]).0@ == keys[j];
                            assert(list@[w].0@ == keys[j]);
                        } else {
                            assert(list@[p as int].0@ == keys[j]);
                        }
                    }
                    assert forall|key2: Seq<u8>| !has_key(list@, key2) implies turns(keys, (k + 1) as nat, key2) == 0 by {
                        if has_key(old_list, key2) {
                            let w = choose|w: int| 0 <= w < old_list.len() && (#[trigger] old_list[w]).0@ == key2;
                            assert(list@[w].0@ == key2);
                        }
                    }
                }
            },
            None => {
                proof {
                    if k >= n {
                        assert(has_key(old_list, keys[i as int]));
                    }
                    assert(i == k);
                    assert forall|j: int| 0 <= j < i implies keys[j] != keys[i as int] by {
                        assert(has_key(old_list, keys[j]));
                    }
                }
                insert_unique(&mut list, key, Allocation { index: i, trials: 1 });
                proof {
                    let p = choose|p: int| 0 <= p <= old_list.len() && list@ == old_list.insert(p, (key, Allocation { index: i, trials: 1 }));
                    assert forall|e: int| 0 <= e < list@.len() implies {
                        &&& (#[trigger] list@[e]).0@ == keys[list@[e].1.index as int]
                        &&& first_of_key(keys, list@[e].1.index as int)
                        &&& list@[e].1.index < k + 1
                        &&& list@[e].1.trials == turns(keys, (k + 1) as nat, list@[e].0@)
                        &&& list@[e].1.trials <= k + 1
                    } by {
                        if e < p {
                            assert(list@[e] == old_list[e]);
                            assert(old_list[e].0@ != key@);
                        } else if e > p {
                            assert(list@[e] == old_list[e - 1]);
                            assert(old_list[e - 1].0@ != key@);
                        }
                    }
                    assert forall|j: int| 0 <= j < keys.len() && j < k + 1 implies has_key(list@, #[trigger] keys[j]) by {
                        if j < k {
                            let w = choose|w: int| 0 <= w < old_list.len() && (#[trigger] old_list[w]).0@ == keys[j];
                            if w < p {
                                assert(list@[w] == old_list[w]);
                            } else {
                                assert(list@[w + 1] == old_list[w]);
                            }
                        } else {
                            assert(list@[p].0@ == keys[j]);
                        }
                    }
                    assert forall|key2: Seq<u8>| !has_key(list@, key2) implies turns(keys, (k + 1) as nat, key2) == 0 by {
                        assert(list@[p].0@ == key@);
                        if has_key(old_list, key2) {
                            let w = choose|w: int| 0 <= w < old_list.len() && (#[trigger] old_list[w]).0@ == key2;
                            if w < p {
                                assert(list@[w] == old_list[w]);
                            } else {
                                assert(list@[w + 1] == old_list[w]);
                            }
                        }
                    }
                }
            },
        }
        k = k + 1;
    }
    let mut r: Vec<Allocation> = Vec::new();
    let mut e: usize = 0;
    while e < list.len()
        invariant
            e <= list@.len(),
            r@.len() == e,
            forall|x: int| 0 <= x < e ==> r@[x] == (#[trigger] list@[x]).1,
        decreases list.len() - e,
    {
        r.push(list[e].1);
        e = e + 1;
    }
    proof {
        assert forall|a: int, b: int| 0 <= a < b < r@.len() implies bytes_lt(
            keys[#[trigger] r@[a].index as int],
            keys[#[trigger] r@[b].index as int],
        ) by {
            assert(list@[a].0@ == keys[r@[a].index as int]);
            assert(list@[b].0@ == keys[r@[b].index as int]);
        }
        assert forall|a: int| 0 <= a < r@.len() implies {
            &&& first_of_key(keys, #[trigger] r@[a].index as int)
            &&& r@[a].index < budget
            &&& r@[a].trials == turns(keys, budget as nat, keys[r@[a].index as int])
        } by {
            assert(list@[a].1 == r@[a]);
        }
        assert forall|j: int| 0 <= j < ops@.len() && j < budget implies allocated(keys, r@, #[trigger] keys[j]) by {
            assert(has_key(list@, keys[j]));
            let w = choose|w: int| 0 <= w < list@.len() && (#[trigger] list@[w]).0@ == keys[j];
            assert(r@[w] == list@[w].1);
        }
    }
    r
}

// ------------------------------------------------------------------------------------------
// Static priority.
// ------------------------------------------------------------------------------------------

/// The static arm's order of kinds: skills first, then diversity, recovery, early warnings,
/// contradictions, and every other kind last.
pub open spec fn static_kind_key(k: ExperienceOpportunityKind) -> u8 {
    match k {
        ExperienceOpportunityKind::HardenSkill => 0,
        ExperienceOpportunityKind::IncreaseEvidenceDiversity => 1,
        ExperienceOpportunityKind::ValidateRecovery => 2,
        ExperienceOpportunityKind::ValidateEarlyWarning => 3,
        ExperienceOpportunityKind::ResolveContradiction => 4,
        _ => 5,
    }
}

fn static_kind_key_exec(k: &ExperienceOpportunityKind) -> (r: u8)
    ensures
        r == static_kind_key(*k),
{
    match k {
        ExperienceOpportunityKind::HardenSkill => 0,
        ExperienceOpportunityKind::IncreaseEvidenceDiversity => 1,
        ExperienceOpportunityKind::ValidateRecovery => 2,
        ExperienceOpportunityKind::ValidateEarlyWarning => 3,
        ExperienceOpportunityKind::ResolveContradiction => 4,
        _ => 5,
    }
}

/// The static sort key: the kind's key byte, then the identifier's bytes; byte order on it
/// is the order by kind key and then by identifier.
pub open spec fn static_key(o: ExperienceOpportunity) -> Seq<u8> {
    seq![static_kind_key(o.kind)] + id_bytes(o)
}

pub open spec fn static_keys(ops: Seq<ExperienceOpportunity>) -> Seq<Seq<u8>> {
    ops.map_values(|o: ExperienceOpportunity| static_key(o))
}

/// The trials the allocations spend together.
pub open spec fn spent(s: Seq<Allocation>) -> nat
    decreases s.len(),
{
    if s.len() == 0 {
        0
    } else {
        spent(s.drop_last()) + s.last().trials as nat
    }
}

/// Walks `order` and takes each opportunity whose whole estimated trial count still fits in
/// `budget`.
pub open spec fn greedy(ops: Seq<ExperienceOpportunity>, order: Seq<usize>, budget: nat) -> Seq<Allocation>
    decreases order.len(),
{
    if order.len() == 0 {
        Seq::empty()
    } else {
        let prev = greedy(ops, order.drop_last(), budget);
        let idx = order.last();
        let t = ops[idx as int].estimated_cost.trials;
        if spent(prev) + t <= budget {
            prev.push(Allocation { index: idx, trials: t })
        } else {
            prev
        }
    }
}

/// Ranks the opportunities by kind key and then identifier (a stable sort) and takes, in
/// that order, each one whose estimated trials still fit in what is left of `budget`.
pub fn static_priority(ops: &[ExperienceOpportunity], budget: usize) -> (r: Vec<Allocation>)
    ensures
        exists|order: Seq<usize>| stably_sorted(static_keys(ops@), order) && r@ == greedy(ops@, order, budget as nat),
{
    let ghost sk = static_keys(ops@);
    let mut keys: Vec<Vec<u8>> = Vec::new();
    let mut i: usize = 0;
    while i < ops.len()
        invariant
            i <= ops@.len(),
            sk == static_keys(ops@),
            keys@.len() == i,
            forall|j: int| 0 <= j < i ==> (#[trigger] keys@[j])@ == sk[j],
        decreases ops.len() - i,
    {
        let mut key = ops[i].id.as_str().as_bytes_vec();
        let ghost id = key@;
        key.insert(0, static_kind_key_exec(&ops[i].kind));
        assert(key@ =~= sk[i as int]);
        keys.push(key);
        i = i + 1;
    }
    let order = stable_order(&keys);
    proof {
        assert(keys@.map_values(|k: Vec<u8>| k@) =~= sk);
    }
    let mut r: Vec<Allocation> = Vec::new();
    let mut remaining: usize = budget;
    let mut q: usize = 0;
    proof {
        assert(order@.take(0) =~= Seq::<usize>::empty());
    }
    while q < order.len()
        invariant
            q <= order@.len(),
            stably_sorted(sk, order@),
            sk == static_keys(ops@),
            r@ == greedy(ops@, order@.take(q as int), budget as nat),
            spent(r@) <= budget,
            remaining == budget - spent(r@),
        decreases order.len() - q,
    {
        let idx = order[q];
        let t = ops[idx].estimated_cost.trials;
        proof {
            assert(order@.take(q + 1).drop_last() =~= order@.take(q as int));
            assert(order@.take(q + 1).last() == idx);
        }
        if t <= remaining {
            let ghost prev = r@;
            r.push(Allocation { index: idx, trials: t });
            remaining = remaining - t;
            proof {
                assert(r@.drop_last() =~= prev);
            }
        }
        q = q + 1;
    }
    proof {
        assert(order@.take(q as int) =~= order@);
    }
    r
}

// ------------------------------------------------------------------------------------------
// What an arm achieved.
// ------------------------------------------------------------------------------------------

/// The sum of `f` over the allocations.
pub open spec fn total(s: Seq<Allocation>, f: spec_fn(Allocation) -> nat) -> nat
    decreases s.len(),
{
    if s.len() == 0 {
        0
    } else {
        total(s.drop_last(), f) + f(s.last())
    }
}

proof fn lemma_total_step(s: Seq<Allocation>, i: int, f: spec_fn(Allocation) -> nat)
    requires
        0 <= i < s.len(),
    ensures
        total(s.take(i + 1), f) == total(s.take(i), f) + f(s[i]),
{
    assert(s.take(i + 1).drop_last() =~= s.take(i));
}

proof fn lemma_total_prefix(s: Seq<Allocation>, i: int, f: spec_fn(Allocation) -> nat)
    requires
        0 <= i <= s.len(),
    ensures
        total(s.take(i), f) <= total(s, f),
    decreases s.len(),
{
    if i == s.len() {
        assert(s.take(i) =~= s);
    } else {
        assert(s.drop_last().take(i) =~= s.take(i));
        lemma_total_prefix(s.drop_last(), i, f);
    }
}

/// The allocation gives the opportunity all the trials it was estimated to need.
pub open spec fn complete(ops: Seq<ExperienceOpportunity>, a: Allocation) -> bool {
    a.trials >= ops[a.index as int].estimated_cost.trials
}

/// A complete allocation on evidence that is not saturated: one that can teach something.
pub open spec fn material(ops: Seq<ExperienceOpportunity>, a: Allocation) -> bool {
    complete(ops, a) && ops[a.index as int].saturation != EvidenceSaturation::Saturated
}

pub open spec fn one_if(b: bool) -> nat {
    if b { 1 } else { 0 }
}

pub open spec fn trials_measure() -> spec_fn(Allocation) -> nat {
    |a: Allocation| a.trials as nat
}

pub open spec fn runs_measure(ops: Seq<ExperienceOpportunity>) -> spec_fn(Allocation) -> nat {
    |a: Allocation| if complete(ops, a) { ops[a.index as int].estimated_cost.agent_runs as nat } else { 0 }
}

pub open spec fn critical_measure(ops: Seq<ExperienceOpportunity>) -> spec_fn(Allocation) -> nat {
    |a: Allocation| one_if(material(ops, a) && ops[a.index as int].risk_reduction.failure_severity == Severity::Critical)
}

pub open spec fn high_measure(ops: Seq<ExperienceOpportunity>) -> spec_fn(Allocation) -> nat {
    |a: Allocation| one_if(
        material(ops, a) && severity_rank(ops[a.index as int].risk_reduction.failure_severity) >= severity_rank(Severity::High),
    )
}

pub open spec fn contradiction_measure(ops: Seq<ExperienceOpportunity>) -> spec_fn(Allocation) -> nat {
    |a: Allocation| one_if(material(ops, a) && ops[a.index as int].saturation == EvidenceSaturation::Contradicted)
}

pub open spec fn runtime_measure(ops: Seq<ExperienceOpportunity>) -> spec_fn(Allocation) -> nat {
    |a: Allocation| one_if(material(ops, a) && ops[a.index as int].kind is ResolveRuntimeUnknown)
}

pub open spec fn assurance_measure(ops: Seq<ExperienceOpportunity>) -> spec_fn(Allocation) -> nat {
    |a: Allocation| one_if(material(ops, a) && has_reason(ops[a.index as int].rationale@, OpportunityReason::AssuranceBlocked))
}

pub open spec fn forecast_measure(ops: Seq<ExperienceOpportunity>) -> spec_fn(Allocation) -> nat {
    |a: Allocation| one_if(material(ops, a) && ops[a.index as int].kind is ValidateEarlyWarning)
}

pub open spec fn capability_measure(ops: Seq<ExperienceOpportunity>) -> spec_fn(Allocation) -> nat {
    |a: Allocation| one_if(material(ops, a) && ops[a.index as int].kind is MinimizeCapability)
}

pub open spec fn material_measure(ops: Seq<ExperienceOpportunity>) -> spec_fn(Allocation) -> nat {
    |a: Allocation| if material(ops, a) { a.trials as nat } else { 0 }
}

pub open spec fn saturated_measure(ops: Seq<ExperienceOpportunity>) -> spec_fn(Allocation) -> nat {
    |a: Allocation| if ops[a.index as int].saturation == EvidenceSaturation::Saturated { a.trials as nat } else { 0 }
}

pub open spec fn incomplete_measure(ops: Seq<ExperienceOpportunity>) -> spec_fn(Allocation) -> nat {
    |a: Allocation| if !complete(ops, a) { a.trials as nat } else { 0 }
}

/// An arm's selection and acquisition counts.
#[derive(Clone, Debug)]
pub struct ArmCounts {
    pub arm: String,
    pub selected: Vec<String>,
    pub trials_consumed: usize,
    pub agent_runs_consumed: usize,
    pub critical_gaps_closed: usize,
    pub high_severity_failures_mitigated: usize,
    pub contradictions_resolved: usize,
    pub runtime_decisions_improved: usize,
    pub assurance_blockers_closed: usize,
    pub early_warnings_validated: usize,
    pub capabilities_minimized: usize,
    pub material_trials: usize,
    pub wasted_trials: usize,
    pub saturated_evidence_spend: usize,
    pub unused_budget: usize,
}

/// The allocations point into `ops`, and their sums fit in a machine word.
pub open spec fn evaluable(ops: Seq<ExperienceOpportunity>, s: Seq<Allocation>) -> bool {
    &&& forall|a: int| 0 <= a < s.len() ==> (#[trigger] s[a]).index < ops.len()
    &&& total(s, trials_measure()) <= usize::MAX
    &&& total(s, runs_measure(ops)) <= usize::MAX
    &&& total(s, saturated_measure(ops)) + total(s, incomplete_measure(ops)) <= usize::MAX
}

/// The counts of an arm over `s`, spending from `budget`.
pub open spec fn arm_counts_match(c: ArmCounts, ops: Seq<ExperienceOpportunity>, s: Seq<Allocation>, budget: usize) -> bool {
    let trials = total(s, trials_measure());
    &&& c.selected@.len() == s.len()
    &&& forall|a: int| 0 <= a < s.len() ==> (#[trigger] c.selected@[a])@ == ops[s[a].index as int].id@
    &&& c.trials_consumed == trials
    &&& c.agent_runs_consumed == total(s, runs_measure(ops))
    &&& c.critical_gaps_closed == total(s, critical_measure(ops))
    &&& c.high_severity_failures_mitigated == total(s, high_measure(ops))
    &&& c.contradictions_resolved == total(s, contradiction_measure(ops))
    &&& c.runtime_decisions_improved == total(s, runtime_measure(ops))
    &&& c.assurance_blockers_closed == total(s, assurance_measure(ops))
    &&& c.early_warnings_validated == total(s, forecast_measure(ops))
    &&& c.capabilities_minimized == total(s, capability_measure(ops))
    &&& c.material_trials == total(s, material_measure(ops))
    &&& c.saturated_evidence_spend == total(s, saturated_measure(ops))
    &&& c.wasted_trials == total(s, saturated_measure(ops)) + total(s, incomplete_measure(ops))
    &&& c.unused_budget == if trials <= budget { (budget - trials) as usize } else { 0 }
}

/// Counts what an arm's allocations consumed and achieved: trials, agent runs of complete
/// allocations, and, among material allocations, critical and high-severity gaps closed,
/// contradictions resolved, runtime unknowns, assurance blockers, early warnings and
/// capability minimizations; trials spent on material, saturated and incomplete work; and
/// the budget left unused.
pub fn evaluate(arm: &str, ops: &[ExperienceOpportunity], allocations: &Vec<Allocation>, budget: usize) -> (r: ArmCounts)
    requires
        evaluable(ops@, allocations@),
    ensures
        r.arm@ == arm@,
        arm_counts_match(r, ops@, allocations@, budget),
{
    let ghost s = allocations@;
    let ghost o = ops@;
    let mut selected: Vec<String> = Vec::new();
    let mut trials: usize = 0;
    let mut runs: usize = 0;
    let mut critical: usize = 0;
    let mut high: usize = 0;
    let mut contradictions: usize = 0;
    let mut runtime: usize = 0;
    let mut assurance: usize = 0;
    let mut forecast: usize = 0;
    let mut capability: usize = 0;
    let mut material_trials: usize = 0;
    let mut saturated: usize = 0;
    let mut incomplete: usize = 0;
    let mut i: usize = 0;
    proof {
        assert(s.take(0) =~= Seq::<Allocation>::empty());
    }
    while i < allocations.len()
        invariant
            i <= s.len(),
            s == allocations@,
            o == ops@,
            evaluable(o, s),
            selected@.len() == i,
            forall|a: int| 0 <= a < i ==> (#[trigger] selected@[a])@ == o[s[a].index as int].id@,
            trials == total(s.take(i as int), trials_measure()),
            runs == total(s.take(i as int), runs_measure(o)),
            critical == total(s.take(i as int), critical_measure(o)),
            high == total(s.take(i as int), high_measure(o)),
            contradictions == total(s.take(i as int), contradiction_measure(o)),
            runtime == total(s.take(i as int), runtime_measure(o)),
            assurance == total(s.take(i as int), assurance_measure(o)),
            forecast == total(s.take(i as int), forecast_measure(o)),
            capability == total(s.take(i as int), capability_measure(o)),
            material_trials == total(s.take(i as int), material_measure(o)),
            saturated == total(s.take(i as int), saturated_measure(o)),
            incomplete == total(s.take(i as int), incomplete_measure(o)),
            critical <= i && high <= i && contradictions <= i && runtime <= i,
            assurance <= i && forecast <= i && capability <= i,
            material_trials <= trials,
        decreases allocations.len() - i,
    {
        let a = allocations[i];
        let op = &ops[a.index];
        proof {
            lemma_total_step(s, i as int, trials_measure());
            lemma_total_step(s, i as int, runs_measure(o));
            lemma_total_step(s, i as int, critical_measure(o));
            lemma_total_step(s, i as int, high_measure(o));
            lemma_total_step(s, i as int, contradiction_measure(o));
            lemma_total_step(s, i as int, runtime_measure(o));
            lemma_total_step(s, i as int, assurance_measure(o));
            lemma_total_step(s, i as int, forecast_measure(o));
            lemma_total_step(s, i as int, capability_measure(o));
            lemma_total_step(s, i as int, material_measure(o));
            lemma_total_step(s, i as int, saturated_measure(o));
            lemma_total_step(s, i as int, incomplete_measure(o));
            lemma_total_prefix(s, i + 1, trials_measure());
            lemma_total_prefix(s, i + 1, runs_measure(o));
            lemma_total_prefix(s, i + 1, saturated_measure(o));
            lemma_total_prefix(s, i + 1, incomplete_measure(o));
        }
        selected.push(op.id.clone());
        let is_complete = a.trials >= op.estimated_cost.trials;
        let is_saturated = op.saturation == EvidenceSaturation::Saturated;
        let is_material = is_complete && !is_saturated;
        trials = trials + a.trials;
        if is_complete {
            runs = runs + op.estimated_cost.agent_runs;
        }
        if is_material {
            material_trials = material_trials + a.trials;
            if op.risk_reduction.failure_severity == Severity::Critical {
                critical = critical + 1;
            }
            if op.risk_reduction.failure_severity.rank() >= Severity::High.rank() {
                high = high + 1;
            }
            if op.saturation == EvidenceSaturation::Contradicted {
                contradictions = contradictions + 1;
            }
            match op.kind {
                ExperienceOpportunityKind::ResolveRuntimeUnknown => {
                    runtime = runtime + 1;
                },
                ExperienceOpportunityKind::ValidateEarlyWarning => {
                    forecast = forecast + 1;
                },
                ExperienceOpportunityKind::MinimizeCapability => {
                    capability = capability + 1;
                },
                _ => {},
            }
            if contains_reason(&op.rationale, &OpportunityReason::AssuranceBlocked) {
                assurance = assurance + 1;
            }
        }
        if is_saturated {
            saturated = saturated + a.trials;
        }
        if !is_complete {
            incomplete = incomplete + a.trials;
        }
        i = i + 1;
    }
    proof {
        assert(s.take(i as int) =~= s);
    }
    let unused = if trials <= budget { budget - trials } else { 0 };
    ArmCounts {
        arm: String::from_str(arm),
        selected,
        trials_consumed: trials,
        agent_runs_consumed: runs,
        critical_gaps_closed: critical,
        high_severity_failures_mitigated: high,
        contradictions_resolved: contradictions,
        runtime_decisions_improved: runtime,
        assurance_blockers_closed: assurance,
        early_warnings_validated: forecast,
        capabilities_minimized: capability,
        material_trials,
        wasted_trials: saturated + incomplete,
        saturated_evidence_spend: saturated,
        unused_budget: unused,
    }
}

/// Whether the allocations point into `ops` and their sums fit in a machine word.
pub fn fits_in_word(ops: &[ExperienceOpportunity], allocations: &Vec<Allocation>) -> (r: bool)
    ensures
        r == evaluable(ops@, allocations@),
{
    let ghost s = allocations@;
    let ghost o = ops@;
    let mut trials: usize = 0;
    let mut runs: usize = 0;
    let mut wasted: usize = 0;
    let mut i: usize = 0;
    proof {
        assert(s.take(0) =~= Seq::<Allocation>::empty());
    }
    while i < allocations.len()
        invariant
            i <= s.len(),
            s == allocations@,
            o == ops@,
            forall|a: int| 0 <= a < i ==> (#[trigger] s[a]).index < o.len(),
            trials == total(s.take(i as int), trials_measure()),
            runs == total(s.take(i as int), runs_measure(o)),
            wasted == total(s.take(i as int), saturated_measure(o)) + total(s.take(i as int), incomplete_measure(o)),
        decreases allocations.len() - i,
    {
        let a = allocations[i];
        if a.index >= ops.len() {
            return false;
        }
        let op = &ops[a.index];
        proof {
            lemma_total_step(s, i as int, trials_measure());
            lemma_total_step(s, i as int, runs_measure(o));
            lemma_total_step(s, i as int, saturated_measure(o));
            lemma_total_step(s, i as int, incomplete_measure(o));
            lemma_total_prefix(s, i + 1, trials_measure());
            lemma_total_prefix(s, i + 1, runs_measure(o));
            lemma_total_prefix(s, i + 1, saturated_measure(o));
            lemma_total_prefix(s, i + 1, incomplete_measure(o));
        }
        let is_complete = a.trials >= op.estimated_cost.trials;
        let extra_runs: usize = if is_complete { op.estimated_cost.agent_runs } else { 0 };
        let mut extra_waste: usize = 0;
        if op.saturation == EvidenceSaturation::Saturated {
            extra_waste = a.trials;
        }
        if !is_complete {
            if extra_waste > usize::MAX - a.trials {
                return false;
            }
            extra_waste = extra_waste + a.trials;
        }
        if trials > usize::MAX - a.trials || runs > usize::MAX - extra_runs || wasted > usize::MAX - extra_waste {
            return false;
        }
        trials = trials + a.trials;
        runs = runs + extra_runs;
        wasted = wasted + extra_waste;
        i = i + 1;
    }
    proof {
        assert(s.take(i as int) =~= s);
    }
    true
}

// ------------------------------------------------------------------------------------------
// The adaptive arm.
// ------------------------------------------------------------------------------------------

/// Position `j` is the last opportunity with identifier `id`.
pub open spec fn last_with_id(ops: Seq<ExperienceOpportunity>, id: Seq<char>, j: int) -> bool {
    0 <= j < ops.len() && ops[j].id@ == id && forall|k: int| j < k < ops.len() ==> ops[k].id@ != id
}

/// `r` turns the selections into allocations: each at the last opportunity with the
/// selected identifier, with the trials reserved for it.
pub open spec fn picks(ops: Seq<ExperienceOpportunity>, sel: Seq<PortfolioSelection>, r: Seq<Allocation>) -> bool {
    &&& r.len() == sel.len()
    &&& forall|i: int| 0 <= i < sel.len() ==> last_with_id(ops, sel[i].opportunity@, #[trigger] r[i].index as int)
        && r[i].trials == sel[i].reserved_cost.trials
}

/// `r` is what the adaptive portfolio allocates over `ops`.
pub open spec fn adaptive_result(
    ops: Seq<ExperienceOpportunity>,
    context: ExperiencePlanningContext,
    budget: ExperienceBudget,
    r: Seq<Allocation>,
) -> bool {
    exists|p: ExperiencePortfolio|
        allocates(p, ops, context.objective, budget, views(context.completed_dependencies@), context.now)
            && #[trigger] picks(ops, p.selected@, r)
}

/// Some opportunity has this identifier.
pub open spec fn names_opportunity(ops: Seq<ExperienceOpportunity>, id: Seq<char>) -> bool {
    exists|k: int| 0 <= k < ops.len() && (#[trigger] ops[k]).id@ == id
}

fn last_index_of(ops: &[ExperienceOpportunity], id: &str) -> (r: Option<usize>)
    ensures
        match r {
            Some(j) => last_with_id(ops@, id@, j as int),
            None => !names_opportunity(ops@, id@),
        },
{
    let mut j: usize = ops.len();
    while j > 0
        invariant
            j <= ops@.len(),
            forall|k: int| j <= k < ops@.len() ==> (#[trigger] ops@[k]).id@ != id@,
        decreases j,
    {
        if str_eq(ops[j - 1].id.as_str(), id) {
            return Some(j - 1);
        }
        j = j - 1;
    }
    None
}

/// Allocates with the adaptive portfolio and gives each selected opportunity the trials
/// reserved for it. A budget that allows no parallel trial is refused.
pub fn adaptive(ops: &[ExperienceOpportunity], context: &ExperiencePlanningContext, budget: &ExperienceBudget) -> (r: Result<
    Vec<Allocation>,
    Error,
>)
    ensures
        r is Err <==> budget.max_parallel_trials == Some(0usize),
        r matches Ok(v) ==> adaptive_result(ops@, *context, *budget, v@),
{
    let portfolio = match DeterministicExperienceAllocationPolicy.allocate(ops, budget, context) {
        Ok(p) => p,
        Err(e) => return Err(e),
    };
    let ghost completed = views(context.completed_dependencies@);
    proof {
        assert(completed == context.completed_dependencies@.map_values(|x: String| x@));
        let order = choose|order: Seq<usize>|
            ranked_order(ops@, context.objective, order) && #[trigger] allocates_with(
                portfolio,
                AllocInput { ops: ops@, objective: context.objective, budget: *budget, completed, order },
            );
        let input = AllocInput { ops: ops@, objective: context.objective, budget: *budget, completed, order };
        lemma_selected_in_range(input, ops@.len() as int);
        let st = alloc_state(input, ops@.len() as int);
        assert forall|q: int| 0 <= q < portfolio.selected@.len() implies names_opportunity(
            ops@,
            (#[trigger] portfolio.selected@[q]).opportunity@,
        ) by {
            assert(selection_matches(portfolio.selected@[q], ops@[st.selected[q]], context.objective, q));
            assert(ops@[st.selected[q]].id@ == portfolio.selected@[q].opportunity@);
        }
    }
    let mut r: Vec<Allocation> = Vec::new();
    let mut i: usize = 0;
    while i < portfolio.selected.len()
        invariant
            i <= portfolio.selected@.len(),
            completed == views(context.completed_dependencies@),
            allocates(portfolio, ops@, context.objective, *budget, completed, context.now),
            forall|q: int| 0 <= q < portfolio.selected@.len() ==> names_opportunity(
                ops@,
                (#[trigger] portfolio.selected@[q]).opportunity@,
            ),
            r@.len() == i,
            forall|q: int| 0 <= q < i ==> last_with_id(ops@, portfolio.selected@[q].opportunity@, #[trigger] r@[q].index as int)
                && r@[q].trials == portfolio.selected@[q].reserved_cost.trials,
        decreases portfolio.selected.len() - i,
    {
        let sel = &portfolio.selected[i];
        match last_index_of(ops, sel.opportunity.as_str()) {
            Some(j) => {
                r.push(Allocation { index: j, trials: sel.reserved_cost.trials });
            },
            None => {
                proof {
                    assert(names_opportunity(ops@, portfolio.selected@[i as int].opportunity@));
                    assert(false);
                }
            },
        }
        i = i + 1;
    }
    proof {
        assert(picks(ops@, portfolio.selected@, r@));
    }
    Ok(r)
}

// ------------------------------------------------------------------------------------------
// The fixture.
// ------------------------------------------------------------------------------------------

/// One row of the fixture backlog: the parameters of one gap.
pub ghost struct GapRow {
    pub label: Seq<char>,
    pub kind: ExperienceOpportunityKind,
    pub reason: OpportunityReason,
    pub severity: Severity,
    pub exposure: ExposureBand,
    pub band: ValueBand,
    pub trials: usize,
    pub runs: usize,
    pub evidence: EvidenceSummary,
}

pub open spec fn sparse_evidence() -> EvidenceSummary {
    EvidenceSummary {
        observations: 0,
        equivalent_replications: 0,
        distinct_contexts: 0,
        counterfactuals: 0,
        diversity_domains: 0,
        contradictions: 0,
        fresh: false,
    }
}

pub open spec fn saturated_evidence() -> EvidenceSummary {
    EvidenceSummary {
        observations: 12,
        equivalent_replications: 8,
        distinct_contexts: 3,
        counterfactuals: 3,
        diversity_domains: 3,
        contradictions: 0,
        fresh: true,
    }
}

pub open spec fn contradicted_evidence() -> EvidenceSummary {
    EvidenceSummary {
        observations: 4,
        equivalent_replications: 2,
        distinct_contexts: 2,
        counterfactuals: 1,
        diversity_domains: 2,
        contradictions: 1,
        fresh: true,
    }
}

fn evidence_of(which: u8) -> (r: EvidenceSummary)
    ensures
        r == if which == 1 {
            saturated_evidence()
        } else if which == 2 {
            contradicted_evidence()
        } else {
            sparse_evidence()
        },
{
    if which == 1 {
        EvidenceSummary {
            observations: 12,
            equivalent_replications: 8,
            distinct_contexts: 3,
            counterfactuals: 3,
            diversity_domains: 3,
            contradictions: 0,
            fresh: true,
        }
    } else if which == 2 {
        EvidenceSummary {
            observations: 4,
            equivalent_replications: 2,
            distinct_contexts: 2,
            counterfactuals: 1,
            diversity_domains: 2,
            contradictions: 1,
            fresh: true,
        }
    } else {
        EvidenceSummary {
            observations: 0,
            equivalent_replications: 0,
            distinct_contexts: 0,
            counterfactuals: 0,
            diversity_domains: 0,
            contradictions: 0,
            fresh: false,
        }
    }
}

/// Row `i` of the fixture: five saturated low-value skills first, then five medium
/// diversity gaps, two contradictions, two causal questions, two forecast misses, one
/// over-provisioned capability, three missing recoveries and two critical failures.
pub open spec fn fixture_row(i: int) -> GapRow {
    if i < 5 {
        GapRow {
            label: "saturated-low-"@ + decimal_chars(i as nat),
            kind: ExperienceOpportunityKind::HardenSkill,
            reason: OpportunityReason::EvidenceSaturated,
            severity: Severity::Low,
            exposure: ExposureBand::Rare,
            band: ValueBand::Low,
            trials: 1,
            runs: 0,
            evidence: saturated_evidence(),
        }
    } else if i < 10 {
        GapRow {
            label: "medium-"@ + decimal_chars((i - 5) as nat),
            kind: ExperienceOpportunityKind::IncreaseEvidenceDiversity,
            reason: OpportunityReason::LowEvidenceDiversity,
            severity: Severity::Medium,
            exposure: ExposureBand::Occasional,
            band: ValueBand::Medium,
            trials: 1,
            runs: 0,
            evidence: sparse_evidence(),
        }
    } else if i < 12 {
        GapRow {
            label: "contradiction-"@ + decimal_chars((i - 10) as nat),
            kind: ExperienceOpportunityKind::ResolveContradiction,
            reason: OpportunityReason::EvidenceContradicted,
            severity: Severity::High,
            exposure: ExposureBand::Frequent,
            band: ValueBand::Critical,
            trials: 2,
            runs: 1,
            evidence: contradicted_evidence(),
        }
    } else if i < 14 {
        GapRow {
            label: "causal-"@ + decimal_chars((i - 12) as nat),
            kind: ExperienceOpportunityKind::DiscriminateCausalHypotheses,
            reason: OpportunityReason::CausalMechanismUnknown,
            severity: Severity::Medium,
            exposure: ExposureBand::Occasional,
            band: ValueBand::High,
            trials: 2,
            runs: 1,
            evidence: sparse_evidence(),
        }
    } else if i < 16 {
        GapRow {
            label: "forecast-"@ + decimal_chars((i - 14) as nat),
            kind: ExperienceOpportunityKind::ValidateEarlyWarning,
            reason: OpportunityReason::ForecastMiss,
            severity: Severity::High,
            exposure: ExposureBand::Frequent,
            band: ValueBand::High,
            trials: 2,
            runs: 0,
            evidence: sparse_evidence(),
        }
    } else if i < 17 {
        GapRow {
            label: "capability-minimization"@,
            kind: ExperienceOpportunityKind::MinimizeCapability,
            reason: OpportunityReason::CapabilityOverprovisioned,
            severity: Severity::Medium,
            exposure: ExposureBand::VeryFrequent,
            band: ValueBand::High,
            trials: 1,
            runs: 0,
            evidence: sparse_evidence(),
        }
    } else if i < 20 {
        GapRow {
            label: "high-"@ + decimal_chars((i - 17) as nat),
            kind: ExperienceOpportunityKind::ValidateRecovery,
            reason: OpportunityReason::RecoveryMissing,
            severity: Severity::High,
            exposure: ExposureBand::Frequent,
            band: ValueBand::High,
            trials: 2,
            runs: 1,
            evidence: sparse_evidence(),
        }
    } else {
        GapRow {
            label: "critical-"@ + decimal_chars((i - 20) as nat),
            kind: ExperienceOpportunityKind::ValidateRecovery,
            reason: OpportunityReason::CriticalFailureUnmitigated,
            severity: Severity::Critical,
            exposure: ExposureBand::VeryFrequent,
            band: ValueBand::Critical,
            trials: 3,
            runs: 1,
            evidence: sparse_evidence(),
        }
    }
}

pub open spec fn frequent(e: ExposureBand) -> bool {
    e == ExposureBand::Frequent || e == ExposureBand::VeryFrequent
}

pub open spec fn affected_decisions(e: ExposureBand) -> usize {
    match e {
        ExposureBand::VeryFrequent => 100,
        ExposureBand::Frequent => 20,
        ExposureBand::Occasional => 5,
        _ => 1,
    }
}

/// A safe, read-only risk with no isolation and no approval.
pub open spec fn safe_read_only_risk() -> OpportunityRisk {
    OpportunityRisk {
        trial_safety: TrialSafety::Safe,
        external_effect_risk: EffectRisk::ReadOnly,
        isolation_required: RealityRequirements {
            filesystem_isolation: IsolationLevel::Unisolated,
            process_isolation: IsolationLevel::Unisolated,
            network_isolation: IsolationLevel::Unisolated,
            credential_isolation: IsolationLevel::Unisolated,
            effect_gating: false,
        },
        approval_required: false,
    }
}

/// `g` is the gap built from `row`: its target is a runtime gap named by the label, the
/// mitigation gap follows the severity, decision relevance and reuse follow the exposure,
/// and the cost is the row's trials and agent runs at thirty seconds a trial.
pub open spec fn gap_made(g: ExperienceGap, row: GapRow) -> bool {
    let freq = frequent(row.exposure);
    &&& g.kind == row.kind
    &&& (g.target matches ExperienceOpportunityTarget::RuntimeGap(l) && l@ == row.label)
    &&& g.reasons@ == seq![row.reason]
    &&& g.severity == row.severity
    &&& g.exposure == row.exposure
    &&& g.mitigation_gap == if severity_rank(row.severity) >= severity_rank(Severity::High) {
        MitigationGap::Unmitigated
    } else {
        MitigationGap::Partial
    }
    &&& g.learning.band == row.band
    &&& g.learning.possible_outcomes@ == seq![LearningOutcomeClass::Validate, LearningOutcomeClass::NoMaterialChange]
    &&& g.learning.decision_changing_outcomes == if value_rank(row.band) >= value_rank(ValueBand::High) { 1usize } else { 0usize }
    &&& views(g.learning.rationale@) == seq!["deterministic benchmark outcome classes"@]
    &&& g.decision_relevance == (DecisionRelevance {
        affected_decisions: affected_decisions(row.exposure),
        affected_task_families: if freq { 2 } else { 1 },
        current_runtime_use: if freq { RuntimeUseBand::High } else { RuntimeUseBand::Low },
        likely_decision_change: row.band,
    })
    &&& g.reuse == if freq { ReusePotential::Broad } else { ReusePotential::Narrow }
    &&& g.novelty == EvidenceNovelty::ContextExtension
    &&& g.evidence == row.evidence
    &&& g.estimated_cost == (ExperimentCost {
        trials: row.trials,
        agent_runs: row.runs,
        estimated_duration_ms: Some((row.trials * 30_000) as u64),
        compute: ComputeCostBand::Negligible,
        human_attention: AttentionCostBand::NoAttention,
        staging_resources: ResourceCostBand::NoResources,
        external_effect_risk: EffectRisk::ReadOnly,
    })
    &&& g.risk == safe_read_only_risk()
    &&& g.dependencies@.len() == 0
}

fn is_frequent(e: ExposureBand) -> (r: bool)
    ensures
        r == frequent(e),
{
    match e {
        ExposureBand::Frequent | ExposureBand::VeryFrequent => true,
        _ => false,
    }
}

/// The gap of one fixture row.
fn gap(
    label: String,
    kind: ExperienceOpportunityKind,
    reason: OpportunityReason,
    severity: Severity,
    exposure: ExposureBand,
    band: ValueBand,
    trials: usize,
    runs: usize,
    evidence: EvidenceSummary,
) -> (g: ExperienceGap)
    requires
        trials <= 1000,
    ensures
        gap_made(g, GapRow { label: label@, kind, reason, severity, exposure, band, trials, runs, evidence }),
{
    let freq = is_frequent(exposure);
    let affected: usize = match exposure {
        ExposureBand::VeryFrequent => 100,
        ExposureBand::Frequent => 20,
        ExposureBand::Occasional => 5,
        _ => 1,
    };
    let mut rationale: Vec<String> = Vec::new();
    rationale.push(String::from_str("deterministic benchmark outcome classes"));
    let mut outcomes: Vec<LearningOutcomeClass> = Vec::new();
    outcomes.push(LearningOutcomeClass::Validate);
    outcomes.push(LearningOutcomeClass::NoMaterialChange);
    let mut reasons: Vec<OpportunityReason> = Vec::new();
    reasons.push(reason);
    let g = ExperienceGap {
        kind,
        target: ExperienceOpportunityTarget::RuntimeGap(label),
        reasons,
        severity,
        exposure,
        mitigation_gap: if severity.rank() >= Severity::High.rank() {
            MitigationGap::Unmitigated
        } else {
            MitigationGap::Partial
        },
        learning: LearningValueEstimate {
            band,
            possible_outcomes: outcomes,
            decision_changing_outcomes: if band.rank() >= ValueBand::High.rank() { 1 } else { 0 },
            rationale,
        },
        decision_relevance: DecisionRelevance {
            affected_decisions: affected,
            affected_task_families: if freq { 2 } else { 1 },
            current_runtime_use: if freq { RuntimeUseBand::High } else { RuntimeUseBand::Low },
            likely_decision_change: band,
        },
        reuse: if freq { ReusePotential::Broad } else { ReusePotential::Narrow },
        novelty: EvidenceNovelty::ContextExtension,
        evidence,
        estimated_cost: ExperimentCost {
            trials,
            agent_runs: runs,
            estimated_duration_ms: Some((trials as u64) * 30_000),
            compute: ComputeCostBand::Negligible,
            human_attention: AttentionCostBand::NoAttention,
            staging_resources: ResourceCostBand::NoResources,
            external_effect_risk: EffectRisk::ReadOnly,
        },
        risk: default_opportunity_risk(),
        dependencies: Vec::new(),
    };
    proof {
        assert(views(g.learning.rationale@) =~= seq!["deterministic benchmark outcome classes"@]);
        assert(g.learning.possible_outcomes@ =~= seq![LearningOutcomeClass::Validate, LearningOutcomeClass::NoMaterialChange]);
        assert(g.reasons@ =~= seq![reason]);
    }
    g
}

/// Appends `count` gaps of one kind, labelled by `prefix` and their number from zero.
fn push_series(
    gaps: &mut Vec<ExperienceGap>,
    prefix: &str,
    count: u64,
    kind: &ExperienceOpportunityKind,
    reason: &OpportunityReason,
    severity: Severity,
    exposure: ExposureBand,
    band: ValueBand,
    trials: usize,
    runs: usize,
    evidence: EvidenceSummary,
)
    requires
        trials <= 1000,
        old(gaps)@.len() + count <= usize::MAX,
    ensures
        final(gaps)@.len() == old(gaps)@.len() + count,
        forall|j: int| 0 <= j < old(gaps)@.len() ==> final(gaps)@[j] == old(gaps)@[j],
        forall|k: int| 0 <= k < count ==> gap_made(
            #[trigger] final(gaps)@[old(gaps)@.len() + k],
            GapRow {
                label: prefix@ + decimal_chars(k as nat),
                kind: *kind,
                reason: *reason,
                severity,
                exposure,
                band,
                trials,
                runs,
                evidence,
            },
        ),
{
    let ghost start = gaps@;
    let mut k: u64 = 0;
    while k < count
        invariant
            k <= count,
            start.len() + count <= usize::MAX,
            trials <= 1000,
            gaps@.len() == start.len() + k,
            forall|j: int| 0 <= j < start.len() ==> gaps@[j] == start[j],
            forall|x: int| 0 <= x < k ==> gap_made(
                #[trigger] gaps@[start.len() + x],
                GapRow {
                    label: prefix@ + decimal_chars(x as nat),
                    kind: *kind,
                    reason: *reason,
                    severity,
                    exposure,
                    band,
                    trials,
                    runs,
                    evidence,
                },
            ),
        decreases count - k,
    {
        let mut label = String::from_str(prefix);
        append_decimal(&mut label, k);
        let g = gap(label, kind.duplicate(), reason.duplicate(), severity, exposure, band, trials, runs, evidence);
        gaps.push(g);
        k = k + 1;
    }
}

/// The fixture: twenty-two gaps, in the order of `fixture_row`, to plan for at a fixed time.
pub open spec fn benchmark_fixture(c: ExperiencePlanningContext) -> bool {
    &&& c.gaps@.len() == 22
    &&& forall|i: int| 0 <= i < 22 ==> gap_made(#[trigger] c.gaps@[i], fixture_row(i))
    &&& c.completed_dependencies@.len() == 0
    &&& c.objective == ExperiencePortfolioObjective::Balanced
    &&& c.now == 1_735_689_600_000i64
}

/// A deliberately mixed backlog: low-value saturated items come first, so an allocator that
/// spreads trials evenly pays for them while the adaptive one does not.
pub fn benchmark_context() -> (r: ExperiencePlanningContext)
    ensures
        benchmark_fixture(r),
{
    let mut gaps: Vec<ExperienceGap> = Vec::new();
    push_series(&mut gaps, "saturated-low-", 5, &ExperienceOpportunityKind::HardenSkill,
        &OpportunityReason::EvidenceSaturated, Severity::Low, ExposureBand::Rare, ValueBand::Low, 1, 0, evidence_of(1));
    push_series(&mut gaps, "medium-", 5, &ExperienceOpportunityKind::IncreaseEvidenceDiversity,
        &OpportunityReason::LowEvidenceDiversity, Severity::Medium, ExposureBand::Occasional, ValueBand::Medium, 1, 0,
        evidence_of(0));
    push_series(&mut gaps, "contradiction-", 2, &ExperienceOpportunityKind::ResolveContradiction,
        &OpportunityReason::EvidenceContradicted, Severity::High, ExposureBand::Frequent, ValueBand::Critical, 2, 1,
        evidence_of(2));
    push_series(&mut gaps, "causal-", 2, &ExperienceOpportunityKind::DiscriminateCausalHypotheses,
        &OpportunityReason::CausalMechanismUnknown, Severity::Medium, ExposureBand::Occasional, ValueBand::High, 2, 1,
        evidence_of(0));
    push_series(&mut gaps, "forecast-", 2, &ExperienceOpportunityKind::ValidateEarlyWarning,
        &OpportunityReason::ForecastMiss, Severity::High, ExposureBand::Frequent, ValueBand::High, 2, 0, evidence_of(0));
    let ghost before = gaps@;
    gaps.push(gap(String::from_str("capability-minimization"), ExperienceOpportunityKind::MinimizeCapability,
        OpportunityReason::CapabilityOverprovisioned, Severity::Medium, ExposureBand::VeryFrequent, ValueBand::High, 1, 0,
        evidence_of(0)));
    push_series(&mut gaps, "high-", 3, &ExperienceOpportunityKind::ValidateRecovery,
        &OpportunityReason::RecoveryMissing, Severity::High, ExposureBand::Frequent, ValueBand::High, 2, 1,
        evidence_of(0));
    push_series(&mut gaps, "critical-", 2, &ExperienceOpportunityKind::ValidateRecovery,
        &OpportunityReason::CriticalFailureUnmitigated, Severity::Critical, ExposureBand::VeryFrequent,
        ValueBand::Critical, 3, 1, evidence_of(0));
    proof {
        assert forall|i: int| 0 <= i < 22 implies gap_made(#[trigger] gaps@[i], fixture_row(i)) by {
            if i < 5 {
                assert(gaps@[0 + i] == gaps@[i]);
            } else if i < 10 {
                assert(gaps@[5 + (i - 5)] == gaps@[i]);
            } else if i < 12 {
                assert(gaps@[10 + (i - 10)] == gaps@[i]);
            } else if i < 14 {
                assert(gaps@[12 + (i - 12)] == gaps@[i]);
            } else if i < 16 {
                assert(gaps@[14 + (i - 14)] == gaps@[i]);
            } else if i < 17 {
            } else if i < 20 {
                assert(gaps@[17 + (i - 17)] == gaps@[i]);
            } else {
                assert(gaps@[20 + (i - 20)] == gaps@[i]);
            }
        }
    }
    ExperiencePlanningContext {
        gaps,
        completed_dependencies: Vec::new(),
        objective: ExperiencePortfolioObjective::Balanced,
        now: 1_735_689_600_000,
    }
}

pub open spec fn fixed_budget() -> ExperienceBudget {
    ExperienceBudget {
        max_realities: 20,
        max_curriculum_trials: Some(20),
        max_agent_runs: 5,
        max_duration_ms: Some(3_600_000),
        max_commands_per_reality: None,
        max_parallel_trials: Some(1),
        max_human_approvals: Some(0),
        allowed_effect_risk: EffectRisk::ReadOnly,
    }
}

/// The fixed budget: twenty trials, five agent runs, an hour, one trial at a time, no
/// approvals, read-only effects.
fn fixed_budget_exec() -> (r: ExperienceBudget)
    ensures
        r == fixed_budget(),
{
    ExperienceBudget {
        max_realities: 20,
        max_curriculum_trials: Some(20),
        max_agent_runs: 5,
        max_duration_ms: Some(3_600_000),
        max_commands_per_reality: None,
        max_parallel_trials: Some(1),
        max_human_approvals: Some(0),
        allowed_effect_risk: EffectRisk::ReadOnly,
    }
}

pub const BENCHMARK_FIXTURE: &'static str = "economics/fixed-budget-v1";

/// The benchmark's integer outcome: the fixture, the budget, the backlog size and, for round
/// robin, static priority and the adaptive portfolio in that order, the arm's counts.
#[derive(Clone, Debug)]
pub struct EconomicsBenchmarkCounts {
    pub fixture: String,
    pub budget: ExperienceBudget,
    pub backlog_size: usize,
    pub arms: Vec<ArmCounts>,
}

/// `ops` is the backlog generated from the fixture, and `rr`, `sp` and `ad` are what the
/// three arms allocate over it.
pub open spec fn benchmark_inputs(
    c: ExperiencePlanningContext,
    ops: Seq<ExperienceOpportunity>,
    rr: Seq<Allocation>,
    sp: Seq<Allocation>,
    ad: Seq<Allocation>,
) -> bool {
    let budget = fixed_budget();
    let trials = budget.max_trials_spec();
    &&& benchmark_fixture(c)
    &&& generated_exactly(ops, c.gaps@, c.gaps@.len() as int, c.now)
    &&& round_robin_result(ops, trials as nat, rr)
    &&& (exists|order: Seq<usize>| stably_sorted(static_keys(ops), order) && sp == greedy(ops, order, trials as nat))
    &&& adaptive_result(ops, c, budget, ad)
}

/// `ops` is the backlog generated from the fixture, `rr`, `sp` and `ad` are what the three
/// arms allocate over it, and `b` counts them.
pub open spec fn benchmark_outcome(
    b: EconomicsBenchmarkCounts,
    c: ExperiencePlanningContext,
    ops: Seq<ExperienceOpportunity>,
    rr: Seq<Allocation>,
    sp: Seq<Allocation>,
    ad: Seq<Allocation>,
) -> bool {
    let budget = fixed_budget();
    let trials = budget.max_trials_spec();
    &&& benchmark_inputs(c, ops, rr, sp, ad)
    &&& b.fixture@ == BENCHMARK_FIXTURE@
    &&& b.budget == budget
    &&& b.backlog_size == ops.len()
    &&& b.arms@.len() == 3
    &&& b.arms@[0].arm@ == "round_robin"@ && arm_counts_match(b.arms@[0], ops, rr, trials)
    &&& b.arms@[1].arm@ == "static_priority"@ && arm_counts_match(b.arms@[1], ops, sp, trials)
    &&& b.arms@[2].arm@ == "hardknock_adaptive_portfolio"@ && arm_counts_match(b.arms@[2], ops, ad, trials)
}

/// Runs the three arms on the fixture's backlog with the fixed budget and counts what each
/// achieved. Refused only where an arm's sums would not fit in a machine word.
pub fn run() -> (r: Result<EconomicsBenchmarkCounts, Error>)
    ensures
        r matches Ok(b) ==> exists|c: ExperiencePlanningContext, ops: Seq<ExperienceOpportunity>, rr: Seq<Allocation>, sp: Seq<
            Allocation,
        >, ad: Seq<Allocation>| #[trigger] benchmark_outcome(b, c, ops, rr, sp, ad),
        r matches Err(e) ==> e is InvalidInput,
        r is Err ==> exists|c: ExperiencePlanningContext, ops: Seq<ExperienceOpportunity>, rr: Seq<Allocation>, sp: Seq<
            Allocation,
        >, ad: Seq<Allocation>| #[trigger] benchmark_inputs(c, ops, rr, sp, ad) && !(evaluable(ops, rr) && evaluable(ops, sp)
            && evaluable(ops, ad)),
{
    let context = benchmark_context();
    let opportunities = match DeterministicExperienceOpportunityGenerator.generate(&context) {
        Ok(v) => v,
        Err(e) => return Err(e),
    };
    let budget = fixed_budget_exec();
    let trials = budget.max_trials();
    let ops = opportunities.as_slice();
    let rr = round_robin(ops, trials);
    let sp = static_priority(ops, trials);
    let ad = match adaptive(ops, &context, &budget) {
        Ok(v) => v,
        Err(e) => return Err(e),
    };
    proof {
        assert(benchmark_inputs(context, opportunities@, rr@, sp@, ad@));
    }
    if !fits_in_word(ops, &rr) || !fits_in_word(ops, &sp) || !fits_in_word(ops, &ad) {
        return Err(Error::InvalidInput(String::from_str("Benchmark totals do not fit in a machine word")));
    }
    let mut arms: Vec<ArmCounts> = Vec::new();
    arms.push(evaluate("round_robin", ops, &rr, trials));
    arms.push(evaluate("static_priority", ops, &sp, trials));
    arms.push(evaluate("hardknock_adaptive_portfolio", ops, &ad, trials));
    let b = EconomicsBenchmarkCounts {
        fixture: String::from_str(BENCHMARK_FIXTURE),
        budget,
        backlog_size: opportunities.len(),
        arms,
    };
    proof {
        assert(benchmark_outcome(b, context, opportunities@, rr@, sp@, ad@));
    }
    Ok(b)
}

} // verus!
