//! Comparison of evaluated candidates: success first, then failed checks, then the
//! optional secondary criteria.
use vstd::prelude::*;
use crate::common::ProcessStatus;
use crate::evaluation::{check_ok, CheckResult, CheckStatus, EvaluationStatus};
use crate::error::Error;
use crate::experimentation::{CandidateResult, ComparisonCriteria, ExperimentComparison};
use crate::text::{opt_view, str_eq, views};

verus! {

pub open spec fn incomplete_candidate(c: CandidateResult) -> bool {
    c.evaluation.status != EvaluationStatus::Completed || c.execution_status == ProcessStatus::Interrupted
        || c.execution_status == ProcessStatus::TimedOut
}

/// Fewer than two candidates, or one was not evaluated to completion.
pub open spec fn not_comparable(cs: Seq<CandidateResult>) -> bool {
    cs.len() < 2 || exists|i: int| 0 <= i < cs.len() && #[trigger] incomplete_candidate(cs[i])
}

pub open spec fn spec_valid(c: CandidateResult) -> bool {
    forall|j: int| 0 <= j < c.evaluation.spec.checks@.len() ==> check_ok(#[trigger] c.evaluation.spec.checks@[j]@)
}

pub open spec fn all_specs_valid(cs: Seq<CandidateResult>) -> bool {
    forall|i: int| 0 <= i < cs.len() ==> #[trigger] spec_valid(cs[i])
}

/// A candidate started elsewhere than the first, or was judged by other checks.
pub open spec fn mismatched(cs: Seq<CandidateResult>) -> bool {
    exists|i: int| 0 <= i < cs.len() && #[trigger] differs_from_first(cs, i)
}

pub open spec fn differs_from_first(cs: Seq<CandidateResult>, i: int) -> bool {
    cs[i].starting_fingerprint@ != cs[0].starting_fingerprint@
        || views(cs[i].evaluation.spec.checks@) != views(cs[0].evaluation.spec.checks@)
}

pub open spec fn text_diff(c: CandidateResult) -> bool {
    c.diff_summary matches Some(d) && d.binary_files == 0
}

/// Diff size is used when asked for and every candidate has a text-only diff.
pub open spec fn diff_usable(crit: ComparisonCriteria, cs: Seq<CandidateResult>) -> bool {
    crit.minimize_diff_size && forall|i: int| 0 <= i < cs.len() ==> #[trigger] text_diff(cs[i])
}

pub open spec fn failed_count(checks: Seq<CheckResult>) -> nat
    decreases checks.len(),
{
    if checks.len() == 0 {
        0
    } else {
        failed_count(checks.drop_last()) + if checks.last().status == CheckStatus::Failed { 1nat } else { 0nat }
    }
}

/// The ranking key: unsuccessful after successful, then fewer failed checks, then (where
/// used) smaller diffs and shorter runs.
pub open spec fn rank_of(c: CandidateResult, use_diff: bool, use_duration: bool) -> (int, int, int, int) {
    (
        if c.evaluation.success { 0int } else { 1int },
        failed_count(c.evaluation.checks@) as int,
        if use_diff {
            match c.diff_summary {
                Some(d) => d.insertions + d.deletions,
                None => usize::MAX as int,
            }
        } else {
            0int
        },
        if use_duration { c.duration_ms as int } else { 0int },
    )
}

pub open spec fn key_lt(a: (int, int, int, int), b: (int, int, int, int)) -> bool {
    a.0 < b.0 || (a.0 == b.0 && (a.1 < b.1 || (a.1 == b.1 && (a.2 < b.2 || (a.2 == b.2 && a.3 < b.3)))))
}

/// The first of the first `n` candidates with the least key.
pub open spec fn best_upto(cs: Seq<CandidateResult>, use_diff: bool, use_duration: bool, n: int) -> int
    decreases n,
{
    if n <= 1 {
        0
    } else {
        let b = best_upto(cs, use_diff, use_duration, n - 1);
        if key_lt(rank_of(cs[n - 1], use_diff, use_duration), rank_of(cs[b], use_diff, use_duration)) {
            n - 1
        } else {
            b
        }
    }
}

/// Another candidate shares the best candidate's key.
pub open spec fn tied(cs: Seq<CandidateResult>, use_diff: bool, use_duration: bool, b: int) -> bool {
    exists|j: int| 0 <= j < cs.len() && j != b
        && #[trigger] rank_of(cs[j], use_diff, use_duration) == rank_of(cs[b], use_diff, use_duration)
}

pub open spec fn candidate_line(c: CandidateResult) -> Seq<char> {
    c.name@ + ": "@ + c.evaluation.summary@
}

pub open spec fn candidate_lines(cs: Seq<CandidateResult>) -> Seq<Seq<char>> {
    cs.map_values(|c: CandidateResult| candidate_line(c))
}

pub open spec fn incomplete_message() -> Seq<char> {
    "Fewer than two complete, evaluated candidates; no comparative recommendation"@
}

pub open spec fn mismatch_message() -> Seq<char> {
    "Starting fingerprints or evaluator specifications differ; comparison refused"@
}

pub open spec fn diff_unavailable_message() -> Seq<char> {
    "Diff-size criterion unavailable for missing or binary diffs; it was not used"@
}

pub open spec fn no_success_message() -> Seq<char> {
    "No candidate passed all required checks"@
}

pub open spec fn not_succeeded_message() -> Seq<char> {
    "Best evaluated candidate did not complete execution successfully"@
}

pub open spec fn tie_message() -> Seq<char> {
    "No definitive winner under the configured criteria; ties are not broken by candidate order"@
}

pub open spec fn ranked_first_message(c: CandidateResult) -> Seq<char> {
    c.name@ + " ranked first under the configured criteria in this starting state: "@ + c.evaluation.summary@
}

pub open spec fn diff_criterion_message() -> Seq<char> {
    "Diff size was an explicitly enabled secondary criterion (text lines only)"@
}

pub open spec fn duration_criterion_message() -> Seq<char> {
    "Observed duration was an explicitly enabled secondary criterion; timing is noisy"@
}

/// The verdict on comparable candidates: the recommended candidate, if any, and the
/// reasons that come before the per-candidate lines.
pub open spec fn verdict(crit: ComparisonCriteria, cs: Seq<CandidateResult>) -> (Option<Seq<char>>, Seq<Seq<char>>) {
    let ud = diff_usable(crit, cs);
    let md = crit.minimize_duration;
    let pre: Seq<Seq<char>> = if crit.minimize_diff_size && !ud { seq![diff_unavailable_message()] } else { Seq::empty() };
    let b = best_upto(cs, ud, md, cs.len() as int);
    let best = cs[b];
    if crit.require_success && !best.evaluation.success {
        (None, pre.push(no_success_message()))
    } else if best.execution_status != ProcessStatus::Succeeded {
        (None, pre.push(not_succeeded_message()))
    } else if tied(cs, ud, md, b) {
        (None, pre.push(tie_message()))
    } else {
        let r1 = pre.push(ranked_first_message(best));
        let r2 = if ud { r1.push(diff_criterion_message()) } else { r1 };
        let r3 = if md { r2.push(duration_criterion_message()) } else { r2 };
        (Some(best.candidate_id@), r3)
    }
}

/// Diff line counts that fit in a machine word.
pub open spec fn diff_counts_fit(cs: Seq<CandidateResult>) -> bool {
    forall|i: int| 0 <= i < cs.len() ==> (#[trigger] cs[i].diff_summary matches Some(d)
        ==> d.insertions + d.deletions <= usize::MAX)
}

/// Recommends a candidate only when every candidate was evaluated to completion from the same
/// starting state under the same checks and one ranks strictly first.
pub struct EvaluatorSuccessFirst(pub ComparisonCriteria);

fn failed_checks(checks: &Vec<CheckResult>) -> (r: usize)
    ensures
        r == failed_count(checks@),
{
    let mut n: usize = 0;
    let mut i: usize = 0;
    while i < checks.len()
        invariant
            i <= checks@.len(),
            n == failed_count(checks@.subrange(0, i as int)),
            n <= i,
        decreases checks.len() - i,
    {
        proof {
            assert(checks@.subrange(0, i as int + 1).drop_last() =~= checks@.subrange(0, i as int));
        }
        if checks[i].status == CheckStatus::Failed {
            n = n + 1;
        }
        i = i + 1;
    }
    assert(checks@.subrange(0, checks@.len() as int) =~= checks@);
    n
}

fn rank_exec(c: &CandidateResult, use_diff: bool, use_duration: bool) -> (r: (u8, usize, usize, u64))
    requires
        c.diff_summary matches Some(d) ==> d.insertions + d.deletions <= usize::MAX,
    ensures
        (r.0 as int, r.1 as int, r.2 as int, r.3 as int) == rank_of(*c, use_diff, use_duration),
{
    let diff = if use_diff {
        match &c.diff_summary {
            Some(d) => d.insertions + d.deletions,
            None => usize::MAX,
        }
    } else {
        0
    };
    (if c.evaluation.success { 0 } else { 1 }, failed_checks(&c.evaluation.checks), diff,
        if use_duration { c.duration_ms } else { 0 })
}

fn key_lt_exec(a: (u8, usize, usize, u64), b: (u8, usize, usize, u64)) -> (r: bool)
    ensures
        r == key_lt((a.0 as int, a.1 as int, a.2 as int, a.3 as int), (b.0 as int, b.1 as int, b.2 as int, b.3 as int)),
{
    a.0 < b.0 || (a.0 == b.0 && (a.1 < b.1 || (a.1 == b.1 && (a.2 < b.2 || (a.2 == b.2 && a.3 < b.3)))))
}

impl EvaluatorSuccessFirst {
    /// Compares candidates as described on the type. Every reason list ends with one line per
    /// candidate giving its evaluation summary.
    pub fn compare(&self, candidates: &[CandidateResult]) -> (r: Result<ExperimentComparison, Error>)
        requires
            diff_counts_fit(candidates@),
        ensures
            r is Err <==> !not_comparable(candidates@) && !all_specs_valid(candidates@),
            r matches Err(e) ==> e is InvalidInput,
            r matches Ok(c) ==> c.policy@ == "evaluator-success-first"@,
            r matches Ok(c) ==> not_comparable(candidates@) ==> {
                &&& c.recommendation is None
                &&& views(c.reasons@) == seq![incomplete_message()]
                &&& c.evidence_weight@ == "inconclusive"@
            },
            r matches Ok(c) ==> !not_comparable(candidates@) && mismatched(candidates@) ==> {
                &&& c.recommendation is None
                &&& views(c.reasons@) == seq![mismatch_message()]
                &&& c.evidence_weight@ == "inconclusive"@
            },
            r matches Ok(c) ==> !not_comparable(candidates@) && !mismatched(candidates@) ==> {
                let (rec, pre) = verdict(self.0, candidates@);
                &&& opt_view(c.recommendation) == rec
                &&& views(c.reasons@) == pre + candidate_lines(candidates@)
                &&& c.evidence_weight@ == (if rec is Some { "single-trial observation"@ } else { "inconclusive"@ })
            },
    {
        let n = candidates.len();
        let mut result = ExperimentComparison {
            policy: "evaluator-success-first".to_string(),
            recommendation: None,
            reasons: Vec::new(),
            evidence_weight: "inconclusive".to_string(),
        };
        let mut incomplete = n < 2;
        let mut i: usize = 0;
        while i < n
            invariant
                n == candidates@.len(),
                i <= n,
                incomplete <==> (n < 2 || exists|k: int| 0 <= k < i && #[trigger] incomplete_candidate(candidates@[k])),
                result.policy@ == "evaluator-success-first"@,
                result.recommendation is None,
                result.reasons@.len() == 0,
                result.evidence_weight@ == "inconclusive"@,
            decreases n - i,
        {
            let c = &candidates[i];
            if c.evaluation.status != EvaluationStatus::Completed || c.execution_status == ProcessStatus::Interrupted
                || c.execution_status == ProcessStatus::TimedOut {
                incomplete = true;
                assert(incomplete_candidate(candidates@[i as int]));
            }
            i = i + 1;
        }
        if incomplete {
            result.reasons.push(
                "Fewer than two complete, evaluated candidates; no comparative recommendation".to_string(),
            );
            assert(views(result.reasons@) =~= seq![incomplete_message()]);
            return Ok(result);
        }
        let mut i: usize = 0;
        while i < n
            invariant
                n == candidates@.len(),
                i <= n,
                forall|k: int| 0 <= k < i ==> #[trigger] spec_valid(candidates@[k]),
                !not_comparable(candidates@),
                result.policy@ == "evaluator-success-first"@,
                result.recommendation is None,
                result.reasons@.len() == 0,
                result.evidence_weight@ == "inconclusive"@,
            decreases n - i,
        {
            match candidates[i].evaluation.spec.validate() {
                Ok(()) => {},
                Err(e) => {
                    assert(!spec_valid(candidates@[i as int]));
                    assert(!all_specs_valid(candidates@));
                    assert(!not_comparable(candidates@));
                    return Err(e);
                },
            }
            i = i + 1;
        }
        let mut i: usize = 0;
        while i < n
            invariant
                n == candidates@.len(),
                n >= 2,
                i <= n,
                forall|k: int| 0 <= k < i ==> !#[trigger] differs_from_first(candidates@, k),
                !not_comparable(candidates@),
                all_specs_valid(candidates@),
                result.policy@ == "evaluator-success-first"@,
                result.recommendation is None,
                result.reasons@.len() == 0,
                result.evidence_weight@ == "inconclusive"@,
            decreases n - i,
        {
            if !str_eq(candidates[i].starting_fingerprint.as_str(), candidates[0].starting_fingerprint.as_str())
                || !candidates[i].evaluation.spec.same_checks(&candidates[0].evaluation.spec) {
                assert(differs_from_first(candidates@, i as int));
                result.reasons.push(
                    "Starting fingerprints or evaluator specifications differ; comparison refused".to_string(),
                );
                assert(views(result.reasons@) =~= seq![mismatch_message()]);
                assert(!not_comparable(candidates@));
                assert(all_specs_valid(candidates@));
                return Ok(result);
            }
            i = i + 1;
        }
        let mut use_diff = self.0.minimize_diff_size;
        let mut i: usize = 0;
        while i < n
            invariant
                n == candidates@.len(),
                i <= n,
                use_diff <==> (self.0.minimize_diff_size && forall|k: int| 0 <= k < i ==> #[trigger] text_diff(candidates@[k])),
                result.policy@ == "evaluator-success-first"@,
                result.recommendation is None,
                result.reasons@.len() == 0,
                result.evidence_weight@ == "inconclusive"@,
            decreases n - i,
        {
            let text = match &candidates[i].diff_summary {
                Some(d) => d.binary_files == 0,
                None => false,
            };
            assert(text == text_diff(candidates@[i as int]));
            if !text {
                use_diff = false;
            }
            i = i + 1;
        }
        let use_duration = self.0.minimize_duration;
        let ghost pre: Seq<Seq<char>> = if self.0.minimize_diff_size && !use_diff {
            seq![diff_unavailable_message()]
        } else {
            Seq::empty()
        };
        if self.0.minimize_diff_size && !use_diff {
            result.reasons.push(
                "Diff-size criterion unavailable for missing or binary diffs; it was not used".to_string(),
            );
        }
        assert(views(result.reasons@) =~= pre);
        let mut best: usize = 0;
        let mut best_key = rank_exec(&candidates[0], use_diff, use_duration);
        let mut j: usize = 1;
        while j < n
            invariant
                n == candidates@.len(),
                n >= 2,
                1 <= j <= n,
                diff_counts_fit(candidates@),
                best as int == best_upto(candidates@, use_diff, use_duration, j as int),
                best < j,
                (best_key.0 as int, best_key.1 as int, best_key.2 as int, best_key.3 as int)
                    == rank_of(candidates@[best as int], use_diff, use_duration),
            decreases n - j,
        {
            let k = rank_exec(&candidates[j], use_diff, use_duration);
            if key_lt_exec(k, best_key) {
                best = j;
                best_key = k;
            }
            j = j + 1;
        }
        let mut tie = false;
        let mut j: usize = 0;
        while j < n
            invariant
                n == candidates@.len(),
                j <= n,
                best < n,
                diff_counts_fit(candidates@),
                (best_key.0 as int, best_key.1 as int, best_key.2 as int, best_key.3 as int)
                    == rank_of(candidates@[best as int], use_diff, use_duration),
                tie <==> exists|k: int| 0 <= k < j && k != best
                    && #[trigger] rank_of(candidates@[k], use_diff, use_duration) == rank_of(candidates@[best as int], use_diff, use_duration),
            decreases n - j,
        {
            let k = rank_exec(&candidates[j], use_diff, use_duration);
            if j != best && k.0 == best_key.0 && k.1 == best_key.1 && k.2 == best_key.2 && k.3 == best_key.3 {
                tie = true;
            }
            j = j + 1;
        }
        let b = &candidates[best];
        if self.0.require_success && !b.evaluation.success {
            result.reasons.push("No candidate passed all required checks".to_string());
        } else if b.execution_status != ProcessStatus::Succeeded {
            result.reasons.push("Best evaluated candidate did not complete execution successfully".to_string());
        } else if tie {
            result.reasons.push(
                "No definitive winner under the configured criteria; ties are not broken by candidate order".to_string(),
            );
        } else {
            result.recommendation = Some(b.candidate_id.clone());
            let mut line = b.name.clone();
            line.append(" ranked first under the configured criteria in this starting state: ");
            line.append(b.evaluation.summary.as_str());
            result.reasons.push(line);
            if use_diff {
                result.reasons.push("Diff size was an explicitly enabled secondary criterion (text lines only)".to_string());
            }
            if use_duration {
                result.reasons.push(
                    "Observed duration was an explicitly enabled secondary criterion; timing is noisy".to_string(),
                );
            }
            result.evidence_weight = "single-trial observation".to_string();
        }
        let ghost head = views(result.reasons@);
        assert(head == verdict(self.0, candidates@).1);
        assert(opt_view(result.recommendation) == verdict(self.0, candidates@).0);
        let mut i: usize = 0;
        while i < n
            invariant
                n == candidates@.len(),
                i <= n,
                result.policy@ == "evaluator-success-first"@,
                opt_view(result.recommendation) == verdict(self.0, candidates@).0,
                result.evidence_weight@ == (if verdict(self.0, candidates@).0 is Some {
                    "single-trial observation"@
                } else {
                    "inconclusive"@
                }),
                views(result.reasons@) == head + candidate_lines(candidates@.subrange(0, i as int)),
            decreases n - i,
        {
            let mut line = candidates[i].name.clone();
            line.append(": ");
            line.append(candidates[i].evaluation.summary.as_str());
            let ghost r0 = result.reasons@;
            result.reasons.push(line);
            proof {
                assert(views(result.reasons@) =~= views(r0).push(candidate_line(candidates@[i as int])));
                assert(candidate_lines(candidates@.subrange(0, i as int + 1)) =~= candidate_lines(candidates@.subrange(0, i as int)).push(
                    candidate_line(candidates@[i as int]),
                ));
                assert(views(result.reasons@) =~= head + candidate_lines(candidates@.subrange(0, i as int + 1)));
            }
            i = i + 1;
        }
        assert(candidates@.subrange(0, n as int) =~= candidates@);
        Ok(result)
    }
}

proof fn lemma_best_upto_least(cs: Seq<CandidateResult>, ud: bool, md: bool, n: int)
    requires
        1 <= n <= cs.len(),
    ensures
        0 <= best_upto(cs, ud, md, n) < n,
        forall|j: int| 0 <= j < n ==> !key_lt(#[trigger] rank_of(cs[j], ud, md), rank_of(cs[best_upto(cs, ud, md, n)], ud, md)),
    decreases n,
{
    if n > 1 {
        lemma_best_upto_least(cs, ud, md, n - 1);
    }
}

/// A recommendation is never a tie broken by position: the recommended candidate ranks
/// strictly ahead of every other candidate under the criteria in use.
pub proof fn lemma_recommended_strictly_first(crit: ComparisonCriteria, cs: Seq<CandidateResult>)
    requires
        cs.len() >= 1,
        verdict(crit, cs).0 is Some,
    ensures
        ({
            let ud = diff_usable(crit, cs);
            let b = best_upto(cs, ud, crit.minimize_duration, cs.len() as int);
            &&& 0 <= b < cs.len()
            &&& verdict(crit, cs).0 == Some(cs[b].candidate_id@)
            &&& cs[b].execution_status == ProcessStatus::Succeeded
            &&& (crit.require_success ==> cs[b].evaluation.success)
            &&& forall|j: int| 0 <= j < cs.len() && j != b ==> key_lt(
                rank_of(cs[b], ud, crit.minimize_duration),
                #[trigger] rank_of(cs[j], ud, crit.minimize_duration),
            )
        }),
{
    let ud = diff_usable(crit, cs);
    let md = crit.minimize_duration;
    lemma_best_upto_least(cs, ud, md, cs.len() as int);
    let b = best_upto(cs, ud, md, cs.len() as int);
    assert forall|j: int| 0 <= j < cs.len() && j != b implies key_lt(
        rank_of(cs[b], ud, md),
        #[trigger] rank_of(cs[j], ud, md),
    ) by {
        assert(!key_lt(rank_of(cs[j], ud, md), rank_of(cs[b], ud, md)));
        assert(rank_of(cs[j], ud, md) != rank_of(cs[b], ud, md));
    }
}

/// `cs2` lists the candidates of `cs` in another order: `pi` takes each position of `cs2`
/// to the position of the same candidate in `cs`, and `sigma` is its inverse.
pub open spec fn reordered(cs: Seq<CandidateResult>, cs2: Seq<CandidateResult>, pi: Seq<int>, sigma: Seq<int>) -> bool {
    &&& cs2.len() == cs.len()
    &&& pi.len() == cs.len()
    &&& sigma.len() == cs.len()
    &&& forall|k: int| 0 <= k < cs.len() ==> 0 <= #[trigger] pi[k] < cs.len() && cs2[k] == cs[pi[k]] && sigma[pi[k]] == k
    &&& forall|k: int| 0 <= k < cs.len() ==> 0 <= #[trigger] sigma[k] < cs.len() && cs[k] == cs2[sigma[k]] && pi[sigma[k]] == k
}

proof fn lemma_tie_blocks(crit: ComparisonCriteria, cs: Seq<CandidateResult>)
    requires
        cs.len() >= 1,
        tied(cs, diff_usable(crit, cs), crit.minimize_duration,
            best_upto(cs, diff_usable(crit, cs), crit.minimize_duration, cs.len() as int)),
    ensures
        verdict(crit, cs).0 is None,
{
}

/// The order in which candidates are listed never decides a comparison: on the same
/// candidates in another order, whether they can be compared, whether the comparison is
/// refused, and which candidate (if any) is recommended all stay the same.
pub proof fn lemma_verdict_order_free(
    crit: ComparisonCriteria,
    cs: Seq<CandidateResult>,
    cs2: Seq<CandidateResult>,
    pi: Seq<int>,
    sigma: Seq<int>,
)
    requires
        reordered(cs, cs2, pi, sigma),
    ensures
        not_comparable(cs2) == not_comparable(cs),
        all_specs_valid(cs2) == all_specs_valid(cs),
        mismatched(cs2) == mismatched(cs),
        diff_usable(crit, cs2) == diff_usable(crit, cs),
        cs.len() >= 1 ==> verdict(crit, cs2).0 == verdict(crit, cs).0,
{
    let n = cs.len() as int;
    // Comparable.
    if exists|i: int| 0 <= i < n && #[trigger] incomplete_candidate(cs[i]) {
        let i = choose|i: int| 0 <= i < n && #[trigger] incomplete_candidate(cs[i]);
        assert(incomplete_candidate(cs2[sigma[i]]));
    }
    if exists|i: int| 0 <= i < n && #[trigger] incomplete_candidate(cs2[i]) {
        let i = choose|i: int| 0 <= i < n && #[trigger] incomplete_candidate(cs2[i]);
        assert(incomplete_candidate(cs[pi[i]]));
    }
    // Valid specifications.
    if all_specs_valid(cs) {
        assert forall|i: int| 0 <= i < n implies #[trigger] spec_valid(cs2[i]) by {
            assert(spec_valid(cs[pi[i]]));
        }
    }
    if all_specs_valid(cs2) {
        assert forall|i: int| 0 <= i < n implies #[trigger] spec_valid(cs[i]) by {
            assert(spec_valid(cs2[sigma[i]]));
        }
    }
    // Usable diffs.
    if diff_usable(crit, cs) {
        assert forall|i: int| 0 <= i < n implies #[trigger] text_diff(cs2[i]) by {
            assert(text_diff(cs[pi[i]]));
        }
    }
    if diff_usable(crit, cs2) {
        assert forall|i: int| 0 <= i < n implies #[trigger] text_diff(cs[i]) by {
            assert(text_diff(cs2[sigma[i]]));
        }
    }
    // Same starting state and checks.
    if n >= 1 && !mismatched(cs) {
        assert forall|i: int| 0 <= i < n implies !#[trigger] differs_from_first(cs2, i) by {
            assert(!differs_from_first(cs, pi[i]));
            assert(!differs_from_first(cs, pi[0]));
        }
    }
    if n >= 1 && !mismatched(cs2) {
        assert forall|i: int| 0 <= i < n implies !#[trigger] differs_from_first(cs, i) by {
            assert(!differs_from_first(cs2, sigma[i]));
            assert(!differs_from_first(cs2, sigma[0]));
        }
    }
    // The recommendation.
    if n >= 1 {
        let ud = diff_usable(crit, cs);
        let md = crit.minimize_duration;
        lemma_best_upto_least(cs, ud, md, n);
        lemma_best_upto_least(cs2, ud, md, n);
        let b = best_upto(cs, ud, md, n);
        let b2 = best_upto(cs2, ud, md, n);
        assert(!key_lt(rank_of(cs[pi[b2]], ud, md), rank_of(cs[b], ud, md)));
        assert(!key_lt(rank_of(cs2[sigma[b]], ud, md), rank_of(cs2[b2], ud, md)));
        assert(rank_of(cs2[b2], ud, md) == rank_of(cs[b], ud, md));
        if tied(cs, ud, md, b) {
            let j = choose|j: int| 0 <= j < n && j != b && #[trigger] rank_of(cs[j], ud, md) == rank_of(cs[b], ud, md);
            assert(rank_of(cs2[sigma[j]], ud, md) == rank_of(cs2[b2], ud, md));
            assert(rank_of(cs2[sigma[b]], ud, md) == rank_of(cs2[b2], ud, md));
            assert(sigma[j] != sigma[b]);
            assert(tied(cs2, ud, md, b2));
            lemma_tie_blocks(crit, cs);
            lemma_tie_blocks(crit, cs2);
        } else {
            if pi[b2] != b {
                assert(rank_of(cs[pi[b2]], ud, md) == rank_of(cs[b], ud, md));
                assert(tied(cs, ud, md, b));
            }
            assert(cs2[b2] == cs[b]);
            if tied(cs2, ud, md, b2) {
                let j = choose|j: int| 0 <= j < n && j != b2 && #[trigger] rank_of(cs2[j], ud, md) == rank_of(cs2[b2], ud, md);
                assert(pi[j] != pi[b2]);
                assert(rank_of(cs[pi[j]], ud, md) == rank_of(cs[b], ud, md));
                assert(tied(cs, ud, md, b));
            }
        }
    }
}

/// Total text lines a candidate's diff changes.
pub open spec fn changed_lines(c: CandidateResult) -> int {
    match c.diff_summary {
        Some(d) => d.insertions + d.deletions,
        None => 0,
    }
}

/// With the diff criterion in use, of two candidates alike in success and failed checks (and
/// in duration, where that criterion is in use), the one whose diff changes strictly fewer
/// lines, insertions and deletions together, ranks strictly first; and of two such comparable
/// candidates that both ran to success, it is the one recommended.
pub proof fn lemma_fewer_changed_lines_first(crit: ComparisonCriteria, cs: Seq<CandidateResult>, k: int)
    requires
        cs.len() == 2,
        k == 0 || k == 1,
        diff_usable(crit, cs),
        cs[k].evaluation.success == cs[1 - k].evaluation.success,
        failed_count(cs[k].evaluation.checks@) == failed_count(cs[1 - k].evaluation.checks@),
        crit.minimize_duration ==> cs[k].duration_ms == cs[1 - k].duration_ms,
        changed_lines(cs[k]) < changed_lines(cs[1 - k]),
    ensures
        key_lt(rank_of(cs[k], true, crit.minimize_duration), rank_of(cs[1 - k], true, crit.minimize_duration)),
        cs[k].execution_status == ProcessStatus::Succeeded && (crit.require_success ==> cs[k].evaluation.success)
            ==> verdict(crit, cs).0 == Some(cs[k].candidate_id@),
{
    let md = crit.minimize_duration;
    assert(text_diff(cs[k]));
    assert(text_diff(cs[1 - k]));
    let b = best_upto(cs, true, md, 2);
    assert(best_upto(cs, true, md, 1) == 0);
    assert(b == k);
    assert(!tied(cs, true, md, b)) by {
        if tied(cs, true, md, b) {
            let j = choose|j: int| 0 <= j < cs.len() && j != b && #[trigger] rank_of(cs[j], true, md) == rank_of(cs[b], true, md);
            assert(j == 1 - k);
        }
    }
}

/// Success comes first: a candidate whose evaluation succeeded ranks strictly ahead of one
/// whose evaluation did not, and of two alike in success the one with fewer failed checks
/// ranks strictly ahead, whatever the secondary criteria.
pub proof fn lemma_success_then_fewer_failures_first(a: CandidateResult, b: CandidateResult, ud: bool, md: bool)
    ensures
        a.evaluation.success && !b.evaluation.success ==> key_lt(rank_of(a, ud, md), rank_of(b, ud, md)),
        a.evaluation.success == b.evaluation.success && failed_count(a.evaluation.checks@) < failed_count(
            b.evaluation.checks@,
        ) ==> key_lt(rank_of(a, ud, md), rank_of(b, ud, md)),
{
}

} // verus!
