//! Planning the next evidence to acquire for a claim whose evidence is not diverse enough.
use vstd::prelude::*;
use crate::common::ExperienceBudget;
use crate::epistemic::diversity::{assessment_of, DeterministicEvidenceDiversityPolicy};
use crate::epistemic::{
    diversity_class_rank, dependency_kind_name, AgentCapabilityProfile, AgentIdentity, ChallengeStrategy, Claim,
    DiversityClass, EpistemicDependencyKind, EvidenceAcquisitionAction, EvidenceAcquisitionPlan,
    EvidenceContextMode, EvidenceDiversityAssessment, EvidencePath, ExperienceRef,
};
use crate::text::{append_decimal, bytes_lt, compare_bytes, decimal_chars, opt_view, str_eq, views};

verus! {

/// The name of a diversity class, as `Debug` prints it.
pub open spec fn class_name(c: DiversityClass) -> Seq<char> {
    match c {
        DiversityClass::Unknown => "Unknown"@,
        DiversityClass::Low => "Low"@,
        DiversityClass::Moderate => "Moderate"@,
        DiversityClass::High => "High"@,
    }
}

fn class_name_exec(c: DiversityClass) -> (r: &'static str)
    ensures
        r@ == class_name(c),
{
    match c {
        DiversityClass::Unknown => "Unknown",
        DiversityClass::Low => "Low",
        DiversityClass::Moderate => "Moderate",
        DiversityClass::High => "High",
    }
}

/// The diversity a planner asks for: its own minimum, else moderate.
pub open spec fn minimum_of(m: Option<DiversityClass>) -> DiversityClass {
    match m {
        Some(c) => c,
        None => DiversityClass::Moderate,
    }
}

/// How to challenge a claim whose paths share a dependency of `kind`.
pub open spec fn challenge_for(kind: EpistemicDependencyKind) -> ChallengeStrategy {
    match kind {
        EpistemicDependencyKind::Experience => ChallengeStrategy::RemoveDominantExperience,
        EpistemicDependencyKind::Evaluator => ChallengeStrategy::AlternativeEvaluator,
        EpistemicDependencyKind::Tool => ChallengeStrategy::AlternativeTool,
        EpistemicDependencyKind::Environment => ChallengeStrategy::AlternativeEnvironment,
        _ => ChallengeStrategy::CounterfactualExperiment,
    }
}

/// What an acquisition action asks for, with its text taken by characters.
pub ghost enum ActionView {
    Challenge(ChallengeStrategy),
    AlternativeEvaluator(Seq<char>),
    /// An agent to ask, and the experience it must not see, if any.
    Ask(Seq<char>, Option<Seq<char>>),
    Other,
}

pub open spec fn action_view(a: EvidenceAcquisitionAction) -> ActionView {
    match a {
        EvidenceAcquisitionAction::ChallengeClaim { strategy } => ActionView::Challenge(strategy),
        EvidenceAcquisitionAction::RunAlternativeEvaluator { evaluator } => ActionView::AlternativeEvaluator(evaluator@),
        EvidenceAcquisitionAction::AskAgent { agent, context_mode } => match context_mode {
            EvidenceContextMode::IndependentRetrieval => ActionView::Ask(agent.kind@, None),
            EvidenceContextMode::BlindToSelectedExperience { excluded } => if excluded@.len() == 1
                && excluded@[0].kind@ == "experience"@ {
                ActionView::Ask(agent.kind@, Some(excluded@[0].id@))
            } else {
                ActionView::Other
            },
            _ => ActionView::Other,
        },
        _ => ActionView::Other,
    }
}

pub open spec fn action_views(s: Seq<EvidenceAcquisitionAction>) -> Seq<ActionView> {
    s.map_values(|a: EvidenceAcquisitionAction| action_view(a))
}

/// The agent brings a model family that none of the current paths used.
pub open spec fn novel_model(a: AgentCapabilityProfile, paths: Seq<EvidencePath>) -> bool {
    a.model_family matches Some(m) && forall|i: int| 0 <= i < paths.len() ==> #[trigger] opt_view(
        paths[i].dependencies.model_family,
    ) != Some(m@)
}

/// The agent order: a novel model family first, then integration mode, then runtime.
pub open spec fn agent_lt(a: AgentCapabilityProfile, b: AgentCapabilityProfile, paths: Seq<EvidencePath>) -> bool {
    let (na, nb) = (novel_model(a, paths), novel_model(b, paths));
    let (ia, ib) = (vstd::utf8::encode_utf8(a.integration_mode@), vstd::utf8::encode_utf8(b.integration_mode@));
    let (ra, rb) = (vstd::utf8::encode_utf8(a.runtime@), vstd::utf8::encode_utf8(b.runtime@));
    (!na && nb) || (na == nb && (bytes_lt(ia, ib) || (ia == ib && bytes_lt(ra, rb))))
}

/// The greatest available agent among the first `n`, the later one on ties.
pub open spec fn chosen_agent(agents: Seq<AgentCapabilityProfile>, paths: Seq<EvidencePath>, n: int) -> Option<int>
    decreases n,
{
    if n <= 0 {
        None
    } else {
        let prev = chosen_agent(agents, paths, n - 1);
        if !agents[n - 1].available {
            prev
        } else {
            match prev {
                None => Some(n - 1),
                Some(b) => if agent_lt(agents[n - 1], agents[b], paths) { prev } else { Some(n - 1) },
            }
        }
    }
}

pub open spec fn satisfied_message(c: DiversityClass, minimum: DiversityClass) -> Seq<char> {
    "Current "@ + class_name(c) + " evidence diversity satisfies the "@ + class_name(minimum) + " requirement"@
}

pub open spec fn dominant_message(kind: EpistemicDependencyKind, value: Seq<char>, paths: nat) -> Seq<char> {
    "Challenge dominant "@ + dependency_kind_name(kind) + " dependency "@ + value + " shared by "@ + decimal_chars(paths)
        + " paths"@
}

pub open spec fn counterfactual_message() -> Seq<char> {
    "Acquire a controlled disconfirming path instead of another agreeing vote"@
}

pub open spec fn evaluator_message() -> Seq<char> {
    "Evaluator diversity is absent or insufficient"@
}

pub open spec fn agent_message() -> Seq<char> {
    "Selected the available agent/context expected to add a known dependency difference"@
}

/// The actions and rationale a plan proposes, before actions beyond the budget are dropped.
pub open spec fn proposal(
    agents: Seq<AgentCapabilityProfile>,
    paths: Seq<EvidencePath>,
    budget: ExperienceBudget,
    a: EvidenceDiversityAssessment,
) -> (Seq<ActionView>, Seq<Seq<char>>) {
    let dominant = if a.dependency_overlaps@.len() > 0 { Some(a.dependency_overlaps@[0]) } else { None };
    let (a1, r1): (Seq<ActionView>, Seq<Seq<char>>) = match dominant {
        Some(o) => (
            seq![ActionView::Challenge(challenge_for(o.kind))],
            seq![dominant_message(o.kind, o.shared_value@, o.paths@.len())],
        ),
        None => (seq![ActionView::Challenge(ChallengeStrategy::CounterfactualExperiment)], seq![counterfactual_message()]),
    };
    let (a2, r2) = if a.evaluator_count <= 1 && a1.len() < budget.max_realities {
        (a1.push(ActionView::AlternativeEvaluator("alternative-evaluator-required"@)), r1.push(evaluator_message()))
    } else {
        (a1, r1)
    };
    let chosen = chosen_agent(agents, paths, agents.len() as int);
    if budget.max_agent_runs > 0 && chosen is Some {
        let agent = agents[chosen->0];
        let excluded = match dominant {
            Some(o) => if o.kind == EpistemicDependencyKind::Experience { Some(o.shared_value@) } else { None },
            None => None,
        };
        (a2.push(ActionView::Ask(agent.identity.kind@, excluded)), r2.push(agent_message()))
    } else {
        (a2, r2)
    }
}

/// How many actions a plan may keep: the trials and agent runs of the budget, at least one.
pub open spec fn action_limit(budget: ExperienceBudget) -> int {
    let total = budget.max_realities + budget.max_agent_runs;
    let capped = if total > usize::MAX { usize::MAX as int } else { total };
    if capped < 1 { 1 } else { capped }
}

/// The plan for `claim`, given the diversity of its current evidence.
pub open spec fn planned(
    agents: Seq<AgentCapabilityProfile>,
    minimum: Option<DiversityClass>,
    claim: Claim,
    paths: Seq<EvidencePath>,
    budget: ExperienceBudget,
    a: EvidenceDiversityAssessment,
    p: EvidenceAcquisitionPlan,
) -> bool {
    let m = minimum_of(minimum);
    &&& p.claim@ == claim.id@
    &&& if diversity_class_rank(a.diversity_class) >= diversity_class_rank(m) {
        &&& p.actions@.len() == 0
        &&& views(p.rationale@) == seq![satisfied_message(a.diversity_class, m)]
        &&& p.requirement_satisfied
        &&& opt_view(p.stop_reason) == Some("evidence requirement satisfied"@)
    } else if budget.max_realities == 0 && budget.max_agent_runs == 0 {
        &&& p.actions@.len() == 0
        &&& views(p.rationale@) == seq!["Experience budget is exhausted"@]
        &&& !p.requirement_satisfied
        &&& opt_view(p.stop_reason) == Some("budget exhausted"@)
    } else {
        let (acts, why) = proposal(agents, paths, budget, a);
        &&& action_views(p.actions@) == acts.take(if acts.len() < action_limit(budget) { acts.len() as int } else { action_limit(budget) })
        &&& views(p.rationale@) == why
        &&& !p.requirement_satisfied
        &&& p.stop_reason is None
    }
}

/// Plans evidence acquisition for claims whose evidence lacks diversity.
#[derive(Clone, Debug)]
pub struct DeterministicEvidenceAcquisitionPlanner {
    pub agents: Vec<AgentCapabilityProfile>,
    pub minimum: Option<DiversityClass>,
}

impl Default for DeterministicEvidenceAcquisitionPlanner {
    fn default() -> (r: Self)
        ensures
            r.agents@.len() == 0,
            r.minimum is None,
    {
        DeterministicEvidenceAcquisitionPlanner { agents: Vec::new(), minimum: None }
    }
}

fn novel_model_exec(a: &AgentCapabilityProfile, paths: &Vec<EvidencePath>) -> (r: bool)
    ensures
        r == novel_model(*a, paths@),
{
    match &a.model_family {
        None => false,
        Some(m) => {
            let mut i: usize = 0;
            while i < paths.len()
                invariant
                    i <= paths@.len(),
                    a.model_family == Some(*m),
                    forall|k: int| 0 <= k < i ==> #[trigger] opt_view(paths@[k].dependencies.model_family) != Some(m@),
                decreases paths.len() - i,
            {
                let same = match &paths[i].dependencies.model_family {
                    Some(x) => str_eq(x.as_str(), m.as_str()),
                    None => false,
                };
                if same {
                    assert(opt_view(paths@[i as int].dependencies.model_family) == Some(m@));
                    return false;
                }
                i = i + 1;
            }
            true
        },
    }
}

fn agent_lt_exec(a: &AgentCapabilityProfile, na: bool, b: &AgentCapabilityProfile, nb: bool, Ghost(paths): Ghost<Seq<EvidencePath>>) -> (r: bool)
    requires
        na == novel_model(*a, paths),
        nb == novel_model(*b, paths),
    ensures
        r == agent_lt(*a, *b, paths),
{
    if na != nb {
        return !na && nb;
    }
    let ci = compare_bytes(a.integration_mode.as_str().as_bytes(), b.integration_mode.as_str().as_bytes());
    if ci != 0 {
        return ci < 0;
    }
    compare_bytes(a.runtime.as_str().as_bytes(), b.runtime.as_str().as_bytes()) < 0
}

fn choose_agent(agents: &Vec<AgentCapabilityProfile>, paths: &Vec<EvidencePath>) -> (r: Option<usize>)
    ensures
        match r {
            Some(i) => chosen_agent(agents@, paths@, agents@.len() as int) == Some(i as int),
            None => chosen_agent(agents@, paths@, agents@.len() as int) is None,
        },
        r matches Some(i) ==> i < agents@.len(),
{
    let mut best: Option<usize> = None;
    let mut best_novel = false;
    let mut i: usize = 0;
    while i < agents.len()
        invariant
            i <= agents@.len(),
            match best {
                Some(b) => chosen_agent(agents@, paths@, i as int) == Some(b as int) && b < i
                    && best_novel == novel_model(agents@[b as int], paths@),
                None => chosen_agent(agents@, paths@, i as int) is None,
            },
        decreases agents.len() - i,
    {
        if agents[i].available {
            let novel = novel_model_exec(&agents[i], paths);
            match best {
                None => {
                    best = Some(i);
                    best_novel = novel;
                },
                Some(b) => {
                    if !agent_lt_exec(&agents[i], novel, &agents[b], best_novel, Ghost(paths@)) {
                        best = Some(i);
                        best_novel = novel;
                    }
                },
            }
        }
        i = i + 1;
    }
    best
}

fn text(s: &str) -> (r: String)
    ensures
        r@ == s@,
{
    String::from_str(s)
}

impl DeterministicEvidenceAcquisitionPlanner {
    /// Plans from a given diversity assessment: nothing when the evidence is already diverse
    /// enough or the budget is spent; otherwise a challenge of the dominant shared dependency
    /// (or a counterfactual experiment), an alternative evaluator when evaluators lack
    /// diversity, and the best available agent, keeping no more actions than the budget's
    /// trials and agent runs (at least one).
    pub fn plan_with(
        &self,
        claim: &Claim,
        current: &Vec<EvidencePath>,
        budget: &ExperienceBudget,
        diversity: &EvidenceDiversityAssessment,
    ) -> (r: EvidenceAcquisitionPlan)
        ensures
            planned(self.agents@, self.minimum, *claim, current@, *budget, *diversity, r),
    {
        let minimum = match self.minimum {
            Some(m) => m,
            None => DiversityClass::Moderate,
        };
        if diversity.diversity_class.satisfies(minimum) {
            let mut line = text("Current ");
            line.append(class_name_exec(diversity.diversity_class));
            line.append(" evidence diversity satisfies the ");
            line.append(class_name_exec(minimum));
            line.append(" requirement");
            let mut rationale: Vec<String> = Vec::new();
            rationale.push(line);
            assert(views(rationale@) =~= seq![satisfied_message(diversity.diversity_class, minimum)]);
            return EvidenceAcquisitionPlan {
                claim: claim.id.clone(),
                actions: Vec::new(),
                rationale,
                requirement_satisfied: true,
                stop_reason: Some(text("evidence requirement satisfied")),
            };
        }
        if budget.max_realities == 0 && budget.max_agent_runs == 0 {
            let mut rationale: Vec<String> = Vec::new();
            rationale.push(text("Experience budget is exhausted"));
            assert(views(rationale@) =~= seq!["Experience budget is exhausted"@]);
            return EvidenceAcquisitionPlan {
                claim: claim.id.clone(),
                actions: Vec::new(),
                rationale,
                requirement_satisfied: false,
                stop_reason: Some(text("budget exhausted")),
            };
        }
        let ghost (acts, why) = proposal(self.agents@, current@, *budget, *diversity);
        let mut actions: Vec<EvidenceAcquisitionAction> = Vec::new();
        let mut rationale: Vec<String> = Vec::new();
        let has_dominant = diversity.dependency_overlaps.len() > 0;
        if has_dominant {
            let overlap = &diversity.dependency_overlaps[0];
            let mut line = text("Challenge dominant ");
            line.append(overlap.kind.name());
            line.append(" dependency ");
            line.append(overlap.shared_value.as_str());
            line.append(" shared by ");
            append_decimal(&mut line, overlap.paths.len() as u64);
            line.append(" paths");
            rationale.push(line);
            let strategy = match overlap.kind {
                EpistemicDependencyKind::Experience => ChallengeStrategy::RemoveDominantExperience,
                EpistemicDependencyKind::Evaluator => ChallengeStrategy::AlternativeEvaluator,
                EpistemicDependencyKind::Tool => ChallengeStrategy::AlternativeTool,
                EpistemicDependencyKind::Environment => ChallengeStrategy::AlternativeEnvironment,
                _ => ChallengeStrategy::CounterfactualExperiment,
            };
            actions.push(EvidenceAcquisitionAction::ChallengeClaim { strategy });
        } else {
            actions.push(EvidenceAcquisitionAction::ChallengeClaim { strategy: ChallengeStrategy::CounterfactualExperiment });
            rationale.push(text("Acquire a controlled disconfirming path instead of another agreeing vote"));
        }
        if diversity.evaluator_count <= 1 && actions.len() < budget.max_realities {
            actions.push(EvidenceAcquisitionAction::RunAlternativeEvaluator { evaluator: text("alternative-evaluator-required") });
            rationale.push(text("Evaluator diversity is absent or insufficient"));
        }
        if budget.max_agent_runs > 0 {
            if let Some(k) = choose_agent(&self.agents, current) {
                let agent = &self.agents[k];
                let blind = has_dominant && diversity.dependency_overlaps[0].kind == EpistemicDependencyKind::Experience;
                let context_mode = if blind {
                    let mut excluded: Vec<ExperienceRef> = Vec::new();
                    excluded.push(ExperienceRef {
                        kind: text("experience"),
                        id: diversity.dependency_overlaps[0].shared_value.clone(),
                    });
                    EvidenceContextMode::BlindToSelectedExperience { excluded }
                } else {
                    EvidenceContextMode::IndependentRetrieval
                };
                actions.push(EvidenceAcquisitionAction::AskAgent {
                    agent: AgentIdentity { kind: agent.identity.kind.clone() },
                    context_mode,
                });
                rationale.push(text("Selected the available agent/context expected to add a known dependency difference"));
            }
        }
        assert(action_views(actions@) =~= acts);
        assert(views(rationale@) =~= why);
        let total = budget.max_realities.saturating_add(budget.max_agent_runs);
        let limit = if total < 1 { 1 } else { total };
        if actions.len() > limit {
            actions.truncate(limit);
        }
        assert(action_views(actions@) =~= acts.take(if acts.len() < action_limit(*budget) {
            acts.len() as int
        } else {
            action_limit(*budget)
        }));
        EvidenceAcquisitionPlan {
            claim: claim.id.clone(),
            actions,
            rationale,
            requirement_satisfied: false,
            stop_reason: None,
        }
    }

    /// Assesses the diversity of the current evidence and plans from it.
    pub fn plan(&self, claim: &Claim, current: &Vec<EvidencePath>, budget: &ExperienceBudget) -> (r: EvidenceAcquisitionPlan)
        ensures
            exists|a: EvidenceDiversityAssessment| assessment_of(current@, a)
                && planned(self.agents@, self.minimum, *claim, current@, *budget, a, r),
    {
        let diversity = DeterministicEvidenceDiversityPolicy.assess(current);
        self.plan_with(claim, current, budget, &diversity)
    }
}

} // verus!
