//! On-demand strategy experiments: their model, comparison and configuration.
use vstd::prelude::*;
use crate::common::{ExperienceBudget, ProcessStatus};
use crate::effects::EffectRisk;
use crate::epistemic::AgentIdentity;
use crate::evaluation::{Evaluation, EvaluationSpec};
use crate::error::Error;

pub mod comparison;
pub mod admission;
pub mod orchestration;

verus! {

/// A request to compare candidate strategies from one starting state; `created_at` is in
/// Unix milliseconds.
#[derive(Clone, Debug)]
pub struct ExperimentRequest {
    pub id: String,
    pub session_id: String,
    pub question: String,
    pub hypothesis: Option<String>,
    pub candidates: Vec<ExperimentCandidate>,
    pub starting_state: ExperimentStartingState,
    pub evaluator: EvaluationSpec,
    pub budget: ExperienceBudget,
    pub requested_by: AgentIdentity,
    pub created_at: i64,
    pub criteria: ComparisonCriteria,
    pub origin: ExperimentOrigin,
    pub intent: ExperimentIntent,
    pub capabilities: ExperimentCapabilities,
}

#[derive(Clone, Debug)]
pub struct ExperimentCandidate {
    pub id: String,
    pub name: String,
    pub description: String,
    pub execution: CandidateExecution,
    pub expected_outcome: Option<String>,
}

#[derive(Clone, Debug)]
pub enum CandidateExecution {
    Shell { commands: Vec<String> },
    AgentTask { prompt: String, agent: Option<AgentIdentity> },
}

#[derive(Clone, Debug)]
pub struct ExperimentStartingState {
    pub state_ref: String,
    pub expected_fingerprint: Option<String>,
    pub parent_reality: Option<String>,
    pub source: SnapshotSource,
}

#[derive(Clone, Copy, Debug, PartialEq, Eq, Structural)]
pub enum SnapshotSource {
    RepositoryCommit,
    /// No live process, conversation, ignored files, or uncommitted edits are cloned.
    SessionCommitFallback,
}

impl Default for SnapshotSource {
    fn default() -> (r: Self)
        ensures
            r == SnapshotSource::RepositoryCommit,
    {
        SnapshotSource::RepositoryCommit
    }
}

#[derive(Clone, Debug)]
pub struct StartingStateProof {
    pub state_ref: String,
    pub fingerprint: String,
    pub environment_fingerprint: String,
    /// Fixed runner and configured executor hashes, normalized independently of worktree path.
    pub runtime_fingerprints: Vec<(String, String)>,
    pub scope: String,
}

#[derive(Clone, Debug)]
pub struct ComparisonCriteria {
    pub require_success: bool,
    pub minimize_duration: bool,
    pub minimize_diff_size: bool,
    /// Reserved for explicit future policies.
    pub custom_checks: Vec<String>,
}

impl Default for ComparisonCriteria {
    fn default() -> (r: Self)
        ensures
            r.require_success,
            !r.minimize_duration,
            !r.minimize_diff_size,
            r.custom_checks@.len() == 0,
    {
        ComparisonCriteria { require_success: true, minimize_duration: false, minimize_diff_size: false, custom_checks: Vec::new() }
    }
}

#[derive(Clone, Copy, Debug, PartialEq, Eq, Structural)]
pub enum ExperimentOrigin {
    User,
    Agent,
    ChaosEngine,
    LessonValidation,
    ReflexValidation,
    FederationReproduction,
}

impl Default for ExperimentOrigin {
    fn default() -> (r: Self)
        ensures
            r == ExperimentOrigin::User,
    {
        ExperimentOrigin::User
    }
}

#[derive(Clone, Copy, Debug, PartialEq, Eq, Structural)]
pub enum ExperimentIntent {
    ResolveUncertainty,
    CompareStrategies,
    ValidateHypothesis,
    TestLesson,
    ValidateRecovery,
    MapBoundary,
    ReproduceFederatedExperience,
    ValidateTransfer,
}

impl Default for ExperimentIntent {
    fn default() -> (r: Self)
        ensures
            r == ExperimentIntent::CompareStrategies,
    {
        ExperimentIntent::CompareStrategies
    }
}


#[derive(Clone, Copy, Debug, PartialEq, Eq, Structural)]
pub enum ExperimentQuality {
    Controlled,
    PartiallyControlled,
    Confounded,
    Invalid,
}

#[derive(Clone, Debug)]
pub struct ExperimentCapabilities {
    /// Empty means the managed reality only.
    pub filesystem_scope: Vec<String>,
    pub allow_network: bool,
    pub allow_external_mutations: bool,
    /// Explicit effect declarations, such as send_email, cloud_mutation, git_push, payment.
    pub external_effects: Vec<String>,
}

#[derive(Clone, Debug)]
pub struct ExperimentVariable {
    pub name: String,
    pub values: Vec<(String, String)>,
}

#[derive(Clone, Copy, Debug, PartialEq, Eq, Structural)]
pub struct DiffSummary {
    pub files_changed: usize,
    pub insertions: usize,
    pub deletions: usize,
    pub binary_files: usize,
}

impl Default for DiffSummary {
    fn default() -> (r: Self)
        ensures
            r == (DiffSummary { files_changed: 0, insertions: 0, deletions: 0, binary_files: 0 }),
    {
        DiffSummary { files_changed: 0, insertions: 0, deletions: 0, binary_files: 0 }
    }
}

#[derive(Clone, Debug)]
pub struct CandidateResult {
    pub candidate_id: String,
    pub name: String,
    pub reality_id: String,
    pub experience_id: String,
    pub execution_status: ProcessStatus,
    pub evaluation: Evaluation,
    pub diff_summary: Option<DiffSummary>,
    pub duration_ms: u64,
    pub artifacts: Vec<String>,
    pub starting_fingerprint: String,
    pub agent: AgentIdentity,
}

#[derive(Clone, Debug)]
pub struct ExperimentComparison {
    pub policy: String,
    pub recommendation: Option<String>,
    pub reasons: Vec<String>,
    /// Qualitative indicator, never a calibrated probability or a universal causal claim.
    pub evidence_weight: String,
}

#[derive(Clone, Copy, Debug, PartialEq, Eq, Structural)]
pub enum ExperimentStatus {
    Accepted,
    Running,
    Completed,
    Cancelled,
    Rejected,
    Failed,
}

impl ExperimentStatus {
    /// Every status but accepted and running is final.
    pub fn terminal(self) -> (r: bool)
        ensures
            r == !(self == ExperimentStatus::Accepted || self == ExperimentStatus::Running),
    {
        !matches!(self, ExperimentStatus::Accepted | ExperimentStatus::Running)
    }
}

#[derive(Clone, Copy, Debug, PartialEq, Eq, Structural)]
pub enum ExperimentPhase {
    Preparing,
    Executing,
    Evaluating,
    Comparing,
    Learning,
    Completed,
    Cancelled,
}

#[derive(Clone, Copy, Debug, PartialEq, Eq, Structural)]
pub enum ExperimentRelationType {
    Replay,
    Extension,
    Revalidation,
    Counterfactual,
}

#[derive(Clone, Debug)]
pub struct ExperimentRelation {
    pub parent: String,
    pub child: String,
    pub relation: ExperimentRelationType,
}

/// Stored inside the immutable experience, before its first insertion.
#[derive(Clone, Debug)]
pub struct ExperimentEvidence {
    pub experiment_id: String,
    pub candidate_id: String,
    pub starting_fingerprint: String,
}

// ---------------------------------------------------------------------------
// Configuration
// ---------------------------------------------------------------------------

#[derive(Clone, Debug)]
pub struct ExperimentsConfig {
    pub max_parallel_realities: usize,
    /// Home-wide leases, acquired before any worktree is created.
    pub provider_capacity: usize,
    pub continue_after_session_end: bool,
    pub agent_requests: AgentRequestsConfig,
    /// Executor templates are trusted local configuration, never arbitrary wire commands.
    pub agents: Vec<(String, ExperimentAgentConfig)>,
}

impl Default for ExperimentsConfig {
    fn default() -> (r: Self)
        ensures
            r.max_parallel_realities == 3,
            r.provider_capacity == 8,
            !r.continue_after_session_end,
            r.agent_requests == AgentRequestsConfig::default_spec(),
            r.agents@.len() == 0,
    {
        ExperimentsConfig {
            max_parallel_realities: 3,
            provider_capacity: 8,
            continue_after_session_end: false,
            agent_requests: AgentRequestsConfig::default(),
            agents: Vec::new(),
        }
    }
}

#[derive(Clone, Copy, Debug, PartialEq, Eq, Structural)]
pub struct AgentRequestsConfig {
    pub enabled: bool,
    pub max_realities: usize,
    pub max_parallel: usize,
    pub allow_network: bool,
    /// Deliberate requests only; automatic initiation is not supported.
    pub auto_request: bool,
}

impl AgentRequestsConfig {
    pub open spec fn default_spec() -> Self {
        AgentRequestsConfig { enabled: true, max_realities: 3, max_parallel: 2, allow_network: false, auto_request: false }
    }
}

impl Default for AgentRequestsConfig {
    fn default() -> (r: Self)
        ensures
            r == AgentRequestsConfig::default_spec(),
    {
        AgentRequestsConfig { enabled: true, max_realities: 3, max_parallel: 2, allow_network: false, auto_request: false }
    }
}

/// How an experiment's processes see their environment.
#[derive(Clone, Copy, Debug, PartialEq, Eq, Structural)]
pub enum EnvironmentMode {
    Controlled,
    Inherited,
}

impl Default for EnvironmentMode {
    fn default() -> (r: Self)
        ensures
            r == EnvironmentMode::Controlled,
    {
        EnvironmentMode::Controlled
    }
}

#[derive(Clone, Debug)]
pub struct ExperimentAgentConfig {
    pub command: String,
    pub environment: EnvironmentMode,
    pub version: Option<String>,
    /// Must describe the configured executor; not a model-routing instruction.
    pub model: Option<String>,
}

#[derive(Clone, Copy, Debug, PartialEq, Eq, Structural)]
pub struct ExperienceBudgetConfig {
    pub max_realities: usize,
    pub max_agent_runs: usize,
    pub max_duration_seconds: u64,
    pub max_commands_per_reality: Option<usize>,
}

impl Default for ExperienceBudgetConfig {
    fn default() -> (r: Self)
        ensures
            r == (ExperienceBudgetConfig { max_realities: 3, max_agent_runs: 3, max_duration_seconds: 300, max_commands_per_reality: None }),
    {
        ExperienceBudgetConfig { max_realities: 3, max_agent_runs: 3, max_duration_seconds: 300, max_commands_per_reality: None }
    }
}

impl ExperienceBudgetConfig {
    /// The budget these limits describe; the duration limit is in milliseconds, saturating.
    pub open spec fn budget_spec(&self) -> ExperienceBudget {
        ExperienceBudget {
            max_realities: self.max_realities,
            max_curriculum_trials: None,
            max_agent_runs: self.max_agent_runs,
            max_duration_ms: Some(if self.max_duration_seconds * 1000 > u64::MAX {
                u64::MAX
            } else {
                (self.max_duration_seconds * 1000) as u64
            }),
            max_human_approvals: None,
            max_parallel_trials: None,
            max_commands_per_reality: self.max_commands_per_reality,
            allowed_effect_risk: EffectRisk::ReadOnly,
        }
    }

    /// The budget these limits describe; the duration limit is in milliseconds, saturating.
    pub fn budget(&self) -> (r: ExperienceBudget)
        ensures
            r == self.budget_spec(),
    {
        ExperienceBudget {
            max_realities: self.max_realities,
            max_curriculum_trials: None,
            max_agent_runs: self.max_agent_runs,
            max_duration_ms: Some(if self.max_duration_seconds <= u64::MAX / 1000 { self.max_duration_seconds * 1000 } else { u64::MAX }),
            max_human_approvals: None,
            max_parallel_trials: None,
            max_commands_per_reality: self.max_commands_per_reality,
            allowed_effect_risk: EffectRisk::ReadOnly,
        }
    }
}

/// The limits a configuration must respect.
pub open spec fn limits_ok(c: ExperimentsConfig, b: ExperienceBudgetConfig) -> bool {
    &&& 1 <= c.max_parallel_realities <= 32
    &&& 1 <= c.provider_capacity <= 32
    &&& 1 <= c.agent_requests.max_parallel <= 32
    &&& c.agent_requests.max_realities <= 32
    &&& b.max_realities <= 32
    &&& b.max_agent_runs <= 32
    &&& 1 <= b.max_duration_seconds <= 86_400
    &&& !c.agent_requests.auto_request
}

pub open spec fn limits_message() -> Seq<char> {
    "Experiment limits out of range (1–32 parallel/capacity, up to 32 runs, 1–86400 seconds); auto_request is unsupported"@
}

impl ExperimentsConfig {
    /// Accepts 1 to 32 parallel realities, provider leases and parallel requests, at most 32
    /// requested realities and runs, 1 to 86400 seconds, and no automatic requests.
    pub fn validate(&self, budget: &ExperienceBudgetConfig) -> (r: Result<(), Error>)
        ensures
            r is Ok <==> limits_ok(*self, *budget),
            r matches Err(e) ==> e is InvalidInput && e.message_spec() == limits_message(),
    {
        if !(1 <= self.max_parallel_realities && self.max_parallel_realities <= 32)
            || !(1 <= self.provider_capacity && self.provider_capacity <= 32)
            || !(1 <= self.agent_requests.max_parallel && self.agent_requests.max_parallel <= 32)
            || self.agent_requests.max_realities > 32
            || budget.max_realities > 32
            || budget.max_agent_runs > 32
            || !(1 <= budget.max_duration_seconds && budget.max_duration_seconds <= 86_400)
            || self.agent_requests.auto_request {
            return Err(Error::InvalidInput(String::from_str("Experiment limits out of range (1–32 parallel/capacity, up to 32 runs, 1–86400 seconds); auto_request is unsupported")));
        }
        Ok(())
    }
}

// ---------------------------------------------------------------------------
// Quality and diffs
// ---------------------------------------------------------------------------

/// Whether `line` starts with `prefix`.
pub open spec fn starts_with(line: Seq<u8>, prefix: Seq<u8>) -> bool {
    line.len() >= prefix.len() && line.subrange(0, prefix.len() as int) == prefix
}

/// Position of the first line feed in `b`, if any.
pub open spec fn first_newline(b: Seq<u8>) -> Option<int> {
    if exists|i: int| 0 <= i < b.len() && b[i] == 10u8 {
        Some(choose|i: int| 0 <= i < b.len() && b[i] == 10u8 && forall|j: int| 0 <= j < i ==> b[j] != 10u8)
    } else {
        None
    }
}

/// The pieces of `b` between line feeds, as `split(|b| *b == b'\n')` yields them.
#[verifier::opaque]
pub open spec fn split_lines(b: Seq<u8>) -> Seq<Seq<u8>>
    decreases b.len(),
{
    match first_newline(b) {
        Some(i) => if 0 <= i < b.len() {
            seq![b.subrange(0, i)] + split_lines(b.subrange(i + 1, b.len() as int))
        } else {
            seq![b]
        },
        None => seq![b],
    }
}

pub open spec fn diff_git_prefix() -> Seq<u8> { "diff --git "@.map_values(|c: char| c as u8) }
pub open spec fn hunk_prefix() -> Seq<u8> { seq![64u8, 64u8, 32u8] }
pub open spec fn binary_prefix() -> Seq<u8> { "GIT binary patch"@.map_values(|c: char| c as u8) }

/// One line of a unified diff: a file header resets the hunk, `@@ ` opens one, binary
/// patches are counted, and `+` / `-` lines inside a hunk are insertions and deletions.
pub open spec fn diff_line(s: (DiffSummary, bool), line: Seq<u8>) -> (DiffSummary, bool) {
    let (d, in_hunk) = s;
    if starts_with(line, diff_git_prefix()) {
        (DiffSummary { files_changed: (d.files_changed + 1) as usize, ..d }, false)
    } else if starts_with(line, hunk_prefix()) {
        (d, true)
    } else if starts_with(line, binary_prefix()) {
        (DiffSummary { binary_files: (d.binary_files + 1) as usize, ..d }, in_hunk)
    } else if in_hunk && starts_with(line, seq![43u8]) {
        (DiffSummary { insertions: (d.insertions + 1) as usize, ..d }, in_hunk)
    } else if in_hunk && starts_with(line, seq![45u8]) {
        (DiffSummary { deletions: (d.deletions + 1) as usize, ..d }, in_hunk)
    } else {
        (d, in_hunk)
    }
}

pub open spec fn diff_fold(lines: Seq<Seq<u8>>, s: (DiffSummary, bool)) -> (DiffSummary, bool)
    decreases lines.len(),
{
    if lines.len() == 0 { s } else { diff_fold(lines.drop_first(), diff_line(s, lines[0])) }
}

proof fn lemma_split_lines_newline(b: Seq<u8>, i: int)
    requires
        0 <= i < b.len(),
        b[i] == 10u8,
        forall|j: int| 0 <= j < i ==> b[j] != 10u8,
    ensures
        split_lines(b) == seq![b.subrange(0, i)] + split_lines(b.subrange(i + 1, b.len() as int)),
{
    reveal(split_lines);
    let f = first_newline(b);
    assert(exists|k: int| 0 <= k < b.len() && b[k] == 10u8);
    let c = f.unwrap();
    assert(c == i) by {
        if c < i { assert(b[c] != 10u8); }
        if c > i { assert(b[i] != 10u8); }
    }
}

proof fn lemma_split_lines_last(b: Seq<u8>)
    requires
        forall|j: int| 0 <= j < b.len() ==> b[j] != 10u8,
    ensures
        split_lines(b) == seq![b],
{
    reveal(split_lines);
    assert(!(exists|i: int| 0 <= i < b.len() && b[i] == 10u8));
}

proof fn lemma_diff_fold_step(line: Seq<u8>, tail: Seq<Seq<u8>>, s: (DiffSummary, bool))
    ensures
        diff_fold(seq![line] + tail, s) == diff_fold(tail, diff_line(s, line)),
{
    assert((seq![line] + tail).drop_first() =~= tail);
    assert((seq![line] + tail)[0] == line);
}

fn has_prefix_at(bytes: &[u8], start: usize, end: usize, prefix: &[u8]) -> (r: bool)
    requires
        start <= end <= bytes@.len(),
    ensures
        r == starts_with(bytes@.subrange(start as int, end as int), prefix@),
{
    if end - start < prefix.len() {
        return false;
    }
    let mut k: usize = 0;
    while k < prefix.len()
        invariant
            start <= end <= bytes@.len(),
            end - start >= prefix@.len(),
            k <= prefix@.len(),
            forall|j: int| 0 <= j < k ==> bytes@[start + j] == prefix@[j],
        decreases prefix.len() - k,
    {
        if bytes[start + k] != prefix[k] {
            assert(bytes@.subrange(start as int, end as int).subrange(0, prefix@.len() as int)[k as int] != prefix@[k as int]);
            return false;
        }
        k = k + 1;
    }
    assert(bytes@.subrange(start as int, end as int).subrange(0, prefix@.len() as int) =~= prefix@);
    true
}

/// Counts changed files, binary patches, and hunk insertions and deletions of a unified diff.
pub fn summarize_diff(bytes: &[u8]) -> (r: DiffSummary)
    requires
        bytes@.len() < usize::MAX,
    ensures
        r == diff_fold(split_lines(bytes@), (DiffSummary { files_changed: 0, insertions: 0, deletions: 0, binary_files: 0 }, false)).0,
{
    let diff_git: [u8; 11] = [100, 105, 102, 102, 32, 45, 45, 103, 105, 116, 32];
    let hunk: [u8; 3] = [64, 64, 32];
    let binary: [u8; 16] = [71, 73, 84, 32, 98, 105, 110, 97, 114, 121, 32, 112, 97, 116, 99, 104];
    let plus: [u8; 1] = [43];
    let minus: [u8; 1] = [45];
    proof {
        reveal_strlit("diff --git ");
        reveal_strlit("GIT binary patch");
        assert(diff_git@ =~= diff_git_prefix());
        assert(binary@ =~= binary_prefix());
        assert(hunk@ =~= hunk_prefix());
    }
    let mut summary = DiffSummary { files_changed: 0, insertions: 0, deletions: 0, binary_files: 0 };
    let mut in_hunk = false;
    let mut start: usize = 0;
    let n = bytes.len();
    let ghost init = (summary, in_hunk);
    assert(bytes@.subrange(0, n as int) =~= bytes@);
    loop
        invariant
            n == bytes@.len(),
            n < usize::MAX,
            start <= n,
            init == (DiffSummary { files_changed: 0, insertions: 0, deletions: 0, binary_files: 0 }, false),
            diff_git@ == diff_git_prefix(),
            binary@ == binary_prefix(),
            hunk@ == hunk_prefix(),
            plus@ == seq![43u8],
            minus@ == seq![45u8],
            summary.files_changed + summary.insertions + summary.deletions + summary.binary_files <= start,
            diff_fold(split_lines(bytes@), init) == diff_fold(split_lines(bytes@.subrange(start as int, n as int)), (summary, in_hunk)),
        decreases n - start,
    {
        let mut end = start;
        while end < n && bytes[end] != 10
            invariant
                start <= end <= n,
                n == bytes@.len(),
                forall|j: int| start <= j < end ==> bytes@[j] != 10u8,
            decreases n - end,
        {
            end = end + 1;
        }
        let ghost rest = bytes@.subrange(start as int, n as int);
        let ghost line = bytes@.subrange(start as int, end as int);
        let ghost before = (summary, in_hunk);
        if has_prefix_at(bytes, start, end, &diff_git) {
            summary.files_changed = summary.files_changed + 1;
            in_hunk = false;
        } else if has_prefix_at(bytes, start, end, &hunk) {
            in_hunk = true;
        } else if has_prefix_at(bytes, start, end, &binary) {
            summary.binary_files = summary.binary_files + 1;
        } else if in_hunk && has_prefix_at(bytes, start, end, &plus) {
            summary.insertions = summary.insertions + 1;
        } else if in_hunk && has_prefix_at(bytes, start, end, &minus) {
            summary.deletions = summary.deletions + 1;
        }
        assert((summary, in_hunk) == diff_line(before, line));
        if end == n {
            proof {
                assert(line =~= rest);
                assert forall|j: int| 0 <= j < rest.len() implies rest[j] != 10u8 by {
                    assert(rest[j] == bytes@[start + j]);
                }
                lemma_split_lines_last(rest);
                lemma_diff_fold_step(line, Seq::empty(), before);
                assert(seq![line] + Seq::<Seq<u8>>::empty() =~= seq![line]);
                assert(diff_fold(Seq::<Seq<u8>>::empty(), (summary, in_hunk)) == (summary, in_hunk));
                assert(diff_fold(split_lines(rest), before) == (summary, in_hunk));
            }
            return summary;
        }
        proof {
            let i = (end - start) as int;
            assert forall|j: int| 0 <= j < i implies rest[j] != 10u8 by {
                assert(rest[j] == bytes@[start + j]);
            }
            lemma_split_lines_newline(rest, i);
            assert(rest.subrange(0, i) =~= line);
            assert(rest.subrange(i + 1, rest.len() as int) =~= bytes@.subrange(end + 1, n as int));
            lemma_diff_fold_step(line, split_lines(bytes@.subrange(end + 1, n as int)), before);
        }
        start = end + 1;
    }
}

/// More than one changed variable confounds; an inherited environment controls only partly.
pub fn classify_quality(variables: &Vec<ExperimentVariable>, inherited_environment: bool) -> (r: ExperimentQuality)
    ensures
        r == (if variables@.len() > 1 {
            ExperimentQuality::Confounded
        } else if inherited_environment {
            ExperimentQuality::PartiallyControlled
        } else {
            ExperimentQuality::Controlled
        }),
{
    if variables.len() > 1 {
        ExperimentQuality::Confounded
    } else if inherited_environment {
        ExperimentQuality::PartiallyControlled
    } else {
        ExperimentQuality::Controlled
    }
}

} // verus!
