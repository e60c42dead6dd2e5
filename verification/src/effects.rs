use vstd::prelude::*;
use crate::error::Error;
use crate::text::{utf8_len, is_blank, is_blank_spec, contains_any, contains_any_spec, occurs_at, find};
use vstd::string::*;

pub mod effect;
pub mod commit;
pub mod adapter;
pub mod mock;
pub mod record;

verus! {

#[derive(Clone, Copy, Debug, PartialEq, Eq, Structural)]
pub enum EffectKind {
    Filesystem,
    Process,
    Database,
    HttpApi,
    CloudResource,
    Message,
    Deployment,
    Custom,
}

/// Where an effect stands between proposal and its final outcome.
#[derive(Clone, Copy, Debug, PartialEq, Eq, Structural)]
pub enum EffectLifecycle {
    Proposed,
    Classified,
    Virtualized,
    Prepared,
    Rejected,
    Committed,
    Discarded,
    Failed,
    Compensated,
    Unknown,
}

/// The lifecycle transitions an effect may take.
pub open spec fn lifecycle_allows(from: EffectLifecycle, to: EffectLifecycle) -> bool {
    match from {
        EffectLifecycle::Proposed => matches!(to, EffectLifecycle::Classified | EffectLifecycle::Rejected | EffectLifecycle::Failed | EffectLifecycle::Discarded),
        EffectLifecycle::Classified => matches!(to, EffectLifecycle::Virtualized | EffectLifecycle::Prepared | EffectLifecycle::Rejected | EffectLifecycle::Failed | EffectLifecycle::Discarded),
        EffectLifecycle::Virtualized => matches!(to, EffectLifecycle::Prepared | EffectLifecycle::Failed | EffectLifecycle::Discarded),
        EffectLifecycle::Prepared => matches!(to, EffectLifecycle::Committed | EffectLifecycle::Failed | EffectLifecycle::Discarded | EffectLifecycle::Unknown),
        EffectLifecycle::Unknown => matches!(to, EffectLifecycle::Committed | EffectLifecycle::Failed),
        EffectLifecycle::Committed => to == EffectLifecycle::Compensated,
        EffectLifecycle::Failed => to == EffectLifecycle::Discarded,
        _ => false,
    }
}

impl EffectLifecycle {
    /// Whether an effect in this state may move to `next`.
    pub fn allows(self, next: Self) -> (r: bool)
        ensures
            r == lifecycle_allows(self, next),
    {
        match self {
            EffectLifecycle::Proposed => matches!(next, EffectLifecycle::Classified | EffectLifecycle::Rejected | EffectLifecycle::Failed | EffectLifecycle::Discarded),
            EffectLifecycle::Classified => matches!(next, EffectLifecycle::Virtualized | EffectLifecycle::Prepared | EffectLifecycle::Rejected | EffectLifecycle::Failed | EffectLifecycle::Discarded),
            EffectLifecycle::Virtualized => matches!(next, EffectLifecycle::Prepared | EffectLifecycle::Failed | EffectLifecycle::Discarded),
            EffectLifecycle::Prepared => matches!(next, EffectLifecycle::Committed | EffectLifecycle::Failed | EffectLifecycle::Discarded | EffectLifecycle::Unknown),
            EffectLifecycle::Unknown => matches!(next, EffectLifecycle::Committed | EffectLifecycle::Failed),
            EffectLifecycle::Committed => matches!(next, EffectLifecycle::Compensated),
            EffectLifecycle::Failed => matches!(next, EffectLifecycle::Discarded),
            _ => false,
        }
    }
}

/// States with no way out.
pub open spec fn lifecycle_terminal(s: EffectLifecycle) -> bool {
    matches!(s, EffectLifecycle::Rejected | EffectLifecycle::Discarded | EffectLifecycle::Compensated)
}

/// Rejected, discarded and compensated effects never move again, no state returns to
/// `Proposed`, and no state may stay where it is.
pub proof fn lemma_lifecycle_terminal_and_irreflexive(from: EffectLifecycle, to: EffectLifecycle)
    ensures
        lifecycle_terminal(from) ==> !lifecycle_allows(from, to),
        !lifecycle_allows(from, EffectLifecycle::Proposed),
        !lifecycle_allows(from, from),
{
}

/// Only a prepared effect, or one whose commit outcome is unknown, may become committed;
/// only a committed effect may become compensated.
pub proof fn lemma_lifecycle_commit_requires_prepare(from: EffectLifecycle)
    ensures
        lifecycle_allows(from, EffectLifecycle::Committed) <==> (from == EffectLifecycle::Prepared || from == EffectLifecycle::Unknown),
        lifecycle_allows(from, EffectLifecycle::Compensated) <==> from == EffectLifecycle::Committed,
{
}

#[derive(Clone, Copy, Debug, PartialEq, Eq, Structural)]
pub enum ReversibilityClass {
    NaturallyReversible,
    Compensatable,
    Shadowable,
    Deferrable,
    Irreversible,
    Unknown,
}

#[derive(Clone, Copy, Debug, PartialEq, Eq, Structural)]
pub enum IdempotencyClass {
    Idempotent,
    IdempotentWithKey,
    NonIdempotent,
    Unknown,
}

#[derive(Clone, Copy, Debug, PartialEq, Eq, Structural)]
pub enum IsolationRequirement {
    RealityLocal,
    Staged,
    Shadow,
    ProviderTransaction,
    Unsupported,
}

#[derive(Clone, Copy, Debug, PartialEq, Eq, Structural)]
pub enum ExternalityClass {
    RealityLocal,
    HostLocal,
    ExternalSystem,
    HumanVisible,
    Financial,
    Unknown,
}

/// Risk of an external effect, ordered from read-only to critical.
#[derive(Clone, Copy, Debug, PartialEq, Eq, Structural, PartialOrd, Ord)]
pub enum EffectRisk {
    ReadOnly,
    Low,
    Medium,
    High,
    Critical,
}

pub open spec fn effect_risk_rank(r: EffectRisk) -> u8 {
    match r {
        EffectRisk::ReadOnly => 0,
        EffectRisk::Low => 1,
        EffectRisk::Medium => 2,
        EffectRisk::High => 3,
        EffectRisk::Critical => 4,
    }
}

impl EffectRisk {
    /// Position of the risk in its total order.
    pub fn rank(&self) -> (r: u8)
        ensures
            r == effect_risk_rank(*self),
    {
        match self {
            EffectRisk::ReadOnly => 0,
            EffectRisk::Low => 1,
            EffectRisk::Medium => 2,
            EffectRisk::High => 3,
            EffectRisk::Critical => 4,
        }
    }
}

#[derive(Clone, Copy, Debug, PartialEq, Eq, Structural)]
pub enum CommitStrategy {
    Direct,
    DeferredDispatch,
    ShadowPromote,
    ReserveCommit,
    Compensating,
    Unsupported,
}

#[derive(Clone, Copy, Debug, PartialEq, Eq, Structural)]
pub struct EffectClassification {
    pub reversibility: ReversibilityClass,
    pub idempotency: IdempotencyClass,
    pub isolation_requirement: IsolationRequirement,
    pub externality: ExternalityClass,
    pub risk: EffectRisk,
    pub commit_strategy: CommitStrategy,
}

#[derive(Clone, Debug)]
pub struct ActionRef {
    pub id: String,
    pub kind: String,
}

#[derive(Clone, Debug)]
pub struct EffectTarget {
    pub uri: String,
}

/// The scheme of a URI: the text before the first `://`.
pub open spec fn uri_scheme(uri: Seq<char>) -> Option<Seq<char>> {
    if exists|i: int| occurs_at(uri, seq![':', '/', '/'], i) {
        let i = choose|i: int| occurs_at(uri, seq![':', '/', '/'], i) && forall|j: int| 0 <= j < i ==> !occurs_at(uri, seq![':', '/', '/'], j);
        Some(uri.subrange(0, i))
    } else {
        None
    }
}

impl EffectTarget {
    /// The target's scheme, the text before the first `://`, or `None` without one.
    pub fn scheme(&self) -> (r: Option<String>)
        ensures
            match r {
                Some(s) => exists|i: int| occurs_at(self.uri@, seq![':', '/', '/'], i)
                    && (forall|j: int| 0 <= j < i ==> !occurs_at(self.uri@, seq![':', '/', '/'], j))
                    && s@ == self.uri@.subrange(0, i),
                None => forall|j: int| !occurs_at(self.uri@, seq![':', '/', '/'], j),
            },
    {
        let sep = "://";
        proof {
            reveal_strlit("://");
        }
        assert(sep@ =~= seq![':', '/', '/']);
        match find(self.uri.as_str(), sep) {
            Some(i) => Some(self.uri.as_str().substring_char(0, i).to_string()),
            None => None,
        }
    }
}

#[derive(Clone, Debug)]
pub enum EffectOperation {
    Read,
    Create,
    Update,
    Delete,
    Post,
    Dispatch,
    Promote,
    Custom(String),
}

#[derive(Clone, Copy, Debug, PartialEq, Eq, Structural)]
pub enum EffectFault {
    NoFault,
    PrepareFailure,
    CommitFailureBeforeMutation,
    ResponseLossAfterMutation,
    ResponseLossWithReconciliationFailure,
    ReservationExpiry,
    DiscardFailure,
    CompensationFailure,
    ReconciliationFailure,
}

#[derive(Clone, Copy, Debug, PartialEq, Eq, Structural)]
pub enum EffectEventType {
    Proposed,
    Classified,
    Virtualized,
    Prepared,
    CommitAuthorized,
    CommitRejected,
    Committed,
    Discarded,
    CommitFailed,
    CompensationStarted,
    Compensated,
    CompensationFailed,
    Unknown,
    Reconciled,
    CleanupFailed,
}

#[derive(Clone, Copy, Debug, PartialEq, Eq, Structural)]
pub enum CompensationStatus {
    Successful,
    Partial,
    Failed,
    Unsupported,
}

#[derive(Clone, Copy, Debug, PartialEq, Eq, Structural)]
pub struct EffectAdapterCapabilities {
    pub simulation: bool,
    pub prepare: bool,
    pub commit: bool,
    pub discard: bool,
    pub compensate: bool,
    pub reconciliation: bool,
    pub idempotency_keys: bool,
    pub shadow_resources: bool,
}

#[derive(Clone, Copy, Debug, PartialEq, Eq, Structural)]
pub enum EffectDecision {
    AllowDirect,
    RequirePrepare,
    RequireApproval,
    RequireShadow,
    Reject,
}

#[derive(Clone, Copy, Debug, PartialEq, Eq, Structural)]
pub enum EffectCapability {
    Observe,
    Propose,
    Prepare,
    Commit,
    Compensate,
}

#[derive(Clone, Copy, Debug, PartialEq, Eq, Structural)]
pub struct EffectCapabilityGrant {
    pub observe: bool,
    pub propose: bool,
    pub prepare: bool,
    pub commit: bool,
    pub compensate: bool,
}

/// Capability grants: a default, and one per named adapter.
#[derive(Clone, Debug)]
pub struct EffectConfig {
    pub default: EffectCapabilityGrant,
    pub adapters: Vec<(String, EffectCapabilityGrant)>,
}

impl Default for EffectConfig {
    fn default() -> (r: Self)
        ensures
            r.default == (EffectCapabilityGrant { observe: true, propose: true, prepare: true, commit: false, compensate: false }),
            r.adapters@.len() == 0,
    {
        EffectConfig {
            default: EffectCapabilityGrant { observe: true, propose: true, prepare: true, commit: false, compensate: false },
            adapters: Vec::new(),
        }
    }
}

/// An adapter policy name is acceptable when it is nonempty, at most 128 bytes,
/// and holds no NUL, line feed or carriage return.
pub open spec fn adapter_name_ok(name: &String) -> bool {
    name@.len() > 0 && utf8_len(name@) <= 128
        && !contains_any_spec(name@, seq!['\0', '\n', '\r'])
}

impl EffectConfig {
    /// Accepts at most 128 adapter policies, each with an acceptable name.
    pub fn validate(&self) -> (r: Result<(), Error>)
        ensures
            r is Ok <==> (self.adapters@.len() <= 128
                && forall|i: int| 0 <= i < self.adapters@.len() ==> adapter_name_ok(&#[trigger] self.adapters@[i].0)),
            r matches Err(e) ==> e is InvalidInput,
    {
        if self.adapters.len() > 128 {
            return Err(Error::InvalidInput("Effect adapter policy names must be bounded".to_string()));
        }
        let forbidden = ['\0', '\n', '\r'];
        assert(forbidden@ =~= seq!['\0', '\n', '\r']);
        let mut i: usize = 0;
        while i < self.adapters.len()
            invariant
                i <= self.adapters@.len(),
                forbidden@ == seq!['\0', '\n', '\r'],
                forall|j: int| 0 <= j < i ==> adapter_name_ok(&#[trigger] self.adapters@[j].0),
            decreases self.adapters.len() - i,
        {
            let name = self.adapters[i].0.as_str();
            if name.is_empty() || name.as_bytes().len() > 128 || contains_any(name, &forbidden) {
                return Err(Error::InvalidInput("Effect adapter policy names must be bounded".to_string()));
            }
            assert(adapter_name_ok(&self.adapters@[i as int].0));
            i = i + 1;
        }
        Ok(())
    }
}

/// Who acts on an effect, and with which capabilities.
#[derive(Clone, Debug)]
pub struct EffectContext {
    pub actor: String,
    pub is_agent: bool,
    pub capabilities: EffectCapabilityGrant,
}

#[derive(Clone, Copy, Debug, PartialEq, Eq, Structural)]
pub enum CommitAuthority {
    User,
    Policy,
    Ci,
    ExternalApprovalSystem,
}

#[derive(Clone, Copy, Debug, PartialEq, Eq, Structural)]
pub enum InvariantPhase {
    BeforePrepare,
    AfterPrepare,
    BeforeCommit,
    AfterCommit,
}

#[derive(Clone, Copy, Debug, PartialEq, Eq, Structural)]
pub enum CommitGateDecision {
    Allow,
    RequireApproval,
    Reprepare,
    Reject,
}

#[derive(Clone, Debug)]
pub struct EffectDependency {
    pub before: String,
    pub after: String,
}

#[derive(Clone, Copy, Debug, PartialEq, Eq, Structural)]
pub enum EffectAtomicity {
    SingleEffect,
    BestEffortGroup,
    CompensatingGroup,
    AtomicProviderTransaction,
}

#[derive(Clone, Copy, Debug, PartialEq, Eq, Structural)]
pub enum CommitGroupOutcome {
    FullyCommitted,
    NotCommitted,
    PartiallyCommitted,
    Unknown,
    FullyCompensated,
    PartiallyCompensated,
}

#[derive(Clone, Debug)]
pub struct CompensationStep {
    pub effect_id: String,
    pub receipt_id: String,
    pub status: CompensationStatus,
}

#[derive(Clone, Debug)]
pub struct CompensationPlan {
    pub steps: Vec<CompensationStep>,
}

#[derive(Clone, Copy, Debug, PartialEq, Eq, Structural)]
pub struct ExternalEffectCapabilities {
    pub virtualized: bool,
    pub staged: bool,
    pub commit_supported: bool,
    pub compensation_supported: bool,
}

#[derive(Clone, Copy, Debug, PartialEq, Eq, Structural)]
pub struct ExternalTaskOutcome {
    pub experiment_success: bool,
    pub commit_status: CommitGroupOutcome,
}

} // verus!
