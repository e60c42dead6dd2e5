//! The decisions of the deterministic mock adapters: which targets each serves, how it
//! classifies effects, what it can do, and how injected faults steer preparation, commit,
//! discard, compensation and reconciliation. Reading and writing the mock external state is
//! left to the caller.
use vstd::prelude::*;
use crate::effects::effect::EffectRequest;
use crate::effects::{
    CommitStrategy, CompensationStatus, EffectAdapterCapabilities, EffectClassification, EffectFault, EffectRisk,
    ExternalityClass, IdempotencyClass, IsolationRequirement, ReversibilityClass,
};
use crate::error::Error;
use crate::text::str_eq;

verus! {

/// The integer at `/balance` in a JSON text, where the text parses and holds one.
pub uninterp spec fn json_balance(payload: Seq<char>) -> Option<i64>;

/// Reads `/balance` from a JSON payload with `serde_json` (`from_str`, `pointer`, `as_i64`).
/// Trusted: the result is named `json_balance` of the text, which depends on the text alone.
#[verifier::external_body]
pub(crate) fn payload_balance(payload: &str) -> (r: Option<i64>)
    ensures
        r == json_balance(payload@),
{
    serde_json::from_str::<serde_json::Value>(payload).ok().and_then(|v| v.pointer("/balance").and_then(serde_json::Value::as_i64))
}

/// The four kinds of mock adapter.
#[derive(Clone, Copy, Debug, PartialEq, Eq, Structural)]
pub enum Flavor {
    Http,
    Database,
    Message,
    Shadow,
}

pub open spec fn flavor_name(f: Flavor) -> Seq<char> {
    match f {
        Flavor::Http => "mock-http"@,
        Flavor::Database => "mock-db"@,
        Flavor::Message => "mock-message"@,
        Flavor::Shadow => "shadow-deployment"@,
    }
}

pub open spec fn flavor_schemes(f: Flavor) -> Seq<Seq<char>> {
    match f {
        Flavor::Http => seq!["mock"@, "mock-http"@],
        Flavor::Database => seq!["mock-db"@],
        Flavor::Message => seq!["mock-message"@],
        Flavor::Shadow => seq!["shadow"@],
    }
}

pub open spec fn flavor_classification(f: Flavor) -> EffectClassification {
    match f {
        Flavor::Http => EffectClassification {
            reversibility: ReversibilityClass::Compensatable,
            idempotency: IdempotencyClass::IdempotentWithKey,
            isolation_requirement: IsolationRequirement::Staged,
            externality: ExternalityClass::ExternalSystem,
            risk: EffectRisk::Medium,
            commit_strategy: CommitStrategy::Compensating,
        },
        Flavor::Database => EffectClassification {
            reversibility: ReversibilityClass::Compensatable,
            idempotency: IdempotencyClass::IdempotentWithKey,
            isolation_requirement: IsolationRequirement::ProviderTransaction,
            externality: ExternalityClass::ExternalSystem,
            risk: EffectRisk::Medium,
            commit_strategy: CommitStrategy::Compensating,
        },
        Flavor::Message => EffectClassification {
            reversibility: ReversibilityClass::Deferrable,
            idempotency: IdempotencyClass::IdempotentWithKey,
            isolation_requirement: IsolationRequirement::Staged,
            externality: ExternalityClass::HumanVisible,
            risk: EffectRisk::High,
            commit_strategy: CommitStrategy::DeferredDispatch,
        },
        Flavor::Shadow => EffectClassification {
            reversibility: ReversibilityClass::Shadowable,
            idempotency: IdempotencyClass::IdempotentWithKey,
            isolation_requirement: IsolationRequirement::Shadow,
            externality: ExternalityClass::ExternalSystem,
            risk: EffectRisk::Medium,
            commit_strategy: CommitStrategy::ShadowPromote,
        },
    }
}

pub open spec fn unsupported_target_message(f: Flavor, uri: Seq<char>) -> Seq<char> {
    "Adapter "@ + flavor_name(f) + " does not support target "@ + uri
}

pub open spec fn negative_balance_message() -> Seq<char> {
    "Mock database invariant rejected a negative balance"@
}

/// What a commit does once the preparation is known: report an earlier receipt, decline,
/// or apply the new state and answer with a receipt or, when the response is lost, with an
/// unknown outcome.
#[derive(Clone, Debug)]
pub enum CommitStep {
    ReportExisting,
    Decline { reason: String },
    Apply { response_lost: bool },
}

/// How a compensation ends.
#[derive(Clone, Copy, Debug, PartialEq, Eq, Structural)]
pub enum CompensationStep {
    Refuse(CompensationStatus),
    Restore,
}

/// How a reconciliation ends.
#[derive(Clone, Debug)]
pub enum ReconciliationStep {
    StillUnknown { reason: String },
    Committed,
    NotCommitted,
}

impl Flavor {
    /// The adapter's name.
    pub fn name(self) -> (r: &'static str)
        ensures
            r@ == flavor_name(self),
    {
        match self {
            Flavor::Http => "mock-http",
            Flavor::Database => "mock-db",
            Flavor::Message => "mock-message",
            Flavor::Shadow => "shadow-deployment",
        }
    }

    /// The target schemes the adapter serves.
    pub fn schemes(self) -> (r: Vec<&'static str>)
        ensures
            r@.map_values(|s: &str| s@) == flavor_schemes(self),
    {
        let mut r: Vec<&'static str> = Vec::new();
        match self {
            Flavor::Http => {
                r.push("mock");
                r.push("mock-http");
            },
            Flavor::Database => r.push("mock-db"),
            Flavor::Message => r.push("mock-message"),
            Flavor::Shadow => r.push("shadow"),
        }
        assert(r@.map_values(|s: &str| s@) =~= flavor_schemes(self));
        r
    }

    /// How the adapter classifies every effect it accepts.
    pub fn classification(self) -> (r: EffectClassification)
        ensures
            r == flavor_classification(self),
    {
        match self {
            Flavor::Http => EffectClassification {
                reversibility: ReversibilityClass::Compensatable,
                idempotency: IdempotencyClass::IdempotentWithKey,
                isolation_requirement: IsolationRequirement::Staged,
                externality: ExternalityClass::ExternalSystem,
                risk: EffectRisk::Medium,
                commit_strategy: CommitStrategy::Compensating,
            },
            Flavor::Database => EffectClassification {
                reversibility: ReversibilityClass::Compensatable,
                idempotency: IdempotencyClass::IdempotentWithKey,
                isolation_requirement: IsolationRequirement::ProviderTransaction,
                externality: ExternalityClass::ExternalSystem,
                risk: EffectRisk::Medium,
                commit_strategy: CommitStrategy::Compensating,
            },
            Flavor::Message => EffectClassification {
                reversibility: ReversibilityClass::Deferrable,
                idempotency: IdempotencyClass::IdempotentWithKey,
                isolation_requirement: IsolationRequirement::Staged,
                externality: ExternalityClass::HumanVisible,
                risk: EffectRisk::High,
                commit_strategy: CommitStrategy::DeferredDispatch,
            },
            Flavor::Shadow => EffectClassification {
                reversibility: ReversibilityClass::Shadowable,
                idempotency: IdempotencyClass::IdempotentWithKey,
                isolation_requirement: IsolationRequirement::Shadow,
                externality: ExternalityClass::ExternalSystem,
                risk: EffectRisk::Medium,
                commit_strategy: CommitStrategy::ShadowPromote,
            },
        }
    }

    /// What the adapter can do: everything, except compensating delivered messages, and
    /// shadow resources only for shadow deployments.
    pub fn capabilities(self) -> (r: EffectAdapterCapabilities)
        ensures
            r == (EffectAdapterCapabilities {
                simulation: true,
                prepare: true,
                commit: true,
                discard: true,
                compensate: self != Flavor::Message,
                reconciliation: true,
                idempotency_keys: true,
                shadow_resources: self == Flavor::Shadow,
            }),
    {
        EffectAdapterCapabilities {
            simulation: true,
            prepare: true,
            commit: true,
            discard: true,
            compensate: self != Flavor::Message,
            reconciliation: true,
            idempotency_keys: true,
            shadow_resources: self == Flavor::Shadow,
        }
    }

    /// Classifies a request: refused unless its target's scheme is one the adapter serves,
    /// and, for the database, refused when the payload's `/balance` is negative.
    pub fn classify(self, request: &EffectRequest) -> (r: Result<EffectClassification, Error>)
        ensures
            ({
                let scheme = crate::effects::adapter::uri_scheme(request.target.uri@);
                let served = scheme is Some && flavor_schemes(self).contains(scheme->0);
                let balance = json_balance(request.payload@);
                if !served {
                    (r matches Err(e) && e is InvalidInput && e.message_spec() == unsupported_target_message(
                        self,
                        request.target.uri@,
                    ))
                } else if self == Flavor::Database && (balance matches Some(b) && b < 0) {
                    (r matches Err(e) && e is Intervention && e.message_spec() == negative_balance_message())
                } else {
                    r == Ok::<EffectClassification, Error>(flavor_classification(self))
                }
            }),
    {
        let balance = payload_balance(request.payload.as_str());
        self.classify_with_balance(request, balance)
    }

    /// Classifies a request whose payload's `/balance` reads as `balance`: refused unless its
    /// target's scheme is one the adapter serves, and, for the database, refused when the
    /// balance is negative.
    pub fn classify_with_balance(self, request: &EffectRequest, balance: Option<i64>) -> (r: Result<EffectClassification, Error>)
        ensures
            ({
                let scheme = crate::effects::adapter::uri_scheme(request.target.uri@);
                let served = scheme is Some && flavor_schemes(self).contains(scheme->0);
                if !served {
                    (r matches Err(e) && e is InvalidInput && e.message_spec() == unsupported_target_message(
                        self,
                        request.target.uri@,
                    ))
                } else if self == Flavor::Database && (balance matches Some(b) && b < 0) {
                    (r matches Err(e) && e is Intervention && e.message_spec() == negative_balance_message())
                } else {
                    r == Ok::<EffectClassification, Error>(flavor_classification(self))
                }
            }),
    {
        let scheme = request.target.scheme();
        proof {
            match &scheme {
                Some(s) => {
                    let i = choose|i: int|
                        crate::text::occurs_at(request.target.uri@, seq![':', '/', '/'], i) && (forall|j: int|
                            0 <= j < i ==> !crate::text::occurs_at(request.target.uri@, seq![':', '/', '/'], j)) && s@
                            == request.target.uri@.subrange(0, i);
                    let c = choose|c: int|
                        crate::text::occurs_at(request.target.uri@, seq![':', '/', '/'], c) && forall|j: int|
                            0 <= j < c ==> !crate::text::occurs_at(request.target.uri@, seq![':', '/', '/'], j);
                    assert(c == i) by {
                        if c < i {
                        } else if c > i {
                        }
                    }
                },
                None => {},
            }
        }
        let served = match &scheme {
            Some(s) => {
                let schemes = self.schemes();
                let ghost views = schemes@.map_values(|x: &str| x@);
                let mut found = false;
                let mut i: usize = 0;
                while i < schemes.len()
                    invariant
                        i <= schemes@.len(),
                        views == schemes@.map_values(|x: &str| x@),
                        views == flavor_schemes(self),
                        found == exists|j: int| 0 <= j < i && views[j] == s@,
                    decreases schemes.len() - i,
                {
                    assert(views[i as int] == schemes@[i as int]@);
                    if str_eq(schemes[i], s.as_str()) {
                        found = true;
                    }
                    i = i + 1;
                }
                found
            },
            None => false,
        };
        if !served {
            let mut message = String::from_str("Adapter ");
            message.append(self.name());
            message.append(" does not support target ");
            message.append(request.target.uri.as_str());
            return Err(Error::InvalidInput(message));
        }
        let negative = match balance {
            Some(b) => b < 0,
            None => false,
        };
        if self == Flavor::Database && negative {
            return Err(Error::Intervention(String::from_str("Mock database invariant rejected a negative balance")));
        }
        Ok(self.classification())
    }
}

/// Refuses a preparation whose fault injects a failure there.
pub fn prepare_check(fault: EffectFault) -> (r: Result<(), Error>)
    ensures
        r is Ok <==> fault != EffectFault::PrepareFailure,
        r matches Err(e) ==> e is Intervention && e.message_spec() == "Injected prepare failure"@,
{
    if fault == EffectFault::PrepareFailure {
        return Err(Error::Intervention(String::from_str("Injected prepare failure")));
    }
    Ok(())
}

/// When a preparation made at `now` (Unix milliseconds) expires: a second before, when the
/// fault injects an expired reservation, else five minutes later.
pub fn preparation_expiry(fault: EffectFault, now: i64) -> (r: i64)
    requires
        i64::MIN + 1000 <= now <= i64::MAX - 300_000,
    ensures
        r == if fault == EffectFault::ReservationExpiry { now - 1000 } else { now + 300_000 },
{
    if fault == EffectFault::ReservationExpiry {
        now - 1000
    } else {
        now + 300_000
    }
}

pub open spec fn stale_message(expected: Seq<char>, observed: Seq<char>) -> Seq<char> {
    "Stale prepared effect: expected version "@ + expected + ", observed "@ + observed
}

/// The step a commit takes: an effect with a receipt under its idempotency key reports it;
/// else an injected failure before mutation, an expired preparation or a version that moved
/// since preparation (the versions given as text) declines; else the new state is applied,
/// and the response is lost when the fault says so.
pub fn commit_step(
    fault: EffectFault,
    has_receipt: bool,
    expired: bool,
    observed_version: &str,
    expected_version: &str,
) -> (r: CommitStep)
    ensures
        has_receipt ==> r is ReportExisting,
        !has_receipt && fault == EffectFault::CommitFailureBeforeMutation ==> (r matches CommitStep::Decline { reason }
            && reason@ == "Injected commit failure before mutation"@),
        !has_receipt && fault != EffectFault::CommitFailureBeforeMutation && expired ==> (r matches CommitStep::Decline {
            reason,
        } && reason@ == "Prepared effect expired"@),
        !has_receipt && fault != EffectFault::CommitFailureBeforeMutation && !expired && observed_version@
            != expected_version@ ==> (r matches CommitStep::Decline { reason } && reason@ == stale_message(
            expected_version@,
            observed_version@,
        )),
        !has_receipt && fault != EffectFault::CommitFailureBeforeMutation && !expired && observed_version@
            == expected_version@ ==> r == (CommitStep::Apply {
            response_lost: fault == EffectFault::ResponseLossAfterMutation || fault
                == EffectFault::ResponseLossWithReconciliationFailure,
        }),
{
    if has_receipt {
        return CommitStep::ReportExisting;
    }
    if fault == EffectFault::CommitFailureBeforeMutation {
        return CommitStep::Decline { reason: String::from_str("Injected commit failure before mutation") };
    }
    if expired {
        return CommitStep::Decline { reason: String::from_str("Prepared effect expired") };
    }
    if !str_eq(observed_version, expected_version) {
        let mut reason = String::from_str("Stale prepared effect: expected version ");
        reason.append(expected_version);
        reason.append(", observed ");
        reason.append(observed_version);
        return CommitStep::Decline { reason };
    }
    CommitStep::Apply {
        response_lost: fault == EffectFault::ResponseLossAfterMutation || fault
            == EffectFault::ResponseLossWithReconciliationFailure,
    }
}

/// Refuses a discard whose fault injects a failure there.
pub fn discard_check(fault: EffectFault) -> (r: Result<(), Error>)
    ensures
        r is Ok <==> fault != EffectFault::DiscardFailure,
        r matches Err(e) ==> e is Intervention && e.message_spec() == "Injected discard failure"@,
{
    if fault == EffectFault::DiscardFailure {
        return Err(Error::Intervention(String::from_str("Injected discard failure")));
    }
    Ok(())
}

/// How a compensation ends: delivered messages cannot be taken back, an injected failure
/// fails, and anything else restores the state from before the commit.
pub fn compensation_step(flavor: Flavor, fault: EffectFault) -> (r: CompensationStep)
    ensures
        r == if flavor == Flavor::Message {
            CompensationStep::Refuse(CompensationStatus::Unsupported)
        } else if fault == EffectFault::CompensationFailure {
            CompensationStep::Refuse(CompensationStatus::Failed)
        } else {
            CompensationStep::Restore
        },
{
    if flavor == Flavor::Message {
        CompensationStep::Refuse(CompensationStatus::Unsupported)
    } else if fault == EffectFault::CompensationFailure {
        CompensationStep::Refuse(CompensationStatus::Failed)
    } else {
        CompensationStep::Restore
    }
}

/// How a reconciliation ends: an injected reconciliation failure leaves the outcome unknown;
/// else a receipt under the effect's idempotency key shows it committed.
pub fn reconciliation_step(fault: EffectFault, has_receipt: bool) -> (r: ReconciliationStep)
    ensures
        (fault == EffectFault::ReconciliationFailure || fault == EffectFault::ResponseLossWithReconciliationFailure)
            ==> (r matches ReconciliationStep::StillUnknown { reason } && reason@ == "Injected reconciliation failure"@),
        !(fault == EffectFault::ReconciliationFailure || fault == EffectFault::ResponseLossWithReconciliationFailure)
            ==> (if has_receipt { r is Committed } else { r is NotCommitted }),
{
    if fault == EffectFault::ReconciliationFailure || fault == EffectFault::ResponseLossWithReconciliationFailure {
        return ReconciliationStep::StillUnknown { reason: String::from_str("Injected reconciliation failure") };
    }
    if has_receipt {
        ReconciliationStep::Committed
    } else {
        ReconciliationStep::NotCommitted
    }
}

} // verus!
