//! The decisions of the commit protocol: who may commit, under which authorization, along
//! which route, and where each adapter outcome leaves the effect.
use vstd::prelude::*;
use crate::effects::effect::{
    binds, effect_ids, expired_at, expired_message, unbound_message, CommitAuthorization, Effect,
};
use crate::effects::{lifecycle_allows, CommitGateDecision, EffectContext, EffectLifecycle};
use crate::error::Error;
use crate::text::{str_eq, views};

verus! {

/// The name of a lifecycle state, as `Debug` prints it.
pub open spec fn lifecycle_name(l: EffectLifecycle) -> Seq<char> {
    match l {
        EffectLifecycle::Proposed => "Proposed"@,
        EffectLifecycle::Classified => "Classified"@,
        EffectLifecycle::Virtualized => "Virtualized"@,
        EffectLifecycle::Prepared => "Prepared"@,
        EffectLifecycle::Rejected => "Rejected"@,
        EffectLifecycle::Committed => "Committed"@,
        EffectLifecycle::Discarded => "Discarded"@,
        EffectLifecycle::Failed => "Failed"@,
        EffectLifecycle::Compensated => "Compensated"@,
        EffectLifecycle::Unknown => "Unknown"@,
    }
}

fn lifecycle_name_exec(l: EffectLifecycle) -> (r: &'static str)
    ensures
        r@ == lifecycle_name(l),
{
    match l {
        EffectLifecycle::Proposed => "Proposed",
        EffectLifecycle::Classified => "Classified",
        EffectLifecycle::Virtualized => "Virtualized",
        EffectLifecycle::Prepared => "Prepared",
        EffectLifecycle::Rejected => "Rejected",
        EffectLifecycle::Committed => "Committed",
        EffectLifecycle::Discarded => "Discarded",
        EffectLifecycle::Failed => "Failed",
        EffectLifecycle::Compensated => "Compensated",
        EffectLifecycle::Unknown => "Unknown",
    }
}

pub open spec fn self_authorization_message() -> Seq<char> {
    "Agent cannot self-authorize an external effect commit"@
}

pub open spec fn lifecycle_message(e: Effect) -> Seq<char> {
    "Effect "@ + e.id@ + " is "@ + lifecycle_name(e.lifecycle) + "; PREPARED or UNKNOWN required"@
}

pub open spec fn committable(l: EffectLifecycle) -> bool {
    l == EffectLifecycle::Prepared || l == EffectLifecycle::Unknown
}

/// Refuses a commit by an agent or by an actor without commit capability (an intervention),
/// and a commit of an effect that is neither prepared nor of unknown outcome (an invalid
/// input).
pub fn commit_precheck(effect: &Effect, context: &EffectContext) -> (r: Result<(), Error>)
    ensures
        context.is_agent || !context.capabilities.commit ==> (r matches Err(e) && e is Intervention && e.message_spec()
            == self_authorization_message()),
        !(context.is_agent || !context.capabilities.commit) && !committable(effect.lifecycle) ==> (r matches Err(e)
            && e is InvalidInput && e.message_spec() == lifecycle_message(*effect)),
        !(context.is_agent || !context.capabilities.commit) && committable(effect.lifecycle) ==> r is Ok,
{
    if context.is_agent || !context.capabilities.commit {
        return Err(Error::Intervention(String::from_str("Agent cannot self-authorize an external effect commit")));
    }
    if !(effect.lifecycle == EffectLifecycle::Prepared || effect.lifecycle == EffectLifecycle::Unknown) {
        let mut m = String::from_str("Effect ");
        m.append(effect.id.as_str());
        m.append(" is ");
        m.append(lifecycle_name_exec(effect.lifecycle));
        m.append("; PREPARED or UNKNOWN required");
        return Err(Error::InvalidInput(m));
    }
    Ok(())
}

pub open spec fn missing_authorization_message() -> Seq<char> {
    "Explicit commit authorization is required"@
}

pub open spec fn outside_scope_message() -> Seq<char> {
    "Authorization does not include this effect"@
}

/// Why an authorization does not let `effect` commit within `scope` at `now`, if it does not.
pub open spec fn authorization_error(effect: Effect, a: Option<CommitAuthorization>, scope: Seq<Effect>, now: i64) -> Option<
    Seq<char>,
> {
    match a {
        None => Some(missing_authorization_message()),
        Some(a) => if expired_at(a.expires_at, now) {
            Some(expired_message())
        } else if !(views(a.effect_ids@).to_set() == effect_ids(scope) && binds(scope, a.scope_hash@)) {
            Some(unbound_message())
        } else if !effect_ids(scope).contains(effect.id@) {
            Some(outside_scope_message())
        } else {
            None
        },
    }
}

/// Requires an authorization, valid at `now` for the effects of `scope`, that includes this
/// effect. Every refusal is an intervention.
pub fn check_authorization(effect: &Effect, authorization: Option<&CommitAuthorization>, scope: &Vec<Effect>, now: i64) -> (r:
    Result<(), Error>)
    ensures
        r is Ok <==> authorization_error(
            *effect,
            match authorization {
                Some(a) => Some(*a),
                None => None,
            },
            scope@,
            now,
        ) is None,
        r matches Err(e) ==> e is Intervention && authorization_error(
            *effect,
            match authorization {
                Some(a) => Some(*a),
                None => None,
            },
            scope@,
            now,
        ) == Some(e.message_spec()),
{
    let a = match authorization {
        None => {
            return Err(Error::Intervention(String::from_str("Explicit commit authorization is required")));
        },
        Some(a) => a,
    };
    match a.validate(scope, now) {
        Ok(()) => {},
        Err(e) => {
            return Err(e);
        },
    }
    let ghost ids = scope@.map_values(|x: Effect| x.id@);
    let mut i: usize = 0;
    while i < scope.len()
        invariant
            i <= scope@.len(),
            ids == scope@.map_values(|x: Effect| x.id@),
            forall|k: int| 0 <= k < i ==> #[trigger] ids[k] != effect.id@,
            authorization == Some(a),
            !expired_at(a.expires_at, now),
            views(a.effect_ids@).to_set() == effect_ids(scope@) && binds(scope@, a.scope_hash@),
        decreases scope.len() - i,
    {
        if str_eq(scope[i].id.as_str(), effect.id.as_str()) {
            proof {
                assert(ids[i as int] == effect.id@);
                assert(effect_ids(scope@).contains(effect.id@));
            }
            return Ok(());
        }
        i = i + 1;
    }
    proof {
        assert(!ids.contains(effect.id@));
    }
    Err(Error::Intervention(String::from_str("Authorization does not include this effect")))
}

/// The two ways a commit proceeds: retrying an effect of unknown outcome under its
/// idempotency key, or through the commit gate against the current external state.
#[derive(Clone, Copy, Debug, PartialEq, Eq, Structural)]
pub enum CommitRoute {
    RetryUnknown,
    ThroughGate,
}

pub open spec fn retry_message() -> Seq<char> {
    "UNKNOWN effect cannot be retried without adapter idempotency support"@
}

/// The route a commit takes: an effect of unknown outcome is retried, and only when the
/// adapter supports idempotency keys; any other effect is weighed against the current external state.
pub fn commit_route(effect: &Effect, idempotency_keys: bool) -> (r: Result<CommitRoute, Error>)
    ensures
        effect.lifecycle == EffectLifecycle::Unknown && !idempotency_keys ==> (r matches Err(e) && e is Intervention
            && e.message_spec() == retry_message()),
        effect.lifecycle == EffectLifecycle::Unknown && idempotency_keys ==> r == Ok::<CommitRoute, Error>(
            CommitRoute::RetryUnknown,
        ),
        effect.lifecycle != EffectLifecycle::Unknown ==> r == Ok::<CommitRoute, Error>(CommitRoute::ThroughGate),
{
    if effect.lifecycle == EffectLifecycle::Unknown {
        if !idempotency_keys {
            return Err(Error::Intervention(
                String::from_str("UNKNOWN effect cannot be retried without adapter idempotency support"),
            ));
        }
        return Ok(CommitRoute::RetryUnknown);
    }
    Ok(CommitRoute::ThroughGate)
}

/// The checks a commit passes before anything reaches the adapter, in the order the effect
/// manager makes them: the committer's authority, the effect's lifecycle, the explicit
/// authorization for `scope` at `now` (the effects it covers; the effect alone where no
/// scope was given), and the route, given whether the selected adapter supports
/// idempotency keys. The first check that fails decides the error.
pub fn commit_admission(
    effect: &Effect,
    context: &EffectContext,
    authorization: Option<&CommitAuthorization>,
    scope: &Vec<Effect>,
    now: i64,
    idempotency_keys: bool,
) -> (r: Result<CommitRoute, Error>)
    ensures
        context.is_agent || !context.capabilities.commit ==> (r matches Err(e) && e is Intervention && e.message_spec()
            == self_authorization_message()),
        !(context.is_agent || !context.capabilities.commit) && !committable(effect.lifecycle) ==> (r matches Err(e)
            && e is InvalidInput && e.message_spec() == lifecycle_message(*effect)),
        !(context.is_agent || !context.capabilities.commit) && committable(effect.lifecycle) ==> ({
            let a = match authorization {
                Some(a) => Some(*a),
                None => None,
            };
            &&& authorization_error(*effect, a, scope@, now) matches Some(m) ==> (r matches Err(e) && e is Intervention
                && e.message_spec() == m)
            &&& authorization_error(*effect, a, scope@, now) is None ==> {
                &&& effect.lifecycle == EffectLifecycle::Unknown && !idempotency_keys ==> (r matches Err(e)
                    && e is Intervention && e.message_spec() == retry_message())
                &&& effect.lifecycle == EffectLifecycle::Unknown && idempotency_keys ==> r == Ok::<CommitRoute, Error>(
                    CommitRoute::RetryUnknown,
                )
                &&& effect.lifecycle != EffectLifecycle::Unknown ==> r == Ok::<CommitRoute, Error>(
                    CommitRoute::ThroughGate,
                )
            }
        }),
{
    match commit_precheck(effect, context) {
        Ok(()) => {},
        Err(e) => {
            return Err(e);
        },
    }
    match check_authorization(effect, authorization, scope, now) {
        Ok(()) => {},
        Err(e) => {
            return Err(e);
        },
    }
    commit_route(effect, idempotency_keys)
}

/// What a commit-admission decision means for a commit about to be attempted.
#[derive(Clone, Copy, Debug, PartialEq, Eq, Structural)]
pub enum GateResponse {
    /// The external state moved or the preparation is stale: reject and ask for a new one.
    RejectAndReprepare,
    /// The effect cannot be committed at all.
    RejectUnsupported,
    /// Go on to the adapter.
    Proceed,
}

pub fn gate_response(decision: CommitGateDecision) -> (r: GateResponse)
    ensures
        r == (match decision {
            CommitGateDecision::Reprepare => GateResponse::RejectAndReprepare,
            CommitGateDecision::Reject => GateResponse::RejectUnsupported,
            _ => GateResponse::Proceed,
        }),
{
    match decision {
        CommitGateDecision::Reprepare => GateResponse::RejectAndReprepare,
        CommitGateDecision::Reject => GateResponse::RejectUnsupported,
        _ => GateResponse::Proceed,
    }
}

/// What an adapter reported of a commit attempt.
#[derive(Clone, Copy, Debug, PartialEq, Eq, Structural)]
pub enum AdapterOutcomeKind {
    Committed,
    NotCommitted,
    Unknown,
}

/// Where an adapter outcome leaves an effect: committed, failed, or of unknown outcome (an
/// effect already of unknown outcome stays so without a transition).
pub open spec fn outcome_transition_spec(from: EffectLifecycle, outcome: AdapterOutcomeKind) -> Option<EffectLifecycle> {
    match outcome {
        AdapterOutcomeKind::Committed => Some(EffectLifecycle::Committed),
        AdapterOutcomeKind::NotCommitted => Some(EffectLifecycle::Failed),
        AdapterOutcomeKind::Unknown => if from == EffectLifecycle::Unknown {
            None
        } else {
            Some(EffectLifecycle::Unknown)
        },
    }
}

pub fn outcome_transition(from: EffectLifecycle, outcome: AdapterOutcomeKind) -> (r: Option<EffectLifecycle>)
    ensures
        r == outcome_transition_spec(from, outcome),
{
    match outcome {
        AdapterOutcomeKind::Committed => Some(EffectLifecycle::Committed),
        AdapterOutcomeKind::NotCommitted => Some(EffectLifecycle::Failed),
        AdapterOutcomeKind::Unknown => if from == EffectLifecycle::Unknown {
            None
        } else {
            Some(EffectLifecycle::Unknown)
        },
    }
}

/// Every transition a commit attempt makes from a committable state is one the lifecycle
/// allows: the protocol never moves an effect along an edge the lifecycle forbids.
pub proof fn lemma_commit_transitions_allowed(from: EffectLifecycle, outcome: AdapterOutcomeKind)
    requires
        committable(from),
    ensures
        outcome_transition_spec(from, outcome) matches Some(to) ==> lifecycle_allows(from, to),
{
}

} // verus!
