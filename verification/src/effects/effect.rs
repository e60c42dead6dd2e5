//! External effects: their requests, their scope digests, the policy that decides how they
//! may proceed and the admission of a commit.
use vstd::prelude::*;
use crate::digest::{blake3_digest, blake3_hash, hex_text, push_hex};
use crate::effects::{
    uri_scheme, ActionRef, CommitAuthority, CommitGateDecision, CommitStrategy, EffectClassification, EffectContext, EffectDecision,
    EffectFault, EffectKind, EffectLifecycle, EffectOperation, EffectRisk, EffectTarget, ExternalityClass,
    IsolationRequirement, effect_risk_rank,
};
use crate::error::Error;
use crate::hierarchy::scope::{json_string, push_json_string};
use crate::text::{contains_any, contains_any_spec, is_blank, is_blank_spec, occurs_at, str_eq, trim_str, trimmed, utf8_len};

verus! {

/// A request to perform an external effect; `payload` is the payload's JSON text, as
/// `serde_json` writes it.
#[derive(Clone, Debug)]
pub struct EffectRequest {
    pub session_id: String,
    pub reality_id: Option<String>,
    pub source_action: ActionRef,
    pub kind: EffectKind,
    pub target: EffectTarget,
    pub operation: EffectOperation,
    pub payload: String,
    pub adapter: Option<String>,
    pub evidence: Vec<String>,
    pub fault: EffectFault,
}

pub open spec fn identifiers_message() -> Seq<char> {
    "Effect session/action identifiers must be nonempty and bounded"@
}

pub open spec fn target_message() -> Seq<char> {
    "Effect target must be a bounded single-line scheme URI"@
}

pub open spec fn bound_message() -> Seq<char> {
    "Effect payload or evidence exceeded its bound"@
}

pub open spec fn has_scheme(uri: Seq<char>) -> bool {
    exists|i: int| occurs_at(uri, seq![':', '/', '/'], i)
}

/// Why a request is refused, if it is.
pub open spec fn request_error(r: EffectRequest) -> Option<Seq<char>> {
    if is_blank_spec(r.session_id@) || utf8_len(r.session_id@) > 256 || is_blank_spec(r.source_action.id@)
        || utf8_len(r.source_action.id@) > 256 {
        Some(identifiers_message())
    } else if utf8_len(r.target.uri@) > 2048 || contains_any_spec(r.target.uri@, seq!['\0', '\n', '\r'])
        || !has_scheme(r.target.uri@) {
        Some(target_message())
    } else if utf8_len(r.payload@) > 256 * 1024 || r.evidence@.len() > 128 {
        Some(bound_message())
    } else {
        None
    }
}

fn invalid(message: &str) -> (e: Error)
    ensures
        e is InvalidInput,
        e.message_spec() == message@,
{
    Error::InvalidInput(String::from_str(message))
}

impl EffectRequest {
    /// Accepts nonblank identifiers of at most 256 bytes, a single-line target URI of at most
    /// 2048 bytes with a scheme, a payload of at most 256 KiB and at most 128 evidence items.
    pub fn validate(&self) -> (r: Result<(), Error>)
        ensures
            r is Ok <==> request_error(*self) is None,
            r matches Err(e) ==> e is InvalidInput && request_error(*self) == Some(e.message_spec()),
    {
        let session = self.session_id.as_str();
        let action = self.source_action.id.as_str();
        if is_blank(session) || session.as_bytes().len() > 256 || is_blank(action) || action.as_bytes().len() > 256 {
            return Err(invalid("Effect session/action identifiers must be nonempty and bounded"));
        }
        let forbidden = ['\0', '\n', '\r'];
        assert(forbidden@ =~= seq!['\0', '\n', '\r']);
        let uri = self.target.uri.as_str();
        if uri.as_bytes().len() > 2048 || contains_any(uri, &forbidden) || self.target.scheme().is_none() {
            return Err(invalid("Effect target must be a bounded single-line scheme URI"));
        }
        if self.payload.as_str().as_bytes().len() > 256 * 1024 || self.evidence.len() > 128 {
            return Err(invalid("Effect payload or evidence exceeded its bound"));
        }
        Ok(())
    }
}

/// An effect in the ledger; `created_at` is in Unix milliseconds and `payload` is JSON text.
#[derive(Clone, Debug)]
pub struct Effect {
    pub id: String,
    pub ledger_id: String,
    pub session_id: String,
    pub reality_id: Option<String>,
    pub source_action: ActionRef,
    pub kind: EffectKind,
    pub target: EffectTarget,
    pub operation: EffectOperation,
    pub payload: String,
    pub classification: Option<EffectClassification>,
    pub lifecycle: EffectLifecycle,
    pub adapter: String,
    pub idempotency_key: String,
    pub evidence: Vec<String>,
    pub fault: EffectFault,
    pub created_at: i64,
}

impl Effect {
    /// A newly proposed effect for `request`, with a fresh identity, its idempotency key
    /// derived from that identity, and no classification yet.
    pub fn from_request(request: EffectRequest, ledger_id: String, adapter: String, now: i64) -> (r: Self)
        ensures
            r.id@.len() == "effect-"@.len() + 36,
            r.id@.subrange(0, "effect-"@.len() as int) == "effect-"@,
            r.idempotency_key@ == "hk-effect:"@ + r.id@,
            r.ledger_id == ledger_id,
            r.session_id == request.session_id,
            r.reality_id == request.reality_id,
            r.source_action == request.source_action,
            r.kind == request.kind,
            r.target == request.target,
            r.operation == request.operation,
            r.payload == request.payload,
            r.classification is None,
            r.lifecycle == EffectLifecycle::Proposed,
            r.adapter == adapter,
            r.evidence == request.evidence,
            r.fault == request.fault,
            r.created_at == now,
    {
        let id = crate::ids::fresh_id("effect-");
        let mut key = String::from_str("hk-effect:");
        key.append(id.as_str());
        Effect {
            idempotency_key: key,
            id,
            ledger_id,
            session_id: request.session_id,
            reality_id: request.reality_id,
            source_action: request.source_action,
            kind: request.kind,
            target: request.target,
            operation: request.operation,
            payload: request.payload,
            classification: None,
            lifecycle: EffectLifecycle::Proposed,
            adapter,
            evidence: request.evidence,
            fault: request.fault,
            created_at: now,
        }
    }
}

// ------------------------------------------------------------------------------------------
// Scope digests.
// ------------------------------------------------------------------------------------------

pub open spec fn utf8(s: Seq<char>) -> Seq<u8> {
    vstd::utf8::encode_utf8(s)
}

/// The name `serde` gives an effect kind.
pub open spec fn kind_name(k: EffectKind) -> Seq<char> {
    match k {
        EffectKind::Filesystem => "filesystem"@,
        EffectKind::Process => "process"@,
        EffectKind::Database => "database"@,
        EffectKind::HttpApi => "http_api"@,
        EffectKind::CloudResource => "cloud_resource"@,
        EffectKind::Message => "message"@,
        EffectKind::Deployment => "deployment"@,
        EffectKind::Custom => "custom"@,
    }
}

fn kind_name_exec(k: EffectKind) -> (r: &'static str)
    ensures
        r@ == kind_name(k),
{
    match k {
        EffectKind::Filesystem => "filesystem",
        EffectKind::Process => "process",
        EffectKind::Database => "database",
        EffectKind::HttpApi => "http_api",
        EffectKind::CloudResource => "cloud_resource",
        EffectKind::Message => "message",
        EffectKind::Deployment => "deployment",
        EffectKind::Custom => "custom",
    }
}

/// The JSON of an operation: its snake-case kind, and the value of a custom operation.
pub open spec fn operation_json(o: EffectOperation) -> Seq<u8> {
    match o {
        EffectOperation::Read => utf8("{\"kind\":\"read\"}"@),
        EffectOperation::Create => utf8("{\"kind\":\"create\"}"@),
        EffectOperation::Update => utf8("{\"kind\":\"update\"}"@),
        EffectOperation::Delete => utf8("{\"kind\":\"delete\"}"@),
        EffectOperation::Post => utf8("{\"kind\":\"post\"}"@),
        EffectOperation::Dispatch => utf8("{\"kind\":\"dispatch\"}"@),
        EffectOperation::Promote => utf8("{\"kind\":\"promote\"}"@),
        EffectOperation::Custom(v) => utf8("{\"kind\":\"custom\",\"value\":"@) + json_string(v@) + utf8("}"@),
    }
}

/// The JSON an effect's scope is digested from: identity, adapter, kind, target, operation,
/// payload and idempotency key, in that order.
pub open spec fn scope_json(e: Effect) -> Seq<u8> {
    utf8("{\"id\":"@) + json_string(e.id@) + utf8(",\"adapter\":"@) + json_string(e.adapter@) + utf8(",\"kind\":\""@)
        + utf8(kind_name(e.kind)) + utf8("\",\"target\":{\"uri\":"@) + json_string(e.target.uri@) + utf8(
        "},\"operation\":"@,
    ) + operation_json(e.operation) + utf8(",\"payload\":"@) + utf8(e.payload@) + utf8(",\"idempotency_key\":"@)
        + json_string(e.idempotency_key@) + utf8("}"@)
}

/// The scope hash of an effect: the hex BLAKE3 digest of its scope JSON.
pub open spec fn scope_hash_spec(e: Effect) -> Seq<char> {
    hex_text(blake3_hash(scope_json(e)))
}

fn push_text(out: &mut Vec<u8>, s: &str)
    ensures
        final(out)@ == old(out)@ + utf8(s@),
{
    let bytes = s.as_bytes();
    let ghost start = out@;
    let mut i: usize = 0;
    while i < bytes.len()
        invariant
            i <= bytes@.len(),
            bytes@ == utf8(s@),
            out@ == start + bytes@.subrange(0, i as int),
        decreases bytes.len() - i,
    {
        out.push(bytes[i]);
        assert(bytes@.subrange(0, i as int + 1) =~= bytes@.subrange(0, i as int).push(bytes@[i as int]));
        i = i + 1;
    }
    assert(bytes@.subrange(0, bytes@.len() as int) =~= bytes@);
}

fn push_operation(out: &mut Vec<u8>, o: &EffectOperation)
    ensures
        final(out)@ == old(out)@ + operation_json(*o),
{
    match o {
        EffectOperation::Read => push_text(out, "{\"kind\":\"read\"}"),
        EffectOperation::Create => push_text(out, "{\"kind\":\"create\"}"),
        EffectOperation::Update => push_text(out, "{\"kind\":\"update\"}"),
        EffectOperation::Delete => push_text(out, "{\"kind\":\"delete\"}"),
        EffectOperation::Post => push_text(out, "{\"kind\":\"post\"}"),
        EffectOperation::Dispatch => push_text(out, "{\"kind\":\"dispatch\"}"),
        EffectOperation::Promote => push_text(out, "{\"kind\":\"promote\"}"),
        EffectOperation::Custom(v) => {
            push_text(out, "{\"kind\":\"custom\",\"value\":");
            push_json_string(out, v.as_str());
            push_text(out, "}");
            assert(out@ =~= old(out)@ + operation_json(*o));
        },
    }
}

impl Effect {
    /// The JSON the scope hash digests.
    pub fn scope_json(&self) -> (r: Vec<u8>)
        ensures
            r@ == scope_json(*self),
    {
        let mut out: Vec<u8> = Vec::new();
        push_text(&mut out, "{\"id\":");
        push_json_string(&mut out, self.id.as_str());
        push_text(&mut out, ",\"adapter\":");
        push_json_string(&mut out, self.adapter.as_str());
        push_text(&mut out, ",\"kind\":\"");
        push_text(&mut out, kind_name_exec(self.kind));
        push_text(&mut out, "\",\"target\":{\"uri\":");
        push_json_string(&mut out, self.target.uri.as_str());
        push_text(&mut out, "},\"operation\":");
        push_operation(&mut out, &self.operation);
        push_text(&mut out, ",\"payload\":");
        push_text(&mut out, self.payload.as_str());
        push_text(&mut out, ",\"idempotency_key\":");
        push_json_string(&mut out, self.idempotency_key.as_str());
        push_text(&mut out, "}");
        assert(out@ =~= scope_json(*self));
        out
    }

    /// The hex BLAKE3 digest of the effect's scope JSON, which binds approvals and prepared
    /// states to exactly this effect.
    pub fn scope_hash(&self) -> (r: String)
        ensures
            r@ == scope_hash_spec(*self),
    {
        let json = self.scope_json();
        let digest = blake3_digest(json.as_slice());
        let mut out = String::new();
        push_hex(&mut out, digest.as_slice(), 0, digest.len());
        assert(digest@.subrange(0, digest@.len() as int) =~= digest@);
        out
    }
}

// ------------------------------------------------------------------------------------------
// Prepared effects and the policies.
// ------------------------------------------------------------------------------------------

/// The state of an external target as observed; `state` is JSON text and `captured_at` is in
/// Unix milliseconds.
#[derive(Clone, Debug)]
pub struct ExternalStateSnapshot {
    pub id: String,
    pub effect_id: String,
    pub adapter: String,
    pub target: EffectTarget,
    pub version: Option<String>,
    pub fingerprint: String,
    pub state: String,
    pub captured_at: i64,
}

/// What committing would change, as JSON text.
#[derive(Clone, Debug)]
pub struct EffectPreview {
    pub summary: String,
    pub current: String,
    pub prepared: String,
}

/// A prepared effect; `expires_at` is in Unix milliseconds.
#[derive(Clone, Debug)]
pub struct PreparedEffect {
    pub id: String,
    pub effect_id: String,
    pub adapter: String,
    pub preparation_token: String,
    pub expires_at: Option<i64>,
    pub preview: EffectPreview,
    pub before: ExternalStateSnapshot,
    pub scope_hash: String,
    pub evidence: Vec<String>,
}

impl PreparedEffect {
    /// Whether the preparation has expired at `now`.
    pub fn expired(&self, now: i64) -> (r: bool)
        ensures
            r == (self.expires_at matches Some(e) && e <= now),
    {
        match self.expires_at {
            Some(e) => e <= now,
            None => false,
        }
    }
}

/// What the default policy decides for an effect in a context.
pub open spec fn policy_decision(e: Effect, c: EffectContext) -> EffectDecision {
    match e.classification {
        None => EffectDecision::Reject,
        Some(k) => if !c.capabilities.propose {
            EffectDecision::Reject
        } else if k.externality == ExternalityClass::Financial || k.externality == ExternalityClass::Unknown
            || k.commit_strategy == CommitStrategy::Unsupported {
            EffectDecision::Reject
        } else if k.isolation_requirement == IsolationRequirement::Shadow {
            EffectDecision::RequireShadow
        } else if k.externality == ExternalityClass::HumanVisible || effect_risk_rank(k.risk) >= effect_risk_rank(
            EffectRisk::Medium,
        ) || !c.capabilities.commit || c.is_agent {
            EffectDecision::RequireApproval
        } else if k.risk == EffectRisk::ReadOnly {
            EffectDecision::AllowDirect
        } else {
            EffectDecision::RequirePrepare
        },
    }
}

/// Rejects what is unclassified, not proposable, financial, of unknown externality or
/// uncommittable; shadows what requires a shadow; asks for approval for human-visible,
/// medium-or-higher risk, uncommittable-by-this-actor or agent effects; lets read-only
/// effects through and requires the rest to be prepared.
pub struct DefaultEffectPolicy;

impl DefaultEffectPolicy {
    pub fn evaluate(&self, effect: &Effect, context: &EffectContext) -> (r: EffectDecision)
        ensures
            r == policy_decision(*effect, *context),
    {
        let k = match &effect.classification {
            None => {
                return EffectDecision::Reject;
            },
            Some(k) => k,
        };
        if !context.capabilities.propose {
            return EffectDecision::Reject;
        }
        if k.externality == ExternalityClass::Financial || k.externality == ExternalityClass::Unknown
            || k.commit_strategy == CommitStrategy::Unsupported {
            return EffectDecision::Reject;
        }
        if k.isolation_requirement == IsolationRequirement::Shadow {
            return EffectDecision::RequireShadow;
        }
        if k.externality == ExternalityClass::HumanVisible || k.risk.rank() >= EffectRisk::Medium.rank()
            || !context.capabilities.commit || context.is_agent {
            return EffectDecision::RequireApproval;
        }
        if k.risk == EffectRisk::ReadOnly {
            EffectDecision::AllowDirect
        } else {
            EffectDecision::RequirePrepare
        }
    }
}

/// Whether a prepared effect may be committed against the current state at `now`.
pub open spec fn gate_decision(e: Effect, p: PreparedEffect, current: ExternalStateSnapshot, now: i64) -> CommitGateDecision {
    if (p.expires_at matches Some(x) && x <= now) || p.scope_hash@ != scope_hash_spec(e)
        || current.fingerprint@ != p.before.fingerprint@ || crate::text::opt_view(current.version)
        != crate::text::opt_view(p.before.version) {
        CommitGateDecision::Reprepare
    } else if e.classification matches Some(k) && (k.externality == ExternalityClass::Financial || k.commit_strategy
        == CommitStrategy::Unsupported) {
        CommitGateDecision::Reject
    } else {
        CommitGateDecision::Allow
    }
}

/// Requires a new preparation when the preparation expired, the effect's scope changed or
/// the external state moved since it was prepared; rejects financial or uncommittable effects;
/// allows the rest.
pub struct DeterministicCommitGate;

impl DeterministicCommitGate {
    pub fn evaluate(&self, effect: &Effect, prepared: &PreparedEffect, current_state: &ExternalStateSnapshot, now: i64) -> (r:
        CommitGateDecision)
        ensures
            r == gate_decision(*effect, *prepared, *current_state, now),
    {
        let same_version = match (&current_state.version, &prepared.before.version) {
            (Some(a), Some(b)) => str_eq(a.as_str(), b.as_str()),
            (None, None) => true,
            _ => false,
        };
        let scope = effect.scope_hash();
        if prepared.expired(now) || !str_eq(prepared.scope_hash.as_str(), scope.as_str())
            || !str_eq(current_state.fingerprint.as_str(), prepared.before.fingerprint.as_str()) || !same_version {
            return CommitGateDecision::Reprepare;
        }
        let unsupported = match &effect.classification {
            Some(k) => k.externality == ExternalityClass::Financial || k.commit_strategy == CommitStrategy::Unsupported,
            None => false,
        };
        if unsupported {
            CommitGateDecision::Reject
        } else {
            CommitGateDecision::Allow
        }
    }
}

// ------------------------------------------------------------------------------------------
// Commit authorizations.
// ------------------------------------------------------------------------------------------

/// An authority's approval to commit a set of effects, bound to their scope hashes;
/// `granted_at` and `expires_at` are in Unix milliseconds.
#[derive(Clone, Debug)]
pub struct CommitAuthorization {
    pub id: String,
    pub authority: CommitAuthority,
    pub effect_ids: Vec<String>,
    pub granted_at: i64,
    pub expires_at: Option<i64>,
    pub scope_hash: String,
}

/// How long an authorization lasts: fifteen minutes.
pub const AUTHORIZATION_LIFETIME_MS: i64 = 900_000;

pub type ScopePair = (Seq<char>, Seq<char>);

/// Each effect's identity with its scope hash, in input order.
pub open spec fn scope_pairs(effects: Seq<Effect>) -> Seq<ScopePair> {
    effects.map_values(|e: Effect| (e.id@, scope_hash_spec(e)))
}

/// The order of pairs: by identity, then by hash, each by bytes.
pub open spec fn pair_lt(a: ScopePair, b: ScopePair) -> bool {
    crate::text::bytes_lt(utf8(a.0), utf8(b.0)) || (a.0 == b.0 && crate::text::bytes_lt(utf8(a.1), utf8(b.1)))
}

pub open spec fn pairs_sorted(s: Seq<ScopePair>) -> bool {
    forall|i: int, j: int| 0 <= i < j < s.len() ==> !pair_lt(#[trigger] s[j], #[trigger] s[i])
}

/// `s` holds the pairs of `ps`, each as often, in order.
pub open spec fn sorted_permutation(s: Seq<ScopePair>, ps: Seq<ScopePair>) -> bool {
    s.to_multiset() == ps.to_multiset() && pairs_sorted(s)
}

/// The JSON of a list of pairs: an array of two-string arrays.
pub open spec fn pairs_json(s: Seq<ScopePair>) -> Seq<u8>
    decreases s.len(),
{
    if s.len() == 0 {
        utf8("[]"@)
    } else {
        pairs_body(s) + utf8("]"@)
    }
}

/// The JSON of a nonempty list of pairs, without its closing bracket.
pub open spec fn pairs_body(s: Seq<ScopePair>) -> Seq<u8>
    decreases s.len(),
{
    if s.len() == 0 {
        utf8("["@)
    } else {
        let prev = s.drop_last();
        (if prev.len() == 0 { utf8("["@) } else { pairs_body(prev) + utf8(","@) }) + utf8("["@) + json_string(s.last().0)
            + utf8(","@) + json_string(s.last().1) + utf8("]"@)
    }
}

/// The authorization hash of a sorted list of pairs: the hex BLAKE3 digest of its JSON.
pub open spec fn authorization_hash(s: Seq<ScopePair>) -> Seq<char> {
    hex_text(blake3_hash(pairs_json(s)))
}

/// `h` is the authorization hash of the effects' sorted scope pairs.
pub open spec fn binds(effects: Seq<Effect>, h: Seq<char>) -> bool {
    exists|s: Seq<ScopePair>| sorted_permutation(s, scope_pairs(effects)) && #[trigger] authorization_hash(s) == h
}

fn pair_lt_exec(a: &(String, String), b: &(String, String)) -> (r: bool)
    ensures
        r == pair_lt((a.0@, a.1@), (b.0@, b.1@)),
{
    let c = crate::text::compare_bytes(a.0.as_str().as_bytes(), b.0.as_str().as_bytes());
    if c != 0 {
        proof {
            if a.0@ == b.0@ {
                assert(utf8(a.0@) == utf8(b.0@));
            }
        }
        return c < 0;
    }
    proof {
        vstd::utf8::encode_utf8_decode_utf8(a.0@);
        vstd::utf8::encode_utf8_decode_utf8(b.0@);
        crate::text::lemma_bytes_lt_trichotomy(utf8(a.0@), utf8(b.0@));
    }
    crate::text::compare_bytes(a.1.as_str().as_bytes(), b.1.as_str().as_bytes()) < 0
}

pub open spec fn pair_view(p: (String, String)) -> ScopePair {
    (p.0@, p.1@)
}

pub open spec fn pair_seq_view(v: Seq<(String, String)>) -> Seq<ScopePair> {
    v.map_values(|p: (String, String)| pair_view(p))
}

proof fn lemma_pair_lt_order(a: ScopePair, b: ScopePair, c: ScopePair)
    ensures
        !pair_lt(a, a),
        pair_lt(a, b) && pair_lt(b, c) ==> pair_lt(a, c),
        !pair_lt(a, b) && !pair_lt(b, a) ==> a == b,
        pair_lt(a, b) ==> !pair_lt(b, a),
{
    crate::text::lemma_bytes_lt_trichotomy(utf8(a.0), utf8(a.0));
    crate::text::lemma_bytes_lt_trichotomy(utf8(a.0), utf8(b.0));
    crate::text::lemma_bytes_lt_trichotomy(utf8(b.0), utf8(c.0));
    crate::text::lemma_bytes_lt_trichotomy(utf8(a.0), utf8(c.0));
    crate::text::lemma_bytes_lt_trichotomy(utf8(a.1), utf8(a.1));
    crate::text::lemma_bytes_lt_trichotomy(utf8(a.1), utf8(b.1));
    crate::text::lemma_bytes_lt_trichotomy(utf8(b.1), utf8(c.1));
    crate::text::lemma_bytes_lt_trichotomy(utf8(a.1), utf8(c.1));
    vstd::utf8::encode_utf8_decode_utf8(a.0);
    vstd::utf8::encode_utf8_decode_utf8(b.0);
    vstd::utf8::encode_utf8_decode_utf8(a.1);
    vstd::utf8::encode_utf8_decode_utf8(b.1);
    if crate::text::bytes_lt(utf8(a.0), utf8(b.0)) && crate::text::bytes_lt(utf8(b.0), utf8(c.0)) {
        crate::text::lemma_bytes_lt_transitive(utf8(a.0), utf8(b.0), utf8(c.0));
    }
    if crate::text::bytes_lt(utf8(a.1), utf8(b.1)) && crate::text::bytes_lt(utf8(b.1), utf8(c.1)) {
        crate::text::lemma_bytes_lt_transitive(utf8(a.1), utf8(b.1), utf8(c.1));
    }
}

/// The scope pairs of the effects, sorted.
fn sorted_scope_pairs(effects: &Vec<Effect>) -> (r: Vec<(String, String)>)
    ensures
        sorted_permutation(pair_seq_view(r@), scope_pairs(effects@)),
{
    let mut r: Vec<(String, String)> = Vec::new();
    proof {
        assert(pair_seq_view(r@) =~= scope_pairs(effects@.subrange(0, 0)));
    }
    let mut i: usize = 0;
    while i < effects.len()
        invariant
            i <= effects@.len(),
            pair_seq_view(r@).to_multiset() == scope_pairs(effects@.subrange(0, i as int)).to_multiset(),
            pairs_sorted(pair_seq_view(r@)),
        decreases effects.len() - i,
    {
        let item = (effects[i].id.clone(), effects[i].scope_hash());
        let mut p: usize = 0;
        while p < r.len() && !pair_lt_exec(&item, &r[p])
            invariant
                p <= r@.len(),
                forall|q: int| 0 <= q < p ==> !pair_lt(pair_view(item), #[trigger] pair_seq_view(r@)[q]),
            decreases r.len() - p,
        {
            p = p + 1;
        }
        let ghost before = pair_seq_view(r@);
        let ghost x = pair_view(item);
        r.insert(p, item);
        proof {
            let after = pair_seq_view(r@);
            assert(after =~= before.insert(p as int, x));
            assert(scope_pairs(effects@.subrange(0, i as int + 1)) =~= scope_pairs(effects@.subrange(0, i as int)).push(x));
            vstd::seq_lib::to_multiset_insert(before, p as int, x);
            vstd::seq_lib::to_multiset_build(scope_pairs(effects@.subrange(0, i as int)), x);
            assert forall|a: int, b: int| 0 <= a < b < after.len() implies !pair_lt(#[trigger] after[b], #[trigger] after[a]) by {
                if b < p {
                    assert(after[a] == before[a] && after[b] == before[b]);
                } else if b == p {
                    assert(after[a] == before[a]);
                } else if a < p {
                    assert(after[a] == before[a] && after[b] == before[b - 1]);
                    lemma_pair_lt_order(before[b - 1], before[a], x);
                    if p < before.len() {
                        lemma_pair_lt_order(x, before[p as int], before[b - 1]);
                        lemma_pair_lt_order(before[b - 1], before[p as int], x);
                    }
                    assert(!pair_lt(x, before[a]));
                    lemma_pair_lt_order(before[a], x, before[b - 1]);
                    lemma_pair_lt_order(before[b - 1], before[a], before[b - 1]);
                } else if a == p {
                    assert(after[b] == before[b - 1]);
                    assert(pair_lt(x, before[p as int]));
                    lemma_pair_lt_order(x, before[p as int], before[b - 1]);
                    lemma_pair_lt_order(before[b - 1], before[p as int], x);
                    if b - 1 > p {
                        assert(!pair_lt(before[b - 1], before[p as int]));
                        lemma_pair_lt_order(before[b - 1], x, before[p as int]);
                    }
                } else {
                    assert(after[a] == before[a - 1] && after[b] == before[b - 1]);
                }
            }
        }
        i = i + 1;
    }
    assert(effects@.subrange(0, effects@.len() as int) =~= effects@);
    r
}

fn push_pairs_json(out: &mut Vec<u8>, pairs: &Vec<(String, String)>)
    ensures
        final(out)@ == old(out)@ + pairs_json(pair_seq_view(pairs@)),
{
    if pairs.len() == 0 {
        push_text(out, "[]");
        return;
    }
    let ghost start = out@;
    let mut i: usize = 0;
    while i < pairs.len()
        invariant
            i <= pairs@.len(),
            pairs@.len() > 0,
            i == 0 ==> out@ == start,
            i > 0 ==> out@ == start + pairs_body(pair_seq_view(pairs@.subrange(0, i as int))),
        decreases pairs.len() - i,
    {
        if i == 0 {
            push_text(out, "[");
        } else {
            push_text(out, ",");
        }
        push_text(out, "[");
        push_json_string(out, pairs[i].0.as_str());
        push_text(out, ",");
        push_json_string(out, pairs[i].1.as_str());
        push_text(out, "]");
        proof {
            let s = pair_seq_view(pairs@.subrange(0, i as int + 1));
            assert(s.drop_last() =~= pair_seq_view(pairs@.subrange(0, i as int)));
            assert(s.last() == pair_view(pairs@[i as int]));
            assert(out@ =~= start + pairs_body(s));
        }
        i = i + 1;
    }
    push_text(out, "]");
    proof {
        assert(pairs@.subrange(0, pairs@.len() as int) =~= pairs@);
        assert(out@ =~= old(out)@ + pairs_json(pair_seq_view(pairs@)));
    }
}

/// The authorization hash binding the effects, computed from their sorted scope pairs.
fn authorization_hash_exec(effects: &Vec<Effect>) -> (r: String)
    ensures
        binds(effects@, r@),
{
    let pairs = sorted_scope_pairs(effects);
    let mut json: Vec<u8> = Vec::new();
    push_pairs_json(&mut json, &pairs);
    let digest = blake3_digest(json.as_slice());
    let mut out = String::new();
    push_hex(&mut out, digest.as_slice(), 0, digest.len());
    proof {
        assert(digest@.subrange(0, digest@.len() as int) =~= digest@);
        assert(json@ =~= pairs_json(pair_seq_view(pairs@)));
        assert(authorization_hash(pair_seq_view(pairs@)) == out@);
    }
    out
}

fn ids_of(effects: &Vec<Effect>) -> (r: Vec<String>)
    ensures
        r@.len() == effects@.len(),
        forall|i: int| 0 <= i < effects@.len() ==> #[trigger] r@[i]@ == effects@[i].id@,
{
    let mut r: Vec<String> = Vec::new();
    let mut i: usize = 0;
    while i < effects.len()
        invariant
            i <= effects@.len(),
            r@.len() == i,
            forall|k: int| 0 <= k < i ==> #[trigger] r@[k]@ == effects@[k].id@,
        decreases effects.len() - i,
    {
        r.push(effects[i].id.clone());
        i = i + 1;
    }
    r
}

pub open spec fn effect_ids(effects: Seq<Effect>) -> Set<Seq<char>> {
    effects.map_values(|e: Effect| e.id@).to_set()
}

pub open spec fn expired_at(expires_at: Option<i64>, now: i64) -> bool {
    expires_at matches Some(x) && x <= now
}

pub open spec fn expired_message() -> Seq<char> {
    "Commit authorization expired"@
}

pub open spec fn unbound_message() -> Seq<char> {
    "Commit authorization is not bound to the current effect scope"@
}

fn intervention(message: &str) -> (e: Error)
    ensures
        e is Intervention,
        e.message_spec() == message@,
{
    Error::Intervention(String::from_str(message))
}

fn same_id_sets(a: &Vec<String>, effects: &Vec<Effect>) -> (r: bool)
    ensures
        r == (crate::text::views(a@).to_set() == effect_ids(effects@)),
{
    let ghost av = crate::text::views(a@);
    let ghost ev = effects@.map_values(|e: Effect| e.id@);
    let mut i: usize = 0;
    while i < a.len()
        invariant
            i <= a@.len(),
            av == crate::text::views(a@),
            ev == effects@.map_values(|e: Effect| e.id@),
            forall|k: int| 0 <= k < i ==> ev.contains(#[trigger] av[k]),
        decreases a.len() - i,
    {
        let mut j: usize = 0;
        let mut found = false;
        while j < effects.len() && !found
            invariant
                j <= effects@.len(),
                i < a@.len(),
                av == crate::text::views(a@),
                ev == effects@.map_values(|e: Effect| e.id@),
                found ==> ev.contains(av[i as int]),
                !found ==> forall|q: int| 0 <= q < j ==> #[trigger] ev[q] != av[i as int],
            decreases effects.len() - j + (if found { 0int } else { 1int }),
        {
            if str_eq(effects[j].id.as_str(), a[i].as_str()) {
                found = true;
                assert(ev[j as int] == av[i as int]);
            } else {
                j = j + 1;
            }
        }
        if !found {
            proof {
                assert(av.to_set().contains(av[i as int]));
                assert(!ev.to_set().contains(av[i as int]));
            }
            return false;
        }
        i = i + 1;
    }
    let mut j: usize = 0;
    while j < effects.len()
        invariant
            j <= effects@.len(),
            av == crate::text::views(a@),
            ev == effects@.map_values(|e: Effect| e.id@),
            forall|k: int| 0 <= k < a@.len() ==> ev.contains(#[trigger] av[k]),
            forall|q: int| 0 <= q < j ==> av.contains(#[trigger] ev[q]),
        decreases effects.len() - j,
    {
        let mut i: usize = 0;
        let mut found = false;
        while i < a.len() && !found
            invariant
                i <= a@.len(),
                j < effects@.len(),
                av == crate::text::views(a@),
                ev == effects@.map_values(|e: Effect| e.id@),
                found ==> av.contains(ev[j as int]),
                !found ==> forall|q: int| 0 <= q < i ==> #[trigger] av[q] != ev[j as int],
            decreases a.len() - i + (if found { 0int } else { 1int }),
        {
            if str_eq(a[i].as_str(), effects[j].id.as_str()) {
                found = true;
                assert(av[i as int] == ev[j as int]);
            } else {
                i = i + 1;
            }
        }
        if !found {
            proof {
                assert(ev.to_set().contains(ev[j as int]));
                assert(!av.to_set().contains(ev[j as int]));
            }
            return false;
        }
        j = j + 1;
    }
    proof {
        assert(av.to_set() =~= ev.to_set());
    }
    true
}

impl CommitAuthorization {
    /// An authorization by `authority` for exactly these effects, granted at `now` for fifteen
    /// minutes and bound to their scope hashes.
    pub fn for_effects(authority: CommitAuthority, effects: &Vec<Effect>, now: i64) -> (r: Self)
        requires
            now <= i64::MAX - AUTHORIZATION_LIFETIME_MS,
        ensures
            r.authority == authority,
            r.effect_ids@.len() == effects@.len(),
            forall|i: int| 0 <= i < effects@.len() ==> #[trigger] r.effect_ids@[i]@ == effects@[i].id@,
            r.granted_at == now,
            r.expires_at == Some((now + AUTHORIZATION_LIFETIME_MS) as i64),
            binds(effects@, r.scope_hash@),
    {
        CommitAuthorization {
            id: crate::ids::fresh_id("commit-authorization-"),
            authority,
            effect_ids: ids_of(effects),
            granted_at: now,
            expires_at: Some(now + AUTHORIZATION_LIFETIME_MS),
            scope_hash: authorization_hash_exec(effects),
        }
    }

    /// Accepts the authorization for these effects at `now` when it has not expired, names
    /// exactly their identities and is bound to their current scope hashes.
    pub fn validate(&self, effects: &Vec<Effect>, now: i64) -> (r: Result<(), Error>)
        ensures
            expired_at(self.expires_at, now) ==> (r matches Err(e) && e is Intervention && e.message_spec()
                == expired_message()),
            !expired_at(self.expires_at, now) ==> {
                &&& r is Ok <==> (crate::text::views(self.effect_ids@).to_set() == effect_ids(effects@) && binds(
                    effects@,
                    self.scope_hash@,
                ))
                &&& r matches Err(e) ==> e is Intervention && e.message_spec() == unbound_message()
            },
    {
        let expired = match self.expires_at {
            Some(x) => x <= now,
            None => false,
        };
        if expired {
            return Err(intervention("Commit authorization expired"));
        }
        let expected = authorization_hash_exec(effects);
        let same_ids = same_id_sets(&self.effect_ids, effects);
        proof {
            lemma_binds_unique(effects@, expected@, self.scope_hash@);
        }
        if !same_ids || !str_eq(self.scope_hash.as_str(), expected.as_str()) {
            return Err(intervention("Commit authorization is not bound to the current effect scope"));
        }
        Ok(())
    }
}

/// Two sorted arrangements of the same pairs are the same sequence.
pub proof fn lemma_sorted_permutation_unique(s: Seq<ScopePair>, t: Seq<ScopePair>)
    requires
        s.to_multiset() == t.to_multiset(),
        pairs_sorted(s),
        pairs_sorted(t),
    ensures
        s == t,
    decreases s.len(),
{
    broadcast use vstd::multiset::group_multiset_axioms;
    vstd::seq_lib::to_multiset_len(s);
    vstd::seq_lib::to_multiset_len(t);
    if s.len() > 0 {
        let x = s.last();
        let y = t.last();
        vstd::seq_lib::to_multiset_contains(s, x);
        vstd::seq_lib::to_multiset_contains(t, x);
        vstd::seq_lib::to_multiset_contains(t, y);
        vstd::seq_lib::to_multiset_contains(s, y);
        let i = choose|i: int| 0 <= i < t.len() && t[i] == x;
        let j = choose|j: int| 0 <= j < s.len() && s[j] == y;
        if i < t.len() - 1 {
            assert(!pair_lt(t[t.len() - 1], t[i]));
        }
        if j < s.len() - 1 {
            assert(!pair_lt(s[s.len() - 1], s[j]));
        }
        lemma_pair_lt_order(x, y, x);
        assert(x == y);
        let sd = s.drop_last();
        let td = t.drop_last();
        assert(s =~= sd.push(x));
        assert(t =~= td.push(x));
        vstd::seq_lib::to_multiset_build(sd, x);
        vstd::seq_lib::to_multiset_build(td, x);
        assert(sd.to_multiset() =~= td.to_multiset()) by {
            assert forall|z: ScopePair| sd.to_multiset().count(z) == td.to_multiset().count(z) by {
                assert(sd.to_multiset().insert(x).count(z) == td.to_multiset().insert(x).count(z));
            }
        }
        assert(pairs_sorted(sd)) by {
            assert forall|a: int, b: int| 0 <= a < b < sd.len() implies !pair_lt(#[trigger] sd[b], #[trigger] sd[a]) by {
                assert(sd[a] == s[a] && sd[b] == s[b]);
            }
        }
        assert(pairs_sorted(td)) by {
            assert forall|a: int, b: int| 0 <= a < b < td.len() implies !pair_lt(#[trigger] td[b], #[trigger] td[a]) by {
                assert(td[a] == t[a] && td[b] == t[b]);
            }
        }
        lemma_sorted_permutation_unique(sd, td);
    }
}

/// The hash an authorization binds is the one hash of the effects' sorted scope pairs.
proof fn lemma_binds_unique(effects: Seq<Effect>, h1: Seq<char>, h2: Seq<char>)
    requires
        binds(effects, h1),
    ensures
        binds(effects, h2) <==> h1 == h2,
{
    let s = choose|s: Seq<ScopePair>| sorted_permutation(s, scope_pairs(effects)) && #[trigger] authorization_hash(s) == h1;
    if binds(effects, h2) {
        let t = choose|t: Seq<ScopePair>| sorted_permutation(t, scope_pairs(effects)) && #[trigger] authorization_hash(t) == h2;
        lemma_sorted_permutation_unique(s, t);
    }
}

/// An authorization issued for effects names exactly their identities and binds their scope:
/// it validates for them until it expires.
pub proof fn lemma_issued_authorization_validates(effects: Seq<Effect>, a: CommitAuthorization)
    requires
        a.effect_ids@.len() == effects.len(),
        forall|i: int| 0 <= i < effects.len() ==> #[trigger] a.effect_ids@[i]@ == effects[i].id@,
        binds(effects, a.scope_hash@),
    ensures
        crate::text::views(a.effect_ids@).to_set() == effect_ids(effects),
        binds(effects, a.scope_hash@),
{
    assert(crate::text::views(a.effect_ids@) =~= effects.map_values(|e: Effect| e.id@));
}

/// The JSON the fingerprint of an observed state digests: adapter, target, version (or
/// null) and state.
pub open spec fn snapshot_json(adapter: Seq<char>, target: EffectTarget, version: Option<String>, state: Seq<char>) -> Seq<u8> {
    utf8("["@) + json_string(adapter) + utf8(",{\"uri\":"@) + json_string(target.uri@) + utf8("},"@) + match version {
        Some(v) => json_string(v@),
        None => utf8("null"@),
    } + utf8(","@) + utf8(state) + utf8("]"@)
}

impl ExternalStateSnapshot {
    /// A snapshot of `state` (JSON text) taken at `now`, fingerprinted by the hex BLAKE3 digest
    /// of its adapter, target, version and state.
    pub fn capture(effect_id: String, adapter: &str, target: EffectTarget, version: Option<String>, state: String, now: i64)
        -> (r: Self)
        ensures
            r.fingerprint@ == hex_text(blake3_hash(snapshot_json(adapter@, target, version, state@))),
            r.effect_id == effect_id,
            r.adapter@ == adapter@,
            r.target == target,
            r.version == version,
            r.state == state,
            r.captured_at == now,
    {
        let mut json: Vec<u8> = Vec::new();
        push_text(&mut json, "[");
        push_json_string(&mut json, adapter);
        push_text(&mut json, ",{\"uri\":");
        push_json_string(&mut json, target.uri.as_str());
        push_text(&mut json, "},");
        match &version {
            Some(v) => push_json_string(&mut json, v.as_str()),
            None => push_text(&mut json, "null"),
        }
        push_text(&mut json, ",");
        push_text(&mut json, state.as_str());
        push_text(&mut json, "]");
        assert(json@ =~= snapshot_json(adapter@, target, version, state@));
        let digest = blake3_digest(json.as_slice());
        let mut fingerprint = String::new();
        push_hex(&mut fingerprint, digest.as_slice(), 0, digest.len());
        assert(digest@.subrange(0, digest@.len() as int) =~= digest@);
        ExternalStateSnapshot {
            id: crate::ids::fresh_id("snapshot-"),
            effect_id,
            adapter: String::from_str(adapter),
            target,
            version,
            fingerprint,
            state,
            captured_at: now,
        }
    }
}

} // verus!
