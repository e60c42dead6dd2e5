//! Distributed experience synchronization with local trust semantics.
use vstd::prelude::*;
use crate::text::{bytes_lt, compare_bytes, str_eq, views};
use crate::hierarchy::KnowledgeMaturity;

pub mod model;
pub mod compatibility;
pub mod lesson;

verus! {

pub const SYNC_PROTOCOL_V1: &'static str = "hardknock.sync.v1";
pub const SYNC_ARTIFACT_SCHEMA_V1: &'static str = "hardknock.sync-artifact.v1";

#[derive(Clone, Debug)]
pub enum EnvironmentKind {
    Developer,
    Ci,
    Integration,
    Staging,
    ProductionShadow,
    Production,
    Research,
    Custom(String),
}

/// Where a node runs. `tags` is a map from key to value, kept in increasing key order
/// with each key once.
#[derive(Clone, Debug)]
pub struct EnvironmentIdentity {
    pub kind: EnvironmentKind,
    pub organization: Option<String>,
    pub team: Option<String>,
    pub environment: Option<String>,
    pub region: Option<String>,
    pub account_scope: Option<String>,
    pub tags: Vec<(String, String)>,
}

impl Default for EnvironmentIdentity {
    fn default() -> (r: Self)
        ensures
            r.kind is Developer,
            r.organization is None,
            r.team is None,
            r.environment is None,
            r.region is None,
            r.account_scope is None,
            r.tags@.len() == 0,
    {
        EnvironmentIdentity {
            kind: EnvironmentKind::Developer,
            organization: None,
            team: None,
            environment: None,
            region: None,
            account_scope: None,
            tags: Vec::new(),
        }
    }
}

#[derive(Clone, Copy, Debug, PartialEq, Eq, Structural)]
pub struct PublishPolicy {
    pub experience: bool,
    pub lessons: bool,
    pub skills: bool,
    pub constraints: bool,
    pub recoveries: bool,
    pub abstractions: bool,
    pub certifications: bool,
    pub raw_logs: bool,
    pub sensitive_artifacts: bool,
}

impl Default for PublishPolicy {
    fn default() -> (r: Self)
        ensures
            r == (PublishPolicy { experience: true, lessons: true, skills: true, constraints: true, recoveries: true,
                abstractions: true, certifications: true, raw_logs: false, sensitive_artifacts: false }),
    {
        PublishPolicy { experience: true, lessons: true, skills: true, constraints: true, recoveries: true,
            abstractions: true, certifications: true, raw_logs: false, sensitive_artifacts: false }
    }
}

#[derive(Clone, Debug)]
pub struct ReceivePolicy {
    pub require_signature: bool,
    pub allow_advisory: bool,
    pub require_local_evidence_for_critical: bool,
    pub quarantine_incompatible: bool,
    pub supported_protocols: Vec<String>,
}

impl Default for ReceivePolicy {
    fn default() -> (r: Self)
        ensures
            r.require_signature && r.allow_advisory && r.require_local_evidence_for_critical && r.quarantine_incompatible,
            r.supported_protocols@.len() == 1,
            r.supported_protocols@[0]@ == SYNC_PROTOCOL_V1@,
    {
        let mut protocols: Vec<String> = Vec::new();
        protocols.push(String::from_str(SYNC_PROTOCOL_V1));
        ReceivePolicy {
            require_signature: true,
            allow_advisory: true,
            require_local_evidence_for_critical: true,
            quarantine_incompatible: true,
            supported_protocols: protocols,
        }
    }
}

#[derive(Clone, Copy, Debug, PartialEq, Eq, Structural)]
pub struct RemoteRetentionPolicy {
    pub retain_history: bool,
    pub retain_revoked: bool,
    pub max_records: Option<usize>,
}

impl Default for RemoteRetentionPolicy {
    fn default() -> (r: Self)
        ensures
            r == (RemoteRetentionPolicy { retain_history: true, retain_revoked: true, max_records: Some(100_000usize) }),
    {
        RemoteRetentionPolicy { retain_history: true, retain_revoked: true, max_records: Some(100_000) }
    }
}

#[derive(Clone, Copy, Debug, PartialEq, Eq, Structural)]
pub enum RemoteConflictPolicy {
    PreserveSeparate,
    Quarantine,
}

#[derive(Clone, Debug)]
pub struct NodeSyncPolicy {
    pub publish: PublishPolicy,
    pub receive: ReceivePolicy,
    pub retention: RemoteRetentionPolicy,
    pub conflict_policy: RemoteConflictPolicy,
}

impl Default for NodeSyncPolicy {
    fn default() -> (r: Self)
        ensures
            r.publish == PublishPolicy::default_spec(),
            r.retention.max_records == Some(100_000usize),
            r.conflict_policy == RemoteConflictPolicy::PreserveSeparate,
    {
        NodeSyncPolicy {
            publish: PublishPolicy::default(),
            receive: ReceivePolicy::default(),
            retention: RemoteRetentionPolicy::default(),
            conflict_policy: RemoteConflictPolicy::PreserveSeparate,
        }
    }
}

impl PublishPolicy {
    pub open spec fn default_spec() -> Self {
        PublishPolicy { experience: true, lessons: true, skills: true, constraints: true, recoveries: true,
            abstractions: true, certifications: true, raw_logs: false, sensitive_artifacts: false }
    }
}

#[derive(Clone, Copy, Debug, PartialEq, Eq, Structural)]
pub struct NodeTrustPolicy {
    pub require_configured_peers: bool,
    pub default_manual_review: bool,
}

impl Default for NodeTrustPolicy {
    fn default() -> (r: Self)
        ensures
            r == (NodeTrustPolicy { require_configured_peers: true, default_manual_review: true }),
    {
        NodeTrustPolicy { require_configured_peers: true, default_manual_review: true }
    }
}

#[derive(Clone, Copy, Debug, PartialEq, Eq, Structural)]
pub enum PeerTrust {
    Unknown,
    Known,
    TrustedForAuthenticity,
    TrustedForAdvisoryEvidence,
    Blocked,
}

#[derive(Clone, Copy, Debug, PartialEq, Eq, Structural)]
pub struct PeerTrustPolicy {
    pub accept_signed_artifacts: bool,
    pub allow_advisory_retrieval: bool,
    pub allow_automatic_reproduction_queue: bool,
    pub allow_certification_import: bool,
    pub require_manual_review: bool,
}

impl Default for PeerTrustPolicy {
    fn default() -> (r: Self)
        ensures
            r == (PeerTrustPolicy { accept_signed_artifacts: true, allow_advisory_retrieval: true,
                allow_automatic_reproduction_queue: false, allow_certification_import: true, require_manual_review: true }),
    {
        PeerTrustPolicy { accept_signed_artifacts: true, allow_advisory_retrieval: true,
            allow_automatic_reproduction_queue: false, allow_certification_import: true, require_manual_review: true }
    }
}

#[derive(Clone, Debug)]
pub enum PeerEndpoint {
    Filesystem(String),
    Http(String),
}

#[derive(Clone, Copy, Debug, PartialEq, Eq, Structural)]
pub enum PeerStatus {
    Active,
    Offline,
    Blocked,
}

#[derive(Clone, Copy, Debug, PartialEq, Eq, Structural)]
pub enum SyncArtifactType {
    Experience,
    Lesson,
    Skill,
    Constraint,
    AntiPattern,
    Recovery,
    OperatingEnvelope,
    AbstractKnowledge,
    KnowledgeException,
    Certification,
    GuardCandidateEvidence,
    Contradiction,
    Revocation,
    EnvironmentManifest,
}

#[derive(Clone, Debug)]
pub struct SyncFilter {
    pub artifact_types: Vec<SyncArtifactType>,
    pub task_families: Vec<String>,
    pub environments: Vec<EnvironmentKind>,
    pub minimum_origin_maturity: Option<KnowledgeMaturity>,
    pub include_revocations: bool,
}

#[derive(Clone, Debug)]
pub struct PortableArtifactRef {
    pub artifact_id: String,
    pub schema_version: String,
}

#[derive(Clone, Debug)]
pub struct ArtifactLineage {
    pub artifact_id: String,
    pub origin: String,
    pub revision: u64,
    pub parent_revision: Option<u64>,
}

#[derive(Clone, Debug)]
pub struct RootEvidenceOrigin {
    pub node: String,
    pub artifact_id: String,
    pub revision: u64,
}

#[derive(Clone, Debug)]
pub struct SyncArtifactRef {
    pub origin: String,
    pub artifact_id: String,
    pub revision: u64,
    pub content_hash: String,
}

#[derive(Clone, Copy, Debug, PartialEq, Eq, Structural)]
pub enum ArtifactAvailability {
    Full,
    MetadataOnly,
    Missing,
    Redacted,
}

#[derive(Clone, Copy, Debug, PartialEq, Eq, Structural)]
pub enum RemoteReproducibility {
    FullyReproducible,
    PartiallyReproducible,
    NotReproducible,
    Unknown,
}

#[derive(Clone, Copy, Debug, PartialEq, Eq, Structural)]
pub enum SyncStreamKind {
    Experience,
    Knowledge,
    Assurance,
    Revocations,
}

#[derive(Clone, Copy, Debug, PartialEq, Eq, Structural)]
pub enum SyncDirection {
    Push,
    Pull,
    Bidirectional,
}

#[derive(Clone, Copy, Debug, PartialEq, Eq, Structural)]
pub enum SyncSessionStatus {
    Running,
    Completed,
    Failed,
    ReplayRejected,
}

#[derive(Clone, Copy, Debug, PartialEq, Eq, Structural)]
pub enum RemoteArtifactState {
    Received,
    Verified,
    Quarantined,
    Advisory,
    ReproductionRequired,
    LocallySupported,
    Rejected,
    Revoked,
    Superseded,
}

#[derive(Clone, Copy, Debug, PartialEq, Eq, Structural)]
pub enum EnvironmentCompatibilityStatus {
    Compatible,
    PartiallyCompatible,
    Incompatible,
    Unknown,
}

#[derive(Clone, Debug)]
pub struct EnvironmentCompatibilityAssessment {
    pub source: EnvironmentIdentity,
    pub target: EnvironmentIdentity,
    pub matched_dimensions: Vec<String>,
    pub mismatched_dimensions: Vec<String>,
    pub unknown_dimensions: Vec<String>,
    pub status: EnvironmentCompatibilityStatus,
}

#[derive(Clone, Copy, Debug, PartialEq, Eq, Structural)]
pub enum RemotePromotionDecision {
    KeepAdvisory,
    ReproduceLocally,
    PromoteWithLocalEvidence,
    NarrowScope,
    Reject,
}

#[derive(Clone, Copy, Debug, PartialEq, Eq, Structural)]
pub enum ReproductionQueueStatus {
    Pending,
    Planned,
    Running,
    Supported,
    Contradicted,
    Inconclusive,
    Deferred,
}

#[derive(Clone, Debug)]
pub struct DistributedEvidencePath {
    pub evidence: Option<String>,
    pub origin_node: String,
    pub origin_environment: EnvironmentIdentity,
    pub root_origin: RootEvidenceOrigin,
    pub relay_nodes: Vec<String>,
    pub local_reproduction: Option<String>,
}

#[derive(Clone, Debug)]
pub enum RevocationReason {
    Contradicted,
    SecurityIssue,
    CorruptEvidence,
    Superseded,
    ScopeIncorrect,
    OriginCompromised,
    Custom(String),
}

#[derive(Clone, Copy, Debug, PartialEq, Eq, Structural)]
pub struct SyncBudget {
    pub max_artifacts: Option<usize>,
    pub max_bytes: Option<u64>,
    pub max_artifact_age_seconds: Option<i64>,
}

impl Default for SyncBudget {
    fn default() -> (r: Self)
        ensures
            r == (SyncBudget { max_artifacts: Some(10_000usize), max_bytes: Some(104_857_600u64), max_artifact_age_seconds: None }),
    {
        SyncBudget { max_artifacts: Some(10_000), max_bytes: Some(100 * 1024 * 1024), max_artifact_age_seconds: None }
    }
}

#[derive(Clone, Copy, Debug, PartialEq, Eq, Structural)]
pub enum RemotePlanImpact {
    NoChange,
    VerificationRequired,
}

#[derive(Clone, Debug)]
pub struct SyncMetrics {
    pub artifacts_published: u64,
    pub artifacts_received: u64,
    pub artifacts_verified: u64,
    pub artifacts_rejected: u64,
    pub artifacts_quarantined: u64,
    pub artifacts_deduplicated: u64,
    pub remote_artifacts_promoted: u64,
    pub remote_artifacts_reproduced: u64,
    pub remote_contradictions_received: u64,
    pub revocations_received: u64,
    pub sync_lag_seconds: Vec<i64>,
    pub blind_critical_promotions: u64,
}

/// A contradiction changes an active plan only when it overlaps the plan's context and
/// the next action cannot be undone.
pub fn remote_contradiction_plan_impact(plan: Option<&String>, context_overlaps: bool, next_action_irreversible: bool) -> (r: RemotePlanImpact)
    ensures
        r == (if plan is Some && context_overlaps && next_action_irreversible {
            RemotePlanImpact::VerificationRequired
        } else {
            RemotePlanImpact::NoChange
        }),
{
    if plan.is_some() && context_overlaps && next_action_irreversible {
        RemotePlanImpact::VerificationRequired
    } else {
        RemotePlanImpact::NoChange
    }
}

/// The root origin of a path as a value: node, artifact and revision.
pub open spec fn root_key(p: DistributedEvidencePath) -> (Seq<char>, Seq<char>, u64) {
    (p.root_origin.node@, p.root_origin.artifact_id@, p.root_origin.revision)
}

pub open spec fn root_keys(ps: Seq<DistributedEvidencePath>) -> Set<(Seq<char>, Seq<char>, u64)> {
    ps.map_values(|p: DistributedEvidencePath| root_key(p)).to_set()
}

/// The distinct root origins of the paths, each once, in the order first seen.
pub fn distinct_root_origins(paths: &Vec<DistributedEvidencePath>) -> (r: Vec<(String, String, u64)>)
    ensures
        r@.map_values(|t: (String, String, u64)| (t.0@, t.1@, t.2)).to_set() == root_keys(paths@),
        r@.map_values(|t: (String, String, u64)| (t.0@, t.1@, t.2)).no_duplicates(),
{
    let mut r: Vec<(String, String, u64)> = Vec::new();
    let mut i: usize = 0;
    while i < paths.len()
        invariant
            i <= paths@.len(),
            r@.map_values(|t: (String, String, u64)| (t.0@, t.1@, t.2)).to_set()
                == paths@.subrange(0, i as int).map_values(|p: DistributedEvidencePath| root_key(p)).to_set(),
            r@.map_values(|t: (String, String, u64)| (t.0@, t.1@, t.2)).no_duplicates(),
        decreases paths.len() - i,
    {
        let root = &paths[i].root_origin;
        let mut found = false;
        let mut k: usize = 0;
        while k < r.len()
            invariant
                k <= r@.len(),
                !found ==> forall|m: int| 0 <= m < k ==> (r@[m].0@, r@[m].1@, r@[m].2) != (root.node@, root.artifact_id@, root.revision),
                found ==> exists|m: int| 0 <= m < r@.len() && (r@[m].0@, r@[m].1@, r@[m].2) == (root.node@, root.artifact_id@, root.revision),
            decreases r.len() - k,
        {
            if !found && str_eq(r[k].0.as_str(), root.node.as_str()) && str_eq(r[k].1.as_str(), root.artifact_id.as_str())
                && r[k].2 == root.revision {
                found = true;
            }
            k = k + 1;
        }
        let ghost old_r = r@;
        let ghost key = root_key(paths@[i as int]);
        proof {
            assert(paths@.subrange(0, i + 1).map_values(|p: DistributedEvidencePath| root_key(p))
                =~= paths@.subrange(0, i as int).map_values(|p: DistributedEvidencePath| root_key(p)).push(key));
            let pre = paths@.subrange(0, i as int).map_values(|p: DistributedEvidencePath| root_key(p));
            Seq::lemma_to_set_insert_commutes(pre, key);
            assert(pre.push(key) =~= pre + seq![key]);
        }
        if !found {
            r.push((root.node.clone(), root.artifact_id.clone(), root.revision));
            proof {
                let mv = |t: (String, String, u64)| (t.0@, t.1@, t.2);
                assert(r@.map_values(mv) =~= old_r.map_values(mv).push(key));
                Seq::lemma_to_set_insert_commutes(old_r.map_values(mv), key);
                assert(old_r.map_values(mv).push(key) =~= old_r.map_values(mv) + seq![key]);
                assert(!old_r.map_values(mv).contains(key));
            }
        } else {
            proof {
                let mv = |t: (String, String, u64)| (t.0@, t.1@, t.2);
                let m = choose|m: int| 0 <= m < r@.len() && (r@[m].0@, r@[m].1@, r@[m].2) == (root.node@, root.artifact_id@, root.revision);
                assert(old_r.map_values(mv)[m] == key);
                assert(old_r.map_values(mv).to_set().contains(key));
                assert(old_r.map_values(mv).to_set().insert(key) =~= old_r.map_values(mv).to_set());
            }
        }
        i = i + 1;
    }
    assert(paths@.subrange(0, paths@.len() as int) =~= paths@);
    r
}


// ---------------------------------------------------------------------------
// Environment compatibility
// ---------------------------------------------------------------------------

/// How one dimension of two environments compares.
#[derive(Clone, Copy, Debug, PartialEq, Eq, Structural)]
pub enum DimensionMatch {
    Matched,
    Mismatched,
    Unknown,
}

impl EnvironmentKind {
    pub open spec fn code(self) -> u8 {
        match self {
            EnvironmentKind::Developer => 0,
            EnvironmentKind::Ci => 1,
            EnvironmentKind::Integration => 2,
            EnvironmentKind::Staging => 3,
            EnvironmentKind::ProductionShadow => 4,
            EnvironmentKind::Production => 5,
            EnvironmentKind::Research => 6,
            EnvironmentKind::Custom(_) => 7,
        }
    }

    /// Same variant, and for custom kinds the same name.
    pub open spec fn same_as(self, other: Self) -> bool {
        match (self, other) {
            (EnvironmentKind::Custom(a), EnvironmentKind::Custom(b)) => a@ == b@,
            _ => self.code() == other.code(),
        }
    }

    fn code_exec(&self) -> (r: u8)
        ensures
            r == self.code(),
    {
        match self {
            EnvironmentKind::Developer => 0,
            EnvironmentKind::Ci => 1,
            EnvironmentKind::Integration => 2,
            EnvironmentKind::Staging => 3,
            EnvironmentKind::ProductionShadow => 4,
            EnvironmentKind::Production => 5,
            EnvironmentKind::Research => 6,
            EnvironmentKind::Custom(_) => 7,
        }
    }

    /// Whether two kinds are the same kind.
    pub fn equals(&self, other: &Self) -> (r: bool)
        ensures
            r == self.same_as(*other),
    {
        match (self, other) {
            (EnvironmentKind::Custom(a), EnvironmentKind::Custom(b)) => str_eq(a.as_str(), b.as_str()),
            _ => self.code_exec() == other.code_exec(),
        }
    }

    /// A copy of the kind.
    pub fn duplicate(&self) -> (r: Self)
        ensures
            r == *self,
    {
        match self {
            EnvironmentKind::Developer => EnvironmentKind::Developer,
            EnvironmentKind::Ci => EnvironmentKind::Ci,
            EnvironmentKind::Integration => EnvironmentKind::Integration,
            EnvironmentKind::Staging => EnvironmentKind::Staging,
            EnvironmentKind::ProductionShadow => EnvironmentKind::ProductionShadow,
            EnvironmentKind::Production => EnvironmentKind::Production,
            EnvironmentKind::Research => EnvironmentKind::Research,
            EnvironmentKind::Custom(s) => EnvironmentKind::Custom(s.clone()),
        }
    }
}

fn clone_opt(o: &Option<String>) -> (r: Option<String>)
    ensures
        r == *o,
{
    match o {
        Some(s) => Some(s.clone()),
        None => None,
    }
}

impl EnvironmentIdentity {
    /// Equal kind, optional dimensions and tags.
    pub open spec fn same_as(self, other: Self) -> bool {
        &&& self.kind == other.kind
        &&& self.organization == other.organization
        &&& self.team == other.team
        &&& self.environment == other.environment
        &&& self.region == other.region
        &&& self.account_scope == other.account_scope
        &&& self.tags@ == other.tags@
    }

    /// A copy of the identity.
    pub fn duplicate(&self) -> (r: Self)
        ensures
            r.same_as(*self),
    {
        let mut tags: Vec<(String, String)> = Vec::new();
        let mut i: usize = 0;
        while i < self.tags.len()
            invariant
                i <= self.tags@.len(),
                tags@ =~= self.tags@.subrange(0, i as int),
            decreases self.tags.len() - i,
        {
            tags.push((self.tags[i].0.clone(), self.tags[i].1.clone()));
            i = i + 1;
        }
        assert(tags@ =~= self.tags@);
        EnvironmentIdentity {
            kind: self.kind.duplicate(),
            organization: clone_opt(&self.organization),
            team: clone_opt(&self.team),
            environment: clone_opt(&self.environment),
            region: clone_opt(&self.region),
            account_scope: clone_opt(&self.account_scope),
            tags,
        }
    }
}

/// Both known and equal, both known and different, or unknown.
pub open spec fn classify_dimension(a: Option<String>, b: Option<String>) -> DimensionMatch {
    match (a, b) {
        (Some(x), Some(y)) => if x@ == y@ { DimensionMatch::Matched } else { DimensionMatch::Mismatched },
        _ => DimensionMatch::Unknown,
    }
}

fn classify_dimension_exec(a: &Option<String>, b: &Option<String>) -> (r: DimensionMatch)
    ensures
        r == classify_dimension(*a, *b),
{
    match (a, b) {
        (Some(x), Some(y)) => if str_eq(x.as_str(), y.as_str()) { DimensionMatch::Matched } else { DimensionMatch::Mismatched },
        _ => DimensionMatch::Unknown,
    }
}

/// The tag dimensions of two tag maps, merged in increasing key order: a key on both
/// sides compares its values, a key on one side only is unknown.
pub open spec fn tag_merge(a: Seq<(String, String)>, b: Seq<(String, String)>) -> Seq<(Seq<char>, DimensionMatch)>
    decreases a.len() + b.len(),
{
    if a.len() == 0 && b.len() == 0 {
        Seq::empty()
    } else if b.len() == 0 || (a.len() > 0 && bytes_lt(vstd::utf8::encode_utf8(a[0].0@), vstd::utf8::encode_utf8(b[0].0@))) {
        seq![("tag:"@ + a[0].0@, DimensionMatch::Unknown)] + tag_merge(a.drop_first(), b)
    } else if a.len() == 0 || bytes_lt(vstd::utf8::encode_utf8(b[0].0@), vstd::utf8::encode_utf8(a[0].0@)) {
        seq![("tag:"@ + b[0].0@, DimensionMatch::Unknown)] + tag_merge(a, b.drop_first())
    } else {
        seq![("tag:"@ + a[0].0@, if a[0].1@ == b[0].1@ { DimensionMatch::Matched } else { DimensionMatch::Mismatched })]
            + tag_merge(a.drop_first(), b.drop_first())
    }
}

/// Every compared dimension, in order: kind, organization, team, environment, region,
/// account scope, then the tags.
pub open spec fn environment_dimensions(s: EnvironmentIdentity, t: EnvironmentIdentity) -> Seq<(Seq<char>, DimensionMatch)> {
    seq![
        ("kind"@, if s.kind.same_as(t.kind) { DimensionMatch::Matched } else { DimensionMatch::Mismatched }),
        ("organization"@, classify_dimension(s.organization, t.organization)),
        ("team"@, classify_dimension(s.team, t.team)),
        ("environment"@, classify_dimension(s.environment, t.environment)),
        ("region"@, classify_dimension(s.region, t.region)),
        ("account_scope"@, classify_dimension(s.account_scope, t.account_scope)),
    ] + tag_merge(s.tags@, t.tags@)
}

/// The names of the dimensions that compare as `c`, in order.
pub open spec fn dimensions_with(d: Seq<(Seq<char>, DimensionMatch)>, c: DimensionMatch) -> Seq<Seq<char>>
    decreases d.len(),
{
    if d.len() == 0 {
        Seq::empty()
    } else if d.last().1 == c {
        dimensions_with(d.drop_last(), c).push(d.last().0)
    } else {
        dimensions_with(d.drop_last(), c)
    }
}

/// Incompatible when nothing matches and something mismatches; compatible when
/// everything matches; partially compatible when something matches; else unknown.
pub open spec fn compatibility_status(matched: nat, mismatched: nat, unknown: nat) -> EnvironmentCompatibilityStatus {
    if matched == 0 && mismatched > 0 {
        EnvironmentCompatibilityStatus::Incompatible
    } else if mismatched == 0 && unknown == 0 {
        EnvironmentCompatibilityStatus::Compatible
    } else if matched > 0 {
        EnvironmentCompatibilityStatus::PartiallyCompatible
    } else {
        EnvironmentCompatibilityStatus::Unknown
    }
}

pub open spec fn dimension_views(d: Seq<(String, DimensionMatch)>) -> Seq<(Seq<char>, DimensionMatch)> {
    d.map_values(|e: (String, DimensionMatch)| (e.0@, e.1))
}

fn push_dimension(d: &mut Vec<(String, DimensionMatch)>, name: String, c: DimensionMatch)
    ensures
        dimension_views(final(d)@) == dimension_views(old(d)@).push((name@, c)),
{
    d.push((name, c));
    assert(dimension_views(d@) =~= dimension_views(old(d)@).push((name@, c)));
}

fn tag_dimension(key: &String) -> (r: String)
    ensures
        r@ == "tag:"@ + key@,
{
    let mut s = String::from_str("tag:");
    s.append(key.as_str());
    s
}

proof fn lemma_skip_first<A>(s: Seq<A>, i: int)
    requires
        0 <= i < s.len(),
    ensures
        s.skip(i)[0] == s[i],
        s.skip(i).drop_first() =~= s.skip(i + 1),
        s.skip(i).len() > 0,
{
}

fn merge_tags(d: &mut Vec<(String, DimensionMatch)>, a: &Vec<(String, String)>, b: &Vec<(String, String)>)
    ensures
        dimension_views(final(d)@) == dimension_views(old(d)@) + tag_merge(a@, b@),
{
    let mut i: usize = 0;
    let mut j: usize = 0;
    assert(a@.skip(0) =~= a@);
    assert(b@.skip(0) =~= b@);
    assert(dimension_views(old(d)@) + tag_merge(a@, b@) =~= dimension_views(d@) + tag_merge(a@.skip(0), b@.skip(0)));
    while i < a.len() || j < b.len()
        invariant
            i <= a@.len(),
            j <= b@.len(),
            dimension_views(old(d)@) + tag_merge(a@, b@) == dimension_views(d@) + tag_merge(a@.skip(i as int), b@.skip(j as int)),
        decreases a@.len() - i + b@.len() - j,
    {
        let ghost before = dimension_views(d@);
        let ghost sa = a@.skip(i as int);
        let ghost sb = b@.skip(j as int);
        if i < a.len() {
            proof { lemma_skip_first(a@, i as int); }
        }
        if j < b.len() {
            proof { lemma_skip_first(b@, j as int); }
        }
        let c: i8 = if i == a.len() {
            1
        } else if j == b.len() {
            -1
        } else {
            compare_bytes(a[i].0.as_str().as_bytes(), b[j].0.as_str().as_bytes())
        };
        if c < 0 {
            push_dimension(d, tag_dimension(&a[i].0), DimensionMatch::Unknown);
            proof {
                assert(tag_merge(sa, sb) == seq![("tag:"@ + sa[0].0@, DimensionMatch::Unknown)] + tag_merge(sa.drop_first(), sb));
                assert(before.push(("tag:"@ + sa[0].0@, DimensionMatch::Unknown)) + tag_merge(a@.skip(i + 1), sb)
                    =~= before + (seq![("tag:"@ + sa[0].0@, DimensionMatch::Unknown)] + tag_merge(sa.drop_first(), sb)));
            }
            i = i + 1;
        } else if c > 0 {
            push_dimension(d, tag_dimension(&b[j].0), DimensionMatch::Unknown);
            proof {
                if sa.len() > 0 {
                    crate::text::lemma_bytes_lt_trichotomy(vstd::utf8::encode_utf8(sa[0].0@), vstd::utf8::encode_utf8(sb[0].0@));
                }
                assert(tag_merge(sa, sb) == seq![("tag:"@ + sb[0].0@, DimensionMatch::Unknown)] + tag_merge(sa, sb.drop_first()));
                assert(before.push(("tag:"@ + sb[0].0@, DimensionMatch::Unknown)) + tag_merge(sa, b@.skip(j + 1))
                    =~= before + (seq![("tag:"@ + sb[0].0@, DimensionMatch::Unknown)] + tag_merge(sa, sb.drop_first())));
            }
            j = j + 1;
        } else {
            let m = if str_eq(a[i].1.as_str(), b[j].1.as_str()) { DimensionMatch::Matched } else { DimensionMatch::Mismatched };
            push_dimension(d, tag_dimension(&a[i].0), m);
            proof {
                crate::text::lemma_bytes_lt_trichotomy(vstd::utf8::encode_utf8(sa[0].0@), vstd::utf8::encode_utf8(sb[0].0@));
                assert(tag_merge(sa, sb) == seq![("tag:"@ + sa[0].0@, m)] + tag_merge(sa.drop_first(), sb.drop_first()));
                assert(before.push(("tag:"@ + sa[0].0@, m)) + tag_merge(a@.skip(i + 1), b@.skip(j + 1))
                    =~= before + (seq![("tag:"@ + sa[0].0@, m)] + tag_merge(sa.drop_first(), sb.drop_first())));
            }
            i = i + 1;
            j = j + 1;
        }
    }
    assert(a@.skip(i as int) =~= Seq::<(String, String)>::empty());
    assert(b@.skip(j as int) =~= Seq::<(String, String)>::empty());
    assert(dimension_views(d@) + Seq::<(Seq<char>, DimensionMatch)>::empty() =~= dimension_views(d@));
}

fn names_with(d: &Vec<(String, DimensionMatch)>, c: DimensionMatch) -> (r: Vec<String>)
    ensures
        views(r@) == dimensions_with(dimension_views(d@), c),
{
    let mut r: Vec<String> = Vec::new();
    let mut i: usize = 0;
    while i < d.len()
        invariant
            i <= d@.len(),
            views(r@) == dimensions_with(dimension_views(d@.subrange(0, i as int)), c),
        decreases d.len() - i,
    {
        let ghost before = r@;
        if d[i].1 == c {
            r.push(d[i].0.clone());
            assert(views(r@) =~= views(before).push(d@[i as int].0@));
        }
        proof {
            assert(dimension_views(d@.subrange(0, i + 1)).drop_last() =~= dimension_views(d@.subrange(0, i as int)));
            assert(dimension_views(d@.subrange(0, i + 1)).last() == (d@[i as int].0@, d@[i as int].1));
        }
        i = i + 1;
    }
    assert(d@.subrange(0, d@.len() as int) =~= d@);
    r
}

/// Compares two environments dimension by dimension: kind, organization, team,
/// environment, region, account scope and every tag key of either side.
pub fn assess_environment_compatibility(source: &EnvironmentIdentity, target: &EnvironmentIdentity) -> (r: EnvironmentCompatibilityAssessment)
    ensures
        r.source.same_as(*source),
        r.target.same_as(*target),
        views(r.matched_dimensions@) == dimensions_with(environment_dimensions(*source, *target), DimensionMatch::Matched),
        views(r.mismatched_dimensions@) == dimensions_with(environment_dimensions(*source, *target), DimensionMatch::Mismatched),
        views(r.unknown_dimensions@) == dimensions_with(environment_dimensions(*source, *target), DimensionMatch::Unknown),
        r.status == compatibility_status(r.matched_dimensions@.len(), r.mismatched_dimensions@.len(), r.unknown_dimensions@.len()),
{
    let mut d: Vec<(String, DimensionMatch)> = Vec::new();
    let kind = if source.kind.equals(&target.kind) { DimensionMatch::Matched } else { DimensionMatch::Mismatched };
    push_dimension(&mut d, String::from_str("kind"), kind);
    push_dimension(&mut d, String::from_str("organization"), classify_dimension_exec(&source.organization, &target.organization));
    push_dimension(&mut d, String::from_str("team"), classify_dimension_exec(&source.team, &target.team));
    push_dimension(&mut d, String::from_str("environment"), classify_dimension_exec(&source.environment, &target.environment));
    push_dimension(&mut d, String::from_str("region"), classify_dimension_exec(&source.region, &target.region));
    push_dimension(&mut d, String::from_str("account_scope"), classify_dimension_exec(&source.account_scope, &target.account_scope));
    let ghost head = dimension_views(d@);
    merge_tags(&mut d, &source.tags, &target.tags);
    assert(dimension_views(d@) =~= environment_dimensions(*source, *target));
    let matched = names_with(&d, DimensionMatch::Matched);
    let mismatched = names_with(&d, DimensionMatch::Mismatched);
    let unknown = names_with(&d, DimensionMatch::Unknown);
    let status = if matched.len() == 0 && mismatched.len() > 0 {
        EnvironmentCompatibilityStatus::Incompatible
    } else if mismatched.len() == 0 && unknown.len() == 0 {
        EnvironmentCompatibilityStatus::Compatible
    } else if matched.len() > 0 {
        EnvironmentCompatibilityStatus::PartiallyCompatible
    } else {
        EnvironmentCompatibilityStatus::Unknown
    };
    EnvironmentCompatibilityAssessment {
        source: source.duplicate(),
        target: target.duplicate(),
        matched_dimensions: matched,
        mismatched_dimensions: mismatched,
        unknown_dimensions: unknown,
        status,
    }
}

// ------------------------------------------------------------------------------------------
// What a node does with remote knowledge.
// ------------------------------------------------------------------------------------------

/// How fresh a remote artifact is; times are Unix milliseconds.
#[derive(Clone, Copy, Debug, PartialEq, Eq, Structural)]
pub struct RemoteFreshness {
    pub artifact_created_at: i64,
    pub received_at: i64,
    pub origin_last_seen: Option<i64>,
    pub stale: bool,
}

/// What a node knows of one remote artifact; `local_evidence` names the local evidence paths
/// that support it.
#[derive(Clone, Debug)]
pub struct RemoteKnowledgeRecord {
    pub remote_artifact: SyncArtifactRef,
    pub artifact_type: SyncArtifactType,
    pub origin_status: Option<KnowledgeMaturity>,
    pub local_state: RemoteArtifactState,
    pub compatibility: EnvironmentCompatibilityAssessment,
    pub trust: PeerTrust,
    pub local_evidence: Vec<String>,
    pub availability: ArtifactAvailability,
    pub reproducibility: RemoteReproducibility,
    pub freshness: RemoteFreshness,
    pub review_required: bool,
    pub origin_certified: bool,
    pub locally_certified: bool,
    pub origin_revoked: bool,
}

/// A remote artifact as a node receives it; `created_at` is in Unix milliseconds and the
/// payload is JSON text.
#[derive(Clone, Debug)]
pub struct SyncArtifact {
    pub id: String,
    pub artifact_type: SyncArtifactType,
    pub artifact_ref: PortableArtifactRef,
    pub lineage: ArtifactLineage,
    pub origin: String,
    pub root_origin: RootEvidenceOrigin,
    pub relay_nodes: Vec<String>,
    pub environment: EnvironmentIdentity,
    pub dependencies: Vec<SyncArtifactRef>,
    pub content_hash: String,
    pub task_family: Option<String>,
    pub origin_maturity: Option<KnowledgeMaturity>,
    pub critical: bool,
    pub availability: ArtifactAvailability,
    pub reproducibility: RemoteReproducibility,
    pub payload: Option<String>,
    pub created_at: i64,
}

/// The conservative promotion rule: revoked or incompatible knowledge is rejected; with
/// local evidence it is promoted where compatible and narrowed otherwise; without, critical
/// knowledge, constraints and exceptions must be reproduced locally, and anything else stays
/// advisory.
pub open spec fn promotion_decision(record: RemoteKnowledgeRecord, critical: bool) -> RemotePromotionDecision {
    if record.origin_revoked || record.local_state == RemoteArtifactState::Revoked || record.compatibility.status
        == EnvironmentCompatibilityStatus::Incompatible {
        RemotePromotionDecision::Reject
    } else if record.local_evidence@.len() > 0 {
        if record.compatibility.status == EnvironmentCompatibilityStatus::Compatible {
            RemotePromotionDecision::PromoteWithLocalEvidence
        } else {
            RemotePromotionDecision::NarrowScope
        }
    } else if critical || record.artifact_type == SyncArtifactType::Constraint || record.artifact_type
        == SyncArtifactType::KnowledgeException {
        RemotePromotionDecision::ReproduceLocally
    } else {
        RemotePromotionDecision::KeepAdvisory
    }
}

/// What a node does with remote knowledge under the conservative rule.
pub fn conservative_promotion_decision(record: &RemoteKnowledgeRecord, critical: bool) -> (r: RemotePromotionDecision)
    ensures
        r == promotion_decision(*record, critical),
{
    if record.origin_revoked || record.local_state == RemoteArtifactState::Revoked || record.compatibility.status
        == EnvironmentCompatibilityStatus::Incompatible {
        return RemotePromotionDecision::Reject;
    }
    if record.local_evidence.len() > 0 {
        return if record.compatibility.status == EnvironmentCompatibilityStatus::Compatible {
            RemotePromotionDecision::PromoteWithLocalEvidence
        } else {
            RemotePromotionDecision::NarrowScope
        };
    }
    if critical || record.artifact_type == SyncArtifactType::Constraint || record.artifact_type
        == SyncArtifactType::KnowledgeException {
        RemotePromotionDecision::ReproduceLocally
    } else {
        RemotePromotionDecision::KeepAdvisory
    }
}

/// Remote support lets a non-critical action go ahead only once it is locally supported with
/// local evidence.
pub fn remote_support_allows_act(record: &RemoteKnowledgeRecord, critical: bool) -> (r: bool)
    ensures
        r == (!critical && record.local_state == RemoteArtifactState::LocallySupported && record.local_evidence@.len() > 0),
{
    !critical && record.local_state == RemoteArtifactState::LocallySupported && record.local_evidence.len() > 0
}

/// A remote exception can relax a local constraint only when it is a locally supported
/// exception with local evidence and the local exception has evidence of its own.
pub fn remote_exception_can_relax_local_constraint(remote: &RemoteKnowledgeRecord, local_exception_evidence: &Vec<String>) -> (r: bool)
    ensures
        r == (remote.artifact_type == SyncArtifactType::KnowledgeException && remote.local_state
            == RemoteArtifactState::LocallySupported && remote.local_evidence@.len() > 0
            && local_exception_evidence@.len() > 0),
{
    remote.artifact_type == SyncArtifactType::KnowledgeException && remote.local_state == RemoteArtifactState::LocallySupported
        && remote.local_evidence.len() > 0 && local_exception_evidence.len() > 0
}

/// The artifact is of the active task family, critical where only critical ones are asked
/// for, and not a revocation.
pub open spec fn prioritized(a: SyncArtifact, family: Seq<char>, critical_only: bool) -> bool {
    &&& (a.task_family matches Some(f) && f@ == family)
    &&& (!critical_only || a.critical)
    &&& a.artifact_type != SyncArtifactType::Revocation
}

/// The positions of the artifacts that matter now, in their order.
pub fn prioritize_remote_artifacts(artifacts: &Vec<SyncArtifact>, active_task_family: &str, critical_only: bool) -> (r: Vec<usize>)
    ensures
        forall|a: int, b: int| 0 <= a < b < r@.len() ==> r@[a] < r@[b],
        forall|a: int| 0 <= a < r@.len() ==> (#[trigger] r@[a]) < artifacts@.len() && prioritized(
            artifacts@[r@[a] as int],
            active_task_family@,
            critical_only,
        ),
        forall|i: int| 0 <= i < artifacts@.len() && prioritized(#[trigger] artifacts@[i], active_task_family@, critical_only) ==> r@.contains(
            i as usize,
        ),
{
    let mut r: Vec<usize> = Vec::new();
    let mut i: usize = 0;
    while i < artifacts.len()
        invariant
            i <= artifacts@.len(),
            forall|a: int, b: int| 0 <= a < b < r@.len() ==> r@[a] < r@[b],
            forall|a: int| 0 <= a < r@.len() ==> (#[trigger] r@[a]) < i && prioritized(
                artifacts@[r@[a] as int],
                active_task_family@,
                critical_only,
            ),
            forall|k: int| 0 <= k < i && prioritized(#[trigger] artifacts@[k], active_task_family@, critical_only) ==> r@.contains(
                k as usize,
            ),
        decreases artifacts.len() - i,
    {
        let a = &artifacts[i];
        let family = match &a.task_family {
            Some(f) => str_eq(f.as_str(), active_task_family),
            None => false,
        };
        if family && (!critical_only || a.critical) && a.artifact_type != SyncArtifactType::Revocation {
            let ghost before = r@;
            r.push(i);
            proof {
                assert forall|k: int| 0 <= k < i + 1 && prioritized(#[trigger] artifacts@[k], active_task_family@, critical_only) implies r@.contains(
                    k as usize,
                ) by {
                    if k < i {
                        let w = choose|w: int| 0 <= w < before.len() && before[w] == k as usize;
                        assert(r@[w] == k as usize);
                    } else {
                        assert(r@[before.len() as int] == i);
                    }
                }
            }
        }
        i = i + 1;
    }
    r
}

/// An environment is compatible only when no dimension mismatches and none is unknown; with
/// some dimension matched, none mismatched and some unknown it is partially compatible; it is
/// incompatible exactly when some dimension mismatches and none matches.
pub proof fn lemma_compatibility_status_rule(matched: nat, mismatched: nat, unknown: nat)
    ensures
        compatibility_status(matched, mismatched, unknown) == EnvironmentCompatibilityStatus::Compatible ==> mismatched == 0
            && unknown == 0,
        matched > 0 && mismatched == 0 && unknown > 0 ==> compatibility_status(matched, mismatched, unknown)
            == EnvironmentCompatibilityStatus::PartiallyCompatible,
        (compatibility_status(matched, mismatched, unknown) == EnvironmentCompatibilityStatus::Incompatible) == (matched
            == 0 && mismatched > 0),
        mismatched == 0 && unknown == 0 ==> compatibility_status(matched, mismatched, unknown)
            == EnvironmentCompatibilityStatus::Compatible,
        matched == 0 && mismatched == 0 && unknown > 0 ==> compatibility_status(matched, mismatched, unknown)
            == EnvironmentCompatibilityStatus::Unknown,
{
}

} // verus!
