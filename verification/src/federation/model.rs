//! The federation model: node and bundle identities, portable evidence, provenance, trust,
//! and how well a remote context matches the local one.
use vstd::prelude::*;
use crate::epistemic::AgentIdentity;
use crate::error::Error;
use crate::experience::Outcome;
use crate::text::{str_eq, utf8_len, views};

verus! {

pub const BUNDLE_SCHEMA_V1: &'static str = "hardknock.bundle.v1";

// ------------------------------------------------------------------------------------------
// Content-addressed identities.
// ------------------------------------------------------------------------------------------

pub open spec fn lower_hex_byte(b: u8) -> bool {
    (48 <= b && b <= 57) || (97 <= b && b <= 102)
}

/// `value` is `prefix` followed by 64 lowercase hexadecimal characters.
pub open spec fn prefixed_digest(prefix: Seq<char>, value: Seq<char>) -> bool {
    &&& value.len() >= prefix.len()
    &&& value.subrange(0, prefix.len() as int) == prefix
    &&& {
        let digest = vstd::utf8::encode_utf8(value.subrange(prefix.len() as int, value.len() as int));
        digest.len() == 64 && forall|i: int| 0 <= i < 64 ==> lower_hex_byte(#[trigger] digest[i])
    }
}

pub open spec fn digest_message(prefix: Seq<char>) -> Seq<char> {
    "Expected "@ + prefix + "<64 lowercase hex characters>"@
}

/// Accepts `value` when it is `prefix` and a lowercase hex digest of 64 characters.
fn check_prefixed_digest(prefix: &str, value: &str) -> (r: Result<(), Error>)
    ensures
        r is Ok <==> prefixed_digest(prefix@, value@),
        r matches Err(e) ==> e is InvalidInput && e.message_spec() == digest_message(prefix@),
{
    let mut message = String::from_str("Expected ");
    message.append(prefix);
    message.append("<64 lowercase hex characters>");
    let n = value.unicode_len();
    let p = prefix.unicode_len();
    if n < p {
        return Err(Error::InvalidInput(message));
    }
    let head = value.substring_char(0, p);
    if !str_eq(head, prefix) {
        return Err(Error::InvalidInput(message));
    }
    let tail = value.substring_char(p, n);
    let digest = tail.as_bytes();
    proof {
        assert(digest@ == vstd::utf8::encode_utf8(value@.subrange(p as int, n as int)));
    }
    if digest.len() != 64 {
        return Err(Error::InvalidInput(message));
    }
    let ghost msg = message@;
    let mut i: usize = 0;
    while i < 64
        invariant
            i <= 64,
            digest@.len() == 64,
            n == value@.len(),
            p == prefix@.len(),
            p <= n,
            value@.subrange(0, p as int) == prefix@,
            digest@ == vstd::utf8::encode_utf8(value@.subrange(p as int, n as int)),
            message@ == msg,
            msg == digest_message(prefix@),
            forall|k: int| 0 <= k < i ==> lower_hex_byte(#[trigger] digest@[k]),
        decreases 64 - i,
    {
        let b = digest[i];
        if !((48 <= b && b <= 57) || (97 <= b && b <= 102)) {
            return Err(Error::InvalidInput(message));
        }
        i = i + 1;
    }
    Ok(())
}

/// A federation node's identity: `hk-node:` and a 64-character lowercase hex digest.
#[derive(Clone, Debug)]
pub struct ExperienceNodeId(String);

/// A bundle's identity: `hk-bundle:` and a 64-character lowercase hex digest.
#[derive(Clone, Debug)]
pub struct BundleId(String);

/// A provenance node's identity: `hk-provenance:` and a 64-character lowercase hex digest.
#[derive(Clone, Debug)]
pub struct ProvenanceNodeId(String);

impl ExperienceNodeId {
    pub closed spec fn view(&self) -> Seq<char> {
        self.0@
    }

    /// The identity written as `value`, refused unless it is well formed.
    pub fn parse(value: &str) -> (r: Result<Self, Error>)
        ensures
            r is Ok <==> prefixed_digest("hk-node:"@, value@),
            r matches Ok(id) ==> id.view() == value@,
            r matches Err(e) ==> e is InvalidInput && e.message_spec() == digest_message("hk-node:"@),
    {
        match check_prefixed_digest("hk-node:", value) {
            Ok(()) => Ok(ExperienceNodeId(String::from_str(value))),
            Err(e) => Err(e),
        }
    }

    /// The identity with the given digest.
    pub fn from_digest(digest: &str) -> (r: Result<Self, Error>)
        ensures
            r is Ok <==> prefixed_digest("hk-node:"@, "hk-node:"@ + digest@),
            r matches Ok(id) ==> id.view() == "hk-node:"@ + digest@,
    {
        let mut s = String::from_str("hk-node:");
        s.append(digest);
        Self::parse(s.as_str())
    }

    /// The identity's text.
    pub fn as_str(&self) -> (r: &str)
        ensures
            r@ == self.view(),
    {
        self.0.as_str()
    }

    /// A copy of the identity.
    pub fn duplicate(&self) -> (r: Self)
        ensures
            r.view() == self.view(),
    {
        ExperienceNodeId(self.0.clone())
    }
}

impl BundleId {
    pub closed spec fn view(&self) -> Seq<char> {
        self.0@
    }

    /// The identity written as `value`, refused unless it is well formed.
    pub fn parse(value: &str) -> (r: Result<Self, Error>)
        ensures
            r is Ok <==> prefixed_digest("hk-bundle:"@, value@),
            r matches Ok(id) ==> id.view() == value@,
            r matches Err(e) ==> e is InvalidInput && e.message_spec() == digest_message("hk-bundle:"@),
    {
        match check_prefixed_digest("hk-bundle:", value) {
            Ok(()) => Ok(BundleId(String::from_str(value))),
            Err(e) => Err(e),
        }
    }

    /// The identity with the given digest.
    pub fn from_digest(digest: &str) -> (r: Result<Self, Error>)
        ensures
            r is Ok <==> prefixed_digest("hk-bundle:"@, "hk-bundle:"@ + digest@),
            r matches Ok(id) ==> id.view() == "hk-bundle:"@ + digest@,
    {
        let mut s = String::from_str("hk-bundle:");
        s.append(digest);
        Self::parse(s.as_str())
    }

    /// The identity's text.
    pub fn as_str(&self) -> (r: &str)
        ensures
            r@ == self.view(),
    {
        self.0.as_str()
    }
}

impl ProvenanceNodeId {
    pub closed spec fn view(&self) -> Seq<char> {
        self.0@
    }

    /// The identity written as `value`, refused unless it is well formed.
    pub fn parse(value: &str) -> (r: Result<Self, Error>)
        ensures
            r is Ok <==> prefixed_digest("hk-provenance:"@, value@),
            r matches Ok(id) ==> id.view() == value@,
            r matches Err(e) ==> e is InvalidInput && e.message_spec() == digest_message("hk-provenance:"@),
    {
        match check_prefixed_digest("hk-provenance:", value) {
            Ok(()) => Ok(ProvenanceNodeId(String::from_str(value))),
            Err(e) => Err(e),
        }
    }

    /// The identity with the given digest.
    pub fn from_digest(digest: &str) -> (r: Result<Self, Error>)
        ensures
            r is Ok <==> prefixed_digest("hk-provenance:"@, "hk-provenance:"@ + digest@),
            r matches Ok(id) ==> id.view() == "hk-provenance:"@ + digest@,
    {
        let mut s = String::from_str("hk-provenance:");
        s.append(digest);
        Self::parse(s.as_str())
    }

    /// The identity's text.
    pub fn as_str(&self) -> (r: &str)
        ensures
            r@ == self.view(),
    {
        self.0.as_str()
    }
}

// ------------------------------------------------------------------------------------------
// Nodes, bundles and portable evidence.
// ------------------------------------------------------------------------------------------

#[derive(Clone, Copy, Debug, PartialEq, Eq, Structural)]
pub enum ExperienceNodeType {
    LocalDeveloper,
    Repository,
    Team,
    Organization,
    Ci,
    AgentRuntime,
}

#[derive(Clone, Debug)]
pub struct NodePublicIdentity {
    pub algorithm: String,
    pub public_key: String,
}

#[derive(Clone, Debug)]
pub struct NodeCapabilities {
    pub schemas: Vec<String>,
    pub transports: Vec<String>,
}

#[derive(Clone, Copy, Debug, PartialEq, Eq, Structural)]
pub enum FederationVisibility {
    Private,
    Team,
}

#[derive(Clone, Debug)]
pub struct ExperienceObjectRef {
    pub kind: String,
    pub id: String,
}

#[derive(Clone, Debug)]
pub enum ExportScope {
    Object,
    SkillPackage,
    Repository,
    TaskFamily,
    Selected(Vec<ExperienceObjectRef>),
}

#[derive(Clone, Debug)]
pub struct BundleAncestry {
    pub parent_bundles: Vec<BundleId>,
    pub source_nodes: Vec<ExperienceNodeId>,
}

#[derive(Clone, Debug)]
pub struct EpistemicDependencies {
    pub model_family: Option<String>,
    pub agent_runtime: Option<String>,
    pub evaluator: Option<String>,
    pub environment_family: Option<String>,
    pub external_sources: Vec<String>,
}

#[derive(Clone, Copy, Debug, PartialEq, Eq, Structural)]
pub struct EvidenceDiversity {
    pub node_count: usize,
    pub agent_count: usize,
    pub repository_count: usize,
    pub context_count: usize,
}

/// The context remote evidence was gathered in; `versions` maps tool names to versions, in
/// increasing name order, each name once.
#[derive(Clone, Debug)]
pub struct EvidenceContext {
    pub repository_family: Option<String>,
    pub markers: Vec<String>,
    pub tags: Vec<String>,
    pub os: Option<String>,
    pub arch: Option<String>,
    pub versions: Vec<(String, String)>,
    pub environment_fingerprint: Option<String>,
}

#[derive(Clone, Debug)]
pub struct FederatedObjectIdentity {
    pub origin_node: ExperienceNodeId,
    pub origin_object_id: String,
    pub lineage_hash: String,
}

#[derive(Clone, Debug)]
pub struct PortableEvidenceSummary {
    pub support_count: usize,
    pub contradiction_count: usize,
    pub experiment_count: usize,
    pub application_count: usize,
    pub evaluation_summaries: Vec<String>,
    pub evidence_hashes: Vec<String>,
}

/// An experience as it travels between nodes; `created_at` is in Unix milliseconds.
#[derive(Clone, Debug)]
pub struct PortableExperience {
    pub identity: FederatedObjectIdentity,
    pub created_at: i64,
    pub goal: String,
    pub context: EvidenceContext,
    pub starting_state_hash: String,
    pub outcome: Outcome,
    pub evaluation_summary: String,
    pub originating_agent: AgentIdentity,
    pub dependencies: EpistemicDependencies,
    pub provenance_ref: ProvenanceNodeId,
}

#[derive(Clone, Debug)]
pub struct PortableExperimentSummary {
    pub identity: FederatedObjectIdentity,
    pub conclusion: String,
    pub trial_outcomes: Vec<Outcome>,
    pub starting_state_hash: String,
    pub evidence_hashes: Vec<String>,
    pub provenance_ref: ProvenanceNodeId,
}

#[derive(Clone, Debug)]
pub struct PortableOperatingEnvelope {
    pub identity: FederatedObjectIdentity,
    pub context: EvidenceContext,
    pub source_summary: String,
    pub tested_points: Vec<String>,
    pub evidence_hashes: Vec<String>,
    pub provenance_ref: ProvenanceNodeId,
}

#[derive(Clone, Copy, Debug, PartialEq, Eq, Structural)]
pub enum ProvenanceNodeKind {
    Experience,
    Experiment,
    Lesson,
    Skill,
    Reflex,
    Recovery,
    Bundle,
    Node,
}

#[derive(Clone, Debug)]
pub struct ProvenanceNode {
    pub id: ProvenanceNodeId,
    pub kind: ProvenanceNodeKind,
    pub external_id: String,
    pub node: ExperienceNodeId,
    pub lineage_hash: Option<String>,
    pub summary: String,
}

#[derive(Clone, Copy, Debug, PartialEq, Eq, Structural)]
pub enum ProvenanceRelationship {
    DerivedFrom,
    Supports,
    Contradicts,
    ExportedAs,
    ImportedFrom,
    ReproducedBy,
    Supersedes,
    Narrows,
}

#[derive(Clone, Debug)]
pub struct ProvenanceEdge {
    pub source: ProvenanceNodeId,
    pub target: ProvenanceNodeId,
    pub relationship: ProvenanceRelationship,
}

#[derive(Clone, Debug)]
pub struct ProvenanceGraph {
    pub nodes: Vec<ProvenanceNode>,
    pub edges: Vec<ProvenanceEdge>,
}

pub open spec fn provenance_ids(g: ProvenanceGraph) -> Seq<Seq<char>> {
    g.nodes@.map_values(|n: ProvenanceNode| n.id.view())
}

pub open spec fn duplicate_node_message() -> Seq<char> {
    "Duplicate provenance node ID"@
}

pub open spec fn edge_reference_message() -> Seq<char> {
    "Invalid provenance edge reference"@
}

/// Why a provenance graph's references are invalid: a node identity given twice, or an
/// edge whose end is not a node.
pub open spec fn provenance_error(g: ProvenanceGraph) -> Option<Seq<char>> {
    let ids = provenance_ids(g);
    if !ids.no_duplicates() {
        Some(duplicate_node_message())
    } else if exists|k: int| 0 <= k < g.edges@.len() && !(ids.contains(#[trigger] g.edges@[k].source.view()) && ids.contains(
        g.edges@[k].target.view(),
    )) {
        Some(edge_reference_message())
    } else {
        None
    }
}

fn node_listed(g: &ProvenanceGraph, id: &str) -> (r: bool)
    ensures
        r == provenance_ids(*g).contains(id@),
{
    let ghost ids = provenance_ids(*g);
    let mut i: usize = 0;
    while i < g.nodes.len()
        invariant
            i <= g.nodes@.len(),
            ids == provenance_ids(*g),
            forall|k: int| 0 <= k < i ==> #[trigger] ids[k] != id@,
        decreases g.nodes.len() - i,
    {
        if str_eq(g.nodes[i].id.as_str(), id) {
            assert(ids[i as int] == id@);
            return true;
        }
        i = i + 1;
    }
    false
}

impl ProvenanceGraph {
    /// Refuses a graph that names a node twice or has an edge to or from an unknown node.
    pub fn validate_references(&self) -> (r: Result<(), Error>)
        ensures
            r is Ok <==> provenance_error(*self) is None,
            r matches Err(e) ==> e is InvalidInput && provenance_error(*self) == Some(e.message_spec()),
    {
        let ghost ids = provenance_ids(*self);
        let mut i: usize = 0;
        while i < self.nodes.len()
            invariant
                i <= self.nodes@.len(),
                ids == provenance_ids(*self),
                forall|a: int, b: int| 0 <= a < b < i ==> #[trigger] ids[a] != #[trigger] ids[b],
            decreases self.nodes.len() - i,
        {
            let mut j: usize = 0;
            while j < i
                invariant
                    j <= i,
                    i < self.nodes@.len(),
                    ids == provenance_ids(*self),
                    forall|a: int| 0 <= a < j ==> #[trigger] ids[a] != ids[i as int],
                decreases i - j,
            {
                if str_eq(self.nodes[j].id.as_str(), self.nodes[i].id.as_str()) {
                    proof {
                        assert(ids[j as int] == ids[i as int]);
                        assert(!ids.no_duplicates());
                    }
                    return Err(Error::InvalidInput(String::from_str("Duplicate provenance node ID")));
                }
                j = j + 1;
            }
            i = i + 1;
        }
        assert(ids.no_duplicates());
        let mut k: usize = 0;
        while k < self.edges.len()
            invariant
                k <= self.edges@.len(),
                ids == provenance_ids(*self),
                ids.no_duplicates(),
                forall|q: int| 0 <= q < k ==> ids.contains(#[trigger] self.edges@[q].source.view()) && ids.contains(
                    self.edges@[q].target.view(),
                ),
            decreases self.edges.len() - k,
        {
            let e = &self.edges[k];
            if !node_listed(self, e.source.as_str()) || !node_listed(self, e.target.as_str()) {
                return Err(Error::InvalidInput(String::from_str("Invalid provenance edge reference")));
            }
            k = k + 1;
        }
        Ok(())
    }
}

// ------------------------------------------------------------------------------------------
// Trust and reproduction.
// ------------------------------------------------------------------------------------------

#[derive(Clone, Copy, Debug, PartialEq, Eq, Structural)]
pub enum TrustLevel {
    Untrusted,
    SignedUnknown,
    KnownPeer,
    TrustedPeer,
    LocallySupported,
    LocallyValidated,
}

#[derive(Clone, Copy, Debug, PartialEq, Eq, Structural)]
pub enum AuthenticityStatus {
    Unsigned,
    SignatureValid,
    SignatureInvalid,
    UnknownKey,
}

#[derive(Clone, Copy, Debug, PartialEq, Eq, Structural)]
pub enum ProducerTrust {
    Unknown,
    Known,
    Trusted,
    Blocked,
}

#[derive(Clone, Copy, Debug, PartialEq, Eq, Structural)]
pub enum ReproductionStatus {
    NotAttempted,
    Supports,
    Contradicts,
    Inconclusive,
    CannotReproduce,
}

#[derive(Clone, Copy, Debug, PartialEq, Eq, Structural)]
pub enum ContradictionStatus {
    NoContradiction,
    LocalContradiction,
    LocalConflict,
}

#[derive(Clone, Copy, Debug, PartialEq, Eq, Structural)]
pub enum FederatedExperienceState {
    Received,
    ContextMatched,
    ReproductionRecommended,
    LocallySupported,
    LocallyContradicted,
    LocallyValidated,
    Rejected,
    Retired,
}

#[derive(Clone, Copy, Debug, PartialEq, Eq, Structural)]
pub enum ReproductionResult {
    Supports,
    Contradicts,
    Inconclusive,
    CannotReproduce,
}

#[derive(Clone, Copy, Debug, PartialEq, Eq, Structural)]
pub enum FederatedConflictType {
    ClaimConflict,
    ActionConflict,
    EnvelopeConflict,
    RecoveryConflict,
    ScopeConflict,
    VersionConflict,
}

#[derive(Clone, Copy, Debug, PartialEq, Eq, Structural)]
pub enum ConflictStatus {
    Open,
    ExperimentRecommended,
    SupportedRemote,
    SupportedLocal,
    Inconclusive,
}

/// A reproduction result reported back to the node a piece of evidence came from.
#[derive(Clone, Debug)]
pub struct FederationFeedback {
    pub target_origin: FederatedObjectIdentity,
    pub reporting_node: ExperienceNodeId,
    pub result: ReproductionResult,
    pub context: EvidenceContext,
    pub evidence_refs: Vec<String>,
}

/// Limits on what a bundle may carry; sizes are in bytes.
#[derive(Clone, Copy, Debug, PartialEq, Eq, Structural)]
pub struct BundleLimits {
    pub max_bundle_bytes: u64,
    pub max_objects: usize,
    pub max_artifact_bytes: u64,
    pub max_nesting_depth: usize,
}

impl Default for BundleLimits {
    fn default() -> (r: Self)
        ensures
            r == (BundleLimits {
                max_bundle_bytes: 52_428_800,
                max_objects: 10_000,
                max_artifact_bytes: 10_485_760,
                max_nesting_depth: 32,
            }),
    {
        BundleLimits { max_bundle_bytes: 52_428_800, max_objects: 10_000, max_artifact_bytes: 10_485_760, max_nesting_depth: 32 }
    }
}

/// What an import did; `objects` names the federated objects it created.
#[derive(Clone, Debug)]
pub struct ImportReport {
    pub bundle_id: BundleId,
    pub producer: ExperienceNodeId,
    pub authenticity: AuthenticityStatus,
    pub producer_trust: ProducerTrust,
    pub imported: usize,
    pub duplicates: usize,
    pub state: String,
    pub objects: Vec<String>,
    pub recommended_action: Option<String>,
}

} // verus!
