//! Recorded experience: the context a run happened in and the outcome its evaluation gives.
use vstd::prelude::*;
use crate::common::ProcessStatus;
use crate::evaluation::{Evaluation, EvaluationStatus};
use crate::experimentation::EnvironmentMode;
use crate::text::views;

verus! {

/// Files whose presence marks a kind of project.
pub const MARKERS: [&'static str; 9] = [
    "package.json",
    "pnpm-workspace.yaml",
    "Cargo.toml",
    "go.mod",
    "pyproject.toml",
    "requirements.txt",
    "pom.xml",
    "build.gradle",
    "hardknock-fixture.json",
];

#[derive(Clone, Copy, Debug, PartialEq, Eq, Structural)]
pub enum Outcome {
    Success,
    Failure,
    Inconclusive,
    Interrupted,
    TimedOut,
}

pub open spec fn outcome_of(e: Evaluation) -> Outcome {
    match e.status {
        EvaluationStatus::NotConfigured => Outcome::Inconclusive,
        EvaluationStatus::Interrupted => Outcome::Interrupted,
        EvaluationStatus::TimedOut => Outcome::TimedOut,
        EvaluationStatus::Completed => if e.success { Outcome::Success } else { Outcome::Failure },
    }
}

impl Outcome {
    /// The outcome an evaluation reports: success or failure when it completed.
    pub fn from_evaluation(evaluation: &Evaluation) -> (r: Self)
        ensures
            r == outcome_of(*evaluation),
    {
        match evaluation.status {
            EvaluationStatus::NotConfigured => Outcome::Inconclusive,
            EvaluationStatus::Interrupted => Outcome::Interrupted,
            EvaluationStatus::TimedOut => Outcome::TimedOut,
            EvaluationStatus::Completed => if evaluation.success { Outcome::Success } else { Outcome::Failure },
        }
    }

    /// The process exit code that reports this outcome; an inconclusive outcome follows the
    /// process.
    pub fn exit_code(self, process: ProcessStatus) -> (r: u8)
        ensures
            r == (match self {
                Outcome::Success => 0u8,
                Outcome::Failure | Outcome::TimedOut => 1u8,
                Outcome::Interrupted => 5u8,
                Outcome::Inconclusive => match process {
                    ProcessStatus::Succeeded => 0u8,
                    ProcessStatus::Interrupted => 5u8,
                    _ => 1u8,
                },
            }),
    {
        match self {
            Outcome::Success => 0,
            Outcome::Failure | Outcome::TimedOut => 1,
            Outcome::Interrupted => 5,
            Outcome::Inconclusive => match process {
                ProcessStatus::Succeeded => 0,
                ProcessStatus::Interrupted => 5,
                _ => 1,
            },
        }
    }
}

/// The environment a run saw; `facts` is kept in increasing key order, each key once, and
/// `cwd` is the path of the working directory.
#[derive(Clone, Debug)]
pub struct EnvironmentContext {
    pub os: String,
    pub arch: String,
    pub cwd: String,
    pub mode: EnvironmentMode,
    pub facts: Vec<(String, String)>,
    pub fingerprint: String,
}

/// The repository a run happened in; `path` is the path of its root.
#[derive(Clone, Debug)]
pub struct RepositoryContext {
    pub path: String,
    pub name: String,
    pub commit: String,
    pub branch: Option<String>,
}

#[derive(Clone, Debug)]
pub struct ExperienceContext {
    pub repository: RepositoryContext,
    pub environment: EnvironmentContext,
    pub markers: Vec<String>,
    pub tags: Vec<String>,
}

#[derive(Clone, Debug)]
pub struct ReplaySpec {
    pub script: String,
    pub timeout_secs: u64,
}

#[derive(Clone, Debug)]
pub enum Perturbation {
    ReplaceCommand { from: String, to: String },
    Local { perturbation_id: String },
}

#[derive(Clone, Copy, Debug, PartialEq, Eq, Structural)]
pub enum SignatureSource {
    Evaluator,
    AgentOutput,
    Rule,
    Manual,
}

/// The artifacts kept as evidence, by path.
#[derive(Clone, Debug)]
pub struct EvidenceBundle {
    pub artifacts: Vec<String>,
}

/// The variables a controlled environment sets, in increasing key order, for a reality rooted
/// at `root`.
pub open spec fn controlled_variables(root: Seq<char>) -> Seq<(Seq<char>, Seq<char>)> {
    seq![
        ("HOME"@, root),
        ("LANG"@, "C"@),
        ("LC_ALL"@, "C"@),
        ("PATH"@, "/usr/bin:/bin"@),
        ("PWD"@, root),
        ("TZ"@, "UTC"@),
    ]
}

pub open spec fn pair_views(v: Seq<(String, String)>) -> Seq<(Seq<char>, Seq<char>)> {
    v.map_values(|p: (String, String)| (p.0@, p.1@))
}

fn pair(k: &str, v: &str) -> (r: (String, String))
    ensures
        r.0@ == k@,
        r.1@ == v@,
{
    (String::from_str(k), String::from_str(v))
}

/// The environment a controlled run gets: a fixed search path, the C locale, UTC, and the
/// reality's root as home and working directory.
pub fn controlled_environment(root: &str) -> (r: Vec<(String, String)>)
    ensures
        pair_views(r@) == controlled_variables(root@),
{
    let mut r: Vec<(String, String)> = Vec::new();
    r.push(pair("HOME", root));
    r.push(pair("LANG", "C"));
    r.push(pair("LC_ALL", "C"));
    r.push(pair("PATH", "/usr/bin:/bin"));
    r.push(pair("PWD", root));
    r.push(pair("TZ", "UTC"));
    assert(pair_views(r@) =~= controlled_variables(root@));
    r
}

/// The fixture kinds that earn a tag.
pub open spec fn known_fixture_kind(k: Seq<char>) -> bool {
    k == "pnpm-workspace-conflict"@ || k == "pnpm-workspace-transfer"@ || k == "pnpm-workspace-contradiction"@
        || k == "npm-ordinary"@ || k == "retry-resilience"@ || k == "stale-credential"@ || k == "config-drift"@
}

pub open spec fn workspace_fixture_kind(k: Seq<char>) -> bool {
    k == "pnpm-workspace-conflict"@ || k == "pnpm-workspace-transfer"@ || k == "pnpm-workspace-contradiction"@
}

/// The tags of a context: one per marker present, then the fixture's kind where it is a known
/// one, then the workspace family of version-2 workspace fixtures.
pub open spec fn context_tags(markers: Seq<Seq<char>>, kind: Option<Seq<char>>, version: Option<i64>) -> Seq<Seq<char>> {
    let marker_tags = markers.map_values(|m: Seq<char>| "marker:"@ + m);
    match kind {
        Some(k) => if known_fixture_kind(k) {
            let t = marker_tags.push("fixture-kind:"@ + k);
            if version == Some(2i64) && workspace_fixture_kind(k) {
                t.push("fixture-family:pnpm-workspace-v2"@)
            } else {
                t
            }
        } else {
            marker_tags
        },
        None => marker_tags,
    }
}

/// The tags of a context with the given markers and fixture metadata (its `kind` and
/// `version`, where the fixture file has them).
pub fn context_tags_for(markers: &Vec<String>, fixture_kind: Option<&str>, fixture_version: Option<i64>) -> (r: Vec<String>)
    ensures
        views(r@) == context_tags(views(markers@), match fixture_kind {
            Some(k) => Some(k@),
            None => None,
        }, fixture_version),
{
    let mut r: Vec<String> = Vec::new();
    let mut i: usize = 0;
    while i < markers.len()
        invariant
            i <= markers@.len(),
            views(r@) == views(markers@).subrange(0, i as int).map_values(|m: Seq<char>| "marker:"@ + m),
        decreases markers.len() - i,
    {
        let mut t = String::from_str("marker:");
        t.append(markers[i].as_str());
        let ghost r0 = r@;
        r.push(t);
        proof {
            assert(views(r@) =~= views(r0).push("marker:"@ + markers@[i as int]@));
            assert(views(markers@).subrange(0, i as int + 1).map_values(|m: Seq<char>| "marker:"@ + m) =~= views(
                markers@,
            ).subrange(0, i as int).map_values(|m: Seq<char>| "marker:"@ + m).push("marker:"@ + markers@[i as int]@));
        }
        i = i + 1;
    }
    assert(views(markers@).subrange(0, markers@.len() as int) =~= views(markers@));
    if let Some(kind) = fixture_kind {
        let known = crate::text::str_eq(kind, "pnpm-workspace-conflict") || crate::text::str_eq(kind, "pnpm-workspace-transfer")
            || crate::text::str_eq(kind, "pnpm-workspace-contradiction") || crate::text::str_eq(kind, "npm-ordinary")
            || crate::text::str_eq(kind, "retry-resilience") || crate::text::str_eq(kind, "stale-credential")
            || crate::text::str_eq(kind, "config-drift");
        if known {
            let mut t = String::from_str("fixture-kind:");
            t.append(kind);
            let ghost r0 = r@;
            r.push(t);
            assert(views(r@) =~= views(r0).push("fixture-kind:"@ + kind@));
            let workspace = crate::text::str_eq(kind, "pnpm-workspace-conflict")
                || crate::text::str_eq(kind, "pnpm-workspace-transfer")
                || crate::text::str_eq(kind, "pnpm-workspace-contradiction");
            let v2 = match fixture_version {
                Some(v) => v == 2,
                None => false,
            };
            if v2 && workspace {
                let ghost r1 = r@;
                r.push(String::from_str("fixture-family:pnpm-workspace-v2"));
                assert(views(r@) =~= views(r1).push("fixture-family:pnpm-workspace-v2"@));
            }
        }
    }
    r
}

} // verus!
