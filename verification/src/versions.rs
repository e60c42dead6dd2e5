//! Semantic-version requirements, read through the `semver` crate.
use vstd::prelude::*;
use semver::Op;

verus! {

/// The operator of one comparator of a version requirement.
#[derive(Clone, Copy, Debug, PartialEq, Eq, Structural)]
pub enum ComparatorOp {
    Exact,
    Greater,
    GreaterEq,
    Less,
    LessEq,
    Tilde,
    Caret,
    Wildcard,
    /// An operator this library does not interpret.
    Other,
}

/// One comparator of a parsed requirement, as plain values.
#[derive(Clone, Debug)]
pub struct SemverComparator {
    pub op: ComparatorOp,
    pub major: u64,
    pub minor: Option<u64>,
    pub patch: Option<u64>,
    /// The pre-release text of the comparator, empty for a release comparator.
    pub prerelease: String,
}

/// The comparators that `semver::VersionReq::parse` reads from a requirement text, or
/// `None` where it rejects the text.
pub uninterp spec fn semver_requirement(text: Seq<char>) -> Option<Seq<SemverComparator>>;

/// Whether `semver::VersionReq::parse(requirement)` admits `semver::Version::parse(version)`
/// by `VersionReq::matches`; `None` where either text does not parse.
pub uninterp spec fn semver_match(requirement: Seq<char>, version: Seq<char>) -> Option<bool>;

/// Calls `semver::VersionReq::parse` and hands out its comparators one for one. Claims only
/// that the result is the named parse of the text; what `semver` accepts is not restated.
#[verifier::external_body]
pub(crate) fn parse_requirement(text: &str) -> (r: Option<Vec<SemverComparator>>)
    ensures
        match r {
            Some(c) => semver_requirement(text@) == Some(c@),
            None => semver_requirement(text@) is None,
        },
{
    let req = semver::VersionReq::parse(text).ok()?;
    Some(req.comparators.iter().map(|c| SemverComparator {
        op: match c.op { Op::Exact => ComparatorOp::Exact, Op::Greater => ComparatorOp::Greater,
            Op::GreaterEq => ComparatorOp::GreaterEq, Op::Less => ComparatorOp::Less,
            Op::LessEq => ComparatorOp::LessEq, Op::Tilde => ComparatorOp::Tilde,
            Op::Caret => ComparatorOp::Caret, Op::Wildcard => ComparatorOp::Wildcard,
            _ => ComparatorOp::Other },
        major: c.major, minor: c.minor, patch: c.patch, prerelease: c.pre.as_str().to_string(),
    }).collect())
}

/// Parses both texts with `semver` (`VersionReq::parse`, `Version::parse`) and asks
/// `VersionReq::matches`. Claims that the result is the named match, and, as the body
/// shows, that a requirement that does not parse gives `None`.
#[verifier::external_body]
pub(crate) fn requirement_matches(requirement: &str, version: &str) -> (r: Option<bool>)
    ensures
        r == semver_match(requirement@, version@),
        semver_requirement(requirement@) is None ==> r is None,
{
    let req = semver::VersionReq::parse(requirement).ok()?;
    let version = semver::Version::parse(version).ok()?;
    Some(req.matches(&version))
}

} // verus!
