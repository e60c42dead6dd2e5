//! Containment between scopes. A scope is a product of per-key domains; repeated
//! constraints on a key are normalised into one domain before containment is decided.
use vstd::prelude::*;
use crate::hierarchy::scope::{
    predicate_key, value_same, KnowledgeScope, ScopePredicate, ScopeValue,
};
use crate::versions::{
    parse_requirement, requirement_matches, semver_match, semver_requirement, ComparatorOp,
    SemverComparator,
};

verus! {

/// How one scope relates to another.
#[derive(Clone, Copy, Debug, PartialEq, Eq, Structural)]
pub enum ScopeRelation {
    Equal,
    Narrower,
    Broader,
    Overlapping,
    Disjoint,
    Unknown,
}

/// A release version as (major, minor, patch).
pub type Release = (u64, u64, u64);

/// Release order.
pub open spec fn release_le(a: Release, b: Release) -> bool {
    a.0 < b.0 || (a.0 == b.0 && (a.1 < b.1 || (a.1 == b.1 && a.2 <= b.2)))
}

/// A half-open interval `[lower, upper)` of releases; no upper bound where `upper` is `None`.
#[derive(Clone, Copy, Debug)]
pub struct VersionInterval {
    pub lower: Release,
    pub upper: Option<Release>,
}

/// A closed range of integers.
#[derive(Clone, Copy, Debug)]
pub struct IntRange {
    pub low: i64,
    pub high: i64,
}

/// The normalised constraints on one key.
#[verifier::ext_equal]
pub ghost struct DomainModel {
    pub finite: Option<Seq<ScopeValue>>,
    pub excluded: Seq<ScopeValue>,
    pub integer: Option<IntRange>,
    pub versions: Seq<Seq<char>>,
    pub interval: Option<VersionInterval>,
}

pub open spec fn holds_value(s: Seq<ScopeValue>, v: ScopeValue) -> bool {
    exists|i: int| 0 <= i < s.len() && value_same(#[trigger] s[i], v)
}

/// A version requirement admits a context value.
pub open spec fn version_admits(requirement: Seq<char>, v: ScopeValue) -> bool {
    match v {
        ScopeValue::Version(s) => semver_match(requirement, s@) == Some(true),
        ScopeValue::String(s) => semver_match(requirement, s@) == Some(true),
        _ => false,
    }
}

/// The domain admits the value.
pub open spec fn accepts(d: DomainModel, v: ScopeValue) -> bool {
    &&& !holds_value(d.excluded, v)
    &&& (d.finite is None || holds_value(d.finite->0, v))
    &&& (d.integer is None || (match v {
        ScopeValue::Integer(n) => d.integer->0.low <= n <= d.integer->0.high,
        _ => false,
    }))
    &&& forall|i: int| 0 <= i < d.versions.len() ==> version_admits(#[trigger] d.versions[i], v)
}

/// The domain is empty by its constraints.
pub open spec fn domain_empty(d: DomainModel) -> bool {
    ||| (d.integer is Some && d.integer->0.low > d.integer->0.high)
    ||| (d.finite is Some && d.finite->0.len() == 0)
    ||| (d.interval is Some && d.interval->0.upper is Some && release_le(d.interval->0.upper->0, d.interval->0.lower))
}

/// The requirement text is among `x`.
pub open spec fn version_listed(x: Seq<Seq<char>>, r: Seq<char>) -> bool {
    exists|j: int| 0 <= j < x.len() && #[trigger] x[j] == r
}

pub open spec fn versions_within(x: Seq<Seq<char>>, o: Seq<Seq<char>>) -> bool {
    forall|i: int| 0 <= i < o.len() ==> version_listed(x, #[trigger] o[i])
}

/// Whether every value of `x` is a value of `o`, where that can be decided.
pub open spec fn domain_subset(x: DomainModel, o: DomainModel) -> Option<bool> {
    if domain_empty(x) {
        Some(true)
    } else if x.finite is Some {
        Some(forall|i: int| 0 <= i < x.finite->0.len() ==> accepts(o, #[trigger] x.finite->0[i]))
    } else if o.finite is Some {
        Some(false)
    } else if !(forall|i: int| 0 <= i < o.excluded.len() ==> !accepts(x, #[trigger] o.excluded[i])) {
        Some(false)
    } else if o.integer is Some && !(x.integer is Some && x.integer->0.low >= o.integer->0.low
        && x.integer->0.high <= o.integer->0.high) {
        Some(false)
    } else if !versions_within(x.versions, o.versions) {
        if x.versions.len() == 0 {
            Some(false)
        } else {
            match (x.interval, o.interval) {
                (Some(a), Some(b)) => Some(release_le(b.lower, a.lower) && (b.upper is None || (a.upper is Some
                    && release_le(a.upper->0, b.upper->0)))),
                _ => None,
            }
        }
    } else {
        Some(true)
    }
}

/// Whether `x` and `o` share no value, where that can be decided.
pub open spec fn domain_disjoint(x: DomainModel, o: DomainModel) -> Option<bool> {
    if domain_empty(x) || domain_empty(o) {
        Some(true)
    } else if x.finite is Some {
        Some(forall|i: int| 0 <= i < x.finite->0.len() ==> !accepts(o, #[trigger] x.finite->0[i]))
    } else if o.finite is Some {
        Some(forall|i: int| 0 <= i < o.finite->0.len() ==> !accepts(x, #[trigger] o.finite->0[i]))
    } else if x.integer is Some && o.integer is Some {
        Some(x.integer->0.high < o.integer->0.low || o.integer->0.high < x.integer->0.low)
    } else if (x.integer is Some && o.versions.len() > 0) || (o.integer is Some && x.versions.len() > 0) {
        Some(true)
    } else if x.versions.len() > 0 || o.versions.len() > 0 {
        match (x.interval, o.interval) {
            (Some(a), Some(b)) => Some((a.upper is Some && release_le(a.upper->0, b.lower)) || (b.upper is Some
                && release_le(b.upper->0, a.lower))),
            _ => None,
        }
    } else {
        Some(false)
    }
}

// ------------------------------------------------------------------------------------------
// Version requirements as release intervals.
// ------------------------------------------------------------------------------------------

pub open spec fn next_release(v: Release) -> Option<Release> {
    if v.2 < u64::MAX {
        Some((v.0, v.1, (v.2 + 1) as u64))
    } else if v.1 < u64::MAX {
        Some((v.0, (v.1 + 1) as u64, 0))
    } else if v.0 < u64::MAX {
        Some(((v.0 + 1) as u64, 0, 0))
    } else {
        None
    }
}

pub open spec fn next_minor(major: u64, minor: u64) -> Option<Release> {
    if minor < u64::MAX { Some((major, (minor + 1) as u64, 0)) } else { None }
}

pub open spec fn next_major(major: u64) -> Option<Release> {
    if major < u64::MAX { Some(((major + 1) as u64, 0, 0)) } else { None }
}

pub open spec fn comparator_lower(c: SemverComparator) -> Release {
    (c.major, if c.minor is Some { c.minor->0 } else { 0 }, if c.patch is Some { c.patch->0 } else { 0 })
}

/// The first release past what a partial comparator names.
pub open spec fn partial_upper(c: SemverComparator) -> Option<Release> {
    if c.patch is Some {
        next_release(comparator_lower(c))
    } else if c.minor is Some {
        next_minor(c.major, c.minor->0)
    } else {
        next_major(c.major)
    }
}

/// The bounds one comparator sets, or `None` where it cannot be read as an interval.
pub open spec fn comparator_bounds(c: SemverComparator) -> Option<(Option<Release>, Option<Release>)> {
    let lower = comparator_lower(c);
    match c.op {
        ComparatorOp::Exact | ComparatorOp::Wildcard => match partial_upper(c) {
            Some(u) => Some((Some(lower), Some(u))),
            None => None,
        },
        ComparatorOp::Greater => match partial_upper(c) {
            Some(u) => Some((Some(u), None)),
            None => None,
        },
        ComparatorOp::GreaterEq => Some((Some(lower), None)),
        ComparatorOp::Less => Some((None, Some(lower))),
        ComparatorOp::LessEq => match partial_upper(c) {
            Some(u) => Some((None, Some(u))),
            None => None,
        },
        ComparatorOp::Tilde => match (if c.minor is Some { next_minor(c.major, c.minor->0) } else { next_major(c.major) }) {
            Some(u) => Some((Some(lower), Some(u))),
            None => None,
        },
        ComparatorOp::Caret => match (if c.major > 0 || c.minor is None {
            next_major(c.major)
        } else if c.minor->0 > 0 || c.patch is None {
            next_minor(0, c.minor->0)
        } else if c.patch->0 < u64::MAX {
            Some((0u64, 0u64, (c.patch->0 + 1) as u64))
        } else {
            None
        }) {
            Some(u) => Some((Some(lower), Some(u))),
            None => None,
        },
        ComparatorOp::Other => None,
    }
}

pub open spec fn release_max(a: Release, b: Release) -> Release {
    if release_le(a, b) { b } else { a }
}

pub open spec fn release_min(a: Release, b: Release) -> Release {
    if release_le(a, b) { a } else { b }
}

/// Narrows the interval by one comparator; `None` for a pre-release or unreadable comparator.
pub open spec fn narrow(iv: VersionInterval, c: SemverComparator) -> Option<VersionInterval> {
    if c.prerelease@.len() > 0 {
        None
    } else {
        match comparator_bounds(c) {
            None => None,
            Some((lo, hi)) => Some(VersionInterval {
                lower: if lo is Some { release_max(iv.lower, lo->0) } else { iv.lower },
                upper: if hi is Some {
                    Some(if iv.upper is Some { release_min(iv.upper->0, hi->0) } else { hi->0 })
                } else {
                    iv.upper
                },
            }),
        }
    }
}

pub open spec fn narrow_all(iv: Option<VersionInterval>, cs: Seq<SemverComparator>) -> Option<VersionInterval>
    decreases cs.len(),
{
    if cs.len() == 0 {
        iv
    } else {
        match narrow_all(iv, cs.drop_last()) {
            None => None,
            Some(i) => narrow(i, cs.last()),
        }
    }
}

/// The interval that all requirements together admit, or `None` where one of them does not
/// parse or cannot be read as an interval.
pub open spec fn requirements_interval(reqs: Seq<Seq<char>>) -> Option<VersionInterval>
    decreases reqs.len(),
{
    if reqs.len() == 0 {
        Some(VersionInterval { lower: (0, 0, 0), upper: None })
    } else {
        match semver_requirement(reqs.last()) {
            None => None,
            Some(cs) => narrow_all(requirements_interval(reqs.drop_last()), cs),
        }
    }
}

// ------------------------------------------------------------------------------------------
// Domains of a scope.
// ------------------------------------------------------------------------------------------

pub open spec fn empty_domain() -> DomainModel {
    DomainModel { finite: None, excluded: seq![], integer: None, versions: seq![], interval: None }
}

/// Keeps only the values of `set` among the values the domain enumerates.
pub open spec fn restrict(d: DomainModel, set: Seq<ScopeValue>) -> DomainModel {
    DomainModel {
        finite: Some(match d.finite {
            Some(old) => old.filter(|v: ScopeValue| holds_value(set, v)),
            None => set,
        }),
        ..d
    }
}

/// The domain after one more predicate on its key.
pub open spec fn apply_predicate(d: DomainModel, p: ScopePredicate) -> DomainModel {
    match p {
        ScopePredicate::Equals { value, .. } => restrict(d, seq![value]),
        ScopePredicate::Bool { expected, .. } => restrict(d, seq![ScopeValue::Boolean(expected)]),
        ScopePredicate::In { values, .. } => restrict(d, values@),
        ScopePredicate::NotEquals { value, .. } => DomainModel { excluded: d.excluded.push(value), ..d },
        ScopePredicate::IntegerRange { min, max, .. } => {
            let r = if d.integer is Some { d.integer->0 } else { IntRange { low: i64::MIN, high: i64::MAX } };
            let a = r.low;
            let b = r.high;
            let lo = if min is Some { min->0 } else { i64::MIN };
            let hi = if max is Some { max->0 } else { i64::MAX };
            DomainModel { integer: Some(IntRange { low: if a >= lo { a } else { lo }, high: if b <= hi { b } else { hi } }), ..d }
        },
        ScopePredicate::VersionRange { requirement, .. } => if d.versions.contains(requirement@) {
            d
        } else {
            DomainModel { versions: d.versions.push(requirement@), ..d }
        },
        _ => d,
    }
}

/// The index of the entry for `k` at or after `i`, or -1.
pub open spec fn find_from(m: Seq<(Seq<char>, DomainModel)>, k: Seq<char>, i: int) -> int
    decreases m.len() - i,
{
    if i < 0 || i >= m.len() {
        -1
    } else if m[i].0 == k {
        i
    } else {
        find_from(m, k, i + 1)
    }
}

/// The raw per-key domains of a list of predicates, in order of first appearance of each
/// key; `None` where a predicate is custom or a version requirement does not parse.
pub open spec fn raw_domains(ps: Seq<ScopePredicate>) -> Option<Seq<(Seq<char>, DomainModel)>>
    decreases ps.len(),
{
    if ps.len() == 0 {
        Some(seq![])
    } else {
        match raw_domains(ps.drop_last()) {
            None => None,
            Some(m) => {
                let p = ps.last();
                match predicate_key(p) {
                    None => None,
                    Some(k) => if (match p {
                        ScopePredicate::VersionRange { requirement, .. } => semver_requirement(requirement@) is None,
                        _ => false,
                    }) {
                        None
                    } else {
                        let i = find_from(m, k, 0);
                        if i < 0 {
                            Some(m.push((k, apply_predicate(empty_domain(), p))))
                        } else {
                            Some(m.update(i, (k, apply_predicate(m[i].1, p))))
                        }
                    },
                }
            },
        }
    }
}

/// A raw domain with its version interval computed and its enumerated values reduced to
/// those its other constraints admit.
pub open spec fn normalize(d: DomainModel) -> DomainModel {
    let d1 = DomainModel {
        interval: if d.versions.len() > 0 { requirements_interval(d.versions) } else { None },
        ..d
    };
    let open = DomainModel { finite: None, ..d1 };
    DomainModel {
        finite: match d1.finite {
            Some(s) => Some(s.filter(|v: ScopeValue| accepts(open, v))),
            None => None,
        },
        ..d1
    }
}

/// The normalised per-key domains of a scope.
pub open spec fn scope_domains(ps: Seq<ScopePredicate>) -> Option<Seq<(Seq<char>, DomainModel)>> {
    match raw_domains(ps) {
        None => None,
        Some(m) => Some(m.map_values(|e: (Seq<char>, DomainModel)| (e.0, normalize(e.1)))),
    }
}

pub open spec fn has_dim(m: Seq<(Seq<char>, DomainModel)>, k: Seq<char>) -> bool {
    exists|i: int| 0 <= i < m.len() && (#[trigger] m[i]).0 == k
}

/// A test on the domains two scopes give one key.
#[derive(Clone, Copy, Debug, PartialEq, Eq, Structural)]
pub enum PairTest {
    NotContained,
    ContainmentUnknown,
    Separate,
    SeparationUnknown,
}

pub open spec fn pair_test_holds(t: PairTest, x: DomainModel, y: DomainModel) -> bool {
    match t {
        PairTest::NotContained => domain_subset(x, y) == Some(false),
        PairTest::ContainmentUnknown => domain_subset(x, y) is None,
        PairTest::Separate => domain_disjoint(x, y) == Some(true),
        PairTest::SeparationUnknown => domain_disjoint(x, y) is None,
    }
}

/// Entry `i` of `ma` and entry `j` of `mb` constrain the same key and pass the test.
pub open spec fn pair_at(ma: Seq<(Seq<char>, DomainModel)>, mb: Seq<(Seq<char>, DomainModel)>, i: int, j: int, t: PairTest) -> bool {
    ma[i].0 == mb[j].0 && pair_test_holds(t, ma[i].1, mb[j].1)
}

/// Some key constrained by both scopes whose domains pass the test.
pub open spec fn shared_key_where(ma: Seq<(Seq<char>, DomainModel)>, mb: Seq<(Seq<char>, DomainModel)>, t: PairTest) -> bool {
    exists|i: int, j: int| 0 <= i < ma.len() && 0 <= j < mb.len() && #[trigger] pair_at(ma, mb, i, j, t)
}

/// Some key constrained by `ma` and not by `mb`.
pub open spec fn key_only_in(ma: Seq<(Seq<char>, DomainModel)>, mb: Seq<(Seq<char>, DomainModel)>) -> bool {
    exists|i: int| 0 <= i < ma.len() && !has_dim(mb, (#[trigger] ma[i]).0)
}

/// Whether the scope with domains `ma` lies within the one with domains `mb`: no when a key
/// of `mb` is unconstrained in `ma` or a shared key is not contained, unknown when a shared
/// key cannot be decided.
pub open spec fn contained(ma: Seq<(Seq<char>, DomainModel)>, mb: Seq<(Seq<char>, DomainModel)>) -> Option<bool> {
    if key_only_in(mb, ma) || shared_key_where(ma, mb, PairTest::NotContained) {
        Some(false)
    } else if shared_key_where(ma, mb, PairTest::ContainmentUnknown) {
        None
    } else {
        Some(true)
    }
}

/// The relation between two scopes.
pub open spec fn scope_relation(a: Seq<ScopePredicate>, b: Seq<ScopePredicate>) -> ScopeRelation {
    match (scope_domains(a), scope_domains(b)) {
        (Some(ma), Some(mb)) => {
            if (exists|i: int| 0 <= i < ma.len() && domain_empty((#[trigger] ma[i]).1)) || (exists|i: int|
                0 <= i < mb.len() && domain_empty((#[trigger] mb[i]).1)) {
                ScopeRelation::Disjoint
            } else if shared_key_where(ma, mb, PairTest::Separate) {
                ScopeRelation::Disjoint
            } else {
                let ab = contained(ma, mb);
                let ba = contained(mb, ma);
                if ab == Some(true) && ba == Some(true) {
                    ScopeRelation::Equal
                } else if ab == Some(true) && ba == Some(false) {
                    ScopeRelation::Narrower
                } else if ab == Some(false) && ba == Some(true) {
                    ScopeRelation::Broader
                } else if !shared_key_where(ma, mb, PairTest::SeparationUnknown) {
                    ScopeRelation::Overlapping
                } else {
                    ScopeRelation::Unknown
                }
            }
        },
        _ => ScopeRelation::Unknown,
    }
}

// ------------------------------------------------------------------------------------------
// Executable domains.
// ------------------------------------------------------------------------------------------

struct Domain {
    finite: Option<Vec<ScopeValue>>,
    excluded: Vec<ScopeValue>,
    integer: Option<IntRange>,
    versions: Vec<String>,
    interval: Option<VersionInterval>,
}

pub open spec fn string_views(s: Seq<String>) -> Seq<Seq<char>> {
    s.map_values(|x: String| x@)
}

impl Domain {
    spec fn model(&self) -> DomainModel {
        DomainModel {
            finite: match self.finite {
                Some(v) => Some(v@),
                None => None,
            },
            excluded: self.excluded@,
            integer: self.integer,
            versions: string_views(self.versions@),
            interval: self.interval,
        }
    }
}

fn holds_value_exec(s: &Vec<ScopeValue>, v: &ScopeValue) -> (r: bool)
    ensures
        r == holds_value(s@, *v),
{
    let mut i: usize = 0;
    while i < s.len()
        invariant
            i <= s@.len(),
            forall|k: int| 0 <= k < i ==> !value_same(#[trigger] s@[k], *v),
        decreases s.len() - i,
    {
        if s[i].same_as(v) {
            return true;
        }
        i = i + 1;
    }
    false
}

fn version_admits_exec(requirement: &str, v: &ScopeValue) -> (r: bool)
    ensures
        r == version_admits(requirement@, *v),
{
    match v {
        ScopeValue::Version(s) => matches!(requirement_matches(requirement, s.as_str()), Some(true)),
        ScopeValue::String(s) => matches!(requirement_matches(requirement, s.as_str()), Some(true)),
        _ => false,
    }
}

fn accepts_exec(d: &Domain, v: &ScopeValue) -> (r: bool)
    ensures
        r == accepts(d.model(), *v),
{
    if holds_value_exec(&d.excluded, v) {
        return false;
    }
    match &d.finite {
        Some(f) => {
            if !holds_value_exec(f, v) {
                return false;
            }
        },
        None => {},
    }
    match d.integer {
        Some(range) => {
            let inside = match v {
                ScopeValue::Integer(n) => range.low <= *n && *n <= range.high,
                _ => false,
            };
            if !inside {
                return false;
            }
        },
        None => {},
    }
    let mut i: usize = 0;
    while i < d.versions.len()
        invariant
            i <= d.versions@.len(),
            forall|k: int| 0 <= k < i ==> version_admits(#[trigger] string_views(d.versions@)[k], *v),
        decreases d.versions.len() - i,
    {
        if !version_admits_exec(d.versions[i].as_str(), v) {
            proof {
                assert(string_views(d.versions@)[i as int] == d.versions@[i as int]@);
                assert(d.model().versions == string_views(d.versions@));
                assert(!version_admits(d.model().versions[i as int], *v));
            }
            return false;
        }
        proof {
            assert(string_views(d.versions@)[i as int] == d.versions@[i as int]@);
        }
        i = i + 1;
    }
    true
}

fn release_le_exec(a: Release, b: Release) -> (r: bool)
    ensures
        r == release_le(a, b),
{
    a.0 < b.0 || (a.0 == b.0 && (a.1 < b.1 || (a.1 == b.1 && a.2 <= b.2)))
}

fn domain_empty_exec(d: &Domain) -> (r: bool)
    ensures
        r == domain_empty(d.model()),
{
    if let Some(range) = d.integer {
        if range.low > range.high {
            return true;
        }
    }
    if let Some(f) = &d.finite {
        if f.len() == 0 {
            return true;
        }
    }
    if let Some(iv) = d.interval {
        if let Some(u) = iv.upper {
            if release_le_exec(u, iv.lower) {
                return true;
            }
        }
    }
    false
}

/// Whether every value of `s` passes `accepts` in `o` (or, with `negate`, none does).
fn all_accepted(s: &Vec<ScopeValue>, o: &Domain, negate: bool) -> (r: bool)
    ensures
        !negate ==> r == (forall|i: int| 0 <= i < s@.len() ==> accepts(o.model(), #[trigger] s@[i])),
        negate ==> r == (forall|i: int| 0 <= i < s@.len() ==> !accepts(o.model(), #[trigger] s@[i])),
{
    let mut i: usize = 0;
    while i < s.len()
        invariant
            i <= s@.len(),
            !negate ==> forall|k: int| 0 <= k < i ==> accepts(o.model(), #[trigger] s@[k]),
            negate ==> forall|k: int| 0 <= k < i ==> !accepts(o.model(), #[trigger] s@[k]),
        decreases s.len() - i,
    {
        let a = accepts_exec(o, &s[i]);
        if a == negate {
            return false;
        }
        i = i + 1;
    }
    true
}

fn versions_within_exec(x: &Vec<String>, o: &Vec<String>) -> (r: bool)
    ensures
        r == versions_within(string_views(x@), string_views(o@)),
{
    let ghost xs = string_views(x@);
    let ghost os = string_views(o@);
    let mut i: usize = 0;
    while i < o.len()
        invariant
            i <= o@.len(),
            xs == string_views(x@),
            os == string_views(o@),
            forall|k: int| 0 <= k < i ==> version_listed(xs, #[trigger] os[k]),
        decreases o.len() - i,
    {
        let mut j: usize = 0;
        let mut found = false;
        while j < x.len() && !found
            invariant
                j <= x@.len(),
                i < o@.len(),
                xs == string_views(x@),
                os == string_views(o@),
                found ==> version_listed(xs, os[i as int]),
                !found ==> forall|m: int| 0 <= m < j ==> #[trigger] xs[m] != os[i as int],
            decreases x.len() - j,
        {
            if crate::text::str_eq(x[j].as_str(), o[i].as_str()) {
                proof {
                    assert(xs[j as int] == os[i as int]);
                }
                found = true;
            }
            j = j + 1;
        }
        if !found {
            proof {
                assert(!version_listed(xs, os[i as int]));
            }
            return false;
        }
        i = i + 1;
    }
    true
}

fn domain_subset_exec(x: &Domain, o: &Domain) -> (r: Option<bool>)
    ensures
        r == domain_subset(x.model(), o.model()),
{
    if domain_empty_exec(x) {
        return Some(true);
    }
    if let Some(f) = &x.finite {
        proof {
            assert(x.model().finite->0 == f@);
        }
        return Some(all_accepted(f, o, false));
    }
    if o.finite.is_some() {
        return Some(false);
    }
    proof {
        assert(o.model().excluded == o.excluded@);
    }
    if !all_accepted(&o.excluded, x, true) {
        return Some(false);
    }
    if let Some(orange) = o.integer {
        let inside = match x.integer {
            Some(xrange) => xrange.low >= orange.low && xrange.high <= orange.high,
            None => false,
        };
        if !inside {
            return Some(false);
        }
    }
    if !versions_within_exec(&x.versions, &o.versions) {
        if x.versions.len() == 0 {
            return Some(false);
        }
        return match (x.interval, o.interval) {
            (Some(a), Some(b)) => {
                let upper_ok = match b.upper {
                    None => true,
                    Some(bu) => match a.upper {
                        Some(au) => release_le_exec(au, bu),
                        None => false,
                    },
                };
                Some(release_le_exec(b.lower, a.lower) && upper_ok)
            },
            _ => None,
        };
    }
    Some(true)
}

fn domain_disjoint_exec(x: &Domain, o: &Domain) -> (r: Option<bool>)
    ensures
        r == domain_disjoint(x.model(), o.model()),
{
    if domain_empty_exec(x) || domain_empty_exec(o) {
        return Some(true);
    }
    if let Some(f) = &x.finite {
        proof {
            assert(x.model().finite->0 == f@);
        }
        return Some(all_accepted(f, o, true));
    }
    if let Some(f) = &o.finite {
        proof {
            assert(o.model().finite->0 == f@);
        }
        return Some(all_accepted(f, x, true));
    }
    if let (Some(a), Some(b)) = (x.integer, o.integer) {
        return Some(a.high < b.low || b.high < a.low);
    }
    if (x.integer.is_some() && o.versions.len() > 0) || (o.integer.is_some() && x.versions.len() > 0) {
        return Some(true);
    }
    if x.versions.len() > 0 || o.versions.len() > 0 {
        return match (x.interval, o.interval) {
            (Some(a), Some(b)) => {
                let a_below = match a.upper {
                    Some(au) => release_le_exec(au, b.lower),
                    None => false,
                };
                let b_below = match b.upper {
                    Some(bu) => release_le_exec(bu, a.lower),
                    None => false,
                };
                Some(a_below || b_below)
            },
            _ => None,
        };
    }
    Some(false)
}

// ------------------------------------------------------------------------------------------
// Executable version intervals.
// ------------------------------------------------------------------------------------------

fn next_release_exec(v: Release) -> (r: Option<Release>)
    ensures
        r == next_release(v),
{
    if v.2 < u64::MAX {
        Some((v.0, v.1, v.2 + 1))
    } else if v.1 < u64::MAX {
        Some((v.0, v.1 + 1, 0))
    } else if v.0 < u64::MAX {
        Some((v.0 + 1, 0, 0))
    } else {
        None
    }
}

fn next_minor_exec(major: u64, minor: u64) -> (r: Option<Release>)
    ensures
        r == next_minor(major, minor),
{
    if minor < u64::MAX { Some((major, minor + 1, 0)) } else { None }
}

fn next_major_exec(major: u64) -> (r: Option<Release>)
    ensures
        r == next_major(major),
{
    if major < u64::MAX { Some((major + 1, 0, 0)) } else { None }
}

fn comparator_lower_exec(c: &SemverComparator) -> (r: Release)
    ensures
        r == comparator_lower(*c),
{
    let minor = match c.minor {
        Some(m) => m,
        None => 0,
    };
    let patch = match c.patch {
        Some(p) => p,
        None => 0,
    };
    (c.major, minor, patch)
}

fn partial_upper_exec(c: &SemverComparator) -> (r: Option<Release>)
    ensures
        r == partial_upper(*c),
{
    if c.patch.is_some() {
        next_release_exec(comparator_lower_exec(c))
    } else {
        match c.minor {
            Some(m) => next_minor_exec(c.major, m),
            None => next_major_exec(c.major),
        }
    }
}

fn comparator_bounds_exec(c: &SemverComparator) -> (r: Option<(Option<Release>, Option<Release>)>)
    ensures
        r == comparator_bounds(*c),
{
    let lower = comparator_lower_exec(c);
    match c.op {
        ComparatorOp::Exact | ComparatorOp::Wildcard => match partial_upper_exec(c) {
            Some(u) => Some((Some(lower), Some(u))),
            None => None,
        },
        ComparatorOp::Greater => match partial_upper_exec(c) {
            Some(u) => Some((Some(u), None)),
            None => None,
        },
        ComparatorOp::GreaterEq => Some((Some(lower), None)),
        ComparatorOp::Less => Some((None, Some(lower))),
        ComparatorOp::LessEq => match partial_upper_exec(c) {
            Some(u) => Some((None, Some(u))),
            None => None,
        },
        ComparatorOp::Tilde => {
            let upper = match c.minor {
                Some(m) => next_minor_exec(c.major, m),
                None => next_major_exec(c.major),
            };
            match upper {
                Some(u) => Some((Some(lower), Some(u))),
                None => None,
            }
        },
        ComparatorOp::Caret => {
            let upper = if c.major > 0 || c.minor.is_none() {
                next_major_exec(c.major)
            } else {
                let minor = match c.minor {
                    Some(m) => m,
                    None => 0,
                };
                if minor > 0 || c.patch.is_none() {
                    next_minor_exec(0, minor)
                } else {
                    let patch = match c.patch {
                        Some(p) => p,
                        None => 0,
                    };
                    if patch < u64::MAX {
                        Some((0u64, 0u64, patch + 1))
                    } else {
                        None
                    }
                }
            };
            match upper {
                Some(u) => Some((Some(lower), Some(u))),
                None => None,
            }
        },
        ComparatorOp::Other => None,
    }
}

fn narrow_exec(iv: VersionInterval, c: &SemverComparator) -> (r: Option<VersionInterval>)
    ensures
        r == narrow(iv, *c),
{
    if !c.prerelease.as_str().is_empty() {
        return None;
    }
    match comparator_bounds_exec(c) {
        None => None,
        Some((lo, hi)) => {
            let lower = match lo {
                Some(l) => if release_le_exec(iv.lower, l) { l } else { iv.lower },
                None => iv.lower,
            };
            let upper = match hi {
                Some(h) => Some(match iv.upper {
                    Some(u) => if release_le_exec(u, h) { u } else { h },
                    None => h,
                }),
                None => iv.upper,
            };
            Some(VersionInterval { lower, upper })
        },
    }
}

proof fn lemma_narrow_all_none(cs: Seq<SemverComparator>)
    ensures
        narrow_all(None, cs) is None,
    decreases cs.len(),
{
    if cs.len() > 0 {
        lemma_narrow_all_none(cs.drop_last());
    }
}

fn requirements_interval_exec(reqs: &Vec<String>) -> (r: Option<VersionInterval>)
    ensures
        r == requirements_interval(string_views(reqs@)),
{
    let ghost views = string_views(reqs@);
    let mut acc: Option<VersionInterval> = Some(VersionInterval { lower: (0, 0, 0), upper: None });
    let mut i: usize = 0;
    while i < reqs.len()
        invariant
            i <= reqs@.len(),
            views == string_views(reqs@),
            acc == requirements_interval(views.subrange(0, i as int)),
        decreases reqs.len() - i,
    {
        let ghost t = views.subrange(0, i + 1);
        proof {
            assert(t.drop_last() =~= views.subrange(0, i as int));
            assert(t.last() == reqs@[i as int]@);
        }
        match parse_requirement(reqs[i].as_str()) {
            None => {
                acc = None;
            },
            Some(cs) => {
                match acc {
                    None => {
                        proof {
                            lemma_narrow_all_none(cs@);
                        }
                    },
                    Some(start) => {
                        let mut cur: Option<VersionInterval> = Some(start);
                        let mut j: usize = 0;
                        while j < cs.len()
                            invariant
                                j <= cs@.len(),
                                cur == narrow_all(Some(start), cs@.subrange(0, j as int)),
                            decreases cs.len() - j,
                        {
                            let ghost u = cs@.subrange(0, j + 1);
                            proof {
                                assert(u.drop_last() =~= cs@.subrange(0, j as int));
                            }
                            cur = match cur {
                                None => None,
                                Some(iv) => narrow_exec(iv, &cs[j]),
                            };
                            j = j + 1;
                        }
                        proof {
                            assert(cs@.subrange(0, cs@.len() as int) =~= cs@);
                        }
                        acc = cur;
                    },
                }
            },
        }
        i = i + 1;
    }
    proof {
        assert(views.subrange(0, reqs@.len() as int) =~= views);
    }
    acc
}

// ------------------------------------------------------------------------------------------
// Executable domains of a scope.
// ------------------------------------------------------------------------------------------

spec fn entries_model(m: Seq<(String, Domain)>) -> Seq<(Seq<char>, DomainModel)> {
    m.map_values(|e: (String, Domain)| (e.0@, e.1.model()))
}

fn new_domain() -> (d: Domain)
    ensures
        d.model() == empty_domain(),
{
    let d = Domain { finite: None, excluded: Vec::new(), integer: None, versions: Vec::new(), interval: None };
    proof {
        assert(d.model() =~= empty_domain());
    }
    d
}

fn restrict_exec(d: &mut Domain, set: Vec<ScopeValue>)
    ensures
        final(d).model() == restrict(old(d).model(), set@),
{
    let ghost before = d.model();
    let old_finite = d.finite.take();
    match old_finite {
        None => {
            d.finite = Some(set);
        },
        Some(old) => {
            let mut kept: Vec<ScopeValue> = Vec::new();
            let mut i: usize = 0;
            while i < old.len()
                invariant
                    i <= old@.len(),
                    kept@ == old@.subrange(0, i as int).filter(|v: ScopeValue| holds_value(set@, v)),
                decreases old.len() - i,
            {
                proof {
                    reveal(Seq::filter);
                    let t = old@.subrange(0, i + 1);
                    assert(t.drop_last() =~= old@.subrange(0, i as int));
                }
                if holds_value_exec(&set, &old[i]) {
                    kept.push(old[i].duplicate());
                }
                i = i + 1;
            }
            proof {
                assert(old@.subrange(0, old@.len() as int) =~= old@);
            }
            d.finite = Some(kept);
        },
    }
    proof {
        assert(d.model() =~= restrict(before, set@));
    }
}

fn apply_exec(d: &mut Domain, p: &ScopePredicate)
    ensures
        final(d).model() == apply_predicate(old(d).model(), *p),
{
    let ghost before = d.model();
    match p {
        ScopePredicate::Equals { value, .. } => {
            let set = vec![value.duplicate()];
            proof {
                assert(set@ =~= seq![*value]);
            }
            restrict_exec(d, set);
        },
        ScopePredicate::Bool { expected, .. } => {
            let set = vec![ScopeValue::Boolean(*expected)];
            proof {
                assert(set@ =~= seq![ScopeValue::Boolean(*expected)]);
            }
            restrict_exec(d, set);
        },
        ScopePredicate::In { values, .. } => {
            restrict_exec(d, crate::hierarchy::scope::duplicate_values(values));
        },
        ScopePredicate::NotEquals { value, .. } => {
            d.excluded.push(value.duplicate());
            proof {
                assert(d.model() =~= apply_predicate(before, *p));
            }
        },
        ScopePredicate::IntegerRange { min, max, .. } => {
            let current = match d.integer {
                Some(r) => r,
                None => IntRange { low: i64::MIN, high: i64::MAX },
            };
            let lo = match min {
                Some(m) => *m,
                None => i64::MIN,
            };
            let hi = match max {
                Some(m) => *m,
                None => i64::MAX,
            };
            d.integer = Some(IntRange {
                low: if current.low >= lo { current.low } else { lo },
                high: if current.high <= hi { current.high } else { hi },
            });
            proof {
                assert(d.model() =~= apply_predicate(before, *p));
            }
        },
        ScopePredicate::VersionRange { requirement, .. } => {
            let mut found = false;
            let mut i: usize = 0;
            while i < d.versions.len()
                invariant
                    i <= d.versions@.len(),
                    found ==> string_views(d.versions@).contains(requirement@),
                    !found ==> forall|k: int| 0 <= k < i ==> (#[trigger] d.versions@[k])@ != requirement@,
                decreases d.versions.len() - i,
            {
                if crate::text::str_eq(d.versions[i].as_str(), requirement.as_str()) {
                    proof {
                        assert(string_views(d.versions@)[i as int] == requirement@);
                    }
                    found = true;
                }
                i = i + 1;
            }
            if !found {
                proof {
                    assert(!string_views(d.versions@).contains(requirement@)) by {
                        if string_views(d.versions@).contains(requirement@) {
                            let k = choose|k: int| 0 <= k < string_views(d.versions@).len()
                                && string_views(d.versions@)[k] == requirement@;
                            assert(d.versions@[k]@ == requirement@);
                        }
                    }
                }
                d.versions.push(requirement.clone());
                proof {
                    assert(string_views(d.versions@) =~= string_views(old(d).versions@).push(requirement@));
                    assert(d.model() =~= apply_predicate(before, *p));
                }
            }
        },
        _ => {},
    }
}

proof fn lemma_find_from(m: Seq<(Seq<char>, DomainModel)>, k: Seq<char>, i: int)
    requires
        0 <= i,
    ensures
        find_from(m, k, i) >= 0 ==> i <= find_from(m, k, i) < m.len() && m[find_from(m, k, i)].0 == k,
        find_from(m, k, i) < 0 ==> find_from(m, k, i) == -1,
    decreases m.len() - i,
{
    if i < m.len() && m[i].0 != k {
        lemma_find_from(m, k, i + 1);
    }
}

proof fn lemma_raw_none_persists(ps: Seq<ScopePredicate>, i: int)
    requires
        0 <= i <= ps.len(),
        raw_domains(ps.subrange(0, i)) is None,
    ensures
        raw_domains(ps) is None,
    decreases ps.len() - i,
{
    if i == ps.len() {
        assert(ps.subrange(0, i) =~= ps);
    } else {
        assert(ps.subrange(0, i + 1).drop_last() =~= ps.subrange(0, i));
        lemma_raw_none_persists(ps, i + 1);
    }
}

fn raw_domains_exec(ps: &Vec<ScopePredicate>) -> (r: Option<Vec<(String, Domain)>>)
    ensures
        match r {
            Some(m) => raw_domains(ps@) == Some(entries_model(m@)),
            None => raw_domains(ps@) is None,
        },
{
    let mut m: Vec<(String, Domain)> = Vec::new();
    let mut i: usize = 0;
    proof {
        assert(ps@.subrange(0, 0) =~= Seq::<ScopePredicate>::empty());
        assert(entries_model(m@) =~= Seq::<(Seq<char>, DomainModel)>::empty());
    }
    while i < ps.len()
        invariant
            i <= ps@.len(),
            raw_domains(ps@.subrange(0, i as int)) == Some(entries_model(m@)),
        decreases ps.len() - i,
    {
        let p = &ps[i];
        let ghost t = ps@.subrange(0, i + 1);
        let ghost mm = entries_model(m@);
        proof {
            assert(t.drop_last() =~= ps@.subrange(0, i as int));
            assert(t.last() == *p);
        }
        let key = match p.key() {
            None => {
                proof {
                    lemma_raw_none_persists(ps@, i + 1);
                }
                return None;
            },
            Some(k) => k,
        };
        if let ScopePredicate::VersionRange { requirement, .. } = p {
            if parse_requirement(requirement.as_str()).is_none() {
                proof {
                    lemma_raw_none_persists(ps@, i + 1);
                }
                return None;
            }
        }
        let mut j: usize = 0;
        let mut found = false;
        while j < m.len() && !found
            invariant
                j <= m@.len(),
                mm == entries_model(m@),
                found ==> j >= 1 && find_from(mm, key@, 0) == j - 1,
                !found ==> find_from(mm, key@, 0) == find_from(mm, key@, j as int),
            decreases m.len() - j,
        {
            if crate::text::str_eq(m[j].0.as_str(), key) {
                proof {
                    assert(mm[j as int].0 == key@);
                }
                found = true;
            }
            j = j + 1;
        }
        if found {
            let idx = j - 1;
            proof {
                lemma_find_from(mm, key@, 0);
            }
            let ghost old_m = m@;
            let (k, mut d) = m.remove(idx);
            apply_exec(&mut d, p);
            m.insert(idx, (k, d));
            proof {
                assert(m@ =~= old_m.update(idx as int, (k, d)));
                assert(k@ == key@);
                assert(entries_model(m@) =~= mm.update(idx as int, (key@, apply_predicate(mm[idx as int].1, *p))));
            }
        } else {
            proof {
                assert(find_from(mm, key@, j as int) == -1);
            }
            let mut d = new_domain();
            apply_exec(&mut d, p);
            m.push((String::from_str(key), d));
            proof {
                assert(entries_model(m@) =~= mm.push((key@, apply_predicate(empty_domain(), *p))));
            }
        }
        i = i + 1;
    }
    proof {
        assert(ps@.subrange(0, ps@.len() as int) =~= ps@);
    }
    Some(m)
}

fn normalize_exec(d: Domain) -> (r: Domain)
    ensures
        r.model() == normalize(d.model()),
{
    let ghost before = d.model();
    let mut d = d;
    d.interval = if d.versions.len() > 0 { requirements_interval_exec(&d.versions) } else { None };
    let fin = d.finite.take();
    match fin {
        None => {},
        Some(set) => {
            let ghost open = d.model();
            let mut kept: Vec<ScopeValue> = Vec::new();
            let mut i: usize = 0;
            while i < set.len()
                invariant
                    i <= set@.len(),
                    open == d.model(),
                    kept@ == set@.subrange(0, i as int).filter(|v: ScopeValue| accepts(open, v)),
                decreases set.len() - i,
            {
                proof {
                    reveal(Seq::filter);
                    let t = set@.subrange(0, i + 1);
                    assert(t.drop_last() =~= set@.subrange(0, i as int));
                }
                if accepts_exec(&d, &set[i]) {
                    kept.push(set[i].duplicate());
                }
                i = i + 1;
            }
            proof {
                assert(set@.subrange(0, set@.len() as int) =~= set@);
            }
            d.finite = Some(kept);
        },
    }
    proof {
        assert(d.model() =~= normalize(before));
    }
    d
}

fn scope_domains_exec(ps: &Vec<ScopePredicate>) -> (r: Option<Vec<(String, Domain)>>)
    ensures
        match r {
            Some(m) => scope_domains(ps@) == Some(entries_model(m@)),
            None => scope_domains(ps@) is None,
        },
{
    let mut raw = match raw_domains_exec(ps) {
        None => return None,
        Some(m) => m,
    };
    let ghost rm = entries_model(raw@);
    let ghost target = rm.map_values(|e: (Seq<char>, DomainModel)| (e.0, normalize(e.1)));
    let mut out: Vec<(String, Domain)> = Vec::new();
    let ghost mut done: int = 0;
    while raw.len() > 0
        invariant
            0 <= done <= rm.len(),
            entries_model(raw@) =~= rm.subrange(done, rm.len() as int),
            entries_model(out@) =~= target.subrange(0, done),
            target.len() == rm.len(),
            forall|k: int| 0 <= k < rm.len() ==> #[trigger] target[k] == (rm[k].0, normalize(rm[k].1)),
        decreases raw.len(),
    {
        let ghost em = entries_model(raw@);
        proof {
            assert(em.len() == raw@.len());
            assert(em =~= rm.subrange(done, rm.len() as int));
            assert(rm.subrange(done, rm.len() as int)[0] == rm[done]);
            assert(em[0] == rm[done]);
        }
        let ghost old_out = entries_model(out@);
        let (k, d) = raw.remove(0);
        let ghost dm = d.model();
        proof {
            assert(em[0] == (k@, dm));
        }
        let nd = normalize_exec(d);
        out.push((k, nd));
        proof {
            assert(entries_model(out@) =~= old_out.push((k@, nd.model())));
            assert(target[done] == (rm[done].0, normalize(rm[done].1)));
            assert(target.subrange(0, done + 1) =~= target.subrange(0, done).push(target[done]));
            assert(entries_model(raw@) =~= em.subrange(1, em.len() as int));
            done = done + 1;
        }
    }
    Some(out)
}

fn any_empty(m: &Vec<(String, Domain)>) -> (r: bool)
    ensures
        r == exists|i: int| 0 <= i < entries_model(m@).len() && domain_empty((#[trigger] entries_model(m@)[i]).1),
{
    let ghost em = entries_model(m@);
    let mut i: usize = 0;
    while i < m.len()
        invariant
            i <= m@.len(),
            em == entries_model(m@),
            forall|k: int| 0 <= k < i ==> !domain_empty((#[trigger] em[k]).1),
        decreases m.len() - i,
    {
        if domain_empty_exec(&m[i].1) {
            proof {
                assert(em[i as int].1 == m@[i as int].1.model());
            }
            return true;
        }
        proof {
            assert(em[i as int].1 == m@[i as int].1.model());
        }
        i = i + 1;
    }
    false
}

fn pair_test_exec(t: PairTest, x: &Domain, y: &Domain) -> (r: bool)
    ensures
        r == pair_test_holds(t, x.model(), y.model()),
{
    match t {
        PairTest::NotContained => matches!(domain_subset_exec(x, y), Some(false)),
        PairTest::ContainmentUnknown => domain_subset_exec(x, y).is_none(),
        PairTest::Separate => matches!(domain_disjoint_exec(x, y), Some(true)),
        PairTest::SeparationUnknown => domain_disjoint_exec(x, y).is_none(),
    }
}

fn shared_exec(ma: &Vec<(String, Domain)>, mb: &Vec<(String, Domain)>, t: PairTest) -> (r: bool)
    ensures
        r == shared_key_where(entries_model(ma@), entries_model(mb@), t),
{
    let ghost ea = entries_model(ma@);
    let ghost eb = entries_model(mb@);
    let mut i: usize = 0;
    while i < ma.len()
        invariant
            i <= ma@.len(),
            ea == entries_model(ma@),
            eb == entries_model(mb@),
            forall|a: int, b: int| 0 <= a < i && 0 <= b < eb.len() ==> !#[trigger] pair_at(ea, eb, a, b, t),
        decreases ma.len() - i,
    {
        let mut j: usize = 0;
        while j < mb.len()
            invariant
                i < ma@.len(),
                j <= mb@.len(),
                ea == entries_model(ma@),
                eb == entries_model(mb@),
                forall|a: int, b: int| 0 <= a < i && 0 <= b < eb.len() ==> !#[trigger] pair_at(ea, eb, a, b, t),
                forall|b: int| 0 <= b < j ==> !#[trigger] pair_at(ea, eb, i as int, b, t),
            decreases mb.len() - j,
        {
            proof {
                assert(ea[i as int] == (ma@[i as int].0@, ma@[i as int].1.model()));
                assert(eb[j as int] == (mb@[j as int].0@, mb@[j as int].1.model()));
            }
            if crate::text::str_eq(ma[i].0.as_str(), mb[j].0.as_str()) && pair_test_exec(t, &ma[i].1, &mb[j].1) {
                proof {
                    assert(pair_at(ea, eb, i as int, j as int, t));
                }
                return true;
            }
            j = j + 1;
        }
        i = i + 1;
    }
    false
}

fn key_only_in_exec(ma: &Vec<(String, Domain)>, mb: &Vec<(String, Domain)>) -> (r: bool)
    ensures
        r == key_only_in(entries_model(ma@), entries_model(mb@)),
{
    let ghost ea = entries_model(ma@);
    let ghost eb = entries_model(mb@);
    let mut i: usize = 0;
    while i < ma.len()
        invariant
            i <= ma@.len(),
            ea == entries_model(ma@),
            eb == entries_model(mb@),
            forall|a: int| 0 <= a < i ==> has_dim(eb, (#[trigger] ea[a]).0),
        decreases ma.len() - i,
    {
        let mut j: usize = 0;
        let mut found = false;
        while j < mb.len() && !found
            invariant
                i < ma@.len(),
                j <= mb@.len(),
                ea == entries_model(ma@),
                eb == entries_model(mb@),
                found ==> has_dim(eb, ea[i as int].0),
                !found ==> forall|b: int| 0 <= b < j ==> (#[trigger] eb[b]).0 != ea[i as int].0,
            decreases mb.len() - j,
        {
            proof {
                assert(ea[i as int] == (ma@[i as int].0@, ma@[i as int].1.model()));
                assert(eb[j as int] == (mb@[j as int].0@, mb@[j as int].1.model()));
            }
            if crate::text::str_eq(ma[i].0.as_str(), mb[j].0.as_str()) {
                found = true;
            }
            j = j + 1;
        }
        if !found {
            proof {
                assert(!has_dim(eb, ea[i as int].0));
            }
            return true;
        }
        i = i + 1;
    }
    false
}

fn contained_exec(ma: &Vec<(String, Domain)>, mb: &Vec<(String, Domain)>) -> (r: Option<bool>)
    ensures
        r == contained(entries_model(ma@), entries_model(mb@)),
{
    if key_only_in_exec(mb, ma) || shared_exec(ma, mb, PairTest::NotContained) {
        Some(false)
    } else if shared_exec(ma, mb, PairTest::ContainmentUnknown) {
        None
    } else {
        Some(true)
    }
}

/// Compares scopes by their normalised per-key domains.
#[derive(Clone, Copy, Debug)]
pub struct DeterministicScopeRelationEvaluator;

impl DeterministicScopeRelationEvaluator {
    /// How scope `a` relates to scope `b`: unknown where a scope holds a custom predicate or an
    /// unparsable version requirement; disjoint where a scope is empty or a shared key has
    /// disjoint domains; otherwise equal, narrower or broader by containment in each
    /// direction, overlapping where that is undecided but every shared key provably meets,
    /// and unknown else.
    pub fn compare(&self, a: &KnowledgeScope, b: &KnowledgeScope) -> (r: ScopeRelation)
        ensures
            r == scope_relation(a.predicates@, b.predicates@),
    {
        let ma = match scope_domains_exec(&a.predicates) {
            Some(m) => m,
            None => return ScopeRelation::Unknown,
        };
        let mb = match scope_domains_exec(&b.predicates) {
            Some(m) => m,
            None => return ScopeRelation::Unknown,
        };
        if any_empty(&ma) || any_empty(&mb) {
            return ScopeRelation::Disjoint;
        }
        if shared_exec(&ma, &mb, PairTest::Separate) {
            return ScopeRelation::Disjoint;
        }
        let ab = contained_exec(&ma, &mb);
        let ba = contained_exec(&mb, &ma);
        if ab == Some(true) && ba == Some(true) {
            ScopeRelation::Equal
        } else if ab == Some(true) && ba == Some(false) {
            ScopeRelation::Narrower
        } else if ab == Some(false) && ba == Some(true) {
            ScopeRelation::Broader
        } else if !shared_exec(&ma, &mb, PairTest::SeparationUnknown) {
            ScopeRelation::Overlapping
        } else {
            ScopeRelation::Unknown
        }
    }
}

// ------------------------------------------------------------------------------------------
// Symmetry.
// ------------------------------------------------------------------------------------------

/// The relation seen from the other scope: narrower and broader trade places.
pub open spec fn converse(r: ScopeRelation) -> ScopeRelation {
    match r {
        ScopeRelation::Narrower => ScopeRelation::Broader,
        ScopeRelation::Broader => ScopeRelation::Narrower,
        _ => r,
    }
}

/// Every enumerated value of the domain is one the domain admits.
pub open spec fn self_accepting(d: DomainModel) -> bool {
    d.finite matches Some(f) ==> forall|i: int| 0 <= i < f.len() ==> accepts(d, #[trigger] f[i])
}

proof fn lemma_accepts_same_value(d: DomainModel, v: ScopeValue, w: ScopeValue)
    requires
        value_same(v, w),
    ensures
        accepts(d, v) == accepts(d, w),
{
    assert forall|s: Seq<ScopeValue>| holds_value(s, v) == holds_value(s, w) by {
        if holds_value(s, v) {
            let i = choose|i: int| 0 <= i < s.len() && value_same(#[trigger] s[i], v);
            assert(value_same(s[i], w));
        }
        if holds_value(s, w) {
            let i = choose|i: int| 0 <= i < s.len() && value_same(#[trigger] s[i], w);
            assert(value_same(s[i], v));
        }
    }
    assert forall|i: int| 0 <= i < d.versions.len() implies version_admits(#[trigger] d.versions[i], v)
        == version_admits(d.versions[i], w) by {}
    assert(holds_value(d.excluded, v) == holds_value(d.excluded, w));
    if d.finite is Some {
        assert(holds_value(d.finite->0, v) == holds_value(d.finite->0, w));
    }
}

proof fn lemma_normalize_self_accepting(d: DomainModel)
    ensures
        self_accepting(normalize(d)),
{
    let x = normalize(d);
    let d1 = DomainModel { interval: if d.versions.len() > 0 { requirements_interval(d.versions) } else { None }, ..d };
    let open = DomainModel { finite: None, ..d1 };
    if let Some(s) = d1.finite {
        let f = x.finite->0;
        assert forall|i: int| 0 <= i < f.len() implies accepts(x, #[trigger] f[i]) by {
            broadcast use vstd::seq_lib::group_filter_ensures;
            assert(accepts(open, f[i]));
            assert(value_same(f[i], f[i]));
            assert(holds_value(f, f[i]));
            assert(x.excluded == open.excluded && x.integer == open.integer && x.versions == open.versions);
            assert(!holds_value(x.excluded, f[i]));
            assert(x.integer is None || (match f[i] {
                ScopeValue::Integer(n) => x.integer->0.low <= n <= x.integer->0.high,
                _ => false,
            }));
            assert(forall|k: int| 0 <= k < x.versions.len() ==> version_admits(#[trigger] x.versions[k], f[i]));
        }
    }
}

/// Whether two normalised domains share no value does not depend on which comes first.
proof fn lemma_disjoint_symmetric(x: DomainModel, y: DomainModel)
    requires
        self_accepting(x),
        self_accepting(y),
    ensures
        domain_disjoint(x, y) == domain_disjoint(y, x),
{
    if !(domain_empty(x) || domain_empty(y)) && x.finite is Some && y.finite is Some {
        let fx = x.finite->0;
        let fy = y.finite->0;
        if exists|i: int| 0 <= i < fx.len() && accepts(y, #[trigger] fx[i]) {
            let i = choose|i: int| 0 <= i < fx.len() && accepts(y, #[trigger] fx[i]);
            let j = choose|j: int| 0 <= j < fy.len() && value_same(#[trigger] fy[j], fx[i]);
            lemma_accepts_same_value(x, fx[i], fy[j]);
            assert(accepts(x, fy[j]));
        }
        if exists|j: int| 0 <= j < fy.len() && accepts(x, #[trigger] fy[j]) {
            let j = choose|j: int| 0 <= j < fy.len() && accepts(x, #[trigger] fy[j]);
            let i = choose|i: int| 0 <= i < fx.len() && value_same(#[trigger] fx[i], fy[j]);
            lemma_accepts_same_value(y, fy[j], fx[i]);
            assert(accepts(y, fx[i]));
        }
    }
}

proof fn lemma_domains_self_accepting(ps: Seq<ScopePredicate>)
    requires
        scope_domains(ps) is Some,
    ensures
        forall|i: int| 0 <= i < scope_domains(ps)->0.len() ==> self_accepting(#[trigger] scope_domains(ps)->0[i].1),
{
    let m = raw_domains(ps)->0;
    assert forall|i: int| 0 <= i < scope_domains(ps)->0.len() implies self_accepting(#[trigger] scope_domains(ps)->0[i].1) by {
        lemma_normalize_self_accepting(m[i].1);
    }
}

proof fn lemma_shared_separation_symmetric(ma: Seq<(Seq<char>, DomainModel)>, mb: Seq<(Seq<char>, DomainModel)>, t: PairTest)
    requires
        t == PairTest::Separate || t == PairTest::SeparationUnknown,
        forall|i: int| 0 <= i < ma.len() ==> self_accepting(#[trigger] ma[i].1),
        forall|j: int| 0 <= j < mb.len() ==> self_accepting(#[trigger] mb[j].1),
    ensures
        shared_key_where(ma, mb, t) == shared_key_where(mb, ma, t),
{
    if shared_key_where(ma, mb, t) {
        let (i, j) = choose|i: int, j: int| 0 <= i < ma.len() && 0 <= j < mb.len() && #[trigger] pair_at(ma, mb, i, j, t);
        lemma_disjoint_symmetric(ma[i].1, mb[j].1);
        assert(pair_at(mb, ma, j, i, t));
    }
    if shared_key_where(mb, ma, t) {
        let (j, i) = choose|j: int, i: int| 0 <= j < mb.len() && 0 <= i < ma.len() && #[trigger] pair_at(mb, ma, j, i, t);
        lemma_disjoint_symmetric(ma[i].1, mb[j].1);
        assert(pair_at(ma, mb, i, j, t));
    }
}

/// Scope relations are symmetric: `a` is narrower than `b` exactly when `b` is broader than
/// `a`, and equal, overlapping, disjoint and unknown hold both ways or neither.
pub proof fn lemma_scope_relation_converse(a: Seq<ScopePredicate>, b: Seq<ScopePredicate>)
    ensures
        scope_relation(b, a) == converse(scope_relation(a, b)),
{
    if scope_domains(a) is Some && scope_domains(b) is Some {
        let ma = scope_domains(a)->0;
        let mb = scope_domains(b)->0;
        lemma_domains_self_accepting(a);
        lemma_domains_self_accepting(b);
        lemma_shared_separation_symmetric(ma, mb, PairTest::Separate);
        lemma_shared_separation_symmetric(ma, mb, PairTest::SeparationUnknown);
    }
}

} // verus!
