//! How closely the context that remote evidence was gathered in matches the local one.
//!
//! The comparison lists what matched, what differed and what could not be compared, and
//! counts the parts that a compatibility score is weighed from.
use vstd::prelude::*;
use crate::experience::{EnvironmentContext, RepositoryContext};
use crate::federation::model::EvidenceContext;
use crate::text::{opt_view, str_eq, views};

verus! {

/// What a query knows of the local context: its environment, its repository, the markers
/// detected in the working tree and the query's own tags.
#[derive(Clone, Debug)]
pub struct QueryContext {
    pub environment: EnvironmentContext,
    pub repository: RepositoryContext,
    pub detected_markers: Vec<String>,
    pub tags: Vec<String>,
}

#[derive(Clone, Debug)]
pub struct ContextMatch {
    pub field: String,
    pub remote: String,
    pub local: String,
}

#[derive(Clone, Debug)]
pub struct ContextMismatch {
    pub field: String,
    pub remote: String,
    pub local: String,
    pub severity: String,
}

/// The parts of a comparison that a compatibility score is weighed from.
#[derive(Clone, Copy, Debug, PartialEq, Eq)]
pub struct CompatibilityTally {
    pub os_matched: bool,
    pub arch_matched: bool,
    pub repository_matched: bool,
    pub markers_total: usize,
    pub markers_matched: usize,
    pub scoped_tags_total: usize,
    pub scoped_tags_matched: usize,
    pub versions_total: usize,
    pub versions_matched: usize,
    /// Versions that differ but agree before their first `.`.
    pub versions_major_matched: usize,
}

#[derive(Clone, Debug)]
pub struct ContextCompatibility {
    pub matches: Vec<ContextMatch>,
    pub mismatches: Vec<ContextMismatch>,
    pub unknowns: Vec<String>,
    pub tally: CompatibilityTally,
}

/// Matches, mismatches and unknown fields, each field of a record taken by its characters.
#[verifier::ext_equal]
pub ghost struct Findings {
    pub matches: Seq<(Seq<char>, Seq<char>, Seq<char>)>,
    pub mismatches: Seq<(Seq<char>, Seq<char>, Seq<char>, Seq<char>)>,
    pub unknowns: Seq<Seq<char>>,
}

pub open spec fn no_findings() -> Findings {
    Findings { matches: Seq::empty(), mismatches: Seq::empty(), unknowns: Seq::empty() }
}

pub open spec fn join(a: Findings, b: Findings) -> Findings {
    Findings {
        matches: a.matches + b.matches,
        mismatches: a.mismatches + b.mismatches,
        unknowns: a.unknowns + b.unknowns,
    }
}

pub open spec fn one_match(field: Seq<char>, remote: Seq<char>, local: Seq<char>) -> Findings {
    Findings { matches: seq![(field, remote, local)], ..no_findings() }
}

pub open spec fn one_mismatch(
    field: Seq<char>,
    remote: Seq<char>,
    local: Seq<char>,
    severity: Seq<char>,
) -> Findings {
    Findings { mismatches: seq![(field, remote, local, severity)], ..no_findings() }
}

pub open spec fn one_unknown(field: Seq<char>) -> Findings {
    Findings { unknowns: seq![field], ..no_findings() }
}

pub open spec fn match_view(m: ContextMatch) -> (Seq<char>, Seq<char>, Seq<char>) {
    (m.field@, m.remote@, m.local@)
}

pub open spec fn mismatch_view(m: ContextMismatch) -> (Seq<char>, Seq<char>, Seq<char>, Seq<char>) {
    (m.field@, m.remote@, m.local@, m.severity@)
}

pub open spec fn findings_of(
    matches: Seq<ContextMatch>,
    mismatches: Seq<ContextMismatch>,
    unknowns: Seq<String>,
) -> Findings {
    Findings {
        matches: matches.map_values(|m: ContextMatch| match_view(m)),
        mismatches: mismatches.map_values(|m: ContextMismatch| mismatch_view(m)),
        unknowns: views(unknowns),
    }
}

pub proof fn lemma_join_assoc(a: Findings, b: Findings, c: Findings)
    ensures
        join(join(a, b), c) == join(a, join(b, c)),
{
    assert(join(join(a, b), c) =~= join(a, join(b, c)));
}

// ------------------------------------------------------------------------------------------
// What the comparison finds, part by part.
// ------------------------------------------------------------------------------------------

/// `i` is the position of the first `.` in `s`.
pub open spec fn first_dot(s: Seq<char>, i: int) -> bool {
    0 <= i < s.len() && s[i] == '.' && forall|j: int| 0 <= j < i ==> s[j] != '.'
}

/// The text of `s` before its first `.`, all of it when it has none.
pub open spec fn major_part(s: Seq<char>) -> Seq<char> {
    if exists|i: int| first_dot(s, i) {
        s.take(choose|i: int| first_dot(s, i))
    } else {
        s
    }
}

/// One field compared: equal texts match; different texts differ, as versions or otherwise;
/// a text missing on either side leaves the field unknown.
pub open spec fn field_findings(
    name: Seq<char>,
    remote: Option<Seq<char>>,
    local: Option<Seq<char>>,
    version: bool,
) -> Findings {
    match (remote, local) {
        (Some(r), Some(l)) => if r == l {
            one_match(name, r, l)
        } else {
            one_mismatch(name, r, l, if version { "version_difference"@ } else { "different"@ })
        },
        _ => one_unknown(name),
    }
}

pub open spec fn field_matched(remote: Option<Seq<char>>, local: Option<Seq<char>>) -> bool {
    remote is Some && local is Some && remote->0 == local->0
}

pub open spec fn major_matched(remote: Option<Seq<char>>, local: Option<Seq<char>>) -> bool {
    &&& remote is Some
    &&& local is Some
    &&& remote->0 != local->0
    &&& major_part(remote->0) == major_part(local->0)
}

/// Each remote marker, in order: a match when it was detected locally, else a missing one.
pub open spec fn marker_findings(markers: Seq<Seq<char>>, detected: Seq<Seq<char>>) -> Findings
    decreases markers.len(),
{
    if markers.len() == 0 {
        no_findings()
    } else {
        let m = markers.last();
        join(
            marker_findings(markers.drop_last(), detected),
            if detected.contains(m) {
                one_match("marker"@, m, m)
            } else {
                one_mismatch("marker"@, m, "missing"@, "missing_required"@)
            },
        )
    }
}

/// How many of `items` occur in `pool`.
pub open spec fn count_found(items: Seq<Seq<char>>, pool: Seq<Seq<char>>) -> nat
    decreases items.len(),
{
    if items.len() == 0 {
        0
    } else {
        count_found(items.drop_last(), pool) + if pool.contains(items.last()) { 1nat } else { 0nat }
    }
}

pub open spec fn has_prefix(s: Seq<char>, prefix: Seq<char>) -> bool {
    prefix.len() <= s.len() && s.take(prefix.len() as int) == prefix
}

/// A tag that names a fixture, environment or runtime family.
pub open spec fn scoped_tag(t: Seq<char>) -> bool {
    has_prefix(t, "fixture-family:"@) || has_prefix(t, "environment-family:"@) || has_prefix(
        t,
        "runtime-family:"@,
    )
}

/// The scoped tags among `tags`, in order.
pub open spec fn scoped_tags(tags: Seq<Seq<char>>) -> Seq<Seq<char>>
    decreases tags.len(),
{
    if tags.len() == 0 {
        Seq::empty()
    } else {
        scoped_tags(tags.drop_last()) + if scoped_tag(tags.last()) {
            seq![tags.last()]
        } else {
            Seq::empty()
        }
    }
}

/// Each scoped remote tag, in order: a match when the query has it, else a difference.
pub open spec fn tag_findings(scoped: Seq<Seq<char>>, local_tags: Seq<Seq<char>>) -> Findings
    decreases scoped.len(),
{
    if scoped.len() == 0 {
        no_findings()
    } else {
        let t = scoped.last();
        join(
            tag_findings(scoped.drop_last(), local_tags),
            if local_tags.contains(t) {
                one_match("environment_family"@, t, t)
            } else {
                one_mismatch("environment_family"@, t, "missing or different"@, "context_difference"@)
            },
        )
    }
}

/// The value of the first fact named `name`.
pub open spec fn fact_lookup(facts: Seq<(String, String)>, name: Seq<char>) -> Option<Seq<char>>
    decreases facts.len(),
{
    if facts.len() == 0 {
        None
    } else if facts[0].0@ == name {
        Some(facts[0].1@)
    } else {
        fact_lookup(facts.drop_first(), name)
    }
}

/// Each remote tool version, in order, compared with the local fact of the same name.
pub open spec fn version_findings(versions: Seq<(String, String)>, facts: Seq<(String, String)>) -> Findings
    decreases versions.len(),
{
    if versions.len() == 0 {
        no_findings()
    } else {
        let v = versions.last();
        join(
            version_findings(versions.drop_last(), facts),
            field_findings(v.0@, Some(v.1@), fact_lookup(facts, v.0@), true),
        )
    }
}

pub open spec fn count_version_matches(versions: Seq<(String, String)>, facts: Seq<(String, String)>) -> nat
    decreases versions.len(),
{
    if versions.len() == 0 {
        0
    } else {
        let v = versions.last();
        count_version_matches(versions.drop_last(), facts) + if field_matched(
            Some(v.1@),
            fact_lookup(facts, v.0@),
        ) {
            1nat
        } else {
            0nat
        }
    }
}

pub open spec fn count_major_matches(versions: Seq<(String, String)>, facts: Seq<(String, String)>) -> nat
    decreases versions.len(),
{
    if versions.len() == 0 {
        0
    } else {
        let v = versions.last();
        count_major_matches(versions.drop_last(), facts) + if major_matched(
            Some(v.1@),
            fact_lookup(facts, v.0@),
        ) {
            1nat
        } else {
            0nat
        }
    }
}

/// Everything the comparison finds, in the order it looks: operating system, architecture,
/// repository family, markers, scoped tags, tool versions.
pub open spec fn compatibility_findings(remote: EvidenceContext, local: QueryContext) -> Findings {
    join(
        join(
            join(
                join(
                    join(
                        field_findings("os"@, opt_view(remote.os), Some(local.environment.os@), false),
                        field_findings("arch"@, opt_view(remote.arch), Some(local.environment.arch@), false),
                    ),
                    field_findings(
                        "repository_family"@,
                        opt_view(remote.repository_family),
                        Some(local.repository.name@),
                        false,
                    ),
                ),
                marker_findings(views(remote.markers@), views(local.detected_markers@)),
            ),
            tag_findings(scoped_tags(views(remote.tags@)), views(local.tags@)),
        ),
        version_findings(remote.versions@, local.environment.facts@),
    )
}

/// The tally of a comparison.
pub open spec fn compatibility_tally(remote: EvidenceContext, local: QueryContext) -> CompatibilityTally {
    let scoped = scoped_tags(views(remote.tags@));
    CompatibilityTally {
        os_matched: field_matched(opt_view(remote.os), Some(local.environment.os@)),
        arch_matched: field_matched(opt_view(remote.arch), Some(local.environment.arch@)),
        repository_matched: field_matched(opt_view(remote.repository_family), Some(local.repository.name@)),
        markers_total: remote.markers@.len() as usize,
        markers_matched: count_found(views(remote.markers@), views(local.detected_markers@)) as usize,
        scoped_tags_total: scoped.len() as usize,
        scoped_tags_matched: count_found(scoped, views(local.tags@)) as usize,
        versions_total: remote.versions@.len() as usize,
        versions_matched: count_version_matches(remote.versions@, local.environment.facts@) as usize,
        versions_major_matched: count_major_matches(remote.versions@, local.environment.facts@) as usize,
    }
}

pub open spec fn str_opt(o: Option<&str>) -> Option<Seq<char>> {
    match o {
        Some(s) => Some(s@),
        None => None,
    }
}

// ------------------------------------------------------------------------------------------
// The comparison.
// ------------------------------------------------------------------------------------------

/// Whether `pool` holds a string with the characters of `item`.
fn contains_text(pool: &Vec<String>, item: &str) -> (r: bool)
    ensures
        r == views(pool@).contains(item@),
{
    let mut i: usize = 0;
    while i < pool.len()
        invariant
            i <= pool@.len(),
            forall|j: int| 0 <= j < i ==> pool@[j]@ != item@,
        decreases pool.len() - i,
    {
        if str_eq(pool[i].as_str(), item) {
            assert(views(pool@)[i as int] == item@);
            return true;
        }
        i = i + 1;
    }
    assert(!views(pool@).contains(item@)) by {
        if views(pool@).contains(item@) {
            let j = choose|j: int| 0 <= j < views(pool@).len() && views(pool@)[j] == item@;
            assert(pool@[j]@ == item@);
        }
    }
    false
}

/// Whether `s` begins with `prefix`.
fn starts_with(s: &str, prefix: &str) -> (r: bool)
    ensures
        r == has_prefix(s@, prefix@),
{
    let n = s.unicode_len();
    let p = prefix.unicode_len();
    if p > n {
        return false;
    }
    str_eq(s.substring_char(0, p), prefix)
}

/// The text of `s` before its first `.`.
fn major(s: &str) -> (r: &str)
    ensures
        r@ == major_part(s@),
{
    let n = s.unicode_len();
    let mut i: usize = 0;
    while i < n
        invariant
            n == s@.len(),
            i <= n,
            forall|j: int| 0 <= j < i ==> s@[j] != '.',
        decreases n - i,
    {
        if s.get_char(i) == '.' {
            proof {
                assert(first_dot(s@, i as int));
                let k = choose|k: int| first_dot(s@, k);
                if k < i {
                    assert(s@[k] != '.');
                }
                if k > i {
                    assert(s@[i as int] != '.');
                }
                assert(k == i);
            }
            return s.substring_char(0, i);
        }
        i = i + 1;
    }
    assert(!exists|k: int| first_dot(s@, k));
    s
}

/// The value of the first fact named `name`.
fn lookup_fact<'a>(facts: &'a Vec<(String, String)>, name: &str) -> (r: Option<&'a str>)
    ensures
        str_opt(r) == fact_lookup(facts@, name@),
{
    let mut i: usize = 0;
    assert(facts@.skip(0) =~= facts@);
    while i < facts.len()
        invariant
            i <= facts@.len(),
            fact_lookup(facts@, name@) == fact_lookup(facts@.skip(i as int), name@),
        decreases facts.len() - i,
    {
        let rest = Ghost(facts@.skip(i as int));
        assert(rest@[0] == facts@[i as int]);
        if str_eq(facts[i].0.as_str(), name) {
            return Some(facts[i].1.as_str());
        }
        assert(rest@.drop_first() =~= facts@.skip(i + 1));
        i = i + 1;
    }
    assert(facts@.skip(i as int).len() == 0);
    None
}

/// The lists a comparison builds up.
struct Found {
    matches: Vec<ContextMatch>,
    mismatches: Vec<ContextMismatch>,
    unknowns: Vec<String>,
}

impl Found {
    spec fn findings(&self) -> Findings {
        findings_of(self.matches@, self.mismatches@, self.unknowns@)
    }

    fn add_match(&mut self, field: &str, remote: &str, local: &str)
        ensures
            final(self).findings() == join(old(self).findings(), one_match(field@, remote@, local@)),
    {
        let ghost before = self.findings();
        self.matches.push(
            ContextMatch {
                field: String::from_str(field),
                remote: String::from_str(remote),
                local: String::from_str(local),
            },
        );
        assert(self.findings() =~= join(before, one_match(field@, remote@, local@)));
    }

    fn add_mismatch(&mut self, field: &str, remote: &str, local: &str, severity: &str)
        ensures
            final(self).findings() == join(
                old(self).findings(),
                one_mismatch(field@, remote@, local@, severity@),
            ),
    {
        let ghost before = self.findings();
        self.mismatches.push(
            ContextMismatch {
                field: String::from_str(field),
                remote: String::from_str(remote),
                local: String::from_str(local),
                severity: String::from_str(severity),
            },
        );
        assert(self.findings() =~= join(before, one_mismatch(field@, remote@, local@, severity@)));
    }

    fn add_unknown(&mut self, field: &str)
        ensures
            final(self).findings() == join(old(self).findings(), one_unknown(field@)),
    {
        let ghost before = self.findings();
        self.unknowns.push(String::from_str(field));
        assert(self.findings() =~= join(before, one_unknown(field@)));
    }

    /// Compares one field; says whether it matched, and whether a differing version agreed
    /// before its first `.`.
    fn add_field(&mut self, name: &str, remote: Option<&str>, local: Option<&str>, version: bool) -> (r: (
        bool,
        bool,
    ))
        ensures
            final(self).findings() == join(
                old(self).findings(),
                field_findings(name@, str_opt(remote), str_opt(local), version),
            ),
            r.0 == field_matched(str_opt(remote), str_opt(local)),
            r.1 == (version && major_matched(str_opt(remote), str_opt(local))),
    {
        match (remote, local) {
            (Some(r), Some(l)) => {
                if str_eq(r, l) {
                    self.add_match(name, r, l);
                    (true, false)
                } else {
                    let same_major = version && str_eq(major(r), major(l));
                    if version {
                        self.add_mismatch(name, r, l, "version_difference");
                    } else {
                        self.add_mismatch(name, r, l, "different");
                    }
                    (false, same_major)
                }
            },
            _ => {
                self.add_unknown(name);
                (false, false)
            },
        }
    }
}

/// An optional string's text.
fn text_of(o: &Option<String>) -> (r: Option<&str>)
    ensures
        str_opt(r) == opt_view(*o),
{
    match o {
        Some(s) => Some(s.as_str()),
        None => None,
    }
}

/// The context comparison that weighs operating system, architecture, repository family,
/// markers, scoped tags and tool versions.
pub struct DeterministicContextCompatibility;

impl DeterministicContextCompatibility {
    /// Compares the context `remote` evidence was gathered in with the `local` one.
    pub fn compare(&self, remote: &EvidenceContext, local: &QueryContext) -> (r: ContextCompatibility)
        ensures
            findings_of(r.matches@, r.mismatches@, r.unknowns@) == compatibility_findings(*remote, *local),
            r.tally == compatibility_tally(*remote, *local),
    {
        let mut found = Found { matches: Vec::new(), mismatches: Vec::new(), unknowns: Vec::new() };
        proof {
            assert(found.findings() =~= no_findings());
        }
        let os = found.add_field("os", text_of(&remote.os), Some(local.environment.os.as_str()), false);
        proof {
            assert(join(no_findings(), field_findings("os"@, opt_view(remote.os), Some(local.environment.os@), false))
                =~= field_findings("os"@, opt_view(remote.os), Some(local.environment.os@), false));
        }
        let arch = found.add_field("arch", text_of(&remote.arch), Some(local.environment.arch.as_str()), false);
        let repository = found.add_field(
            "repository_family",
            text_of(&remote.repository_family),
            Some(local.repository.name.as_str()),
            false,
        );
        let (markers_matched, scoped_total, tags_matched) = compare_markers_and_tags(&mut found, remote, local);
        let (versions_matched, versions_major) = compare_versions(&mut found, remote, local);
        let tally = CompatibilityTally {
            os_matched: os.0,
            arch_matched: arch.0,
            repository_matched: repository.0,
            markers_total: remote.markers.len(),
            markers_matched,
            scoped_tags_total: scoped_total,
            scoped_tags_matched: tags_matched,
            versions_total: remote.versions.len(),
            versions_matched,
            versions_major_matched: versions_major,
        };
        ContextCompatibility {
            matches: found.matches,
            mismatches: found.mismatches,
            unknowns: found.unknowns,
            tally,
        }
    }
}

/// Compares the remote markers and scoped tags; returns the markers found, the scoped tags
/// and the scoped tags found.
fn compare_markers_and_tags(found: &mut Found, remote: &EvidenceContext, local: &QueryContext) -> (r: (
    usize,
    usize,
    usize,
))
    ensures
        final(found).findings() == join(
            join(
                old(found).findings(),
                marker_findings(views(remote.markers@), views(local.detected_markers@)),
            ),
            tag_findings(scoped_tags(views(remote.tags@)), views(local.tags@)),
        ),
        r.0 == count_found(views(remote.markers@), views(local.detected_markers@)),
        r.1 == scoped_tags(views(remote.tags@)).len(),
        r.2 == count_found(scoped_tags(views(remote.tags@)), views(local.tags@)),
{
    let ghost ms = views(remote.markers@);
    let ghost detected = views(local.detected_markers@);
    let ghost base = found.findings();
    let mut markers_matched: usize = 0;
    let mut i: usize = 0;
    proof {
        assert(ms.take(0) =~= Seq::<Seq<char>>::empty());
        assert(join(base, no_findings()) =~= base);
    }
    while i < remote.markers.len()
        invariant
            i <= remote.markers@.len(),
            ms == views(remote.markers@),
            detected == views(local.detected_markers@),
            markers_matched <= i,
            markers_matched == count_found(ms.take(i as int), detected),
            found.findings() == join(base, marker_findings(ms.take(i as int), detected)),
        decreases remote.markers.len() - i,
    {
        let m = remote.markers[i].as_str();
        proof {
            assert(ms.take(i + 1).drop_last() =~= ms.take(i as int));
            assert(ms.take(i + 1).last() == m@);
        }
        let ghost before = marker_findings(ms.take(i as int), detected);
        if contains_text(&local.detected_markers, m) {
            found.add_match("marker", m, m);
            markers_matched = markers_matched + 1;
            proof {
                lemma_join_assoc(base, before, one_match("marker"@, m@, m@));
            }
        } else {
            found.add_mismatch("marker", m, "missing", "missing_required");
            proof {
                lemma_join_assoc(base, before, one_mismatch("marker"@, m@, "missing"@, "missing_required"@));
            }
        }
        i = i + 1;
    }
    proof {
        assert(ms.take(i as int) =~= ms);
    }
    let ghost ts = views(remote.tags@);
    let mut scoped: Vec<String> = Vec::new();
    let mut k: usize = 0;
    proof {
        assert(ts.take(0) =~= Seq::<Seq<char>>::empty());
        assert(views(scoped@) =~= scoped_tags(ts.take(0)));
    }
    while k < remote.tags.len()
        invariant
            k <= remote.tags@.len(),
            ts == views(remote.tags@),
            views(scoped@) == scoped_tags(ts.take(k as int)),
            scoped@.len() <= k,
        decreases remote.tags.len() - k,
    {
        let t = &remote.tags[k];
        proof {
            assert(ts.take(k + 1).drop_last() =~= ts.take(k as int));
            assert(ts.take(k + 1).last() == t@);
        }
        if starts_with(t.as_str(), "fixture-family:") || starts_with(t.as_str(), "environment-family:")
            || starts_with(t.as_str(), "runtime-family:") {
            let ghost old_scoped = scoped@;
            scoped.push(t.clone());
            proof {
                assert(views(scoped@) =~= views(old_scoped).push(t@));
                assert(views(scoped@) =~= scoped_tags(ts.take(k + 1)));
            }
        } else {
            proof {
                assert(views(scoped@) =~= scoped_tags(ts.take(k + 1)));
            }
        }
        k = k + 1;
    }
    proof {
        assert(ts.take(k as int) =~= ts);
    }
    let ghost sc = views(scoped@);
    let ghost local_tags = views(local.tags@);
    let ghost base2 = found.findings();
    let mut tags_matched: usize = 0;
    let mut j: usize = 0;
    proof {
        assert(sc.take(0) =~= Seq::<Seq<char>>::empty());
        assert(join(base2, no_findings()) =~= base2);
    }
    while j < scoped.len()
        invariant
            j <= scoped@.len(),
            sc == views(scoped@),
            local_tags == views(local.tags@),
            tags_matched <= j,
            tags_matched == count_found(sc.take(j as int), local_tags),
            found.findings() == join(base2, tag_findings(sc.take(j as int), local_tags)),
        decreases scoped.len() - j,
    {
        let t = scoped[j].as_str();
        proof {
            assert(sc.take(j + 1).drop_last() =~= sc.take(j as int));
            assert(sc.take(j + 1).last() == t@);
        }
        let ghost before = tag_findings(sc.take(j as int), local_tags);
        if contains_text(&local.tags, t) {
            found.add_match("environment_family", t, t);
            tags_matched = tags_matched + 1;
            proof {
                lemma_join_assoc(base2, before, one_match("environment_family"@, t@, t@));
            }
        } else {
            found.add_mismatch("environment_family", t, "missing or different", "context_difference");
            proof {
                lemma_join_assoc(
                    base2,
                    before,
                    one_mismatch("environment_family"@, t@, "missing or different"@, "context_difference"@),
                );
            }
        }
        j = j + 1;
    }
    proof {
        assert(sc.take(j as int) =~= sc);
    }
    (markers_matched, scoped.len(), tags_matched)
}

/// Compares the remote tool versions with the local facts; returns the versions that
/// matched and the differing ones that agree before their first `.`.
fn compare_versions(found: &mut Found, remote: &EvidenceContext, local: &QueryContext) -> (r: (usize, usize))
    ensures
        final(found).findings() == join(
            old(found).findings(),
            version_findings(remote.versions@, local.environment.facts@),
        ),
        r.0 == count_version_matches(remote.versions@, local.environment.facts@),
        r.1 == count_major_matches(remote.versions@, local.environment.facts@),
{
    let ghost vs = remote.versions@;
    let ghost facts = local.environment.facts@;
    let ghost base = found.findings();
    let mut matched: usize = 0;
    let mut major_same: usize = 0;
    let mut i: usize = 0;
    proof {
        assert(vs.take(0) =~= Seq::<(String, String)>::empty());
        assert(join(base, no_findings()) =~= base);
    }
    while i < remote.versions.len()
        invariant
            i <= vs.len(),
            vs == remote.versions@,
            facts == local.environment.facts@,
            matched <= i,
            major_same <= i,
            matched == count_version_matches(vs.take(i as int), facts),
            major_same == count_major_matches(vs.take(i as int), facts),
            found.findings() == join(base, version_findings(vs.take(i as int), facts)),
        decreases remote.versions.len() - i,
    {
        let name = remote.versions[i].0.as_str();
        let value = remote.versions[i].1.as_str();
        proof {
            assert(vs.take(i + 1).drop_last() =~= vs.take(i as int));
            assert(vs.take(i + 1).last() == vs[i as int]);
        }
        let local_value = lookup_fact(&local.environment.facts, name);
        let ghost before = version_findings(vs.take(i as int), facts);
        let outcome = found.add_field(name, Some(value), local_value, true);
        proof {
            lemma_join_assoc(base, before, field_findings(name@, Some(value@), fact_lookup(facts, name@), true));
        }
        if outcome.0 {
            matched = matched + 1;
        }
        if outcome.1 {
            major_same = major_same + 1;
        }
        i = i + 1;
    }
    proof {
        assert(vs.take(i as int) =~= vs);
    }
    (matched, major_same)
}

} // verus!
