//! Knowledge scopes: conjunctions of predicates over a typed context, and the
//! applicability of a scope in a context.
use vstd::prelude::*;
use vstd::string::*;
use crate::sorted::{has_key, insert_unique, keys_sorted};
use crate::text::bytes_lt;
use crate::versions::{requirement_matches, semver_match, semver_requirement};

verus! {

/// A typed context value.
#[derive(Debug)]
pub enum ScopeValue {
    String(String),
    Integer(i64),
    Boolean(bool),
    Version(String),
}

/// One conjunct of a scope.
#[derive(Debug)]
pub enum ScopePredicate {
    Equals { key: String, value: ScopeValue },
    NotEquals { key: String, value: ScopeValue },
    In { key: String, values: Vec<ScopeValue> },
    Exists { key: String },
    Bool { key: String, expected: bool },
    IntegerRange { key: String, min: Option<i64>, max: Option<i64> },
    VersionRange { key: String, requirement: String },
    /// A predicate this library cannot decide; `payload` is its compact JSON text.
    Custom { kind: String, payload: String },
}

/// A conjunction of predicates; the empty scope applies everywhere.
#[derive(Debug)]
pub struct KnowledgeScope {
    pub predicates: Vec<ScopePredicate>,
}

/// Typed context values by key.
#[derive(Debug)]
pub struct KnowledgeContext {
    pub values: Vec<(String, ScopeValue)>,
}

#[derive(Clone, Copy, Debug, PartialEq, Eq, Structural)]
pub enum ApplicabilityStatus {
    Applicable,
    Inapplicable,
    PartiallyKnown,
    Unknown,
}

/// The outcome of evaluating a scope: the distinct predicates, in canonical order, split by
/// whether they matched, failed or could not be decided.
#[derive(Debug)]
pub struct KnowledgeApplicability {
    pub status: ApplicabilityStatus,
    pub matched: Vec<ScopePredicate>,
    pub failed: Vec<ScopePredicate>,
    pub unknown: Vec<ScopePredicate>,
}

/// Two values are the same value.
pub open spec fn value_same(a: ScopeValue, b: ScopeValue) -> bool {
    match (a, b) {
        (ScopeValue::String(x), ScopeValue::String(y)) => x@ == y@,
        (ScopeValue::Integer(x), ScopeValue::Integer(y)) => x == y,
        (ScopeValue::Boolean(x), ScopeValue::Boolean(y)) => x == y,
        (ScopeValue::Version(x), ScopeValue::Version(y)) => x@ == y@,
        _ => false,
    }
}

/// Two predicates are the same predicate.
#[verifier::opaque]
pub open spec fn predicate_same(a: ScopePredicate, b: ScopePredicate) -> bool {
    match (a, b) {
        (ScopePredicate::Equals { key: k1, value: v1 }, ScopePredicate::Equals { key: k2, value: v2 }) =>
            k1@ == k2@ && v1 == v2,
        (ScopePredicate::NotEquals { key: k1, value: v1 }, ScopePredicate::NotEquals { key: k2, value: v2 }) =>
            k1@ == k2@ && v1 == v2,
        (ScopePredicate::In { key: k1, values: v1 }, ScopePredicate::In { key: k2, values: v2 }) =>
            k1@ == k2@ && v1@ == v2@,
        (ScopePredicate::Exists { key: k1 }, ScopePredicate::Exists { key: k2 }) => k1@ == k2@,
        (ScopePredicate::Bool { key: k1, expected: e1 }, ScopePredicate::Bool { key: k2, expected: e2 }) =>
            k1@ == k2@ && e1 == e2,
        (
            ScopePredicate::IntegerRange { key: k1, min: a1, max: b1 },
            ScopePredicate::IntegerRange { key: k2, min: a2, max: b2 },
        ) => k1@ == k2@ && a1 == a2 && b1 == b2,
        (
            ScopePredicate::VersionRange { key: k1, requirement: r1 },
            ScopePredicate::VersionRange { key: k2, requirement: r2 },
        ) => k1@ == k2@ && r1@ == r2@,
        (ScopePredicate::Custom { kind: k1, payload: p1 }, ScopePredicate::Custom { kind: k2, payload: p2 }) =>
            k1@ == k2@ && p1@ == p2@,
        _ => false,
    }
}

/// Element by element, the same predicates.
pub open spec fn predicates_same(a: Seq<ScopePredicate>, b: Seq<ScopePredicate>) -> bool {
    a.len() == b.len() && forall|i: int| 0 <= i < a.len() ==> predicate_same(#[trigger] a[i], b[i])
}

impl ScopeValue {
    /// A copy of the value.
    pub fn duplicate(&self) -> (r: ScopeValue)
        ensures
            r == *self,
    {
        match self {
            ScopeValue::String(s) => ScopeValue::String(s.clone()),
            ScopeValue::Integer(n) => ScopeValue::Integer(*n),
            ScopeValue::Boolean(b) => ScopeValue::Boolean(*b),
            ScopeValue::Version(s) => ScopeValue::Version(s.clone()),
        }
    }

    /// Value equality.
    pub fn same_as(&self, other: &ScopeValue) -> (r: bool)
        ensures
            r == value_same(*self, *other),
    {
        match (self, other) {
            (ScopeValue::String(x), ScopeValue::String(y)) => crate::text::str_eq(x.as_str(), y.as_str()),
            (ScopeValue::Integer(x), ScopeValue::Integer(y)) => *x == *y,
            (ScopeValue::Boolean(x), ScopeValue::Boolean(y)) => *x == *y,
            (ScopeValue::Version(x), ScopeValue::Version(y)) => crate::text::str_eq(x.as_str(), y.as_str()),
            _ => false,
        }
    }
}

/// A copy of a list of values.
pub fn duplicate_values(v: &Vec<ScopeValue>) -> (r: Vec<ScopeValue>)
    ensures
        r@ == v@,
{
    let mut r: Vec<ScopeValue> = Vec::new();
    let mut i: usize = 0;
    while i < v.len()
        invariant
            i <= v@.len(),
            r@ =~= v@.subrange(0, i as int),
        decreases v.len() - i,
    {
        r.push(v[i].duplicate());
        i = i + 1;
    }
    r
}

impl ScopePredicate {
    /// A copy of the predicate.
    pub fn duplicate(&self) -> (r: ScopePredicate)
        ensures
            predicate_same(r, *self),
    {
        reveal(predicate_same);
        match self {
            ScopePredicate::Equals { key, value } => ScopePredicate::Equals { key: key.clone(), value: value.duplicate() },
            ScopePredicate::NotEquals { key, value } => ScopePredicate::NotEquals { key: key.clone(), value: value.duplicate() },
            ScopePredicate::In { key, values } => ScopePredicate::In { key: key.clone(), values: duplicate_values(values) },
            ScopePredicate::Exists { key } => ScopePredicate::Exists { key: key.clone() },
            ScopePredicate::Bool { key, expected } => ScopePredicate::Bool { key: key.clone(), expected: *expected },
            ScopePredicate::IntegerRange { key, min, max } => ScopePredicate::IntegerRange { key: key.clone(), min: *min, max: *max },
            ScopePredicate::VersionRange { key, requirement } =>
                ScopePredicate::VersionRange { key: key.clone(), requirement: requirement.clone() },
            ScopePredicate::Custom { kind, payload } => ScopePredicate::Custom { kind: kind.clone(), payload: payload.clone() },
        }
    }
}

// ---------------------------------------------------------------------------------------
// Canonical JSON text of a predicate: the order in which a scope's predicates are reported.
// ---------------------------------------------------------------------------------------

pub open spec fn hex_lower(n: u8) -> u8 {
    if n < 10 { (48 + n) as u8 } else { (87 + n) as u8 }
}

/// A byte of a JSON string literal, escaped the way `serde_json` escapes it.
pub open spec fn json_escape_byte(b: u8) -> Seq<u8> {
    if b == 0x22 {
        seq![0x5cu8, 0x22u8]
    } else if b == 0x5c {
        seq![0x5cu8, 0x5cu8]
    } else if b == 0x08 {
        seq![0x5cu8, 0x62u8]
    } else if b == 0x0c {
        seq![0x5cu8, 0x66u8]
    } else if b == 0x0a {
        seq![0x5cu8, 0x6eu8]
    } else if b == 0x0d {
        seq![0x5cu8, 0x72u8]
    } else if b == 0x09 {
        seq![0x5cu8, 0x74u8]
    } else if b < 0x20 {
        seq![0x5cu8, 0x75u8, 0x30u8, 0x30u8, hex_lower(b / 16), hex_lower(b % 16)]
    } else {
        seq![b]
    }
}

pub open spec fn json_escape(s: Seq<u8>) -> Seq<u8>
    decreases s.len(),
{
    if s.len() == 0 {
        seq![]
    } else {
        json_escape(s.drop_last()) + json_escape_byte(s.last())
    }
}

/// A JSON string literal.
pub open spec fn json_string(s: Seq<char>) -> Seq<u8> {
    seq![0x22u8] + json_escape(vstd::utf8::encode_utf8(s)) + seq![0x22u8]
}

/// The decimal digits of a natural number.
pub open spec fn decimal(n: nat) -> Seq<u8>
    decreases n,
{
    if n < 10 {
        seq![(48 + n) as u8]
    } else {
        decimal(n / 10) + seq![(48 + n % 10) as u8]
    }
}

/// The decimal text of an integer.
pub open spec fn integer_text(i: int) -> Seq<u8> {
    if i < 0 {
        seq![0x2du8] + decimal((-i) as nat)
    } else {
        decimal(i as nat)
    }
}

pub open spec fn bool_text(b: bool) -> Seq<u8> {
    if b { "true".spec_bytes() } else { "false".spec_bytes() }
}

pub open spec fn optional_integer_text(v: Option<i64>) -> Seq<u8> {
    match v {
        Some(n) => integer_text(n as int),
        None => "null".spec_bytes(),
    }
}

/// The JSON text of a value: `{"type":...,"value":...}`.
pub open spec fn value_json(v: ScopeValue) -> Seq<u8> {
    match v {
        ScopeValue::String(s) => "{\"type\":\"string\",\"value\":".spec_bytes() + json_string(s@) + "}".spec_bytes(),
        ScopeValue::Integer(n) => "{\"type\":\"integer\",\"value\":".spec_bytes() + integer_text(n as int) + "}".spec_bytes(),
        ScopeValue::Boolean(b) => "{\"type\":\"boolean\",\"value\":".spec_bytes() + bool_text(b) + "}".spec_bytes(),
        ScopeValue::Version(s) => "{\"type\":\"version\",\"value\":".spec_bytes() + json_string(s@) + "}".spec_bytes(),
    }
}

/// The JSON texts of values, separated by commas.
pub open spec fn values_json(vs: Seq<ScopeValue>) -> Seq<u8>
    decreases vs.len(),
{
    if vs.len() == 0 {
        seq![]
    } else if vs.len() == 1 {
        value_json(vs[0])
    } else {
        values_json(vs.drop_last()) + ",".spec_bytes() + value_json(vs.last())
    }
}

/// The canonical JSON text of a predicate, tagged by `"predicate"`, fields in declaration
/// order; predicates are reported in the byte order of this text.
#[verifier::opaque]
pub open spec fn canonical_json(p: ScopePredicate) -> Seq<u8> {
    match p {
        ScopePredicate::Equals { key, value } => "{\"predicate\":\"equals\",\"key\":".spec_bytes() + json_string(key@)
            + ",\"value\":".spec_bytes() + value_json(value) + "}".spec_bytes(),
        ScopePredicate::NotEquals { key, value } => "{\"predicate\":\"not_equals\",\"key\":".spec_bytes()
            + json_string(key@) + ",\"value\":".spec_bytes() + value_json(value) + "}".spec_bytes(),
        ScopePredicate::In { key, values } => "{\"predicate\":\"in\",\"key\":".spec_bytes() + json_string(key@)
            + ",\"values\":[".spec_bytes() + values_json(values@) + "]}".spec_bytes(),
        ScopePredicate::Exists { key } => "{\"predicate\":\"exists\",\"key\":".spec_bytes() + json_string(key@)
            + "}".spec_bytes(),
        ScopePredicate::Bool { key, expected } => "{\"predicate\":\"bool\",\"key\":".spec_bytes() + json_string(key@)
            + ",\"expected\":".spec_bytes() + bool_text(expected) + "}".spec_bytes(),
        ScopePredicate::IntegerRange { key, min, max } => "{\"predicate\":\"integer_range\",\"key\":".spec_bytes()
            + json_string(key@) + ",\"min\":".spec_bytes() + optional_integer_text(min) + ",\"max\":".spec_bytes()
            + optional_integer_text(max) + "}".spec_bytes(),
        ScopePredicate::VersionRange { key, requirement } => "{\"predicate\":\"version_range\",\"key\":".spec_bytes()
            + json_string(key@) + ",\"requirement\":".spec_bytes() + json_string(requirement@) + "}".spec_bytes(),
        ScopePredicate::Custom { kind, payload } => "{\"predicate\":\"custom\",\"kind\":".spec_bytes()
            + json_string(kind@) + ",\"payload\":".spec_bytes() + vstd::utf8::encode_utf8(payload@) + "}".spec_bytes(),
    }
}

fn push_bytes(out: &mut Vec<u8>, b: &[u8])
    ensures
        final(out)@ == old(out)@ + b@,
{
    let mut i: usize = 0;
    while i < b.len()
        invariant
            i <= b@.len(),
            out@ =~= old(out)@ + b@.subrange(0, i as int),
        decreases b.len() - i,
    {
        out.push(b[i]);
        i = i + 1;
    }
}

fn push_lit(out: &mut Vec<u8>, s: &str)
    ensures
        final(out)@ == old(out)@ + s.spec_bytes(),
{
    push_bytes(out, s.as_bytes());
}

fn hex_lower_exec(n: u8) -> (r: u8)
    requires
        n < 16,
    ensures
        r == hex_lower(n),
{
    if n < 10 { 48 + n } else { 87 + n }
}

pub(crate) fn push_json_string(out: &mut Vec<u8>, s: &str)
    ensures
        final(out)@ == old(out)@ + json_string(s@),
{
    let bytes = s.as_bytes();
    out.push(0x22u8);
    let ghost start = out@;
    let mut i: usize = 0;
    while i < bytes.len()
        invariant
            i <= bytes@.len(),
            bytes@ == vstd::utf8::encode_utf8(s@),
            out@ == start + json_escape(bytes@.subrange(0, i as int)),
        decreases bytes.len() - i,
    {
        let b = bytes[i];
        let ghost before = out@;
        if b == 0x22 {
            out.push(0x5c);
            out.push(0x22);
        } else if b == 0x5c {
            out.push(0x5c);
            out.push(0x5c);
        } else if b == 0x08 {
            out.push(0x5c);
            out.push(0x62);
        } else if b == 0x0c {
            out.push(0x5c);
            out.push(0x66);
        } else if b == 0x0a {
            out.push(0x5c);
            out.push(0x6e);
        } else if b == 0x0d {
            out.push(0x5c);
            out.push(0x72);
        } else if b == 0x09 {
            out.push(0x5c);
            out.push(0x74);
        } else if b < 0x20 {
            out.push(0x5c);
            out.push(0x75);
            out.push(0x30);
            out.push(0x30);
            out.push(hex_lower_exec(b / 16));
            out.push(hex_lower_exec(b % 16));
        } else {
            out.push(b);
        }
        proof {
            assert(out@ == before + json_escape_byte(b));
            assert(bytes@.subrange(0, i + 1).drop_last() =~= bytes@.subrange(0, i as int));
            assert(bytes@.subrange(0, i + 1).last() == b);
        }
        i = i + 1;
    }
    proof {
        assert(bytes@.subrange(0, bytes@.len() as int) =~= bytes@);
    }
    out.push(0x22u8);
    proof {
        assert(out@ =~= old(out)@ + json_string(s@));
    }
}

fn push_decimal(out: &mut Vec<u8>, n: u64)
    ensures
        final(out)@ == old(out)@ + decimal(n as nat),
    decreases n,
{
    if n >= 10 {
        push_decimal(out, n / 10);
    }
    let d = (n % 10) as u8;
    out.push(48 + d);
    proof {
        assert(final(out)@ =~= old(out)@ + decimal(n as nat));
    }
}

fn push_integer(out: &mut Vec<u8>, v: i64)
    ensures
        final(out)@ == old(out)@ + integer_text(v as int),
{
    if v < 0 {
        out.push(0x2du8);
        let magnitude: u64 = (-(v + 1)) as u64 + 1;
        push_decimal(out, magnitude);
        proof {
            assert(final(out)@ =~= old(out)@ + integer_text(v as int));
        }
    } else {
        push_decimal(out, v as u64);
    }
}

fn push_bool(out: &mut Vec<u8>, b: bool)
    ensures
        final(out)@ == old(out)@ + bool_text(b),
{
    if b {
        push_lit(out, "true");
    } else {
        push_lit(out, "false");
    }
}

fn push_optional_integer(out: &mut Vec<u8>, v: Option<i64>)
    ensures
        final(out)@ == old(out)@ + optional_integer_text(v),
{
    match v {
        Some(n) => push_integer(out, n),
        None => push_lit(out, "null"),
    }
}

fn push_value_json(out: &mut Vec<u8>, v: &ScopeValue)
    ensures
        final(out)@ == old(out)@ + value_json(*v),
{
    match v {
        ScopeValue::String(s) => {
            push_lit(out, "{\"type\":\"string\",\"value\":");
            push_json_string(out, s.as_str());
        },
        ScopeValue::Integer(n) => {
            push_lit(out, "{\"type\":\"integer\",\"value\":");
            push_integer(out, *n);
        },
        ScopeValue::Boolean(b) => {
            push_lit(out, "{\"type\":\"boolean\",\"value\":");
            push_bool(out, *b);
        },
        ScopeValue::Version(s) => {
            push_lit(out, "{\"type\":\"version\",\"value\":");
            push_json_string(out, s.as_str());
        },
    }
    push_lit(out, "}");
    proof {
        assert(final(out)@ =~= old(out)@ + value_json(*v));
    }
}

fn push_values_json(out: &mut Vec<u8>, vs: &Vec<ScopeValue>)
    ensures
        final(out)@ == old(out)@ + values_json(vs@),
{
    let ghost start = out@;
    let mut i: usize = 0;
    while i < vs.len()
        invariant
            i <= vs@.len(),
            out@ == start + values_json(vs@.subrange(0, i as int)),
        decreases vs.len() - i,
    {
        let ghost before = out@;
        if i > 0 {
            push_lit(out, ",");
        }
        push_value_json(out, &vs[i]);
        proof {
            let t = vs@.subrange(0, i + 1);
            assert(t.drop_last() =~= vs@.subrange(0, i as int));
            assert(t.last() == vs@[i as int]);
            if i == 0 {
                assert(t.len() == 1);
                assert(values_json(vs@.subrange(0, 0)) =~= Seq::<u8>::empty());
                assert(out@ =~= start + values_json(t));
            } else {
                assert(out@ =~= start + values_json(t));
            }
        }
        i = i + 1;
    }
    proof {
        assert(vs@.subrange(0, vs@.len() as int) =~= vs@);
    }
}

impl ScopePredicate {
    /// The canonical JSON text of the predicate.
    pub fn canonical_json(&self) -> (r: Vec<u8>)
        ensures
            r@ == canonical_json(*self),
    {
        reveal(canonical_json);
        let mut out: Vec<u8> = Vec::new();
        match self {
            ScopePredicate::Equals { key, value } => {
                push_lit(&mut out, "{\"predicate\":\"equals\",\"key\":");
                push_json_string(&mut out, key.as_str());
                push_lit(&mut out, ",\"value\":");
                push_value_json(&mut out, value);
                push_lit(&mut out, "}");
                proof { assert(out@ =~= canonical_json(*self)); }
            },
            ScopePredicate::NotEquals { key, value } => {
                push_lit(&mut out, "{\"predicate\":\"not_equals\",\"key\":");
                push_json_string(&mut out, key.as_str());
                push_lit(&mut out, ",\"value\":");
                push_value_json(&mut out, value);
                push_lit(&mut out, "}");
                proof { assert(out@ =~= canonical_json(*self)); }
            },
            ScopePredicate::In { key, values } => {
                push_lit(&mut out, "{\"predicate\":\"in\",\"key\":");
                push_json_string(&mut out, key.as_str());
                push_lit(&mut out, ",\"values\":[");
                push_values_json(&mut out, values);
                push_lit(&mut out, "]}");
                proof { assert(out@ =~= canonical_json(*self)); }
            },
            ScopePredicate::Exists { key } => {
                push_lit(&mut out, "{\"predicate\":\"exists\",\"key\":");
                push_json_string(&mut out, key.as_str());
                push_lit(&mut out, "}");
                proof { assert(out@ =~= canonical_json(*self)); }
            },
            ScopePredicate::Bool { key, expected } => {
                push_lit(&mut out, "{\"predicate\":\"bool\",\"key\":");
                push_json_string(&mut out, key.as_str());
                push_lit(&mut out, ",\"expected\":");
                push_bool(&mut out, *expected);
                push_lit(&mut out, "}");
                proof { assert(out@ =~= canonical_json(*self)); }
            },
            ScopePredicate::IntegerRange { key, min, max } => {
                push_lit(&mut out, "{\"predicate\":\"integer_range\",\"key\":");
                push_json_string(&mut out, key.as_str());
                push_lit(&mut out, ",\"min\":");
                push_optional_integer(&mut out, *min);
                push_lit(&mut out, ",\"max\":");
                push_optional_integer(&mut out, *max);
                push_lit(&mut out, "}");
                proof { assert(out@ =~= canonical_json(*self)); }
            },
            ScopePredicate::VersionRange { key, requirement } => {
                push_lit(&mut out, "{\"predicate\":\"version_range\",\"key\":");
                push_json_string(&mut out, key.as_str());
                push_lit(&mut out, ",\"requirement\":");
                push_json_string(&mut out, requirement.as_str());
                push_lit(&mut out, "}");
                proof { assert(out@ =~= canonical_json(*self)); }
            },
            ScopePredicate::Custom { kind, payload } => {
                push_lit(&mut out, "{\"predicate\":\"custom\",\"kind\":");
                push_json_string(&mut out, kind.as_str());
                push_lit(&mut out, ",\"payload\":");
                push_bytes(&mut out, payload.as_str().as_bytes());
                push_lit(&mut out, "}");
                proof { assert(out@ =~= canonical_json(*self)); }
            },
        }
        out
    }
}

// ---------------------------------------------------------------------------------------
// Applicability.
// ---------------------------------------------------------------------------------------

/// The context key a predicate constrains; custom predicates constrain none.
pub open spec fn predicate_key(p: ScopePredicate) -> Option<Seq<char>> {
    match p {
        ScopePredicate::Equals { key, .. } => Some(key@),
        ScopePredicate::NotEquals { key, .. } => Some(key@),
        ScopePredicate::In { key, .. } => Some(key@),
        ScopePredicate::Exists { key } => Some(key@),
        ScopePredicate::Bool { key, .. } => Some(key@),
        ScopePredicate::IntegerRange { key, .. } => Some(key@),
        ScopePredicate::VersionRange { key, .. } => Some(key@),
        ScopePredicate::Custom { .. } => None,
    }
}

/// Whether a present context value satisfies the predicate; `None` where that cannot be
/// decided (an empty integer range, a version text that does not parse, a custom predicate).
#[verifier::opaque]
pub open spec fn predicate_outcome_on(p: ScopePredicate, v: ScopeValue) -> Option<bool> {
    match p {
        ScopePredicate::Equals { value, .. } => Some(value_same(v, value)),
        ScopePredicate::NotEquals { value, .. } => Some(!value_same(v, value)),
        ScopePredicate::In { values, .. } => Some(
            exists|i: int| 0 <= i < values@.len() && value_same(#[trigger] values@[i], v),
        ),
        ScopePredicate::Exists { .. } => Some(true),
        ScopePredicate::Bool { expected, .. } => Some(v == ScopeValue::Boolean(expected)),
        ScopePredicate::IntegerRange { min, max, .. } => {
            if min is Some && max is Some && min->0 > max->0 {
                None
            } else {
                Some(
                    match v {
                        ScopeValue::Integer(n) => (min is None || n >= min->0) && (max is None || n <= max->0),
                        _ => false,
                    },
                )
            }
        },
        ScopePredicate::VersionRange { requirement, .. } => match v {
            ScopeValue::Version(s) => semver_match(requirement@, s@),
            ScopeValue::String(s) => semver_match(requirement@, s@),
            _ => if semver_requirement(requirement@) is Some {
                Some(false)
            } else {
                None
            },
        },
        ScopePredicate::Custom { .. } => None,
    }
}

/// Context keys are unique, as in a map.
pub open spec fn context_wf(s: Seq<(String, ScopeValue)>) -> bool {
    forall|a: int, b: int| 0 <= a < s.len() && 0 <= b < s.len() && a != b ==> (#[trigger] s[a]).0@ != (#[trigger] s[b]).0@
}

/// The value the context holds under a key.
pub open spec fn context_lookup(s: Seq<(String, ScopeValue)>, key: Seq<char>) -> Option<ScopeValue> {
    if exists|i: int| 0 <= i < s.len() && (#[trigger] s[i]).0@ == key {
        Some(s[choose|i: int| 0 <= i < s.len() && (#[trigger] s[i]).0@ == key].1)
    } else {
        None
    }
}

/// Whether the context satisfies the predicate; `None` where the key is absent or the
/// predicate cannot be decided.
#[verifier::opaque]
pub open spec fn predicate_outcome(p: ScopePredicate, ctx: Seq<(String, ScopeValue)>) -> Option<bool> {
    match predicate_key(p) {
        None => None,
        Some(k) => match context_lookup(ctx, k) {
            None => None,
            Some(v) => predicate_outcome_on(p, v),
        },
    }
}

/// The distinct predicates of `ps` in canonical order: ordered by canonical text, each
/// one of `ps`, and every predicate of `ps` represented.
pub open spec fn canonical_order(ps: Seq<ScopePredicate>, order: Seq<ScopePredicate>) -> bool {
    &&& forall|a: int, b: int|
        0 <= a < b < order.len() ==> bytes_lt(canonical_json(#[trigger] order[a]), canonical_json(#[trigger] order[b]))
    &&& forall|i: int| 0 <= i < order.len() ==> drawn_from(#[trigger] order[i], ps, ps.len() as int)
    &&& forall|j: int| 0 <= j < ps.len() ==> represented(order, canonical_json(#[trigger] ps[j]))
}

/// `x` is one of the first `n` predicates of `ps`.
#[verifier::opaque]
pub open spec fn drawn_from(x: ScopePredicate, ps: Seq<ScopePredicate>, n: int) -> bool {
    exists|j: int| #![trigger ps[j]] 0 <= j < n && predicate_same(x, ps[j])
}

/// Some predicate of `order` has the canonical text `key`.
#[verifier::opaque]
pub open spec fn represented(order: Seq<ScopePredicate>, key: Seq<u8>) -> bool {
    exists|i: int| #![trigger order[i]] 0 <= i < order.len() && canonical_json(order[i]) == key
}

pub open spec fn status_of(matched: nat, failed: nat, unknown: nat) -> ApplicabilityStatus {
    if failed > 0 {
        ApplicabilityStatus::Inapplicable
    } else if unknown == 0 {
        ApplicabilityStatus::Applicable
    } else if matched == 0 {
        ApplicabilityStatus::Unknown
    } else {
        ApplicabilityStatus::PartiallyKnown
    }
}

/// The predicates whose outcome in `ctx` is `want`.
pub open spec fn outcome_is(ctx: Seq<(String, ScopeValue)>, want: Option<bool>) -> spec_fn(ScopePredicate) -> bool {
    |p: ScopePredicate| predicate_outcome(p, ctx) == want
}

/// `r` reports the predicates of `order` by their outcome in `ctx`.
pub open spec fn reports(order: Seq<ScopePredicate>, ctx: Seq<(String, ScopeValue)>, r: KnowledgeApplicability) -> bool {
    &&& r.matched@ == order.filter(outcome_is(ctx, Some(true)))
    &&& r.failed@ == order.filter(outcome_is(ctx, Some(false)))
    &&& r.unknown@ == order.filter(outcome_is(ctx, None))
    &&& r.status == status_of(r.matched@.len(), r.failed@.len(), r.unknown@.len())
}

impl KnowledgeContext {
    pub open spec fn wf(&self) -> bool {
        context_wf(self.values@)
    }

    /// The value under `key`.
    pub fn get(&self, key: &str) -> (r: Option<&ScopeValue>)
        requires
            self.wf(),
        ensures
            match r {
                Some(v) => context_lookup(self.values@, key@) == Some(*v),
                None => context_lookup(self.values@, key@) is None,
            },
    {
        let n = self.values.len();
        let mut i: usize = 0;
        while i < n
            invariant
                n == self.values@.len(),
                i <= n,
                context_wf(self.values@),
                forall|k: int| 0 <= k < i ==> (#[trigger] self.values@[k]).0@ != key@,
            decreases n - i,
        {
            if crate::text::str_eq(self.values[i].0.as_str(), key) {
                proof {
                    assert(self.values@[i as int].0@ == key@);
                    assert(exists|j: int| 0 <= j < self.values@.len() && (#[trigger] self.values@[j]).0@ == key@);
                    let c = choose|j: int| 0 <= j < self.values@.len() && (#[trigger] self.values@[j]).0@ == key@;
                    if c != i {
                        assert(self.values@[c].0@ != self.values@[i as int].0@);
                    }
                }
                return Some(&self.values[i].1);
            }
            i = i + 1;
        }
        None
    }
}

impl ScopePredicate {
    /// The context key the predicate constrains.
    pub fn key(&self) -> (r: Option<&str>)
        ensures
            match r {
                Some(k) => predicate_key(*self) == Some(k@),
                None => predicate_key(*self) is None,
            },
    {
        match self {
            ScopePredicate::Equals { key, .. } => Some(key.as_str()),
            ScopePredicate::NotEquals { key, .. } => Some(key.as_str()),
            ScopePredicate::In { key, .. } => Some(key.as_str()),
            ScopePredicate::Exists { key } => Some(key.as_str()),
            ScopePredicate::Bool { key, .. } => Some(key.as_str()),
            ScopePredicate::IntegerRange { key, .. } => Some(key.as_str()),
            ScopePredicate::VersionRange { key, .. } => Some(key.as_str()),
            ScopePredicate::Custom { .. } => None,
        }
    }

    /// Whether a present value satisfies the predicate.
    pub fn matches(&self, value: &ScopeValue) -> (r: Option<bool>)
        ensures
            r == predicate_outcome_on(*self, *value),
    {
        reveal(predicate_outcome_on);
        match self {
            ScopePredicate::Equals { value: expected, .. } => Some(value.same_as(expected)),
            ScopePredicate::NotEquals { value: expected, .. } => Some(!value.same_as(expected)),
            ScopePredicate::In { values, .. } => {
                let mut i: usize = 0;
                let mut found = false;
                while i < values.len() && !found
                    invariant
                        i <= values@.len(),
                        found ==> exists|k: int| 0 <= k < values@.len() && value_same(#[trigger] values@[k], *value),
                        !found ==> forall|k: int| 0 <= k < i ==> !value_same(#[trigger] values@[k], *value),
                    decreases values.len() - i,
                {
                    if values[i].same_as(value) {
                        found = true;
                    }
                    i = i + 1;
                }
                Some(found)
            },
            ScopePredicate::Exists { .. } => Some(true),
            ScopePredicate::Bool { expected, .. } => match value {
                ScopeValue::Boolean(b) => Some(*b == *expected),
                _ => Some(false),
            },
            ScopePredicate::IntegerRange { min, max, .. } => {
                if let (Some(a), Some(b)) = (min, max) {
                    if *a > *b {
                        return None;
                    }
                }
                match value {
                    ScopeValue::Integer(n) => {
                        let above = match min {
                            Some(m) => *n >= *m,
                            None => true,
                        };
                        let below = match max {
                            Some(m) => *n <= *m,
                            None => true,
                        };
                        Some(above && below)
                    },
                    _ => Some(false),
                }
            },
            ScopePredicate::VersionRange { requirement, .. } => match value {
                ScopeValue::Version(s) => requirement_matches(requirement.as_str(), s.as_str()),
                ScopeValue::String(s) => requirement_matches(requirement.as_str(), s.as_str()),
                _ => {
                    if crate::versions::parse_requirement(requirement.as_str()).is_some() {
                        Some(false)
                    } else {
                        None
                    }
                },
            },
            ScopePredicate::Custom { .. } => None,
        }
    }

    /// Whether the context satisfies the predicate.
    pub fn outcome(&self, context: &KnowledgeContext) -> (r: Option<bool>)
        requires
            context.wf(),
        ensures
            r == predicate_outcome(*self, context.values@),
    {
        reveal(predicate_outcome);
        match self.key() {
            None => None,
            Some(k) => match context.get(k) {
                None => None,
                Some(v) => self.matches(v),
            },
        }
    }
}

proof fn lemma_same_predicates_agree(a: ScopePredicate, b: ScopePredicate, ctx: Seq<(String, ScopeValue)>)
    requires
        predicate_same(a, b),
    ensures
        canonical_json(a) == canonical_json(b),
        predicate_outcome(a, ctx) == predicate_outcome(b, ctx),
        predicate_key(a) == predicate_key(b),
{
    reveal(predicate_same);
    reveal(canonical_json);
    reveal(predicate_outcome);
    reveal(predicate_outcome_on);
}

/// Some entry is filed under `key`.
#[verifier::opaque]
pub open spec fn filed_under(s: Seq<(Vec<u8>, ScopePredicate)>, key: Seq<u8>) -> bool {
    has_key(s, key)
}

proof fn lemma_drawn_widen(x: ScopePredicate, ps: Seq<ScopePredicate>, i: int)
    requires
        drawn_from(x, ps, i),
    ensures
        drawn_from(x, ps, i + 1),
{
    reveal(drawn_from);
    let j = choose|j: int| #![trigger ps[j]] 0 <= j < i && predicate_same(x, ps[j]);
    assert(0 <= j < i + 1 && predicate_same(x, ps[j]));
}

proof fn lemma_drawn_new(x: ScopePredicate, ps: Seq<ScopePredicate>, i: int)
    requires
        0 <= i < ps.len(),
        predicate_same(x, ps[i]),
    ensures
        drawn_from(x, ps, i + 1),
{
    reveal(drawn_from);
    assert(0 <= i < i + 1 && predicate_same(x, ps[i]));
}

proof fn lemma_filed_insert(
    before: Seq<(Vec<u8>, ScopePredicate)>,
    q: int,
    e: (Vec<u8>, ScopePredicate),
    key: Seq<u8>,
)
    requires
        0 <= q <= before.len(),
        filed_under(before, key) || key == e.0@,
    ensures
        filed_under(before.insert(q, e), key),
{
    reveal(filed_under);
    let after = before.insert(q, e);
    if key == e.0@ {
        assert(after[q].0@ == key);
    } else {
        let k = choose|k: int| 0 <= k < before.len() && (#[trigger] before[k]).0@ == key;
        if k < q {
            assert(after[k] == before[k]);
        } else {
            assert(after[k + 1] == before[k]);
        }
    }
}

proof fn lemma_sorted_insert_step(
    before: Seq<(Vec<u8>, ScopePredicate)>,
    after: Seq<(Vec<u8>, ScopePredicate)>,
    entry: (Vec<u8>, ScopePredicate),
    inserted: bool,
    ps: Seq<ScopePredicate>,
    i: int,
)
    requires
        0 <= i < ps.len(),
        entry.0@ == canonical_json(entry.1),
        predicate_same(entry.1, ps[i]),
        canonical_json(entry.1) == canonical_json(ps[i]),
        forall|k: int| 0 <= k < before.len() ==> (#[trigger] before[k]).0@ == canonical_json(before[k].1),
        forall|k: int| 0 <= k < before.len() ==> drawn_from((#[trigger] before[k]).1, ps, i),
        forall|j: int| 0 <= j < i ==> filed_under(before, canonical_json(#[trigger] ps[j])),
        inserted == !filed_under(before, entry.0@),
        !inserted ==> after == before,
        inserted ==> exists|p: int| 0 <= p <= before.len() && after == before.insert(p, entry),
    ensures
        forall|k: int| 0 <= k < after.len() ==> (#[trigger] after[k]).0@ == canonical_json(after[k].1),
        forall|k: int| 0 <= k < after.len() ==> drawn_from((#[trigger] after[k]).1, ps, i + 1),
        forall|j: int| 0 <= j < i + 1 ==> filed_under(after, canonical_json(#[trigger] ps[j])),
{
    if inserted {
        let q = choose|q: int| 0 <= q <= before.len() && after == before.insert(q, entry);
        assert forall|k: int| 0 <= k < after.len() implies (#[trigger] after[k]).0@ == canonical_json(after[k].1) by {
            if k < q {
                assert(after[k] == before[k]);
            } else if k > q {
                assert(after[k] == before[k - 1]);
            }
        }
        assert forall|k: int| 0 <= k < after.len() implies drawn_from((#[trigger] after[k]).1, ps, i + 1) by {
            if k < q {
                assert(after[k] == before[k]);
                lemma_drawn_widen(before[k].1, ps, i);
            } else if k > q {
                assert(after[k] == before[k - 1]);
                lemma_drawn_widen(before[k - 1].1, ps, i);
            } else {
                lemma_drawn_new(after[k].1, ps, i);
            }
        }
        assert forall|j: int| 0 <= j < i + 1 implies filed_under(after, canonical_json(#[trigger] ps[j])) by {
            lemma_filed_insert(before, q, entry, canonical_json(ps[j]));
        }
    } else {
        assert forall|k: int| 0 <= k < after.len() implies drawn_from((#[trigger] after[k]).1, ps, i + 1) by {
            lemma_drawn_widen(after[k].1, ps, i);
        }
    }
}

/// The distinct predicates of `ps`, each under its canonical text, in canonical order.
#[verifier::rlimit(80)]
fn canonical_entries(ps: &Vec<ScopePredicate>) -> (sorted: Vec<(Vec<u8>, ScopePredicate)>)
    ensures
        keys_sorted(sorted@),
        forall|k: int| 0 <= k < sorted@.len() ==> (#[trigger] sorted@[k]).0@ == canonical_json(sorted@[k].1),
        forall|k: int| 0 <= k < sorted@.len() ==> drawn_from((#[trigger] sorted@[k]).1, ps@, ps@.len() as int),
        forall|j: int| 0 <= j < ps@.len() ==> filed_under(sorted@, canonical_json(#[trigger] ps@[j])),
{
        let mut sorted: Vec<(Vec<u8>, ScopePredicate)> = Vec::new();
        let mut i: usize = 0;
        while i < ps.len()
            invariant
                i <= ps@.len(),
                keys_sorted(sorted@),
                forall|k: int| 0 <= k < sorted@.len() ==> (#[trigger] sorted@[k]).0@ == canonical_json(sorted@[k].1),
                forall|k: int| 0 <= k < sorted@.len() ==> drawn_from((#[trigger] sorted@[k]).1, ps@, i as int),
                forall|j: int| 0 <= j < i ==> filed_under(sorted@, canonical_json(#[trigger] ps@[j])),
            decreases ps.len() - i,
        {
            let p = ps[i].duplicate();
            let key = p.canonical_json();
            proof {
                lemma_same_predicates_agree(p, ps@[i as int], Seq::empty());
            }
            let ghost before = sorted@;
            let ghost entry = (key, p);
            let inserted = insert_unique(&mut sorted, key, p);
            proof {
                reveal(filed_under);
                lemma_sorted_insert_step(before, sorted@, entry, inserted, ps@, i as int);
            }
            i = i + 1;
        }
        sorted
}

proof fn lemma_entries_canonical(pairs: Seq<(Vec<u8>, ScopePredicate)>, ps: Seq<ScopePredicate>)
    requires
        keys_sorted(pairs),
        forall|k: int| 0 <= k < pairs.len() ==> (#[trigger] pairs[k]).0@ == canonical_json(pairs[k].1),
        forall|k: int| 0 <= k < pairs.len() ==> drawn_from((#[trigger] pairs[k]).1, ps, ps.len() as int),
        forall|j: int| 0 <= j < ps.len() ==> filed_under(pairs, canonical_json(#[trigger] ps[j])),
    ensures
        canonical_order(ps, pairs.map_values(|e: (Vec<u8>, ScopePredicate)| e.1)),
{
    let order = pairs.map_values(|e: (Vec<u8>, ScopePredicate)| e.1);
    assert forall|a: int, b: int| 0 <= a < b < order.len() implies bytes_lt(
        canonical_json(#[trigger] order[a]),
        canonical_json(#[trigger] order[b]),
    ) by {
        assert(order[a] == pairs[a].1);
        assert(order[b] == pairs[b].1);
        assert(pairs[a].0@ == canonical_json(pairs[a].1));
        assert(pairs[b].0@ == canonical_json(pairs[b].1));
    }
    assert forall|i: int| 0 <= i < order.len() implies drawn_from(#[trigger] order[i], ps, ps.len() as int) by {
        assert(order[i] == pairs[i].1);
    }
    assert forall|j: int| 0 <= j < ps.len() implies represented(order, canonical_json(#[trigger] ps[j])) by {
        assert(filed_under(pairs, canonical_json(ps[j])));
        reveal(filed_under);
        reveal(represented);
        let k = choose|k: int| 0 <= k < pairs.len() && (#[trigger] pairs[k]).0@ == canonical_json(ps[j]);
        assert(order[k] == pairs[k].1);
        assert(pairs[k].0@ == canonical_json(pairs[k].1));
    }
    assert(canonical_order(ps, order));
}

/// Evaluates scopes against contexts by their predicates' outcomes.
#[derive(Clone, Copy, Debug)]
pub struct DeterministicApplicabilityEvaluator;

impl DeterministicApplicabilityEvaluator {
    /// The applicability of `scope` in `context`: its distinct predicates in canonical order,
    /// split into matched, failed and undecided; inapplicable if any failed, applicable if
    /// none is undecided, unknown if nothing matched, otherwise partially known.
    pub fn evaluate(&self, scope: &KnowledgeScope, context: &KnowledgeContext) -> (r: KnowledgeApplicability)
        requires
            context.wf(),
        ensures
            exists|order: Seq<ScopePredicate>|
                canonical_order(scope.predicates@, order) && reports(order, context.values@, r),
    {
        let ps = &scope.predicates;
        let mut sorted = canonical_entries(ps);
        let ghost pairs = sorted@;
        let ghost order = pairs.map_values(|e: (Vec<u8>, ScopePredicate)| e.1);
        let ghost ctx = context.values@;
        proof {
            lemma_entries_canonical(pairs, ps@);
            assert(canonical_order(ps@, order));
        }
        let mut matched: Vec<ScopePredicate> = Vec::new();
        let mut failed: Vec<ScopePredicate> = Vec::new();
        let mut unknown: Vec<ScopePredicate> = Vec::new();
        let ghost mut done: int = 0;
        while sorted.len() > 0
            invariant
                context.wf(),
                ctx == context.values@,
                0 <= done <= pairs.len(),
                order.len() == pairs.len(),
                forall|k: int| 0 <= k < order.len() ==> #[trigger] order[k] == pairs[k].1,
                sorted@ =~= pairs.subrange(done, pairs.len() as int),
                matched@ == order.subrange(0, done).filter(outcome_is(ctx, Some(true))),
                failed@ == order.subrange(0, done).filter(outcome_is(ctx, Some(false))),
                unknown@ == order.subrange(0, done).filter(outcome_is(ctx, None)),
            decreases sorted.len(),
        {
            let (_, p) = sorted.remove(0);
            let o = p.outcome(context);
            proof {
                assert(p == pairs[done].1);
                assert(p == order[done]);
            }
            match o {
                Some(true) => matched.push(p),
                Some(false) => failed.push(p),
                None => unknown.push(p),
            }
            proof {
                reveal(Seq::filter);
                let t = order.subrange(0, done + 1);
                assert(t.drop_last() =~= order.subrange(0, done));
                assert(t.last() == p);
                assert(outcome_is(ctx, Some(true))(p) == (o == Some(true)));
                assert(outcome_is(ctx, Some(false))(p) == (o == Some(false)));
                assert(outcome_is(ctx, None)(p) == (o is None));
                done = done + 1;
                assert(sorted@ =~= pairs.subrange(done, pairs.len() as int));
            }
        }
        proof {
            assert(order.subrange(0, done) =~= order);
        }
        let status = if failed.len() > 0 {
            ApplicabilityStatus::Inapplicable
        } else if unknown.len() == 0 {
            ApplicabilityStatus::Applicable
        } else if matched.len() == 0 {
            ApplicabilityStatus::Unknown
        } else {
            ApplicabilityStatus::PartiallyKnown
        };
        let r = KnowledgeApplicability { status, matched, failed, unknown };
        proof {
            assert(reports(order, ctx, r));
        }
        r
    }
}

// ---------------------------------------------------------------------------------------
// Specificity.
// ---------------------------------------------------------------------------------------

/// How many constrained keys a scope pins exactly, bounds, or only requires to exist.
#[derive(Clone, Copy, Debug, PartialEq, Eq, Structural)]
pub struct ScopeSpecificity {
    pub exact_predicates: usize,
    pub bounded_predicates: usize,
    pub existence_predicates: usize,
}

/// How tightly one predicate constrains its key: 3 exact, 2 bounded, 1 existence, 0 custom.
pub open spec fn predicate_rank(p: ScopePredicate) -> u8 {
    match p {
        ScopePredicate::Equals { .. } | ScopePredicate::Bool { .. } => 3,
        ScopePredicate::In { .. } | ScopePredicate::IntegerRange { .. } | ScopePredicate::VersionRange { .. }
        | ScopePredicate::NotEquals { .. } => 2,
        ScopePredicate::Exists { .. } => 1,
        ScopePredicate::Custom { .. } => 0,
    }
}

pub open spec fn dim_index(d: Seq<(Seq<char>, u8)>, k: Seq<char>, i: int) -> int
    decreases d.len() - i,
{
    if i < 0 || i >= d.len() {
        -1
    } else if d[i].0 == k {
        i
    } else {
        dim_index(d, k, i + 1)
    }
}

/// Each constrained key with the tightest rank of its predicates, in order of first appearance.
pub open spec fn dimensions(ps: Seq<ScopePredicate>) -> Seq<(Seq<char>, u8)>
    decreases ps.len(),
{
    if ps.len() == 0 {
        seq![]
    } else {
        let d = dimensions(ps.drop_last());
        let p = ps.last();
        match predicate_key(p) {
            None => d,
            Some(k) => {
                let i = dim_index(d, k, 0);
                let r = predicate_rank(p);
                if i < 0 {
                    d.push((k, r))
                } else {
                    d.update(i, (k, if d[i].1 >= r { d[i].1 } else { r }))
                }
            },
        }
    }
}

/// How many dimensions have rank `r`.
pub open spec fn rank_count(d: Seq<(Seq<char>, u8)>, r: u8) -> nat
    decreases d.len(),
{
    if d.len() == 0 {
        0
    } else {
        rank_count(d.drop_last(), r) + if d.last().1 == r { 1nat } else { 0nat }
    }
}

proof fn lemma_dim_index(d: Seq<(Seq<char>, u8)>, k: Seq<char>, i: int)
    requires
        0 <= i,
    ensures
        dim_index(d, k, i) >= 0 ==> i <= dim_index(d, k, i) < d.len() && d[dim_index(d, k, i)].0 == k,
        dim_index(d, k, i) < 0 ==> dim_index(d, k, i) == -1,
    decreases d.len() - i,
{
    if i < d.len() && d[i].0 != k {
        lemma_dim_index(d, k, i + 1);
    }
}

fn rank_of(p: &ScopePredicate) -> (r: u8)
    ensures
        r == predicate_rank(*p),
{
    match p {
        ScopePredicate::Equals { .. } | ScopePredicate::Bool { .. } => 3,
        ScopePredicate::In { .. } | ScopePredicate::IntegerRange { .. } | ScopePredicate::VersionRange { .. }
        | ScopePredicate::NotEquals { .. } => 2,
        ScopePredicate::Exists { .. } => 1,
        ScopePredicate::Custom { .. } => 0,
    }
}

pub open spec fn dims_view(v: Seq<(String, u8)>) -> Seq<(Seq<char>, u8)> {
    v.map_values(|e: (String, u8)| (e.0@, e.1))
}

impl KnowledgeScope {
    /// Counts the constrained keys by the tightest predicate on each: exact (equality,
    /// boolean), bounded (membership, ranges, exclusion) or existence; custom predicates
    /// constrain no key.
    pub fn specificity(&self) -> (r: ScopeSpecificity)
        ensures
            r.exact_predicates == rank_count(dimensions(self.predicates@), 3),
            r.bounded_predicates == rank_count(dimensions(self.predicates@), 2),
            r.existence_predicates == rank_count(dimensions(self.predicates@), 1),
    {
        let ps = &self.predicates;
        let mut dims: Vec<(String, u8)> = Vec::new();
        let mut i: usize = 0;
        proof {
            assert(ps@.subrange(0, 0) =~= Seq::<ScopePredicate>::empty());
            assert(dims_view(dims@) =~= Seq::<(Seq<char>, u8)>::empty());
        }
        while i < ps.len()
            invariant
                i <= ps@.len(),
                dims_view(dims@) == dimensions(ps@.subrange(0, i as int)),
                dims@.len() <= i,
            decreases ps.len() - i,
        {
            let p = &ps[i];
            let ghost t = ps@.subrange(0, i + 1);
            let ghost d = dims_view(dims@);
            proof {
                assert(t.drop_last() =~= ps@.subrange(0, i as int));
                assert(t.last() == *p);
            }
            match p.key() {
                None => {},
                Some(key) => {
                    let r = rank_of(p);
                    let mut j: usize = 0;
                    let mut found = false;
                    while j < dims.len() && !found
                        invariant
                            j <= dims@.len(),
                            d == dims_view(dims@),
                            found ==> j >= 1 && dim_index(d, key@, 0) == j - 1,
                            !found ==> dim_index(d, key@, 0) == dim_index(d, key@, j as int),
                        decreases dims.len() - j,
                    {
                        if crate::text::str_eq(dims[j].0.as_str(), key) {
                            found = true;
                        }
                        j = j + 1;
                    }
                    if found {
                        let idx = j - 1;
                        proof {
                            lemma_dim_index(d, key@, 0);
                        }
                        let old_rank = dims[idx].1;
                        let (k, _) = dims.remove(idx);
                        let best = if old_rank >= r { old_rank } else { r };
                        dims.insert(idx, (k, best));
                        proof {
                            assert(dims_view(dims@) =~= d.update(idx as int, (key@, best)));
                        }
                    } else {
                        proof {
                            assert(dim_index(d, key@, j as int) == -1);
                        }
                        dims.push((String::from_str(key), r));
                        proof {
                            assert(dims_view(dims@) =~= d.push((key@, r)));
                        }
                    }
                },
            }
            i = i + 1;
        }
        proof {
            assert(ps@.subrange(0, ps@.len() as int) =~= ps@);
        }
        let ghost dv = dims_view(dims@);
        let mut exact: usize = 0;
        let mut bounded: usize = 0;
        let mut existence: usize = 0;
        let mut k: usize = 0;
        while k < dims.len()
            invariant
                k <= dims@.len(),
                dv == dims_view(dims@),
                exact == rank_count(dv.subrange(0, k as int), 3),
                bounded == rank_count(dv.subrange(0, k as int), 2),
                existence == rank_count(dv.subrange(0, k as int), 1),
                exact <= k && bounded <= k && existence <= k,
            decreases dims.len() - k,
        {
            proof {
                let t = dv.subrange(0, k + 1);
                assert(t.drop_last() =~= dv.subrange(0, k as int));
                assert(t.last().1 == dims@[k as int].1);
            }
            let r = dims[k].1;
            if r == 3 {
                exact = exact + 1;
            } else if r == 2 {
                bounded = bounded + 1;
            } else if r == 1 {
                existence = existence + 1;
            }
            k = k + 1;
        }
        proof {
            assert(dv.subrange(0, dv.len() as int) =~= dv);
        }
        ScopeSpecificity { exact_predicates: exact, bounded_predicates: bounded, existence_predicates: existence }
    }
}

} // verus!
