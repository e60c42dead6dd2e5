//! Fresh identifiers: a prefix followed by a random version-4 UUID.
use vstd::prelude::*;

verus! {

/// A new random UUID in its 36-character hyphenated form, from `uuid::Uuid::new_v4`.
/// Nothing is claimed of its value but its length.
#[verifier::external_body]
fn new_uuid_v4() -> (r: String)
    ensures
        r@.len() == 36,
{
    uuid::Uuid::new_v4().hyphenated().to_string()
}

/// A fresh identifier made of `prefix` and a random UUID.
pub fn fresh_id(prefix: &str) -> (r: String)
    ensures
        r@.len() == prefix@.len() + 36,
        r@.subrange(0, prefix@.len() as int) == prefix@,
{
    let u = new_uuid_v4();
    let mut s = prefix.to_string();
    s.append(u.as_str());
    assert(s@.subrange(0, prefix@.len() as int) =~= prefix@);
    s
}

} // verus!
