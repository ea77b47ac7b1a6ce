//! Identifiers at the boundary: the store works with 128-bit ids, the
//! outside world writes them as UUID strings.

use vstd::prelude::*;

verus! {

/// What UUID parsing yields on the given characters: a function of
/// the text alone, `None` exactly on malformed input.
pub uninterp spec fn parsed_uuid(s: Seq<char>) -> Option<u128>;

/// Relies on uuid::Uuid::parse_str (and as_u128, a plain conversion):
/// the 128-bit value a UUID string denotes, a function of the
/// characters alone.
#[verifier::external_body]
pub(crate) fn parse_id(s: &str) -> (r: Option<u128>)
    ensures
        r == parsed_uuid(s@),
{
    match uuid::Uuid::parse_str(s) {
        Ok(u) => Some(u.as_u128()),
        Err(_) => None,
    }
}

/// What formatting a UUID yields: the hyphenated lowercase form, a
/// function of the value alone.
pub uninterp spec fn uuid_str_of(x: u128) -> Seq<char>;

/// Relies on uuid::Uuid's Display form via to_string (from_u128 is a
/// plain conversion): 36 characters, hyphenated, a function of the
/// value alone.
#[verifier::external_body]
pub(crate) fn id_string(x: u128) -> (r: String)
    ensures
        r@ == uuid_str_of(x),
        r@.len() == 36,
{
    uuid::Uuid::from_u128(x).to_string()
}

/// Relies on uuid::Uuid::new_v4: a freshly drawn random id.  Nothing
/// is assumed about the value, so no caller may depend on it.
#[verifier::external_body]
pub(crate) fn fresh_id() -> u128 {
    uuid::Uuid::new_v4().as_u128()
}

} // verus!
