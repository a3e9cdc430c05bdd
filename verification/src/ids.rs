//! Session identifiers: opaque 128-bit values with a canonical text
//! form, generated at session creation and used only for lookup.
//!
//! The text form and its parse are delegated to the `uuid` crate; the
//! library speaks of the parse through the name [`parsed_uuid`].

use vstd::prelude::*;

verus! {

/// What the identifier parser returns on a given string: `Some` of the
/// 128-bit value for a well-formed identifier text, `None` for a
/// malformed one. The result depends on the characters alone.
pub uninterp spec fn parsed_uuid(s: Seq<char>) -> Option<u128>;

/// Relies on `uuid::Uuid::parse_str` (and `Uuid::as_u128`, big-endian):
/// parses a textual identifier, hexadecimal digits with optional
/// hyphens; the result depends on the input characters alone.
#[verifier::external_body]
pub fn parse_session_id(s: &str) -> (r: Option<u128>)
    ensures
        r == parsed_uuid(s@),
{
    match uuid::Uuid::parse_str(s) {
        Ok(u) => Some(u.as_u128()),
        Err(_) => None,
    }
}

/// Relies on `uuid::Uuid::new_v4`: a freshly generated random
/// identifier. Nothing is promised of the value; callers must treat a
/// collision with an existing identifier as possible. The call inherits
/// the generator's behaviour if the operating system's random source
/// fails: it then does not return. No input of this library triggers
/// that; it is environmental, like exhausting memory.
#[verifier::external_body]
pub fn fresh_session_id() -> (r: u128) {
    uuid::Uuid::new_v4().as_u128()
}

/// Relies on `uuid::Uuid::from_u128` and the `Display` form of `Uuid`
/// (lowercase hyphenated hexadecimal), which `Uuid::parse_str` accepts
/// and parses back to the same 128-bit value.
#[verifier::external_body]
pub fn session_id_text(id: u128) -> (r: String)
    ensures
        parsed_uuid(r@) == Some(id),
{
    uuid::Uuid::from_u128(id).to_string()
}

} // verus!
