//! The device identifier.
//!
//! A device is identified by a UUID. The library keeps the identifier as its
//! 128-bit value; reading and writing the textual forms is the work of the
//! `uuid` crate, behind the two trusted wrappers below.

use vstd::prelude::*;

verus! {

/// The 128-bit value denoted by a textual UUID, or `None` when the bytes are
/// not one of the accepted forms. A function of the bytes alone.
pub uninterp spec fn uuid_of(s: Seq<u8>) -> Option<u128>;

/// The hyphenated lower-case textual form of a UUID value. A function of the
/// value alone.
pub uninterp spec fn uuid_text_of(u: u128) -> Seq<char>;

/// Relies on `uuid::Uuid::try_parse_ascii`: whether the bytes are an accepted
/// textual UUID, and which value they denote, depend on the bytes alone
/// (`as_u128` only converts the parsed value).
#[verifier::external_body]
pub(crate) fn parse_uuid(b: &[u8]) -> (r: Option<u128>)
    ensures
        r == uuid_of(b@),
{
    match uuid::Uuid::try_parse_ascii(b) {
        Ok(u) => Some(u.as_u128()),
        Err(_) => None,
    }
}

/// Relies on `uuid::Uuid`'s `Display` form: the hyphenated lower-case
/// encoding, 36 characters, a function of the value alone (`from_u128` only
/// converts the argument).
#[verifier::external_body]
pub(crate) fn uuid_to_string(u: u128) -> (r: String)
    ensures
        r@ == uuid_text_of(u),
        r@.len() == 36,
{
    uuid::Uuid::from_u128(u).to_string()
}

} // verus!
