use vstd::prelude::*;

verus! {

/// The hyphenated text form of the identifier whose big-endian bits are `n`.
pub uninterp spec fn uuid_str_of(n: u128) -> Seq<char>;

/// The identifier bits that parsing reads out of `s`, if `s` is a valid
/// textual identifier.
pub uninterp spec fn uuid_parse_of(s: Seq<char>) -> Option<u128>;

/// Relies on uuid::Uuid::new_v4: a freshly drawn random identifier.
/// Nothing is promised of the value.
#[verifier::external_body]
pub(crate) fn fresh_uuid() -> u128 {
    uuid::Uuid::new_v4().as_u128()
}

/// Relies on uuid::Uuid::from_u128 and its Display impl: the hyphenated form
/// is a function of the bits alone, and uuid::Uuid::parse_str reads the same
/// bits back from any text the crate's formatter produces.
#[verifier::external_body]
pub(crate) fn uuid_string(n: u128) -> (r: String)
    ensures
        r@ == uuid_str_of(n),
        uuid_parse_of(r@) == Some(n),
{
    uuid::Uuid::from_u128(n).to_string()
}

/// Relies on uuid::Uuid::parse_str: the result depends on the characters alone.
#[verifier::external_body]
pub(crate) fn parse_uuid(s: &str) -> (r: Option<u128>)
    ensures
        r == uuid_parse_of(s@),
{
    match uuid::Uuid::parse_str(s) {
        Ok(u) => Some(u.as_u128()),
        Err(_) => None,
    }
}

} // verus!
