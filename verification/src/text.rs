//! Text operations of std and of outside crates that the request checks use.
use vstd::prelude::*;

verus! {

/// The lowercase form of `s`, as `str::to_lowercase` gives it.
pub uninterp spec fn lowercase(s: Seq<char>) -> Seq<char>;

/// Calls `str::to_lowercase`. Its result is named [`lowercase`]: it depends on
/// the string alone. What the Unicode case mapping gives is left unsaid.
#[verifier::external_body]
pub(crate) fn to_lowercase(s: &str) -> (r: String)
    ensures
        r@ == lowercase(s@),
{
    s.to_lowercase()
}

/// Whether `c` is alphanumeric as `char::is_alphanumeric` decides it.
pub uninterp spec fn unicode_alphanumeric(c: char) -> bool;

/// Calls `char::is_alphanumeric`, which the std documentation defines as
/// alphabetic or numeric in Unicode. Its result is named
/// [`unicode_alphanumeric`]: it depends on the character alone. Which
/// characters the Unicode tables hold to be alphabetic or numeric is left
/// unsaid.
#[verifier::external_body]
pub(crate) fn is_alphanumeric(c: char) -> (r: bool)
    ensures
        r == unicode_alphanumeric(c),
{
    c.is_alphanumeric()
}

/// The UUID that `uuid::Uuid::parse_str` reads from `s`, as its 128-bit value,
/// or `None` where it reads none.
pub uninterp spec fn parsed_uuid(s: Seq<char>) -> Option<u128>;

/// Calls `uuid::Uuid::parse_str` and takes the 128-bit value of the UUID it
/// reads. Its result is named [`parsed_uuid`]. The contract claims what the
/// parser's source shows of ASCII input: a string whose length is not 32, 36,
/// 38 or 45 is no UUID.
#[verifier::external_body]
pub(crate) fn parse_uuid(s: &str) -> (r: Option<u128>)
    ensures
        r == parsed_uuid(s@),
        vstd::string::is_ascii(s) && s@.len() != 32 && s@.len() != 36 && s@.len() != 38 && s@.len() != 45
            ==> r is None,
{
    match uuid::Uuid::parse_str(s) {
        Ok(u) => Some(u.as_u128()),
        Err(_) => None,
    }
}

/// The text that `urlencoding::decode` reads from `s`, or `None` where the
/// decoded bytes are no UTF-8.
pub uninterp spec fn url_decoded(s: Seq<char>) -> Option<Seq<char>>;

/// Calls `urlencoding::decode`. Its result is named [`url_decoded`]. The
/// contract claims what the crate's source shows: a string without `%` comes
/// back unchanged.
#[verifier::external_body]
pub(crate) fn url_decode(s: &str) -> (r: Option<String>)
    ensures
        url_decoded(s@) == (match r {
            Some(d) => Some(d@),
            None => None::<Seq<char>>,
        }),
        !s@.contains('%') ==> r is Some,
        r matches Some(d) ==> (!s@.contains('%') ==> d@ == s@),
{
    match urlencoding::decode(s) {
        Ok(d) => Some(d.into_owned()),
        Err(_) => None,
    }
}

} // verus!
