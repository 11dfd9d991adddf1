//! Trusted declarations for the outside functions the library calls:
//! case conversion (convert_case), URL path extraction (url), and one
//! `String` method that vstd leaves unspecified.

use vstd::prelude::*;

verus! {

/// Relies on std's `String::push`: appends the given character to the end
/// of the string.
pub assume_specification[ String::push ](s: &mut String, c: char)
    ensures
        final(s)@ == old(s)@.push(c),
;

/// The PascalCase conversion that convert_case's `Casing::to_case` computes;
/// it depends on the input characters alone.
pub uninterp spec fn pascal_of(s: Seq<char>) -> Seq<char>;

/// The snake_case conversion that convert_case's `Casing::to_case` computes;
/// it depends on the input characters alone.
pub uninterp spec fn snake_of(s: Seq<char>) -> Seq<char>;

/// The path component of a URL as url's `Url::parse` and `Url::path` give
/// it, or `None` where the URL does not parse; it depends on the URL's
/// characters alone.
pub uninterp spec fn url_path_of(url: Seq<char>) -> Option<Seq<char>>;

/// Relies on convert_case's `Casing::to_case` with `Case::Pascal`: a pure
/// conversion of the input string.
#[verifier::external_body]
pub(crate) fn to_pascal_case(s: &str) -> (r: String)
    ensures
        r@ == pascal_of(s@),
{
    convert_case::Casing::to_case(&s, convert_case::Case::Pascal)
}

/// Relies on convert_case's `Casing::to_case` with `Case::Snake`: a pure
/// conversion of the input string.
#[verifier::external_body]
pub(crate) fn to_snake_case(s: &str) -> (r: String)
    ensures
        r@ == snake_of(s@),
{
    convert_case::Casing::to_case(&s, convert_case::Case::Snake)
}

/// Relies on url's `Url::parse` and `Url::path`: parses an absolute URL and
/// returns its path component, or `None` where parsing fails.
#[verifier::external_body]
pub(crate) fn parse_url_path(url: &str) -> (r: Option<String>)
    ensures
        r is Some <==> url_path_of(url@) is Some,
        r matches Some(p) ==> url_path_of(url@) matches Some(q) && p@ == q,
{
    match url::Url::parse(url) {
        Ok(u) => Some(u.path().to_string()),
        Err(_) => None,
    }
}

} // verus!
