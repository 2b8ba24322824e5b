//! Repository references: what a URL parser makes of them.

use vstd::prelude::*;

verus! {

/// What `reqwest::Url::parse` makes of `text`: nothing where it turns the
/// text down, and else the URL's serialization and its path.
pub uninterp spec fn parsed_url(text: Seq<char>) -> Option<(Seq<char>, Seq<char>)>;

/// Parses `text` with `reqwest::Url::parse` and hands out the serialization
/// and the path of the URL it gives.
///
/// Nothing of this is proved. The contract claims only that the parser's
/// verdict and the two strings depend on `text` alone, and gives them a name.
#[verifier::external_body]
pub(crate) fn parse_url(text: &str) -> (parts: Option<(String, String)>)
    ensures
        parts is Some == parsed_url(text@) is Some,
        parts matches Some(found) ==> parsed_url(text@) == Some((found.0@, found.1@)),
{
    match reqwest::Url::parse(text) {
        Ok(url) => Some((url.to_string(), url.path().to_string())),
        Err(_) => None,
    }
}

} // verus!
