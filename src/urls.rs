//! Request URLs, parsed and rendered by the `url` crate.
use vstd::prelude::*;

verus! {

/// The serialization of `s` as `url::Url::parse` reads it, or `None` where
/// it does not parse.
pub uninterp spec fn parsed_url(s: Seq<char>) -> Option<Seq<char>>;

/// The serialization of the URL `s` once its query has been removed with
/// `url::Url::set_query(None)`.
pub uninterp spec fn url_without_query(s: Seq<char>) -> Seq<char>;

/// Relies on `url::Url::parse`: parses `s`, and on success hands back the
/// serialization of the parsed URL.
#[verifier::external_body]
pub(crate) fn parse_url(s: &str) -> (r: Option<String>)
    ensures
        match r {
            Some(t) => parsed_url(s@) == Some(t@),
            None => parsed_url(s@) is None,
        },
{
    url::Url::parse(s).ok().map(|u| u.into_string())
}

/// Relies on `url::Url::set_query(None)`, on the URL that `url::Url::parse`
/// reads from `s` (which `requires` says it does): that URL without its
/// query component, serialized.
#[verifier::external_body]
pub(crate) fn strip_query(s: &str) -> (r: String)
    requires
        parsed_url(s@) is Some,
    ensures
        r@ == url_without_query(s@),
{
    match url::Url::parse(s) {
        Ok(mut u) => {
            u.set_query(None);
            u.into_string()
        },
        Err(_) => s.to_string(),
    }
}

} // verus!
