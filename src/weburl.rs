//! The URL parser this crate relies on, seen through the parts it reads.

use vstd::prelude::*;

verus! {

/// Whether `url::Url::parse` accepts `input` as an absolute URL.
pub uninterp spec fn url_parses(input: Seq<char>) -> bool;

/// What `url::Url::scheme` gives for the URL parsed from `input`.
pub uninterp spec fn url_scheme(input: Seq<char>) -> Seq<char>;

/// What `url::Url::domain` gives for the URL parsed from `input`.
pub uninterp spec fn url_domain(input: Seq<char>) -> Option<Seq<char>>;

/// What `url::Url::path` gives for the URL parsed from `input`.
pub uninterp spec fn url_path(input: Seq<char>) -> Seq<char>;

/// The parts of a parsed URL that the resolvers read.
pub struct UrlParts {
    pub scheme: String,
    pub domain: Option<String>,
    pub path: String,
}

/// Relies on `url::Url::parse` (an absolute URL, or an error), and on `Url::scheme`,
/// `Url::domain` (the host when it is a domain name rather than an IP address) and
/// `Url::path` (the path without query or fragment) of the value it returns.
#[verifier::external_body]
pub(crate) fn parse_url(input: &str) -> (r: Option<UrlParts>)
    ensures
        r is Some == url_parses(input@),
        r is Some ==> r->0.scheme@ == url_scheme(input@),
        r is Some ==> r->0.domain.deep_view() == url_domain(input@),
        r is Some ==> r->0.path@ == url_path(input@),
{
    let u = url::Url::parse(input).ok()?;
    Some(
        UrlParts {
            scheme: String::from(u.scheme()),
            domain: u.domain().map(String::from),
            path: String::from(u.path()),
        },
    )
}

} // verus!
