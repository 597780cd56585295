//! Endpoint addresses, checked with the URL parser that reqwest re-exports.
use vstd::prelude::*;

use crate::error::AgentError;

verus! {

#[verifier::external_type_specification]
#[verifier::external_body]
pub struct ExUrl(reqwest::Url);

/// Whether the URL parser accepts the text.
pub uninterp spec fn url_parses(s: Seq<char>) -> bool;

/// Whether the URL that the parser makes of the text names a host.
pub uninterp spec fn url_has_host_of(s: Seq<char>) -> bool;

/// The text is an address that requests can be sent to: it parses as a URL
/// that names a host.
pub open spec fn url_usable(s: Seq<char>) -> bool {
    url_parses(s) && url_has_host_of(s)
}

/// Relies on `url::Url::parse` (re-exported as `reqwest::Url`), which accepts
/// or refuses a text according to the text alone, and on `url::Url::has_host`
/// of the parsed URL.
#[verifier::external_body]
fn parse_url(s: &str) -> (r: Option<(reqwest::Url, bool)>)
    ensures
        r is Some <==> url_parses(s@),
        r is Some ==> r->Some_0.1 == url_has_host_of(s@),
{
    match reqwest::Url::parse(s) {
        Ok(u) => {
            let host = u.has_host();
            Some((u, host))
        },
        Err(_) => None,
    }
}

/// The address of an endpoint that requests can be sent to: it must parse as
/// a URL and name a host.
pub fn endpoint_url(s: &str) -> (r: Result<reqwest::Url, AgentError>)
    ensures
        r is Ok <==> url_usable(s@),
        r is Err ==> r->Err_0 is InvalidUrl && r->Err_0->InvalidUrl_0@ == s@,
{
    match parse_url(s) {
        Some((u, true)) => Ok(u),
        _ => Err(AgentError::InvalidUrl(s.to_owned())),
    }
}

} // verus!
