//! Requests to the rendezvous server: where a request for a URL goes, read from the URL by the
//! `http` crate.
use vstd::prelude::*;
use vstd::string::*;
use crate::content::str_equal;
use crate::control_datagram::owned;

verus! {

/// The parts of `url` as `http::Uri` reads them: the scheme's text, the host of the
/// authority, and the authority's port; `None` when `http::Uri` rejects `url`.
pub uninterp spec fn uri_parts(url: Seq<char>) -> Option<
    (Option<Seq<char>>, Option<Seq<char>>, Option<u16>),
>;

/// `url.parse::<http::Uri>()`, then `scheme_str()`, and the authority's `host()` and
/// `port_u16()`, with the parser's message on failure.
/// Trusted: success exactly when the named parts are defined, and then they are the parts
/// returned; the message text is not stated.
#[verifier::external_body]
fn parse_uri(url: &str) -> (res: Result<(Option<String>, Option<String>, Option<u16>), String>)
    ensures
        match res {
            Ok((scheme, host, port)) => uri_parts(url@) == Some(
                (scheme.deep_view(), host.deep_view(), port),
            ),
            Err(_) => uri_parts(url@) is None,
        },
{
    match url.parse::<http::Uri>() {
        Ok(uri) => {
            let authority = uri.authority();
            Ok((
                uri.scheme_str().map(|s| s.to_string()),
                authority.map(|a| a.host().to_string()),
                authority.and_then(|a| a.port_u16()),
            ))
        },
        Err(e) => Err(format!("{e}")),
    }
}

/// Where a request goes, given the parts of its URL: the host and the port (443 when the URL
/// names none); an error unless the scheme is `https` and there is a host.
pub open spec fn target_of(parts: (Option<Seq<char>>, Option<Seq<char>>, Option<u16>)) -> Result<
    (Seq<char>, u16),
    Seq<char>,
> {
    let (scheme, host, port) = parts;
    if scheme != Some("https"@) {
        Err("uri scheme must be 'https'"@)
    } else {
        match host {
            None => Err("uri must have a host"@),
            Some(h) => Ok(
                (
                    h,
                    match port {
                        Some(p) => p,
                        None => 443u16,
                    },
                ),
            ),
        }
    }
}

/// The view of a request target.
pub open spec fn target_view(r: Result<(String, u16), String>) -> Result<(Seq<char>, u16), Seq<char>> {
    match r {
        Ok((h, p)) => Ok((h@, p)),
        Err(e) => Err(e@),
    }
}

/// The host and port that a request for `url` goes to; an error when `http::Uri` rejects
/// `url` (with its message), when the scheme is not `https`, or when there is no host.
pub fn request_target(url: &str) -> (res: Result<(String, u16), String>)
    ensures
        match uri_parts(url@) {
            None => res is Err,
            Some(parts) => target_view(res) == target_of(parts),
        },
{
    let (scheme, host, port) = match parse_uri(url) {
        Err(e) => {
            return Err(e);
        },
        Ok(parts) => parts,
    };
    let https = match &scheme {
        Some(s) => str_equal(s.as_str(), "https"),
        None => false,
    };
    if !https {
        return Err(owned("uri scheme must be 'https'"));
    }
    match host {
        None => Err(owned("uri must have a host")),
        Some(h) => Ok(
            (
                h,
                match port {
                    Some(p) => p,
                    None => 443,
                },
            ),
        ),
    }
}

} // verus!
