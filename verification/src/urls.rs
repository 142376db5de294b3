//! Trusted view of the `url` crate: whether a tracker URL parses, and
//! the host and effective port of its authority.  Each result depends on
//! the URL text alone, so it is given a name that the contracts of the
//! callers speak of.

use vstd::prelude::*;

verus! {

/// Whether `url::Url::parse` accepts the text.
pub uninterp spec fn url_parse_ok(s: Seq<char>) -> bool;

/// The host string that `url::Url::parse` followed by `Url::host_str`
/// yields for the text, if it parses and has a host.
pub uninterp spec fn url_host_of(s: Seq<char>) -> Option<Seq<char>>;

/// The port that `url::Url::parse` followed by
/// `Url::port_or_known_default` yields for the text, if any.
pub uninterp spec fn url_port_of(s: Seq<char>) -> Option<u16>;

/// Relies on `url::Url::parse`: whether the text is a valid URL.  The
/// result depends on the text alone.
#[verifier::external_body]
pub(crate) fn parse_url_ok(s: &str) -> (r: bool)
    ensures
        r == url_parse_ok(s@),
{
    url::Url::parse(s).is_ok()
}

/// Relies on `url::Url::host_str`: the host part of a parsed URL, if the
/// text parses and its authority has a host.  The result depends on the
/// text alone.
#[verifier::external_body]
pub(crate) fn parse_url_host(s: &str) -> (r: Option<String>)
    ensures
        r is Some <==> url_host_of(s@) is Some,
        r matches Some(h) ==> h@ == url_host_of(s@)->Some_0,
{
    match url::Url::parse(s) {
        Ok(u) => u.host_str().map(|h| h.to_string()),
        Err(_) => None,
    }
}

/// Relies on `url::Url::port_or_known_default`: the explicit port of a
/// parsed URL, or the scheme's well-known default.  The result depends
/// on the text alone.
#[verifier::external_body]
pub(crate) fn parse_url_port(s: &str) -> (r: Option<u16>)
    ensures
        r == url_port_of(s@),
{
    match url::Url::parse(s) {
        Ok(u) => u.port_or_known_default(),
        Err(_) => None,
    }
}

} // verus!
