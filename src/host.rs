//! The host model: a domain name or an IP literal, identified by its canonical form.
use vstd::prelude::*;

verus! {

/// What `url::Host::parse` makes of a text: `None` when the text is no valid host, else
/// whether it is a domain name (not an IP literal) and its canonical serialisation.
pub uninterp spec fn host_of(s: Seq<char>) -> Option<(bool, Seq<char>)>;

/// A host to block or allow: a domain name or an IP literal in canonical form.
#[derive(Clone, Debug, PartialEq, Eq, Hash)]
pub struct Host {
    /// Whether the host is a domain name rather than an IP literal.
    pub domain: bool,
    /// The canonical text of the host.
    pub name: String,
}

/// A text that is no valid domain name or IP literal.
#[derive(Clone, Copy, Debug, PartialEq, Eq)]
pub struct InvalidHost;

impl View for Host {
    type V = (bool, Seq<char>);

    open spec fn view(&self) -> (bool, Seq<char>) {
        (self.domain, self.name@)
    }
}

/// Relies on `url::Host::parse` and the host's `Display`: parses `s` and gives the kind
/// and the canonical text of the result.
#[verifier::external_body]
pub(crate) fn parse_host(s: &str) -> (r: Option<Host>)
    ensures
        r is Some <==> host_of(s@) is Some,
        r matches Some(h) ==> h@ == host_of(s@)->0,
{
    match url::Host::parse(s) {
        Ok(h) => Some(Host { domain: matches!(h, url::Host::Domain(_)), name: h.to_string() }),
        Err(_) => None,
    }
}

impl Host {
    /// Parses a domain name or an IP literal.
    pub fn parse(s: &str) -> (r: Result<Host, InvalidHost>)
        ensures
            r is Err <==> host_of(s@) is None,
            r matches Ok(h) ==> h@ == host_of(s@)->0,
    {
        match parse_host(s) {
            Some(h) => Ok(h),
            None => Err(InvalidHost),
        }
    }

    /// Builds a domain host from a name already in canonical form.
    pub(crate) fn domain_from(name: String) -> (r: Host)
        ensures
            r@ == (true, name@),
    {
        Host { domain: true, name }
    }
}

} // verus!
