//! Addresses: normalized absolute URLs, the unit of identity for
//! deduplication.
//!
//! An [`Address`] holds, as plain values, everything the crawl logic reads of
//! a URL: its full normalized text (the identity used by the visited
//! registry), its scheme (for the http/https filter) and its host (for the
//! per-domain quota and the per-host rate limit). Parsing and reference
//! resolution are done by the `url` crate; their results are named by the
//! uninterpreted functions [`url_parse`] and [`url_join`].

use vstd::prelude::*;

verus! {

/// The parts of a parsed URL that the crawler reads, at the specification
/// level: the normalized serialization, the scheme, and the host if any.
pub struct UrlParts {
    pub text: Seq<char>,
    pub scheme: Seq<char>,
    pub host: Option<Seq<char>>,
}

/// What `url::Url::parse` computes from an input string: `None` where it
/// fails, otherwise the parts of the parsed URL. The result depends on the
/// input alone.
pub uninterp spec fn url_parse(input: Seq<char>) -> Option<UrlParts>;

/// What resolving a reference against a base URL text computes: `None` where
/// the base does not parse or the reference cannot be resolved, otherwise the
/// parts of the resolved URL. The result depends on the two strings alone.
pub uninterp spec fn url_join(base: Seq<char>, input: Seq<char>) -> Option<UrlParts>;

/// An address whose scheme is `http` or `https` may be crawled.
pub open spec fn is_web_scheme(scheme: Seq<char>) -> bool {
    scheme == "http"@ || scheme == "https"@
}

/// A normalized absolute URL, as plain values.
#[derive(Clone, Debug)]
pub struct Address {
    pub text: String,
    pub scheme: String,
    pub host: Option<String>,
}

impl View for Address {
    type V = UrlParts;

    open spec fn view(&self) -> UrlParts {
        UrlParts {
            text: self.text@,
            scheme: self.scheme@,
            host: match self.host {
                Some(h) => Some(h@),
                None => None,
            },
        }
    }
}

/// Relies on `url::Url::parse`, `Url::as_str`, `Url::scheme` and
/// `Url::host_str`: parsing an absolute URL, and the parts read off the
/// result, are a function of the input string alone.
#[verifier::external_body]
pub(crate) fn parse_url(input: &str) -> (r: Option<Address>)
    ensures
        match r {
            Some(a) => url_parse(input@) == Some(a@),
            None => url_parse(input@) is None,
        },
{
    match url::Url::parse(input) {
        Ok(u) => Some(Address {
            scheme: u.scheme().to_owned(),
            host: u.host_str().map(|h| h.to_owned()),
            text: String::from(u),
        }),
        Err(_) => None,
    }
}

/// Relies on `url::Url::join` (and the same accessors as [`parse_url`]):
/// resolving a reference against a base URL text is a function of the two
/// strings alone.
#[verifier::external_body]
pub(crate) fn join_url(base: &str, input: &str) -> (r: Option<Address>)
    ensures
        match r {
            Some(a) => url_join(base@, input@) == Some(a@),
            None => url_join(base@, input@) is None,
        },
{
    match url::Url::parse(base).and_then(|b| b.join(input)) {
        Ok(u) => Some(Address {
            scheme: u.scheme().to_owned(),
            host: u.host_str().map(|h| h.to_owned()),
            text: String::from(u),
        }),
        Err(_) => None,
    }
}

impl Address {
    /// Parses an absolute URL; `None` where the text is not a well-formed
    /// absolute URL.
    pub fn parse(input: &str) -> (r: Option<Address>)
        ensures
            match r {
                Some(a) => url_parse(input@) == Some(a@),
                None => url_parse(input@) is None,
            },
    {
        parse_url(input)
    }

    /// The normalized serialization of the address.
    pub fn as_str(&self) -> (r: &str)
        ensures
            r@ == self@.text,
    {
        self.text.as_str()
    }

    /// The host component, if the address has one.
    pub fn host_str(&self) -> (r: Option<&str>)
        ensures
            match r {
                Some(h) => self@.host == Some(h@),
                None => self@.host is None,
            },
    {
        match &self.host {
            Some(h) => Some(h.as_str()),
            None => None,
        }
    }

    /// An identical copy of the address.
    pub fn duplicate(&self) -> (r: Address)
        ensures
            r@ == self@,
    {
        Address {
            text: self.text.clone(),
            scheme: self.scheme.clone(),
            host: match &self.host {
                Some(h) => Some(h.clone()),
                None => None,
            },
        }
    }

    /// Whether the address may be crawled: its scheme is `http` or `https`.
    pub fn has_web_scheme(&self) -> (r: bool)
        ensures
            r == is_web_scheme(self@.scheme),
    {
        let http: String = "http".to_owned();
        let https: String = "https".to_owned();
        self.scheme == http || self.scheme == https
    }
}

} // verus!
