//! The link extractor: turns raw page content plus its source address into
//! the sequence of well-formed, scheme-filtered absolute outbound addresses.
//!
//! Finding the `href` attributes in a document is done by the `scraper`
//! crate; their values, in document order, are named by the uninterpreted
//! function [`hrefs_of`]. Resolving each against the source address and
//! keeping only http/https results is verified logic, pinned down by
//! [`links_from`].

use vstd::prelude::*;

use crate::address::{is_web_scheme, join_url, url_join, Address, UrlParts};
use crate::crawler::{CrawlerResult, Page};

verus! {

/// What scraper's HTML parser finds in a document: the `href` attribute
/// values of its `a[href]` elements, in document order. The result depends on
/// the document text alone.
pub uninterp spec fn hrefs_of(content: Seq<char>) -> Seq<Seq<char>>;

/// Relies on `scraper::Html::parse_document`, `Html::select` with the
/// selector `a[href]`, and `Element::attr`: the `href` values found in a
/// document, in document order, are a function of the document text alone.
#[verifier::external_body]
fn extract_hrefs(content: &str) -> (r: Vec<String>)
    ensures
        r@.map_values(|s: String| s@) == hrefs_of(content@),
{
    let document = scraper::Html::parse_document(content);
    let selector = scraper::Selector::parse("a[href]").unwrap();
    let mut hrefs: Vec<String> = Vec::new();
    for element in document.select(&selector) {
        if let Some(href) = element.value().attr("href") {
            hrefs.push(href.to_owned());
        }
    }
    hrefs
}

/// Extends a link sequence by one candidate reference: the reference is
/// resolved against the base text and kept only if it resolves and its scheme
/// is http or https.
pub open spec fn link_step(base: Seq<char>, links: Seq<UrlParts>, href: Seq<char>) -> Seq<UrlParts> {
    match url_join(base, href) {
        Some(a) => if is_web_scheme(a.scheme) {
            links.push(a)
        } else {
            links
        },
        None => links,
    }
}

/// The outbound links of a page: every candidate reference resolved against
/// the base text, malformed and non-web results discarded, document order
/// kept.
pub open spec fn links_from(base: Seq<char>, hrefs: Seq<Seq<char>>) -> Seq<UrlParts>
    decreases hrefs.len(),
{
    if hrefs.len() == 0 {
        Seq::empty()
    } else {
        link_step(base, links_from(base, hrefs.drop_last()), hrefs.last())
    }
}

/// The link extractor.
pub struct Parser;

impl Parser {
    /// Creates a new extractor.
    pub fn new() -> (p: Self) {
        Parser
    }

    /// Extracts all valid HTTP/HTTPS links from the given content and builds
    /// the page record for it.
    ///
    /// Extraction never fails a task: a document with no usable links yields
    /// a page with an empty link sequence.
    pub fn parse(&self, url: &Address, content: String, depth: usize) -> (r: CrawlerResult<Page>)
        ensures
            r matches Ok(page)
                && page.url@ == url@
                && page.depth == depth
                && page.content@ == content@
                && page.links@.map_values(|a: Address| a@)
                    == links_from(url@.text, hrefs_of(content@)),
    {
        let hrefs = extract_hrefs(content.as_str());
        let ghost hs: Seq<Seq<char>> = hrefs@.map_values(|s: String| s@);
        let mut links: Vec<Address> = Vec::new();
        for i in 0..hrefs.len()
            invariant
                hs == hrefs@.map_values(|s: String| s@),
                hs.len() == hrefs@.len(),
                links@.map_values(|a: Address| a@) == links_from(url@.text, hs.take(i as int)),
        {
            let ghost links_before = links@.map_values(|a: Address| a@);
            match join_url(url.as_str(), hrefs[i].as_str()) {
                Some(a) => {
                    if a.has_web_scheme() {
                        let ghost av = a@;
                        links.push(a);
                        proof {
                            assert(links@.map_values(|a: Address| a@) =~= links_before.push(av));
                        }
                    }
                }
                None => {}
            }
            proof {
                assert(hs.take(i + 1).drop_last() =~= hs.take(i as int));
                assert(hs.take(i + 1).last() == hs[i as int]);
            }
        }
        proof {
            assert(hs.take(hrefs@.len() as int) =~= hs);
        }
        Ok(Page { url: url.duplicate(), depth, content, links })
    }
}

} // verus!
