//! The visited registry and result store.
//!
//! The visited registry is the single serialization point of a crawl: an
//! address is recorded at most once, and the first caller to record it is the
//! only one that may schedule a task for it. It is kept in a `dashmap`
//! concurrent set, whose contents are named by the uninterpreted function
//! [`visited_set`]. Pages and the per-domain counters are plain verified
//! state: the counter of a host is, by construction, exactly the number of
//! stored pages with that host.

use vstd::prelude::*;

use crate::address::Address;
use crate::crawler::Page;

verus! {

/// The `dashmap` concurrent set type, opaque to verification.
#[verifier::external_type_specification]
#[verifier::external_body]
#[verifier::reject_recursive_types(K)]
#[verifier::reject_recursive_types(S)]
pub struct ExDashSet<K, S>(dashmap::DashSet<K, S>);

/// What a `dashmap::DashSet<String>` holds, as a set of character sequences.
pub uninterp spec fn visited_set(s: dashmap::DashSet<String>) -> Set<Seq<char>>;

/// Relies on `dashmap::DashSet::new`: the new set is empty.
#[verifier::external_body]
fn dashset_new() -> (s: dashmap::DashSet<String>)
    ensures
        visited_set(s) == Set::<Seq<char>>::empty(),
{
    dashmap::DashSet::new()
}

/// Relies on `dashmap::DashSet::insert`: the key is added to the set, and the
/// call returns true exactly when the key was not already in it.
#[verifier::external_body]
fn dashset_insert(s: &mut dashmap::DashSet<String>, key: String) -> (r: bool)
    ensures
        r == !visited_set(*old(s)).contains(key@),
        visited_set(*final(s)) == visited_set(*old(s)).insert(key@),
{
    s.insert(key)
}

/// How many of the given pages have the given host.
pub open spec fn pages_tally(pages: Seq<Page>, host: Seq<char>) -> nat
    decreases pages.len(),
{
    if pages.len() == 0 {
        0
    } else {
        pages_tally(pages.drop_last(), host) + (if pages.last().url@.host == Some(host) {
            1nat
        } else {
            0nat
        })
    }
}

/// Storing one more page raises the tally of its own host by one and leaves
/// every other host's tally unchanged.
pub proof fn lemma_pages_tally_push(pages: Seq<Page>, page: Page, host: Seq<char>)
    ensures
        pages_tally(pages.push(page), host) == pages_tally(pages, host) + (
        if page.url@.host == Some(host) {
            1nat
        } else {
            0nat
        }),
{
    assert(pages.push(page).drop_last() =~= pages);
    assert(pages.push(page).last() == page);
}

/// The globally shared mutable state of a crawl: the visited registry, the
/// append-only result collection, and the per-host page counters.
pub struct Storage {
    visited_urls: dashmap::DashSet<String>,
    pages: Vec<Page>,
}

impl Storage {
    /// The set of visited address texts.
    pub closed spec fn visited(self) -> Set<Seq<char>> {
        visited_set(self.visited_urls)
    }

    /// The stored pages, in completion order.
    pub closed spec fn stored(self) -> Seq<Page> {
        self.pages@
    }

    /// Creates an empty store: nothing visited, nothing stored.
    pub fn new() -> (s: Self)
        ensures
            s.visited() == Set::<Seq<char>>::empty(),
            s.stored() == Seq::<Page>::empty(),
    {
        Storage { visited_urls: dashset_new(), pages: Vec::new() }
    }

    /// Marks a URL as visited. Returns true if it was not already visited:
    /// the caller that sees true holds the only claim ever granted for this
    /// address.
    pub fn mark_visited(&mut self, url: &Address) -> (r: bool)
        ensures
            r == !old(self).visited().contains(url@.text),
            final(self).visited() == old(self).visited().insert(url@.text),
            final(self).stored() == old(self).stored(),
    {
        let key = url.as_str().to_owned();
        dashset_insert(&mut self.visited_urls, key)
    }

    /// Stores the page; the domain-wise page count of its host rises by one
    /// with it.
    pub fn store_page(&mut self, page: Page)
        ensures
            final(self).stored() == old(self).stored().push(page),
            final(self).visited() == old(self).visited(),
    {
        self.pages.push(page);
    }

    /// Returns the number of pages stored for a given domain.
    pub fn domain_page_count(&self, domain: &str) -> (r: usize)
        ensures
            r == pages_tally(self.stored(), domain@),
    {
        let domain_string: String = domain.to_owned();
        let mut tally: usize = 0;
        for i in 0..self.pages.len()
            invariant
                tally == pages_tally(self.pages@.take(i as int), domain_string@),
                tally <= i,
                domain_string@ == domain@,
        {
            let is_match: bool = match self.pages[i].url.host_str() {
                Some(h) => {
                    let host: String = h.to_owned();
                    host == domain_string
                }
                None => false,
            };
            proof {
                assert(self.pages@.take(i + 1).drop_last() =~= self.pages@.take(i as int));
                assert(self.pages@.take(i + 1).last() == self.pages@[i as int]);
            }
            if is_match {
                tally = tally + 1;
            }
        }
        proof {
            assert(self.pages@.take(self.pages@.len() as int) =~= self.pages@);
        }
        tally
    }

    /// Returns all stored pages, in completion order, consuming the store.
    pub fn get_pages(self) -> (r: Vec<Page>)
        ensures
            r@ == self.stored(),
    {
        self.pages
    }
}

/// The visited set after a series of further claims.
pub open spec fn claims_after(visited: Set<Seq<char>>, texts: Seq<Seq<char>>) -> Set<Seq<char>>
    decreases texts.len(),
{
    if texts.len() == 0 {
        visited
    } else {
        claims_after(visited, texts.drop_last()).insert(texts.last())
    }
}

/// Idempotent claim: once an address is claimed it stays visited whatever
/// else is claimed in between, so a second claim of the same address always
/// reports it as already visited — two claims of one address yield true then
/// false when it was new, and false twice otherwise.
pub proof fn lemma_claim_idempotent(visited: Set<Seq<char>>, x: Seq<char>, others: Seq<Seq<char>>)
    ensures
        claims_after(visited.insert(x), others).contains(x),
    decreases others.len(),
{
    if others.len() > 0 {
        lemma_claim_idempotent(visited, x, others.drop_last());
    }
}

} // verus!
