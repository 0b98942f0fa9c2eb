//! The crawl orchestrator: frontier expansion with claim-before-fetch
//! deduplication, depth and per-domain quotas, and a bounded concurrency
//! gate.
//!
//! The orchestrator is a step machine. [`Crawler::start`] seeds the frontier;
//! [`Crawler::next_action`] hands out at most one fetch task per call, under
//! the concurrency gate and the per-domain quota; the caller performs the
//! fetch and reports its outcome through [`Crawler::complete`], which parses
//! the content, stores the page, and feeds newly discovered links back into
//! the frontier. The crawl is over when [`Crawler::next_action`] answers
//! [`Step::Done`].

use vstd::prelude::*;

use crate::address::{url_parse, Address, UrlParts};
use crate::parser::{hrefs_of, links_from, Parser};
use crate::storage::{lemma_pages_tally_push, pages_tally, Storage};

verus! {

/// All possible errors that can occur during crawling.
///
/// Only an invalid seed is fatal to a whole crawl; the other variants
/// describe the failure of a single fetch, which is isolated to its task.
#[derive(Clone, Copy, Debug, PartialEq, Eq, Structural)]
pub enum CrawlerError {
    /// The start address is not a well-formed absolute URL.
    InvalidSeed,
    /// A network-level failure.
    Network,
    /// The request timed out.
    Timeout,
    /// The response had a non-success HTTP status.
    HttpStatus,
    /// The address has no host component.
    MissingHost,
}

/// A type alias for simplifying Result types in crawler logic.
pub type CrawlerResult<T> = Result<T, CrawlerError>;

/// Configuration options for controlling the crawling behavior.
#[derive(Clone, Debug)]
pub struct CrawlConfig {
    pub max_depth: usize,
    pub max_pages_per_domain: usize,
    pub user_agent: String,
    pub concurrent_requests: usize,
    pub delay_ms: u64,
}

impl Default for CrawlConfig {
    /// The stock configuration: depth 3, 100 pages per domain, 10 concurrent
    /// requests, 100 ms between requests to one host.
    fn default() -> (c: Self)
        ensures
            c.max_depth == 3,
            c.max_pages_per_domain == 100,
            c.user_agent@ == "Rust-Webcrawler/0.1"@,
            c.concurrent_requests == 10,
            c.delay_ms == 100,
    {
        CrawlConfig {
            max_depth: 3,
            max_pages_per_domain: 100,
            user_agent: "Rust-Webcrawler/0.1".to_owned(),
            concurrent_requests: 10,
            delay_ms: 100,
        }
    }
}

/// A crawled page and its metadata: the fetched address, the depth it was
/// claimed at, the raw content, and the outbound links in document order.
#[derive(Clone, Debug)]
pub struct Page {
    pub url: Address,
    pub depth: usize,
    pub content: String,
    pub links: Vec<Address>,
}

/// One unit of pending work: an address together with the depth it was
/// claimed at.
#[derive(Debug)]
pub struct CrawlTask {
    pub addr: Address,
    pub depth: usize,
}

/// The specification-level image of a task: the parts of its address, and its
/// depth.
pub struct TaskModel {
    pub url: UrlParts,
    pub depth: int,
}

/// The specification-level image of a [`CrawlTask`].
pub open spec fn task_model(t: CrawlTask) -> TaskModel {
    TaskModel { url: t.addr@, depth: t.depth as int }
}

/// What the orchestrator asks of its caller next.
#[derive(Debug)]
pub enum Step {
    /// Fetch the task's address, then hand what came back to
    /// [`Crawler::complete`].
    Fetch(CrawlTask),
    /// The task's host has no page allowance left: the task is dropped with
    /// zero discovered links, and its address stays visited so it is never
    /// retried.
    Skip(CrawlTask),
    /// Nothing can be handed out now: either the concurrency gate is full, or
    /// the frontier is empty while fetches are still in flight. Complete a
    /// fetch first.
    Wait,
    /// The frontier is empty and nothing is in flight: the crawl is over.
    Done,
}

/// The outcome of one fetch, reported back by the caller.
#[derive(Debug)]
pub enum FetchOutcome {
    /// The fetch succeeded with this raw content.
    Content(String),
    /// The fetch failed; the task yields no page and no links.
    Failed(CrawlerError),
}

/// Claims every link in turn against the visited set; each newly claimed link
/// becomes a frontier task at the given depth.
pub open spec fn discover(
    visited: Set<Seq<char>>,
    frontier: Seq<TaskModel>,
    links: Seq<UrlParts>,
    depth: int,
) -> (Set<Seq<char>>, Seq<TaskModel>)
    decreases links.len(),
{
    if links.len() == 0 {
        (visited, frontier)
    } else {
        let prev = discover(visited, frontier, links.drop_last(), depth);
        let l = links.last();
        if prev.0.contains(l.text) {
            prev
        } else {
            (prev.0.insert(l.text), prev.1.push(TaskModel { url: l, depth }))
        }
    }
}

/// The crawl orchestrator: configuration, link extractor, shared store, and
/// the frontier and in-flight work of one crawl.
pub struct Crawler {
    config: CrawlConfig,
    parser: Parser,
    storage: Storage,
    frontier: Vec<CrawlTask>,
    inflight: Vec<CrawlTask>,
    fetch_log: Ghost<Seq<Seq<char>>>,
}

impl Crawler {
    /// The configured depth ceiling.
    pub closed spec fn max_depth(self) -> int {
        self.config.max_depth as int
    }

    /// The configured per-domain page quota.
    pub closed spec fn domain_limit(self) -> int {
        self.config.max_pages_per_domain as int
    }

    /// The configured concurrency limit.
    pub closed spec fn gate_limit(self) -> int {
        self.config.concurrent_requests as int
    }

    /// The set of claimed address texts.
    pub closed spec fn visited(self) -> Set<Seq<char>> {
        self.storage.visited()
    }

    /// The stored pages, in completion order.
    pub closed spec fn pages(self) -> Seq<Page> {
        self.storage.stored()
    }

    /// The address texts handed out for fetching, in hand-out order.
    pub closed spec fn fetched(self) -> Seq<Seq<char>> {
        self.fetch_log@
    }

    /// The pending tasks, oldest first; tasks are handed out newest first.
    pub closed spec fn frontier_model(self) -> Seq<TaskModel> {
        self.frontier@.map_values(|t: CrawlTask| task_model(t))
    }

    /// The tasks handed out and not yet completed.
    pub closed spec fn inflight_model(self) -> Seq<TaskModel> {
        self.inflight@.map_values(|t: CrawlTask| task_model(t))
    }

    /// The per-domain quota, as maintained under sequential execution (a
    /// concurrency gate of one): no host's tally exceeds the quota, and an
    /// in-flight task was only admitted while its host was still under it.
    pub closed spec fn quota_ok(self) -> bool {
        &&& forall|h: Seq<char>| #[trigger] pages_tally(self.pages(), h) <= self.domain_limit()
        &&& self.inflight_model().len() == 1 ==> match self.inflight_model()[0].url.host {
            Some(h) => pages_tally(self.pages(), h) < self.domain_limit(),
            None => true,
        }
    }

    /// The orchestrator's invariant, established by [`Crawler::new`] and
    /// preserved by every step.
    pub closed spec fn wf(self) -> bool {
        // claim-before-fetch: every handed-out or pending address is claimed
        &&& forall|i: int|
            0 <= i < self.fetched().len() ==> self.visited().contains(#[trigger] self.fetched()[i])
        &&& forall|i: int|
            0 <= i < self.frontier_model().len() ==> self.visited().contains(
                (#[trigger] self.frontier_model()[i]).url.text,
            )
        // at-most-once fetch: the log has no duplicates, and nothing pending
        // or in flight repeats it or itself
        &&& forall|i: int, j: int|
            0 <= i < j < self.fetched().len() ==> #[trigger] self.fetched()[i]
                != #[trigger] self.fetched()[j]
        &&& forall|i: int, j: int|
            0 <= i < self.frontier_model().len() && 0 <= j < self.fetched().len() ==> (
            #[trigger] self.frontier_model()[i]).url.text != (#[trigger] self.fetched()[j])
        &&& forall|i: int, j: int|
            0 <= i < j < self.frontier_model().len() ==> (
            #[trigger] self.frontier_model()[i]).url.text != (
            #[trigger] self.frontier_model()[j]).url.text
        &&& forall|i: int|
            0 <= i < self.inflight_model().len() ==> self.fetched().contains(
                (#[trigger] self.inflight_model()[i]).url.text,
            )
        &&& forall|i: int, j: int|
            0 <= i < j < self.inflight_model().len() ==> (
            #[trigger] self.inflight_model()[i]).url.text != (
            #[trigger] self.inflight_model()[j]).url.text
        // depth policy: nothing is scheduled or stored beyond the ceiling
        &&& forall|i: int|
            0 <= i < self.frontier_model().len() ==> (
            #[trigger] self.frontier_model()[i]).depth <= self.max_depth()
        &&& forall|i: int|
            0 <= i < self.inflight_model().len() ==> (
            #[trigger] self.inflight_model()[i]).depth <= self.max_depth()
        &&& forall|i: int|
            0 <= i < self.pages().len() ==> (#[trigger] self.pages()[i]).depth <= self.max_depth()
        // concurrency gate
        &&& self.inflight_model().len() <= self.gate_limit()
        // sequential domain quota
        &&& self.gate_limit() == 1 ==> self.quota_ok()
    }

    /// The observable state of two crawlers is the same.
    pub open spec fn same_view(a: Crawler, b: Crawler) -> bool {
        &&& a.max_depth() == b.max_depth()
        &&& a.domain_limit() == b.domain_limit()
        &&& a.gate_limit() == b.gate_limit()
        &&& a.visited() == b.visited()
        &&& a.pages() == b.pages()
        &&& a.fetched() == b.fetched()
        &&& a.frontier_model() == b.frontier_model()
        &&& a.inflight_model() == b.inflight_model()
    }

    /// Carries the fetch-log facts of the invariant to a state with the same
    /// log and no fewer claims.
    proof fn lemma_log_carry(pre: Crawler, post: Crawler)
        requires
            pre.wf(),
            post.fetched() == pre.fetched(),
            pre.visited().subset_of(post.visited()),
        ensures
            forall|i: int|
                0 <= i < post.fetched().len() ==> post.visited().contains(
                    #[trigger] post.fetched()[i],
                ),
            forall|i: int, j: int|
                0 <= i < j < post.fetched().len() ==> #[trigger] post.fetched()[i]
                    != #[trigger] post.fetched()[j],
    {
        assert forall|i: int| 0 <= i < post.fetched().len() implies post.visited().contains(
            #[trigger] post.fetched()[i],
        ) by {
            assert(pre.visited().contains(pre.fetched()[i]));
        }
        assert forall|i: int, j: int| 0 <= i < j < post.fetched().len() implies #[trigger] post.fetched()[i]
            != #[trigger] post.fetched()[j] by {
            assert(pre.fetched()[i] != pre.fetched()[j]);
        }
    }

    /// Creates a new Crawler instance with the given configuration: nothing
    /// visited, stored, pending or in flight.
    pub fn new(config: CrawlConfig) -> (c: Self)
        ensures
            c.wf(),
            c.max_depth() == config.max_depth,
            c.domain_limit() == config.max_pages_per_domain,
            c.gate_limit() == config.concurrent_requests,
            c.visited() == Set::<Seq<char>>::empty(),
            c.pages() == Seq::<Page>::empty(),
            c.fetched() == Seq::<Seq<char>>::empty(),
            c.frontier_model() == Seq::<TaskModel>::empty(),
            c.inflight_model() == Seq::<TaskModel>::empty(),
    {
        let c = Crawler {
            config,
            parser: Parser::new(),
            storage: Storage::new(),
            frontier: Vec::new(),
            inflight: Vec::new(),
            fetch_log: Ghost(Seq::empty()),
        };
        proof {
            assert(c.frontier_model() =~= Seq::<TaskModel>::empty());
            assert(c.inflight_model() =~= Seq::<TaskModel>::empty());
        }
        c
    }

    /// Seeds the crawl: the start address is parsed, claimed, and — if the
    /// claim is granted — scheduled at depth 0. Fails with
    /// [`CrawlerError::InvalidSeed`] exactly when the text is not a
    /// well-formed absolute URL.
    pub fn start(&mut self, seed: &str) -> (r: Result<(), CrawlerError>)
        requires
            old(self).wf(),
        ensures
            final(self).wf(),
            match url_parse(seed@) {
                None => r == Err::<(), CrawlerError>(CrawlerError::InvalidSeed) && Self::same_view(
                    *final(self),
                    *old(self),
                ),
                Some(p) => r == Ok::<(), CrawlerError>(()) && if old(self).visited().contains(
                    p.text,
                ) {
                    Self::same_view(*final(self), *old(self))
                } else {
                    &&& final(self).visited() == old(self).visited().insert(p.text)
                    &&& final(self).frontier_model() == old(self).frontier_model().push(
                        TaskModel { url: p, depth: 0 },
                    )
                    &&& final(self).pages() == old(self).pages()
                    &&& final(self).fetched() == old(self).fetched()
                    &&& final(self).inflight_model() == old(self).inflight_model()
                    &&& final(self).max_depth() == old(self).max_depth()
                    &&& final(self).domain_limit() == old(self).domain_limit()
                    &&& final(self).gate_limit() == old(self).gate_limit()
                },
            },
    {
        match Address::parse(seed) {
            None => Err(CrawlerError::InvalidSeed),
            Some(addr) => {
                let ghost av = addr@;
                if self.storage.mark_visited(&addr) {
                    let ghost fm0 = self.frontier_model();
                    self.frontier.push(CrawlTask { addr, depth: 0 });
                    proof {
                        assert(self.frontier_model() =~= fm0.push(TaskModel { url: av, depth: 0 }));
                        assert(old(self).visited().subset_of(self.visited()));
                        Self::lemma_log_carry(*old(self), *self);
                        let fm = self.frontier_model();
                        let fetched = self.fetched();
                        let n = fm.len() - 1;
                        assert(fm0 == old(self).frontier_model());
                        assert forall|i: int, j: int|
                            0 <= i < fm.len() && 0 <= j < fetched.len() implies (
                        #[trigger] fm[i]).url.text != (#[trigger] fetched[j]) by {
                            assert(old(self).visited().contains(old(self).fetched()[j]));
                            if i < n {
                                assert(fm[i] == old(self).frontier_model()[i]);
                                assert(old(self).frontier_model()[i].url.text != old(
                                    self,
                                ).fetched()[j]);
                            }
                        }
                        assert forall|i: int, j: int| 0 <= i < j < fm.len() implies (
                        #[trigger] fm[i]).url.text != (#[trigger] fm[j]).url.text by {
                            if j < n {
                                assert(fm[i] == old(self).frontier_model()[i] && fm[j] == old(
                                    self,
                                ).frontier_model()[j]);
                            } else {
                                assert(fm[i] == old(self).frontier_model()[i]);
                                assert(old(self).visited().contains(
                                    old(self).frontier_model()[i].url.text,
                                ));
                            }
                        }
                        assert forall|i: int|
                            0 <= i < fm.len() implies self.visited().contains(
                            (#[trigger] fm[i]).url.text,
                        ) by {
                            if i < n {
                                assert(old(self).visited().contains(
                                    old(self).frontier_model()[i].url.text,
                                ));
                            }
                        }
                        assert forall|i: int| 0 <= i < fm.len() implies (#[trigger] fm[i]).depth
                            <= self.max_depth() by {
                            if i < n {
                                assert(old(self).frontier_model()[i].depth <= old(
                                    self,
                                ).max_depth());
                            }
                        }
                        assert(self.wf());
                    }
                } else {
                    proof {
                        // the address was already claimed: the insert changed
                        // nothing
                        assert(self.visited() =~= old(self).visited());
                    }
                }
                Ok(())
            }
        }
    }

    /// Hands out the next unit of work, if any may run now.
    ///
    /// At most one task is considered per call, newest first: if the
    /// concurrency gate is full the answer is [`Step::Wait`]; a task whose
    /// host has reached the per-domain quota is dropped as [`Step::Skip`];
    /// otherwise the task is admitted, logged as fetched, and handed out as
    /// [`Step::Fetch`]. [`Step::Done`] reports the termination fixed point:
    /// no pending and no in-flight work.
    pub fn next_action(&mut self) -> (s: Step)
        requires
            old(self).wf(),
        ensures
            final(self).wf(),
            match s {
                Step::Done => old(self).frontier_model().len() == 0 && old(
                    self,
                ).inflight_model().len() == 0 && Self::same_view(*final(self), *old(self)),
                Step::Wait => (old(self).inflight_model().len() >= old(self).gate_limit() || (old(
                    self,
                ).frontier_model().len() == 0 && old(self).inflight_model().len() > 0))
                    && Self::same_view(*final(self), *old(self)),
                Step::Skip(t) => {
                    &&& old(self).inflight_model().len() < old(self).gate_limit()
                    &&& old(self).frontier_model().len() > 0
                    &&& task_model(t) == old(self).frontier_model().last()
                    &&& t.addr@.host matches Some(h) && pages_tally(old(self).pages(), h) >= old(
                        self,
                    ).domain_limit()
                    &&& final(self).frontier_model() == old(self).frontier_model().drop_last()
                    &&& final(self).visited() == old(self).visited()
                    &&& final(self).pages() == old(self).pages()
                    &&& final(self).fetched() == old(self).fetched()
                    &&& final(self).inflight_model() == old(self).inflight_model()
                    &&& final(self).max_depth() == old(self).max_depth()
                    &&& final(self).domain_limit() == old(self).domain_limit()
                    &&& final(self).gate_limit() == old(self).gate_limit()
                },
                Step::Fetch(t) => {
                    &&& old(self).inflight_model().len() < old(self).gate_limit()
                    &&& old(self).frontier_model().len() > 0
                    &&& task_model(t) == old(self).frontier_model().last()
                    &&& match t.addr@.host {
                        Some(h) => pages_tally(old(self).pages(), h) < old(self).domain_limit(),
                        None => true,
                    }
                    &&& final(self).frontier_model() == old(self).frontier_model().drop_last()
                    &&& final(self).inflight_model() == old(self).inflight_model().push(
                        old(self).frontier_model().last(),
                    )
                    &&& final(self).fetched() == old(self).fetched().push(
                        old(self).frontier_model().last().url.text,
                    )
                    &&& final(self).visited() == old(self).visited()
                    &&& final(self).pages() == old(self).pages()
                    &&& final(self).max_depth() == old(self).max_depth()
                    &&& final(self).domain_limit() == old(self).domain_limit()
                    &&& final(self).gate_limit() == old(self).gate_limit()
                },
            },
    {
        if self.inflight.len() >= self.config.concurrent_requests {
            return Step::Wait;
        }
        let popped = self.frontier.pop();
        match popped {
            None => {
                proof {
                    assert(self.frontier_model() =~= old(self).frontier_model());
                    assert(old(self).visited().subset_of(self.visited()));
                    Self::lemma_log_carry(*old(self), *self);
                    assert(self.wf());
                }
                if self.inflight.len() == 0 {
                    Step::Done
                } else {
                    Step::Wait
                }
            }
            Some(task) => {
                proof {
                    assert(self.frontier_model() =~= old(self).frontier_model().drop_last());
                }
                let admitted: bool = match &task.addr.host {
                    Some(h) => {
                        let quota_used = self.storage.domain_page_count(h.as_str());
                        quota_used < self.config.max_pages_per_domain
                    }
                    None => true,
                };
                if admitted {
                    let out = CrawlTask { addr: task.addr.duplicate(), depth: task.depth };
                    let ghost im0 = self.inflight_model();
                    let ghost text = task.addr@.text;
                    self.fetch_log = Ghost(self.fetch_log@.push(text));
                    self.inflight.push(task);
                    proof {
                        assert(self.inflight_model() =~= im0.push(
                            old(self).frontier_model().last(),
                        ));
                        assert forall|i: int|
                            0 <= i < self.inflight_model().len() implies self.fetched().contains(
                            (#[trigger] self.inflight_model()[i]).url.text,
                        ) by {
                            let fetched = self.fetched();
                            if i < im0.len() {
                                let k = choose|k: int|
                                    0 <= k < old(self).fetched().len() && old(self).fetched()[k]
                                        == im0[i].url.text;
                                assert(fetched[k] == im0[i].url.text);
                            } else {
                                assert(fetched[fetched.len() - 1] == text);
                            }
                        }
                        assert(self.wf());
                    }
                    Step::Fetch(out)
                } else {
                    proof {
                        assert(old(self).visited().subset_of(self.visited()));
                        Self::lemma_log_carry(*old(self), *self);
                        let fm = self.frontier_model();
                        let fm0 = old(self).frontier_model();
                        assert(fm == fm0.drop_last());
                        assert forall|i: int|
                            0 <= i < fm.len() implies self.visited().contains(
                            (#[trigger] fm[i]).url.text,
                        ) && fm[i].depth <= self.max_depth() by {
                            assert(fm[i] == fm0[i]);
                            assert(old(self).visited().contains(fm0[i].url.text));
                            assert(fm0[i].depth <= old(self).max_depth());
                        }
                        assert forall|i: int, j: int| 0 <= i < j < fm.len() implies (
                        #[trigger] fm[i]).url.text != (#[trigger] fm[j]).url.text by {
                            assert(fm[i] == fm0[i] && fm[j] == fm0[j]);
                            assert(fm0[i].url.text != fm0[j].url.text);
                        }
                        assert forall|i: int, j: int|
                            0 <= i < fm.len() && 0 <= j < self.fetched().len() implies (
                        #[trigger] fm[i]).url.text != (#[trigger] self.fetched()[j]) by {
                            assert(fm[i] == fm0[i]);
                            assert(fm0[i].url.text != old(self).fetched()[j]);
                        }
                        if self.gate_limit() == 1 {
                            assert(self.inflight_model() == old(self).inflight_model());
                            assert(self.pages() == old(self).pages());
                            assert forall|h: Seq<char>| #[trigger] pages_tally(self.pages(), h)
                                <= self.domain_limit() by {
                                assert(pages_tally(old(self).pages(), h) <= old(
                                    self,
                                ).domain_limit());
                            }
                            assert(self.quota_ok());
                        }
                        assert(self.wf());
                    }
                    Step::Skip(task)
                }
            }
        }
    }

    /// What completing the in-flight task at index `i` does to the crawl
    /// state: the task is retired; on success its page is stored and, below
    /// the depth ceiling, its links are claimed in turn and the newly claimed
    /// ones join the frontier one level deeper; on failure nothing else
    /// changes.
    pub open spec fn complete_effects(
        pre: Crawler,
        post: Crawler,
        i: int,
        outcome: FetchOutcome,
    ) -> bool {
        let t = pre.inflight_model()[i];
        &&& post.inflight_model() == pre.inflight_model().remove(i)
        &&& post.fetched() == pre.fetched()
        &&& post.max_depth() == pre.max_depth()
        &&& post.domain_limit() == pre.domain_limit()
        &&& post.gate_limit() == pre.gate_limit()
        &&& match outcome {
            FetchOutcome::Failed(_) => {
                &&& post.pages() == pre.pages()
                &&& post.visited() == pre.visited()
                &&& post.frontier_model() == pre.frontier_model()
            },
            FetchOutcome::Content(content) => {
                let links = links_from(t.url.text, hrefs_of(content@));
                &&& post.pages().len() == pre.pages().len() + 1
                &&& post.pages().drop_last() == pre.pages()
                &&& post.pages().last().url@ == t.url
                &&& post.pages().last().depth == t.depth
                &&& post.pages().last().content@ == content@
                &&& post.pages().last().links@.map_values(|a: Address| a@) == links
                &&& if t.depth < pre.max_depth() {
                    (post.visited(), post.frontier_model()) == discover(
                        pre.visited(),
                        pre.frontier_model(),
                        links,
                        t.depth + 1,
                    )
                } else {
                    post.visited() == pre.visited() && post.frontier_model()
                        == pre.frontier_model()
                }
            },
        }
    }

    /// The pieces of the invariant that frontier expansion maintains while
    /// the rest of the state stands still: the frontier stays duplicate-free,
    /// claimed, unfetched and under the depth ceiling, and the visited set
    /// only grows.
    spec fn discover_wf(mid: Crawler, cur: Crawler) -> bool {
        &&& forall|i: int, j: int|
            0 <= i < j < cur.frontier_model().len() ==> (
            #[trigger] cur.frontier_model()[i]).url.text != (
            #[trigger] cur.frontier_model()[j]).url.text
        &&& forall|i: int|
            0 <= i < cur.frontier_model().len() ==> cur.visited().contains(
                (#[trigger] cur.frontier_model()[i]).url.text,
            )
        &&& forall|i: int, j: int|
            0 <= i < cur.frontier_model().len() && 0 <= j < mid.fetched().len() ==> (
            #[trigger] cur.frontier_model()[i]).url.text != (#[trigger] mid.fetched()[j])
        &&& forall|i: int|
            0 <= i < cur.frontier_model().len() ==> (
            #[trigger] cur.frontier_model()[i]).depth <= mid.max_depth()
        &&& mid.visited().subset_of(cur.visited())
    }

    /// Retiring an in-flight task preserves the invariant.
    proof fn lemma_retire_wf(pre: Crawler, post: Crawler, i: int)
        requires
            pre.wf(),
            0 <= i < pre.inflight_model().len(),
            post.inflight_model() == pre.inflight_model().remove(i),
            post.visited() == pre.visited(),
            post.pages() == pre.pages(),
            post.fetched() == pre.fetched(),
            post.frontier_model() == pre.frontier_model(),
            post.max_depth() == pre.max_depth(),
            post.domain_limit() == pre.domain_limit(),
            post.gate_limit() == pre.gate_limit(),
        ensures
            post.wf(),
    {
        let im = pre.inflight_model();
        im.remove_ensures(i);
        assert(post.inflight_model().len() == im.len() - 1);
    }

    /// Reports the outcome of a handed-out fetch.
    ///
    /// The in-flight task for the address is retired. On success its content
    /// is parsed, the page is stored, and — if the task's depth is below the
    /// ceiling — every extracted link is claimed in turn and each newly
    /// claimed one joins the frontier one level deeper. On failure the task
    /// yields nothing, and the rest of the crawl is untouched. Returns false,
    /// changing nothing, when no in-flight task matches the address.
    pub fn complete(&mut self, addr: &Address, outcome: FetchOutcome) -> (r: bool)
        requires
            old(self).wf(),
        ensures
            final(self).wf(),
            r == exists|i: int|
                0 <= i < old(self).inflight_model().len() && (#[trigger] old(
                    self,
                ).inflight_model()[i]).url.text == addr@.text,
            !r ==> Self::same_view(*final(self), *old(self)),
            forall|i: int|
                0 <= i < old(self).inflight_model().len() && (#[trigger] old(
                    self,
                ).inflight_model()[i]).url.text == addr@.text ==> Self::complete_effects(
                    *old(self),
                    *final(self),
                    i,
                    outcome,
                ),
    {
        let mut found: Option<usize> = None;
        for k in 0..self.inflight.len()
            invariant
                match found {
                    Some(fi) => fi < k && self.inflight@[fi as int].addr@.text == addr@.text,
                    None => forall|j: int|
                        0 <= j < k ==> (#[trigger] self.inflight@[j]).addr@.text != addr@.text,
                },
        {
            if found.is_none() {
                if self.inflight[k].addr.text == addr.text {
                    found = Some(k);
                }
            }
        }
        let idx = match found {
            None => {
                return false;
            }
            Some(i) => i,
        };
        let ghost im0 = old(self).inflight_model();
        proof {
            assert(im0[idx as int].url.text == addr@.text);
            assert forall|i: int|
                0 <= i < im0.len() && (#[trigger] im0[i]).url.text == addr@.text implies i
                == idx as int by {
                if i < idx as int {
                    assert(im0[i].url.text != im0[idx as int].url.text);
                } else if i > idx as int {
                    assert(im0[idx as int].url.text != im0[i].url.text);
                }
            }
        }
        let task = self.inflight.remove(idx);
        proof {
            assert(self.inflight_model() =~= im0.remove(idx as int));
            Self::lemma_retire_wf(*old(self), *self, idx as int);
        }
        let ghost mid = *self;
        match outcome {
            FetchOutcome::Failed(_) => {
                true
            }
            FetchOutcome::Content(content) => {
                let page = match self.parser.parse(&task.addr, content, task.depth) {
                    Ok(p) => p,
                    Err(_) => vstd::pervasive::unreached(),
                };
                let ghost t = im0[idx as int];
                let ghost links = links_from(t.url.text, hrefs_of(content@));
                let ghost v0 = self.storage.visited();
                let ghost f0 = self.frontier_model();
                if task.depth < self.config.max_depth {
                    let depth1 = task.depth + 1;
                    let ghost ls = page.links@.map_values(|a: Address| a@);
                    proof {
                        assert(ls == links);
                    }
                    for k in 0..page.links.len()
                        invariant
                            mid.wf(),
                            0 < depth1 <= mid.max_depth(),
                            self.config == mid.config,
                            self.parser == mid.parser,
                            self.inflight == mid.inflight,
                            self.fetch_log == mid.fetch_log,
                            self.storage.stored() == mid.storage.stored(),
                            v0 == mid.visited(),
                            f0 == mid.frontier_model(),
                            ls.len() == page.links@.len(),
                            ls == page.links@.map_values(|a: Address| a@),
                            (self.storage.visited(), self.frontier_model()) == discover(
                                v0,
                                f0,
                                ls.take(k as int),
                                depth1 as int,
                            ),
                            Self::discover_wf(mid, *self),
                    {
                        let ghost v_pre = self.storage.visited();
                        let ghost f_pre = self.frontier_model();
                        let link = &page.links[k];
                        if self.storage.mark_visited(link) {
                            self.frontier.push(CrawlTask { addr: link.duplicate(), depth: depth1 });
                            proof {
                                assert(self.frontier_model() =~= f_pre.push(
                                    TaskModel { url: ls[k as int], depth: depth1 as int },
                                ));
                            }
                        }
                        proof {
                            assert(ls.take(k + 1).drop_last() =~= ls.take(k as int));
                            assert(ls.take(k + 1).last() == ls[k as int]);
                        }
                    }
                    proof {
                        assert(ls.take(page.links@.len() as int) =~= ls);
                        assert((self.storage.visited(), self.frontier_model()) == discover(
                            v0,
                            f0,
                            links,
                            t.depth + 1,
                        ));
                    }
                }
                let ghost cur = *self;
                let ghost page_snap = page;
                self.storage.store_page(page);
                proof {
                    Self::lemma_finish_success(*old(self), mid, cur, *self, idx as int, page_snap);
                }
                true
            }
        }
    }

    /// Storing the parsed page after frontier expansion re-establishes the
    /// invariant and yields the advertised completion effects.
    proof fn lemma_finish_success(
        pre: Crawler,
        mid: Crawler,
        cur: Crawler,
        post: Crawler,
        i: int,
        page: Page,
    )
        requires
            pre.wf(),
            mid.wf(),
            0 <= i < pre.inflight_model().len(),
            mid.inflight_model() == pre.inflight_model().remove(i),
            mid.visited() == pre.visited(),
            mid.pages() == pre.pages(),
            mid.fetched() == pre.fetched(),
            mid.frontier_model() == pre.frontier_model(),
            mid.max_depth() == pre.max_depth(),
            mid.domain_limit() == pre.domain_limit(),
            mid.gate_limit() == pre.gate_limit(),
            Self::discover_wf(mid, cur),
            cur.inflight_model() == mid.inflight_model(),
            cur.pages() == mid.pages(),
            cur.fetched() == mid.fetched(),
            cur.max_depth() == mid.max_depth(),
            cur.domain_limit() == mid.domain_limit(),
            cur.gate_limit() == mid.gate_limit(),
            page.url@ == pre.inflight_model()[i].url,
            page.depth == pre.inflight_model()[i].depth,
            post.pages() == cur.pages().push(page),
            post.visited() == cur.visited(),
            post.frontier_model() == cur.frontier_model(),
            post.inflight_model() == cur.inflight_model(),
            post.fetched() == cur.fetched(),
            post.max_depth() == cur.max_depth(),
            post.domain_limit() == cur.domain_limit(),
            post.gate_limit() == cur.gate_limit(),
        ensures
            post.wf(),
            post.pages().drop_last() == pre.pages(),
            post.pages().last() == page,
    {
        assert(post.pages().drop_last() =~= pre.pages());
        let t = pre.inflight_model()[i];
        // depth of the new page is bounded by the ceiling of the task it came
        // from
        assert(t.depth <= pre.max_depth());
        assert forall|k: int| 0 <= k < post.pages().len() implies (#[trigger] post.pages()[k]).depth
            <= post.max_depth() by {
            if k < pre.pages().len() {
                assert(pre.pages()[k].depth <= pre.max_depth());
            }
        }
        // every fetched address stays claimed: the visited set only grew
        assert forall|k: int| 0 <= k < post.fetched().len() implies post.visited().contains(
            #[trigger] post.fetched()[k],
        ) by {
            assert(pre.visited().contains(pre.fetched()[k]));
        }
        // the sequential domain quota
        if post.gate_limit() == 1 {
            assert(pre.inflight_model().len() == 1);
            assert(i == 0);
            assert forall|h: Seq<char>| #[trigger] pages_tally(post.pages(), h) <= post.domain_limit() by {
                lemma_pages_tally_push(cur.pages(), page, h);
                assert(pages_tally(pre.pages(), h) <= pre.domain_limit());
                if page.url@.host == Some(h) {
                    assert(pages_tally(pre.pages(), h) < pre.domain_limit());
                }
            }
            assert(post.inflight_model().len() == 0);
        }
        assert(post.wf());
    }

    /// Returns all successfully stored pages, in completion order, consuming
    /// the crawler.
    pub fn into_pages(self) -> (r: Vec<Page>)
        ensures
            r@ == self.pages(),
    {
        self.storage.get_pages()
    }
}

/// At-most-once fetch: across a whole crawl, no address is ever handed to the
/// fetcher twice, however many concurrent tasks discovered it.
pub proof fn lemma_at_most_once_fetch(c: Crawler, i: int, j: int)
    requires
        c.wf(),
        0 <= i < c.fetched().len(),
        0 <= j < c.fetched().len(),
        i != j,
    ensures
        c.fetched()[i] != c.fetched()[j],
{
}

/// Depth bound: every stored page, every pending task and every in-flight
/// task sits at depth at most the configured ceiling; nothing beyond it is
/// ever scheduled or fetched.
pub proof fn lemma_depth_bound(c: Crawler)
    requires
        c.wf(),
    ensures
        forall|i: int|
            0 <= i < c.pages().len() ==> (#[trigger] c.pages()[i]).depth <= c.max_depth(),
        forall|i: int|
            0 <= i < c.frontier_model().len() ==> (#[trigger] c.frontier_model()[i]).depth
                <= c.max_depth(),
        forall|i: int|
            0 <= i < c.inflight_model().len() ==> (#[trigger] c.inflight_model()[i]).depth
                <= c.max_depth(),
{
}

/// Concurrency ceiling: the number of simultaneously in-flight fetches never
/// exceeds the configured limit.
pub proof fn lemma_concurrency_ceiling(c: Crawler)
    requires
        c.wf(),
    ensures
        c.inflight_model().len() <= c.gate_limit(),
{
}

/// Sequential domain quota: with requests handed out one at a time, no host
/// ever accumulates more stored pages than the per-domain quota.
pub proof fn lemma_domain_quota_sequential(c: Crawler, host: Seq<char>)
    requires
        c.wf(),
        c.gate_limit() == 1,
    ensures
        pages_tally(c.pages(), host) <= c.domain_limit(),
{
}

} // verus!
