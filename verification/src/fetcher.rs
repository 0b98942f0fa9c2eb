//! The rate-limiting half of the fetcher.
//!
//! Retrieving content over the network cannot be verified; what can is the
//! per-host pacing decision around it. [`Fetcher::prepare_request`] is that
//! decision: called with an address and the current time, it either records a
//! send — only ever at least the minimum delay after the previous send to the
//! same host — or answers how long the caller must still wait. The caller
//! performs the request the moment a send is recorded, so consecutive
//! request-send timestamps per host are spaced by at least the configured
//! delay.

use vstd::prelude::*;

use crate::address::Address;
use crate::crawler::{CrawlConfig, CrawlerError};

verus! {

/// The latest send time for the given host in a send history, if any.
pub open spec fn last_send_of(sends: Seq<(Seq<char>, u64)>, host: Seq<char>) -> Option<u64>
    decreases sends.len(),
{
    if sends.len() == 0 {
        None
    } else if sends.last().0 == host {
        Some(sends.last().1)
    } else {
        last_send_of(sends.drop_last(), host)
    }
}

/// Applies the minimum inter-request interval per host.
///
/// The whole send history is kept; a host's last-access time is the time of
/// its latest entry.
pub struct Fetcher {
    delay_ms: u64,
    history: Vec<(String, u64)>,
}

impl Fetcher {
    /// The minimum interval, in milliseconds, between two request sends to
    /// one host.
    pub closed spec fn min_delay(self) -> u64 {
        self.delay_ms
    }

    /// Every request send so far: host and send time, in send order.
    pub closed spec fn sends(self) -> Seq<(Seq<char>, u64)> {
        self.history@.map_values(|e: (String, u64)| (e.0@, e.1))
    }

    /// Well-formedness: sends to one host are spaced by at least the minimum
    /// delay, and no send is later than its host's recorded last-access time.
    pub closed spec fn wf(self) -> bool {
        let sends = self.sends();
        &&& forall|i: int, j: int|
            0 <= i < j < sends.len() && sends[i].0 == sends[j].0 ==> sends[j].1 >= sends[i].1
                + self.delay_ms
        &&& forall|i: int|
            0 <= i < sends.len() ==> match #[trigger] last_send_of(sends, sends[i].0) {
                Some(t) => sends[i].1 <= t,
                None => false,
            }
    }

    /// Creates a new rate limiter with the configured per-host delay and an
    /// empty history.
    pub fn new(config: &CrawlConfig) -> (f: Self)
        ensures
            f.wf(),
            f.min_delay() == config.delay_ms,
            f.sends() == Seq::<(Seq<char>, u64)>::empty(),
    {
        let f = Fetcher { delay_ms: config.delay_ms, history: Vec::new() };
        proof {
            assert(f.sends() =~= Seq::<(Seq<char>, u64)>::empty());
        }
        f
    }

    /// Decides whether a request to the address may be sent at time `now_ms`.
    ///
    /// Fails with [`CrawlerError::MissingHost`] when the address has no host.
    /// Otherwise, if at least the minimum delay has elapsed since the last
    /// send to the host (or there was none), the send is recorded at `now_ms`
    /// and `Ok(None)` says to issue the request now; else `Ok(Some(wait))`
    /// says to wait `wait` more milliseconds, and nothing is recorded.
    pub fn prepare_request(&mut self, addr: &Address, now_ms: u64) -> (r: Result<
        Option<u64>,
        CrawlerError,
    >)
        requires
            old(self).wf(),
        ensures
            final(self).wf(),
            final(self).min_delay() == old(self).min_delay(),
            match r {
                Err(e) => e == CrawlerError::MissingHost && addr@.host is None && *final(self)
                    == *old(self),
                Ok(decision) => addr@.host matches Some(h) && match decision {
                    None => {
                        &&& match last_send_of(old(self).sends(), h) {
                            None => true,
                            Some(t) => now_ms >= t && now_ms - t >= old(self).min_delay(),
                        }
                        &&& final(self).sends() == old(self).sends().push((h, now_ms))
                    },
                    Some(wait) => {
                        &&& *final(self) == *old(self)
                        &&& last_send_of(old(self).sends(), h) matches Some(t) && !(now_ms >= t
                            && now_ms - t >= old(self).min_delay()) && wait == (
                        if now_ms >= t {
                            old(self).min_delay() - (now_ms - t)
                        } else {
                            old(self).min_delay() as int
                        })
                    },
                },
            },
    {
        let host: &String = match &addr.host {
            Some(h) => h,
            None => {
                return Err(CrawlerError::MissingHost);
            }
        };
        let mut last: Option<u64> = None;
        for i in 0..self.history.len()
            invariant
                last == last_send_of(self.sends().take(i as int), host@),
        {
            proof {
                assert(self.sends().take(i + 1).drop_last() =~= self.sends().take(i as int));
                assert(self.sends().take(i + 1).last() == self.sends()[i as int]);
            }
            if self.history[i].0 == *host {
                last = Some(self.history[i].1);
            }
        }
        proof {
            assert(self.sends().take(self.history@.len() as int) =~= self.sends());
        }
        match last {
            Some(t) => {
                if now_ms >= t && now_ms - t >= self.delay_ms {
                    self.record_send(host, now_ms, Ghost(Some(t)));
                    Ok(None)
                } else if now_ms >= t {
                    Ok(Some(self.delay_ms - (now_ms - t)))
                } else {
                    Ok(Some(self.delay_ms))
                }
            }
            None => {
                self.record_send(host, now_ms, Ghost(None));
                Ok(None)
            }
        }
    }

    /// Appends a send to the history, re-establishing well-formedness from
    /// the guard that the caller checked.
    fn record_send(&mut self, host: &String, now_ms: u64, Ghost(prev): Ghost<Option<u64>>)
        requires
            old(self).wf(),
            prev == last_send_of(old(self).sends(), host@),
            match prev {
                None => true,
                Some(t) => now_ms >= t && now_ms - t >= old(self).min_delay(),
            },
        ensures
            final(self).wf(),
            final(self).min_delay() == old(self).min_delay(),
            final(self).sends() == old(self).sends().push((host@, now_ms)),
    {
        let ghost old_sends = old(self).sends();
        self.history.push((host.clone(), now_ms));
        proof {
            let sends = self.sends();
            assert(sends =~= old_sends.push((host@, now_ms)));
            assert(sends.drop_last() =~= old_sends);
            assert(last_send_of(sends, host@) == Some(now_ms));
            assert forall|h2: Seq<char>| h2 != host@ implies last_send_of(sends, h2)
                == last_send_of(old_sends, h2) by {
                assert(sends.last().0 == host@);
            }
            assert forall|i: int|
                0 <= i < old_sends.len() && old_sends[i].0 == host@ implies old_sends[i].1
                + self.delay_ms <= now_ms by {
                assert(match last_send_of(old_sends, old_sends[i].0) {
                    Some(t) => old_sends[i].1 <= t,
                    None => false,
                });
            }
            assert(self.wf());
        }
    }

    /// Two sends to one host are always spaced by at least the minimum delay:
    /// the rate-limit law.
    pub proof fn lemma_rate_limit_spacing(self, i: int, j: int)
        requires
            self.wf(),
            0 <= i < j < self.sends().len(),
            self.sends()[i].0 == self.sends()[j].0,
        ensures
            self.sends()[j].1 >= self.sends()[i].1 + self.min_delay(),
    {
    }
}

} // verus!
