//! The decisions of the crawl master: how much to crawl, when to stop
//! fetching, which worker gets a page, in what order a batch goes out, and
//! how a crawl ends. The master's loop of fetches and sends runs around
//! these decisions.
use vstd::prelude::*;
use vstd::string::StringExecFns;

verus! {

/// How much of a crawl is left to do.
#[derive(Debug, Clone, Copy, PartialEq, Eq, Structural)]
pub struct CrawlPlan {
    /// The quota of the crawl, capped by the profile's.
    pub effective_quota: usize,
    /// Whether the profile lets the crawl reach its own quota.
    pub will_crawl_end: bool,
    /// How many pages are left to crawl.
    pub remaining_quota: usize,
}

/// The plan of a crawl that has `consumed` pages done, whose directives ask
/// for `crawl_quota` pages and whose profile allows `max_quota` (no limit
/// when absent).
pub fn crawl_plan(consumed: usize, crawl_quota: usize, max_quota: Option<usize>) -> (r: CrawlPlan)
    ensures
        r.effective_quota == (match max_quota {
            Some(m) => if m < crawl_quota { m } else { crawl_quota },
            None => crawl_quota,
        }),
        r.will_crawl_end == (match max_quota {
            Some(m) => crawl_quota <= m,
            None => true,
        }),
        r.remaining_quota == (if r.effective_quota >= consumed {
            r.effective_quota - consumed
        } else {
            0
        }),
{
    let max = match max_quota {
        Some(m) => m,
        None => usize::MAX,
    };
    let effective_quota = if max < crawl_quota {
        max
    } else {
        crawl_quota
    };
    CrawlPlan {
        effective_quota,
        will_crawl_end: crawl_quota <= max,
        remaining_quota: effective_quota.saturating_sub(consumed),
    }
}

/// What the master does next.
#[derive(Debug, Clone, Copy, PartialEq, Eq, Structural)]
pub enum MasterAction {
    /// Fetch a batch of pages from the queue.
    Fetch,
    /// Wait a moment, then fetch again.
    Wait,
    /// Send the page at this position of the current batch to its worker.
    Send(usize),
    /// The loop is over. Unless the crawl was empty, every worker is
    /// terminated; then the crawl ends as given.
    Finish(CrawlEnd),
}

/// The state of the master's loop: what the plan leaves to crawl, how many
/// pages were sent, whether the queue was found empty on the previous fetch,
/// whether a worker failed, where the current batch stands, and whether the
/// loop is over.
#[derive(Debug, Clone, Copy, PartialEq, Eq, Structural)]
pub struct MasterLoop {
    pub remaining_quota: usize,
    pub will_crawl_end: bool,
    pub enable_page_rank: bool,
    pub n_sent: usize,
    pub has_been_empty: bool,
    pub is_interrupted: bool,
    pub next: usize,
    pub batch_len: usize,
    pub finished: bool,
}

/// How the crawl ends from the state `s`.
pub open spec fn end_of(s: MasterLoop) -> CrawlEnd {
    if s.is_interrupted {
        CrawlEnd::Interrupted
    } else if !s.will_crawl_end {
        CrawlEnd::Incomplete
    } else {
        CrawlEnd::Done { page_rank: s.enable_page_rank }
    }
}

impl MasterLoop {
    /// The loop at the start of a crawl with `plan`: a crawl with nothing
    /// left to do ends at once, before any fetch; otherwise the first step
    /// is a fetch.
    pub fn start(plan: CrawlPlan, enable_page_rank: bool) -> (r: (MasterLoop, MasterAction))
        ensures
            r.0 == (MasterLoop {
                remaining_quota: plan.remaining_quota,
                will_crawl_end: plan.will_crawl_end,
                enable_page_rank,
                n_sent: 0,
                has_been_empty: false,
                is_interrupted: false,
                next: 0,
                batch_len: 0,
                finished: plan.remaining_quota == 0,
            }),
            r.1 == (if plan.remaining_quota == 0 {
                MasterAction::Finish(CrawlEnd::Empty)
            } else {
                MasterAction::Fetch
            }),
    {
        let empty = plan.remaining_quota == 0;
        let s = MasterLoop {
            remaining_quota: plan.remaining_quota,
            will_crawl_end: plan.will_crawl_end,
            enable_page_rank,
            n_sent: 0,
            has_been_empty: false,
            is_interrupted: false,
            next: 0,
            batch_len: 0,
            finished: empty,
        };
        if empty {
            (s, MasterAction::Finish(CrawlEnd::Empty))
        } else {
            (s, MasterAction::Fetch)
        }
    }

    /// How the crawl ends from this state.
    pub fn end(&self) -> (r: CrawlEnd)
        ensures
            r == end_of(*self),
    {
        crawl_end(self.is_interrupted, self.will_crawl_end, self.enable_page_rank)
    }

    /// After a fetch that failed (`None`) or gave a batch of `Some(size)`
    /// pages, while `n_closed` tasks are closed. A loop that is over, or
    /// interrupted, stays over. A failed fetch ends the loop. An empty batch
    /// ends it once everything sent is closed and the queue was already
    /// empty; otherwise the master waits. A batch is sent from its first
    /// page.
    pub fn on_fetch(&mut self, fetched: Option<usize>, n_closed: usize) -> (r: MasterAction)
        ensures
            old(self).finished || old(self).is_interrupted ==> *final(self) == (MasterLoop {
                finished: true,
                ..*old(self)
            }) && r == MasterAction::Finish(end_of(*old(self))),
            !old(self).finished && !old(self).is_interrupted ==> match fetched {
                None => *final(self) == (MasterLoop { finished: true, ..*old(self) }) && r
                    == MasterAction::Finish(end_of(*old(self))),
                Some(size) => if size == 0 {
                    if old(self).n_sent == n_closed && old(self).has_been_empty {
                        *final(self) == (MasterLoop { finished: true, ..*old(self) }) && r
                            == MasterAction::Finish(end_of(*old(self)))
                    } else {
                        r == MasterAction::Wait && *final(self) == (MasterLoop {
                            has_been_empty: old(self).has_been_empty || old(self).n_sent == n_closed,
                            ..*old(self)
                        })
                    }
                } else {
                    r == MasterAction::Send(0) && *final(self) == (MasterLoop {
                        has_been_empty: false,
                        next: 0,
                        batch_len: size,
                        ..*old(self)
                    })
                },
            },
    {
        if self.finished || self.is_interrupted {
            self.finished = true;
            return MasterAction::Finish(self.end());
        }
        match fetched {
            None => {
                self.finished = true;
                MasterAction::Finish(self.end())
            },
            Some(size) => {
                if size == 0 {
                    if self.n_sent == n_closed {
                        if self.has_been_empty {
                            self.finished = true;
                            return MasterAction::Finish(self.end());
                        } else {
                            self.has_been_empty = true;
                        }
                    }
                    MasterAction::Wait
                } else {
                    self.has_been_empty = false;
                    self.next = 0;
                    self.batch_len = size;
                    MasterAction::Send(0)
                }
            },
        }
    }

    /// After the page at `next` was handed to its worker (`sent`) or the
    /// worker failed, while `n_closed` tasks are closed. A loop that is over
    /// stays over. A failure interrupts the crawl and ends the loop: no
    /// fetch or send follows. Otherwise the page counts as sent; the loop
    /// ends once `n_closed` reaches the remaining quota; else the next page
    /// of the batch is sent, or, at the end of the batch, a fetch follows.
    pub fn on_sent(&mut self, sent: bool, n_closed: usize) -> (r: MasterAction)
        requires
            old(self).n_sent < usize::MAX,
        ensures
            old(self).finished ==> *final(self) == *old(self) && r == MasterAction::Finish(
                end_of(*old(self)),
            ),
            !old(self).finished && !sent ==> *final(self) == (MasterLoop {
                is_interrupted: true,
                finished: true,
                ..*old(self)
            }) && r == MasterAction::Finish(CrawlEnd::Interrupted),
            !old(self).finished && sent ==> {
                let counted = MasterLoop { n_sent: (old(self).n_sent + 1) as usize, ..*old(self) };
                if n_closed >= old(self).remaining_quota {
                    *final(self) == (MasterLoop { finished: true, ..counted }) && r
                        == MasterAction::Finish(end_of(counted))
                } else if old(self).next + 1 < old(self).batch_len {
                    *final(self) == (MasterLoop { next: (old(self).next + 1) as usize, ..counted })
                        && r == MasterAction::Send((old(self).next + 1) as usize)
                } else {
                    *final(self) == counted && r == MasterAction::Fetch
                }
            },
    {
        if self.finished {
            return MasterAction::Finish(self.end());
        }
        if !sent {
            self.is_interrupted = true;
            self.finished = true;
            return MasterAction::Finish(CrawlEnd::Interrupted);
        }
        self.n_sent = self.n_sent + 1;
        if n_closed >= self.remaining_quota {
            self.finished = true;
            return MasterAction::Finish(self.end());
        }
        if self.next < self.batch_len && self.batch_len - self.next > 1 {
            self.next = self.next + 1;
            MasterAction::Send(self.next)
        } else {
            MasterAction::Fetch
        }
    }
}

/// What a crawl that ended so returns: an interrupted crawl is an error;
/// otherwise it succeeds, and says whether page ranks are to be computed.
pub fn crawl_result(end: CrawlEnd) -> (r: Result<bool, String>)
    ensures
        match end {
            CrawlEnd::Interrupted => r matches Err(m) && m@ == "crawl was interrupted"@,
            CrawlEnd::Done { page_rank } => r == Ok::<bool, String>(page_rank),
            _ => r == Ok::<bool, String>(false),
        },
{
    match end {
        CrawlEnd::Interrupted => Err(String::from_str("crawl was interrupted")),
        CrawlEnd::Done { page_rank } => Ok(page_rank),
        _ => Ok(false),
    }
}

/// The worker that gets a page: the page origin's hash, as a `usize`,
/// modulo the number of workers.
pub fn handler_for(origin_hash: u64, n_handlers: usize) -> (r: usize)
    requires
        n_handlers > 0,
    ensures
        r == (origin_hash as usize) % n_handlers,
        r < n_handlers,
{
    (origin_hash as usize) % n_handlers
}

/// How a crawl ended.
#[derive(Debug, Clone, Copy, PartialEq, Eq, Structural)]
pub enum CrawlEnd {
    /// Nothing was left to crawl: the crawl ended before any fetch.
    Empty,
    /// A worker failed.
    Interrupted,
    /// The profile's quota stopped the crawl before its own.
    Incomplete,
    /// The crawl is done; page ranks are computed when asked for.
    Done { page_rank: bool },
}

/// How a crawl ends.
pub fn crawl_end(is_interrupted: bool, will_crawl_end: bool, enable_page_rank: bool) -> (r: CrawlEnd)
    ensures
        r == (if is_interrupted {
            CrawlEnd::Interrupted
        } else if !will_crawl_end {
            CrawlEnd::Incomplete
        } else {
            CrawlEnd::Done { page_rank: enable_page_rank }
        }),
{
    if is_interrupted {
        CrawlEnd::Interrupted
    } else if !will_crawl_end {
        CrawlEnd::Incomplete
    } else {
        CrawlEnd::Done { page_rank: enable_page_rank }
    }
}

/// The pages of a batch are in order of depth.
pub open spec fn by_depth(batch: Seq<(String, u16)>) -> bool {
    forall|a: int, b: int| 0 <= a < b < batch.len() ==> #[trigger] batch[a].1 <= #[trigger] batch[b].1
}

/// The pages of a batch, shallowest first.
pub fn sort_by_depth(batch: Vec<(String, u16)>) -> (r: Vec<(String, u16)>)
    ensures
        r@.to_multiset() == batch@.to_multiset(),
        by_depth(r@),
{
    let ghost all = batch@;
    let mut out: Vec<(String, u16)> = Vec::new();
    let mut rest = batch;
    let ghost mut k: int = 0;
    assert(all.take(0) =~= Seq::<(String, u16)>::empty());
    assert(rest@ =~= all.skip(0));
    assert(out@ =~= all.take(0));
    while rest.len() > 0
        invariant
            0 <= k <= all.len(),
            rest@ == all.skip(k),
            out@.to_multiset() == all.take(k).to_multiset(),
            by_depth(out@),
        decreases rest.len(),
    {
        assert(rest@[0] == all[k]);
        let x = rest.remove(0);
        assert(rest@ =~= all.skip(k + 1));
        let mut p: usize = 0;
        while p < out.len() && out[p].1 <= x.1
            invariant
                p <= out@.len(),
                forall|j: int| 0 <= j < p ==> (#[trigger] out@[j]).1 <= x.1,
            decreases out.len() - p,
        {
            p = p + 1;
        }
        let ghost before = out@;
        let ghost xv = x;
        out.insert(p, x);
        proof {
            assert(out@ == before.insert(p as int, xv));
            vstd::seq_lib::to_multiset_insert(before, p as int, xv);
            assert(all.take(k + 1) =~= all.take(k).push(all[k]));
            vstd::seq_lib::to_multiset_build(all.take(k), all[k]);
            assert forall|a: int, b: int| 0 <= a < b < out@.len() implies #[trigger] out@[a].1
                <= #[trigger] out@[b].1 by {
                if b < p {
                    assert(out@[a] == before[a] && out@[b] == before[b]);
                } else if b == p {
                    assert(out@[a] == before[a]);
                } else if a < p {
                    assert(out@[a] == before[a] && out@[b] == before[b - 1]);
                    assert(before[a].1 <= xv.1);
                    if b - 1 >= p {
                        assert(before[p as int].1 > xv.1);
                        assert(before[p as int].1 <= before[b - 1].1);
                    }
                } else if a == p {
                    assert(out@[b] == before[b - 1]);
                    assert(before[p as int].1 > xv.1);
                    if b - 1 > p {
                        assert(before[p as int].1 <= before[b - 1].1);
                    }
                } else {
                    assert(out@[a] == before[a - 1] && out@[b] == before[b - 1]);
                }
            }
            k = k + 1;
        }
    }
    assert(all.take(k) =~= all);
    out
}

} // verus!
