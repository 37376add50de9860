//! A worker's decisions about one page: what its download comes to, what is
//! stored of it, whether a test run looks at it, and whether the robots rules
//! of its origin let the crawler through. Downloading, waiting and storing
//! are the caller's; these functions say what to do.
use vstd::prelude::*;

use crate::boundaries::{
    DirectiveBoundaries, allowed, on_frontier, filtered_address, joined_link, kept_links,
    links_view, strictly_sorted, checked_join,
};
use crate::crawl::{Reason, Counter, CounterView, bump, list_lines, url_list_lines};
use crate::directives::{BoundaryListsV, lists_view};
use crate::robots::{RobotExclusion, allows_route};

verus! {

/// What the download of a page came to, with what the parser made of a page.
#[derive(Debug)]
pub enum Fetched {
    /// A page; `links` holds the links that the parser found on it, or
    /// nothing when the parser did not accept the page.
    Page { status_code: u16, links: Option<Vec<(Reason, String)>> },
    /// A status code that is neither a success nor a redirection.
    BadStatus { status_code: u16 },
    /// A redirection to `location`.
    Redirect { status_code: u16, location: String },
    /// The download failed.
    Failed(String),
    /// The download took too long.
    TimedOut,
}

/// What the crawl of a page came to.
#[derive(Debug)]
pub enum Crawled {
    /// A page, with the links that the crawl follows.
    Success { status_code: u16, links: Vec<(Reason, String)> },
    /// A status code that is neither a success nor a redirection.
    BadStatus { status_code: u16 },
    /// A redirection to `location`.
    Redirect { status_code: u16, location: String },
    /// The download failed.
    Error(String),
    /// The download took too long.
    TimedOut,
}

/// What a [`Crawled`] holds.
pub enum CrawledV {
    Success { status_code: u16, links: Seq<(Reason, Seq<char>)> },
    BadStatus { status_code: u16 },
    Redirect { status_code: u16, location: Seq<char> },
    Error(Seq<char>),
    TimedOut,
}

impl View for Crawled {
    type V = CrawledV;

    open spec fn view(&self) -> CrawledV {
        match *self {
            Crawled::Success { status_code, links } => CrawledV::Success {
                status_code,
                links: links_view(links@),
            },
            Crawled::BadStatus { status_code } => CrawledV::BadStatus { status_code },
            Crawled::Redirect { status_code, location } => CrawledV::Redirect {
                status_code,
                location: location@,
            },
            Crawled::Error(m) => CrawledV::Error(m@),
            Crawled::TimedOut => CrawledV::TimedOut,
        }
    }
}

/// `out` are the links found on the page at `page` that the crawl follows:
/// none when the page is on the frontier; otherwise those that resolve to
/// allowed addresses (query filtered), sorted, each once.
pub open spec fn links_cleaned(
    l: BoundaryListsV,
    page: Seq<char>,
    found: Seq<(Reason, Seq<char>)>,
    out: Seq<(Reason, Seq<char>)>,
) -> bool {
    if on_frontier(l, page) {
        out.len() == 0
    } else {
        out.to_set() == kept_links(l, page, found).to_set() && strictly_sorted(out)
    }
}

/// `r` is what the crawl of the page at `page` comes to when its download
/// came to `fetched`: a page keeps its status and its cleaned links (none
/// when the parser did not accept it); the other outcomes carry over.
pub open spec fn crawl_outcome(l: BoundaryListsV, page: Seq<char>, fetched: Fetched, r: CrawledV) -> bool {
    match fetched {
        Fetched::Page { status_code, links: Some(found) } => r matches CrawledV::Success {
            status_code: s,
            links: out,
        } && s == status_code && links_cleaned(l, page, links_view(found@), out),
        Fetched::Page { status_code, links: None } => r == CrawledV::Success {
            status_code,
            links: Seq::empty(),
        },
        Fetched::BadStatus { status_code } => r == CrawledV::BadStatus { status_code },
        Fetched::Redirect { status_code, location } => r == CrawledV::Redirect {
            status_code,
            location: location@,
        },
        Fetched::Failed(m) => r == CrawledV::Error(m@),
        Fetched::TimedOut => r == CrawledV::TimedOut,
    }
}

/// What the crawl of the page at `page_url` comes to, from what its download
/// came to.
pub fn crawl(boundaries: &DirectiveBoundaries, page_url: &str, fetched: Fetched) -> (r: Crawled)
    ensures
        crawl_outcome(lists_view(boundaries.boundaries), page_url@, fetched, r@),
{
    match fetched {
        Fetched::Page { status_code, links: Some(found) } => {
            let links = boundaries.clean_links(page_url, &found);
            Crawled::Success { status_code, links }
        },
        Fetched::Page { status_code, links: None } => {
            let r = Crawled::Success { status_code, links: Vec::new() };
            assert(links_view(Seq::<(Reason, String)>::empty()) =~= Seq::empty());
            r
        },
        Fetched::BadStatus { status_code } => Crawled::BadStatus { status_code },
        Fetched::Redirect { status_code, location } => Crawled::Redirect { status_code, location },
        Fetched::Failed(m) => Crawled::Error(m),
        Fetched::TimedOut => Crawled::TimedOut,
    }
}

/// One step of storing a crawled page. The steps are taken in order; a step
/// that fails ends the store.
#[derive(Debug)]
pub enum StoreAction {
    /// Store the page's analyses.
    Analyze,
    /// Mark the page explored, with its status code, the depth of the pages
    /// it links to, and its links.
    Explore { status_code: u16, depth: u16, links: Vec<(Reason, String)> },
    /// Mark the page as failed.
    MarkError,
    /// Count an error in the task counter.
    CountError,
}

/// What a [`StoreAction`] holds.
pub enum StoreStep {
    Analyze,
    Explore { status_code: u16, depth: u16, links: Seq<(Reason, Seq<char>)> },
    MarkError,
    CountError,
}

impl View for StoreAction {
    type V = StoreStep;

    open spec fn view(&self) -> StoreStep {
        match *self {
            StoreAction::Analyze => StoreStep::Analyze,
            StoreAction::Explore { status_code, depth, links } => StoreStep::Explore {
                status_code,
                depth,
                links: links_view(links@),
            },
            StoreAction::MarkError => StoreStep::MarkError,
            StoreAction::CountError => StoreStep::CountError,
        }
    }
}

pub open spec fn steps_view(s: Seq<StoreAction>) -> Seq<StoreStep> {
    s.map_values(|a: StoreAction| a@)
}

/// What is stored of the page at `page`, found at `depth`, once crawled: a
/// page has its analyses stored, then is explored with its links; a bad
/// status is explored without links; a redirection is explored with its
/// target (query filtered) when the target resolves, the page is not on the
/// frontier and the target is allowed, and nothing is stored otherwise; a
/// failure or a time-out marks the page failed, then counts an error. The
/// pages a page links to are one level deeper.
pub open spec fn store_plan(l: BoundaryListsV, page: Seq<char>, depth: u16, c: CrawledV) -> Seq<StoreStep>
    recommends
        depth < u16::MAX,
{
    let next = (depth + 1) as u16;
    match c {
        CrawledV::Success { status_code, links } => seq![
            StoreStep::Analyze,
            StoreStep::Explore { status_code, depth: next, links },
        ],
        CrawledV::BadStatus { status_code } => seq![
            StoreStep::Explore { status_code, depth: next, links: Seq::empty() },
        ],
        CrawledV::Redirect { status_code, location } => match joined_link(page, location) {
            Ok(target) => if !on_frontier(l, page) && allowed(l, target) {
                seq![
                    StoreStep::Explore {
                        status_code,
                        depth: next,
                        links: seq![(Reason::Redirect, filtered_address(l, target))],
                    },
                ]
            } else {
                Seq::empty()
            },
            Err(_) => Seq::empty(),
        },
        CrawledV::Error(_) => seq![StoreStep::MarkError, StoreStep::CountError],
        CrawledV::TimedOut => seq![StoreStep::MarkError, StoreStep::CountError],
    }
}

/// What to store of the page at `page_url`, found at `depth`, once crawled.
/// The outcomes that store the page's links add one to its depth, which must
/// then have room for it.
pub fn store(boundaries: &DirectiveBoundaries, page_url: &str, depth: u16, crawled: Crawled) -> (r: Vec<StoreAction>)
    requires
        !(crawled is Error || crawled is TimedOut) ==> depth < u16::MAX,
    ensures
        steps_view(r@) == store_plan(lists_view(boundaries.boundaries), page_url@, depth, crawled@),
{
    let ghost c = crawled@;
    let next = if depth < u16::MAX {
        depth + 1
    } else {
        depth
    };
    let b = &boundaries.boundaries;
    let mut r: Vec<StoreAction> = Vec::new();
    match crawled {
        Crawled::Success { status_code, links } => {
            r.push(StoreAction::Analyze);
            r.push(StoreAction::Explore { status_code, depth: next, links });
        },
        Crawled::BadStatus { status_code } => {
            r.push(StoreAction::Explore { status_code, depth: next, links: Vec::new() });
            assert(links_view(Seq::<(Reason, String)>::empty()) =~= Seq::empty());
        },
        Crawled::Redirect { status_code, location } => {
            match checked_join(page_url, location.as_str()) {
                Ok(target) => {
                    let frontier = b.is_frontier(page_url);
                    let allows = b.is_allowed(target.as_str());
                    if !frontier && allows {
                        let cleaned = b.filter_query_params(target.as_str());
                        let mut links: Vec<(Reason, String)> = Vec::new();
                        links.push((Reason::Redirect, cleaned));
                        assert(links_view(links@) =~= seq![(Reason::Redirect, cleaned@)]);
                        r.push(StoreAction::Explore { status_code, depth: next, links });
                    }
                },
                Err(_) => {},
            }
        },
        Crawled::Error(_) => {
            r.push(StoreAction::MarkError);
            r.push(StoreAction::CountError);
        },
        Crawled::TimedOut => {
            r.push(StoreAction::MarkError);
            r.push(StoreAction::CountError);
        },
    }
    assert(steps_view(r@) =~= store_plan(lists_view(*b), page_url@, depth, c));
    r
}

/// Where a store stands after a step.
#[derive(Debug)]
pub enum StoreNext {
    /// Perform the backend step at this position of the plan (`Analyze`,
    /// `Explore` or `MarkError`), then report how it went.
    Perform(usize),
    /// The store is over, with this outcome.
    Done(Result<(), String>),
}

/// The counter after the counting steps from position `k` of a plan, and
/// the position of the next backend step, if any: each `CountError` counts
/// one closed task with an error.
pub open spec fn store_after(plan: Seq<StoreStep>, k: int, c: CounterView) -> (Option<int>, CounterView)
    decreases plan.len() - k,
{
    if k < 0 || k >= plan.len() {
        (None, c)
    } else if plan[k] is CountError {
        store_after(
            plan,
            k + 1,
            CounterView { closed: bump(c.closed), error: bump(c.error), ..c },
        )
    } else {
        (Some(k), c)
    }
}

/// The next move of a store that has run the steps of `plan` before
/// position `done`, the last of which went as `outcome` (`Ok` before the
/// first step). A failed step ends the store with its error and leaves the
/// counter alone. Otherwise the counting steps that come next are taken on
/// `counter`, and the next backend step is handed out; with none left, the
/// store succeeds.
pub fn store_next(plan: &Vec<StoreAction>, done: usize, outcome: Result<(), String>, counter: &mut Counter) -> (r: StoreNext)
    ensures
        match outcome {
            Err(e) => *final(counter) == *old(counter) && (r matches StoreNext::Done(Err(m)) && m@ == e@),
            Ok(()) => {
                let (p, c) = store_after(steps_view(plan@), done as int, old(counter)@);
                &&& final(counter)@ == c
                &&& match p {
                    Some(k) => r == StoreNext::Perform(k as usize) && k < plan@.len(),
                    None => r matches StoreNext::Done(Ok(())),
                }
            },
        },
{
    match outcome {
        Err(e) => StoreNext::Done(Err(e)),
        Ok(()) => {
            let ghost goal = store_after(steps_view(plan@), done as int, old(counter)@);
            let mut k = done;
            while k < plan.len()
                invariant
                    done <= k,
                    outcome is Ok,
                    store_after(steps_view(plan@), k as int, counter@) == goal,
                    goal == store_after(steps_view(plan@), done as int, old(counter)@),
                decreases plan.len() - k,
            {
                match &plan[k] {
                    StoreAction::CountError => {
                        assert(steps_view(plan@)[k as int] is CountError);
                        counter.register_error();
                    },
                    _ => {
                        assert(!(steps_view(plan@)[k as int] is CountError));
                        return StoreNext::Perform(k);
                    },
                }
                k = k + 1;
            }
            StoreNext::Done(Ok(()))
        },
    }
}

/// The address that a test run looks at (`url` with only the query
/// parameters that stay), and whether the directives allow it.
pub fn test_target(boundaries: &DirectiveBoundaries, url: &str) -> (r: (String, bool))
    ensures
        r.0@ == filtered_address(lists_view(boundaries.boundaries), url@),
        r.1 == allowed(lists_view(boundaries.boundaries), r.0@),
{
    let actual = boundaries.boundaries.filter_query_params(url);
    let allows = boundaries.boundaries.is_allowed(actual.as_str());
    (actual, allows)
}

/// Whether the robots rules of an origin let the crawler visit `route` (an
/// address from its path on); an origin without rules lets everything
/// through.
pub fn origin_allows(exclusion: &Option<RobotExclusion>, route: &str) -> (r: bool)
    ensures
        r == match *exclusion {
            Some(e) => allows_route(e, route@),
            None => true,
        },
{
    match exclusion {
        Some(e) => e.allows(route),
        None => true,
    }
}

/// The addresses of the links found for `reason`, in order.
pub open spec fn urls_with(links: Seq<(Reason, Seq<char>)>, reason: Reason) -> Seq<Seq<char>>
    decreases links.len(),
{
    if links.len() == 0 {
        Seq::empty()
    } else {
        let rest = urls_with(links.drop_last(), reason);
        if links.last().0 == reason {
            rest.push(links.last().1)
        } else {
            rest
        }
    }
}

/// The addresses of the links found for `reason`.
fn urls_of(links: &Vec<(Reason, String)>, reason: Reason) -> (r: Vec<String>)
    ensures
        r@.map_values(|t: String| t@) == urls_with(links_view(links@), reason),
{
    let ghost lv = links_view(links@);
    let mut r: Vec<String> = Vec::new();
    let mut k: usize = 0;
    assert(lv.take(0) =~= Seq::<(Reason, Seq<char>)>::empty());
    assert(r@.map_values(|t: String| t@) =~= Seq::<Seq<char>>::empty());
    while k < links.len()
        invariant
            k <= links@.len(),
            lv == links_view(links@),
            lv.len() == links@.len(),
            r@.map_values(|t: String| t@) == urls_with(lv.take(k as int), reason),
        decreases links.len() - k,
    {
        assert(lv.take(k + 1).drop_last() =~= lv.take(k as int));
        assert(lv[k as int] == (links@[k as int].0, links@[k as int].1@));
        if links[k].0 == reason {
            let ghost before = r@.map_values(|t: String| t@);
            let u = links[k].1.clone();
            r.push(u);
            assert(r@.map_values(|t: String| t@) =~= before.push(lv[k as int].1));
        }
        k = k + 1;
    }
    assert(lv.take(k as int) =~= lv);
    r
}

/// How many canonical links a test report lists.
pub open spec fn canonical_limit() -> nat {
    3
}

/// How many anchors a test report lists.
pub open spec fn anchor_limit() -> nat {
    10
}

/// The lists of a test report on a crawled page: its canonical links (at
/// most 3 listed) and its anchors (at most 10 listed), each list as
/// [`list_lines`] writes it.
pub fn report_link_lines(links: &Vec<(Reason, String)>) -> (r: (Vec<String>, Vec<String>))
    ensures
        r.0@.map_values(|t: String| t@) == list_lines(urls_with(links_view(links@), Reason::Canonical), canonical_limit()),
        r.1@.map_values(|t: String| t@) == list_lines(urls_with(links_view(links@), Reason::Ahref), anchor_limit()),
{
    let canonicals = urls_of(links, Reason::Canonical);
    let anchors = urls_of(links, Reason::Ahref);
    (url_list_lines(&canonicals, 3), url_list_lines(&anchors, 10))
}

} // verus!
