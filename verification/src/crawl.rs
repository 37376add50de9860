//! Crawl bookkeeping: the task counter, why a link was followed, what a
//! backend reports of a removed wave, and the placeholders of the dummy
//! backend.
use vstd::prelude::*;
use vstd::string::StringExecFns;

verus! {

/// What a [`Counter`] has counted.
pub struct CounterView {
    pub open: nat,
    pub closed: nat,
    pub error: nat,
    pub downloaded: nat,
}

/// Counts crawl tasks: opened, closed (whatever the outcome), closed with an
/// error, and pages downloaded. Counts wrap around at `usize::MAX`, as the
/// machine's atomic counters do.
#[derive(Debug)]
pub struct Counter {
    open_count: usize,
    closed_count: usize,
    error_count: usize,
    download_count: usize,
}

impl View for Counter {
    type V = CounterView;

    closed spec fn view(&self) -> CounterView {
        CounterView {
            open: self.open_count as nat,
            closed: self.closed_count as nat,
            error: self.error_count as nat,
            downloaded: self.download_count as nat,
        }
    }
}

/// `n + 1`, wrapping around at `usize::MAX`.
pub open spec fn bump(n: nat) -> nat {
    if n < usize::MAX {
        n + 1
    } else {
        0
    }
}

/// Every task closed with an error is a closed task: the errors never
/// outnumber the closed tasks. Opening, closing and closing with an error
/// keep it so while the closed count is below `usize::MAX` (where
/// it wraps around).
pub proof fn lemma_errors_within_closed(c: CounterView)
    requires
        c.error <= c.closed,
        c.closed < usize::MAX,
    ensures
        (CounterView { open: bump(c.open), ..c }).error <= (CounterView { open: bump(c.open), ..c }).closed,
        (CounterView { closed: bump(c.closed), ..c }).error <= (CounterView { closed: bump(c.closed), ..c }).closed,
        bump(c.error) <= bump(c.closed),
{
}

impl Default for Counter {
    fn default() -> (r: Counter)
        ensures
            r@ == (CounterView { open: 0, closed: 0, error: 0, downloaded: 0 }),
    {
        Counter { open_count: 0, closed_count: 0, error_count: 0, download_count: 0 }
    }
}

impl Counter {
    /// A task was opened.
    pub fn register_open(&mut self)
        ensures
            final(self)@ == (CounterView { open: bump(old(self)@.open), ..old(self)@ }),
    {
        self.open_count = self.open_count.wrapping_add(1);
    }

    /// A task was closed, whatever its outcome.
    pub fn register_closed(&mut self)
        ensures
            final(self)@ == (CounterView { closed: bump(old(self)@.closed), ..old(self)@ }),
    {
        self.closed_count = self.closed_count.wrapping_add(1);
    }

    /// A task was closed with an error: it counts as closed too.
    pub fn register_error(&mut self)
        ensures
            final(self)@ == (CounterView {
                closed: bump(old(self)@.closed),
                error: bump(old(self)@.error),
                ..old(self)@
            }),
    {
        self.register_closed();
        self.error_count = self.error_count.wrapping_add(1);
    }

    /// A crawl task ended: it is closed, whatever its outcome; one that
    /// failed (`ok` false) also counts as an error, which closes it once
    /// more, as the counter's error count always does.
    pub fn task_finished(&mut self, ok: bool)
        ensures
            ok ==> final(self)@ == (CounterView { closed: bump(old(self)@.closed), ..old(self)@ }),
            !ok ==> final(self)@ == (CounterView {
                closed: bump(bump(old(self)@.closed)),
                error: bump(old(self)@.error),
                ..old(self)@
            }),
    {
        self.register_closed();
        if !ok {
            self.register_error();
        }
    }

    /// How many tasks were closed.
    pub fn n_closed(&self) -> (r: usize)
        ensures
            r == self@.closed,
    {
        self.closed_count
    }

    /// How many tasks were closed with an error.
    pub fn n_error(&self) -> (r: usize)
        ensures
            r == self@.error,
    {
        self.error_count
    }

    /// How many tasks are open and not yet closed.
    pub fn n_active(&self) -> (r: usize)
        requires
            self@.closed <= self@.open,
        ensures
            r == self@.open - self@.closed,
    {
        self.open_count - self.closed_count
    }

    /// How many pages were downloaded.
    pub fn n_downloaded(&self) -> (r: usize)
        ensures
            r == self@.downloaded,
    {
        self.download_count
    }

    /// The counts of two counters, added.
    pub fn merge(&self, other: &Self) -> (r: Self)
        requires
            self@.open + other@.open <= usize::MAX,
            self@.closed + other@.closed <= usize::MAX,
            self@.error + other@.error <= usize::MAX,
            self@.downloaded + other@.downloaded <= usize::MAX,
        ensures
            r@ == (CounterView {
                open: self@.open + other@.open,
                closed: self@.closed + other@.closed,
                error: self@.error + other@.error,
                downloaded: self@.downloaded + other@.downloaded,
            }),
    {
        Counter {
            open_count: self.open_count + other.open_count,
            closed_count: self.closed_count + other.closed_count,
            error_count: self.error_count + other.error_count,
            download_count: self.download_count + other.download_count,
        }
    }
}

/// Opening and then closing a task leaves the number of active tasks as it
/// was.
pub proof fn lemma_open_close_active(before: CounterView, after: CounterView)
    requires
        before.closed <= before.open,
        before.open < usize::MAX,
        before.closed < usize::MAX,
        after.open == bump(before.open),
        after.closed == bump(before.closed),
    ensures
        after.closed <= after.open,
        after.open - after.closed == before.open - before.closed,
{
}

/// Why a link was found on a page.
#[derive(Clone, Copy, Debug, PartialEq, Eq, Structural)]
pub enum Reason {
    Ahref,
    Redirect,
    Canonical,
}

/// The name under which a reason is stored.
pub open spec fn reason_name(r: Reason) -> Seq<char> {
    match r {
        Reason::Ahref => "ahref"@,
        Reason::Redirect => "redirect"@,
        Reason::Canonical => "canonical"@,
    }
}

impl Reason {
    /// The name under which the reason is stored.
    pub fn to_string(&self) -> (r: String)
        ensures
            r@ == reason_name(*self),
    {
        match self {
            Reason::Ahref => String::from_str("ahref"),
            Reason::Redirect => String::from_str("redirect"),
            Reason::Canonical => String::from_str("canonical"),
        }
    }

    pub fn is_ahref(&self) -> (r: bool)
        ensures
            r <==> *self == Reason::Ahref,
    {
        match self {
            Reason::Ahref => true,
            _ => false,
        }
    }

    pub fn is_canonical(&self) -> (r: bool)
        ensures
            r <==> *self == Reason::Canonical,
    {
        match self {
            Reason::Canonical => true,
            _ => false,
        }
    }

    pub fn is_redirect(&self) -> (r: bool)
        ensures
            r <==> *self == Reason::Redirect,
    {
        match self {
            Reason::Redirect => true,
            _ => false,
        }
    }
}

/// What a backend reports after removing a wave.
#[derive(Debug)]
pub struct WaveRemoveReport {
    pub was_removed: bool,
    pub removed_pages: usize,
}

impl WaveRemoveReport {
    /// Nothing was removed.
    pub fn not_removed() -> (r: WaveRemoveReport)
        ensures
            !r.was_removed,
            r.removed_pages == 0,
    {
        WaveRemoveReport { was_removed: false, removed_pages: 0 }
    }

    /// The wave was removed, with this many pages.
    pub fn removed(removed_pages: usize) -> (r: WaveRemoveReport)
        ensures
            r.was_removed,
            r.removed_pages == removed_pages,
    {
        WaveRemoveReport { was_removed: true, removed_pages }
    }

    pub fn was_removed(&self) -> (r: bool)
        ensures
            r == self.was_removed,
    {
        self.was_removed
    }
}

/// A backend that stores nothing.
#[derive(Default, Clone, Copy, PartialEq, Eq, PartialOrd, Ord, Hash, Debug)]
pub struct DummyBackend;

/// The master side of [`DummyBackend`].
#[derive(Default, Clone, Copy, PartialEq, Eq, PartialOrd, Ord, Hash, Debug)]
pub struct DummyMasterBackend;

/// Builds workers of [`DummyBackend`].
#[derive(Default, Clone, Copy, PartialEq, Eq, PartialOrd, Ord, Hash, Debug)]
pub struct DummyWorkerBackendFactory;

/// The worker side of [`DummyBackend`].
#[derive(Default, Clone, Copy, PartialEq, Eq, PartialOrd, Ord, Hash, Debug)]
pub struct DummyWorkerBackend;

/// The page ranker of [`DummyBackend`].
#[derive(Default, Clone, Copy, PartialEq, Eq, PartialOrd, Ord, Hash, Debug)]
pub struct DummyPageRanker;

/// The configuration of [`DummyBackend`]: there is none.
#[derive(Default, Clone, Copy, PartialEq, Eq, PartialOrd, Ord, Hash, Debug)]
pub struct DummyConfig {}

/// The configuration of a crawl that has no directives.
#[derive(Default, Clone, Copy, PartialEq, Eq, Debug)]
pub struct DummyConfiguration;

/// A downloader that downloads nothing.
#[derive(Default, Clone, Copy, PartialEq, Eq, Debug)]
pub struct DummyDownloader;

/// A parser that finds nothing.
#[derive(Default, Clone, Copy, PartialEq, Eq, Debug)]
pub struct DummyParser;

/// The user agent that crawls announce unless told otherwise: the package,
/// its version and its home page.
pub open spec fn user_agent_text() -> Seq<char> {
    "lib-lopez/0.1.0 (+https://github.com/tokahuke/lopez)"@
}

/// The user agent that crawls announce unless told otherwise.
pub fn default_user_agent() -> (r: &'static str)
    ensures
        r@ == user_agent_text(),
{
    "lib-lopez/0.1.0 (+https://github.com/tokahuke/lopez)"
}

/// The color in which a status code is shown.
#[derive(Clone, Copy, Debug, PartialEq, Eq, Structural)]
pub enum StatusColor {
    White,
    Green,
    Blue,
    Yellow,
    Red,
    Purple,
}

/// Informational codes are white, successes green, redirections blue,
/// client errors yellow, server errors red, and anything else purple.
pub open spec fn status_color(code: u16) -> StatusColor {
    if 100 <= code < 200 {
        StatusColor::White
    } else if 200 <= code < 300 {
        StatusColor::Green
    } else if 300 <= code < 400 {
        StatusColor::Blue
    } else if 400 <= code < 500 {
        StatusColor::Yellow
    } else if 500 <= code < 600 {
        StatusColor::Red
    } else {
        StatusColor::Purple
    }
}

/// The color in which a status code is shown.
pub fn color_for_code(code: u16) -> (r: StatusColor)
    ensures
        r == status_color(code),
{
    if 100 <= code && code < 200 {
        StatusColor::White
    } else if 200 <= code && code < 300 {
        StatusColor::Green
    } else if 300 <= code && code < 400 {
        StatusColor::Blue
    } else if 400 <= code && code < 500 {
        StatusColor::Yellow
    } else if 500 <= code && code < 600 {
        StatusColor::Red
    } else {
        StatusColor::Purple
    }
}

/// The lines in which a report lists addresses: `<empty>` for none; all of
/// them when they are at most `limit`; otherwise the first `limit`, then how
/// many more there are.
pub open spec fn list_lines(items: Seq<Seq<char>>, limit: nat) -> Seq<Seq<char>> {
    if items.len() == 0 {
        seq!["<empty>"@]
    } else if items.len() <= limit {
        items
    } else {
        items.take(limit as int).push(
            "... and "@ + crate::expressions::decimal_text((items.len() - limit) as nat) + " more."@,
        )
    }
}

/// The lines in which a report lists `items`, at most `limit` of them.
pub fn url_list_lines(items: &Vec<String>, limit: usize) -> (r: Vec<String>)
    ensures
        r@.map_values(|t: String| t@) == list_lines(items@.map_values(|t: String| t@), limit as nat),
{
    let ghost iv = items@.map_values(|t: String| t@);
    let mut r: Vec<String> = Vec::new();
    if items.len() == 0 {
        r.push(String::from_str("<empty>"));
        assert(r@.map_values(|t: String| t@) =~= seq!["<empty>"@]);
        return r;
    }
    let n = if items.len() <= limit {
        items.len()
    } else {
        limit
    };
    let mut k: usize = 0;
    while k < n
        invariant
            k <= n,
            n <= items@.len(),
            iv == items@.map_values(|t: String| t@),
            r@.map_values(|t: String| t@) == iv.take(k as int),
        decreases n - k,
    {
        let ghost before = r@.map_values(|t: String| t@);
        let item = items[k].clone();
        assert(item@ == iv[k as int]);
        r.push(item);
        assert(r@.map_values(|t: String| t@) =~= before.push(item@));
        assert(iv.take(k + 1) =~= iv.take(k as int).push(iv[k as int]));
        k = k + 1;
    }
    if items.len() > limit {
        let ghost before = r@.map_values(|t: String| t@);
        let mut line = String::from_str("... and ");
        let count = crate::expressions::decimal_string(items.len() - limit);
        line.append(count.as_str());
        line.append(" more.");
        r.push(line);
        assert(r@.map_values(|t: String| t@) =~= before.push(
            "... and "@ + crate::expressions::decimal_text((iv.len() - limit) as nat) + " more."@,
        ));
    } else {
        assert(iv.take(k as int) =~= iv);
    }
    r
}

} // verus!
