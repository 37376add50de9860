//! The bounds of a crawl: which addresses may be downloaded, which are on the
//! frontier (their links are not followed), which query parameters an address
//! keeps, and how a link found on a page becomes an address.
use vstd::prelude::*;
use vstd::string::StringExecFns;

use crate::directives::{BoundaryLists, BoundaryListsV, lists_view, texts_view};
use crate::outside::{
    url_parse, parse_url, url_join, join_url, url_scheme, scheme_of, url_has_domain, has_domain,
    url_query_pairs, query_pairs_of, url_with_pairs, with_query_pairs, url_without_query,
    without_query, regex_set_match, set_matches,
};
use crate::position::chars_of;
use crate::crawl::Reason;

verus! {

/// Whether one of the patterns matches the text (a set that cannot be built
/// matches nothing).
pub open spec fn any_matches(patterns: Seq<Seq<char>>, text: Seq<char>) -> bool {
    regex_set_match(patterns, text) == Some(true)
}

/// Whether an address may be downloaded: an allowed pattern matches it and
/// no disallowed one does.
pub open spec fn allowed(l: BoundaryListsV, url: Seq<char>) -> bool {
    any_matches(l.allowed, url) && !any_matches(l.disallowed, url)
}

/// Whether an address is on the frontier.
pub open spec fn on_frontier(l: BoundaryListsV, url: Seq<char>) -> bool {
    any_matches(l.frontier, url)
}

/// Whether a query parameter stays: it is used (or all are) and not ignored.
pub open spec fn keeps_param(l: BoundaryListsV, key: Seq<char>) -> bool {
    (l.use_all_params || l.use_params.contains(key)) && !l.ignore_params.contains(key)
}

/// The query pairs that stay, in order.
pub open spec fn kept_pairs(l: BoundaryListsV, ps: Seq<(Seq<char>, Seq<char>)>) -> Seq<
    (Seq<char>, Seq<char>),
>
    decreases ps.len(),
{
    if ps.len() == 0 {
        Seq::empty()
    } else {
        let rest = kept_pairs(l, ps.drop_last());
        if keeps_param(l, ps.last().0) {
            rest.push(ps.last())
        } else {
            rest
        }
    }
}

/// An address that a disallowed pattern matches is never allowed, nor one
/// that no allowed pattern matches; any other is allowed. An address is on
/// the frontier exactly when a frontier pattern matches it.
pub proof fn lemma_allowed_by_patterns(l: BoundaryListsV, url: Seq<char>)
    ensures
        regex_set_match(l.disallowed, url) == Some(true) ==> !allowed(l, url),
        regex_set_match(l.allowed, url) != Some(true) ==> !allowed(l, url),
        regex_set_match(l.allowed, url) == Some(true) && regex_set_match(l.disallowed, url) != Some(true)
            ==> allowed(l, url),
        on_frontier(l, url) <==> regex_set_match(l.frontier, url) == Some(true),
{
}

/// A query parameter whose key is ignored never stays, whatever keys are
/// used; and the pairs that stay are exactly those, in their order, whose
/// key is used (or every key is) and not ignored.
pub proof fn lemma_ignored_params_dropped(l: BoundaryListsV, ps: Seq<(Seq<char>, Seq<char>)>, key: Seq<char>)
    ensures
        l.ignore_params.contains(key) ==> !keeps_param(l, key),
        kept_pairs(l, ps) == ps.filter(
            |p: (Seq<char>, Seq<char>)|
                (l.use_all_params || l.use_params.contains(p.0)) && !l.ignore_params.contains(p.0),
        ),
        forall|k: int|
            0 <= k < kept_pairs(l, ps).len() ==> !l.ignore_params.contains(#[trigger] kept_pairs(l, ps)[k].0),
    decreases ps.len(),
{
    let f = |p: (Seq<char>, Seq<char>)|
        (l.use_all_params || l.use_params.contains(p.0)) && !l.ignore_params.contains(p.0);
    reveal_with_fuel(Seq::filter, 2);
    if ps.len() > 0 {
        lemma_ignored_params_dropped(l, ps.drop_last(), key);
        assert(ps.filter(f) == {
            let rest = ps.drop_last().filter(f);
            if f(ps.last()) {
                rest.push(ps.last())
            } else {
                rest
            }
        });
    }
    assert forall|k: int| 0 <= k < ps.filter(f).len() implies f(#[trigger] ps.filter(f)[k]) by {
        ps.lemma_filter_pred(f, k);
    }
}

/// The address that query filtering gives, when the address has query
/// pairs: the address with the pairs whose key is used and not ignored, or
/// without a query when none is.
pub proof fn lemma_filtered_address_pairs(l: BoundaryListsV, url: Seq<char>)
    ensures
        url_query_pairs(url) matches Some(ps) ==> {
            let kept = ps.filter(
                |p: (Seq<char>, Seq<char>)|
                    (l.use_all_params || l.use_params.contains(p.0)) && !l.ignore_params.contains(p.0),
            );
            &&& kept.len() > 0 && url_with_pairs(url, kept) is Some ==> filtered_address(l, url) == url_with_pairs(
                url,
                kept,
            )->0
            &&& kept.len() == 0 && url_without_query(url) is Some ==> filtered_address(l, url)
                == url_without_query(url)->0
        },
{
    if let Some(ps) = url_query_pairs(url) {
        lemma_ignored_params_dropped(l, ps, Seq::empty());
    }
}

/// The address with only the query pairs that stay; without a query when
/// none does. Text that is not an address is left as it is.
pub open spec fn filtered_address(l: BoundaryListsV, url: Seq<char>) -> Seq<char> {
    match url_query_pairs(url) {
        None => url,
        Some(ps) => {
            let kept = kept_pairs(l, ps);
            let changed = if kept.len() > 0 {
                url_with_pairs(url, kept)
            } else {
                url_without_query(url)
            };
            match changed {
                Some(u) => u,
                None => url,
            }
        },
    }
}

/// `text` followed by the link it is about.
pub open spec fn link_message(text: Seq<char>, raw: Seq<char>) -> Seq<char> {
    text + raw
}

/// A link found on the page at `base` as an address: the link itself when it
/// is one, else the link resolved against the page; refused when it is empty
/// or a fragment, when it is not HTTP(S), or when it has no domain.
pub open spec fn joined_link(base: Seq<char>, raw: Seq<char>) -> Result<Seq<char>, Seq<char>> {
    let parsed = match url_parse(raw) {
        Ok(u) => Ok(u),
        Err((relative, m)) => if relative {
            url_join(base, raw)
        } else {
            Err(m)
        },
    };
    match parsed {
        Err(_) => Err(link_message("bad link: "@, raw)),
        Ok(u) => if raw.len() == 0 || raw[0] == '#' {
            Err(link_message("bad link: "@, raw))
        } else if url_scheme(u) != Some("http"@) && url_scheme(u) != Some("https"@) {
            Err(link_message("unaccepted scheme: "@, raw))
        } else if url_has_domain(u) == Some(true) {
            Ok(u)
        } else {
            Err(link_message("no domain: "@, raw))
        },
    }
}

fn message(text: &str, raw: &str) -> (r: String)
    ensures
        r@ == link_message(text@, raw@),
{
    let mut m = String::from_str(text);
    m.append(raw);
    m
}

/// A link found on the page at `base_url`, as an address.
pub fn checked_join(base_url: &str, raw: &str) -> (r: Result<String, String>)
    ensures
        (match r {
            Ok(u) => Ok::<Seq<char>, Seq<char>>(u@),
            Err(m) => Err(m@),
        }) == joined_link(base_url@, raw@),
{
    let parsed = match parse_url(raw) {
        Ok(u) => Ok(u),
        Err((relative, m)) => if relative {
            join_url(base_url, raw)
        } else {
            Err(m)
        },
    };
    let url = match parsed {
        Ok(u) => u,
        Err(_) => {
            return Err(message("bad link: ", raw));
        },
    };
    let chars = chars_of(raw);
    if chars.len() == 0 || chars[0] == '#' {
        return Err(message("bad link: ", raw));
    }
    let scheme_ok = match scheme_of(url.as_str()) {
        Some(s) => s == String::from_str("http") || s == String::from_str("https"),
        None => false,
    };
    if !scheme_ok {
        return Err(message("unaccepted scheme: ", raw));
    }
    match has_domain(url.as_str()) {
        Some(true) => Ok(url),
        _ => Err(message("no domain: ", raw)),
    }
}

fn contains_string(ts: &Vec<String>, t: &String) -> (r: bool)
    ensures
        r == texts_view(ts@).contains(t@),
{
    let mut k: usize = 0;
    while k < ts.len()
        invariant
            k <= ts@.len(),
            forall|j: int| 0 <= j < k ==> ts@[j]@ != t@,
        decreases ts.len() - k,
    {
        if ts[k] == *t {
            assert(texts_view(ts@)[k as int] == t@);
            return true;
        }
        k = k + 1;
    }
    assert forall|j: int| 0 <= j < texts_view(ts@).len() implies texts_view(ts@)[j] != t@ by {
        assert(ts@[j]@ != t@);
    }
    false
}

pub open spec fn pairs_view(ps: Seq<(String, String)>) -> Seq<(Seq<char>, Seq<char>)> {
    ps.map_values(|p: (String, String)| (p.0@, p.1@))
}

impl BoundaryLists {
    /// Whether the address may be downloaded.
    pub fn is_allowed(&self, url: &str) -> (r: bool)
        ensures
            r == allowed(lists_view(*self), url@),
    {
        let a = set_matches(&self.allowed, url);
        let d = set_matches(&self.disallowed, url);
        a == Some(true) && !(d == Some(true))
    }

    /// Whether the address is on the frontier.
    pub fn is_frontier(&self, url: &str) -> (r: bool)
        ensures
            r == on_frontier(lists_view(*self), url@),
    {
        set_matches(&self.frontier, url) == Some(true)
    }

    /// Whether a query parameter stays.
    pub fn keeps(&self, key: &String) -> (r: bool)
        ensures
            r == keeps_param(lists_view(*self), key@),
    {
        (self.use_all_params || contains_string(&self.use_params, key)) && !contains_string(
            &self.ignore_params,
            key,
        )
    }

    /// The address with only the query parameters that stay.
    pub fn filter_query_params(&self, url: &str) -> (r: String)
        ensures
            r@ == filtered_address(lists_view(*self), url@),
    {
        let pairs = match query_pairs_of(url) {
            Some(pairs) => pairs,
            None => {
                return String::from_str(url);
            },
        };
        let ghost all = url_query_pairs(url@)->0;
        assert(pairs_view(pairs@) =~= all);
        let mut kept: Vec<(String, String)> = Vec::new();
        let mut k: usize = 0;
        assert(all.take(0) =~= Seq::<(Seq<char>, Seq<char>)>::empty());
        assert(pairs_view(kept@) =~= Seq::<(Seq<char>, Seq<char>)>::empty());
        while k < pairs.len()
            invariant
                k <= pairs@.len(),
                all == pairs_view(pairs@),
                pairs_view(kept@) == kept_pairs(lists_view(*self), all.take(k as int)),
            decreases pairs.len() - k,
        {
            assert(all.take(k + 1).drop_last() =~= all.take(k as int));
            assert(all.take(k + 1).last() == all[k as int]);
            if self.keeps(&pairs[k].0) {
                let ghost before = pairs_view(kept@);
                let entry = (pairs[k].0.clone(), pairs[k].1.clone());
                let ghost ev = (entry.0@, entry.1@);
                kept.push(entry);
                assert(pairs_view(kept@) =~= before.push(ev));
            }
            k = k + 1;
        }
        assert(all.take(k as int) =~= all);
        let changed = if kept.len() > 0 {
            with_query_pairs(url, &kept)
        } else {
            without_query(url)
        };
        match changed {
            Some(u) => u,
            None => String::from_str(url),
        }
    }
}

/// The bounds of a crawl, as the directives give them.
#[derive(Debug)]
pub struct DirectiveBoundaries {
    pub boundaries: BoundaryLists,
}

impl DirectiveBoundaries {
    pub fn new(boundaries: BoundaryLists) -> (r: DirectiveBoundaries)
        ensures
            r.boundaries == boundaries,
    {
        DirectiveBoundaries { boundaries }
    }
}


/// Text order: character by character, a prefix first (the order of
/// `String`s, since UTF-8 keeps the order of characters).
pub open spec fn text_less(a: Seq<char>, b: Seq<char>) -> bool
    decreases a.len(),
{
    if a.len() == 0 {
        b.len() > 0
    } else if b.len() == 0 {
        false
    } else if a[0] != b[0] {
        (a[0] as int) < (b[0] as int)
    } else {
        text_less(a.drop_first(), b.drop_first())
    }
}

/// Of two different texts, one comes first.
pub(crate) proof fn lemma_text_total(a: Seq<char>, b: Seq<char>)
    ensures
        a == b || text_less(a, b) || text_less(b, a),
    decreases a.len(),
{
    if a.len() > 0 && b.len() > 0 && a[0] == b[0] {
        lemma_text_total(a.drop_first(), b.drop_first());
        if a.drop_first() == b.drop_first() {
            assert(a =~= seq![a[0]] + a.drop_first());
            assert(b =~= seq![b[0]] + b.drop_first());
        }
    } else if a.len() == 0 && b.len() == 0 {
        assert(a =~= b);
    } else if a.len() > 0 && b.len() > 0 {
        let x = a[0];
        let y = b[0];
        assert(x != y);
        assert((x as int) != (y as int));
    }
}

/// No text comes strictly before a text that comes strictly before it.
pub(crate) proof fn lemma_text_asymmetric(a: Seq<char>, b: Seq<char>)
    ensures
        !(text_less(a, b) && text_less(b, a)),
    decreases a.len(),
{
    if a.len() > 0 && b.len() > 0 && a[0] == b[0] {
        lemma_text_asymmetric(a.drop_first(), b.drop_first());
    }
}

/// The order of texts is transitive.
pub(crate) proof fn lemma_text_transitive(a: Seq<char>, b: Seq<char>, c: Seq<char>)
    requires
        text_less(a, b),
        text_less(b, c),
    ensures
        text_less(a, c),
    decreases a.len(),
{
    if a.len() > 0 && b.len() > 0 && c.len() > 0 && a[0] == b[0] && b[0] == c[0] {
        lemma_text_transitive(a.drop_first(), b.drop_first(), c.drop_first());
    }
}

/// The rank of a reason in the order of its variants.
pub open spec fn reason_rank(r: Reason) -> int {
    match r {
        Reason::Ahref => 0,
        Reason::Redirect => 1,
        Reason::Canonical => 2,
    }
}

/// The order of links: by reason, then by address.
pub open spec fn link_less(a: (Reason, Seq<char>), b: (Reason, Seq<char>)) -> bool {
    reason_rank(a.0) < reason_rank(b.0) || (a.0 == b.0 && text_less(a.1, b.1))
}

fn reason_code(r: Reason) -> (n: u8)
    ensures
        n as int == reason_rank(r),
{
    match r {
        Reason::Ahref => 0,
        Reason::Redirect => 1,
        Reason::Canonical => 2,
    }
}

/// Whether `a` comes before `b`, character by character.
pub(crate) fn chars_less(a: &Vec<char>, b: &Vec<char>) -> (r: bool)
    ensures
        r == text_less(a@, b@),
{
    let mut k: usize = 0;
    assert(a@.skip(0) =~= a@);
    assert(b@.skip(0) =~= b@);
    while k < a.len() && k < b.len() && a[k] == b[k]
        invariant
            k <= a@.len(),
            k <= b@.len(),
            text_less(a@, b@) == text_less(a@.skip(k as int), b@.skip(k as int)),
        decreases a.len() - k,
    {
        assert(a@.skip(k as int).drop_first() =~= a@.skip(k + 1));
        assert(b@.skip(k as int).drop_first() =~= b@.skip(k + 1));
        k = k + 1;
    }
    if k == a.len() {
        k < b.len()
    } else if k == b.len() {
        false
    } else {
        a[k] < b[k]
    }
}

/// Whether link `a` comes before link `b`.
fn link_before(a: &(Reason, String), b: &(Reason, String)) -> (r: bool)
    ensures
        r == link_less((a.0, a.1@), (b.0, b.1@)),
{
    let ra = reason_code(a.0);
    let rb = reason_code(b.0);
    if ra != rb {
        return ra < rb;
    }
    let ca = chars_of(a.1.as_str());
    let cb = chars_of(b.1.as_str());
    proof {
        assert(a.0 == b.0);
    }
    chars_less(&ca, &cb)
}

pub open spec fn links_view(ls: Seq<(Reason, String)>) -> Seq<(Reason, Seq<char>)> {
    ls.map_values(|l: (Reason, String)| (l.0, l.1@))
}

/// The links of a page that the crawl keeps, in the order found: each
/// resolved to an address, its query filtered, and kept when allowed.
pub open spec fn kept_links(l: BoundaryListsV, page: Seq<char>, links: Seq<(Reason, Seq<char>)>) -> Seq<
    (Reason, Seq<char>),
>
    decreases links.len(),
{
    if links.len() == 0 {
        Seq::empty()
    } else {
        let rest = kept_links(l, page, links.drop_last());
        match joined_link(page, links.last().1) {
            Ok(u) => {
                let c = filtered_address(l, u);
                if allowed(l, c) {
                    rest.push((links.last().0, filtered_address(l, c)))
                } else {
                    rest
                }
            },
            Err(_) => rest,
        }
    }
}

/// Each link comes strictly before the next.
pub open spec fn strictly_sorted(ls: Seq<(Reason, Seq<char>)>) -> bool {
    forall|k: int| 0 <= k < ls.len() - 1 ==> link_less(#[trigger] ls[k], ls[k + 1])
}

impl DirectiveBoundaries {
    /// The links found on the page at `page_url` that the crawl follows:
    /// none when the page is on the frontier; otherwise those that resolve
    /// to allowed addresses (query filtered), sorted, each once.
    pub fn clean_links(&self, page_url: &str, links: &Vec<(Reason, String)>) -> (r: Vec<(Reason, String)>)
        ensures
            on_frontier(lists_view(self.boundaries), page_url@) ==> r@.len() == 0,
            !on_frontier(lists_view(self.boundaries), page_url@) ==> {
                &&& links_view(r@).to_set() == kept_links(
                    lists_view(self.boundaries),
                    page_url@,
                    links_view(links@),
                ).to_set()
                &&& strictly_sorted(links_view(r@))
            },
    {
        let b = &self.boundaries;
        let ghost l = lists_view(*b);
        if b.is_frontier(page_url) {
            return Vec::new();
        }
        let ghost lv = links_view(links@);
        let mut out: Vec<(Reason, String)> = Vec::new();
        let mut k: usize = 0;
        assert(lv.take(0) =~= Seq::<(Reason, Seq<char>)>::empty());
        assert(links_view(out@).to_set() =~= Set::<(Reason, Seq<char>)>::empty());
        while k < links.len()
            invariant
                k <= links@.len(),
                lv == links_view(links@),
                l == lists_view(*b),
                links_view(out@).to_set() == kept_links(l, page_url@, lv.take(k as int)).to_set(),
                strictly_sorted(links_view(out@)),
            decreases links.len() - k,
        {
            let ghost before = kept_links(l, page_url@, lv.take(k as int));
            assert(lv.take(k + 1).drop_last() =~= lv.take(k as int));
            assert(lv.take(k + 1).last() == lv[k as int]);
            let reason = links[k].0;
            match checked_join(page_url, links[k].1.as_str()) {
                Ok(u) => {
                    let c = b.filter_query_params(u.as_str());
                    if b.is_allowed(c.as_str()) {
                        let cleaned = b.filter_query_params(c.as_str());
                        let item = (reason, cleaned);
                        let ghost iv = (item.0, item.1@);
                        assert(kept_links(l, page_url@, lv.take(k + 1)) == before.push(iv));
                        insert_link(&mut out, item);
                        proof {
                            lemma_push_set(before, iv);
                        }
                    } else {
                        assert(kept_links(l, page_url@, lv.take(k + 1)) == before);
                    }
                },
                Err(_) => {
                    assert(kept_links(l, page_url@, lv.take(k + 1)) == before);
                },
            }
            k = k + 1;
        }
        assert(lv.take(k as int) =~= lv);
        out
    }
}

proof fn lemma_push_set<A>(s: Seq<A>, x: A)
    ensures
        s.push(x).to_set() == s.to_set().insert(x),
{
    assert forall|y: A| s.push(x).to_set().contains(y) <==> s.to_set().insert(x).contains(y) by {
        if s.push(x).to_set().contains(y) {
            let w = choose|w: int| 0 <= w < s.push(x).len() && s.push(x)[w] == y;
            if w < s.len() {
                assert(s[w] == y);
            }
        }
        if s.to_set().contains(y) {
            let w = choose|w: int| 0 <= w < s.len() && s[w] == y;
            assert(s.push(x)[w] == y);
        }
        if y == x {
            assert(s.push(x)[s.len() as int] == y);
        }
    }
    assert(s.push(x).to_set() =~= s.to_set().insert(x));
}

/// Puts a link in its place in a sorted list, unless it is there already.
fn insert_link(out: &mut Vec<(Reason, String)>, item: (Reason, String))
    requires
        strictly_sorted(links_view(old(out)@)),
    ensures
        strictly_sorted(links_view(final(out)@)),
        links_view(final(out)@).to_set() == links_view(old(out)@).to_set().insert((item.0, item.1@)),
{
    let ghost before = links_view(out@);
    let ghost iv = (item.0, item.1@);
    let mut p: usize = 0;
    while p < out.len() && link_before(&out[p], &item)
        invariant
            p <= out@.len(),
            before == links_view(out@),
            iv == (item.0, item.1@),
            forall|j: int| 0 <= j < p ==> link_less(#[trigger] before[j], iv),
        decreases out.len() - p,
    {
        p = p + 1;
    }
    if p < out.len() && out[p].0 == item.0 && out[p].1 == item.1 {
        assert(before[p as int] == iv);
        assert(before.to_set().insert(iv) =~= before.to_set());
        return;
    }
    proof {
        if p < before.len() {
            lemma_text_total(before[p as int].1, iv.1);
            if before[p as int].0 == iv.0 && before[p as int].1 == iv.1 {
                assert(before[p as int] == iv);
            }
        }
    }
    out.insert(p, item);
    proof {
        let after = links_view(out@);
        assert(after =~= before.insert(p as int, iv));
        assert forall|k: int| 0 <= k < after.len() - 1 implies link_less(#[trigger] after[k], after[k + 1]) by {
            if k + 1 < p {
                assert(after[k] == before[k] && after[k + 1] == before[k + 1]);
            } else if k + 1 == p {
                assert(after[k] == before[k]);
            } else if k == p {
                assert(after[k + 1] == before[k]);
            } else {
                assert(after[k] == before[k - 1] && after[k + 1] == before[k]);
            }
        }
        assert(before.insert(p as int, iv).to_set() =~= before.to_set().insert(iv)) by {
            assert forall|x: (Reason, Seq<char>)| before.insert(p as int, iv).to_set().contains(x) <==> before.to_set().insert(iv).contains(x) by {
                if before.insert(p as int, iv).to_set().contains(x) {
                    let w = choose|w: int| 0 <= w < after.len() && after[w] == x;
                    if w < p {
                        assert(before[w] == x);
                    } else if w > p {
                        assert(before[w - 1] == x);
                    }
                }
                if before.to_set().contains(x) {
                    let w = choose|w: int| 0 <= w < before.len() && before[w] == x;
                    if w < p {
                        assert(after[w] == x);
                    } else {
                        assert(after[w + 1] == x);
                    }
                }
                if x == iv {
                    assert(after[p as int] == x);
                }
            }
        }
    }
}
} // verus!
