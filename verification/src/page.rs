//! What the crawl reads from a downloaded page: its links, anchors first,
//! then canonical links.
use vstd::prelude::*;

use crate::boundaries::links_view;
use crate::crawl::Reason;
use crate::outside::{html_hrefs, utf8_lossy, element_hrefs, lossy_text};

verus! {

/// The selector of anchors.
pub open spec fn anchor_selector() -> Seq<char> {
    "a"@
}

/// The selector of canonical links.
pub open spec fn canonical_selector() -> Seq<char> {
    "link[rel=\"canonical\"]"@
}

/// The `href`s that are there, in order, each with `reason`.
pub open spec fn present_links(hs: Seq<Option<Seq<char>>>, reason: Reason) -> Seq<(Reason, Seq<char>)>
    decreases hs.len(),
{
    if hs.len() == 0 {
        Seq::empty()
    } else {
        let rest = present_links(hs.drop_last(), reason);
        match hs.last() {
            Some(h) => rest.push((reason, h)),
            None => rest,
        }
    }
}

/// The links of the elements that `selector` selects in `html` (none when
/// it does not compile).
pub open spec fn selected_links(html: Seq<char>, selector: Seq<char>, reason: Reason) -> Seq<(Reason, Seq<char>)> {
    match html_hrefs(html, selector) {
        Some(hs) => present_links(hs, reason),
        None => Seq::empty(),
    }
}

/// The links of an HTML document: the `href` of every anchor that has one,
/// then that of every canonical link.
pub open spec fn html_links_of(html: Seq<char>) -> Seq<(Reason, Seq<char>)> {
    selected_links(html, anchor_selector(), Reason::Ahref) + selected_links(
        html,
        canonical_selector(),
        Reason::Canonical,
    )
}

/// Adds to `out` the links of the elements that `selector` selects.
fn push_links(html: &str, selector: &str, reason: Reason, out: &mut Vec<(Reason, String)>)
    ensures
        links_view(final(out)@) == links_view(old(out)@) + selected_links(html@, selector@, reason),
{
    let ghost before = links_view(out@);
    match element_hrefs(html, selector) {
        None => {
            assert(links_view(out@) =~= before + selected_links(html@, selector@, reason));
        },
        Some(hs) => {
            let ghost w = html_hrefs(html@, selector@)->0;
            let mut k: usize = 0;
            assert(w.take(0) =~= Seq::<Option<Seq<char>>>::empty());
            assert(links_view(out@) =~= before + present_links(w.take(0), reason));
            while k < hs.len()
                invariant
                    k <= hs@.len(),
                    w.len() == hs@.len(),
                    w == html_hrefs(html@, selector@)->0,
                    html_hrefs(html@, selector@) is Some,
                    forall|j: int| 0 <= j < hs@.len() ==> match (#[trigger] hs@[j]) {
                        Some(t) => w[j] == Some(t@),
                        None => w[j] is None,
                    },
                    links_view(out@) == before + present_links(w.take(k as int), reason),
                decreases hs.len() - k,
            {
                assert(w.take(k + 1).drop_last() =~= w.take(k as int));
                assert(w.take(k + 1).last() == w[k as int]);
                let ghost cur = links_view(out@);
                match &hs[k] {
                    Some(t) => {
                        let item = (reason, t.clone());
                        out.push(item);
                        assert(links_view(out@) =~= cur.push((reason, t@)));
                    },
                    None => {},
                }
                k = k + 1;
            }
            assert(w.take(k as int) =~= w);
        },
    }
}

/// The links of a downloaded page: the bytes read as UTF-8 (invalid
/// sequences replaced), parsed as HTML, and searched for anchors, then for
/// canonical links, each with its `href`.
pub fn page_links(content: &[u8]) -> (r: Vec<(Reason, String)>)
    ensures
        links_view(r@) == html_links_of(utf8_lossy(content@)),
{
    let text = lossy_text(content);
    let mut r: Vec<(Reason, String)> = Vec::new();
    assert(links_view(r@) =~= Seq::<(Reason, Seq<char>)>::empty());
    push_links(text.as_str(), "a", Reason::Ahref, &mut r);
    push_links(text.as_str(), "link[rel=\"canonical\"]", Reason::Canonical, &mut r);
    assert(links_view(r@) =~= html_links_of(utf8_lossy(content@)));
    r
}

} // verus!
