//! The link graph of a crawl, indexed for the power iteration that ranks its
//! pages: each page gets a number in order of first appearance among the
//! ends of the links, each link becomes a pair of numbers, and each page has
//! the list of the pages its links lead to. The iteration itself computes
//! with floating point and is the caller's.
use vstd::prelude::*;
use std::collections::HashMap;

verus! {

broadcast use vstd::std_specs::hash::group_hash_axioms;

/// The ends of the links, in order: each link's source, then its target.
pub open spec fn endpoints(edges: Seq<(i64, i64)>) -> Seq<i64>
    decreases edges.len(),
{
    if edges.len() == 0 {
        Seq::empty()
    } else {
        endpoints(edges.drop_last()).push(edges.last().0).push(edges.last().1)
    }
}

/// `r` with `x` added at the end, unless it is there already.
pub open spec fn seen_step(r: Seq<i64>, x: i64) -> Seq<i64> {
    if r.contains(x) {
        r
    } else {
        r.push(x)
    }
}

/// The items of `s`, each once, in order of first appearance.
pub open spec fn first_seen(s: Seq<i64>) -> Seq<i64>
    decreases s.len(),
{
    if s.len() == 0 {
        Seq::empty()
    } else {
        seen_step(first_seen(s.drop_last()), s.last())
    }
}

/// The targets of the links (as page numbers) that leave page `from`, in
/// order.
pub open spec fn targets_of(links: Seq<(u32, u32)>, from: int) -> Seq<u32>
    decreases links.len(),
{
    if links.len() == 0 {
        Seq::empty()
    } else {
        let r = targets_of(links.drop_last(), from);
        if links.last().0 == from {
            r.push(links.last().1)
        } else {
            r
        }
    }
}

/// `index` numbers the pages: each page maps to its position, and nothing
/// else is in it.
pub open spec fn numbers_pages(index: Map<i64, u32>, pages: Seq<i64>) -> bool {
    &&& forall|j: int|
        0 <= j < pages.len() ==> #[trigger] index.contains_key(pages[j]) && index[pages[j]] == j
    &&& forall|x: i64|
        #[trigger] index.contains_key(x) ==> index[x] < pages.len() && pages[index[x] as int] == x
}

/// `links` are `edges` written with the numbers of `pages`.
pub open spec fn numbered(edges: Seq<(i64, i64)>, pages: Seq<i64>, links: Seq<(u32, u32)>) -> bool {
    &&& links.len() == edges.len()
    &&& forall|k: int|
        0 <= k < links.len() ==> {
            &&& (#[trigger] links[k]).0 < pages.len()
            &&& links[k].1 < pages.len()
            &&& pages[links[k].0 as int] == edges[k].0
            &&& pages[links[k].1 as int] == edges[k].1
        }
}

/// The link graph, indexed.
#[derive(Debug)]
pub struct LinkGraph {
    /// The pages, by number.
    pub pages: Vec<i64>,
    /// The links as pairs of page numbers, in the order given.
    pub links: Vec<(u32, u32)>,
    /// For each page number, the numbers of the pages its links lead to, in
    /// the order of the links.
    pub outgoing: Vec<Vec<u32>>,
}

/// The number of page `x`, which is added when new.
fn number_of(index: &mut HashMap<i64, u32>, pages: &mut Vec<i64>, x: i64) -> (r: u32)
    requires
        numbers_pages(old(index)@, old(pages)@),
        old(pages)@.len() < u32::MAX,
    ensures
        numbers_pages(final(index)@, final(pages)@),
        final(pages)@ == seen_step(old(pages)@, x),
        r < final(pages)@.len(),
        final(pages)@[r as int] == x,
{
    match index.get(&x) {
        Some(i) => {
            let n = *i;
            assert(old(pages)@.contains(x));
            n
        },
        None => {
            assert(!old(pages)@.contains(x)) by {
                if old(pages)@.contains(x) {
                    let j = choose|j: int| 0 <= j < old(pages)@.len() && old(pages)@[j] == x;
                    assert(index@.contains_key(old(pages)@[j]));
                }
            }
            let n = pages.len() as u32;
            index.insert(x, n);
            pages.push(x);
            let ghost p = pages@;
            let ghost m = index@;
            assert forall|j: int| 0 <= j < p.len() implies #[trigger] m.contains_key(p[j]) && m[p[j]]
                == j by {
                if j < p.len() - 1 {
                    assert(old(index)@.contains_key(old(pages)@[j]));
                    assert(old(pages)@[j] != x);
                }
            }
            assert forall|y: i64| #[trigger] m.contains_key(y) implies m[y] < p.len() && p[m[y] as int]
                == y by {
                if y != x {
                    assert(old(index)@.contains_key(y));
                }
            }
            n
        },
    }
}

/// Numbers the pages in order of first appearance among the ends of
/// `edges`, writes each link with those numbers, and lists, for each page,
/// where its links lead.
pub fn index_links(edges: &Vec<(i64, i64)>) -> (r: LinkGraph)
    requires
        edges@.len() <= u32::MAX / 2,
    ensures
        r.pages@ == first_seen(endpoints(edges@)),
        r.pages@.no_duplicates(),
        numbered(edges@, r.pages@, r.links@),
        r.outgoing@.len() == r.pages@.len(),
        forall|f: int| 0 <= f < r.pages@.len() ==> (#[trigger] r.outgoing@[f])@ == targets_of(r.links@, f),
{
    let mut index: HashMap<i64, u32> = HashMap::new();
    let mut pages: Vec<i64> = Vec::new();
    let mut links: Vec<(u32, u32)> = Vec::new();
    let mut k: usize = 0;
    assert(edges@.take(0) =~= Seq::<(i64, i64)>::empty());
    while k < edges.len()
        invariant
            k <= edges@.len(),
            edges@.len() <= u32::MAX / 2,
            pages@ == first_seen(endpoints(edges@.take(k as int))),
            pages@.len() <= 2 * k,
            numbers_pages(index@, pages@),
            numbered(edges@.take(k as int), pages@, links@),
        decreases edges.len() - k,
    {
        let ghost before = pages@;
        let ghost lb = links@;
        let (a, b) = edges[k];
        let ia = number_of(&mut index, &mut pages, a);
        let ib = number_of(&mut index, &mut pages, b);
        links.push((ia, ib));
        proof {
            let e = edges@.take(k + 1);
            assert(e.drop_last() =~= edges@.take(k as int));
            assert(e.last() == (a, b));
            let ends = endpoints(edges@.take(k as int));
            assert(endpoints(e) == ends.push(a).push(b));
            assert(ends.push(a).push(b).drop_last() =~= ends.push(a));
            assert(ends.push(a).drop_last() =~= ends);
            assert(first_seen(ends.push(a)) == seen_step(before, a));
            assert(first_seen(ends.push(a).push(b)) == seen_step(first_seen(ends.push(a)), b));
            assert forall|j: int| 0 <= j < links@.len() implies {
                &&& (#[trigger] links@[j]).0 < pages@.len()
                &&& links@[j].1 < pages@.len()
                &&& pages@[links@[j].0 as int] == e[j].0
                &&& pages@[links@[j].1 as int] == e[j].1
            } by {
                if j < k {
                    assert(lb[j] == links@[j]);
                    assert(edges@.take(k as int)[j] == e[j]);
                }
            }
        }
        k = k + 1;
    }
    assert(edges@.take(k as int) =~= edges@);
    proof {
        assert forall|i: int, j: int|
            0 <= i < pages@.len() && 0 <= j < pages@.len() && i != j implies pages@[i]
            != pages@[j] by {
            assert(index@.contains_key(pages@[i]));
            assert(index@.contains_key(pages@[j]));
        }
    }
    let n = pages.len();
    let mut outgoing: Vec<Vec<u32>> = Vec::new();
    let mut f: usize = 0;
    assert(links@.take(0) =~= Seq::<(u32, u32)>::empty());
    while f < n
        invariant
            f <= n,
            n == pages@.len(),
            outgoing@.len() == f,
            forall|g: int| 0 <= g < f ==> (#[trigger] outgoing@[g])@ == targets_of(links@.take(0), g),
        decreases n - f,
    {
        outgoing.push(Vec::new());
        f = f + 1;
    }
    let mut k: usize = 0;
    while k < links.len()
        invariant
            k <= links@.len(),
            n == pages@.len(),
            outgoing@.len() == n,
            numbered(edges@, pages@, links@),
            forall|g: int| 0 <= g < n ==> (#[trigger] outgoing@[g])@ == targets_of(links@.take(k as int), g),
        decreases links.len() - k,
    {
        let ghost before = outgoing@;
        let (from, to) = links[k];
        assert(links@[k as int].0 < pages@.len());
        let mut bucket: Vec<u32> = Vec::new();
        outgoing.set_and_swap(from as usize, &mut bucket);
        bucket.push(to);
        outgoing.set_and_swap(from as usize, &mut bucket);
        proof {
            let l = links@.take(k + 1);
            assert(l.drop_last() =~= links@.take(k as int));
            assert(l.last() == (from, to));
            assert forall|g: int| 0 <= g < n implies (#[trigger] outgoing@[g])@ == targets_of(l, g) by {
                if g != from as int {
                    assert(outgoing@[g] == before[g]);
                }
            }
        }
        k = k + 1;
    }
    assert(links@.take(k as int) =~= links@);
    LinkGraph { pages, links, outgoing }
}

} // verus!
