//! Robot exclusion (`robots.txt`): which routes of a site the crawler stays
//! away from.
use vstd::prelude::*;
use vstd::string::StringExecFns;

use crate::position::chars_of;
use crate::outside::{robots_rules, robots_section_rules, push_char};

verus! {

/// The user agent under which the crawler reads `robots.txt`.
pub open spec fn robots_agent() -> Seq<char> {
    "lopez"@
}

/// The parts of a text between `*`s (one part when it has none).
pub open spec fn star_parts(s: Seq<char>) -> Seq<Seq<char>>
    decreases s.len(),
{
    if s.len() == 0 {
        seq![Seq::empty()]
    } else {
        let ps = star_parts(s.drop_last());
        if s.last() == '*' {
            ps.push(Seq::empty())
        } else {
            ps.update(ps.len() - 1, ps.last().push(s.last()))
        }
    }
}

proof fn lemma_star_parts_len(s: Seq<char>)
    ensures
        star_parts(s).len() >= 1,
    decreases s.len(),
{
    if s.len() > 0 {
        lemma_star_parts_len(s.drop_last());
    }
}

/// Whether `pat` occurs in `route` at `k`.
pub open spec fn occurs_at(route: Seq<char>, pat: Seq<char>, k: int) -> bool {
    0 <= k && k + pat.len() <= route.len() && route.subrange(k, k + pat.len()) == pat
}

/// Where `pat` first occurs in `route`, if it does.
#[verifier::opaque]
pub open spec fn find_in(route: Seq<char>, pat: Seq<char>) -> Option<int> {
    if exists|k: int| #[trigger] occurs_at(route, pat, k) {
        Some(choose|k: int| occurs_at(route, pat, k) && forall|j: int| 0 <= j < k ==> !occurs_at(route, pat, j))
    } else {
        None
    }
}

/// The route left after looking for each pattern in turn, each search
/// starting just after where the previous pattern was found; `None` when
/// one is not found.
pub open spec fn route_after(route: Seq<char>, pats: Seq<Seq<char>>) -> Option<Seq<char>>
    decreases pats.len(),
{
    if pats.len() == 0 {
        Some(route)
    } else {
        match find_in(route, pats[0]) {
            Some(k) => route_after(route.skip(k + pats[0].len()), pats.drop_first()),
            None => None,
        }
    }
}

/// A `Disallow` rule: its pattern, and whether it ends in `$`.
#[derive(Debug)]
pub struct Match {
    pub match_str: String,
    pub is_strict: bool,
}

/// Whether a rule matches a route: its `*`-separated pieces are found in
/// turn, and, for a rule that ends in `$`, nothing is left. An empty rule
/// matches nothing.
pub open spec fn rule_matches(match_str: Seq<char>, is_strict: bool, route: Seq<char>) -> bool {
    if match_str.len() == 0 {
        false
    } else {
        match route_after(route, star_parts(match_str)) {
            None => false,
            Some(rest) => !is_strict || rest.len() == 0,
        }
    }
}

/// Where `pat` first occurs in `route` from `from` on.
fn find_chars(route: &Vec<char>, from: usize, pat: &Vec<char>) -> (r: Option<usize>)
    requires
        from <= route@.len(),
    ensures
        (match r {
            Some(k) => Some(k - from),
            None => None::<int>,
        }) == find_in(route@.skip(from as int), pat@),
        r matches Some(k) ==> from <= k && k + pat@.len() <= route@.len(),
{
    reveal(find_in);
    let ghost rest = route@.skip(from as int);
    let n = route.len();
    let mut k = from;
    while pat.len() <= n - k
        invariant
            from <= k <= n,
            n == route@.len(),
            rest == route@.skip(from as int),
            forall|j: int| 0 <= j < k - from ==> !occurs_at(rest, pat@, j),
        decreases n - k,
    {
        let mut m: usize = 0;
        while m < pat.len() && route[k + m] == pat[m]
            invariant
                m <= pat@.len(),
                k + pat@.len() <= n,
                n == route@.len(),
                forall|x: int| 0 <= x < m ==> route@[k + x] == pat@[x],
            decreases pat.len() - m,
        {
            m = m + 1;
        }
        if m == pat.len() {
            assert(rest.subrange(k - from, k - from + pat@.len()) =~= pat@);
            assert(occurs_at(rest, pat@, k - from));
            proof {
                reveal(find_in);
            }
            return Some(k);
        }
        assert(!occurs_at(rest, pat@, k - from)) by {
            if occurs_at(rest, pat@, k - from) {
                assert(rest.subrange(k - from, k - from + pat@.len())[m as int] == pat@[m as int]);
            }
        }
        k = k + 1;
    }
    assert forall|j: int| #[trigger] occurs_at(rest, pat@, j) implies false by {
        if j >= k - from {
            assert(j + pat@.len() > rest.len());
        }
    }
    proof {
        reveal(find_in);
    }
    None
}

proof fn lemma_route_step(r: Seq<char>, ps: Seq<Seq<char>>, at: int, i: int, found: int)
    requires
        0 <= i < ps.len(),
        0 <= at <= found,
        found + ps[i].len() <= r.len(),
        find_in(r.skip(at), ps[i]) == Some(found - at),
    ensures
        route_after(r.skip(at), ps.skip(i)) == route_after(
            r.skip(found + ps[i].len()),
            ps.skip(i + 1),
        ),
{
    assert(ps.skip(i)[0] == ps[i]);
    assert(ps.skip(i).drop_first() =~= ps.skip(i + 1));
    assert(r.skip(at).skip(found - at + ps[i].len()) =~= r.skip(found + ps[i].len()));
}

proof fn lemma_route_fail(r: Seq<char>, ps: Seq<Seq<char>>, at: int, i: int)
    requires
        0 <= i < ps.len(),
        0 <= at <= r.len(),
        find_in(r.skip(at), ps[i]) is None,
    ensures
        route_after(r.skip(at), ps.skip(i)) is None,
{
    assert(ps.skip(i)[0] == ps[i]);
}

/// Whether the patterns occur in `route` one after another, each somewhere
/// after the end of the one before.
#[verifier::opaque]
pub open spec fn occur_in_turn(route: Seq<char>, pats: Seq<Seq<char>>) -> bool
    decreases pats.len(),
{
    if pats.len() == 0 {
        true
    } else {
        exists|k: int|
            #[trigger] occurs_at(route, pats[0], k) && occur_in_turn(route.skip(k + pats[0].len()), pats.drop_first())
    }
}

proof fn lemma_first_occurrence(route: Seq<char>, pat: Seq<char>, k: int)
    requires
        occurs_at(route, pat, k),
    ensures
        find_in(route, pat) matches Some(f) && occurs_at(route, pat, f) && f <= k,
    decreases k,
{
    reveal(find_in);
    if exists|i: int| 0 <= i < k && #[trigger] occurs_at(route, pat, i) {
        let i = choose|i: int| 0 <= i < k && #[trigger] occurs_at(route, pat, i);
        lemma_first_occurrence(route, pat, i);
    } else {
        assert(occurs_at(route, pat, k) && forall|j: int| 0 <= j < k ==> !occurs_at(route, pat, j));
        let f = find_in(route, pat)->0;
        assert(occurs_at(route, pat, f) && forall|j: int| 0 <= j < f ==> !occurs_at(route, pat, j));
        if f > k {
            assert(!occurs_at(route, pat, k));
        }
    }
}

/// What it is for patterns to occur in turn, one step unfolded.
proof fn lemma_in_turn_step(route: Seq<char>, pats: Seq<Seq<char>>, k: int)
    requires
        pats.len() > 0,
    ensures
        occur_in_turn(route, Seq::empty()),
        occurs_at(route, pats[0], k) && occur_in_turn(route.skip(k + pats[0].len()), pats.drop_first())
            ==> occur_in_turn(route, pats),
        occur_in_turn(route, pats) ==> exists|j: int|
            #[trigger] occurs_at(route, pats[0], j) && occur_in_turn(route.skip(j + pats[0].len()), pats.drop_first()),
{
    reveal_with_fuel(occur_in_turn, 1);
}

/// Patterns that occur in turn in a suffix of a route occur in turn in the
/// route.
proof fn lemma_in_turn_longer(route: Seq<char>, pats: Seq<Seq<char>>, d: int)
    requires
        0 <= d <= route.len(),
        occur_in_turn(route.skip(d), pats),
    ensures
        occur_in_turn(route, pats),
{
    if pats.len() > 0 {
        let tail = route.skip(d);
        lemma_in_turn_step(tail, pats, 0);
        let k = choose|k: int|
            #[trigger] occurs_at(tail, pats[0], k) && occur_in_turn(tail.skip(k + pats[0].len()), pats.drop_first());
        assert(route.subrange(k + d, k + d + pats[0].len()) =~= tail.subrange(k, k + pats[0].len()));
        assert(occurs_at(route, pats[0], k + d));
        assert(route.skip(k + d + pats[0].len()) =~= tail.skip(k + pats[0].len()));
        lemma_in_turn_step(route, pats, k + d);
    } else {
        reveal_with_fuel(occur_in_turn, 1);
    }
}

proof fn lemma_route_after_gives_in_turn(route: Seq<char>, pats: Seq<Seq<char>>)
    requires
        route_after(route, pats) is Some,
    ensures
        occur_in_turn(route, pats),
    decreases pats.len(),
{
    if pats.len() > 0 {
        let p = pats[0];
        assert(find_in(route, p) is Some);
        assert(exists|k: int| #[trigger] occurs_at(route, p, k)) by {
            reveal(find_in);
        }
        let w = choose|k: int| #[trigger] occurs_at(route, p, k);
        lemma_first_occurrence(route, p, w);
        let f = find_in(route, p)->0;
        assert(route_after(route.skip(f + p.len()), pats.drop_first()) is Some);
        lemma_route_after_gives_in_turn(route.skip(f + p.len()), pats.drop_first());
        lemma_in_turn_step(route, pats, f);
    } else {
        reveal_with_fuel(occur_in_turn, 1);
    }
}

proof fn lemma_in_turn_gives_route_after(route: Seq<char>, pats: Seq<Seq<char>>)
    requires
        occur_in_turn(route, pats),
    ensures
        route_after(route, pats) is Some,
    decreases pats.len(),
{
    if pats.len() > 0 {
        let p = pats[0];
        lemma_in_turn_step(route, pats, 0);
        let k = choose|k: int|
            #[trigger] occurs_at(route, pats[0], k) && occur_in_turn(route.skip(k + pats[0].len()), pats.drop_first());
        lemma_first_occurrence(route, p, k);
        let f = find_in(route, p)->0;
        let after = route.skip(f + p.len());
        assert(after.skip(k - f) =~= route.skip(k + p.len()));
        lemma_in_turn_longer(after, pats.drop_first(), k - f);
        lemma_in_turn_gives_route_after(after, pats.drop_first());
        assert(route_after(route, pats) == route_after(after, pats.drop_first()));
    }
}

/// A rule matches a route only when its `*`-separated pieces all occur in
/// the route, one after another; and a rule that does not end in `$`
/// matches every route in which they do.
pub proof fn lemma_rule_needs_pieces(match_str: Seq<char>, is_strict: bool, route: Seq<char>)
    ensures
        rule_matches(match_str, is_strict, route) ==> match_str.len() > 0 && occur_in_turn(
            route,
            star_parts(match_str),
        ),
        match_str.len() > 0 && !is_strict && occur_in_turn(route, star_parts(match_str)) ==> rule_matches(
            match_str,
            is_strict,
            route,
        ),
{
    let parts = star_parts(match_str);
    if route_after(route, parts) is Some {
        lemma_route_after_gives_in_turn(route, parts);
    }
    if occur_in_turn(route, parts) {
        lemma_in_turn_gives_route_after(route, parts);
    }
}

/// A rule ending in `$` matches only routes that the same rule without it
/// matches, and only those that end with its last piece; an empty rule
/// matches nothing.
pub proof fn lemma_strict_rule(match_str: Seq<char>, route: Seq<char>)
    ensures
        rule_matches(match_str, true, route) ==> rule_matches(match_str, false, route),
        rule_matches(match_str, true, route) ==> {
            let last = star_parts(match_str).last();
            last.len() <= route.len() && route.subrange(route.len() - last.len(), route.len() as int) == last
        },
        match_str.len() == 0 ==> !rule_matches(match_str, false, route) && !rule_matches(match_str, true, route),
{
    if rule_matches(match_str, true, route) {
        lemma_star_parts_len(match_str);
        assert(route_after(route, star_parts(match_str))->0 =~= Seq::<char>::empty());
        lemma_route_after_ends(route, star_parts(match_str));
    }
}

/// When the patterns are found in turn with nothing left, the route ends
/// with the last of them.
proof fn lemma_route_after_ends(route: Seq<char>, pats: Seq<Seq<char>>)
    requires
        pats.len() > 0,
        route_after(route, pats) == Some(Seq::<char>::empty()),
    ensures
        pats.last().len() <= route.len(),
        route.subrange(route.len() - pats.last().len(), route.len() as int) == pats.last(),
    decreases pats.len(),
{
    let p = pats[0];
    let w = find_in(route, p)->0;
    assert(exists|k: int| #[trigger] occurs_at(route, p, k)) by {
        reveal(find_in);
    }
    let k0 = choose|k: int| #[trigger] occurs_at(route, p, k);
    lemma_first_occurrence(route, p, k0);
    let after = route.skip(w + p.len());
    if pats.len() == 1 {
        assert(route_after(after, pats.drop_first()) == Some(after));
        assert(after.len() == 0);
        assert(route.subrange(route.len() - p.len(), route.len() as int) =~= route.subrange(w, w + p.len()));
    } else {
        lemma_route_after_ends(after, pats.drop_first());
        let q = pats.drop_first().last();
        assert(q == pats.last());
        assert(route.subrange(route.len() - q.len(), route.len() as int) =~= after.subrange(
            after.len() - q.len(),
            after.len() as int,
        ));
    }
}

impl Match {
    /// The rule for a `Disallow` path: a final `$` makes it strict.
    pub fn new(path: &str) -> (r: Match)
        ensures
            path@.len() > 0 && path@.last() == '$' ==> r.is_strict && r.match_str@ == path@.drop_last(),
            !(path@.len() > 0 && path@.last() == '$') ==> !r.is_strict && r.match_str@ == path@,
    {
        let chars = chars_of(path);
        if chars.len() > 0 && chars[chars.len() - 1] == '$' {
            let mut s = String::new();
            let mut k: usize = 0;
            while k < chars.len() - 1
                invariant
                    k <= chars@.len() - 1,
                    chars@ == path@,
                    chars@.len() > 0,
                    s@ == path@.take(k as int),
                decreases chars.len() - 1 - k,
            {
                assert(path@.take(k + 1) =~= s@.push(chars@[k as int]));
                push_char(&mut s, chars[k]);
                k = k + 1;
            }
            assert(path@.take(k as int) =~= path@.drop_last());
            Match { match_str: s, is_strict: true }
        } else {
            Match { match_str: String::from_str(path), is_strict: false }
        }
    }

    /// Whether the rule matches `route`.
    #[verifier::rlimit(30)]
    pub fn matches(&self, route: &str) -> (r: bool)
        ensures
            r == rule_matches(self.match_str@, self.is_strict, route@),
    {
        let pattern = chars_of(self.match_str.as_str());
        if pattern.len() == 0 {
            return false;
        }
        let route_chars = chars_of(route);
        // Split the pattern at `*`s, keeping each piece.
        let mut pieces: Vec<Vec<char>> = Vec::new();
        let mut cur: Vec<char> = Vec::new();
        let mut k: usize = 0;
        let ghost mut seen: Seq<char> = Seq::empty();
        assert(pieces@.map_values(|p: Vec<char>| p@) =~= Seq::<Seq<char>>::empty());
        while k < pattern.len()
            invariant
                k <= pattern@.len(),
                pattern@ == self.match_str@,
                seen == pattern@.take(k as int),
                star_parts(seen).len() >= 1,
                pieces@.map_values(|p: Vec<char>| p@) == star_parts(seen).drop_last(),
                cur@ == star_parts(seen).last(),
            decreases pattern.len() - k,
        {
            let c = pattern[k];
            let ghost ps = star_parts(seen);
            proof {
                assert(pattern@.take(k + 1) =~= seen.push(c));
                assert(seen.push(c).drop_last() =~= seen);
                lemma_star_parts_len(seen);
            }
            if c == '*' {
                let ghost before = pieces@.map_values(|p: Vec<char>| p@);
                let ghost cv = cur@;
                pieces.push(cur);
                cur = Vec::new();
                proof {
                    assert(star_parts(seen.push(c)) =~= ps.push(Seq::empty()));
                    assert(star_parts(seen.push(c)).drop_last() =~= ps);
                    assert(pieces@.map_values(|p: Vec<char>| p@) =~= before.push(cv));
                    assert(ps.drop_last().push(ps.last()) =~= ps);
                }
            } else {
                proof {
                    assert(star_parts(seen.push(c)) =~= ps.update(ps.len() - 1, ps.last().push(c)));
                    assert(star_parts(seen.push(c)).drop_last() =~= ps.drop_last());
                }
                cur.push(c);
            }
            proof {
                seen = seen.push(c);
            }
            k = k + 1;
        }
        let ghost before = pieces@.map_values(|p: Vec<char>| p@);
        let ghost cv = cur@;
        pieces.push(cur);
        let ghost parts = star_parts(self.match_str@);
        proof {
            assert(seen =~= self.match_str@);
            assert(pieces@.map_values(|p: Vec<char>| p@) =~= before.push(cv));
            assert(parts.drop_last().push(parts.last()) =~= parts);
        }
        // Look for each piece in turn.
        let mut at: usize = 0;
        let mut i: usize = 0;
        assert(parts.skip(0) =~= parts);
        assert(route@.skip(0) =~= route@);
        while i < pieces.len()
            invariant
                i <= pieces@.len(),
                at <= route_chars@.len(),
                route_chars@ == route@,
                parts == pieces@.map_values(|p: Vec<char>| p@),
                parts == star_parts(self.match_str@),
                self.match_str@.len() > 0,
                route_after(route@, parts) == route_after(route@.skip(at as int), parts.skip(i as int)),
            decreases pieces.len() - i,
        {
            assert(parts[i as int] == pieces@[i as int]@);
            let plen = pieces[i].len();
            match find_chars(&route_chars, at, &pieces[i]) {
                Some(found) => {
                    let _rl = route_chars.len();
                    assert(plen == pieces@[i as int]@.len());
                    assert(found + plen <= route_chars@.len());
                    proof {
                        lemma_route_step(route@, parts, at as int, i as int, found as int);
                    }
                    at = found + plen;
                },
                None => {
                    proof {
                        lemma_route_fail(route@, parts, at as int, i as int);
                    }
                    return false;
                },
            }
            i = i + 1;
        }
        assert(parts.skip(i as int).len() == 0);
        assert(route_after(route@.skip(at as int), parts.skip(i as int)) == Some(route@.skip(at as int)));
        !self.is_strict || at == route_chars.len()
    }
}

/// The paths of the rules that disallow, in order.
pub open spec fn disallowed_paths(rules: Seq<(Seq<char>, bool)>) -> Seq<Seq<char>>
    decreases rules.len(),
{
    if rules.len() == 0 {
        Seq::empty()
    } else {
        let rest = disallowed_paths(rules.drop_last());
        if rules.last().1 {
            rest
        } else {
            rest.push(rules.last().0)
        }
    }
}

/// The rule a `Disallow` path makes.
pub open spec fn rule_of_path(m: Match, path: Seq<char>) -> bool {
    &&& path.len() > 0 && path.last() == '$' ==> m.is_strict && m.match_str@ == path.drop_last()
    &&& !(path.len() > 0 && path.last() == '$') ==> !m.is_strict && m.match_str@ == path
}

/// The `Disallow` rules that apply to the crawler.
#[derive(Debug)]
pub struct RobotExclusion {
    pub disallow: Vec<Match>,
}

/// Whether the rules let the crawler visit `route`: none of them matches it.
pub open spec fn allows_route(e: RobotExclusion, route: Seq<char>) -> bool {
    !(exists|k: int|
        0 <= k < e.disallow@.len() && rule_matches(
            #[trigger] e.disallow@[k].match_str@,
            e.disallow@[k].is_strict,
            route,
        ))
}

/// Whether the `Disallow` path `path` matches `route`: its text matches,
/// anchored at the end when the path ends in `$` (which is then left out).
pub open spec fn path_matches(path: Seq<char>, route: Seq<char>) -> bool {
    if path.len() > 0 && path.last() == '$' {
        rule_matches(path.drop_last(), true, route)
    } else {
        rule_matches(path, false, route)
    }
}

/// `e` holds the rules of the crawler's section of the `robots.txt` text
/// `text`: one per `Disallow` path, in order.
pub open spec fn exclusion_of(e: RobotExclusion, text: Seq<char>) -> bool {
    let paths = disallowed_paths(robots_rules(text, robots_agent()));
    &&& e.disallow@.len() == paths.len()
    &&& forall|k: int| 0 <= k < e.disallow@.len() ==> rule_of_path(#[trigger] e.disallow@[k], paths[k])
}

/// The crawler keeps to `robots.txt`: with the rules read from a text, a
/// route is allowed exactly when no `Disallow` path of the crawler's section
/// matches it.
pub proof fn lemma_robots_obeyed(e: RobotExclusion, text: Seq<char>, route: Seq<char>)
    requires
        exclusion_of(e, text),
    ensures
        allows_route(e, route) <==> !(exists|k: int|
            0 <= k < disallowed_paths(robots_rules(text, robots_agent())).len() && path_matches(
                #[trigger] disallowed_paths(robots_rules(text, robots_agent()))[k],
                route,
            )),
{
    let paths = disallowed_paths(robots_rules(text, robots_agent()));
    assert forall|k: int| 0 <= k < e.disallow@.len() implies rule_matches(
        #[trigger] e.disallow@[k].match_str@,
        e.disallow@[k].is_strict,
        route,
    ) == path_matches(paths[k], route) by {
        assert(rule_of_path(e.disallow@[k], paths[k]));
    }
    if allows_route(e, route) {
        assert forall|k: int| 0 <= k < paths.len() implies !path_matches(#[trigger] paths[k], route) by {
            assert(rule_matches(e.disallow@[k].match_str@, e.disallow@[k].is_strict, route) == path_matches(
                paths[k],
                route,
            ));
        }
    } else {
        let k = choose|k: int|
            0 <= k < e.disallow@.len() && rule_matches(
                #[trigger] e.disallow@[k].match_str@,
                e.disallow@[k].is_strict,
                route,
            );
        assert(path_matches(paths[k], route));
    }
}

impl RobotExclusion {
    /// The rules of `robots.txt` text for the crawler's section: one rule
    /// per `Disallow` line.
    pub fn new(robots_str: &str) -> (r: RobotExclusion)
        ensures
            exclusion_of(r, robots_str@),
    {
        proof {
            reveal_strlit("lopez");
        }
        let rules = robots_section_rules(robots_str, "lopez");
        let ghost all = robots_rules(robots_str@, robots_agent());
        let mut disallow: Vec<Match> = Vec::new();
        let mut k: usize = 0;
        assert(all.take(0) =~= Seq::<(Seq<char>, bool)>::empty());
        while k < rules.len()
            invariant
                k <= rules@.len(),
                all == robots_rules(robots_str@, robots_agent()),
                rules@.len() == all.len(),
                forall|j: int| 0 <= j < rules@.len() ==> (#[trigger] rules@[j]).0@ == all[j].0
                    && rules@[j].1 == all[j].1,
                disallow@.len() == disallowed_paths(all.take(k as int)).len(),
                forall|j: int|
                    0 <= j < disallow@.len() ==> rule_of_path(
                        #[trigger] disallow@[j],
                        disallowed_paths(all.take(k as int))[j],
                    ),
            decreases rules.len() - k,
        {
            let ghost prev = disallowed_paths(all.take(k as int));
            assert(all.take(k + 1).drop_last() =~= all.take(k as int));
            assert(all.take(k + 1).last() == all[k as int]);
            assert(rules@[k as int].0@ == all[k as int].0);
            if !rules[k].1 {
                let m = Match::new(rules[k].0.as_str());
                disallow.push(m);
                assert(disallowed_paths(all.take(k + 1)) == prev.push(all[k as int].0));
            } else {
                assert(disallowed_paths(all.take(k + 1)) == prev);
            }
            k = k + 1;
        }
        assert(all.take(k as int) =~= all);
        RobotExclusion { disallow }
    }

    /// Whether the crawler may visit `route` (the part of an address from its
    /// path on): no rule matches it.
    pub fn allows(&self, route: &str) -> (r: bool)
        ensures
            r == allows_route(*self, route@),
    {
        let mut k: usize = 0;
        while k < self.disallow.len()
            invariant
                k <= self.disallow@.len(),
                forall|j: int| 0 <= j < k ==> !rule_matches(
                    #[trigger] self.disallow@[j].match_str@,
                    self.disallow@[j].is_strict,
                    route@,
                ),
            decreases self.disallow.len() - k,
        {
            if self.disallow[k].matches(route) {
                return false;
            }
            k = k + 1;
        }
        true
    }
}

} // verus!
