//! The grammar of a directives file: seeds, boundaries, imports, rule sets,
//! variable settings, and the file as a whole, over its UTF-8 bytes.
use vstd::prelude::*;
use vstd::string::StringExecFns;

use crate::expressions::{AggregatorExpression, AggregatorExpressionV, ComparableRegex, CssSelector,
    aggregator_expression_view};
use crate::items::{Boundary, BoundaryV, Item, ItemV, Module, RuleSet, RuleSetV, SetVariable,
    boundary_view, item_view, items_view, rules_view, rule_set_view, set_variable_view,
    distinct_names};
use crate::lexical::{has_tag, whitespace_end, lemma_whitespace_end, skip_whitespace, tag_at,
    tags_end, tag_views, tags_at, lemma_tags_end, identifier_end, identifier_at,
    lemma_identifier_stop, lemma_quoted_end};
use crate::expr_parse::{tws, tws_at, quoted, quoted_from, quoted_arg, quoted_arg_from, utf8_value,
    utf8_string, regex_value, regex_from_bytes, or, KW_IN};
use crate::query_parse::{css_selector_at, css_selector_from, aggregator_expression_at,
    aggregator_expression_from, aggregator_expression_result_view};
use crate::literal_parse::{set_variable_at, set_variable_from, KW_SEMICOLON};
use crate::outside::{url_parse, parse_url};

verus! {

/// `select`
pub const KW_SELECT: [u8; 6] = [115u8, 101u8, 108u8, 101u8, 99u8, 116u8];

/// `import`
pub const KW_IMPORT: [u8; 6] = [105u8, 109u8, 112u8, 111u8, 114u8, 116u8];

/// `seed`
pub const KW_SEED: [u8; 4] = [115u8, 101u8, 101u8, 100u8];

/// `allow`
pub const KW_ALLOW: [u8; 5] = [97u8, 108u8, 108u8, 111u8, 119u8];

/// `disallow`
pub const KW_DISALLOW: [u8; 8] = [100u8, 105u8, 115u8, 97u8, 108u8, 108u8, 111u8, 119u8];

/// `frontier`
pub const KW_FRONTIER: [u8; 8] = [102u8, 114u8, 111u8, 110u8, 116u8, 105u8, 101u8, 114u8];

/// `use`
pub const KW_USE: [u8; 3] = [117u8, 115u8, 101u8];

/// `param`
pub const KW_PARAM: [u8; 5] = [112u8, 97u8, 114u8, 97u8, 109u8];

/// `*`
pub const KW_STAR: [u8; 1] = [42u8];

/// `ignore`
pub const KW_IGNORE: [u8; 6] = [105u8, 103u8, 110u8, 111u8, 114u8, 101u8];

/// `:`
pub const KW_COLON: [u8; 1] = [58u8];

/// `{`
pub const KW_OPEN_BRACE: [u8; 1] = [123u8];

/// `}`
pub const KW_CLOSE_BRACE: [u8; 1] = [125u8];

/// `{`, where the selector of a rule set ends.
pub const OPEN_BRACE: u8 = 123u8;

/// `in <quoted pattern>`: the pattern, if it compiles.
pub open spec fn in_directive_at(s: Seq<u8>, i: int) -> Option<(int, Result<Seq<char>, Seq<char>>)> {
    match quoted_arg(s, i, KW_IN@) {
        Some((e, b)) => Some((e, regex_value(b))),
        None => None,
    }
}

/// Keywords, a quoted string, whitespace, `;`: the string's bytes.
pub open spec fn string_directive_at(s: Seq<u8>, i: int, tags: Seq<Seq<u8>>) -> Option<(int, Seq<u8>)> {
    match tags_end(s, i, tags) {
        Some(j) => match quoted(s, j) {
            Some((k, b)) => {
                let w = whitespace_end(s, k, true);
                if has_tag(s, w, KW_SEMICOLON@) {
                    Some((w + 1, b))
                } else {
                    None
                }
            },
            None => None,
        },
        None => None,
    }
}

/// Keywords, then `;`.
pub open spec fn flag_directive_at(s: Seq<u8>, i: int, tags: Seq<Seq<u8>>) -> Option<int> {
    match tags_end(s, i, tags) {
        Some(j) => if has_tag(s, j, KW_SEMICOLON@) {
            Some(j + 1)
        } else {
            None
        },
        None => None,
    }
}

/// The boundary a pattern makes: `which` is 0 for `allow`, 1 for `disallow`
/// and 2 for `frontier`.
pub open spec fn pattern_boundary(which: int, p: Seq<char>) -> BoundaryV {
    if which == 0 {
        BoundaryV::Allowed(p)
    } else if which == 1 {
        BoundaryV::Disallowed(p)
    } else {
        BoundaryV::Frontier(p)
    }
}

pub open spec fn pattern_boundary_alt(s: Seq<u8>, i: int, kw: Seq<u8>, which: int) -> Option<
    (int, Result<BoundaryV, Seq<char>>),
> {
    match string_directive_at(s, i, seq![kw]) {
        Some((e, b)) => Some((
            e,
            match regex_value(b) {
                Ok(p) => Ok(pattern_boundary(which, p)),
                Err(m) => Err(m),
            },
        )),
        None => None,
    }
}

/// `use param <quoted>;` when `using`, `ignore param <quoted>;` otherwise.
pub open spec fn param_boundary_alt(s: Seq<u8>, i: int, using: bool) -> Option<
    (int, Result<BoundaryV, Seq<char>>),
> {
    let tags = if using {
        seq![KW_USE@, KW_PARAM@]
    } else {
        seq![KW_IGNORE@, KW_PARAM@]
    };
    match string_directive_at(s, i, tags) {
        Some((e, b)) => Some((
            e,
            match utf8_value(b) {
                Ok(t) => Ok(
                    if using {
                        BoundaryV::UseParam(t)
                    } else {
                        BoundaryV::IgnoreParam(t)
                    },
                ),
                Err(m) => Err(m),
            },
        )),
        None => None,
    }
}

/// The boundary grammar: the first of its alternatives, in order, that
/// applies at `i`.
pub open spec fn boundary_at(s: Seq<u8>, i: int) -> Option<(int, Result<BoundaryV, Seq<char>>)> {
    let all_params = match flag_directive_at(s, i, seq![KW_USE@, KW_PARAM@, KW_STAR@]) {
        Some(e) => Some((e, Ok(BoundaryV::UseAllParams))),
        None => None,
    };
    or(pattern_boundary_alt(s, i, KW_ALLOW@, 0),
    or(pattern_boundary_alt(s, i, KW_DISALLOW@, 1),
    or(pattern_boundary_alt(s, i, KW_FRONTIER@, 2),
    or(param_boundary_alt(s, i, true),
    or(all_params, param_boundary_alt(s, i, false))))))
}

/// `import <quoted path>;`: the path.
pub open spec fn module_at(s: Seq<u8>, i: int) -> Option<(int, Result<Seq<char>, Seq<char>>)> {
    match string_directive_at(s, i, seq![KW_IMPORT@]) {
        Some((e, b)) => Some((e, utf8_value(b))),
        None => None,
    }
}

/// `seed <quoted address>;`: the address written out in full.
pub open spec fn seed_at(s: Seq<u8>, i: int) -> Option<(int, Result<Seq<char>, Seq<char>>)> {
    match string_directive_at(s, i, seq![KW_SEED@]) {
        Some((e, b)) => Some((
            e,
            match utf8_value(b) {
                Ok(t) => match url_parse(t) {
                    Ok(u) => Ok(u),
                    Err((_, m)) => Err(m),
                },
                Err(m) => Err(m),
            },
        )),
        None => None,
    }
}

/// `select`, an optional `in` pattern, and the selector up to `{`.
pub open spec fn rule_head_at(s: Seq<u8>, i: int) -> Option<
    (int, (Option<Result<Seq<char>, Seq<char>>>, Result<Seq<char>, Seq<char>>)),
> {
    match tws(s, i, KW_SELECT@) {
        Some(j) => {
            let (k, in_page) = match in_directive_at(s, j) {
                Some((e, r)) => (whitespace_end(s, e, true), Some(r)),
                None => (j, None),
            };
            match css_selector_at(s, k, OPEN_BRACE) {
                Some((m, sel)) => Some((m, (in_page, sel))),
                None => None,
            }
        },
        None => None,
    }
}

/// A named rule, `<name> : <aggregator expression> ;`: its name and its
/// expression.
pub open spec fn identified_rule_at(s: Seq<u8>, i: int) -> Option<
    (int, (Result<Seq<char>, Seq<char>>, Result<AggregatorExpressionV, Seq<char>>)),
> {
    match identifier_end(s, i) {
        Some(k) => match tws(s, whitespace_end(s, k, true), KW_COLON@) {
            Some(m) => match aggregator_expression_at(s, m) {
                Some((n, a)) => {
                    let w = whitespace_end(s, n, true);
                    if has_tag(s, w, KW_SEMICOLON@) {
                        Some((w + 1, (utf8_value(s.subrange(i, k)), a)))
                    } else {
                        None
                    }
                },
                None => None,
            },
            None => None,
        },
        None => None,
    }
}

/// A named rule as parsed: its name, and its expression, or the messages
/// that stand in their place.
pub type NamedRuleV = (Result<Seq<char>, Seq<char>>, Result<AggregatorExpressionV, Seq<char>>);

/// Named rules, each followed by whitespace, as many as there are from `p`.
pub open spec fn rules_at(s: Seq<u8>, p: int) -> Option<(int, Seq<NamedRuleV>)>
    decreases s.len() - p,
{
    if !(0 <= p <= s.len()) {
        None
    } else {
        match identified_rule_at(s, p) {
            None => Some((p, Seq::empty())),
            Some((q, r)) => if q <= s.len() && whitespace_end(s, q, true) > p {
                proof {
                    lemma_whitespace_end(s, q, true);
                }
                match rules_at(s, whitespace_end(s, q, true)) {
                    Some((e, rs)) => Some((e, seq![r] + rs)),
                    None => None,
                }
            } else {
                None
            },
        }
    }
}

/// The body of a rule set: `{`, named rules, `}`; or just `;`.
pub open spec fn block_body_at(s: Seq<u8>, i: int) -> Option<(int, Seq<NamedRuleV>)> {
    let braces = match tws(s, i, KW_OPEN_BRACE@) {
        Some(j) => match rules_at(s, j) {
            Some((m, rs)) => if has_tag(s, m, KW_CLOSE_BRACE@) {
                Some((m + 1, rs))
            } else {
                None
            },
            None => None,
        },
        None => None,
    };
    let empty = if has_tag(s, i, KW_SEMICOLON@) {
        Some((i + 1, Seq::<NamedRuleV>::empty()))
    } else {
        None
    };
    or(braces, empty)
}

/// The message for a rule defined twice in one rule set.
pub open spec fn duplicate_rule_message(name: Seq<char>) -> Seq<char> {
    "rule `"@ + name + "` defined more than once"@
}

/// Whether a rule of the list has this name.
pub open spec fn has_rule(acc: Seq<(Seq<char>, AggregatorExpressionV)>, name: Seq<char>) -> bool {
    exists|k: int| 0 <= k < acc.len() && #[trigger] acc[k].0 == name
}

/// The rules of a rule set in order, after `acc`: the first message, or the
/// name of the first rule that repeats an earlier one.
pub open spec fn collect_rules(
    rs: Seq<NamedRuleV>,
    acc: Seq<(Seq<char>, AggregatorExpressionV)>,
) -> Result<Seq<(Seq<char>, AggregatorExpressionV)>, Seq<char>>
    decreases rs.len(),
{
    if rs.len() == 0 {
        Ok(acc)
    } else {
        match rs[0].0 {
            Err(m) => Err(m),
            Ok(name) => if has_rule(acc, name) {
                Err(duplicate_rule_message(name))
            } else {
                match rs[0].1 {
                    Err(m) => Err(m),
                    Ok(a) => collect_rules(rs.drop_first(), acc.push((name, a))),
                }
            },
        }
    }
}

/// A rule set from its parts: the rules' messages come first, then that of
/// the `in` pattern, then that of the selector.
pub open spec fn rule_set_value(
    in_page: Option<Result<Seq<char>, Seq<char>>>,
    sel: Result<Seq<char>, Seq<char>>,
    rs: Seq<NamedRuleV>,
) -> Result<RuleSetV, Seq<char>> {
    match collect_rules(rs, Seq::empty()) {
        Err(m) => Err(m),
        Ok(rules) => match in_page {
            Some(Err(m)) => Err(m),
            _ => match sel {
                Err(m) => Err(m),
                Ok(t) => Ok(
                    RuleSetV {
                        in_page: match in_page {
                            Some(Ok(p)) => Some(p),
                            _ => None,
                        },
                        selector: t,
                        aggregators: rules,
                    },
                ),
            },
        },
    }
}

/// `select [in <pattern>] <selector> { <named rules> }`.
pub open spec fn rule_set_at(s: Seq<u8>, i: int) -> Option<(int, Result<RuleSetV, Seq<char>>)> {
    match rule_head_at(s, i) {
        Some((h, (in_page, sel))) => match block_body_at(s, whitespace_end(s, h, true)) {
            Some((e, rs)) => Some((e, rule_set_value(in_page, sel, rs))),
            None => None,
        },
        None => None,
    }
}

/// The item grammar: the first of its alternatives, in order, that applies
/// at `i`.
pub open spec fn item_at(s: Seq<u8>, i: int) -> Option<(int, Result<ItemV, Seq<char>>)> {
    let rule_set = match rule_set_at(s, i) {
        Some((e, Ok(r))) => Some((e, Ok(ItemV::RuleSet(r)))),
        Some((e, Err(m))) => Some((e, Err(m))),
        None => None,
    };
    let module = match module_at(s, i) {
        Some((e, Ok(p))) => Some((e, Ok(ItemV::Module(p)))),
        Some((e, Err(m))) => Some((e, Err(m))),
        None => None,
    };
    let seed = match seed_at(s, i) {
        Some((e, Ok(u))) => Some((e, Ok(ItemV::Seed(u)))),
        Some((e, Err(m))) => Some((e, Err(m))),
        None => None,
    };
    let boundary = match boundary_at(s, i) {
        Some((e, Ok(b))) => Some((e, Ok(ItemV::Boundary(b)))),
        Some((e, Err(m))) => Some((e, Err(m))),
        None => None,
    };
    let set_variable = match set_variable_at(s, i) {
        Some((e, Ok(v))) => Some((e, Ok(ItemV::SetVariable(v)))),
        Some((e, Err(m))) => Some((e, Err(m))),
        None => None,
    };
    or(rule_set, or(module, or(seed, or(boundary, set_variable))))
}

/// Items, each followed by whitespace, as many as there are from `p`.
pub open spec fn items_at(s: Seq<u8>, p: int) -> Option<(int, Seq<Result<ItemV, Seq<char>>>)>
    decreases s.len() - p,
{
    if !(0 <= p <= s.len()) {
        None
    } else {
        match item_at(s, p) {
            None => Some((p, Seq::empty())),
            Some((q, r)) => if q <= s.len() && whitespace_end(s, q, true) > p {
                proof {
                    lemma_whitespace_end(s, q, true);
                }
                match items_at(s, whitespace_end(s, q, true)) {
                    Some((e, rs)) => Some((e, seq![r] + rs)),
                    None => None,
                }
            } else {
                None
            },
        }
    }
}

/// The values of a list of results, or the first message.
pub open spec fn collect_items(rs: Seq<Result<ItemV, Seq<char>>>) -> Result<Seq<ItemV>, Seq<char>>
    decreases rs.len(),
{
    if rs.len() == 0 {
        Ok(Seq::empty())
    } else {
        match collect_items(rs.drop_last()) {
            Ok(vs) => match rs.last() {
                Ok(v) => Ok(vs.push(v)),
                Err(e) => Err(e),
            },
            Err(e) => Err(e),
        }
    }
}

/// A whole directives file: whitespace, then items, each followed by
/// whitespace, up to the end. Fails when something else is left; otherwise
/// the items or the first message.
pub open spec fn directives_at(s: Seq<u8>) -> Option<Result<Seq<ItemV>, Seq<char>>> {
    match items_at(s, whitespace_end(s, 0, true)) {
        Some((e, rs)) => if e == s.len() {
            Some(collect_items(rs))
        } else {
            None
        },
        None => None,
    }
}


pub open spec fn regex_result_view(r: Result<ComparableRegex, String>) -> Result<Seq<char>, Seq<char>> {
    match r {
        Ok(re) => Ok(re.source@),
        Err(m) => Err(m@),
    }
}

pub open spec fn boundary_result_view(r: Option<(usize, Result<Boundary, String>)>) -> Option<
    (int, Result<BoundaryV, Seq<char>>),
> {
    match r {
        Some((e, Ok(b))) => Some((e as int, Ok(boundary_view(b)))),
        Some((e, Err(m))) => Some((e as int, Err(m@))),
        None => None,
    }
}

pub open spec fn text_result_view(r: Option<(usize, Result<String, String>)>) -> Option<
    (int, Result<Seq<char>, Seq<char>>),
> {
    match r {
        Some((e, Ok(t))) => Some((e as int, Ok(t@))),
        Some((e, Err(m))) => Some((e as int, Err(m@))),
        None => None,
    }
}

/// `in <quoted pattern>` at `i`.
pub fn in_directive_from(s: &[u8], i: usize) -> (r: Option<(usize, Result<ComparableRegex, String>)>)
    requires
        i <= s@.len(),
    ensures
        (match r {
            Some((e, re)) => Some((e as int, regex_result_view(re))),
            None => None,
        }) == in_directive_at(s@, i as int),
        r matches Some((e, _)) ==> i <= e <= s@.len(),
{
    let (e, b) = quoted_arg_from(s, i, &KW_IN)?;
    Some((e, regex_from_bytes(b.as_slice())))
}

/// Keywords, a quoted string, whitespace, `;`, at `i`.
pub fn string_directive_from(s: &[u8], i: usize, tags: &[&[u8]]) -> (r: Option<(usize, Vec<u8>)>)
    requires
        i <= s@.len(),
    ensures
        (match r {
            Some((e, b)) => Some((e as int, b@)),
            None => None,
        }) == string_directive_at(s@, i as int, tag_views(tags@)),
        r matches Some((e, _)) ==> i <= e <= s@.len(),
{
    let _len = s.len();
    proof {
        lemma_tags_end(s@, i as int, tag_views(tags@));
    }
    let j = tags_at(s, i, tags)?;
    let (k, b) = quoted_from(s, j)?;
    let w = skip_whitespace(s, k, true);
    if tag_at(s, w, &KW_SEMICOLON) {
        assert(KW_SEMICOLON@.len() == 1);
        Some((w + 1, b))
    } else {
        None
    }
}

/// Keywords, then `;`, at `i`.
pub fn flag_directive_from(s: &[u8], i: usize, tags: &[&[u8]]) -> (r: Option<usize>)
    requires
        i <= s@.len(),
    ensures
        (match r {
            Some(e) => Some(e as int),
            None => None,
        }) == flag_directive_at(s@, i as int, tag_views(tags@)),
        r matches Some(e) ==> i <= e <= s@.len(),
{
    let _len = s.len();
    proof {
        lemma_tags_end(s@, i as int, tag_views(tags@));
    }
    let j = tags_at(s, i, tags)?;
    if tag_at(s, j, &KW_SEMICOLON) {
        assert(KW_SEMICOLON@.len() == 1);
        Some(j + 1)
    } else {
        None
    }
}

fn pattern_boundary_from(s: &[u8], i: usize, kw: &[u8], which: u8) -> (r: Option<
    (usize, Result<Boundary, String>),
>)
    requires
        i <= s@.len(),
    ensures
        boundary_result_view(r) == pattern_boundary_alt(s@, i as int, kw@, which as int),
        r matches Some((e, _)) ==> i <= e <= s@.len(),
{
    let tags: [&[u8]; 1] = [kw];
    assert(tag_views(tags@) =~= seq![kw@]);
    let (e, b) = string_directive_from(s, i, &tags)?;
    match regex_from_bytes(b.as_slice()) {
        Ok(re) => {
            let v = if which == 0 {
                Boundary::Allowed(re)
            } else if which == 1 {
                Boundary::Disallowed(re)
            } else {
                Boundary::Frontier(re)
            };
            Some((e, Ok(v)))
        },
        Err(m) => Some((e, Err(m))),
    }
}

fn param_boundary_from(s: &[u8], i: usize, using: bool) -> (r: Option<
    (usize, Result<Boundary, String>),
>)
    requires
        i <= s@.len(),
    ensures
        boundary_result_view(r) == param_boundary_alt(s@, i as int, using),
        r matches Some((e, _)) ==> i <= e <= s@.len(),
{
    let first: &[u8] = if using {
        &KW_USE
    } else {
        &KW_IGNORE
    };
    let tags: [&[u8]; 2] = [first, &KW_PARAM];
    assert(tag_views(tags@) =~= (if using {
        seq![KW_USE@, KW_PARAM@]
    } else {
        seq![KW_IGNORE@, KW_PARAM@]
    }));
    let (e, b) = string_directive_from(s, i, &tags)?;
    match utf8_string(b.as_slice()) {
        Ok(t) => {
            let v = if using {
                Boundary::UseParam(t)
            } else {
                Boundary::IgnoreParam(t)
            };
            Some((e, Ok(v)))
        },
        Err(m) => Some((e, Err(m))),
    }
}

/// One boundary at `i`.
pub fn boundary_from(s: &[u8], i: usize) -> (r: Option<(usize, Result<Boundary, String>)>)
    requires
        i <= s@.len(),
    ensures
        boundary_result_view(r) == boundary_at(s@, i as int),
        r matches Some((e, _)) ==> i <= e <= s@.len(),
{
    let r = pattern_boundary_from(s, i, &KW_ALLOW, 0);
    if r.is_some() {
        return r;
    }
    let r = pattern_boundary_from(s, i, &KW_DISALLOW, 1);
    if r.is_some() {
        return r;
    }
    let r = pattern_boundary_from(s, i, &KW_FRONTIER, 2);
    if r.is_some() {
        return r;
    }
    let r = param_boundary_from(s, i, true);
    if r.is_some() {
        return r;
    }
    let tags: [&[u8]; 3] = [&KW_USE, &KW_PARAM, &KW_STAR];
    assert(tag_views(tags@) =~= seq![KW_USE@, KW_PARAM@, KW_STAR@]);
    if let Some(e) = flag_directive_from(s, i, &tags) {
        return Some((e, Ok(Boundary::UseAllParams)));
    }
    param_boundary_from(s, i, false)
}

/// `import <quoted path>;` at `i`.
pub fn module_from(s: &[u8], i: usize) -> (r: Option<(usize, Result<String, String>)>)
    requires
        i <= s@.len(),
    ensures
        text_result_view(r) == module_at(s@, i as int),
        r matches Some((e, _)) ==> i <= e <= s@.len(),
{
    let tags: [&[u8]; 1] = [&KW_IMPORT];
    assert(tag_views(tags@) =~= seq![KW_IMPORT@]);
    let (e, b) = string_directive_from(s, i, &tags)?;
    Some((e, utf8_string(b.as_slice())))
}

/// `seed <quoted address>;` at `i`.
pub fn seed_from(s: &[u8], i: usize) -> (r: Option<(usize, Result<String, String>)>)
    requires
        i <= s@.len(),
    ensures
        text_result_view(r) == seed_at(s@, i as int),
        r matches Some((e, _)) ==> i <= e <= s@.len(),
{
    let tags: [&[u8]; 1] = [&KW_SEED];
    assert(tag_views(tags@) =~= seq![KW_SEED@]);
    let (e, b) = string_directive_from(s, i, &tags)?;
    match utf8_string(b.as_slice()) {
        Ok(t) => match parse_url(t.as_str()) {
            Ok(u) => Some((e, Ok(u))),
            Err((_, m)) => Some((e, Err(m))),
        },
        Err(m) => Some((e, Err(m))),
    }
}

/// A named rule as parsed, as its mathematical value.
pub open spec fn named_rule_view(r: (Result<String, String>, Result<AggregatorExpression, String>)) -> NamedRuleV {
    (
        match r.0 {
            Ok(t) => Ok(t@),
            Err(m) => Err(m@),
        },
        match r.1 {
            Ok(a) => Ok(aggregator_expression_view(a)),
            Err(m) => Err(m@),
        },
    )
}

pub open spec fn named_rules_view(
    rs: Seq<(Result<String, String>, Result<AggregatorExpression, String>)>,
) -> Seq<NamedRuleV> {
    rs.map_values(|r: (Result<String, String>, Result<AggregatorExpression, String>)| named_rule_view(r))
}

/// `select`, an optional `in` pattern, and the selector up to `{`, at `i`.
fn rule_head_from(s: &[u8], i: usize) -> (r: Option<
    (usize, (Option<Result<ComparableRegex, String>>, Result<CssSelector, String>)),
>)
    requires
        i <= s@.len(),
    ensures
        (match r {
            Some((e, (in_page, sel))) => Some((
                e as int,
                (
                    match in_page {
                        Some(re) => Some(regex_result_view(re)),
                        None => None,
                    },
                    match sel {
                        Ok(v) => Ok(v.original@),
                        Err(m) => Err(m@),
                    },
                ),
            )),
            None => None,
        }) == rule_head_at(s@, i as int),
        r matches Some((e, _)) ==> i <= e <= s@.len(),
{
    let j = tws_at(s, i, &KW_SELECT)?;
    let (k, in_page) = match in_directive_from(s, j) {
        Some((e, re)) => (skip_whitespace(s, e, true), Some(re)),
        None => (j, None),
    };
    let (m, sel) = css_selector_from(s, k, OPEN_BRACE)?;
    Some((m, (in_page, sel)))
}

/// A named rule at `i`.
fn identified_rule_from(s: &[u8], i: usize) -> (r: Option<
    (usize, (Result<String, String>, Result<AggregatorExpression, String>)),
>)
    requires
        i <= s@.len(),
    ensures
        (match r {
            Some((e, nr)) => Some((e as int, named_rule_view(nr))),
            None => None,
        }) == identified_rule_at(s@, i as int),
        r matches Some((e, _)) ==> i <= e <= s@.len(),
{
    let _len = s.len();
    let k = identifier_at(s, i)?;
    proof {
        lemma_identifier_stop(s@, i as int);
    }
    let w0 = skip_whitespace(s, k, true);
    let m = tws_at(s, w0, &KW_COLON)?;
    let (n, a) = aggregator_expression_from(s, m)?;
    let w = skip_whitespace(s, n, true);
    if !tag_at(s, w, &KW_SEMICOLON) {
        return None;
    }
    assert(KW_SEMICOLON@.len() == 1);
    let name_bytes = &s[i..k];
    assert(name_bytes@ == s@.subrange(i as int, k as int));
    Some((w + 1, (utf8_string(name_bytes), a)))
}

pub open spec fn rules_after(s: Seq<u8>, p: int, done: Seq<NamedRuleV>) -> Option<(int, Seq<NamedRuleV>)> {
    match rules_at(s, p) {
        Some((e, rest)) => Some((e, done + rest)),
        None => None,
    }
}

/// Named rules, each followed by whitespace, at `k`.
fn rules_from(s: &[u8], k: usize) -> (r: Option<
    (usize, Vec<(Result<String, String>, Result<AggregatorExpression, String>)>),
>)
    requires
        k <= s@.len(),
    ensures
        (match r {
            Some((e, rs)) => Some((e as int, named_rules_view(rs@))),
            None => None,
        }) == rules_at(s@, k as int),
        r matches Some((e, _)) ==> k <= e <= s@.len(),
{
    let mut p = k;
    let mut acc: Vec<(Result<String, String>, Result<AggregatorExpression, String>)> = Vec::new();
    assert(named_rules_view(acc@) =~= Seq::<NamedRuleV>::empty());
    assert(Seq::<NamedRuleV>::empty() + Seq::<NamedRuleV>::empty() =~= Seq::<NamedRuleV>::empty());
    loop
        invariant
            k <= p <= s@.len(),
            rules_after(s@, p as int, named_rules_view(acc@)) == rules_at(s@, k as int),
        decreases s@.len() - p,
    {
        let ghost done = named_rules_view(acc@);
        assert(done + Seq::<NamedRuleV>::empty() =~= done);
        match identified_rule_from(s, p) {
            None => {
                return Some((p, acc));
            },
            Some((q, nr)) => {
                let w = skip_whitespace(s, q, true);
                if w <= p {
                    return None;
                }
                let ghost rv = named_rule_view(nr);
                proof {
                    lemma_whitespace_end(s@, q as int, true);
                    match rules_at(s@, w as int) {
                        Some((e, rest)) => {
                            assert(done + (seq![rv] + rest) =~= done.push(rv) + rest);
                        },
                        None => {},
                    }
                }
                acc.push(nr);
                assert(named_rules_view(acc@) =~= done.push(rv));
                p = w;
            },
        }
    }
}

/// The body of a rule set at `i`.
fn block_body_from(s: &[u8], i: usize) -> (r: Option<
    (usize, Vec<(Result<String, String>, Result<AggregatorExpression, String>)>),
>)
    requires
        i <= s@.len(),
    ensures
        (match r {
            Some((e, rs)) => Some((e as int, named_rules_view(rs@))),
            None => None,
        }) == block_body_at(s@, i as int),
        r matches Some((e, _)) ==> i <= e <= s@.len(),
{
    let _len = s.len();
    if let Some(j) = tws_at(s, i, &KW_OPEN_BRACE) {
        if let Some((m, rs)) = rules_from(s, j) {
            if tag_at(s, m, &KW_CLOSE_BRACE) {
                assert(KW_CLOSE_BRACE@.len() == 1);
                return Some((m + 1, rs));
            }
        }
    }
    if tag_at(s, i, &KW_SEMICOLON) {
        assert(KW_SEMICOLON@.len() == 1);
        let empty: Vec<(Result<String, String>, Result<AggregatorExpression, String>)> = Vec::new();
        assert(named_rules_view(empty@) =~= Seq::<NamedRuleV>::empty());
        Some((i + 1, empty))
    } else {
        None
    }
}

/// The message for a rule defined twice in one rule set.
fn duplicate_rule_string(name: &String) -> (r: String)
    ensures
        r@ == duplicate_rule_message(name@),
{
    let mut m = String::from_str("rule `");
    m.append(name.as_str());
    m.append("` defined more than once");
    m
}

/// Whether one of the rules is named `name`.
fn has_rule_named(rules: &Vec<(String, AggregatorExpression)>, name: &String) -> (r: bool)
    ensures
        r == has_rule(rules_view(rules@), name@),
{
    let ghost v = rules_view(rules@);
    let mut k: usize = 0;
    while k < rules.len()
        invariant
            k <= rules@.len(),
            v == rules_view(rules@),
            forall|j: int| 0 <= j < k ==> v[j].0 != name@,
        decreases rules.len() - k,
    {
        if rules[k].0 == *name {
            assert(v[k as int].0 == name@);
            return true;
        }
        k = k + 1;
    }
    false
}

/// The rules of a rule set in order: the first message, or that of the first
/// rule that repeats an earlier name.
fn collect_rules_from(rs: Vec<(Result<String, String>, Result<AggregatorExpression, String>)>) -> (r: Result<
    Vec<(String, AggregatorExpression)>,
    String,
>)
    ensures
        (match r {
            Ok(v) => Ok::<Seq<(Seq<char>, AggregatorExpressionV)>, Seq<char>>(rules_view(v@)),
            Err(m) => Err(m@),
        }) == collect_rules(named_rules_view(rs@), Seq::empty()),
        r matches Ok(v) ==> distinct_names(rules_view(v@)),
{
    let ghost views = named_rules_view(rs@);
    let mut acc: Vec<(String, AggregatorExpression)> = Vec::new();
    let mut rest = rs;
    let ghost mut k: int = 0;
    assert(rules_view(acc@) =~= Seq::<(Seq<char>, AggregatorExpressionV)>::empty());
    assert(views.skip(0) =~= views);
    assert(rest@ =~= rs@.skip(0));
    while rest.len() > 0
        invariant
            0 <= k <= rs@.len(),
            rest@ == rs@.skip(k),
            views == named_rules_view(rs@),
            collect_rules(views, Seq::empty()) == collect_rules(views.skip(k), rules_view(acc@)),
            distinct_names(rules_view(acc@)),
        decreases rest.len(),
    {
        assert(views.skip(k)[0] == named_rule_view(rs@[k]));
        assert(views.skip(k).drop_first() =~= views.skip(k + 1));
        let (name, agg) = rest.remove(0);
        assert(rest@ =~= rs@.skip(k + 1));
        let name = match name {
            Ok(name) => name,
            Err(m) => {
                return Err(m);
            },
        };
        if has_rule_named(&acc, &name) {
            return Err(duplicate_rule_string(&name));
        }
        let a = match agg {
            Ok(a) => a,
            Err(m) => {
                return Err(m);
            },
        };
        let ghost before = rules_view(acc@);
        let ghost entry = (name@, aggregator_expression_view(a));
        acc.push((name, a));
        assert(rules_view(acc@) =~= before.push(entry));
        assert forall|x: int, y: int|
            0 <= x < y < rules_view(acc@).len() implies #[trigger] rules_view(acc@)[x].0
            != #[trigger] rules_view(acc@)[y].0 by {
            if y == before.len() {
                assert(rules_view(acc@)[x] == before[x]);
            }
        }
        proof {
            k = k + 1;
        }
    }
    assert(views.skip(k).len() == 0);
    Ok(acc)
}

pub open spec fn rule_set_result_view(r: Option<(usize, Result<RuleSet, String>)>) -> Option<
    (int, Result<RuleSetV, Seq<char>>),
> {
    match r {
        Some((e, Ok(rs))) => Some((e as int, Ok(rule_set_view(rs)))),
        Some((e, Err(m))) => Some((e as int, Err(m@))),
        None => None,
    }
}

/// A rule set at `i`; the rule set has no two rules of the same name.
pub fn rule_set_from(s: &[u8], i: usize) -> (r: Option<(usize, Result<RuleSet, String>)>)
    requires
        i <= s@.len(),
    ensures
        rule_set_result_view(r) == rule_set_at(s@, i as int),
        r matches Some((e, _)) ==> i <= e <= s@.len(),
        r matches Some((_, Ok(rs))) ==> rs.wf(),
{
    let (h, (in_page, sel)) = rule_head_from(s, i)?;
    let w = skip_whitespace(s, h, true);
    let (e, rs) = block_body_from(s, w)?;
    let rules = match collect_rules_from(rs) {
        Ok(rules) => rules,
        Err(m) => {
            return Some((e, Err(m)));
        },
    };
    let in_page = match in_page {
        Some(Ok(re)) => Some(re),
        Some(Err(m)) => {
            return Some((e, Err(m)));
        },
        None => None,
    };
    match sel {
        Ok(selector) => Some((e, Ok(RuleSet { in_page, selector, aggregators: rules }))),
        Err(m) => Some((e, Err(m))),
    }
}

pub open spec fn item_outcome_view(r: Result<Item, String>) -> Result<ItemV, Seq<char>> {
    match r {
        Ok(it) => Ok(item_view(it)),
        Err(m) => Err(m@),
    }
}

pub open spec fn item_outcomes_view(rs: Seq<Result<Item, String>>) -> Seq<Result<ItemV, Seq<char>>> {
    rs.map_values(|r: Result<Item, String>| item_outcome_view(r))
}

/// One item at `i`.
pub fn item_from(s: &[u8], i: usize) -> (r: Option<(usize, Result<Item, String>)>)
    requires
        i <= s@.len(),
    ensures
        (match r {
            Some((e, it)) => Some((e as int, item_outcome_view(it))),
            None => None,
        }) == item_at(s@, i as int),
        r matches Some((e, _)) ==> i <= e <= s@.len(),
{
    if let Some((e, r)) = rule_set_from(s, i) {
        return match r {
            Ok(rs) => Some((e, Ok(Item::RuleSet(rs)))),
            Err(m) => Some((e, Err(m))),
        };
    }
    if let Some((e, r)) = module_from(s, i) {
        return match r {
            Ok(path) => Some((e, Ok(Item::Module(Module { path })))),
            Err(m) => Some((e, Err(m))),
        };
    }
    if let Some((e, r)) = seed_from(s, i) {
        return match r {
            Ok(u) => Some((e, Ok(Item::Seed(u)))),
            Err(m) => Some((e, Err(m))),
        };
    }
    if let Some((e, r)) = boundary_from(s, i) {
        return match r {
            Ok(b) => Some((e, Ok(Item::Boundary(b)))),
            Err(m) => Some((e, Err(m))),
        };
    }
    let (e, r) = set_variable_from(s, i)?;
    match r {
        Ok(v) => Some((e, Ok(Item::SetVariable(v)))),
        Err(m) => Some((e, Err(m))),
    }
}

pub open spec fn items_after(s: Seq<u8>, p: int, done: Seq<Result<ItemV, Seq<char>>>) -> Option<
    (int, Seq<Result<ItemV, Seq<char>>>),
> {
    match items_at(s, p) {
        Some((e, rest)) => Some((e, done + rest)),
        None => None,
    }
}

proof fn lemma_collect_items_push(rs: Seq<Result<ItemV, Seq<char>>>, r: Result<ItemV, Seq<char>>)
    ensures
        collect_items(rs.push(r)) == (match collect_items(rs) {
            Ok(vs) => match r {
                Ok(v) => Ok(vs.push(v)),
                Err(e) => Err(e),
            },
            Err(e) => Err(e),
        }),
{
    assert(rs.push(r).drop_last() =~= rs);
}

/// A whole directives file: its items, or the first message; `None` when it
/// does not parse to its end.
pub fn entrypoint(i: &[u8]) -> (r: Option<Result<Vec<Item>, String>>)
    ensures
        (match r {
            Some(Ok(items)) => Some(Ok::<Seq<ItemV>, Seq<char>>(items_view(items@))),
            Some(Err(m)) => Some(Err(m@)),
            None => None,
        }) == directives_at(i@),
{
    let k = skip_whitespace(i, 0, true);
    let mut p = k;
    let mut acc: Result<Vec<Item>, String> = Ok(Vec::new());
    let ghost mut done: Seq<Result<ItemV, Seq<char>>> = Seq::empty();
    assert(Seq::<Result<ItemV, Seq<char>>>::empty() + Seq::<Result<ItemV, Seq<char>>>::empty() =~= Seq::<Result<ItemV, Seq<char>>>::empty());
    assert(items_view(Seq::<Item>::empty()) =~= Seq::<ItemV>::empty());
    loop
        invariant
            k <= p <= i@.len(),
            k == whitespace_end(i@, 0, true),
            items_after(i@, p as int, done) == items_at(i@, k as int),
            (match acc {
                Ok(items) => Ok::<Seq<ItemV>, Seq<char>>(items_view(items@)),
                Err(m) => Err(m@),
            }) == collect_items(done),
        decreases i@.len() - p,
    {
        assert(done + Seq::<Result<ItemV, Seq<char>>>::empty() =~= done);
        match item_from(i, p) {
            None => {
                if p < i.len() {
                    return None;
                }
                return match acc {
                    Ok(items) => Some(Ok(items)),
                    Err(m) => Some(Err(m)),
                };
            },
            Some((q, r)) => {
                let w = skip_whitespace(i, q, true);
                if w <= p {
                    return None;
                }
                let ghost rv = item_outcome_view(r);
                proof {
                    lemma_whitespace_end(i@, q as int, true);
                    match items_at(i@, w as int) {
                        Some((e, rest)) => {
                            assert(done + (seq![rv] + rest) =~= done.push(rv) + rest);
                        },
                        None => {},
                    }
                    lemma_collect_items_push(done, rv);
                }
                acc = match acc {
                    Ok(mut items) => match r {
                        Ok(it) => {
                            let ghost before = items_view(items@);
                            let ghost itv = item_view(it);
                            items.push(it);
                            assert(items_view(items@) =~= before.push(itv));
                            Ok(items)
                        },
                        Err(m) => Err(m),
                    },
                    Err(m) => Err(m),
                };
                proof {
                    done = done.push(rv);
                }
                p = w;
            },
        }
    }
}
/// A rule set that parses has no two rules of the same name: collecting
/// the rules refuses a name that repeats.
pub proof fn lemma_collected_rules_distinct(
    rs: Seq<NamedRuleV>,
    acc: Seq<(Seq<char>, AggregatorExpressionV)>,
)
    requires
        distinct_names(acc),
    ensures
        collect_rules(rs, acc) matches Ok(v) ==> distinct_names(v),
    decreases rs.len(),
{
    if rs.len() > 0 {
        match rs[0].0 {
            Err(_) => {},
            Ok(name) => if !has_rule(acc, name) {
                match rs[0].1 {
                    Err(_) => {},
                    Ok(a) => {
                        let next = acc.push((name, a));
                        assert forall|x: int, y: int| 0 <= x < y < next.len() implies #[trigger] next[x].0
                            != #[trigger] next[y].0 by {
                            if y == acc.len() {
                                assert(next[x] == acc[x]);
                                if acc[x].0 == name {
                                    assert(has_rule(acc, name));
                                }
                            } else {
                                assert(next[x] == acc[x] && next[y] == acc[y]);
                            }
                        }
                        lemma_collected_rules_distinct(rs.drop_first(), next);
                    },
                }
            },
        }
    }
}

/// A rule set that parses has no two rules of the same name.
pub proof fn lemma_rule_set_names_distinct(s: Seq<u8>, i: int)
    ensures
        rule_set_at(s, i) matches Some((_, Ok(r))) ==> distinct_names(r.aggregators),
{
    match rule_head_at(s, i) {
        Some((h, (in_page, sel))) => match block_body_at(s, whitespace_end(s, h, true)) {
            Some((e, rs)) => {
                lemma_collected_rules_distinct(rs, Seq::empty());
            },
            None => {},
        },
        None => {},
    }
}

} // verus!
