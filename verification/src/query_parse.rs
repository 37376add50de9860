//! The grammar of extractors and aggregators: what is read from the selected
//! elements and how the readings are combined, over the UTF-8 bytes of the
//! source text.
//!
//! As in the transformer grammar, each rule is a spec function from a
//! position to where it ends and what it yields, and an executable function
//! that computes exactly that.
use vstd::prelude::*;

use crate::expressions::{
    AggregatorExpressionV, AggregatorV, CssSelector, ExplodingV, ExtractorExpressionV, ExtractorV,
    TransformerV, Extractor, ExtractorExpression, ExplodingExtractorExpression, Aggregator,
    AggregatorExpression, TransformerExpression, extractor_view, extractor_expression_view,
    exploding_view, aggregator_view, aggregator_expression_view, transformers_view,
};
use crate::lexical::{has_tag, whitespace_end, lemma_whitespace_end, skip_whitespace, tag_at};
use crate::outside::{selector_error, compile_selector};
use crate::expr_parse::{
    tws, tws_at, quoted_arg, quoted_arg_from, utf8_value, utf8_string, or, expression_at,
    transformer_expression_from, expression_result_view, KW_NAME, KW_TEXT, KW_HTML,
    KW_INNER_HTML, KW_ATTRS, KW_CLASSES, KW_ID, KW_ATTR, KW_PARENT, KW_CHILDREN, KW_SELECT_ANY,
    KW_SELECT_ALL, KW_OPEN_PAREN, KW_CLOSE_PAREN, KW_COMMA, KW_EXPLODE, KW_COUNT, KW_FIRST,
    KW_COLLECT, KW_DISTINCT, KW_SUM, KW_GROUP,
};

verus! {

/// `[`
pub const OPEN_SQUARE: u8 = 91u8;

/// `]`
pub const CLOSE_SQUARE: u8 = 93u8;

/// `)`, where a selector inside an extractor ends.
pub const CLOSE_PAREN: u8 = 41u8;

/// A selector given by its bytes: its text if it is valid.
pub open spec fn selector_value(b: Seq<u8>) -> Result<Seq<char>, Seq<char>> {
    match utf8_value(b) {
        Ok(t) => match selector_error(t) {
            None => Ok(t),
            Some(e) => Err(e),
        },
        Err(e) => Err(e),
    }
}

/// Where the text of a selector that reaches `i` with `level` brackets open
/// ends: at the first `hint` outside brackets, or at the end.
pub open spec fn selector_stop(s: Seq<u8>, i: int, hint: u8, level: int) -> int
    decreases s.len() - i,
{
    if 0 <= i < s.len() && (level != 0 || s[i] != hint) {
        selector_stop(
            s,
            i + 1,
            hint,
            if s[i] == OPEN_SQUARE {
                level + 1
            } else if s[i] == CLOSE_SQUARE {
                level - 1
            } else {
                level
            },
        )
    } else {
        i
    }
}

proof fn lemma_selector_stop(s: Seq<u8>, i: int, hint: u8, level: int)
    requires
        0 <= i <= s.len(),
    ensures
        i <= selector_stop(s, i, hint, level) <= s.len(),
    decreases s.len() - i,
{
    if i < s.len() && (level != 0 || s[i] != hint) {
        lemma_selector_stop(
            s,
            i + 1,
            hint,
            if s[i] == OPEN_SQUARE {
                level + 1
            } else if s[i] == CLOSE_SQUARE {
                level - 1
            } else {
                level
            },
        );
    }
}

/// A CSS selector at `i`, up to `hint`: fails when it would be empty.
pub open spec fn css_selector_at(s: Seq<u8>, i: int, hint: u8) -> Option<
    (int, Result<Seq<char>, Seq<char>>),
> {
    let e = selector_stop(s, i, hint, 0);
    if 0 <= i <= s.len() && e > i {
        Some((e, selector_value(s.subrange(i, e))))
    } else {
        None
    }
}

/// A keyword that is a whole extractor.
pub open spec fn unit_extractor(s: Seq<u8>, i: int, kw: Seq<u8>, v: ExtractorV) -> Option<
    (int, Result<ExtractorV, Seq<char>>),
> {
    if has_tag(s, i, kw) {
        Some((i + kw.len(), Ok(v)))
    } else {
        None
    }
}

/// `attr <quoted name>`.
pub open spec fn attr_alt(s: Seq<u8>, i: int) -> Option<(int, Result<ExtractorV, Seq<char>>)> {
    match quoted_arg(s, i, KW_ATTR@) {
        Some((e, b)) => Some((
            e,
            match utf8_value(b) {
                Ok(t) => Ok(ExtractorV::Attr(t)),
                Err(m) => Err(m),
            },
        )),
        None => None,
    }
}

/// `<keyword> ( <extractor expression> )`.
pub open spec fn nested_extractor_arg(s: Seq<u8>, i: int, kw: Seq<u8>) -> Option<
    (int, Result<ExtractorExpressionV, Seq<char>>),
>
    decreases s.len() - i, 0int,
{
    if !(0 <= i <= s.len()) || kw.len() == 0 {
        None
    } else {
        match tws(s, i, kw) {
            Some(j) => match tws(s, j, KW_OPEN_PAREN@) {
                Some(k) => {
                    proof {
                        lemma_whitespace_end(s, i + kw.len(), true);
                        lemma_whitespace_end(s, j + 1, true);
                    }
                    match extractor_expression_at(s, k) {
                        Some((m, r)) => {
                            let w = whitespace_end(s, m, true);
                            if has_tag(s, w, KW_CLOSE_PAREN@) {
                                Some((w + 1, r))
                            } else {
                                None
                            }
                        },
                        None => None,
                    }
                },
                None => None,
            },
            None => None,
        }
    }
}

/// `<keyword> ( <extractor expression> , <selector> )`.
pub open spec fn select_arg(s: Seq<u8>, i: int, kw: Seq<u8>) -> Option<
    (int, (Result<ExtractorExpressionV, Seq<char>>, Result<Seq<char>, Seq<char>>)),
>
    decreases s.len() - i, 0int,
{
    if !(0 <= i <= s.len()) || kw.len() == 0 {
        None
    } else {
        match tws(s, i, kw) {
            Some(j) => match tws(s, j, KW_OPEN_PAREN@) {
                Some(k) => {
                    proof {
                        lemma_whitespace_end(s, i + kw.len(), true);
                        lemma_whitespace_end(s, j + 1, true);
                    }
                    match extractor_expression_at(s, k) {
                        Some((m, r)) => match tws(s, whitespace_end(s, m, true), KW_COMMA@) {
                            Some(n) => match css_selector_at(s, n, CLOSE_PAREN) {
                                Some((o, sel)) => if has_tag(s, o, KW_CLOSE_PAREN@) {
                                    Some((o + 1, (r, sel)))
                                } else {
                                    None
                                },
                                None => None,
                            },
                            None => None,
                        },
                        None => None,
                    }
                },
                None => None,
            },
            None => None,
        }
    }
}

/// The extractor that nests an extractor expression: `parent` when `which`
/// is 0, `children` otherwise.
pub open spec fn nested_extractor(which: int, x: ExtractorExpressionV) -> ExtractorV {
    if which == 0 {
        ExtractorV::Parent(Box::new(x))
    } else {
        ExtractorV::Children(Box::new(x))
    }
}

/// The extractor that selects elements: `select-any` when `which` is 0,
/// `select-all` otherwise.
pub open spec fn select_extractor(which: int, x: ExtractorExpressionV, sel: Seq<char>) -> ExtractorV {
    if which == 0 {
        ExtractorV::SelectAny(Box::new(x), sel)
    } else {
        ExtractorV::SelectAll(Box::new(x), sel)
    }
}

pub open spec fn nested_extractor_alt(s: Seq<u8>, i: int, kw: Seq<u8>, which: int) -> Option<
    (int, Result<ExtractorV, Seq<char>>),
>
    decreases s.len() - i, 1int,
{
    match nested_extractor_arg(s, i, kw) {
        Some((e, r)) => Some((
            e,
            match r {
                Ok(x) => Ok(nested_extractor(which, x)),
                Err(m) => Err(m),
            },
        )),
        None => None,
    }
}

pub open spec fn select_alt(s: Seq<u8>, i: int, kw: Seq<u8>, which: int) -> Option<
    (int, Result<ExtractorV, Seq<char>>),
>
    decreases s.len() - i, 1int,
{
    match select_arg(s, i, kw) {
        Some((e, (r, sel))) => Some((
            e,
            match r {
                Ok(x) => match sel {
                    Ok(t) => Ok(select_extractor(which, x, t)),
                    Err(m) => Err(m),
                },
                Err(m) => Err(m),
            },
        )),
        None => None,
    }
}

/// The extractor grammar: the first of its alternatives, in order, that
/// applies at `i`.
pub open spec fn extractor_at(s: Seq<u8>, i: int) -> Option<(int, Result<ExtractorV, Seq<char>>)>
    decreases s.len() - i, 2int,
{
    if !(0 <= i <= s.len()) {
        None
    } else {
        or(unit_extractor(s, i, KW_NAME@, ExtractorV::Name),
        or(unit_extractor(s, i, KW_TEXT@, ExtractorV::Text),
        or(unit_extractor(s, i, KW_HTML@, ExtractorV::Html),
        or(unit_extractor(s, i, KW_INNER_HTML@, ExtractorV::InnerHtml),
        or(unit_extractor(s, i, KW_ATTRS@, ExtractorV::Attrs),
        or(unit_extractor(s, i, KW_CLASSES@, ExtractorV::Classes),
        or(unit_extractor(s, i, KW_ID@, ExtractorV::Id),
        or(attr_alt(s, i),
        or(nested_extractor_alt(s, i, KW_PARENT@, 0),
        or(nested_extractor_alt(s, i, KW_CHILDREN@, 1),
        or(select_alt(s, i, KW_SELECT_ANY@, 0), select_alt(s, i, KW_SELECT_ALL@, 1))))))))))))
    }
}

/// An extractor, whitespace, then a transformer expression.
pub open spec fn extractor_expression_at(s: Seq<u8>, i: int) -> Option<
    (int, Result<ExtractorExpressionV, Seq<char>>),
>
    decreases s.len() - i, 3int,
{
    match extractor_at(s, i) {
        Some((e, r)) => match expression_at(s, whitespace_end(s, e, true)) {
            Some((f, t)) => Some((
                f,
                match r {
                    Ok(x) => match t {
                        Ok(ts) => Ok(ExtractorExpressionV { extractor: x, transformers: ts }),
                        Err(m) => Err(m),
                    },
                    Err(m) => Err(m),
                },
            )),
            None => None,
        },
        None => None,
    }
}

/// An extractor expression, whitespace, and `!explode` if it is there.
pub open spec fn exploding_at(s: Seq<u8>, i: int) -> Option<(int, Result<ExplodingV, Seq<char>>)> {
    match extractor_expression_at(s, i) {
        Some((e, r)) => {
            let w = whitespace_end(s, e, true);
            let explodes = has_tag(s, w, KW_EXPLODE@);
            let f = if explodes {
                w + KW_EXPLODE@.len()
            } else {
                w
            };
            Some((
                f,
                match r {
                    Ok(x) => Ok(ExplodingV { explodes, extractor_expression: x }),
                    Err(m) => Err(m),
                },
            ))
        },
        None => None,
    }
}

/// `<keyword> ( <exploding extractor expression> )`.
pub open spec fn exploding_arg(s: Seq<u8>, i: int, kw: Seq<u8>) -> Option<
    (int, Result<ExplodingV, Seq<char>>),
> {
    match tws(s, i, kw) {
        Some(j) => match tws(s, j, KW_OPEN_PAREN@) {
            Some(k) => match exploding_at(s, k) {
                Some((m, r)) => {
                    let w = whitespace_end(s, m, true);
                    if has_tag(s, w, KW_CLOSE_PAREN@) {
                        Some((w + 1, r))
                    } else {
                        None
                    }
                },
                None => None,
            },
            None => None,
        },
        None => None,
    }
}

/// The aggregator over one exploding extractor expression: `which` is 0 for
/// `count`, 1 for `first`, 2 for `collect`, 3 for `distinct` and 4 for `sum`.
pub open spec fn single_aggregator(which: int, x: ExplodingV) -> AggregatorV {
    if which == 0 {
        AggregatorV::CountNotNull(x)
    } else if which == 1 {
        AggregatorV::First(x)
    } else if which == 2 {
        AggregatorV::Collect(x)
    } else if which == 3 {
        AggregatorV::Distinct(x)
    } else {
        AggregatorV::Sum(x)
    }
}

pub open spec fn single_alt(s: Seq<u8>, i: int, kw: Seq<u8>, which: int) -> Option<
    (int, Result<AggregatorV, Seq<char>>),
> {
    match exploding_arg(s, i, kw) {
        Some((e, r)) => Some((
            e,
            match r {
                Ok(x) => Ok(single_aggregator(which, x)),
                Err(m) => Err(m),
            },
        )),
        None => None,
    }
}

/// `group ( <exploding extractor expression> , <aggregator expression> )`.
pub open spec fn group_alt(s: Seq<u8>, i: int) -> Option<(int, Result<AggregatorV, Seq<char>>)>
    decreases s.len() - i, 0int,
{
    if !(0 <= i <= s.len()) {
        None
    } else {
        match tws(s, i, KW_GROUP@) {
            Some(j) => match tws(s, j, KW_OPEN_PAREN@) {
                Some(k) => match exploding_at(s, k) {
                    Some((m, x)) => match tws(s, whitespace_end(s, m, true), KW_COMMA@) {
                        Some(n) => if n <= i || n > s.len() {
                            None
                        } else {
                            match aggregator_expression_at(s, n) {
                                Some((o, a)) => {
                                    let w = whitespace_end(s, o, true);
                                    if has_tag(s, w, KW_CLOSE_PAREN@) {
                                        Some((
                                            w + 1,
                                            match x {
                                                Ok(xv) => match a {
                                                    Ok(av) => Ok(
                                                        AggregatorV::Group(xv, Box::new(av)),
                                                    ),
                                                    Err(m) => Err(m),
                                                },
                                                Err(m) => Err(m),
                                            },
                                        ))
                                    } else {
                                        None
                                    }
                                },
                                None => None,
                            }
                        },
                        None => None,
                    },
                    None => None,
                },
                None => None,
            },
            None => None,
        }
    }
}

/// The aggregator grammar: the first of its alternatives, in order, that
/// applies at `i`.
pub open spec fn aggregator_at(s: Seq<u8>, i: int) -> Option<(int, Result<AggregatorV, Seq<char>>)>
    decreases s.len() - i, 1int,
{
    let count = if has_tag(s, i, KW_COUNT@) {
        Some((i + KW_COUNT@.len(), Ok(AggregatorV::Count)))
    } else {
        None
    };
    or(single_alt(s, i, KW_COUNT@, 0), or(count,
    or(single_alt(s, i, KW_FIRST@, 1), or(single_alt(s, i, KW_COLLECT@, 2),
    or(single_alt(s, i, KW_DISTINCT@, 3), or(single_alt(s, i, KW_SUM@, 4),
    group_alt(s, i)))))))
}

/// An aggregator, whitespace, then a transformer expression.
pub open spec fn aggregator_expression_at(s: Seq<u8>, i: int) -> Option<
    (int, Result<AggregatorExpressionV, Seq<char>>),
>
    decreases s.len() - i, 2int,
{
    match aggregator_at(s, i) {
        Some((e, r)) => match expression_at(s, whitespace_end(s, e, true)) {
            Some((f, t)) => Some((
                f,
                match r {
                    Ok(a) => match t {
                        Ok(ts) => Ok(AggregatorExpressionV { aggregator: a, transformers: ts }),
                        Err(m) => Err(m),
                    },
                    Err(m) => Err(m),
                },
            )),
            None => None,
        },
        None => None,
    }
}


/// The mathematical value of a parsed selector: its text.
pub open spec fn selector_result_view(r: Option<(usize, Result<CssSelector, String>)>) -> Option<
    (int, Result<Seq<char>, Seq<char>>),
> {
    match r {
        Some((e, Ok(sel))) => Some((e as int, Ok(sel.original@))),
        Some((e, Err(m))) => Some((e as int, Err(m@))),
        None => None,
    }
}

pub open spec fn extractor_result_view(r: Option<(usize, Result<Extractor, String>)>) -> Option<
    (int, Result<ExtractorV, Seq<char>>),
> {
    match r {
        Some((e, Ok(x))) => Some((e as int, Ok(extractor_view(x)))),
        Some((e, Err(m))) => Some((e as int, Err(m@))),
        None => None,
    }
}

pub open spec fn extractor_expression_result_view(
    r: Option<(usize, Result<ExtractorExpression, String>)>,
) -> Option<(int, Result<ExtractorExpressionV, Seq<char>>)> {
    match r {
        Some((e, Ok(x))) => Some((e as int, Ok(extractor_expression_view(x)))),
        Some((e, Err(m))) => Some((e as int, Err(m@))),
        None => None,
    }
}

pub open spec fn exploding_result_view(
    r: Option<(usize, Result<ExplodingExtractorExpression, String>)>,
) -> Option<(int, Result<ExplodingV, Seq<char>>)> {
    match r {
        Some((e, Ok(x))) => Some((e as int, Ok(exploding_view(x)))),
        Some((e, Err(m))) => Some((e as int, Err(m@))),
        None => None,
    }
}

pub open spec fn aggregator_result_view(r: Option<(usize, Result<Aggregator, String>)>) -> Option<
    (int, Result<AggregatorV, Seq<char>>),
> {
    match r {
        Some((e, Ok(a))) => Some((e as int, Ok(aggregator_view(a)))),
        Some((e, Err(m))) => Some((e as int, Err(m@))),
        None => None,
    }
}

pub open spec fn aggregator_expression_result_view(
    r: Option<(usize, Result<AggregatorExpression, String>)>,
) -> Option<(int, Result<AggregatorExpressionV, Seq<char>>)> {
    match r {
        Some((e, Ok(a))) => Some((e as int, Ok(aggregator_expression_view(a)))),
        Some((e, Err(m))) => Some((e as int, Err(m@))),
        None => None,
    }
}

/// Where the text of a selector at `i` ends: the first `hint` outside
/// square brackets, or the end.
fn find_selector_stop(s: &[u8], i: usize, hint: u8) -> (r: usize)
    requires
        i <= s@.len(),
    ensures
        r == selector_stop(s@, i as int, hint, 0),
        i <= r <= s@.len(),
{
    let mut k = i;
    let mut opened: usize = 0;
    let mut closed: usize = 0;
    proof {
        lemma_selector_stop(s@, i as int, hint, 0);
    }
    while k < s.len() && (opened != closed || s[k] != hint)
        invariant
            i <= k <= s@.len(),
            opened <= k - i,
            closed <= k - i,
            selector_stop(s@, k as int, hint, opened - closed) == selector_stop(s@, i as int, hint, 0),
        decreases s.len() - k,
    {
        if s[k] == OPEN_SQUARE {
            opened = opened + 1;
        } else if s[k] == CLOSE_SQUARE {
            closed = closed + 1;
        }
        k = k + 1;
    }
    k
}

/// A selector given by its bytes, compiled.
fn selector_from_bytes(b: &[u8]) -> (r: Result<CssSelector, String>)
    ensures
        (match r {
            Ok(sel) => Ok::<Seq<char>, Seq<char>>(sel.original@),
            Err(e) => Err(e@),
        }) == selector_value(b@),
{
    let text = utf8_string(b)?;
    match compile_selector(text.as_str()) {
        Ok(selector) => Ok(CssSelector { selector, original: text }),
        Err(e) => Err(e),
    }
}

/// A CSS selector at `i`, up to `hint` outside square brackets.
pub fn css_selector_from(s: &[u8], i: usize, hint: u8) -> (r: Option<
    (usize, Result<CssSelector, String>),
>)
    requires
        i <= s@.len(),
    ensures
        selector_result_view(r) == css_selector_at(s@, i as int, hint),
        r matches Some((e, _)) ==> i < e <= s@.len(),
{
    let e = find_selector_stop(s, i, hint);
    if e == i {
        return None;
    }
    let text = &s[i..e];
    assert(text@ == s@.subrange(i as int, e as int));
    Some((e, selector_from_bytes(text)))
}

/// A keyword that is a whole extractor.
fn unit_extractor_from(s: &[u8], i: usize, kw: &[u8], x: Extractor) -> (r: Option<
    (usize, Result<Extractor, String>),
>)
    requires
        i <= s@.len(),
    ensures
        extractor_result_view(r) == unit_extractor(s@, i as int, kw@, extractor_view(x)),
        r matches Some((e, _)) ==> i <= e <= s@.len(),
{
    let _len = s.len();
    if tag_at(s, i, kw) {
        Some((i + kw.len(), Ok(x)))
    } else {
        None
    }
}

/// `<keyword> ( <extractor expression> )`.
fn nested_extractor_from(s: &[u8], i: usize, kw: &[u8]) -> (r: Option<
    (usize, Result<ExtractorExpression, String>),
>)
    requires
        i <= s@.len(),
    ensures
        extractor_expression_result_view(r) == nested_extractor_arg(s@, i as int, kw@),
        r matches Some((e, _)) ==> i <= e <= s@.len(),
    decreases s@.len() - i, 0int,
{
    if kw.len() == 0 {
        return None;
    }
    let j = tws_at(s, i, kw)?;
    let k = tws_at(s, j, &KW_OPEN_PAREN)?;
    let (m, r) = extractor_expression_from(s, k)?;
    let w = skip_whitespace(s, m, true);
    let _len = s.len();
    if tag_at(s, w, &KW_CLOSE_PAREN) {
        assert(KW_CLOSE_PAREN@.len() == 1);
        Some((w + 1, r))
    } else {
        None
    }
}

/// `<keyword> ( <extractor expression> , <selector> )`.
fn select_from(s: &[u8], i: usize, kw: &[u8]) -> (r: Option<
    (usize, (Result<ExtractorExpression, String>, Result<CssSelector, String>)),
>)
    requires
        i <= s@.len(),
    ensures
        (match r {
            Some((e, (x, sel))) => Some((
                e as int,
                (
                    match x {
                        Ok(v) => Ok(extractor_expression_view(v)),
                        Err(m) => Err(m@),
                    },
                    match sel {
                        Ok(v) => Ok(v.original@),
                        Err(m) => Err(m@),
                    },
                ),
            )),
            None => None,
        }) == select_arg(s@, i as int, kw@),
        r matches Some((e, _)) ==> i <= e <= s@.len(),
    decreases s@.len() - i, 0int,
{
    if kw.len() == 0 {
        return None;
    }
    let j = tws_at(s, i, kw)?;
    let k = tws_at(s, j, &KW_OPEN_PAREN)?;
    let (m, x) = extractor_expression_from(s, k)?;
    let w = skip_whitespace(s, m, true);
    let n = tws_at(s, w, &KW_COMMA)?;
    let (o, sel) = css_selector_from(s, n, CLOSE_PAREN)?;
    let _len = s.len();
    if tag_at(s, o, &KW_CLOSE_PAREN) {
        assert(KW_CLOSE_PAREN@.len() == 1);
        Some((o + 1, (x, sel)))
    } else {
        None
    }
}

fn nested_extractor_alt_from(s: &[u8], i: usize, kw: &[u8], which: u8) -> (r: Option<
    (usize, Result<Extractor, String>),
>)
    requires
        i <= s@.len(),
    ensures
        extractor_result_view(r) == nested_extractor_alt(s@, i as int, kw@, which as int),
        r matches Some((e, _)) ==> i <= e <= s@.len(),
    decreases s@.len() - i, 1int,
{
    let (e, r) = nested_extractor_from(s, i, kw)?;
    match r {
        Ok(x) => {
            let v = if which == 0 {
                Extractor::Parent(Box::new(x))
            } else {
                Extractor::Children(Box::new(x))
            };
            Some((e, Ok(v)))
        },
        Err(m) => Some((e, Err(m))),
    }
}

fn select_alt_from(s: &[u8], i: usize, kw: &[u8], which: u8) -> (r: Option<
    (usize, Result<Extractor, String>),
>)
    requires
        i <= s@.len(),
    ensures
        extractor_result_view(r) == select_alt(s@, i as int, kw@, which as int),
        r matches Some((e, _)) ==> i <= e <= s@.len(),
    decreases s@.len() - i, 1int,
{
    let (e, (r, sel)) = select_from(s, i, kw)?;
    match r {
        Ok(x) => match sel {
            Ok(sel) => {
                let v = if which == 0 {
                    Extractor::SelectAny(Box::new(x), sel)
                } else {
                    Extractor::SelectAll(Box::new(x), sel)
                };
                Some((e, Ok(v)))
            },
            Err(m) => Some((e, Err(m))),
        },
        Err(m) => Some((e, Err(m))),
    }
}

/// One extractor at `i`.
pub fn extractor_from(s: &[u8], i: usize) -> (r: Option<(usize, Result<Extractor, String>)>)
    requires
        i <= s@.len(),
    ensures
        extractor_result_view(r) == extractor_at(s@, i as int),
        r matches Some((e, _)) ==> i <= e <= s@.len(),
    decreases s@.len() - i, 2int,
{
    let r = unit_extractor_from(s, i, &KW_NAME, Extractor::Name);
    if r.is_some() {
        return r;
    }
    let r = unit_extractor_from(s, i, &KW_TEXT, Extractor::Text);
    if r.is_some() {
        return r;
    }
    let r = unit_extractor_from(s, i, &KW_HTML, Extractor::Html);
    if r.is_some() {
        return r;
    }
    let r = unit_extractor_from(s, i, &KW_INNER_HTML, Extractor::InnerHtml);
    if r.is_some() {
        return r;
    }
    let r = unit_extractor_from(s, i, &KW_ATTRS, Extractor::Attrs);
    if r.is_some() {
        return r;
    }
    let r = unit_extractor_from(s, i, &KW_CLASSES, Extractor::Classes);
    if r.is_some() {
        return r;
    }
    let r = unit_extractor_from(s, i, &KW_ID, Extractor::Id);
    if r.is_some() {
        return r;
    }
    if let Some((e, b)) = quoted_arg_from(s, i, &KW_ATTR) {
        return match utf8_string(b.as_slice()) {
            Ok(t) => Some((e, Ok(Extractor::Attr(t)))),
            Err(m) => Some((e, Err(m))),
        };
    }
    let r = nested_extractor_alt_from(s, i, &KW_PARENT, 0);
    if r.is_some() {
        return r;
    }
    let r = nested_extractor_alt_from(s, i, &KW_CHILDREN, 1);
    if r.is_some() {
        return r;
    }
    let r = select_alt_from(s, i, &KW_SELECT_ANY, 0);
    if r.is_some() {
        return r;
    }
    select_alt_from(s, i, &KW_SELECT_ALL, 1)
}

/// An extractor expression at `i`.
pub fn extractor_expression_from(s: &[u8], i: usize) -> (r: Option<
    (usize, Result<ExtractorExpression, String>),
>)
    requires
        i <= s@.len(),
    ensures
        extractor_expression_result_view(r) == extractor_expression_at(s@, i as int),
        r matches Some((e, _)) ==> i <= e <= s@.len(),
    decreases s@.len() - i, 3int,
{
    let (e, r) = extractor_from(s, i)?;
    let w = skip_whitespace(s, e, true);
    let (f, t) = transformer_expression_from(s, w)?;
    match r {
        Ok(x) => match t {
            Ok(te) => Some((f, Ok(ExtractorExpression { extractor: x, transformer_expression: te }))),
            Err(m) => Some((f, Err(m))),
        },
        Err(m) => Some((f, Err(m))),
    }
}

/// An exploding extractor expression at `i`.
pub fn exploding_from(s: &[u8], i: usize) -> (r: Option<
    (usize, Result<ExplodingExtractorExpression, String>),
>)
    requires
        i <= s@.len(),
    ensures
        exploding_result_view(r) == exploding_at(s@, i as int),
        r matches Some((e, _)) ==> i <= e <= s@.len(),
{
    let (e, r) = extractor_expression_from(s, i)?;
    let w = skip_whitespace(s, e, true);
    let _len = s.len();
    let explodes = tag_at(s, w, &KW_EXPLODE);
    let f = if explodes {
        w + KW_EXPLODE.len()
    } else {
        w
    };
    match r {
        Ok(x) => Some((f, Ok(ExplodingExtractorExpression { explodes, extractor_expression: x }))),
        Err(m) => Some((f, Err(m))),
    }
}

/// `<keyword> ( <exploding extractor expression> )`.
fn exploding_arg_from(s: &[u8], i: usize, kw: &[u8]) -> (r: Option<
    (usize, Result<ExplodingExtractorExpression, String>),
>)
    requires
        i <= s@.len(),
    ensures
        exploding_result_view(r) == exploding_arg(s@, i as int, kw@),
        r matches Some((e, _)) ==> i <= e <= s@.len(),
{
    let j = tws_at(s, i, kw)?;
    let k = tws_at(s, j, &KW_OPEN_PAREN)?;
    let (m, r) = exploding_from(s, k)?;
    let w = skip_whitespace(s, m, true);
    let _len = s.len();
    if tag_at(s, w, &KW_CLOSE_PAREN) {
        assert(KW_CLOSE_PAREN@.len() == 1);
        Some((w + 1, r))
    } else {
        None
    }
}

fn single_alt_from(s: &[u8], i: usize, kw: &[u8], which: u8) -> (r: Option<
    (usize, Result<Aggregator, String>),
>)
    requires
        i <= s@.len(),
    ensures
        aggregator_result_view(r) == single_alt(s@, i as int, kw@, which as int),
        r matches Some((e, _)) ==> i <= e <= s@.len(),
{
    let (e, r) = exploding_arg_from(s, i, kw)?;
    match r {
        Ok(x) => {
            let a = if which == 0 {
                Aggregator::CountNotNull(x)
            } else if which == 1 {
                Aggregator::First(x)
            } else if which == 2 {
                Aggregator::Collect(x)
            } else if which == 3 {
                Aggregator::Distinct(x)
            } else {
                Aggregator::Sum(x)
            };
            Some((e, Ok(a)))
        },
        Err(m) => Some((e, Err(m))),
    }
}

#[verifier::rlimit(40)]
fn group_from(s: &[u8], i: usize) -> (r: Option<(usize, Result<Aggregator, String>)>)
    requires
        i <= s@.len(),
    ensures
        aggregator_result_view(r) == group_alt(s@, i as int),
        r matches Some((e, _)) ==> i <= e <= s@.len(),
    decreases s@.len() - i, 0int,
{
    let j = tws_at(s, i, &KW_GROUP)?;
    let k = tws_at(s, j, &KW_OPEN_PAREN)?;
    let (m, x) = exploding_from(s, k)?;
    let w0 = skip_whitespace(s, m, true);
    let n = tws_at(s, w0, &KW_COMMA)?;
    assert(i < n <= s@.len());
    let (o, a) = aggregator_expression_from(s, n)?;
    let w = skip_whitespace(s, o, true);
    let _len = s.len();
    if tag_at(s, w, &KW_CLOSE_PAREN) {
        assert(KW_CLOSE_PAREN@.len() == 1);
        match x {
            Ok(xv) => match a {
                Ok(av) => Some((w + 1, Ok(Aggregator::Group(xv, Box::new(av))))),
                Err(m) => Some((w + 1, Err(m))),
            },
            Err(m) => Some((w + 1, Err(m))),
        }
    } else {
        None
    }
}

/// One aggregator at `i`.
pub fn aggregator_from(s: &[u8], i: usize) -> (r: Option<(usize, Result<Aggregator, String>)>)
    requires
        i <= s@.len(),
    ensures
        aggregator_result_view(r) == aggregator_at(s@, i as int),
        r matches Some((e, _)) ==> i <= e <= s@.len(),
    decreases s@.len() - i, 1int,
{
    let r = single_alt_from(s, i, &KW_COUNT, 0);
    if r.is_some() {
        return r;
    }
    let _len = s.len();
    if tag_at(s, i, &KW_COUNT) {
        return Some((i + KW_COUNT.len(), Ok(Aggregator::Count)));
    }
    let r = single_alt_from(s, i, &KW_FIRST, 1);
    if r.is_some() {
        return r;
    }
    let r = single_alt_from(s, i, &KW_COLLECT, 2);
    if r.is_some() {
        return r;
    }
    let r = single_alt_from(s, i, &KW_DISTINCT, 3);
    if r.is_some() {
        return r;
    }
    let r = single_alt_from(s, i, &KW_SUM, 4);
    if r.is_some() {
        return r;
    }
    group_from(s, i)
}

/// An aggregator expression at `i`.
pub fn aggregator_expression_from(s: &[u8], i: usize) -> (r: Option<
    (usize, Result<AggregatorExpression, String>),
>)
    requires
        i <= s@.len(),
    ensures
        aggregator_expression_result_view(r) == aggregator_expression_at(s@, i as int),
        r matches Some((e, _)) ==> i <= e <= s@.len(),
    decreases s@.len() - i, 2int,
{
    let (e, r) = aggregator_from(s, i)?;
    let w = skip_whitespace(s, e, true);
    let (f, t) = transformer_expression_from(s, w)?;
    match r {
        Ok(a) => match t {
            Ok(te) => Some((f, Ok(AggregatorExpression { aggregator: a, transformer_expression: te }))),
            Err(m) => Some((f, Err(m))),
        },
        Err(m) => Some((f, Err(m))),
    }
}
} // verus!
