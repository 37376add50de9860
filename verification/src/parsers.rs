//! The parsers of the directives language, each on the bytes of a text:
//! what it reads at the start of the text, and the rest of the text.
use vstd::prelude::*;
use vstd::string::StringExecFns;

use crate::expressions::{Transformer, Extractor, ExtractorExpression, ExplodingExtractorExpression,
    Aggregator, AggregatorExpression, ComparableRegex, CssSelector, extractor_view,
    extractor_expression_view, exploding_view, aggregator_view, aggregator_expression_view};
use crate::items::{Boundary, Literal, SetVariable, RuleSet, Item, boundary_view, set_variable_view,
    rule_set_view};
use crate::literal_parse::literal_outcome_view;
use crate::directive_parse::{regex_result_view, item_outcome_view};
use crate::outside::{regex_error, compile_regex};
use crate::lexical::tag_views;

verus! {

/// One transformer at the start of `i`: the rest of `i`, and the transformer or the message of a value that could not be built.
pub fn transformer(i: &[u8]) -> (r: Option<(&[u8], Result<Transformer, String>)>)
    ensures
        match crate::expr_parse::transformer_at(i@, 0) {
            Some((e, v)) => r matches Some((rest, t)) && rest@ == i@.skip(e) && (crate::expr_parse::outcome_view(t)) == v,
            None => r is None,
        },
{
    let (e, t) = crate::expr_parse::transformer_from(i, 0)?;
    Some((&i[e..i.len()], t))
}

/// One extractor at the start of `i`.
pub fn extractor(i: &[u8]) -> (r: Option<(&[u8], Result<Extractor, String>)>)
    ensures
        match crate::query_parse::extractor_at(i@, 0) {
            Some((e, v)) => r matches Some((rest, t)) && rest@ == i@.skip(e) && (match t { Ok(x) => Ok(extractor_view(x)), Err(m) => Err(m@) }) == v,
            None => r is None,
        },
{
    let (e, t) = crate::query_parse::extractor_from(i, 0)?;
    Some((&i[e..i.len()], t))
}

/// An extractor expression at the start of `i`: an extractor, whitespace, transformers.
pub fn extractor_expression(i: &[u8]) -> (r: Option<(&[u8], Result<ExtractorExpression, String>)>)
    ensures
        match crate::query_parse::extractor_expression_at(i@, 0) {
            Some((e, v)) => r matches Some((rest, t)) && rest@ == i@.skip(e) && (match t { Ok(x) => Ok(extractor_expression_view(x)), Err(m) => Err(m@) }) == v,
            None => r is None,
        },
{
    let (e, t) = crate::query_parse::extractor_expression_from(i, 0)?;
    Some((&i[e..i.len()], t))
}

/// An extractor expression, then `!explode` if it is there.
pub fn exploding_extractor_expression(i: &[u8]) -> (r: Option<(&[u8], Result<ExplodingExtractorExpression, String>)>)
    ensures
        match crate::query_parse::exploding_at(i@, 0) {
            Some((e, v)) => r matches Some((rest, t)) && rest@ == i@.skip(e) && (match t { Ok(x) => Ok(exploding_view(x)), Err(m) => Err(m@) }) == v,
            None => r is None,
        },
{
    let (e, t) = crate::query_parse::exploding_from(i, 0)?;
    Some((&i[e..i.len()], t))
}

/// One aggregator at the start of `i`.
pub fn aggregator(i: &[u8]) -> (r: Option<(&[u8], Result<Aggregator, String>)>)
    ensures
        match crate::query_parse::aggregator_at(i@, 0) {
            Some((e, v)) => r matches Some((rest, t)) && rest@ == i@.skip(e) && (match t { Ok(x) => Ok(aggregator_view(x)), Err(m) => Err(m@) }) == v,
            None => r is None,
        },
{
    let (e, t) = crate::query_parse::aggregator_from(i, 0)?;
    Some((&i[e..i.len()], t))
}

/// An aggregator expression at the start of `i`: an aggregator, whitespace, transformers.
pub fn aggregator_expression(i: &[u8]) -> (r: Option<(&[u8], Result<AggregatorExpression, String>)>)
    ensures
        match crate::query_parse::aggregator_expression_at(i@, 0) {
            Some((e, v)) => r matches Some((rest, t)) && rest@ == i@.skip(e) && (match t { Ok(x) => Ok(aggregator_expression_view(x)), Err(m) => Err(m@) }) == v,
            None => r is None,
        },
{
    let (e, t) = crate::query_parse::aggregator_expression_from(i, 0)?;
    Some((&i[e..i.len()], t))
}

/// `in <quoted pattern>` at the start of `i`: the compiled pattern.
pub fn in_directive(i: &[u8]) -> (r: Option<(&[u8], Result<ComparableRegex, String>)>)
    ensures
        match crate::directive_parse::in_directive_at(i@, 0) {
            Some((e, v)) => r matches Some((rest, t)) && rest@ == i@.skip(e) && (regex_result_view(t)) == v,
            None => r is None,
        },
{
    let (e, t) = crate::directive_parse::in_directive_from(i, 0)?;
    Some((&i[e..i.len()], t))
}

/// A boundary directive at the start of `i`.
pub fn boundary(i: &[u8]) -> (r: Option<(&[u8], Result<Boundary, String>)>)
    ensures
        match crate::directive_parse::boundary_at(i@, 0) {
            Some((e, v)) => r matches Some((rest, t)) && rest@ == i@.skip(e) && (match t { Ok(x) => Ok(boundary_view(x)), Err(m) => Err(m@) }) == v,
            None => r is None,
        },
{
    let (e, t) = crate::directive_parse::boundary_from(i, 0)?;
    Some((&i[e..i.len()], t))
}

/// A literal value at the start of `i`.
pub fn literal(i: &[u8]) -> (r: Option<(&[u8], Result<Literal, String>)>)
    ensures
        match crate::literal_parse::literal_at(i@, 0) {
            Some((e, v)) => r matches Some((rest, t)) && rest@ == i@.skip(e) && (literal_outcome_view(t)) == v,
            None => r is None,
        },
{
    let (e, t) = crate::literal_parse::literal_from(i, 0)?;
    Some((&i[e..i.len()], t))
}

/// `set <name> = <literal>;` at the start of `i`.
pub fn set_variable(i: &[u8]) -> (r: Option<(&[u8], Result<SetVariable, String>)>)
    ensures
        match crate::literal_parse::set_variable_at(i@, 0) {
            Some((e, v)) => r matches Some((rest, t)) && rest@ == i@.skip(e) && (match t { Ok(x) => Ok(set_variable_view(x)), Err(m) => Err(m@) }) == v,
            None => r is None,
        },
{
    let (e, t) = crate::literal_parse::set_variable_from(i, 0)?;
    Some((&i[e..i.len()], t))
}

/// A rule set at the start of `i`.
pub fn rule_set(i: &[u8]) -> (r: Option<(&[u8], Result<RuleSet, String>)>)
    ensures
        match crate::directive_parse::rule_set_at(i@, 0) {
            Some((e, v)) => r matches Some((rest, t)) && rest@ == i@.skip(e) && (match t { Ok(x) => Ok(rule_set_view(x)), Err(m) => Err(m@) }) == v,
            None => r is None,
        },
{
    let (e, t) = crate::directive_parse::rule_set_from(i, 0)?;
    Some((&i[e..i.len()], t))
}

/// `seed <quoted address>;` at the start of `i`: the address written out in full.
pub fn seed(i: &[u8]) -> (r: Option<(&[u8], Result<String, String>)>)
    ensures
        match crate::directive_parse::seed_at(i@, 0) {
            Some((e, v)) => r matches Some((rest, t)) && rest@ == i@.skip(e) && (match t { Ok(x) => Ok(x@), Err(m) => Err(m@) }) == v,
            None => r is None,
        },
{
    let (e, t) = crate::directive_parse::seed_from(i, 0)?;
    Some((&i[e..i.len()], t))
}

/// One item of a directives file at the start of `i`.
pub fn item(i: &[u8]) -> (r: Option<(&[u8], Result<Item, String>)>)
    ensures
        match crate::directive_parse::item_at(i@, 0) {
            Some((e, v)) => r matches Some((rest, t)) && rest@ == i@.skip(e) && (item_outcome_view(t)) == v,
            None => r is None,
        },
{
    let (e, t) = crate::directive_parse::item_from(i, 0)?;
    Some((&i[e..i.len()], t))
}

/// A CSS selector at the start of `i`, up to `boundary_hint` outside square
/// brackets (or the end): the compiled selector, or the message of a
/// selector that does not compile. Fails when it would be empty.
pub fn css_selector(boundary_hint: u8, i: &[u8]) -> (r: Option<(&[u8], Result<CssSelector, String>)>)
    ensures
        match crate::query_parse::css_selector_at(i@, 0, boundary_hint) {
            Some((e, v)) => r matches Some((rest, t)) && rest@ == i@.skip(e) && (match t {
                Ok(sel) => Ok(sel.original@),
                Err(m) => Err(m@),
            }) == v,
            None => r is None,
        },
{
    let (e, t) = crate::query_parse::css_selector_from(i, 0, boundary_hint)?;
    Some((&i[e..i.len()], t))
}

/// Keywords, a quoted string, whitespace and `;` at the start of `i`: the
/// string's bytes.
pub fn string_directive<'a>(directive_tags: &[&[u8]], i: &'a [u8]) -> (r: Option<(&'a [u8], Vec<u8>)>)
    ensures
        match crate::directive_parse::string_directive_at(i@, 0, tag_views(directive_tags@)) {
            Some((e, v)) => r matches Some((rest, t)) && rest@ == i@.skip(e) && t@ == v,
            None => r is None,
        },
{
    let (e, t) = crate::directive_parse::string_directive_from(i, 0, directive_tags)?;
    Some((&i[e..i.len()], t))
}

/// Keywords, then `;`, at the start of `i`.
pub fn flag_directive<'a>(directive_tags: &[&[u8]], i: &'a [u8]) -> (r: Option<(&'a [u8], ())>)
    ensures
        match crate::directive_parse::flag_directive_at(i@, 0, tag_views(directive_tags@)) {
            Some(e) => r matches Some((rest, _)) && rest@ == i@.skip(e),
            None => r is None,
        },
{
    let e = crate::directive_parse::flag_directive_from(i, 0, directive_tags)?;
    Some((&i[e..i.len()], ()))
}

/// `import <quoted path>;` at the start of `i`: the module it imports.
pub fn module(i: &[u8]) -> (r: Option<(&[u8], Result<crate::items::Module, String>)>)
    ensures
        match crate::directive_parse::module_at(i@, 0) {
            Some((e, v)) => r matches Some((rest, t)) && rest@ == i@.skip(e) && (match t {
                Ok(m) => Ok(m.path@),
                Err(m) => Err(m@),
            }) == v,
            None => r is None,
        },
{
    let (e, t) = crate::directive_parse::module_from(i, 0)?;
    let t = match t {
        Ok(path) => Ok(crate::items::Module { path }),
        Err(m) => Err(m),
    };
    Some((&i[e..i.len()], t))
}

/// A transformer expression at the start of `i`: transformers, each followed
/// by whitespace, as many as there are.
pub fn transformer_expression(i: &[u8]) -> (r: Option<(&[u8], Result<crate::expressions::TransformerExpression, String>)>)
    ensures
        match crate::expr_parse::expression_at(i@, 0) {
            Some((e, v)) => r matches Some((rest, t)) && rest@ == i@.skip(e) && (match t {
                Ok(te) => Ok(crate::expressions::transformers_view(te.transformers@)),
                Err(m) => Err(m@),
            }) == v,
            None => r is None,
        },
{
    let (e, t) = crate::expr_parse::transformer_expression_from(i, 0)?;
    Some((&i[e..i.len()], t))
}

/// The pattern `parsed`, compiled; or the message with which it is refused.
pub fn regex(parsed: &str) -> (r: Result<ComparableRegex, String>)
    ensures
        regex_result_view(r) == (match regex_error(parsed@) {
            None => Ok::<Seq<char>, Seq<char>>(parsed@),
            Some(e) => Err(e),
        }),
{
    match compile_regex(parsed) {
        Ok(re) => Ok(ComparableRegex { regex: re, source: String::from_str(parsed) }),
        Err(e) => Err(e),
    }
}

} // verus!
