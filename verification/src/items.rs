//! The items of a directives file: seeds, boundaries, imports, rule sets and
//! variable settings, with the literal values that settings hold.
use vstd::prelude::*;

use crate::expressions::{
    AggregatorExpression, AggregatorExpressionV, ComparableRegex, CssSelector, Float, FloatV,
    float_view, aggregator_expression_view,
};

verus! {

/// A literal value in a directives file, as JSON holds it: a string, an
/// integer (non-negative ones are `PosInt`), a finite floating-point number,
/// an array, or `Null` (what a number that is not finite becomes).
#[derive(Debug, PartialEq)]
pub enum Literal {
    Null,
    String(String),
    PosInt(u64),
    NegInt(i64),
    Float(Float),
    Array(Vec<Literal>),
}

/// The mathematical value of a [`Literal`].
pub enum LiteralV {
    Null,
    String(Seq<char>),
    PosInt(u64),
    NegInt(i64),
    Float(FloatV),
    Array(Seq<LiteralV>),
}

pub open spec fn literal_view(l: Literal) -> LiteralV
    decreases l,
{
    match l {
        Literal::Null => LiteralV::Null,
        Literal::String(s) => LiteralV::String(s@),
        Literal::PosInt(n) => LiteralV::PosInt(n),
        Literal::NegInt(n) => LiteralV::NegInt(n),
        Literal::Float(f) => LiteralV::Float(float_view(f)),
        Literal::Array(xs) => LiteralV::Array(literals_view(xs@)),
    }
}

pub open spec fn literals_view(xs: Seq<Literal>) -> Seq<LiteralV>
    decreases xs,
{
    if xs.len() == 0 {
        Seq::empty()
    } else {
        literals_view(xs.drop_last()).push(literal_view(xs.last()))
    }
}

pub proof fn lemma_literals_view_push(xs: Seq<Literal>, x: Literal)
    ensures
        literals_view(xs.push(x)) == literals_view(xs).push(literal_view(x)),
{
    assert(xs.push(x).drop_last() =~= xs);
}

/// The view of a list of literals has one item per literal, each its view.
pub proof fn lemma_literals_view_index(xs: Seq<Literal>, k: int)
    requires
        0 <= k < xs.len(),
    ensures
        literals_view(xs).len() == xs.len(),
        literals_view(xs)[k] == literal_view(xs[k]),
    decreases xs.len(),
{
    if k < xs.len() - 1 {
        lemma_literals_view_index(xs.drop_last(), k);
    } else {
        lemma_literals_view_len(xs.drop_last());
    }
}

/// The view of a list of literals is as long as the list.
pub proof fn lemma_literals_view_len(xs: Seq<Literal>)
    ensures
        literals_view(xs).len() == xs.len(),
    decreases xs.len(),
{
    if xs.len() > 0 {
        lemma_literals_view_len(xs.drop_last());
    }
}

/// A rule that bounds the crawl.
#[derive(Debug)]
pub enum Boundary {
    Allowed(ComparableRegex),
    Disallowed(ComparableRegex),
    Frontier(ComparableRegex),
    UseParam(String),
    IgnoreParam(String),
    UseAllParams,
}

/// The mathematical value of a [`Boundary`]: patterns as their text.
pub enum BoundaryV {
    Allowed(Seq<char>),
    Disallowed(Seq<char>),
    Frontier(Seq<char>),
    UseParam(Seq<char>),
    IgnoreParam(Seq<char>),
    UseAllParams,
}

pub open spec fn boundary_view(b: Boundary) -> BoundaryV {
    match b {
        Boundary::Allowed(r) => BoundaryV::Allowed(r.source@),
        Boundary::Disallowed(r) => BoundaryV::Disallowed(r.source@),
        Boundary::Frontier(r) => BoundaryV::Frontier(r.source@),
        Boundary::UseParam(p) => BoundaryV::UseParam(p@),
        Boundary::IgnoreParam(p) => BoundaryV::IgnoreParam(p@),
        Boundary::UseAllParams => BoundaryV::UseAllParams,
    }
}

/// An import of another module, by its dotted path.
#[derive(Debug, PartialEq)]
pub struct Module {
    pub path: String,
}

/// A setting of a variable to a literal value.
#[derive(Debug, PartialEq)]
pub struct SetVariable {
    pub name: String,
    pub value: Literal,
}

/// The mathematical value of a [`SetVariable`].
pub struct SetVariableV {
    pub name: Seq<char>,
    pub value: LiteralV,
}

pub open spec fn set_variable_view(v: SetVariable) -> SetVariableV {
    SetVariableV { name: v.name@, value: literal_view(v.value) }
}

/// A set of named rules, applied to the elements that a selector picks on
/// the pages whose address the `in_page` pattern matches (on every page
/// when there is none). No two rules have the same name.
#[derive(Debug)]
pub struct RuleSet {
    pub in_page: Option<ComparableRegex>,
    pub selector: CssSelector,
    pub aggregators: Vec<(String, AggregatorExpression)>,
}

/// The mathematical value of a [`RuleSet`]: patterns and the selector as
/// their text.
pub struct RuleSetV {
    pub in_page: Option<Seq<char>>,
    pub selector: Seq<char>,
    pub aggregators: Seq<(Seq<char>, AggregatorExpressionV)>,
}

pub open spec fn rules_view(rules: Seq<(String, AggregatorExpression)>) -> Seq<
    (Seq<char>, AggregatorExpressionV),
> {
    rules.map_values(|r: (String, AggregatorExpression)| (r.0@, aggregator_expression_view(r.1)))
}

pub open spec fn rule_set_view(r: RuleSet) -> RuleSetV {
    RuleSetV {
        in_page: match r.in_page {
            Some(re) => Some(re.source@),
            None => None,
        },
        selector: r.selector.original@,
        aggregators: rules_view(r.aggregators@),
    }
}

/// No two rules of the list have the same name.
pub open spec fn distinct_names<X>(rules: Seq<(Seq<char>, X)>) -> bool {
    forall|a: int, b: int|
        0 <= a < b < rules.len() ==> #[trigger] rules[a].0 != #[trigger] rules[b].0
}

impl RuleSet {
    /// Its rules have distinct names.
    pub open spec fn wf(&self) -> bool {
        distinct_names(rules_view(self.aggregators@))
    }
}

/// A top-level item of a directives file. A seed is held as the text of the
/// address it was parsed into.
#[derive(Debug)]
pub enum Item {
    Seed(String),
    Boundary(Boundary),
    Module(Module),
    RuleSet(RuleSet),
    SetVariable(SetVariable),
}

/// The mathematical value of an [`Item`].
pub enum ItemV {
    Seed(Seq<char>),
    Boundary(BoundaryV),
    Module(Seq<char>),
    RuleSet(RuleSetV),
    SetVariable(SetVariableV),
}

pub open spec fn item_view(i: Item) -> ItemV {
    match i {
        Item::Seed(u) => ItemV::Seed(u@),
        Item::Boundary(b) => ItemV::Boundary(boundary_view(b)),
        Item::Module(m) => ItemV::Module(m.path@),
        Item::RuleSet(r) => ItemV::RuleSet(rule_set_view(r)),
        Item::SetVariable(v) => ItemV::SetVariable(set_variable_view(v)),
    }
}

pub open spec fn items_view(items: Seq<Item>) -> Seq<ItemV> {
    items.map_values(|i: Item| item_view(i))
}

} // verus!
