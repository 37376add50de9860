//! The expression language of the directives: transformers, extractors and
//! aggregators, how each is written, and the types they produce.
use vstd::prelude::*;
use vstd::string::StringExecFns;

use crate::types::Type;
use crate::outside::push_char;

verus! {

#[verifier::external_type_specification]
#[verifier::external_body]
pub struct ExRegex(regex::Regex);

#[verifier::external_type_specification]
#[verifier::external_body]
pub struct ExSelector(scraper::Selector);

/// What `format!("{:?}", s)` writes for a string slice: the string quoted,
/// with its special characters escaped.
pub uninterp spec fn str_debug_text(s: Seq<char>) -> Seq<char>;

/// `format!("{:?}", s)`: the quoted, escaped form of a string. The contract
/// only names the result.
#[verifier::external_body]
pub(crate) fn debug_text(s: &str) -> (r: String)
    ensures
        r@ == str_debug_text(s@),
{
    format!("{:?}", s)
}

/// A compiled CSS selector together with the text it was compiled from.
#[derive(Debug, PartialEq)]
pub struct CssSelector {
    pub selector: scraper::Selector,
    pub original: String,
}

/// A compiled regular expression together with the pattern it was compiled
/// from. Two of them are equal when their patterns are.
#[derive(Debug)]
pub struct ComparableRegex {
    pub regex: regex::Regex,
    pub source: String,
}

impl PartialEq for ComparableRegex {
    fn eq(&self, other: &ComparableRegex) -> (r: bool) {
        self.source == other.source
    }
}

impl vstd::std_specs::cmp::PartialEqSpecImpl for ComparableRegex {
    open spec fn obeys_eq_spec() -> bool {
        true
    }

    open spec fn eq_spec(&self, other: &ComparableRegex) -> bool {
        self.source@ == other.source@
    }
}

/// A floating-point number: its IEEE-754 bits, and how it is displayed.
#[derive(Debug, PartialEq)]
pub struct Float {
    pub bits: u64,
    pub text: String,
}

/// A step of a transformer expression.
#[derive(Debug, PartialEq)]
pub enum Transformer {
    IsNull,
    IsNotNull,
    Hash,
    Not,
    AsNumber,
    GreaterThan(Float),
    LesserThan(Float),
    GreaterOrEqual(Float),
    LesserOrEqual(Float),
    Between(Float, Float),
    Equals(Float),
    In(Vec<Float>),
    Length,
    IsEmpty,
    Get(String),
    GetIdx(usize),
    Flatten,
    Each(TransformerExpression),
    Filter(TransformerExpression),
    Any(TransformerExpression),
    All(TransformerExpression),
    Sort,
    SortBy(TransformerExpression),
    AsString,
    Pretty,
    EqualsString(String),
    InStrings(Vec<String>),
    Capture(ComparableRegex),
    AllCaptures(ComparableRegex),
    Matches(ComparableRegex),
    Replace(ComparableRegex, String),
}

/// Transformers applied one after the other.
#[derive(Debug, PartialEq)]
pub struct TransformerExpression {
    pub transformers: Vec<Transformer>,
}

/// What is read from an HTML element.
#[derive(Debug, PartialEq)]
pub enum Extractor {
    Name,
    Text,
    Html,
    InnerHtml,
    Attr(String),
    Attrs,
    Classes,
    Id,
    Parent(Box<ExtractorExpression>),
    Children(Box<ExtractorExpression>),
    SelectAny(Box<ExtractorExpression>, CssSelector),
    SelectAll(Box<ExtractorExpression>, CssSelector),
}

/// An extractor followed by transformers.
#[derive(Debug, PartialEq)]
pub struct ExtractorExpression {
    pub extractor: Extractor,
    pub transformer_expression: TransformerExpression,
}

/// An extractor expression whose array results may be spread out.
#[derive(Debug, PartialEq)]
pub struct ExplodingExtractorExpression {
    pub explodes: bool,
    pub extractor_expression: ExtractorExpression,
}

/// How the values extracted from the selected elements are combined.
#[derive(Debug, PartialEq)]
pub enum Aggregator {
    Count,
    CountNotNull(ExplodingExtractorExpression),
    First(ExplodingExtractorExpression),
    Collect(ExplodingExtractorExpression),
    Distinct(ExplodingExtractorExpression),
    Sum(ExplodingExtractorExpression),
    Group(ExplodingExtractorExpression, Box<AggregatorExpression>),
}

/// An aggregator followed by transformers.
#[derive(Debug, PartialEq)]
pub struct AggregatorExpression {
    pub aggregator: Aggregator,
    pub transformer_expression: TransformerExpression,
}

/// A type error in an expression.
#[derive(Debug)]
pub enum Error {
    TypeError(String, Type),
    ExpectedType { thing: String, got: Type, expected: Type },
    NotExpectedType { thing: String, not_expected: Type },
}

/// The mathematical value of an [`Error`].
pub enum ErrorView {
    TypeError(Seq<char>, Type),
    ExpectedType { thing: Seq<char>, got: Type, expected: Type },
    NotExpectedType { thing: Seq<char>, not_expected: Type },
}

impl View for Error {
    type V = ErrorView;

    open spec fn view(&self) -> ErrorView {
        match self {
            Error::TypeError(thing, t) => ErrorView::TypeError(thing@, *t),
            Error::ExpectedType { thing, got, expected } => ErrorView::ExpectedType {
                thing: thing@,
                got: *got,
                expected: *expected,
            },
            Error::NotExpectedType { thing, not_expected } => ErrorView::NotExpectedType {
                thing: thing@,
                not_expected: *not_expected,
            },
        }
    }
}

/// The decimal digits of `n`.
pub open spec fn decimal_text(n: nat) -> Seq<char>
    decreases n,
{
    if n < 10 {
        seq![(n + 48) as char]
    } else {
        decimal_text(n / 10).push(((n % 10) + 48) as char)
    }
}

/// `items` joined by `sep`.
pub open spec fn join_texts(items: Seq<Seq<char>>, sep: Seq<char>) -> Seq<char>
    decreases items.len(),
{
    if items.len() == 0 {
        Seq::empty()
    } else if items.len() == 1 {
        items[0]
    } else {
        join_texts(items.drop_last(), sep) + sep + items.last()
    }
}

/// How a list of strings is written by `{:?}`: `["a", "b"]`.
pub open spec fn strings_debug_text(items: Seq<String>) -> Seq<char> {
    "["@ + join_texts(items.map_values(|s: String| str_debug_text(s@)), ", "@) + "]"@
}

/// How a list of numbers is written in an `in [...]` transformer.
pub open spec fn floats_text(items: Seq<Float>) -> Seq<char> {
    join_texts(items.map_values(|n: Float| n.text@), ", "@)
}

/// How a transformer is written.
pub open spec fn transformer_text(t: Transformer) -> Seq<char>
    decreases t,
{
    match t {
        Transformer::IsNull => "is-null"@,
        Transformer::IsNotNull => "is-not-null"@,
        Transformer::Hash => "hash"@,
        Transformer::Not => "not"@,
        Transformer::AsNumber => "as-number"@,
        Transformer::GreaterThan(n) => "greater-than "@ + n.text@,
        Transformer::LesserThan(n) => "lesser-than "@ + n.text@,
        Transformer::GreaterOrEqual(n) => "greater-or-equal "@ + n.text@,
        Transformer::LesserOrEqual(n) => "lesser-or-equal "@ + n.text@,
        Transformer::Between(low, high) => "between "@ + low.text@ + " and "@ + high.text@,
        Transformer::Equals(n) => "equals "@ + n.text@,
        Transformer::In(nums) => "in ["@ + floats_text(nums@) + "]"@,
        Transformer::Length => "length"@,
        Transformer::IsEmpty => "is-empty"@,
        Transformer::Get(key) => "get "@ + str_debug_text(key@),
        Transformer::GetIdx(idx) => "get "@ + decimal_text(idx as nat),
        Transformer::Flatten => "flatten"@,
        Transformer::Each(inner) => "each("@ + transformers_text(inner.transformers@) + ")"@,
        Transformer::Filter(inner) => "filter("@ + transformers_text(inner.transformers@) + ")"@,
        Transformer::Any(inner) => "any("@ + transformers_text(inner.transformers@) + ")"@,
        Transformer::All(inner) => "all("@ + transformers_text(inner.transformers@) + ")"@,
        Transformer::Sort => "sort"@,
        Transformer::SortBy(inner) => "sort-by("@ + transformers_text(inner.transformers@) + ")"@,
        Transformer::AsString => "as-string"@,
        Transformer::Pretty => "pretty"@,
        Transformer::EqualsString(s) => "equals "@ + str_debug_text(s@),
        Transformer::InStrings(ss) => "in "@ + strings_debug_text(ss@),
        Transformer::Capture(r) => "capture "@ + str_debug_text(r.source@),
        Transformer::AllCaptures(r) => "all-captures "@ + str_debug_text(r.source@),
        Transformer::Matches(r) => "matches "@ + str_debug_text(r.source@),
        Transformer::Replace(r, replacer) => "replace Regex("@ + str_debug_text(r.source@)
            + ") with "@ + str_debug_text(replacer@),
    }
}

/// How a sequence of transformers is written: separated by single spaces.
pub open spec fn transformers_text(ts: Seq<Transformer>) -> Seq<char>
    decreases ts,
{
    if ts.len() == 0 {
        Seq::empty()
    } else if ts.len() == 1 {
        transformer_text(ts[0])
    } else {
        transformers_text(ts.drop_last()) + " "@ + transformer_text(ts.last())
    }
}


/// The decimal digits of `n`.
pub fn decimal_string(n: usize) -> (r: String)
    ensures
        r@ == decimal_text(n as nat),
    decreases n,
{
    if n < 10 {
        let mut r = String::new();
        push_char(&mut r, ((n as u8) + 48u8) as char);
        r
    } else {
        let mut r = decimal_string(n / 10);
        push_char(&mut r, (((n % 10) as u8) + 48u8) as char);
        r
    }
}

/// How a list of strings is written by `{:?}`.
fn strings_debug_string(items: &Vec<String>) -> (r: String)
    ensures
        r@ == strings_debug_text(items@),
{
    let ghost texts = items@.map_values(|s: String| str_debug_text(s@));
    let mut joined = String::new();
    let mut k: usize = 0;
    while k < items.len()
        invariant
            k <= items@.len(),
            texts == items@.map_values(|s: String| str_debug_text(s@)),
            joined@ == join_texts(texts.take(k as int), ", "@),
        decreases items.len() - k,
    {
        assert(texts.take(k + 1).drop_last() =~= texts.take(k as int));
        let item = debug_text(items[k].as_str());
        if k > 0 {
            joined.append(", ");
        } else {
            assert(texts.take(1) =~= seq![texts[0]]);
        }
        joined.append(item.as_str());
        k = k + 1;
    }
    assert(texts.take(k as int) =~= texts);
    let mut r = String::from_str("[");
    r.append(joined.as_str());
    r.append("]");
    r
}

/// How a list of numbers is written in an `in [...]` transformer.
fn floats_string(items: &Vec<Float>) -> (r: String)
    ensures
        r@ == floats_text(items@),
{
    let ghost texts = items@.map_values(|n: Float| n.text@);
    let mut joined = String::new();
    let mut k: usize = 0;
    while k < items.len()
        invariant
            k <= items@.len(),
            texts == items@.map_values(|n: Float| n.text@),
            joined@ == join_texts(texts.take(k as int), ", "@),
        decreases items.len() - k,
    {
        assert(texts.take(k + 1).drop_last() =~= texts.take(k as int));
        if k > 0 {
            joined.append(", ");
        } else {
            assert(texts.take(1) =~= seq![texts[0]]);
        }
        joined.append(items[k].text.as_str());
        k = k + 1;
    }
    assert(texts.take(k as int) =~= texts);
    joined
}

/// `prefix` + `rest`.
fn concat2(prefix: &str, rest: &str) -> (r: String)
    ensures
        r@ == prefix@ + rest@,
{
    let mut r = String::from_str(prefix);
    r.append(rest);
    r
}

/// `prefix` + `middle` + `suffix`.
fn concat3(prefix: &str, middle: &str, suffix: &str) -> (r: String)
    ensures
        r@ == prefix@ + middle@ + suffix@,
{
    let mut r = String::from_str(prefix);
    r.append(middle);
    r.append(suffix);
    r
}

impl Transformer {
    /// How this transformer is written.
    pub fn to_text(&self) -> (r: String)
        ensures
            r@ == transformer_text(*self),
        decreases self,
    {
        match self {
            Transformer::IsNull => String::from_str("is-null"),
            Transformer::IsNotNull => String::from_str("is-not-null"),
            Transformer::Hash => String::from_str("hash"),
            Transformer::Not => String::from_str("not"),
            Transformer::AsNumber => String::from_str("as-number"),
            Transformer::GreaterThan(n) => concat2("greater-than ", n.text.as_str()),
            Transformer::LesserThan(n) => concat2("lesser-than ", n.text.as_str()),
            Transformer::GreaterOrEqual(n) => concat2("greater-or-equal ", n.text.as_str()),
            Transformer::LesserOrEqual(n) => concat2("lesser-or-equal ", n.text.as_str()),
            Transformer::Between(low, high) => {
                let mut r = concat3("between ", low.text.as_str(), " and ");
                r.append(high.text.as_str());
                r
            },
            Transformer::Equals(n) => concat2("equals ", n.text.as_str()),
            Transformer::In(nums) => {
                let inner = floats_string(nums);
                concat3("in [", inner.as_str(), "]")
            },
            Transformer::Length => String::from_str("length"),
            Transformer::IsEmpty => String::from_str("is-empty"),
            Transformer::Get(key) => {
                let k = debug_text(key.as_str());
                concat2("get ", k.as_str())
            },
            Transformer::GetIdx(idx) => {
                let k = decimal_string(*idx);
                concat2("get ", k.as_str())
            },
            Transformer::Flatten => String::from_str("flatten"),
            Transformer::Each(inner) => {
                let t = inner.to_text();
                concat3("each(", t.as_str(), ")")
            },
            Transformer::Filter(inner) => {
                let t = inner.to_text();
                concat3("filter(", t.as_str(), ")")
            },
            Transformer::Any(inner) => {
                let t = inner.to_text();
                concat3("any(", t.as_str(), ")")
            },
            Transformer::All(inner) => {
                let t = inner.to_text();
                concat3("all(", t.as_str(), ")")
            },
            Transformer::Sort => String::from_str("sort"),
            Transformer::SortBy(inner) => {
                let t = inner.to_text();
                concat3("sort-by(", t.as_str(), ")")
            },
            Transformer::AsString => String::from_str("as-string"),
            Transformer::Pretty => String::from_str("pretty"),
            Transformer::EqualsString(text) => {
                let t = debug_text(text.as_str());
                concat2("equals ", t.as_str())
            },
            Transformer::InStrings(texts) => {
                let t = strings_debug_string(texts);
                concat2("in ", t.as_str())
            },
            Transformer::Capture(r) => {
                let t = debug_text(r.source.as_str());
                concat2("capture ", t.as_str())
            },
            Transformer::AllCaptures(r) => {
                let t = debug_text(r.source.as_str());
                concat2("all-captures ", t.as_str())
            },
            Transformer::Matches(r) => {
                let t = debug_text(r.source.as_str());
                concat2("matches ", t.as_str())
            },
            Transformer::Replace(r, replacer) => {
                let t = debug_text(r.source.as_str());
                let mut out = concat3("replace Regex(", t.as_str(), ") with ");
                let u = debug_text(replacer.as_str());
                out.append(u.as_str());
                out
            },
        }
    }
}

impl TransformerExpression {
    /// Whether there is no transformer.
    pub fn is_empty(&self) -> (r: bool)
        ensures
            r == (self.transformers@.len() == 0),
    {
        self.transformers.len() == 0
    }

    /// How this expression is written: its transformers separated by spaces.
    pub fn to_text(&self) -> (r: String)
        ensures
            r@ == transformers_text(self.transformers@),
        decreases self,
    {
        let ts = &self.transformers;
        let mut out = String::new();
        let mut k: usize = 0;
        while k < ts.len()
            invariant
                k <= ts@.len(),
                ts == &self.transformers,
                out@ == transformers_text(ts@.take(k as int)),
            decreases ts.len() - k,
        {
            proof {
                assert(decreases_to!(self => self.transformers));
                assert(decreases_to!(self.transformers => self.transformers@));
                assert(decreases_to!(self.transformers@ => self.transformers@[k as int]));
            }
            assert(ts@.take(k + 1).drop_last() =~= ts@.take(k as int));
            let t = ts[k].to_text();
            if k > 0 {
                out.append(" ");
            } else {
                assert(ts@.take(1) =~= seq![ts@[0]]);
            }
            out.append(t.as_str());
            k = k + 1;
        }
        assert(ts@.take(k as int) =~= ts@);
        out
    }
}


/// How an attribute name is quoted in an `attr` extractor: each quote is
/// preceded by a backslash.
pub open spec fn escape_quotes(s: Seq<char>) -> Seq<char>
    decreases s.len(),
{
    if s.len() == 0 {
        Seq::empty()
    } else if s.last() == '"' {
        escape_quotes(s.drop_last()) + seq!['\\', '"']
    } else {
        escape_quotes(s.drop_last()).push(s.last())
    }
}

/// How an extractor is written. A selector is written as its source text.
pub open spec fn extractor_text(e: Extractor) -> Seq<char>
    decreases e,
{
    match e {
        Extractor::Name => "name"@,
        Extractor::Text => "text"@,
        Extractor::Html => "html"@,
        Extractor::InnerHtml => "inner-html"@,
        Extractor::Attr(attr) => "attr \""@ + str_debug_text(escape_quotes(attr@)) + "\""@,
        Extractor::Attrs => "attrs"@,
        Extractor::Classes => "classes"@,
        Extractor::Id => "id"@,
        Extractor::Parent(p) => "parent("@ + extractor_expression_text(*p) + ")"@,
        Extractor::Children(c) => "children("@ + extractor_expression_text(*c) + ")"@,
        Extractor::SelectAny(e, sel) => "select-any("@ + extractor_expression_text(*e) + ", "@
            + sel.original@ + ")"@,
        Extractor::SelectAll(e, sel) => "select-any("@ + extractor_expression_text(*e) + ", "@
            + sel.original@ + ")"@,
    }
}

/// How an extractor expression is written.
pub open spec fn extractor_expression_text(e: ExtractorExpression) -> Seq<char>
    decreases e,
{
    if e.transformer_expression.transformers@.len() == 0 {
        extractor_text(e.extractor)
    } else {
        extractor_text(e.extractor) + " "@ + transformers_text(e.transformer_expression.transformers@)
    }
}

/// How an exploding extractor expression is written.
pub open spec fn exploding_text(e: ExplodingExtractorExpression) -> Seq<char> {
    if e.explodes {
        extractor_expression_text(e.extractor_expression) + " !explode"@
    } else {
        extractor_expression_text(e.extractor_expression)
    }
}

/// How an aggregator is written.
pub open spec fn aggregator_text(a: Aggregator) -> Seq<char>
    decreases a,
{
    match a {
        Aggregator::Count => "count"@,
        Aggregator::CountNotNull(e) => "count("@ + exploding_text(e) + ")"@,
        Aggregator::First(e) => "first("@ + exploding_text(e) + ")"@,
        Aggregator::Collect(e) => "collect("@ + exploding_text(e) + ")"@,
        Aggregator::Distinct(e) => "distinct("@ + exploding_text(e) + ")"@,
        Aggregator::Sum(e) => "sum("@ + exploding_text(e) + ")"@,
        Aggregator::Group(e, a) => "group("@ + exploding_text(e) + ", "@ + aggregator_expression_text(*a)
            + ")"@,
    }
}

/// How an aggregator expression is written.
pub open spec fn aggregator_expression_text(a: AggregatorExpression) -> Seq<char>
    decreases a,
{
    if a.transformer_expression.transformers@.len() == 0 {
        aggregator_text(a.aggregator)
    } else {
        aggregator_text(a.aggregator) + " "@ + transformers_text(a.transformer_expression.transformers@)
    }
}

/// The type a transformer yields for an input of type `input`, or the error.
pub open spec fn transformer_type(t: Transformer, input: Type) -> Result<Type, ErrorView>
    decreases t,
{
    let type_error = Err(ErrorView::TypeError(transformer_text(t), input));
    match t {
        Transformer::IsNull => Ok(Type::Bool),
        Transformer::IsNotNull => Ok(Type::Bool),
        Transformer::Hash => if input is String { Ok(Type::Number) } else { type_error },
        Transformer::Not => if input is Bool { Ok(Type::Bool) } else { type_error },
        Transformer::AsNumber => if input is String { Ok(Type::Number) } else { type_error },
        Transformer::GreaterThan(_) | Transformer::LesserThan(_) | Transformer::GreaterOrEqual(_)
        | Transformer::LesserOrEqual(_) | Transformer::Between(_, _) | Transformer::Equals(_)
        | Transformer::In(_) => if input is Number { Ok(Type::Bool) } else { type_error },
        Transformer::Length => match input {
            Type::String | Type::Array(_) | Type::Mapping(_) => Ok(Type::Number),
            _ => type_error,
        },
        Transformer::IsEmpty => match input {
            Type::String | Type::Array(_) | Type::Mapping(_) => Ok(Type::Bool),
            _ => type_error,
        },
        Transformer::Get(_) => match input {
            Type::Mapping(inner) => Ok(*inner),
            _ => type_error,
        },
        Transformer::GetIdx(_) => match input {
            Type::Array(inner) => Ok(*inner),
            _ => type_error,
        },
        Transformer::Flatten => match input {
            Type::Array(inner) => if *inner is Array { Ok(*inner) } else { type_error },
            _ => type_error,
        },
        Transformer::Each(e) => match input {
            Type::Array(inner) => match transformers_type(e.transformers@, *inner) {
                Ok(typ) => Ok(Type::Array(Box::new(typ))),
                Err(err) => Err(err),
            },
            Type::Mapping(inner) => match transformers_type(e.transformers@, *inner) {
                Ok(typ) => Ok(Type::Mapping(Box::new(typ))),
                Err(err) => Err(err),
            },
            _ => type_error,
        },
        Transformer::Filter(e) => match input {
            Type::Array(inner) | Type::Mapping(inner) => match transformers_type(e.transformers@, *inner) {
                Ok(typ) => if typ is Bool {
                    Ok(input)
                } else {
                    Err(ErrorView::ExpectedType {
                        thing: transformers_text(e.transformers@),
                        got: typ,
                        expected: Type::Bool,
                    })
                },
                Err(err) => Err(err),
            },
            _ => type_error,
        },
        Transformer::Any(e) | Transformer::All(e) => match input {
            Type::Array(inner) => match transformers_type(e.transformers@, *inner) {
                Ok(typ) => if typ is Bool {
                    Ok(Type::Bool)
                } else {
                    Err(ErrorView::ExpectedType {
                        thing: transformers_text(e.transformers@),
                        got: typ,
                        expected: Type::Bool,
                    })
                },
                Err(err) => Err(err),
            },
            _ => type_error,
        },
        Transformer::Sort => match input {
            Type::Array(inner) => if !(*inner is Mapping) { Ok(input) } else { type_error },
            _ => type_error,
        },
        Transformer::SortBy(e) => match input {
            Type::Array(inner) => match transformers_type(e.transformers@, *inner) {
                Ok(typ) => if !(typ is Mapping) {
                    Ok(input)
                } else {
                    Err(ErrorView::NotExpectedType {
                        thing: transformers_text(e.transformers@),
                        not_expected: typ,
                    })
                },
                Err(err) => Err(err),
            },
            _ => type_error,
        },
        Transformer::AsString => match input {
            Type::Number | Type::Bool | Type::String => Ok(Type::String),
            _ => type_error,
        },
        Transformer::Pretty => if input is String { Ok(Type::String) } else { type_error },
        Transformer::EqualsString(_) | Transformer::InStrings(_) | Transformer::Matches(_) =>
            if input is String { Ok(Type::Bool) } else { type_error },
        Transformer::Capture(_) => if input is String {
            Ok(Type::Mapping(Box::new(Type::String)))
        } else {
            type_error
        },
        Transformer::AllCaptures(_) => if input is String {
            Ok(Type::Array(Box::new(Type::Mapping(Box::new(Type::String)))))
        } else {
            type_error
        },
        Transformer::Replace(_, _) => if input is String { Ok(Type::String) } else { type_error },
    }
}

/// The type a sequence of transformers yields, applied left to right, or the
/// first error.
pub open spec fn transformers_type(ts: Seq<Transformer>, input: Type) -> Result<Type, ErrorView>
    decreases ts,
{
    if ts.len() == 0 {
        Ok(input)
    } else {
        match transformers_type(ts.drop_last(), input) {
            Ok(typ) => transformer_type(ts.last(), typ),
            Err(err) => Err(err),
        }
    }
}


/// The type an extractor yields, or the error.
pub open spec fn extractor_type(e: Extractor) -> Result<Type, ErrorView>
    decreases e,
{
    match e {
        Extractor::Name | Extractor::Html | Extractor::InnerHtml | Extractor::Text
        | Extractor::Attr(_) | Extractor::Id => Ok(Type::String),
        Extractor::Attrs => Ok(Type::Mapping(Box::new(Type::String))),
        Extractor::Classes => Ok(Type::Array(Box::new(Type::String))),
        Extractor::Parent(p) => extractor_expression_type(*p),
        Extractor::Children(c) => match extractor_expression_type(*c) {
            Ok(t) => Ok(Type::Array(Box::new(t))),
            Err(err) => Err(err),
        },
        Extractor::SelectAny(e, _) => extractor_expression_type(*e),
        Extractor::SelectAll(e, _) => match extractor_expression_type(*e) {
            Ok(t) => Ok(Type::Array(Box::new(t))),
            Err(err) => Err(err),
        },
    }
}

/// The type an extractor expression yields, or the error.
pub open spec fn extractor_expression_type(e: ExtractorExpression) -> Result<Type, ErrorView>
    decreases e,
{
    match extractor_type(e.extractor) {
        Ok(t) => transformers_type(e.transformer_expression.transformers@, t),
        Err(err) => Err(err),
    }
}

/// The type of each value an exploding extractor expression yields: with
/// `!explode`, the element type of the array it extracts.
pub open spec fn exploding_type(e: ExplodingExtractorExpression) -> Result<Type, ErrorView> {
    match extractor_expression_type(e.extractor_expression) {
        Ok(raw) => if e.explodes {
            match raw {
                Type::Array(inner) => Ok(*inner),
                _ => Err(ErrorView::TypeError("!explode"@, raw)),
            }
        } else {
            Ok(raw)
        },
        Err(err) => Err(err),
    }
}

/// The type an aggregator yields, or the error.
pub open spec fn aggregator_type(a: Aggregator) -> Result<Type, ErrorView>
    decreases a,
{
    match a {
        Aggregator::Count => Ok(Type::Number),
        Aggregator::CountNotNull(e) => match exploding_type(e) {
            Ok(t) => if t is Bool {
                Ok(Type::Number)
            } else {
                Err(ErrorView::TypeError(aggregator_text(a), t))
            },
            Err(err) => Err(err),
        },
        Aggregator::First(e) => exploding_type(e),
        Aggregator::Collect(e) | Aggregator::Distinct(e) => match exploding_type(e) {
            Ok(t) => Ok(Type::Array(Box::new(t))),
            Err(err) => Err(err),
        },
        Aggregator::Sum(e) => match exploding_type(e) {
            Ok(t) => if t is Number {
                Ok(Type::Number)
            } else {
                Err(ErrorView::TypeError(aggregator_text(a), t))
            },
            Err(err) => Err(err),
        },
        Aggregator::Group(e, inner) => match exploding_type(e) {
            Ok(et) => match aggregator_expression_type(*inner) {
                Ok(at) => if et is String {
                    Ok(Type::Mapping(Box::new(at)))
                } else {
                    Err(ErrorView::TypeError(aggregator_text(a), et))
                },
                Err(err) => Err(err),
            },
            Err(err) => Err(err),
        },
    }
}

/// The type an aggregator expression yields, or the error.
pub open spec fn aggregator_expression_type(a: AggregatorExpression) -> Result<Type, ErrorView>
    decreases a,
{
    match aggregator_type(a.aggregator) {
        Ok(t) => transformers_type(a.transformer_expression.transformers@, t),
        Err(err) => Err(err),
    }
}

/// An error in a prefix of the transformers is the error of the whole.
proof fn lemma_transformers_type_error(ts: Seq<Transformer>, j: int, input: Type)
    requires
        0 <= j <= ts.len(),
        transformers_type(ts.take(j), input) is Err,
    ensures
        transformers_type(ts, input) == transformers_type(ts.take(j), input),
    decreases ts.len(),
{
    if j < ts.len() {
        assert(ts.drop_last().take(j) =~= ts.take(j));
        lemma_transformers_type_error(ts.drop_last(), j, input);
    } else {
        assert(ts.take(j) =~= ts);
    }
}

/// The mathematical value of a typing outcome.
pub open spec fn typing_view(r: Result<Type, Error>) -> Result<Type, ErrorView> {
    match r {
        Ok(t) => Ok(t),
        Err(e) => Err(e@),
    }
}

impl Transformer {
    fn type_error(&self, input: &Type) -> (r: Error)
        ensures
            r@ == ErrorView::TypeError(transformer_text(*self), *input),
    {
        Error::TypeError(self.to_text(), input.clone())
    }

    /// The type this transformer yields for an input of type `input`.
    pub fn type_for(&self, input: &Type) -> (r: Result<Type, Error>)
        ensures
            typing_view(r) == transformer_type(*self, *input),
        decreases self,
    {
        match self {
            Transformer::IsNull | Transformer::IsNotNull => Ok(Type::Bool),
            Transformer::Hash | Transformer::AsNumber => match input {
                Type::String => Ok(Type::Number),
                _ => Err(self.type_error(input)),
            },
            Transformer::Not => match input {
                Type::Bool => Ok(Type::Bool),
                _ => Err(self.type_error(input)),
            },
            Transformer::GreaterThan(_) | Transformer::LesserThan(_)
            | Transformer::GreaterOrEqual(_) | Transformer::LesserOrEqual(_)
            | Transformer::Between(_, _) | Transformer::Equals(_) | Transformer::In(_) => match input {
                Type::Number => Ok(Type::Bool),
                _ => Err(self.type_error(input)),
            },
            Transformer::Length => match input {
                Type::String | Type::Array(_) | Type::Mapping(_) => Ok(Type::Number),
                _ => Err(self.type_error(input)),
            },
            Transformer::IsEmpty => match input {
                Type::String | Type::Array(_) | Type::Mapping(_) => Ok(Type::Bool),
                _ => Err(self.type_error(input)),
            },
            Transformer::Get(_) => match input {
                Type::Mapping(inner) => Ok((**inner).clone()),
                _ => Err(self.type_error(input)),
            },
            Transformer::GetIdx(_) => match input {
                Type::Array(inner) => Ok((**inner).clone()),
                _ => Err(self.type_error(input)),
            },
            Transformer::Flatten => match input {
                Type::Array(inner) => match &**inner {
                    Type::Array(_) => Ok((**inner).clone()),
                    _ => Err(self.type_error(input)),
                },
                _ => Err(self.type_error(input)),
            },
            Transformer::Each(e) => match input {
                Type::Array(inner) => {
                    let t = e.type_for(&**inner)?;
                    Ok(Type::Array(Box::new(t)))
                },
                Type::Mapping(inner) => {
                    let t = e.type_for(&**inner)?;
                    Ok(Type::Mapping(Box::new(t)))
                },
                _ => Err(self.type_error(input)),
            },
            Transformer::Filter(e) => match input {
                Type::Array(inner) | Type::Mapping(inner) => {
                    let t = e.type_for(&**inner)?;
                    match t {
                        Type::Bool => Ok(input.clone()),
                        _ => Err(e.expected(&Type::Bool, &t)),
                    }
                },
                _ => Err(self.type_error(input)),
            },
            Transformer::Any(e) | Transformer::All(e) => match input {
                Type::Array(inner) => {
                    let t = e.type_for(&**inner)?;
                    match t {
                        Type::Bool => Ok(Type::Bool),
                        _ => Err(e.expected(&Type::Bool, &t)),
                    }
                },
                _ => Err(self.type_error(input)),
            },
            Transformer::Sort => match input {
                Type::Array(inner) => if !inner.is_map() {
                    Ok(input.clone())
                } else {
                    Err(self.type_error(input))
                },
                _ => Err(self.type_error(input)),
            },
            Transformer::SortBy(e) => match input {
                Type::Array(inner) => {
                    let t = e.type_for(&**inner)?;
                    if !t.is_map() {
                        Ok(input.clone())
                    } else {
                        Err(e.not_expected(&t))
                    }
                },
                _ => Err(self.type_error(input)),
            },
            Transformer::AsString => match input {
                Type::Number | Type::Bool | Type::String => Ok(Type::String),
                _ => Err(self.type_error(input)),
            },
            Transformer::Pretty | Transformer::Replace(_, _) => match input {
                Type::String => Ok(Type::String),
                _ => Err(self.type_error(input)),
            },
            Transformer::EqualsString(_) | Transformer::InStrings(_) | Transformer::Matches(_) =>
                match input {
                Type::String => Ok(Type::Bool),
                _ => Err(self.type_error(input)),
            },
            Transformer::Capture(_) => match input {
                Type::String => Ok(Type::Mapping(Box::new(Type::String))),
                _ => Err(self.type_error(input)),
            },
            Transformer::AllCaptures(_) => match input {
                Type::String => Ok(Type::Array(Box::new(Type::Mapping(Box::new(Type::String))))),
                _ => Err(self.type_error(input)),
            },
        }
    }
}

impl TransformerExpression {
    fn expected(&self, expected: &Type, got: &Type) -> (r: Error)
        ensures
            r@ == (ErrorView::ExpectedType {
                thing: transformers_text(self.transformers@),
                got: *got,
                expected: *expected,
            }),
    {
        Error::ExpectedType { thing: self.to_text(), expected: expected.clone(), got: got.clone() }
    }

    fn not_expected(&self, not_expected: &Type) -> (r: Error)
        ensures
            r@ == (ErrorView::NotExpectedType {
                thing: transformers_text(self.transformers@),
                not_expected: *not_expected,
            }),
    {
        Error::NotExpectedType { thing: self.to_text(), not_expected: not_expected.clone() }
    }

    /// The type this expression yields for an input of type `input`: each
    /// transformer in turn, stopping at the first error.
    pub fn type_for(&self, input: &Type) -> (r: Result<Type, Error>)
        ensures
            typing_view(r) == transformers_type(self.transformers@, *input),
        decreases self,
    {
        let ts = &self.transformers;
        let mut typ = input.clone();
        let mut k: usize = 0;
        assert(ts@.take(0) =~= Seq::<Transformer>::empty());
        while k < ts.len()
            invariant
                k <= ts@.len(),
                ts == &self.transformers,
                transformers_type(ts@.take(k as int), *input) == Ok::<Type, ErrorView>(typ),
            decreases ts.len() - k,
        {
            proof {
                assert(decreases_to!(self => self.transformers));
                assert(decreases_to!(self.transformers => self.transformers@));
                assert(decreases_to!(self.transformers@ => self.transformers@[k as int]));
            }
            assert(ts@.take(k + 1).drop_last() =~= ts@.take(k as int));
            match ts[k].type_for(&typ) {
                Ok(t) => {
                    typ = t;
                },
                Err(e) => {
                    proof {
                        lemma_transformers_type_error(ts@, k + 1, *input);
                    }
                    return Err(e);
                },
            }
            k = k + 1;
        }
        assert(ts@.take(k as int) =~= ts@);
        Ok(typ)
    }
}


/// Puts a backslash before each quote of `s`.
fn escape_quotes_string(s: &str) -> (r: String)
    ensures
        r@ == escape_quotes(s@),
{
    let mut out = String::new();
    let ghost mut seen: Seq<char> = Seq::empty();
    for c in it: s.chars()
        invariant
            it.seq() == s@,
            seen == s@.take(it.index() as int),
            out@ == escape_quotes(seen),
    {
        proof {
            assert(s@.take(it.index() + 1) =~= seen.push(c));
            assert(seen.push(c).drop_last() =~= seen);
        }
        if c == '"' {
            push_char(&mut out, '\\');
            push_char(&mut out, '"');
            assert(out@ =~= escape_quotes(seen.push(c)));
        } else {
            push_char(&mut out, c);
        }
        proof {
            seen = seen.push(c);
        }
    }
    proof {
        assert(seen =~= s@);
    }
    out
}

impl Extractor {
    /// How this extractor is written.
    pub fn to_text(&self) -> (r: String)
        ensures
            r@ == extractor_text(*self),
        decreases self,
    {
        match self {
            Extractor::Name => String::from_str("name"),
            Extractor::Text => String::from_str("text"),
            Extractor::Html => String::from_str("html"),
            Extractor::InnerHtml => String::from_str("inner-html"),
            Extractor::Attr(attr) => {
                let escaped = escape_quotes_string(attr.as_str());
                let d = debug_text(escaped.as_str());
                concat3("attr \"", d.as_str(), "\"")
            },
            Extractor::Attrs => String::from_str("attrs"),
            Extractor::Classes => String::from_str("classes"),
            Extractor::Id => String::from_str("id"),
            Extractor::Parent(p) => {
                let t = (**p).to_text();
                concat3("parent(", t.as_str(), ")")
            },
            Extractor::Children(c) => {
                let t = (**c).to_text();
                concat3("children(", t.as_str(), ")")
            },
            Extractor::SelectAny(e, sel) | Extractor::SelectAll(e, sel) => {
                let t = (**e).to_text();
                let mut r = concat3("select-any(", t.as_str(), ", ");
                r.append(sel.original.as_str());
                r.append(")");
                r
            },
        }
    }

    /// The type this extractor yields.
    pub fn type_of(&self) -> (r: Result<Type, Error>)
        ensures
            typing_view(r) == extractor_type(*self),
        decreases self,
    {
        match self {
            Extractor::Name | Extractor::Html | Extractor::InnerHtml | Extractor::Text
            | Extractor::Attr(_) | Extractor::Id => Ok(Type::String),
            Extractor::Attrs => Ok(Type::Mapping(Box::new(Type::String))),
            Extractor::Classes => Ok(Type::Array(Box::new(Type::String))),
            Extractor::Parent(p) => (**p).type_of(),
            Extractor::Children(c) => {
                let t = (**c).type_of()?;
                Ok(Type::Array(Box::new(t)))
            },
            Extractor::SelectAny(e, _) => (**e).type_of(),
            Extractor::SelectAll(e, _) => {
                let t = (**e).type_of()?;
                Ok(Type::Array(Box::new(t)))
            },
        }
    }
}

impl ExtractorExpression {
    /// How this expression is written.
    pub fn to_text(&self) -> (r: String)
        ensures
            r@ == extractor_expression_text(*self),
        decreases self,
    {
        let e = self.extractor.to_text();
        if self.transformer_expression.is_empty() {
            e
        } else {
            let t = self.transformer_expression.to_text();
            concat3(e.as_str(), " ", t.as_str())
        }
    }

    /// The type this expression yields.
    pub fn type_of(&self) -> (r: Result<Type, Error>)
        ensures
            typing_view(r) == extractor_expression_type(*self),
        decreases self,
    {
        let t = self.extractor.type_of()?;
        self.transformer_expression.type_for(&t)
    }
}

impl ExplodingExtractorExpression {
    /// How this expression is written.
    pub fn to_text(&self) -> (r: String)
        ensures
            r@ == exploding_text(*self),
    {
        let e = self.extractor_expression.to_text();
        if self.explodes {
            concat2(e.as_str(), " !explode")
        } else {
            e
        }
    }

    /// The type of each value this expression yields.
    pub fn type_of(&self) -> (r: Result<Type, Error>)
        ensures
            typing_view(r) == exploding_type(*self),
    {
        let raw = self.extractor_expression.type_of()?;
        if self.explodes {
            match raw {
                Type::Array(inner) => Ok(*inner),
                _ => Err(Error::TypeError(String::from_str("!explode"), raw)),
            }
        } else {
            Ok(raw)
        }
    }
}

impl Aggregator {
    /// How this aggregator is written.
    pub fn to_text(&self) -> (r: String)
        ensures
            r@ == aggregator_text(*self),
        decreases self,
    {
        match self {
            Aggregator::Count => String::from_str("count"),
            Aggregator::CountNotNull(e) => {
                let t = e.to_text();
                concat3("count(", t.as_str(), ")")
            },
            Aggregator::First(e) => {
                let t = e.to_text();
                concat3("first(", t.as_str(), ")")
            },
            Aggregator::Collect(e) => {
                let t = e.to_text();
                concat3("collect(", t.as_str(), ")")
            },
            Aggregator::Distinct(e) => {
                let t = e.to_text();
                concat3("distinct(", t.as_str(), ")")
            },
            Aggregator::Sum(e) => {
                let t = e.to_text();
                concat3("sum(", t.as_str(), ")")
            },
            Aggregator::Group(e, a) => {
                let t = e.to_text();
                let u = (**a).to_text();
                let mut r = concat3("group(", t.as_str(), ", ");
                r.append(u.as_str());
                r.append(")");
                r
            },
        }
    }

    fn type_error(&self, input: Type) -> (r: Error)
        ensures
            r@ == ErrorView::TypeError(aggregator_text(*self), input),
    {
        Error::TypeError(self.to_text(), input)
    }

    /// The type this aggregator yields.
    pub fn type_of(&self) -> (r: Result<Type, Error>)
        ensures
            typing_view(r) == aggregator_type(*self),
        decreases self,
    {
        match self {
            Aggregator::Count => Ok(Type::Number),
            Aggregator::CountNotNull(e) => {
                let t = e.type_of()?;
                match t {
                    Type::Bool => Ok(Type::Number),
                    _ => Err(self.type_error(t)),
                }
            },
            Aggregator::First(e) => e.type_of(),
            Aggregator::Collect(e) | Aggregator::Distinct(e) => {
                let t = e.type_of()?;
                Ok(Type::Array(Box::new(t)))
            },
            Aggregator::Sum(e) => {
                let t = e.type_of()?;
                match t {
                    Type::Number => Ok(Type::Number),
                    _ => Err(self.type_error(t)),
                }
            },
            Aggregator::Group(e, a) => {
                let et = e.type_of()?;
                let at = (**a).type_of()?;
                match et {
                    Type::String => Ok(Type::Mapping(Box::new(at))),
                    _ => Err(self.type_error(et)),
                }
            },
        }
    }
}

impl AggregatorExpression {
    /// How this expression is written.
    pub fn to_text(&self) -> (r: String)
        ensures
            r@ == aggregator_expression_text(*self),
        decreases self,
    {
        let a = self.aggregator.to_text();
        if self.transformer_expression.is_empty() {
            a
        } else {
            let t = self.transformer_expression.to_text();
            concat3(a.as_str(), " ", t.as_str())
        }
    }

    /// The type this expression yields.
    pub fn type_of(&self) -> (r: Result<Type, Error>)
        ensures
            typing_view(r) == aggregator_expression_type(*self),
        decreases self,
    {
        let t = self.aggregator.type_of()?;
        self.transformer_expression.type_for(&t)
    }
}


/// How a type error is reported.
pub open spec fn error_text(e: ErrorView) -> Seq<char> {
    match e {
        ErrorView::TypeError(thing, t) => "type error: no type for `"@ + thing + "` of `"@
            + crate::types::type_chars(t) + "`"@,
        ErrorView::ExpectedType { thing, got, expected } => "type error: expected "@
            + crate::types::type_chars(expected) + " for "@ + thing + " and got "@
            + crate::types::type_chars(got),
        ErrorView::NotExpectedType { thing, not_expected } => "type error: not expected "@
            + crate::types::type_chars(not_expected) + " for "@ + thing,
    }
}

impl Error {
    /// How the error is reported.
    pub fn to_text(&self) -> (r: String)
        ensures
            r@ == error_text(self@),
    {
        match self {
            Error::TypeError(thing, t) => {
                let mut r = String::from_str("type error: no type for `");
                r.append(thing.as_str());
                r.append("` of `");
                let tt = t.to_string();
                r.append(tt.as_str());
                r.append("`");
                r
            },
            Error::ExpectedType { thing, got, expected } => {
                let mut r = String::from_str("type error: expected ");
                let e = expected.to_string();
                r.append(e.as_str());
                r.append(" for ");
                r.append(thing.as_str());
                r.append(" and got ");
                let g = got.to_string();
                r.append(g.as_str());
                r
            },
            Error::NotExpectedType { thing, not_expected } => {
                let mut r = String::from_str("type error: not expected ");
                let n = not_expected.to_string();
                r.append(n.as_str());
                r.append(" for ");
                r.append(thing.as_str());
                r
            },
        }
    }
}

/// The mathematical value of a [`Float`]: its bits and its text.
pub type FloatV = (u64, Seq<char>);

/// The mathematical value of a [`Transformer`]: strings as character
/// sequences, a regular expression as its pattern.
pub enum TransformerV {
    IsNull,
    IsNotNull,
    Hash,
    Not,
    AsNumber,
    GreaterThan(FloatV),
    LesserThan(FloatV),
    GreaterOrEqual(FloatV),
    LesserOrEqual(FloatV),
    Between(FloatV, FloatV),
    Equals(FloatV),
    In(Seq<FloatV>),
    Length,
    IsEmpty,
    Get(Seq<char>),
    GetIdx(usize),
    Flatten,
    Each(Seq<TransformerV>),
    Filter(Seq<TransformerV>),
    Any(Seq<TransformerV>),
    All(Seq<TransformerV>),
    Sort,
    SortBy(Seq<TransformerV>),
    AsString,
    Pretty,
    EqualsString(Seq<char>),
    InStrings(Seq<Seq<char>>),
    Capture(Seq<char>),
    AllCaptures(Seq<char>),
    Matches(Seq<char>),
    Replace(Seq<char>, Seq<char>),
}

pub open spec fn float_view(f: Float) -> FloatV {
    (f.bits, f.text@)
}

pub open spec fn transformer_view(t: Transformer) -> TransformerV
    decreases t,
{
    match t {
        Transformer::IsNull => TransformerV::IsNull,
        Transformer::IsNotNull => TransformerV::IsNotNull,
        Transformer::Hash => TransformerV::Hash,
        Transformer::Not => TransformerV::Not,
        Transformer::AsNumber => TransformerV::AsNumber,
        Transformer::GreaterThan(n) => TransformerV::GreaterThan(float_view(n)),
        Transformer::LesserThan(n) => TransformerV::LesserThan(float_view(n)),
        Transformer::GreaterOrEqual(n) => TransformerV::GreaterOrEqual(float_view(n)),
        Transformer::LesserOrEqual(n) => TransformerV::LesserOrEqual(float_view(n)),
        Transformer::Between(l, h) => TransformerV::Between(float_view(l), float_view(h)),
        Transformer::Equals(n) => TransformerV::Equals(float_view(n)),
        Transformer::In(ns) => TransformerV::In(ns@.map_values(|n: Float| float_view(n))),
        Transformer::Length => TransformerV::Length,
        Transformer::IsEmpty => TransformerV::IsEmpty,
        Transformer::Get(k) => TransformerV::Get(k@),
        Transformer::GetIdx(i) => TransformerV::GetIdx(i),
        Transformer::Flatten => TransformerV::Flatten,
        Transformer::Each(e) => TransformerV::Each(transformers_view(e.transformers@)),
        Transformer::Filter(e) => TransformerV::Filter(transformers_view(e.transformers@)),
        Transformer::Any(e) => TransformerV::Any(transformers_view(e.transformers@)),
        Transformer::All(e) => TransformerV::All(transformers_view(e.transformers@)),
        Transformer::Sort => TransformerV::Sort,
        Transformer::SortBy(e) => TransformerV::SortBy(transformers_view(e.transformers@)),
        Transformer::AsString => TransformerV::AsString,
        Transformer::Pretty => TransformerV::Pretty,
        Transformer::EqualsString(t) => TransformerV::EqualsString(t@),
        Transformer::InStrings(ts) => TransformerV::InStrings(ts@.map_values(|t: String| t@)),
        Transformer::Capture(r) => TransformerV::Capture(r.source@),
        Transformer::AllCaptures(r) => TransformerV::AllCaptures(r.source@),
        Transformer::Matches(r) => TransformerV::Matches(r.source@),
        Transformer::Replace(r, t) => TransformerV::Replace(r.source@, t@),
    }
}

pub open spec fn transformers_view(ts: Seq<Transformer>) -> Seq<TransformerV>
    decreases ts,
{
    if ts.len() == 0 {
        Seq::empty()
    } else {
        transformers_view(ts.drop_last()).push(transformer_view(ts.last()))
    }
}

/// The mathematical value of an [`Extractor`]: a selector as its source.
pub enum ExtractorV {
    Name,
    Text,
    Html,
    InnerHtml,
    Attr(Seq<char>),
    Attrs,
    Classes,
    Id,
    Parent(Box<ExtractorExpressionV>),
    Children(Box<ExtractorExpressionV>),
    SelectAny(Box<ExtractorExpressionV>, Seq<char>),
    SelectAll(Box<ExtractorExpressionV>, Seq<char>),
}

pub struct ExtractorExpressionV {
    pub extractor: ExtractorV,
    pub transformers: Seq<TransformerV>,
}

pub struct ExplodingV {
    pub explodes: bool,
    pub extractor_expression: ExtractorExpressionV,
}

pub enum AggregatorV {
    Count,
    CountNotNull(ExplodingV),
    First(ExplodingV),
    Collect(ExplodingV),
    Distinct(ExplodingV),
    Sum(ExplodingV),
    Group(ExplodingV, Box<AggregatorExpressionV>),
}

pub struct AggregatorExpressionV {
    pub aggregator: AggregatorV,
    pub transformers: Seq<TransformerV>,
}

pub open spec fn extractor_view(e: Extractor) -> ExtractorV
    decreases e,
{
    match e {
        Extractor::Name => ExtractorV::Name,
        Extractor::Text => ExtractorV::Text,
        Extractor::Html => ExtractorV::Html,
        Extractor::InnerHtml => ExtractorV::InnerHtml,
        Extractor::Attr(a) => ExtractorV::Attr(a@),
        Extractor::Attrs => ExtractorV::Attrs,
        Extractor::Classes => ExtractorV::Classes,
        Extractor::Id => ExtractorV::Id,
        Extractor::Parent(p) => ExtractorV::Parent(Box::new(extractor_expression_view(*p))),
        Extractor::Children(c) => ExtractorV::Children(Box::new(extractor_expression_view(*c))),
        Extractor::SelectAny(e, sel) => ExtractorV::SelectAny(
            Box::new(extractor_expression_view(*e)),
            sel.original@,
        ),
        Extractor::SelectAll(e, sel) => ExtractorV::SelectAll(
            Box::new(extractor_expression_view(*e)),
            sel.original@,
        ),
    }
}

pub open spec fn extractor_expression_view(e: ExtractorExpression) -> ExtractorExpressionV
    decreases e,
{
    ExtractorExpressionV {
        extractor: extractor_view(e.extractor),
        transformers: transformers_view(e.transformer_expression.transformers@),
    }
}

pub open spec fn exploding_view(e: ExplodingExtractorExpression) -> ExplodingV {
    ExplodingV {
        explodes: e.explodes,
        extractor_expression: extractor_expression_view(e.extractor_expression),
    }
}

pub open spec fn aggregator_view(a: Aggregator) -> AggregatorV
    decreases a,
{
    match a {
        Aggregator::Count => AggregatorV::Count,
        Aggregator::CountNotNull(e) => AggregatorV::CountNotNull(exploding_view(e)),
        Aggregator::First(e) => AggregatorV::First(exploding_view(e)),
        Aggregator::Collect(e) => AggregatorV::Collect(exploding_view(e)),
        Aggregator::Distinct(e) => AggregatorV::Distinct(exploding_view(e)),
        Aggregator::Sum(e) => AggregatorV::Sum(exploding_view(e)),
        Aggregator::Group(e, a) => AggregatorV::Group(
            exploding_view(e),
            Box::new(aggregator_expression_view(*a)),
        ),
    }
}

pub open spec fn aggregator_expression_view(a: AggregatorExpression) -> AggregatorExpressionV
    decreases a,
{
    AggregatorExpressionV {
        aggregator: aggregator_view(a.aggregator),
        transformers: transformers_view(a.transformer_expression.transformers@),
    }
}

} // verus!
