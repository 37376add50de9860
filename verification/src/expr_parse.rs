//! The grammar of expressions: transformers, extractors and aggregators,
//! over the UTF-8 bytes of the source text.
//!
//! Each rule is a spec function from a position to where the rule ends and
//! what it yields, and an executable function that computes exactly that.
//! Values are `Ok` when well formed; an `Err` holds the message of a value
//! that parsed but cannot be built (a bad regular expression, say).
use vstd::prelude::*;
use vstd::string::StringExecFns;

use crate::expressions::{
    AggregatorExpressionV, AggregatorV, ComparableRegex, CssSelector, ExplodingV,
    ExtractorExpressionV, ExtractorV, Float, FloatV, TransformerV, Transformer,
    TransformerExpression, Extractor, ExtractorExpression, ExplodingExtractorExpression,
    Aggregator, AggregatorExpression, float_view, transformer_view, transformers_view,
    extractor_view, extractor_expression_view, exploding_view, aggregator_view,
    aggregator_expression_view,
};
use crate::lexical::{
    has_tag, whitespace_end, lemma_whitespace_end, skip_whitespace, tag_at, quoted_end,
    unescape, lemma_quoted_end, quoted_at,
};
use crate::outside::{
    utf8_text, nom_double, float_text, parse_double, regex_error, compile_regex,
    selector_error, compile_selector,
};

verus! {

broadcast use vstd::seq::group_seq_axioms;

/// `is-null`
pub const KW_IS_NULL: [u8; 7] = [105u8, 115u8, 45u8, 110u8, 117u8, 108u8, 108u8];

/// `is-not-null`
pub const KW_IS_NOT_NULL: [u8; 11] = [105u8, 115u8, 45u8, 110u8, 111u8, 116u8, 45u8, 110u8, 117u8, 108u8, 108u8];

/// `hash`
pub const KW_HASH: [u8; 4] = [104u8, 97u8, 115u8, 104u8];

/// `not`
pub const KW_NOT: [u8; 3] = [110u8, 111u8, 116u8];

/// `as-number`
pub const KW_AS_NUMBER: [u8; 9] = [97u8, 115u8, 45u8, 110u8, 117u8, 109u8, 98u8, 101u8, 114u8];

/// `greater-than`
pub const KW_GREATER_THAN: [u8; 12] = [103u8, 114u8, 101u8, 97u8, 116u8, 101u8, 114u8, 45u8, 116u8, 104u8, 97u8, 110u8];

/// `lesser-than`
pub const KW_LESSER_THAN: [u8; 11] = [108u8, 101u8, 115u8, 115u8, 101u8, 114u8, 45u8, 116u8, 104u8, 97u8, 110u8];

/// `greater-or-equal`
pub const KW_GREATER_OR_EQUAL: [u8; 16] = [103u8, 114u8, 101u8, 97u8, 116u8, 101u8, 114u8, 45u8, 111u8, 114u8, 45u8, 101u8, 113u8, 117u8, 97u8, 108u8];

/// `lesser-or-equal`
pub const KW_LESSER_OR_EQUAL: [u8; 15] = [108u8, 101u8, 115u8, 115u8, 101u8, 114u8, 45u8, 111u8, 114u8, 45u8, 101u8, 113u8, 117u8, 97u8, 108u8];

/// `between`
pub const KW_BETWEEN: [u8; 7] = [98u8, 101u8, 116u8, 119u8, 101u8, 101u8, 110u8];

/// `and`
pub const KW_AND: [u8; 3] = [97u8, 110u8, 100u8];

/// `equals`
pub const KW_EQUALS: [u8; 6] = [101u8, 113u8, 117u8, 97u8, 108u8, 115u8];

/// `in`
pub const KW_IN: [u8; 2] = [105u8, 110u8];

/// `[`
pub const KW_OPEN_BRACKET: [u8; 1] = [91u8];

/// `]`
pub const KW_CLOSE_BRACKET: [u8; 1] = [93u8];

/// `,`
pub const KW_COMMA: [u8; 1] = [44u8];

/// `length`
pub const KW_LENGTH: [u8; 6] = [108u8, 101u8, 110u8, 103u8, 116u8, 104u8];

/// `is-empty`
pub const KW_IS_EMPTY: [u8; 8] = [105u8, 115u8, 45u8, 101u8, 109u8, 112u8, 116u8, 121u8];

/// `get`
pub const KW_GET: [u8; 3] = [103u8, 101u8, 116u8];

/// `flatten`
pub const KW_FLATTEN: [u8; 7] = [102u8, 108u8, 97u8, 116u8, 116u8, 101u8, 110u8];

/// `each`
pub const KW_EACH: [u8; 4] = [101u8, 97u8, 99u8, 104u8];

/// `filter`
pub const KW_FILTER: [u8; 6] = [102u8, 105u8, 108u8, 116u8, 101u8, 114u8];

/// `any`
pub const KW_ANY: [u8; 3] = [97u8, 110u8, 121u8];

/// `all`
pub const KW_ALL: [u8; 3] = [97u8, 108u8, 108u8];

/// `(`
pub const KW_OPEN_PAREN: [u8; 1] = [40u8];

/// `)`
pub const KW_CLOSE_PAREN: [u8; 1] = [41u8];

/// `sort`
pub const KW_SORT: [u8; 4] = [115u8, 111u8, 114u8, 116u8];

/// `as-string`
pub const KW_AS_STRING: [u8; 9] = [97u8, 115u8, 45u8, 115u8, 116u8, 114u8, 105u8, 110u8, 103u8];

/// `pretty`
pub const KW_PRETTY: [u8; 6] = [112u8, 114u8, 101u8, 116u8, 116u8, 121u8];

/// `capture`
pub const KW_CAPTURE: [u8; 7] = [99u8, 97u8, 112u8, 116u8, 117u8, 114u8, 101u8];

/// `all-captures`
pub const KW_ALL_CAPTURES: [u8; 12] = [97u8, 108u8, 108u8, 45u8, 99u8, 97u8, 112u8, 116u8, 117u8, 114u8, 101u8, 115u8];

/// `matches`
pub const KW_MATCHES: [u8; 7] = [109u8, 97u8, 116u8, 99u8, 104u8, 101u8, 115u8];

/// `replace`
pub const KW_REPLACE: [u8; 7] = [114u8, 101u8, 112u8, 108u8, 97u8, 99u8, 101u8];

/// `with`
pub const KW_WITH: [u8; 4] = [119u8, 105u8, 116u8, 104u8];

/// `name`
pub const KW_NAME: [u8; 4] = [110u8, 97u8, 109u8, 101u8];

/// `text`
pub const KW_TEXT: [u8; 4] = [116u8, 101u8, 120u8, 116u8];

/// `html`
pub const KW_HTML: [u8; 4] = [104u8, 116u8, 109u8, 108u8];

/// `inner-html`
pub const KW_INNER_HTML: [u8; 10] = [105u8, 110u8, 110u8, 101u8, 114u8, 45u8, 104u8, 116u8, 109u8, 108u8];

/// `attrs`
pub const KW_ATTRS: [u8; 5] = [97u8, 116u8, 116u8, 114u8, 115u8];

/// `classes`
pub const KW_CLASSES: [u8; 7] = [99u8, 108u8, 97u8, 115u8, 115u8, 101u8, 115u8];

/// `id`
pub const KW_ID: [u8; 2] = [105u8, 100u8];

/// `attr`
pub const KW_ATTR: [u8; 4] = [97u8, 116u8, 116u8, 114u8];

/// `parent`
pub const KW_PARENT: [u8; 6] = [112u8, 97u8, 114u8, 101u8, 110u8, 116u8];

/// `children`
pub const KW_CHILDREN: [u8; 8] = [99u8, 104u8, 105u8, 108u8, 100u8, 114u8, 101u8, 110u8];

/// `select-any`
pub const KW_SELECT_ANY: [u8; 10] = [115u8, 101u8, 108u8, 101u8, 99u8, 116u8, 45u8, 97u8, 110u8, 121u8];

/// `select-all`
pub const KW_SELECT_ALL: [u8; 10] = [115u8, 101u8, 108u8, 101u8, 99u8, 116u8, 45u8, 97u8, 108u8, 108u8];

/// `!explode`
pub const KW_EXPLODE: [u8; 8] = [33u8, 101u8, 120u8, 112u8, 108u8, 111u8, 100u8, 101u8];

/// `count`
pub const KW_COUNT: [u8; 5] = [99u8, 111u8, 117u8, 110u8, 116u8];

/// `first`
pub const KW_FIRST: [u8; 5] = [102u8, 105u8, 114u8, 115u8, 116u8];

/// `collect`
pub const KW_COLLECT: [u8; 7] = [99u8, 111u8, 108u8, 108u8, 101u8, 99u8, 116u8];

/// `distinct`
pub const KW_DISTINCT: [u8; 8] = [100u8, 105u8, 115u8, 116u8, 105u8, 110u8, 99u8, 116u8];

/// `sum`
pub const KW_SUM: [u8; 3] = [115u8, 117u8, 109u8];

/// `group`
pub const KW_GROUP: [u8; 5] = [103u8, 114u8, 111u8, 117u8, 112u8];


/// The message for text that is not valid UTF-8.
pub open spec fn invalid_text_message() -> Seq<char> {
    "invalid UTF-8"@
}

/// The message for an index too large for `usize`, as `str::parse` gives it.
pub open spec fn too_large_message() -> Seq<char> {
    "number too large to fit in target type"@
}

/// `t`, then whitespace (comments included): where it ends.
pub open spec fn tws(s: Seq<u8>, i: int, t: Seq<u8>) -> Option<int> {
    if has_tag(s, i, t) {
        Some(whitespace_end(s, i + t.len(), true))
    } else {
        None
    }
}

/// A quoted string at `i`: where it ends and its unescaped bytes.
pub open spec fn quoted(s: Seq<u8>, i: int) -> Option<(int, Seq<u8>)> {
    match quoted_end(s, i) {
        Some(e) => Some((e, unescape(s.subrange(i + 1, e - 1)))),
        None => None,
    }
}

/// The text that bytes encode.
pub open spec fn utf8_value(b: Seq<u8>) -> Result<Seq<char>, Seq<char>> {
    if vstd::utf8::valid_utf8(b) {
        Ok(vstd::utf8::decode_utf8(b))
    } else {
        Err(invalid_text_message())
    }
}

/// A regular expression given by its bytes: its pattern if it compiles.
pub open spec fn regex_value(b: Seq<u8>) -> Result<Seq<char>, Seq<char>> {
    match utf8_value(b) {
        Ok(t) => match regex_error(t) {
            None => Ok(t),
            Some(e) => Err(e),
        },
        Err(e) => Err(e),
    }
}

/// A floating-point number at `i`, as `nom`'s `double` reads it.
pub open spec fn double_at(s: Seq<u8>, i: int) -> Option<(int, FloatV)> {
    if 0 <= i <= s.len() {
        match nom_double(s.skip(i)) {
            Some((rest, bits)) => if rest <= s.len() - i {
                Some((s.len() - rest, (bits, float_text(bits))))
            } else {
                None
            },
            None => None,
        }
    } else {
        None
    }
}

pub open spec fn is_digit(b: u8) -> bool {
    48 <= b <= 57
}

/// The first position at or after `i` that is not an ASCII digit.
pub open spec fn digits_stop(s: Seq<u8>, i: int) -> int
    decreases s.len() - i,
{
    if 0 <= i < s.len() && is_digit(s[i]) {
        digits_stop(s, i + 1)
    } else {
        i
    }
}

/// The decimal value of a run of digits.
pub open spec fn digits_value(d: Seq<u8>) -> nat
    decreases d.len(),
{
    if d.len() == 0 {
        0
    } else {
        digits_value(d.drop_last()) * 10 + (d.last() - 48) as nat
    }
}

/// The first of two alternatives that succeeds.
pub open spec fn or<X>(a: Option<X>, b: Option<X>) -> Option<X> {
    if a is Some {
        a
    } else {
        b
    }
}

pub proof fn lemma_digits_stop(s: Seq<u8>, i: int)
    requires
        0 <= i <= s.len(),
    ensures
        i <= digits_stop(s, i) <= s.len(),
        forall|k: int| i <= k < digits_stop(s, i) ==> is_digit(#[trigger] s[k]),
    decreases s.len() - i,
{
    if i < s.len() && is_digit(s[i]) {
        lemma_digits_stop(s, i + 1);
    }
}

/// `t`, then whitespace: where it ends.
pub fn tws_at(s: &[u8], i: usize, t: &[u8]) -> (r: Option<usize>)
    requires
        i <= s@.len(),
    ensures
        (match r {
            Some(j) => Some(j as int),
            None => None,
        }) == tws(s@, i as int, t@),
        r matches Some(j) ==> i + t@.len() <= j <= s@.len(),
{
    let _len = s.len();
    if tag_at(s, i, t) {
        proof {
            lemma_whitespace_end(s@, i + t@.len(), true);
        }
        Some(skip_whitespace(s, i + t.len(), true))
    } else {
        None
    }
}

/// The text that bytes encode, or the message for invalid UTF-8.
pub fn utf8_string(b: &[u8]) -> (r: Result<String, String>)
    ensures
        (match r {
            Ok(t) => Ok::<Seq<char>, Seq<char>>(t@),
            Err(e) => Err(e@),
        }) == utf8_value(b@),
{
    match utf8_text(b) {
        Some(t) => Ok(t),
        None => Err(String::from_str("invalid UTF-8")),
    }
}

/// A regular expression given by its bytes, compiled.
pub fn regex_from_bytes(b: &[u8]) -> (r: Result<ComparableRegex, String>)
    ensures
        (match r {
            Ok(re) => Ok::<Seq<char>, Seq<char>>(re.source@),
            Err(e) => Err(e@),
        }) == regex_value(b@),
{
    let pattern = utf8_string(b)?;
    match compile_regex(pattern.as_str()) {
        Ok(regex) => Ok(ComparableRegex { regex, source: pattern }),
        Err(e) => Err(e),
    }
}

/// A quoted string at `i`.
pub fn quoted_from(s: &[u8], i: usize) -> (r: Option<(usize, Vec<u8>)>)
    requires
        i <= s@.len(),
    ensures
        (match r {
            Some((e, v)) => Some((e as int, v@)),
            None => None,
        }) == quoted(s@, i as int),
        r matches Some((e, _)) ==> i < e <= s@.len(),
{
    proof {
        lemma_quoted_end(s@, i as int);
    }
    quoted_at(s, i)
}

/// A floating-point number at `i`.
pub fn double_from(s: &[u8], i: usize) -> (r: Option<(usize, Float)>)
    requires
        i <= s@.len(),
    ensures
        (match r {
            Some((e, f)) => Some((e as int, float_view(f))),
            None => None,
        }) == double_at(s@, i as int),
        r matches Some((e, _)) ==> i <= e <= s@.len(),
{
    let rest = &s[i..s.len()];
    match parse_double(rest) {
        Some((left, bits, text)) => Some((s.len() - left, Float { bits, text })),
        None => None,
    }
}

/// The end of the run of digits at `i`.
pub fn digits_from(s: &[u8], i: usize) -> (r: usize)
    requires
        i <= s@.len(),
    ensures
        r == digits_stop(s@, i as int),
{
    let mut k = i;
    while k < s.len() && 48u8 <= s[k] && s[k] <= 57u8
        invariant
            i <= k <= s@.len(),
            digits_stop(s@, k as int) == digits_stop(s@, i as int),
        decreases s.len() - k,
    {
        k = k + 1;
    }
    k
}

/// The decimal value of the digits `s[from..to]`, if it fits in `usize`.
pub fn digits_to_usize(s: &[u8], from: usize, to: usize) -> (r: Option<usize>)
    requires
        from <= to <= s@.len(),
        forall|k: int| from <= k < to ==> is_digit(#[trigger] s@[k]),
    ensures
        r matches Some(v) ==> v == digits_value(s@.subrange(from as int, to as int)),
        r is None <==> digits_value(s@.subrange(from as int, to as int)) > usize::MAX,
{
    let mut v: usize = 0;
    let mut k = from;
    assert(s@.subrange(from as int, from as int) =~= Seq::<u8>::empty());
    while k < to
        invariant
            from <= k <= to <= s@.len(),
            forall|j: int| from <= j < to ==> is_digit(#[trigger] s@[j]),
            v == digits_value(s@.subrange(from as int, k as int)),
        decreases to - k,
    {
        assert(s@.subrange(from as int, k + 1).drop_last() =~= s@.subrange(from as int, k as int));
        let d = (s[k] - 48u8) as usize;
        assert(is_digit(s@[k as int]));
        if v > (usize::MAX - d) / 10 {
            proof {
                lemma_digits_value_grows(s@, from as int, k + 1, to as int);
            }
            return None;
        }
        v = v * 10 + d;
        k = k + 1;
    }
    Some(v)
}

/// The value of a longer run of digits is at least that of its prefix.
pub proof fn lemma_digits_value_grows(s: Seq<u8>, from: int, k: int, to: int)
    requires
        0 <= from <= k <= to <= s.len(),
    ensures
        digits_value(s.subrange(from, k)) <= digits_value(s.subrange(from, to)),
    decreases to - k,
{
    if k < to {
        lemma_digits_value_grows(s, from, k, to - 1);
        assert(s.subrange(from, to).drop_last() =~= s.subrange(from, to - 1));
    }
}


/// A number after a keyword.
pub open spec fn float_arg(s: Seq<u8>, i: int, kw: Seq<u8>) -> Option<(int, FloatV)> {
    match tws(s, i, kw) {
        Some(j) => double_at(s, j),
        None => None,
    }
}

/// `between <number> and <number>`.
pub open spec fn between_arg(s: Seq<u8>, i: int) -> Option<(int, (FloatV, FloatV))> {
    match tws(s, i, KW_BETWEEN@) {
        Some(j) => match double_at(s, j) {
            Some((k, low)) => match tws(s, whitespace_end(s, k, true), KW_AND@) {
                Some(m) => match double_at(s, m) {
                    Some((n, high)) => Some((n, (low, high))),
                    None => None,
                },
                None => None,
            },
            None => None,
        },
        None => None,
    }
}

/// More numbers, each after a comma, appended to `acc`; stops before a comma
/// that no number follows.
pub open spec fn float_list_rest(s: Seq<u8>, p: int, acc: Seq<FloatV>) -> (int, Seq<FloatV>)
    decreases s.len() - p,
{
    if !(0 <= p <= s.len()) {
        (p, acc)
    } else {
        match tws(s, p, KW_COMMA@) {
            None => (p, acc),
            Some(q) => match double_at(s, q) {
                None => (p, acc),
                Some((r, y)) => {
                    proof {
                        lemma_whitespace_end(s, p + 1, true);
                    }
                    float_list_rest(s, r, acc.push(y))
                },
            },
        }
    }
}

/// A possibly empty list of numbers separated by commas.
pub open spec fn float_list(s: Seq<u8>, k: int) -> (int, Seq<FloatV>) {
    match double_at(s, k) {
        None => (k, Seq::empty()),
        Some((k1, x)) => float_list_rest(s, k1, seq![x]),
    }
}

/// `in [ <numbers> ]`.
pub open spec fn in_floats_arg(s: Seq<u8>, i: int) -> Option<(int, Seq<FloatV>)> {
    match tws(s, i, KW_IN@) {
        Some(j) => match tws(s, j, KW_OPEN_BRACKET@) {
            Some(k) => {
                let (m, xs) = float_list(s, k);
                if has_tag(s, m, KW_CLOSE_BRACKET@) {
                    Some((m + 1, xs))
                } else {
                    None
                }
            },
            None => None,
        },
        None => None,
    }
}

/// `get <digits>`: the index, or the message when it is too large.
pub open spec fn get_idx_arg(s: Seq<u8>, i: int) -> Option<(int, Result<usize, Seq<char>>)> {
    match tws(s, i, KW_GET@) {
        Some(j) => {
            let e = digits_stop(s, j);
            if e > j {
                let v = digits_value(s.subrange(j, e));
                Some((e, if v <= usize::MAX { Ok(v as usize) } else { Err(too_large_message()) }))
            } else {
                None
            }
        },
        None => None,
    }
}

/// A quoted string after a keyword.
pub open spec fn quoted_arg(s: Seq<u8>, i: int, kw: Seq<u8>) -> Option<(int, Seq<u8>)> {
    match tws(s, i, kw) {
        Some(j) => quoted(s, j),
        None => None,
    }
}

/// More quoted strings, each after a comma, appended to `acc`.
pub open spec fn quoted_list_rest(s: Seq<u8>, p: int, acc: Seq<Seq<u8>>) -> (int, Seq<Seq<u8>>)
    decreases s.len() - p,
{
    if !(0 <= p <= s.len()) {
        (p, acc)
    } else {
        match tws(s, p, KW_COMMA@) {
            None => (p, acc),
            Some(q) => match quoted(s, q) {
                None => (p, acc),
                Some((r, y)) => {
                    proof {
                        lemma_whitespace_end(s, p + 1, true);
                        lemma_quoted_end(s, q);
                    }
                    quoted_list_rest(s, r, acc.push(y))
                },
            },
        }
    }
}

/// A possibly empty list of quoted strings separated by commas.
pub open spec fn quoted_list(s: Seq<u8>, k: int) -> (int, Seq<Seq<u8>>) {
    match quoted(s, k) {
        None => (k, Seq::empty()),
        Some((k1, x)) => quoted_list_rest(s, k1, seq![x]),
    }
}

/// `in [ <quoted strings> ]`.
pub open spec fn in_strings_arg(s: Seq<u8>, i: int) -> Option<(int, Seq<Seq<u8>>)> {
    match tws(s, i, KW_IN@) {
        Some(j) => match tws(s, j, KW_OPEN_BRACKET@) {
            Some(k) => {
                let (m, xs) = quoted_list(s, k);
                if has_tag(s, m, KW_CLOSE_BRACKET@) {
                    Some((m + 1, xs))
                } else {
                    None
                }
            },
            None => None,
        },
        None => None,
    }
}

/// `replace <quoted> with <quoted>`.
pub open spec fn replace_arg(s: Seq<u8>, i: int) -> Option<(int, (Seq<u8>, Seq<u8>))> {
    match quoted_arg(s, i, KW_REPLACE@) {
        Some((e, a)) => match tws(s, whitespace_end(s, e, true), KW_WITH@) {
            Some(m) => match quoted(s, m) {
                Some((n, b)) => Some((n, (a, b))),
                None => None,
            },
            None => None,
        },
        None => None,
    }
}

/// The values of a list of texts, or the first message.
pub open spec fn utf8_values(bs: Seq<Seq<u8>>) -> Result<Seq<Seq<char>>, Seq<char>>
    decreases bs.len(),
{
    if bs.len() == 0 {
        Ok(Seq::empty())
    } else {
        match utf8_values(bs.drop_last()) {
            Ok(ts) => match utf8_value(bs.last()) {
                Ok(t) => Ok(ts.push(t)),
                Err(e) => Err(e),
            },
            Err(e) => Err(e),
        }
    }
}

/// The values of a list of results, or the first message.
pub open spec fn collect_transformers(rs: Seq<Result<TransformerV, Seq<char>>>) -> Result<
    Seq<TransformerV>,
    Seq<char>,
>
    decreases rs.len(),
{
    if rs.len() == 0 {
        Ok(Seq::empty())
    } else {
        match collect_transformers(rs.drop_last()) {
            Ok(vs) => match rs.last() {
                Ok(v) => Ok(vs.push(v)),
                Err(e) => Err(e),
            },
            Err(e) => Err(e),
        }
    }
}

/// `<keyword> ( <transformer expression> )`.
pub open spec fn nested_arg(s: Seq<u8>, i: int, kw: Seq<u8>) -> Option<
    (int, Result<Seq<TransformerV>, Seq<char>>),
>
    decreases s.len() - i, 0int,
{
    if !(0 <= i <= s.len()) || kw.len() == 0 {
        None
    } else {
        match tws(s, i, kw) {
            Some(j) => match tws(s, j, KW_OPEN_PAREN@) {
                Some(k) => {
                    proof {
                        lemma_whitespace_end(s, i + kw.len(), true);
                        lemma_whitespace_end(s, j + 1, true);
                    }
                    match expression_at(s, k) {
                        Some((m, r)) => if has_tag(s, m, KW_CLOSE_PAREN@) {
                            Some((m + 1, r))
                        } else {
                            None
                        },
                        None => None,
                    }
                },
                None => None,
            },
            None => None,
        }
    }
}

/// A keyword that is a whole transformer.
pub open spec fn keyword_alt(s: Seq<u8>, i: int, kw: Seq<u8>, v: TransformerV) -> Option<
    (int, Result<TransformerV, Seq<char>>),
> {
    if has_tag(s, i, kw) {
        Some((i + kw.len(), Ok(v)))
    } else {
        None
    }
}

/// The comparison that a keyword followed by a number stands for: `which` is
/// 0 for `greater-than`, 1 for `lesser-than`, 2 for `greater-or-equal`, 3 for
/// `lesser-or-equal` and 4 for `equals`.
pub open spec fn comparison(which: int, f: FloatV) -> TransformerV {
    if which == 0 {
        TransformerV::GreaterThan(f)
    } else if which == 1 {
        TransformerV::LesserThan(f)
    } else if which == 2 {
        TransformerV::GreaterOrEqual(f)
    } else if which == 3 {
        TransformerV::LesserOrEqual(f)
    } else {
        TransformerV::Equals(f)
    }
}

/// A comparison with a number.
pub open spec fn float_alt(s: Seq<u8>, i: int, kw: Seq<u8>, which: int) -> Option<
    (int, Result<TransformerV, Seq<char>>),
> {
    match float_arg(s, i, kw) {
        Some((e, f)) => Some((e, Ok(comparison(which, f)))),
        None => None,
    }
}

/// The transformer that a regular expression argument makes: `which` is 0
/// for `capture`, 1 for `all-captures` and 2 for `matches`.
pub open spec fn regex_transformer(which: int, p: Seq<char>) -> TransformerV {
    if which == 0 {
        TransformerV::Capture(p)
    } else if which == 1 {
        TransformerV::AllCaptures(p)
    } else {
        TransformerV::Matches(p)
    }
}

/// A transformer with a regular expression argument.
pub open spec fn regex_alt(s: Seq<u8>, i: int, kw: Seq<u8>, which: int) -> Option<
    (int, Result<TransformerV, Seq<char>>),
> {
    match quoted_arg(s, i, kw) {
        Some((e, b)) => Some((
            e,
            match regex_value(b) {
                Ok(p) => Ok(regex_transformer(which, p)),
                Err(m) => Err(m),
            },
        )),
        None => None,
    }
}

/// The transformer that a nested expression makes: `which` is 0 for `each`,
/// 1 for `filter`, 2 for `any` and 3 for `all`.
pub open spec fn nested_transformer(which: int, ts: Seq<TransformerV>) -> TransformerV {
    if which == 0 {
        TransformerV::Each(ts)
    } else if which == 1 {
        TransformerV::Filter(ts)
    } else if which == 2 {
        TransformerV::Any(ts)
    } else {
        TransformerV::All(ts)
    }
}

/// A nested transformer expression, as a transformer.
pub open spec fn nested_alt(s: Seq<u8>, i: int, kw: Seq<u8>, which: int) -> Option<
    (int, Result<TransformerV, Seq<char>>),
>
    decreases s.len() - i, 1int,
{
    match nested_arg(s, i, kw) {
        Some((e, r)) => Some((
            e,
            match r {
                Ok(ts) => Ok(nested_transformer(which, ts)),
                Err(m) => Err(m),
            },
        )),
        None => None,
    }
}

/// The first group of transformer alternatives: tests and comparisons.
pub open spec fn comparisons_at(s: Seq<u8>, i: int) -> Option<(int, Result<TransformerV, Seq<char>>)> {
    let between = match between_arg(s, i) {
        Some((e, (l, h))) => Some((e, Ok(TransformerV::Between(l, h)))),
        None => None,
    };
    let in_floats = match in_floats_arg(s, i) {
        Some((e, xs)) => Some((e, Ok(TransformerV::In(xs)))),
        None => None,
    };
    or(keyword_alt(s, i, KW_IS_NULL@, TransformerV::IsNull),
    or(keyword_alt(s, i, KW_IS_NOT_NULL@, TransformerV::IsNotNull),
    or(keyword_alt(s, i, KW_HASH@, TransformerV::Hash),
    or(keyword_alt(s, i, KW_NOT@, TransformerV::Not),
    or(keyword_alt(s, i, KW_AS_NUMBER@, TransformerV::AsNumber),
    or(float_alt(s, i, KW_GREATER_THAN@, 0),
    or(float_alt(s, i, KW_LESSER_THAN@, 1),
    or(float_alt(s, i, KW_GREATER_OR_EQUAL@, 2),
    or(float_alt(s, i, KW_LESSER_OR_EQUAL@, 3),
    or(between,
    or(float_alt(s, i, KW_EQUALS@, 4), in_floats)))))))))))
}

/// The second group of transformer alternatives: collections, and the
/// transformers that nest an expression.
pub open spec fn collections_at(s: Seq<u8>, i: int) -> Option<(int, Result<TransformerV, Seq<char>>)>
    decreases s.len() - i, 2int,
{
    let get_idx = match get_idx_arg(s, i) {
        Some((e, Ok(v))) => Some((e, Ok(TransformerV::GetIdx(v)))),
        Some((e, Err(m))) => Some((e, Err(m))),
        None => None,
    };
    let get = match quoted_arg(s, i, KW_GET@) {
        Some((e, b)) => Some((
            e,
            match utf8_value(b) {
                Ok(t) => Ok(TransformerV::Get(t)),
                Err(m) => Err(m),
            },
        )),
        None => None,
    };
    or(keyword_alt(s, i, KW_LENGTH@, TransformerV::Length),
    or(keyword_alt(s, i, KW_IS_EMPTY@, TransformerV::IsEmpty),
    or(get_idx, or(get,
    or(keyword_alt(s, i, KW_FLATTEN@, TransformerV::Flatten),
    or(nested_alt(s, i, KW_EACH@, 0), or(nested_alt(s, i, KW_FILTER@, 1),
    or(nested_alt(s, i, KW_ANY@, 2), or(nested_alt(s, i, KW_ALL@, 3),
    keyword_alt(s, i, KW_SORT@, TransformerV::Sort))))))))))
}

/// The third group of transformer alternatives: strings and regular
/// expressions.
pub open spec fn strings_at(s: Seq<u8>, i: int) -> Option<(int, Result<TransformerV, Seq<char>>)> {
    let equals_string = match quoted_arg(s, i, KW_EQUALS@) {
        Some((e, b)) => Some((
            e,
            match utf8_value(b) {
                Ok(t) => Ok(TransformerV::EqualsString(t)),
                Err(m) => Err(m),
            },
        )),
        None => None,
    };
    let in_strings = match in_strings_arg(s, i) {
        Some((e, bs)) => Some((
            e,
            match utf8_values(bs) {
                Ok(ts) => Ok(TransformerV::InStrings(ts)),
                Err(m) => Err(m),
            },
        )),
        None => None,
    };
    let replace = match replace_arg(s, i) {
        Some((e, (a, b))) => Some((
            e,
            match regex_value(a) {
                Ok(p) => match utf8_value(b) {
                    Ok(t) => Ok(TransformerV::Replace(p, t)),
                    Err(m) => Err(m),
                },
                Err(m) => Err(m),
            },
        )),
        None => None,
    };
    or(keyword_alt(s, i, KW_AS_STRING@, TransformerV::AsString),
    or(keyword_alt(s, i, KW_PRETTY@, TransformerV::Pretty),
    or(equals_string, or(in_strings,
    or(regex_alt(s, i, KW_CAPTURE@, 0), or(regex_alt(s, i, KW_ALL_CAPTURES@, 1),
    or(regex_alt(s, i, KW_MATCHES@, 2), replace)))))))
}

/// The transformer grammar: the first of its alternatives, in order, that
/// applies at `i`.
pub open spec fn transformer_at(s: Seq<u8>, i: int) -> Option<(int, Result<TransformerV, Seq<char>>)>
    decreases s.len() - i, 3int,
{
    if !(0 <= i <= s.len()) {
        None
    } else {
        or(comparisons_at(s, i), or(collections_at(s, i), strings_at(s, i)))
    }
}

/// Transformers, each followed by whitespace, as many as there are from `p`;
/// fails if one of them takes nothing.
pub open spec fn transformer_items(s: Seq<u8>, p: int) -> Option<
    (int, Seq<Result<TransformerV, Seq<char>>>),
>
    decreases s.len() - p, 4int,
{
    if !(0 <= p <= s.len()) {
        None
    } else {
        match transformer_at(s, p) {
            None => Some((p, Seq::empty())),
            Some((q, r)) => if q <= s.len() && whitespace_end(s, q, true) > p {
                proof {
                    lemma_whitespace_end(s, q, true);
                }
                match transformer_items(s, whitespace_end(s, q, true)) {
                    Some((e, rs)) => Some((e, seq![r] + rs)),
                    None => None,
                }
            } else {
                None
            },
        }
    }
}

/// The transformer-expression grammar: where it ends, and its transformers or
/// the first message.
pub open spec fn expression_at(s: Seq<u8>, k: int) -> Option<
    (int, Result<Seq<TransformerV>, Seq<char>>),
>
    decreases s.len() - k, 5int,
{
    match transformer_items(s, k) {
        Some((e, rs)) => Some((e, collect_transformers(rs))),
        None => None,
    }
}


/// The mathematical value of a parsed transformer.
pub open spec fn transformer_result_view(r: Option<(usize, Result<Transformer, String>)>) -> Option<
    (int, Result<TransformerV, Seq<char>>),
> {
    match r {
        Some((e, Ok(t))) => Some((e as int, Ok(transformer_view(t)))),
        Some((e, Err(m))) => Some((e as int, Err(m@))),
        None => None,
    }
}

/// The mathematical value of a transformer, or of the message that stands
/// in its place.
pub open spec fn outcome_view(r: Result<Transformer, String>) -> Result<TransformerV, Seq<char>> {
    match r {
        Ok(t) => Ok(transformer_view(t)),
        Err(m) => Err(m@),
    }
}

/// The mathematical value of a parsed transformer expression.
pub open spec fn expression_result_view(
    r: Option<(usize, Result<TransformerExpression, String>)>,
) -> Option<(int, Result<Seq<TransformerV>, Seq<char>>)> {
    match r {
        Some((e, Ok(t))) => Some((e as int, Ok(transformers_view(t.transformers@)))),
        Some((e, Err(m))) => Some((e as int, Err(m@))),
        None => None,
    }
}

pub open spec fn floats_view(xs: Seq<Float>) -> Seq<FloatV> {
    xs.map_values(|f: Float| float_view(f))
}

pub open spec fn byte_strings_view(bs: Seq<Vec<u8>>) -> Seq<Seq<u8>> {
    bs.map_values(|b: Vec<u8>| b@)
}

fn float_arg_from(s: &[u8], i: usize, kw: &[u8]) -> (r: Option<(usize, Float)>)
    requires
        i <= s@.len(),
    ensures
        (match r {
            Some((e, f)) => Some((e as int, float_view(f))),
            None => None,
        }) == float_arg(s@, i as int, kw@),
        r matches Some((e, _)) ==> i <= e <= s@.len(),
{
    match tws_at(s, i, kw) {
        Some(j) => double_from(s, j),
        None => None,
    }
}

fn between_from(s: &[u8], i: usize) -> (r: Option<(usize, (Float, Float))>)
    requires
        i <= s@.len(),
    ensures
        (match r {
            Some((e, (l, h))) => Some((e as int, (float_view(l), float_view(h)))),
            None => None,
        }) == between_arg(s@, i as int),
        r matches Some((e, _)) ==> i <= e <= s@.len(),
{
    let j = tws_at(s, i, &KW_BETWEEN)?;
    let (k, low) = double_from(s, j)?;
    let k2 = skip_whitespace(s, k, true);
    let m = tws_at(s, k2, &KW_AND)?;
    let (n, high) = double_from(s, m)?;
    Some((n, (low, high)))
}

fn float_list_from(s: &[u8], k: usize) -> (r: (usize, Vec<Float>))
    requires
        k <= s@.len(),
    ensures
        (r.0 as int, floats_view(r.1@)) == float_list(s@, k as int),
        k <= r.0 <= s@.len(),
{
    let mut acc: Vec<Float> = Vec::new();
    match double_from(s, k) {
        None => {
            assert(floats_view(acc@) =~= Seq::<FloatV>::empty());
            (k, acc)
        },
        Some((k1, x)) => {
            acc.push(x);
            assert(floats_view(acc@) =~= seq![float_view(x)]);
            let mut p = k1;
            loop
                invariant
                    k <= p <= s@.len(),
                    float_list_rest(s@, p as int, floats_view(acc@)) == float_list(s@, k as int),
                decreases s.len() - p,
            {
                let q = match tws_at(s, p, &KW_COMMA) {
                    Some(q) => q,
                    None => {
                        return (p, acc);
                    },
                };
                match double_from(s, q) {
                    None => {
                        return (p, acc);
                    },
                    Some((r, y)) => {
                        let ghost before = floats_view(acc@);
                        acc.push(y);
                        assert(floats_view(acc@) =~= before.push(float_view(y)));
                        p = r;
                    },
                }
            }
        },
    }
}

fn in_floats_from(s: &[u8], i: usize) -> (r: Option<(usize, Vec<Float>)>)
    requires
        i <= s@.len(),
    ensures
        (match r {
            Some((e, xs)) => Some((e as int, floats_view(xs@))),
            None => None,
        }) == in_floats_arg(s@, i as int),
        r matches Some((e, _)) ==> i <= e <= s@.len(),
{
    let j = tws_at(s, i, &KW_IN)?;
    let k = tws_at(s, j, &KW_OPEN_BRACKET)?;
    let (m, xs) = float_list_from(s, k);
    let _len = s.len();
    if tag_at(s, m, &KW_CLOSE_BRACKET) {
        assert(KW_CLOSE_BRACKET@.len() == 1);
        Some((m + 1, xs))
    } else {
        None
    }
}

fn get_idx_from(s: &[u8], i: usize) -> (r: Option<(usize, Result<usize, String>)>)
    requires
        i <= s@.len(),
    ensures
        (match r {
            Some((e, Ok(v))) => Some((e as int, Ok::<usize, Seq<char>>(v))),
            Some((e, Err(m))) => Some((e as int, Err(m@))),
            None => None,
        }) == get_idx_arg(s@, i as int),
        r matches Some((e, _)) ==> i <= e <= s@.len(),
{
    let j = tws_at(s, i, &KW_GET)?;
    let e = digits_from(s, j);
    proof {
        lemma_digits_stop(s@, j as int);
    }
    if e > j {
        match digits_to_usize(s, j, e) {
            Some(v) => Some((e, Ok(v))),
            None => Some((e, Err(String::from_str("number too large to fit in target type")))),
        }
    } else {
        None
    }
}

pub fn quoted_arg_from(s: &[u8], i: usize, kw: &[u8]) -> (r: Option<(usize, Vec<u8>)>)
    requires
        i <= s@.len(),
    ensures
        (match r {
            Some((e, b)) => Some((e as int, b@)),
            None => None,
        }) == quoted_arg(s@, i as int, kw@),
        r matches Some((e, _)) ==> i <= e <= s@.len(),
{
    match tws_at(s, i, kw) {
        Some(j) => quoted_from(s, j),
        None => None,
    }
}

fn quoted_list_from(s: &[u8], k: usize) -> (r: (usize, Vec<Vec<u8>>))
    requires
        k <= s@.len(),
    ensures
        (r.0 as int, byte_strings_view(r.1@)) == quoted_list(s@, k as int),
        k <= r.0 <= s@.len(),
{
    let mut acc: Vec<Vec<u8>> = Vec::new();
    match quoted_from(s, k) {
        None => {
            assert(byte_strings_view(acc@) =~= Seq::<Seq<u8>>::empty());
            (k, acc)
        },
        Some((k1, x)) => {
            let ghost xv = x@;
            acc.push(x);
            assert(byte_strings_view(acc@) =~= seq![xv]);
            let mut p = k1;
            loop
                invariant
                    k <= p <= s@.len(),
                    quoted_list_rest(s@, p as int, byte_strings_view(acc@)) == quoted_list(
                        s@,
                        k as int,
                    ),
                decreases s.len() - p,
            {
                let q = match tws_at(s, p, &KW_COMMA) {
                    Some(q) => q,
                    None => {
                        return (p, acc);
                    },
                };
                match quoted_from(s, q) {
                    None => {
                        return (p, acc);
                    },
                    Some((r, y)) => {
                        let ghost before = byte_strings_view(acc@);
                        let ghost yv = y@;
                        acc.push(y);
                        assert(byte_strings_view(acc@) =~= before.push(yv));
                        p = r;
                    },
                }
            }
        },
    }
}

fn in_strings_from(s: &[u8], i: usize) -> (r: Option<(usize, Vec<Vec<u8>>)>)
    requires
        i <= s@.len(),
    ensures
        (match r {
            Some((e, bs)) => Some((e as int, byte_strings_view(bs@))),
            None => None,
        }) == in_strings_arg(s@, i as int),
        r matches Some((e, _)) ==> i <= e <= s@.len(),
{
    let j = tws_at(s, i, &KW_IN)?;
    let k = tws_at(s, j, &KW_OPEN_BRACKET)?;
    let (m, xs) = quoted_list_from(s, k);
    let _len = s.len();
    if tag_at(s, m, &KW_CLOSE_BRACKET) {
        assert(KW_CLOSE_BRACKET@.len() == 1);
        Some((m + 1, xs))
    } else {
        None
    }
}

fn replace_from(s: &[u8], i: usize) -> (r: Option<(usize, (Vec<u8>, Vec<u8>))>)
    requires
        i <= s@.len(),
    ensures
        (match r {
            Some((e, (a, b))) => Some((e as int, (a@, b@))),
            None => None,
        }) == replace_arg(s@, i as int),
        r matches Some((e, _)) ==> i <= e <= s@.len(),
{
    let (e, a) = quoted_arg_from(s, i, &KW_REPLACE)?;
    let e2 = skip_whitespace(s, e, true);
    let m = tws_at(s, e2, &KW_WITH)?;
    let (n, b) = quoted_from(s, m)?;
    Some((n, (a, b)))
}

fn utf8_strings(bs: &Vec<Vec<u8>>) -> (r: Result<Vec<String>, String>)
    ensures
        (match r {
            Ok(ts) => Ok::<Seq<Seq<char>>, Seq<char>>(ts@.map_values(|t: String| t@)),
            Err(m) => Err(m@),
        }) == utf8_values(byte_strings_view(bs@)),
{
    let ghost v = byte_strings_view(bs@);
    let mut out: Vec<String> = Vec::new();
    let mut k: usize = 0;
    assert(v.take(0) =~= Seq::<Seq<u8>>::empty());
    assert(out@.map_values(|t: String| t@) =~= Seq::<Seq<char>>::empty());
    while k < bs.len()
        invariant
            k <= bs@.len(),
            v == byte_strings_view(bs@),
            utf8_values(v.take(k as int)) == Ok::<Seq<Seq<char>>, Seq<char>>(
                out@.map_values(|t: String| t@),
            ),
        decreases bs.len() - k,
    {
        assert(v.take(k + 1).drop_last() =~= v.take(k as int));
        assert(v.take(k + 1).last() == bs@[k as int]@);
        match utf8_string(bs[k].as_slice()) {
            Ok(t) => {
                let ghost before = out@.map_values(|t: String| t@);
                let ghost tv = t@;
                out.push(t);
                assert(out@.map_values(|t: String| t@) =~= before.push(tv));
            },
            Err(m) => {
                proof {
                    lemma_utf8_values_error(v, k + 1);
                }
                return Err(m);
            },
        }
        k = k + 1;
    }
    assert(v.take(k as int) =~= v);
    Ok(out)
}

/// A message in a prefix of a list of texts is the message of the whole.
proof fn lemma_utf8_values_error(bs: Seq<Seq<u8>>, j: int)
    requires
        0 <= j <= bs.len(),
        utf8_values(bs.take(j)) is Err,
    ensures
        utf8_values(bs) == utf8_values(bs.take(j)),
    decreases bs.len(),
{
    if j < bs.len() {
        assert(bs.drop_last().take(j) =~= bs.take(j));
        lemma_utf8_values_error(bs.drop_last(), j);
    } else {
        assert(bs.take(j) =~= bs);
    }
}


/// The transformers that a list of results holds, from `done` on: the items
/// parsed from `p`, after those already parsed.
pub open spec fn items_after(s: Seq<u8>, p: int, done: Seq<Result<TransformerV, Seq<char>>>) -> Option<
    (int, Seq<Result<TransformerV, Seq<char>>>),
> {
    match transformer_items(s, p) {
        Some((e, rest)) => Some((e, done + rest)),
        None => None,
    }
}

proof fn lemma_items_step(
    s: Seq<u8>,
    p: int,
    q: int,
    r: Result<TransformerV, Seq<char>>,
    done: Seq<Result<TransformerV, Seq<char>>>,
)
    requires
        0 <= p <= q <= s.len(),
        transformer_at(s, p) == Some((q, r)),
        whitespace_end(s, q, true) > p,
    ensures
        items_after(s, p, done) == items_after(s, whitespace_end(s, q, true), done.push(r)),
{
    lemma_whitespace_end(s, q, true);
    let w = whitespace_end(s, q, true);
    match transformer_items(s, w) {
        Some((e, rest)) => {
            assert(done + (seq![r] + rest) =~= done.push(r) + rest);
        },
        None => {},
    }
}

proof fn lemma_collect_push(
    rs: Seq<Result<TransformerV, Seq<char>>>,
    r: Result<TransformerV, Seq<char>>,
)
    ensures
        collect_transformers(rs.push(r)) == (match collect_transformers(rs) {
            Ok(vs) => match r {
                Ok(v) => Ok(vs.push(v)),
                Err(e) => Err(e),
            },
            Err(e) => Err(e),
        }),
{
    assert(rs.push(r).drop_last() =~= rs);
}

proof fn lemma_transformers_view_push(ts: Seq<Transformer>, t: Transformer)
    ensures
        transformers_view(ts.push(t)) == transformers_view(ts).push(transformer_view(t)),
{
    assert(ts.push(t).drop_last() =~= ts);
}

/// A keyword that is a whole transformer.
fn keyword_from(s: &[u8], i: usize, kw: &[u8], t: Transformer) -> (r: Option<
    (usize, Result<Transformer, String>),
>)
    requires
        i <= s@.len(),
    ensures
        transformer_result_view(r) == keyword_alt(s@, i as int, kw@, transformer_view(t)),
        r matches Some((e, _)) ==> i <= e <= s@.len(),
{
    let _len = s.len();
    if tag_at(s, i, kw) {
        Some((i + kw.len(), Ok(t)))
    } else {
        None
    }
}

/// A comparison with a number.
fn float_alt_from(s: &[u8], i: usize, kw: &[u8], which: u8) -> (r: Option<
    (usize, Result<Transformer, String>),
>)
    requires
        i <= s@.len(),
    ensures
        transformer_result_view(r) == float_alt(s@, i as int, kw@, which as int),
        r matches Some((e, _)) ==> i <= e <= s@.len(),
{
    let (e, f) = float_arg_from(s, i, kw)?;
    let t = if which == 0 {
        Transformer::GreaterThan(f)
    } else if which == 1 {
        Transformer::LesserThan(f)
    } else if which == 2 {
        Transformer::GreaterOrEqual(f)
    } else if which == 3 {
        Transformer::LesserOrEqual(f)
    } else {
        Transformer::Equals(f)
    };
    Some((e, Ok(t)))
}

/// A transformer with a regular expression argument.
fn regex_alt_from(s: &[u8], i: usize, kw: &[u8], which: u8) -> (r: Option<
    (usize, Result<Transformer, String>),
>)
    requires
        i <= s@.len(),
    ensures
        transformer_result_view(r) == regex_alt(s@, i as int, kw@, which as int),
        r matches Some((e, _)) ==> i <= e <= s@.len(),
{
    let (e, b) = quoted_arg_from(s, i, kw)?;
    match regex_from_bytes(b.as_slice()) {
        Ok(re) => {
            let t = if which == 0 {
                Transformer::Capture(re)
            } else if which == 1 {
                Transformer::AllCaptures(re)
            } else {
                Transformer::Matches(re)
            };
            Some((e, Ok(t)))
        },
        Err(m) => Some((e, Err(m))),
    }
}

/// `<keyword> ( <transformer expression> )`.
fn nested_from(s: &[u8], i: usize, kw: &[u8]) -> (r: Option<
    (usize, Result<TransformerExpression, String>),
>)
    requires
        i <= s@.len(),
    ensures
        expression_result_view(r) == nested_arg(s@, i as int, kw@),
        r matches Some((e, _)) ==> i <= e <= s@.len(),
    decreases s@.len() - i, 0int,
{
    if kw.len() == 0 {
        return None;
    }
    let j = tws_at(s, i, kw)?;
    let k = tws_at(s, j, &KW_OPEN_PAREN)?;
    proof {
        lemma_whitespace_end(s@, i + kw@.len(), true);
        lemma_whitespace_end(s@, j + 1, true);
    }
    let (m, r) = transformer_expression_from(s, k)?;
    let _len = s.len();
    if tag_at(s, m, &KW_CLOSE_PAREN) {
        assert(KW_CLOSE_PAREN@.len() == 1);
        Some((m + 1, r))
    } else {
        None
    }
}

/// A nested transformer expression, as a transformer.
fn nested_alt_from(s: &[u8], i: usize, kw: &[u8], which: u8) -> (r: Option<
    (usize, Result<Transformer, String>),
>)
    requires
        i <= s@.len(),
    ensures
        transformer_result_view(r) == nested_alt(s@, i as int, kw@, which as int),
        r matches Some((e, _)) ==> i <= e <= s@.len(),
    decreases s@.len() - i, 1int,
{
    let (e, r) = nested_from(s, i, kw)?;
    match r {
        Ok(te) => {
            let t = if which == 0 {
                Transformer::Each(te)
            } else if which == 1 {
                Transformer::Filter(te)
            } else if which == 2 {
                Transformer::Any(te)
            } else {
                Transformer::All(te)
            };
            Some((e, Ok(t)))
        },
        Err(m) => Some((e, Err(m))),
    }
}

/// The first group of transformer alternatives.
fn comparisons_from(s: &[u8], i: usize) -> (r: Option<(usize, Result<Transformer, String>)>)
    requires
        i <= s@.len(),
    ensures
        transformer_result_view(r) == comparisons_at(s@, i as int),
        r matches Some((e, _)) ==> i <= e <= s@.len(),
{
    let r = keyword_from(s, i, &KW_IS_NULL, Transformer::IsNull);
    if r.is_some() {
        return r;
    }
    let r = keyword_from(s, i, &KW_IS_NOT_NULL, Transformer::IsNotNull);
    if r.is_some() {
        return r;
    }
    let r = keyword_from(s, i, &KW_HASH, Transformer::Hash);
    if r.is_some() {
        return r;
    }
    let r = keyword_from(s, i, &KW_NOT, Transformer::Not);
    if r.is_some() {
        return r;
    }
    let r = keyword_from(s, i, &KW_AS_NUMBER, Transformer::AsNumber);
    if r.is_some() {
        return r;
    }
    let r = float_alt_from(s, i, &KW_GREATER_THAN, 0);
    if r.is_some() {
        return r;
    }
    let r = float_alt_from(s, i, &KW_LESSER_THAN, 1);
    if r.is_some() {
        return r;
    }
    let r = float_alt_from(s, i, &KW_GREATER_OR_EQUAL, 2);
    if r.is_some() {
        return r;
    }
    let r = float_alt_from(s, i, &KW_LESSER_OR_EQUAL, 3);
    if r.is_some() {
        return r;
    }
    if let Some((e, (l, h))) = between_from(s, i) {
        return Some((e, Ok(Transformer::Between(l, h))));
    }
    let r = float_alt_from(s, i, &KW_EQUALS, 4);
    if r.is_some() {
        return r;
    }
    match in_floats_from(s, i) {
        Some((e, xs)) => {
            assert(xs@.map_values(|n: Float| float_view(n)) =~= floats_view(xs@));
            Some((e, Ok(Transformer::In(xs))))
        },
        None => None,
    }
}

/// The second group of transformer alternatives.
fn collections_from(s: &[u8], i: usize) -> (r: Option<(usize, Result<Transformer, String>)>)
    requires
        i <= s@.len(),
    ensures
        transformer_result_view(r) == collections_at(s@, i as int),
        r matches Some((e, _)) ==> i <= e <= s@.len(),
    decreases s@.len() - i, 2int,
{
    let r = keyword_from(s, i, &KW_LENGTH, Transformer::Length);
    if r.is_some() {
        return r;
    }
    let r = keyword_from(s, i, &KW_IS_EMPTY, Transformer::IsEmpty);
    if r.is_some() {
        return r;
    }
    match get_idx_from(s, i) {
        Some((e, Ok(v))) => {
            return Some((e, Ok(Transformer::GetIdx(v))));
        },
        Some((e, Err(m))) => {
            return Some((e, Err(m)));
        },
        None => {},
    }
    if let Some((e, b)) = quoted_arg_from(s, i, &KW_GET) {
        return match utf8_string(b.as_slice()) {
            Ok(t) => Some((e, Ok(Transformer::Get(t)))),
            Err(m) => Some((e, Err(m))),
        };
    }
    let r = keyword_from(s, i, &KW_FLATTEN, Transformer::Flatten);
    if r.is_some() {
        return r;
    }
    let r = nested_alt_from(s, i, &KW_EACH, 0);
    if r.is_some() {
        return r;
    }
    let r = nested_alt_from(s, i, &KW_FILTER, 1);
    if r.is_some() {
        return r;
    }
    let r = nested_alt_from(s, i, &KW_ANY, 2);
    if r.is_some() {
        return r;
    }
    let r = nested_alt_from(s, i, &KW_ALL, 3);
    if r.is_some() {
        return r;
    }
    keyword_from(s, i, &KW_SORT, Transformer::Sort)
}

/// The third group of transformer alternatives.
fn strings_from(s: &[u8], i: usize) -> (r: Option<(usize, Result<Transformer, String>)>)
    requires
        i <= s@.len(),
    ensures
        transformer_result_view(r) == strings_at(s@, i as int),
        r matches Some((e, _)) ==> i <= e <= s@.len(),
{
    let r = keyword_from(s, i, &KW_AS_STRING, Transformer::AsString);
    if r.is_some() {
        return r;
    }
    let r = keyword_from(s, i, &KW_PRETTY, Transformer::Pretty);
    if r.is_some() {
        return r;
    }
    if let Some((e, b)) = quoted_arg_from(s, i, &KW_EQUALS) {
        return match utf8_string(b.as_slice()) {
            Ok(t) => Some((e, Ok(Transformer::EqualsString(t)))),
            Err(m) => Some((e, Err(m))),
        };
    }
    if let Some((e, bs)) = in_strings_from(s, i) {
        return match utf8_strings(&bs) {
            Ok(ts) => {
                assert(ts@.map_values(|t: String| t@) =~= ts@.map_values(|t: String| t@));
                Some((e, Ok(Transformer::InStrings(ts))))
            },
            Err(m) => Some((e, Err(m))),
        };
    }
    let r = regex_alt_from(s, i, &KW_CAPTURE, 0);
    if r.is_some() {
        return r;
    }
    let r = regex_alt_from(s, i, &KW_ALL_CAPTURES, 1);
    if r.is_some() {
        return r;
    }
    let r = regex_alt_from(s, i, &KW_MATCHES, 2);
    if r.is_some() {
        return r;
    }
    let (e, (a, b)) = replace_from(s, i)?;
    match regex_from_bytes(a.as_slice()) {
        Ok(re) => match utf8_string(b.as_slice()) {
            Ok(t) => Some((e, Ok(Transformer::Replace(re, t)))),
            Err(m) => Some((e, Err(m))),
        },
        Err(m) => Some((e, Err(m))),
    }
}

/// One transformer at `i`: where it ends, and the transformer or the message
/// of the value that could not be built.
pub fn transformer_from(s: &[u8], i: usize) -> (r: Option<(usize, Result<Transformer, String>)>)
    requires
        i <= s@.len(),
    ensures
        transformer_result_view(r) == transformer_at(s@, i as int),
        r matches Some((e, _)) ==> i <= e <= s@.len(),
    decreases s@.len() - i, 3int,
{
    let r = comparisons_from(s, i);
    if r.is_some() {
        return r;
    }
    let r = collections_from(s, i);
    if r.is_some() {
        return r;
    }
    strings_from(s, i)
}

/// A transformer expression at `k`: transformers, each followed by
/// whitespace, as many as there are.
pub fn transformer_expression_from(s: &[u8], k: usize) -> (r: Option<
    (usize, Result<TransformerExpression, String>),
>)
    requires
        k <= s@.len(),
    ensures
        expression_result_view(r) == expression_at(s@, k as int),
        r matches Some((e, _)) ==> k <= e <= s@.len(),
    decreases s@.len() - k, 5int,
{
    let mut p = k;
    let mut acc: Result<Vec<Transformer>, String> = Ok(Vec::new());
    let ghost mut done: Seq<Result<TransformerV, Seq<char>>> = Seq::empty();
    assert(Seq::<Result<TransformerV, Seq<char>>>::empty() + Seq::<Result<TransformerV, Seq<char>>>::empty() =~= Seq::<Result<TransformerV, Seq<char>>>::empty());
    assert(transformers_view(Seq::<Transformer>::empty()) =~= Seq::<TransformerV>::empty());
    loop
        invariant
            k <= p <= s@.len(),
            items_after(s@, p as int, done) == transformer_items(s@, k as int),
            (match acc {
                Ok(ts) => Ok::<Seq<TransformerV>, Seq<char>>(transformers_view(ts@)),
                Err(m) => Err(m@),
            }) == collect_transformers(done),
        decreases s@.len() - p,
    {
        assert(done + Seq::<Result<TransformerV, Seq<char>>>::empty() =~= done);
        match transformer_from(s, p) {
            None => {
                return match acc {
                    Ok(ts) => Some((p, Ok(TransformerExpression { transformers: ts }))),
                    Err(m) => Some((p, Err(m))),
                };
            },
            Some((q, r)) => {
                let w = skip_whitespace(s, q, true);
                if w <= p {
                    return None;
                }
                let ghost rv = outcome_view(r);
                proof {
                    lemma_items_step(s@, p as int, q as int, rv, done);
                    lemma_collect_push(done, rv);
                }
                acc = match acc {
                    Ok(mut ts) => match r {
                        Ok(t) => {
                            proof {
                                lemma_transformers_view_push(ts@, t);
                            }
                            ts.push(t);
                            Ok(ts)
                        },
                        Err(m) => Err(m),
                    },
                    Err(m) => Err(m),
                };
                proof {
                    done = done.push(rv);
                }
                p = w;
            },
        }
    }
}

} // verus!
