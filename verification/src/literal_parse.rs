//! The grammar of literal values and of variable settings
//! (`set <name> = <literal>;`), over the UTF-8 bytes of the source text.
use vstd::prelude::*;

use crate::expressions::{Float, FloatV};
use crate::items::{Literal, LiteralV, SetVariable, SetVariableV, literal_view, literals_view,
    lemma_literals_view_push, set_variable_view};
use crate::lexical::{has_tag, whitespace_end, lemma_whitespace_end, skip_whitespace, tag_at,
    identifier_end, identifier_at, lemma_identifier_stop};
use crate::expr_parse::{
    tws, tws_at, quoted, quoted_from, utf8_value, utf8_string, or, double_at, double_from,
    is_digit, digits_stop, digits_value, digits_from, lemma_digits_stop, lemma_digits_value_grows,
    KW_OPEN_BRACKET, KW_CLOSE_BRACKET, KW_COMMA,
};

verus! {

/// `-`
pub const KW_MINUS: [u8; 1] = [45u8];

/// `.`
pub const KW_DOT: [u8; 1] = [46u8];

/// `set`
pub const KW_SET: [u8; 3] = [115u8, 101u8, 116u8];

/// `=`
pub const KW_EQUAL_SIGN: [u8; 1] = [61u8];

/// `;`
pub const KW_SEMICOLON: [u8; 1] = [59u8];

/// Whether the IEEE-754 number with these bits is finite: its exponent bits
/// are not all set.
pub open spec fn finite_bits(bits: u64) -> bool {
    (bits / 0x10_0000_0000_0000) % 0x800 != 0x7ff
}

/// The JSON number an integer makes.
pub open spec fn integer_value(n: int) -> LiteralV {
    if n < 0 {
        LiteralV::NegInt(n as i64)
    } else {
        LiteralV::PosInt(n as u64)
    }
}

/// Digits at `i` that no `.` follows, as an unsigned integer; fails when
/// the value does not fit in `u64`.
pub open spec fn unsigned_literal(s: Seq<u8>, i: int) -> Option<(int, LiteralV)> {
    let e = digits_stop(s, i);
    if 0 <= i && e > i && !has_tag(s, e, KW_DOT@) && digits_value(s.subrange(i, e)) <= u64::MAX {
        Some((e, LiteralV::PosInt(digits_value(s.subrange(i, e)) as u64)))
    } else {
        None
    }
}

/// `-`, then digits that no `.` follows, as a negative integer; fails when
/// the digits do not fit in `i64`.
pub open spec fn negative_literal(s: Seq<u8>, i: int) -> Option<(int, LiteralV)> {
    let e = digits_stop(s, i + 1);
    if has_tag(s, i, KW_MINUS@) && e > i + 1 && !has_tag(s, e, KW_DOT@) && digits_value(
        s.subrange(i + 1, e),
    ) <= i64::MAX {
        Some((e, integer_value(-digits_value(s.subrange(i + 1, e)))))
    } else {
        None
    }
}

/// A floating-point number at `i`; one that is not finite is `Null`.
pub open spec fn float_literal(s: Seq<u8>, i: int) -> Option<(int, LiteralV)> {
    match double_at(s, i) {
        Some((e, f)) => Some((
            e,
            if finite_bits(f.0) {
                LiteralV::Float(f)
            } else {
                LiteralV::Null
            },
        )),
        None => None,
    }
}

/// A quoted string at `i`.
pub open spec fn string_literal(s: Seq<u8>, i: int) -> Option<(int, Result<LiteralV, Seq<char>>)> {
    match quoted(s, i) {
        Some((e, b)) => Some((
            e,
            match utf8_value(b) {
                Ok(t) => Ok(LiteralV::String(t)),
                Err(m) => Err(m),
            },
        )),
        None => None,
    }
}

pub open spec fn as_outcome(r: Option<(int, LiteralV)>) -> Option<(int, Result<LiteralV, Seq<char>>)> {
    match r {
        Some((e, v)) => Some((e, Ok(v))),
        None => None,
    }
}

/// The values of a list of results, or the first message.
pub open spec fn collect_literals(rs: Seq<Result<LiteralV, Seq<char>>>) -> Result<
    Seq<LiteralV>,
    Seq<char>,
>
    decreases rs.len(),
{
    if rs.len() == 0 {
        Ok(Seq::empty())
    } else {
        match collect_literals(rs.drop_last()) {
            Ok(vs) => match rs.last() {
                Ok(v) => Ok(vs.push(v)),
                Err(e) => Err(e),
            },
            Err(e) => Err(e),
        }
    }
}

/// The literal grammar: the first of its alternatives, in order, that
/// applies at `i`.
pub open spec fn literal_at(s: Seq<u8>, i: int) -> Option<(int, Result<LiteralV, Seq<char>>)>
    decreases s.len() - i, 2int,
{
    if !(0 <= i <= s.len()) {
        None
    } else {
        or(string_literal(s, i),
        or(as_outcome(unsigned_literal(s, i)),
        or(as_outcome(negative_literal(s, i)),
        or(as_outcome(float_literal(s, i)), array_literal_at(s, i)))))
    }
}

/// `[`, literals separated by commas, `]`.
pub open spec fn array_literal_at(s: Seq<u8>, i: int) -> Option<(int, Result<LiteralV, Seq<char>>)>
    decreases s.len() - i, 1int,
{
    if !(0 <= i <= s.len()) {
        None
    } else {
        match tws(s, i, KW_OPEN_BRACKET@) {
            Some(j) => {
                proof {
                    lemma_whitespace_end(s, i + 1, true);
                }
                let (m, rs) = literal_list(s, j);
                if has_tag(s, m, KW_CLOSE_BRACKET@) {
                    Some((
                        m + 1,
                        match collect_literals(rs) {
                            Ok(vs) => Ok(LiteralV::Array(vs)),
                            Err(e) => Err(e),
                        },
                    ))
                } else {
                    None
                }
            },
            None => None,
        }
    }
}

/// A possibly empty list of literals separated by commas.
pub open spec fn literal_list(s: Seq<u8>, k: int) -> (int, Seq<Result<LiteralV, Seq<char>>>)
    decreases s.len() - k, 3int,
{
    match literal_at(s, k) {
        None => (k, Seq::empty()),
        Some((k1, x)) => if k < k1 <= s.len() {
            literal_list_rest(s, k1, seq![x])
        } else {
            (k, Seq::empty())
        },
    }
}

/// More literals, each after a comma, appended to `acc`; stops before a comma
/// that no literal follows.
pub open spec fn literal_list_rest(
    s: Seq<u8>,
    p: int,
    acc: Seq<Result<LiteralV, Seq<char>>>,
) -> (int, Seq<Result<LiteralV, Seq<char>>>)
    decreases s.len() - p, 3int,
{
    if !(0 <= p <= s.len()) {
        (p, acc)
    } else {
        match tws(s, p, KW_COMMA@) {
            None => (p, acc),
            Some(q) => {
                proof {
                    lemma_whitespace_end(s, p + 1, true);
                }
                match literal_at(s, q) {
                    None => (p, acc),
                    Some((r, y)) => if q <= r <= s.len() {
                        literal_list_rest(s, r, acc.push(y))
                    } else {
                        (p, acc)
                    },
                }
            },
        }
    }
}

/// `set <name> = <literal> ;`.
pub open spec fn set_variable_at(s: Seq<u8>, i: int) -> Option<(int, Result<SetVariableV, Seq<char>>)> {
    match tws(s, i, KW_SET@) {
        Some(j) => match identifier_end(s, j) {
            Some(k) => match tws(s, whitespace_end(s, k, true), KW_EQUAL_SIGN@) {
                Some(m) => match literal_at(s, m) {
                    Some((n, v)) => {
                        let w = whitespace_end(s, n, true);
                        if has_tag(s, w, KW_SEMICOLON@) {
                            Some((
                                w + 1,
                                match utf8_value(s.subrange(j, k)) {
                                    Ok(name) => match v {
                                        Ok(lv) => Ok(SetVariableV { name, value: lv }),
                                        Err(e) => Err(e),
                                    },
                                    Err(e) => Err(e),
                                },
                            ))
                        } else {
                            None
                        }
                    },
                    None => None,
                },
                None => None,
            },
            None => None,
        },
        None => None,
    }
}

/// The mathematical value of a parsed literal.
pub open spec fn literal_result_view(r: Option<(usize, Result<Literal, String>)>) -> Option<
    (int, Result<LiteralV, Seq<char>>),
> {
    match r {
        Some((e, Ok(l))) => Some((e as int, Ok(literal_view(l)))),
        Some((e, Err(m))) => Some((e as int, Err(m@))),
        None => None,
    }
}

pub open spec fn literal_outcome_view(r: Result<Literal, String>) -> Result<LiteralV, Seq<char>> {
    match r {
        Ok(l) => Ok(literal_view(l)),
        Err(m) => Err(m@),
    }
}

pub open spec fn literal_outcomes_view(rs: Seq<Result<Literal, String>>) -> Seq<
    Result<LiteralV, Seq<char>>,
> {
    rs.map_values(|r: Result<Literal, String>| literal_outcome_view(r))
}

/// The decimal value of the digits `s[from..to]`, if it fits in `u64`.
fn digits_to_u64(s: &[u8], from: usize, to: usize) -> (r: Option<u64>)
    requires
        from <= to <= s@.len(),
        forall|k: int| from <= k < to ==> is_digit(#[trigger] s@[k]),
    ensures
        r matches Some(v) ==> v == digits_value(s@.subrange(from as int, to as int)),
        r is None <==> digits_value(s@.subrange(from as int, to as int)) > u64::MAX,
{
    let mut v: u64 = 0;
    let mut k = from;
    assert(s@.subrange(from as int, from as int) =~= Seq::<u8>::empty());
    while k < to
        invariant
            from <= k <= to <= s@.len(),
            forall|j: int| from <= j < to ==> is_digit(#[trigger] s@[j]),
            v == digits_value(s@.subrange(from as int, k as int)),
        decreases to - k,
    {
        assert(s@.subrange(from as int, k + 1).drop_last() =~= s@.subrange(from as int, k as int));
        let d = (s[k] - 48u8) as u64;
        assert(is_digit(s@[k as int]));
        if v > (u64::MAX - d) / 10 {
            proof {
                lemma_digits_value_grows(s@, from as int, k + 1, to as int);
            }
            return None;
        }
        v = v * 10 + d;
        k = k + 1;
    }
    Some(v)
}

fn unsigned_from(s: &[u8], i: usize) -> (r: Option<(usize, u64)>)
    requires
        i <= s@.len(),
    ensures
        (match r {
            Some((e, v)) => Some((e as int, LiteralV::PosInt(v))),
            None => None,
        }) == unsigned_literal(s@, i as int),
        r matches Some((e, _)) ==> i < e <= s@.len(),
{
    let e = digits_from(s, i);
    proof {
        lemma_digits_stop(s@, i as int);
    }
    if e == i || tag_at(s, e, &KW_DOT) {
        return None;
    }
    let v = digits_to_u64(s, i, e)?;
    Some((e, v))
}

fn negative_from(s: &[u8], i: usize) -> (r: Option<(usize, Literal)>)
    requires
        i <= s@.len(),
    ensures
        (match r {
            Some((e, v)) => Some((e as int, literal_view(v))),
            None => None,
        }) == negative_literal(s@, i as int),
        r matches Some((e, _)) ==> i < e <= s@.len(),
{
    let _len = s.len();
    if !tag_at(s, i, &KW_MINUS) {
        return None;
    }
    assert(KW_MINUS@.len() == 1);
    let e = digits_from(s, i + 1);
    proof {
        lemma_digits_stop(s@, i + 1);
    }
    if e == i + 1 || tag_at(s, e, &KW_DOT) {
        return None;
    }
    let v = match digits_to_u64(s, i + 1, e) {
        Some(v) => v,
        None => {
            return None;
        },
    };
    if v > 0x7fff_ffff_ffff_ffffu64 {
        return None;
    }
    if v == 0 {
        Some((e, Literal::PosInt(0)))
    } else {
        let n: i64 = v as i64;
        Some((e, Literal::NegInt(-n)))
    }
}

fn float_from(s: &[u8], i: usize) -> (r: Option<(usize, Literal)>)
    requires
        i <= s@.len(),
    ensures
        (match r {
            Some((e, v)) => Some((e as int, literal_view(v))),
            None => None,
        }) == float_literal(s@, i as int),
        r matches Some((e, _)) ==> i <= e <= s@.len(),
{
    let (e, f) = double_from(s, i)?;
    if (f.bits / 0x10_0000_0000_0000u64) % 0x800u64 != 0x7ffu64 {
        Some((e, Literal::Float(f)))
    } else {
        Some((e, Literal::Null))
    }
}

/// One literal at `i`.
pub fn literal_from(s: &[u8], i: usize) -> (r: Option<(usize, Result<Literal, String>)>)
    requires
        i <= s@.len(),
    ensures
        literal_result_view(r) == literal_at(s@, i as int),
        r matches Some((e, _)) ==> i <= e <= s@.len(),
    decreases s@.len() - i, 2int,
{
    if let Some((e, b)) = quoted_from(s, i) {
        return match utf8_string(b.as_slice()) {
            Ok(t) => Some((e, Ok(Literal::String(t)))),
            Err(m) => Some((e, Err(m))),
        };
    }
    if let Some((e, v)) = unsigned_from(s, i) {
        return Some((e, Ok(Literal::PosInt(v))));
    }
    if let Some((e, v)) = negative_from(s, i) {
        return Some((e, Ok(v)));
    }
    if let Some((e, v)) = float_from(s, i) {
        return Some((e, Ok(v)));
    }
    array_literal_from(s, i)
}

/// `[`, literals separated by commas, `]`, at `i`.
fn array_literal_from(s: &[u8], i: usize) -> (r: Option<(usize, Result<Literal, String>)>)
    requires
        i <= s@.len(),
    ensures
        literal_result_view(r) == array_literal_at(s@, i as int),
        r matches Some((e, _)) ==> i <= e <= s@.len(),
    decreases s@.len() - i, 1int,
{
    let j = tws_at(s, i, &KW_OPEN_BRACKET)?;
    assert(KW_OPEN_BRACKET@.len() == 1);
    let (m, rs) = literal_list_from(s, j);
    let _len = s.len();
    if !tag_at(s, m, &KW_CLOSE_BRACKET) {
        return None;
    }
    assert(KW_CLOSE_BRACKET@.len() == 1);
    match collect_literal_values(rs) {
        Ok(values) => Some((m + 1, Ok(Literal::Array(values)))),
        Err(msg) => Some((m + 1, Err(msg))),
    }
}

/// The values of a list of results, or the first message.
fn collect_literal_values(rs: Vec<Result<Literal, String>>) -> (r: Result<Vec<Literal>, String>)
    ensures
        (match r {
            Ok(vs) => Ok::<Seq<LiteralV>, Seq<char>>(literals_view(vs@)),
            Err(m) => Err(m@),
        }) == collect_literals(literal_outcomes_view(rs@)),
{
    let ghost outcomes = literal_outcomes_view(rs@);
    let mut values: Vec<Literal> = Vec::new();
    let mut rest = rs;
    let ghost mut k: int = 0;
    assert(outcomes.take(0) =~= Seq::<Result<LiteralV, Seq<char>>>::empty());
    assert(literals_view(values@) =~= Seq::<LiteralV>::empty());
    assert(rest@ =~= rs@.skip(0));
    while rest.len() > 0
        invariant
            0 <= k <= rs@.len(),
            rest@ == rs@.skip(k),
            outcomes == literal_outcomes_view(rs@),
            collect_literals(outcomes.take(k)) == Ok::<Seq<LiteralV>, Seq<char>>(
                literals_view(values@),
            ),
        decreases rest.len(),
    {
        assert(outcomes.take(k + 1).drop_last() =~= outcomes.take(k));
        assert(rest@[0] == rs@[k]);
        let first = rest.remove(0);
        assert(rest@ =~= rs@.skip(k + 1));
        match first {
            Ok(l) => {
                proof {
                    lemma_literals_view_push(values@, l);
                }
                values.push(l);
            },
            Err(msg) => {
                proof {
                    lemma_collect_literals_prefix_error(outcomes, k + 1);
                }
                return Err(msg);
            },
        }
        proof {
            k = k + 1;
        }
    }
    assert(outcomes.take(k) =~= outcomes);
    Ok(values)
}

/// A message in a prefix of a list of results is the message of the whole.
proof fn lemma_collect_literals_prefix_error(rs: Seq<Result<LiteralV, Seq<char>>>, j: int)
    requires
        0 <= j <= rs.len(),
        collect_literals(rs.take(j)) is Err,
    ensures
        collect_literals(rs) == collect_literals(rs.take(j)),
    decreases rs.len(),
{
    if j < rs.len() {
        assert(rs.drop_last().take(j) =~= rs.take(j));
        lemma_collect_literals_prefix_error(rs.drop_last(), j);
    } else {
        assert(rs.take(j) =~= rs);
    }
}

/// A possibly empty list of literals separated by commas, at `k`.
fn literal_list_from(s: &[u8], k: usize) -> (r: (usize, Vec<Result<Literal, String>>))
    requires
        k <= s@.len(),
    ensures
        (r.0 as int, literal_outcomes_view(r.1@)) == literal_list(s@, k as int),
        k <= r.0 <= s@.len(),
    decreases s@.len() - k, 3int,
{
    let mut acc: Vec<Result<Literal, String>> = Vec::new();
    assert(literal_outcomes_view(acc@) =~= Seq::<Result<LiteralV, Seq<char>>>::empty());
    let (k1, x) = match literal_from(s, k) {
        None => {
            return (k, acc);
        },
        Some(found) => found,
    };
    if k1 == k {
        return (k, acc);
    }
    let ghost xv = literal_outcome_view(x);
    acc.push(x);
    assert(literal_outcomes_view(acc@) =~= seq![xv]);
    let mut p = k1;
    loop
        invariant
            k < p <= s@.len(),
            literal_list_rest(s@, p as int, literal_outcomes_view(acc@)) == literal_list(
                s@,
                k as int,
            ),
        decreases s@.len() - p,
    {
        let q = match tws_at(s, p, &KW_COMMA) {
            Some(q) => q,
            None => {
                return (p, acc);
            },
        };
        assert(KW_COMMA@.len() == 1);
        match literal_from(s, q) {
            None => {
                return (p, acc);
            },
            Some((r, y)) => {
                let ghost before = literal_outcomes_view(acc@);
                let ghost yv = literal_outcome_view(y);
                acc.push(y);
                assert(literal_outcomes_view(acc@) =~= before.push(yv));
                p = r;
            },
        }
    }
}

impl Literal {
    /// A copy of the literal.
    pub fn clone_literal(&self) -> (r: Literal)
        ensures
            literal_view(r) == literal_view(*self),
        decreases self,
    {
        match self {
            Literal::Null => Literal::Null,
            Literal::String(t) => Literal::String(t.clone()),
            Literal::PosInt(n) => Literal::PosInt(*n),
            Literal::NegInt(n) => Literal::NegInt(*n),
            Literal::Float(f) => Literal::Float(Float { bits: f.bits, text: f.text.clone() }),
            Literal::Array(xs) => {
                let mut out: Vec<Literal> = Vec::new();
                let mut k: usize = 0;
                assert(literals_view(out@) =~= literals_view(xs@.take(0)));
                while k < xs.len()
                    invariant
                        k <= xs@.len(),
                        *self == Literal::Array(*xs),
                        literals_view(out@) == literals_view(xs@.take(k as int)),
                    decreases xs.len() - k,
                {
                    proof {
                        let parts = (*self)->Array_0;
                        assert(decreases_to!(*self => (*self)->Array_0));
                        assert(decreases_to!(parts => parts@));
                        assert(decreases_to!(parts@ => parts@[k as int]));
                    }
                    let item = xs[k].clone_literal();
                    proof {
                        lemma_literals_view_push(out@, item);
                        lemma_literals_view_push(xs@.take(k as int), xs@[k as int]);
                        assert(xs@.take(k + 1) =~= xs@.take(k as int).push(xs@[k as int]));
                    }
                    out.push(item);
                    k = k + 1;
                }
                assert(xs@.take(k as int) =~= xs@);
                Literal::Array(out)
            },
        }
    }
}

/// A variable setting at `i`.
pub fn set_variable_from(s: &[u8], i: usize) -> (r: Option<(usize, Result<SetVariable, String>)>)
    requires
        i <= s@.len(),
    ensures
        (match r {
            Some((e, Ok(v))) => Some((e as int, Ok(set_variable_view(v)))),
            Some((e, Err(m))) => Some((e as int, Err(m@))),
            None => None,
        }) == set_variable_at(s@, i as int),
        r matches Some((e, _)) ==> i <= e <= s@.len(),
{
    let _len = s.len();
    let j = tws_at(s, i, &KW_SET)?;
    let k = identifier_at(s, j)?;
    proof {
        lemma_identifier_stop(s@, j as int);
    }
    let w0 = skip_whitespace(s, k, true);
    let m = tws_at(s, w0, &KW_EQUAL_SIGN)?;
    let (n, v) = literal_from(s, m)?;
    let w = skip_whitespace(s, n, true);
    let _len = s.len();
    if !tag_at(s, w, &KW_SEMICOLON) {
        return None;
    }
    assert(KW_SEMICOLON@.len() == 1);
    let name_bytes = &s[j..k];
    assert(name_bytes@ == s@.subrange(j as int, k as int));
    match utf8_string(name_bytes) {
        Ok(name) => match v {
            Ok(value) => Some((w + 1, Ok(SetVariable { name, value }))),
            Err(e) => Some((w + 1, Err(e))),
        },
        Err(e) => Some((w + 1, Err(e))),
    }
}

} // verus!
