//! JSON values, and what the transformers make of them. Numbers keep their
//! integer value or, for floating-point numbers, their IEEE-754 bits; the
//! transformers that compare, parse or order numbers, and the writing of a
//! floating-point number as a string, are left to the caller.
use vstd::prelude::*;
use vstd::string::StringExecFns;
use vstd::string::StrSliceExecFns;

use crate::expressions::{Transformer, TransformerExpression, decimal_text, decimal_string, transformer_type, transformers_type};
use crate::types::Type;
use crate::boundaries::{text_less, chars_less};
use crate::position::chars_of;
use crate::outside::{sip_hash, sip_hash_text, regex_replaced, replace_all, regex_is_match, is_match_of, regex_error,
    regex_captures, regex_all_captures, captures_of, all_captures_of, groups_view, Groups};
use crate::text::{pretty, pretty_text};
use crate::variable::signed_text;

verus! {

/// A JSON value.
#[derive(Debug)]
pub enum Json {
    Null,
    Bool(bool),
    /// A number that is a non-negative integer.
    PosInt(u64),
    /// A number that is a negative integer.
    NegInt(i64),
    /// A floating-point number, by its IEEE-754 bits.
    Float(u64),
    Str(String),
    Array(Vec<Json>),
    /// An object: its entries, each key once.
    Object(Vec<(String, Json)>),
}

/// What a [`Json`] holds.
pub enum JsonV {
    Null,
    Bool(bool),
    PosInt(u64),
    NegInt(i64),
    Float(u64),
    Str(Seq<char>),
    Array(Seq<JsonV>),
    Object(Seq<(Seq<char>, JsonV)>),
}

pub open spec fn json_view(j: Json) -> JsonV
    decreases j,
{
    match j {
        Json::Null => JsonV::Null,
        Json::Bool(b) => JsonV::Bool(b),
        Json::PosInt(n) => JsonV::PosInt(n),
        Json::NegInt(n) => JsonV::NegInt(n),
        Json::Float(b) => JsonV::Float(b),
        Json::Str(s) => JsonV::Str(s@),
        Json::Array(xs) => JsonV::Array(jsons_view(xs@)),
        Json::Object(es) => JsonV::Object(entries_view(es@)),
    }
}

pub open spec fn jsons_view(xs: Seq<Json>) -> Seq<JsonV>
    decreases xs,
{
    if xs.len() == 0 {
        Seq::empty()
    } else {
        jsons_view(xs.drop_last()).push(json_view(xs.last()))
    }
}

pub open spec fn entries_view(es: Seq<(String, Json)>) -> Seq<(Seq<char>, JsonV)>
    decreases es,
{
    if es.len() == 0 {
        Seq::empty()
    } else {
        entries_view(es.drop_last()).push((es.last().0@, json_view(es.last().1)))
    }
}

pub proof fn lemma_jsons_view(xs: Seq<Json>)
    ensures
        jsons_view(xs).len() == xs.len(),
        forall|k: int| 0 <= k < xs.len() ==> #[trigger] jsons_view(xs)[k] == json_view(xs[k]),
    decreases xs.len(),
{
    if xs.len() > 0 {
        lemma_jsons_view(xs.drop_last());
    }
}

proof fn lemma_entries_view(es: Seq<(String, Json)>)
    ensures
        entries_view(es).len() == es.len(),
        forall|k: int|
            0 <= k < es.len() ==> #[trigger] entries_view(es)[k] == (es[k].0@, json_view(es[k].1)),
    decreases es.len(),
{
    if es.len() > 0 {
        lemma_entries_view(es.drop_last());
    }
}

/// An integer as JSON: non-negative ones are `PosInt`.
pub open spec fn int_json(n: i64) -> JsonV {
    if n < 0 {
        JsonV::NegInt(n)
    } else {
        JsonV::PosInt(n as u64)
    }
}

/// The value of `key` in the entries (the first entry with it), if any.
pub open spec fn entry_of(es: Seq<(Seq<char>, JsonV)>, key: Seq<char>) -> Option<JsonV>
    decreases es.len(),
{
    if es.len() == 0 {
        None
    } else {
        match entry_of(es.drop_last(), key) {
            Some(v) => Some(v),
            None => if es.last().0 == key {
                Some(es.last().1)
            } else {
                None
            },
        }
    }
}

/// The items of the arrays among `xs`, in order, nulls skipped; nothing when
/// an item is neither an array nor null.
pub open spec fn flatten_spec(xs: Seq<JsonV>) -> Option<Seq<JsonV>>
    decreases xs.len(),
{
    if xs.len() == 0 {
        Some(Seq::empty())
    } else {
        match flatten_spec(xs.drop_last()) {
            Some(r) => match xs.last() {
                JsonV::Array(ys) => Some(r + ys),
                JsonV::Null => Some(r),
                _ => None,
            },
            None => None,
        }
    }
}

/// The entries of the first `n` groups of a match that took part: each
/// group's name, or its position when it has none, with the text it
/// matched.
pub open spec fn capture_entries(g: Seq<(Option<Seq<char>>, Option<Seq<char>>)>, n: int) -> Seq<(Seq<char>, JsonV)>
    decreases n,
{
    if n <= 0 || n > g.len() {
        Seq::empty()
    } else {
        let rest = capture_entries(g, n - 1);
        match g[n - 1].1 {
            Some(t) => rest.push(
                (
                    match g[n - 1].0 {
                        Some(name) => name,
                        None => decimal_text((n - 1) as nat),
                    },
                    JsonV::Str(t),
                ),
            ),
            None => rest,
        }
    }
}

/// The object of a match's groups.
pub open spec fn capture_object(g: Seq<(Option<Seq<char>>, Option<Seq<char>>)>) -> JsonV {
    JsonV::Object(capture_entries(g, g.len() as int))
}

/// The kind of a value, as ordering compares them: null, bool, number,
/// string, array, object.
pub open spec fn kind(x: JsonV) -> int {
    match x {
        JsonV::Null => 0,
        JsonV::Bool(_) => 1,
        JsonV::PosInt(_) | JsonV::NegInt(_) | JsonV::Float(_) => 2,
        JsonV::Str(_) => 3,
        JsonV::Array(_) => 4,
        JsonV::Object(_) => 5,
    }
}

/// Whether a value is one that the library orders: null, a bool, a string,
/// or an integer that a floating-point number holds exactly (at most 2^53
/// in size).
pub open spec fn orderable(x: JsonV) -> bool {
    match x {
        JsonV::Null | JsonV::Bool(_) | JsonV::Str(_) => true,
        JsonV::PosInt(n) => n <= 0x20_0000_0000_0000u64,
        JsonV::NegInt(n) => n >= -0x20_0000_0000_0000i64,
        _ => false,
    }
}

/// Whether the library sorts an array: its items are orderable, and those
/// that are not null are all of one kind.
pub open spec fn sortable(xs: Seq<JsonV>) -> bool {
    &&& forall|k: int| 0 <= k < xs.len() ==> orderable(#[trigger] xs[k])
    &&& forall|i: int, j: int|
        0 <= i < xs.len() && 0 <= j < xs.len() && !(xs[i] is Null) && !(xs[j] is Null) ==> kind(
            #[trigger] xs[i],
        ) == kind(#[trigger] xs[j])
}

/// The value of an integer.
pub open spec fn int_value(x: JsonV) -> int {
    match x {
        JsonV::PosInt(n) => n as int,
        JsonV::NegInt(n) => n as int,
        _ => 0,
    }
}

/// Whether `a` comes strictly before `b`: null first, `false` before
/// `true`, numbers by value, strings character by character.
pub open spec fn json_less(a: JsonV, b: JsonV) -> bool {
    match (a, b) {
        (JsonV::Null, JsonV::Null) => false,
        (JsonV::Null, _) => true,
        (_, JsonV::Null) => false,
        (JsonV::Bool(x), JsonV::Bool(y)) => !x && y,
        (JsonV::Str(x), JsonV::Str(y)) => text_less(x, y),
        (JsonV::PosInt(_), JsonV::PosInt(_)) | (JsonV::PosInt(_), JsonV::NegInt(_))
        | (JsonV::NegInt(_), JsonV::PosInt(_)) | (JsonV::NegInt(_), JsonV::NegInt(_)) => int_value(a)
            < int_value(b),
        _ => false,
    }
}

/// `x` put into `s` after every item it does not come strictly before.
pub open spec fn insert_sorted(s: Seq<JsonV>, x: JsonV) -> Seq<JsonV>
    decreases s.len(),
{
    if s.len() == 0 {
        seq![x]
    } else if json_less(x, s.last()) {
        insert_sorted(s.drop_last(), x).push(s.last())
    } else {
        s.push(x)
    }
}

/// The items sorted by insertion, in order of [`json_less`].
pub open spec fn sort_spec(xs: Seq<JsonV>) -> Seq<JsonV>
    decreases xs.len(),
{
    if xs.len() == 0 {
        Seq::empty()
    } else {
        insert_sorted(sort_spec(xs.drop_last()), xs.last())
    }
}

/// Each item paired with the key at its index.
pub open spec fn keyed(ks: Seq<JsonV>, xs: Seq<JsonV>) -> Seq<(JsonV, JsonV)> {
    Seq::new(xs.len(), |k: int| (ks[k], xs[k]))
}

/// `p` put into `s` after every pair whose key its key does not come
/// strictly before.
pub open spec fn insert_by_key(s: Seq<(JsonV, JsonV)>, p: (JsonV, JsonV)) -> Seq<(JsonV, JsonV)>
    decreases s.len(),
{
    if s.len() == 0 {
        seq![p]
    } else if json_less(p.0, s.last().0) {
        insert_by_key(s.drop_last(), p).push(s.last())
    } else {
        s.push(p)
    }
}

/// The pairs sorted by insertion, in order of their keys.
pub open spec fn sort_by_key(ps: Seq<(JsonV, JsonV)>) -> Seq<(JsonV, JsonV)>
    decreases ps.len(),
{
    if ps.len() == 0 {
        Seq::empty()
    } else {
        insert_by_key(sort_by_key(ps.drop_last()), ps.last())
    }
}

/// The items of the pairs.
pub open spec fn pair_items(ps: Seq<(JsonV, JsonV)>) -> Seq<JsonV> {
    ps.map_values(|p: (JsonV, JsonV)| p.1)
}

/// Whether the items come in order: none comes strictly before one that
/// stands ahead of it.
pub open spec fn in_order(s: Seq<JsonV>) -> bool {
    forall|i: int, j: int| 0 <= i < j < s.len() ==> !json_less(#[trigger] s[j], #[trigger] s[i])
}

/// Of orderable values whose kinds agree (or that are null), `json_less` is
/// a strict weak order: asymmetric, and "not after" is total and
/// transitive.
proof fn lemma_json_order(a: JsonV, b: JsonV, c: JsonV)
    requires
        orderable(a),
        orderable(b),
        orderable(c),
        !(a is Null) && !(b is Null) ==> kind(a) == kind(b),
        !(b is Null) && !(c is Null) ==> kind(b) == kind(c),
        !(a is Null) && !(c is Null) ==> kind(a) == kind(c),
    ensures
        json_less(a, b) ==> !json_less(b, a),
        !json_less(b, a) || !json_less(a, b),
        !json_less(b, a) && !json_less(c, b) ==> !json_less(c, a),
{
    if let (JsonV::Str(x), JsonV::Str(y), JsonV::Str(z)) = (a, b, c) {
        crate::boundaries::lemma_text_asymmetric(x, y);
        crate::boundaries::lemma_text_total(x, y);
        crate::boundaries::lemma_text_total(y, z);
        crate::boundaries::lemma_text_total(x, z);
        crate::boundaries::lemma_text_asymmetric(x, z);
        if text_less(x, y) && text_less(y, z) {
            crate::boundaries::lemma_text_transitive(x, y, z);
        }
    } else if let (JsonV::Str(x), JsonV::Str(y)) = (a, b) {
        crate::boundaries::lemma_text_asymmetric(x, y);
    }
}

/// The items of a sequence drawn from a sortable one are sortable.
proof fn lemma_sortable_within(a: Seq<JsonV>, b: Seq<JsonV>)
    requires
        sortable(b),
        forall|k: int| 0 <= k < a.len() ==> b.contains(#[trigger] a[k]),
    ensures
        sortable(a),
{
    assert forall|k: int| 0 <= k < a.len() implies orderable(#[trigger] a[k]) by {
        assert(b.contains(a[k]));
    }
    assert forall|i: int, j: int|
        0 <= i < a.len() && 0 <= j < a.len() && !(a[i] is Null) && !(a[j] is Null) implies kind(
        #[trigger] a[i],
    ) == kind(#[trigger] a[j]) by {
        assert(b.contains(a[i]));
        assert(b.contains(a[j]));
        let p = choose|p: int| 0 <= p < b.len() && b[p] == a[i];
        let q = choose|q: int| 0 <= q < b.len() && b[q] == a[j];
        assert(!(b[p] is Null) && !(b[q] is Null));
    }
}

/// Inserting into items in order keeps them in order, and adds the item once.
proof fn lemma_insert_sorted(s: Seq<JsonV>, x: JsonV)
    requires
        sortable(s.push(x)),
        in_order(s),
    ensures
        in_order(insert_sorted(s, x)),
        insert_sorted(s, x).to_multiset() =~= s.to_multiset().insert(x),
    decreases s.len(),
{
    broadcast use vstd::seq_lib::group_to_multiset_ensures;

    let all = s.push(x);
    if s.len() == 0 {
        assert(seq![x] =~= Seq::<JsonV>::empty().push(x));
    } else if json_less(x, s.last()) {
        let rest = s.drop_last();
        let last = s.last();
        assert forall|k: int| 0 <= k < rest.push(x).len() implies all.contains(#[trigger] rest.push(x)[k]) by {
            if k < rest.len() {
                assert(all[k] == rest.push(x)[k]);
            } else {
                assert(all[all.len() - 1] == x);
            }
        }
        lemma_sortable_within(rest.push(x), all);
        assert forall|i: int, j: int| 0 <= i < j < rest.len() implies !json_less(#[trigger] rest[j], #[trigger] rest[i]) by {
            assert(rest[i] == s[i] && rest[j] == s[j]);
        }
        lemma_insert_sorted(rest, x);
        let r = insert_sorted(rest, x);
        assert(s =~= rest.push(last));
        assert(all.contains(last)) by {
            assert(all[s.len() - 1] == last);
        }
        assert forall|i: int, j: int| 0 <= i < j < r.push(last).len() implies !json_less(
            #[trigger] r.push(last)[j],
            #[trigger] r.push(last)[i],
        ) by {
            if j == r.len() {
                let e = r[i];
                assert(r.to_multiset().count(e) > 0) by {
                    assert(r.contains(e));
                }
                if e == x {
                    lemma_json_order(x, last, last);
                } else {
                    assert(rest.to_multiset().count(e) > 0);
                    assert(rest.contains(e));
                    let m = choose|m: int| 0 <= m < rest.len() && rest[m] == e;
                    assert(s[m] == e && s[s.len() - 1] == last);
                }
            } else {
                assert(r.push(last)[i] == r[i] && r.push(last)[j] == r[j]);
            }
        }
    } else {
        let last = s.last();
        assert forall|i: int, j: int| 0 <= i < j < s.push(x).len() implies !json_less(
            #[trigger] s.push(x)[j],
            #[trigger] s.push(x)[i],
        ) by {
            if j == s.len() {
                assert(all[i] == s[i] && all[s.len() - 1] == last && all[s.len() as int] == x);
                if i < s.len() - 1 {
                    assert(!json_less(s[s.len() - 1], s[i]));
                }
                lemma_json_order(s[i], last, x);
            } else {
                assert(s.push(x)[i] == s[i] && s.push(x)[j] == s[j]);
            }
        }
    }
}

/// Sorting gives the same items, each as often, in order.
pub proof fn lemma_sort_in_order(xs: Seq<JsonV>)
    requires
        sortable(xs),
    ensures
        eval_spec(Transformer::Sort, JsonV::Array(xs)) == Some(JsonV::Array(sort_spec(xs))),
        in_order(sort_spec(xs)),
        sort_spec(xs).to_multiset() =~= xs.to_multiset(),
    decreases xs.len(),
{
    broadcast use vstd::seq_lib::group_to_multiset_ensures;

    if xs.len() > 0 {
        let rest = xs.drop_last();
        let x = xs.last();
        assert(xs =~= rest.push(x));
        assert forall|k: int| 0 <= k < rest.len() implies xs.contains(#[trigger] rest[k]) by {
            assert(xs[k] == rest[k]);
        }
        lemma_sortable_within(rest, xs);
        lemma_sort_in_order(rest);
        let sorted = sort_spec(rest);
        assert forall|k: int| 0 <= k < sorted.push(x).len() implies xs.contains(#[trigger] sorted.push(x)[k]) by {
            if k < sorted.len() {
                let e = sorted[k];
                assert(sorted.contains(e));
                assert(sorted.to_multiset().count(e) > 0);
                assert(rest.contains(e));
                let m = choose|m: int| 0 <= m < rest.len() && rest[m] == e;
                assert(xs[m] == e);
                assert(sorted.push(x)[k] == e);
            } else {
                assert(xs[xs.len() - 1] == x);
            }
        }
        lemma_sortable_within(sorted.push(x), xs);
        lemma_insert_sorted(sorted, x);
    }
}

/// The keys of the pairs.
pub open spec fn pair_keys(ps: Seq<(JsonV, JsonV)>) -> Seq<JsonV> {
    ps.map_values(|p: (JsonV, JsonV)| p.0)
}

/// Whether the pairs come in order of their keys.
pub open spec fn keys_in_order(s: Seq<(JsonV, JsonV)>) -> bool {
    forall|i: int, j: int| 0 <= i < j < s.len() ==> !json_less((#[trigger] s[j]).0, (#[trigger] s[i]).0)
}

/// Inserting by key into pairs in key order keeps them in key order, and
/// adds the pair once.
proof fn lemma_insert_by_key_sorted(s: Seq<(JsonV, JsonV)>, p: (JsonV, JsonV))
    requires
        sortable(pair_keys(s.push(p))),
        keys_in_order(s),
    ensures
        keys_in_order(insert_by_key(s, p)),
        insert_by_key(s, p).to_multiset() =~= s.to_multiset().insert(p),
    decreases s.len(),
{
    broadcast use vstd::seq_lib::group_to_multiset_ensures;

    let all = s.push(p);
    let ak = pair_keys(all);
    if s.len() == 0 {
        assert(seq![p] =~= Seq::<(JsonV, JsonV)>::empty().push(p));
    } else if json_less(p.0, s.last().0) {
        let rest = s.drop_last();
        let last = s.last();
        let rk = pair_keys(rest.push(p));
        assert forall|k: int| 0 <= k < rk.len() implies ak.contains(#[trigger] rk[k]) by {
            if k < rest.len() {
                assert(ak[k] == rk[k]);
            } else {
                assert(ak[ak.len() - 1] == rk[k]);
            }
        }
        lemma_sortable_within(rk, ak);
        assert forall|i: int, j: int| 0 <= i < j < rest.len() implies !json_less(
            (#[trigger] rest[j]).0,
            (#[trigger] rest[i]).0,
        ) by {
            assert(rest[i] == s[i] && rest[j] == s[j]);
        }
        lemma_insert_by_key_sorted(rest, p);
        let r = insert_by_key(rest, p);
        assert(s =~= rest.push(last));
        assert(ak[s.len() - 1] == last.0 && ak[s.len() as int] == p.0);
        assert forall|i: int, j: int| 0 <= i < j < r.push(last).len() implies !json_less(
            (#[trigger] r.push(last)[j]).0,
            (#[trigger] r.push(last)[i]).0,
        ) by {
            if j == r.len() {
                let q = r[i];
                assert(r.to_multiset().count(q) > 0) by {
                    assert(r.contains(q));
                }
                if q == p {
                    lemma_json_order(p.0, last.0, last.0);
                } else {
                    assert(rest.to_multiset().count(q) > 0);
                    assert(rest.contains(q));
                    let m = choose|m: int| 0 <= m < rest.len() && rest[m] == q;
                    assert(s[m] == q && s[s.len() - 1] == last);
                }
            } else {
                assert(r.push(last)[i] == r[i] && r.push(last)[j] == r[j]);
            }
        }
    } else {
        let last = s.last();
        assert forall|i: int, j: int| 0 <= i < j < s.push(p).len() implies !json_less(
            (#[trigger] s.push(p)[j]).0,
            (#[trigger] s.push(p)[i]).0,
        ) by {
            if j == s.len() {
                assert(ak[i] == s[i].0 && ak[s.len() - 1] == last.0 && ak[s.len() as int] == p.0);
                if i < s.len() - 1 {
                    assert(!json_less(s[s.len() - 1].0, s[i].0));
                }
                lemma_json_order(s[i].0, last.0, p.0);
            } else {
                assert(s.push(p)[i] == s[i] && s.push(p)[j] == s[j]);
            }
        }
    }
}

proof fn lemma_sort_by_key_sorted(ps: Seq<(JsonV, JsonV)>)
    requires
        sortable(pair_keys(ps)),
    ensures
        keys_in_order(sort_by_key(ps)),
        sort_by_key(ps).to_multiset() =~= ps.to_multiset(),
    decreases ps.len(),
{
    broadcast use vstd::seq_lib::group_to_multiset_ensures;

    if ps.len() > 0 {
        let rest = ps.drop_last();
        let p = ps.last();
        let pk = pair_keys(ps);
        assert(ps =~= rest.push(p));
        assert forall|k: int| 0 <= k < pair_keys(rest).len() implies pk.contains(#[trigger] pair_keys(rest)[k]) by {
            assert(pk[k] == pair_keys(rest)[k]);
        }
        lemma_sortable_within(pair_keys(rest), pk);
        lemma_sort_by_key_sorted(rest);
        let sorted = sort_by_key(rest);
        let sk = pair_keys(sorted.push(p));
        assert forall|k: int| 0 <= k < sk.len() implies pk.contains(#[trigger] sk[k]) by {
            if k < sorted.len() {
                let q = sorted[k];
                assert(sorted.contains(q));
                assert(sorted.to_multiset().count(q) > 0);
                assert(rest.contains(q));
                let m = choose|m: int| 0 <= m < rest.len() && rest[m] == q;
                assert(pk[m] == q.0);
                assert(sk[k] == q.0);
            } else {
                assert(pk[ps.len() - 1] == sk[k]);
            }
        }
        lemma_sortable_within(sk, pk);
        lemma_insert_by_key_sorted(sorted, p);
    }
}

/// Sorting by a key gives the same items, each as often and with its key,
/// in order of their keys.
pub proof fn lemma_sort_by_in_order(e: TransformerExpression, xs: Seq<JsonV>, ks: Seq<JsonV>)
    requires
        each_spec(e, xs, xs.len() as int) == Some(ks),
        sortable(ks),
    ensures
        eval_spec(Transformer::SortBy(e), JsonV::Array(xs)) == Some(
            JsonV::Array(pair_items(sort_by_key(keyed(ks, xs)))),
        ),
        keys_in_order(sort_by_key(keyed(ks, xs))),
        sort_by_key(keyed(ks, xs)).to_multiset() =~= keyed(ks, xs).to_multiset(),
{
    lemma_each_len(e, xs, xs.len() as int);
    assert(pair_keys(keyed(ks, xs)) =~= ks);
    lemma_sort_by_key_sorted(keyed(ks, xs));
}

/// How a predicate's result is read: true, false (or null), or neither.
pub open spec fn verdict(v: Option<JsonV>) -> Option<bool> {
    match v {
        Some(JsonV::Bool(b)) => Some(b),
        Some(JsonV::Null) => Some(false),
        _ => None,
    }
}

/// The first `n` transformers of `e` applied in turn to `v`; nothing when one
/// of them gives nothing.
pub open spec fn expr_spec(e: TransformerExpression, v: JsonV, n: int) -> Option<JsonV>
    decreases e, 1int, n,
{
    if n <= 0 || n > e.transformers@.len() {
        Some(v)
    } else {
        proof {
            assert(decreases_to!(e => e.transformers));
            assert(decreases_to!(e.transformers => e.transformers@));
            assert(decreases_to!(e.transformers@ => e.transformers@[n - 1]));
        }
        match expr_spec(e, v, n - 1) {
            Some(w) => eval_spec(e.transformers@[n - 1], w),
            None => None,
        }
    }
}

/// What the transformers of `e` make of `v`.
pub open spec fn apply_spec(e: TransformerExpression, v: JsonV) -> Option<JsonV> {
    expr_spec(e, v, e.transformers@.len() as int)
}

/// `e` applied to each of the first `n` items.
pub open spec fn each_spec(e: TransformerExpression, xs: Seq<JsonV>, n: int) -> Option<Seq<JsonV>>
    decreases e, 2int, n,
{
    if n <= 0 || n > xs.len() {
        Some(Seq::empty())
    } else {
        match (each_spec(e, xs, n - 1), expr_spec(e, xs[n - 1], e.transformers@.len() as int)) {
            (Some(r), Some(w)) => Some(r.push(w)),
            _ => None,
        }
    }
}

/// `e` applied to the value of each of the first `n` entries.
pub open spec fn each_entry_spec(e: TransformerExpression, es: Seq<(Seq<char>, JsonV)>, n: int) -> Option<
    Seq<(Seq<char>, JsonV)>,
>
    decreases e, 2int, n,
{
    if n <= 0 || n > es.len() {
        Some(Seq::empty())
    } else {
        match (
            each_entry_spec(e, es, n - 1),
            expr_spec(e, es[n - 1].1, e.transformers@.len() as int),
        ) {
            (Some(r), Some(w)) => Some(r.push((es[n - 1].0, w))),
            _ => None,
        }
    }
}

/// The first `n` items for which `e` gives true (dropped for false or
/// null); nothing when it gives anything else.
pub open spec fn filter_spec(e: TransformerExpression, xs: Seq<JsonV>, n: int) -> Option<Seq<JsonV>>
    decreases e, 2int, n,
{
    if n <= 0 || n > xs.len() {
        Some(Seq::empty())
    } else {
        match (
            filter_spec(e, xs, n - 1),
            verdict(expr_spec(e, xs[n - 1], e.transformers@.len() as int)),
        ) {
            (Some(r), Some(true)) => Some(r.push(xs[n - 1])),
            (Some(r), Some(false)) => Some(r),
            _ => None,
        }
    }
}

/// The first `n` entries whose value `e` gives true for.
pub open spec fn filter_entry_spec(e: TransformerExpression, es: Seq<(Seq<char>, JsonV)>, n: int) -> Option<
    Seq<(Seq<char>, JsonV)>,
>
    decreases e, 2int, n,
{
    if n <= 0 || n > es.len() {
        Some(Seq::empty())
    } else {
        match (
            filter_entry_spec(e, es, n - 1),
            verdict(expr_spec(e, es[n - 1].1, e.transformers@.len() as int)),
        ) {
            (Some(r), Some(true)) => Some(r.push(es[n - 1])),
            (Some(r), Some(false)) => Some(r),
            _ => None,
        }
    }
}

/// Whether `e` gives true for one of the first `n` items, read in order and
/// stopping at the first true (for `want == true`); or false for one of
/// them, stopping at the first false (for `want == false`).
pub open spec fn find_spec(e: TransformerExpression, xs: Seq<JsonV>, n: int, want: bool) -> Option<bool>
    decreases e, 2int, n,
{
    if n <= 0 || n > xs.len() {
        Some(false)
    } else {
        match find_spec(e, xs, n - 1, want) {
            Some(true) => Some(true),
            Some(false) => match verdict(expr_spec(e, xs[n - 1], e.transformers@.len() as int)) {
                Some(b) => Some(b == want),
                None => None,
            },
            None => None,
        }
    }
}

/// What a transformer makes of a value: nothing for the transformers that
/// compare or parse numbers, nor for a floating-point number written as a
/// string, nor for a sort whose items (or keys) are not orderable values of
/// one kind (left to the caller); nothing for a value of a type the
/// transformer does not take, nor for a pattern that does not compile. Null
/// goes through every transformer but the null tests as null. Sorting is by
/// insertion: items of equal keys keep their order.
pub open spec fn eval_spec(t: Transformer, v: JsonV) -> Option<JsonV>
    decreases t, 0int, 0int,
{
    match t {
        Transformer::IsNull => Some(JsonV::Bool(v is Null)),
        Transformer::IsNotNull => Some(JsonV::Bool(!(v is Null))),
        _ => if v is Null {
            Some(JsonV::Null)
        } else {
            match (t, v) {
                (Transformer::Not, JsonV::Bool(b)) => Some(JsonV::Bool(!b)),
                (Transformer::Hash, JsonV::Str(s)) => Some(int_json(sip_hash(s))),
                (Transformer::Length, JsonV::Array(xs)) => Some(JsonV::PosInt(xs.len() as u64)),
                (Transformer::Length, JsonV::Str(s)) => Some(JsonV::PosInt(vstd::utf8::encode_utf8(s).len() as u64)),
                (Transformer::Length, JsonV::Object(es)) => Some(JsonV::PosInt(es.len() as u64)),
                (Transformer::IsEmpty, JsonV::Array(xs)) => Some(JsonV::Bool(xs.len() == 0)),
                (Transformer::IsEmpty, JsonV::Str(s)) => Some(JsonV::Bool(s.len() == 0)),
                (Transformer::IsEmpty, JsonV::Object(es)) => Some(JsonV::Bool(es.len() == 0)),
                (Transformer::Get(k), JsonV::Object(es)) => match entry_of(es, k@) {
                    Some(x) => Some(x),
                    None => Some(JsonV::Null),
                },
                (Transformer::GetIdx(i), JsonV::Array(xs)) => if i < xs.len() {
                    Some(xs[i as int])
                } else {
                    Some(JsonV::Null)
                },
                (Transformer::Flatten, JsonV::Array(xs)) => match flatten_spec(xs) {
                    Some(ys) => Some(JsonV::Array(ys)),
                    None => None,
                },
                (Transformer::Each(e), JsonV::Array(xs)) => match each_spec(e, xs, xs.len() as int) {
                    Some(ys) => Some(JsonV::Array(ys)),
                    None => None,
                },
                (Transformer::Each(e), JsonV::Object(es)) => match each_entry_spec(
                    e,
                    es,
                    es.len() as int,
                ) {
                    Some(ys) => Some(JsonV::Object(ys)),
                    None => None,
                },
                (Transformer::Filter(e), JsonV::Array(xs)) => match filter_spec(e, xs, xs.len() as int) {
                    Some(ys) => Some(JsonV::Array(ys)),
                    None => None,
                },
                (Transformer::Filter(e), JsonV::Object(es)) => match filter_entry_spec(
                    e,
                    es,
                    es.len() as int,
                ) {
                    Some(ys) => Some(JsonV::Object(ys)),
                    None => None,
                },
                (Transformer::Any(e), JsonV::Array(xs)) => match find_spec(e, xs, xs.len() as int, true) {
                    Some(b) => Some(JsonV::Bool(b)),
                    None => None,
                },
                (Transformer::All(e), JsonV::Array(xs)) => match find_spec(e, xs, xs.len() as int, false) {
                    Some(b) => Some(JsonV::Bool(!b)),
                    None => None,
                },
                (Transformer::Sort, JsonV::Array(xs)) => if sortable(xs) {
                    Some(JsonV::Array(sort_spec(xs)))
                } else {
                    None
                },
                (Transformer::SortBy(e), JsonV::Array(xs)) => match each_spec(e, xs, xs.len() as int) {
                    Some(ks) => if sortable(ks) {
                        Some(JsonV::Array(pair_items(sort_by_key(keyed(ks, xs)))))
                    } else {
                        None
                    },
                    None => None,
                },
                (Transformer::AsString, JsonV::PosInt(n)) => Some(JsonV::Str(decimal_text(n as nat))),
                (Transformer::AsString, JsonV::NegInt(n)) => Some(JsonV::Str(signed_text(n))),
                (Transformer::AsString, JsonV::Bool(b)) => Some(
                    JsonV::Str(
                        if b {
                            "true"@
                        } else {
                            "false"@
                        },
                    ),
                ),
                (Transformer::AsString, JsonV::Str(s)) => Some(JsonV::Str(s)),
                (Transformer::Pretty, JsonV::Str(s)) => Some(JsonV::Str(pretty_text(s))),
                (Transformer::EqualsString(a), JsonV::Str(s)) => Some(JsonV::Bool(a@ == s)),
                (Transformer::InStrings(ss), JsonV::Str(s)) => Some(
                    JsonV::Bool(exists|k: int| 0 <= k < ss@.len() && (#[trigger] ss@[k])@ == s),
                ),
                (Transformer::Matches(re), JsonV::Str(s)) => if regex_error(re.source@) is None {
                    Some(JsonV::Bool(regex_is_match(re.source@, s)))
                } else {
                    None
                },
                (Transformer::Capture(re), JsonV::Str(s)) => if regex_error(re.source@) is None {
                    match regex_captures(re.source@, s) {
                        Some(g) => Some(capture_object(g)),
                        None => Some(JsonV::Null),
                    }
                } else {
                    None
                },
                (Transformer::AllCaptures(re), JsonV::Str(s)) => if regex_error(re.source@) is None {
                    let ms = regex_all_captures(re.source@, s);
                    Some(JsonV::Array(Seq::new(ms.len(), |k: int| capture_object(ms[k]))))
                } else {
                    None
                },
                (Transformer::Replace(re, rep), JsonV::Str(s)) => if regex_error(re.source@) is None {
                    Some(JsonV::Str(regex_replaced(re.source@, s, rep@)))
                } else {
                    None
                },
                _ => None,
            }
        },
    }
}

pub open spec fn opt_view(r: Option<Json>) -> Option<JsonV> {
    match r {
        Some(j) => Some(json_view(j)),
        None => None,
    }
}

pub proof fn lemma_jsons_push(xs: Seq<Json>, x: Json)
    ensures
        jsons_view(xs.push(x)) == jsons_view(xs).push(json_view(x)),
{
    assert(xs.push(x).drop_last() =~= xs);
}

proof fn lemma_entries_push(es: Seq<(String, Json)>, x: (String, Json))
    ensures
        entries_view(es.push(x)) == entries_view(es).push((x.0@, json_view(x.1))),
{
    assert(es.push(x).drop_last() =~= es);
}

proof fn lemma_each_stuck(e: TransformerExpression, xs: Seq<JsonV>, n: int)
    requires
        0 < n <= xs.len(),
        each_spec(e, xs, n) is None,
    ensures
        each_spec(e, xs, xs.len() as int) is None,
    decreases xs.len() - n,
{
    if n < xs.len() {
        lemma_each_stuck(e, xs, n + 1);
    }
}

proof fn lemma_each_entry_stuck(e: TransformerExpression, es: Seq<(Seq<char>, JsonV)>, n: int)
    requires
        0 < n <= es.len(),
        each_entry_spec(e, es, n) is None,
    ensures
        each_entry_spec(e, es, es.len() as int) is None,
    decreases es.len() - n,
{
    if n < es.len() {
        lemma_each_entry_stuck(e, es, n + 1);
    }
}

proof fn lemma_filter_stuck(e: TransformerExpression, xs: Seq<JsonV>, n: int)
    requires
        0 < n <= xs.len(),
        filter_spec(e, xs, n) is None,
    ensures
        filter_spec(e, xs, xs.len() as int) is None,
    decreases xs.len() - n,
{
    if n < xs.len() {
        lemma_filter_stuck(e, xs, n + 1);
    }
}

proof fn lemma_filter_entry_stuck(e: TransformerExpression, es: Seq<(Seq<char>, JsonV)>, n: int)
    requires
        0 < n <= es.len(),
        filter_entry_spec(e, es, n) is None,
    ensures
        filter_entry_spec(e, es, es.len() as int) is None,
    decreases es.len() - n,
{
    if n < es.len() {
        lemma_filter_entry_stuck(e, es, n + 1);
    }
}

proof fn lemma_find_stuck(e: TransformerExpression, xs: Seq<JsonV>, n: int, want: bool)
    requires
        0 < n <= xs.len(),
        find_spec(e, xs, n, want) is None || find_spec(e, xs, n, want) == Some(true),
    ensures
        find_spec(e, xs, xs.len() as int, want) == find_spec(e, xs, n, want),
    decreases xs.len() - n,
{
    if n < xs.len() {
        lemma_find_stuck(e, xs, n + 1, want);
    }
}

proof fn lemma_flatten_stuck(xs: Seq<JsonV>, n: int)
    requires
        0 < n <= xs.len(),
        flatten_spec(xs.take(n)) is None,
    ensures
        flatten_spec(xs) is None,
    decreases xs.len() - n,
{
    if n < xs.len() {
        assert(xs.take(n + 1).drop_last() =~= xs.take(n));
        lemma_flatten_stuck(xs, n + 1);
    } else {
        assert(xs.take(n) =~= xs);
    }
}

/// A copy of a JSON value.
pub fn clone_json(j: &Json) -> (r: Json)
    ensures
        json_view(r) == json_view(*j),
    decreases j,
{
    match j {
        Json::Null => Json::Null,
        Json::Bool(b) => Json::Bool(*b),
        Json::PosInt(n) => Json::PosInt(*n),
        Json::NegInt(n) => Json::NegInt(*n),
        Json::Float(b) => Json::Float(*b),
        Json::Str(t) => Json::Str(t.clone()),
        Json::Array(xs) => {
            let mut out: Vec<Json> = Vec::new();
            let mut k: usize = 0;
            proof {
                lemma_jsons_view(xs@);
            }
            assert(jsons_view(out@) =~= jsons_view(xs@).take(0));
            while k < xs.len()
                invariant
                    k <= xs@.len(),
                    *j == Json::Array(*xs),
                    jsons_view(xs@).len() == xs@.len(),
                    forall|i: int| 0 <= i < xs@.len() ==> #[trigger] jsons_view(xs@)[i] == json_view(xs@[i]),
                    jsons_view(out@) == jsons_view(xs@).take(k as int),
                decreases xs.len() - k,
            {
                proof {
                    let parts = (*j)->Array_0;
                    assert(decreases_to!(*j => (*j)->Array_0));
                    assert(decreases_to!(parts => parts@));
                    assert(decreases_to!(parts@ => parts@[k as int]));
                }
                let item = clone_json(&xs[k]);
                proof {
                    lemma_jsons_push(out@, item);
                }
                out.push(item);
                assert(jsons_view(out@) =~= jsons_view(xs@).take(k + 1));
                k = k + 1;
            }
            assert(jsons_view(xs@).take(k as int) =~= jsons_view(xs@));
            Json::Array(out)
        },
        Json::Object(es) => {
            let mut out: Vec<(String, Json)> = Vec::new();
            let mut k: usize = 0;
            proof {
                lemma_entries_view(es@);
            }
            assert(entries_view(out@) =~= entries_view(es@).take(0));
            while k < es.len()
                invariant
                    k <= es@.len(),
                    *j == Json::Object(*es),
                    entries_view(es@).len() == es@.len(),
                    forall|i: int|
                        0 <= i < es@.len() ==> #[trigger] entries_view(es@)[i] == (es@[i].0@, json_view(es@[i].1)),
                    entries_view(out@) == entries_view(es@).take(k as int),
                decreases es.len() - k,
            {
                proof {
                    let parts = (*j)->Object_0;
                    assert(decreases_to!(*j => (*j)->Object_0));
                    assert(decreases_to!(parts => parts@));
                    assert(decreases_to!(parts@ => parts@[k as int]));
                    assert(decreases_to!(parts@[k as int] => parts@[k as int].1));
                }
                let item = (es[k].0.clone(), clone_json(&es[k].1));
                proof {
                    lemma_entries_push(out@, item);
                }
                out.push(item);
                assert(entries_view(out@) =~= entries_view(es@).take(k + 1));
                k = k + 1;
            }
            assert(entries_view(es@).take(k as int) =~= entries_view(es@));
            Json::Object(out)
        },
    }
}

/// What the transformers of `e`, one after the other, make of `v`.
pub fn eval_expression(e: &TransformerExpression, v: &Json) -> (r: Option<Json>)
    ensures
        opt_view(r) == apply_spec(*e, json_view(*v)),
    decreases e, 1int,
{
    let mut cur = clone_json(v);
    let mut k: usize = 0;
    while k < e.transformers.len()
        invariant
            k <= e.transformers@.len(),
            expr_spec(*e, json_view(*v), k as int) == Some(json_view(cur)),
        decreases e.transformers.len() - k,
    {
        proof {
            assert(decreases_to!(*e => e.transformers));
            assert(decreases_to!(e.transformers => e.transformers@));
            assert(decreases_to!(e.transformers@ => e.transformers@[k as int]));
        }
        match eval(&e.transformers[k], &cur) {
            Some(next) => {
                cur = next;
            },
            None => {
                proof {
                    lemma_expr_stuck(*e, json_view(*v), k as int + 1);
                }
                return None;
            },
        }
        k = k + 1;
    }
    Some(cur)
}

proof fn lemma_expr_stuck(e: TransformerExpression, v: JsonV, n: int)
    requires
        0 < n <= e.transformers@.len(),
        expr_spec(e, v, n) is None,
    ensures
        apply_spec(e, v) is None,
    decreases e.transformers@.len() - n,
{
    if n < e.transformers@.len() {
        lemma_expr_stuck(e, v, n + 1);
    }
}

/// How a predicate's result reads, as the spec reads it.
fn verdict_of(r: &Option<Json>) -> (b: Option<bool>)
    ensures
        b == verdict(opt_view(*r)),
{
    match r {
        Some(Json::Bool(b)) => Some(*b),
        Some(Json::Null) => Some(false),
        _ => None,
    }
}

/// What a transformer makes of a value; nothing for what is left to the
/// caller (number comparisons and parsing, floating-point numbers as
/// strings, sorts of other than orderable values of one kind) and for a
/// value of a type the transformer does not take.
pub fn eval(t: &Transformer, v: &Json) -> (r: Option<Json>)
    ensures
        opt_view(r) == eval_spec(*t, json_view(*v)),
    decreases t, 0int,
{
    match t {
        Transformer::IsNull => return Some(Json::Bool(matches!(v, Json::Null))),
        Transformer::IsNotNull => return Some(Json::Bool(!matches!(v, Json::Null))),
        _ => {},
    }
    if let Json::Null = v {
        return Some(Json::Null);
    }
    proof {
        match v {
            Json::Array(xs) => lemma_jsons_view(xs@),
            Json::Object(es) => lemma_entries_view(es@),
            _ => {},
        }
    }
    match (t, v) {
        (Transformer::Not, Json::Bool(b)) => Some(Json::Bool(!*b)),
        (Transformer::Hash, Json::Str(s)) => {
            let h = sip_hash_text(s.as_str());
            if h < 0 {
                Some(Json::NegInt(h))
            } else {
                Some(Json::PosInt(h as u64))
            }
        },
        (Transformer::Length, Json::Array(xs)) => Some(Json::PosInt(xs.len() as u64)),
        (Transformer::Length, Json::Str(s)) => {
            let bytes = s.as_str().as_bytes_vec();
            Some(Json::PosInt(bytes.len() as u64))
        },
        (Transformer::Length, Json::Object(es)) => Some(Json::PosInt(es.len() as u64)),
        (Transformer::IsEmpty, Json::Array(xs)) => Some(Json::Bool(xs.len() == 0)),
        (Transformer::IsEmpty, Json::Str(s)) => Some(Json::Bool(s.as_str().is_empty())),
        (Transformer::IsEmpty, Json::Object(es)) => Some(Json::Bool(es.len() == 0)),
        (Transformer::Get(key), Json::Object(es)) => Some(get_entry(es, key)),
        (Transformer::GetIdx(i), Json::Array(xs)) => {
            proof {
                lemma_jsons_view(xs@);
            }
            if *i < xs.len() {
                Some(clone_json(&xs[*i]))
            } else {
                Some(Json::Null)
            }
        },
        (Transformer::Flatten, Json::Array(xs)) => match flatten(xs) {
            Some(ys) => Some(Json::Array(ys)),
            None => None,
        },
        (Transformer::Each(e), Json::Array(xs)) => match each_items(e, xs) {
            Some(ys) => Some(Json::Array(ys)),
            None => None,
        },
        (Transformer::Each(e), Json::Object(es)) => match each_entries(e, es) {
            Some(ys) => Some(Json::Object(ys)),
            None => None,
        },
        (Transformer::Filter(e), Json::Array(xs)) => match filter_items(e, xs) {
            Some(ys) => Some(Json::Array(ys)),
            None => None,
        },
        (Transformer::Filter(e), Json::Object(es)) => match filter_entries(e, es) {
            Some(ys) => Some(Json::Object(ys)),
            None => None,
        },
        (Transformer::Any(e), Json::Array(xs)) => match find(e, xs, true) {
            Some(b) => Some(Json::Bool(b)),
            None => None,
        },
        (Transformer::All(e), Json::Array(xs)) => match find(e, xs, false) {
            Some(b) => Some(Json::Bool(!b)),
            None => None,
        },
        (Transformer::Sort, Json::Array(xs)) => {
            if is_sortable(xs) {
                Some(Json::Array(sort_items(xs)))
            } else {
                None
            }
        },
        (Transformer::SortBy(e), Json::Array(xs)) => match each_items(e, xs) {
            Some(ks) => {
                proof {
                    lemma_each_len(*e, jsons_view(xs@), xs@.len() as int);
                    lemma_jsons_view(xs@);
                    lemma_jsons_view(ks@);
                }
                if is_sortable(&ks) {
                    Some(Json::Array(sort_keyed(&ks, xs)))
                } else {
                    None
                }
            },
            None => None,
        },
        (Transformer::AsString, Json::PosInt(n)) => Some(Json::Str(decimal_u64(*n))),
        (Transformer::AsString, Json::NegInt(n)) => Some(Json::Str(signed_string(*n))),
        (Transformer::AsString, Json::Bool(b)) => {
            if *b {
                Some(Json::Str(String::from_str("true")))
            } else {
                Some(Json::Str(String::from_str("false")))
            }
        },
        (Transformer::AsString, Json::Str(s)) => Some(Json::Str(s.clone())),
        (Transformer::Pretty, Json::Str(s)) => Some(Json::Str(pretty(s.as_str()))),
        (Transformer::EqualsString(a), Json::Str(s)) => Some(Json::Bool(*a == *s)),
        (Transformer::InStrings(ss), Json::Str(s)) => Some(Json::Bool(in_strings(ss, s))),
        (Transformer::Matches(re), Json::Str(s)) => match is_match_of(re.source.as_str(), s.as_str()) {
            Some(b) => Some(Json::Bool(b)),
            None => None,
        },
        (Transformer::Capture(re), Json::Str(s)) => match captures_of(re.source.as_str(), s.as_str()) {
            Some(Some(g)) => Some(Json::Object(capture_entries_of(&g))),
            Some(None) => Some(Json::Null),
            None => None,
        },
        (Transformer::AllCaptures(re), Json::Str(s)) => match all_captures_of(
            re.source.as_str(),
            s.as_str(),
        ) {
            Some(ms) => {
                let objs = capture_objects_of(&ms);
                proof {
                    let w = regex_all_captures(re.source@, s@);
                    assert(jsons_view(objs@) =~= Seq::new(w.len(), |k: int| capture_object(w[k])));
                }
                Some(Json::Array(objs))
            },
            None => None,
        },
        (Transformer::Replace(re, rep), Json::Str(s)) => match replace_all(
            re.source.as_str(),
            s.as_str(),
            rep.as_str(),
        ) {
            Some(r) => Some(Json::Str(r)),
            None => None,
        },
        _ => None,
    }
}

fn each_items(e: &TransformerExpression, xs: &Vec<Json>) -> (r: Option<Vec<Json>>)
    ensures
        match r { Some(ys) => each_spec(*e, jsons_view(xs@), xs@.len() as int) == Some(jsons_view(ys@)), None => each_spec(*e, jsons_view(xs@), xs@.len() as int) is None },
    decreases e, 2int,
{
    let ghost xv = jsons_view(xs@);
    proof {
        lemma_jsons_view(xs@);
    }
    let mut out: Vec<Json> = Vec::new();
    let mut k: usize = 0;
    assert(jsons_view(out@) =~= Seq::<JsonV>::empty());
    while k < xs.len()
        invariant
            k <= xs@.len(),
            xv == jsons_view(xs@),
            xv.len() == xs@.len(),
            forall|i: int| 0 <= i < xs@.len() ==> #[trigger] xv[i] == json_view(xs@[i]),
            each_spec(*e, xv, k as int) == Some(jsons_view(out@)),
        decreases xs.len() - k,
    {
        match eval_expression(e, &xs[k]) {
            Some(w) => {
                proof {
                    lemma_jsons_push(out@, w);
                }
                out.push(w);
            },
            None => {
                proof {
                    lemma_each_stuck(*e, xv, k as int + 1);
                }
                return None;
            },
        }
        k = k + 1;
    }
    Some(out)

}

fn each_entries(e: &TransformerExpression, es: &Vec<(String, Json)>) -> (r: Option<Vec<(String, Json)>>)
    ensures
        match r { Some(ys) => each_entry_spec(*e, entries_view(es@), es@.len() as int) == Some(entries_view(ys@)), None => each_entry_spec(*e, entries_view(es@), es@.len() as int) is None },
    decreases e, 2int,
{
    let ghost ev = entries_view(es@);
    proof {
        lemma_entries_view(es@);
    }
    let mut out: Vec<(String, Json)> = Vec::new();
    let mut k: usize = 0;
    assert(entries_view(out@) =~= Seq::<(Seq<char>, JsonV)>::empty());
    while k < es.len()
        invariant
            k <= es@.len(),
            ev == entries_view(es@),
            ev.len() == es@.len(),
            forall|i: int| 0 <= i < es@.len() ==> #[trigger] ev[i] == (es@[i].0@, json_view(es@[i].1)),
            each_entry_spec(*e, ev, k as int) == Some(entries_view(out@)),
        decreases es.len() - k,
    {
        match eval_expression(e, &es[k].1) {
            Some(w) => {
                let item = (es[k].0.clone(), w);
                proof {
                    lemma_entries_push(out@, item);
                }
                out.push(item);
            },
            None => {
                proof {
                    lemma_each_entry_stuck(*e, ev, k as int + 1);
                }
                return None;
            },
        }
        k = k + 1;
    }
    Some(out)

}

fn filter_items(e: &TransformerExpression, xs: &Vec<Json>) -> (r: Option<Vec<Json>>)
    ensures
        match r { Some(ys) => filter_spec(*e, jsons_view(xs@), xs@.len() as int) == Some(jsons_view(ys@)), None => filter_spec(*e, jsons_view(xs@), xs@.len() as int) is None },
    decreases e, 2int,
{
    let ghost xv = jsons_view(xs@);
    proof {
        lemma_jsons_view(xs@);
    }
    let mut out: Vec<Json> = Vec::new();
    let mut k: usize = 0;
    assert(jsons_view(out@) =~= Seq::<JsonV>::empty());
    while k < xs.len()
        invariant
            k <= xs@.len(),
            xv == jsons_view(xs@),
            xv.len() == xs@.len(),
            forall|i: int| 0 <= i < xs@.len() ==> #[trigger] xv[i] == json_view(xs@[i]),
            filter_spec(*e, xv, k as int) == Some(jsons_view(out@)),
        decreases xs.len() - k,
    {
        let res = eval_expression(e, &xs[k]);
        match verdict_of(&res) {
            Some(true) => {
                let item = clone_json(&xs[k]);
                proof {
                    lemma_jsons_push(out@, item);
                }
                out.push(item);
            },
            Some(false) => {},
            None => {
                proof {
                    lemma_filter_stuck(*e, xv, k as int + 1);
                }
                return None;
            },
        }
        k = k + 1;
    }
    Some(out)

}

fn filter_entries(e: &TransformerExpression, es: &Vec<(String, Json)>) -> (r: Option<Vec<(String, Json)>>)
    ensures
        match r { Some(ys) => filter_entry_spec(*e, entries_view(es@), es@.len() as int) == Some(entries_view(ys@)), None => filter_entry_spec(*e, entries_view(es@), es@.len() as int) is None },
    decreases e, 2int,
{
    let ghost ev = entries_view(es@);
    proof {
        lemma_entries_view(es@);
    }
    let mut out: Vec<(String, Json)> = Vec::new();
    let mut k: usize = 0;
    assert(entries_view(out@) =~= Seq::<(Seq<char>, JsonV)>::empty());
    while k < es.len()
        invariant
            k <= es@.len(),
            ev == entries_view(es@),
            ev.len() == es@.len(),
            forall|i: int| 0 <= i < es@.len() ==> #[trigger] ev[i] == (es@[i].0@, json_view(es@[i].1)),
            filter_entry_spec(*e, ev, k as int) == Some(entries_view(out@)),
        decreases es.len() - k,
    {
        let res = eval_expression(e, &es[k].1);
        match verdict_of(&res) {
            Some(true) => {
                let item = (es[k].0.clone(), clone_json(&es[k].1));
                proof {
                    lemma_entries_push(out@, item);
                }
                out.push(item);
            },
            Some(false) => {},
            None => {
                proof {
                    lemma_filter_entry_stuck(*e, ev, k as int + 1);
                }
                return None;
            },
        }
        k = k + 1;
    }
    Some(out)

}

/// The entries of a match's groups that took part.
fn capture_entries_of(g: &Groups) -> (r: Vec<(String, Json)>)
    ensures
        entries_view(r@) == capture_entries(groups_view(g@), g@.len() as int),
{
    let ghost gv = groups_view(g@);
    let mut r: Vec<(String, Json)> = Vec::new();
    let mut k: usize = 0;
    assert(entries_view(r@) =~= Seq::<(Seq<char>, JsonV)>::empty());
    while k < g.len()
        invariant
            k <= g@.len(),
            gv == groups_view(g@),
            gv.len() == g@.len(),
            entries_view(r@) == capture_entries(gv, k as int),
        decreases g.len() - k,
    {
        assert(gv[k as int] == (
            match g@[k as int].0 { Some(n) => Some(n@), None => None::<Seq<char>> },
            match g@[k as int].1 { Some(t) => Some(t@), None => None::<Seq<char>> },
        ));
        match &g[k].1 {
            Some(t) => {
                let key = match &g[k].0 {
                    Some(name) => name.clone(),
                    None => decimal_string(k),
                };
                let item = (key, Json::Str(t.clone()));
                proof {
                    lemma_entries_push(r@, item);
                }
                r.push(item);
            },
            None => {},
        }
        k = k + 1;
    }
    r
}

/// The objects of each match's groups.
fn capture_objects_of(ms: &Vec<Groups>) -> (r: Vec<Json>)
    ensures
        jsons_view(r@) == Seq::new(
            ms@.len(),
            |k: int| capture_object(groups_view(ms@[k]@)),
        ),
{
    let mut r: Vec<Json> = Vec::new();
    let mut k: usize = 0;
    while k < ms.len()
        invariant
            k <= ms@.len(),
            jsons_view(r@) == Seq::new(k as nat, |i: int| capture_object(groups_view(ms@[i]@))),
        decreases ms.len() - k,
    {
        let entries = capture_entries_of(&ms[k]);
        let item = Json::Object(entries);
        proof {
            lemma_jsons_push(r@, item);
        }
        r.push(item);
        assert(jsons_view(r@) =~= Seq::new((k + 1) as nat, |i: int| capture_object(groups_view(ms@[i]@))));
        k = k + 1;
    }
    assert(Seq::new(k as nat, |i: int| capture_object(groups_view(ms@[i]@))) =~= Seq::new(
        ms@.len(),
        |i: int| capture_object(groups_view(ms@[i]@)),
    ));
    r
}

/// The kind of a value.
fn kind_of(x: &Json) -> (r: u8)
    ensures
        r as int == kind(json_view(*x)),
{
    match x {
        Json::Null => 0,
        Json::Bool(_) => 1,
        Json::PosInt(_) | Json::NegInt(_) | Json::Float(_) => 2,
        Json::Str(_) => 3,
        Json::Array(_) => 4,
        Json::Object(_) => 5,
    }
}

/// Whether the library sorts the array.
fn is_sortable(xs: &Vec<Json>) -> (r: bool)
    ensures
        r == sortable(jsons_view(xs@)),
{
    let ghost xv = jsons_view(xs@);
    proof {
        lemma_jsons_view(xs@);
    }
    let mut first: u8 = 0;
    let mut k: usize = 0;
    while k < xs.len()
        invariant
            k <= xs@.len(),
            xv == jsons_view(xs@),
            xv.len() == xs@.len(),
            forall|i: int| 0 <= i < xs@.len() ==> #[trigger] xv[i] == json_view(xs@[i]),
            forall|i: int| 0 <= i < k ==> orderable(#[trigger] xv[i]),
            first == 0 ==> forall|i: int| 0 <= i < k ==> (#[trigger] xv[i]) is Null,
            first != 0 ==> first != 0 && forall|i: int| 0 <= i < k && !(xv[i] is Null) ==> kind(#[trigger] xv[i]) == first as int,
            first != 0 ==> exists|i: int| 0 <= i < k && !(xv[i] is Null) && kind(#[trigger] xv[i]) == first as int,
        decreases xs.len() - k,
    {
        let x = &xs[k];
        let ok = match x {
            Json::Null | Json::Bool(_) | Json::Str(_) => true,
            Json::PosInt(n) => *n <= 0x20_0000_0000_0000u64,
            Json::NegInt(n) => *n >= -0x20_0000_0000_0000i64,
            _ => false,
        };
        if !ok {
            assert(!orderable(xv[k as int]));
            return false;
        }
        let c = kind_of(x);
        if c != 0 {
            if first == 0 {
                first = c;
                assert(!(xv[k as int] is Null) && kind(xv[k as int]) == first as int);
            } else if c != first {
                let ghost w = choose|i: int| 0 <= i < k && !(xv[i] is Null) && kind(#[trigger] xv[i]) == first as int;
                assert(kind(xv[w]) != kind(xv[k as int]));
                return false;
            }
        }
        k = k + 1;
    }
    true
}

/// Whether `a` comes strictly before `b`, for orderable values.
fn less(a: &Json, b: &Json) -> (r: bool)
    ensures
        r == json_less(json_view(*a), json_view(*b)),
{
    match (a, b) {
        (Json::Null, Json::Null) => false,
        (Json::Null, _) => true,
        (_, Json::Null) => false,
        (Json::Bool(x), Json::Bool(y)) => !*x && *y,
        (Json::Str(x), Json::Str(y)) => {
            let xc = chars_of(x.as_str());
            let yc = chars_of(y.as_str());
            chars_less(&xc, &yc)
        },
        (Json::PosInt(x), Json::PosInt(y)) => *x < *y,
        (Json::NegInt(x), Json::NegInt(y)) => *x < *y,
        (Json::NegInt(x), Json::PosInt(y)) => (*x as i128) < (*y as i128),
        (Json::PosInt(x), Json::NegInt(y)) => (*x as i128) < (*y as i128),
        _ => false,
    }
}

proof fn lemma_insert_at(s: Seq<JsonV>, x: JsonV, p: int)
    requires
        0 <= p <= s.len(),
        forall|j: int| p <= j < s.len() ==> json_less(x, #[trigger] s[j]),
        p == 0 || !json_less(x, s[p - 1]),
    ensures
        insert_sorted(s, x) == s.insert(p, x),
    decreases s.len(),
{
    if s.len() == 0 {
        assert(s.insert(p, x) =~= seq![x]);
    } else if p == s.len() {
        assert(s.insert(p, x) =~= s.push(x));
    } else {
        assert(json_less(x, s[s.len() - 1]));
        lemma_insert_at(s.drop_last(), x, p);
        assert(s.drop_last().insert(p, x).push(s.last()) =~= s.insert(p, x));
    }
}

/// Puts `x` into the sorted `out` after every item it does not come
/// strictly before.
fn insert_item(out: &mut Vec<Json>, x: Json)
    ensures
        jsons_view(final(out)@) == insert_sorted(jsons_view(old(out)@), json_view(x)),
{
    let ghost ov = jsons_view(out@);
    proof {
        lemma_jsons_view(out@);
    }
    let mut p = out.len();
    loop
        invariant
            p <= out@.len(),
            ov == jsons_view(out@),
            ov.len() == out@.len(),
            forall|i: int| 0 <= i < out@.len() ==> #[trigger] ov[i] == json_view(out@[i]),
            forall|j: int| p <= j < ov.len() ==> json_less(json_view(x), #[trigger] ov[j]),
        ensures
            p <= out@.len(),
            ov == jsons_view(out@),
            forall|j: int| p <= j < ov.len() ==> json_less(json_view(x), #[trigger] ov[j]),
            p == 0 || !json_less(json_view(x), ov[p - 1]),
        decreases p,
    {
        if p == 0 {
            break;
        }
        let before = less(&x, &out[p - 1]);
        if !before {
            break;
        }
        p = p - 1;
    }
    proof {
        lemma_insert_at(ov, json_view(x), p as int);
    }
    let ghost xv = json_view(x);
    out.insert(p, x);
    proof {
        lemma_jsons_view(out@);
        assert(jsons_view(out@) =~= ov.insert(p as int, xv));
    }
}

/// The items sorted.
fn sort_items(xs: &Vec<Json>) -> (r: Vec<Json>)
    ensures
        jsons_view(r@) == sort_spec(jsons_view(xs@)),
{
    let ghost xv = jsons_view(xs@);
    proof {
        lemma_jsons_view(xs@);
    }
    let mut out: Vec<Json> = Vec::new();
    let mut k: usize = 0;
    assert(xv.take(0) =~= Seq::<JsonV>::empty());
    assert(jsons_view(out@) =~= Seq::<JsonV>::empty());
    while k < xs.len()
        invariant
            k <= xs@.len(),
            xv == jsons_view(xs@),
            xv.len() == xs@.len(),
            forall|i: int| 0 <= i < xs@.len() ==> #[trigger] xv[i] == json_view(xs@[i]),
            jsons_view(out@) == sort_spec(xv.take(k as int)),
        decreases xs.len() - k,
    {
        assert(xv.take(k + 1).drop_last() =~= xv.take(k as int));
        assert(xv.take(k + 1).last() == xv[k as int]);
        let item = clone_json(&xs[k]);
        insert_item(&mut out, item);
        k = k + 1;
    }
    assert(xv.take(k as int) =~= xv);
    out
}

proof fn lemma_each_len(e: TransformerExpression, xs: Seq<JsonV>, n: int)
    requires
        0 <= n <= xs.len(),
    ensures
        each_spec(e, xs, n) matches Some(ys) ==> ys.len() == n,
    decreases n,
{
    if n > 0 {
        lemma_each_len(e, xs, n - 1);
    }
}

proof fn lemma_insert_by_key_at(s: Seq<(JsonV, JsonV)>, p: (JsonV, JsonV), i: int)
    requires
        0 <= i <= s.len(),
        forall|j: int| i <= j < s.len() ==> json_less(p.0, (#[trigger] s[j]).0),
        i == 0 || !json_less(p.0, s[i - 1].0),
    ensures
        insert_by_key(s, p) == s.insert(i, p),
    decreases s.len(),
{
    if s.len() == 0 {
        assert(s.insert(i, p) =~= seq![p]);
    } else if i == s.len() {
        assert(s.insert(i, p) =~= s.push(p));
    } else {
        assert(json_less(p.0, s[s.len() - 1].0));
        lemma_insert_by_key_at(s.drop_last(), p, i);
        assert(s.drop_last().insert(i, p).push(s.last()) =~= s.insert(i, p));
    }
}

/// Puts the item `x` with key `k` into the items `items` with keys `keys`,
/// sorted by key, after every item whose key `k` does not come strictly
/// before.
fn insert_keyed(keys: &mut Vec<Json>, items: &mut Vec<Json>, k: Json, x: Json)
    requires
        old(keys)@.len() == old(items)@.len(),
    ensures
        final(keys)@.len() == final(items)@.len(),
        keyed(jsons_view(final(keys)@), jsons_view(final(items)@)) == insert_by_key(
            keyed(jsons_view(old(keys)@), jsons_view(old(items)@)),
            (json_view(k), json_view(x)),
        ),
{
    let ghost kv = jsons_view(keys@);
    let ghost iv = jsons_view(items@);
    let ghost ps = keyed(kv, iv);
    proof {
        lemma_jsons_view(keys@);
        lemma_jsons_view(items@);
    }
    let ghost kx = json_view(k);
    let mut i = keys.len();
    loop
        invariant
            i <= keys@.len(),
            keys@.len() == items@.len(),
            kv == jsons_view(keys@),
            kv.len() == keys@.len(),
            iv.len() == items@.len(),
            ps == keyed(kv, iv),
            kx == json_view(k),
            forall|m: int| 0 <= m < keys@.len() ==> #[trigger] kv[m] == json_view(keys@[m]),
            forall|j: int| i <= j < ps.len() ==> json_less(kx, (#[trigger] ps[j]).0),
        ensures
            i <= keys@.len(),
            forall|j: int| i <= j < ps.len() ==> json_less(kx, (#[trigger] ps[j]).0),
            i == 0 || !json_less(kx, ps[i - 1].0),
        decreases i,
    {
        if i == 0 {
            break;
        }
        let before = less(&k, &keys[i - 1]);
        if !before {
            break;
        }
        i = i - 1;
    }
    let ghost p = (json_view(k), json_view(x));
    proof {
        lemma_insert_by_key_at(ps, p, i as int);
    }
    keys.insert(i, k);
    items.insert(i, x);
    proof {
        lemma_jsons_view(keys@);
        lemma_jsons_view(items@);
        assert(jsons_view(keys@) =~= kv.insert(i as int, p.0));
        assert(jsons_view(items@) =~= iv.insert(i as int, p.1));
        assert(keyed(jsons_view(keys@), jsons_view(items@)) =~= ps.insert(i as int, p));
    }
}

/// The items sorted by their keys, `keys[k]` being the key of `xs[k]`.
fn sort_keyed(keys: &Vec<Json>, xs: &Vec<Json>) -> (r: Vec<Json>)
    requires
        keys@.len() == xs@.len(),
    ensures
        jsons_view(r@) == pair_items(sort_by_key(keyed(jsons_view(keys@), jsons_view(xs@)))),
{
    let ghost ps = keyed(jsons_view(keys@), jsons_view(xs@));
    proof {
        lemma_jsons_view(keys@);
        lemma_jsons_view(xs@);
    }
    let mut out_keys: Vec<Json> = Vec::new();
    let mut out_items: Vec<Json> = Vec::new();
    let mut k: usize = 0;
    assert(ps.take(0) =~= Seq::<(JsonV, JsonV)>::empty());
    assert(keyed(jsons_view(out_keys@), jsons_view(out_items@)) =~= Seq::<(JsonV, JsonV)>::empty());
    while k < xs.len()
        invariant
            k <= xs@.len(),
            keys@.len() == xs@.len(),
            out_keys@.len() == out_items@.len(),
            ps == keyed(jsons_view(keys@), jsons_view(xs@)),
            ps.len() == xs@.len(),
            forall|i: int| 0 <= i < xs@.len() ==> #[trigger] ps[i] == (json_view(keys@[i]), json_view(xs@[i])),
            keyed(jsons_view(out_keys@), jsons_view(out_items@)) == sort_by_key(ps.take(k as int)),
        decreases xs.len() - k,
    {
        assert(ps.take(k + 1).drop_last() =~= ps.take(k as int));
        assert(ps.take(k + 1).last() == ps[k as int]);
        let key = clone_json(&keys[k]);
        let item = clone_json(&xs[k]);
        insert_keyed(&mut out_keys, &mut out_items, key, item);
        k = k + 1;
    }
    assert(ps.take(k as int) =~= ps);
    proof {
        lemma_jsons_view(out_keys@);
        lemma_jsons_view(out_items@);
        assert(pair_items(keyed(jsons_view(out_keys@), jsons_view(out_items@))) =~= jsons_view(out_items@));
    }
    out_items
}

/// Whether `s` is one of `ss`.
fn in_strings(ss: &Vec<String>, s: &String) -> (r: bool)
    ensures
        r == exists|k: int| 0 <= k < ss@.len() && (#[trigger] ss@[k])@ == s@,
{
    let mut k: usize = 0;
    while k < ss.len()
        invariant
            k <= ss@.len(),
            forall|j: int| 0 <= j < k ==> ss@[j]@ != s@,
        decreases ss.len() - k,
    {
        if ss[k] == *s {
            assert(ss@[k as int]@ == s@);
            return true;
        }
        k = k + 1;
    }
    false
}

/// Whether `e` gives true (`want`) or false (`!want`) for some item, in
/// order, stopping at the first such.
fn find(e: &TransformerExpression, xs: &Vec<Json>, want: bool) -> (r: Option<bool>)
    ensures
        r == find_spec(*e, jsons_view(xs@), xs@.len() as int, want),
    decreases e, 2int,
{
    let ghost xv = jsons_view(xs@);
    proof {
        lemma_jsons_view(xs@);
    }
    let mut k: usize = 0;
    while k < xs.len()
        invariant
            k <= xs@.len(),
            xv == jsons_view(xs@),
            xv.len() == xs@.len(),
            forall|i: int| 0 <= i < xs@.len() ==> #[trigger] xv[i] == json_view(xs@[i]),
            find_spec(*e, xv, k as int, want) == Some(false),
        decreases xs.len() - k,
    {
        let res = eval_expression(e, &xs[k]);
        match verdict_of(&res) {
            Some(b) => {
                if b == want {
                    proof {
                        lemma_find_stuck(*e, xv, k as int + 1, want);
                    }
                    return Some(true);
                }
            },
            None => {
                proof {
                    lemma_find_stuck(*e, xv, k as int + 1, want);
                }
                return None;
            },
        }
        k = k + 1;
    }
    Some(false)
}

/// The value of `key` among the entries (the first entry with it), or null.
fn get_entry(es: &Vec<(String, Json)>, key: &String) -> (r: Json)
    ensures
        json_view(r) == match entry_of(entries_view(es@), key@) {
            Some(x) => x,
            None => JsonV::Null,
        },
{
    let ghost ev = entries_view(es@);
    proof {
        lemma_entries_view(es@);
    }
    let mut k: usize = 0;
    assert(ev.take(0) =~= Seq::<(Seq<char>, JsonV)>::empty());
    while k < es.len()
        invariant
            k <= es@.len(),
            ev == entries_view(es@),
            ev.len() == es@.len(),
            forall|i: int| 0 <= i < es@.len() ==> #[trigger] ev[i] == (es@[i].0@, json_view(es@[i].1)),
            entry_of(ev.take(k as int), key@) is None,
        decreases es.len() - k,
    {
        assert(ev.take(k + 1).drop_last() =~= ev.take(k as int));
        if es[k].0 == *key {
            proof {
                lemma_entry_found(ev, k as int + 1, key@);
            }
            return clone_json(&es[k].1);
        }
        k = k + 1;
    }
    assert(ev.take(k as int) =~= ev);
    Json::Null
}

proof fn lemma_entry_found(es: Seq<(Seq<char>, JsonV)>, n: int, key: Seq<char>)
    requires
        0 < n <= es.len(),
        entry_of(es.take(n), key) is Some,
    ensures
        entry_of(es, key) == entry_of(es.take(n), key),
    decreases es.len() - n,
{
    if n < es.len() {
        assert(es.take(n + 1).drop_last() =~= es.take(n));
        lemma_entry_found(es, n + 1, key);
    } else {
        assert(es.take(n) =~= es);
    }
}

/// The items of the arrays among `xs`, nulls skipped.
fn flatten(xs: &Vec<Json>) -> (r: Option<Vec<Json>>)
    ensures
        match r {
            Some(ys) => flatten_spec(jsons_view(xs@)) == Some(jsons_view(ys@)),
            None => flatten_spec(jsons_view(xs@)) is None,
        },
{
    let ghost xv = jsons_view(xs@);
    proof {
        lemma_jsons_view(xs@);
    }
    let mut out: Vec<Json> = Vec::new();
    let mut k: usize = 0;
    assert(xv.take(0) =~= Seq::<JsonV>::empty());
    while k < xs.len()
        invariant
            k <= xs@.len(),
            xv == jsons_view(xs@),
            xv.len() == xs@.len(),
            forall|i: int| 0 <= i < xs@.len() ==> #[trigger] xv[i] == json_view(xs@[i]),
            flatten_spec(xv.take(k as int)) == Some(jsons_view(out@)),
        decreases xs.len() - k,
    {
        assert(xv.take(k + 1).drop_last() =~= xv.take(k as int));
        assert(xv.take(k + 1).last() == xv[k as int]);
        match &xs[k] {
            Json::Array(ys) => {
                proof {
                    lemma_jsons_view(ys@);
                }
                let mut m: usize = 0;
                let ghost start = jsons_view(out@);
                assert(start + jsons_view(ys@).take(0) =~= start);
                while m < ys.len()
                    invariant
                        m <= ys@.len(),
                        jsons_view(ys@).len() == ys@.len(),
                        forall|i: int| 0 <= i < ys@.len() ==> #[trigger] jsons_view(ys@)[i] == json_view(ys@[i]),
                        jsons_view(out@) == start + jsons_view(ys@).take(m as int),
                    decreases ys.len() - m,
                {
                    let item = clone_json(&ys[m]);
                    proof {
                        lemma_jsons_push(out@, item);
                    }
                    out.push(item);
                    assert(start + jsons_view(ys@).take(m + 1) =~= (start + jsons_view(ys@).take(m as int)).push(json_view(item)));
                    m = m + 1;
                }
                assert(jsons_view(ys@).take(m as int) =~= jsons_view(ys@));
            },
            Json::Null => {},
            _ => {
                proof {
                    lemma_flatten_stuck(xv, k as int + 1);
                }
                return None;
            },
        }
        k = k + 1;
    }
    assert(xv.take(k as int) =~= xv);
    Some(out)
}

/// The decimal digits of `n`.
fn decimal_u64(n: u64) -> (r: String)
    ensures
        r@ == decimal_text(n as nat),
    decreases n,
{
    if n < 10 {
        let mut r = String::new();
        crate::outside::push_char(&mut r, ((n as u8) + 48u8) as char);
        r
    } else {
        let mut r = decimal_u64(n / 10);
        crate::outside::push_char(&mut r, (((n % 10) as u8) + 48u8) as char);
        r
    }
}

/// The digits of a signed integer, with a minus sign when negative.
fn signed_string(n: i64) -> (r: String)
    ensures
        r@ == signed_text(n),
{
    if n < 0 {
        let m: u64 = if n == i64::MIN {
            9_223_372_036_854_775_808u64
        } else {
            (-n) as u64
        };
        let d = decimal_u64(m);
        let mut r = String::from_str("-");
        r.append(d.as_str());
        r
    } else {
        decimal_u64(n as u64)
    }
}

/// Whether a value has a type: null has every type; numbers are of type
/// number; arrays and objects have their items' type.
pub open spec fn has_type(v: JsonV, t: Type) -> bool
    decreases t,
{
    match v {
        JsonV::Null => true,
        _ => match t {
            Type::Any => true,
            Type::Bool => v is Bool,
            Type::Number => v is PosInt || v is NegInt || v is Float,
            Type::String => v is Str,
            Type::Array(inner) => match v {
                JsonV::Array(xs) => forall|k: int| 0 <= k < xs.len() ==> has_type(#[trigger] xs[k], *inner),
                _ => false,
            },
            Type::Mapping(inner) => match v {
                JsonV::Object(es) => forall|k: int|
                    0 <= k < es.len() ==> has_type(#[trigger] es[k].1, *inner),
                _ => false,
            },
        },
    }
}

/// Whether a transformer, and every transformer inside it, is one that
/// [`eval`] takes on whatever the value: not a number comparison or
/// parsing, a sort, or a conversion to string (whose floating-point case is
/// left to the caller); and its regular expressions compile (as they do in
/// what the parser gives).
pub open spec fn supported(t: Transformer) -> bool
    decreases t, 0int, 0int,
{
    match t {
        Transformer::Each(e) | Transformer::Filter(e) | Transformer::Any(e) | Transformer::All(e) =>
            supported_prefix(e, e.transformers@.len() as int),
        Transformer::IsNull | Transformer::IsNotNull | Transformer::Hash | Transformer::Not
        | Transformer::Length | Transformer::IsEmpty | Transformer::Get(_) | Transformer::GetIdx(_)
        | Transformer::Flatten | Transformer::Pretty | Transformer::EqualsString(_)
        | Transformer::InStrings(_) => true,
        Transformer::Matches(re) | Transformer::Capture(re) | Transformer::AllCaptures(re)
        | Transformer::Replace(re, _) => regex_error(re.source@) is None,
        _ => false,
    }
}

/// Whether the first `n` transformers of `e` are supported.
pub open spec fn supported_prefix(e: TransformerExpression, n: int) -> bool
    decreases e, 1int, n,
{
    if n <= 0 || n > e.transformers@.len() {
        true
    } else {
        proof {
            assert(decreases_to!(e => e.transformers));
            assert(decreases_to!(e.transformers => e.transformers@));
            assert(decreases_to!(e.transformers@ => e.transformers@[n - 1]));
        }
        supported_prefix(e, n - 1) && supported(e.transformers@[n - 1])
    }
}

/// The result type of a transformer expression from the first `n` of its
/// transformers.
pub open spec fn prefix_type(e: TransformerExpression, ty: Type, n: int) -> Result<Type, crate::expressions::ErrorView> {
    transformers_type(e.transformers@.take(n), ty)
}

/// Type checking is sound for evaluation: a value of the type that a
/// transformer takes gives, where the library computes a result, one of the
/// type the transformer yields; and a supported transformer always gives a
/// result on such a value, so it never fails the checks that the type
/// checker rules out.
pub proof fn lemma_eval_typed(t: Transformer, v: JsonV, ty: Type)
    requires
        has_type(v, ty),
        transformer_type(t, ty) is Ok,
    ensures
        supported(t) ==> eval_spec(t, v) is Some,
        eval_spec(t, v) matches Some(w) ==> has_type(w, transformer_type(t, ty)->Ok_0),
    decreases t, 0int, 0int,
{
    if !(v is Null) {
        match t {
            Transformer::Get(k) => {
                if let (JsonV::Object(es), Type::Mapping(inner)) = (v, ty) {
                    lemma_entry_typed(es, k@, *inner);
                }
            },
            Transformer::Flatten => {
                if let (JsonV::Array(xs), Type::Array(inner)) = (v, ty) {
                    if let Type::Array(x) = *inner {
                        lemma_flatten_typed(xs, *x);
                    }
                }
            },
            Transformer::Each(e) => {
                match (v, ty) {
                    (JsonV::Array(xs), Type::Array(inner)) => {
                        lemma_each_typed(e, xs, xs.len() as int, *inner);
                    },
                    (JsonV::Object(es), Type::Mapping(inner)) => {
                        lemma_each_entry_typed(e, es, es.len() as int, *inner);
                    },
                    _ => {},
                }
            },
            Transformer::Filter(e) => {
                match (v, ty) {
                    (JsonV::Array(xs), Type::Array(inner)) => {
                        lemma_filter_typed(e, xs, xs.len() as int, *inner);
                    },
                    (JsonV::Object(es), Type::Mapping(inner)) => {
                        lemma_filter_entry_typed(e, es, es.len() as int, *inner);
                    },
                    _ => {},
                }
            },
            Transformer::Any(e) => {
                if let (JsonV::Array(xs), Type::Array(inner)) = (v, ty) {
                    lemma_find_typed(e, xs, xs.len() as int, *inner, true);
                }
            },
            Transformer::All(e) => {
                if let (JsonV::Array(xs), Type::Array(inner)) = (v, ty) {
                    lemma_find_typed(e, xs, xs.len() as int, *inner, false);
                }
            },
            Transformer::Sort => {
                if let (JsonV::Array(xs), Type::Array(inner)) = (v, ty) {
                    if sortable(xs) {
                        lemma_sorted_typed(xs, *inner);
                    }
                }
            },
            Transformer::SortBy(e) => {
                if let (JsonV::Array(xs), Type::Array(inner)) = (v, ty) {
                    if let Some(ks) = each_spec(e, xs, xs.len() as int) {
                        lemma_sorted_by_key_typed(ks, xs, *inner);
                    }
                }
            },
            Transformer::Capture(re) => {
                if let JsonV::Str(text) = v {
                    if let Some(g) = regex_captures(re.source@, text) {
                        lemma_capture_typed(g, g.len() as int);
                        let es = capture_entries(g, g.len() as int);
                        assert forall|k: int| 0 <= k < es.len() implies has_type(#[trigger] es[k].1, Type::String) by {
                            assert(es[k].1 is Str);
                        }
                    }
                }
            },
            Transformer::AllCaptures(re) => {
                if let JsonV::Str(text) = v {
                    let ms = regex_all_captures(re.source@, text);
                    let out = Seq::new(ms.len(), |k: int| capture_object(ms[k]));
                    assert forall|k: int| 0 <= k < out.len() implies has_type(
                        #[trigger] out[k],
                        Type::Mapping(Box::new(Type::String)),
                    ) by {
                        lemma_capture_typed(ms[k], ms[k].len() as int);
                        let es = capture_entries(ms[k], ms[k].len() as int);
                        assert forall|j: int| 0 <= j < es.len() implies has_type(#[trigger] es[j].1, Type::String) by {
                            assert(es[j].1 is Str);
                        }
                    }
                }
            },
            _ => {},
        }
    }
}

proof fn lemma_insert_by_key_within(s: Seq<(JsonV, JsonV)>, p: (JsonV, JsonV))
    ensures
        forall|k: int|
            0 <= k < insert_by_key(s, p).len() ==> #[trigger] insert_by_key(s, p)[k] == p || s.contains(
                insert_by_key(s, p)[k],
            ),
    decreases s.len(),
{
    if s.len() > 0 {
        let r = insert_by_key(s, p);
        if json_less(p.0, s.last().0) {
            let rest = s.drop_last();
            lemma_insert_by_key_within(rest, p);
            let r0 = insert_by_key(rest, p);
            assert forall|k: int| 0 <= k < r.len() implies #[trigger] r[k] == p || s.contains(r[k]) by {
                if k < r0.len() {
                    assert(r[k] == r0[k]);
                    if r0[k] != p {
                        let m = choose|m: int| 0 <= m < rest.len() && rest[m] == r0[k];
                        assert(s[m] == rest[m]);
                    }
                } else {
                    assert(s[s.len() - 1] == r[k]);
                }
            }
        } else {
            assert forall|k: int| 0 <= k < r.len() implies #[trigger] r[k] == p || s.contains(r[k]) by {
                if k < s.len() {
                    assert(s[k] == r[k]);
                }
            }
        }
    }
}

proof fn lemma_sort_by_key_within(ps: Seq<(JsonV, JsonV)>)
    ensures
        forall|k: int| 0 <= k < sort_by_key(ps).len() ==> ps.contains(#[trigger] sort_by_key(ps)[k]),
    decreases ps.len(),
{
    if ps.len() > 0 {
        let rest = ps.drop_last();
        lemma_sort_by_key_within(rest);
        let sorted = sort_by_key(rest);
        lemma_insert_by_key_within(sorted, ps.last());
        let r = sort_by_key(ps);
        assert forall|k: int| 0 <= k < r.len() implies ps.contains(#[trigger] r[k]) by {
            if r[k] == ps.last() {
                assert(ps[ps.len() - 1] == r[k]);
            } else {
                let m = choose|m: int| 0 <= m < sorted.len() && sorted[m] == r[k];
                let q = choose|q: int| 0 <= q < rest.len() && rest[q] == sorted[m];
                assert(ps[q] == rest[q]);
            }
        }
    }
}

/// The items of an array of some type, sorted by keys, are of that type.
proof fn lemma_sorted_by_key_typed(ks: Seq<JsonV>, xs: Seq<JsonV>, inner: Type)
    requires
        forall|k: int| 0 <= k < xs.len() ==> has_type(#[trigger] xs[k], inner),
    ensures
        forall|k: int|
            0 <= k < pair_items(sort_by_key(keyed(ks, xs))).len() ==> has_type(
                #[trigger] pair_items(sort_by_key(keyed(ks, xs)))[k],
                inner,
            ),
{
    let ps = keyed(ks, xs);
    lemma_sort_by_key_within(ps);
    let ys = sort_by_key(ps);
    assert forall|k: int| 0 <= k < pair_items(ys).len() implies has_type(#[trigger] pair_items(ys)[k], inner) by {
        assert(ps.contains(ys[k]));
        let m = choose|m: int| 0 <= m < ps.len() && ps[m] == ys[k];
        assert(ps[m].1 == xs[m]);
    }
}

/// The sorted items of an array of some type are of that type.
proof fn lemma_sorted_typed(xs: Seq<JsonV>, inner: Type)
    requires
        sortable(xs),
        forall|k: int| 0 <= k < xs.len() ==> has_type(#[trigger] xs[k], inner),
    ensures
        forall|k: int| 0 <= k < sort_spec(xs).len() ==> has_type(#[trigger] sort_spec(xs)[k], inner),
{
    broadcast use vstd::seq_lib::group_to_multiset_ensures;

    lemma_sort_in_order(xs);
    let ys = sort_spec(xs);
    assert forall|k: int| 0 <= k < ys.len() implies has_type(#[trigger] ys[k], inner) by {
        assert(ys.contains(ys[k]));
        assert(ys.to_multiset().count(ys[k]) > 0);
        assert(xs.contains(ys[k]));
        let m = choose|m: int| 0 <= m < xs.len() && xs[m] == ys[k];
        assert(has_type(xs[m], inner));
    }
}

/// The first `n` transformers of an expression take a value of their input
/// type to one of their output type, where they give a result; supported
/// ones always give one.
proof fn lemma_expr_typed(e: TransformerExpression, v: JsonV, ty: Type, n: int)
    requires
        0 <= n <= e.transformers@.len(),
        has_type(v, ty),
        prefix_type(e, ty, n) is Ok,
    ensures
        supported_prefix(e, n) ==> expr_spec(e, v, n) is Some,
        expr_spec(e, v, n) matches Some(w) ==> has_type(w, prefix_type(e, ty, n)->Ok_0),
    decreases e, 1int, n,
{
    let ts = e.transformers@;
    if n == 0 {
        assert(ts.take(0) =~= Seq::<Transformer>::empty());
    } else {
        assert(ts.take(n).drop_last() =~= ts.take(n - 1));
        assert(ts.take(n).last() == ts[n - 1]);
        lemma_expr_typed(e, v, ty, n - 1);
        if let Some(w) = expr_spec(e, v, n - 1) {
            assert(decreases_to!(e => e.transformers));
            assert(decreases_to!(e.transformers => e.transformers@));
            assert(decreases_to!(e.transformers@ => e.transformers@[n - 1]));
            lemma_eval_typed(ts[n - 1], w, prefix_type(e, ty, n - 1)->Ok_0);
        }
    }
}

/// A whole transformer expression takes a value of its input type to a
/// result of its output type, where it gives one; a supported one always
/// gives one.
pub proof fn lemma_apply_typed(e: TransformerExpression, v: JsonV, ty: Type)
    requires
        has_type(v, ty),
        transformers_type(e.transformers@, ty) is Ok,
    ensures
        supported_prefix(e, e.transformers@.len() as int) ==> apply_spec(e, v) is Some,
        apply_spec(e, v) matches Some(w) ==> has_type(w, transformers_type(e.transformers@, ty)->Ok_0),
    decreases e, 1int, e.transformers@.len() + 1,
{
    assert(e.transformers@.take(e.transformers@.len() as int) =~= e.transformers@);
    lemma_expr_typed(e, v, ty, e.transformers@.len() as int);
}

proof fn lemma_each_typed(e: TransformerExpression, xs: Seq<JsonV>, n: int, inner: Type)
    requires
        0 <= n <= xs.len(),
        forall|k: int| 0 <= k < xs.len() ==> has_type(#[trigger] xs[k], inner),
        transformers_type(e.transformers@, inner) is Ok,
    ensures
        supported_prefix(e, e.transformers@.len() as int) ==> each_spec(e, xs, n) is Some,
        each_spec(e, xs, n) matches Some(ys) ==> ys.len() == n && forall|k: int|
            0 <= k < n ==> has_type(#[trigger] ys[k], transformers_type(e.transformers@, inner)->Ok_0),
    decreases e, 2int, n,
{
    if n > 0 {
        lemma_each_typed(e, xs, n - 1, inner);
        lemma_apply_typed(e, xs[n - 1], inner);
        if let (Some(ys), Some(w)) = (each_spec(e, xs, n - 1), apply_spec(e, xs[n - 1])) {
            assert forall|k: int| 0 <= k < n implies has_type(
                #[trigger] ys.push(w)[k],
                transformers_type(e.transformers@, inner)->Ok_0,
            ) by {
                if k < n - 1 {
                    assert(ys.push(w)[k] == ys[k]);
                }
            }
        }
    }
}

proof fn lemma_each_entry_typed(e: TransformerExpression, es: Seq<(Seq<char>, JsonV)>, n: int, inner: Type)
    requires
        0 <= n <= es.len(),
        forall|k: int| 0 <= k < es.len() ==> has_type(#[trigger] es[k].1, inner),
        transformers_type(e.transformers@, inner) is Ok,
    ensures
        supported_prefix(e, e.transformers@.len() as int) ==> each_entry_spec(e, es, n) is Some,
        each_entry_spec(e, es, n) matches Some(ys) ==> ys.len() == n && forall|k: int|
            0 <= k < n ==> has_type(#[trigger] ys[k].1, transformers_type(e.transformers@, inner)->Ok_0),
    decreases e, 2int, n,
{
    if n > 0 {
        lemma_each_entry_typed(e, es, n - 1, inner);
        lemma_apply_typed(e, es[n - 1].1, inner);
        if let (Some(ys), Some(a)) = (each_entry_spec(e, es, n - 1), apply_spec(e, es[n - 1].1)) {
            let w = (es[n - 1].0, a);
            assert forall|k: int| 0 <= k < n implies has_type(
                #[trigger] ys.push(w)[k].1,
                transformers_type(e.transformers@, inner)->Ok_0,
            ) by {
                if k < n - 1 {
                    assert(ys.push(w)[k] == ys[k]);
                }
            }
        }
    }
}

proof fn lemma_filter_typed(e: TransformerExpression, xs: Seq<JsonV>, n: int, inner: Type)
    requires
        0 <= n <= xs.len(),
        forall|k: int| 0 <= k < xs.len() ==> has_type(#[trigger] xs[k], inner),
        transformers_type(e.transformers@, inner) == Ok::<Type, crate::expressions::ErrorView>(Type::Bool),
    ensures
        supported_prefix(e, e.transformers@.len() as int) ==> filter_spec(e, xs, n) is Some,
        filter_spec(e, xs, n) matches Some(ys) ==> forall|k: int|
            0 <= k < ys.len() ==> has_type(#[trigger] ys[k], inner),
    decreases e, 2int, n,
{
    if n > 0 {
        lemma_filter_typed(e, xs, n - 1, inner);
        lemma_apply_typed(e, xs[n - 1], inner);
        if let Some(ys) = filter_spec(e, xs, n - 1) {
            assert forall|k: int| 0 <= k < ys.push(xs[n - 1]).len() implies has_type(
                #[trigger] ys.push(xs[n - 1])[k],
                inner,
            ) by {
                if k < ys.len() {
                    assert(ys.push(xs[n - 1])[k] == ys[k]);
                }
            }
        }
    }
}

proof fn lemma_filter_entry_typed(e: TransformerExpression, es: Seq<(Seq<char>, JsonV)>, n: int, inner: Type)
    requires
        0 <= n <= es.len(),
        forall|k: int| 0 <= k < es.len() ==> has_type(#[trigger] es[k].1, inner),
        transformers_type(e.transformers@, inner) == Ok::<Type, crate::expressions::ErrorView>(Type::Bool),
    ensures
        supported_prefix(e, e.transformers@.len() as int) ==> filter_entry_spec(e, es, n) is Some,
        filter_entry_spec(e, es, n) matches Some(ys) ==> forall|k: int|
            0 <= k < ys.len() ==> has_type(#[trigger] ys[k].1, inner),
    decreases e, 2int, n,
{
    if n > 0 {
        lemma_filter_entry_typed(e, es, n - 1, inner);
        lemma_apply_typed(e, es[n - 1].1, inner);
        if let Some(ys) = filter_entry_spec(e, es, n - 1) {
            assert forall|k: int| 0 <= k < ys.push(es[n - 1]).len() implies has_type(
                #[trigger] ys.push(es[n - 1])[k].1,
                inner,
            ) by {
                if k < ys.len() {
                    assert(ys.push(es[n - 1])[k] == ys[k]);
                }
            }
        }
    }
}

proof fn lemma_find_typed(e: TransformerExpression, xs: Seq<JsonV>, n: int, inner: Type, want: bool)
    requires
        0 <= n <= xs.len(),
        forall|k: int| 0 <= k < xs.len() ==> has_type(#[trigger] xs[k], inner),
        transformers_type(e.transformers@, inner) == Ok::<Type, crate::expressions::ErrorView>(Type::Bool),
    ensures
        supported_prefix(e, e.transformers@.len() as int) ==> find_spec(e, xs, n, want) is Some,
    decreases e, 2int, n,
{
    if n > 0 {
        lemma_find_typed(e, xs, n - 1, inner, want);
        lemma_apply_typed(e, xs[n - 1], inner);
    }
}

proof fn lemma_entry_typed(es: Seq<(Seq<char>, JsonV)>, key: Seq<char>, inner: Type)
    requires
        forall|k: int| 0 <= k < es.len() ==> has_type(#[trigger] es[k].1, inner),
    ensures
        entry_of(es, key) matches Some(x) ==> has_type(x, inner),
    decreases es.len(),
{
    if es.len() > 0 {
        assert forall|k: int| 0 <= k < es.drop_last().len() implies has_type(
            #[trigger] es.drop_last()[k].1,
            inner,
        ) by {
            assert(es.drop_last()[k] == es[k]);
        }
        lemma_entry_typed(es.drop_last(), key, inner);
        assert(has_type(es[es.len() - 1].1, inner));
    }
}

proof fn lemma_flatten_typed(xs: Seq<JsonV>, x: Type)
    requires
        forall|k: int| 0 <= k < xs.len() ==> has_type(#[trigger] xs[k], Type::Array(Box::new(x))),
    ensures
        flatten_spec(xs) matches Some(ys) && forall|k: int| 0 <= k < ys.len() ==> has_type(#[trigger] ys[k], x),
    decreases xs.len(),
{
    if xs.len() > 0 {
        assert forall|k: int| 0 <= k < xs.drop_last().len() implies has_type(
            #[trigger] xs.drop_last()[k],
            Type::Array(Box::new(x)),
        ) by {
            assert(xs.drop_last()[k] == xs[k]);
        }
        lemma_flatten_typed(xs.drop_last(), x);
        let r = flatten_spec(xs.drop_last())->0;
        assert(has_type(xs[xs.len() - 1], Type::Array(Box::new(x))));
        match xs.last() {
            JsonV::Array(ys) => {
                assert forall|k: int| 0 <= k < (r + ys).len() implies has_type(#[trigger] (r + ys)[k], x) by {
                    if k < r.len() {
                        assert((r + ys)[k] == r[k]);
                    } else {
                        assert((r + ys)[k] == ys[k - r.len()]);
                    }
                }
            },
            _ => {},
        }
    }
}

proof fn lemma_capture_typed(g: Seq<(Option<Seq<char>>, Option<Seq<char>>)>, n: int)
    requires
        0 <= n <= g.len(),
    ensures
        forall|k: int| 0 <= k < capture_entries(g, n).len() ==> (#[trigger] capture_entries(g, n)[k]).1 is Str,
    decreases n,
{
    if n > 0 {
        lemma_capture_typed(g, n - 1);
        let rest = capture_entries(g, n - 1);
        assert forall|k: int| 0 <= k < capture_entries(g, n).len() implies (#[trigger] capture_entries(g, n)[k]).1 is Str by {
            if k < rest.len() {
                assert(capture_entries(g, n)[k] == rest[k]);
            }
        }
    }
}

/// `not` negates: on a bool it gives the other bool.
pub proof fn lemma_not_negates(b: bool)
    ensures
        eval_spec(Transformer::Not, JsonV::Bool(b)) == Some(JsonV::Bool(!b)),
        eval_spec(Transformer::Not, JsonV::Bool(b)) != Some(JsonV::Bool(b)),
{
}

/// A value of type `ty` that no transformer taking another type accepts.
spec fn sample_of(ty: Type) -> JsonV {
    match ty {
        Type::Any => JsonV::PosInt(0),
        Type::Bool => JsonV::Bool(true),
        Type::Number => JsonV::PosInt(0),
        Type::String => JsonV::Str(Seq::empty()),
        Type::Array(_) => JsonV::Array(Seq::empty()),
        Type::Mapping(_) => JsonV::Object(Seq::empty()),
    }
}

/// Type checking is complete for the transformers that do not apply an
/// inner expression: where a transformer gives a result on every value of
/// a type (for instance `length` on any string), the type checker accepts
/// it on that type.
pub proof fn lemma_type_complete(t: Transformer, ty: Type)
    requires
        !(t is Each || t is Filter || t is Any || t is All || t is SortBy),
        forall|v: JsonV| has_type(v, ty) ==> #[trigger] eval_spec(t, v) is Some,
    ensures
        transformer_type(t, ty) is Ok,
{
    let s = sample_of(ty);
    assert(has_type(s, ty));
    assert(eval_spec(t, s) is Some);
    if ty is Any {
        let a = JsonV::Array(Seq::<JsonV>::empty());
        assert(has_type(a, ty));
        assert(eval_spec(t, a) is Some);
    }
    if let Type::Array(inner) = ty {
        let w = sample_of(*inner);
        assert(has_type(w, *inner));
        let c = JsonV::Array(seq![w]);
        assert(has_type(c, ty)) by {
            assert forall|k: int| 0 <= k < seq![w].len() implies has_type(#[trigger] seq![w][k], *inner) by {
                assert(seq![w][k] == w);
            }
        }
        assert(eval_spec(t, c) is Some);
        assert(seq![w].drop_last() =~= Seq::<JsonV>::empty());
        if *inner is Mapping {
            assert(!orderable(seq![w][0]));
        }
    }
}

/// The null tests answer whether the value is null, each the negation of
/// the other; `not` after one gives the other.
pub proof fn lemma_null_tests(v: JsonV)
    ensures
        eval_spec(Transformer::IsNull, v) == Some(JsonV::Bool(v is Null)),
        eval_spec(Transformer::IsNotNull, v) == Some(JsonV::Bool(!(v is Null))),
        eval_spec(Transformer::IsNull, v) matches Some(w) && eval_spec(Transformer::Not, w) == eval_spec(
            Transformer::IsNotNull,
            v,
        ),
{
}

/// Null goes through every transformer but the null tests unchanged.
pub proof fn lemma_null_passes(t: Transformer)
    requires
        !(t is IsNull || t is IsNotNull),
    ensures
        eval_spec(t, JsonV::Null) == Some(JsonV::Null),
{
}

/// The length of an array or object is its number of items or entries, and
/// it is empty exactly when that number is 0; a string is empty exactly
/// when it has no characters.
pub proof fn lemma_length_counts(xs: Seq<JsonV>, es: Seq<(Seq<char>, JsonV)>, s: Seq<char>)
    requires
        xs.len() <= u64::MAX,
        es.len() <= u64::MAX,
    ensures
        eval_spec(Transformer::Length, JsonV::Array(xs)) matches Some(JsonV::PosInt(n)) && n == xs.len(),
        eval_spec(Transformer::Length, JsonV::Object(es)) matches Some(JsonV::PosInt(n)) && n == es.len(),
        eval_spec(Transformer::IsEmpty, JsonV::Array(xs)) == Some(JsonV::Bool(xs.len() == 0)),
        eval_spec(Transformer::IsEmpty, JsonV::Object(es)) == Some(JsonV::Bool(es.len() == 0)),
        eval_spec(Transformer::IsEmpty, JsonV::Str(s)) == Some(JsonV::Bool(s.len() == 0)),
{
}

/// An index within an array gives the item there; one past its end gives
/// null.
pub proof fn lemma_get_index(xs: Seq<JsonV>, i: usize)
    ensures
        i < xs.len() ==> eval_spec(Transformer::GetIdx(i), JsonV::Array(xs)) == Some(xs[i as int]),
        i >= xs.len() ==> eval_spec(Transformer::GetIdx(i), JsonV::Array(xs)) == Some(JsonV::Null),
{
}

proof fn lemma_entry_first(es: Seq<(Seq<char>, JsonV)>, key: Seq<char>)
    ensures
        entry_of(es, key) is None <==> forall|j: int| 0 <= j < es.len() ==> (#[trigger] es[j]).0 != key,
        entry_of(es, key) matches Some(v) ==> exists|j: int|
            0 <= j < es.len() && (#[trigger] es[j]).0 == key && es[j].1 == v && forall|i: int|
                0 <= i < j ==> es[i].0 != key,
    decreases es.len(),
{
    if es.len() > 0 {
        let rest = es.drop_last();
        lemma_entry_first(rest, key);
        assert forall|j: int| 0 <= j < rest.len() implies rest[j] == #[trigger] es[j] by {}
        if let Some(v) = entry_of(rest, key) {
            let j = choose|j: int|
                0 <= j < rest.len() && (#[trigger] rest[j]).0 == key && rest[j].1 == v && forall|i: int|
                    0 <= i < j ==> rest[i].0 != key;
            assert(es[j] == rest[j]);
            assert forall|i: int| 0 <= i < j implies es[i].0 != key by {
                assert(es[i] == rest[i]);
            }
        } else {
            assert forall|i: int| 0 <= i < es.len() - 1 implies es[i].0 != key by {
                assert(es[i] == rest[i]);
            }
            if es.last().0 == key {
                assert(es[es.len() - 1].0 == key);
            }
        }
    }
}

/// Getting a key from an object gives the value of its first entry with
/// that key, or null when no entry has it.
pub proof fn lemma_get_key(es: Seq<(Seq<char>, JsonV)>, key: String)
    ensures
        (forall|j: int| 0 <= j < es.len() ==> (#[trigger] es[j]).0 != key@) ==> eval_spec(
            Transformer::Get(key),
            JsonV::Object(es),
        ) == Some(JsonV::Null),
        forall|j: int|
            0 <= j < es.len() && (#[trigger] es[j]).0 == key@ && (forall|i: int| 0 <= i < j ==> es[i].0 != key@)
                ==> eval_spec(Transformer::Get(key), JsonV::Object(es)) == Some(es[j].1),
{
    lemma_entry_first(es, key@);
    assert forall|j: int|
        0 <= j < es.len() && (#[trigger] es[j]).0 == key@ && (forall|i: int| 0 <= i < j ==> es[i].0 != key@)
            implies eval_spec(Transformer::Get(key), JsonV::Object(es)) == Some(es[j].1) by {
        let v = entry_of(es, key@)->0;
        let m = choose|m: int|
            0 <= m < es.len() && (#[trigger] es[m]).0 == key@ && es[m].1 == v && forall|i: int|
                0 <= i < m ==> es[i].0 != key@;
        if m < j {
            assert(es[m].0 != key@);
        }
        if j < m {
            assert(es[j].0 != key@);
        }
    }
}

proof fn lemma_each_prefix(e: TransformerExpression, xs: Seq<JsonV>, n: int)
    requires
        0 <= n <= xs.len(),
    ensures
        (forall|i: int| 0 <= i < n ==> apply_spec(e, #[trigger] xs[i]) is Some) ==> (each_spec(e, xs, n) matches Some(
            ys,
        ) && ys.len() == n && forall|i: int| 0 <= i < n ==> Some(#[trigger] ys[i]) == apply_spec(e, xs[i])),
        (exists|i: int| 0 <= i < n && apply_spec(e, #[trigger] xs[i]) is None) ==> each_spec(e, xs, n) is None,
    decreases n,
{
    if n > 0 {
        lemma_each_prefix(e, xs, n - 1);
        if let Some(ys) = each_spec(e, xs, n - 1) {
            if let Some(w) = apply_spec(e, xs[n - 1]) {
                assert forall|i: int| 0 <= i < n implies Some(#[trigger] ys.push(w)[i]) == apply_spec(e, xs[i]) by {
                    if i < n - 1 {
                        assert(ys.push(w)[i] == ys[i]);
                    }
                }
            }
        }
        if exists|i: int| 0 <= i < n && apply_spec(e, #[trigger] xs[i]) is None {
            let i = choose|i: int| 0 <= i < n && apply_spec(e, #[trigger] xs[i]) is None;
            if i < n - 1 {
                assert(exists|i: int| 0 <= i < n - 1 && apply_spec(e, #[trigger] xs[i]) is None);
            }
        }
    }
}

/// `each` applies its expression to every item, in place: the result has
/// the item's result at each index, and nothing when one item gives
/// nothing.
pub proof fn lemma_each_maps(e: TransformerExpression, xs: Seq<JsonV>)
    ensures
        (forall|i: int| 0 <= i < xs.len() ==> apply_spec(e, #[trigger] xs[i]) is Some) ==> (eval_spec(
            Transformer::Each(e),
            JsonV::Array(xs),
        ) matches Some(JsonV::Array(ys)) && ys.len() == xs.len() && forall|i: int|
            0 <= i < xs.len() ==> Some(#[trigger] ys[i]) == apply_spec(e, xs[i])),
        (exists|i: int| 0 <= i < xs.len() && apply_spec(e, #[trigger] xs[i]) is None) ==> eval_spec(
            Transformer::Each(e),
            JsonV::Array(xs),
        ) is None,
{
    lemma_each_prefix(e, xs, xs.len() as int);
}

proof fn lemma_find_prefix(e: TransformerExpression, xs: Seq<JsonV>, n: int, want: bool)
    requires
        0 <= n <= xs.len(),
        forall|k: int| 0 <= k < xs.len() ==> verdict(apply_spec(e, #[trigger] xs[k])) is Some,
    ensures
        find_spec(e, xs, n, want) == Some(
            exists|i: int| 0 <= i < n && verdict(apply_spec(e, #[trigger] xs[i])) == Some(want),
        ),
    decreases n,
{
    if n > 0 {
        lemma_find_prefix(e, xs, n - 1, want);
        assert(verdict(apply_spec(e, xs[n - 1])) is Some);
        if exists|i: int| 0 <= i < n && verdict(apply_spec(e, #[trigger] xs[i])) == Some(want) {
            let i = choose|i: int| 0 <= i < n && verdict(apply_spec(e, #[trigger] xs[i])) == Some(want);
            if i < n - 1 {
                assert(exists|i: int| 0 <= i < n - 1 && verdict(apply_spec(e, #[trigger] xs[i])) == Some(want));
            }
        }
    }
}

/// `any` is true exactly when its expression gives true for some item, and
/// `all` exactly when it gives true for every item (null counting as
/// false), when the expression gives true, false or null for each.
pub proof fn lemma_any_all(e: TransformerExpression, xs: Seq<JsonV>)
    requires
        forall|k: int| 0 <= k < xs.len() ==> verdict(apply_spec(e, #[trigger] xs[k])) is Some,
    ensures
        eval_spec(Transformer::Any(e), JsonV::Array(xs)) == Some(
            JsonV::Bool(exists|i: int| 0 <= i < xs.len() && passes(e, #[trigger] xs[i])),
        ),
        eval_spec(Transformer::All(e), JsonV::Array(xs)) == Some(
            JsonV::Bool(forall|i: int| 0 <= i < xs.len() ==> passes(e, #[trigger] xs[i])),
        ),
{
    lemma_find_prefix(e, xs, xs.len() as int, true);
    lemma_find_prefix(e, xs, xs.len() as int, false);
    let n = xs.len() as int;
    assert((exists|i: int| 0 <= i < n && verdict(apply_spec(e, #[trigger] xs[i])) == Some(true)) == (exists|i: int|
        0 <= i < n && passes(e, #[trigger] xs[i])));
    if exists|i: int| 0 <= i < n && verdict(apply_spec(e, #[trigger] xs[i])) == Some(false) {
        let i = choose|i: int| 0 <= i < n && verdict(apply_spec(e, #[trigger] xs[i])) == Some(false);
        assert(!passes(e, xs[i]));
    } else {
        assert forall|i: int| 0 <= i < n implies passes(e, #[trigger] xs[i]) by {
            assert(verdict(apply_spec(e, xs[i])) is Some);
            assert(verdict(apply_spec(e, xs[i])) != Some(false));
        }
    }
}

/// Comparing with a text is true exactly when the string is that text.
pub proof fn lemma_equals_string(a: String, s: Seq<char>)
    ensures
        eval_spec(Transformer::EqualsString(a), JsonV::Str(s)) == Some(JsonV::Bool(a@ == s)),
{
}

/// The entry of a group that took part in a match: its name, or its
/// position when it has none, with the text it matched.
pub open spec fn group_entry(g: Seq<(Option<Seq<char>>, Option<Seq<char>>)>, i: int) -> (Seq<char>, JsonV) {
    (
        match g[i].0 {
            Some(name) => name,
            None => decimal_text(i as nat),
        },
        JsonV::Str(g[i].1->0),
    )
}

proof fn lemma_capture_entries_groups(g: Seq<(Option<Seq<char>>, Option<Seq<char>>)>, n: int)
    requires
        0 <= n <= g.len(),
    ensures
        forall|i: int| 0 <= i < n && (#[trigger] g[i]).1 is Some ==> capture_entries(g, n).contains(group_entry(g, i)),
        capture_entries(g, n).len() == g.take(n).filter(
            |p: (Option<Seq<char>>, Option<Seq<char>>)| p.1 is Some,
        ).len(),
    decreases n,
{
    reveal_with_fuel(Seq::filter, 2);
    if n > 0 {
        lemma_capture_entries_groups(g, n - 1);
        let rest = capture_entries(g, n - 1);
        let all = capture_entries(g, n);
        assert(g.take(n).drop_last() =~= g.take(n - 1));
        assert(g.take(n).last() == g[n - 1]);
        assert forall|i: int| 0 <= i < n && (#[trigger] g[i]).1 is Some implies all.contains(group_entry(g, i)) by {
            if i < n - 1 {
                assert(rest.contains(group_entry(g, i)));
                let m = choose|m: int| 0 <= m < rest.len() && rest[m] == group_entry(g, i);
                assert(all[m] == rest[m]);
            } else {
                assert(all[all.len() - 1] == group_entry(g, i));
            }
        }
    } else {
        assert(g.take(0) =~= Seq::<(Option<Seq<char>>, Option<Seq<char>>)>::empty());
    }
}

/// Capturing gives null when the pattern does not match; otherwise an
/// object with, for each group that took part in the match, the text it
/// matched, under the group's name or, for a group without one, its
/// position, and one entry for each such group. Capturing all gives one
/// such object per match, in order.
pub proof fn lemma_capture_groups(re: crate::expressions::ComparableRegex, s: Seq<char>)
    requires
        regex_error(re.source@) is None,
    ensures
        regex_captures(re.source@, s) is None ==> eval_spec(Transformer::Capture(re), JsonV::Str(s)) == Some(
            JsonV::Null,
        ),
        regex_captures(re.source@, s) matches Some(g) ==> (eval_spec(Transformer::Capture(re), JsonV::Str(s))
            matches Some(JsonV::Object(es)) && (forall|i: int|
            0 <= i < g.len() && (#[trigger] g[i]).1 is Some ==> es.contains(group_entry(g, i))) && es.len()
            == g.filter(|p: (Option<Seq<char>>, Option<Seq<char>>)| p.1 is Some).len()),
        eval_spec(Transformer::AllCaptures(re), JsonV::Str(s)) matches Some(JsonV::Array(os)) && os.len()
            == regex_all_captures(re.source@, s).len() && forall|k: int|
            0 <= k < os.len() ==> #[trigger] os[k] == capture_object(regex_all_captures(re.source@, s)[k]),
{
    if let Some(g) = regex_captures(re.source@, s) {
        lemma_capture_entries_groups(g, g.len() as int);
        assert(g.take(g.len() as int) =~= g);
    }
}

/// Whether `e` gives true for `x`.
pub open spec fn passes(e: TransformerExpression, x: JsonV) -> bool {
    verdict(apply_spec(e, x)) == Some(true)
}

/// Filtering an array keeps exactly the items for which the expression
/// gives true, in their order, when it gives true, false or null for each.
pub proof fn lemma_filter_keeps(e: TransformerExpression, xs: Seq<JsonV>)
    requires
        forall|k: int| 0 <= k < xs.len() ==> verdict(apply_spec(e, #[trigger] xs[k])) is Some,
    ensures
        filter_spec(e, xs, xs.len() as int) == Some(xs.filter(|x: JsonV| passes(e, x))),
        eval_spec(Transformer::Filter(e), JsonV::Array(xs)) == Some(
            JsonV::Array(xs.filter(|x: JsonV| passes(e, x))),
        ),
{
    lemma_filter_prefix(e, xs, xs.len() as int);
    assert(xs.take(xs.len() as int) =~= xs);
}

proof fn lemma_filter_prefix(e: TransformerExpression, xs: Seq<JsonV>, n: int)
    requires
        0 <= n <= xs.len(),
        forall|k: int| 0 <= k < xs.len() ==> verdict(apply_spec(e, #[trigger] xs[k])) is Some,
    ensures
        filter_spec(e, xs, n) == Some(xs.take(n).filter(|x: JsonV| passes(e, x))),
    decreases n,
{
    reveal_with_fuel(Seq::filter, 2);
    if n == 0 {
        assert(xs.take(0) =~= Seq::<JsonV>::empty());
    } else {
        lemma_filter_prefix(e, xs, n - 1);
        assert(xs.take(n).drop_last() =~= xs.take(n - 1));
        assert(xs.take(n).last() == xs[n - 1]);
        assert(verdict(apply_spec(e, xs[n - 1])) is Some);
    }
}

/// Filtering an object keeps exactly the entries whose value the expression
/// gives true for, in their order, when it gives true, false or null for
/// each.
pub proof fn lemma_filter_entries_keeps(e: TransformerExpression, es: Seq<(Seq<char>, JsonV)>)
    requires
        forall|k: int| 0 <= k < es.len() ==> verdict(apply_spec(e, (#[trigger] es[k]).1)) is Some,
    ensures
        filter_entry_spec(e, es, es.len() as int) == Some(
            es.filter(|x: (Seq<char>, JsonV)| passes(e, x.1)),
        ),
        eval_spec(Transformer::Filter(e), JsonV::Object(es)) == Some(
            JsonV::Object(es.filter(|x: (Seq<char>, JsonV)| passes(e, x.1))),
        ),
{
    lemma_filter_entries_prefix(e, es, es.len() as int);
    assert(es.take(es.len() as int) =~= es);
}

proof fn lemma_filter_entries_prefix(e: TransformerExpression, es: Seq<(Seq<char>, JsonV)>, n: int)
    requires
        0 <= n <= es.len(),
        forall|k: int| 0 <= k < es.len() ==> verdict(apply_spec(e, (#[trigger] es[k]).1)) is Some,
    ensures
        filter_entry_spec(e, es, n) == Some(es.take(n).filter(|x: (Seq<char>, JsonV)| passes(e, x.1))),
    decreases n,
{
    reveal_with_fuel(Seq::filter, 2);
    if n == 0 {
        assert(es.take(0) =~= Seq::<(Seq<char>, JsonV)>::empty());
    } else {
        lemma_filter_entries_prefix(e, es, n - 1);
        assert(es.take(n).drop_last() =~= es.take(n - 1));
        assert(es.take(n).last() == es[n - 1]);
        assert(verdict(apply_spec(e, es[n - 1].1)) is Some);
    }
}

} // verus!
