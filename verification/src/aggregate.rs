//! The aggregators that tally what the extractors read from the selected
//! elements without floating point: count, count of true values, first
//! value, and collection. Extraction itself, and the aggregators that sum,
//! tell values apart or group them, are the caller's.
use vstd::prelude::*;

use crate::json::{Json, JsonV, json_view, jsons_view, clone_json};

verus! {

/// The running tally of an aggregator.
#[derive(Debug)]
pub enum Tally {
    /// How many elements were selected.
    Count(usize),
    /// How many extracted values were true.
    CountNotNull(usize),
    /// The first extracted value that is not null, once there is one.
    First(Option<Json>),
    /// Every extracted value, in order.
    Collect(Vec<Json>),
}

/// What a [`Tally`] holds.
pub enum TallyV {
    Count(nat),
    CountNotNull(nat),
    First(Option<JsonV>),
    Collect(Seq<JsonV>),
}

impl View for Tally {
    type V = TallyV;

    open spec fn view(&self) -> TallyV {
        match *self {
            Tally::Count(n) => TallyV::Count(n as nat),
            Tally::CountNotNull(n) => TallyV::CountNotNull(n as nat),
            Tally::First(v) => TallyV::First(
                match v {
                    Some(j) => Some(json_view(j)),
                    None => None,
                },
            ),
            Tally::Collect(xs) => TallyV::Collect(jsons_view(xs@)),
        }
    }
}

/// How many of the values are true; nothing when one is neither a bool nor
/// null.
pub open spec fn count_true(vs: Seq<JsonV>) -> Option<nat>
    decreases vs.len(),
{
    if vs.len() == 0 {
        Some(0)
    } else {
        match count_true(vs.drop_last()) {
            Some(n) => match vs.last() {
                JsonV::Bool(true) => Some(n + 1),
                JsonV::Bool(false) | JsonV::Null => Some(n),
                _ => None,
            },
            None => None,
        }
    }
}

/// The first value that is not null, if any.
pub open spec fn first_present(vs: Seq<JsonV>) -> Option<JsonV>
    decreases vs.len(),
{
    if vs.len() == 0 {
        None
    } else if vs[0] is Null {
        first_present(vs.drop_first())
    } else {
        Some(vs[0])
    }
}

/// The tally after one more selected element, whose extracted values are
/// `vs`; nothing when a value is not of the type the aggregator takes.
pub open spec fn tally_step(t: TallyV, vs: Seq<JsonV>) -> Option<TallyV> {
    match t {
        TallyV::Count(n) => Some(TallyV::Count(n + 1)),
        TallyV::CountNotNull(n) => match count_true(vs) {
            Some(k) => Some(TallyV::CountNotNull(n + k)),
            None => None,
        },
        TallyV::First(Some(v)) => Some(TallyV::First(Some(v))),
        TallyV::First(None) => Some(TallyV::First(first_present(vs))),
        TallyV::Collect(xs) => Some(TallyV::Collect(xs + vs)),
    }
}

/// The result of a tally.
pub open spec fn tally_result(t: TallyV) -> JsonV {
    match t {
        TallyV::Count(n) => JsonV::PosInt(n as u64),
        TallyV::CountNotNull(n) => JsonV::PosInt(n as u64),
        TallyV::First(Some(v)) => v,
        TallyV::First(None) => JsonV::Null,
        TallyV::Collect(xs) => JsonV::Array(xs),
    }
}

proof fn lemma_count_true_bound(vs: Seq<JsonV>)
    ensures
        count_true(vs) matches Some(k) ==> k <= vs.len(),
    decreases vs.len(),
{
    if vs.len() > 0 {
        lemma_count_true_bound(vs.drop_last());
    }
}

proof fn lemma_count_true_stuck(vs: Seq<JsonV>, n: int)
    requires
        0 < n <= vs.len(),
        count_true(vs.take(n)) is None,
    ensures
        count_true(vs) is None,
    decreases vs.len() - n,
{
    if n < vs.len() {
        assert(vs.take(n + 1).drop_last() =~= vs.take(n));
        lemma_count_true_stuck(vs, n + 1);
    } else {
        assert(vs.take(n) =~= vs);
    }
}

proof fn lemma_first_present_skip(vs: Seq<JsonV>, k: int)
    requires
        0 <= k <= vs.len(),
        forall|i: int| 0 <= i < k ==> (#[trigger] vs[i]) is Null,
    ensures
        first_present(vs) == first_present(vs.skip(k)),
    decreases k,
{
    if k > 0 {
        assert(vs[0] is Null);
        assert(vs.drop_first().skip(k - 1) =~= vs.skip(k));
        assert forall|i: int| 0 <= i < k - 1 implies (#[trigger] vs.drop_first()[i]) is Null by {
            assert(vs.drop_first()[i] == vs[i + 1]);
        }
        lemma_first_present_skip(vs.drop_first(), k - 1);
    } else {
        assert(vs.skip(0) =~= vs);
    }
}

/// How many of the values are true.
fn count_values(values: &Vec<Json>) -> (r: Option<usize>)
    ensures
        match r {
            Some(c) => count_true(jsons_view(values@)) == Some(c as nat) && c <= values@.len(),
            None => count_true(jsons_view(values@)) is None,
        },
{
    let ghost vv = jsons_view(values@);
    proof {
        crate::json::lemma_jsons_view(values@);
    }
    let mut k: usize = 0;
    let mut c: usize = 0;
    assert(vv.take(0) =~= Seq::<JsonV>::empty());
    while k < values.len()
        invariant
            k <= values@.len(),
            vv == jsons_view(values@),
            vv.len() == values@.len(),
            forall|i: int| 0 <= i < values@.len() ==> #[trigger] vv[i] == json_view(values@[i]),
            count_true(vv.take(k as int)) == Some(c as nat),
            c <= k,
        decreases values.len() - k,
    {
        assert(vv.take(k + 1).drop_last() =~= vv.take(k as int));
        assert(vv.take(k + 1).last() == vv[k as int]);
        match &values[k] {
            Json::Bool(true) => {
                c = c + 1;
            },
            Json::Bool(false) | Json::Null => {},
            _ => {
                proof {
                    lemma_count_true_stuck(vv, k as int + 1);
                }
                return None;
            },
        }
        k = k + 1;
    }
    assert(vv.take(k as int) =~= vv);
    Some(c)
}

/// The first value that is not null, if any.
fn first_value(values: &Vec<Json>) -> (r: Option<Json>)
    ensures
        match r {
            Some(j) => first_present(jsons_view(values@)) == Some(json_view(j)),
            None => first_present(jsons_view(values@)) is None,
        },
{
    let ghost vv = jsons_view(values@);
    proof {
        crate::json::lemma_jsons_view(values@);
    }
    let mut k: usize = 0;
    while k < values.len()
        invariant
            k <= values@.len(),
            vv == jsons_view(values@),
            vv.len() == values@.len(),
            forall|i: int| 0 <= i < values@.len() ==> #[trigger] vv[i] == json_view(values@[i]),
            forall|i: int| 0 <= i < k ==> (#[trigger] vv[i]) is Null,
        decreases values.len() - k,
    {
        if !matches!(values[k], Json::Null) {
            proof {
                lemma_first_present_skip(vv, k as int);
                assert(vv.skip(k as int)[0] == vv[k as int]);
            }
            return Some(clone_json(&values[k]));
        }
        k = k + 1;
    }
    proof {
        lemma_first_present_skip(vv, k as int);
        assert(vv.skip(k as int).len() == 0);
    }
    None
}

/// Appends copies of the values.
fn append_values(xs: &mut Vec<Json>, values: &Vec<Json>)
    ensures
        jsons_view(final(xs)@) == jsons_view(old(xs)@) + jsons_view(values@),
{
    let ghost vv = jsons_view(values@);
    let ghost before = jsons_view(xs@);
    proof {
        crate::json::lemma_jsons_view(values@);
    }
    let mut k: usize = 0;
    assert(before + vv.take(0) =~= before);
    while k < values.len()
        invariant
            k <= values@.len(),
            vv == jsons_view(values@),
            vv.len() == values@.len(),
            forall|i: int| 0 <= i < values@.len() ==> #[trigger] vv[i] == json_view(values@[i]),
            jsons_view(xs@) == before + vv.take(k as int),
        decreases values.len() - k,
    {
        let item = clone_json(&values[k]);
        proof {
            crate::json::lemma_jsons_push(xs@, item);
        }
        xs.push(item);
        assert(before + vv.take(k + 1) =~= (before + vv.take(k as int)).push(vv[k as int]));
        k = k + 1;
    }
    assert(vv.take(k as int) =~= vv);
}

impl Tally {
    /// Adds one selected element, whose extracted values are `values`;
    /// `false` (with the tally unchanged) when a value is not of the type
    /// the aggregator takes.
    pub fn add(&mut self, values: Vec<Json>) -> (ok: bool)
        requires
            *old(self) is Count ==> (*old(self))->Count_0 < usize::MAX,
            *old(self) is CountNotNull ==> (*old(self))->CountNotNull_0 + values@.len() <= usize::MAX,
        ensures
            ok == tally_step(old(self)@, jsons_view(values@)) is Some,
            ok ==> Some(final(self)@) == tally_step(old(self)@, jsons_view(values@)),
            !ok ==> final(self)@ == old(self)@,
    {
        match self {
            Tally::Count(n) => {
                *n = *n + 1;
                true
            },
            Tally::CountNotNull(n) => match count_values(&values) {
                Some(c) => {
                    *n = *n + c;
                    true
                },
                None => false,
            },
            Tally::First(v) => {
                if v.is_none() {
                    *v = first_value(&values);
                }
                true
            },
            Tally::Collect(xs) => {
                append_values(xs, &values);
                true
            },
        }
    }

    /// The result of the tally.
    pub fn finish(self) -> (r: Json)
        ensures
            json_view(r) == tally_result(self@),
    {
        match self {
            Tally::Count(n) => Json::PosInt(n as u64),
            Tally::CountNotNull(n) => Json::PosInt(n as u64),
            Tally::First(Some(v)) => v,
            Tally::First(None) => Json::Null,
            Tally::Collect(xs) => Json::Array(xs),
        }
    }
}

} // verus!
