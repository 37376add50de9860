//! The variables that a directives file can set, and how their values are
//! read, with the defaults of those it leaves unset.
use vstd::prelude::*;
use vstd::string::StringExecFns;

use crate::items::{Literal, LiteralV, literal_view};
use crate::crawl::{default_user_agent, user_agent_text};
use crate::literal_parse::literal_outcome_view;
use crate::expressions::{str_debug_text, debug_text, decimal_text};
use crate::outside::push_char;

verus! {

/// A variable that a directives file can set.
#[derive(Debug, Clone, Copy, PartialEq, Eq, Structural, PartialOrd, Ord, Hash)]
pub enum Variable {
    UserAgent,
    Quota,
    MaxDepth,
    MaxHitsPerSec,
    RequestTimeout,
    MaxBodySize,
}

/// The name under which a variable is set.
pub open spec fn variable_name(v: Variable) -> Seq<char> {
    match v {
        Variable::UserAgent => "user_agent"@,
        Variable::Quota => "quota"@,
        Variable::MaxDepth => "max_depth"@,
        Variable::MaxHitsPerSec => "max_hits_per_sec"@,
        Variable::RequestTimeout => "request_timeout"@,
        Variable::MaxBodySize => "max_body_size"@,
    }
}

/// The variable that a name stands for, if any.
pub open spec fn variable_named(t: Seq<char>) -> Option<Variable> {
    if t == "user_agent"@ {
        Some(Variable::UserAgent)
    } else if t == "quota"@ {
        Some(Variable::Quota)
    } else if t == "max_depth"@ {
        Some(Variable::MaxDepth)
    } else if t == "max_hits_per_sec"@ {
        Some(Variable::MaxHitsPerSec)
    } else if t == "request_timeout"@ {
        Some(Variable::RequestTimeout)
    } else if t == "max_body_size"@ {
        Some(Variable::MaxBodySize)
    } else {
        None
    }
}

/// Reading back the name of a variable gives the variable.
pub proof fn lemma_variable_name_roundtrip(v: Variable)
    ensures
        variable_named(variable_name(v)) == Some(v),
{
    reveal_strlit("user_agent");
    reveal_strlit("quota");
    reveal_strlit("max_depth");
    reveal_strlit("max_hits_per_sec");
    reveal_strlit("request_timeout");
    reveal_strlit("max_body_size");
    assert("user_agent"@.len() == 10);
    assert("quota"@.len() == 5);
    assert("max_depth"@.len() == 9);
    assert("max_hits_per_sec"@.len() == 16);
    assert("request_timeout"@.len() == 15);
    assert("max_body_size"@.len() == 13);
}

/// The value a variable holds when a directives file does not set it, for
/// the variables read as unsigned integers.
pub open spec fn default_u64(v: Variable) -> u64 {
    match v {
        Variable::Quota => 1000,
        Variable::MaxDepth => 7,
        _ => 10_000_000,
    }
}

/// The variables that are read as unsigned integers.
pub open spec fn is_u64_variable(v: Variable) -> bool {
    v == Variable::Quota || v == Variable::MaxDepth || v == Variable::MaxBodySize
}

/// The variables that are read as numbers above zero.
pub open spec fn is_positive_variable(v: Variable) -> bool {
    v == Variable::MaxHitsPerSec || v == Variable::RequestTimeout
}

/// Whether a literal is a number above zero: a positive integer, or a
/// floating-point number whose IEEE-754 bits are those of a value above
/// zero (sign bit clear, not zero, not a NaN; infinity counts).
pub open spec fn is_positive_number(l: LiteralV) -> bool {
    match l {
        LiteralV::PosInt(n) => n > 0,
        LiteralV::NegInt(n) => n > 0,
        LiteralV::Float(f) => 0 < f.0 <= 0x7FF0_0000_0000_0000u64,
        _ => false,
    }
}

/// Whether a value (or its absence) fits a variable: the user agent is a
/// string; the quota, the maximum depth and the maximum body size are
/// unsigned integers; the hit rate and the request timeout are numbers above
/// zero. An unset variable takes its default, which fits.
pub open spec fn value_fits(v: Variable, l: Option<LiteralV>) -> bool {
    match l {
        None => true,
        Some(x) => if v == Variable::UserAgent {
            x is String
        } else if is_u64_variable(v) {
            x is PosInt
        } else {
            is_positive_number(x)
        },
    }
}

/// The decimal digits of a signed integer, with a minus sign when negative.
pub open spec fn signed_text(n: i64) -> Seq<char> {
    if n < 0 {
        "-"@ + decimal_text((-n) as nat)
    } else {
        decimal_text(n as nat)
    }
}

/// How a literal is written in a report: `null`, a quoted string, a number,
/// or its items between brackets, separated by commas.
pub open spec fn literal_text(l: LiteralV) -> Seq<char>
    decreases l, 1int, 0int,
{
    match l {
        LiteralV::Null => "null"@,
        LiteralV::String(t) => str_debug_text(t),
        LiteralV::PosInt(n) => decimal_text(n as nat),
        LiteralV::NegInt(n) => signed_text(n),
        LiteralV::Float(f) => f.1,
        LiteralV::Array(xs) => "["@ + items_text(l, xs.len() as int) + "]"@,
    }
}

/// The first `n` items of the array `l`, written and separated by commas.
pub open spec fn items_text(l: LiteralV, n: int) -> Seq<char>
    decreases l, 0int, n,
{
    match l {
        LiteralV::Array(xs) => if n <= 0 || n > xs.len() {
            Seq::empty()
        } else if n == 1 {
            literal_text(xs[0])
        } else {
            items_text(l, n - 1) + ","@ + literal_text(xs[n - 1])
        },
        _ => Seq::empty(),
    }
}

/// The report of a value that does not fit its variable.
pub open spec fn bad_value_text(v: Variable, l: LiteralV) -> Seq<char> {
    "bad set-variable value for "@ + variable_name(v) + ": "@ + literal_text(l)
}

/// The decimal digits of `n`.
fn decimal_u64(n: u64) -> (r: String)
    ensures
        r@ == decimal_text(n as nat),
    decreases n,
{
    if n < 10 {
        let mut r = String::new();
        push_char(&mut r, ((n as u8) + 48u8) as char);
        r
    } else {
        let mut r = decimal_u64(n / 10);
        push_char(&mut r, (((n % 10) as u8) + 48u8) as char);
        r
    }
}

/// How a literal is written in a report.
pub fn literal_to_text(l: &Literal) -> (r: String)
    ensures
        r@ == literal_text(literal_view(*l)),
    decreases l,
{
    match l {
        Literal::Null => String::from_str("null"),
        Literal::String(t) => debug_text(t.as_str()),
        Literal::PosInt(n) => decimal_u64(*n),
        Literal::NegInt(n) => {
            if *n < 0 {
                let m: u64 = if *n == i64::MIN {
                    9_223_372_036_854_775_808u64
                } else {
                    (-*n) as u64
                };
                let d = decimal_u64(m);
                let mut r = String::from_str("-");
                r.append(d.as_str());
                r
            } else {
                decimal_u64(*n as u64)
            }
        },
        Literal::Float(f) => f.text.clone(),
        Literal::Array(xs) => {
            let ghost lv = literal_view(*l);
            let mut r = String::from_str("[");
            let mut k: usize = 0;
            proof {
                crate::items::lemma_literals_view_len(xs@);
                assert(r@ =~= "["@ + items_text(lv, 0));
            }
            while k < xs.len()
                invariant
                    k <= xs@.len(),
                    *l == Literal::Array(*xs),
                    lv == literal_view(*l),
                    lv == LiteralV::Array(crate::items::literals_view(xs@)),
                    crate::items::literals_view(xs@).len() == xs@.len(),
                    r@ == "["@ + items_text(lv, k as int),
                decreases xs.len() - k,
            {
                proof {
                    let parts = (*l)->Array_0;
                    assert(decreases_to!(*l => (*l)->Array_0));
                    assert(decreases_to!(parts => parts@));
                    assert(decreases_to!(parts@ => parts@[k as int]));
                    crate::items::lemma_literals_view_index(xs@, k as int);
                }
                let item = literal_to_text(&xs[k]);
                let ghost before = r@;
                if k > 0 {
                    r.append(",");
                }
                r.append(item.as_str());
                proof {
                    let ys = crate::items::literals_view(xs@);
                    assert(ys[k as int] == literal_view(xs@[k as int]));
                    if k == 0 {
                        assert(items_text(lv, 1) == literal_text(ys[0]));
                        assert(r@ =~= "["@ + items_text(lv, 1));
                    } else {
                        assert(items_text(lv, k + 1) == items_text(lv, k as int) + ","@ + literal_text(ys[k as int]));
                        assert(r@ =~= "["@ + items_text(lv, k + 1));
                    }
                }
                k = k + 1;
            }
            r.append("]");
            r
        },
    }
}

/// A value that does not fit the variable it was set to.
#[derive(Debug)]
pub struct BadValue {
    pub variable: Variable,
    pub value: Literal,
}

impl Variable {
    /// The variable that `input` names, if any.
    pub fn try_parse(input: &str) -> (r: Option<Variable>)
        ensures
            r == variable_named(input@),
    {
        let t = String::from_str(input);
        if t == String::from_str("user_agent") {
            Some(Variable::UserAgent)
        } else if t == String::from_str("quota") {
            Some(Variable::Quota)
        } else if t == String::from_str("max_depth") {
            Some(Variable::MaxDepth)
        } else if t == String::from_str("max_hits_per_sec") {
            Some(Variable::MaxHitsPerSec)
        } else if t == String::from_str("request_timeout") {
            Some(Variable::RequestTimeout)
        } else if t == String::from_str("max_body_size") {
            Some(Variable::MaxBodySize)
        } else {
            None
        }
    }

    /// The name under which the variable is set.
    pub fn to_string(&self) -> (r: String)
        ensures
            r@ == variable_name(*self),
    {
        match self {
            Variable::UserAgent => String::from_str("user_agent"),
            Variable::Quota => String::from_str("quota"),
            Variable::MaxDepth => String::from_str("max_depth"),
            Variable::MaxHitsPerSec => String::from_str("max_hits_per_sec"),
            Variable::RequestTimeout => String::from_str("request_timeout"),
            Variable::MaxBodySize => String::from_str("max_body_size"),
        }
    }

    /// The text of the user agent: the default when unset, the string it was
    /// set to, or the value that is not a string.
    pub fn retrieve_as_str(&self, literal: Option<&Literal>) -> (r: Result<String, BadValue>)
        requires
            *self == Variable::UserAgent,
        ensures
            match literal {
                None => r matches Ok(t) && t@ == user_agent_text(),
                Some(Literal::String(s)) => r matches Ok(t) && t@ == s@,
                Some(other) => r matches Err(e) && e.variable == *self && literal_view(e.value)
                    == literal_view(*other),
            },
    {
        match literal {
            None => Ok(String::from_str(default_user_agent())),
            Some(Literal::String(s)) => Ok(s.clone()),
            Some(other) => Err(BadValue { variable: *self, value: other.clone_literal() }),
        }
    }

    /// An unsigned integer variable: its default when unset, the integer it
    /// was set to, or the value that is not an unsigned integer.
    pub fn retrieve_as_u64(&self, literal: Option<&Literal>) -> (r: Result<u64, BadValue>)
        requires
            is_u64_variable(*self),
        ensures
            match literal {
                None => r == Ok::<u64, BadValue>(default_u64(*self)),
                Some(Literal::PosInt(n)) => r == Ok::<u64, BadValue>(*n),
                Some(other) => r matches Err(e) && e.variable == *self && literal_view(e.value)
                    == literal_view(*other),
            },
    {
        match literal {
            None => match self {
                Variable::Quota => Ok(1000),
                Variable::MaxDepth => Ok(7),
                _ => Ok(10_000_000),
            },
            Some(Literal::PosInt(n)) => Ok(*n),
            Some(other) => Err(BadValue { variable: *self, value: other.clone_literal() }),
        }
    }
}

impl Variable {
    /// A variable read as a number above zero: fine when unset (it takes
    /// its default) or set to such a number; otherwise the value that does
    /// not fit.
    pub fn retrieve_as_positive_number(&self, literal: Option<&Literal>) -> (r: Result<(), BadValue>)
        requires
            is_positive_variable(*self),
        ensures
            match literal {
                None => r is Ok,
                Some(l) => if is_positive_number(literal_view(*l)) {
                    r is Ok
                } else {
                    r matches Err(e) && e.variable == *self && literal_view(e.value) == literal_view(*l)
                },
            },
    {
        match literal {
            None => Ok(()),
            Some(l) => {
                let fits = match l {
                    Literal::PosInt(n) => *n > 0,
                    Literal::NegInt(n) => *n > 0,
                    Literal::Float(f) => 0 < f.bits && f.bits <= 0x7FF0_0000_0000_0000u64,
                    _ => false,
                };
                if fits {
                    Ok(())
                } else {
                    Err(BadValue { variable: *self, value: l.clone_literal() })
                }
            },
        }
    }
}

impl BadValue {
    /// The report of the bad value.
    pub fn to_text(&self) -> (r: String)
        ensures
            r@ == bad_value_text(self.variable, literal_view(self.value)),
    {
        let mut r = String::from_str("bad set-variable value for ");
        let name = self.variable.to_string();
        r.append(name.as_str());
        r.append(": ");
        let v = literal_to_text(&self.value);
        r.append(v.as_str());
        r
    }
}

/// The report of `v`'s value in the settings `m`, when it does not fit.
pub open spec fn bad_value_lines(m: Map<Variable, LiteralV>, v: Variable) -> Seq<Seq<char>> {
    match m.get(v) {
        Some(x) => if value_fits(v, Some(x)) {
            Seq::empty()
        } else {
            seq![bad_value_text(v, x)]
        },
        None => Seq::empty(),
    }
}

/// The reports of the values that do not fit their variables, in the order
/// user agent, quota, maximum depth, hit rate, request timeout, maximum body
/// size.
pub open spec fn bad_values_of(m: Map<Variable, LiteralV>) -> Seq<Seq<char>> {
    bad_value_lines(m, Variable::UserAgent) + bad_value_lines(m, Variable::Quota)
        + bad_value_lines(m, Variable::MaxDepth) + bad_value_lines(m, Variable::MaxHitsPerSec)
        + bad_value_lines(m, Variable::RequestTimeout) + bad_value_lines(m, Variable::MaxBodySize)
}

/// The variables that a directives file sets, each with the value it was
/// last set to.
#[derive(Debug)]
pub struct SetVariables {
    pub set_variables: Vec<(Variable, Literal)>,
}

/// The variables of a list of settings, each with its value. A variable is
/// in the list at most once.
pub open spec fn settings_view(entries: Seq<(Variable, Literal)>) -> Map<Variable, LiteralV> {
    Map::new(
        |v: Variable| exists|k: int| 0 <= k < entries.len() && entries[k].0 == v,
        |v: Variable|
            literal_view(
                entries[choose|k: int| 0 <= k < entries.len() && entries[k].0 == v].1,
            ),
    )
}

/// No variable occurs twice in the list.
pub open spec fn distinct_variables(entries: Seq<(Variable, Literal)>) -> bool {
    forall|a: int, b: int|
        0 <= a < b < entries.len() ==> #[trigger] entries[a].0 != #[trigger] entries[b].0
}

/// The value that a list of settings gives to the variable of one of its
/// entries is that entry's.
pub proof fn lemma_settings_lookup(entries: Seq<(Variable, Literal)>, k: int)
    requires
        distinct_variables(entries),
        0 <= k < entries.len(),
    ensures
        settings_view(entries).contains_key(entries[k].0),
        settings_view(entries)[entries[k].0] == literal_view(entries[k].1),
{
    let v = entries[k].0;
    assert(settings_view(entries).dom().contains(v));
    let w = choose|x: int| 0 <= x < entries.len() && entries[x].0 == v;
    if w != k {
        if w < k {
            assert(entries[w].0 != entries[k].0);
        } else {
            assert(entries[k].0 != entries[w].0);
        }
    }
}

proof fn lemma_settings_replace(
    before: Seq<(Variable, Literal)>,
    k: int,
    name: Variable,
    after: Seq<(Variable, Literal)>,
)
    requires
        distinct_variables(before),
        0 <= k < before.len(),
        before[k].0 == name,
        after.len() == before.len(),
        after[k].0 == name,
        forall|j: int| 0 <= j < before.len() && j != k ==> after[j] == before[j],
    ensures
        distinct_variables(after),
        settings_view(after) == settings_view(before).insert(name, literal_view(after[k].1)),
{
    assert forall|a: int, b: int| 0 <= a < b < after.len() implies #[trigger] after[a].0
        != #[trigger] after[b].0 by {
        assert(before[a].0 != before[b].0);
    }
    let lv = literal_view(after[k].1);
    assert forall|v: Variable| #[trigger] settings_view(after).contains_key(v)
        == settings_view(before).insert(name, lv).contains_key(v) by {
        if settings_view(after).contains_key(v) {
            let w = choose|x: int| 0 <= x < after.len() && after[x].0 == v;
            if w != k {
                assert(before[w].0 == v);
            }
        }
        if settings_view(before).contains_key(v) {
            let w = choose|x: int| 0 <= x < before.len() && before[x].0 == v;
            if w != k {
                assert(after[w].0 == v);
            } else {
                assert(after[k].0 == v);
            }
        }
        if v == name {
            assert(after[k].0 == v);
        }
    }
    assert forall|v: Variable| #[trigger] settings_view(after).contains_key(v)
        implies settings_view(after)[v] == settings_view(before).insert(name, lv)[v] by {
        let w = choose|x: int| 0 <= x < after.len() && after[x].0 == v;
        lemma_settings_lookup(after, w);
        if w != k {
            assert(before[w] == after[w]);
            lemma_settings_lookup(before, w);
        }
    }
    assert(settings_view(after) =~= settings_view(before).insert(name, lv));
}

proof fn lemma_settings_append(
    before: Seq<(Variable, Literal)>,
    name: Variable,
    after: Seq<(Variable, Literal)>,
)
    requires
        distinct_variables(before),
        forall|j: int| 0 <= j < before.len() ==> before[j].0 != name,
        after.len() == before.len() + 1,
        after[before.len() as int].0 == name,
        forall|j: int| 0 <= j < before.len() ==> after[j] == before[j],
    ensures
        distinct_variables(after),
        settings_view(after) == settings_view(before).insert(
            name,
            literal_view(after[before.len() as int].1),
        ),
{
    let n = before.len() as int;
    assert forall|a: int, b: int| 0 <= a < b < after.len() implies #[trigger] after[a].0
        != #[trigger] after[b].0 by {
        if b == n {
            assert(before[a].0 != name);
        } else {
            assert(before[a].0 != before[b].0);
        }
    }
    let lv = literal_view(after[n].1);
    assert forall|v: Variable| #[trigger] settings_view(after).contains_key(v)
        == settings_view(before).insert(name, lv).contains_key(v) by {
        if settings_view(after).contains_key(v) {
            let w = choose|x: int| 0 <= x < after.len() && after[x].0 == v;
            if w != n {
                assert(before[w].0 == v);
            }
        }
        if settings_view(before).contains_key(v) {
            let w = choose|x: int| 0 <= x < before.len() && before[x].0 == v;
            assert(after[w].0 == v);
        }
        if v == name {
            assert(after[n].0 == v);
        }
    }
    assert forall|v: Variable| #[trigger] settings_view(after).contains_key(v)
        implies settings_view(after)[v] == settings_view(before).insert(name, lv)[v] by {
        let w = choose|x: int| 0 <= x < after.len() && after[x].0 == v;
        lemma_settings_lookup(after, w);
        if w != n {
            assert(before[w] == after[w]);
            lemma_settings_lookup(before, w);
        }
    }
    assert(settings_view(after) =~= settings_view(before).insert(name, lv));
}

impl SetVariables {
    pub open spec fn wf(&self) -> bool {
        distinct_variables(self.set_variables@)
    }

    pub open spec fn view(&self) -> Map<Variable, LiteralV> {
        settings_view(self.set_variables@)
    }

    /// No variable set.
    pub fn new() -> (r: SetVariables)
        ensures
            r.wf(),
            r.view() == Map::<Variable, LiteralV>::empty(),
    {
        let r = SetVariables { set_variables: Vec::new() };
        assert(r.view() =~= Map::<Variable, LiteralV>::empty());
        r
    }

    /// The value `name` was set to, if any.
    pub fn get(&self, name: Variable) -> (r: Option<&Literal>)
        requires
            self.wf(),
        ensures
            match r {
                Some(l) => self.view().contains_key(name) && self.view()[name] == literal_view(*l),
                None => !self.view().contains_key(name),
            },
    {
        let mut k: usize = 0;
        while k < self.set_variables.len()
            invariant
                k <= self.set_variables@.len(),
                self.wf(),
                forall|j: int| 0 <= j < k ==> self.set_variables@[j].0 != name,
            decreases self.set_variables.len() - k,
        {
            if self.set_variables[k].0 == name {
                proof {
                    lemma_settings_lookup(self.set_variables@, k as int);
                }
                return Some(&self.set_variables[k].1);
            }
            k = k + 1;
        }
        None
    }

    /// Sets `name` to `value`, in place of any value it had.
    pub fn set(&mut self, name: Variable, value: Literal)
        requires
            old(self).wf(),
        ensures
            final(self).wf(),
            final(self).view() == old(self).view().insert(name, literal_view(value)),
    {
        let ghost before = self.set_variables@;
        let ghost lv = literal_view(value);
        let mut k: usize = 0;
        while k < self.set_variables.len()
            invariant
                k <= self.set_variables@.len(),
                self.set_variables@ == before,
                before == old(self).set_variables@,
                lv == literal_view(value),
                distinct_variables(before),
                forall|j: int| 0 <= j < k ==> before[j].0 != name,
            decreases self.set_variables.len() - k,
        {
            if self.set_variables[k].0 == name {
                let ghost entry = (name, value);
                self.set_variables.set(k, (name, value));
                assert(self.set_variables@ == before.update(k as int, entry));
                proof {
                    lemma_settings_replace(before, k as int, name, self.set_variables@);
                }
                return;
            }
            k = k + 1;
        }
        self.set_variables.push((name, value));
        proof {
            lemma_settings_append(before, name, self.set_variables@);
        }
    }

    /// Whether the settings give `name` a number above zero (or leave it
    /// unset); otherwise the value that does not fit.
    pub fn get_as_positive_number(&self, name: Variable) -> (r: Result<(), BadValue>)
        requires
            self.wf(),
            is_positive_variable(name),
        ensures
            match self.view().get(name) {
                None => r is Ok,
                Some(x) => if is_positive_number(x) {
                    r is Ok
                } else {
                    r matches Err(e) && e.variable == name && literal_view(e.value) == x
                },
            },
    {
        name.retrieve_as_positive_number(self.get(name))
    }

    /// Adds the report of `v`'s value to `out` when it does not fit.
    fn check_one(&self, v: Variable, out: &mut Vec<String>)
        requires
            self.wf(),
        ensures
            final(out)@.map_values(|t: String| t@) == old(out)@.map_values(|t: String| t@)
                + bad_value_lines(self.view(), v),
    {
        let ghost before = out@.map_values(|t: String| t@);
        let bad = match v {
            Variable::UserAgent => self.get_as_str(v).err(),
            Variable::Quota | Variable::MaxDepth | Variable::MaxBodySize => self.get_as_u64(v).err(),
            Variable::MaxHitsPerSec | Variable::RequestTimeout => self.get_as_positive_number(v).err(),
        };
        match bad {
            Some(e) => {
                let t = e.to_text();
                out.push(t);
                assert(out@.map_values(|t: String| t@) =~= before + bad_value_lines(self.view(), v));
            },
            None => {
                assert(out@.map_values(|t: String| t@) =~= before + bad_value_lines(self.view(), v));
            },
        }
    }

    /// The reports of the values that do not fit their variables.
    pub fn bad_value_reports(&self) -> (r: Vec<String>)
        requires
            self.wf(),
        ensures
            r@.map_values(|t: String| t@) == bad_values_of(self.view()),
    {
        let mut r: Vec<String> = Vec::new();
        assert(r@.map_values(|t: String| t@) =~= Seq::<Seq<char>>::empty());
        self.check_one(Variable::UserAgent, &mut r);
        self.check_one(Variable::Quota, &mut r);
        self.check_one(Variable::MaxDepth, &mut r);
        self.check_one(Variable::MaxHitsPerSec, &mut r);
        self.check_one(Variable::RequestTimeout, &mut r);
        self.check_one(Variable::MaxBodySize, &mut r);
        assert(r@.map_values(|t: String| t@) =~= bad_values_of(self.view()));
        r
    }

    /// The user agent that the settings give.
    pub fn get_as_str(&self, name: Variable) -> (r: Result<String, BadValue>)
        requires
            self.wf(),
            name == Variable::UserAgent,
        ensures
            match self.view().get(name) {
                None => r matches Ok(t) && t@ == user_agent_text(),
                Some(LiteralV::String(s)) => r matches Ok(t) && t@ == s,
                Some(other) => r matches Err(e) && e.variable == name && literal_view(e.value)
                    == other,
            },
    {
        name.retrieve_as_str(self.get(name))
    }

    /// The unsigned integer that the settings give to `name`.
    pub fn get_as_u64(&self, name: Variable) -> (r: Result<u64, BadValue>)
        requires
            self.wf(),
            is_u64_variable(name),
        ensures
            match self.view().get(name) {
                None => r == Ok::<u64, BadValue>(default_u64(name)),
                Some(LiteralV::PosInt(n)) => r == Ok::<u64, BadValue>(n),
                Some(other) => r matches Err(e) && e.variable == name && literal_view(e.value)
                    == other,
            },
    {
        name.retrieve_as_u64(self.get(name))
    }
}

/// Reading a variable after setting it gives the value it was set to, and
/// setting one variable leaves the others as they were.
pub proof fn lemma_set_then_get(
    before: Map<Variable, LiteralV>,
    name: Variable,
    value: LiteralV,
    other: Variable,
)
    ensures
        before.insert(name, value).get(name) == Some(value),
        other != name ==> before.insert(name, value).get(other) == before.get(other),
{
}

} // verus!
