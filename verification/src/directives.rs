//! A set of loaded directive modules, and what the crawl reads from it: the
//! seeds, the boundaries, the rules and their types, the variable settings,
//! and the issues that make a set of directives unsound.
use vstd::prelude::*;
use vstd::string::StringExecFns;

use crate::types::Type;
use crate::expressions::{AggregatorExpression, Error, ErrorView, aggregator_expression_type,
    typing_view, join_texts, error_text};
use crate::items::{Boundary, Item, Literal, LiteralV, RuleSet, literal_view};
use crate::variable::{Variable, SetVariables, variable_named, value_fits, bad_values_of, bad_value_lines};
use crate::position::chars_of;
use crate::outside::{push_char, regex_set_match, set_matches};

verus! {

/// Separates the parts of a module path and of a full rule name.
pub open spec fn separator() -> Seq<char> {
    "."@
}

/// The name of a rule of a module: the module's name, a dot and the rule's
/// name; just the rule's name in the main module (whose name is empty).
pub open spec fn full_name(prefix: Seq<char>, name: Seq<char>) -> Seq<char> {
    if prefix.len() > 0 {
        prefix + separator() + name
    } else {
        name
    }
}

/// The full name of a rule.
pub fn full_rule_name(prefix: &str, rule_name: &str) -> (r: String)
    ensures
        r@ == full_name(prefix@, rule_name@),
{
    if !prefix.is_empty() {
        let mut r = String::from_str(prefix);
        r.append(".");
        r.append(rule_name);
        r
    } else {
        String::from_str(rule_name)
    }
}

/// The parts of a text between dots (one part when it has none).
pub open spec fn dot_parts(s: Seq<char>) -> Seq<Seq<char>>
    decreases s.len(),
{
    if s.len() == 0 {
        seq![Seq::empty()]
    } else {
        let ps = dot_parts(s.drop_last());
        if s.last() == '.' {
            ps.push(Seq::empty())
        } else {
            ps.update(ps.len() - 1, ps.last().push(s.last()))
        }
    }
}

proof fn lemma_dot_parts_len(s: Seq<char>)
    ensures
        dot_parts(s).len() >= 1,
    decreases s.len(),
{
    if s.len() > 0 {
        lemma_dot_parts_len(s.drop_last());
    }
}

/// What one part does to the parts gathered so far: `super` drops the last
/// one (and has nothing to drop from an empty list: no result), `root` drops
/// them all, an empty part does nothing, and any other part is added.
pub open spec fn apply_part(parts: Seq<Seq<char>>, part: Seq<char>) -> Option<Seq<Seq<char>>> {
    if part == "super"@ {
        if parts.len() > 0 {
            Some(parts.drop_last())
        } else {
            None
        }
    } else if part == "root"@ {
        Some(Seq::empty())
    } else if part.len() == 0 {
        Some(parts)
    } else {
        Some(parts.push(part))
    }
}

/// The parts that a list of parts leaves, read in order; none when a
/// `super` comes while no part is kept.
pub open spec fn apply_parts(parts: Seq<Seq<char>>) -> Option<Seq<Seq<char>>>
    decreases parts.len(),
{
    if parts.len() == 0 {
        Some(Seq::empty())
    } else {
        match apply_parts(parts.drop_last()) {
            Some(r) => apply_part(r, parts.last()),
            None => None,
        }
    }
}

/// A module path with `super` and `root` worked out and empty parts
/// dropped; an error when a `super` puts it above the root.
pub open spec fn canonical_result(path: Seq<char>) -> Result<Seq<char>, Seq<char>> {
    match apply_parts(dot_parts(path)) {
        Some(ps) => Ok(join_texts(ps, separator())),
        None => Err("got empty path from `"@ + path + "`"@),
    }
}

/// No part of the list is empty, `super` or `root`.
pub open spec fn plain_parts(parts: Seq<Seq<char>>) -> bool {
    forall|k: int|
        0 <= k < parts.len() ==> (#[trigger] parts[k]).len() > 0 && parts[k] != "super"@
            && parts[k] != "root"@
}

/// The parts that a path leaves are plain: none is empty, `super` or
/// `root`.
pub proof fn lemma_canonical_parts_plain(parts: Seq<Seq<char>>)
    ensures
        apply_parts(parts) matches Some(ps) ==> plain_parts(ps),
    decreases parts.len(),
{
    if parts.len() > 0 {
        lemma_canonical_parts_plain(parts.drop_last());
        if let Some(after) = apply_parts(parts) {
            let before = apply_parts(parts.drop_last())->0;
            assert forall|k: int| 0 <= k < after.len() implies (#[trigger] after[k]).len() > 0
                && after[k] != "super"@ && after[k] != "root"@ by {
                if k < before.len() {
                    assert(after[k] == before[k]);
                }
            }
        }
    }
}

/// The path with `super` and `root` worked out; an error when a `super`
/// would climb above the root.
pub fn canonical_path(path: &str) -> (r: Result<String, String>)
    ensures
        (match r {
            Ok(t) => Ok::<Seq<char>, Seq<char>>(t@),
            Err(e) => Err(e@),
        }) == canonical_result(path@),
{
    let chars = chars_of(path);
    let mut parts: Vec<String> = Vec::new();
    let mut cur = String::new();
    let mut k: usize = 0;
    let ghost mut seen: Seq<char> = Seq::empty();
    assert(parts@.map_values(|p: String| p@) =~= Seq::<Seq<char>>::empty());
    while k < chars.len()
        invariant
            k <= chars@.len(),
            chars@ == path@,
            seen == path@.take(k as int),
            dot_parts(seen).len() >= 1,
            apply_parts(dot_parts(seen).drop_last()) == Some(parts@.map_values(|p: String| p@)),
            cur@ == dot_parts(seen).last(),
        decreases chars.len() - k,
    {
        let c = chars[k];
        let ghost ps = dot_parts(seen);
        proof {
            assert(path@.take(k + 1) =~= seen.push(c));
            assert(seen.push(c).drop_last() =~= seen);
            lemma_dot_parts_len(seen);
        }
        if c == '.' {
            proof {
                assert(dot_parts(seen.push(c)) =~= ps.push(Seq::empty()));
                assert(dot_parts(seen.push(c)).drop_last() =~= ps);
                assert(ps.drop_last().push(ps.last()) =~= ps);
            }
            let ok = apply_one(&mut parts, cur);
            if !ok {
                proof {
                    lemma_dot_parts_prefix(path@, seen);
                    assert(dot_parts(path@).take(ps.len() as int) == ps);
                    assert(apply_parts(ps) is None);
                    lemma_apply_parts_stuck(dot_parts(path@), ps.len() as int);
                }
                return Err(empty_path_message(path));
            }
            cur = String::new();
        } else {
            proof {
                assert(dot_parts(seen.push(c)) =~= ps.update(ps.len() - 1, ps.last().push(c)));
                assert(dot_parts(seen.push(c)).drop_last() =~= ps.drop_last());
            }
            push_char(&mut cur, c);
        }
        proof {
            seen = seen.push(c);
        }
        k = k + 1;
    }
    proof {
        assert(seen =~= path@);
        let ps = dot_parts(seen);
        assert(ps.drop_last().push(ps.last()) =~= ps);
    }
    let ok = apply_one(&mut parts, cur);
    if !ok {
        return Err(empty_path_message(path));
    }
    Ok(join_strings(&parts, "."))
}

fn empty_path_message(path: &str) -> (r: String)
    ensures
        r@ == "got empty path from `"@ + path@ + "`"@,
{
    let mut m = String::from_str("got empty path from `");
    m.append(path);
    m.append("`");
    m
}

/// Once the parts leave nothing, so do longer lists of them.
proof fn lemma_apply_parts_stuck(parts: Seq<Seq<char>>, n: int)
    requires
        0 <= n <= parts.len(),
        apply_parts(parts.take(n)) is None,
    ensures
        apply_parts(parts) is None,
    decreases parts.len() - n,
{
    if n < parts.len() {
        assert(parts.take(n + 1).drop_last() =~= parts.take(n));
        lemma_apply_parts_stuck(parts, n + 1);
    } else {
        assert(parts.take(n) =~= parts);
    }
}

/// The complete parts of a prefix are parts of the whole.
proof fn lemma_dot_parts_prefix(s: Seq<char>, t: Seq<char>)
    requires
        t.len() < s.len(),
        t == s.take(t.len() as int),
        s[t.len() as int] == '.',
    ensures
        dot_parts(s).len() > dot_parts(t).len(),
        dot_parts(s).take(dot_parts(t).len() as int) == dot_parts(t),
    decreases s.len(),
{
    lemma_dot_parts_len(t);
    lemma_dot_parts_len(s.drop_last());
    if t.len() + 1 == s.len() {
        assert(s.drop_last() =~= t);
        assert(dot_parts(s) =~= dot_parts(t).push(Seq::empty()));
        assert(dot_parts(s).take(dot_parts(t).len() as int) =~= dot_parts(t));
    } else {
        assert(s.drop_last().take(t.len() as int) =~= t);
        lemma_dot_parts_prefix(s.drop_last(), t);
        let ps = dot_parts(s.drop_last());
        let n = dot_parts(t).len() as int;
        if s.last() == '.' {
            assert(dot_parts(s).take(n) =~= ps.take(n));
        } else {
            assert(dot_parts(s).take(n) =~= ps.take(n));
        }
    }
}

/// Applies one part to the parts gathered so far; `false` (leaving them as
/// they were) when a `super` finds none.
fn apply_one(parts: &mut Vec<String>, part: String) -> (ok: bool)
    ensures
        ok == (apply_part(old(parts)@.map_values(|p: String| p@), part@) is Some),
        ok ==> Some(final(parts)@.map_values(|p: String| p@)) == apply_part(
            old(parts)@.map_values(|p: String| p@),
            part@,
        ),
{
    let ghost before = parts@.map_values(|p: String| p@);
    if part == String::from_str("super") {
        if parts.len() > 0 {
            parts.pop();
            assert(parts@.map_values(|p: String| p@) =~= before.drop_last());
            true
        } else {
            false
        }
    } else if part == String::from_str("root") {
        parts.clear();
        assert(parts@.map_values(|p: String| p@) =~= Seq::<Seq<char>>::empty());
        true
    } else if part.as_str().is_empty() {
        true
    } else {
        let ghost pv = part@;
        parts.push(part);
        assert(parts@.map_values(|p: String| p@) =~= before.push(pv));
        true
    }
}

/// Texts joined by `sep`.
pub fn join_strings(items: &Vec<String>, sep: &str) -> (r: String)
    ensures
        r@ == join_texts(texts_view(items@), sep@),
{
    let ghost v = texts_view(items@);
    let mut r = String::new();
    let mut k: usize = 0;
    assert(v.take(0) =~= Seq::<Seq<char>>::empty());
    while k < items.len()
        invariant
            k <= items@.len(),
            v == texts_view(items@),
            r@ == join_texts(v.take(k as int), sep@),
        decreases items.len() - k,
    {
        assert(v.take(k + 1).drop_last() =~= v.take(k as int));
        if k > 0 {
            r.append(sep);
        } else {
            assert(v.take(1) =~= seq![v[0]]);
        }
        r.append(items[k].as_str());
        k = k + 1;
    }
    assert(v.take(k as int) =~= v);
    r
}

/// A loaded module of directives: its items, in order.
#[derive(Debug)]
pub struct LoadedModule {
    pub items: Vec<Item>,
}

/// Loaded directive modules, each under its name (the main module's name
/// is empty), in the order of their names.
#[derive(Debug)]
pub struct Directives {
    pub modules: Vec<(String, LoadedModule)>,
}

/// The named rules of an item.
pub open spec fn item_rules(it: Item) -> Seq<(String, AggregatorExpression)> {
    match it {
        Item::RuleSet(r) => r.aggregators@,
        _ => Seq::empty(),
    }
}

/// The named rules of a list of items, in order.
pub open spec fn items_rules(items: Seq<Item>) -> Seq<(String, AggregatorExpression)>
    decreases items.len(),
{
    if items.len() == 0 {
        Seq::empty()
    } else {
        items_rules(items.drop_last()) + item_rules(items.last())
    }
}

/// A rule's full name and its type.
pub open spec fn rule_typing(prefix: Seq<char>, r: (String, AggregatorExpression)) -> (
    Seq<char>,
    Result<Type, ErrorView>,
) {
    (full_name(prefix, r.0@), aggregator_expression_type(r.1))
}

/// The full names and types of the rules of a module.
pub open spec fn module_typings(prefix: Seq<char>, items: Seq<Item>) -> Seq<
    (Seq<char>, Result<Type, ErrorView>),
> {
    items_rules(items).map_values(|r: (String, AggregatorExpression)| rule_typing(prefix, r))
}

/// The full names and types of all rules, module after module.
pub open spec fn all_typings(mods: Seq<(String, LoadedModule)>) -> Seq<
    (Seq<char>, Result<Type, ErrorView>),
>
    decreases mods.len(),
{
    if mods.len() == 0 {
        Seq::empty()
    } else {
        all_typings(mods.drop_last()) + module_typings(mods.last().0@, mods.last().1.items@)
    }
}

pub open spec fn typings_view(ts: Seq<(String, Result<Type, Error>)>) -> Seq<
    (Seq<char>, Result<Type, ErrorView>),
> {
    ts.map_values(|t: (String, Result<Type, Error>)| (t.0@, typing_view(t.1)))
}

/// The variable settings of an item.
pub open spec fn item_settings(it: Item) -> Seq<(Seq<char>, LiteralV)> {
    match it {
        Item::SetVariable(v) => seq![(v.name@, literal_view(v.value))],
        _ => Seq::empty(),
    }
}

/// The variable settings of a list of items, in order.
pub open spec fn items_settings(items: Seq<Item>) -> Seq<(Seq<char>, LiteralV)>
    decreases items.len(),
{
    if items.len() == 0 {
        Seq::empty()
    } else {
        items_settings(items.drop_last()) + item_settings(items.last())
    }
}

/// The variable settings of all modules, module after module.
pub open spec fn all_settings(mods: Seq<(String, LoadedModule)>) -> Seq<(Seq<char>, LiteralV)>
    decreases mods.len(),
{
    if mods.len() == 0 {
        Seq::empty()
    } else {
        all_settings(mods.drop_last()) + items_settings(mods.last().1.items@)
    }
}

/// The module that an import of `path` in the module `module_name` names:
/// the two joined by the separator, with `super` and `root` worked out.
pub open spec fn imported_module(module_name: Seq<char>, path: Seq<char>) -> Result<Seq<char>, Seq<char>> {
    canonical_result(module_name + separator() + path)
}

/// The modules that the items of the module `module_name` import, in
/// order; the first import that climbs above the root is an error.
pub open spec fn module_imports(module_name: Seq<char>, items: Seq<Item>) -> Result<Seq<Seq<char>>, Seq<char>>
    decreases items.len(),
{
    if items.len() == 0 {
        Ok(Seq::empty())
    } else {
        match module_imports(module_name, items.drop_last()) {
            Err(e) => Err(e),
            Ok(rest) => match items.last() {
                Item::Module(m) => match imported_module(module_name, m.path@) {
                    Ok(t) => Ok(rest.push(t)),
                    Err(e) => Err(e),
                },
                _ => Ok(rest),
            },
        }
    }
}

/// The modules that the module `module_name`, made of `items`, imports, in
/// order: these are loaded before it.
pub fn imports_of(module_name: &str, items: &Vec<Item>) -> (r: Result<Vec<String>, String>)
    ensures
        (match r {
            Ok(v) => Ok::<Seq<Seq<char>>, Seq<char>>(texts_view(v@)),
            Err(e) => Err(e@),
        }) == module_imports(module_name@, items@),
{
    let mut r: Vec<String> = Vec::new();
    let mut k: usize = 0;
    assert(items@.take(0) =~= Seq::<Item>::empty());
    assert(texts_view(r@) =~= Seq::<Seq<char>>::empty());
    while k < items.len()
        invariant
            k <= items@.len(),
            module_imports(module_name@, items@.take(k as int)) == Ok::<Seq<Seq<char>>, Seq<char>>(texts_view(r@)),
        decreases items.len() - k,
    {
        assert(items@.take(k + 1).drop_last() =~= items@.take(k as int));
        assert(items@.take(k + 1).last() == items@[k as int]);
        match &items[k] {
            Item::Module(m) => {
                let mut joined = String::from_str(module_name);
                joined.append(".");
                joined.append(m.path.as_str());
                match canonical_path(joined.as_str()) {
                    Ok(name) => {
                        let ghost before = texts_view(r@);
                        r.push(name);
                        assert(texts_view(r@) =~= before.push(name@));
                    },
                    Err(e) => {
                        proof {
                            lemma_imports_stuck(module_name@, items@, k as int + 1);
                        }
                        return Err(e);
                    },
                }
            },
            _ => {},
        }
        k = k + 1;
    }
    assert(items@.take(k as int) =~= items@);
    Ok(r)
}

/// Once the imports fail, they fail for more items too.
proof fn lemma_imports_stuck(module_name: Seq<char>, items: Seq<Item>, n: int)
    requires
        0 <= n <= items.len(),
        module_imports(module_name, items.take(n)) is Err,
    ensures
        module_imports(module_name, items) == module_imports(module_name, items.take(n)),
    decreases items.len() - n,
{
    if n < items.len() {
        assert(items.take(n + 1).drop_last() =~= items.take(n));
        lemma_imports_stuck(module_name, items, n + 1);
    } else {
        assert(items.take(n) =~= items);
    }
}

/// The seeds of an item.
pub open spec fn item_seeds(it: Item) -> Seq<Seq<char>> {
    match it {
        Item::Seed(u) => seq![u@],
        _ => Seq::empty(),
    }
}

pub open spec fn items_seeds(items: Seq<Item>) -> Seq<Seq<char>>
    decreases items.len(),
{
    if items.len() == 0 {
        Seq::empty()
    } else {
        items_seeds(items.drop_last()) + item_seeds(items.last())
    }
}

/// The seeds of all modules, module after module.
pub open spec fn all_seeds(mods: Seq<(String, LoadedModule)>) -> Seq<Seq<char>>
    decreases mods.len(),
{
    if mods.len() == 0 {
        Seq::empty()
    } else {
        all_seeds(mods.drop_last()) + items_seeds(mods.last().1.items@)
    }
}

impl Directives {
    /// Module names are distinct.
    pub open spec fn wf(&self) -> bool {
        forall|a: int, b: int|
            0 <= a < b < self.modules@.len() ==> #[trigger] self.modules@[a].0@
                != #[trigger] self.modules@[b].0@
    }

    /// The full name and the type (or type error) of every rule, module after
    /// module, in the order of the rule sets.
    pub fn rule_typings(&self) -> (r: Vec<(String, Result<Type, Error>)>)
        ensures
            typings_view(r@) == all_typings(self.modules@),
    {
        let mut out: Vec<(String, Result<Type, Error>)> = Vec::new();
        let mut k: usize = 0;
        let ghost mods = self.modules@;
        assert(mods.take(0) =~= Seq::<(String, LoadedModule)>::empty());
        assert(typings_view(out@) =~= Seq::<(Seq<char>, Result<Type, ErrorView>)>::empty());
        while k < self.modules.len()
            invariant
                k <= mods.len(),
                mods == self.modules@,
                typings_view(out@) == all_typings(mods.take(k as int)),
            decreases self.modules.len() - k,
        {
            let name = &self.modules[k].0;
            let items = &self.modules[k].1.items;
            let ghost base = all_typings(mods.take(k as int));
            let mut j: usize = 0;
            assert(items@.take(0) =~= Seq::<Item>::empty());
            assert(base + module_typings(name@, items@.take(0)) =~= base);
            while j < items.len()
                invariant
                    j <= items@.len(),
                    typings_view(out@) == base + module_typings(name@, items@.take(j as int)),
                decreases items.len() - j,
            {
                let ghost before = typings_view(out@);
                assert(items@.take(j + 1).drop_last() =~= items@.take(j as int));
                let ghost rules_before = items_rules(items@.take(j as int));
                assert(items_rules(items@.take(j + 1)) == rules_before + item_rules(items@[j as int]));
                match &items[j] {
                    Item::RuleSet(rs) => {
                        let mut a: usize = 0;
                        let ghost aggs = rs.aggregators@;
                        assert(aggs.take(0) =~= Seq::<(String, AggregatorExpression)>::empty());
                        assert(rules_before + aggs.take(0) =~= rules_before);
                        while a < rs.aggregators.len()
                            invariant
                                a <= aggs.len(),
                                aggs == rs.aggregators@,
                                typings_view(out@) == base + (rules_before + aggs.take(a as int)).map_values(
                                    |r: (String, AggregatorExpression)| rule_typing(name@, r),
                                ),
                            decreases rs.aggregators.len() - a,
                        {
                            let entry = &rs.aggregators[a];
                            let full = full_rule_name(name.as_str(), entry.0.as_str());
                            let t = entry.1.type_of();
                            let ghost tv = (full@, typing_view(t));
                            let ghost prev = typings_view(out@);
                            out.push((full, t));
                            assert(typings_view(out@) =~= prev.push(tv));
                            assert((rules_before + aggs.take(a + 1)) =~= (rules_before + aggs.take(
                                a as int,
                            )).push(aggs[a as int]));
                            assert(base + (rules_before + aggs.take(a + 1)).map_values(
                                |r: (String, AggregatorExpression)| rule_typing(name@, r),
                            ) =~= prev.push(tv));
                            a = a + 1;
                        }
                        assert(aggs.take(a as int) =~= aggs);
                    },
                    _ => {
                        assert(item_rules(items@[j as int]) =~= Seq::<(String, AggregatorExpression)>::empty());
                        assert(rules_before + item_rules(items@[j as int]) =~= rules_before);
                    },
                }
                j = j + 1;
            }
            assert(items@.take(j as int) =~= items@);
            assert(mods.take(k + 1).drop_last() =~= mods.take(k as int));
            assert(all_typings(mods.take(k + 1)) == base + module_typings(name@, items@));
            k = k + 1;
        }
        assert(mods.take(k as int) =~= mods);
        out
    }
}

pub open spec fn texts_view(ts: Seq<String>) -> Seq<Seq<char>> {
    ts.map_values(|t: String| t@)
}

/// The texts that occur at least twice in a list.
pub open spec fn duplicated(names: Seq<Seq<char>>) -> Set<Seq<char>> {
    Set::new(
        |n: Seq<char>|
            exists|a: int, b: int| 0 <= a < b < names.len() && names[a] == n && names[b] == n,
    )
}

/// Whether the text is in the list.
fn contains_text(ts: &Vec<String>, t: &String) -> (r: bool)
    ensures
        r == texts_view(ts@).contains(t@),
{
    let mut k: usize = 0;
    while k < ts.len()
        invariant
            k <= ts@.len(),
            forall|j: int| 0 <= j < k ==> ts@[j]@ != t@,
        decreases ts.len() - k,
    {
        if ts[k] == *t {
            assert(texts_view(ts@)[k as int] == t@);
            return true;
        }
        k = k + 1;
    }
    assert forall|j: int| 0 <= j < texts_view(ts@).len() implies texts_view(ts@)[j] != t@ by {
        assert(ts@[j]@ != t@);
    }
    false
}

/// The texts that occur at least twice in `names`, each once.
pub fn duplicates_of(names: &Vec<String>) -> (r: Vec<String>)
    ensures
        texts_view(r@).to_set() == duplicated(texts_view(names@)),
        texts_view(r@).no_duplicates(),
{
    let ghost v = texts_view(names@);
    let mut out: Vec<String> = Vec::new();
    let mut i: usize = 0;
    while i < names.len()
        invariant
            i <= names@.len(),
            v == texts_view(names@),
            texts_view(out@).no_duplicates(),
            forall|n: Seq<char>| texts_view(out@).contains(n) <==> exists|a: int, b: int|
                0 <= a < b < i && v[a] == n && v[b] == n,
        decreases names.len() - i,
    {
        let mut seen_before = false;
        let mut j: usize = 0;
        while j < i
            invariant
                j <= i < names@.len(),
                v == texts_view(names@),
                seen_before <==> exists|a: int| 0 <= a < j && v[a] == v[i as int],
            decreases i - j,
        {
            if names[j] == names[i] {
                assert(v[j as int] == v[i as int]);
                seen_before = true;
            }
            j = j + 1;
        }
        let ghost n = v[i as int];
        let present = if seen_before {
            contains_text(&out, &names[i])
        } else {
            false
        };
        if seen_before && !present {
            let ghost before = texts_view(out@);
            out.push(names[i].clone());
            assert(texts_view(out@) =~= before.push(n));
            assert forall|m: Seq<char>| (exists|a: int, b: int|
                0 <= a < b < i + 1 && v[a] == m && v[b] == m) implies texts_view(out@).contains(m) by {
                let (a, b) = choose|a: int, b: int| 0 <= a < b < i + 1 && v[a] == m && v[b] == m;
                if b == i {
                    assert(m == n);
                    assert(texts_view(out@)[before.len() as int] == n);
                } else {
                    assert(0 <= a < b < i && v[a] == m && v[b] == m);
                    assert(before.contains(m));
                    let w = choose|w: int| 0 <= w < before.len() && before[w] == m;
                    assert(texts_view(out@)[w] == m);
                }
            }
            assert forall|m: Seq<char>| texts_view(out@).contains(m) implies (exists|a: int, b: int|
                0 <= a < b < i + 1 && v[a] == m && v[b] == m) by {
                let w = choose|w: int| 0 <= w < texts_view(out@).len() && texts_view(out@)[w] == m;
                if w == before.len() {
                    assert(m == n);
                    let a = choose|a: int| 0 <= a < i && v[a] == v[i as int];
                    assert(0 <= a < i + 1 && v[a] == m && v[i as int] == m);
                } else {
                    assert(before[w] == m);
                    assert(before.contains(m));
                    let (a, b) = choose|a: int, b: int| 0 <= a < b < i && v[a] == m && v[b] == m;
                    assert(0 <= a < b < i + 1 && v[a] == m && v[b] == m);
                }
            }
            assert(texts_view(out@).no_duplicates()) by {
                assert forall|x: int, y: int| 0 <= x < y < texts_view(out@).len() implies texts_view(out@)[x]
                    != texts_view(out@)[y] by {
                    if y == before.len() {
                        assert(!before.contains(n));
                        assert(before[x] != n);
                    }
                }
            }
        } else {
            assert(seen_before ==> texts_view(out@).contains(n));
            assert forall|m: Seq<char>| (exists|a: int, b: int|
                0 <= a < b < i + 1 && v[a] == m && v[b] == m) implies texts_view(out@).contains(m) by {
                let (a, b) = choose|a: int, b: int| 0 <= a < b < i + 1 && v[a] == m && v[b] == m;
                if b == i {
                    assert(v[a] == v[i as int]);
                    assert(seen_before);
                    assert(m == n);
                } else {
                    assert(0 <= a < b < i && v[a] == m && v[b] == m);
                }
            }
            assert forall|m: Seq<char>| texts_view(out@).contains(m) implies (exists|a: int, b: int|
                0 <= a < b < i + 1 && v[a] == m && v[b] == m) by {
                let (a, b) = choose|a: int, b: int| 0 <= a < b < i && v[a] == m && v[b] == m;
                assert(0 <= a < b < i + 1 && v[a] == m && v[b] == m);
            }
        }
        i = i + 1;
    }
    assert(texts_view(out@).to_set() =~= duplicated(v));
    out
}

pub open spec fn settings_list_view(ts: Seq<(String, Literal)>) -> Seq<(Seq<char>, LiteralV)> {
    ts.map_values(|t: (String, Literal)| (t.0@, literal_view(t.1)))
}

/// The names of a list of settings.
pub open spec fn setting_names(ts: Seq<(Seq<char>, LiteralV)>) -> Seq<Seq<char>> {
    ts.map_values(|t: (Seq<char>, LiteralV)| t.0)
}

/// The full names of a list of rules.
pub open spec fn typing_names(ts: Seq<(Seq<char>, Result<Type, ErrorView>)>) -> Seq<Seq<char>> {
    ts.map_values(|t: (Seq<char>, Result<Type, ErrorView>)| t.0)
}

/// The names of settings that name no variable.
pub open spec fn unknown_names(names: Seq<Seq<char>>) -> Set<Seq<char>> {
    Set::new(|n: Seq<char>| names.contains(n) && variable_named(n) is None)
}

/// What a list of settings sets: each known variable to the value it was
/// last set to.
pub open spec fn settings_map(ts: Seq<(Seq<char>, LiteralV)>) -> Map<Variable, LiteralV>
    decreases ts.len(),
{
    if ts.len() == 0 {
        Map::empty()
    } else {
        let m = settings_map(ts.drop_last());
        match variable_named(ts.last().0) {
            Some(v) => m.insert(v, ts.last().1),
            None => m,
        }
    }
}

/// The boundaries of the directives, gathered by kind.
#[derive(Debug)]
pub struct BoundaryLists {
    pub allowed: Vec<String>,
    pub disallowed: Vec<String>,
    pub frontier: Vec<String>,
    pub use_params: Vec<String>,
    pub ignore_params: Vec<String>,
    pub use_all_params: bool,
}

/// The boundaries of an item.
pub open spec fn item_boundaries(it: Item) -> Seq<crate::items::BoundaryV> {
    match it {
        Item::Boundary(b) => seq![crate::items::boundary_view(b)],
        _ => Seq::empty(),
    }
}

pub open spec fn items_boundaries(items: Seq<Item>) -> Seq<crate::items::BoundaryV>
    decreases items.len(),
{
    if items.len() == 0 {
        Seq::empty()
    } else {
        items_boundaries(items.drop_last()) + item_boundaries(items.last())
    }
}

/// The boundaries of all modules, module after module.
pub open spec fn all_boundaries(mods: Seq<(String, LoadedModule)>) -> Seq<crate::items::BoundaryV>
    decreases mods.len(),
{
    if mods.len() == 0 {
        Seq::empty()
    } else {
        all_boundaries(mods.drop_last()) + items_boundaries(mods.last().1.items@)
    }
}

/// The patterns or parameters of the boundaries of one kind, in order:
/// `kind` is 0 for allowed, 1 for disallowed, 2 for frontier, 3 for used
/// parameters and 4 for ignored ones.
pub open spec fn boundaries_of_kind(bs: Seq<crate::items::BoundaryV>, kind: int) -> Seq<Seq<char>>
    decreases bs.len(),
{
    if bs.len() == 0 {
        Seq::empty()
    } else {
        let rest = boundaries_of_kind(bs.drop_last(), kind);
        match bs.last() {
            crate::items::BoundaryV::Allowed(p) => if kind == 0 { rest.push(p) } else { rest },
            crate::items::BoundaryV::Disallowed(p) => if kind == 1 { rest.push(p) } else { rest },
            crate::items::BoundaryV::Frontier(p) => if kind == 2 { rest.push(p) } else { rest },
            crate::items::BoundaryV::UseParam(p) => if kind == 3 { rest.push(p) } else { rest },
            crate::items::BoundaryV::IgnoreParam(p) => if kind == 4 { rest.push(p) } else { rest },
            crate::items::BoundaryV::UseAllParams => rest,
        }
    }
}

/// Whether one of the boundaries is `use param *`.
pub open spec fn uses_all_params(bs: Seq<crate::items::BoundaryV>) -> bool {
    exists|k: int| 0 <= k < bs.len() && bs[k] == crate::items::BoundaryV::UseAllParams
}

impl Directives {
    /// Every variable setting, module after module, in order.
    pub fn settings(&self) -> (r: Vec<(String, Literal)>)
        ensures
            settings_list_view(r@) == all_settings(self.modules@),
    {
        let mut out: Vec<(String, Literal)> = Vec::new();
        let mut k: usize = 0;
        let ghost mods = self.modules@;
        assert(mods.take(0) =~= Seq::<(String, LoadedModule)>::empty());
        assert(settings_list_view(out@) =~= Seq::<(Seq<char>, LiteralV)>::empty());
        while k < self.modules.len()
            invariant
                k <= mods.len(),
                mods == self.modules@,
                settings_list_view(out@) == all_settings(mods.take(k as int)),
            decreases self.modules.len() - k,
        {
            let items = &self.modules[k].1.items;
            let ghost base = all_settings(mods.take(k as int));
            let mut j: usize = 0;
            assert(items@.take(0) =~= Seq::<Item>::empty());
            assert(base + items_settings(items@.take(0)) =~= base);
            while j < items.len()
                invariant
                    j <= items@.len(),
                    settings_list_view(out@) == base + items_settings(items@.take(j as int)),
                decreases items.len() - j,
            {
                assert(items@.take(j + 1).drop_last() =~= items@.take(j as int));
                let ghost prev = settings_list_view(out@);
                match &items[j] {
                    Item::SetVariable(v) => {
                        let entry = (v.name.clone(), v.value.clone_literal());
                        let ghost ev = (entry.0@, literal_view(entry.1));
                        out.push(entry);
                        assert(settings_list_view(out@) =~= prev.push(ev));
                        assert(base + items_settings(items@.take(j + 1)) =~= prev.push(ev));
                    },
                    _ => {
                        assert(base + items_settings(items@.take(j + 1)) =~= prev);
                    },
                }
                j = j + 1;
            }
            assert(items@.take(j as int) =~= items@);
            assert(mods.take(k + 1).drop_last() =~= mods.take(k as int));
            k = k + 1;
        }
        assert(mods.take(k as int) =~= mods);
        out
    }

    /// Every seed, module after module, in order.
    pub fn seeds(&self) -> (r: Vec<String>)
        ensures
            texts_view(r@) == all_seeds(self.modules@),
    {
        let mut out: Vec<String> = Vec::new();
        let mut k: usize = 0;
        let ghost mods = self.modules@;
        assert(mods.take(0) =~= Seq::<(String, LoadedModule)>::empty());
        assert(texts_view(out@) =~= Seq::<Seq<char>>::empty());
        while k < self.modules.len()
            invariant
                k <= mods.len(),
                mods == self.modules@,
                texts_view(out@) == all_seeds(mods.take(k as int)),
            decreases self.modules.len() - k,
        {
            let items = &self.modules[k].1.items;
            let ghost base = all_seeds(mods.take(k as int));
            let mut j: usize = 0;
            assert(items@.take(0) =~= Seq::<Item>::empty());
            assert(base + items_seeds(items@.take(0)) =~= base);
            while j < items.len()
                invariant
                    j <= items@.len(),
                    texts_view(out@) == base + items_seeds(items@.take(j as int)),
                decreases items.len() - j,
            {
                assert(items@.take(j + 1).drop_last() =~= items@.take(j as int));
                let ghost prev = texts_view(out@);
                match &items[j] {
                    Item::Seed(u) => {
                        let ghost uv = u@;
                        out.push(u.clone());
                        assert(texts_view(out@) =~= prev.push(uv));
                        assert(base + items_seeds(items@.take(j + 1)) =~= prev.push(uv));
                    },
                    _ => {
                        assert(base + items_seeds(items@.take(j + 1)) =~= prev);
                    },
                }
                j = j + 1;
            }
            assert(items@.take(j as int) =~= items@);
            assert(mods.take(k + 1).drop_last() =~= mods.take(k as int));
            k = k + 1;
        }
        assert(mods.take(k as int) =~= mods);
        out
    }

    /// The full names that more than one rule has.
    pub fn find_duplicate_rules(&self) -> (r: Vec<String>)
        ensures
            texts_view(r@).to_set() == duplicated(typing_names(all_typings(self.modules@))),
            texts_view(r@).no_duplicates(),
    {
        let typings = self.rule_typings();
        let mut names: Vec<String> = Vec::new();
        let mut k: usize = 0;
        while k < typings.len()
            invariant
                k <= typings@.len(),
                texts_view(names@) == typing_names(typings_view(typings@)).take(k as int),
            decreases typings.len() - k,
        {
            let ghost prev = texts_view(names@);
            names.push(typings[k].0.clone());
            assert(texts_view(names@) =~= prev.push(typings@[k as int].0@));
            assert(typing_names(typings_view(typings@))[k as int] == typings@[k as int].0@);
            assert(texts_view(names@) =~= typing_names(typings_view(typings@)).take(k + 1));
            k = k + 1;
        }
        assert(typing_names(typings_view(typings@)).take(k as int) =~= typing_names(
            typings_view(typings@),
        ));
        duplicates_of(&names)
    }

    /// The names that more than one variable setting has.
    pub fn find_duplicate_set_variables(&self) -> (r: Vec<String>)
        ensures
            texts_view(r@).to_set() == duplicated(setting_names(all_settings(self.modules@))),
            texts_view(r@).no_duplicates(),
    {
        let settings = self.settings();
        let mut names: Vec<String> = Vec::new();
        let mut k: usize = 0;
        while k < settings.len()
            invariant
                k <= settings@.len(),
                texts_view(names@) == setting_names(settings_list_view(settings@)).take(k as int),
            decreases settings.len() - k,
        {
            let ghost prev = texts_view(names@);
            names.push(settings[k].0.clone());
            assert(texts_view(names@) =~= prev.push(settings@[k as int].0@));
            assert(setting_names(settings_list_view(settings@))[k as int] == settings@[k as int].0@);
            assert(texts_view(names@) =~= setting_names(settings_list_view(settings@)).take(k + 1));
            k = k + 1;
        }
        assert(setting_names(settings_list_view(settings@)).take(k as int) =~= setting_names(
            settings_list_view(settings@),
        ));
        duplicates_of(&names)
    }

    /// The names of settings that name no variable, each once.
    pub fn find_invalid_set_variables(&self) -> (r: Vec<String>)
        ensures
            texts_view(r@).to_set() == unknown_names(setting_names(all_settings(self.modules@))),
            texts_view(r@).no_duplicates(),
    {
        let settings = self.settings();
        let ghost names = setting_names(settings_list_view(settings@));
        let mut out: Vec<String> = Vec::new();
        let mut k: usize = 0;
        while k < settings.len()
            invariant
                k <= settings@.len(),
                names == setting_names(settings_list_view(settings@)),
                texts_view(out@).no_duplicates(),
                forall|n: Seq<char>| texts_view(out@).contains(n) <==> (names.take(k as int).contains(n)
                    && variable_named(n) is None),
            decreases settings.len() - k,
        {
            let name = &settings[k].0;
            let ghost n = name@;
            assert(names[k as int] == n);
            assert forall|m: Seq<char>| names.take(k + 1).contains(m) <==> (names.take(k as int).contains(m)
                || m == n) by {
                if names.take(k + 1).contains(m) {
                    let w = choose|w: int| 0 <= w < k + 1 && #[trigger] names.take(k + 1)[w] == m;
                    if w < k {
                        assert(names.take(k as int)[w] == m);
                    }
                }
                if names.take(k as int).contains(m) {
                    let w = choose|w: int| 0 <= w < k && #[trigger] names.take(k as int)[w] == m;
                    assert(names.take(k + 1)[w] == m);
                }
                if m == n {
                    assert(names.take(k + 1)[k as int] == m);
                }
            }
            let ghost old_out = texts_view(out@);
            let unknown = Variable::try_parse(name.as_str()).is_none();
            let present = if unknown {
                contains_text(&out, name)
            } else {
                false
            };
            if unknown && !present {
                let ghost before = texts_view(out@);
                out.push(name.clone());
                assert(texts_view(out@) =~= before.push(n));
                assert forall|m: Seq<char>| texts_view(out@).contains(m) <==> (before.contains(m) || m == n) by {
                    if texts_view(out@).contains(m) {
                        let w = choose|w: int| 0 <= w < texts_view(out@).len() && texts_view(out@)[w] == m;
                        if w < before.len() {
                            assert(before[w] == m);
                        }
                    }
                    if before.contains(m) {
                        let w = choose|w: int| 0 <= w < before.len() && before[w] == m;
                        assert(texts_view(out@)[w] == m);
                    }
                    if m == n {
                        assert(texts_view(out@)[before.len() as int] == m);
                    }
                }
                assert(texts_view(out@).no_duplicates()) by {
                    assert forall|x: int, y: int| 0 <= x < y < texts_view(out@).len() implies texts_view(out@)[x]
                        != texts_view(out@)[y] by {
                        if y == before.len() {
                            assert(before[x] != n);
                        }
                    }
                }
            }
            assert forall|m: Seq<char>| texts_view(out@).contains(m) <==> (names.take(k + 1).contains(m)
                && variable_named(m) is None) by {
                assert(old_out.contains(m) <==> (names.take(k as int).contains(m) && variable_named(m) is None));
                if unknown && !present {
                    assert(texts_view(out@).contains(m) <==> (old_out.contains(m) || m == n));
                } else {
                    assert(texts_view(out@) == old_out);
                }
            }
            k = k + 1;
        }
        assert(names.take(k as int) =~= names);
        assert(texts_view(out@).to_set() =~= unknown_names(names));
        out
    }

    /// What the settings set: each known variable to the value it was last
    /// set to; settings that name no variable are left out.
    pub fn set_variables(&self) -> (r: SetVariables)
        ensures
            r.wf(),
            r.view() == settings_map(all_settings(self.modules@)),
    {
        let settings = self.settings();
        let ghost all = settings_list_view(settings@);
        let mut r = SetVariables::new();
        let mut k: usize = 0;
        assert(all.take(0) =~= Seq::<(Seq<char>, LiteralV)>::empty());
        while k < settings.len()
            invariant
                k <= settings@.len(),
                all == settings_list_view(settings@),
                r.wf(),
                r.view() == settings_map(all.take(k as int)),
            decreases settings.len() - k,
        {
            assert(all.take(k + 1).drop_last() =~= all.take(k as int));
            assert(all.take(k + 1).last() == all[k as int]);
            match Variable::try_parse(settings[k].0.as_str()) {
                Some(v) => {
                    r.set(v, settings[k].1.clone_literal());
                },
                None => {},
            }
            k = k + 1;
        }
        assert(all.take(k as int) =~= all);
        r
    }

    /// The full names and types of all rules, module after module.
    pub fn rules(&self) -> (r: Vec<(String, Type)>)
        requires
            forall|k: int| 0 <= k < all_typings(self.modules@).len() ==> (#[trigger] all_typings(
                self.modules@,
            )[k]).1 is Ok,
        ensures
            r@.len() == all_typings(self.modules@).len(),
            forall|k: int| 0 <= k < r@.len() ==> (#[trigger] r@[k]).0@ == all_typings(self.modules@)[k].0
                && all_typings(self.modules@)[k].1 == Ok::<Type, ErrorView>(r@[k].1),
    {
        let typings = self.rule_typings();
        let ghost tv = typings_view(typings@);
        let mut out: Vec<(String, Type)> = Vec::new();
        let mut k: usize = 0;
        let mut rest = typings;
        let ghost all = rest@;
        while k < rest.len()
            invariant
                k <= rest@.len(),
                rest@ == all,
                tv == typings_view(all),
                tv == all_typings(self.modules@),
                forall|j: int| 0 <= j < tv.len() ==> (#[trigger] tv[j]).1 is Ok,
                out@.len() == k,
                forall|j: int| 0 <= j < k ==> (#[trigger] out@[j]).0@ == tv[j].0
                    && tv[j].1 == Ok::<Type, ErrorView>(out@[j].1),
            decreases rest.len() - k,
        {
            assert(tv[k as int] == (rest@[k as int].0@, typing_view(rest@[k as int].1)));
            let name = rest[k].0.clone();
            let t = match &rest[k].1 {
                Ok(t) => t.clone(),
                Err(_) => {
                    assert(tv[k as int].1 is Ok);
                    k = k + 1;
                    continue;
                },
            };
            out.push((name, t));
            k = k + 1;
        }
        out
    }
}

/// The mathematical value of [`BoundaryLists`].
pub struct BoundaryListsV {
    pub allowed: Seq<Seq<char>>,
    pub disallowed: Seq<Seq<char>>,
    pub frontier: Seq<Seq<char>>,
    pub use_params: Seq<Seq<char>>,
    pub ignore_params: Seq<Seq<char>>,
    pub use_all_params: bool,
}

pub open spec fn lists_view(l: BoundaryLists) -> BoundaryListsV {
    BoundaryListsV {
        allowed: texts_view(l.allowed@),
        disallowed: texts_view(l.disallowed@),
        frontier: texts_view(l.frontier@),
        use_params: texts_view(l.use_params@),
        ignore_params: texts_view(l.ignore_params@),
        use_all_params: l.use_all_params,
    }
}

/// What a list of boundaries gives, gathered by kind.
pub open spec fn boundaries_of(bs: Seq<crate::items::BoundaryV>) -> BoundaryListsV {
    BoundaryListsV {
        allowed: boundaries_of_kind(bs, 0),
        disallowed: boundaries_of_kind(bs, 1),
        frontier: boundaries_of_kind(bs, 2),
        use_params: boundaries_of_kind(bs, 3),
        ignore_params: boundaries_of_kind(bs, 4),
        use_all_params: uses_all_params(bs),
    }
}

/// Whether the lists hold what a list of boundaries gives.
pub open spec fn lists_match(l: BoundaryLists, bs: Seq<crate::items::BoundaryV>) -> bool {
    lists_view(l) == boundaries_of(bs)
}

proof fn lemma_push_text(v: Vec<String>, t: String, w: Vec<String>)
    requires
        w@ == v@.push(t),
    ensures
        texts_view(w@) == texts_view(v@).push(t@),
{
    assert(texts_view(w@) =~= texts_view(v@).push(t@));
}

/// Adds one boundary to the lists.
fn add_boundary(lists: &mut BoundaryLists, b: &Boundary, Ghost(bs): Ghost<Seq<crate::items::BoundaryV>>)
    requires
        lists_match(*old(lists), bs),
    ensures
        lists_match(*final(lists), bs.push(crate::items::boundary_view(*b))),
{
    let ghost nb = bs.push(crate::items::boundary_view(*b));
    assert(nb.drop_last() =~= bs);
    match b {
        Boundary::Allowed(re) => {
            let ghost v = lists.allowed;
            lists.allowed.push(re.source.clone());
            proof {
                lemma_push_text(v, re.source, lists.allowed);
            }
        },
        Boundary::Disallowed(re) => {
            let ghost v = lists.disallowed;
            lists.disallowed.push(re.source.clone());
            proof {
                lemma_push_text(v, re.source, lists.disallowed);
            }
        },
        Boundary::Frontier(re) => {
            let ghost v = lists.frontier;
            lists.frontier.push(re.source.clone());
            proof {
                lemma_push_text(v, re.source, lists.frontier);
            }
        },
        Boundary::UseParam(p) => {
            let ghost v = lists.use_params;
            lists.use_params.push(p.clone());
            proof {
                lemma_push_text(v, *p, lists.use_params);
            }
        },
        Boundary::IgnoreParam(p) => {
            let ghost v = lists.ignore_params;
            lists.ignore_params.push(p.clone());
            proof {
                lemma_push_text(v, *p, lists.ignore_params);
            }
        },
        Boundary::UseAllParams => {
            lists.use_all_params = true;
            assert(nb[bs.len() as int] == crate::items::BoundaryV::UseAllParams);
        },
    }
    proof {
        if uses_all_params(bs) {
            let k = choose|k: int| 0 <= k < bs.len() && bs[k] == crate::items::BoundaryV::UseAllParams;
            assert(nb[k] == bs[k]);
        }
        if uses_all_params(nb) && crate::items::boundary_view(*b) != crate::items::BoundaryV::UseAllParams {
            let k = choose|k: int| 0 <= k < nb.len() && nb[k] == crate::items::BoundaryV::UseAllParams;
            assert(k < bs.len());
            assert(bs[k] == nb[k]);
        }
    }
}

/// The type errors of a list of rules: each failing rule's full name and
/// its error, in order.
pub open spec fn type_errors(ts: Seq<(Seq<char>, Result<Type, ErrorView>)>) -> Seq<(Seq<char>, ErrorView)>
    decreases ts.len(),
{
    if ts.len() == 0 {
        Seq::empty()
    } else {
        let rest = type_errors(ts.drop_last());
        match ts.last().1 {
            Err(e) => rest.push((ts.last().0, e)),
            Ok(_) => rest,
        }
    }
}

pub open spec fn errors_view(es: Seq<(String, Error)>) -> Seq<(Seq<char>, ErrorView)> {
    es.map_values(|e: (String, Error)| (e.0@, e.1@))
}

/// How the type errors are listed: `<name>: <error>`.
pub open spec fn type_error_lines(es: Seq<(Seq<char>, ErrorView)>) -> Seq<Seq<char>> {
    es.map_values(|e: (Seq<char>, ErrorView)| e.0 + ": "@ + error_text(e.1))
}

/// The issue that a non-empty list makes: a heading, then the items, each
/// on a line of its own after four spaces (`sep` separates them).
pub open spec fn issue(heading: Seq<char>, items: Seq<Seq<char>>, sep: Seq<char>) -> Seq<Seq<char>> {
    if items.len() == 0 {
        Seq::empty()
    } else {
        seq![heading + "\n    "@ + join_texts(items, sep)]
    }
}

pub open spec fn duplicate_rules_heading() -> Seq<char> {
    "There are duplicated rules in directives: "@
}

pub open spec fn invalid_seeds_heading() -> Seq<char> {
    "There are seeds on the frontier or outside your boundaries: "@
}

pub open spec fn invalid_variables_heading() -> Seq<char> {
    "There are invalid set-variable definitions (these name are not known): "@
}

pub open spec fn duplicate_variables_heading() -> Seq<char> {
    "There are duplicate set-variable definitions (these definitions are global): "@
}

pub open spec fn bad_values_heading() -> Seq<char> {
    "There are bad values for set-variables: "@
}

pub open spec fn type_errors_heading() -> Seq<char> {
    "There are type errors for these rules: "@
}

/// The report on a set of directives: nothing when there is no issue, or
/// all issues, in this order, under one heading.
pub open spec fn validation_report(
    duplicate_rules: Seq<Seq<char>>,
    invalid_seeds: Seq<Seq<char>>,
    invalid_variables: Seq<Seq<char>>,
    duplicate_variables: Seq<Seq<char>>,
    bad_values: Seq<Seq<char>>,
    type_error_texts: Seq<Seq<char>>,
) -> Option<Seq<char>> {
    let issues = issue(duplicate_rules_heading(), duplicate_rules, "\n    "@) + issue(
        invalid_seeds_heading(),
        invalid_seeds,
        "\n    "@,
    ) + issue(invalid_variables_heading(), invalid_variables, "\n    "@) + issue(
        duplicate_variables_heading(),
        duplicate_variables,
        "\n   "@,
    ) + issue(bad_values_heading(), bad_values, "\n    "@) + issue(
        type_errors_heading(),
        type_error_texts,
        "\n    "@,
    );
    if issues.len() == 0 {
        None
    } else {
        Some("There are issues with your configuration: \n"@ + join_texts(issues, "\n"@))
    }
}

/// Adds the issue that a list makes, if it is not empty.
fn push_issue(issues: &mut Vec<String>, heading: &str, items: &Vec<String>, sep: &str)
    ensures
        texts_view(final(issues)@) == texts_view(old(issues)@) + issue(heading@, texts_view(items@), sep@),
{
    if items.len() == 0 {
        assert(texts_view(old(issues)@) + issue(heading@, texts_view(items@), sep@) =~= texts_view(old(issues)@));
        return;
    }
    let mut text = String::from_str(heading);
    text.append("\n    ");
    let joined = join_strings(items, sep);
    text.append(joined.as_str());
    let ghost before = texts_view(issues@);
    let ghost tv = text@;
    issues.push(text);
    assert(texts_view(issues@) =~= before.push(tv));
    assert(texts_view(issues@) =~= before + issue(heading@, texts_view(items@), sep@));
}

impl Directives {
    /// The boundaries of all modules, gathered by kind.
    pub fn boundaries(&self) -> (r: BoundaryLists)
        ensures
            lists_match(r, all_boundaries(self.modules@)),
    {
        let mut lists = BoundaryLists {
            allowed: Vec::new(),
            disallowed: Vec::new(),
            frontier: Vec::new(),
            use_params: Vec::new(),
            ignore_params: Vec::new(),
            use_all_params: false,
        };
        let ghost mods = self.modules@;
        let mut k: usize = 0;
        assert(mods.take(0) =~= Seq::<(String, LoadedModule)>::empty());
        assert(lists_match(lists, Seq::empty())) by {
            assert(texts_view(lists.allowed@) =~= Seq::<Seq<char>>::empty());
            assert(texts_view(lists.disallowed@) =~= Seq::<Seq<char>>::empty());
            assert(texts_view(lists.frontier@) =~= Seq::<Seq<char>>::empty());
            assert(texts_view(lists.use_params@) =~= Seq::<Seq<char>>::empty());
            assert(texts_view(lists.ignore_params@) =~= Seq::<Seq<char>>::empty());
        }
        while k < self.modules.len()
            invariant
                k <= mods.len(),
                mods == self.modules@,
                lists_match(lists, all_boundaries(mods.take(k as int))),
            decreases self.modules.len() - k,
        {
            let items = &self.modules[k].1.items;
            let ghost base = all_boundaries(mods.take(k as int));
            let mut j: usize = 0;
            assert(items@.take(0) =~= Seq::<Item>::empty());
            assert(base + items_boundaries(items@.take(0)) =~= base);
            while j < items.len()
                invariant
                    j <= items@.len(),
                    lists_match(lists, base + items_boundaries(items@.take(j as int))),
                decreases items.len() - j,
            {
                assert(items@.take(j + 1).drop_last() =~= items@.take(j as int));
                let ghost prev = base + items_boundaries(items@.take(j as int));
                match &items[j] {
                    Item::Boundary(b) => {
                        add_boundary(&mut lists, b, Ghost(prev));
                        assert(base + items_boundaries(items@.take(j + 1)) =~= prev.push(
                            crate::items::boundary_view(*b),
                        ));
                    },
                    _ => {
                        assert(base + items_boundaries(items@.take(j + 1)) =~= prev);
                    },
                }
                j = j + 1;
            }
            assert(items@.take(j as int) =~= items@);
            assert(mods.take(k + 1).drop_last() =~= mods.take(k as int));
            k = k + 1;
        }
        assert(mods.take(k as int) =~= mods);
        lists
    }

    /// The type errors of all rules: each failing rule's full name and error.
    pub fn find_type_errors(&self) -> (r: Vec<(String, Error)>)
        ensures
            errors_view(r@) == type_errors(all_typings(self.modules@)),
    {
        let typings = self.rule_typings();
        let ghost tv = typings_view(typings@);
        let mut out: Vec<(String, Error)> = Vec::new();
        let mut rest = typings;
        let ghost all = rest@;
        let ghost mut k: int = 0;
        assert(tv.take(0) =~= Seq::<(Seq<char>, Result<Type, ErrorView>)>::empty());
        assert(errors_view(out@) =~= Seq::<(Seq<char>, ErrorView)>::empty());
        assert(rest@ =~= all.skip(0));
        while rest.len() > 0
            invariant
                0 <= k <= all.len(),
                rest@ == all.skip(k),
                tv == typings_view(all),
                errors_view(out@) == type_errors(tv.take(k)),
            decreases rest.len(),
        {
            assert(tv.take(k + 1).drop_last() =~= tv.take(k));
            assert(tv.take(k + 1).last() == tv[k]);
            assert(rest@[0] == all[k]);
            let (name, t) = rest.remove(0);
            assert(rest@ =~= all.skip(k + 1));
            match t {
                Err(e) => {
                    let ghost before = errors_view(out@);
                    let ghost ev = (name@, e@);
                    out.push((name, e));
                    assert(errors_view(out@) =~= before.push(ev));
                },
                Ok(_) => {},
            }
            proof {
                k = k + 1;
            }
        }
        assert(tv.take(k) =~= tv);
        proof {
            assert(tv == all_typings(self.modules@));
        }
        out
    }

    /// Checks that the directives are sound: nothing when all is well, or
    /// the report of every issue. The duplicated and unknown names are listed
    /// in some order, each once. When all is well, every variable's value
    /// fits it, so reading any of them succeeds.
    pub fn validate(&self) -> (r: Result<(), String>)
        ensures
            r is Ok ==> forall|v: Variable|
                value_fits(v, #[trigger] settings_map(all_settings(self.modules@)).get(v)),
            exists|dr: Seq<Seq<char>>, iv: Seq<Seq<char>>, dv: Seq<Seq<char>>|
                {
                    &&& dr.to_set() == duplicated(typing_names(all_typings(self.modules@)))
                    &&& dr.no_duplicates()
                    &&& iv.to_set() == unknown_names(setting_names(all_settings(self.modules@)))
                    &&& iv.no_duplicates()
                    &&& dv.to_set() == duplicated(setting_names(all_settings(self.modules@)))
                    &&& dv.no_duplicates()
                    &&& (match r {
                        Ok(()) => None,
                        Err(m) => Some(m@),
                    }) == validation_report(
                        dr,
                        invalid_seeds(boundaries_of(all_boundaries(self.modules@)), all_seeds(self.modules@)),
                        iv,
                        dv,
                        bad_values_of(settings_map(all_settings(self.modules@))),
                        type_error_lines(type_errors(all_typings(self.modules@))),
                    )
                },
    {
        let variables = self.set_variables();
        let bad_values = variables.bad_value_reports();
        let dr = self.find_duplicate_rules();
        let seeds = self.find_invalid_seeds();
        let iv = self.find_invalid_set_variables();
        let dv = self.find_duplicate_set_variables();
        let errors = self.find_type_errors();
        let mut lines: Vec<String> = Vec::new();
        let mut k: usize = 0;
        while k < errors.len()
            invariant
                k <= errors@.len(),
                texts_view(lines@) == type_error_lines(errors_view(errors@)).take(k as int),
            decreases errors.len() - k,
        {
            let mut line = errors[k].0.clone();
            line.append(": ");
            let et = errors[k].1.to_text();
            line.append(et.as_str());
            let ghost before = texts_view(lines@);
            let ghost lv = line@;
            lines.push(line);
            assert(texts_view(lines@) =~= before.push(lv));
            assert(type_error_lines(errors_view(errors@))[k as int] == lv);
            assert(texts_view(lines@) =~= type_error_lines(errors_view(errors@)).take(k + 1));
            k = k + 1;
        }
        assert(type_error_lines(errors_view(errors@)).take(k as int) =~= type_error_lines(
            errors_view(errors@),
        ));
        let mut issues: Vec<String> = Vec::new();
        assert(texts_view(issues@) =~= Seq::<Seq<char>>::empty());
        push_issue(&mut issues, "There are duplicated rules in directives: ", &dr, "\n    ");
        push_issue(
            &mut issues,
            "There are seeds on the frontier or outside your boundaries: ",
            &seeds,
            "\n    ",
        );
        push_issue(
            &mut issues,
            "There are invalid set-variable definitions (these name are not known): ",
            &iv,
            "\n    ",
        );
        push_issue(
            &mut issues,
            "There are duplicate set-variable definitions (these definitions are global): ",
            &dv,
            "\n   ",
        );
        push_issue(&mut issues, "There are bad values for set-variables: ", &bad_values, "\n    ");
        push_issue(&mut issues, "There are type errors for these rules: ", &lines, "\n    ");
        let ghost report = validation_report(
            texts_view(dr@),
            texts_view(seeds@),
            texts_view(iv@),
            texts_view(dv@),
            texts_view(bad_values@),
            type_error_lines(type_errors(all_typings(self.modules@))),
        );
        if issues.len() == 0 {
            assert(report is None);
            proof {
                let m = settings_map(all_settings(self.modules@));
                assert(bad_values_of(m).len() == 0);
                assert forall|v: Variable| value_fits(v, #[trigger] m.get(v)) by {
                    assert(bad_value_lines(m, v).len() == 0);
                }
            }
            Ok(())
        } else {
            let mut m = String::from_str("There are issues with your configuration: \n");
            let joined = join_strings(&issues, "\n");
            m.append(joined.as_str());
            assert(report == Some(m@));
            Err(m)
        }
    }
}

/// The seeds, with their query parameters filtered, that lie outside the
/// boundaries or on the frontier, in order.
pub open spec fn invalid_seeds(l: BoundaryListsV, seeds: Seq<Seq<char>>) -> Seq<Seq<char>>
    decreases seeds.len(),
{
    if seeds.len() == 0 {
        Seq::empty()
    } else {
        let rest = invalid_seeds(l, seeds.drop_last());
        let u = crate::boundaries::filtered_address(l, seeds.last());
        if !crate::boundaries::allowed(l, u) || crate::boundaries::on_frontier(l, u) {
            rest.push(u)
        } else {
            rest
        }
    }
}

/// The invalid seeds are exactly the seeds, with their query parameters
/// filtered, that the boundaries do not allow or that lie on the frontier,
/// in order: every seed on the frontier or outside the boundaries is
/// reported, and no other.
pub proof fn lemma_invalid_seeds_exact(l: BoundaryListsV, seeds: Seq<Seq<char>>)
    ensures
        invalid_seeds(l, seeds) == seeds.map_values(|s: Seq<char>| crate::boundaries::filtered_address(l, s)).filter(
            |u: Seq<char>| !crate::boundaries::allowed(l, u) || crate::boundaries::on_frontier(l, u),
        ),
        forall|k: int|
            0 <= k < seeds.len() ==> {
                let u = crate::boundaries::filtered_address(l, #[trigger] seeds[k]);
                (crate::boundaries::on_frontier(l, u) || !crate::boundaries::allowed(l, u)) ==> invalid_seeds(
                    l,
                    seeds,
                ).contains(u)
            },
        forall|k: int|
            0 <= k < invalid_seeds(l, seeds).len() ==> {
                let u = #[trigger] invalid_seeds(l, seeds)[k];
                &&& !crate::boundaries::allowed(l, u) || crate::boundaries::on_frontier(l, u)
                &&& exists|j: int| 0 <= j < seeds.len() && crate::boundaries::filtered_address(l, #[trigger] seeds[j]) == u
            },
    decreases seeds.len(),
{
    let g = |s: Seq<char>| crate::boundaries::filtered_address(l, s);
    let f = |u: Seq<char>| !crate::boundaries::allowed(l, u) || crate::boundaries::on_frontier(l, u);
    reveal_with_fuel(Seq::filter, 2);
    let ms = seeds.map_values(g);
    if seeds.len() > 0 {
        lemma_invalid_seeds_exact(l, seeds.drop_last());
        assert(seeds.drop_last().map_values(g) =~= ms.drop_last());
        assert(ms.last() == g(seeds.last()));
    } else {
        assert(ms =~= Seq::<Seq<char>>::empty());
    }
    assert forall|k: int| 0 <= k < seeds.len() implies {
        let u = crate::boundaries::filtered_address(l, #[trigger] seeds[k]);
        (crate::boundaries::on_frontier(l, u) || !crate::boundaries::allowed(l, u)) ==> invalid_seeds(l, seeds).contains(u)
    } by {
        assert(ms[k] == g(seeds[k]));
        if f(ms[k]) {
            ms.lemma_filter_contains(f, k);
        }
    }
    assert forall|k: int| 0 <= k < invalid_seeds(l, seeds).len() implies {
        let u = #[trigger] invalid_seeds(l, seeds)[k];
        &&& !crate::boundaries::allowed(l, u) || crate::boundaries::on_frontier(l, u)
        &&& exists|j: int| 0 <= j < seeds.len() && crate::boundaries::filtered_address(l, #[trigger] seeds[j]) == u
    } by {
        let u = invalid_seeds(l, seeds)[k];
        ms.lemma_filter_pred(f, k);
        assert(ms.filter(f).contains(u));
        ms.lemma_filter_contains_rev(f, u);
        let j = choose|j: int| 0 <= j < ms.len() && ms[j] == u;
        assert(g(seeds[j]) == u);
    }
}

impl Directives {
    /// The seeds, with their query parameters filtered, that the boundaries
    /// do not allow or that are on the frontier.
    pub fn find_invalid_seeds(&self) -> (r: Vec<String>)
        ensures
            texts_view(r@) == invalid_seeds(boundaries_of(all_boundaries(self.modules@)), all_seeds(self.modules@)),
    {
        let seeds = self.seeds();
        let boundaries = self.boundaries();
        let ghost sv = texts_view(seeds@);
        let mut out: Vec<String> = Vec::new();
        let mut k: usize = 0;
        assert(sv.take(0) =~= Seq::<Seq<char>>::empty());
        assert(texts_view(out@) =~= Seq::<Seq<char>>::empty());
        while k < seeds.len()
            invariant
                k <= seeds@.len(),
                sv == texts_view(seeds@),
                lists_match(boundaries, all_boundaries(self.modules@)),
                texts_view(out@) == invalid_seeds(lists_view(boundaries), sv.take(k as int)),
            decreases seeds.len() - k,
        {
            assert(sv.take(k + 1).drop_last() =~= sv.take(k as int));
            assert(sv.take(k + 1).last() == seeds@[k as int]@);
            let u = boundaries.filter_query_params(seeds[k].as_str());
            if !boundaries.is_allowed(u.as_str()) || boundaries.is_frontier(u.as_str()) {
                let ghost before = texts_view(out@);
                let ghost uv = u@;
                out.push(u);
                assert(texts_view(out@) =~= before.push(uv));
            }
            k = k + 1;
        }
        assert(sv.take(k as int) =~= sv);
        out
    }
}
/// Whether a rule set runs on the page at `url`: it has no page pattern, or
/// its pattern matches the address.
pub open spec fn runs_on(rs: RuleSet, url: Seq<char>) -> bool {
    match rs.in_page {
        None => true,
        Some(re) => regex_set_match(seq![re.source@], url) == Some(true),
    }
}

/// The positions (module, item) of the rule sets among the first `n` items
/// of module `m` that run on `url`.
pub open spec fn module_rule_sets(items: Seq<Item>, m: int, url: Seq<char>, n: int) -> Seq<(int, int)>
    decreases n,
{
    if n <= 0 || n > items.len() {
        Seq::empty()
    } else {
        let rest = module_rule_sets(items, m, url, n - 1);
        match items[n - 1] {
            Item::RuleSet(rs) => if runs_on(rs, url) {
                rest.push((m, n - 1))
            } else {
                rest
            },
            _ => rest,
        }
    }
}

/// The positions of the rule sets of the first `m` modules that run on
/// `url`, module after module.
pub open spec fn rule_sets_on(mods: Seq<(String, LoadedModule)>, url: Seq<char>, m: int) -> Seq<(int, int)>
    decreases m,
{
    if m <= 0 || m > mods.len() {
        Seq::empty()
    } else {
        rule_sets_on(mods, url, m - 1) + module_rule_sets(
            mods[m - 1].1.items@,
            m - 1,
            url,
            mods[m - 1].1.items@.len() as int,
        )
    }
}

pub open spec fn positions_view(ps: Seq<(usize, usize)>) -> Seq<(int, int)> {
    ps.map_values(|p: (usize, usize)| (p.0 as int, p.1 as int))
}

impl Directives {
    /// The rule sets that run on the page at `url`, as (module, item)
    /// positions, module after module and in the order of the items.
    pub fn rule_sets_for(&self, url: &str) -> (r: Vec<(usize, usize)>)
        ensures
            positions_view(r@) == rule_sets_on(self.modules@, url@, self.modules@.len() as int),
    {
        let mut r: Vec<(usize, usize)> = Vec::new();
        let mut m: usize = 0;
        assert(positions_view(r@) =~= Seq::<(int, int)>::empty());
        while m < self.modules.len()
            invariant
                m <= self.modules@.len(),
                positions_view(r@) == rule_sets_on(self.modules@, url@, m as int),
            decreases self.modules.len() - m,
        {
            let items = &self.modules[m].1.items;
            let ghost start = positions_view(r@);
            let mut k: usize = 0;
            assert(start + module_rule_sets(items@, m as int, url@, 0) =~= start);
            while k < items.len()
                invariant
                    k <= items@.len(),
                    m < self.modules@.len(),
                    items@ == self.modules@[m as int].1.items@,
                    positions_view(r@) == start + module_rule_sets(items@, m as int, url@, k as int),
                decreases items.len() - k,
            {
                if let Item::RuleSet(rs) = &items[k] {
                    let runs = match &rs.in_page {
                        None => true,
                        Some(re) => {
                            let mut patterns: Vec<String> = Vec::new();
                            patterns.push(re.source.clone());
                            assert(patterns@.map_values(|p: String| p@) =~= seq![re.source@]);
                            set_matches(&patterns, url) == Some(true)
                        },
                    };
                    if runs {
                        let ghost before = positions_view(r@);
                        r.push((m, k));
                        assert(positions_view(r@) =~= before.push((m as int, k as int)));
                    }
                }
                assert(start + module_rule_sets(items@, m as int, url@, k + 1) =~= positions_view(r@));
                k = k + 1;
            }
            m = m + 1;
        }
        r
    }
}

} // verus!
