use lopez::expressions::ComparableRegex;
use lopez::aggregate::Tally;
use lopez::expressions::{Transformer, TransformerExpression};
use lopez::json::{eval, eval_expression, Json};
use lopez::parsers::transformer;

fn t(text: &str) -> Transformer {
    transformer(text.as_bytes()).unwrap().1.unwrap()
}

fn strs(xs: &[&str]) -> Json {
    Json::Array(xs.iter().map(|x| Json::Str(x.to_string())).collect())
}

fn show(j: Option<Json>) -> String {
    format!("{:?}", j)
}

#[test]
fn null_goes_through() {
    assert_eq!(show(eval(&Transformer::Length, &Json::Null)), "Some(Null)");
    assert_eq!(show(eval(&Transformer::IsNull, &Json::Null)), "Some(Bool(true))");
    assert_eq!(show(eval(&Transformer::IsNotNull, &Json::Bool(false))), "Some(Bool(true))");
}

#[test]
fn lengths_and_emptiness() {
    assert_eq!(show(eval(&Transformer::Length, &Json::Str("héllo".to_owned()))), "Some(PosInt(6))");
    assert_eq!(show(eval(&Transformer::Length, &strs(&["a", "b"]))), "Some(PosInt(2))");
    assert_eq!(show(eval(&Transformer::IsEmpty, &Json::Object(vec![]))), "Some(Bool(true))");
    assert_eq!(show(eval(&Transformer::Length, &Json::Bool(true))), "None");
}

#[test]
fn each_filter_any_all() {
    let lengths = Transformer::Each(TransformerExpression { transformers: vec![Transformer::Length] });
    let xs = Json::Array(vec![Json::Str("ab".to_owned()), Json::Null]);
    assert_eq!(show(eval(&lengths, &xs)), "Some(Array([PosInt(2), Null]))");
    let present = Transformer::Filter(TransformerExpression { transformers: vec![Transformer::IsNotNull] });
    assert_eq!(show(eval(&present, &xs)), "Some(Array([Str(\"ab\")]))");
    let any_null = Transformer::Any(TransformerExpression { transformers: vec![Transformer::IsNull] });
    assert_eq!(show(eval(&any_null, &xs)), "Some(Bool(true))");
    let all_null = Transformer::All(TransformerExpression { transformers: vec![Transformer::IsNull] });
    assert_eq!(show(eval(&all_null, &xs)), "Some(Bool(false))");
    let object = Json::Object(vec![("k".to_owned(), Json::Str("abc".to_owned()))]);
    assert_eq!(show(eval(&lengths, &object)), "Some(Object([(\"k\", PosInt(3))]))");
}

#[test]
fn get_flatten_and_strings() {
    let object = Json::Object(vec![("k".to_owned(), Json::PosInt(1))]);
    assert_eq!(show(eval(&t("get \"k\""), &object)), "Some(PosInt(1))");
    assert_eq!(show(eval(&t("get \"z\""), &object)), "Some(Null)");
    assert_eq!(show(eval(&t("get 1"), &strs(&["a", "b"]))), "Some(Str(\"b\"))");
    assert_eq!(show(eval(&t("get 5"), &strs(&["a", "b"]))), "Some(Null)");
    let nested = Json::Array(vec![strs(&["a"]), Json::Null, strs(&["b", "c"])]);
    assert_eq!(
        show(eval(&Transformer::Flatten, &nested)),
        "Some(Array([Str(\"a\"), Str(\"b\"), Str(\"c\")]))"
    );
    assert_eq!(show(eval(&Transformer::AsString, &Json::NegInt(-12))), "Some(Str(\"-12\"))");
    assert_eq!(show(eval(&Transformer::AsString, &Json::Bool(true))), "Some(Str(\"true\"))");
    assert_eq!(show(eval(&t("in [\"x\", \"y\"]"), &Json::Str("y".to_owned()))), "Some(Bool(true))");
    assert_eq!(show(eval(&t("matches \"^a+$\""), &Json::Str("aaa".to_owned()))), "Some(Bool(true))");
    assert_eq!(
        show(eval(&t("replace \"a+\" with \"b\""), &Json::Str("xaay".to_owned()))),
        "Some(Str(\"xby\"))"
    );
    assert_eq!(show(eval(&Transformer::Pretty, &Json::Str("\n a \n".to_owned()))), "Some(Str(\"a\\n\"))");
}

#[test]
fn numbers_and_sorting_are_left_to_the_caller() {
    assert_eq!(show(eval(&Transformer::Sort, &Json::Array(vec![Json::Float(1.5f64.to_bits())]))), "None");
    assert_eq!(show(eval(&Transformer::AsNumber, &Json::Str("1".to_owned()))), "None");
    assert_eq!(show(eval(&t("greater-than 1"), &Json::PosInt(2))), "None");
    assert_eq!(show(eval(&t("greater-than 1"), &Json::Null)), "Some(Null)");
    let expr = TransformerExpression { transformers: vec![Transformer::Length, Transformer::IsNull] };
    assert_eq!(show(eval_expression(&expr, &strs(&["a"]))), "Some(Bool(false))");
}

#[test]
fn captures_become_objects() {
    assert_eq!(
        show(eval(&t("capture \"(?P<word>[a-z]+)-([0-9]+)\""), &Json::Str("ab-12".to_owned()))),
        "Some(Object([(\"0\", Str(\"ab-12\")), (\"word\", Str(\"ab\")), (\"2\", Str(\"12\"))]))"
    );
    assert_eq!(show(eval(&t("capture \"x\""), &Json::Str("ab".to_owned()))), "Some(Null)");
    assert_eq!(
        show(eval(&t("all-captures \"[0-9]\""), &Json::Str("a1b2".to_owned()))),
        "Some(Array([Object([(\"0\", Str(\"1\"))]), Object([(\"0\", Str(\"2\"))])]))"
    );
}

#[test]
fn arrays_of_one_kind_are_sorted() {
    assert_eq!(show(eval(&Transformer::Sort, &strs(&["b", "a", "ab"]))), "Some(Array([Str(\"a\"), Str(\"ab\"), Str(\"b\")]))");
    let ints = Json::Array(vec![Json::PosInt(3), Json::NegInt(-2), Json::Null, Json::PosInt(0)]);
    assert_eq!(show(eval(&Transformer::Sort, &ints)), "Some(Array([Null, NegInt(-2), PosInt(0), PosInt(3)]))");
    let bools = Json::Array(vec![Json::Bool(true), Json::Bool(false)]);
    assert_eq!(show(eval(&Transformer::Sort, &bools)), "Some(Array([Bool(false), Bool(true)]))");
    let mixed = Json::Array(vec![Json::Str("a".to_owned()), Json::PosInt(1)]);
    assert_eq!(show(eval(&Transformer::Sort, &mixed)), "None");
    assert_eq!(show(eval(&Transformer::Sort, &Json::Array(vec![]))), "Some(Array([]))");
}

#[test]
fn filter_keeps_passing_items_in_order() {
    let present = Transformer::Filter(TransformerExpression { transformers: vec![Transformer::IsNotNull] });
    let xs = Json::Array(vec![Json::PosInt(1), Json::Null, Json::PosInt(3), Json::Null, Json::PosInt(2)]);
    assert_eq!(show(eval(&present, &xs)), "Some(Array([PosInt(1), PosInt(3), PosInt(2)]))");
    let object = Json::Object(vec![("a".to_owned(), Json::Null), ("b".to_owned(), Json::Bool(false))]);
    assert_eq!(show(eval(&present, &object)), "Some(Object([(\"b\", Bool(false))]))");
}

#[test]
fn a_pattern_that_does_not_compile_gives_nothing() {
    let broken = ComparableRegex { regex: regex::Regex::new("a").unwrap(), source: "(".to_owned() };
    let text = Json::Str("a".to_owned());
    assert_eq!(show(eval(&Transformer::Matches(broken), &text)), "None");
}

#[test]
fn tallies_count_pick_and_collect() {
    let mut count = Tally::Count(0);
    assert!(count.add(vec![]));
    assert!(count.add(vec![Json::Null]));
    assert_eq!(show(Some(count.finish())), "Some(PosInt(2))");

    let mut trues = Tally::CountNotNull(0);
    assert!(trues.add(vec![Json::Bool(true), Json::Null, Json::Bool(false), Json::Bool(true)]));
    assert!(!trues.add(vec![Json::Bool(true), Json::Str("x".to_owned())]));
    assert_eq!(show(Some(trues.finish())), "Some(PosInt(2))");

    let mut first = Tally::First(None);
    assert!(first.add(vec![Json::Null]));
    assert!(first.add(vec![Json::Null, Json::PosInt(7), Json::PosInt(8)]));
    assert!(first.add(vec![Json::PosInt(9)]));
    assert_eq!(show(Some(first.finish())), "Some(PosInt(7))");
    assert_eq!(show(Some(Tally::First(None).finish())), "Some(Null)");

    let mut all = Tally::Collect(vec![]);
    assert!(all.add(vec![Json::PosInt(1)]));
    assert!(all.add(vec![Json::Null, Json::PosInt(2)]));
    assert_eq!(show(Some(all.finish())), "Some(Array([PosInt(1), Null, PosInt(2)]))");
}

#[test]
fn arrays_are_sorted_by_keys() {
    let by_length = Transformer::SortBy(TransformerExpression { transformers: vec![Transformer::Length] });
    let words = strs(&["ccc", "a", "bb", "d"]);
    assert_eq!(
        show(eval(&by_length, &words)),
        "Some(Array([Str(\"a\"), Str(\"d\"), Str(\"bb\"), Str(\"ccc\")]))"
    );
    let by_itself = Transformer::SortBy(TransformerExpression { transformers: vec![] });
    assert_eq!(show(eval(&by_itself, &strs(&["b", "a"]))), "Some(Array([Str(\"a\"), Str(\"b\")]))");
    let nested = Json::Array(vec![strs(&["x"]), strs(&["y"])]);
    assert_eq!(show(eval(&by_itself, &nested)), "None");
}
