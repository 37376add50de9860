use lopez::expressions::{
    Aggregator, AggregatorExpression, ComparableRegex, ExplodingExtractorExpression, Extractor,
    ExtractorExpression, Float, Transformer, TransformerExpression,
};
use lopez::items::{Boundary, Item, Literal, Module, SetVariable};
use lopez::lexical::{comment, escaped_string, identifier, tag_whitespace, whitespace};
use lopez::parsers::{
    aggregator, aggregator_expression, boundary, css_selector, exploding_extractor_expression,
    extractor, extractor_expression, flag_directive, in_directive, item, literal, module,
    rule_set, seed, set_variable, string_directive, transformer,
};
use lopez::directive_parse::entrypoint;
use lopez::text::pretty;
use lopez::types::{parse_type, Type};

fn regex_of(pattern: &str) -> ComparableRegex {
    ComparableRegex {
        regex: regex::Regex::new(pattern).unwrap(),
        source: pattern.to_owned(),
    }
}

fn float_of(x: f64) -> Float {
    Float {
        bits: x.to_bits(),
        text: format!("{}", x),
    }
}

#[test]
fn type_test() {
    let (rest, t) = parse_type("map[string,array[   bool ]]".as_bytes()).unwrap();
    assert_eq!(rest, "".as_bytes());
    assert_eq!(t, Type::Mapping(Box::new(Type::Array(Box::new(Type::Bool)))));
}

#[test]
fn transformer_test() {
    match transformer("capture \n\t \"$(:!?foo)*\"".as_bytes())
        .unwrap()
        .1
        .unwrap()
    {
        Transformer::Capture(regex) => assert_eq!(
            regex::Regex::new("$(:!?foo)*").unwrap().as_str(),
            regex.regex.as_str()
        ),
        e => panic!("got {:?}", e),
    }
}

#[test]
fn parse_transformer_test() {
    match transformer("capture \n\t \"$(:!?foo)*\"".as_bytes())
        .unwrap()
        .1
        .unwrap()
    {
        Transformer::Capture(regex) => assert_eq!(
            regex::Regex::new("$(:!?foo)*").unwrap().as_str(),
            regex.source.as_str()
        ),
        e => panic!("got {:?}", e),
    }
}

#[test]
fn pretty_test() {
    let ugly = "\n\n\n\n\t    \r\r\n\n ";
    assert_eq!("", pretty(ugly));

    let ugly = "\n\na\n\n\t    \r\rb\n\n ";
    assert_eq!("a\nb\n", pretty(ugly));

    let ugly = "\n\n\na\n\t    \r\r\n\n ";
    assert_eq!("a\n", pretty(ugly));

    let ugly = "\n\n\na\n\t    \r\r\n\n c";
    assert_eq!("a\nc\n", pretty(ugly));
}

#[test]
fn parse_comment_test() {
    assert_eq!(comment("// foo!\n".as_bytes()).unwrap(), ("".as_bytes(), ()));
}

#[test]
fn parse_common_comment_test() {
    assert_eq!(comment("// foo!\n".as_bytes()).unwrap(), ("".as_bytes(), ()));
}

#[test]
fn parse_whitespace_test() {
    assert_eq!(
        whitespace("//foo! \n\n\t  // bar! \n  \n\rnhé!".as_bytes()).unwrap(),
        ("nhé!".as_bytes(), ())
    );
    assert_eq!(whitespace("".as_bytes()).unwrap(), ("".as_bytes(), ()));
}

#[test]
fn parse_common_whitespace_test() {
    assert_eq!(
        whitespace("//foo! \n\n\t  // bar! \n  \n\rnhé!".as_bytes()).unwrap(),
        ("nhé!".as_bytes(), ())
    );
    assert_eq!(whitespace("".as_bytes()).unwrap(), ("".as_bytes(), ()));
}

#[test]
fn parse_tag_whitespace_test() {
    assert_eq!(
        tag_whitespace("foo".as_bytes(), "foo  // bar\n".as_bytes()),
        Some(("".as_bytes(), "foo".as_bytes()))
    );
    assert_eq!(
        tag_whitespace("foo".as_bytes(), "foo".as_bytes()),
        Some(("".as_bytes(), "foo".as_bytes()))
    );
}

#[test]
fn parse_common_tag_whitespace_test() {
    assert_eq!(
        tag_whitespace("foo".as_bytes(), "foo  // bar\n".as_bytes()),
        Some(("".as_bytes(), "foo".as_bytes()))
    );
    assert_eq!(
        tag_whitespace("foo".as_bytes(), "foo".as_bytes()),
        Some(("".as_bytes(), "foo".as_bytes()))
    );
}

fn check_escaped_strings() {
    assert_eq!(
        escaped_string(
            r#""foo\"
bar"ho-ho"#
                .as_bytes()
        ),
        Some((
            "ho-ho".as_bytes(),
            r#"foo"
bar"#
                .as_bytes()
                .to_vec()
        ))
    );
    assert_eq!(
        escaped_string("\"foo\"".as_bytes()),
        Some(("".as_bytes(), "foo".as_bytes().to_vec()))
    );
    assert_eq!(
        escaped_string("\"foo\\.bar\"".as_bytes()),
        Some(("".as_bytes(), "foo\\.bar".as_bytes().to_vec()))
    );
}

#[test]
fn parse_escaped_string_test() {
    check_escaped_strings();
}

#[test]
fn parse_common_escaped_string_test() {
    check_escaped_strings();
}

#[test]
fn identifier_test() {
    assert_eq!(
        identifier("a-very_funnyIdentifier_SCREAMING_$123".as_bytes()),
        Some((
            "".as_bytes(),
            "a-very_funnyIdentifier_SCREAMING_$123".as_bytes()
        ))
    );
}

#[test]
fn css_selector_test() {
    let selector = scraper::Selector::parse("div > a + button[foo$=\"bar{\" i]").unwrap();
    let (rest, parsed) =
        css_selector(b'{', "div > a + button[foo$=\"bar{\" i]{ haha-hoho!".as_bytes()).unwrap();
    assert_eq!(rest, "{ haha-hoho!".as_bytes());
    let parsed = parsed.unwrap();
    assert_eq!(parsed.selector, selector);
    assert_eq!(parsed.original, "div > a + button[foo$=\"bar{\" i]");
}

#[test]
fn extractor_test() {
    assert_eq!(extractor("name".as_bytes()), Some(("".as_bytes(), Ok(Extractor::Name))));
    assert_eq!(
        extractor("attr \"foo\"".as_bytes()),
        Some(("".as_bytes(), Ok(Extractor::Attr("foo".to_owned()))))
    );
    assert_eq!(extractor("inner-html".as_bytes()), Some(("".as_bytes(), Ok(Extractor::InnerHtml))));
    let (rest, parsed) = extractor("select-all(text pretty, li)".as_bytes()).unwrap();
    assert_eq!(rest, "".as_bytes());
    match parsed.unwrap() {
        Extractor::SelectAll(inner, selector) => {
            assert_eq!(
                *inner,
                ExtractorExpression {
                    extractor: Extractor::Text,
                    transformer_expression: TransformerExpression {
                        transformers: vec![Transformer::Pretty],
                    },
                }
            );
            assert_eq!(selector.selector, scraper::Selector::parse("li").unwrap());
        }
        e => panic!("got {:?}", e),
    }
}

#[test]
fn extractor_expression_test() {
    assert_eq!(
        extractor_expression("attr \"src\" capture \"[0-9]+\"".as_bytes()),
        Some((
            "".as_bytes(),
            Ok(ExtractorExpression {
                extractor: Extractor::Attr("src".to_owned()),
                transformer_expression: TransformerExpression {
                    transformers: vec![Transformer::Capture(regex_of("[0-9]+"))]
                },
            })
        ))
    );
}

#[test]
fn exploding_extractor_expression_test() {
    assert_eq!(
        exploding_extractor_expression(
            "attr \"src\" all-captures \"[0-9]+\" !explode".as_bytes()
        ),
        Some((
            "".as_bytes(),
            Ok(ExplodingExtractorExpression {
                explodes: true,
                extractor_expression: ExtractorExpression {
                    extractor: Extractor::Attr("src".to_owned()),
                    transformer_expression: TransformerExpression {
                        transformers: vec![Transformer::AllCaptures(regex_of("[0-9]+"))]
                    },
                }
            })
        ))
    );
}

#[test]
fn aggregator_test() {
    assert_eq!(
        aggregator("first(text capture \n\t \"$(:!?foo)*\")".as_bytes()),
        Some((
            "".as_bytes(),
            Ok(Aggregator::First(ExplodingExtractorExpression {
                explodes: false,
                extractor_expression: ExtractorExpression {
                    extractor: Extractor::Text,
                    transformer_expression: TransformerExpression {
                        transformers: vec![Transformer::Capture(regex_of("$(:!?foo)*"))],
                    },
                },
            }))
        ))
    )
}

#[test]
fn aggregator_expression_test() {
    assert_eq!(
        aggregator_expression("first(text capture \n\t \"$(:!?foo)*\") length ".as_bytes()),
        Some((
            "".as_bytes(),
            Ok(AggregatorExpression {
                aggregator: Aggregator::First(ExplodingExtractorExpression {
                    explodes: false,
                    extractor_expression: ExtractorExpression {
                        extractor: Extractor::Text,
                        transformer_expression: TransformerExpression {
                            transformers: vec![Transformer::Capture(regex_of("$(:!?foo)*")),],
                        },
                    },
                }),
                transformer_expression: TransformerExpression {
                    transformers: vec![Transformer::Length,],
                },
            })
        ))
    )
}

#[test]
fn in_directive_test() {
    assert_eq!(
        in_directive("in \"$(:?!foo)*\"".as_bytes())
            .unwrap()
            .1
            .unwrap()
            .regex
            .as_str(),
        regex::Regex::new("$(:?!foo)*").unwrap().as_str()
    );
}

#[test]
fn string_directive_test() {
    let tags: [&[u8]; 1] = ["foo".as_bytes()];
    assert_eq!(
        string_directive(&tags, "foo \"bar\"  ;".as_bytes()),
        Some(("".as_bytes(), "bar".as_bytes().to_vec()))
    );
}

#[test]
fn flag_directive_test() {
    let tags: [&[u8]; 1] = ["foo".as_bytes()];
    assert_eq!(flag_directive(&tags, "foo;".as_bytes()), Some(("".as_bytes(), ())));
}

#[test]
fn rule_set_test() {
    rule_set("select td > a[href^=\"https\"] { foo: first ( text ) ; }".as_bytes())
        .unwrap()
        .1
        .unwrap();
    rule_set("select ul { list: group(text, first(text pretty)); }".as_bytes())
        .unwrap()
        .1
        .unwrap();
    rule_set("select ul { list: collect(select-all(text, li) pretty); }".as_bytes())
        .unwrap()
        .1
        .unwrap();
}

#[test]
fn module_test() {
    assert_eq!(
        module("import \"foo.bar\";".as_bytes()),
        Some((
            "".as_bytes(),
            Ok(Module {
                path: "foo.bar".to_owned()
            })
        ))
    );
}

#[test]
fn seed_test() {
    assert_eq!(
        seed("seed \"https://example.foo/bar/baz\";".as_bytes()),
        Some((
            "".as_bytes(),
            Ok(url::Url::parse("https://example.foo/bar/baz").unwrap().to_string())
        ))
    )
}

#[test]
fn boundary_test() {
    match boundary("allow \"^https?://example.foo/\";".as_bytes())
        .unwrap()
        .1
        .unwrap()
    {
        Boundary::Allowed(allowed) => assert_eq!(
            allowed.regex.as_str(),
            regex::Regex::new("^https?://example.foo/").unwrap().as_str()
        ),
        b => panic!("got {:?}", b),
    }

    match boundary("disallow \"^https?://example.foo/\";".as_bytes())
        .unwrap()
        .1
        .unwrap()
    {
        Boundary::Disallowed(allowed) => assert_eq!(
            allowed.regex.as_str(),
            regex::Regex::new("^https?://example.foo/").unwrap().as_str()
        ),
        b => panic!("got {:?}", b),
    }

    match boundary("frontier \"^https?://example.foo/\";".as_bytes())
        .unwrap()
        .1
        .unwrap()
    {
        Boundary::Frontier(allowed) => assert_eq!(
            allowed.regex.as_str(),
            regex::Regex::new("^https?://example.foo/").unwrap().as_str()
        ),
        b => panic!("got {:?}", b),
    }
}

#[test]
fn literal_test() {
    assert_eq!(
        literal("\"a string\"".as_bytes()),
        Some(("".as_bytes(), Ok(Literal::String("a string".to_owned()))))
    );
    assert_eq!(
        literal("1.234".as_bytes()),
        Some(("".as_bytes(), Ok(Literal::Float(float_of(1.234)))))
    );
    assert_eq!(
        literal("1234".as_bytes()),
        Some(("".as_bytes(), Ok(Literal::PosInt(1234))))
    );
    assert_eq!(
        literal("-1234".as_bytes()),
        Some(("".as_bytes(), Ok(Literal::NegInt(-1234))))
    );
    assert_eq!(
        literal("-1234.0".as_bytes()),
        Some(("".as_bytes(), Ok(Literal::Float(float_of(-1234.0)))))
    );
    assert_eq!(
        literal("1234.0".as_bytes()),
        Some(("".as_bytes(), Ok(Literal::Float(float_of(1234.0)))))
    );
}

#[test]
fn set_variable_test() {
    assert_eq!(
        set_variable("set a_variable = \"a value\";".as_bytes()),
        Some((
            "".as_bytes(),
            Ok(SetVariable {
                name: "a_variable".to_owned(),
                value: Literal::String("a value".to_owned())
            })
        ))
    );
    assert_eq!(
        set_variable("set a_variable = 1.234;".as_bytes()),
        Some((
            "".as_bytes(),
            Ok(SetVariable {
                name: "a_variable".to_owned(),
                value: Literal::Float(float_of(1.234)),
            })
        ))
    );
    assert_eq!(
        set_variable("set a_variable = 1234;".as_bytes()),
        Some((
            "".as_bytes(),
            Ok(SetVariable {
                name: "a_variable".to_owned(),
                value: Literal::PosInt(1234),
            })
        ))
    );
}

#[test]
fn item_test() {
    let parsed = item("select td > a[href^=\"https\"] { foo: first(text) length; }".as_bytes());
    match parsed {
        Some((rest, Ok(Item::RuleSet(rule_set)))) => {
            assert_eq!(rest, "".as_bytes());
            assert_eq!(rule_set.aggregators.len(), 1);
            assert_eq!(rule_set.aggregators[0].0, "foo");
        }
        other => panic!("got {:?}", other),
    }
}

#[test]
fn entrypoint_test() {
    let items = entrypoint("select * { } set foo = \"bar\"; allow \"foo\";\n".as_bytes())
        .unwrap()
        .unwrap();
    assert_eq!(items.len(), 3);
}
