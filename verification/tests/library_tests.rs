use lopez::boundaries::DirectiveBoundaries;
use lopez::crawl::{color_for_code, default_user_agent, Counter, Reason, StatusColor, WaveRemoveReport};
use lopez::master::{crawl_end, crawl_plan, crawl_result, handler_for, sort_by_depth, CrawlEnd, MasterAction, MasterLoop};
use lopez::directive_parse::entrypoint;
use lopez::directives::{canonical_path, duplicates_of, full_rule_name, imports_of, Directives, LoadedModule};
use lopez::expressions::{Transformer, TransformerExpression};
use lopez::items::{Item, Literal};
use lopez::parsers::{aggregator_expression, literal, regex, rule_set, seed, transformer, transformer_expression};
use lopez::position::{ParseError, Position};
use lopez::types::Type;
use lopez::variable::{SetVariables, Variable};

fn directives_of(text: &str) -> Directives {
    let items = entrypoint(text.as_bytes()).unwrap().unwrap();
    Directives {
        modules: vec![("".to_owned(), LoadedModule { items })],
    }
}

#[test]
fn type_display_reads_back() {
    let types = vec![
        Type::Any,
        Type::Bool,
        Type::Number,
        Type::String,
        Type::Array(Box::new(Type::Mapping(Box::new(Type::Number)))),
        Type::Mapping(Box::new(Type::Array(Box::new(Type::Bool)))),
    ];
    for t in types {
        let text = t.to_string();
        assert_eq!(Type::from_bytes(text.as_bytes()), Some(t));
    }
    assert_eq!(
        Type::Mapping(Box::new(Type::String)).to_string(),
        "map[string, string]"
    );
}

#[test]
fn regex_compiles_or_reports() {
    assert_eq!(regex("a+b").unwrap().regex.as_str(), "a+b");
    assert!(regex("(").is_err());
}

#[test]
fn bad_regex_is_an_error_value() {
    let (rest, parsed) = transformer("capture \"(\" length".as_bytes()).unwrap();
    assert_eq!(rest, " length".as_bytes());
    assert!(parsed.is_err());
}

#[test]
fn get_index_too_large() {
    let (_, parsed) = transformer("get 99999999999999999999999".as_bytes()).unwrap();
    assert_eq!(parsed, Err("number too large to fit in target type".to_owned()));
    let (_, parsed) = transformer("get 12".as_bytes()).unwrap();
    assert_eq!(parsed, Ok(Transformer::GetIdx(12)));
}

#[test]
fn transformer_alternatives_in_order() {
    let (rest, parsed) = transformer_expression("is-not-null not hash each(length) sort".as_bytes()).unwrap();
    assert_eq!(rest, "".as_bytes());
    assert_eq!(
        parsed,
        Ok(TransformerExpression {
            transformers: vec![
                Transformer::IsNotNull,
                Transformer::Not,
                Transformer::Hash,
                Transformer::Each(TransformerExpression {
                    transformers: vec![Transformer::Length]
                }),
                Transformer::Sort,
            ]
        })
    );
    let (_, parsed) = transformer("in [\"a\", \"b\"]".as_bytes()).unwrap();
    assert_eq!(parsed, Ok(Transformer::InStrings(vec!["a".to_owned(), "b".to_owned()])));
    let (_, parsed) = transformer("replace \"a\" with \"b\"".as_bytes()).unwrap();
    match parsed.unwrap() {
        Transformer::Replace(re, with) => {
            assert_eq!(re.source, "a");
            assert_eq!(with, "b");
        }
        other => panic!("got {:?}", other),
    }
}

#[test]
fn group_aggregator_parses() {
    let (rest, parsed) =
        aggregator_expression("group(text, count) length".as_bytes()).unwrap();
    assert_eq!(rest, "".as_bytes());
    assert!(parsed.is_ok());
}

#[test]
fn duplicate_rule_in_rule_set() {
    let (_, parsed) = rule_set("select a { x: count; x: count; }".as_bytes()).unwrap();
    assert_eq!(parsed.unwrap_err(), "rule `x` defined more than once");
}

#[test]
fn rule_set_selector_runs_to_brace() {
    // The selector takes everything up to `{`, so a rule set always needs braces.
    assert!(rule_set("select a;".as_bytes()).is_none());
    let (rest, parsed) = rule_set("select a {}".as_bytes()).unwrap();
    assert_eq!(rest, "".as_bytes());
    assert!(parsed.unwrap().aggregators.is_empty());
}

#[test]
fn literal_edge_cases() {
    assert_eq!(literal("-0".as_bytes()), Some(("".as_bytes(), Ok(Literal::PosInt(0)))));
    assert_eq!(
        literal("[1, \"a\", [ ]]".as_bytes()),
        Some((
            "".as_bytes(),
            Ok(Literal::Array(vec![
                Literal::PosInt(1),
                Literal::String("a".to_owned()),
                Literal::Array(vec![])
            ]))
        ))
    );
    assert_eq!(literal("inf".as_bytes()), Some(("".as_bytes(), Ok(Literal::Null))));
}

#[test]
fn seed_reports_bad_address() {
    let (_, parsed) = seed("seed \"not an address\";".as_bytes()).unwrap();
    assert!(parsed.is_err());
    let (_, parsed) = seed("seed \"HTTP://Example.com\";".as_bytes()).unwrap();
    assert_eq!(parsed, Ok("http://example.com/".to_owned()));
}

#[test]
fn entrypoint_refuses_leftovers() {
    assert!(entrypoint("set foo = 1; what?".as_bytes()).is_none());
    assert_eq!(entrypoint("  // only a comment\n".as_bytes()).unwrap().unwrap().len(), 0);
}

#[test]
fn canonical_paths() {
    assert_eq!(canonical_path("a.b.super.c").unwrap(), "a.c");
    assert_eq!(canonical_path("a.root.b..c").unwrap(), "b.c");
    assert_eq!(
        canonical_path("super.super").unwrap_err(),
        "got empty path from `super.super`"
    );
    assert_eq!(
        canonical_path("a.super.super").unwrap_err(),
        "got empty path from `a.super.super`"
    );
    assert_eq!(canonical_path("a.super").unwrap(), "");
    assert_eq!(canonical_path("").unwrap(), "");
}

#[test]
fn full_rule_names() {
    assert_eq!(full_rule_name("", "rule"), "rule");
    assert_eq!(full_rule_name("mod", "rule"), "mod.rule");
}

#[test]
fn duplicates_are_listed_once() {
    let names = vec!["a".to_owned(), "b".to_owned(), "a".to_owned(), "a".to_owned()];
    assert_eq!(duplicates_of(&names), vec!["a".to_owned()]);
}

#[test]
fn directives_queries() {
    let directives = directives_of(
        "seed \"https://a.com/\"; allow \"a\"; disallow \"b\"; use param \"p\"; use param *; \
         set quota = 10; set quota = 20; set nope = 1; select x { r: count; }",
    );
    assert_eq!(directives.seeds(), vec!["https://a.com/".to_owned()]);
    let lists = directives.boundaries();
    assert_eq!(lists.allowed, vec!["a".to_owned()]);
    assert_eq!(lists.disallowed, vec!["b".to_owned()]);
    assert_eq!(lists.use_params, vec!["p".to_owned()]);
    assert!(lists.use_all_params);
    let vars = directives.set_variables();
    assert_eq!(vars.get_as_u64(Variable::Quota).unwrap(), 20);
    assert_eq!(vars.get_as_u64(Variable::MaxDepth).unwrap(), 7);
    assert_eq!(directives.find_invalid_set_variables(), vec!["nope".to_owned()]);
    assert_eq!(directives.find_duplicate_set_variables(), vec!["quota".to_owned()]);
    assert_eq!(directives.rules(), vec![("r".to_owned(), Type::Number)]);
    assert!(directives.find_type_errors().is_empty());
}

#[test]
fn validation_report() {
    let good = directives_of("select x { r: count; }");
    assert!(good.validate().is_ok());
    let bad = directives_of("seed \"https://x.com/\"; set nope = 1;");
    assert_eq!(
        bad.validate().unwrap_err(),
        "There are issues with your configuration: \n\
         There are seeds on the frontier or outside your boundaries: \n    https://x.com/\n\
         There are invalid set-variable definitions (these name are not known): \n    nope"
    );
}

#[test]
fn type_error_is_reported() {
    let directives = directives_of("select x { r: count length; }");
    let errors = directives.find_type_errors();
    assert_eq!(errors.len(), 1);
    assert_eq!(errors[0].0, "r");
}

#[test]
fn variables_by_name() {
    assert_eq!(Variable::try_parse("max_depth"), Some(Variable::MaxDepth));
    assert_eq!(Variable::try_parse("max depth"), None);
    for v in [
        Variable::UserAgent,
        Variable::Quota,
        Variable::MaxDepth,
        Variable::MaxHitsPerSec,
        Variable::RequestTimeout,
        Variable::MaxBodySize,
    ] {
        assert_eq!(Variable::try_parse(&v.to_string()), Some(v));
    }
}

#[test]
fn variable_defaults_and_bad_values() {
    let mut vars = SetVariables::new();
    assert_eq!(vars.get_as_str(Variable::UserAgent).unwrap(), default_user_agent());
    assert_eq!(vars.get_as_u64(Variable::Quota).unwrap(), 1000);
    assert_eq!(vars.get_as_u64(Variable::MaxBodySize).unwrap(), 10_000_000);
    vars.set(Variable::Quota, Literal::String("x".to_owned()));
    let err = vars.get_as_u64(Variable::Quota).unwrap_err();
    assert_eq!(err.variable, Variable::Quota);
    vars.set(Variable::UserAgent, Literal::String("me".to_owned()));
    assert_eq!(vars.get_as_str(Variable::UserAgent).unwrap(), "me");
}

#[test]
fn counter_counts() {
    let mut c = Counter::default();
    c.register_open();
    c.register_open();
    c.register_error();
    assert_eq!(c.n_active(), 1);
    assert_eq!(c.n_closed(), 1);
    assert_eq!(c.n_error(), 1);
    let d = c.merge(&c);
    assert_eq!(d.n_closed(), 2);
    assert_eq!(d.n_downloaded(), 0);
}

#[test]
fn reasons() {
    assert_eq!(Reason::Ahref.to_string(), "ahref");
    assert_eq!(Reason::Canonical.to_string(), "canonical");
    assert!(Reason::Redirect.is_redirect());
    assert!(!Reason::Redirect.is_ahref());
    assert!(Reason::Canonical.is_canonical());
}

#[test]
fn wave_reports() {
    assert!(!WaveRemoveReport::not_removed().was_removed());
    let r = WaveRemoveReport::removed(3);
    assert!(r.was_removed());
    assert_eq!(r.removed_pages, 3);
}

#[test]
fn positions_and_errors() {
    let text = "ab\r\ncd\nefg";
    let p = Position::of(text, "fg");
    assert_eq!(p, Position { line: 2, column: 1 });
    assert_eq!(p.to_string(), "line 3, column 2");
    let e = ParseError::new(text, "cd\nefg", "oops".to_owned());
    assert_eq!(e.position, Position { line: 1, column: 0 });
    assert_eq!(e.hint, "cd...");
    let e = ParseError::new("zx\r\ny", "x\r\ny", "m".to_owned());
    assert_eq!(e.hint, "x...");
}

#[test]
fn robots_test() {
    let robots_txt = r#"
# Ban Grapeshot
User-Agent: grapeshot
Disallow: /

# Ban oauth urls
User-Agent: *
Disallow: /auth/
Disallow: /login
Disallow: /intercambio?
Disallow: /api/*/private$
"#;
    let exclusion = lopez::robots::RobotExclusion::new(robots_txt);
    assert_eq!(exclusion.disallow.len(), 4);
    assert!(!exclusion.allows("/auth/callback"));
    assert!(!exclusion.allows("/login"));
    assert!(exclusion.allows("/cursos"));
    assert!(exclusion.allows("/"));
}

#[test]
fn robots_matches_pieces_in_turn() {
    let rule = lopez::robots::Match::new("/a*b");
    assert!(!rule.is_strict);
    assert!(rule.matches("/axxb"));
    assert!(!rule.matches("/bxxa"));
    assert!(!lopez::robots::Match::new("").matches("/"));
    let strict = lopez::robots::Match::new("/a$");
    assert!(strict.is_strict);
    assert_eq!(strict.match_str, "/a");
    assert!(strict.matches("/a"));
    assert!(!strict.matches("/a/b"));
    assert!(strict.matches("/x/a"));
}

#[test]
fn crawl_plans() {
    let plan = crawl_plan(10, 100, Some(50));
    assert_eq!(plan.effective_quota, 50);
    assert!(!plan.will_crawl_end);
    assert_eq!(plan.remaining_quota, 40);
    assert_eq!(crawl_plan(200, 100, None).remaining_quota, 0);
    let (_, first) = MasterLoop::start(crawl_plan(200, 100, None), true);
    assert_eq!(first, MasterAction::Finish(CrawlEnd::Empty));
    let (mut m, first) = MasterLoop::start(crawl_plan(0, 5, None), true);
    assert_eq!(first, MasterAction::Fetch);
    assert_eq!(m.on_fetch(Some(0), 0), MasterAction::Wait);
    assert!(m.has_been_empty);
    assert_eq!(m.on_fetch(Some(2), 0), MasterAction::Send(0));
    assert!(!m.has_been_empty);
    assert_eq!(m.on_sent(true, 0), MasterAction::Send(1));
    assert_eq!(m.on_sent(true, 0), MasterAction::Fetch);
    assert_eq!(m.n_sent, 2);
    assert_eq!(m.on_fetch(Some(0), 2), MasterAction::Wait);
    assert_eq!(m.on_fetch(Some(0), 2), MasterAction::Finish(CrawlEnd::Done { page_rank: true }));
    let (mut q, _) = MasterLoop::start(crawl_plan(0, 3, None), false);
    assert_eq!(q.on_fetch(Some(5), 0), MasterAction::Send(0));
    assert_eq!(q.on_sent(true, 3), MasterAction::Finish(CrawlEnd::Done { page_rank: false }));
    let (mut f, _) = MasterLoop::start(crawl_plan(0, 3, Some(2)), false);
    assert_eq!(f.on_fetch(Some(5), 0), MasterAction::Send(0));
    assert_eq!(f.on_sent(false, 0), MasterAction::Finish(CrawlEnd::Interrupted));
    assert!(f.is_interrupted);
    assert_eq!(f.on_fetch(Some(5), 0), MasterAction::Finish(CrawlEnd::Interrupted));
    assert_eq!(crawl_result(CrawlEnd::Interrupted).unwrap_err(), "crawl was interrupted");
    assert_eq!(crawl_result(CrawlEnd::Done { page_rank: true }), Ok(true));
    assert_eq!(crawl_result(CrawlEnd::Empty), Ok(false));
    assert_eq!(crawl_result(CrawlEnd::Incomplete), Ok(false));
    assert_eq!(handler_for(7, 3), 1);
    assert_eq!(crawl_end(false, true, true), CrawlEnd::Done { page_rank: true });
    assert_eq!(crawl_end(true, true, true), CrawlEnd::Interrupted);
    assert_eq!(crawl_end(false, false, true), CrawlEnd::Incomplete);
    let sorted = sort_by_depth(vec![("a".to_owned(), 3), ("b".to_owned(), 1), ("c".to_owned(), 2)]);
    assert_eq!(sorted, vec![("b".to_owned(), 1), ("c".to_owned(), 2), ("a".to_owned(), 3)]);
}

#[test]
fn checked_join_test() {
    assert_eq!(
        lopez::boundaries::checked_join("https://querobolsa.com.br/mba", "/revista/assunto/especiais")
            .unwrap(),
        url::Url::parse("https://querobolsa.com.br/revista/assunto/especiais")
            .unwrap()
            .to_string(),
    );
    assert_eq!(
        lopez::boundaries::checked_join("https://a.com/", "mailto:me@a.com").unwrap_err(),
        "unaccepted scheme: mailto:me@a.com"
    );
    assert_eq!(
        lopez::boundaries::checked_join("https://a.com/", "#top").unwrap_err(),
        "bad link: #top"
    );
}

#[test]
fn links_are_cleaned() {
    let directives = directives_of("allow \"^https://a.com/\"; frontier \"^https://a.com/edge\"; use param \"id\";");
    let b = DirectiveBoundaries::new(directives.boundaries());
    assert_eq!(
        b.boundaries.filter_query_params("https://a.com/x?id=1&utm=2"),
        "https://a.com/x?id=1"
    );
    assert_eq!(b.boundaries.filter_query_params("https://a.com/x?utm=2"), "https://a.com/x");
    let links = vec![
        (Reason::Canonical, "/b".to_owned()),
        (Reason::Ahref, "/b?utm=1".to_owned()),
        (Reason::Ahref, "/a".to_owned()),
        (Reason::Ahref, "https://other.com/".to_owned()),
        (Reason::Ahref, "/b".to_owned()),
    ];
    assert_eq!(
        b.clean_links("https://a.com/page", &links),
        vec![
            (Reason::Ahref, "https://a.com/a".to_owned()),
            (Reason::Ahref, "https://a.com/b".to_owned()),
            (Reason::Canonical, "https://a.com/b".to_owned()),
        ]
    );
    assert!(b.clean_links("https://a.com/edge", &links).is_empty());
}

#[test]
fn status_colors() {
    assert_eq!(color_for_code(200), StatusColor::Green);
    assert_eq!(color_for_code(301), StatusColor::Blue);
    assert_eq!(color_for_code(404), StatusColor::Yellow);
    assert_eq!(color_for_code(503), StatusColor::Red);
    assert_eq!(color_for_code(100), StatusColor::White);
    assert_eq!(color_for_code(99), StatusColor::Purple);
}

#[test]
fn transformers_are_written_back() {
    assert_eq!(
        Transformer::InStrings(vec!["a".to_owned(), "b\"c".to_owned()]).to_text(),
        "in [\"a\", \"b\\\"c\"]"
    );
    assert_eq!(Transformer::Get("k".to_owned()).to_text(), "get \"k\"");
    assert_eq!(Transformer::GetIdx(3).to_text(), "get 3");
}

#[test]
fn type_error_text() {
    let directives = directives_of("select x { r: count length; }");
    let errors = directives.find_type_errors();
    assert_eq!(errors[0].1.to_text(), "type error: no type for `length` of `number`");
}

#[test]
fn link_without_domain() {
    assert_eq!(
        lopez::boundaries::checked_join("https://a.com/", "http://127.0.0.1/x").unwrap_err(),
        "no domain: http://127.0.0.1/x"
    );
}

#[test]
fn imports_are_resolved_against_the_module() {
    let items = entrypoint(
        "import \"a.b\"; seed \"https://a.com/\"; import \"super.c\"; import \"root.z\";".as_bytes(),
    )
    .unwrap()
    .unwrap();
    assert_eq!(imports_of("x.y", &items).unwrap(), vec!["x.y.a.b", "x.c", "z"]);
    assert_eq!(
        imports_of("", &items).unwrap_err(),
        "got empty path from `.super.c`"
    );
}

#[test]
fn robots_rules_follow_the_text() {
    let exclusion = lopez::robots::RobotExclusion::new(
        "User-Agent: *\nDisallow: /private\nDisallow: /exact$\nAllow: /private/open\n",
    );
    assert_eq!(exclusion.disallow.len(), 2);
    assert!(!exclusion.allows("/private/x"));
    assert!(!exclusion.allows("/exact"));
    assert!(exclusion.allows("/exact/more"));
    assert!(exclusion.allows("/public"));
}

#[test]
fn bad_variable_values_are_reported() {
    let bad = directives_of(
        "set quota = \"many\"; set max_hits_per_sec = 0; set request_timeout = -2.5; \
         set user_agent = [1, \"x\"];",
    );
    assert_eq!(
        bad.validate().unwrap_err(),
        "There are issues with your configuration: \n\
         There are bad values for set-variables: \n    \
         bad set-variable value for user_agent: [1,\"x\"]\n    \
         bad set-variable value for quota: \"many\"\n    \
         bad set-variable value for max_hits_per_sec: 0\n    \
         bad set-variable value for request_timeout: -2.5"
    );
    let good = directives_of("set max_hits_per_sec = 0.5; set request_timeout = 3; set quota = 9;");
    assert!(good.validate().is_ok());
    let vars = good.set_variables();
    assert!(vars.get_as_positive_number(Variable::MaxHitsPerSec).is_ok());
    assert!(vars.get_as_positive_number(Variable::RequestTimeout).is_ok());
}

#[test]
fn rule_sets_run_where_their_page_pattern_matches() {
    let directives = directives_of(
        "select a { x: count; } select in \"^https://a.com/blog\" p { y: count; }",
    );
    assert_eq!(directives.rule_sets_for("https://a.com/blog/1"), vec![(0, 0), (0, 1)]);
    assert_eq!(directives.rule_sets_for("https://a.com/shop"), vec![(0, 0)]);
}
