use lopez::boundaries::DirectiveBoundaries;
use lopez::crawl::Reason;
use lopez::directive_parse::entrypoint;
use lopez::directives::{Directives, LoadedModule};
use lopez::robots::RobotExclusion;
use lopez::crawl::Counter;
use lopez::worker::{crawl, origin_allows, store, store_next, test_target, Crawled, Fetched, StoreAction, StoreNext};

fn boundaries_of(text: &str) -> DirectiveBoundaries {
    let items = entrypoint(text.as_bytes()).unwrap().unwrap();
    let directives = Directives {
        modules: vec![("".to_owned(), LoadedModule { items })],
    };
    DirectiveBoundaries::new(directives.boundaries())
}

fn sample() -> DirectiveBoundaries {
    boundaries_of(
        "allow \"^https://a.com/\"; disallow \"^https://a.com/private\"; \
         frontier \"^https://a.com/edge\"; use param \"id\";",
    )
}

#[test]
fn crawled_page_keeps_followed_links() {
    let b = sample();
    let links = vec![
        (Reason::Ahref, "/b?utm=1".to_owned()),
        (Reason::Ahref, "/private/x".to_owned()),
        (Reason::Ahref, "/a".to_owned()),
    ];
    let crawled = crawl(
        &b,
        "https://a.com/page",
        Fetched::Page { status_code: 200, links: Some(links.clone()) },
    );
    match crawled {
        Crawled::Success { status_code, links } => {
            assert_eq!(status_code, 200);
            assert_eq!(
                links,
                vec![
                    (Reason::Ahref, "https://a.com/a".to_owned()),
                    (Reason::Ahref, "https://a.com/b".to_owned()),
                ]
            );
        }
        other => panic!("got {:?}", other),
    }
    let on_edge = crawl(
        &b,
        "https://a.com/edge",
        Fetched::Page { status_code: 200, links: Some(links) },
    );
    assert!(matches!(on_edge, Crawled::Success { status_code: 200, ref links } if links.is_empty()));
}

#[test]
fn crawl_outcomes_carry_over() {
    let b = sample();
    let page = "https://a.com/page";
    assert!(matches!(
        crawl(&b, page, Fetched::Page { status_code: 200, links: None }),
        Crawled::Success { status_code: 200, ref links } if links.is_empty()
    ));
    assert!(matches!(
        crawl(&b, page, Fetched::BadStatus { status_code: 404 }),
        Crawled::BadStatus { status_code: 404 }
    ));
    assert!(matches!(
        crawl(&b, page, Fetched::Redirect { status_code: 301, location: "/b".to_owned() }),
        Crawled::Redirect { status_code: 301, ref location } if location == "/b"
    ));
    assert!(matches!(
        crawl(&b, page, Fetched::Failed("refused".to_owned())),
        Crawled::Error(ref m) if m == "refused"
    ));
    assert!(matches!(crawl(&b, page, Fetched::TimedOut), Crawled::TimedOut));
}

#[test]
fn stored_page_is_analyzed_then_explored() {
    let b = sample();
    let links = vec![(Reason::Ahref, "https://a.com/a".to_owned())];
    let actions = store(
        &b,
        "https://a.com/page",
        4,
        Crawled::Success { status_code: 200, links: links.clone() },
    );
    assert_eq!(actions.len(), 2);
    assert!(matches!(actions[0], StoreAction::Analyze));
    assert!(matches!(
        actions[1],
        StoreAction::Explore { status_code: 200, depth: 5, ref links } if links.len() == 1
    ));
    let bad = store(&b, "https://a.com/page", 0, Crawled::BadStatus { status_code: 500 });
    assert_eq!(bad.len(), 1);
    assert!(matches!(
        bad[0],
        StoreAction::Explore { status_code: 500, depth: 1, ref links } if links.is_empty()
    ));
}

#[test]
fn stored_failure_counts_an_error() {
    let b = sample();
    for crawled in vec![Crawled::Error("boom".to_owned()), Crawled::TimedOut] {
        let actions = store(&b, "https://a.com/page", 2, crawled);
        assert_eq!(actions.len(), 2);
        assert!(matches!(actions[0], StoreAction::MarkError));
        assert!(matches!(actions[1], StoreAction::CountError));
    }
}

#[test]
fn stored_redirect_follows_allowed_target() {
    let b = sample();
    let followed = store(
        &b,
        "https://a.com/page",
        1,
        Crawled::Redirect { status_code: 301, location: "/moved?id=7&utm=x".to_owned() },
    );
    assert_eq!(followed.len(), 1);
    match &followed[0] {
        StoreAction::Explore { status_code, depth, links } => {
            assert_eq!(*status_code, 301);
            assert_eq!(*depth, 2);
            assert_eq!(links, &vec![(Reason::Redirect, "https://a.com/moved?id=7".to_owned())]);
        }
        other => panic!("got {:?}", other),
    }
    let disallowed = store(
        &b,
        "https://a.com/page",
        1,
        Crawled::Redirect { status_code: 302, location: "/private/y".to_owned() },
    );
    assert!(disallowed.is_empty());
    let from_edge = store(
        &b,
        "https://a.com/edge",
        1,
        Crawled::Redirect { status_code: 302, location: "/moved".to_owned() },
    );
    assert!(from_edge.is_empty());
    let unresolved = store(
        &b,
        "https://a.com/page",
        1,
        Crawled::Redirect { status_code: 302, location: "mailto:me@a.com".to_owned() },
    );
    assert!(unresolved.is_empty());
}

#[test]
fn test_target_filters_then_checks() {
    let b = sample();
    assert_eq!(
        test_target(&b, "https://a.com/x?id=1&utm=2"),
        ("https://a.com/x?id=1".to_owned(), true)
    );
    assert_eq!(
        test_target(&b, "https://a.com/private/z"),
        ("https://a.com/private/z".to_owned(), false)
    );
    assert_eq!(
        test_target(&b, "https://elsewhere.com/"),
        ("https://elsewhere.com/".to_owned(), false)
    );
}

#[test]
fn origin_rules_apply_when_present() {
    assert!(origin_allows(&None, "/login"));
    let rules = Some(RobotExclusion::new("User-Agent: *\nDisallow: /login\n"));
    assert!(!origin_allows(&rules, "/login"));
    assert!(origin_allows(&rules, "/cursos"));
}

#[test]
fn page_links_are_anchors_then_canonicals() {
    let page = b"<html><head><link rel=\"canonical\" href=\"/c\"></head>\
        <body><a href=\"/x\">x</a><a name=\"n\">n</a><a href=\"https://b.com/\">b</a></body></html>";
    assert_eq!(
        lopez::page::page_links(page),
        vec![
            (Reason::Ahref, "/x".to_owned()),
            (Reason::Ahref, "https://b.com/".to_owned()),
            (Reason::Canonical, "/c".to_owned()),
        ]
    );
    assert!(lopez::page::page_links(b"\xff\xfe not html").is_empty());
}

#[test]
fn store_steps_run_in_order_and_stop_on_failure() {
    let b = sample();
    let plan = store(&b, "https://a.com/page", 0, Crawled::TimedOut);
    let mut counter = Counter::default();
    assert!(matches!(store_next(&plan, 0, Ok(()), &mut counter), StoreNext::Perform(0)));
    assert!(matches!(store_next(&plan, 1, Ok(()), &mut counter), StoreNext::Done(Ok(()))));
    assert_eq!(counter.n_error(), 1);
    assert_eq!(counter.n_closed(), 1);
    let mut untouched = Counter::default();
    match store_next(&plan, 1, Err("down".to_owned()), &mut untouched) {
        StoreNext::Done(Err(e)) => assert_eq!(e, "down"),
        other => panic!("got {:?}", other),
    }
    assert_eq!(untouched.n_error(), 0);
    let page = store(
        &b,
        "https://a.com/page",
        0,
        Crawled::Success { status_code: 200, links: vec![] },
    );
    assert!(matches!(store_next(&page, 0, Ok(()), &mut untouched), StoreNext::Perform(0)));
    assert!(matches!(store_next(&page, 1, Ok(()), &mut untouched), StoreNext::Perform(1)));
    assert!(matches!(store_next(&page, 2, Ok(()), &mut untouched), StoreNext::Done(Ok(()))));
}

#[test]
fn finished_tasks_are_closed() {
    let mut counter = Counter::default();
    counter.register_open();
    counter.register_open();
    counter.task_finished(true);
    assert_eq!(counter.n_closed(), 1);
    assert_eq!(counter.n_error(), 0);
    assert_eq!(counter.n_active(), 1);
    counter.task_finished(false);
    assert_eq!(counter.n_closed(), 3);
    assert_eq!(counter.n_error(), 1);
}
