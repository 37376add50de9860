use lopez::download::{download_outcome, Downloaded};
use lopez::crawl::Reason;
use lopez::worker::report_link_lines;
use lopez::crawl::url_list_lines;
use lopez::download::{append_chunk, body_encoding, status_kind, BodyEncoding, StatusKind};

#[test]
fn status_codes_are_classified() {
    assert_eq!(status_kind(301), StatusKind::Redirect);
    assert_eq!(status_kind(200), StatusKind::Success);
    assert_eq!(status_kind(299), StatusKind::Success);
    assert_eq!(status_kind(404), StatusKind::Bad);
    assert_eq!(status_kind(100), StatusKind::Bad);
}

#[test]
fn bodies_are_cut_at_the_limit() {
    let mut content = vec![1u8, 2];
    assert!(!append_chunk(&mut content, &[3, 4], 5));
    assert_eq!(content, vec![1, 2, 3, 4]);
    assert!(append_chunk(&mut content, &[5, 6, 7], 5));
    assert_eq!(content, vec![1, 2, 3, 4, 5]);
}

#[test]
fn encodings_are_named() {
    assert_eq!(body_encoding(None), Ok(BodyEncoding::Identity));
    assert_eq!(body_encoding(Some("gzip")), Ok(BodyEncoding::Gzip));
    assert_eq!(body_encoding(Some("deflate")), Ok(BodyEncoding::Deflate));
    assert_eq!(body_encoding(Some("br")), Err("unknown content encoding br".to_owned()));
}

#[test]
fn url_lists_are_cut() {
    let urls = vec!["a".to_owned(), "b".to_owned(), "c".to_owned()];
    assert_eq!(url_list_lines(&vec![], 2), vec!["<empty>"]);
    assert_eq!(url_list_lines(&urls, 3), urls);
    assert_eq!(url_list_lines(&urls, 2), vec!["a", "b", "... and 1 more."]);
}

#[test]
fn redirects_need_a_location() {
    match download_outcome(301, Some(b"https://b.com/x"), vec![]) {
        Ok(Downloaded::Redirect { location, status_code }) => {
            assert_eq!(location, "https://b.com/x");
            assert_eq!(status_code, 301);
        }
        other => panic!("got {:?}", other),
    }
    match download_outcome(302, Some(&[b'/', 0xff, b'a']), vec![]) {
        Ok(Downloaded::Redirect { location, .. }) => assert_eq!(location, "/\u{fffd}a"),
        other => panic!("got {:?}", other),
    }
    match download_outcome(307, None, vec![]) {
        Err(message) => assert_eq!(message, "no Location header on redirect"),
        other => panic!("got {:?}", other),
    }
}

#[test]
fn pages_and_bad_statuses() {
    match download_outcome(200, Some(b"/ignored"), vec![1, 2, 3]) {
        Ok(Downloaded::Page { content, status_code }) => {
            assert_eq!(content, vec![1, 2, 3]);
            assert_eq!(status_code, 200);
        }
        other => panic!("got {:?}", other),
    }
    match download_outcome(404, None, vec![1]) {
        Ok(Downloaded::BadStatus { status_code }) => assert_eq!(status_code, 404),
        other => panic!("got {:?}", other),
    }
}

#[test]
fn report_lists_canonicals_and_anchors() {
    let mut links = vec![(Reason::Canonical, "https://a.com/c".to_owned())];
    for i in 0..12 {
        links.push((Reason::Ahref, format!("https://a.com/{}", i)));
    }
    let (canonical, anchors) = report_link_lines(&links);
    assert_eq!(canonical, vec!["https://a.com/c"]);
    assert_eq!(anchors.len(), 11);
    assert_eq!(anchors[0], "https://a.com/0");
    assert_eq!(anchors[9], "https://a.com/9");
    assert_eq!(anchors[10], "... and 2 more.");
    let few = vec![
        (Reason::Ahref, "x".to_owned()),
        (Reason::Canonical, "c1".to_owned()),
        (Reason::Canonical, "c2".to_owned()),
        (Reason::Canonical, "c3".to_owned()),
        (Reason::Canonical, "c4".to_owned()),
    ];
    let (canonical, anchors) = report_link_lines(&few);
    assert_eq!(canonical, vec!["c1", "c2", "c3", "... and 1 more."]);
    assert_eq!(anchors, vec!["x"]);
    let (canonical, anchors) = report_link_lines(&vec![]);
    assert_eq!(canonical, vec!["<empty>"]);
    assert_eq!(anchors, vec!["<empty>"]);
}
