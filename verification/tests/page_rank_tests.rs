use lopez::page_rank::index_links;

#[test]
fn pages_are_numbered_in_order_of_appearance() {
    let graph = index_links(&vec![(10, 20), (20, 10), (10, 30), (40, 40)]);
    assert_eq!(graph.pages, vec![10, 20, 30, 40]);
    assert_eq!(graph.links, vec![(0, 1), (1, 0), (0, 2), (3, 3)]);
    assert_eq!(graph.outgoing, vec![vec![1, 2], vec![0], vec![], vec![3]]);
}

#[test]
fn repeated_links_stay() {
    let graph = index_links(&vec![(-5, 7), (-5, 7), (7, -5)]);
    assert_eq!(graph.pages, vec![-5, 7]);
    assert_eq!(graph.outgoing, vec![vec![1, 1], vec![0]]);
}

#[test]
fn no_links_no_pages() {
    let graph = index_links(&vec![]);
    assert!(graph.pages.is_empty());
    assert!(graph.links.is_empty());
    assert!(graph.outgoing.is_empty());
}
