use ghtodep::paginate::{resolve_next_url, Paginator};

fn recs(pairs: &[(&str, &str)]) -> Vec<(String, String)> {
    pairs
        .iter()
        .map(|(k, s)| (k.to_string(), s.to_string()))
        .collect()
}

#[test]
fn links_resolve_against_the_origin() {
    assert_eq!(
        resolve_next_url("https://github.com/x?page=2"),
        "https://github.com/x?page=2"
    );
    assert_eq!(resolve_next_url("http://mirror/x"), "http://mirror/x");
    assert_eq!(resolve_next_url("/next-page"), "https://github.com/next-page");
    assert_eq!(resolve_next_url("next-page"), "https://github.com/next-page");
}

#[test]
fn the_page_cap_stops_a_walk_with_endless_next_links() {
    // every page reports a next link, yet the walk ends within max_pages
    let max_pages = 3;
    let mut p = Paginator::new("https://github.com/start".to_string(), max_pages);
    let mut fetched = 0;
    while let Some(_url) = p.next_url().map(|u| u.clone()) {
        p.record_page(recs(&[("a/b", "1")]), Some("/again".to_string()));
        fetched += 1;
        assert!(fetched <= max_pages);
    }
    assert_eq!(fetched, 3);
    assert_eq!(p.pages_visited(), 3);
    assert!(!p.is_done());
    assert_eq!(p.into_records().len(), 3);
}

#[test]
fn an_empty_page_ends_the_walk() {
    let mut p = Paginator::new("u".to_string(), 10);
    p.record_page(recs(&[("a/b", "1")]), Some("/2".to_string()));
    p.record_page(Vec::new(), Some("/3".to_string()));
    assert!(p.is_done());
    assert!(p.next_url().is_none());
    // the records gathered before the empty page are kept
    assert_eq!(p.into_records(), recs(&[("a/b", "1")]));
}

#[test]
fn a_missing_next_link_ends_the_walk() {
    let mut p = Paginator::new("u".to_string(), 10);
    p.record_page(recs(&[("a/b", "1")]), None);
    assert!(p.is_done());
    assert!(p.next_url().is_none());
    assert_eq!(p.pages_visited(), 1);
}

#[test]
fn a_failed_fetch_keeps_the_partial_result() {
    let mut p = Paginator::new("u".to_string(), 10);
    p.record_page(recs(&[("a/b", "1"), ("c/d", "2")]), Some("/2".to_string()));
    p.record_failure();
    assert!(p.is_done());
    assert!(p.next_url().is_none());
    assert_eq!(p.into_records(), recs(&[("a/b", "1"), ("c/d", "2")]));
}

#[test]
fn the_walk_follows_the_resolved_next_link() {
    let mut p = Paginator::new("https://github.com/p1".to_string(), 10);
    assert_eq!(p.next_url().unwrap(), "https://github.com/p1");
    p.record_page(recs(&[("a/b", "1")]), Some("/p2".to_string()));
    assert_eq!(p.next_url().unwrap(), "https://github.com/p2");
}
