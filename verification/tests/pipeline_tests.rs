use ghtodep::enrich::attach_descriptions;
use ghtodep::paginate::Paginator;
use ghtodep::rank::rank;

fn recs(pairs: &[(&str, &str)]) -> Vec<(String, String)> {
    pairs
        .iter()
        .map(|(k, s)| (k.to_string(), s.to_string()))
        .collect()
}

#[test]
fn two_pages_rank_into_the_expected_top_two() {
    // page one: a duplicate key and an "N/A" entry, with a next link;
    // page two: one k-suffixed entry and no next link.
    let mut p = Paginator::new(
        "https://github.com/o/r/network/dependents?dependent_type=REPOSITORY".to_string(),
        100,
    );
    assert!(p.next_url().is_some());
    p.record_page(
        recs(&[("a/b", "100"), ("a/b", "50"), ("c/d", "N/A")]),
        Some("/page2".to_string()),
    );
    assert_eq!(p.next_url().unwrap(), "https://github.com/page2");
    p.record_page(recs(&[("e/f", "1.2k")]), None);
    assert!(p.next_url().is_none());
    assert_eq!(p.pages_visited(), 2);

    let records = p.into_records();
    let (selected, distinct, above) = rank(&records, 0, 2);

    assert_eq!(distinct, 3);
    assert_eq!(above, 2); // the "N/A" sentinel falls below a zero threshold
    assert_eq!(selected.len(), 2);
    assert_eq!(selected[0].repo, "e/f");
    assert_eq!(selected[0].stars, "1.2k");
    assert_eq!(selected[1].repo, "a/b");
    assert_eq!(selected[1].stars, "100");
}

#[test]
fn descriptions_land_on_their_own_records() {
    let records = recs(&[("a/b", "2"), ("c/d", "1")]);
    let (selected, _, _) = rank(&records, 0, 10);
    let descriptions = vec![Some("first".to_string()), None];
    let enriched = attach_descriptions(&selected, &descriptions);
    assert_eq!(enriched.len(), 2);
    assert_eq!(enriched[0].repo, "a/b");
    assert_eq!(enriched[0].description, Some("first".to_string()));
    assert_eq!(enriched[1].repo, "c/d");
    assert_eq!(enriched[1].description, None);
}
