use ghtodep::rank::{dedupe, filter_by_stars, rank, sort_by_stars};

fn recs(pairs: &[(&str, &str)]) -> Vec<(String, String)> {
    pairs
        .iter()
        .map(|(k, s)| (k.to_string(), s.to_string()))
        .collect()
}

#[test]
fn dedupe_keeps_the_highest_stars() {
    let input = recs(&[("a/b", "100"), ("a/b", "50"), ("c/d", "7")]);
    let out = dedupe(&input);
    assert_eq!(out, recs(&[("a/b", "100"), ("c/d", "7")]));

    let input = recs(&[("a/b", "50"), ("a/b", "100")]);
    assert_eq!(dedupe(&input), recs(&[("a/b", "100")]));
}

#[test]
fn dedupe_first_seen_wins_ties() {
    // equal normalized values: the first record stays, display text included
    let input = recs(&[("a/b", "1.2k"), ("a/b", "1200")]);
    assert_eq!(dedupe(&input), recs(&[("a/b", "1.2k")]));
}

#[test]
fn dedupe_is_idempotent_on_its_output() {
    let input = recs(&[
        ("a/b", "100"),
        ("c/d", "N/A"),
        ("a/b", "900"),
        ("e/f", "1.2k"),
        ("c/d", "3"),
    ]);
    let once = dedupe(&input);
    let twice = dedupe(&once);
    assert_eq!(once, twice);
}

#[test]
fn filter_respects_the_sentinel() {
    // minimum 0 keeps zero-star entries but drops the "N/A" sentinel (-1)
    let input = recs(&[("a/b", "0"), ("c/d", "N/A"), ("e/f", "3")]);
    let kept = filter_by_stars(&input, 0);
    assert_eq!(kept, recs(&[("a/b", "0"), ("e/f", "3")]));
    // a threshold at the sentinel keeps it
    let all = filter_by_stars(&input, -1000);
    assert_eq!(all.len(), 3);
}

#[test]
fn sort_is_descending_and_stable() {
    let input = recs(&[("a/b", "5"), ("c/d", "9"), ("e/f", "5"), ("g/h", "N/A")]);
    let sorted = sort_by_stars(&input);
    assert_eq!(
        sorted,
        recs(&[("c/d", "9"), ("a/b", "5"), ("e/f", "5"), ("g/h", "N/A")])
    );
}

#[test]
fn rank_truncates_to_top_n() {
    let input = recs(&[("a/b", "1"), ("c/d", "2"), ("e/f", "3"), ("g/h", "4")]);
    let (selected, distinct, above) = rank(&input, 0, 2);
    assert_eq!(distinct, 4);
    assert_eq!(above, 4);
    assert_eq!(selected.len(), 2);
    assert_eq!(selected[0].repo, "g/h");
    assert_eq!(selected[1].repo, "e/f");
    assert!(selected.iter().all(|d| d.description.is_none()));
}

#[test]
fn rank_with_generous_top_n_keeps_everything_above_threshold() {
    let input = recs(&[("a/b", "1"), ("c/d", "200"), ("a/b", "3")]);
    let (selected, distinct, above) = rank(&input, 2000, 10);
    assert_eq!(distinct, 2);
    assert_eq!(above, 2);
    assert_eq!(selected.len(), 2);
    assert_eq!(selected[0].repo, "c/d");
    assert_eq!(selected[0].stars, "200");
    assert_eq!(selected[1].repo, "a/b");
    assert_eq!(selected[1].stars, "3");
}
