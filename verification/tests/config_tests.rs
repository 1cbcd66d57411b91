use ghtodep::config::{parse_repo_url, Config};
use ghtodep::error::AppError;

fn config_for(is_package: bool) -> Config {
    Config {
        owner: "owner".to_string(),
        repo: "repo".to_string(),
        top_n: 10,
        max_pages: 100,
        min_stars_milli: 0,
        is_package,
        show_desc: false,
        use_cache: true,
        output_format: "table".to_string(),
    }
}

#[test]
fn test_parse_repo_url_github_format() {
    let (owner, repo) = parse_repo_url("https://github.com/owner/repo").unwrap();
    assert_eq!(owner, "owner");
    assert_eq!(repo, "repo");
}

#[test]
fn test_parse_repo_url_short_format() {
    let (owner, repo) = parse_repo_url("owner/repo").unwrap();
    assert_eq!(owner, "owner");
    assert_eq!(repo, "repo");
}

#[test]
fn test_invalid_repo_url() {
    assert_eq!(parse_repo_url("invalid-format"), Err(AppError::Invalid));
}

#[test]
fn test_dependent_type() {
    assert_eq!(config_for(true).dependent_type(), "PACKAGE");
    assert_eq!(config_for(false).dependent_type(), "REPOSITORY");
}

#[test]
fn github_urls_tolerate_trailing_slashes() {
    let (owner, repo) = parse_repo_url("https://github.com/rust-lang/rust/").unwrap();
    assert_eq!(owner, "rust-lang");
    assert_eq!(repo, "rust");
}

#[test]
fn short_form_must_be_exactly_two_segments() {
    assert_eq!(parse_repo_url("a/b/c"), Err(AppError::Invalid));
    assert_eq!(parse_repo_url("github.com/owner"), Err(AppError::Invalid));
}
