use crypto_ecosystems::urls::{parse_repo_url_type, url_type_is_accepted, RepoUrlType};

#[test]
fn github_repository_url() {
    assert_eq!(
        parse_repo_url_type("https://github.com/foo/bar"),
        RepoUrlType::GithubRepository
    );
}

#[test]
fn github_trailing_slash_is_unnormalized() {
    assert_eq!(
        parse_repo_url_type("https://github.com/foo/bar/"),
        RepoUrlType::GithubUnnormalized
    );
}

#[test]
fn github_account_url() {
    assert_eq!(
        parse_repo_url_type("https://github.com/foo"),
        RepoUrlType::GithubUserOrOrganization
    );
}

#[test]
fn github_treeish_url() {
    assert_eq!(
        parse_repo_url_type("https://github.com/foo/bar/tree/main"),
        RepoUrlType::GithubTreeish
    );
}

#[test]
fn other_service_url() {
    assert_eq!(
        parse_repo_url_type("https://gitlab.com/foo/bar"),
        RepoUrlType::OtherServiceRepository
    );
}

#[test]
fn non_url_is_invalid() {
    assert_eq!(parse_repo_url_type("not a url"), RepoUrlType::InvalidUrl);
}

#[test]
fn www_github_host_is_github() {
    assert_eq!(
        parse_repo_url_type("https://www.github.com/foo/bar"),
        RepoUrlType::GithubRepository
    );
}

#[test]
fn uppercase_github_host_is_normalized_by_parsing() {
    assert_eq!(
        parse_repo_url_type("https://GITHUB.com/foo/bar"),
        RepoUrlType::GithubRepository
    );
}

#[test]
fn only_repository_categories_are_accepted() {
    assert!(url_type_is_accepted(&RepoUrlType::GithubRepository));
    assert!(url_type_is_accepted(&RepoUrlType::OtherServiceRepository));
    assert!(!url_type_is_accepted(&RepoUrlType::GithubUnnormalized));
    assert!(!url_type_is_accepted(&RepoUrlType::GithubUserOrOrganization));
    assert!(!url_type_is_accepted(&RepoUrlType::GithubTreeish));
    assert!(!url_type_is_accepted(&RepoUrlType::InvalidUrl));
}
