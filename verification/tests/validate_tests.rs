use crypto_ecosystems::errors::ValidationError;
use crypto_ecosystems::graph::{build_graph, TaxonomyGraph};
use crypto_ecosystems::model::{Ecosystem, Repo};
use crypto_ecosystems::urls::RepoUrlType;
use crypto_ecosystems::validate::{validate_ecosystems, validate_records};

fn ecosystem(title: &str) -> Ecosystem {
    Ecosystem {
        title: title.to_string(),
        github_organizations: None,
        sub_ecosystems: None,
        repo: None,
    }
}

fn repo(url: &str) -> Repo {
    Repo { url: url.to_string(), tags: None, missing: None }
}

#[test]
fn missing_subecosystem_is_flagged() {
    let mut alpha = ecosystem("Alpha");
    alpha.sub_ecosystems = Some(vec!["Beta".to_string()]);
    let graph = TaxonomyGraph { ecosystems: vec![alpha] };
    let stats = validate_ecosystems(&graph);
    assert_eq!(stats.errors.len(), 1);
    assert_eq!(
        stats.errors[0],
        ValidationError::MissingSubecosystem {
            parent: "Alpha".to_string(),
            child: "Beta".to_string(),
        }
    );
}

#[test]
fn present_subecosystem_is_not_flagged() {
    let mut alpha = ecosystem("Alpha");
    alpha.sub_ecosystems = Some(vec!["Beta".to_string()]);
    let mut beta = ecosystem("Beta");
    beta.github_organizations = Some(vec!["org".to_string()]);
    let graph = TaxonomyGraph { ecosystems: vec![alpha, beta] };
    let stats = validate_ecosystems(&graph);
    assert_eq!(stats.errors, vec![]);
}

#[test]
fn case_insensitive_duplicate_url_is_flagged_once() {
    let mut eco = ecosystem("Alpha");
    eco.repo = Some(vec![
        repo("https://github.com/a/b"),
        repo("https://GITHUB.com/a/b"),
    ]);
    let graph = TaxonomyGraph { ecosystems: vec![eco] };
    let stats = validate_ecosystems(&graph);
    assert_eq!(stats.errors.len(), 1);
    assert_eq!(
        stats.errors[0],
        ValidationError::DuplicateRepoUrl("https://GITHUB.com/a/b".to_string())
    );
}

#[test]
fn duplicates_across_ecosystems_are_allowed() {
    let mut a = ecosystem("Alpha");
    a.repo = Some(vec![repo("https://github.com/a/b")]);
    let mut b = ecosystem("Beta");
    b.repo = Some(vec![repo("https://github.com/a/b")]);
    let graph = TaxonomyGraph { ecosystems: vec![a, b] };
    let stats = validate_ecosystems(&graph);
    assert_eq!(stats.errors, vec![]);
    assert_eq!(stats.repo_count, 1);
}

#[test]
fn sorted_unique_repos_draw_no_repo_complaints() {
    let mut eco = ecosystem("Alpha");
    eco.repo = Some(vec![
        repo("https://github.com/a/a"),
        repo("https://github.com/a/b"),
        repo("https://gitlab.com/a/c"),
    ]);
    let graph = TaxonomyGraph { ecosystems: vec![eco] };
    let stats = validate_ecosystems(&graph);
    assert_eq!(stats.errors, vec![]);
}

#[test]
fn unsorted_repos_are_flagged_with_a_repo_diff() {
    let mut eco = ecosystem("Alpha");
    eco.repo = Some(vec![
        repo("https://github.com/a/b"),
        repo("https://github.com/a/a"),
    ]);
    let graph = TaxonomyGraph { ecosystems: vec![eco] };
    let stats = validate_ecosystems(&graph);
    assert_eq!(stats.errors.len(), 1);
    match &stats.errors[0] {
        ValidationError::UnsortedEcosystem(u) => {
            assert_eq!(u.ecosystem, "Alpha");
            assert!(u.repo_diff.is_some());
            assert_eq!(u.sub_eco_diff, None);
            assert_eq!(u.github_org_diff, None);
        }
        other => panic!("expected an unsorted-data error, got {:?}", other),
    }
}

#[test]
fn one_unsorted_error_aggregates_all_sections() {
    let mut eco = ecosystem("Alpha");
    eco.sub_ecosystems = Some(vec!["Zeta".to_string(), "Beta".to_string()]);
    eco.github_organizations = Some(vec!["zorg".to_string(), "aorg".to_string()]);
    let mut zeta = ecosystem("Zeta");
    zeta.github_organizations = Some(vec!["z".to_string()]);
    let mut beta = ecosystem("Beta");
    beta.github_organizations = Some(vec!["b".to_string()]);
    let graph = TaxonomyGraph { ecosystems: vec![eco, zeta, beta] };
    let stats = validate_ecosystems(&graph);
    assert_eq!(stats.errors.len(), 1);
    match &stats.errors[0] {
        ValidationError::UnsortedEcosystem(u) => {
            assert!(u.sub_eco_diff.is_some());
            assert!(u.github_org_diff.is_some());
            assert_eq!(u.repo_diff, None);
        }
        other => panic!("expected an unsorted-data error, got {:?}", other),
    }
}

#[test]
fn empty_ecosystem_is_flagged() {
    let graph = TaxonomyGraph { ecosystems: vec![ecosystem("Hollow")] };
    let stats = validate_ecosystems(&graph);
    assert_eq!(stats.errors.len(), 1);
    assert_eq!(
        stats.errors[0],
        ValidationError::EmptyEcosystem("Hollow".to_string())
    );
}

#[test]
fn invalid_url_categories_are_flagged() {
    let mut eco = ecosystem("Alpha");
    eco.repo = Some(vec![repo("not a url")]);
    let graph = TaxonomyGraph { ecosystems: vec![eco] };
    let stats = validate_ecosystems(&graph);
    assert_eq!(stats.errors.len(), 1);
    assert_eq!(
        stats.errors[0],
        ValidationError::InvalidRepoUrl {
            url: "not a url".to_string(),
            url_type: RepoUrlType::InvalidUrl,
        }
    );
}

#[test]
fn trailing_slash_url_is_flagged_as_unnormalized() {
    let mut eco = ecosystem("Alpha");
    eco.repo = Some(vec![repo("https://github.com/a/b/")]);
    let graph = TaxonomyGraph { ecosystems: vec![eco] };
    let stats = validate_ecosystems(&graph);
    assert_eq!(stats.errors.len(), 1);
    assert_eq!(
        stats.errors[0],
        ValidationError::InvalidRepoUrl {
            url: "https://github.com/a/b/".to_string(),
            url_type: RepoUrlType::GithubUnnormalized,
        }
    );
}

#[test]
fn validation_is_deterministic() {
    let mut eco = ecosystem("Alpha");
    eco.sub_ecosystems = Some(vec!["Gone".to_string()]);
    eco.repo = Some(vec![
        repo("https://github.com/a/b/"),
        repo("https://github.com/a/a"),
    ]);
    let graph = TaxonomyGraph { ecosystems: vec![eco] };
    let first = validate_ecosystems(&graph);
    let second = validate_ecosystems(&graph);
    assert_eq!(first.errors, second.errors);
    assert_eq!(first.ecosystem_count, second.ecosystem_count);
    assert_eq!(first.repo_count, second.repo_count);
    assert_eq!(first.missing_count, second.missing_count);
}

#[test]
fn summary_counts_cover_the_whole_graph() {
    let mut a = ecosystem("Alpha");
    a.repo = Some(vec![
        repo("https://github.com/a/a"),
        Repo {
            url: "https://github.com/a/b".to_string(),
            tags: None,
            missing: Some(true),
        },
    ]);
    let mut b = ecosystem("Beta");
    b.repo = Some(vec![
        repo("https://github.com/a/a"),
        Repo {
            url: "https://github.com/b/b".to_string(),
            tags: None,
            missing: Some(true),
        },
    ]);
    let graph = TaxonomyGraph { ecosystems: vec![a, b] };
    let stats = validate_ecosystems(&graph);
    assert_eq!(stats.ecosystem_count, 2);
    assert_eq!(stats.repo_count, 3);
    assert_eq!(stats.missing_count, 2);
}

#[test]
fn title_whitespace_is_flagged_against_the_file() {
    let mut eco = ecosystem(" Alpha");
    eco.github_organizations = Some(vec!["org".to_string()]);
    let (graph, errors) = build_graph(vec![("a/alpha.toml".to_string(), eco)]);
    assert_eq!(errors.len(), 1);
    assert_eq!(
        errors[0],
        ValidationError::TitleError("a/alpha.toml".to_string())
    );
    assert_eq!(graph.ecosystems.len(), 1);
    assert_eq!(graph.ecosystems[0].title, " Alpha");
}

#[test]
fn later_record_replaces_an_earlier_one_of_the_same_title() {
    let mut first = ecosystem("Alpha");
    first.github_organizations = Some(vec!["old".to_string()]);
    let mut second = ecosystem("Alpha");
    second.github_organizations = Some(vec!["new".to_string()]);
    let (graph, errors) = build_graph(vec![
        ("one.toml".to_string(), first),
        ("two.toml".to_string(), second),
    ]);
    assert_eq!(errors, vec![]);
    assert_eq!(graph.ecosystems.len(), 1);
    assert_eq!(
        graph.ecosystems[0].github_organizations,
        Some(vec!["new".to_string()])
    );
}

#[test]
fn validate_records_reports_title_errors_after_graph_errors() {
    let mut spaced = ecosystem("Spaced ");
    spaced.sub_ecosystems = Some(vec!["Gone".to_string()]);
    let (_, stats) = validate_records(vec![("s.toml".to_string(), spaced)]);
    assert_eq!(stats.errors.len(), 2);
    assert_eq!(
        stats.errors[0],
        ValidationError::MissingSubecosystem {
            parent: "Spaced ".to_string(),
            child: "Gone".to_string(),
        }
    );
    assert_eq!(stats.errors[1], ValidationError::TitleError("s.toml".to_string()));
}

#[test]
fn unset_missing_flags_are_not_counted() {
    let mut eco = ecosystem("Alpha");
    eco.repo = Some(vec![
        Repo {
            url: "https://github.com/a/a".to_string(),
            tags: None,
            missing: Some(false),
        },
        Repo {
            url: "https://github.com/a/b".to_string(),
            tags: None,
            missing: None,
        },
    ]);
    let graph = TaxonomyGraph { ecosystems: vec![eco] };
    let stats = validate_ecosystems(&graph);
    assert_eq!(stats.missing_count, 0);
}

#[test]
fn errors_come_in_graph_order() {
    let mut first = ecosystem("First");
    first.sub_ecosystems = Some(vec!["Gone".to_string()]);
    let second = ecosystem("Second");
    let graph = TaxonomyGraph { ecosystems: vec![first, second] };
    let stats = validate_ecosystems(&graph);
    assert_eq!(stats.errors.len(), 2);
    assert_eq!(
        stats.errors[0],
        ValidationError::MissingSubecosystem {
            parent: "First".to_string(),
            child: "Gone".to_string(),
        }
    );
    assert_eq!(
        stats.errors[1],
        ValidationError::EmptyEcosystem("Second".to_string())
    );
}

#[test]
fn sub_references_match_the_title_as_written() {
    let mut spaced = ecosystem(" Alpha");
    spaced.github_organizations = Some(vec!["org".to_string()]);
    let mut referrer = ecosystem("Referrer");
    referrer.sub_ecosystems = Some(vec!["Alpha".to_string()]);
    let graph = TaxonomyGraph { ecosystems: vec![spaced, referrer] };
    let stats = validate_ecosystems(&graph);
    assert_eq!(stats.errors.len(), 1);
    assert_eq!(
        stats.errors[0],
        ValidationError::MissingSubecosystem {
            parent: "Referrer".to_string(),
            child: "Alpha".to_string(),
        }
    );
}

#[test]
fn rendered_messages_are_stable() {
    let missing = ValidationError::MissingSubecosystem {
        parent: "Alpha".to_string(),
        child: "Beta".to_string(),
    };
    assert_eq!(missing.render(), "Invalid subecosystem for Alpha -> Beta\n");

    let dup = ValidationError::DuplicateRepoUrl("https://x.example/r".to_string());
    assert_eq!(dup.render(), "Duplicate repo URL: https://x.example/r\n");

    let title = ValidationError::TitleError("f.toml".to_string());
    assert_eq!(
        title.render(),
        "Title with leading/trailing space found in file: f.toml. Please remove the space(s) from your title.\n"
    );

    let empty = ValidationError::EmptyEcosystem("Hollow".to_string());
    assert_eq!(
        empty.render(),
        "Ecosystem in file Hollow has neither organizations nor sub-ecosystems. Please remove this. You can add it back later when/if you find its orgs / repos.\n"
    );

    let unnormalized = ValidationError::InvalidRepoUrl {
        url: "https://github.com/a/b/".to_string(),
        url_type: RepoUrlType::GithubUnnormalized,
    };
    assert_eq!(
        unnormalized.render(),
        "Invalid repo URL: https://github.com/a/b/ in repo section. Please remove the trailing slash for 'https://github.com/a/b/'.\n"
    );

    let invalid = ValidationError::InvalidRepoUrl {
        url: "nope".to_string(),
        url_type: RepoUrlType::InvalidUrl,
    };
    assert_eq!(invalid.render(), "Invalid repo URL: nope in repo section.\n");
}

#[test]
fn unsorted_error_renders_each_out_of_order_section() {
    let mut eco = ecosystem("Alpha");
    eco.github_organizations = Some(vec!["zorg".to_string(), "aorg".to_string()]);
    let graph = TaxonomyGraph { ecosystems: vec![eco] };
    let stats = validate_ecosystems(&graph);
    assert_eq!(stats.errors.len(), 1);
    let text = stats.errors[0].render();
    assert!(text.starts_with(
        "Alpha has the following unsorted data.  You can fix it by moving the entries to the specified locations below\n"
    ));
    assert!(text.contains("Github Orgs\n"));
    assert!(!text.contains("Sub ecosystems"));
    assert!(!text.contains("Repos\n"));
}
