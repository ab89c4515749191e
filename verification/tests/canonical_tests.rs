use crypto_ecosystems::canonical::{canonical_path, canonical_text, canonicalize, sort_plan};
use crypto_ecosystems::export::repos_by_ecosystem;
use crypto_ecosystems::graph::TaxonomyGraph;
use crypto_ecosystems::model::{Ecosystem, Repo};

fn reparse(text: &str) -> Ecosystem {
    let v: toml::Value = toml::from_str(text).unwrap();
    let title = v.get("title").unwrap().as_str().unwrap().to_string();
    let strings = |key: &str| -> Option<Vec<String>> {
        v.get(key).map(|x| {
            x.as_array()
                .unwrap()
                .iter()
                .map(|s| s.as_str().unwrap().to_string())
                .collect()
        })
    };
    let repo = v.get("repo").map(|x| {
        x.as_array()
            .unwrap()
            .iter()
            .map(|r| Repo {
                url: r.get("url").unwrap().as_str().unwrap().to_string(),
                tags: r.get("tags").map(|t| {
                    t.as_array()
                        .unwrap()
                        .iter()
                        .map(|s| s.as_str().unwrap().to_string())
                        .collect()
                }),
                missing: r.get("missing").map(|m| m.as_bool().unwrap()),
            })
            .collect::<Vec<Repo>>()
    });
    Ecosystem {
        title,
        github_organizations: strings("github_organizations"),
        sub_ecosystems: strings("sub_ecosystems"),
        repo,
    }
}

#[test]
fn path_is_bucketed_by_slug() {
    assert_eq!(
        canonical_path("Some Eco"),
        Some("ecosystems/s/some-eco.toml".to_string())
    );
    assert_eq!(
        canonical_path("Zeta"),
        Some("ecosystems/z/zeta.toml".to_string())
    );
}

#[test]
fn empty_slug_has_no_path() {
    assert_eq!(canonical_path("!!!"), None);
}

#[test]
fn canonical_text_has_the_fixed_layout() {
    let eco = Ecosystem {
        title: "Zeta".to_string(),
        github_organizations: Some(vec!["beta".to_string(), "Alpha".to_string()]),
        sub_ecosystems: None,
        repo: Some(vec![
            Repo {
                url: "https://github.com/z/b".to_string(),
                tags: None,
                missing: None,
            },
            Repo {
                url: "https://github.com/z/A".to_string(),
                tags: Some(vec!["x".to_string()]),
                missing: Some(true),
            },
        ]),
    };
    let text = canonical_text(&eco);
    let expected = "# Ecosystem Level Information\ntitle = \"Zeta\"\n\nsub_ecosystems = []\n\ngithub_organizations = [\"Alpha\", \"beta\"]\n\n# Repositories\n[[repo]]\nurl = \"https://github.com/z/A\"\ntags = [\"x\"]\nmissing = true\n\n[[repo]]\nurl = \"https://github.com/z/b\"\n";
    assert_eq!(text, expected);
}

#[test]
fn wide_arrays_switch_to_one_element_per_line() {
    let orgs: Vec<String> = (0..5)
        .map(|i| format!("organization-number-{:02}", i))
        .collect();
    let eco = Ecosystem {
        title: "Wide".to_string(),
        github_organizations: Some(orgs),
        sub_ecosystems: None,
        repo: None,
    };
    let text = canonical_text(&eco);
    let expected_block = "github_organizations = [\n  \"organization-number-00\",\n  \"organization-number-01\",\n  \"organization-number-02\",\n  \"organization-number-03\",\n  \"organization-number-04\",\n]\n\n";
    assert!(text.contains(expected_block));
}

#[test]
fn exact_duplicates_are_collapsed_to_one_entry() {
    let eco = Ecosystem {
        title: "Dup".to_string(),
        github_organizations: None,
        sub_ecosystems: None,
        repo: Some(vec![
            Repo {
                url: "https://github.com/d/r".to_string(),
                tags: None,
                missing: None,
            },
            Repo {
                url: "https://GITHUB.com/d/r".to_string(),
                tags: None,
                missing: None,
            },
        ]),
    };
    let text = canonical_text(&eco);
    assert_eq!(text.matches("[[repo]]").count(), 1);
    assert!(text.ends_with("url = \"https://github.com/d/r\"\n"));
}

#[test]
fn canonicalizing_the_reparsed_canonical_text_changes_nothing() {
    let eco = Ecosystem {
        title: "Round Trip".to_string(),
        github_organizations: Some(vec!["zorg".to_string(), "aorg".to_string()]),
        sub_ecosystems: Some(vec!["Beta".to_string(), "Alpha".to_string()]),
        repo: Some(vec![
            Repo {
                url: "https://github.com/r/z".to_string(),
                tags: Some(vec![]),
                missing: Some(false),
            },
            Repo {
                url: "https://github.com/r/a".to_string(),
                tags: Some(vec!["t".to_string()]),
                missing: Some(true),
            },
        ]),
    };
    let (path, text) = canonicalize(&eco).unwrap();
    let reparsed = reparse(&text);
    let (path2, text2) = canonicalize(&reparsed).unwrap();
    assert_eq!(path, path2);
    assert_eq!(text, text2);
}

#[test]
fn collapsed_duplicates_still_round_trip_byte_identically() {
    let eco = Ecosystem {
        title: "Dup Trip".to_string(),
        github_organizations: None,
        sub_ecosystems: None,
        repo: Some(vec![
            Repo {
                url: "https://github.com/d/r".to_string(),
                tags: None,
                missing: None,
            },
            Repo {
                url: "https://GITHUB.com/d/r".to_string(),
                tags: None,
                missing: None,
            },
            Repo {
                url: "https://github.com/d/s".to_string(),
                tags: None,
                missing: None,
            },
        ]),
    };
    let (path, text) = canonicalize(&eco).unwrap();
    let reparsed = reparse(&text);
    let (path2, text2) = canonicalize(&reparsed).unwrap();
    assert_eq!(path, path2);
    assert_eq!(text, text2);
    assert_eq!(text.matches("[[repo]]").count(), 2);
}

#[test]
fn canonicalize_fails_only_on_an_empty_slug() {
    let eco = Ecosystem {
        title: "!!!".to_string(),
        github_organizations: None,
        sub_ecosystems: None,
        repo: None,
    };
    assert_eq!(canonicalize(&eco), None);
}

#[test]
fn sort_plan_rewrites_exactly_the_unsorted_ecosystems() {
    let unsorted = Ecosystem {
        title: "Messy".to_string(),
        github_organizations: Some(vec!["z".to_string(), "a".to_string()]),
        sub_ecosystems: None,
        repo: None,
    };
    let sorted = Ecosystem {
        title: "Tidy".to_string(),
        github_organizations: Some(vec!["a".to_string(), "z".to_string()]),
        sub_ecosystems: None,
        repo: None,
    };
    let graph = TaxonomyGraph { ecosystems: vec![unsorted, sorted] };
    let plan = sort_plan(&graph);
    assert_eq!(plan.len(), 1);
    assert_eq!(plan[0].0, "Messy");
    let (path, text) = plan[0].1.clone().unwrap();
    assert_eq!(path, "ecosystems/m/messy.toml");
    assert!(text.contains("github_organizations = [\"a\", \"z\"]\n"));
}

#[test]
fn absent_fields_render_as_empty_arrays() {
    let eco = Ecosystem {
        title: "Bare".to_string(),
        github_organizations: None,
        sub_ecosystems: None,
        repo: None,
    };
    let text = canonical_text(&eco);
    assert!(text.contains("sub_ecosystems = []\n"));
    assert!(text.contains("github_organizations = []\n"));
    assert!(text.ends_with("# Repositories\n"));
}

#[test]
fn sort_plan_reports_a_slugless_title_without_a_path() {
    let eco = Ecosystem {
        title: "!!!".to_string(),
        github_organizations: Some(vec!["z".to_string(), "a".to_string()]),
        sub_ecosystems: None,
        repo: None,
    };
    let graph = TaxonomyGraph { ecosystems: vec![eco] };
    let plan = sort_plan(&graph);
    assert_eq!(plan.len(), 1);
    assert_eq!(plan[0].0, "!!!");
    assert_eq!(plan[0].1, None);
}

#[test]
fn repos_export_lists_urls_per_titled_ecosystem() {
    let with_repos = Ecosystem {
        title: "Alpha".to_string(),
        github_organizations: None,
        sub_ecosystems: None,
        repo: Some(vec![
            Repo {
                url: "https://github.com/a/b".to_string(),
                tags: None,
                missing: None,
            },
            Repo {
                url: "https://github.com/a/a".to_string(),
                tags: None,
                missing: None,
            },
        ]),
    };
    let without = Ecosystem {
        title: "Bare".to_string(),
        github_organizations: Some(vec!["org".to_string()]),
        sub_ecosystems: None,
        repo: None,
    };
    let graph = TaxonomyGraph { ecosystems: vec![with_repos, without] };
    let pairs = repos_by_ecosystem(&graph);
    assert_eq!(pairs.len(), 1);
    assert_eq!(pairs[0].0, "Alpha");
    assert_eq!(
        pairs[0].1,
        vec![
            "https://github.com/a/b".to_string(),
            "https://github.com/a/a".to_string(),
        ]
    );
}
