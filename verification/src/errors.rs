//! The validation error variants and their stable, user-displayable
//! rendering.

use vstd::prelude::*;
use crate::urls::RepoUrlType;

verus! {

/// The unsorted sections of one ecosystem: for each of the three
/// orderable lists, the remediation diff where that list is out of
/// canonical order.
#[derive(Debug, PartialEq, Eq)]
pub struct UnsortedEcosystem {
    pub ecosystem: String,
    pub repo_diff: Option<String>,
    pub sub_eco_diff: Option<String>,
    pub github_org_diff: Option<String>,
}

/// Mathematical image of an `UnsortedEcosystem`.
pub struct UnsortedEcosystemView {
    pub ecosystem: Seq<char>,
    pub repo_diff: Option<Seq<char>>,
    pub sub_eco_diff: Option<Seq<char>>,
    pub github_org_diff: Option<Seq<char>>,
}

impl View for UnsortedEcosystem {
    type V = UnsortedEcosystemView;

    open spec fn view(&self) -> UnsortedEcosystemView {
        UnsortedEcosystemView {
            ecosystem: self.ecosystem@,
            repo_diff: self.repo_diff.deep_view(),
            sub_eco_diff: self.sub_eco_diff.deep_view(),
            github_org_diff: self.github_org_diff.deep_view(),
        }
    }
}

/// One defect found by validation, with the context a human-readable
/// message needs.
#[derive(Debug, PartialEq, Eq)]
pub enum ValidationError {
    MissingSubecosystem { parent: String, child: String },
    DuplicateRepoUrl(String),
    TitleError(String),
    EmptyEcosystem(String),
    UnsortedEcosystem(UnsortedEcosystem),
    InvalidRepoUrl { url: String, url_type: RepoUrlType },
}

/// Mathematical image of a `ValidationError`.
pub enum ValidationErrorView {
    MissingSubecosystem { parent: Seq<char>, child: Seq<char> },
    DuplicateRepoUrl(Seq<char>),
    TitleError(Seq<char>),
    EmptyEcosystem(Seq<char>),
    UnsortedEcosystem(UnsortedEcosystemView),
    InvalidRepoUrl { url: Seq<char>, url_type: RepoUrlType },
}

impl View for ValidationError {
    type V = ValidationErrorView;

    open spec fn view(&self) -> ValidationErrorView {
        match self {
            ValidationError::MissingSubecosystem { parent, child } => (
            ValidationErrorView::MissingSubecosystem { parent: parent@, child: child@ }),
            ValidationError::DuplicateRepoUrl(url) => ValidationErrorView::DuplicateRepoUrl(url@),
            ValidationError::TitleError(file) => ValidationErrorView::TitleError(file@),
            ValidationError::EmptyEcosystem(title) => ValidationErrorView::EmptyEcosystem(title@),
            ValidationError::UnsortedEcosystem(u) => ValidationErrorView::UnsortedEcosystem(u@),
            ValidationError::InvalidRepoUrl { url, url_type } => (
            ValidationErrorView::InvalidRepoUrl { url: url@, url_type: *url_type }),
        }
    }
}

impl DeepView for ValidationError {
    type V = ValidationErrorView;

    open spec fn deep_view(&self) -> ValidationErrorView {
        self@
    }
}

/// The rendering of the three optional sections of an unsorted-data
/// message.
pub open spec fn spec_render_section(heading: Seq<char>, diff: Option<Seq<char>>) -> Seq<char> {
    match diff {
        Some(d) => heading + seq!['\n'] + d + seq!['\n'] + seq!['\n'],
        None => Seq::empty(),
    }
}

/// The message rendered for one validation error: one line per defect,
/// and for unsorted data one block per out-of-order section.
pub open spec fn spec_render(e: ValidationErrorView) -> Seq<char> {
    match e {
        ValidationErrorView::MissingSubecosystem { parent, child } => "Invalid subecosystem for "@
            + parent + " -> "@ + child + seq!['\n'],
        ValidationErrorView::DuplicateRepoUrl(url) => "Duplicate repo URL: "@ + url + seq!['\n'],
        ValidationErrorView::TitleError(file) => (
        "Title with leading/trailing space found in file: "@ + file
            + ". Please remove the space(s) from your title."@ + seq!['\n']),
        ValidationErrorView::EmptyEcosystem(title) => "Ecosystem in file "@ + title
            + " has neither organizations nor sub-ecosystems. Please remove this. You can add it back later when/if you find its orgs / repos."@
            + seq!['\n'],
        ValidationErrorView::UnsortedEcosystem(u) => u.ecosystem
            + " has the following unsorted data.  You can fix it by moving the entries to the specified locations below"@
            + seq!['\n'] + spec_render_section("Sub ecosystems"@, u.sub_eco_diff)
            + spec_render_section("Github Orgs"@, u.github_org_diff) + spec_render_section(
            "Repos"@,
            u.repo_diff,
        ),
        ValidationErrorView::InvalidRepoUrl { url, url_type } => match url_type {
            RepoUrlType::GithubUnnormalized => "Invalid repo URL: "@ + url
                + " in repo section. Please remove the trailing slash for '"@ + url + "'."@
                + seq!['\n'],
            RepoUrlType::GithubUserOrOrganization => "Invalid repo URL: "@ + url
                + " in repo section. Please specify a github repository instead of a user or organization."@
                + seq!['\n'],
            RepoUrlType::GithubTreeish => "Invalid repo URL: "@ + url
                + " in repo section. Please remove excess parts of the path like tree or master and use the canonical github repo name."@
                + seq!['\n'],
            RepoUrlType::InvalidUrl => "Invalid repo URL: "@ + url + " in repo section."@
                + seq!['\n'],
            _ => Seq::empty(),
        },
    }
}

impl ValidationError {
    /// Renders the error as the stable text shown to a user.
    pub fn render(&self) -> (r: String)
        ensures
            r@ == spec_render(self@),
    {
        proof {
            reveal_strlit("\n");
        }
        let mut out = String::new();
        match self {
            ValidationError::MissingSubecosystem { parent, child } => {
                out.append("Invalid subecosystem for ");
                out.append(parent.as_str());
                out.append(" -> ");
                out.append(child.as_str());
                out.append("\n");
            },
            ValidationError::DuplicateRepoUrl(url) => {
                out.append("Duplicate repo URL: ");
                out.append(url.as_str());
                out.append("\n");
            },
            ValidationError::TitleError(file) => {
                out.append("Title with leading/trailing space found in file: ");
                out.append(file.as_str());
                out.append(". Please remove the space(s) from your title.");
                out.append("\n");
            },
            ValidationError::EmptyEcosystem(title) => {
                out.append("Ecosystem in file ");
                out.append(title.as_str());
                out.append(
                    " has neither organizations nor sub-ecosystems. Please remove this. You can add it back later when/if you find its orgs / repos.",
                );
                out.append("\n");
            },
            ValidationError::UnsortedEcosystem(u) => {
                out.append(u.ecosystem.as_str());
                out.append(
                    " has the following unsorted data.  You can fix it by moving the entries to the specified locations below",
                );
                out.append("\n");
                match &u.sub_eco_diff {
                    Some(d) => {
                        out.append("Sub ecosystems");
                        out.append("\n");
                        out.append(d.as_str());
                        out.append("\n");
                        out.append("\n");
                    },
                    None => {},
                }
                match &u.github_org_diff {
                    Some(d) => {
                        out.append("Github Orgs");
                        out.append("\n");
                        out.append(d.as_str());
                        out.append("\n");
                        out.append("\n");
                    },
                    None => {},
                }
                match &u.repo_diff {
                    Some(d) => {
                        out.append("Repos");
                        out.append("\n");
                        out.append(d.as_str());
                        out.append("\n");
                        out.append("\n");
                    },
                    None => {},
                }
            },
            ValidationError::InvalidRepoUrl { url, url_type } => {
                match url_type {
                    RepoUrlType::GithubUnnormalized => {
                        out.append("Invalid repo URL: ");
                        out.append(url.as_str());
                        out.append(" in repo section. Please remove the trailing slash for '");
                        out.append(url.as_str());
                        out.append("'.");
                        out.append("\n");
                    },
                    RepoUrlType::GithubUserOrOrganization => {
                        out.append("Invalid repo URL: ");
                        out.append(url.as_str());
                        out.append(
                            " in repo section. Please specify a github repository instead of a user or organization.",
                        );
                        out.append("\n");
                    },
                    RepoUrlType::GithubTreeish => {
                        out.append("Invalid repo URL: ");
                        out.append(url.as_str());
                        out.append(
                            " in repo section. Please remove excess parts of the path like tree or master and use the canonical github repo name.",
                        );
                        out.append("\n");
                    },
                    RepoUrlType::InvalidUrl => {
                        out.append("Invalid repo URL: ");
                        out.append(url.as_str());
                        out.append(" in repo section.");
                        out.append("\n");
                    },
                    _ => {},
                }
            },
        }
        proof {
            assert(out@ =~= spec_render(self@));
        }
        out
    }
}

} // verus!
