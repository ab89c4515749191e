//! The record model: one ecosystem with its sub-ecosystem references,
//! organization identifiers and repository entries, together with the
//! mathematical views that the contracts speak of.

use vstd::prelude::*;

verus! {

/// One source-code repository entry of an ecosystem record.
#[derive(Debug, PartialEq, Eq)]
pub struct Repo {
    pub url: String,
    pub tags: Option<Vec<String>>,
    pub missing: Option<bool>,
}

/// Mathematical image of a `Repo`.
pub struct RepoView {
    pub url: Seq<char>,
    pub tags: Option<Seq<Seq<char>>>,
    pub missing: Option<bool>,
}

impl View for Repo {
    type V = RepoView;

    open spec fn view(&self) -> RepoView {
        RepoView { url: self.url@, tags: self.tags.deep_view(), missing: self.missing }
    }
}

impl DeepView for Repo {
    type V = RepoView;

    open spec fn deep_view(&self) -> RepoView {
        self@
    }
}

/// One named ecosystem record: a node of the taxonomy.
#[derive(Debug, PartialEq, Eq)]
pub struct Ecosystem {
    pub title: String,
    pub github_organizations: Option<Vec<String>>,
    pub sub_ecosystems: Option<Vec<String>>,
    pub repo: Option<Vec<Repo>>,
}

/// Mathematical image of an `Ecosystem`.
pub struct EcosystemView {
    pub title: Seq<char>,
    pub github_organizations: Option<Seq<Seq<char>>>,
    pub sub_ecosystems: Option<Seq<Seq<char>>>,
    pub repo: Option<Seq<RepoView>>,
}

impl View for Ecosystem {
    type V = EcosystemView;

    open spec fn view(&self) -> EcosystemView {
        EcosystemView {
            title: self.title@,
            github_organizations: self.github_organizations.deep_view(),
            sub_ecosystems: self.sub_ecosystems.deep_view(),
            repo: self.repo.deep_view(),
        }
    }
}

impl DeepView for Ecosystem {
    type V = EcosystemView;

    open spec fn deep_view(&self) -> EcosystemView {
        self@
    }
}

/// The sub-ecosystem titles of `e`, an empty sequence where the field
/// is absent.
pub open spec fn subs_of(e: EcosystemView) -> Seq<Seq<char>> {
    match e.sub_ecosystems {
        Some(s) => s,
        None => Seq::empty(),
    }
}

/// The organization identifiers of `e`, an empty sequence where the
/// field is absent.
pub open spec fn orgs_of(e: EcosystemView) -> Seq<Seq<char>> {
    match e.github_organizations {
        Some(s) => s,
        None => Seq::empty(),
    }
}

/// The repository entries of `e`, an empty sequence where the field is
/// absent.
pub open spec fn repos_of(e: EcosystemView) -> Seq<RepoView> {
    match e.repo {
        Some(s) => s,
        None => Seq::empty(),
    }
}

/// The URLs of a sequence of repository entries, in order.
pub open spec fn urls_of(repos: Seq<RepoView>) -> Seq<Seq<char>> {
    repos.map_values(|r: RepoView| r.url)
}

/// What `str::to_lowercase` returns; a function of the characters
/// alone.
pub uninterp spec fn lower(s: Seq<char>) -> Seq<char>;

/// Relies on `str::to_lowercase`: the Unicode lowercase form of the
/// string, a deterministic function of its characters.
#[verifier::external_body]
pub(crate) fn lower_str(s: &str) -> (r: String)
    ensures
        r@ == lower(s@),
{
    s.to_lowercase()
}

/// What `str::trim` returns; a function of the characters alone.
pub uninterp spec fn trimmed(s: Seq<char>) -> Seq<char>;

/// Relies on `str::trim`: the string with leading and trailing
/// whitespace removed, a deterministic function of its characters.
#[verifier::external_body]
pub(crate) fn trim_str(s: &str) -> (r: &str)
    ensures
        r@ == trimmed(s@),
{
    s.trim()
}

/// A title is flagged when trimming changes it, that is, when it
/// carries leading or trailing whitespace.
pub open spec fn title_has_edge_whitespace(title: Seq<char>) -> bool {
    trimmed(title) != title
}

/// Decides whether a title carries leading or trailing whitespace.
pub fn check_title_whitespace(title: &String) -> (r: bool)
    ensures
        r == title_has_edge_whitespace(title@),
{
    let trimmed_title = String::from_str(trim_str(title.as_str()));
    !(trimmed_title == *title)
}

} // verus!
