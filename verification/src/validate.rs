//! Validation of the taxonomy graph: cross-reference checks, duplicate
//! and malformed repository URLs, empty records, and canonical-order
//! checks, all accumulated — validation never stops at the first
//! defect.

use vstd::prelude::*;
use crate::diffing::find_misordered_elements_diff;
use crate::diffing::fits_diff_engine;
use crate::diffing::misordered_diff;
use crate::errors::UnsortedEcosystem;
use crate::errors::UnsortedEcosystemView;
use crate::errors::ValidationError;
use crate::errors::ValidationErrorView;
use crate::graph::TaxonomyGraph;
use crate::graph::has_title;
use crate::graph::title_index;
use crate::model::EcosystemView;
use crate::model::RepoView;
use crate::model::lower;
use crate::model::lower_str;
use crate::model::orgs_of;
use crate::model::repos_of;
use crate::model::subs_of;
use crate::model::urls_of;
use crate::urls::classify_url;
use crate::urls::parse_repo_url_type;
use crate::urls::url_type_accepted;
use crate::urls::url_type_is_accepted;

verus! {

/// The outcome of validation: summary counts and every defect found.
pub struct ValidationStats {
    pub ecosystem_count: usize,
    pub repo_count: usize,
    pub missing_count: usize,
    pub errors: Vec<ValidationError>,
}

/// The errors flagged for sub-ecosystem references of `parent` that
/// name no ecosystem of the graph, in reference order.
pub open spec fn missing_sub_errors(
    g: Seq<EcosystemView>,
    parent: Seq<char>,
    subs: Seq<Seq<char>>,
) -> Seq<ValidationErrorView>
    decreases subs.len(),
{
    if subs.len() == 0 {
        Seq::empty()
    } else {
        let prev = missing_sub_errors(g, parent, subs.drop_last());
        if !has_title(g, subs.last()) {
            prev.push(
                ValidationErrorView::MissingSubecosystem { parent: parent, child: subs.last() },
            )
        } else {
            prev
        }
    }
}

/// The lowercased URLs of the entries, as a set.
pub open spec fn lower_urls_set(repos: Seq<RepoView>) -> Set<Seq<char>>
    decreases repos.len(),
{
    if repos.len() == 0 {
        Set::empty()
    } else {
        lower_urls_set(repos.drop_last()).insert(lower(repos.last().url))
    }
}

/// The URLs of the entries, as written, as a set.
pub open spec fn urls_set_of(repos: Seq<RepoView>) -> Set<Seq<char>>
    decreases repos.len(),
{
    if repos.len() == 0 {
        Set::empty()
    } else {
        urls_set_of(repos.drop_last()).insert(repos.last().url)
    }
}

/// The errors flagged while walking one ecosystem's repository list in
/// order: an entry whose lowercased URL was seen before within the
/// same ecosystem is a duplicate, and an entry whose URL falls in a
/// rejected category is invalid.
pub open spec fn repo_errors(repos: Seq<RepoView>) -> Seq<ValidationErrorView>
    decreases repos.len(),
{
    if repos.len() == 0 {
        Seq::empty()
    } else {
        let prev = repo_errors(repos.drop_last());
        let r = repos.last();
        let with_dup = if lower_urls_set(repos.drop_last()).contains(lower(r.url)) {
            prev.push(ValidationErrorView::DuplicateRepoUrl(r.url))
        } else {
            prev
        };
        let t = classify_url(r.url);
        if !url_type_accepted(t) {
            with_dup.push(ValidationErrorView::InvalidRepoUrl { url: r.url, url_type: t })
        } else {
            with_dup
        }
    }
}

/// Every orderable list of the record fits the diff engine, whose line
/// indices are 32 bits wide; a machine limit, not a rule of the
/// taxonomy.
pub open spec fn eco_fits_diff_engine(e: EcosystemView) -> bool {
    &&& fits_diff_engine(subs_of(e))
    &&& fits_diff_engine(orgs_of(e))
    &&& fits_diff_engine(urls_of(repos_of(e)))
}

/// An ecosystem that names sub-ecosystems, organizations or
/// repositories; one that names none of the three is dead weight.
pub open spec fn has_content(e: EcosystemView) -> bool {
    subs_of(e).len() > 0 || orgs_of(e).len() > 0 || repos_of(e).len() > 0
}

/// The three canonical-order verdicts for one ecosystem: for each
/// orderable list, the remediation diff where it is out of order.
pub open spec fn unsorted_sections(e: EcosystemView) -> UnsortedEcosystemView {
    UnsortedEcosystemView {
        ecosystem: e.title,
        repo_diff: misordered_diff(urls_of(repos_of(e))),
        sub_eco_diff: misordered_diff(subs_of(e)),
        github_org_diff: misordered_diff(orgs_of(e)),
    }
}

/// Some orderable list of `e` is out of canonical order.
pub open spec fn needs_sort(e: EcosystemView) -> bool {
    let u = unsorted_sections(e);
    u.sub_eco_diff is Some || u.github_org_diff is Some || u.repo_diff is Some
}

/// All errors flagged for one ecosystem, in the order the walk finds
/// them: missing sub-ecosystem references, then the repository walk,
/// then emptiness, then at most one aggregated unsorted-data error.
pub open spec fn eco_errors(g: Seq<EcosystemView>, e: EcosystemView) -> Seq<ValidationErrorView> {
    let base = missing_sub_errors(g, e.title, subs_of(e)) + repo_errors(repos_of(e));
    let with_empty = if !has_content(e) {
        base.push(ValidationErrorView::EmptyEcosystem(e.title))
    } else {
        base
    };
    if needs_sort(e) {
        with_empty.push(ValidationErrorView::UnsortedEcosystem(unsorted_sections(e)))
    } else {
        with_empty
    }
}

/// The errors of the first `n` ecosystems, concatenated in graph
/// order.
pub open spec fn graph_errors_upto(g: Seq<EcosystemView>, n: int) -> Seq<ValidationErrorView>
    decreases n,
{
    if n <= 0 {
        Seq::empty()
    } else {
        graph_errors_upto(g, n - 1) + eco_errors(g, g[n - 1])
    }
}

/// Every error that validating the graph yields, in graph order.
pub open spec fn graph_errors(g: Seq<EcosystemView>) -> Seq<ValidationErrorView> {
    graph_errors_upto(g, g.len() as int)
}

/// The distinct repository URLs of the first `n` ecosystems.
pub open spec fn graph_urls_upto(g: Seq<EcosystemView>, n: int) -> Set<Seq<char>>
    decreases n,
{
    if n <= 0 {
        Set::empty()
    } else {
        graph_urls_upto(g, n - 1).union(urls_set_of(repos_of(g[n - 1])))
    }
}

/// How many distinct repository URLs, as written, the whole graph
/// names.
pub open spec fn spec_repo_count(g: Seq<EcosystemView>) -> nat {
    graph_urls_upto(g, g.len() as int).len()
}

/// How many entries of the list are flagged missing.
pub open spec fn missing_in(repos: Seq<RepoView>) -> nat
    decreases repos.len(),
{
    if repos.len() == 0 {
        0
    } else {
        missing_in(repos.drop_last()) + if repos.last().missing == Some(true) {
            1nat
        } else {
            0nat
        }
    }
}

/// How many repository entries of the first `n` ecosystems are flagged
/// missing.
pub open spec fn missing_upto(g: Seq<EcosystemView>, n: int) -> nat
    decreases n,
{
    if n <= 0 {
        0
    } else {
        missing_upto(g, n - 1) + missing_in(repos_of(g[n - 1]))
    }
}

/// How many repository entries of the whole graph are flagged missing.
pub open spec fn spec_missing_count(g: Seq<EcosystemView>) -> nat {
    missing_upto(g, g.len() as int)
}

/// Scans a list of strings for one with the given characters.
pub fn contains_string(v: &Vec<String>, s: &String) -> (r: bool)
    ensures
        r == v.deep_view().contains(s@),
{
    let n = v.len();
    let mut i: usize = 0;
    while i < n
        invariant
            i <= n,
            n == v@.len(),
            forall|j: int| 0 <= j < i ==> v.deep_view()[j] != s@,
        decreases n - i,
    {
        proof {
            assert(v.deep_view()[i as int] == v@[i as int]@);
        }
        if v[i] == *s {
            proof {
                assert(v.deep_view().contains(s@));
            }
            return true;
        }
        i = i + 1;
    }
    proof {
        assert(forall|j: int| 0 <= j < v.deep_view().len() ==> v.deep_view()[j] != s@);
        if v.deep_view().contains(s@) {
            let j = choose|j: int| 0 <= j < v.deep_view().len() && v.deep_view()[j] == s@;
            assert(false);
        }
    }
    false
}

/// Appending an element extends the set of a sequence by it.
pub proof fn lemma_push_to_set(v: Seq<Seq<char>>, x: Seq<char>)
    ensures
        v.push(x).to_set() == v.to_set().insert(x),
{
    broadcast use vstd::set::group_set_axioms;

    assert forall|a: Seq<char>| v.push(x).to_set().contains(a) implies v.to_set().insert(
        x,
    ).contains(a) by {
        let i = choose|i: int| 0 <= i < v.push(x).len() && v.push(x)[i] == a;
        if i < v.len() {
            assert(v[i] == a);
        }
    }
    assert forall|a: Seq<char>| v.to_set().insert(x).contains(a) implies v.push(x).to_set().contains(
        a,
    ) by {
        if a == x {
            assert(v.push(x)[v.len() as int] == a);
        } else {
            let i = choose|i: int| 0 <= i < v.len() && v[i] == a;
            assert(v.push(x)[i] == a);
        }
    }
    assert(v.push(x).to_set() =~= v.to_set().insert(x));
}

/// Walks one ecosystem's repository list once, in order: flags a
/// duplicate for every entry whose lowercased URL was seen before
/// within this ecosystem, flags every entry whose URL falls in a
/// rejected category, gathers the URLs as written into the
/// graph-wide distinct list, and counts the entries flagged missing.
fn walk_repos(repos: &Vec<crate::model::Repo>, errors: &mut Vec<ValidationError>, repo_set: &mut Vec<
    String,
>) -> (mc: usize)
    requires
        old(repo_set).deep_view().no_duplicates(),
    ensures
        final(errors).deep_view() == old(errors).deep_view() + repo_errors(repos.deep_view()),
        final(repo_set).deep_view().no_duplicates(),
        final(repo_set).deep_view().to_set() == old(repo_set).deep_view().to_set().union(
            urls_set_of(repos.deep_view()),
        ),
        mc == missing_in(repos.deep_view()),
        mc <= repos@.len(),
{
    broadcast use vstd::set::group_set_axioms;

    let ghost rv = repos.deep_view();
    let ghost base = errors.deep_view();
    let ghost base_set = repo_set.deep_view().to_set();
    let mut seen_lower: Vec<String> = Vec::new();
    let mut mc: usize = 0;
    let n = repos.len();
    let mut j: usize = 0;
    proof {
        assert(rv.take(0) =~= Seq::<RepoView>::empty());
        assert(errors.deep_view() =~= base + repo_errors(rv.take(0)));
        assert(seen_lower.deep_view().to_set() =~= lower_urls_set(rv.take(0)));
        assert(repo_set.deep_view().to_set() =~= base_set.union(urls_set_of(rv.take(0))));
    }
    while j < n
        invariant
            j <= n,
            n == repos@.len(),
            rv == repos.deep_view(),
            rv.len() == n,
            mc <= j,
            mc == missing_in(rv.take(j as int)),
            errors.deep_view() == base + repo_errors(rv.take(j as int)),
            seen_lower.deep_view().to_set() == lower_urls_set(rv.take(j as int)),
            repo_set.deep_view().no_duplicates(),
            repo_set.deep_view().to_set() == base_set.union(urls_set_of(rv.take(j as int))),
        decreases n - j,
    {
        proof {
            assert(rv[j as int] == repos@[j as int]@);
            assert(rv.take(j + 1).drop_last() =~= rv.take(j as int));
            assert(rv.take(j + 1).last() == rv[j as int]);
        }
        let repo = &repos[j];
        let low = lower_str(repo.url.as_str());
        if contains_string(&seen_lower, &low) {
            let ghost before = errors.deep_view();
            errors.push(ValidationError::DuplicateRepoUrl(repo.url.clone()));
            proof {
                assert(errors.deep_view() =~= before.push(
                    ValidationErrorView::DuplicateRepoUrl(rv[j as int].url),
                ));
                assert(lower_urls_set(rv.take(j as int)).contains(lower(rv[j as int].url)));
                assert(lower_urls_set(rv.take(j + 1)) =~= lower_urls_set(rv.take(j as int)));
            }
        } else {
            let ghost old_seen = seen_lower.deep_view();
            seen_lower.push(low);
            proof {
                assert(seen_lower.deep_view() =~= old_seen.push(lower(rv[j as int].url)));
                lemma_push_to_set(old_seen, lower(rv[j as int].url));
            }
        }
        match &repo.missing {
            Some(flag) => {
                if *flag {
                    mc = mc + 1;
                }
            },
            None => {},
        }
        if !contains_string(repo_set, &repo.url) {
            let ghost old_set = repo_set.deep_view();
            repo_set.push(repo.url.clone());
            proof {
                assert(repo_set.deep_view() =~= old_set.push(rv[j as int].url));
                lemma_push_to_set(old_set, rv[j as int].url);
                assert(repo_set.deep_view().no_duplicates()) by {
                    assert forall|k: int, l: int|
                        0 <= k < l < repo_set.deep_view().len() implies repo_set.deep_view()[k]
                        != repo_set.deep_view()[l] by {
                        if l == repo_set.deep_view().len() - 1 {
                            assert(old_set.contains(old_set[k]));
                        }
                    }
                }
                assert(repo_set.deep_view().to_set() =~= base_set.union(
                    urls_set_of(rv.take(j + 1)),
                ));
            }
        } else {
            proof {
                assert(repo_set.deep_view().to_set().contains(rv[j as int].url));
                assert(repo_set.deep_view().to_set() =~= base_set.union(
                    urls_set_of(rv.take(j + 1)),
                ));
            }
        }
        let url_type = parse_repo_url_type(repo.url.as_str());
        if !url_type_is_accepted(&url_type) {
            let ghost before = errors.deep_view();
            let ghost t = classify_url(rv[j as int].url);
            errors.push(ValidationError::InvalidRepoUrl { url: repo.url.clone(), url_type });
            proof {
                assert(errors.deep_view() =~= before.push(
                    ValidationErrorView::InvalidRepoUrl { url: rv[j as int].url, url_type: t },
                ));
            }
        }
        proof {
            assert(errors.deep_view() =~= base + repo_errors(rv.take(j + 1)));
        }
        j = j + 1;
    }
    proof {
        assert(rv.take(n as int) =~= rv);
    }
    mc
}

/// Flags every sub-ecosystem reference of `title` that names no
/// ecosystem of the graph.
fn walk_subs(
    ecosystems: &Vec<crate::model::Ecosystem>,
    title: &String,
    subs: &Vec<String>,
    errors: &mut Vec<ValidationError>,
)
    ensures
        final(errors).deep_view() == old(errors).deep_view() + missing_sub_errors(
            ecosystems.deep_view(),
            title@,
            subs.deep_view(),
        ),
{
    let ghost g = ecosystems.deep_view();
    let ghost sv = subs.deep_view();
    let ghost base = errors.deep_view();
    let n = subs.len();
    let mut j: usize = 0;
    proof {
        assert(sv.take(0) =~= Seq::<Seq<char>>::empty());
        assert(errors.deep_view() =~= base + missing_sub_errors(g, title@, sv.take(0)));
    }
    while j < n
        invariant
            j <= n,
            n == subs@.len(),
            g == ecosystems.deep_view(),
            sv == subs.deep_view(),
            sv.len() == n,
            errors.deep_view() == base + missing_sub_errors(g, title@, sv.take(j as int)),
        decreases n - j,
    {
        proof {
            assert(sv[j as int] == subs@[j as int]@);
            assert(sv.take(j + 1).drop_last() =~= sv.take(j as int));
            assert(sv.take(j + 1).last() == sv[j as int]);
        }
        let found = title_index(ecosystems, &subs[j]);
        match found {
            None => {
                let ghost before = errors.deep_view();
                errors.push(
                    ValidationError::MissingSubecosystem {
                        parent: title.clone(),
                        child: subs[j].clone(),
                    },
                );
                proof {
                    assert(errors.deep_view() =~= before.push(
                        ValidationErrorView::MissingSubecosystem {
                            parent: title@,
                            child: sv[j as int],
                        },
                    ));
                }
            },
            Some(_) => {},
        }
        proof {
            assert(errors.deep_view() =~= base + missing_sub_errors(g, title@, sv.take(j + 1)));
        }
        j = j + 1;
    }
    proof {
        assert(sv.take(n as int) =~= sv);
    }
}

/// Clones the URLs of the repository entries, in order.
pub fn collect_urls(repos: &Vec<crate::model::Repo>) -> (urls: Vec<String>)
    ensures
        urls.deep_view() == urls_of(repos.deep_view()),
{
    let mut urls: Vec<String> = Vec::new();
    let n = repos.len();
    let mut j: usize = 0;
    while j < n
        invariant
            j <= n,
            n == repos@.len(),
            urls@.len() == j,
            forall|k: int| 0 <= k < j ==> (#[trigger] urls@[k])@ == repos.deep_view()[k].url,
        decreases n - j,
    {
        proof {
            assert(repos.deep_view()[j as int] == repos@[j as int]@);
        }
        urls.push(repos[j].url.clone());
        j = j + 1;
    }
    proof {
        assert forall|k: int| 0 <= k < n implies urls.deep_view()[k] == urls_of(
            repos.deep_view(),
        )[k] by {
            assert(urls.deep_view()[k] == urls@[k]@);
        }
        assert(urls.deep_view() =~= urls_of(repos.deep_view()));
    }
    urls
}

/// A count clamped to what a machine word holds.
pub open spec fn clamp_usize(n: nat) -> nat {
    if n <= usize::MAX as nat {
        n
    } else {
        usize::MAX as nat
    }
}

/// Validates the whole graph, side-effect-free: flags every missing
/// sub-ecosystem reference, every duplicate and rejected repository
/// URL, every record with no content, and at most one aggregated
/// unsorted-data error per ecosystem; and returns the summary counts —
/// ecosystems, distinct repository URLs as written, and entries
/// flagged missing (that count clamped to a machine word).  Every rule
/// runs over every ecosystem; nothing stops at the first defect.
pub fn validate_ecosystems(graph: &TaxonomyGraph) -> (stats: ValidationStats)
    requires
        forall|i: int| 0 <= i < graph@.len() ==> eco_fits_diff_engine(#[trigger] graph@[i]),
    ensures
        stats.ecosystem_count == graph@.len(),
        stats.repo_count == spec_repo_count(graph@),
        stats.missing_count == clamp_usize(spec_missing_count(graph@)),
        stats.errors.deep_view() == graph_errors(graph@),
{
    broadcast use vstd::set::group_set_axioms;

    let ghost g = graph@;
    let n = graph.ecosystems.len();
    let mut errors: Vec<ValidationError> = Vec::new();
    let mut repo_set: Vec<String> = Vec::new();
    let mut missing_count: usize = 0;
    let mut i: usize = 0;
    proof {
        assert(g.len() == graph.ecosystems@.len());
        assert(errors.deep_view() =~= graph_errors_upto(g, 0));
        assert(repo_set.deep_view().to_set() =~= graph_urls_upto(g, 0));
        assert(repo_set.deep_view().no_duplicates());
    }
    while i < n
        invariant
            i <= n,
            n == graph.ecosystems@.len(),
            g == graph@,
            g.len() == n,
            forall|k: int| 0 <= k < g.len() ==> eco_fits_diff_engine(#[trigger] g[k]),
            errors.deep_view() == graph_errors_upto(g, i as int),
            repo_set.deep_view().no_duplicates(),
            repo_set.deep_view().to_set() == graph_urls_upto(g, i as int),
            missing_count == clamp_usize(missing_upto(g, i as int)),
        decreases n - i,
    {
        let eco = &graph.ecosystems[i];
        proof {
            assert(eco@ == g[i as int]);
            assert(eco_fits_diff_engine(g[i as int]));
        }
        let ghost e = g[i as int];
        let ghost base = errors.deep_view();

        match &eco.sub_ecosystems {
            Some(subs) => {
                walk_subs(&graph.ecosystems, &eco.title, subs, &mut errors);
                proof {
                    assert(subs.deep_view() == subs_of(e));
                }
            },
            None => {
                proof {
                    assert(subs_of(e) =~= Seq::<Seq<char>>::empty());
                    assert(errors.deep_view() =~= base + missing_sub_errors(
                        g,
                        e.title,
                        subs_of(e),
                    ));
                }
            },
        }
        proof {
            assert(errors.deep_view() == base + missing_sub_errors(g, e.title, subs_of(e)));
        }

        let mc: usize = match &eco.repo {
            Some(repos) => {
                let c = walk_repos(repos, &mut errors, &mut repo_set);
                proof {
                    assert(repos.deep_view() == repos_of(e));
                }
                c
            },
            None => {
                proof {
                    assert(repos_of(e) =~= Seq::<RepoView>::empty());
                    assert(errors.deep_view() =~= base + missing_sub_errors(
                        g,
                        e.title,
                        subs_of(e),
                    ) + repo_errors(repos_of(e)));
                    assert(repo_set.deep_view().to_set() =~= repo_set.deep_view().to_set().union(
                        urls_set_of(repos_of(e)),
                    ));
                }
                0
            },
        };
        proof {
            assert(errors.deep_view() == base + missing_sub_errors(g, e.title, subs_of(e))
                + repo_errors(repos_of(e)));
            assert(mc == missing_in(repos_of(e)));
            assert(repo_set.deep_view().to_set() == graph_urls_upto(g, i as int).union(
                urls_set_of(repos_of(e)),
            ));
            assert(repo_set.deep_view().to_set() =~= graph_urls_upto(g, i + 1));
        }
        missing_count = match missing_count.checked_add(mc) {
            Some(v) => v,
            None => usize::MAX,
        };
        proof {
            assert(missing_upto(g, i + 1) == missing_upto(g, i as int) + missing_in(repos_of(e)));
            assert(missing_count == clamp_usize(missing_upto(g, i + 1)));
        }

        let sub_eco_diff = match &eco.sub_ecosystems {
            Some(subs) => find_misordered_elements_diff(subs),
            None => None,
        };
        let github_org_diff = match &eco.github_organizations {
            Some(orgs) => find_misordered_elements_diff(orgs),
            None => None,
        };
        let repo_diff = match &eco.repo {
            Some(repos) => {
                let urls = collect_urls(repos);
                find_misordered_elements_diff(&urls)
            },
            None => None,
        };
        proof {
            if eco.sub_ecosystems is None {
                assert(subs_of(e) =~= Seq::<Seq<char>>::empty());
            }
            if eco.github_organizations is None {
                assert(orgs_of(e) =~= Seq::<Seq<char>>::empty());
            }
            if eco.repo is None {
                assert(repos_of(e) =~= Seq::<RepoView>::empty());
                assert(urls_of(repos_of(e)) =~= Seq::<Seq<char>>::empty());
            }
            assert(sub_eco_diff.deep_view() == misordered_diff(subs_of(e)));
            assert(github_org_diff.deep_view() == misordered_diff(orgs_of(e)));
            assert(repo_diff.deep_view() == misordered_diff(urls_of(repos_of(e))));
        }

        let has_subs = match &eco.sub_ecosystems {
            Some(subs) => subs.len() > 0,
            None => false,
        };
        let has_orgs = match &eco.github_organizations {
            Some(orgs) => orgs.len() > 0,
            None => false,
        };
        let has_repos = match &eco.repo {
            Some(repos) => repos.len() > 0,
            None => false,
        };
        if !(has_subs || has_orgs || has_repos) {
            let ghost before = errors.deep_view();
            errors.push(ValidationError::EmptyEcosystem(eco.title.clone()));
            proof {
                assert(errors.deep_view() =~= before.push(
                    ValidationErrorView::EmptyEcosystem(e.title),
                ));
            }
        }
        if sub_eco_diff.is_some() || github_org_diff.is_some() || repo_diff.is_some() {
            let ghost before = errors.deep_view();
            let unsorted = UnsortedEcosystem {
                ecosystem: eco.title.clone(),
                repo_diff,
                sub_eco_diff,
                github_org_diff,
            };
            proof {
                assert(unsorted@.ecosystem == e.title);
                assert(unsorted@.repo_diff == misordered_diff(urls_of(repos_of(e))));
                assert(unsorted@.sub_eco_diff == misordered_diff(subs_of(e)));
                assert(unsorted@.github_org_diff == misordered_diff(orgs_of(e)));
            }
            errors.push(ValidationError::UnsortedEcosystem(unsorted));
            proof {
                assert(needs_sort(e));
                assert(errors.deep_view() =~= before.push(
                    ValidationErrorView::UnsortedEcosystem(unsorted_sections(e)),
                ));
            }
        } else {
            proof {
                assert(!needs_sort(e));
            }
        }
        proof {
            assert(errors.deep_view() =~= base + eco_errors(g, e));
            assert(errors.deep_view() =~= graph_errors_upto(g, i + 1));
        }
        i = i + 1;
    }
    let ecosystem_count = graph.ecosystems.len();
    let repo_count = repo_set.len();
    proof {
        repo_set.deep_view().unique_seq_to_set();
        assert(repo_set.deep_view().len() == repo_set@.len());
        assert(graph_errors_upto(g, n as int) == graph_errors(g));
    }
    ValidationStats { ecosystem_count, repo_count, missing_count, errors }
}

/// Decides whether some orderable list of the record is out of
/// canonical order.
pub fn ecosystem_needs_sort(eco: &crate::model::Ecosystem) -> (r: bool)
    ensures
        r == needs_sort(eco@),
{
    let ghost e = eco@;
    let subs_out = match &eco.sub_ecosystems {
        Some(subs) => {
            let m = crate::diffing::strings_misordered(subs);
            proof {
                assert(subs.deep_view() == subs_of(e));
            }
            m
        },
        None => {
            proof {
                assert(subs_of(e) =~= Seq::<Seq<char>>::empty());
            }
            false
        },
    };
    let orgs_out = match &eco.github_organizations {
        Some(orgs) => {
            let m = crate::diffing::strings_misordered(orgs);
            proof {
                assert(orgs.deep_view() == orgs_of(e));
            }
            m
        },
        None => {
            proof {
                assert(orgs_of(e) =~= Seq::<Seq<char>>::empty());
            }
            false
        },
    };
    let repos_out = match &eco.repo {
        Some(repos) => {
            let urls = collect_urls(repos);
            let m = crate::diffing::strings_misordered(&urls);
            proof {
                assert(repos.deep_view() == repos_of(e));
            }
            m
        },
        None => {
            proof {
                assert(repos_of(e) =~= Seq::<RepoView>::empty());
                assert(urls_of(repos_of(e)) =~= Seq::<Seq<char>>::empty());
            }
            false
        },
    };
    subs_out || orgs_out || repos_out
}

/// The whole validate pass over parsed records: builds the graph, runs
/// every rule over it, and reports the graph's errors followed by the
/// title errors found while the records were read.
pub fn validate_records(records: Vec<(String, crate::model::Ecosystem)>) -> (r: (
    TaxonomyGraph,
    ValidationStats,
))
    requires
        forall|i: int|
            0 <= i < records.deep_view().len() ==> eco_fits_diff_engine(
                (#[trigger] records.deep_view()[i]).1,
            ),
    ensures
        r.0@ == crate::graph::build_graph_spec(records.deep_view()).0,
        crate::graph::graph_wf(r.0@),
        r.1.ecosystem_count == r.0@.len(),
        r.1.repo_count == spec_repo_count(r.0@),
        r.1.missing_count == clamp_usize(spec_missing_count(r.0@)),
        r.1.errors.deep_view() == graph_errors(r.0@) + crate::graph::build_graph_spec(
            records.deep_view(),
        ).1,
{
    let ghost rv = records.deep_view();
    let built = crate::graph::build_graph(records);
    let graph = built.0;
    let mut title_errors = built.1;
    let ghost titles_dv = title_errors.deep_view();
    proof {
        crate::graph::lemma_build_graph_members(rv);
        assert forall|k: int| 0 <= k < graph@.len() implies eco_fits_diff_engine(
            #[trigger] graph@[k],
        ) by {
            let i = choose|i: int| 0 <= i < rv.len() && #[trigger] graph@[k] == rv[i].1;
            assert(eco_fits_diff_engine(rv[i].1));
        }
    }
    let mut stats = validate_ecosystems(&graph);
    let ghost graph_dv = stats.errors.deep_view();
    stats.errors.append(&mut title_errors);
    proof {
        assert(stats.errors.deep_view() =~= graph_dv + titles_dv);
    }
    (graph, stats)
}

} // verus!
