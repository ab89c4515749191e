//! The library's general laws, each proved once and for all inputs:
//! validation is deterministic, a clean repository list draws no
//! repository complaints, and canonicalization is idempotent.

use vstd::prelude::*;
use crate::canonical::canonical_model;
use crate::canonical::dedup_repos;
use crate::canonical::normal_repo;
use crate::canonical::repo_block;
use crate::canonical::repo_blocks;
use crate::canonical::sorted_repos;
use crate::canonical::spec_canonical_path;
use crate::canonical::spec_canonical_text;
use crate::diffing::lemma_lower_keys_apply_commute;
use crate::diffing::lemma_sorted_copy_identity;
use crate::diffing::lower_keys;
use crate::diffing::sorted_copy;
use crate::errors::ValidationErrorView;
use crate::model::EcosystemView;
use crate::model::RepoView;
use crate::model::lower;
use crate::model::orgs_of;
use crate::model::repos_of;
use crate::model::subs_of;
use crate::model::urls_of;
use crate::order::apply_perm;
use crate::order::keys_sorted;
use crate::order::lemma_apply_identity;
use crate::order::lemma_keys_sorted_range;
use crate::order::lemma_sort_perm_properties;
use crate::order::lemma_sorted_sort_identity;
use crate::order::seq_le;
use crate::order::sort_perm;
use crate::validate::eco_errors;
use crate::validate::graph_errors;
use crate::validate::lower_urls_set;
use crate::validate::missing_sub_errors;
use crate::validate::repo_errors;
use crate::validate::unsorted_sections;

verus! {

/// Validation is deterministic: its outcome is a function of the graph
/// alone, so two runs over one graph yield the same error list — the
/// same sequence, hence also the same collection regardless of order.
pub proof fn lemma_validate_deterministic(
    g: Seq<EcosystemView>,
    errs1: Seq<ValidationErrorView>,
    errs2: Seq<ValidationErrorView>,
)
    requires
        errs1 == graph_errors(g),
        errs2 == graph_errors(g),
    ensures
        errs1 == errs2,
        errs1.to_multiset() == errs2.to_multiset(),
{
}

/// What the lowercased-URL set holds: exactly the lowercased URLs of
/// the entries.
pub proof fn lemma_lower_urls_set_characterization(repos: Seq<RepoView>, x: Seq<char>)
    ensures
        lower_urls_set(repos).contains(x) <==> exists|i: int|
            0 <= i < repos.len() && lower(#[trigger] repos[i].url) == x,
    decreases repos.len(),
{
    broadcast use vstd::set::group_set_axioms;

    if repos.len() == 0 {
    } else {
        let rest = repos.drop_last();
        lemma_lower_urls_set_characterization(rest, x);
        if lower_urls_set(repos).contains(x) {
            if x == lower(repos.last().url) {
                assert(lower(repos[repos.len() - 1].url) == x);
            } else {
                let i = choose|i: int| 0 <= i < rest.len() && lower(#[trigger] rest[i].url) == x;
                assert(lower(repos[i].url) == x);
            }
        }
        if exists|i: int| 0 <= i < repos.len() && lower(#[trigger] repos[i].url) == x {
            let i = choose|i: int| 0 <= i < repos.len() && lower(#[trigger] repos[i].url) == x;
            if i < repos.len() - 1 {
                assert(lower(rest[i].url) == x);
            }
        }
    }
}

/// A repository walk over entries whose lowercased URLs are pairwise
/// distinct flags no duplicate.
pub proof fn lemma_no_duplicate_errors(repos: Seq<RepoView>)
    requires
        forall|i: int, j: int|
            0 <= i < j < repos.len() ==> lower(#[trigger] repos[i].url) != lower(
                #[trigger] repos[j].url,
            ),
    ensures
        forall|k: int|
            0 <= k < repo_errors(repos).len() ==> !(#[trigger] repo_errors(repos)[k]
                is DuplicateRepoUrl),
    decreases repos.len(),
{
    if repos.len() == 0 {
    } else {
        let rest = repos.drop_last();
        assert(forall|i: int, j: int|
            0 <= i < j < rest.len() ==> lower(#[trigger] rest[i].url) != lower(
                #[trigger] rest[j].url,
            )) by {
            assert(forall|i: int| 0 <= i < rest.len() ==> #[trigger] rest[i] == repos[i]);
        }
        lemma_no_duplicate_errors(rest);
        lemma_lower_urls_set_characterization(rest, lower(repos.last().url));
        assert(!lower_urls_set(rest).contains(lower(repos.last().url))) by {
            if exists|i: int|
                0 <= i < rest.len() && lower(#[trigger] rest[i].url) == lower(repos.last().url) {
                let i = choose|i: int|
                    0 <= i < rest.len() && lower(#[trigger] rest[i].url) == lower(
                        repos.last().url,
                    );
                assert(lower(repos[i].url) == lower(repos[repos.len() - 1].url));
            }
        }
    }
}

/// Every error of the sub-ecosystem check is a missing-sub-ecosystem
/// error.
pub proof fn lemma_missing_sub_errors_kind(
    g: Seq<EcosystemView>,
    parent: Seq<char>,
    subs: Seq<Seq<char>>,
)
    ensures
        forall|k: int|
            0 <= k < missing_sub_errors(g, parent, subs).len() ==> (
            #[trigger] missing_sub_errors(g, parent, subs)[k]) is MissingSubecosystem,
    decreases subs.len(),
{
    if subs.len() == 0 {
    } else {
        lemma_missing_sub_errors_kind(g, parent, subs.drop_last());
    }
}

/// An ecosystem whose repository URLs are already in canonical order,
/// with no two equal under case-insensitive comparison, draws no
/// duplicate-URL error, and any unsorted-data error flagged for it
/// carries no repository diff — only the other two sections can still
/// be out of order.
pub proof fn lemma_clean_repos_draw_no_repo_complaints(g: Seq<EcosystemView>, e: EcosystemView)
    requires
        keys_sorted(lower_keys(urls_of(repos_of(e)))),
        forall|i: int, j: int|
            0 <= i < j < repos_of(e).len() ==> lower(#[trigger] repos_of(e)[i].url) != lower(
                #[trigger] repos_of(e)[j].url,
            ),
    ensures
        forall|k: int|
            0 <= k < eco_errors(g, e).len() ==> !(#[trigger] eco_errors(g, e)[k]
                is DuplicateRepoUrl),
        unsorted_sections(e).repo_diff is None,
{
    let repos = repos_of(e);
    let urls = urls_of(repos);
    assert(forall|i: int| 0 <= i < repos.len() ==> #[trigger] urls[i] == repos[i].url);
    lemma_sorted_copy_identity(urls);
    assert(unsorted_sections(e).repo_diff is None);
    lemma_no_duplicate_errors(repos);
    lemma_missing_sub_errors_kind(g, e.title, crate::model::subs_of(e));
    let base = missing_sub_errors(g, e.title, crate::model::subs_of(e)) + repo_errors(repos);
    assert forall|k: int| 0 <= k < eco_errors(g, e).len() implies !(#[trigger] eco_errors(g, e)[k]
        is DuplicateRepoUrl) by {
        if k < base.len() {
            if k < missing_sub_errors(g, e.title, crate::model::subs_of(e)).len() {
                assert(base[k] == missing_sub_errors(g, e.title, crate::model::subs_of(e))[k]);
            } else {
                assert(base[k] == repo_errors(repos)[k - missing_sub_errors(
                    g,
                    e.title,
                    crate::model::subs_of(e),
                ).len()]);
            }
        }
    }
}

/// The titles named by the unsorted-data errors of an error list, in
/// order.
pub open spec fn unsorted_titles(errs: Seq<ValidationErrorView>) -> Seq<Seq<char>>
    decreases errs.len(),
{
    if errs.len() == 0 {
        Seq::empty()
    } else {
        let prev = unsorted_titles(errs.drop_last());
        match errs.last() {
            ValidationErrorView::UnsortedEcosystem(u) => prev.push(u.ecosystem),
            _ => prev,
        }
    }
}

/// `unsorted_titles` distributes over concatenation.
pub proof fn lemma_unsorted_titles_concat(a: Seq<ValidationErrorView>, b: Seq<ValidationErrorView>)
    ensures
        unsorted_titles(a + b) == unsorted_titles(a) + unsorted_titles(b),
    decreases b.len(),
{
    if b.len() == 0 {
        assert(a + b =~= a);
        assert(unsorted_titles(a) + unsorted_titles(b) =~= unsorted_titles(a));
    } else {
        lemma_unsorted_titles_concat(a, b.drop_last());
        assert((a + b).drop_last() =~= a + b.drop_last());
        assert((a + b).last() == b.last());
        match b.last() {
            ValidationErrorView::UnsortedEcosystem(u) => {
                assert(unsorted_titles(a) + unsorted_titles(b) =~= (unsorted_titles(a)
                    + unsorted_titles(b.drop_last())).push(u.ecosystem));
            },
            _ => {},
        }
    }
}

/// An error list without unsorted-data errors names no title.
pub proof fn lemma_unsorted_titles_none(errs: Seq<ValidationErrorView>)
    requires
        forall|k: int| 0 <= k < errs.len() ==> !((#[trigger] errs[k]) is UnsortedEcosystem),
    ensures
        unsorted_titles(errs) == Seq::<Seq<char>>::empty(),
    decreases errs.len(),
{
    if errs.len() == 0 {
    } else {
        let rest = errs.drop_last();
        assert(forall|k: int| 0 <= k < rest.len() ==> #[trigger] rest[k] == errs[k]);
        lemma_unsorted_titles_none(rest);
        assert(!(errs[errs.len() - 1] is UnsortedEcosystem));
    }
}

/// Every error of the repository walk is a duplicate-URL or
/// invalid-URL error.
pub proof fn lemma_repo_errors_kind(repos: Seq<RepoView>)
    ensures
        forall|k: int|
            0 <= k < repo_errors(repos).len() ==> (#[trigger] repo_errors(repos)[k])
                is DuplicateRepoUrl || repo_errors(repos)[k] is InvalidRepoUrl,
    decreases repos.len(),
{
    if repos.len() == 0 {
    } else {
        lemma_repo_errors_kind(repos.drop_last());
    }
}

/// The unsorted-data errors of one ecosystem name its title exactly
/// where one of its lists is out of order.
pub proof fn lemma_eco_unsorted_titles(g: Seq<EcosystemView>, e: EcosystemView)
    ensures
        unsorted_titles(eco_errors(g, e)) == if crate::validate::needs_sort(e) {
            seq![e.title]
        } else {
            Seq::<Seq<char>>::empty()
        },
{
    let subs = subs_of(e);
    let missing = missing_sub_errors(g, e.title, subs);
    let walked = repo_errors(repos_of(e));
    lemma_missing_sub_errors_kind(g, e.title, subs);
    lemma_repo_errors_kind(repos_of(e));
    let base = missing + walked;
    assert forall|k: int| 0 <= k < base.len() implies !((#[trigger] base[k])
        is UnsortedEcosystem) by {
        if k < missing.len() {
            assert(base[k] == missing[k]);
        } else {
            assert(base[k] == walked[k - missing.len()]);
        }
    }
    lemma_unsorted_titles_none(base);
    let with_empty = if !crate::validate::has_content(e) {
        base.push(ValidationErrorView::EmptyEcosystem(e.title))
    } else {
        base
    };
    assert(forall|k: int|
        0 <= k < with_empty.len() ==> !((#[trigger] with_empty[k]) is UnsortedEcosystem)) by {
        assert(forall|k: int| 0 <= k < base.len() ==> #[trigger] with_empty[k] == base[k]);
    }
    lemma_unsorted_titles_none(with_empty);
    if crate::validate::needs_sort(e) {
        assert(eco_errors(g, e) == with_empty.push(
            ValidationErrorView::UnsortedEcosystem(unsorted_sections(e)),
        ));
        assert(eco_errors(g, e).drop_last() =~= with_empty);
        assert(unsorted_titles(eco_errors(g, e)) =~= seq![e.title]);
    }
}

/// The diagnostic and the rewrite are two views of one engine: the
/// rewrite plan names exactly the titles that validation flags with an
/// unsorted-data error, in the same order.
pub proof fn lemma_sort_plan_matches_validation(g: Seq<EcosystemView>, n: int)
    requires
        0 <= n <= g.len(),
    ensures
        crate::canonical::spec_sort_plan(g, n).map_values(
            |p: (Seq<char>, Option<(Seq<char>, Seq<char>)>)| p.0,
        ) == unsorted_titles(crate::validate::graph_errors_upto(g, n)),
    decreases n,
{
    let titles_of = |p: (Seq<char>, Option<(Seq<char>, Seq<char>)>)| p.0;
    if n == 0 {
        assert(crate::canonical::spec_sort_plan(g, 0).map_values(titles_of)
            =~= Seq::<Seq<char>>::empty());
    } else {
        lemma_sort_plan_matches_validation(g, n - 1);
        let e = g[n - 1];
        lemma_unsorted_titles_concat(
            crate::validate::graph_errors_upto(g, n - 1),
            eco_errors(g, e),
        );
        lemma_eco_unsorted_titles(g, e);
        if crate::validate::needs_sort(e) {
            assert(crate::canonical::spec_sort_plan(g, n).map_values(titles_of)
                =~= crate::canonical::spec_sort_plan(g, n - 1).map_values(titles_of).push(e.title));
            assert(unsorted_titles(crate::validate::graph_errors_upto(g, n))
                =~= unsorted_titles(crate::validate::graph_errors_upto(g, n - 1)).push(e.title));
        } else {
            assert(unsorted_titles(crate::validate::graph_errors_upto(g, n))
                =~= unsorted_titles(crate::validate::graph_errors_upto(g, n - 1)));
        }
    }
}

/// A sorted copy is already sorted, so sorting it again moves nothing.
pub proof fn lemma_sorted_copy_idempotent(s: Seq<Seq<char>>)
    ensures
        sorted_copy(sorted_copy(s)) == sorted_copy(s),
{
    let keys = lower_keys(s);
    let perm = sort_perm(keys);
    lemma_sort_perm_properties(keys);
    lemma_lower_keys_apply_commute(s, perm);
    assert(lower_keys(sorted_copy(s)) == apply_perm(keys, perm));
    assert(keys_sorted(apply_perm(keys, perm))) by {
        assert forall|i: int| 0 <= i < apply_perm(keys, perm).len() - 1 implies seq_le(
            #[trigger] apply_perm(keys, perm)[i],
            apply_perm(keys, perm)[i + 1],
        ) by {
            assert(apply_perm(keys, perm)[i] == keys[perm[i]]);
            assert(apply_perm(keys, perm)[i + 1] == keys[perm[i + 1]]);
        }
    }
    lemma_sorted_copy_identity(sorted_copy(s));
}

/// What sorting the repository entries does to their URLs and keys:
/// the URL list is rearranged by the same permutation, and the
/// arranged keys are sorted.
pub proof fn lemma_sorted_repos_keys(repos: Seq<RepoView>)
    ensures
        sorted_repos(repos).len() == repos.len(),
        urls_of(sorted_repos(repos)) == apply_perm(
            urls_of(repos),
            sort_perm(lower_keys(urls_of(repos))),
        ),
        keys_sorted(lower_keys(urls_of(sorted_repos(repos)))),
{
    let urls = urls_of(repos);
    let keys = lower_keys(urls);
    let perm = sort_perm(keys);
    lemma_sort_perm_properties(keys);
    let s = sorted_repos(repos);
    assert(urls_of(s) =~= apply_perm(urls, perm));
    lemma_lower_keys_apply_commute(urls, perm);
    assert(lower_keys(urls_of(s)) == apply_perm(keys, perm));
    assert(keys_sorted(apply_perm(keys, perm))) by {
        assert forall|i: int| 0 <= i < apply_perm(keys, perm).len() - 1 implies seq_le(
            #[trigger] apply_perm(keys, perm)[i],
            apply_perm(keys, perm)[i + 1],
        ) by {
            assert(apply_perm(keys, perm)[i] == keys[perm[i]]);
            assert(apply_perm(keys, perm)[i + 1] == keys[perm[i + 1]]);
        }
    }
}

/// Collapsing a list of entries with pairwise-distinct lowercased URLs
/// keeps every entry, in its written form.
pub proof fn lemma_dedup_distinct(s: Seq<RepoView>, seen: Set<Seq<char>>)
    requires
        forall|i: int, j: int|
            0 <= i < j < s.len() ==> lower(#[trigger] s[i].url) != lower(#[trigger] s[j].url),
        forall|i: int| 0 <= i < s.len() ==> !seen.contains(lower(#[trigger] s[i].url)),
    ensures
        dedup_repos(s, seen) == s.map_values(|r: RepoView| normal_repo(r)),
    decreases s.len(),
{
    broadcast use vstd::set::group_set_axioms;

    if s.len() == 0 {
        assert(dedup_repos(s, seen) =~= s.map_values(|r: RepoView| normal_repo(r)));
    } else {
        let rest = s.drop_first();
        let key = lower(s[0].url);
        assert(forall|i: int| 0 <= i < rest.len() ==> #[trigger] rest[i] == s[i + 1]);
        lemma_dedup_distinct(rest, seen.insert(key));
        assert(dedup_repos(s, seen) =~= s.map_values(|r: RepoView| normal_repo(r)));
    }
}

/// A repository entry in its written form renders as the same block.
pub proof fn lemma_repo_block_normal(r: RepoView)
    ensures
        repo_block(normal_repo(r)) == repo_block(r),
{
}

/// A repository entry in its written form is already in written form.
pub proof fn lemma_normal_idempotent(r: RepoView)
    ensures
        normal_repo(normal_repo(r)) == normal_repo(r),
{
}

/// The kept repository blocks laid out one after another, a blank line
/// before each block but the first.
pub open spec fn blocks_plain(d: Seq<RepoView>, emitted: int) -> Seq<char>
    decreases d.len(),
{
    if d.len() == 0 {
        Seq::empty()
    } else {
        (if emitted > 0 {
            seq!['\n']
        } else {
            Seq::empty()
        }) + repo_block(d[0]) + blocks_plain(d.drop_first(), emitted + 1)
    }
}

/// Walking the sorted entries while skipping repeated keys renders the
/// same text as walking the collapsed list.
pub proof fn lemma_repo_blocks_as_dedup(
    s: Seq<RepoView>,
    idx: int,
    seen: Set<Seq<char>>,
    emitted: int,
)
    requires
        0 <= idx <= s.len(),
    ensures
        repo_blocks(s, idx, seen, emitted) == blocks_plain(dedup_repos(s.skip(idx), seen), emitted),
    decreases s.len() - idx,
{
    broadcast use vstd::set::group_set_axioms;

    if idx == s.len() {
        assert(s.skip(idx) =~= Seq::<RepoView>::empty());
    } else {
        let suf = s.skip(idx);
        assert(suf[0] == s[idx]);
        assert(suf.drop_first() =~= s.skip(idx + 1));
        let key = lower(s[idx].url);
        if seen.contains(key) {
            lemma_repo_blocks_as_dedup(s, idx + 1, seen, emitted);
        } else {
            lemma_repo_blocks_as_dedup(s, idx + 1, seen.insert(key), emitted + 1);
            lemma_repo_block_normal(s[idx]);
            let d = dedup_repos(suf, seen);
            assert(d[0] == normal_repo(s[idx]));
            assert(d.drop_first() =~= dedup_repos(s.skip(idx + 1), seen.insert(key)));
        }
    }
}

/// What collapsing a key-sorted entry list keeps: every kept entry is
/// some entry's written form, the kept keys stay sorted and pairwise
/// distinct, and none of them was seen before.
pub proof fn lemma_dedup_props(s: Seq<RepoView>, seen: Set<Seq<char>>)
    requires
        keys_sorted(lower_keys(urls_of(s))),
    ensures
        forall|k: int|
            0 <= k < dedup_repos(s, seen).len() ==> exists|i: int|
                0 <= i < s.len() && #[trigger] dedup_repos(s, seen)[k] == normal_repo(s[i]),
        keys_sorted(lower_keys(urls_of(dedup_repos(s, seen)))),
        forall|k1: int, k2: int|
            0 <= k1 < k2 < dedup_repos(s, seen).len() ==> lower(
                #[trigger] dedup_repos(s, seen)[k1].url,
            ) != lower(#[trigger] dedup_repos(s, seen)[k2].url),
        forall|k: int|
            0 <= k < dedup_repos(s, seen).len() ==> !seen.contains(
                lower(#[trigger] dedup_repos(s, seen)[k].url),
            ),
    decreases s.len(),
{
    broadcast use vstd::set::group_set_axioms;

    let d = dedup_repos(s, seen);
    let keys = lower_keys(urls_of(s));
    if s.len() == 0 {
    } else {
        let rest = s.drop_first();
        let key0 = lower(s[0].url);
        assert(keys[0] == key0);
        assert(keys_sorted(lower_keys(urls_of(rest)))) by {
            assert forall|i: int| 0 <= i < rest.len() - 1 implies seq_le(
                #[trigger] lower_keys(urls_of(rest))[i],
                lower_keys(urls_of(rest))[i + 1],
            ) by {
                assert(rest[i] == s[i + 1] && rest[i + 1] == s[i + 2]);
                assert(lower_keys(urls_of(rest))[i] == keys[i + 1]);
                assert(lower_keys(urls_of(rest))[i + 1] == keys[i + 2]);
            }
        }
        if seen.contains(key0) {
            lemma_dedup_props(rest, seen);
            let dr = dedup_repos(rest, seen);
            assert(d == dr);
            assert forall|k: int| 0 <= k < d.len() implies exists|i: int|
                0 <= i < s.len() && #[trigger] d[k] == normal_repo(s[i]) by {
                assert(dr[k] == d[k]);
                let i = choose|i: int| 0 <= i < rest.len() && #[trigger] dr[k] == normal_repo(
                    rest[i],
                );
                assert(rest[i] == s[i + 1]);
                assert(d[k] == normal_repo(s[i + 1]));
            }
        } else {
            let seen2 = seen.insert(key0);
            lemma_dedup_props(rest, seen2);
            let dr = dedup_repos(rest, seen2);
            assert(d =~= seq![normal_repo(s[0])] + dr);
            assert(d[0] == normal_repo(s[0]));
            assert(lower(d[0].url) == key0);
            assert(forall|k: int| 1 <= k < d.len() ==> #[trigger] d[k] == dr[k - 1]);
            assert forall|k: int| 0 <= k < d.len() implies exists|i: int|
                0 <= i < s.len() && #[trigger] d[k] == normal_repo(s[i]) by {
                if k == 0 {
                    assert(d[0] == normal_repo(s[0]));
                } else {
                    assert(d[k] == dr[k - 1]);
                    let i = choose|i: int|
                        0 <= i < rest.len() && #[trigger] dr[k - 1] == normal_repo(rest[i]);
                    assert(rest[i] == s[i + 1]);
                    assert(d[k] == normal_repo(s[i + 1]));
                }
            }
            assert forall|k: int| 1 <= k < d.len() implies seq_le(key0, lower(#[trigger] d[k].url))
                && lower(d[k].url) != key0 by {
                assert(d[k] == dr[k - 1]);
                let i = choose|i: int|
                    0 <= i < rest.len() && #[trigger] dr[k - 1] == normal_repo(rest[i]);
                assert(lower(d[k].url) == lower(rest[i].url));
                assert(lower(rest[i].url) == keys[i + 1]);
                lemma_keys_sorted_range(keys, 0, i + 1);
                assert(!seen2.contains(lower(dr[k - 1].url)));
            }
            assert forall|k: int|
                0 <= k < lower_keys(urls_of(d)).len() - 1 implies seq_le(
                #[trigger] lower_keys(urls_of(d))[k],
                lower_keys(urls_of(d))[k + 1],
            ) by {
                assert(lower_keys(urls_of(d))[k] == lower(d[k].url));
                assert(lower_keys(urls_of(d))[k + 1] == lower(d[k + 1].url));
                if k > 0 {
                    assert(d[k] == dr[k - 1] && d[k + 1] == dr[k]);
                    assert(lower_keys(urls_of(dr))[k - 1] == lower(dr[k - 1].url));
                    assert(lower_keys(urls_of(dr))[k] == lower(dr[k].url));
                }
            }
            assert forall|k1: int, k2: int| 0 <= k1 < k2 < d.len() implies lower(
                #[trigger] d[k1].url,
            ) != lower(#[trigger] d[k2].url) by {
                if k1 > 0 {
                    assert(d[k1] == dr[k1 - 1] && d[k2] == dr[k2 - 1]);
                }
            }
            assert forall|k: int| 0 <= k < d.len() implies !seen.contains(
                lower(#[trigger] d[k].url),
            ) by {
                if k > 0 {
                    assert(d[k] == dr[k - 1]);
                    assert(!seen2.contains(lower(dr[k - 1].url)));
                }
            }
        }
    }
}

/// Canonicalizing is idempotent: the canonical text and path of the
/// record that the canonical text describes are that text and path
/// again, for every record.
pub proof fn lemma_canonicalize_idempotent(e: EcosystemView)
    ensures
        spec_canonical_text(canonical_model(e)) == spec_canonical_text(e),
        spec_canonical_path(canonical_model(e).title) == spec_canonical_path(e.title),
{
    broadcast use vstd::set::group_set_axioms;

    let cm = canonical_model(e);
    assert(cm.title == e.title);
    lemma_sorted_copy_idempotent(subs_of(e));
    lemma_sorted_copy_idempotent(orgs_of(e));
    assert(subs_of(cm) == sorted_copy(subs_of(e)));
    assert(orgs_of(cm) == sorted_copy(orgs_of(e)));

    let repos = repos_of(e);
    let s = sorted_repos(repos);
    lemma_sorted_repos_keys(repos);
    let d = dedup_repos(s, Set::empty());
    lemma_dedup_props(s, Set::empty());
    lemma_repo_blocks_as_dedup(s, 0, Set::empty(), 0);
    assert(s.skip(0) =~= s);
    assert(repo_blocks(s, 0, Set::empty(), 0) == blocks_plain(d, 0));
    if d.len() == 0 {
        assert(repos_of(cm) =~= Seq::<RepoView>::empty());
        assert(sorted_repos(repos_of(cm)) =~= Seq::<RepoView>::empty());
        assert(repo_blocks(sorted_repos(repos_of(cm)), 0, Set::empty(), 0)
            =~= Seq::<char>::empty());
        assert(blocks_plain(d, 0) =~= Seq::<char>::empty());
    } else {
        assert(repos_of(cm) == d);
        assert(lower_keys(urls_of(d)).len() == d.len()) by {
            assert(urls_of(d).len() == d.len());
        }
        lemma_sorted_sort_identity(lower_keys(urls_of(d)));
        lemma_apply_identity(d);
        assert(sorted_repos(d) == d);
        lemma_dedup_distinct(d, Set::empty());
        assert(d.map_values(|r: RepoView| normal_repo(r)) =~= d) by {
            assert forall|k: int| 0 <= k < d.len() implies normal_repo(#[trigger] d[k]) == d[k] by {
                let i = choose|i: int| 0 <= i < s.len() && #[trigger] d[k] == normal_repo(s[i]);
                lemma_normal_idempotent(s[i]);
            }
        }
        assert(dedup_repos(d, Set::empty()) == d);
        lemma_repo_blocks_as_dedup(d, 0, Set::empty(), 0);
        assert(d.skip(0) =~= d);
        assert(repo_blocks(sorted_repos(repos_of(cm)), 0, Set::empty(), 0) == blocks_plain(d, 0));
    }
}

} // verus!
