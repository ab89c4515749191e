//! The canonicalizer: rewrites one ecosystem record into its canonical
//! text form — fixed field order, sorted arrays, repository blocks
//! sorted by case-insensitive URL with exact duplicates collapsed —
//! and derives the record's deterministic file path from its title.

use vstd::prelude::*;
use crate::diffing::lower_keys;
use crate::diffing::sorted_copy;
use crate::model::Ecosystem;
use crate::model::EcosystemView;
use crate::model::Repo;
use crate::model::RepoView;
use crate::model::lower;
use crate::model::orgs_of;
use crate::model::repos_of;
use crate::model::subs_of;
use crate::model::urls_of;
use crate::order::apply_perm;
use crate::order::perm_view;
use crate::order::sort_indices_by_keys;
use crate::order::sort_perm;
use crate::validate::contains_string;
use crate::validate::lemma_push_to_set;

verus! {

/// Single-line arrays wider than this many bytes switch to the
/// one-element-per-line form.
pub const MAX_LINE_LENGTH: usize = 80;

/// What `slug::slugify` returns: the URL-safe slug of a title —
/// lowercase `a-z`, digits and single hyphens, never at the edges — a
/// function of the title alone.
pub uninterp spec fn slug_of(s: Seq<char>) -> Seq<char>;

/// Relies on `slug::slugify`: the ASCII slug of the string, a
/// deterministic function of its characters.
#[verifier::external_body]
fn slugify_title(s: &str) -> (r: String)
    ensures
        r@ == slug_of(s@),
{
    slug::slugify(s)
}

/// What `toml::ser::ValueSerializer` writes for a list of strings —
/// the single-line TOML array rendering, e.g. `["a", "b"]` — a
/// function of the list alone.
pub uninterp spec fn toml_array_text(v: Seq<Seq<char>>) -> Seq<char>;

/// The length in bytes of that rendering; the canonical layout decides
/// between single-line and multi-line form by it.
pub uninterp spec fn toml_array_byte_len(v: Seq<Seq<char>>) -> nat;

/// Relies on `toml::ser::ValueSerializer` through `serde::Serialize`:
/// the single-line TOML array rendering of the strings, and its byte
/// length.  Serializing a list of strings into a fresh buffer cannot
/// fail.
#[verifier::external_body]
fn toml_string_array(v: &Vec<String>) -> (r: (String, usize))
    ensures
        r.0@ == toml_array_text(v.deep_view()),
        r.1 == toml_array_byte_len(v.deep_view()),
{
    let mut out = String::new();
    let _ = serde::Serialize::serialize(v, toml::ser::ValueSerializer::new(&mut out));
    let len = out.len();
    (out, len)
}

/// The deterministic file path of a record: a bucket directory named
/// by the slug's first character, then `<slug>.toml`; nothing where
/// the slug is empty.
pub open spec fn spec_canonical_path(title: Seq<char>) -> Option<Seq<char>> {
    let sl = slug_of(title);
    if sl.len() == 0 {
        None
    } else {
        Some("ecosystems/"@ + sl.subrange(0, 1) + "/"@ + sl + ".toml"@)
    }
}

/// Derives the canonical file path of a record from its title,
/// relative to the data root; `None` exactly where the title's slug is
/// empty, which the caller must treat as fatal.
pub fn canonical_path(title: &str) -> (r: Option<String>)
    ensures
        r.deep_view() == spec_canonical_path(title@),
{
    let sl = slugify_title(title);
    let len = sl.as_str().unicode_len();
    if len == 0 {
        return None;
    }
    let first = sl.as_str().substring_char(0, 1);
    let mut out = String::new();
    out.append("ecosystems/");
    out.append(first);
    out.append("/");
    out.append(sl.as_str());
    out.append(".toml");
    proof {
        assert(out@ =~= spec_canonical_path(title@).unwrap());
    }
    Some(out)
}

/// The one-element-per-line rendering of a long array's items.
pub open spec fn multiline_items(items: Seq<Seq<char>>) -> Seq<char>
    decreases items.len(),
{
    if items.len() == 0 {
        Seq::empty()
    } else {
        multiline_items(items.drop_last()) + "  \""@ + items.last() + "\",\n"@
    }
}

/// The canonical rendering of one named string array: sorted, and laid
/// out on one line unless that line would be too wide.
pub open spec fn rendered_array_block(name: Seq<char>, items: Seq<Seq<char>>) -> Seq<char> {
    let sorted = sorted_copy(items);
    if toml_array_byte_len(sorted) > MAX_LINE_LENGTH {
        name + " = [\n"@ + multiline_items(sorted) + "]\n\n"@
    } else {
        name + " = "@ + toml_array_text(sorted) + "\n\n"@
    }
}

/// The canonical rendering of one repository entry: the URL, the tags
/// where any are present, and the missing flag where set; omitted
/// fields are not written at all.
pub open spec fn repo_block(r: RepoView) -> Seq<char> {
    let head = "[[repo]]\nurl = \""@ + r.url + "\"\n"@;
    let with_tags = match r.tags {
        Some(t) => if t.len() > 0 {
            head + "tags = "@ + toml_array_text(t) + seq!['\n']
        } else {
            head
        },
        None => head,
    };
    if r.missing == Some(true) {
        with_tags + "missing = true\n"@
    } else {
        with_tags
    }
}

/// The repository blocks from position `idx` of the sorted entry list
/// on: an entry whose lowercased URL was already kept is dropped, and
/// a blank line stands between consecutive kept blocks — before each
/// kept block but the first, so that collapsing a duplicate never
/// leaves a stray blank line behind the last block.
pub open spec fn repo_blocks(
    sorted: Seq<RepoView>,
    idx: int,
    seen: Set<Seq<char>>,
    emitted: int,
) -> Seq<char>
    decreases sorted.len() - idx,
{
    if idx < 0 || idx >= sorted.len() {
        Seq::empty()
    } else {
        let r = sorted[idx];
        let key = lower(r.url);
        if seen.contains(key) {
            repo_blocks(sorted, idx + 1, seen, emitted)
        } else {
            (if emitted > 0 {
                seq!['\n']
            } else {
                Seq::empty()
            }) + repo_block(r) + repo_blocks(sorted, idx + 1, seen.insert(key), emitted + 1)
        }
    }
}

/// The repository entries in canonical order: a stable sort by
/// lowercased URL.
pub open spec fn sorted_repos(repos: Seq<RepoView>) -> Seq<RepoView> {
    apply_perm(repos, sort_perm(lower_keys(urls_of(repos))))
}

/// The full canonical text of one record, in fixed order: a header
/// comment, the title, the two sorted arrays, then one block per
/// repository in sorted order with exact duplicates collapsed.
pub open spec fn spec_canonical_text(e: EcosystemView) -> Seq<char> {
    "# Ecosystem Level Information\ntitle = \""@ + e.title + "\"\n\n"@ + rendered_array_block(
        "sub_ecosystems"@,
        subs_of(e),
    ) + rendered_array_block("github_organizations"@, orgs_of(e)) + "# Repositories\n"@
        + repo_blocks(sorted_repos(repos_of(e)), 0, Set::empty(), 0)
}

/// One repository entry as the canonical text describes it: the tags
/// field absent where it was empty, the missing flag absent where it
/// was not set.
pub open spec fn normal_repo(r: RepoView) -> RepoView {
    RepoView {
        url: r.url,
        tags: match r.tags {
            Some(t) => if t.len() > 0 {
                Some(t)
            } else {
                None
            },
            None => None,
        },
        missing: if r.missing == Some(true) {
            Some(true)
        } else {
            None
        },
    }
}

/// The entries the canonical text keeps, in order: of the entries
/// sharing one lowercased URL only the first, each in its written
/// form.
pub open spec fn dedup_repos(sorted: Seq<RepoView>, seen: Set<Seq<char>>) -> Seq<RepoView>
    decreases sorted.len(),
{
    if sorted.len() == 0 {
        Seq::empty()
    } else {
        let r = sorted[0];
        if seen.contains(lower(r.url)) {
            dedup_repos(sorted.drop_first(), seen)
        } else {
            seq![normal_repo(r)] + dedup_repos(sorted.drop_first(), seen.insert(lower(r.url)))
        }
    }
}

/// The record that reading the canonical text back yields: the title
/// unchanged, both arrays present and sorted, the repository list
/// sorted and collapsed — absent where nothing remains — and omitted
/// optional fields absent.
pub open spec fn canonical_model(e: EcosystemView) -> EcosystemView {
    let kept = dedup_repos(sorted_repos(repos_of(e)), Set::empty());
    EcosystemView {
        title: e.title,
        github_organizations: Some(sorted_copy(orgs_of(e))),
        sub_ecosystems: Some(sorted_copy(subs_of(e))),
        repo: if kept.len() == 0 {
            None
        } else {
            Some(kept)
        },
    }
}

/// The canonical path and text of one record, or nothing where no
/// file-system-safe name can be derived from its title.
pub open spec fn spec_canonicalize(e: EcosystemView) -> Option<(Seq<char>, Seq<char>)> {
    match spec_canonical_path(e.title) {
        Some(p) => Some((p, spec_canonical_text(e))),
        None => None,
    }
}

/// Clones the elements into the arrangement given by `perm`.
fn arranged_strings(items: &Vec<String>, perm: &Vec<usize>) -> (r: Vec<String>)
    requires
        forall|i: int| 0 <= i < perm@.len() ==> #[trigger] perm@[i] < items@.len(),
    ensures
        r.deep_view() == apply_perm(items.deep_view(), perm_view(perm@)),
{
    let ghost arranged = apply_perm(items.deep_view(), perm_view(perm@));
    let mut r: Vec<String> = Vec::new();
    let n = perm.len();
    let mut k: usize = 0;
    while k < n
        invariant
            k <= n,
            n == perm@.len(),
            arranged == apply_perm(items.deep_view(), perm_view(perm@)),
            arranged.len() == n,
            forall|i: int| 0 <= i < perm@.len() ==> #[trigger] perm@[i] < items@.len(),
            r@.len() == k,
            forall|i: int| 0 <= i < k ==> (#[trigger] r@[i])@ == arranged[i],
        decreases n - k,
    {
        proof {
            assert(arranged[k as int] == items.deep_view()[perm@[k as int] as int]);
            assert(items.deep_view()[perm@[k as int] as int] == items@[perm@[k as int] as int]@);
        }
        let idx = perm[k];
        r.push(items[idx].clone());
        k = k + 1;
    }
    proof {
        assert forall|i: int| 0 <= i < n implies r.deep_view()[i] == arranged[i] by {
            assert(r.deep_view()[i] == r@[i]@);
        }
        assert(r.deep_view() =~= arranged);
    }
    r
}

/// Appends the canonical rendering of one named string array.
fn append_array_block(out: &mut String, name: &str, items: &Vec<String>)
    ensures
        final(out)@ == old(out)@ + rendered_array_block(name@, items.deep_view()),
{
    let ghost base = out@;
    let ghost sortedv = sorted_copy(items.deep_view());
    let keys = crate::diffing::compute_lower_keys(items);
    let perm = sort_indices_by_keys(&keys);
    let sorted = arranged_strings(items, &perm);
    proof {
        assert(sorted.deep_view() == sortedv);
    }
    let ser_len = toml_string_array(&sorted);
    let ser = ser_len.0;
    let blen = ser_len.1;
    out.append(name);
    if blen > MAX_LINE_LENGTH {
        out.append(" = [\n");
        let ghost mid = out@;
        let n = sorted.len();
        let mut k: usize = 0;
        proof {
            assert(sortedv.take(0) =~= Seq::<Seq<char>>::empty());
            assert(out@ =~= mid + multiline_items(sortedv.take(0)));
        }
        while k < n
            invariant
                k <= n,
                n == sorted@.len(),
                sortedv == sorted.deep_view(),
                sortedv.len() == n,
                out@ == mid + multiline_items(sortedv.take(k as int)),
            decreases n - k,
        {
            proof {
                assert(sortedv[k as int] == sorted@[k as int]@);
                assert(sortedv.take(k + 1).drop_last() =~= sortedv.take(k as int));
                assert(sortedv.take(k + 1).last() == sortedv[k as int]);
            }
            out.append("  \"");
            out.append(sorted[k].as_str());
            out.append("\",\n");
            proof {
                assert(out@ =~= mid + multiline_items(sortedv.take(k + 1)));
            }
            k = k + 1;
        }
        out.append("]\n\n");
        proof {
            assert(sortedv.take(n as int) =~= sortedv);
            assert(out@ =~= base + rendered_array_block(name@, items.deep_view()));
        }
    } else {
        out.append(" = ");
        out.append(ser.as_str());
        out.append("\n\n");
        proof {
            assert(out@ =~= base + rendered_array_block(name@, items.deep_view()));
        }
    }
}

/// Appends the canonical rendering of one repository entry.
fn append_repo_block(out: &mut String, repo: &Repo)
    ensures
        final(out)@ == old(out)@ + repo_block(repo@),
{
    let ghost base = out@;
    proof {
        reveal_strlit("\n");
    }
    out.append("[[repo]]\nurl = \"");
    out.append(repo.url.as_str());
    out.append("\"\n");
    match &repo.tags {
        Some(tags) => {
            if tags.len() > 0 {
                let ser_len = toml_string_array(tags);
                out.append("tags = ");
                out.append(ser_len.0.as_str());
                out.append("\n");
            }
        },
        None => {},
    }
    match &repo.missing {
        Some(flag) => {
            if *flag {
                out.append("missing = true\n");
            }
        },
        None => {},
    }
    proof {
        assert(out@ =~= base + repo_block(repo@));
    }
}

/// Appends every repository block in canonical order, collapsing exact
/// duplicates.
fn append_repo_blocks(out: &mut String, repos: &Vec<Repo>)
    ensures
        final(out)@ == old(out)@ + repo_blocks(
            sorted_repos(repos.deep_view()),
            0,
            Set::empty(),
            0,
        ),
{
    broadcast use vstd::set::group_set_axioms;

    let ghost base = out@;
    let ghost rv = repos.deep_view();
    let ghost sorted = sorted_repos(rv);
    let urls = crate::validate::collect_urls(repos);
    let keys = crate::diffing::compute_lower_keys(&urls);
    let perm = sort_indices_by_keys(&keys);
    proof {
        assert(keys.deep_view() == lower_keys(urls_of(rv)));
        assert(sorted.len() == perm@.len());
    }
    let total = repos.len();
    let mut emitted: usize = 0;
    let mut seen: Vec<String> = Vec::new();
    let n = perm.len();
    let mut k: usize = 0;
    proof {
        assert(seen.deep_view().to_set() =~= Set::<Seq<char>>::empty());
    }
    while k < n
        invariant
            k <= n,
            n == perm@.len(),
            total == repos@.len(),
            rv == repos.deep_view(),
            rv.len() == total,
            sorted == sorted_repos(rv),
            sorted.len() == n,
            keys.deep_view() == lower_keys(urls_of(rv)),
            keys@.len() == total,
            perm_view(perm@) == sort_perm(lower_keys(urls_of(rv))),
            forall|i: int| 0 <= i < perm@.len() ==> #[trigger] perm@[i] < total,
            emitted <= k,
            base + repo_blocks(sorted, 0, Set::empty(), 0) == out@ + repo_blocks(
                sorted,
                k as int,
                seen.deep_view().to_set(),
                emitted as int,
            ),
        decreases n - k,
    {
        let idx = perm[k];
        proof {
            assert(sorted[k as int] == rv[perm@[k as int] as int]);
            assert(keys.deep_view()[idx as int] == lower(urls_of(rv)[idx as int]));
            assert(urls_of(rv)[idx as int] == rv[idx as int].url);
            assert(keys.deep_view()[idx as int] == keys@[idx as int]@);
        }
        let ghost seen_set = seen.deep_view().to_set();
        let ghost emitted0 = emitted as int;
        let ghost out0 = out@;
        let ghost key = lower(sorted[k as int].url);
        if contains_string(&seen, &keys[idx]) {
            proof {
                assert(seen_set.contains(key));
                assert(repo_blocks(sorted, k as int, seen_set, emitted0) == repo_blocks(
                    sorted,
                    k + 1,
                    seen_set,
                    emitted0,
                ));
            }
        } else {
            proof {
                assert(!seen_set.contains(key));
            }
            if emitted > 0 {
                out.append("\n");
                proof {
                    reveal_strlit("\n");
                    assert(out@ =~= out0 + seq!['\n']);
                }
            }
            append_repo_block(out, &repos[idx]);
            emitted = emitted + 1;
            let ghost old_seen = seen.deep_view();
            seen.push(keys[idx].clone());
            proof {
                assert(repos@[idx as int]@ == rv[idx as int]);
                assert(seen.deep_view() =~= old_seen.push(key));
                lemma_push_to_set(old_seen, key);
                let nlpart: Seq<char> = if emitted0 > 0 {
                    seq!['\n']
                } else {
                    Seq::empty()
                };
                assert(out@ =~= out0 + (nlpart + repo_block(sorted[k as int])));
                assert(repo_blocks(sorted, k as int, seen_set, emitted0) == nlpart + repo_block(
                    sorted[k as int],
                ) + repo_blocks(sorted, k + 1, seen_set.insert(key), emitted0 + 1));
                assert(out@ + repo_blocks(
                    sorted,
                    k + 1,
                    seen.deep_view().to_set(),
                    emitted as int,
                ) =~= out0 + repo_blocks(sorted, k as int, seen_set, emitted0));
            }
        }
        k = k + 1;
    }
    proof {
        assert(repo_blocks(sorted, n as int, seen.deep_view().to_set(), emitted as int)
            =~= Seq::<char>::empty());
        assert(out@ =~= out@ + Seq::<char>::empty());
        assert(base + repo_blocks(sorted, 0, Set::empty(), 0) =~= out@);
    }
}

/// Renders the full canonical text of one record.
pub fn canonical_text(eco: &Ecosystem) -> (r: String)
    ensures
        r@ == spec_canonical_text(eco@),
{
    let ghost e = eco@;
    let mut out = String::new();
    out.append("# Ecosystem Level Information\ntitle = \"");
    out.append(eco.title.as_str());
    out.append("\"\n\n");
    let empty_strings: Vec<String> = Vec::new();
    proof {
        assert(empty_strings.deep_view() =~= Seq::<Seq<char>>::empty());
    }
    match &eco.sub_ecosystems {
        Some(subs) => {
            append_array_block(&mut out, "sub_ecosystems", subs);
            proof {
                assert(subs.deep_view() == subs_of(e));
            }
        },
        None => {
            append_array_block(&mut out, "sub_ecosystems", &empty_strings);
            proof {
                assert(subs_of(e) =~= Seq::<Seq<char>>::empty());
            }
        },
    }
    match &eco.github_organizations {
        Some(orgs) => {
            append_array_block(&mut out, "github_organizations", orgs);
            proof {
                assert(orgs.deep_view() == orgs_of(e));
            }
        },
        None => {
            append_array_block(&mut out, "github_organizations", &empty_strings);
            proof {
                assert(orgs_of(e) =~= Seq::<Seq<char>>::empty());
            }
        },
    }
    out.append("# Repositories\n");
    match &eco.repo {
        Some(repos) => {
            append_repo_blocks(&mut out, repos);
            proof {
                assert(repos.deep_view() == repos_of(e));
            }
        },
        None => {
            proof {
                assert(repos_of(e) =~= Seq::<RepoView>::empty());
                assert(sorted_repos(repos_of(e)) =~= Seq::<RepoView>::empty());
                assert(repo_blocks(sorted_repos(repos_of(e)), 0, Set::empty(), 0)
                    =~= Seq::<char>::empty());
            }
        },
    }
    proof {
        assert(out@ =~= spec_canonical_text(e));
    }
    out
}

/// Canonicalizes one record: its deterministic file path and its
/// canonical text, or nothing where the title's slug is empty.
pub fn canonicalize(eco: &Ecosystem) -> (r: Option<(String, String)>)
    ensures
        r.deep_view() == spec_canonicalize(eco@),
{
    match canonical_path(eco.title.as_str()) {
        Some(path) => {
            let text = canonical_text(eco);
            Some((path, text))
        },
        None => None,
    }
}

/// One entry per ecosystem of the first `n` whose orderable lists are
/// out of canonical order, in graph order: its title, and its
/// canonical path and text, or nothing for a title with an empty slug.
pub open spec fn spec_sort_plan(g: Seq<EcosystemView>, n: int) -> Seq<
    (Seq<char>, Option<(Seq<char>, Seq<char>)>),
>
    decreases n,
{
    if n <= 0 {
        Seq::empty()
    } else {
        let prev = spec_sort_plan(g, n - 1);
        if crate::validate::needs_sort(g[n - 1]) {
            prev.push((g[n - 1].title, spec_canonicalize(g[n - 1])))
        } else {
            prev
        }
    }
}

/// Plans the rewrite pass: for every ecosystem with unsorted data, its
/// title together with the canonical path and text to write; a missing
/// path marks a title whose slug is empty, which the caller must treat
/// as fatal.
pub fn sort_plan(graph: &crate::graph::TaxonomyGraph) -> (r: Vec<
    (String, Option<(String, String)>),
>)
    ensures
        r.deep_view() == spec_sort_plan(graph@, graph@.len() as int),
{
    let ghost g = graph@;
    let mut r: Vec<(String, Option<(String, String)>)> = Vec::new();
    let n = graph.ecosystems.len();
    let mut i: usize = 0;
    proof {
        assert(r.deep_view() =~= spec_sort_plan(g, 0));
        assert(g.len() == n);
    }
    while i < n
        invariant
            i <= n,
            n == graph.ecosystems@.len(),
            g == graph@,
            g.len() == n,
            r.deep_view() == spec_sort_plan(g, i as int),
        decreases n - i,
    {
        let eco = &graph.ecosystems[i];
        proof {
            assert(eco@ == g[i as int]);
        }
        if crate::validate::ecosystem_needs_sort(eco) {
            let ghost before = r.deep_view();
            let entry = (eco.title.clone(), canonicalize(eco));
            r.push(entry);
            proof {
                assert(r.deep_view() =~= before.push(
                    (g[i as int].title, spec_canonicalize(g[i as int])),
                ));
            }
        }
        i = i + 1;
    }
    r
}

} // verus!
