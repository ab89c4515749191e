//! The repositories-only export projection: each ecosystem that names
//! repositories, with its repository URLs in record order, keyed by
//! title.

use vstd::prelude::*;
use crate::graph::TaxonomyGraph;
use crate::model::EcosystemView;
use crate::model::repos_of;
use crate::model::urls_of;
use crate::validate::collect_urls;

verus! {

/// One entry per ecosystem of the first `n` that names at least one
/// repository, in graph order: its title and its repository URLs as
/// written.
pub open spec fn spec_repos_export(g: Seq<EcosystemView>, n: int) -> Seq<
    (Seq<char>, Seq<Seq<char>>),
>
    decreases n,
{
    if n <= 0 {
        Seq::empty()
    } else {
        let prev = spec_repos_export(g, n - 1);
        if repos_of(g[n - 1]).len() > 0 {
            prev.push((g[n - 1].title, urls_of(repos_of(g[n - 1]))))
        } else {
            prev
        }
    }
}

/// Projects the graph onto title-to-repository-URL pairs for the
/// repositories-only export; an ecosystem without repositories gets no
/// entry.
pub fn repos_by_ecosystem(graph: &TaxonomyGraph) -> (r: Vec<(String, Vec<String>)>)
    ensures
        r.deep_view() == spec_repos_export(graph@, graph@.len() as int),
{
    let ghost g = graph@;
    let mut r: Vec<(String, Vec<String>)> = Vec::new();
    let n = graph.ecosystems.len();
    let mut i: usize = 0;
    proof {
        assert(r.deep_view() =~= spec_repos_export(g, 0));
        assert(g.len() == n);
    }
    while i < n
        invariant
            i <= n,
            n == graph.ecosystems@.len(),
            g == graph@,
            g.len() == n,
            r.deep_view() == spec_repos_export(g, i as int),
        decreases n - i,
    {
        let eco = &graph.ecosystems[i];
        proof {
            assert(eco@ == g[i as int]);
        }
        match &eco.repo {
            Some(repos) => {
                if repos.len() > 0 {
                    let ghost before = r.deep_view();
                    let urls = collect_urls(repos);
                    r.push((eco.title.clone(), urls));
                    proof {
                        assert(repos.deep_view() == repos_of(g[i as int]));
                        assert(r.deep_view() =~= before.push(
                            (g[i as int].title, urls_of(repos_of(g[i as int]))),
                        ));
                    }
                }
            },
            None => {},
        }
        i = i + 1;
    }
    r
}

} // verus!
