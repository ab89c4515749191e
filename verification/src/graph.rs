//! The taxonomy graph: the full title-keyed collection of ecosystems,
//! built once from the parsed records.

use vstd::prelude::*;
use crate::errors::ValidationError;
use crate::errors::ValidationErrorView;
use crate::model::Ecosystem;
use crate::model::EcosystemView;
use crate::model::check_title_whitespace;
use crate::model::title_has_edge_whitespace;

verus! {

/// The full taxonomy: every ecosystem record, with titles unique.  The
/// order is the order in which the records were handed in.
pub struct TaxonomyGraph {
    pub ecosystems: Vec<Ecosystem>,
}

impl View for TaxonomyGraph {
    type V = Seq<EcosystemView>;

    open spec fn view(&self) -> Seq<EcosystemView> {
        self.ecosystems.deep_view()
    }
}

/// The first position carrying title `t`, or `-1` where no ecosystem
/// does.
pub open spec fn find_title(g: Seq<EcosystemView>, t: Seq<char>) -> int
    decreases g.len(),
{
    if g.len() == 0 {
        -1
    } else if g[0].title == t {
        0
    } else {
        let rest = find_title(g.drop_first(), t);
        if rest == -1 {
            -1
        } else {
            rest + 1
        }
    }
}

/// Some ecosystem of the graph carries title `t`.
pub open spec fn has_title(g: Seq<EcosystemView>, t: Seq<char>) -> bool {
    find_title(g, t) >= 0
}

/// No two ecosystems of the graph share a title.
pub open spec fn graph_wf(g: Seq<EcosystemView>) -> bool {
    forall|i: int, j: int| 0 <= i < j < g.len() ==> (#[trigger] g[i].title) != (#[trigger] g[j].title)
}

/// What `find_title` finds: the first position with the title, within
/// bounds, or `-1` where no position carries it.
pub proof fn lemma_find_title_characterization(g: Seq<EcosystemView>, t: Seq<char>)
    ensures
        find_title(g, t) == -1 ==> forall|i: int| 0 <= i < g.len() ==> (#[trigger] g[i].title)
            != t,
        find_title(g, t) != -1 ==> 0 <= find_title(g, t) < g.len() && g[find_title(g, t)].title
            == t && forall|i: int| 0 <= i < find_title(g, t) ==> (#[trigger] g[i].title) != t,
    decreases g.len(),
{
    if g.len() == 0 {
    } else if g[0].title == t {
    } else {
        let rest = g.drop_first();
        lemma_find_title_characterization(rest, t);
        if find_title(rest, t) == -1 {
            assert forall|i: int| 0 <= i < g.len() implies (#[trigger] g[i].title) != t by {
                if i > 0 {
                    assert(rest[i - 1] == g[i]);
                }
            }
        } else {
            let r = find_title(g, t);
            assert(r == find_title(rest, t) + 1);
            assert(g[r] == rest[r - 1]);
            assert forall|i: int| 0 <= i < r implies (#[trigger] g[i].title) != t by {
                if i > 0 {
                    assert(rest[i - 1] == g[i]);
                }
            }
        }
    }
}

/// A first occurrence determines `find_title`.
pub proof fn lemma_find_title_at(g: Seq<EcosystemView>, t: Seq<char>, at: int)
    requires
        0 <= at < g.len(),
        g[at].title == t,
        forall|i: int| 0 <= i < at ==> (#[trigger] g[i].title) != t,
    ensures
        find_title(g, t) == at,
    decreases g.len(),
{
    if at == 0 {
    } else {
        let rest = g.drop_first();
        assert(forall|i: int| 0 <= i < rest.len() ==> #[trigger] rest[i] == g[i + 1]);
        lemma_find_title_at(rest, t, at - 1);
    }
}

/// Scans the graph for the first ecosystem carrying title `t`.
pub fn title_index(ecosystems: &Vec<Ecosystem>, t: &String) -> (r: Option<usize>)
    ensures
        match r {
            Some(i) => 0 <= i < ecosystems@.len() && find_title(ecosystems.deep_view(), t@)
                == i as int,
            None => find_title(ecosystems.deep_view(), t@) == -1,
        },
{
    let ghost g = ecosystems.deep_view();
    let n = ecosystems.len();
    let mut i: usize = 0;
    while i < n
        invariant
            i <= n,
            n == ecosystems@.len(),
            g == ecosystems.deep_view(),
            g.len() == n,
            forall|j: int| 0 <= j < i ==> (#[trigger] g[j].title) != t@,
        decreases n - i,
    {
        proof {
            assert(g[i as int] == ecosystems@[i as int]@);
        }
        if ecosystems[i].title == *t {
            proof {
                lemma_find_title_at(g, t@, i as int);
            }
            return Some(i);
        }
        i = i + 1;
    }
    proof {
        lemma_find_title_characterization(g, t@);
        if find_title(g, t@) != -1 {
            assert(g[find_title(g, t@)].title == t@);
        }
    }
    None
}

/// The graph and the title errors that building from `records`
/// produces: each record joins the graph, replacing an earlier record
/// of the same title, and a title with leading or trailing whitespace
/// is flagged against its file.
pub open spec fn build_graph_spec(records: Seq<(Seq<char>, EcosystemView)>) -> (
    Seq<EcosystemView>,
    Seq<ValidationErrorView>,
)
    decreases records.len(),
{
    if records.len() == 0 {
        (Seq::empty(), Seq::empty())
    } else {
        let prev = build_graph_spec(records.drop_last());
        let file = records.last().0;
        let e = records.last().1;
        let errs = if title_has_edge_whitespace(e.title) {
            prev.1.push(ValidationErrorView::TitleError(file))
        } else {
            prev.1
        };
        let at = find_title(prev.0, e.title);
        let g = if at >= 0 {
            prev.0.update(at, e)
        } else {
            prev.0.push(e)
        };
        (g, errs)
    }
}

/// Building keeps titles unique.
pub proof fn lemma_build_graph_wf(records: Seq<(Seq<char>, EcosystemView)>)
    ensures
        graph_wf(build_graph_spec(records).0),
    decreases records.len(),
{
    if records.len() == 0 {
    } else {
        lemma_build_graph_wf(records.drop_last());
        let prev = build_graph_spec(records.drop_last()).0;
        let e = records.last().1;
        let at = find_title(prev, e.title);
        lemma_find_title_characterization(prev, e.title);
        if at >= 0 {
            let g = prev.update(at, e);
            assert forall|i: int, j: int| 0 <= i < j < g.len() implies (#[trigger] g[i].title)
                != (#[trigger] g[j].title) by {
                assert(prev[at].title == e.title);
            }
        } else {
            let g = prev.push(e);
            assert forall|i: int, j: int| 0 <= i < j < g.len() implies (#[trigger] g[i].title)
                != (#[trigger] g[j].title) by {
                if j == g.len() - 1 {
                    assert(g[i] == prev[i]);
                }
            }
        }
    }
}

/// Every ecosystem of the built graph is one of the records'
/// ecosystems.
pub proof fn lemma_build_graph_members(records: Seq<(Seq<char>, EcosystemView)>)
    ensures
        forall|k: int|
            0 <= k < build_graph_spec(records).0.len() ==> exists|i: int|
                0 <= i < records.len() && #[trigger] build_graph_spec(records).0[k] == records[i].1,
    decreases records.len(),
{
    if records.len() == 0 {
    } else {
        let shorter = records.drop_last();
        lemma_build_graph_members(shorter);
        let prev = build_graph_spec(shorter).0;
        let e = records.last().1;
        let at = find_title(prev, e.title);
        let g = build_graph_spec(records).0;
        lemma_find_title_characterization(prev, e.title);
        assert(g == if at >= 0 {
            prev.update(at, e)
        } else {
            prev.push(e)
        });
        assert forall|k: int| 0 <= k < g.len() implies exists|i: int|
            0 <= i < records.len() && #[trigger] g[k] == records[i].1 by {
            if (at >= 0 && k == at) || (at < 0 && k == g.len() - 1) {
                assert(g[k] == records[records.len() - 1].1);
            } else {
                assert(0 <= k < prev.len());
                assert(g[k] == prev[k]);
                assert(exists|i: int| 0 <= i < shorter.len() && #[trigger] prev[k] == shorter[i].1);
                let i = choose|i: int| 0 <= i < shorter.len() && #[trigger] prev[k] == shorter[i].1;
                assert(g[k] == records[i].1);
            }
        }
    }
}

/// Builds the taxonomy graph from parsed records, each a source file
/// identifier and the ecosystem it holds, and flags every title that
/// carries leading or trailing whitespace.
pub fn build_graph(records: Vec<(String, Ecosystem)>) -> (r: (TaxonomyGraph, Vec<ValidationError>))
    ensures
        r.0@ == build_graph_spec(records.deep_view()).0,
        r.1.deep_view() == build_graph_spec(records.deep_view()).1,
        graph_wf(r.0@),
{
    let ghost rv = records.deep_view();
    let mut records = records;
    let mut ecosystems: Vec<Ecosystem> = Vec::new();
    let mut errors: Vec<ValidationError> = Vec::new();
    let ghost mut processed: Seq<(Seq<char>, EcosystemView)> = Seq::empty();
    proof {
        assert(processed + records.deep_view() =~= rv);
        assert(ecosystems.deep_view() =~= build_graph_spec(processed).0);
        assert(errors.deep_view() =~= build_graph_spec(processed).1);
    }
    while records.len() > 0
        invariant
            processed + records.deep_view() == rv,
            processed.len() + records@.len() == rv.len(),
            ecosystems.deep_view() == build_graph_spec(processed).0,
            errors.deep_view() == build_graph_spec(processed).1,
        decreases records@.len(),
    {
        let ghost old_records = records@;
        let ghost old_dv = records.deep_view();
        let ghost old_processed = processed;
        let (file, eco) = records.remove(0);
        proof {
            assert(records@ =~= old_records.drop_first());
            assert forall|k: int| 0 <= k < records@.len() implies #[trigger] records.deep_view()[k]
                == old_dv[k + 1] by {
                assert(records@[k] == old_records[k + 1]);
            }
            assert((file@, eco@) == old_dv[0]);
            processed = processed.push((file@, eco@));
            assert forall|k: int| 0 <= k < rv.len() implies #[trigger] rv[k] == (processed
                + records.deep_view())[k] by {
                assert(rv[k] == (old_processed + old_dv)[k]);
            }
            assert(processed + records.deep_view() =~= rv);
        }
        if check_title_whitespace(&eco.title) {
            errors.push(ValidationError::TitleError(file));
        }
        let at = title_index(&ecosystems, &eco.title);
        match at {
            Some(i) => {
                ecosystems[i] = eco;
            },
            None => {
                ecosystems.push(eco);
            },
        }
        proof {
            assert(processed.drop_last() =~= old_processed);
            assert(processed.last() == (file@, eco@));
            assert(processed + records.deep_view() =~= rv);
            assert(ecosystems.deep_view() =~= build_graph_spec(processed).0);
            assert(errors.deep_view() =~= build_graph_spec(processed).1);
        }
    }
    proof {
        assert(processed =~= rv);
        lemma_build_graph_wf(rv);
    }
    (TaxonomyGraph { ecosystems }, errors)
}

} // verus!
