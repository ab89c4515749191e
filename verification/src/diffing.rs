//! The ordering and diff engine: decides whether a list of strings is
//! already in canonical order — ascending case-insensitive
//! lexicographic order, stable — and, where it is not, renders a
//! unified diff between the list and its sorted copy.

use vstd::prelude::*;
use crate::model::lower;
use crate::model::lower_str;
use crate::order::apply_perm;
use crate::order::keys_sorted;
use crate::order::lemma_apply_identity;
use crate::order::lemma_sort_perm_properties;
use crate::order::lemma_sorted_sort_identity;
use crate::order::perm_view;
use crate::order::sort_indices_by_keys;
use crate::order::sort_perm;
use crate::order::str_seq_le;

verus! {

/// The case-insensitive sort key of every element.
pub open spec fn lower_keys(s: Seq<Seq<char>>) -> Seq<Seq<char>> {
    s.map_values(|e: Seq<char>| lower(e))
}

/// The canonically sorted copy of `s`: a stable sort by lowercased
/// key.
pub open spec fn sorted_copy(s: Seq<Seq<char>>) -> Seq<Seq<char>> {
    apply_perm(s, sort_perm(lower_keys(s)))
}

/// The elements joined into one text, one element per line.
pub open spec fn join_lines_spec(s: Seq<Seq<char>>) -> Seq<char>
    decreases s.len(),
{
    if s.len() == 0 {
        Seq::empty()
    } else if s.len() == 1 {
        s[0]
    } else {
        join_lines_spec(s.drop_last()) + seq!['\n'] + s.last()
    }
}

/// What the diff engine of the `imara-diff` crate renders for a pair
/// of texts; a function of the two texts alone.
pub uninterp spec fn unified_diff(before: Seq<char>, after: Seq<char>) -> Seq<char>;

/// The characters of all elements together.
pub open spec fn sum_lens(s: Seq<Seq<char>>) -> nat
    decreases s.len(),
{
    if s.len() == 0 {
        0
    } else {
        sum_lens(s.drop_last()) + s.last().len()
    }
}

/// A list small enough for the diff engine, which indexes the lines of
/// each joined text with 32-bit indices: the joined text of the list,
/// and of any rearrangement of it, then stays below that limit.
pub open spec fn fits_diff_engine(s: Seq<Seq<char>>) -> bool {
    sum_lens(s) + s.len() < 0x7FFF_FFFE
}

/// A joined text is no longer than all elements plus one separator
/// each.
pub proof fn lemma_join_len_bound(s: Seq<Seq<char>>)
    ensures
        join_lines_spec(s).len() <= sum_lens(s) + s.len(),
    decreases s.len(),
{
    if s.len() <= 1 {
    } else {
        lemma_join_len_bound(s.drop_last());
    }
}

/// The characters that the elements picked by `perm` hold together.
pub open spec fn sum_picked(s: Seq<Seq<char>>, perm: Seq<int>) -> nat
    decreases perm.len(),
{
    if perm.len() == 0 {
        0
    } else {
        sum_picked(s, perm.drop_last()) + s[perm.last()].len()
    }
}

/// A rearrangement holds as many characters as its picks.
pub proof fn lemma_sum_lens_apply(s: Seq<Seq<char>>, perm: Seq<int>)
    ensures
        sum_lens(apply_perm(s, perm)) == sum_picked(s, perm),
    decreases perm.len(),
{
    if perm.len() == 0 {
        assert(apply_perm(s, perm) =~= Seq::<Seq<char>>::empty());
    } else {
        lemma_sum_lens_apply(s, perm.drop_last());
        assert(apply_perm(s, perm).drop_last() =~= apply_perm(s, perm.drop_last()));
        assert(apply_perm(s, perm).last() == s[perm.last()]);
    }
}

/// Dropping one pick subtracts that element's length.
pub proof fn lemma_sum_picked_remove(s: Seq<Seq<char>>, perm: Seq<int>, j: int)
    requires
        0 <= j < perm.len(),
    ensures
        sum_picked(s, perm) == sum_picked(s, perm.remove(j)) + s[perm[j]].len(),
    decreases perm.len(),
{
    perm.remove_ensures(j);
    if j == perm.len() - 1 {
        assert(perm.remove(j) =~= perm.drop_last());
    } else {
        assert(perm.remove(j).drop_last() =~= perm.drop_last().remove(j));
        assert(perm.remove(j).last() == perm.last());
        lemma_sum_picked_remove(s, perm.drop_last(), j);
    }
}

/// Picks that never reach the last element read the shorter list the
/// same way.
pub proof fn lemma_sum_picked_shorter(s: Seq<Seq<char>>, perm: Seq<int>)
    requires
        s.len() > 0,
        forall|i: int| 0 <= i < perm.len() ==> 0 <= #[trigger] perm[i] < s.len() - 1,
    ensures
        sum_picked(s, perm) == sum_picked(s.drop_last(), perm),
    decreases perm.len(),
{
    if perm.len() > 0 {
        lemma_sum_picked_shorter(s, perm.drop_last());
        assert(s.drop_last()[perm.last()] == s[perm.last()]);
    }
}

/// Distinct picks hold no more characters than the whole list.
pub proof fn lemma_sum_picked_bound(s: Seq<Seq<char>>, perm: Seq<int>)
    requires
        forall|i: int| 0 <= i < perm.len() ==> 0 <= #[trigger] perm[i] < s.len(),
        forall|i: int, j: int| 0 <= i < j < perm.len() ==> perm[i] != perm[j],
    ensures
        sum_picked(s, perm) <= sum_lens(s),
    decreases s.len(),
{
    if s.len() == 0 {
        if perm.len() > 0 {
            assert(0 <= perm[0] < 0);
        }
    } else if exists|j: int| 0 <= j < perm.len() && #[trigger] perm[j] == s.len() - 1 {
        let j = choose|j: int| 0 <= j < perm.len() && #[trigger] perm[j] == s.len() - 1;
        lemma_sum_picked_remove(s, perm, j);
        let rest = perm.remove(j);
        perm.remove_ensures(j);
        assert forall|i: int| 0 <= i < rest.len() implies 0 <= #[trigger] rest[i] < s.len()
            - 1 by {
            if i < j {
                assert(rest[i] == perm[i]);
                assert(perm[i] != perm[j]);
            } else {
                assert(rest[i] == perm[i + 1]);
                assert(perm[i + 1] != perm[j]);
            }
        }
        assert forall|i: int, k: int| 0 <= i < k < rest.len() implies rest[i] != rest[k] by {
            let pi = if i < j {
                i
            } else {
                i + 1
            };
            let pk = if k < j {
                k
            } else {
                k + 1
            };
            assert(rest[i] == perm[pi] && rest[k] == perm[pk]);
        }
        lemma_sum_picked_shorter(s, rest);
        lemma_sum_picked_bound(s.drop_last(), rest);
    } else {
        assert(forall|i: int| 0 <= i < perm.len() ==> 0 <= #[trigger] perm[i] < s.len() - 1);
        lemma_sum_picked_shorter(s, perm);
        lemma_sum_picked_bound(s.drop_last(), perm);
    }
}

/// The engine's verdict on a list: nothing where the list is empty or
/// already equals its canonically sorted copy, otherwise the unified
/// diff from the list to that copy, one element per line.
pub open spec fn misordered_diff(s: Seq<Seq<char>>) -> Option<Seq<char>> {
    if s.len() == 0 || s == sorted_copy(s) {
        None
    } else {
        Some(unified_diff(join_lines_spec(s), join_lines_spec(sorted_copy(s))))
    }
}

/// Relies on `imara_diff::Diff::compute` with the histogram algorithm
/// and `BasicLineDiffPrinter`: a unified diff between the two texts, a
/// deterministic function of them, and non-empty where the texts
/// differ (every difference yields a hunk, and the printer writes at
/// least a header line for it).  The engine indexes each text's line
/// tokens with 32-bit indices and asserts that there are fewer than
/// `i32::MAX` of them; a text has at most one line per character plus
/// one, so texts shorter than `0x7FFF_FFFE` characters stay below the
/// assertion.
#[verifier::external_body]
fn unified_diff_exec(before: &str, after: &str) -> (r: String)
    requires
        before@.len() < 0x7FFF_FFFE,
        after@.len() < 0x7FFF_FFFE,
    ensures
        r@ == unified_diff(before@, after@),
        before@ != after@ ==> r@.len() > 0,
{
    let input = imara_diff::InternedInput::new(before, after);
    let diff = imara_diff::Diff::compute(imara_diff::Algorithm::Histogram, &input);
    diff.unified_diff(
        &imara_diff::BasicLineDiffPrinter(&input.interner),
        imara_diff::UnifiedDiffConfig::default(),
        &input,
    ).to_string()
}

/// Computes the lowercased sort key of every element.
pub fn compute_lower_keys(items: &Vec<String>) -> (keys: Vec<String>)
    ensures
        keys.deep_view() == lower_keys(items.deep_view()),
        keys@.len() == items@.len(),
{
    let mut keys: Vec<String> = Vec::new();
    let n = items.len();
    let mut i: usize = 0;
    while i < n
        invariant
            i <= n,
            n == items@.len(),
            keys@.len() == i,
            forall|j: int| 0 <= j < i ==> (#[trigger] keys@[j])@ == lower(items@[j]@),
        decreases n - i,
    {
        keys.push(lower_str(items[i].as_str()));
        i = i + 1;
    }
    proof {
        assert forall|j: int| 0 <= j < n implies keys.deep_view()[j] == lower_keys(
            items.deep_view(),
        )[j] by {
            assert(keys.deep_view()[j] == keys@[j]@);
            assert(items.deep_view()[j] == items@[j]@);
        }
        assert(keys.deep_view() =~= lower_keys(items.deep_view()));
    }
    keys
}

/// Decides whether the keys are already in non-decreasing order.
pub fn keys_are_sorted(keys: &Vec<String>) -> (r: bool)
    ensures
        r == keys_sorted(keys.deep_view()),
{
    let n = keys.len();
    let mut i: usize = 0;
    if n == 0 {
        return true;
    }
    while i + 1 < n
        invariant
            i < n,
            n == keys@.len(),
            forall|j: int|
                0 <= j < i ==> crate::order::seq_le(
                    #[trigger] keys.deep_view()[j],
                    keys.deep_view()[j + 1],
                ),
        decreases n - i,
    {
        proof {
            assert(keys.deep_view()[i as int] == keys@[i as int]@);
            assert(keys.deep_view()[i + 1] == keys@[i + 1]@);
        }
        if !str_seq_le(keys[i].as_str(), keys[i + 1].as_str()) {
            return false;
        }
        i = i + 1;
    }
    proof {
        assert forall|j: int| 0 <= j < n - 1 implies crate::order::seq_le(
            #[trigger] keys.deep_view()[j],
            keys.deep_view()[j + 1],
        ) by {
            assert(keys.deep_view()[j] == keys@[j]@);
            assert(keys.deep_view()[j + 1] == keys@[j + 1]@);
        }
    }
    true
}

/// Joins the elements into one text, one element per line.
pub fn join_lines(items: &Vec<String>) -> (r: String)
    ensures
        r@ == join_lines_spec(items.deep_view()),
{
    let mut out = String::new();
    let n = items.len();
    let mut i: usize = 0;
    proof {
        reveal_strlit("\n");
    }
    while i < n
        invariant
            i <= n,
            n == items@.len(),
            "\n"@ == seq!['\n'],
            out@ == join_lines_spec(items.deep_view().take(i as int)),
        decreases n - i,
    {
        if i > 0 {
            out.append("\n");
        }
        out.append(items[i].as_str());
        proof {
            let v = items.deep_view();
            assert(v.take(i + 1).drop_last() =~= v.take(i as int));
            assert(v.take(i + 1).last() == v[i as int]);
            if i == 0 {
                assert(v.take(1) =~= seq![v[0]]);
            }
        }
        i = i + 1;
    }
    proof {
        assert(items.deep_view().take(n as int) =~= items.deep_view());
    }
    out
}

/// Joins the elements, rearranged by `perm`, into one text, one
/// element per line.
pub fn join_lines_arranged(items: &Vec<String>, perm: &Vec<usize>) -> (r: String)
    requires
        forall|i: int| 0 <= i < perm@.len() ==> #[trigger] perm@[i] < items@.len(),
    ensures
        r@ == join_lines_spec(apply_perm(items.deep_view(), perm_view(perm@))),
{
    let ghost arranged = apply_perm(items.deep_view(), perm_view(perm@));
    let mut out = String::new();
    let n = perm.len();
    let mut i: usize = 0;
    proof {
        reveal_strlit("\n");
        assert(arranged.len() == n);
    }
    while i < n
        invariant
            i <= n,
            n == perm@.len(),
            arranged == apply_perm(items.deep_view(), perm_view(perm@)),
            arranged.len() == n,
            forall|k: int| 0 <= k < perm@.len() ==> #[trigger] perm@[k] < items@.len(),
            "\n"@ == seq!['\n'],
            out@ == join_lines_spec(arranged.take(i as int)),
        decreases n - i,
    {
        if i > 0 {
            out.append("\n");
        }
        let idx = perm[i];
        out.append(items[idx].as_str());
        proof {
            assert(arranged[i as int] == items.deep_view()[perm@[i as int] as int]);
            assert(arranged.take(i + 1).drop_last() =~= arranged.take(i as int));
            assert(arranged.take(i + 1).last() == arranged[i as int]);
            if i == 0 {
                assert(arranged.take(1) =~= seq![arranged[0]]);
            }
        }
        i = i + 1;
    }
    proof {
        assert(arranged.take(n as int) =~= arranged);
    }
    out
}

/// Keys of a rearranged list are the rearranged keys.
pub proof fn lemma_lower_keys_apply_commute(s: Seq<Seq<char>>, perm: Seq<int>)
    requires
        forall|i: int| 0 <= i < perm.len() ==> 0 <= #[trigger] perm[i] < s.len(),
    ensures
        lower_keys(apply_perm(s, perm)) == apply_perm(lower_keys(s), perm),
{
    assert(lower_keys(apply_perm(s, perm)) =~= apply_perm(lower_keys(s), perm));
}

/// A list equals its canonically sorted copy exactly when its keys are
/// already in non-decreasing order.
pub proof fn lemma_sorted_copy_identity(s: Seq<Seq<char>>)
    ensures
        keys_sorted(lower_keys(s)) <==> s == sorted_copy(s),
{
    let keys = lower_keys(s);
    lemma_sort_perm_properties(keys);
    if keys_sorted(keys) {
        lemma_sorted_sort_identity(keys);
        lemma_apply_identity(s);
        assert(s.len() == keys.len());
        assert(sorted_copy(s) == s);
    }
    if s == sorted_copy(s) {
        let perm = sort_perm(keys);
        lemma_lower_keys_apply_commute(s, perm);
        assert(lower_keys(sorted_copy(s)) == apply_perm(keys, perm));
        assert(keys_sorted(apply_perm(keys, perm))) by {
            assert forall|i: int| 0 <= i < apply_perm(keys, perm).len() - 1 implies crate::order::seq_le(
                #[trigger] apply_perm(keys, perm)[i],
                apply_perm(keys, perm)[i + 1],
            ) by {
                assert(apply_perm(keys, perm)[i] == keys[perm[i]]);
                assert(apply_perm(keys, perm)[i + 1] == keys[perm[i + 1]]);
            }
        }
        assert(keys == lower_keys(sorted_copy(s)));
    }
}

/// Decides whether the engine would report the list, without rendering
/// the diff: true exactly where the list is non-empty and out of
/// canonical order.
pub fn strings_misordered(items: &Vec<String>) -> (r: bool)
    ensures
        r == (misordered_diff(items.deep_view()) is Some),
{
    if items.len() == 0 {
        proof {
            assert(items.deep_view().len() == 0);
        }
        return false;
    }
    let keys = compute_lower_keys(items);
    proof {
        lemma_sorted_copy_identity(items.deep_view());
    }
    let sorted = keys_are_sorted(&keys);
    !sorted
}

/// Reports nothing where the list is empty or already canonically
/// ordered, and otherwise the unified diff from the list to its
/// canonically sorted copy, non-empty whenever the two joined texts
/// differ.  The list must fit the diff engine, whose line indices are
/// 32 bits wide.
pub fn find_misordered_elements_diff(items: &Vec<String>) -> (r: Option<String>)
    requires
        fits_diff_engine(items.deep_view()),
    ensures
        r.deep_view() == misordered_diff(items.deep_view()),
        r matches Some(d) ==> (join_lines_spec(items.deep_view()) != join_lines_spec(
            sorted_copy(items.deep_view()),
        ) ==> d@.len() > 0),
{
    let ghost s = items.deep_view();
    if items.len() == 0 {
        proof {
            assert(s.len() == items@.len());
        }
        return None;
    }
    let keys = compute_lower_keys(items);
    proof {
        lemma_sorted_copy_identity(s);
    }
    if keys_are_sorted(&keys) {
        return None;
    }
    let perm = sort_indices_by_keys(&keys);
    let before = join_lines(items);
    let after = join_lines_arranged(items, &perm);
    proof {
        lemma_join_len_bound(s);
        lemma_sort_perm_properties(lower_keys(s));
        lemma_sum_lens_apply(s, sort_perm(lower_keys(s)));
        lemma_sum_picked_bound(s, sort_perm(lower_keys(s)));
        lemma_join_len_bound(sorted_copy(s));
        assert(sorted_copy(s).len() == s.len());
    }
    let diff = unified_diff_exec(before.as_str(), after.as_str());
    Some(diff)
}

} // verus!
