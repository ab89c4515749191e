//! Canonical ordering: ascending case-insensitive lexicographic order,
//! with ties broken by original position (a stable sort).
//!
//! The order on already-lowercased keys is plain lexicographic order on
//! character code points, `seq_le`.  A stable insertion sort is defined
//! in specification form by `sort_perm`, which maps a sequence of keys
//! to the permutation of indices that sorts it; executable code
//! computes exactly that permutation.

use vstd::prelude::*;

verus! {

/// Lexicographic order on sequences of characters, by code point.
pub open spec fn seq_le(a: Seq<char>, b: Seq<char>) -> bool
    decreases a.len(),
{
    if a.len() == 0 {
        true
    } else if b.len() == 0 {
        false
    } else if a[0] == b[0] {
        seq_le(a.drop_first(), b.drop_first())
    } else {
        (a[0] as u32) < (b[0] as u32)
    }
}

/// Compares two strings in lexicographic code-point order.
pub fn str_seq_le(a: &str, b: &str) -> (r: bool)
    ensures
        r == seq_le(a@, b@),
{
    let a_len = a.unicode_len();
    let b_len = b.unicode_len();
    let mut i: usize = 0;
    proof {
        assert(a@.skip(0) =~= a@);
        assert(b@.skip(0) =~= b@);
    }
    loop
        invariant
            i <= a_len,
            i <= b_len,
            a_len == a@.len(),
            b_len == b@.len(),
            seq_le(a@, b@) == seq_le(a@.skip(i as int), b@.skip(i as int)),
        decreases a_len - i,
    {
        if i >= a_len {
            proof {
                assert(a@.skip(i as int).len() == 0);
            }
            return true;
        }
        if i >= b_len {
            proof {
                assert(b@.skip(i as int).len() == 0);
                assert(a@.skip(i as int).len() > 0);
            }
            return false;
        }
        let ca = a.get_char(i);
        let cb = b.get_char(i);
        proof {
            assert(a@.skip(i as int)[0] == a@[i as int]);
            assert(b@.skip(i as int)[0] == b@[i as int]);
        }
        if ca != cb {
            return (ca as u32) < (cb as u32);
        }
        proof {
            assert(a@.skip(i as int).drop_first() =~= a@.skip(i + 1));
            assert(b@.skip(i as int).drop_first() =~= b@.skip(i + 1));
        }
        i = i + 1;
    }
}

/// `seq_le` is total: of any two keys, one is less than or equal to the
/// other.
pub proof fn lemma_seq_le_total(a: Seq<char>, b: Seq<char>)
    ensures
        seq_le(a, b) || seq_le(b, a),
    decreases a.len(),
{
    if a.len() == 0 || b.len() == 0 {
    } else if a[0] == b[0] {
        lemma_seq_le_total(a.drop_first(), b.drop_first());
    } else {
        vstd::utf8::char_u32_cast(a[0], a[0] as u32);
        vstd::utf8::char_u32_cast(b[0], b[0] as u32);
    }
}

/// `seq_le` is transitive.
pub proof fn lemma_seq_le_transitive(a: Seq<char>, b: Seq<char>, c: Seq<char>)
    requires
        seq_le(a, b),
        seq_le(b, c),
    ensures
        seq_le(a, c),
    decreases a.len(),
{
    if a.len() == 0 || b.len() == 0 || c.len() == 0 {
    } else if a[0] == b[0] && b[0] == c[0] {
        lemma_seq_le_transitive(a.drop_first(), b.drop_first(), c.drop_first());
    }
}

/// `keys` is in non-decreasing lexicographic order.
pub open spec fn keys_sorted(keys: Seq<Seq<char>>) -> bool {
    forall|i: int| 0 <= i < keys.len() - 1 ==> seq_le(#[trigger] keys[i], keys[i + 1])
}

/// In a sorted run of keys, any earlier key is less than or equal to
/// any later one.
pub proof fn lemma_keys_sorted_range(keys: Seq<Seq<char>>, i: int, j: int)
    requires
        keys_sorted(keys),
        0 <= i <= j < keys.len(),
    ensures
        seq_le(keys[i], keys[j]),
    decreases j - i,
{
    if i == j {
        lemma_seq_le_total(keys[i], keys[i]);
    } else {
        lemma_keys_sorted_range(keys, i, j - 1);
        lemma_seq_le_transitive(keys[i], keys[j - 1], keys[j]);
    }
}

/// The position at which an element with key `k` joins the already
/// sorted arrangement `perm` of earlier elements: after every element
/// whose key is less than or equal to `k`, which keeps equal keys in
/// their original relative order.
pub open spec fn insert_pos(keys: Seq<Seq<char>>, perm: Seq<int>, k: Seq<char>) -> int
    decreases perm.len(),
{
    if perm.len() == 0 {
        0
    } else if seq_le(keys[perm.last()], k) {
        perm.len() as int
    } else {
        insert_pos(keys, perm.drop_last(), k)
    }
}

/// The permutation of `0 .. keys.len()` produced by a stable insertion
/// sort of `keys` in `seq_le` order.
pub open spec fn sort_perm(keys: Seq<Seq<char>>) -> Seq<int>
    decreases keys.len(),
{
    if keys.len() == 0 {
        Seq::empty()
    } else {
        let prev = sort_perm(keys.drop_last());
        prev.insert(insert_pos(keys, prev, keys.last()), keys.len() - 1)
    }
}

/// The sequence `s` rearranged by the index permutation `perm`.
pub open spec fn apply_perm<T>(s: Seq<T>, perm: Seq<int>) -> Seq<T> {
    Seq::new(perm.len(), |i: int| s[perm[i]])
}

/// A permutation arranges keys in sorted order.
pub open spec fn perm_arranges_sorted(keys: Seq<Seq<char>>, perm: Seq<int>) -> bool {
    forall|i: int|
        0 <= i < perm.len() - 1 ==> seq_le(keys[#[trigger] perm[i]], keys[perm[i + 1]])
}

/// All entries of `perm` lie below `n`.
pub open spec fn perm_in_range(perm: Seq<int>, n: int) -> bool {
    forall|i: int| 0 <= i < perm.len() ==> 0 <= #[trigger] perm[i] < n
}

/// What `insert_pos` finds: a boundary with keys at most `k` on its
/// left and keys strictly greater than `k` on its right.
pub proof fn lemma_insert_pos_properties(keys: Seq<Seq<char>>, perm: Seq<int>, k: Seq<char>)
    requires
        perm_in_range(perm, keys.len() as int),
        perm_arranges_sorted(keys, perm),
    ensures
        0 <= insert_pos(keys, perm, k) <= perm.len(),
        forall|i: int|
            0 <= i < insert_pos(keys, perm, k) ==> seq_le(keys[#[trigger] perm[i]], k),
        forall|i: int|
            insert_pos(keys, perm, k) <= i < perm.len() ==> !seq_le(keys[#[trigger] perm[i]], k)
                && seq_le(k, keys[perm[i]]),
    decreases perm.len(),
{
    let p = insert_pos(keys, perm, k);
    if perm.len() == 0 {
    } else if seq_le(keys[perm.last()], k) {
        assert forall|i: int| 0 <= i < p implies seq_le(keys[#[trigger] perm[i]], k) by {
            lemma_perm_arranges_sorted_range(keys, perm, i, perm.len() - 1);
            lemma_seq_le_transitive(keys[perm[i]], keys[perm.last()], k);
        }
    } else {
        let prev = perm.drop_last();
        assert(perm_in_range(prev, keys.len() as int));
        assert(perm_arranges_sorted(keys, prev));
        lemma_insert_pos_properties(keys, prev, k);
        assert(p == insert_pos(keys, prev, k));
        assert forall|i: int| p <= i < perm.len() implies !seq_le(keys[#[trigger] perm[i]], k)
            && seq_le(k, keys[perm[i]]) by {
            if i < perm.len() - 1 {
                assert(prev[i] == perm[i]);
            } else {
                lemma_seq_le_total(k, keys[perm[i]]);
            }
        }
        assert forall|i: int| 0 <= i < p implies seq_le(keys[#[trigger] perm[i]], k) by {
            assert(prev[i] == perm[i]);
        }
    }
}

/// In a sorted arrangement, an earlier position carries a key less
/// than or equal to a later one.
pub proof fn lemma_perm_arranges_sorted_range(
    keys: Seq<Seq<char>>,
    perm: Seq<int>,
    i: int,
    j: int,
)
    requires
        perm_arranges_sorted(keys, perm),
        0 <= i <= j < perm.len(),
    ensures
        seq_le(keys[perm[i]], keys[perm[j]]),
    decreases j - i,
{
    if i == j {
        lemma_seq_le_total(keys[perm[i]], keys[perm[i]]);
    } else {
        lemma_perm_arranges_sorted_range(keys, perm, i, j - 1);
        lemma_seq_le_transitive(keys[perm[i]], keys[perm[j - 1]], keys[perm[j]]);
    }
}

/// The stable insertion sort permutation has one entry per key, keeps
/// every entry in range and distinct, and arranges the keys in sorted
/// order.
pub proof fn lemma_sort_perm_properties(keys: Seq<Seq<char>>)
    ensures
        sort_perm(keys).len() == keys.len(),
        perm_in_range(sort_perm(keys), keys.len() as int),
        perm_arranges_sorted(keys, sort_perm(keys)),
        forall|i: int, j: int|
            0 <= i < j < sort_perm(keys).len() ==> #[trigger] sort_perm(keys)[i]
                != #[trigger] sort_perm(keys)[j],
    decreases keys.len(),
{
    if keys.len() == 0 {
    } else {
        let shorter = keys.drop_last();
        lemma_sort_perm_properties(shorter);
        let prev = sort_perm(shorter);
        let k = keys.last();
        let j = keys.len() - 1;
        assert(perm_in_range(prev, j)) by {
            assert(forall|i: int|
                0 <= i < prev.len() ==> 0 <= #[trigger] prev[i] < shorter.len());
        }
        assert(perm_arranges_sorted(keys, prev)) by {
            assert forall|i: int|
                0 <= i < prev.len() - 1 implies seq_le(
                keys[#[trigger] prev[i]],
                keys[prev[i + 1]],
            ) by {
                assert(shorter[prev[i]] == keys[prev[i]]);
                assert(shorter[prev[i + 1]] == keys[prev[i + 1]]);
            }
        }
        lemma_insert_pos_properties(keys, prev, k);
        let p = insert_pos(keys, prev, k);
        let perm = prev.insert(p, j);
        prev.insert_ensures(p, j);
        assert(perm.len() == keys.len());
        assert(perm_in_range(perm, keys.len() as int));
        assert forall|i: int|
            0 <= i < perm.len() - 1 implies seq_le(keys[#[trigger] perm[i]], keys[perm[i + 1]]) by {
            if i + 1 < p {
                assert(perm[i] == prev[i] && perm[i + 1] == prev[i + 1]);
            } else if i + 1 == p {
                assert(perm[i] == prev[i] && perm[i + 1] == j);
                assert(seq_le(keys[prev[i]], k));
            } else if i == p {
                assert(perm[i] == j && perm[i + 1] == prev[i]);
                assert(seq_le(k, keys[prev[i]]));
            } else {
                assert(perm[i] == prev[i - 1] && perm[i + 1] == prev[i]);
            }
        }
        assert forall|i: int, l: int|
            0 <= i < l < perm.len() implies #[trigger] perm[i] != #[trigger] perm[l] by {
            let pi = if i < p {
                prev[i]
            } else if i == p {
                j
            } else {
                prev[i - 1]
            };
            let pl = if l < p {
                prev[l]
            } else if l == p {
                j
            } else {
                prev[l - 1]
            };
            assert(perm[i] == pi && perm[l] == pl);
            assert(pi == j || pi < j);
            assert(pl == j || pl < j);
        }
    }
}

/// The identity permutation on `0 .. n`.
pub open spec fn identity_perm(n: int) -> Seq<int> {
    Seq::new(n as nat, |i: int| i)
}

/// Sorting keys that are already in order moves nothing.
pub proof fn lemma_sorted_sort_identity(keys: Seq<Seq<char>>)
    requires
        keys_sorted(keys),
    ensures
        sort_perm(keys) == identity_perm(keys.len() as int),
    decreases keys.len(),
{
    if keys.len() == 0 {
        assert(sort_perm(keys) =~= identity_perm(0));
    } else {
        let shorter = keys.drop_last();
        assert(keys_sorted(shorter)) by {
            assert(forall|i: int|
                0 <= i < shorter.len() - 1 ==> #[trigger] shorter[i] == keys[i] && shorter[i + 1]
                    == keys[i + 1]);
        }
        lemma_sorted_sort_identity(shorter);
        let prev = sort_perm(shorter);
        let j = keys.len() - 1;
        let k = keys.last();
        if j == 0 {
            assert(sort_perm(keys) =~= identity_perm(keys.len() as int));
        } else {
            assert(prev.last() == j - 1);
            assert(seq_le(keys[j - 1], keys[j]));
            assert(insert_pos(keys, prev, k) == prev.len());
            prev.insert_ensures(prev.len() as int, j);
            assert(sort_perm(keys) =~= identity_perm(keys.len() as int));
        }
    }
}

/// Rearranging by the identity permutation gives the sequence back.
pub proof fn lemma_apply_identity<T>(s: Seq<T>)
    ensures
        apply_perm(s, identity_perm(s.len() as int)) == s,
{
    assert(apply_perm(s, identity_perm(s.len() as int)) =~= s);
}

/// The sequence of `int` indices named by a vector of `usize` indices.
pub open spec fn perm_view(p: Seq<usize>) -> Seq<int> {
    p.map_values(|u: usize| u as int)
}

/// Computes the stable insertion sort permutation of `keys`.
pub fn sort_indices_by_keys(keys: &Vec<String>) -> (perm: Vec<usize>)
    ensures
        perm_view(perm@) == sort_perm(keys.deep_view()),
        perm@.len() == keys@.len(),
        forall|i: int| 0 <= i < perm@.len() ==> #[trigger] perm@[i] < keys@.len(),
{
    let keysv = Ghost(keys.deep_view());
    let mut perm: Vec<usize> = Vec::new();
    proof {
        assert(keysv@.len() == keys@.len());
        assert(keysv@.take(0) =~= Seq::<Seq<char>>::empty());
        assert(perm_view(perm@) =~= sort_perm(keysv@.take(0)));
    }
    let n = keys.len();
    let mut j: usize = 0;
    while j < n
        invariant
            n == keys@.len(),
            keysv@ == keys.deep_view(),
            keysv@.len() == n,
            j <= n,
            perm@.len() == j,
            forall|i: int| 0 <= i < perm@.len() ==> #[trigger] perm@[i] < j,
            perm_view(perm@) == sort_perm(keysv@.take(j as int)),
        decreases n - j,
    {
        let ghost pref = keysv@.take(j as int);
        let ghost full = keysv@.take(j + 1);
        let ghost k = keysv@[j as int];
        proof {
            assert(full.drop_last() =~= pref);
            assert(full.last() == k);
            lemma_sort_perm_properties(pref);
        }
        let mut p: usize = perm.len();
        proof {
            assert(perm_view(perm@).take(p as int) =~= perm_view(perm@));
        }
        loop
            invariant_except_break
                perm@.len() == j < n,
                n == keys@.len(),
                keysv@ == keys.deep_view(),
                keysv@.len() == n,
                full == keysv@.take(j + 1),
                k == keysv@[j as int],
                p <= j,
                forall|i: int| 0 <= i < perm@.len() ==> #[trigger] perm@[i] < j,
                insert_pos(full, perm_view(perm@), k) == insert_pos(
                    full,
                    perm_view(perm@).take(p as int),
                    k,
                ),
            ensures
                p <= j == perm@.len(),
                insert_pos(full, perm_view(perm@), k) == p,
            decreases p,
        {
            proof {
                assert(perm_view(perm@).take(p as int).len() == p);
            }
            if p == 0 {
                break ;
            }
            let prev_idx = perm[p - 1];
            proof {
                assert(perm_view(perm@).take(p as int).last() == prev_idx as int);
                assert(keysv@[prev_idx as int] == keys@[prev_idx as int]@);
                assert(full[prev_idx as int] == keysv@[prev_idx as int]);
                assert(k == keys@[j as int]@);
            }
            let le = str_seq_le(keys[prev_idx].as_str(), keys[j].as_str());
            if le {
                break ;
            }
            proof {
                assert(perm_view(perm@).take(p as int).drop_last() =~= perm_view(perm@).take(
                    p - 1,
                ));
            }
            p = p - 1;
        }
        proof {
            let permv = perm_view(perm@);
            assert(permv == sort_perm(pref));
            assert forall|i: int| 0 <= i < permv.len() implies insert_pos_keys_agree_at(
                full,
                pref,
                permv,
                i,
            ) by {
                assert(full[permv[i]] == keysv@[permv[i]]);
                assert(pref[permv[i]] == keysv@[permv[i]]);
            }
            lemma_insert_pos_keys_agree(full, pref, permv, k);
            assert(insert_pos(pref, permv, k) == p as int);
            assert(sort_perm(full) == permv.insert(p as int, j as int));
        }
        let ghost old_perm = perm@;
        perm.insert(p, j);
        proof {
            assert(perm@ == old_perm.insert(p as int, j));
            lemma_perm_view_insert(old_perm, p as int, j);
            assert(perm_view(perm@) == sort_perm(keysv@.take(j + 1)));
        }
        j = j + 1;
    }
    proof {
        assert(keysv@.take(n as int) =~= keysv@);
    }
    perm
}

/// The two key sequences agree at the index `perm[i]`.
pub open spec fn insert_pos_keys_agree_at(
    keys1: Seq<Seq<char>>,
    keys2: Seq<Seq<char>>,
    perm: Seq<int>,
    i: int,
) -> bool {
    keys1[perm[i]] == keys2[perm[i]]
}

/// `insert_pos` reads keys only through the permutation, so two key
/// sequences that agree there give the same position.
pub proof fn lemma_insert_pos_keys_agree(
    keys1: Seq<Seq<char>>,
    keys2: Seq<Seq<char>>,
    perm: Seq<int>,
    k: Seq<char>,
)
    requires
        forall|i: int| 0 <= i < perm.len() ==> insert_pos_keys_agree_at(keys1, keys2, perm, i),
    ensures
        insert_pos(keys1, perm, k) == insert_pos(keys2, perm, k),
    decreases perm.len(),
{
    if perm.len() == 0 {
    } else {
        assert(insert_pos_keys_agree_at(keys1, keys2, perm, perm.len() - 1));
        let shorter = perm.drop_last();
        assert forall|i: int| 0 <= i < shorter.len() implies insert_pos_keys_agree_at(
            keys1,
            keys2,
            shorter,
            i,
        ) by {
            assert(shorter[i] == perm[i]);
            assert(insert_pos_keys_agree_at(keys1, keys2, perm, i));
        }
        lemma_insert_pos_keys_agree(keys1, keys2, shorter, k);
    }
}

/// Inserting into the `usize` index vector matches inserting into its
/// `int` view.
pub proof fn lemma_perm_view_insert(p: Seq<usize>, at: int, v: usize)
    requires
        0 <= at <= p.len(),
    ensures
        perm_view(p.insert(at, v)) == perm_view(p).insert(at, v as int),
{
    assert(perm_view(p.insert(at, v)) =~= perm_view(p).insert(at, v as int));
}

} // verus!
