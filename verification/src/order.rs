//! A stable sort on two-part text keys, compared lexicographically part by
//! part (the order of a `(String, String)` tuple).

use vstd::prelude::*;
use crate::text::{lex_lt, lex_less, lemma_lex_irreflexive, lemma_lex_transitive, lemma_lex_total};

verus! {

/// A sort key: a primary and a secondary text.
pub type SortKey = (Vec<char>, Vec<char>);

/// The characters of a sort key.
pub open spec fn key_view(k: SortKey) -> (Seq<char>, Seq<char>) {
    (k.0@, k.1@)
}

/// Strict order on keys: by the primary text, then by the secondary text.
pub open spec fn key_lt(x: (Seq<char>, Seq<char>), y: (Seq<char>, Seq<char>)) -> bool {
    lex_lt(x.0, y.0) || (x.0 == y.0 && lex_lt(x.1, y.1))
}

/// The characters of every key of `keys`.
pub open spec fn keys_view(keys: Seq<SortKey>) -> Seq<(Seq<char>, Seq<char>)> {
    keys.map_values(|k: SortKey| key_view(k))
}

/// `p` lists each index below `n` exactly once.
pub open spec fn is_index_permutation(p: Seq<usize>, n: nat) -> bool {
    &&& p.len() == n
    &&& forall|i: int| 0 <= i < p.len() ==> #[trigger] p[i] < n
    &&& forall|i: int, j: int| 0 <= i < j < p.len() ==> p[i] != p[j]
    &&& forall|j: int| 0 <= j < n ==> #[trigger] index_listed(p, j)
}

/// Index `j` occurs in `p`.
pub open spec fn index_listed(p: Seq<usize>, j: int) -> bool {
    exists|k: int| 0 <= k < p.len() && #[trigger] p[k] == j
}

/// Visiting `ks` in the order `p` never goes down, and equal keys keep
/// their original relative order.
pub open spec fn sorted_stable(ks: Seq<(Seq<char>, Seq<char>)>, p: Seq<usize>) -> bool {
    forall|a: int, b: int|
        #![trigger p[a], p[b]]
        0 <= a < b < p.len() ==> !key_lt(ks[p[b] as int], ks[p[a] as int]) && (ks[p[a] as int]
            == ks[p[b] as int] ==> p[a] < p[b])
}

/// `key_lt` is irreflexive.
pub proof fn lemma_key_irreflexive(x: (Seq<char>, Seq<char>))
    ensures
        !key_lt(x, x),
{
    lemma_lex_irreflexive(x.0);
    lemma_lex_irreflexive(x.1);
}

/// `key_lt` is transitive.
pub proof fn lemma_key_transitive(
    x: (Seq<char>, Seq<char>),
    y: (Seq<char>, Seq<char>),
    z: (Seq<char>, Seq<char>),
)
    requires
        key_lt(x, y),
        key_lt(y, z),
    ensures
        key_lt(x, z),
{
    if lex_lt(x.0, y.0) && lex_lt(y.0, z.0) {
        lemma_lex_transitive(x.0, y.0, z.0);
    } else if x.0 == y.0 && y.0 == z.0 {
        lemma_lex_transitive(x.1, y.1, z.1);
    }
}

/// Distinct keys are ordered one way or the other.
pub proof fn lemma_key_total(x: (Seq<char>, Seq<char>), y: (Seq<char>, Seq<char>))
    ensures
        x == y || key_lt(x, y) || key_lt(y, x),
{
    lemma_lex_total(x.0, y.0);
    lemma_lex_total(x.1, y.1);
}

/// `key_lt` is asymmetric.
pub proof fn lemma_key_asymmetric(x: (Seq<char>, Seq<char>), y: (Seq<char>, Seq<char>))
    requires
        key_lt(x, y),
    ensures
        !key_lt(y, x),
{
    if key_lt(y, x) {
        lemma_key_transitive(x, y, x);
        lemma_key_irreflexive(x);
    }
}

/// "Not below" is transitive.
pub proof fn lemma_key_not_lt_transitive(
    x: (Seq<char>, Seq<char>),
    y: (Seq<char>, Seq<char>),
    z: (Seq<char>, Seq<char>),
)
    requires
        !key_lt(y, x),
        !key_lt(z, y),
    ensures
        !key_lt(z, x),
{
    lemma_key_total(x, y);
    lemma_key_total(y, z);
    if key_lt(z, x) {
        if key_lt(x, y) {
            lemma_key_transitive(z, x, y);
        }
    }
}

/// Whether key `a` sorts strictly before key `b`.
pub fn key_less(a: &SortKey, b: &SortKey) -> (res: bool)
    ensures
        res == key_lt(key_view(*a), key_view(*b)),
{
    if lex_less(&a.0, &b.0) {
        true
    } else if lex_less(&b.0, &a.0) {
        false
    } else {
        proof {
            lemma_lex_total(a.0@, b.0@);
        }
        lex_less(&a.1, &b.1)
    }
}

/// The stable sorting order of `keys`: the returned indices visit the keys in
/// non-decreasing order, and equal keys in the order in which they were given
/// (as `slice::sort_by` does).
pub fn sort_order(keys: &Vec<SortKey>) -> (p: Vec<usize>)
    ensures
        is_index_permutation(p@, keys@.len()),
        sorted_stable(keys_view(keys@), p@),
{
    let ghost ks = keys_view(keys@);
    let mut p: Vec<usize> = Vec::new();
    for i in 0..keys.len()
        invariant
            ks == keys_view(keys@),
            p.len() == i,
            forall|m: int| 0 <= m < p.len() ==> #[trigger] p@[m] < i,
            forall|a: int, b: int| 0 <= a < b < p.len() ==> p@[a] != p@[b],
            forall|j: int| 0 <= j < i ==> #[trigger] index_listed(p@, j),
            sorted_stable(ks, p@),
    {
        let mut k = p.len();
        while k > 0 && key_less(&keys[i], &keys[p[k - 1]])
            invariant
                ks == keys_view(keys@),
                i < keys.len(),
                k <= p.len(),
                p.len() == i,
                forall|m: int| 0 <= m < p.len() ==> #[trigger] p@[m] < i,
                forall|m: int| k <= m < p.len() ==> key_lt(ks[i as int], #[trigger] ks[p@[m] as int]),
            decreases k,
        {
            k = k - 1;
        }
        let ghost old_p = p@;
        proof {
            assert forall|m: int| 0 <= m < k implies !key_lt(
                ks[i as int],
                #[trigger] ks[old_p[m] as int],
            ) by {
                let last = old_p[k - 1] as int;
                assert(!key_lt(ks[i as int], ks[last]));
                if m < k - 1 {
                    assert(!key_lt(ks[last], ks[old_p[m] as int]));
                    lemma_key_not_lt_transitive(ks[old_p[m] as int], ks[last], ks[i as int]);
                }
            }
        }
        p.insert(k, i);
        proof {
            assert(p@ == old_p.insert(k as int, i));
            assert forall|a: int, b: int|
                #![trigger p@[a], p@[b]]
                0 <= a < b < p@.len() implies !key_lt(ks[p@[b] as int], ks[p@[a] as int]) && (
                ks[p@[a] as int] == ks[p@[b] as int] ==> p@[a] < p@[b]) by {
                if b < k {
                    assert(p@[a] == old_p[a] && p@[b] == old_p[b]);
                } else if b == k {
                    assert(p@[a] == old_p[a]);
                    lemma_key_total(ks[i as int], ks[old_p[a] as int]);
                } else if a < k {
                    assert(p@[a] == old_p[a] && p@[b] == old_p[b - 1]);
                } else if a == k {
                    assert(p@[b] == old_p[b - 1]);
                    lemma_key_asymmetric(ks[i as int], ks[old_p[b - 1] as int]);
                    lemma_key_irreflexive(ks[i as int]);
                } else {
                    assert(p@[a] == old_p[a - 1] && p@[b] == old_p[b - 1]);
                }
            }
            assert forall|a: int, b: int| 0 <= a < b < p.len() implies p@[a] != p@[b] by {
                if a < k && b < k {
                } else if a < k && b == k {
                } else if a < k {
                    assert(p@[b] == old_p[b - 1]);
                } else if a == k {
                    assert(p@[b] == old_p[b - 1]);
                } else {
                    assert(p@[a] == old_p[a - 1] && p@[b] == old_p[b - 1]);
                }
            }
            assert forall|j: int| 0 <= j < i + 1 implies #[trigger] index_listed(p@, j) by {
                if j == i {
                    assert(p@[k as int] == j);
                } else {
                    assert(index_listed(old_p, j));
                    let m = choose|m: int| 0 <= m < old_p.len() && old_p[m] == j;
                    if m < k {
                        assert(p@[m] == j);
                    } else {
                        assert(p@[m + 1] == j);
                    }
                }
            }
            assert forall|m: int| 0 <= m < p.len() implies #[trigger] p@[m] < i + 1 by {
                if m < k {
                } else if m > k {
                    assert(p@[m] == old_p[m - 1]);
                }
            }
        }
    }
    p
}

} // verus!
