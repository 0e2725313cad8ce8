//! Ranking: ordering result lists by score, highest first.

use vstd::prelude::*;

use crate::matcher::SearchResult;
use vstd::multiset::Multiset;

verus! {

/// Scores never increase along the list.
pub open spec fn sorted_desc(s: Seq<SearchResult>) -> bool {
    forall|i: int, j: int| 0 <= i < j < s.len() ==> s[i].score >= s[j].score
}

/// `perm` witnesses that `r` is a stable rearrangement of `v`: position
/// `k` of `r` holds `v[perm[k]]`, and among equal scores the original
/// order is kept.
pub open spec fn spec_stable_perm(v: Seq<SearchResult>, r: Seq<SearchResult>, perm: Seq<int>) -> bool {
    &&& perm.len() == r.len()
    &&& (forall|k: int|
        0 <= k < perm.len() ==> 0 <= #[trigger] perm[k] < v.len() && r[k] == v[perm[k]])
    &&& (forall|k1: int, k2: int|
        0 <= k1 < k2 < perm.len() && r[k1].score == r[k2].score ==> perm[k1] < perm[k2])
}

/// `r` is a stable rearrangement of `v`: some witness maps positions
/// back to the input, keeping the input order among equal scores.
pub open spec fn spec_stably_sorted(v: Seq<SearchResult>, r: Seq<SearchResult>) -> bool {
    exists|perm: Seq<int>| #[trigger] spec_stable_perm(v, r, perm)
}

/// Index of the first element with the highest score: everything before
/// it scores strictly less, everything after at most as much.
fn find_max_index(v: &Vec<SearchResult>) -> (r: usize)
    requires
        v@.len() > 0,
    ensures
        0 <= r < v@.len(),
        forall|j: int| 0 <= j < v@.len() ==> v@[r as int].score >= v@[j].score,
        forall|j: int| 0 <= j < r ==> v@[j].score < v@[r as int].score,
{
    let mut best: usize = 0;
    let mut i: usize = 1;
    while i < v.len()
        invariant
            0 <= best < i <= v@.len(),
            forall|j: int| 0 <= j < i ==> v@[best as int].score >= v@[j].score,
            forall|j: int| 0 <= j < best ==> v@[j].score < v@[best as int].score,
        decreases v@.len() - i,
    {
        if v[i].score > v[best].score {
            best = i;
        }
        i = i + 1;
    }
    best
}

/// Sorts a result list by score descending.  The output is a permutation
/// of the input; among equal scores the earliest input element is emitted
/// first (a stable sort).
pub fn sort_results_desc(v: Vec<SearchResult>) -> (r: Vec<SearchResult>)
    ensures
        sorted_desc(r@),
        r@.to_multiset() == v@.to_multiset(),
        r@.len() == v@.len(),
        spec_stably_sorted(v@, r@),
{
    broadcast use vstd::seq_lib::group_to_multiset_ensures;

    let ghost orig = v@;
    let mut input = v;
    let mut out: Vec<SearchResult> = Vec::new();
    let ghost mut idxs: Seq<int> = Seq::new(orig.len(), |a: int| a);
    let ghost mut operm: Seq<int> = Seq::empty();
    proof {
        assert(out@.to_multiset().add(input@.to_multiset()) =~= orig.to_multiset());
    }
    while input.len() > 0
        invariant
            out@.to_multiset().add(input@.to_multiset()) == orig.to_multiset(),
            sorted_desc(out@),
            forall|i: int, j: int|
                0 <= i < out@.len() && 0 <= j < input@.len() ==> out@[i].score >= input@[j].score,
            idxs.len() == input@.len(),
            forall|a: int|
                0 <= a < idxs.len() ==> 0 <= #[trigger] idxs[a] < orig.len() && input@[a]
                    == orig[idxs[a]],
            forall|a1: int, a2: int| 0 <= a1 < a2 < idxs.len() ==> idxs[a1] < idxs[a2],
            operm.len() == out@.len(),
            forall|k: int|
                0 <= k < operm.len() ==> 0 <= #[trigger] operm[k] < orig.len() && out@[k]
                    == orig[operm[k]],
            forall|k1: int, k2: int|
                0 <= k1 < k2 < operm.len() && out@[k1].score == out@[k2].score ==> operm[k1]
                    < operm[k2],
            forall|k: int, a: int|
                0 <= k < operm.len() && 0 <= a < idxs.len() && out@[k].score == input@[a].score
                    ==> operm[k] < idxs[a],
        decreases input@.len(),
    {
        let best = find_max_index(&input);
        let ghost prev_in = input@;
        let ghost prev_out = out@;
        let ghost prev_idxs = idxs;
        let ghost prev_operm = operm;
        let x = input.remove(best);
        out.push(x);
        proof {
            operm = prev_operm.push(prev_idxs[best as int]);
            idxs = prev_idxs.remove(best as int);
            prev_in.to_multiset_ensures();
            prev_out.to_multiset_ensures();
            assert(input@ == prev_in.remove(best as int));
            assert(out@ == prev_out.push(x));
            assert(input@.to_multiset() =~= prev_in.to_multiset().remove(x));
            assert(out@.to_multiset() =~= prev_out.to_multiset().insert(x));
            assert(prev_in.to_multiset().count(x) > 0);
            assert(out@.to_multiset().add(input@.to_multiset()) =~= orig.to_multiset());
            assert forall|a: int| 0 <= a < idxs.len() implies 0 <= #[trigger] idxs[a] < orig.len()
                && input@[a] == orig[idxs[a]] by {
                if a < best {
                    assert(idxs[a] == prev_idxs[a]);
                    assert(input@[a] == prev_in[a]);
                } else {
                    assert(idxs[a] == prev_idxs[a + 1]);
                    assert(input@[a] == prev_in[a + 1]);
                }
            }
            assert forall|a1: int, a2: int| 0 <= a1 < a2 < idxs.len() implies idxs[a1]
                < idxs[a2] by {
                let b1 = if a1 < best {
                    a1
                } else {
                    a1 + 1
                };
                let b2 = if a2 < best {
                    a2
                } else {
                    a2 + 1
                };
                assert(idxs[a1] == prev_idxs[b1]);
                assert(idxs[a2] == prev_idxs[b2]);
            }
            assert forall|k: int| 0 <= k < operm.len() implies 0 <= #[trigger] operm[k]
                < orig.len() && out@[k] == orig[operm[k]] by {
                if k < prev_operm.len() {
                    assert(operm[k] == prev_operm[k]);
                    assert(out@[k] == prev_out[k]);
                } else {
                    assert(operm[k] == prev_idxs[best as int]);
                    assert(out@[k] == x);
                    assert(x == prev_in[best as int]);
                }
            }
            assert forall|k1: int, k2: int|
                0 <= k1 < k2 < operm.len() && out@[k1].score == out@[k2].score implies operm[k1]
                < operm[k2] by {
                if k2 < prev_operm.len() {
                    assert(operm[k1] == prev_operm[k1] && operm[k2] == prev_operm[k2]);
                    assert(out@[k1] == prev_out[k1] && out@[k2] == prev_out[k2]);
                } else {
                    assert(out@[k1] == prev_out[k1]);
                    assert(out@[k2] == x);
                    assert(operm[k2] == prev_idxs[best as int]);
                    assert(prev_out[k1].score == prev_in[best as int].score);
                    assert(operm[k1] < prev_idxs[best as int]);
                }
            }
            assert forall|k: int, a: int|
                0 <= k < operm.len() && 0 <= a < idxs.len() && out@[k].score
                    == input@[a].score implies operm[k] < idxs[a] by {
                let b = if a < best {
                    a
                } else {
                    a + 1
                };
                assert(idxs[a] == prev_idxs[b]);
                assert(input@[a] == prev_in[b]);
                if k < prev_operm.len() {
                    assert(operm[k] == prev_operm[k]);
                    assert(out@[k] == prev_out[k]);
                } else {
                    assert(out@[k] == x);
                    assert(operm[k] == prev_idxs[best as int]);
                    assert(x == prev_in[best as int]);
                    assert(prev_in[b].score == prev_in[best as int].score);
                    if b < best {
                        assert(prev_in[b].score < prev_in[best as int].score);
                        assert(false);
                    }
                    assert(b > best);
                    assert(prev_idxs[best as int] < prev_idxs[b]);
                }
            }
            assert forall|i: int, j: int|
                0 <= i < out@.len() && 0 <= j < input@.len() implies out@[i].score
                >= input@[j].score by {
                assert(prev_in.contains(input@[j]));
            }
            assert forall|i: int, j: int| 0 <= i < j < out@.len() implies out@[i].score
                >= out@[j].score by {
                if j == out@.len() - 1 {
                    assert(prev_in.contains(x));
                }
            }
        }
    }
    proof {
        input@.to_multiset_ensures();
        out@.to_multiset_ensures();
        orig.to_multiset_ensures();
        assert(input@.to_multiset() =~= Multiset::<SearchResult>::empty());
        assert(out@.to_multiset() =~= orig.to_multiset());
        assert(out@.len() == out@.to_multiset().len());
        assert(orig.len() == orig.to_multiset().len());
        assert(spec_stable_perm(orig, out@, operm));
        assert(spec_stably_sorted(orig, out@));
    }
    out
}

} // verus!
