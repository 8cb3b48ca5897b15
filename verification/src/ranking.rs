//! Ordering by rank: lowest rank first, and among equal ranks what came
//! first stays first.

use vstd::prelude::*;

verus! {

/// `order` with `x` put behind the last position whose rank is not above
/// that of `x`.
pub open spec fn insert_ranked(order: Seq<int>, ranks: Seq<int>, x: int) -> Seq<int>
    decreases order.len(),
{
    if order.len() == 0 {
        seq![x]
    } else if ranks[order.last()] <= ranks[x] {
        order.push(x)
    } else {
        insert_ranked(order.drop_last(), ranks, x).push(order.last())
    }
}

/// The positions `0..k` of `ranks`, lowest rank first; positions of equal
/// rank in rising order.
pub open spec fn sorted_order(ranks: Seq<int>, k: int) -> Seq<int>
    decreases k,
{
    if k <= 0 {
        Seq::empty()
    } else {
        insert_ranked(sorted_order(ranks, k - 1), ranks, k - 1)
    }
}

/// Position `i` comes before position `j`: its rank is lower, or the ranks
/// are equal and `i` is the smaller.
pub open spec fn ranked_before(ranks: Seq<int>, i: int, j: int) -> bool {
    ranks[i] < ranks[j] || (ranks[i] == ranks[j] && i < j)
}

/// Each position in `order` comes before all that follow it.
pub open spec fn is_ranked(order: Seq<int>, ranks: Seq<int>) -> bool {
    forall|a: int, b: int|
        0 <= a < b < order.len() ==> ranked_before(ranks, #[trigger] order[a], #[trigger] order[b])
}

/// Inserting behind everything not ranked above `x` is inserting at `j`,
/// where all from `j` on are ranked above `x` and the one before `j` is not.
pub proof fn lemma_insert_at(order: Seq<int>, ranks: Seq<int>, x: int, j: int)
    requires
        0 <= j <= order.len(),
        forall|q: int| j <= q < order.len() ==> ranks[#[trigger] order[q]] > ranks[x],
        j > 0 ==> ranks[order[j - 1]] <= ranks[x],
    ensures
        insert_ranked(order, ranks, x) == order.insert(j, x),
    decreases order.len(),
{
    if order.len() == 0 {
        assert(seq![x] =~= order.insert(0, x));
    } else if j == order.len() {
        assert(order.push(x) =~= order.insert(j, x));
    } else {
        assert(ranks[order[order.len() - 1]] > ranks[x]);
        let shorter = order.drop_last();
        assert forall|q: int| j <= q < shorter.len() implies ranks[#[trigger] shorter[q]]
            > ranks[x] by {
            assert(shorter[q] == order[q]);
        }
        lemma_insert_at(shorter, ranks, x, j);
        assert(shorter.insert(j, x).push(order.last()) =~= order.insert(j, x));
    }
}

/// Where `order` is ranked and holds only positions below `x`, inserting `x`
/// puts it at some place `j`, and the result is ranked again.
pub proof fn lemma_insert_ranked(order: Seq<int>, ranks: Seq<int>, x: int) -> (j: int)
    requires
        is_ranked(order, ranks),
        forall|q: int| 0 <= q < order.len() ==> #[trigger] order[q] < x,
    ensures
        0 <= j <= order.len(),
        insert_ranked(order, ranks, x) == order.insert(j, x),
        is_ranked(insert_ranked(order, ranks, x), ranks),
    decreases order.len(),
{
    if order.len() == 0 {
        assert(seq![x] =~= order.insert(0, x));
        0
    } else if ranks[order.last()] <= ranks[x] {
        let j = order.len() as int;
        assert(order.push(x) =~= order.insert(j, x));
        let out = order.push(x);
        assert forall|a: int, b: int| 0 <= a < b < out.len() implies ranked_before(
            ranks,
            #[trigger] out[a],
            #[trigger] out[b],
        ) by {
            if b == order.len() {
                if a < order.len() - 1 {
                    assert(ranked_before(ranks, order[a], order[order.len() - 1]));
                }
                assert(order[a] < x);
            } else {
                assert(ranked_before(ranks, order[a], order[b]));
            }
        }
        j
    } else {
        let shorter = order.drop_last();
        assert(is_ranked(shorter, ranks)) by {
            assert forall|a: int, b: int| 0 <= a < b < shorter.len() implies ranked_before(
                ranks,
                #[trigger] shorter[a],
                #[trigger] shorter[b],
            ) by {
                assert(ranked_before(ranks, order[a], order[b]));
            }
        }
        assert forall|q: int| 0 <= q < shorter.len() implies #[trigger] shorter[q] < x by {
            assert(shorter[q] == order[q]);
        }
        let j = lemma_insert_ranked(shorter, ranks, x);
        let inner = insert_ranked(shorter, ranks, x);
        let out = inner.push(order.last());
        assert(out =~= order.insert(j, x));
        assert forall|a: int, b: int| 0 <= a < b < out.len() implies ranked_before(
            ranks,
            #[trigger] out[a],
            #[trigger] out[b],
        ) by {
            if b == out.len() - 1 {
                if a == j {
                    assert(out[a] == x);
                } else if a < j {
                    assert(out[a] == order[a]);
                    assert(ranked_before(ranks, order[a], order[order.len() - 1]));
                } else {
                    assert(out[a] == order[a - 1]);
                    assert(ranked_before(ranks, order[a - 1], order[order.len() - 1]));
                }
            } else {
                assert(out[a] == inner[a]);
                assert(out[b] == inner[b]);
                assert(ranked_before(ranks, inner[a], inner[b]));
            }
        }
        j
    }
}

/// The sorted order of the first `k` positions holds each of them once, and
/// each comes before all that follow it: ranks rise, and positions of equal
/// rank keep their order.
pub proof fn lemma_sorted_order(ranks: Seq<int>, k: int)
    requires
        0 <= k,
    ensures
        sorted_order(ranks, k).len() == k,
        is_ranked(sorted_order(ranks, k), ranks),
        forall|a: int| 0 <= a < k ==> 0 <= #[trigger] sorted_order(ranks, k)[a] < k,
        forall|i: int| 0 <= i < k ==> sorted_order(ranks, k).contains(i),
    decreases k,
{
    if k > 0 {
        lemma_sorted_order(ranks, k - 1);
        let prev = sorted_order(ranks, k - 1);
        let j = lemma_insert_ranked(prev, ranks, k - 1);
        let out = sorted_order(ranks, k);
        assert(out == prev.insert(j, k - 1));
        assert forall|a: int| 0 <= a < k implies 0 <= #[trigger] out[a] < k by {
            if a < j {
                assert(out[a] == prev[a]);
            } else if a > j {
                assert(out[a] == prev[a - 1]);
            }
        }
        assert forall|i: int| 0 <= i < k implies out.contains(i) by {
            if i == k - 1 {
                assert(out[j] == i);
            } else {
                assert(prev.contains(i));
                let a = choose|a: int| 0 <= a < prev.len() && prev[a] == i;
                if a < j {
                    assert(out[a] == i);
                } else {
                    assert(out[a + 1] == i);
                }
            }
        }
    }
}

/// The positions of a list as integers.
pub open spec fn positions(order: Seq<usize>) -> Seq<int> {
    order.map_values(|j: usize| j as int)
}

/// The ranks of a list as integers.
pub open spec fn rank_values(ranks: Seq<u128>) -> Seq<int> {
    ranks.map_values(|r: u128| r as int)
}

/// The positions of `ranks`, lowest rank first; positions of equal rank in
/// rising order.
pub fn rank_order(ranks: &Vec<u128>) -> (r: Vec<usize>)
    ensures
        positions(r@) == sorted_order(rank_values(ranks@), ranks@.len() as int),
        r@.len() == ranks@.len(),
        forall|a: int| 0 <= a < r@.len() ==> (#[trigger] r@[a]) < ranks@.len(),
{
    let n: usize = ranks.len();
    let ghost rv = rank_values(ranks@);
    let mut order: Vec<usize> = Vec::new();
    let mut k: usize = 0;
    assert(positions(order@) =~= sorted_order(rv, 0));
    while k < n
        invariant
            k <= n,
            n == ranks.len(),
            rv == rank_values(ranks@),
            order@.len() == k,
            positions(order@) == sorted_order(rv, k as int),
            forall|a: int| 0 <= a < order@.len() ==> (#[trigger] order@[a]) < k,
        decreases n - k,
    {
        let ghost before = positions(order@);
        let mut j: usize = order.len();
        while j > 0 && ranks[order[j - 1]] > ranks[k]
            invariant
                j <= order@.len(),
                k < n,
                n == ranks.len(),
                rv == rank_values(ranks@),
                before == positions(order@),
                forall|a: int| 0 <= a < order@.len() ==> (#[trigger] order@[a]) < k,
                forall|q: int| j <= q < before.len() ==> rv[#[trigger] before[q]] > rv[k as int],
            decreases j,
        {
            assert(before[j - 1] == order@[j - 1]);
            j = j - 1;
        }
        proof {
            if j > 0 {
                assert(before[j - 1] == order@[j - 1]);
            }
            lemma_insert_at(before, rv, k as int, j as int);
        }
        order.insert(j, k);
        assert(positions(order@) =~= before.insert(j as int, k as int));
        k = k + 1;
    }
    order
}

} // verus!
