//! The adjacency between routes: for each route the best transfer to each
//! route near it, computed or taken from a cache.

use vstd::prelude::*;
use crate::cache::CacheEntry;
use crate::geometry::{coords, may_meet};
use crate::model::TransferPoint;
use crate::transfers::{best_transfer_spec, EntryView, PROXIMATE_THRESHOLD};

verus! {

/// Those of the first `k` entries whose bounding box, widened by the
/// proximate threshold, has a point in common with the widened bounding box
/// of entry `i`.
pub open spec fn candidates_upto(entries: Seq<EntryView>, i: int, k: int) -> Seq<int>
    decreases k,
{
    if k <= 0 {
        Seq::empty()
    } else if may_meet(
        coords(entries[i].line),
        coords(entries[k - 1].line),
        PROXIMATE_THRESHOLD as int,
    ) {
        candidates_upto(entries, i, k - 1).push(k - 1)
    } else {
        candidates_upto(entries, i, k - 1)
    }
}

/// The best transfers from entry `i` to the first `m` of `cands`, itself left
/// out, and those to which there is none.
pub open spec fn neighbors_from(entries: Seq<EntryView>, i: int, cands: Seq<int>, m: int) -> Seq<
    TransferPoint,
>
    decreases m,
{
    if m <= 0 {
        Seq::empty()
    } else {
        let rest = neighbors_from(entries, i, cands, m - 1);
        let j = cands[m - 1];
        if j != i && best_transfer_spec(entries[i], entries[j]) is Some {
            rest.push(best_transfer_spec(entries[i], entries[j])->0)
        } else {
            rest
        }
    }
}

/// The transfers out of entry `i`: the best one to each other entry whose
/// widened bounding box meets its own, in the order of the entries.
pub open spec fn neighbors_spec(entries: Seq<EntryView>, i: int) -> Seq<TransferPoint> {
    let cands = candidates_upto(entries, i, entries.len() as int);
    neighbors_from(entries, i, cands, cands.len() as int)
}

/// The adjacency of `entries`: for each, its transfers to the others.
pub open spec fn adjacency_spec(entries: Seq<EntryView>) -> Seq<Seq<TransferPoint>> {
    Seq::new(entries.len(), |i: int| neighbors_spec(entries, i))
}

/// The transfers that `cache` holds for `code`: those of its first entry for
/// that code, none where it has no such entry.
pub open spec fn cached_transfers(cache: Seq<CacheEntry>, code: Seq<char>) -> Seq<TransferPoint>
    decreases cache.len(),
{
    if cache.len() == 0 {
        Seq::empty()
    } else if cache[0].route_code@ == code {
        cache[0].transfers@
    } else {
        cached_transfers(cache.drop_first(), code)
    }
}

/// The adjacency of `entries` as `cache` holds it.
pub open spec fn cached_adjacency(entries: Seq<EntryView>, cache: Seq<CacheEntry>) -> Seq<
    Seq<TransferPoint>,
> {
    Seq::new(entries.len(), |i: int| cached_transfers(cache, entries[i].properties.code@))
}

/// The mathematical values of a list of transfer lists.
pub open spec fn transfer_views(lists: Seq<Vec<TransferPoint>>) -> Seq<Seq<TransferPoint>> {
    lists.map_values(|l: Vec<TransferPoint>| l@)
}

/// A copy of a list of transfers.
pub fn clone_transfers(v: &Vec<TransferPoint>) -> (r: Vec<TransferPoint>)
    ensures
        r@ == v@,
{
    let mut out: Vec<TransferPoint> = Vec::new();
    let mut i: usize = 0;
    while i < v.len()
        invariant
            i <= v.len(),
            out@ == v@.take(i as int),
        decreases v.len() - i,
    {
        out.push(v[i].clone());
        assert(v@.take(i + 1) == v@.take(i as int).push(v@[i as int]));
        i = i + 1;
    }
    assert(v@.take(v.len() as int) == v@);
    out
}

/// The transfers that `cache` holds for `code`.
pub fn cached_list(cache: &Vec<CacheEntry>, code: &String) -> (r: Vec<TransferPoint>)
    ensures
        r@ == cached_transfers(cache@, code@),
{
    let mut k: usize = 0;
    assert(cache@.skip(0) == cache@);
    while k < cache.len()
        invariant
            k <= cache.len(),
            cached_transfers(cache@, code@) == cached_transfers(cache@.skip(k as int), code@),
        decreases cache.len() - k,
    {
        assert(cache@.skip(k as int)[0] == cache@[k as int]);
        if cache[k].route_code == *code {
            return clone_transfers(&cache[k].transfers);
        }
        assert(cache@.skip(k as int).drop_first() == cache@.skip(k + 1));
        k = k + 1;
    }
    Vec::new()
}

/// The candidates among the first `k` entries are positions below `k`, each
/// before the next.
pub proof fn lemma_candidates_rise(entries: Seq<EntryView>, i: int, k: int)
    requires
        0 <= k,
    ensures
        forall|m: int|
            0 <= m < candidates_upto(entries, i, k).len() ==> 0 <= #[trigger] candidates_upto(
                entries,
                i,
                k,
            )[m] < k,
        forall|a: int, b: int|
            0 <= a < b < candidates_upto(entries, i, k).len() ==> candidates_upto(entries, i, k)[a]
                < candidates_upto(entries, i, k)[b],
    decreases k,
{
    if k > 0 {
        lemma_candidates_rise(entries, i, k - 1);
        let prev = candidates_upto(entries, i, k - 1);
        let out = candidates_upto(entries, i, k);
        assert forall|m: int| 0 <= m < out.len() implies 0 <= #[trigger] out[m] < k by {
            if m < prev.len() {
                assert(out[m] == prev[m]);
            }
        }
        assert forall|a: int, b: int| 0 <= a < b < out.len() implies out[a] < out[b] by {
            assert(out[a] == prev[a]);
            if b < prev.len() {
                assert(out[b] == prev[b]);
            }
        }
    }
}

/// Each transfer out of entry `i` is the best transfer from it to one other
/// entry, and the transfers follow the order of the entries they lead to: no
/// pair of routes has more than one.
pub proof fn lemma_neighbors_are_best_transfers(entries: Seq<EntryView>, i: int) -> (targets: Seq<int>)
    ensures
        targets.len() == neighbors_spec(entries, i).len(),
        forall|m: int|
            0 <= m < targets.len() ==> 0 <= #[trigger] targets[m] < entries.len() && targets[m] != i
                && best_transfer_spec(entries[i], entries[targets[m]]) == Some(
                neighbors_spec(entries, i)[m],
            ),
        forall|a: int, b: int| 0 <= a < b < targets.len() ==> targets[a] < targets[b],
{
    let cands = candidates_upto(entries, i, entries.len() as int);
    lemma_candidates_rise(entries, i, entries.len() as int);
    lemma_neighbors_from(entries, i, cands, cands.len() as int)
}

/// The transfers to the first `m` of rising candidates lead to rising
/// entries among them.
pub proof fn lemma_neighbors_from(entries: Seq<EntryView>, i: int, cands: Seq<int>, m: int) -> (targets:
    Seq<int>)
    requires
        0 <= m <= cands.len(),
        forall|a: int| 0 <= a < cands.len() ==> 0 <= #[trigger] cands[a] < entries.len(),
        forall|a: int, b: int| 0 <= a < b < cands.len() ==> cands[a] < cands[b],
    ensures
        targets.len() == neighbors_from(entries, i, cands, m).len(),
        forall|a: int|
            0 <= a < targets.len() ==> 0 <= #[trigger] targets[a] < entries.len() && targets[a] != i
                && best_transfer_spec(entries[i], entries[targets[a]]) == Some(
                neighbors_from(entries, i, cands, m)[a],
            ),
        forall|a: int, b: int| 0 <= a < b < targets.len() ==> targets[a] < targets[b],
        forall|a: int| 0 <= a < targets.len() && m < cands.len() ==> #[trigger] targets[a] < cands[m],
        forall|a: int| 0 <= a < targets.len() && m > 0 ==> #[trigger] targets[a] <= cands[m - 1],
    decreases m,
{
    if m <= 0 {
        Seq::empty()
    } else {
        let rest = lemma_neighbors_from(entries, i, cands, m - 1);
        let j = cands[m - 1];
        if j != i && best_transfer_spec(entries[i], entries[j]) is Some {
            rest.push(j)
        } else {
            assert forall|a: int| 0 <= a < rest.len() implies #[trigger] rest[a] <= cands[m - 1] by {
                assert(rest[a] < cands[m - 1]);
            }
            rest
        }
    }
}

} // verus!
