//! Ranking stacks by a metric, largest first.

use vstd::prelude::*;
use vstd::seq_lib::*;

verus! {

/// Whether the metrics of `items`, the second of each pair, never grow from
/// one item to the next.
pub open spec fn sorted_desc(items: Seq<(u64, u64)>) -> bool {
    forall|i: int, j: int| 0 <= i < j < items.len() ==> items[i].1 >= items[j].1
}

/// Whether `ranked` is a ranking of `listing`: the same pairs, each as often
/// as in `listing`, in an order in which the metric never grows.
pub open spec fn is_ranking(listing: Seq<(u64, u64)>, ranked: Seq<(u64, u64)>) -> bool {
    &&& sorted_desc(ranked)
    &&& ranked.to_multiset() == listing.to_multiset()
}

/// Ranks `items` by their metric, largest first. Items with the same metric
/// keep the order in which they stand in `items`.
pub fn sort_desc(items: &Vec<(u64, u64)>) -> (ranked: Vec<(u64, u64)>)
    ensures
        is_ranking(items@, ranked@),
        ranked@.len() == items@.len(),
{
    let mut ranked: Vec<(u64, u64)> = Vec::new();
    let mut i: usize = 0;
    assert(ranked@ =~= items@.subrange(0, 0));
    while i < items.len()
        invariant
            i <= items.len(),
            ranked@.len() == i,
            sorted_desc(ranked@),
            ranked@.to_multiset() == items@.subrange(0, i as int).to_multiset(),
        decreases items.len() - i,
    {
        let item: (u64, u64) = items[i];
        let mut at: usize = 0;
        while at < ranked.len() && ranked[at].1 >= item.1
            invariant
                at <= ranked.len(),
                forall|q: int| 0 <= q < at ==> ranked@[q].1 >= item.1,
            decreases ranked.len() - at,
        {
            at += 1;
        }
        let ghost before = ranked@;
        ranked.insert(at, item);
        proof {
            let done = items@.subrange(0, i as int);
            assert(items@.subrange(0, i + 1) =~= done.push(item));
            to_multiset_insert(before, at as int, item);
            to_multiset_build(done, item);
        }
        i += 1;
    }
    assert(items@.subrange(0, i as int) =~= items@);
    ranked
}

/// Every pair of a ranking stands in the listing.
pub proof fn lemma_ranking_members(listing: Seq<(u64, u64)>, ranked: Seq<(u64, u64)>, i: int)
    requires
        is_ranking(listing, ranked),
        0 <= i < ranked.len(),
    ensures
        listing.contains(ranked[i]),
        ranked.len() == listing.len(),
{
    to_multiset_contains(ranked, ranked[i]);
    to_multiset_contains(listing, ranked[i]);
    to_multiset_len(ranked);
    to_multiset_len(listing);
}

/// The first item of a ranking has the largest metric of the listing.
pub proof fn lemma_ranking_first_is_largest(
    listing: Seq<(u64, u64)>,
    ranked: Seq<(u64, u64)>,
    j: int,
)
    requires
        is_ranking(listing, ranked),
        0 <= j < listing.len(),
    ensures
        ranked.len() > 0,
        ranked[0].1 >= listing[j].1,
{
    to_multiset_contains(ranked, listing[j]);
    to_multiset_contains(listing, listing[j]);
}

} // verus!
