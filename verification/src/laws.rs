//! What holds across the operations of a group.
//!
//! The sessions are followed step by step here, the way a driver runs them,
//! and what each rank sends, awaits and ends with is stated for the whole
//! run.

use crate::balancer::{chunk_of, maps_each, BalancerView};
use crate::collection::{gather, lemma_gather_one, CollectionView};
use crate::distribution::{shares, DistributionView};
use crate::partition::{chunk_start, lemma_chunk_bounds, lemma_chunks_contiguous};
use crate::transport::{feed, silence, Step};
use vstd::prelude::*;

verus! {

/// The shares of the ranks below `upto`, one after the other, are the
/// items that come before the share of `upto`.
pub proof fn lemma_gather_shares_prefix<T>(data: Seq<T>, size: nat, upto: nat)
    requires
        size >= 1,
    ensures
        gather(Seq::new(upto, |rank: int| chunk_of(data, size, rank as nat))) == data.subrange(
            0,
            chunk_start(data.len(), size, upto) as int,
        ),
    decreases upto,
{
    let parts = Seq::new(upto, |rank: int| chunk_of(data, size, rank as nat));
    lemma_chunks_contiguous(data.len(), size, upto);
    lemma_chunk_bounds(data.len(), size, upto);
    if upto == 0 {
        assert(gather(parts) =~= data.subrange(0, 0));
    } else {
        let below = (upto - 1) as nat;
        lemma_gather_shares_prefix(data, size, below);
        lemma_chunks_contiguous(data.len(), size, below);
        lemma_chunk_bounds(data.len(), size, below);
        assert(parts.drop_last() =~= Seq::new(
            below,
            |rank: int| chunk_of(data, size, rank as nat),
        ));
        assert(parts.last() == chunk_of(data, size, below));
        assert(gather(parts) =~= data.subrange(0, chunk_start(data.len(), size, upto) as int));
    }
}

/// The shares of all ranks, gathered in rank order, are the dataset.
pub proof fn lemma_gather_shares<T>(data: Seq<T>, size: nat)
    requires
        size >= 1,
    ensures
        gather(shares(data, size)) == data,
{
    lemma_gather_shares_prefix(data, size, size);
    lemma_chunks_contiguous(data.len(), size, size);
    assert(data.subrange(0, data.len() as int) =~= data);
}

/// The root's distribution never waits for a payload: after `steps` steps,
/// no more than the group has ranks, it has named that many actions and
/// still holds the whole dataset.
pub proof fn lemma_root_distribution_after<I>(data: Seq<I>, size: nat, steps: nat)
    requires
        steps <= size,
    ensures
        DistributionView::begin(0, size, Some(data)).run(silence(steps)) == (DistributionView {
            rank: 0,
            size,
            data,
            cursor: steps,
        }),
    decreases steps,
{
    if steps > 0 {
        let below = (steps - 1) as nat;
        lemma_root_distribution_after(data, size, below);
        assert(silence::<I>(steps).drop_last() =~= silence::<I>(below));
    }
}

/// The whole run of a distribution on the root: the share of each rank
/// above `0` goes to that rank, lower ranks first; then comes the barrier;
/// then the root ends with its own share.
pub proof fn lemma_root_distribution<I>(data: Seq<I>, size: nat)
    requires
        size >= 1,
    ensures
        forall|rank: nat|
            1 <= rank < size ==> (#[trigger] DistributionView::begin(0, size, Some(data)).run(
                silence((rank - 1) as nat),
            )).action() == (Step::Send { to: rank, payload: shares(data, size)[rank as int] }),
        forall|steps: nat|
            steps <= size ==> !(#[trigger] DistributionView::begin(0, size, Some(data)).run(
                silence(steps),
            )).awaiting(),
        DistributionView::begin(0, size, Some(data)).run(
            silence((size - 1) as nat),
        ).action() == Step::<I>::Barrier,
        DistributionView::begin(0, size, Some(data)).run(silence(size)).action() == (Step::Finish {
            result: Some(shares(data, size)[0]),
        }),
{
    let start = DistributionView::begin(0, size, Some(data));
    assert forall|rank: nat| 1 <= rank < size implies (#[trigger] start.run(
        silence((rank - 1) as nat),
    )).action() == (Step::Send { to: rank, payload: shares(data, size)[rank as int] }) by {
        lemma_root_distribution_after(data, size, (rank - 1) as nat);
    }
    assert forall|steps: nat| steps <= size implies !(#[trigger] start.run(
        silence(steps),
    )).awaiting() by {
        lemma_root_distribution_after(data, size, steps);
    }
    lemma_root_distribution_after(data, size, (size - 1) as nat);
    lemma_root_distribution_after(data, size, size);
}

/// The whole run of a distribution on a rank other than the root: it asks
/// for what the root sends, waits for it, then comes the barrier, then it
/// ends with what it received.
pub proof fn lemma_follower_distribution<I>(rank: nat, size: nat, payload: Seq<I>)
    requires
        1 <= rank < size,
    ensures
        ({
            let start = DistributionView::<I>::begin(rank, size, None);
            &&& !start.awaiting()
            &&& start.action() == (Step::<I>::Receive { from: 0 })
            &&& start.after(None).awaiting()
            &&& start.after(None).action() == Step::<I>::Barrier
            &&& !start.after(None).after(Some(payload)).awaiting()
            &&& start.after(None).after(Some(payload)).action() == (Step::Finish {
                result: Some(payload),
            })
        }),
{
}

/// The root's collection after `steps` steps, no more than the group has
/// ranks, that brought the outputs of the ranks in rank order: it holds its
/// own output and those of the ranks below `steps`.
pub proof fn lemma_root_collection_after<O>(parts: Seq<Seq<O>>, size: nat, steps: nat)
    requires
        parts.len() == size,
        1 <= steps <= size,
    ensures
        CollectionView::begin(0, size, Some(parts[0])).run(feed(parts).take(steps as int)) == (
        CollectionView { rank: 0, size, staged: true, parts: parts.take(steps as int), cursor: steps }),
    decreases steps,
{
    let start = CollectionView::begin(0, size, Some(parts[0]));
    let replies = feed(parts).take(steps as int);
    let below = (steps - 1) as nat;
    assert(replies.drop_last() =~= feed(parts).take(below as int));
    if steps == 1 {
        assert(replies.drop_last() =~= Seq::empty());
        assert(start.run(replies.drop_last()) == start);
        assert(replies.last() == None::<Seq<O>>);
        assert(parts.take(1) =~= seq![parts[0]]);
    } else {
        lemma_root_collection_after(parts, size, below);
        assert(replies.last() == Some(parts[below as int]));
        assert(parts.take(below as int).push(parts[below as int]) =~= parts.take(steps as int));
    }
}

/// The whole run of a collection on the root, where `parts` are the
/// outputs that the ranks have staged, by rank: the root receives from each
/// rank above `0`, lower ranks first; then comes the barrier; then the root
/// ends with all outputs, in rank order.
pub proof fn lemma_root_collection<O>(parts: Seq<Seq<O>>, size: nat)
    requires
        parts.len() == size,
        size >= 1,
    ensures
        forall|rank: nat|
            1 <= rank < size ==> (#[trigger] CollectionView::begin(0, size, Some(parts[0])).run(
                feed(parts).take(rank - 1),
            )).action() == (Step::<O>::Receive { from: rank }),
        CollectionView::begin(0, size, Some(parts[0])).run(
            feed(parts).take(size - 1),
        ).action() == Step::<O>::Barrier,
        CollectionView::begin(0, size, Some(parts[0])).run(feed(parts)).action() == (Step::Finish {
            result: Some(gather(parts)),
        }),
{
    let start = CollectionView::begin(0, size, Some(parts[0]));
    assert(feed(parts).take(0) =~= Seq::empty());
    assert(start.run(feed(parts).take(0)) == start);
    assert forall|rank: nat| 1 <= rank < size implies (#[trigger] start.run(
        feed(parts).take(rank - 1),
    )).action() == (Step::<O>::Receive { from: rank }) by {
        if rank > 1 {
            lemma_root_collection_after(parts, size, (rank - 1) as nat);
        }
    }
    if size > 1 {
        lemma_root_collection_after(parts, size, (size - 1) as nat);
    }
    lemma_root_collection_after(parts, size, size);
    assert(feed(parts).take(size as int) =~= feed(parts));
    assert(parts.take(size as int) =~= parts);
}

/// The whole run of a collection on a rank other than the root that has
/// staged `output`: it sends the output to the root, then comes the
/// barrier, then it ends with nothing.
pub proof fn lemma_follower_collection<O>(rank: nat, size: nat, output: Seq<O>)
    requires
        1 <= rank < size,
    ensures
        ({
            let start = CollectionView::begin(rank, size, Some(output));
            &&& !start.awaiting()
            &&& start.action() == (Step::Send { to: 0, payload: output })
            &&& !start.after(None).awaiting()
            &&& start.after(None).action() == Step::<O>::Barrier
            &&& !start.after(None).after(None).awaiting()
            &&& start.after(None).after(None).action() == (Step::<O>::Finish { result: None })
        }),
{
    lemma_gather_one(output);
}

/// Distributing a dataset over a group of any size, mapping every item to
/// itself and collecting gives the dataset back on the root, in its order.
///
/// The root sends each other rank its share and keeps its own. A map that
/// returns its argument stages, on each rank, that rank's share. Gathering
/// what the ranks have staged then ends, on the root, with the dataset.
pub proof fn lemma_distribute_then_collect<T>(data: Seq<T>, size: nat)
    requires
        size >= 1,
    ensures
        forall|rank: nat|
            1 <= rank < size ==> (#[trigger] DistributionView::begin(0, size, Some(data)).run(
                silence((rank - 1) as nat),
            )).action() == (Step::Send { to: rank, payload: shares(data, size)[rank as int] }),
        DistributionView::begin(0, size, Some(data)).run(silence(size)).action() == (Step::Finish {
            result: Some(shares(data, size)[0]),
        }),
        CollectionView::begin(0, size, Some(shares(data, size)[0])).run(
            feed(shares(data, size)),
        ).action() == (Step::Finish { result: Some(data) }),
{
    lemma_root_distribution(data, size);
    lemma_root_collection(shares(data, size), size);
    lemma_gather_shares(data, size);
}

/// In a group of one rank, running a map that computes `f` and then
/// collecting takes the session to the barrier and then to its end, with
/// `f` of each item at the item's position.
pub proof fn lemma_work_then_collect_alone<'b, I: 'b, O, F: Fn(&'b I) -> O>(
    work: F,
    f: spec_fn(I) -> O,
    items: Seq<I>,
    balancer: BalancerView<O>,
)
    requires
        forall|item: I, result: O| call_ensures(work, (&item,), result) ==> result == f(item),
        balancer.rank == 0,
        balancer.size == 1,
        balancer.pending is Some,
        maps_each(work, items, balancer.pending->0),
    ensures
        balancer.pending == Some(items.map_values(f)),
        !CollectionView::begin(0, 1, balancer.pending).awaiting(),
        CollectionView::begin(0, 1, balancer.pending).action() == Step::<O>::Barrier,
        !CollectionView::begin(0, 1, balancer.pending).after(None).awaiting(),
        CollectionView::begin(0, 1, balancer.pending).after(None).action() == (Step::Finish {
            result: Some(items.map_values(f)),
        }),
{
    let output = balancer.pending->0;
    assert(output =~= items.map_values(f));
    lemma_gather_one(output);
}

/// Collecting twice with no run in between. The first collection takes
/// what was staged: on the root it ends, once the outputs of the other
/// ranks are in, with a sequence. The second begins with nothing and ends
/// at once, with nothing.
pub proof fn lemma_collect_twice<O>(balancer: BalancerView<O>, parts: Seq<Seq<O>>)
    requires
        balancer.rank == 0,
        balancer.size >= 1,
        parts.len() == balancer.size,
        balancer.pending == Some(parts[0]),
    ensures
        CollectionView::begin(0, balancer.size, balancer.pending).run(feed(parts)).action() == (
        Step::Finish { result: Some(gather(parts)) }),
        CollectionView::begin(0, balancer.size, balancer.cleared().pending).action() == (
        Step::<O>::Finish { result: None }),
{
    lemma_root_collection(parts, balancer.size);
}

} // verus!
