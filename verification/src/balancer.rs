//! One rank's view of the group, and the work it has staged.

use crate::collection::{Collection, CollectionView};
use crate::distribution::{Distribution, DistributionView};
use crate::partition::{chunk_end, chunk_start, lemma_chunk_bounds, range};
use crate::transport::contents;
use rayon::iter::{IntoParallelIterator, ParallelIterator};
use vstd::prelude::*;
use vstd::slice::slice_subrange;

verus! {

/// Whether `output` holds, position by position, a result of `work` on the
/// item of `items` at that position.
pub open spec fn maps_each<'b, I: 'b, O, F: Fn(&'b I) -> O>(
    work: F,
    items: Seq<I>,
    output: Seq<O>,
) -> bool {
    &&& output.len() == items.len()
    &&& forall|i: int|
        0 <= i < items.len() ==> call_ensures(work, (&#[trigger] items[i],), output[i])
}

/// The share of `items` that `rank` owns in a group of `size` ranks.
pub open spec fn chunk_of<T>(items: Seq<T>, size: nat, rank: nat) -> Seq<T>
    recommends
        size >= 1,
{
    items.subrange(
        chunk_start(items.len(), size, rank) as int,
        chunk_end(items.len(), size, rank) as int,
    )
}

/// Calls rayon's parallel map on a slice: `into_par_iter`, `map` with
/// `work`, `collect` into a `Vec`.
///
/// The parallel iterator over a slice is indexed, `map` keeps it so, and a
/// `Vec` collected from an indexed iterator holds the items in the order of
/// the source. So the output is as long as `items`, and its position `i`
/// holds what `work` returned for `items[i]`, on whichever thread and in
/// whichever order the calls were made. `work` is called on items of the
/// slice only.
#[verifier::external_body]
fn par_map<'b, I, O, F>(items: &'b [I], work: &F) -> (output: Vec<O>) where
    I: Sync,
    O: Send,
    F: Fn(&'b I) -> O + Send + Sync,

    requires
        forall|i: int| 0 <= i < items@.len() ==> call_requires(*work, (&#[trigger] items@[i],)),
    ensures
        maps_each(*work, items@, output@),
{
    items.into_par_iter().map(work).collect()
}

/// The outputs of one rank's latest local run, in the order of its inputs.
pub struct LocalWork<O> {
    output: Vec<O>,
}

impl<O> View for LocalWork<O> {
    type V = Seq<O>;

    closed spec fn view(&self) -> Seq<O> {
        self.output@
    }
}

/// What a [`Balancer`] stands for: its place in the group, the number of
/// worker threads of its host, and the outputs it has staged, if any.
pub ghost struct BalancerView<O> {
    pub workers: nat,
    pub rank: nat,
    pub size: nat,
    pub pending: Option<Seq<O>>,
}

impl<O> BalancerView<O> {
    /// The same rank with `output` staged in place of what was pending.
    pub open spec fn staged(self, output: Seq<O>) -> Self {
        BalancerView { pending: Some(output), ..self }
    }

    /// The same rank with nothing pending.
    pub open spec fn cleared(self) -> Self {
        BalancerView { pending: None, ..self }
    }
}

/// One rank of a group of `size` ranks. It holds at most one staged local
/// run: a new run replaces it, collecting takes it away.
pub struct Balancer<O> {
    workers: usize,
    rank: usize,
    size: usize,
    work: Option<LocalWork<O>>,
}

impl<O> View for Balancer<O> {
    type V = BalancerView<O>;

    closed spec fn view(&self) -> BalancerView<O> {
        BalancerView {
            workers: self.workers as nat,
            rank: self.rank as nat,
            size: self.size as nat,
            pending: match self.work {
                Some(w) => Some(w@),
                None => None,
            },
        }
    }
}

impl<O: Send> Balancer<O> {
    /// The rank is one of the group, which therefore is not empty.
    pub open spec fn wf(&self) -> bool {
        self@.rank < self@.size
    }

    /// The balancer of `rank` in a group of `size` ranks, on a host with
    /// `workers` threads. Nothing is staged yet.
    pub fn new(rank: usize, size: usize, workers: usize) -> (balancer: Self)
        requires
            rank < size,
        ensures
            balancer.wf(),
            balancer@ == (BalancerView::<O> {
                workers: workers as nat,
                rank: rank as nat,
                size: size as nat,
                pending: None,
            }),
    {
        Balancer { workers, rank, size, work: None }
    }

    /// This rank's number in the group; the root is `0`.
    pub fn rank(&self) -> (rank: usize)
        ensures
            rank == self@.rank,
    {
        self.rank
    }

    /// The number of ranks in the group.
    pub fn size(&self) -> (size: usize)
        ensures
            size == self@.size,
    {
        self.size
    }

    /// The number of worker threads of this host.
    pub fn workers(&self) -> (workers: usize)
        ensures
            workers == self@.workers,
    {
        self.workers
    }

    /// Whether this rank greets the user at start-up: only the root does,
    /// and only when asked to be verbose.
    pub fn announces(&self, verbose: bool) -> (yes: bool)
        ensures
            yes == (self@.rank == 0 && verbose),
    {
        self.rank == 0 && verbose
    }

    /// The part of `items` that falls to this rank.
    pub fn get_subset<'b, I>(&self, items: &'b [I]) -> (ours: &'b [I]) where I: Send + Sync
        requires
            self.wf(),
        ensures
            ours@ == chunk_of(items@, self@.size, self@.rank),
    {
        let (l, r) = range(items.len(), self.size, self.rank);
        slice_subrange(items, l, r)
    }

    /// Maps `work` over all of `items` on this host's threads and stages
    /// the outputs, dropping whatever was staged before.
    pub fn work<'b, I, F>(&mut self, items: &'b [I], work: F) where
        I: Send + Sync,
        F: Fn(&'b I) -> O + Send + Sync,

        requires
            forall|i: int| 0 <= i < items@.len() ==> call_requires(work, (&#[trigger] items@[i],)),
        ensures
            final(self)@.pending is Some,
            maps_each(work, items@, final(self)@.pending->0),
            final(self)@ == old(self)@.staged(final(self)@.pending->0),
    {
        let output = par_map(items, &work);
        self.work = Some(LocalWork { output });
    }

    /// Maps `work` over this rank's share of `items`, which every rank
    /// holds in full, and stages the outputs, dropping whatever was staged
    /// before.
    pub fn work_subset<'b, I, F>(&mut self, items: &'b [I], work: F) where
        I: Send + Sync,
        F: Fn(&'b I) -> O + Send + Sync,

        requires
            old(self).wf(),
            forall|i: int| 0 <= i < items@.len() ==> call_requires(work, (&#[trigger] items@[i],)),
        ensures
            final(self)@.pending is Some,
            maps_each(
                work,
                chunk_of(items@, old(self)@.size, old(self)@.rank),
                final(self)@.pending->0,
            ),
            final(self)@ == old(self)@.staged(final(self)@.pending->0),
    {
        let ours = self.get_subset(items);
        proof {
            let start = chunk_start(items@.len(), self@.size, self@.rank) as int;
            lemma_chunk_bounds(items@.len(), self@.size, self@.rank);
            assert forall|i: int| 0 <= i < ours@.len() implies call_requires(
                work,
                (&#[trigger] ours@[i],),
            ) by {
                assert(ours@[i] == items@[start + i]);
            }
        }
        self.work(ours, work);
    }

    /// As [`Balancer::work_subset`]; the name under which a process that
    /// stands alone splits its work.
    pub fn work_local<'b, I, F>(&mut self, items: &'b [I], work: F) where
        I: Send + Sync,
        F: Fn(&'b I) -> O + Send + Sync,

        requires
            old(self).wf(),
            forall|i: int| 0 <= i < items@.len() ==> call_requires(work, (&#[trigger] items@[i],)),
        ensures
            final(self)@.pending is Some,
            maps_each(
                work,
                chunk_of(items@, old(self)@.size, old(self)@.rank),
                final(self)@.pending->0,
            ),
            final(self)@ == old(self)@.staged(final(self)@.pending->0),
    {
        self.work_subset(items, work);
    }

    /// Begins handing out a dataset that only the root holds. The root
    /// brings the dataset, every other rank brings nothing; driven to its
    /// end, the session finishes on each rank with that rank's share.
    pub fn distribute<I>(&self, items: Option<Vec<I>>) -> (session: Distribution<I>) where
        I: Send + Sync,

        requires
            self.wf(),
            items is Some <==> self@.rank == 0,
        ensures
            session.wf(),
            session@ == DistributionView::begin(self@.rank, self@.size, contents(items)),
    {
        Distribution::begin(self.rank, self.size, items)
    }

    /// Takes the staged output, leaving nothing pending, and begins
    /// gathering with it. Driven to its end, the session finishes on the
    /// root with the outputs of all ranks in rank order, and on every other
    /// rank with nothing; if nothing was staged it finishes at once, with
    /// nothing, on any rank.
    pub fn collect(&mut self) -> (session: Collection<O>)
        requires
            old(self).wf(),
        ensures
            final(self)@ == old(self)@.cleared(),
            session.wf(),
            session@ == CollectionView::begin(
                old(self)@.rank,
                old(self)@.size,
                old(self)@.pending,
            ),
    {
        let pending = match self.work.take() {
            Some(work) => Some(work.output),
            None => None,
        };
        Collection::begin(self.rank, self.size, pending)
    }
}

} // verus!
