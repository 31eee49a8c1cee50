//! Handing a dataset that only the root holds out to the ranks.

use crate::balancer::chunk_of;
use crate::partition::{chunk_start, lemma_chunks_contiguous, range};
use crate::transport::{contents, Action, Step};
use vstd::prelude::*;

verus! {

/// A distribution in progress on one rank: `data` is the root's dataset
/// (on a follower, the share it has received so far), `cursor` the number
/// of actions named so far. A session that has finished stands at
/// `size + 1`.
pub ghost struct DistributionView<I> {
    pub rank: nat,
    pub size: nat,
    pub data: Seq<I>,
    pub cursor: nat,
}

impl<I> DistributionView<I> {
    /// The session as it begins: the root with its dataset, a follower
    /// with nothing.
    pub open spec fn begin(rank: nat, size: nat, items: Option<Seq<I>>) -> Self {
        DistributionView {
            rank,
            size,
            data: match items {
                Some(data) => data,
                None => Seq::empty(),
            },
            cursor: 0,
        }
    }

    /// Whether the next step must bring the payload of a receive.
    pub open spec fn awaiting(self) -> bool {
        self.rank != 0 && self.cursor == 1
    }

    /// The action that the next step names.
    ///
    /// The root sends the shares of ranks `1`, `2`, ... in that order, then
    /// waits at the barrier, then finishes with its own share. A follower
    /// receives from the root, waits at the barrier, then finishes with
    /// what it received.
    pub open spec fn action(self) -> Step<I> {
        if self.rank == 0 {
            if self.cursor + 1 < self.size {
                Step::Send {
                    to: self.cursor + 1,
                    payload: chunk_of(self.data, self.size, self.cursor + 1),
                }
            } else if self.cursor + 1 == self.size {
                Step::Barrier
            } else if self.cursor == self.size {
                Step::Finish { result: Some(chunk_of(self.data, self.size, 0)) }
            } else {
                Step::Finish { result: None }
            }
        } else {
            if self.cursor == 0 {
                Step::Receive { from: 0 }
            } else if self.cursor == 1 {
                Step::Barrier
            } else if self.cursor == 2 {
                Step::Finish { result: Some(self.data) }
            } else {
                Step::Finish { result: None }
            }
        }
    }

    /// The session after the next step, which brought `reply`.
    pub open spec fn after(self, reply: Option<Seq<I>>) -> Self {
        DistributionView {
            data: if self.awaiting() && reply is Some {
                reply->0
            } else {
                self.data
            },
            cursor: if self.action() is Finish {
                self.size + 1
            } else {
                self.cursor + 1
            },
            ..self
        }
    }
}

impl<I> DistributionView<I> {
    /// The session after one step for each entry of `replies`, each step
    /// bringing its entry.
    pub open spec fn run(self, replies: Seq<Option<Seq<I>>>) -> Self
        decreases replies.len(),
    {
        if replies.len() == 0 {
            self
        } else {
            self.run(replies.drop_last()).after(replies.last())
        }
    }
}

/// The shares of all ranks of a group of `size`, by rank: what a
/// distribution of `data` leaves each of them with.
pub open spec fn shares<T>(data: Seq<T>, size: nat) -> Seq<Seq<T>>
    recommends
        size >= 1,
{
    Seq::new(size, |rank: int| chunk_of(data, size, rank as nat))
}

/// One rank's part in a distribution.
pub struct Distribution<I> {
    rank: usize,
    size: usize,
    total: usize,
    ours: Vec<I>,
    rest: Vec<I>,
    next: usize,
    closed: bool,
    data: Ghost<Seq<I>>,
}

impl<I> View for Distribution<I> {
    type V = DistributionView<I>;

    closed spec fn view(&self) -> DistributionView<I> {
        DistributionView {
            rank: self.rank as nat,
            size: self.size as nat,
            data: self.data@,
            cursor: if self.closed {
                self.size as nat + 1
            } else {
                self.next as nat
            },
        }
    }
}

impl<I> Distribution<I> {
    /// On the root, `ours` is its own share and `rest` holds what the ranks
    /// not yet served will get; on a follower, `ours` is what has arrived.
    pub closed spec fn wf(&self) -> bool {
        &&& self.rank < self.size
        &&& !self.closed ==> if self.rank == 0 {
            &&& self.next <= self.size
            &&& self.total == self.data@.len()
            &&& self.ours@ == chunk_of(self.data@, self.size as nat, 0)
            &&& self.rest@ == self.data@.subrange(
                chunk_start(self.data@.len(), self.size as nat, self.next as nat + 1) as int,
                self.data@.len() as int,
            )
        } else {
            &&& self.next <= 2
            &&& self.ours@ == self.data@
        }
    }

    /// Begins the distribution on `rank`: the root brings the dataset, a
    /// follower brings nothing.
    pub fn begin(rank: usize, size: usize, items: Option<Vec<I>>) -> (session: Self)
        requires
            rank < size,
            items is Some <==> rank == 0,
        ensures
            session.wf(),
            session@ == DistributionView::begin(rank as nat, size as nat, contents(items)),
    {
        match items {
            Some(mut ours) => {
                let ghost data = ours@;
                let total: usize = ours.len();
                let (_, r) = range(total, size, 0);
                proof {
                    lemma_chunks_contiguous(total as nat, size as nat, 0);
                }
                let rest = ours.split_off(r);
                Distribution {
                    rank,
                    size,
                    total,
                    ours,
                    rest,
                    next: 0,
                    closed: false,
                    data: Ghost(data),
                }
            },
            None => Distribution {
                rank,
                size,
                total: 0,
                ours: Vec::new(),
                rest: Vec::new(),
                next: 0,
                closed: false,
                data: Ghost(Seq::empty()),
            },
        }
    }

    /// Whether the next step must bring the payload of a receive.
    pub fn awaiting(&self) -> (yes: bool)
        requires
            self.wf(),
        ensures
            yes == self@.awaiting(),
    {
        !self.closed && self.rank != 0 && self.next == 1
    }

    /// Names the next action. `reply` is the payload that arrived if the
    /// action before was a receive, and `None` otherwise.
    pub fn step(&mut self, reply: Option<Vec<I>>) -> (action: Action<I>)
        requires
            old(self).wf(),
            reply is Some <==> old(self)@.awaiting(),
        ensures
            final(self).wf(),
            action@ == old(self)@.action(),
            final(self)@ == old(self)@.after(contents(reply)),
    {
        if self.closed {
            return Action::Finish { result: None };
        }
        if self.rank == 0 {
            if self.next < self.size - 1 {
                let to: usize = self.next + 1;
                let (l, r) = range(self.total, self.size, to);
                proof {
                    lemma_chunks_contiguous(self.total as nat, self.size as nat, to as nat);
                }
                let mut payload = self.rest.split_off(r - l);
                std::mem::swap(&mut self.rest, &mut payload);
                self.next = to;
                assert(payload@ =~= chunk_of(self.data@, self.size as nat, to as nat));
                assert(self.rest@ =~= self.data@.subrange(r as int, self.data@.len() as int));
                Action::Send { to, payload }
            } else if self.next == self.size - 1 {
                self.next = self.size;
                proof {
                    lemma_chunks_contiguous(
                        self.total as nat,
                        self.size as nat,
                        self.size as nat + 1,
                    );
                    lemma_chunks_contiguous(self.total as nat, self.size as nat, self.size as nat);
                }
                Action::Barrier
            } else {
                let mut result = Vec::new();
                std::mem::swap(&mut self.ours, &mut result);
                self.closed = true;
                Action::Finish { result: Some(result) }
            }
        } else {
            if self.next == 0 {
                self.next = 1;
                Action::Receive { from: 0 }
            } else if self.next == 1 {
                if let Some(payload) = reply {
                    self.data = Ghost(payload@);
                    self.ours = payload;
                }
                self.next = 2;
                Action::Barrier
            } else {
                let mut result = Vec::new();
                std::mem::swap(&mut self.ours, &mut result);
                self.closed = true;
                Action::Finish { result: Some(result) }
            }
        }
    }
}

} // verus!
