//! Gathering the staged outputs of every rank on the root.

use crate::transport::{contents, Action, Step};
use vstd::prelude::*;

verus! {

/// The parts, one after the other.
pub open spec fn gather<T>(parts: Seq<Seq<T>>) -> Seq<T>
    decreases parts.len(),
{
    if parts.len() == 0 {
        Seq::empty()
    } else {
        gather(parts.drop_last()) + parts.last()
    }
}

/// A collection in progress on one rank: whether any output was staged
/// when it began, the parts at hand (the rank's own first, then, on the
/// root, those of ranks `1`, `2`, ... as they arrive), and the number of
/// actions named so far. A session that has finished stands at `size + 1`.
pub ghost struct CollectionView<O> {
    pub rank: nat,
    pub size: nat,
    pub staged: bool,
    pub parts: Seq<Seq<O>>,
    pub cursor: nat,
}

impl<O> CollectionView<O> {
    /// The session as it begins, with the rank's staged output if it has
    /// one.
    pub open spec fn begin(rank: nat, size: nat, pending: Option<Seq<O>>) -> Self {
        CollectionView {
            rank,
            size,
            staged: pending is Some,
            parts: match pending {
                Some(output) => seq![output],
                None => Seq::empty(),
            },
            cursor: 0,
        }
    }

    /// Whether the next step must bring the payload of a receive.
    pub open spec fn awaiting(self) -> bool {
        self.staged && self.rank == 0 && 1 <= self.cursor < self.size
    }

    /// The action that the next step names.
    ///
    /// With nothing staged the session finishes at once, empty-handed. Else
    /// the root receives from ranks `1`, `2`, ... in that order, waits at
    /// the barrier, and finishes with all parts in rank order; a follower
    /// sends its output to the root, waits at the barrier, and finishes
    /// empty-handed.
    pub open spec fn action(self) -> Step<O> {
        if !self.staged {
            Step::Finish { result: None }
        } else if self.rank == 0 {
            if self.cursor + 1 < self.size {
                Step::Receive { from: self.cursor + 1 }
            } else if self.cursor + 1 == self.size {
                Step::Barrier
            } else if self.cursor == self.size {
                Step::Finish { result: Some(gather(self.parts)) }
            } else {
                Step::Finish { result: None }
            }
        } else {
            if self.cursor == 0 {
                Step::Send { to: 0, payload: gather(self.parts) }
            } else if self.cursor == 1 {
                Step::Barrier
            } else {
                Step::Finish { result: None }
            }
        }
    }

    /// The session after the next step, which brought `reply`.
    pub open spec fn after(self, reply: Option<Seq<O>>) -> Self {
        CollectionView {
            parts: if self.awaiting() && reply is Some {
                self.parts.push(reply->0)
            } else {
                self.parts
            },
            cursor: if self.action() is Finish {
                self.size + 1
            } else {
                self.cursor + 1
            },
            ..self
        }
    }
}

impl<O> CollectionView<O> {
    /// The session after one step for each entry of `replies`, each step
    /// bringing its entry.
    pub open spec fn run(self, replies: Seq<Option<Seq<O>>>) -> Self
        decreases replies.len(),
    {
        if replies.len() == 0 {
            self
        } else {
            self.run(replies.drop_last()).after(replies.last())
        }
    }
}

/// Adding a part at the end adds its items at the end.
pub proof fn lemma_gather_push<T>(parts: Seq<Seq<T>>, part: Seq<T>)
    ensures
        gather(parts.push(part)) == gather(parts) + part,
{
    assert(parts.push(part).drop_last() =~= parts);
}

/// One part alone is gathered as it is.
pub proof fn lemma_gather_one<T>(part: Seq<T>)
    ensures
        gather(seq![part]) == part,
{
    assert(seq![part].drop_last() =~= Seq::<Seq<T>>::empty());
    assert(gather(seq![part].drop_last()) =~= Seq::<T>::empty());
    assert(gather(seq![part]) =~= part);
}

/// One rank's part in a collection.
pub struct Collection<O> {
    rank: usize,
    size: usize,
    staged: bool,
    output: Vec<O>,
    next: usize,
    closed: bool,
    parts: Ghost<Seq<Seq<O>>>,
}

impl<O> View for Collection<O> {
    type V = CollectionView<O>;

    closed spec fn view(&self) -> CollectionView<O> {
        CollectionView {
            rank: self.rank as nat,
            size: self.size as nat,
            staged: self.staged,
            parts: self.parts@,
            cursor: if self.closed {
                self.size as nat + 1
            } else {
                self.next as nat
            },
        }
    }
}

impl<O> Collection<O> {
    /// Until the output has left, it holds the parts at hand in order; the
    /// root has one part for itself and one for each rank it has heard
    /// from.
    pub closed spec fn wf(&self) -> bool {
        &&& self.rank < self.size
        &&& !self.staged ==> self.parts@.len() == 0
        &&& self.staged && !self.closed ==> if self.rank == 0 {
            &&& self.next <= self.size
            &&& self.output@ == gather(self.parts@)
        } else {
            &&& self.next <= 2
            &&& self.next == 0 ==> self.output@ == gather(self.parts@)
        }
    }

    /// Begins the collection on `rank` with the output it has staged, if
    /// any.
    pub fn begin(rank: usize, size: usize, pending: Option<Vec<O>>) -> (session: Self)
        requires
            rank < size,
        ensures
            session.wf(),
            session@ == CollectionView::begin(rank as nat, size as nat, contents(pending)),
    {
        match pending {
            Some(output) => {
                let ghost parts = seq![output@];
                proof {
                    lemma_gather_one(output@);
                }
                Collection {
                    rank,
                    size,
                    staged: true,
                    parts: Ghost(parts),
                    output,
                    next: 0,
                    closed: false,
                }
            },
            None => Collection {
                rank,
                size,
                staged: false,
                output: Vec::new(),
                next: 0,
                closed: false,
                parts: Ghost(Seq::empty()),
            },
        }
    }

    /// Whether the next step must bring the payload of a receive.
    pub fn awaiting(&self) -> (yes: bool)
        requires
            self.wf(),
        ensures
            yes == self@.awaiting(),
    {
        self.staged && !self.closed && self.rank == 0 && 1 <= self.next && self.next < self.size
    }

    /// Names the next action. `reply` is the payload that arrived if the
    /// action before was a receive, and `None` otherwise.
    pub fn step(&mut self, reply: Option<Vec<O>>) -> (action: Action<O>)
        requires
            old(self).wf(),
            reply is Some <==> old(self)@.awaiting(),
        ensures
            final(self).wf(),
            action@ == old(self)@.action(),
            final(self)@ == old(self)@.after(contents(reply)),
    {
        if self.closed || !self.staged {
            self.closed = true;
            return Action::Finish { result: None };
        }
        if self.rank == 0 {
            if let Some(mut payload) = reply {
                proof {
                    lemma_gather_push(self.parts@, payload@);
                }
                self.parts = Ghost(self.parts@.push(payload@));
                self.output.append(&mut payload);
            }
            if self.next < self.size - 1 {
                self.next = self.next + 1;
                Action::Receive { from: self.next }
            } else if self.next == self.size - 1 {
                self.next = self.size;
                Action::Barrier
            } else {
                let mut result = Vec::new();
                std::mem::swap(&mut self.output, &mut result);
                self.closed = true;
                Action::Finish { result: Some(result) }
            }
        } else {
            if self.next == 0 {
                let mut payload = Vec::new();
                std::mem::swap(&mut self.output, &mut payload);
                self.next = 1;
                Action::Send { to: 0, payload }
            } else if self.next == 1 {
                self.next = 2;
                Action::Barrier
            } else {
                self.closed = true;
                Action::Finish { result: None }
            }
        }
    }
}

} // verus!
