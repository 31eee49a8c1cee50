//! What a rank asks of the group's transport.
//!
//! The library never talks to other ranks itself. A collective operation is
//! a session that names one [`Action`] at a time; whoever drives the session
//! carries the action out on the real transport and steps the session again,
//! handing over the payload when the action was a receive.

use vstd::prelude::*;

verus! {

/// One request to the transport, or the end of the session.
pub enum Action<T> {
    /// Send `payload` to rank `to`, and wait until it is taken.
    Send { to: usize, payload: Vec<T> },
    /// Wait for the sequence that rank `from` sends.
    Receive { from: usize },
    /// Wait until every rank of the group has reached its barrier.
    Barrier,
    /// Nothing more to do: the operation returns `result` on this rank.
    Finish { result: Option<Vec<T>> },
}

/// An [`Action`] as a plain value.
pub ghost enum Step<T> {
    Send { to: nat, payload: Seq<T> },
    Receive { from: nat },
    Barrier,
    Finish { result: Option<Seq<T>> },
}

impl<T> View for Action<T> {
    type V = Step<T>;

    open spec fn view(&self) -> Step<T> {
        match *self {
            Action::Send { to, payload } => Step::Send { to: to as nat, payload: payload@ },
            Action::Receive { from } => Step::Receive { from: from as nat },
            Action::Barrier => Step::Barrier,
            Action::Finish { result } => Step::Finish { result: contents(result) },
        }
    }
}

/// The items of an optional sequence.
pub open spec fn contents<T>(items: Option<Vec<T>>) -> Option<Seq<T>> {
    match items {
        Some(v) => Some(v@),
        None => None,
    }
}

/// What `steps` steps in a row bring when none of them follows a receive:
/// nothing, each time.
pub open spec fn silence<T>(steps: nat) -> Seq<Option<Seq<T>>> {
    Seq::new(steps, |step: int| None)
}

/// What the steps of a rank bring that receives `parts[1]`, `parts[2]`, ...
/// in that order: the first step brings nothing, each later one the next
/// part.
pub open spec fn feed<T>(parts: Seq<Seq<T>>) -> Seq<Option<Seq<T>>> {
    Seq::new(
        parts.len(),
        |step: int|
            if step == 0 {
                None
            } else {
                Some(parts[step])
            },
    )
}

} // verus!
