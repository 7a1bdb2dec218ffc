//! The taking end of an inbox: who holds it can take messages, and every change
//! that is made to the queue through it is written down.

use crate::event::Message;
use crate::inbox::PendingQueue;
use std::sync::Arc;
use vstd::prelude::*;

verus! {

/// One change to a queue: what it held when the lock was taken, and what it held
/// when the lock was given up.
pub struct Taking<M> {
    pub before: Seq<M>,
    pub after: Seq<M>,
}

/// An end of an inbox, through which the queue can be reached. `Taker<M, true>`
/// is the taking end: there is one for each inbox, made together with it. Any
/// number of `Taker<M, false>` can be made, which only look at the queue.
#[verifier::reject_recursive_types(M)]
pub struct Taker<M, const TAKES: bool> {
    pub(crate) pending: Arc<PendingQueue<M>>,
    log: Ghost<Seq<Taking<M>>>,
}

impl<M: Message, const TAKES: bool> Taker<M, TAKES> {
    /// The inbox.
    pub closed spec fn inbox(&self) -> PendingQueue<M> {
        *self.pending
    }

    /// The changes that were made to the queue through this end, in order.
    pub closed spec fn log(&self) -> Seq<Taking<M>> {
        self.log@
    }

    /// An end of the same inbox that only looks at the queue.
    pub(crate) fn looker(&self) -> (looker: Taker<M, false>)
        ensures
            looker.inbox() == self.inbox(),
    {
        Taker { pending: Arc::clone(&self.pending), log: Ghost(Seq::empty()) }
    }

    /// The inbox, for those who send.
    pub(crate) fn pending(&self) -> (pending: Arc<PendingQueue<M>>)
        ensures
            *pending == self.inbox(),
    {
        Arc::clone(&self.pending)
    }
}

impl<M: Message> Taker<M, true> {
    /// The taking end of a new inbox, which starts out empty.
    pub(crate) fn new() -> (taker: Self)
        ensures
            taker.inbox().started_with() == Seq::<M>::empty(),
            taker.log() == Seq::<Taking<M>>::empty(),
    {
        Taker { pending: Arc::new(PendingQueue::new()), log: Ghost(Seq::empty()) }
    }
}

} // verus!
