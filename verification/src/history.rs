//! What becomes of the messages that are sent to an inbox, over all that its
//! manager does to the queue.

use crate::event::{delivered_all, EventHandler, Message};
use crate::inbox::{
    law_kinds_are_independent, law_taken_once, lemma_of_kind_add, of_kind, of_other_kinds,
};
use crate::manager::{dispatched_all, law_dispatch_by_kind};
use crate::taker::Taking;
use vstd::prelude::*;

verus! {

/// What the queue holds after the changes in `log` were made to it, if nothing is
/// sent any more. It is empty at first.
pub open spec fn left_by<M>(log: Seq<Taking<M>>) -> Seq<M> {
    if log.len() == 0 {
        Seq::empty()
    } else {
        log.last().after
    }
}

/// Whether `arrivals` are what was sent, and queued behind all that was there,
/// before each of the changes in `log`.
pub open spec fn explained<M>(log: Seq<Taking<M>>, arrivals: Seq<Seq<M>>) -> bool
    decreases log.len(),
{
    &&& arrivals.len() == log.len()
    &&& log.len() > 0 ==> {
        &&& explained(log.drop_last(), arrivals.drop_last())
        &&& log.last().before == left_by(log.drop_last()) + arrivals.last()
    }
}

/// All that has arrived, in order.
pub open spec fn all_of<M>(arrivals: Seq<Seq<M>>) -> Seq<M>
    decreases arrivals.len(),
{
    if arrivals.len() == 0 {
        Seq::empty()
    } else {
        all_of(arrivals.drop_last()) + arrivals.last()
    }
}

/// Whether a change to the queue takes, of every kind of message, all or nothing.
pub open spec fn takes_whole_kinds<M: Message>(taking: Taking<M>) -> bool {
    forall|kind: u64|
        #![trigger of_kind(taking.after, kind)]
        of_kind(taking.after, kind) == of_kind(taking.before, kind) || of_kind(taking.after, kind)
            == Seq::<M>::empty()
}

/// The messages of a kind that such a change takes.
pub open spec fn taken_of_kind<M: Message>(taking: Taking<M>, kind: u64) -> Seq<M> {
    if of_kind(taking.after, kind) == of_kind(taking.before, kind) {
        Seq::empty()
    } else {
        of_kind(taking.before, kind)
    }
}

/// The messages of a kind that the changes in `log` take, in order.
pub open spec fn all_taken_of_kind<M: Message>(log: Seq<Taking<M>>, kind: u64) -> Seq<M>
    decreases log.len(),
{
    if log.len() == 0 {
        Seq::empty()
    } else {
        all_taken_of_kind(log.drop_last(), kind) + taken_of_kind(log.last(), kind)
    }
}

/// Over all that a manager does to its queue, the messages of a kind are taken in
/// the order in which they arrived, each of them once, and none is lost: those
/// that were taken, followed by those that are left, are those that have arrived.
pub proof fn law_log_is_first_in_first_out<M: Message>(
    log: Seq<Taking<M>>,
    arrivals: Seq<Seq<M>>,
    kind: u64,
)
    requires
        explained(log, arrivals),
        forall|i: int| 0 <= i < log.len() ==> takes_whole_kinds(#[trigger] log[i]),
    ensures
        all_taken_of_kind(log, kind) + of_kind(left_by(log), kind) == of_kind(
            all_of(arrivals),
            kind,
        ),
    decreases log.len(),
{
    lemma_of_kind_add(Seq::<M>::empty(), Seq::<M>::empty(), kind);
    if log.len() == 0 {
        assert(Seq::<M>::empty() + Seq::<M>::empty() =~= Seq::<M>::empty());
    } else {
        let shorter = log.drop_last();
        let taking = log.last();
        let earlier = all_taken_of_kind(shorter, kind);
        let arrived = of_kind(arrivals.last(), kind);
        assert forall|i: int| 0 <= i < shorter.len() implies takes_whole_kinds(
            #[trigger] shorter[i],
        ) by {
            assert(shorter[i] == log[i]);
        }
        law_log_is_first_in_first_out(shorter, arrivals.drop_last(), kind);
        lemma_of_kind_add(left_by(shorter), arrivals.last(), kind);
        lemma_of_kind_add(all_of(arrivals.drop_last()), arrivals.last(), kind);
        assert(takes_whole_kinds(log[log.len() - 1]));
        let gone = taken_of_kind(taking, kind);
        let stays = of_kind(taking.after, kind);
        assert(gone + stays =~= of_kind(taking.before, kind));
        assert((earlier + gone) + stays =~= earlier + (gone + stays));
        assert(earlier + (of_kind(left_by(shorter), kind) + arrived) =~= (earlier + of_kind(
            left_by(shorter),
            kind,
        )) + arrived);
    }
}

/// Taking one type, or everything, takes whole kinds.
pub proof fn law_draining_takes_whole_kinds<M: Message>(queued: Seq<M>, kind: u64)
    ensures
        takes_whole_kinds(Taking { before: queued, after: of_other_kinds(queued, kind) }),
        takes_whole_kinds(Taking { before: queued, after: Seq::<M>::empty() }),
{
    let others = of_other_kinds(queued, kind);
    assert forall|k: u64|
        #![trigger of_kind(others, k)]
        of_kind(others, k) == of_kind(queued, k) || of_kind(others, k) == Seq::<M>::empty() by {
        if k == kind {
            law_taken_once(queued, kind);
        } else {
            law_kinds_are_independent(queued, kind, k);
        }
    }
    assert forall|k: u64|
        #![trigger of_kind(Seq::<M>::empty(), k)]
        of_kind(Seq::<M>::empty(), k) == Seq::<M>::empty() by {
        lemma_of_kind_add(Seq::<M>::empty(), Seq::<M>::empty(), k);
    }
}

/// Draining one type and later another: the second drain gives all events of its
/// type that were queued at the time of the first, followed by those that arrived
/// in between. Draining the first type again gives only what arrived in between.
pub proof fn law_draining_keeps_other_types<M: Message>(
    first: Taking<M>,
    kind: u64,
    arrived: Seq<M>,
    second: Taking<M>,
    other: u64,
)
    requires
        first.after == of_other_kinds(first.before, kind),
        second.before == first.after + arrived,
    ensures
        other != kind ==> of_kind(second.before, other) == of_kind(first.before, other) + of_kind(
            arrived,
            other,
        ),
        of_kind(second.before, kind) == of_kind(arrived, kind),
{
    lemma_of_kind_add(first.after, arrived, other);
    lemma_of_kind_add(first.after, arrived, kind);
    law_taken_once(first.before, kind);
    if other != kind {
        law_kinds_are_independent(first.before, kind, other);
    }
    assert(Seq::<M>::empty() + of_kind(arrived, kind) =~= of_kind(arrived, kind));
}

/// Draining the inbox hands every message that was left in the queue, and then
/// every message that has arrived since, to the handlers of its kind, all of them
/// and in that order, and leaves nothing behind.
pub proof fn law_draining_delivers_all<M: Message, H: EventHandler<M>>(
    before: Map<u64, Seq<H>>,
    left: Seq<M>,
    arrived: Seq<M>,
    taking: Taking<M>,
    after: Map<u64, Seq<H>>,
    kind: u64,
)
    requires
        taking.before == left + arrived,
        dispatched_all(before, taking.before, after),
        before.contains_key(kind),
    ensures
        delivered_all(before[kind], of_kind(left, kind) + of_kind(arrived, kind), after[kind]),
{
    law_dispatch_by_kind(before, taking.before, after, kind);
    lemma_of_kind_add(left, arrived, kind);
}

} // verus!
