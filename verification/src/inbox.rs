//! The inbox of a manager: a queue of messages behind a lock, and what is done
//! to the queue while the lock is held.

use crate::event::{Event, Message};
use crate::sync::{append, Shared};
use crate::taker::Taker;
use parking_lot::Condvar;
use std::collections::VecDeque;
use vstd::prelude::*;

verus! {

/// The messages of one kind, in the order in which they were queued.
pub open spec fn of_kind<M: Message>(queued: Seq<M>, kind: u64) -> Seq<M> {
    queued.filter(|message: M| message.spec_kind() == kind)
}

/// The messages of all other kinds, in the order in which they were queued.
pub open spec fn of_other_kinds<M: Message>(queued: Seq<M>, kind: u64) -> Seq<M> {
    queued.filter(|message: M| message.spec_kind() != kind)
}

/// The messages that carry the given events.
pub open spec fn messages<M: Message, E: Event<M>>(events: Seq<E>) -> Seq<M> {
    events.map_values(|event: E| event.message())
}

/// Queues a message behind all others.
pub fn enqueue<M: Message>(queue: &mut VecDeque<M>, message: M)
    ensures
        final(queue)@ == old(queue)@.push(message),
{
    queue.push_back(message);
}

/// Empties the queue and returns all that it held.
pub fn take_all<M: Message>(queue: &mut VecDeque<M>) -> (taken: VecDeque<M>)
    ensures
        taken@ == old(queue)@,
        final(queue)@ == Seq::<M>::empty(),
{
    let mut taken: VecDeque<M> = VecDeque::new();
    std::mem::swap(queue, &mut taken);
    taken
}

/// Takes the messages of one kind out of the queue, in order. Messages of other
/// kinds stay where they are.
pub fn take_kind<M: Message>(queue: &mut VecDeque<M>, kind: u64) -> (taken: VecDeque<M>)
    ensures
        taken@ == of_kind(old(queue)@, kind),
        final(queue)@ == of_other_kinds(old(queue)@, kind),
{
    broadcast use Seq::lemma_filter_push;

    let ghost queued = queue@;
    let mut taken: VecDeque<M> = VecDeque::new();
    let mut remaining: VecDeque<M> = VecDeque::new();
    let ghost mut seen: Seq<M> = Seq::empty();
    proof {
        reveal(Seq::filter);
        assert(taken@ =~= of_kind(seen, kind));
        assert(remaining@ =~= of_other_kinds(seen, kind));
        assert(seen + queue@ =~= queued);
    }
    while queue.len() > 0
        invariant
            seen + queue@ == queued,
            taken@ == of_kind(seen, kind),
            remaining@ == of_other_kinds(seen, kind),
        decreases queue.len(),
    {
        broadcast use Seq::lemma_filter_push;

        let ghost rest = queue@;
        if let Some(message) = queue.pop_front() {
            proof {
                assert(seen.push(message) + queue@ =~= seen + rest);
            }
            if message.kind() == kind {
                taken.push_back(message);
            } else {
                remaining.push_back(message);
            }
            proof {
                seen = seen.push(message);
            }
        }
    }
    assert(seen =~= queued);
    std::mem::swap(queue, &mut remaining);
    taken
}

/// Unpacks the events of type `E` that messages of its kind carry.
pub fn unpack<M: Message, E: Event<M>>(packed: VecDeque<M>) -> (events: Vec<E>)
    requires
        forall|i: int|
            0 <= i < packed@.len() ==> (#[trigger] packed@[i]).spec_kind()
                == E::spec_event_kind(),
    ensures
        messages::<M, E>(events@) == packed@,
{
    let ghost all = packed@;
    let mut packed = packed;
    let mut events: Vec<E> = Vec::new();
    assert(messages::<M, E>(events@) + packed@ =~= all);
    while packed.len() > 0
        invariant
            messages::<M, E>(events@) + packed@ == all,
            forall|i: int|
                0 <= i < packed@.len() ==> (#[trigger] packed@[i]).spec_kind()
                    == E::spec_event_kind(),
        decreases packed.len(),
    {
        let ghost rest = packed@;
        if let Some(message) = packed.pop_front() {
            let ghost before = messages::<M, E>(events@);
            assert(message == rest[0]);
            assert forall|i: int| 0 <= i < packed@.len() implies (#[trigger] packed@[i]).spec_kind()
                == E::spec_event_kind() by {
                assert(packed@[i] == rest[i + 1]);
            }
            events.push(E::from_message(message));
            proof {
                assert(messages::<M, E>(events@) =~= before.push(message));
                assert(before.push(message) + packed@ =~= before + rest);
            }
        }
    }
    assert(messages::<M, E>(events@) =~= all);
    events
}

/// Takes the events of type `E` out of the queue, in order. Events of other
/// types stay where they are.
pub fn take_typed<M: Message, E: Event<M>>(queue: &mut VecDeque<M>) -> (taken: Vec<E>)
    ensures
        messages::<M, E>(taken@) == of_kind(old(queue)@, E::spec_event_kind()),
        final(queue)@ == of_other_kinds(old(queue)@, E::spec_event_kind()),
{
    let ghost queued = queue@;
    let taken = take_kind(queue, E::event_kind());
    proof {
        lemma_all_of_kind(queued, E::spec_event_kind());
    }
    unpack(taken)
}

/// The messages of a kind are of that kind.
proof fn lemma_all_of_kind<M: Message>(queued: Seq<M>, kind: u64)
    ensures
        forall|i: int|
            0 <= i < of_kind(queued, kind).len() ==> (#[trigger] of_kind(
                queued,
                kind,
            )[i]).spec_kind() == kind,
{
    broadcast use Seq::lemma_filter_pred;

}

/// Called with the lock held: whether there is nothing yet to stop waiting for.
/// Once there is, makes the change that is still to be made to the queue, and
/// keeps what comes of it.
pub fn keep_waiting<M: Message, R, F: FnOnce(&mut VecDeque<M>) -> R>(
    queue: &mut VecDeque<M>,
    change: &mut Option<F>,
    result: &mut Option<R>,
) -> (again: bool)
    requires
        *old(change) is Some ==> forall|held: &mut VecDeque<M>| #[trigger]
            (*old(change))->0.requires((held,)),
    ensures
        again == (old(queue)@.len() == 0),
        again || *old(change) is None ==> {
            &&& *final(queue) == *old(queue)
            &&& *final(change) == *old(change)
            &&& *final(result) == *old(result)
        },
        !again && *old(change) is Some ==> {
            &&& *final(change) is None
            &&& exists|held: &mut VecDeque<M>, r: R|
                {
                    &&& #[trigger] (*old(change))->0.ensures((held,), r)
                    &&& *held == *old(queue)
                    &&& *final(held) == *final(queue)
                    &&& *final(result) == Some(r)
                }
        },
{
    if queue.len() == 0 {
        return true;
    }
    let ghost held = *queue;
    if let Some(make) = change.take() {
        let r = make(queue);
        proof {
            let changed = *queue;
            assert(exists|q: &mut VecDeque<M>| #[trigger]
                make.ensures((q,), r) && *q == held && *final(q) == changed);
        }
        *result = Some(r);
    }
    false
}

/// The messages that are queued in an inbox. Those who send can do nothing but
/// queue one more.
pub struct Line<M> {
    queue: VecDeque<M>,
}

impl<M> View for Line<M> {
    type V = Seq<M>;

    closed spec fn view(&self) -> Seq<M> {
        self.queue@
    }
}

impl<M: Message> Line<M> {
    /// A line without messages.
    pub(crate) fn new() -> (line: Self)
        ensures
            line@ == Seq::<M>::empty(),
    {
        Line { queue: VecDeque::new() }
    }

    /// Queues a message behind all others.
    pub(crate) fn push(&mut self, message: M)
        ensures
            final(self)@ == old(self)@.push(message),
    {
        enqueue(&mut self.queue, message);
    }
}

/// A queue of messages that threads share, and a way to wait for one.
#[verifier::reject_recursive_types(M)]
pub struct PendingQueue<M> {
    queue: Shared<Line<M>>,
    condvar: Condvar,
}

/// Whether `r` may come of making a change to a queue that holds something.
pub open spec fn comes_of_change<M, R, F: FnOnce(&mut VecDeque<M>) -> R>(change: F, r: R) -> bool {
    exists|queue: &mut VecDeque<M>| #[trigger] change.ensures((queue,), r) && queue@.len() > 0
}

/// Called with the lock held: as `keep_waiting` does if asked to `wait`, and
/// otherwise makes the change at once.
pub fn wait_or_change<M: Message, R, F: FnOnce(&mut VecDeque<M>) -> R>(
    queue: &mut VecDeque<M>,
    wait: bool,
    change: &mut Option<F>,
    result: &mut Option<R>,
) -> (again: bool)
    requires
        *old(change) is Some ==> forall|held: &mut VecDeque<M>| #[trigger]
            (*old(change))->0.requires((held,)),
    ensures
        again == (wait && old(queue)@.len() == 0),
        again || *old(change) is None ==> {
            &&& *final(queue) == *old(queue)
            &&& *final(change) == *old(change)
            &&& *final(result) == *old(result)
        },
        !again && *old(change) is Some ==> {
            &&& *final(change) is None
            &&& exists|held: &mut VecDeque<M>, r: R|
                {
                    &&& #[trigger] (*old(change))->0.ensures((held,), r)
                    &&& *held == *old(queue)
                    &&& *final(held) == *final(queue)
                    &&& *final(result) == Some(r)
                }
        },
{
    if wait {
        return keep_waiting(queue, change, result);
    }
    let ghost held = *queue;
    if let Some(make) = change.take() {
        let r = make(queue);
        proof {
            let changed = *queue;
            assert(exists|q: &mut VecDeque<M>| #[trigger]
                make.ensures((q,), r) && *q == held && *final(q) == changed);
        }
        *result = Some(r);
    }
    false
}

/// `parking_lot::Condvar::wait_while`, called with the queue locked: gives the
/// lock up and waits for notifications until its condition, which is
/// `wait_or_change`, returns `false`. If asked to `wait`, the condition returns
/// `false` only on a queue that is not empty. Its last call has made the change
/// to the queue, once, and this is the change that the taker writes down. What
/// the queue holds by then is not said: it depends on the other threads.
#[verifier::external_body]
fn wait_while_empty<M: Message, R, F, const TAKES: bool>(
    taker: &mut Taker<M, TAKES>,
    wait: bool,
    change: F,
) -> (result: R)
    where F: FnOnce(&mut VecDeque<M>) -> R
    requires
        forall|queue: &mut VecDeque<M>| #[trigger] change.requires((queue,)),
        !TAKES ==> forall|queue: &mut VecDeque<M>, r: R| #[trigger]
            change.ensures((queue,), r) ==> *final(queue) == *queue,
    ensures
        final(taker).inbox() == old(taker).inbox(),
        final(taker).log() == old(taker).log().push(final(taker).log().last()),
        wait ==> final(taker).log().last().before.len() > 0,
        exists|queue: &mut VecDeque<M>| #[trigger]
            call_ensures(change, (queue,), result) && queue@ == final(taker).log().last().before
                && final(queue)@ == final(taker).log().last().after,
    opens_invariants none
{
    let mut change = Some(change);
    let mut result = None;
    let mut line = taker.pending.queue.mutex.lock();
    taker.pending.condvar.wait_while(&mut line, |line| {
        wait_or_change(&mut line.queue, wait, &mut change, &mut result)
    });
    result.unwrap()
}

impl<M: Message> PendingQueue<M> {
    /// What the queue held when it was made.
    pub closed spec fn started_with(&self) -> Seq<M> {
        self.queue.made_with()@
    }

    /// A queue of its own, which starts out empty.
    pub(crate) fn new() -> (pending: PendingQueue<M>)
        ensures
            pending.started_with() == Seq::<M>::empty(),
    {
        PendingQueue { queue: Shared::new(Line::new()), condvar: Condvar::new() }
    }

    /// Packs an event, queues it as `enqueue` does, and wakes a thread that waits.
    pub(crate) fn send_event<E: Event<M>>(&self, event: E) {
        let message = event.into_message();
        append(&self.queue, message);
        self.condvar.notify_one();
    }

    /// Makes a change to the queue while no other thread can reach it, at once.
    /// Nothing is sent.
    pub(crate) fn change<R, F: FnOnce(&mut VecDeque<M>) -> R>(
        taker: &mut Taker<M, true>,
        change: F,
    ) -> (r: R)
        requires
            forall|queue: &mut VecDeque<M>| #[trigger] change.requires((queue,)),
        ensures
            final(taker).inbox() == old(taker).inbox(),
            final(taker).log() == old(taker).log().push(final(taker).log().last()),
            exists|queue: &mut VecDeque<M>|
                {
                    &&& #[trigger] change.ensures((queue,), r)
                    &&& queue@ == final(taker).log().last().before
                    &&& final(queue)@ == final(taker).log().last().after
                },
        opens_invariants none
    {
        wait_while_empty(taker, false, change)
    }

    /// Takes everything that is queued, as `take_all` does. Which messages these
    /// are is not said: it depends on the other threads.
    pub(crate) fn drain(taker: &mut Taker<M, true>) -> (taken: VecDeque<M>)
        ensures
            final(taker).inbox() == old(taker).inbox(),
            final(taker).log() == old(taker).log().push(final(taker).log().last()),
            taken@ == final(taker).log().last().before,
            final(taker).log().last().after == Seq::<M>::empty(),
        opens_invariants none
    {
        let take = |queue: &mut VecDeque<M>| -> (taken: VecDeque<M>)
            ensures
                taken@ == old(queue)@,
                final(queue)@ == Seq::<M>::empty(),
        {
            take_all(queue)
        };
        PendingQueue::change(taker, take)
    }

    /// Takes the queued messages of a kind, as `take_kind` does.
    fn drain_kind(taker: &mut Taker<M, true>, kind: u64) -> (taken: VecDeque<M>)
        ensures
            final(taker).inbox() == old(taker).inbox(),
            final(taker).log() == old(taker).log().push(final(taker).log().last()),
            taken@ == of_kind(final(taker).log().last().before, kind),
            final(taker).log().last().after == of_other_kinds(
                final(taker).log().last().before,
                kind,
            ),
        opens_invariants none
    {
        let take = |queue: &mut VecDeque<M>| -> (taken: VecDeque<M>)
            ensures
                taken@ == of_kind(old(queue)@, kind),
                final(queue)@ == of_other_kinds(old(queue)@, kind),
        {
            take_kind(queue, kind)
        };
        PendingQueue::change(taker, take)
    }

    /// Takes the queued events of type `E`, as `take_typed` does. They are
    /// unpacked once the lock is given up. Events of other types stay queued.
    pub(crate) fn drain_typed<E: Event<M>>(taker: &mut Taker<M, true>) -> (taken: Vec<E>)
        ensures
            final(taker).inbox() == old(taker).inbox(),
            final(taker).log() == old(taker).log().push(final(taker).log().last()),
            messages::<M, E>(taken@) == of_kind(
                final(taker).log().last().before,
                E::spec_event_kind(),
            ),
            final(taker).log().last().after == of_other_kinds(
                final(taker).log().last().before,
                E::spec_event_kind(),
            ),
    {
        let taken = PendingQueue::drain_kind(taker, E::event_kind());
        proof {
            lemma_all_of_kind(taker.log().last().before, E::spec_event_kind());
        }
        unpack(taken)
    }

    /// Waits until something is queued, and makes a change to the queue while no
    /// other thread can reach it. What the queue holds by then is not said: it
    /// depends on the other threads. Nothing is sent.
    pub(crate) fn wait_and_change<
        R,
        F: FnOnce(&mut VecDeque<M>) -> R,
        const TAKES: bool,
    >(
        taker: &mut Taker<M, TAKES>,
        change: F,
    ) -> (r: R)
        requires
            forall|queue: &mut VecDeque<M>| #[trigger] change.requires((queue,)),
            !TAKES ==> forall|queue: &mut VecDeque<M>, r: R| #[trigger]
                change.ensures((queue,), r) ==> *final(queue) == *queue,
        ensures
            final(taker).inbox() == old(taker).inbox(),
            final(taker).log() == old(taker).log().push(final(taker).log().last()),
            final(taker).log().last().before.len() > 0,
            comes_of_change(change, r),
            exists|queue: &mut VecDeque<M>|
                {
                    &&& #[trigger] change.ensures((queue,), r)
                    &&& queue@ == final(taker).log().last().before
                    &&& final(queue)@ == final(taker).log().last().after
                },
        opens_invariants none
    {
        wait_while_empty(taker, true, change)
    }

    /// Waits until something is queued, then takes everything.
    pub(crate) fn wait_and_drain(taker: &mut Taker<M, true>) -> (taken: VecDeque<M>)
        ensures
            taken@.len() > 0,
            final(taker).inbox() == old(taker).inbox(),
            final(taker).log() == old(taker).log().push(final(taker).log().last()),
            taken@ == final(taker).log().last().before,
            final(taker).log().last().after == Seq::<M>::empty(),
        opens_invariants none
    {
        let take = |queue: &mut VecDeque<M>| -> (taken: VecDeque<M>)
            ensures
                taken@ == old(queue)@,
                final(queue)@ == Seq::<M>::empty(),
        {
            take_all(queue)
        };
        PendingQueue::wait_and_change(taker, take)
    }

    /// Waits until something is queued, and leaves it there.
    pub(crate) fn wait(taker: &mut Taker<M, false>)
        ensures
            final(taker).inbox() == old(taker).inbox(),
            final(taker).log() == old(taker).log().push(final(taker).log().last()),
            final(taker).log().last().before.len() > 0,
            final(taker).log().last().after == final(taker).log().last().before,
        opens_invariants none
    {
        let keep = |queue: &mut VecDeque<M>|
            ensures
                *final(queue) == *old(queue),
        {
        };
        PendingQueue::wait_and_change(taker, keep);
    }
}

/// Taking one kind of message out of a queue loses no message and makes up
/// none: what is taken and what stays are together what was queued.
pub proof fn law_nothing_is_lost<M: Message>(queued: Seq<M>, kind: u64)
    ensures
        of_kind(queued, kind).to_multiset().add(of_other_kinds(queued, kind).to_multiset())
            == queued.to_multiset(),
    decreases queued.len(),
{
    reveal(Seq::filter);
    broadcast use vstd::seq_lib::group_to_multiset_ensures;

    if queued.len() > 0 {
        let before = queued.drop_last();
        law_nothing_is_lost(before, kind);
        assert(before.push(queued.last()) =~= queued);
        assert(of_kind(queued, kind).to_multiset().add(
            of_other_kinds(queued, kind).to_multiset(),
        ) =~= queued.to_multiset());
    } else {
        assert(of_kind(queued, kind).to_multiset().add(
            of_other_kinds(queued, kind).to_multiset(),
        ) =~= queued.to_multiset());
    }
}

/// Once a kind of message has been taken out of a queue there is none of it
/// left: taking it again finds nothing and changes nothing.
pub proof fn law_taken_once<M: Message>(queued: Seq<M>, kind: u64)
    ensures
        of_kind(of_other_kinds(queued, kind), kind) == Seq::<M>::empty(),
        of_other_kinds(of_other_kinds(queued, kind), kind) == of_other_kinds(queued, kind),
    decreases queued.len(),
{
    reveal(Seq::filter);
    broadcast use Seq::lemma_filter_push;

    if queued.len() > 0 {
        law_taken_once(queued.drop_last(), kind);
    }
}

/// Taking one kind of message leaves every other kind as it was: the events of
/// another type that are taken afterwards are those that would have been taken
/// before, and the order in which two types are taken makes no difference to
/// what stays.
pub proof fn law_kinds_are_independent<M: Message>(queued: Seq<M>, kind: u64, other: u64)
    requires
        kind != other,
    ensures
        of_kind(of_other_kinds(queued, kind), other) == of_kind(queued, other),
        of_other_kinds(of_other_kinds(queued, kind), other) == of_other_kinds(
            of_other_kinds(queued, other),
            kind,
        ),
    decreases queued.len(),
{
    reveal(Seq::filter);
    broadcast use Seq::lemma_filter_push;

    if queued.len() > 0 {
        law_kinds_are_independent(queued.drop_last(), kind, other);
    }
}

/// An event that is sent is the last of its type to be taken, as it was sent,
/// and those sent before it come out before it. What stays in the queue is
/// what would have stayed without it.
pub proof fn law_sent_is_taken<M: Message, E: Event<M>>(queued: Seq<M>, event: E, taken: Seq<E>)
    requires
        messages::<M, E>(taken) == of_kind(queued.push(event.message()), E::spec_event_kind()),
    ensures
        taken.len() > 0,
        taken.last() == event,
        messages::<M, E>(taken.drop_last()) == of_kind(queued, E::spec_event_kind()),
        of_other_kinds(queued.push(event.message()), E::spec_event_kind()) == of_other_kinds(
            queued,
            E::spec_event_kind(),
        ),
{
    broadcast use Seq::lemma_filter_push;

    event.message_has_kind();
    let kind = E::spec_event_kind();
    let packed = messages::<M, E>(taken);
    assert(packed == of_kind(queued, kind).push(event.message()));
    assert(packed.last() == taken.last().message());
    taken.last().message_is_injective(event);
    assert(messages::<M, E>(taken.drop_last()) =~= packed.drop_last());
    assert(packed.drop_last() =~= of_kind(queued, kind));
}

/// An event of another type that is sent is not taken, and stays behind all
/// that was queued before it.
pub proof fn law_other_types_wait<M: Message, E: Event<M>>(queued: Seq<M>, event: E, kind: u64)
    requires
        E::spec_event_kind() != kind,
    ensures
        of_kind(queued.push(event.message()), kind) == of_kind(queued, kind),
        of_other_kinds(queued.push(event.message()), kind) == of_other_kinds(queued, kind).push(
            event.message(),
        ),
{
    broadcast use Seq::lemma_filter_push;

    event.message_has_kind();
}

/// One thing that a thread does to the queue while it holds the lock.
pub enum Access<M> {
    /// Queues a message, as `enqueue` does.
    Send { message: M },
    /// Takes the messages of one kind, as `take_typed` does.
    TakeKind { kind: u64 },
    /// Takes all messages, as `take_all` does.
    TakeAll,
}

/// What is queued after a queue, empty at first, was accessed.
pub open spec fn queued_after<M: Message>(accesses: Seq<Access<M>>) -> Seq<M>
    decreases accesses.len(),
{
    if accesses.len() == 0 {
        Seq::empty()
    } else {
        let queued = queued_after(accesses.drop_last());
        match accesses.last() {
            Access::Send { message } => queued.push(message),
            Access::TakeKind { kind } => of_other_kinds(queued, kind),
            Access::TakeAll => Seq::empty(),
        }
    }
}

/// All that was taken, in the order in which it was taken.
pub open spec fn taken_by<M: Message>(accesses: Seq<Access<M>>) -> Seq<M>
    decreases accesses.len(),
{
    if accesses.len() == 0 {
        Seq::empty()
    } else {
        let queued = queued_after(accesses.drop_last());
        let taken = taken_by(accesses.drop_last());
        match accesses.last() {
            Access::Send { message } => taken,
            Access::TakeKind { kind } => taken + of_kind(queued, kind),
            Access::TakeAll => taken + queued,
        }
    }
}

/// All that was sent, in the order in which it was sent.
pub open spec fn sent_by<M: Message>(accesses: Seq<Access<M>>) -> Seq<M>
    decreases accesses.len(),
{
    if accesses.len() == 0 {
        Seq::empty()
    } else {
        let sent = sent_by(accesses.drop_last());
        match accesses.last() {
            Access::Send { message } => sent.push(message),
            _ => sent,
        }
    }
}

/// However the threads take turns, the messages of a kind come out of the inbox
/// in the order in which they were sent, each of them once and as it was sent:
/// those that were taken, followed by those that are still queued, are those
/// that were sent.
pub proof fn law_first_in_first_out<M: Message>(accesses: Seq<Access<M>>, kind: u64)
    ensures
        of_kind(taken_by(accesses), kind) + of_kind(queued_after(accesses), kind) == of_kind(
            sent_by(accesses),
            kind,
        ),
    decreases accesses.len(),
{
    lemma_of_kind_add(Seq::<M>::empty(), Seq::<M>::empty(), kind);
    assert(Seq::<M>::empty() + Seq::<M>::empty() =~= Seq::<M>::empty());
    if accesses.len() > 0 {
        let before = accesses.drop_last();
        law_first_in_first_out(before, kind);
        let queued = queued_after(before);
        let taken = taken_by(before);
        match accesses.last() {
            Access::Send { message } => {
                let sent = seq![message];
                assert(queued.push(message) =~= queued + sent);
                assert(sent_by(before).push(message) =~= sent_by(before) + sent);
                lemma_of_kind_add(queued, sent, kind);
                lemma_of_kind_add(sent_by(before), sent, kind);
                assert(of_kind(taken, kind) + (of_kind(queued, kind) + of_kind(sent, kind)) =~= (
                of_kind(taken, kind) + of_kind(queued, kind)) + of_kind(sent, kind));
            },
            Access::TakeKind { kind: other } => {
                lemma_of_kind_add(taken, of_kind(queued, other), kind);
                lemma_kinds_of_kind(queued, other, kind);
                if kind == other {
                    law_taken_once(queued, kind);
                } else {
                    law_kinds_are_independent(queued, other, kind);
                }
                assert(of_kind(taken + of_kind(queued, other), kind) + of_kind(
                    of_other_kinds(queued, other),
                    kind,
                ) =~= of_kind(taken, kind) + of_kind(queued, kind));
            },
            Access::TakeAll => {
                lemma_of_kind_add(taken, queued, kind);
                assert(of_kind(taken + queued, kind) + of_kind(Seq::<M>::empty(), kind) =~= of_kind(
                    taken,
                    kind,
                ) + of_kind(queued, kind));
            },
        }
    }
}

/// The messages of a kind in a queue are those in its first part and those in
/// its second part.
pub proof fn lemma_of_kind_add<M: Message>(first: Seq<M>, second: Seq<M>, kind: u64)
    ensures
        of_kind(first + second, kind) == of_kind(first, kind) + of_kind(second, kind),
        of_kind(Seq::<M>::empty(), kind) == Seq::<M>::empty(),
{
    broadcast use Seq::filter_distributes_over_add;

    reveal(Seq::filter);
}

/// The messages of one kind are all of that kind, and of no other.
proof fn lemma_kinds_of_kind<M: Message>(queued: Seq<M>, kind: u64, other: u64)
    ensures
        of_kind(of_kind(queued, kind), other) == if kind == other {
            of_kind(queued, kind)
        } else {
            Seq::empty()
        },
    decreases queued.len(),
{
    reveal(Seq::filter);
    broadcast use Seq::lemma_filter_push;

    if queued.len() > 0 {
        lemma_kinds_of_kind(queued.drop_last(), kind, other);
    }
}

} // verus!
