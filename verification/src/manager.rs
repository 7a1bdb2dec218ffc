//! The event manager: a registry of handlers, and an inbox that other threads
//! can reach.

use crate::event::{delivered, delivered_all, Event, EventHandler, EventHandlers, Message};
use crate::inbox::{
    comes_of_change, law_first_in_first_out, messages, of_kind, of_other_kinds, queued_after,
    sent_by, taken_by, Access, PendingQueue,
};
use crate::sync::{reach, Owned};
use crate::taker::{Taker, Taking};
use std::collections::hash_map::Entry;
use std::collections::{HashMap, VecDeque};
use std::sync::Arc;
use vstd::prelude::*;

verus! {

broadcast use vstd::std_specs::hash::group_hash_axioms;

/// Whether dispatching `message` may take the registered handlers from
/// `before` to `after`: the handlers of its kind are given the message, and a
/// message of a kind that is not registered is dropped.
pub open spec fn dispatched<M: Message, H: EventHandler<M>>(
    before: Map<u64, Seq<H>>,
    message: M,
    after: Map<u64, Seq<H>>,
) -> bool {
    let kind = message.spec_kind();
    if before.contains_key(kind) {
        &&& delivered(before[kind], message, after[kind])
        &&& after == before.insert(kind, after[kind])
    } else {
        after == before
    }
}

/// Whether dispatching `queue`, first to last, may take the registered
/// handlers from `before` to `after`.
pub open spec fn dispatched_all<M: Message, H: EventHandler<M>>(
    before: Map<u64, Seq<H>>,
    queue: Seq<M>,
    after: Map<u64, Seq<H>>,
) -> bool
    decreases queue.len(),
{
    if queue.len() == 0 {
        after == before
    } else {
        exists|between: Map<u64, Seq<H>>|
            dispatched_all(before, queue.drop_last(), between) && #[trigger] dispatched(
                between,
                queue.last(),
                after,
            )
    }
}

/// Holds the handlers of every registered kind of event, and an inbox for
/// events that other threads send.
#[verifier::reject_recursive_types(M)]
pub struct EventManager<M, H> {
    registry: HashMap<u64, EventHandlers<H>>,
    taker: Taker<M, true>,
}

impl<M: Message, H: EventHandler<M>> EventManager<M, H> {
    /// The handlers of each registered kind of event, in order of
    /// subscription.
    pub closed spec fn registry(&self) -> Map<u64, Seq<H>> {
        self.registry@.map_values(|list: EventHandlers<H>| list@)
    }

    /// The inbox.
    pub closed spec fn inbox(&self) -> PendingQueue<M> {
        self.taker.inbox()
    }

    /// What this manager has done to the queue of its inbox, in order.
    pub closed spec fn log(&self) -> Seq<Taking<M>> {
        self.taker.log()
    }

    /// Whether this manager has made one change to the queue of its inbox since it
    /// was `before`, and no other.
    pub open spec fn has_taken_once(&self, before: Self) -> bool {
        &&& self.log() == before.log().push(self.log().last())
        &&& self.inbox() == before.inbox()
    }

    /// A manager with nothing registered, and an inbox of its own, which starts
    /// out empty.
    pub fn new() -> (manager: Self)
        ensures
            manager.inbox().started_with() == Seq::<M>::empty(),
            manager.log() == Seq::<Taking<M>>::empty(),
            manager.registry() == Map::<u64, Seq<H>>::empty(),
    {
        let manager = EventManager {
            registry: HashMap::new(),
            taker: Taker::new(),
        };
        assert(manager.registry() =~= Map::<u64, Seq<H>>::empty());
        manager
    }

    /// Wraps a component so that it can subscribe to events. The component is
    /// not built, and nothing is registered.
    pub fn register_component<C: Component<M, H>>(
        &mut self,
        component: C,
    ) -> (registered: RegisteredComponent<C>)
        ensures
            registered.component() == component,
            *final(self) == *old(self),
    {
        RegisteredComponent::new(component)
    }

    /// Subscribes a handler to the events of type `E`, behind those that
    /// subscribed before.
    pub fn subscribe_event<E: Event<M>>(&mut self, component: H)
        requires
            old(self).registry().contains_key(E::spec_event_kind()),
        ensures
            final(self).registry() == old(self).registry().insert(
                E::spec_event_kind(),
                old(self).registry()[E::spec_event_kind()].push(component),
            ),
            final(self).inbox() == old(self).inbox(),
            final(self).log() == old(self).log(),
    {
        let kind: u64 = E::event_kind();
        self.get_event_handlers(kind).insert_handler(component);
    }

    /// Passes an event along the handlers that subscribed to its type.
    pub fn send_event<E: Event<M>>(&mut self, event: E)
        requires
            old(self).registry().contains_key(E::spec_event_kind()),
        ensures
            dispatched(old(self).registry(), event.message(), final(self).registry()),
            final(self).inbox() == old(self).inbox(),
            final(self).log() == old(self).log(),
    {
        proof {
            event.message_has_kind();
        }
        self.dispatch(event.into_message());
    }

    /// Makes a type of event known, with no handlers yet.
    pub fn register_event<E: Event<M>>(&mut self)
        requires
            !old(self).registry().contains_key(E::spec_event_kind()),
        ensures
            final(self).registry() == old(self).registry().insert(
                E::spec_event_kind(),
                Seq::<H>::empty(),
            ),
            final(self).inbox() == old(self).inbox(),
            final(self).log() == old(self).log(),
    {
        let kind: u64 = E::event_kind();
        let ghost before = self.registry();
        self.registry.insert(kind, EventHandlers::new());
        assert(self.registry() =~= before.insert(kind, Seq::<H>::empty()));
    }

    /// Whether a type of event is registered.
    pub fn is_registered<E: Event<M>>(&self) -> (registered: bool)
        ensures
            registered == self.registry().contains_key(E::spec_event_kind()),
    {
        self.registry.contains_key(&E::event_kind())
    }

    /// A handle to this manager's inbox, for other threads and other managers.
    pub fn handle(&self) -> (handle: EventManagerHandle<M>)
        ensures
            handle.inbox() == self.inbox(),
    {
        EventManagerHandle { pending: self.taker.pending() }
    }

    /// Dispatches one message to the handlers of its kind. A message of a kind
    /// that is not registered is dropped.
    pub fn dispatch(&mut self, message: M)
        ensures
            dispatched(old(self).registry(), message, final(self).registry()),
            final(self).inbox() == old(self).inbox(),
            final(self).log() == old(self).log(),
    {
        let kind: u64 = message.kind();
        if self.registry.contains_key(&kind) {
            self.get_event_handlers(kind).send_event(message);
        }
    }

    /// Dispatches messages, first to last.
    pub fn dispatch_all(&mut self, queue: VecDeque<M>)
        ensures
            dispatched_all(old(self).registry(), queue@, final(self).registry()),
            final(self).inbox() == old(self).inbox(),
            final(self).log() == old(self).log(),
    {
        let ghost before = self.registry();
        let ghost all = queue@;
        let ghost mut done: Seq<M> = Seq::empty();
        let mut queue = queue;
        assert(done + queue@ =~= all);
        while queue.len() > 0
            invariant
                done + queue@ == all,
                dispatched_all(before, done, self.registry()),
                self.inbox() == old(self).inbox(),
                self.log() == old(self).log(),
            decreases queue.len(),
        {
            let ghost between = self.registry();
            let ghost rest = queue@;
            if let Some(message) = queue.pop_front() {
                self.dispatch(message);
                proof {
                    assert(done.push(message) + queue@ =~= done + rest);
                    assert(done.push(message).drop_last() =~= done);
                    done = done.push(message);
                    assert(dispatched_all(before, done.drop_last(), between));
                    assert(dispatched(between, done.last(), self.registry()));
                }
            }
        }
        assert(done =~= all);
    }

    /// Dispatches everything that other threads have sent so far, in the order
    /// in which it was sent: all that is queued when the lock is taken is taken
    /// and dispatched. Does not wait.
    pub fn drain_pending(&mut self)
        ensures
            final(self).has_taken_once(*old(self)),
            dispatched_all(
                old(self).registry(),
                final(self).log().last().before,
                final(self).registry(),
            ),
            final(self).log().last().after == Seq::<M>::empty(),
    {
        let drained = PendingQueue::drain(&mut self.taker);
        self.dispatch_all(drained);
    }

    /// Waits until another thread has sent something, then dispatches
    /// everything that was sent.
    pub fn wait_and_drain_pending(&mut self)
        ensures
            final(self).has_taken_once(*old(self)),
            dispatched_all(
                old(self).registry(),
                final(self).log().last().before,
                final(self).registry(),
            ),
            final(self).log().last().before.len() > 0,
            final(self).log().last().after == Seq::<M>::empty(),
    {
        let drained = PendingQueue::wait_and_drain(&mut self.taker);
        self.dispatch_all(drained);
    }

    /// Takes the events of type `E` that other threads have sent out of the
    /// inbox, in order, without dispatching them. Events of other types stay
    /// in the inbox. Does not wait.
    pub fn drain_typed<E: Event<M>>(&mut self) -> (taken: Vec<E>)
        ensures
            final(self).has_taken_once(*old(self)),
            messages::<M, E>(taken@) == of_kind(
                final(self).log().last().before,
                E::spec_event_kind(),
            ),
            final(self).log().last().after == of_other_kinds(
                final(self).log().last().before,
                E::spec_event_kind(),
            ),
            final(self).registry() == old(self).registry(),
    {
        PendingQueue::drain_typed(&mut self.taker)
    }

    /// Waits until another thread has sent something, and makes a change to what
    /// is queued while no other thread can reach it. What is queued by then is not
    /// said: it depends on the other threads. Nothing is sent.
    pub(crate) fn wait_and_change<R, F: FnOnce(&mut VecDeque<M>) -> R>(
        &mut self,
        change: F,
    ) -> (r: R)
        requires
            forall|queue: &mut VecDeque<M>| #[trigger] change.requires((queue,)),
        ensures
            final(self).has_taken_once(*old(self)),
            final(self).log().last().before.len() > 0,
            comes_of_change(change, r),
            exists|queue: &mut VecDeque<M>|
                {
                    &&& #[trigger] change.ensures((queue,), r)
                    &&& queue@ == final(self).log().last().before
                    &&& final(queue)@ == final(self).log().last().after
                },
            final(self).registry() == old(self).registry(),
        opens_invariants none
    {
        PendingQueue::wait_and_change(&mut self.taker, change)
    }

    /// Waits until another thread has sent something. Neither dispatches nor
    /// takes anything. Nothing is said of the inbox afterwards: other threads may
    /// have changed it by then.
    pub fn wait_for_pending(&self) {
        let mut looker = self.taker.looker();
        PendingQueue::wait(&mut looker);
    }

    /// The handlers of a registered kind, to be changed.
    fn get_event_handlers(&mut self, kind: u64) -> (list: &mut EventHandlers<H>)
        requires
            old(self).registry().contains_key(kind),
        ensures
            list@ == old(self).registry()[kind],
            final(self).registry() == old(self).registry().insert(kind, final(list)@),
            final(self).inbox() == old(self).inbox(),
            final(self).log() == old(self).log(),
    {
        match self.registry.entry(kind) {
            Entry::Occupied(entry) => entry.into_mut(),
            Entry::Vacant(_) => vstd::pervasive::unreached(),
        }
    }
}

/// Sends events to the inbox of a manager, from any thread.
#[verifier::reject_recursive_types(M)]
pub struct EventManagerHandle<M> {
    pending: Arc<PendingQueue<M>>,
}

impl<M: Message> EventManagerHandle<M> {
    /// The inbox that this handle leads to.
    pub closed spec fn inbox(&self) -> PendingQueue<M> {
        *self.pending
    }

    /// Packs an event and queues it for the manager, behind all that is queued, as
    /// `enqueue` does. Does not wait for it to be handled. Nothing is said of the inbox
    /// afterwards: other threads may have changed it by then.
    pub fn send_event<E: Event<M>>(&self, event: E) {
        self.pending.send_event(event);
    }
}

impl<M: Message> Clone for EventManagerHandle<M> {
    fn clone(&self) -> (handle: Self)
        ensures
            handle.inbox() == self.inbox(),
    {
        EventManagerHandle { pending: Arc::clone(&self.pending) }
    }
}

/// A part of an application that sets itself up on a manager.
pub trait Component<M: Message, H: EventHandler<M>>: Sized {
    /// Registers and subscribes what the component needs.
    fn build(&mut self, app: &mut EventManager<M, H>);
}

/// A component behind a lock, which handles events as the component does.
#[verifier::reject_recursive_types(T)]
pub struct RegisteredComponent<T>(Owned<T>);

impl<T> RegisteredComponent<T> {
    /// The component, in the state that it is in.
    pub closed spec fn component(&self) -> T {
        self.0.value()
    }

    fn new(component: T) -> (registered: Self)
        ensures
            registered.component() == component,
    {
        RegisteredComponent(Owned::new(component))
    }
}

impl<M: Message, T: EventHandler<M>> EventHandler<M> for RegisteredComponent<T> {
    open spec fn answers(before: Self, event: M, after: Self, answer: M) -> bool {
        T::answers(before.component(), event, after.component(), answer)
    }

    fn handle(&mut self, event: M) -> (answer: M) {
        reach(&mut self.0).handle(event)
    }
}

/// Dispatching registers no kind of event and drops none, and neither adds
/// handlers to a kind nor removes any.
pub proof fn law_dispatch_keeps_subscriptions<M: Message, H: EventHandler<M>>(
    before: Map<u64, Seq<H>>,
    queue: Seq<M>,
    after: Map<u64, Seq<H>>,
)
    requires
        dispatched_all(before, queue, after),
    ensures
        after.dom() == before.dom(),
        forall|kind: u64| #[trigger]
            before.contains_key(kind) ==> after[kind].len() == before[kind].len(),
    decreases queue.len(),
{
    if queue.len() > 0 {
        let between = choose|between: Map<u64, Seq<H>>|
            dispatched_all(before, queue.drop_last(), between) && #[trigger] dispatched(
                between,
                queue.last(),
                after,
            );
        law_dispatch_keeps_subscriptions(before, queue.drop_last(), between);
        assert(after.dom() =~= before.dom());
        assert forall|kind: u64| #[trigger] before.contains_key(kind) implies after[kind].len()
            == before[kind].len() by {
            assert(between.contains_key(kind));
        }
    }
}

/// The handlers of a kind of event are given the messages of that kind, all of
/// them and in the order in which they were queued, and no others.
pub proof fn law_dispatch_by_kind<M: Message, H: EventHandler<M>>(
    before: Map<u64, Seq<H>>,
    queue: Seq<M>,
    after: Map<u64, Seq<H>>,
    kind: u64,
)
    requires
        dispatched_all(before, queue, after),
        before.contains_key(kind),
    ensures
        delivered_all(before[kind], of_kind(queue, kind), after[kind]),
    decreases queue.len(),
{
    reveal(Seq::filter);
    if queue.len() > 0 {
        let between = choose|between: Map<u64, Seq<H>>|
            dispatched_all(before, queue.drop_last(), between) && #[trigger] dispatched(
                between,
                queue.last(),
                after,
            );
        law_dispatch_by_kind(before, queue.drop_last(), between, kind);
        law_dispatch_keeps_subscriptions(before, queue.drop_last(), between);
        let earlier = of_kind(queue.drop_last(), kind);
        assert(between.contains_key(kind));
        if queue.last().spec_kind() == kind {
            assert(of_kind(queue, kind).drop_last() =~= earlier);
            assert(delivered(between[kind], of_kind(queue, kind).last(), after[kind]));
        }
    }
}

/// Dispatching in two goes what was queued is dispatching it in one.
pub proof fn law_dispatch_in_goes<M: Message, H: EventHandler<M>>(
    before: Map<u64, Seq<H>>,
    first: Seq<M>,
    between: Map<u64, Seq<H>>,
    second: Seq<M>,
    after: Map<u64, Seq<H>>,
)
    requires
        dispatched_all(before, first, between),
        dispatched_all(between, second, after),
    ensures
        dispatched_all(before, first + second, after),
    decreases second.len(),
{
    if second.len() > 0 {
        let last = choose|last: Map<u64, Seq<H>>|
            dispatched_all(between, second.drop_last(), last) && #[trigger] dispatched(
                last,
                second.last(),
                after,
            );
        law_dispatch_in_goes(before, first, between, second.drop_last(), last);
        assert((first + second).drop_last() =~= first + second.drop_last());
        assert(dispatched(last, (first + second).last(), after));
    } else {
        assert(first + second =~= first);
    }
}

/// Messages of kinds that are not registered change nothing.
pub proof fn law_unregistered_is_dropped<M: Message, H: EventHandler<M>>(
    before: Map<u64, Seq<H>>,
    queue: Seq<M>,
    after: Map<u64, Seq<H>>,
)
    requires
        dispatched_all(before, queue, after),
        forall|i: int|
            0 <= i < queue.len() ==> !before.contains_key(#[trigger] queue[i].spec_kind()),
    ensures
        after == before,
    decreases queue.len(),
{
    if queue.len() > 0 {
        let between = choose|between: Map<u64, Seq<H>>|
            dispatched_all(before, queue.drop_last(), between) && #[trigger] dispatched(
                between,
                queue.last(),
                after,
            );
        assert forall|i: int| 0 <= i < queue.drop_last().len() implies !before.contains_key(
            #[trigger] queue.drop_last()[i].spec_kind(),
        ) by {
            assert(queue.drop_last()[i] == queue[i]);
        }
        law_unregistered_is_dropped(before, queue.drop_last(), between);
        assert(!before.contains_key(queue[queue.len() - 1].spec_kind()));
    }
}

/// One access to one of several inboxes.
#[verifier::reject_recursive_types(M)]
pub struct InboxAccess<M> {
    pub inbox: PendingQueue<M>,
    pub access: Access<M>,
}

/// The accesses to one of the inboxes, in order.
pub open spec fn accesses_to<M>(all: Seq<InboxAccess<M>>, inbox: PendingQueue<M>) -> Seq<Access<M>>
    decreases all.len(),
{
    if all.len() == 0 {
        Seq::empty()
    } else {
        let earlier = accesses_to(all.drop_last(), inbox);
        if all.last().inbox == inbox {
            earlier.push(all.last().access)
        } else {
            earlier
        }
    }
}

/// Every handle that leads to the inbox of a manager feeds the one queue of that
/// manager: whatever was done to any inbox before, and through whichever handle,
/// what is sent through such a handle is queued behind all that the manager has
/// queued, and all other inboxes stay as they are.
pub proof fn law_handles_feed_one_queue<M: Message, H: EventHandler<M>>(
    manager: EventManager<M, H>,
    handle: EventManagerHandle<M>,
    other: PendingQueue<M>,
    all: Seq<InboxAccess<M>>,
    message: M,
)
    requires
        handle.inbox() == manager.inbox(),
    ensures
        ({
            let more = all.push(
                InboxAccess { inbox: handle.inbox(), access: Access::Send { message } },
            );
            &&& queued_after(accesses_to(more, manager.inbox())) == queued_after(
                accesses_to(all, manager.inbox()),
            ).push(message)
            &&& sent_by(accesses_to(more, manager.inbox())) == sent_by(
                accesses_to(all, manager.inbox()),
            ).push(message)
            &&& other != manager.inbox() ==> accesses_to(more, other) == accesses_to(all, other)
        }),
{
    let more = all.push(InboxAccess { inbox: handle.inbox(), access: Access::Send { message } });
    let mine = accesses_to(all, manager.inbox());
    assert(more.drop_last() =~= all);
    assert(accesses_to(more, manager.inbox()).drop_last() =~= mine);
}

/// What goes through the handles of a manager comes out of its inbox type by
/// type in the order of sending, each event once, whatever is done to other
/// inboxes in between.
pub proof fn law_handles_keep_order<M: Message, H: EventHandler<M>>(
    manager: EventManager<M, H>,
    all: Seq<InboxAccess<M>>,
    kind: u64,
)
    ensures
        of_kind(taken_by(accesses_to(all, manager.inbox())), kind) + of_kind(
            queued_after(accesses_to(all, manager.inbox())),
            kind,
        ) == of_kind(sent_by(accesses_to(all, manager.inbox())), kind),
{
    law_first_in_first_out(accesses_to(all, manager.inbox()), kind);
}

} // verus!
