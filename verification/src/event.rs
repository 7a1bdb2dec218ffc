//! Events, the messages that carry them, and the lists of handlers they are
//! passed along.

use vstd::prelude::*;

verus! {

/// What travels through a manager's inbox: one event of any of the types that
/// the manager serves, together with its kind.
pub trait Message: Sized + 'static {
    /// The kind of the event inside.
    spec fn spec_kind(&self) -> u64;

    /// Reads the kind of the event inside.
    fn kind(&self) -> (kind: u64)
        ensures
            kind == self.spec_kind(),
    ;
}

/// One type of event that messages of type `M` can carry.
///
/// A type stands for the kind `event_kind()`: a message of that kind holds a
/// value of the type, and nothing but the value.
pub trait Event<M: Message>: Sized + 'static {
    /// The kind of every event of this type.
    spec fn spec_event_kind() -> u64;

    /// The message that carries this event.
    spec fn message(self) -> M;

    /// Reads the kind of every event of this type.
    fn event_kind() -> (kind: u64)
        ensures
            kind == Self::spec_event_kind(),
    ;

    /// Packs the event.
    fn into_message(self) -> (message: M)
        ensures
            message == self.message(),
    ;

    /// Unpacks an event of this type.
    fn from_message(message: M) -> (event: Self)
        requires
            message.spec_kind() == Self::spec_event_kind(),
        ensures
            event.message() == message,
    ;

    /// A packed event has the kind of its type.
    proof fn message_has_kind(self)
        ensures
            self.message().spec_kind() == Self::spec_event_kind(),
    ;

    /// Packing loses nothing.
    proof fn message_is_injective(self, other: Self)
        requires
            self.message() == other.message(),
        ensures
            self == other,
    ;
}

/// Reacts to messages of type `E`.
pub trait EventHandler<E: Message>: Sized + 'static + Send {
    /// Whether a handler in the state `before`, given `event`, may end in the
    /// state `after` and hand on `answer`.
    spec fn answers(before: Self, event: E, after: Self, answer: E) -> bool;

    /// Handles one event and returns what the next handler is given, an event
    /// of the same kind.
    fn handle(&mut self, event: E) -> (answer: E)
        ensures
            Self::answers(*old(self), event, *final(self), answer),
            answer.spec_kind() == event.spec_kind(),
    ;
}

/// Whether `trail` is a way in which `event` passes along handlers that go
/// from the states `before` to the states `after`: the first handler is given
/// `event`, and each later one what the handler before it answered.
pub open spec fn passes_along<E: Message, H: EventHandler<E>>(
    before: Seq<H>,
    event: E,
    after: Seq<H>,
    trail: Seq<E>,
) -> bool {
    &&& after.len() == before.len()
    &&& trail.len() == before.len() + 1
    &&& trail[0] == event
    &&& forall|i: int|
        #![trigger before[i]]
        #![trigger after[i]]
        0 <= i < before.len() ==> H::answers(before[i], trail[i], after[i], trail[i + 1])
}

/// Whether passing `event` along handlers in the states `before`, in order,
/// may leave them in the states `after`.
pub open spec fn delivered<E: Message, H: EventHandler<E>>(
    before: Seq<H>,
    event: E,
    after: Seq<H>,
) -> bool {
    exists|trail: Seq<E>| passes_along(before, event, after, trail)
}

/// Whether passing `events`, first to last, along handlers in the states
/// `before` may leave them in the states `after`.
pub open spec fn delivered_all<E: Message, H: EventHandler<E>>(
    before: Seq<H>,
    events: Seq<E>,
    after: Seq<H>,
) -> bool
    decreases events.len(),
{
    if events.len() == 0 {
        after == before
    } else {
        exists|between: Seq<H>|
            delivered_all(before, events.drop_last(), between) && #[trigger] delivered(
                between,
                events.last(),
                after,
            )
    }
}

/// The handlers of one kind of event, in the order in which they subscribed.
pub struct EventHandlers<H> {
    handlers: Vec<H>,
}

impl<H> View for EventHandlers<H> {
    type V = Seq<H>;

    closed spec fn view(&self) -> Seq<H> {
        self.handlers@
    }
}

impl<H> EventHandlers<H> {
    /// A list without handlers.
    pub fn new() -> (list: Self)
        ensures
            list@ == Seq::<H>::empty(),
    {
        EventHandlers { handlers: Vec::new() }
    }

    /// Passes `event` along the handlers, first to last.
    pub fn send_event<E: Message>(&mut self, event: E) where H: EventHandler<E>
        ensures
            delivered(old(self)@, event, final(self)@),
    {
        let ghost before = self.handlers@;
        let ghost sent = event;
        let ghost mut trail: Seq<E> = seq![event];
        let count: usize = self.handlers.len();
        let mut event = event;
        let mut i: usize = 0;
        while i < count
            invariant
                i <= count,
                count == before.len(),
                self.handlers@.len() == count,
                trail.len() == i + 1,
                trail[0] == sent,
                trail[i as int] == event,
                forall|j: int| i <= j < count ==> self.handlers@[j] == before[j],
                forall|j: int|
                    #![trigger before[j]]
                    #![trigger self.handlers@[j]]
                    0 <= j < i ==> H::answers(
                        before[j],
                        trail[j],
                        self.handlers@[j],
                        trail[j + 1],
                    ),
            decreases count - i,
        {
            let handler = &mut self.handlers[i];
            event = handler.handle(event);
            proof {
                trail = trail.push(event);
            }
            i += 1;
        }
        assert(passes_along(before, sent, self.handlers@, trail));
    }

    /// Adds a handler behind all others.
    pub fn insert_handler(&mut self, handler: H)
        ensures
            final(self)@ == old(self)@.push(handler),
    {
        self.handlers.push(handler);
    }
}

/// A single handler is given the event that was sent, and is left in the state in
/// which it answered.
pub proof fn law_one_handler_is_given_the_event<E: Message, H: EventHandler<E>>(
    before: H,
    event: E,
    after: Seq<H>,
)
    requires
        delivered(seq![before], event, after),
    ensures
        after.len() == 1,
        exists|answer: E| #[trigger] H::answers(before, event, after[0], answer),
{
    let trail = choose|trail: Seq<E>| passes_along(seq![before], event, after, trail);
    assert(seq![before][0] == before);
    assert(H::answers(before, trail[0], after[0], trail[1]));
}

/// An event passes along a list of handlers as it passes along the first of them,
/// and then, as the last of these has answered it, along the others.
pub proof fn law_event_passes_part_by_part<E: Message, H: EventHandler<E>>(
    first: Seq<H>,
    second: Seq<H>,
    event: E,
    after: Seq<H>,
    trail: Seq<E>,
)
    requires
        passes_along(first + second, event, after, trail),
    ensures
        after.len() == first.len() + second.len(),
        passes_along(
            first,
            event,
            after.take(first.len() as int),
            trail.take(first.len() as int + 1),
        ),
        passes_along(
            second,
            trail[first.len() as int],
            after.skip(first.len() as int),
            trail.skip(first.len() as int),
        ),
{
    let all = first + second;
    let count = first.len() as int;
    assert forall|i: int|
        #![trigger first[i]]
        #![trigger after.take(count)[i]]
        0 <= i < count implies H::answers(
        first[i],
        trail.take(count + 1)[i],
        after.take(count)[i],
        trail.take(count + 1)[i + 1],
    ) by {
        assert(all[i] == first[i]);
    }
    assert forall|i: int|
        #![trigger second[i]]
        #![trigger after.skip(count)[i]]
        0 <= i < second.len() implies H::answers(
        second[i],
        trail.skip(count)[i],
        after.skip(count)[i],
        trail.skip(count)[i + 1],
    ) by {
        assert(all[count + i] == second[i]);
    }
}

} // verus!
