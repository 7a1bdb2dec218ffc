//! How the renderer is paced: what it renders, over all that it takes out of its
//! inbox.

use crate::event::Message;
use crate::history::{all_of, explained, left_by};
use crate::inbox::{
    law_kinds_are_independent, law_taken_once, lemma_of_kind_add, of_kind, of_other_kinds,
};
use crate::renderer_thread::{
    configured_after, frames_rendered, last_step, law_wake_takes_something, left_by_wake,
    lemma_of_kind_found, render_step, wake_from, woken_with, RenderStep, Wake,
};
use crate::signals::{Signal, FRAME_READY, RENDER_TICK, SHUTDOWN, SURFACE_READY};
use crate::taker::Taking;
use vstd::prelude::*;

verus! {

/// What the renderer takes in each of the changes that it makes to its queue.
pub open spec fn wakes_of<Fd: 'static>(log: Seq<Taking<Signal<Fd>>>) -> Seq<Wake> {
    log.map_values(|taking: Taking<Signal<Fd>>| wake_from(taking.before))
}

/// How many of the messages ask for a frame.
pub open spec fn asks<Fd: 'static>(messages: Seq<Signal<Fd>>) -> nat {
    of_kind(messages, SURFACE_READY).len() + of_kind(messages, RENDER_TICK).len()
}

/// Whether none of the messages is a frame.
pub open spec fn no_frames<Fd: 'static>(messages: Seq<Signal<Fd>>) -> bool {
    of_kind(messages, FRAME_READY).len() == 0
}

/// Whether a change to the queue is the one that a renderer makes when it is woken.
pub open spec fn is_wake<Fd: 'static>(taking: Taking<Signal<Fd>>) -> bool {
    taking.before.len() > 0 && taking.after == left_by_wake(taking.before)
}

/// Whether all changes to the queue are those that a renderer makes when it is
/// woken.
pub open spec fn all_wakes<Fd: 'static>(log: Seq<Taking<Signal<Fd>>>) -> bool
    decreases log.len(),
{
    log.len() > 0 ==> all_wakes(log.drop_last()) && is_wake(log.last())
}

/// A renderer whose run is a series of wakes renders at most as many frames as
/// `SurfaceReady` and `RenderTick` events have arrived, not counting those that
/// are still queued.
pub proof fn law_renders_at_most_what_arrived<Fd: 'static>(
    log: Seq<Taking<Signal<Fd>>>,
    arrivals: Seq<Seq<Signal<Fd>>>,
)
    requires
        explained(log, arrivals),
        all_wakes(log),
        no_frames(all_of(arrivals)),
    ensures
        frames_rendered(wakes_of(log)) + asks(left_by(log)) <= asks(all_of(arrivals)),
        no_frames(left_by(log)),
    decreases log.len(),
{
    if log.len() == 0 {
        lemma_asks_add(Seq::<Signal<Fd>>::empty(), Seq::empty());
    } else {
        lemma_asks_add(all_of(arrivals.drop_last()), arrivals.last());
        law_renders_at_most_what_arrived(log.drop_last(), arrivals.drop_last());
        lemma_one_more_wake(
            log,
            left_by(log.drop_last()),
            arrivals.last(),
            asks(all_of(arrivals.drop_last())),
        );
    }
}

/// One more wake renders at most one more frame than before, and only if it was
/// asked for.
proof fn lemma_one_more_wake<Fd: 'static>(
    log: Seq<Taking<Signal<Fd>>>,
    left: Seq<Signal<Fd>>,
    arrived: Seq<Signal<Fd>>,
    asked: nat,
)
    requires
        log.len() > 0,
        is_wake(log.last()),
        log.last().before == left + arrived,
        no_frames(left),
        no_frames(arrived),
        frames_rendered(wakes_of(log.drop_last())) + asks(left) <= asked,
    ensures
        frames_rendered(wakes_of(log)) + asks(log.last().after) <= asked + asks(arrived),
        no_frames(log.last().after),
{
    lemma_asks_add(left, arrived);
    lemma_wake_of_log(log);
    lemma_wake_is_asked_for(
        configured_after(wakes_of(log.drop_last())),
        log.last().before,
    );
}

/// What is asked for in two parts.
proof fn lemma_asks_add<Fd: 'static>(first: Seq<Signal<Fd>>, second: Seq<Signal<Fd>>)
    ensures
        asks(first + second) == asks(first) + asks(second),
        no_frames(first + second) <==> no_frames(first) && no_frames(second),
        asks(Seq::<Signal<Fd>>::empty()) == 0,
        no_frames(Seq::<Signal<Fd>>::empty()),
{
    lemma_of_kind_add(first, second, SURFACE_READY);
    lemma_of_kind_add(first, second, RENDER_TICK);
    lemma_of_kind_add(first, second, FRAME_READY);
}

/// A frame that is rendered was asked for by something that is no longer queued.
proof fn lemma_wake_is_asked_for<Fd: 'static>(configured: bool, queued: Seq<Signal<Fd>>)
    requires
        queued.len() > 0,
        no_frames(queued),
    ensures
        asks(left_by_wake(queued)) + if render_step(
            configured,
            wake_from(queued).shutdowns > 0,
            wake_from(queued).readies > 0,
        ) == RenderStep::Render {
            1nat
        } else {
            0
        } <= asks(queued),
        no_frames(left_by_wake(queued)),
{
    lemma_left_by_wake(queued);
    lemma_of_kind_found(queued, FRAME_READY);
    assert forall|i: int| 0 <= i < queued.len() implies !(#[trigger] queued[i] is FrameReady) by {
        if queued[i] is FrameReady {
            assert(queued[i].spec_kind() == FRAME_READY);
        }
    }
    law_wake_takes_something(queued);
}

/// The last of the wakes in a log.
proof fn lemma_wake_of_log<Fd: 'static>(log: Seq<Taking<Signal<Fd>>>)
    requires
        log.len() > 0,
    ensures
        wakes_of(log).drop_last() == wakes_of(log.drop_last()),
        wakes_of(log).last() == wake_from(log.last().before),
{
    assert(wakes_of(log).drop_last() =~= wakes_of(log.drop_last()));
}

/// What is left of each kind when the renderer is woken.
proof fn lemma_left_by_wake<Fd: 'static>(queued: Seq<Signal<Fd>>)
    ensures
        wake_from(queued).shutdowns > 0 ==> asks(left_by_wake(queued)) == asks(queued),
        wake_from(queued).shutdowns == 0 ==> asks(left_by_wake(queued)) == 0 && asks(queued)
            == wake_from(queued).readies + wake_from(queued).ticks,
        of_kind(left_by_wake(queued), FRAME_READY) == of_kind(queued, FRAME_READY),
{
    let one = of_other_kinds(queued, SHUTDOWN);
    let two = of_other_kinds(one, SURFACE_READY);
    law_taken_once(one, SURFACE_READY);
    law_taken_once(two, RENDER_TICK);
    law_kinds_are_independent(queued, SHUTDOWN, SURFACE_READY);
    law_kinds_are_independent(queued, SHUTDOWN, RENDER_TICK);
    law_kinds_are_independent(queued, SHUTDOWN, FRAME_READY);
    law_kinds_are_independent(one, SURFACE_READY, FRAME_READY);
    law_kinds_are_independent(two, RENDER_TICK, SURFACE_READY);
    law_kinds_are_independent(two, RENDER_TICK, FRAME_READY);
}

/// A renderer that was woken without a `Shutdown` is not woken again before
/// something else arrives: it has left nothing in its queue that could wake it.
pub proof fn law_no_wake_without_arrival<Fd: 'static>(
    first: Taking<Signal<Fd>>,
    arrived: Seq<Signal<Fd>>,
    second: Taking<Signal<Fd>>,
)
    requires
        is_wake(first),
        is_wake(second),
        no_frames(first.before),
        forall|i: int| 0 <= i < first.before.len() ==> !(#[trigger] first.before[i] is Shutdown),
        second.before == first.after + arrived,
    ensures
        first.after.len() == 0,
        arrived.len() > 0,
{
    let left = first.after;
    lemma_of_kind_found(first.before, SHUTDOWN);
    assert forall|i: int| 0 <= i < first.before.len() && (#[trigger] first.before[i]).spec_kind()
        == SHUTDOWN implies first.before[i] is Shutdown by {}
    lemma_left_by_wake(first.before);
    law_taken_once(first.before, SHUTDOWN);
    let one = of_other_kinds(first.before, SHUTDOWN);
    let two = of_other_kinds(one, SURFACE_READY);
    law_kinds_are_independent(one, SURFACE_READY, SHUTDOWN);
    law_kinds_are_independent(two, RENDER_TICK, SHUTDOWN);
    lemma_of_kind_found(left, SHUTDOWN);
    lemma_of_kind_found(left, SURFACE_READY);
    lemma_of_kind_found(left, RENDER_TICK);
    lemma_of_kind_found(left, FRAME_READY);
    if left.len() > 0 {
        let kind = left[0].spec_kind();
        assert(kind == SHUTDOWN || kind == SURFACE_READY || kind == RENDER_TICK || kind
            == FRAME_READY);
    }
}

/// What the renderer knows of the surface, and the step that it takes, follow
/// from what it has taken out of its queue so far.
pub proof fn law_step_follows_from_log<Fd: 'static>(
    log: Seq<Taking<Signal<Fd>>>,
    taking: Taking<Signal<Fd>>,
    step: RenderStep,
    now: bool,
)
    requires
        woken_with(configured_after(wakes_of(log)), taking.before, step, now, taking.after),
    ensures
        step == last_step(wakes_of(log.push(taking))),
        now == configured_after(wakes_of(log.push(taking))),
{
    assert(log.push(taking).drop_last() =~= log);
    lemma_wake_of_log(log.push(taking));
}

} // verus!
