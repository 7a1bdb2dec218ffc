//! The renderer's side: what it does each time it is woken, and what it tells
//! the Wayland thread about a frame.

use crate::event::Message;
use crate::inbox::{
    law_kinds_are_independent, law_taken_once, of_kind, of_other_kinds, take_kind, PendingQueue,
};
use crate::manager::{EventManager, EventManagerHandle};
use crate::signals::{
    FrameReady, PassOn, RenderTick, Shutdown, Signal, SurfaceReady, FRAME_READY, RENDER_TICK,
    SHUTDOWN, SURFACE_READY,
};
use crate::taker::Taking;
use crate::window::{reinterpret, signed};
use std::collections::VecDeque;
use vstd::prelude::*;

verus! {

/// The height of the bar at the bottom of the window.
pub const BAR_HEIGHT: u32 = 80;

/// What the renderer does once it is woken.
#[derive(Clone, Copy, Debug, PartialEq, Eq, Structural)]
pub enum RenderStep {
    /// Leaves the render loop.
    Stop,
    /// Goes back to waiting.
    Idle,
    /// Renders a frame and sends it to the Wayland thread.
    Render,
}

/// What the renderer does if it was `configured` or not, depending on whether
/// it found a `Shutdown` and a `SurfaceReady`.
pub open spec fn render_step(configured: bool, shutdown: bool, ready: bool) -> RenderStep {
    if shutdown {
        RenderStep::Stop
    } else if configured || ready {
        RenderStep::Render
    } else {
        RenderStep::Idle
    }
}

/// How many events of each type the renderer takes when it is woken.
pub struct Wake {
    pub shutdowns: nat,
    pub readies: nat,
    pub ticks: nat,
}

/// What the renderer takes out of a queue when it is woken: the `Shutdown`
/// events if there are any, and otherwise all `SurfaceReady` and `RenderTick`
/// events.
pub open spec fn wake_from<Fd: 'static>(queued: Seq<Signal<Fd>>) -> Wake {
    if of_kind(queued, SHUTDOWN).len() > 0 {
        Wake { shutdowns: of_kind(queued, SHUTDOWN).len(), readies: 0, ticks: 0 }
    } else {
        Wake {
            shutdowns: 0,
            readies: of_kind(queued, SURFACE_READY).len(),
            ticks: of_kind(queued, RENDER_TICK).len(),
        }
    }
}

/// What the renderer leaves in a queue when it is woken.
pub open spec fn left_by_wake<Fd: 'static>(queued: Seq<Signal<Fd>>) -> Seq<Signal<Fd>> {
    let others = of_other_kinds(queued, SHUTDOWN);
    if of_kind(queued, SHUTDOWN).len() > 0 {
        others
    } else {
        of_other_kinds(of_other_kinds(others, SURFACE_READY), RENDER_TICK)
    }
}

/// Whether a renderer that was `configured` or not, woken with the given queue,
/// takes the given step, knows `now` whether it is configured, and leaves in the
/// queue what it does not take.
pub open spec fn woken_with<Fd: 'static>(
    configured: bool,
    queued: Seq<Signal<Fd>>,
    step: RenderStep,
    now: bool,
    left: Seq<Signal<Fd>>,
) -> bool {
    let taken = wake_from(queued);
    &&& step == render_step(configured, taken.shutdowns > 0, taken.readies > 0)
    &&& now == (configured || taken.shutdowns == 0 && taken.readies > 0)
    &&& left == left_by_wake(queued)
}

/// Takes what a renderer takes when it is woken. Returns what the renderer does,
/// and whether it is configured now.
///
/// A `Shutdown` goes before everything else, and leaves everything else in the
/// queue. Otherwise all `SurfaceReady` and `RenderTick` events are taken.
pub fn wake<Fd: 'static>(configured: bool, queue: &mut VecDeque<Signal<Fd>>) -> (r: (
    RenderStep,
    bool,
))
    ensures
        woken_with(configured, old(queue)@, r.0, r.1, final(queue)@),
{
    let ghost queued = queue@;
    let shutdowns = take_kind(queue, SHUTDOWN);
    if shutdowns.len() > 0 {
        return (RenderStep::Stop, configured);
    }
    proof {
        law_kinds_are_independent(queued, SHUTDOWN, SURFACE_READY);
    }
    let readies = take_kind(queue, SURFACE_READY);
    let _ = take_kind(queue, RENDER_TICK);
    if configured || readies.len() > 0 {
        (RenderStep::Render, true)
    } else {
        (RenderStep::Idle, false)
    }
}

/// A rendered frame as the graphics card hands it over.
#[derive(Debug)]
pub struct RenderedFrame<Fd> {
    pub fd: Fd,
    pub stride: u32,
    pub offset: u32,
    pub format: u32,
    pub modifier: u64,
}

/// The events that the renderer is sent, the size of what it renders, and
/// whether the surface to render for is configured.
#[verifier::reject_recursive_types(Fd)]
pub struct RendererEventManager<Fd: 'static> {
    em: EventManager<Signal<Fd>, PassOn>,
    width: u32,
    height: u32,
    configured: bool,
}

impl<Fd: 'static> RendererEventManager<Fd> {
    /// The handlers of each registered kind of event.
    pub closed spec fn registry(&self) -> Map<u64, Seq<PassOn>> {
        self.em.registry()
    }

    /// The inbox.
    pub closed spec fn inbox(&self) -> PendingQueue<Signal<Fd>> {
        self.em.inbox()
    }

    /// What this manager has done to the queue of its inbox, in order.
    pub closed spec fn log(&self) -> Seq<Taking<Signal<Fd>>> {
        self.em.log()
    }

    /// The width of a frame.
    pub closed spec fn width(&self) -> u32 {
        self.width
    }

    /// The height of a frame.
    pub closed spec fn height(&self) -> u32 {
        self.height
    }

    /// Whether the surface is known to be configured.
    pub closed spec fn configured(&self) -> bool {
        self.configured
    }

    /// A manager for frames of the given size, to which `SurfaceReady`,
    /// `RenderTick` and `Shutdown` can be sent. Its inbox starts out empty.
    pub fn new(width: u32, height: u32) -> (manager: Self)
        ensures
            manager.registry() == map![
                SURFACE_READY => Seq::<PassOn>::empty(),
                RENDER_TICK => Seq::<PassOn>::empty(),
                SHUTDOWN => Seq::<PassOn>::empty(),
            ],
            manager.inbox().started_with() == Seq::<Signal<Fd>>::empty(),
            manager.log() == Seq::<Taking<Signal<Fd>>>::empty(),
            manager.width() == width,
            manager.height() == height,
            !manager.configured(),
    {
        let mut em: EventManager<Signal<Fd>, PassOn> = EventManager::new();
        em.register_event::<SurfaceReady>();
        em.register_event::<RenderTick>();
        em.register_event::<Shutdown>();
        RendererEventManager { em, width, height, configured: false }
    }

    /// The width and the height of a frame.
    pub fn size(&self) -> (size: (u32, u32))
        ensures
            size == (self.width(), self.height()),
    {
        (self.width, self.height)
    }

    /// A handle that other threads can use to send events to the renderer.
    pub fn handle(&self) -> (handle: EventManagerHandle<Signal<Fd>>)
        ensures
            handle.inbox() == self.inbox(),
    {
        self.em.handle()
    }

    /// Waits until something was sent, takes it as `wake` does, and says what to
    /// do. That is the one change that is made to the queue. Which events are
    /// queued by then is not said, but for that there are some: it depends on the
    /// other threads. Nothing is sent: sending is not among what a function that
    /// opens no invariants may call.
    pub fn next_step(&mut self) -> (step: RenderStep)
        ensures
            final(self).log() == old(self).log().push(final(self).log().last()),
            final(self).log().last().before.len() > 0,
            woken_with(
                old(self).configured(),
                final(self).log().last().before,
                step,
                final(self).configured(),
                final(self).log().last().after,
            ),
            final(self).registry() == old(self).registry(),
            final(self).inbox() == old(self).inbox(),
            final(self).width() == old(self).width(),
            final(self).height() == old(self).height(),
        opens_invariants none
    {
        let configured = self.configured;
        let take = |queue: &mut VecDeque<Signal<Fd>>| -> (r: (RenderStep, bool))
            ensures
                woken_with(configured, old(queue)@, r.0, r.1, final(queue)@),
        {
            wake(configured, queue)
        };
        let (step, now) = self.em.wait_and_change(take);
        self.configured = now;
        step
    }

    /// What the Wayland thread is told of a rendered frame.
    pub fn frame_ready(&self, frame: RenderedFrame<Fd>) -> (event: FrameReady<Fd>)
        ensures
            event.fd == frame.fd,
            event.stride == frame.stride,
            event.offset == frame.offset,
            event.format == frame.format,
            event.modifier == frame.modifier,
            event.width == signed(self.width()),
            event.height == signed(self.height()),
    {
        FrameReady {
            fd: frame.fd,
            stride: frame.stride,
            offset: frame.offset,
            format: frame.format,
            modifier: frame.modifier,
            width: reinterpret(self.width),
            height: reinterpret(self.height),
        }
    }

    /// The top of the bar at the bottom of the window.
    pub fn bar_top(&self) -> (top: u32)
        requires
            self.height() >= BAR_HEIGHT,
        ensures
            top == self.height() - BAR_HEIGHT,
    {
        self.height - BAR_HEIGHT
    }
}

/// Whether the surface is known to be configured after the renderer was woken.
pub open spec fn configured_after(wakes: Seq<Wake>) -> bool
    decreases wakes.len(),
{
    if wakes.len() == 0 {
        false
    } else {
        let wake = wakes.last();
        configured_after(wakes.drop_last()) || wake.shutdowns == 0 && wake.readies > 0
    }
}

/// What the renderer does when it is woken for the last time.
pub open spec fn last_step(wakes: Seq<Wake>) -> RenderStep {
    render_step(
        configured_after(wakes.drop_last()),
        wakes.last().shutdowns > 0,
        wakes.last().readies > 0,
    )
}

/// How many frames the renderer has rendered.
pub open spec fn frames_rendered(wakes: Seq<Wake>) -> nat
    decreases wakes.len(),
{
    if wakes.len() == 0 {
        0
    } else {
        frames_rendered(wakes.drop_last()) + if last_step(wakes) == RenderStep::Render {
            1nat
        } else {
            0
        }
    }
}

/// How many times the renderer was asked for a frame.
pub open spec fn frames_asked_for(wakes: Seq<Wake>) -> nat
    decreases wakes.len(),
{
    if wakes.len() == 0 {
        0
    } else {
        frames_asked_for(wakes.drop_last()) + wakes.last().readies + wakes.last().ticks
    }
}

/// A queued `Shutdown` stops the renderer, whatever else is queued and wherever
/// the `Shutdown` stands, and everything else stays queued.
pub proof fn law_shutdown_goes_first<Fd: 'static>(
    queued: Seq<Signal<Fd>>,
    at: int,
    configured: bool,
    step: RenderStep,
    now: bool,
    left: Seq<Signal<Fd>>,
)
    requires
        woken_with(configured, queued, step, now, left),
        0 <= at < queued.len(),
        queued[at] is Shutdown,
    ensures
        step == RenderStep::Stop,
        now == configured,
        of_kind(left, SHUTDOWN) == Seq::<Signal<Fd>>::empty(),
        of_kind(left, SURFACE_READY) == of_kind(queued, SURFACE_READY),
        of_kind(left, RENDER_TICK) == of_kind(queued, RENDER_TICK),
        of_kind(left, FRAME_READY) == of_kind(queued, FRAME_READY),
{
    queued.lemma_filter_contains(|message: Signal<Fd>| message.spec_kind() == SHUTDOWN, at);
    assert(of_kind(queued, SHUTDOWN).contains(queued[at]));
    law_taken_once(queued, SHUTDOWN);
    law_kinds_are_independent(queued, SHUTDOWN, SURFACE_READY);
    law_kinds_are_independent(queued, SHUTDOWN, RENDER_TICK);
    law_kinds_are_independent(queued, SHUTDOWN, FRAME_READY);
}

/// A renderer that is woken without a `Shutdown` takes every `SurfaceReady` and
/// every `RenderTick`, whether it then renders or not, so that none of them is
/// left to wake it again. Frames stay queued.
pub proof fn law_wake_takes_all<Fd: 'static>(
    queued: Seq<Signal<Fd>>,
    configured: bool,
    step: RenderStep,
    now: bool,
    left: Seq<Signal<Fd>>,
)
    requires
        woken_with(configured, queued, step, now, left),
        forall|i: int| 0 <= i < queued.len() ==> !(#[trigger] queued[i] is Shutdown),
    ensures
        now <==> configured || exists|i: int|
            0 <= i < queued.len() && #[trigger] queued[i] is SurfaceReady,
        step == if now {
            RenderStep::Render
        } else {
            RenderStep::Idle
        },
        of_kind(left, SHUTDOWN) == Seq::<Signal<Fd>>::empty(),
        of_kind(left, SURFACE_READY) == Seq::<Signal<Fd>>::empty(),
        of_kind(left, RENDER_TICK) == Seq::<Signal<Fd>>::empty(),
        of_kind(left, FRAME_READY) == of_kind(queued, FRAME_READY),
{
    lemma_of_kind_found(queued, SHUTDOWN);
    lemma_of_kind_found(queued, SURFACE_READY);
    assert forall|i: int| 0 <= i < queued.len() && (#[trigger] queued[i]).spec_kind()
        == SURFACE_READY implies queued[i] is SurfaceReady by {}
    assert forall|i: int| 0 <= i < queued.len() && (#[trigger] queued[i]).spec_kind()
        == SHUTDOWN implies queued[i] is Shutdown by {}
    let one = of_other_kinds(queued, SHUTDOWN);
    let two = of_other_kinds(one, SURFACE_READY);
    law_taken_once(queued, SHUTDOWN);
    law_taken_once(one, SURFACE_READY);
    law_taken_once(two, RENDER_TICK);
    law_kinds_are_independent(one, SURFACE_READY, SHUTDOWN);
    law_kinds_are_independent(two, RENDER_TICK, SHUTDOWN);
    law_kinds_are_independent(two, RENDER_TICK, SURFACE_READY);
    law_kinds_are_independent(queued, SHUTDOWN, FRAME_READY);
    law_kinds_are_independent(one, SURFACE_READY, FRAME_READY);
    law_kinds_are_independent(two, RENDER_TICK, FRAME_READY);
}

/// There are messages of a kind where one of the messages is of that kind.
pub proof fn lemma_of_kind_found<Fd: 'static>(queued: Seq<Signal<Fd>>, kind: u64)
    ensures
        of_kind(queued, kind).len() > 0 <==> exists|i: int|
            0 <= i < queued.len() && (#[trigger] queued[i]).spec_kind() == kind,
    decreases queued.len(),
{
    reveal(Seq::filter);
    if queued.len() > 0 {
        let shorter = queued.drop_last();
        lemma_of_kind_found(shorter, kind);
        if exists|i: int| 0 <= i < shorter.len() && (#[trigger] shorter[i]).spec_kind() == kind {
            let i = choose|i: int|
                0 <= i < shorter.len() && (#[trigger] shorter[i]).spec_kind() == kind;
            assert(queued[i].spec_kind() == kind);
        }
        if exists|i: int| 0 <= i < queued.len() && (#[trigger] queued[i]).spec_kind() == kind {
            let i = choose|i: int|
                0 <= i < queued.len() && (#[trigger] queued[i]).spec_kind() == kind;
            if i < shorter.len() {
                assert(shorter[i].spec_kind() == kind);
            }
        }
        assert(queued[queued.len() - 1] == queued.last());
    }
}

/// A renderer that is woken takes the next step of its run, and knows then what
/// the run so far tells of the surface.
pub proof fn law_wake_is_a_step<Fd: 'static>(
    wakes: Seq<Wake>,
    queued: Seq<Signal<Fd>>,
    step: RenderStep,
    now: bool,
    left: Seq<Signal<Fd>>,
)
    requires
        woken_with(configured_after(wakes), queued, step, now, left),
    ensures
        step == last_step(wakes.push(wake_from(queued))),
        now == configured_after(wakes.push(wake_from(queued))),
{
    assert(wakes.push(wake_from(queued)).drop_last() =~= wakes);
}

/// A renderer that is woken by a queue that holds something, and holds nothing
/// but what is meant for the renderer, takes something.
pub proof fn law_wake_takes_something<Fd: 'static>(queued: Seq<Signal<Fd>>)
    requires
        queued.len() > 0,
        forall|i: int| 0 <= i < queued.len() ==> !(#[trigger] queued[i] is FrameReady),
    ensures
        wake_from(queued).shutdowns + wake_from(queued).readies + wake_from(queued).ticks > 0,
{
    lemma_of_kind_found(queued, SHUTDOWN);
    lemma_of_kind_found(queued, SURFACE_READY);
    lemma_of_kind_found(queued, RENDER_TICK);
    assert(!(queued[0] is FrameReady));
    assert(queued[0].spec_kind() == SHUTDOWN || queued[0].spec_kind() == SURFACE_READY
        || queued[0].spec_kind() == RENDER_TICK);
}

/// The renderer stops when it takes a `Shutdown`, and for nothing else.
pub proof fn law_stops_on_shutdown(wakes: Seq<Wake>)
    requires
        wakes.len() > 0,
    ensures
        last_step(wakes) == RenderStep::Stop <==> wakes.last().shutdowns > 0,
{
}

/// The renderer renders whenever it is woken without a `Shutdown` once it was
/// told that the surface is ready, and never before.
pub proof fn law_renders_once_ready(wakes: Seq<Wake>)
    requires
        wakes.len() > 0,
    ensures
        last_step(wakes) == RenderStep::Render <==> wakes.last().shutdowns == 0 && exists|i: int|
            0 <= i < wakes.len() && (#[trigger] wakes[i]).shutdowns == 0 && wakes[i].readies > 0,
{
    lemma_configured(wakes);
}

/// The surface is known to be configured once a `SurfaceReady` was taken.
proof fn lemma_configured(wakes: Seq<Wake>)
    ensures
        configured_after(wakes) == exists|i: int|
            0 <= i < wakes.len() && (#[trigger] wakes[i]).shutdowns == 0 && wakes[i].readies > 0,
    decreases wakes.len(),
{
    if wakes.len() > 0 {
        let shorter = wakes.drop_last();
        lemma_configured(shorter);
        if configured_after(shorter) {
            let i = choose|i: int|
                0 <= i < shorter.len() && (#[trigger] shorter[i]).shutdowns == 0
                    && shorter[i].readies > 0;
            assert(wakes[i] == shorter[i]);
        }
        if exists|i: int|
            0 <= i < wakes.len() && (#[trigger] wakes[i]).shutdowns == 0 && wakes[i].readies > 0 {
            let i = choose|i: int|
                0 <= i < wakes.len() && (#[trigger] wakes[i]).shutdowns == 0 && wakes[i].readies
                    > 0;
            if i < shorter.len() {
                assert(shorter[i] == wakes[i]);
            }
        }
    }
}

/// A renderer that is woken only when there is something for it to take renders
/// at most as many frames as it was asked for.
pub proof fn law_renders_what_is_asked_for(wakes: Seq<Wake>)
    requires
        forall|i: int|
            0 <= i < wakes.len() ==> (#[trigger] wakes[i]).shutdowns + wakes[i].readies
                + wakes[i].ticks > 0,
    ensures
        frames_rendered(wakes) <= frames_asked_for(wakes),
    decreases wakes.len(),
{
    if wakes.len() > 0 {
        let shorter = wakes.drop_last();
        assert forall|i: int| 0 <= i < shorter.len() implies (#[trigger] shorter[i]).shutdowns
            + shorter[i].readies + shorter[i].ticks > 0 by {
            assert(shorter[i] == wakes[i]);
        }
        law_renders_what_is_asked_for(shorter);
        assert(wakes[wakes.len() - 1] == wakes.last());
    }
}

} // verus!
