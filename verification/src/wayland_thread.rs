//! The Wayland side: what is done with the frames that the renderer sends and
//! with what the compositor asks for.

use crate::inbox::{messages, of_kind, of_other_kinds, PendingQueue};
use crate::manager::{EventManager, EventManagerHandle};
use crate::renderer_thread::{
    frames_asked_for, frames_rendered, law_renders_what_is_asked_for, Wake,
};
use crate::signals::{FrameReady, PassOn, Signal, FRAME_READY};
use crate::taker::Taking;
use crate::window::{buffer_request, reinterpret, signed, spec_buffer_request, BufferRequest};
use vstd::prelude::*;

verus! {

/// One thing to do, on the connection to the compositor or for the renderer.
#[derive(Debug)]
pub enum Action<Fd> {
    /// Makes the buffer of the window.
    CreateBuffer(BufferRequest<Fd>),
    /// Attaches the buffer to the surface, at its corner.
    Attach,
    /// Marks the surface as changed, from its corner on.
    Damage { width: i32, height: i32 },
    /// Commits the surface.
    Commit,
    /// Writes out what is buffered on the connection.
    Flush,
    /// Answers a ping.
    Pong { serial: u32 },
    /// Acknowledges a configuration of the surface.
    AckConfigure { serial: u32 },
    /// Sends `RenderTick` to the renderer.
    SendTick,
    /// Sends `SurfaceReady` to the renderer.
    SendReady,
    /// Sends `Shutdown` to the renderer, and leaves the event loop.
    SendShutdown,
    /// Destroys the buffer of the window.
    DestroyBuffer,
}

/// How far the window is: whether its surface was configured, and whether it
/// has a buffer.
#[derive(Clone, Copy, Debug, PartialEq, Eq, Structural)]
pub struct WindowState {
    pub configured: bool,
    pub has_buffer: bool,
}

/// What the window starts from.
pub open spec fn initial() -> WindowState {
    WindowState { configured: false, has_buffer: false }
}

/// What comes of a frame for a window of the given size. Before the surface is
/// configured a frame is dropped. After that it is shown, from a buffer that is
/// made for the first frame, and the renderer is asked for the next frame.
pub open spec fn frame_step<Fd>(
    state: WindowState,
    width: u32,
    height: u32,
    frame: FrameReady<Fd>,
) -> (WindowState, Seq<Action<Fd>>) {
    if !state.configured {
        (state, seq![])
    } else {
        let create = if state.has_buffer {
            seq![]
        } else {
            seq![Action::CreateBuffer(spec_buffer_request(frame))]
        };
        (
            WindowState { has_buffer: true, ..state },
            create + seq![
                Action::Attach,
                Action::Damage { width: signed(width) as i32, height: signed(height) as i32 },
                Action::Commit,
                Action::Flush,
                Action::SendTick,
            ],
        )
    }
}

/// What comes of what the compositor has asked for: an answer to a ping, an
/// acknowledgement of a configuration, and the end of the window. The first
/// configuration lets the renderer begin.
pub open spec fn poll_step<Fd>(
    state: WindowState,
    ping: Option<u32>,
    configure: Option<u32>,
    closed: bool,
) -> (WindowState, Seq<Action<Fd>>) {
    let answer = match ping {
        Some(serial) => seq![Action::Pong { serial }, Action::Flush],
        None => seq![],
    };
    let acknowledge = match configure {
        Some(serial) => seq![Action::AckConfigure { serial }, Action::Flush],
        None => seq![],
    };
    let ready = if configure is Some && !state.configured {
        seq![Action::SendReady]
    } else {
        seq![]
    };
    let stop = if closed {
        seq![Action::SendShutdown]
    } else {
        seq![]
    };
    (
        WindowState { configured: state.configured || configure is Some, ..state },
        answer + acknowledge + ready + seq![Action::Flush] + stop,
    )
}

/// What is left to do once the window is closed.
pub open spec fn finish_step<Fd>(state: WindowState) -> Seq<Action<Fd>> {
    if state.has_buffer {
        seq![Action::DestroyBuffer, Action::Flush]
    } else {
        seq![]
    }
}

/// The frames that the Wayland thread is sent, the size of the window, and how
/// far the window is.
#[verifier::reject_recursive_types(Fd)]
pub struct WaylandEventManager<Fd: 'static> {
    em: EventManager<Signal<Fd>, PassOn>,
    width: u32,
    height: u32,
    state: WindowState,
}

impl<Fd: 'static> WaylandEventManager<Fd> {
    /// The handlers of each registered kind of event.
    pub closed spec fn registry(&self) -> Map<u64, Seq<PassOn>> {
        self.em.registry()
    }

    /// The inbox.
    pub closed spec fn inbox(&self) -> PendingQueue<Signal<Fd>> {
        self.em.inbox()
    }

    /// What this manager has done to the queue of its inbox, in order.
    pub closed spec fn log(&self) -> Seq<Taking<Signal<Fd>>> {
        self.em.log()
    }

    /// The width of the window.
    pub closed spec fn width(&self) -> u32 {
        self.width
    }

    /// The height of the window.
    pub closed spec fn height(&self) -> u32 {
        self.height
    }

    /// How far the window is.
    pub closed spec fn state(&self) -> WindowState {
        self.state
    }

    /// Whether `self` is what `before` was, but for how far the window is.
    pub open spec fn is_still(&self, before: Self) -> bool {
        &&& self.registry() == before.registry()
        &&& self.inbox() == before.inbox()
        &&& self.log() == before.log()
        &&& self.width() == before.width()
        &&& self.height() == before.height()
    }

    /// A manager for a window of the given size, to which `FrameReady` can be
    /// sent. Its inbox starts out empty.
    pub fn new(width: u32, height: u32) -> (manager: Self)
        ensures
            manager.registry() == map![FRAME_READY => Seq::<PassOn>::empty()],
            manager.inbox().started_with() == Seq::<Signal<Fd>>::empty(),
            manager.log() == Seq::<Taking<Signal<Fd>>>::empty(),
            manager.width() == width,
            manager.height() == height,
            manager.state() == initial(),
    {
        let mut em: EventManager<Signal<Fd>, PassOn> = EventManager::new();
        em.register_event::<FrameReady<Fd>>();
        WaylandEventManager {
            em,
            width,
            height,
            state: WindowState { configured: false, has_buffer: false },
        }
    }

    /// The width and the height of the window.
    pub fn size(&self) -> (size: (u32, u32))
        ensures
            size == (self.width(), self.height()),
    {
        (self.width, self.height)
    }

    /// A handle that other threads can use to send frames to this manager.
    pub fn handle(&self) -> (handle: EventManagerHandle<Signal<Fd>>)
        ensures
            handle.inbox() == self.inbox(),
    {
        self.em.handle()
    }

    /// Takes the frames that were sent so far, in order: all that are queued when
    /// the lock is taken. What else is queued stays there. Does not wait.
    pub fn take_frames(&mut self) -> (frames: Vec<FrameReady<Fd>>)
        ensures
            final(self).log() == old(self).log().push(final(self).log().last()),
            messages::<Signal<Fd>, FrameReady<Fd>>(frames@) == of_kind(
                final(self).log().last().before,
                FRAME_READY,
            ),
            final(self).log().last().after == of_other_kinds(
                final(self).log().last().before,
                FRAME_READY,
            ),
            final(self).registry() == old(self).registry(),
            final(self).inbox() == old(self).inbox(),
            final(self).width() == old(self).width(),
            final(self).height() == old(self).height(),
            final(self).state() == old(self).state(),
    {
        self.em.drain_typed()
    }

    /// What to do with a frame, in order.
    pub fn on_frame(&mut self, frame: FrameReady<Fd>) -> (actions: Vec<Action<Fd>>)
        ensures
            (final(self).state(), actions@) == frame_step(
                old(self).state(),
                old(self).width(),
                old(self).height(),
                frame,
            ),
            final(self).is_still(*old(self)),
    {
        let ghost expected = frame_step(self.state, self.width, self.height, frame);
        let mut actions: Vec<Action<Fd>> = Vec::new();
        if !self.state.configured {
            return actions;
        }
        if !self.state.has_buffer {
            actions.push(Action::CreateBuffer(buffer_request(frame)));
            self.state.has_buffer = true;
        }
        actions.push(Action::Attach);
        actions.push(
            Action::Damage { width: reinterpret(self.width), height: reinterpret(self.height) },
        );
        actions.push(Action::Commit);
        actions.push(Action::Flush);
        actions.push(Action::SendTick);
        assert(actions@ =~= expected.1);
        actions
    }

    /// What to do about the serial of a ping, the serial of a configuration and
    /// the closing of the window, as far as they came in.
    pub fn on_poll(&mut self, ping: Option<u32>, configure: Option<u32>, closed: bool) -> (actions:
        Vec<Action<Fd>>)
        ensures
            (final(self).state(), actions@) == poll_step::<Fd>(
                old(self).state(),
                ping,
                configure,
                closed,
            ),
            final(self).is_still(*old(self)),
    {
        let ghost expected = poll_step::<Fd>(self.state, ping, configure, closed);
        let mut actions: Vec<Action<Fd>> = Vec::new();
        if let Some(serial) = ping {
            actions.push(Action::Pong { serial });
            actions.push(Action::Flush);
        }
        if let Some(serial) = configure {
            actions.push(Action::AckConfigure { serial });
            actions.push(Action::Flush);
            if !self.state.configured {
                self.state.configured = true;
                actions.push(Action::SendReady);
            }
        }
        actions.push(Action::Flush);
        if closed {
            actions.push(Action::SendShutdown);
        }
        assert(actions@ =~= expected.1);
        actions
    }

    /// What is left to do once the event loop has ended.
    pub fn finish(self) -> (actions: Vec<Action<Fd>>)
        ensures
            actions@ == finish_step::<Fd>(self.state()),
    {
        let mut actions: Vec<Action<Fd>> = Vec::new();
        if self.state.has_buffer {
            actions.push(Action::DestroyBuffer);
            actions.push(Action::Flush);
        }
        assert(actions@ =~= finish_step::<Fd>(self.state()));
        actions
    }
}

/// One thing that happens to a window.
pub enum Input<Fd> {
    /// The renderer has sent a frame.
    Frame(FrameReady<Fd>),
    /// The compositor was asked for news.
    Poll { ping: Option<u32>, configure: Option<u32>, closed: bool },
}

/// What comes of one thing that happens to a window of the given size.
pub open spec fn step<Fd>(state: WindowState, width: u32, height: u32, input: Input<Fd>) -> (
    WindowState,
    Seq<Action<Fd>>,
) {
    match input {
        Input::Frame(frame) => frame_step(state, width, height, frame),
        Input::Poll { ping, configure, closed } => poll_step(state, ping, configure, closed),
    }
}

/// How far a window of the given size is after all that has happened to it, and
/// all that was done, in order.
pub open spec fn run<Fd>(width: u32, height: u32, inputs: Seq<Input<Fd>>) -> (
    WindowState,
    Seq<Action<Fd>>,
)
    decreases inputs.len(),
{
    if inputs.len() == 0 {
        (initial(), seq![])
    } else {
        let before = run(width, height, inputs.drop_last());
        let now = step(before.0, width, height, inputs.last());
        (now.0, before.1 + now.1)
    }
}

/// How many of the actions are of some sort.
pub open spec fn count<Fd>(actions: Seq<Action<Fd>>, what: spec_fn(Action<Fd>) -> bool) -> nat {
    actions.filter(what).len()
}

/// How many of the actions make a buffer.
pub open spec fn buffers_made<Fd>(actions: Seq<Action<Fd>>) -> nat {
    count(actions, |action: Action<Fd>| action is CreateBuffer)
}

/// How many of the actions tell the renderer that it may begin.
pub open spec fn times_ready<Fd>(actions: Seq<Action<Fd>>) -> nat {
    count(actions, |action: Action<Fd>| action is SendReady)
}

/// How many of the actions ask the renderer for the next frame.
pub open spec fn ticks_sent<Fd>(actions: Seq<Action<Fd>>) -> nat {
    count(actions, |action: Action<Fd>| action is SendTick)
}

/// How many of the actions show a frame.
pub open spec fn frames_shown<Fd>(actions: Seq<Action<Fd>>) -> nat {
    count(actions, |action: Action<Fd>| action is Commit)
}

/// How much an action adds to a count.
spec fn one<Fd>(what: spec_fn(Action<Fd>) -> bool, action: Action<Fd>) -> nat {
    if what(action) {
        1
    } else {
        0
    }
}

/// How many of the actions that come of one thing are of some sort.
spec fn step_count<Fd>(
    state: WindowState,
    width: u32,
    height: u32,
    input: Input<Fd>,
    what: spec_fn(Action<Fd>) -> bool,
) -> nat {
    match input {
        Input::Frame(frame) => if !state.configured {
            0
        } else {
            let damage = Action::Damage {
                width: signed(width) as i32,
                height: signed(height) as i32,
            };
            let create = if state.has_buffer {
                0
            } else {
                one(what, Action::CreateBuffer(spec_buffer_request(frame)))
            };
            create + one(what, Action::Attach) + one(what, damage) + one(what, Action::Commit)
                + one(what, Action::Flush) + one(what, Action::SendTick)
        },
        Input::Poll { ping, configure, closed } => {
            let answer = match ping {
                Some(serial) => one(what, Action::Pong { serial }) + one(what, Action::Flush),
                None => 0,
            };
            let acknowledge = match configure {
                Some(serial) => one(what, Action::AckConfigure { serial }) + one(
                    what,
                    Action::Flush,
                ),
                None => 0,
            };
            let ready = if configure is Some && !state.configured {
                one(what, Action::SendReady)
            } else {
                0
            };
            let stop = if closed {
                one(what, Action::SendShutdown)
            } else {
                0
            };
            answer + acknowledge + ready + one(what, Action::Flush) + stop
        },
    }
}

/// Counting goes action by action.
proof fn lemma_count_push<Fd>(
    actions: Seq<Action<Fd>>,
    action: Action<Fd>,
    what: spec_fn(Action<Fd>) -> bool,
)
    ensures
        count(actions.push(action), what) == count(actions, what) + one(what, action),
{
    actions.lemma_filter_push(action, what);
}

/// Counting few actions.
proof fn lemma_count_few<Fd>(what: spec_fn(Action<Fd>) -> bool)
    ensures
        count(Seq::empty(), what) == 0,
        forall|a: Action<Fd>| #[trigger] count(seq![a], what) == one(what, a),
{
    reveal(Seq::filter);
    assert forall|a: Action<Fd>| #[trigger] count(seq![a], what) == one(what, a) by {
        lemma_count_push(Seq::empty(), a, what);
    }
}

/// Counting two actions.
proof fn lemma_count_two<Fd>(
    a: Action<Fd>,
    b: Action<Fd>,
    what: spec_fn(Action<Fd>) -> bool,
)
    ensures
        count(seq![a, b], what) == one(what, a) + one(what, b),
{
    lemma_count_few(what);
    assert(seq![a, b] =~= seq![a].push(b));
    lemma_count_push(seq![a], b, what);
}

/// Counting goes part by part.
proof fn lemma_count_add<Fd>(
    first: Seq<Action<Fd>>,
    second: Seq<Action<Fd>>,
    what: spec_fn(Action<Fd>) -> bool,
)
    ensures
        count(first + second, what) == count(first, what) + count(second, what),
{
    Seq::filter_distributes_over_add(first, second, what);
}

/// The counts of a step.
proof fn lemma_step_count<Fd>(
    state: WindowState,
    width: u32,
    height: u32,
    input: Input<Fd>,
    what: spec_fn(Action<Fd>) -> bool,
)
    ensures
        count(step(state, width, height, input).1, what) == step_count(
            state,
            width,
            height,
            input,
            what,
        ),
{
    lemma_count_few(what);
    match input {
        Input::Frame(frame) => {
            let damage = Action::<Fd>::Damage {
                width: signed(width) as i32,
                height: signed(height) as i32,
            };
            let create = if state.has_buffer {
                seq![]
            } else {
                seq![Action::CreateBuffer(spec_buffer_request(frame))]
            };
            let show = seq![
                Action::Attach,
                damage,
                Action::Commit,
                Action::Flush,
                Action::SendTick,
            ];
            let start = seq![Action::Attach, damage];
            lemma_count_two(Action::Attach, damage, what);
            assert(show =~= start.push(Action::Commit).push(Action::Flush).push(Action::SendTick));
            lemma_count_push(start, Action::Commit, what);
            lemma_count_push(start.push(Action::Commit), Action::Flush, what);
            lemma_count_push(
                start.push(Action::Commit).push(Action::Flush),
                Action::SendTick,
                what,
            );
            lemma_count_add(create, show, what);
        },
        Input::Poll { ping, configure, closed } => {
            let answer = match ping {
                Some(serial) => seq![Action::Pong { serial }, Action::Flush],
                None => seq![],
            };
            let acknowledge = match configure {
                Some(serial) => seq![Action::AckConfigure { serial }, Action::Flush],
                None => seq![],
            };
            let ready = if configure is Some && !state.configured {
                seq![Action::SendReady]
            } else {
                seq![]
            };
            let stop = if closed {
                seq![Action::SendShutdown]
            } else {
                seq![]
            };
            if let Some(serial) = ping {
                lemma_count_two(Action::Pong { serial }, Action::Flush, what);
            }
            if let Some(serial) = configure {
                lemma_count_two(Action::AckConfigure { serial }, Action::Flush, what);
            }
            lemma_count_add(answer, acknowledge, what);
            lemma_count_add(answer + acknowledge, ready, what);
            lemma_count_add(answer + acknowledge + ready, seq![Action::Flush], what);
            lemma_count_add(
                answer + acknowledge + ready + seq![Action::Flush],
                stop,
                what,
            );
        },
    }
}

/// What a run has done so far is what has come of the things before it, and of
/// the last thing.
proof fn lemma_run_counts<Fd>(width: u32, height: u32, inputs: Seq<Input<Fd>>)
    ensures
        ({
            let (state, actions) = run(width, height, inputs);
            &&& buffers_made(actions) == if state.has_buffer {
                1nat
            } else {
                0
            }
            &&& times_ready(actions) == if state.configured {
                1nat
            } else {
                0
            }
            &&& ticks_sent(actions) == frames_shown(actions)
            &&& state.has_buffer ==> state.configured
        }),
    decreases inputs.len(),
{
    let making = |action: Action<Fd>| action is CreateBuffer;
    let beginning = |action: Action<Fd>| action is SendReady;
    let asking = |action: Action<Fd>| action is SendTick;
    let showing = |action: Action<Fd>| action is Commit;
    if inputs.len() == 0 {
        lemma_count_few(making);
        lemma_count_few(beginning);
        lemma_count_few(asking);
        lemma_count_few(showing);
    } else {
        lemma_run_counts(width, height, inputs.drop_last());
        let (before, done) = run(width, height, inputs.drop_last());
        let input = inputs.last();
        let added = step(before, width, height, input).1;
        lemma_count_add(done, added, making);
        lemma_count_add(done, added, beginning);
        lemma_count_add(done, added, asking);
        lemma_count_add(done, added, showing);
        lemma_step_count(before, width, height, input, making);
        lemma_step_count(before, width, height, input, beginning);
        lemma_step_count(before, width, height, input, asking);
        lemma_step_count(before, width, height, input, showing);
    }
}

/// Whatever happens, a window makes at most one buffer. If it has made one, that
/// one is destroyed in the end, and if it has not, none is.
pub proof fn law_one_buffer<Fd>(width: u32, height: u32, inputs: Seq<Input<Fd>>)
    ensures
        buffers_made(run(width, height, inputs).1) <= 1,
        buffers_made(run(width, height, inputs).1) == count(
            finish_step::<Fd>(run(width, height, inputs).0),
            |action: Action<Fd>| action is DestroyBuffer,
        ),
{
    lemma_run_counts(width, height, inputs);
    let destroying = |action: Action<Fd>| action is DestroyBuffer;
    lemma_count_few(destroying);
    lemma_count_two(Action::DestroyBuffer, Action::Flush, destroying);
}

/// The renderer is told to begin once, with the first configuration, and never
/// before it.
pub proof fn law_ready_once<Fd>(width: u32, height: u32, inputs: Seq<Input<Fd>>)
    ensures
        times_ready(run(width, height, inputs).1) == if exists|i: int|
            0 <= i < inputs.len() && (#[trigger] inputs[i] matches Input::Poll { configure, .. }
                && configure is Some) {
            1nat
        } else {
            0
        },
{
    lemma_run_counts(width, height, inputs);
    lemma_configured(width, height, inputs);
}

/// A window is configured once a configuration came in.
proof fn lemma_configured<Fd>(width: u32, height: u32, inputs: Seq<Input<Fd>>)
    ensures
        run(width, height, inputs).0.configured == exists|i: int|
            0 <= i < inputs.len() && (#[trigger] inputs[i] matches Input::Poll { configure, .. }
                && configure is Some),
    decreases inputs.len(),
{
    if inputs.len() > 0 {
        let shorter = inputs.drop_last();
        lemma_configured(width, height, shorter);
        if run(width, height, shorter).0.configured {
            let i = choose|i: int|
                0 <= i < shorter.len() && (#[trigger] shorter[i] matches Input::Poll {
                    configure,
                    ..
                } && configure is Some);
            assert(inputs[i] == shorter[i]);
        }
        if exists|i: int|
            0 <= i < inputs.len() && (#[trigger] inputs[i] matches Input::Poll { configure, .. }
                && configure is Some) {
            let i = choose|i: int|
                0 <= i < inputs.len() && (#[trigger] inputs[i] matches Input::Poll {
                    configure,
                    ..
                } && configure is Some);
            if i < shorter.len() {
                assert(shorter[i] == inputs[i]);
            }
        }
    }
}

/// The renderer is asked for a frame for every frame that is shown, and for no
/// other.
pub proof fn law_tick_per_frame<Fd>(width: u32, height: u32, inputs: Seq<Input<Fd>>)
    ensures
        ticks_sent(run(width, height, inputs).1) == frames_shown(run(width, height, inputs).1),
{
    lemma_run_counts(width, height, inputs);
}

/// Nothing is shown before the renderer was told to begin, nor before there is
/// a buffer to show.
pub proof fn law_nothing_shown_too_early<Fd>(
    width: u32,
    height: u32,
    inputs: Seq<Input<Fd>>,
    at: int,
)
    requires
        0 <= at < run(width, height, inputs).1.len(),
        run(width, height, inputs).1[at] is Attach,
    ensures
        exists|i: int| 0 <= i < at && #[trigger] run(width, height, inputs).1[i] is SendReady,
        exists|i: int| 0 <= i < at && #[trigger] run(width, height, inputs).1[i] is CreateBuffer,
    decreases inputs.len(),
{
    if inputs.len() > 0 {
        let shorter = inputs.drop_last();
        let (before, done) = run(width, height, shorter);
        let actions = run(width, height, inputs).1;
        if at < done.len() {
            law_nothing_shown_too_early(width, height, shorter, at);
            let ready = choose|i: int| 0 <= i < at && #[trigger] done[i] is SendReady;
            let made = choose|i: int| 0 <= i < at && #[trigger] done[i] is CreateBuffer;
            assert(actions[ready] is SendReady);
            assert(actions[made] is CreateBuffer);
        } else {
            lemma_run_counts(width, height, shorter);
            assert(actions[at] == step(before, width, height, inputs.last()).1[at - done.len()]);
            assert(inputs.last() is Frame);
            assert(before.configured);
            let beginning = |action: Action<Fd>| action is SendReady;
            let ready = lemma_counted(done, beginning);
            assert(actions[ready] is SendReady);
            if before.has_buffer {
                let making = |action: Action<Fd>| action is CreateBuffer;
                let made = lemma_counted(done, making);
                assert(actions[made] is CreateBuffer);
            } else {
                assert(actions[done.len() as int] is CreateBuffer);
            }
        }
    }
}

/// What is counted is there.
proof fn lemma_counted<Fd>(actions: Seq<Action<Fd>>, what: spec_fn(Action<Fd>) -> bool) -> (at: int)
    requires
        count(actions, what) > 0,
    ensures
        0 <= at < actions.len(),
        what(actions[at]),
{
    let found = actions.filter(what)[0];
    actions.lemma_filter_pred(what, 0);
    assert(actions.filter(what).contains(found));
    actions.lemma_filter_contains_rev(what, found);
    choose|at: int| 0 <= at < actions.len() && actions[at] == found
}

/// Whether the window is found closed.
pub open spec fn closes<Fd>(input: Input<Fd>) -> bool {
    input matches Input::Poll { closed, .. } && closed
}

/// The renderer is told to stop once, and with the last thing that is done before
/// the event loop ends, which is when the window is found closed for the first
/// time.
pub proof fn law_shutdown_once_and_last<Fd>(
    width: u32,
    height: u32,
    inputs: Seq<Input<Fd>>,
    at: int,
)
    requires
        inputs.len() > 0,
        closes(inputs.last()),
        forall|i: int| 0 <= i < inputs.len() - 1 ==> !#[trigger] closes(inputs[i]),
        0 <= at < run(width, height, inputs).1.len(),
    ensures
        run(width, height, inputs).1.len() > 0,
        run(width, height, inputs).1[at] is SendShutdown <==> at == run(
            width,
            height,
            inputs,
        ).1.len() - 1,
{
    let shorter = inputs.drop_last();
    let (before, done) = run(width, height, shorter);
    let actions = run(width, height, inputs).1;
    let added = step(before, width, height, inputs.last()).1;
    assert(added[added.len() - 1] is SendShutdown);
    assert(actions[actions.len() - 1] == added[added.len() - 1]);
    if at < done.len() {
        assert forall|i: int| 0 <= i < shorter.len() implies !#[trigger] closes(shorter[i]) by {
            assert(shorter[i] == inputs[i]);
        }
        lemma_no_shutdown(width, height, shorter, at);
    } else {
        assert(actions[at] == added[at - done.len()]);
    }
}

/// As long as the window is not found closed, the renderer is not told to stop.
proof fn lemma_no_shutdown<Fd>(width: u32, height: u32, inputs: Seq<Input<Fd>>, at: int)
    requires
        forall|i: int| 0 <= i < inputs.len() ==> !#[trigger] closes(inputs[i]),
        0 <= at < run(width, height, inputs).1.len(),
    ensures
        !(run(width, height, inputs).1[at] is SendShutdown),
    decreases inputs.len(),
{
    if inputs.len() > 0 {
        let shorter = inputs.drop_last();
        let (before, done) = run(width, height, shorter);
        if at < done.len() {
            assert forall|i: int| 0 <= i < shorter.len() implies !#[trigger] closes(shorter[i]) by {
                assert(shorter[i] == inputs[i]);
            }
            lemma_no_shutdown(width, height, shorter, at);
        } else {
            assert(!closes(inputs[inputs.len() - 1]));
            assert(run(width, height, inputs).1[at] == step(
                before,
                width,
                height,
                inputs.last(),
            ).1[at - done.len()]);
        }
    }
}

/// At most one frame is on its way at any time: a renderer that takes no more
/// than it was sent, and is woken only when there is something to take, has
/// rendered at most one frame more than the window has shown.
pub proof fn law_one_frame_on_its_way<Fd>(
    width: u32,
    height: u32,
    inputs: Seq<Input<Fd>>,
    wakes: Seq<Wake>,
)
    requires
        frames_asked_for(wakes) <= times_ready(run(width, height, inputs).1) + ticks_sent(
            run(width, height, inputs).1,
        ),
        forall|i: int|
            0 <= i < wakes.len() ==> (#[trigger] wakes[i]).shutdowns + wakes[i].readies
                + wakes[i].ticks > 0,
    ensures
        frames_rendered(wakes) <= frames_shown(run(width, height, inputs).1) + 1,
{
    lemma_run_counts(width, height, inputs);
    law_renders_what_is_asked_for(wakes);
}

} // verus!
