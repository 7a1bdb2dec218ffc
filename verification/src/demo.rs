//! The demo's own event loop, which draws on the thread that talks to the
//! compositor.

use crate::wayland_thread::{initial, WindowState};
use crate::window::{reinterpret, signed};
use vstd::prelude::*;

verus! {

/// One thing to do in a turn of the loop.
#[derive(Clone, Copy, Debug, PartialEq, Eq, Structural)]
pub enum DemoAction {
    /// Answers a ping.
    Pong { serial: u32 },
    /// Acknowledges a configuration of the surface.
    AckConfigure { serial: u32 },
    /// Makes the buffer of the window from the memory that is rendered to.
    CreateBuffer,
    /// Draws a frame.
    Draw,
    /// Attaches the buffer to the surface, at its corner.
    Attach,
    /// Marks the surface as changed, from its corner on.
    Damage { width: i32, height: i32 },
    /// Commits the surface.
    Commit,
    /// Counts the frame.
    CountFrame,
    /// Writes out what is buffered on the connection.
    Flush,
    /// Leaves the loop.
    Leave,
    /// Destroys the buffer of the window.
    DestroyBuffer,
}

/// What comes of one turn of the loop, for a window of the given size: what the
/// compositor asked for is answered, and from the first configuration on every
/// turn shows a frame. The turn in which the window is closed is the last one.
pub open spec fn turn_step(
    state: WindowState,
    width: u32,
    height: u32,
    ping: Option<u32>,
    configure: Option<u32>,
    closed: bool,
) -> (WindowState, Seq<DemoAction>) {
    let configured = state.configured || configure is Some;
    let answer = match ping {
        Some(serial) => seq![DemoAction::Pong { serial }],
        None => seq![],
    };
    let acknowledge = match configure {
        Some(serial) => seq![DemoAction::AckConfigure { serial }],
        None => seq![],
    };
    let create = if configured && !state.has_buffer {
        seq![DemoAction::CreateBuffer]
    } else {
        seq![]
    };
    let show = if configured {
        seq![
            DemoAction::Draw,
            DemoAction::Attach,
            DemoAction::Damage { width: signed(width) as i32, height: signed(height) as i32 },
            DemoAction::Commit,
            DemoAction::CountFrame,
        ]
    } else {
        seq![]
    };
    let end = if closed {
        seq![DemoAction::Leave]
    } else {
        seq![DemoAction::Flush]
    };
    (
        WindowState { configured, has_buffer: state.has_buffer || configured },
        answer + acknowledge + create + show + end,
    )
}

/// What is left to do once the loop was left.
pub open spec fn leave_step(state: WindowState) -> Seq<DemoAction> {
    if state.has_buffer {
        seq![DemoAction::DestroyBuffer, DemoAction::Flush]
    } else {
        seq![]
    }
}

/// The state of the loop, and the size of its window.
#[derive(Debug)]
pub struct DemoLoop {
    width: u32,
    height: u32,
    state: WindowState,
}

impl DemoLoop {
    /// The width of the window.
    pub closed spec fn width(&self) -> u32 {
        self.width
    }

    /// The height of the window.
    pub closed spec fn height(&self) -> u32 {
        self.height
    }

    /// How far the window is.
    pub closed spec fn state(&self) -> WindowState {
        self.state
    }

    /// A loop for a window of the given size.
    pub fn new(width: u32, height: u32) -> (r: Self)
        ensures
            r.width() == width,
            r.height() == height,
            r.state() == initial(),
    {
        DemoLoop { width, height, state: WindowState { configured: false, has_buffer: false } }
    }

    /// What to do in a turn, in order, given the serial of a ping, the serial of
    /// a configuration and the closing of the window, as far as they came in.
    pub fn turn(&mut self, ping: Option<u32>, configure: Option<u32>, closed: bool) -> (actions:
        Vec<DemoAction>)
        ensures
            (final(self).state(), actions@) == turn_step(
                old(self).state(),
                old(self).width(),
                old(self).height(),
                ping,
                configure,
                closed,
            ),
            final(self).width() == old(self).width(),
            final(self).height() == old(self).height(),
    {
        let ghost expected = turn_step(
            self.state,
            self.width,
            self.height,
            ping,
            configure,
            closed,
        );
        let mut actions: Vec<DemoAction> = Vec::new();
        if let Some(serial) = ping {
            actions.push(DemoAction::Pong { serial });
        }
        if let Some(serial) = configure {
            actions.push(DemoAction::AckConfigure { serial });
            self.state.configured = true;
        }
        if self.state.configured {
            if !self.state.has_buffer {
                actions.push(DemoAction::CreateBuffer);
                self.state.has_buffer = true;
            }
            actions.push(DemoAction::Draw);
            actions.push(DemoAction::Attach);
            actions.push(
                DemoAction::Damage {
                    width: reinterpret(self.width),
                    height: reinterpret(self.height),
                },
            );
            actions.push(DemoAction::Commit);
            actions.push(DemoAction::CountFrame);
        }
        if closed {
            actions.push(DemoAction::Leave);
        } else {
            actions.push(DemoAction::Flush);
        }
        assert(actions@ =~= expected.1);
        actions
    }

    /// What is left to do once the loop was left.
    pub fn leave(self) -> (actions: Vec<DemoAction>)
        ensures
            actions@ == leave_step(self.state()),
    {
        let mut actions: Vec<DemoAction> = Vec::new();
        if self.state.has_buffer {
            actions.push(DemoAction::DestroyBuffer);
            actions.push(DemoAction::Flush);
        }
        assert(actions@ =~= leave_step(self.state()));
        actions
    }
}

/// What comes in during a turn of the loop.
pub struct Turn {
    pub ping: Option<u32>,
    pub configure: Option<u32>,
    pub closed: bool,
}

/// How far a window of the given size is after the first `count` turns.
pub open spec fn state_after(width: u32, height: u32, turns: Seq<Turn>, count: int) -> WindowState
    decreases count,
{
    if count <= 0 {
        initial()
    } else {
        let before = state_after(width, height, turns, count - 1);
        let turn = turns[count - 1];
        turn_step(before, width, height, turn.ping, turn.configure, turn.closed).0
    }
}

/// What is done in a turn.
pub open spec fn actions_in(width: u32, height: u32, turns: Seq<Turn>, at: int) -> Seq<DemoAction> {
    let turn = turns[at];
    turn_step(
        state_after(width, height, turns, at),
        width,
        height,
        turn.ping,
        turn.configure,
        turn.closed,
    ).1
}

/// A window is configured, and has a buffer, once a configuration came in.
proof fn lemma_state(width: u32, height: u32, turns: Seq<Turn>, count: int)
    requires
        0 <= count <= turns.len(),
    ensures
        state_after(width, height, turns, count).configured == exists|i: int|
            0 <= i < count && (#[trigger] turns[i]).configure is Some,
        state_after(width, height, turns, count).has_buffer == state_after(
            width,
            height,
            turns,
            count,
        ).configured,
    decreases count,
{
    if count > 0 {
        lemma_state(width, height, turns, count - 1);
        assert(turns[count - 1].configure is Some || turns[count - 1].configure is None);
    }
}

/// What a turn does.
proof fn lemma_actions(state: WindowState, width: u32, height: u32, turn: Turn)
    ensures
        ({
            let (after, actions) = turn_step(
                state,
                width,
                height,
                turn.ping,
                turn.configure,
                turn.closed,
            );
            &&& actions.contains(DemoAction::CreateBuffer) <==> after.configured
                && !state.has_buffer
            &&& actions.contains(DemoAction::Commit) <==> after.configured
            &&& actions.contains(DemoAction::CountFrame) <==> after.configured
        }),
{
    let (after, actions) = turn_step(
        state,
        width,
        height,
        turn.ping,
        turn.configure,
        turn.closed,
    );
    let pings: int = if turn.ping is Some { 1 } else { 0 };
    let start: int = pings + if turn.configure is Some { 1int } else { 0 };
    if after.configured {
        if !state.has_buffer {
            assert(actions[start] == DemoAction::CreateBuffer);
        }
        let show: int = start + if state.has_buffer { 0int } else { 1 };
        assert(actions[show + 3] == DemoAction::Commit);
        assert(actions[show + 4] == DemoAction::CountFrame);
    }
}

/// The window makes one buffer, in the turn in which the first configuration
/// comes in, and none in any other turn.
pub proof fn law_demo_makes_one_buffer(width: u32, height: u32, turns: Seq<Turn>, at: int)
    requires
        0 <= at < turns.len(),
    ensures
        actions_in(width, height, turns, at).contains(DemoAction::CreateBuffer) <==> {
            &&& turns[at].configure is Some
            &&& forall|i: int| 0 <= i < at ==> (#[trigger] turns[i]).configure is None
        },
{
    lemma_state(width, height, turns, at);
    lemma_actions(state_after(width, height, turns, at), width, height, turns[at]);
}

/// From the first configuration on every turn shows a frame and counts it, and
/// no turn before does.
pub proof fn law_demo_shows_once_configured(width: u32, height: u32, turns: Seq<Turn>, at: int)
    requires
        0 <= at < turns.len(),
    ensures
        actions_in(width, height, turns, at).contains(DemoAction::Commit) <==> exists|i: int|
            0 <= i <= at && (#[trigger] turns[i]).configure is Some,
        actions_in(width, height, turns, at).contains(DemoAction::CountFrame) <==> actions_in(
            width,
            height,
            turns,
            at,
        ).contains(DemoAction::Commit),
{
    lemma_state(width, height, turns, at);
    lemma_state(width, height, turns, at + 1);
    lemma_actions(state_after(width, height, turns, at), width, height, turns[at]);
}

} // verus!
