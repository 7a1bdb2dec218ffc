//! What is done with a frame and with what the compositor asks for, whatever state
//! the window is in.

use crate::actions::{is_absent, stands_alone};
use crate::signals::FrameReady;
use crate::wayland_thread::{
    finish_step, frame_step, poll_step, Action, WindowState,
};
use crate::window::{bound_version, signed, spec_buffer_request};
use vstd::prelude::*;

verus! {

/// Every ping is answered, once and with its own serial, and every configuration
/// is acknowledged, once and with its own serial. Both are written out at once.
/// Nothing else is answered or acknowledged. This holds in every state of the
/// window, and whatever else comes in.
pub proof fn law_poll_answers_all<Fd>(
    state: WindowState,
    ping: Option<u32>,
    configure: Option<u32>,
    closed: bool,
)
    ensures
        ({
            let actions = poll_step::<Fd>(state, ping, configure, closed).1;
            let pongs = |action: Action<Fd>| action is Pong;
            let acks = |action: Action<Fd>| action is AckConfigure;
            &&& ping is None ==> is_absent(actions, pongs)
            &&& ping is Some ==> exists|at: int| #[trigger]
                stands_alone(actions, at, pongs) && actions[at]->Pong_serial == ping->0
            &&& configure is None ==> is_absent(actions, acks)
            &&& configure is Some ==> exists|at: int| #[trigger]
                stands_alone(actions, at, acks) && actions[at]->AckConfigure_serial == configure->0
            &&& forall|i: int|
                0 <= i < actions.len() && (#[trigger] actions[i] is Pong
                    || actions[i] is AckConfigure) ==> i + 1 < actions.len() && actions[i
                    + 1] is Flush
        }),
{
    let actions = poll_step::<Fd>(state, ping, configure, closed).1;
    let pongs = |action: Action<Fd>| action is Pong;
    let acks = |action: Action<Fd>| action is AckConfigure;
    let ack: int = if ping is Some {
        2
    } else {
        0
    };
    if ping is Some {
        assert(stands_alone(actions, 0, pongs));
    }
    if configure is Some {
        assert(stands_alone(actions, ack, acks));
    }
}

/// The renderer is told to begin if the surface was not configured before and is
/// now, after the configuration was acknowledged. It is told to stop if and only if
/// the window is found closed, as the last thing that is done. In between, what is
/// buffered is written out. Nothing is shown, and the buffer stays as it is.
pub proof fn law_poll_tells_the_renderer<Fd>(
    state: WindowState,
    ping: Option<u32>,
    configure: Option<u32>,
    closed: bool,
)
    ensures
        ({
            let (after, actions) = poll_step::<Fd>(state, ping, configure, closed);
            let begins = |action: Action<Fd>| action is SendReady;
            let stops = |action: Action<Fd>| action is SendShutdown;
            &&& after.configured <==> state.configured || configure is Some
            &&& after.has_buffer == state.has_buffer
            &&& !after.configured || state.configured ==> is_absent(actions, begins)
            &&& after.configured && !state.configured ==> exists|at: int| #[trigger]
                stands_alone(actions, at, begins) && 2 <= at && actions[at - 2] is AckConfigure
            &&& !closed ==> is_absent(actions, stops) && actions.len() > 0
                && actions[actions.len() - 1] is Flush
            &&& closed ==> stands_alone(actions, actions.len() - 1, stops) && actions.len() > 1
                && actions[actions.len() - 2] is Flush
            &&& is_absent(
                actions,
                |action: Action<Fd>|
                    action is CreateBuffer || action is Attach || action is Damage
                        || action is Commit || action is SendTick || action is DestroyBuffer,
            )
        }),
{
    let (after, actions) = poll_step::<Fd>(state, ping, configure, closed);
    let begins = |action: Action<Fd>| action is SendReady;
    let answers: int = if ping is Some {
        2
    } else {
        0
    };
    if after.configured && !state.configured {
        assert(stands_alone(actions, answers + 2, begins));
    }
}

/// A frame for a window that is not configured is dropped, and nothing is done.
/// Every other frame is attached, marked over the whole window, committed and
/// written out, and the renderer is asked for the next one, in this order and each
/// once. The buffer is made from the frame right before that if there is none yet,
/// and never otherwise.
pub proof fn law_frame_is_shown<Fd>(
    state: WindowState,
    width: u32,
    height: u32,
    frame: FrameReady<Fd>,
)
    ensures
        ({
            let (after, actions) = frame_step(state, width, height, frame);
            let makes = |action: Action<Fd>| action is CreateBuffer;
            let attaches = |action: Action<Fd>| action is Attach;
            let damages = |action: Action<Fd>| action is Damage;
            let commits = |action: Action<Fd>| action is Commit;
            let flushes = |action: Action<Fd>| action is Flush;
            let asks = |action: Action<Fd>| action is SendTick;
            &&& after.configured == state.configured
            &&& after.has_buffer <==> state.has_buffer || state.configured
            &&& !state.configured ==> actions.len() == 0
            &&& state.configured ==> {
                let at = actions.len() - 5;
                &&& stands_alone(actions, at, attaches)
                &&& stands_alone(actions, at + 1, damages)
                &&& actions[at + 1]->width == signed(width)
                &&& actions[at + 1]->height == signed(height)
                &&& stands_alone(actions, at + 2, commits)
                &&& stands_alone(actions, at + 3, flushes)
                &&& stands_alone(actions, at + 4, asks)
                &&& state.has_buffer ==> actions.len() == 5
                &&& !state.has_buffer ==> actions.len() == 6 && stands_alone(actions, 0, makes)
            }
        }),
{
}

/// The buffer that is made for a frame is the frame's memory, as the frame
/// describes it: one plane, no flags, and the halves of the modifier make up the
/// modifier.
pub proof fn law_buffer_is_the_frame<Fd>(
    state: WindowState,
    width: u32,
    height: u32,
    frame: FrameReady<Fd>,
    at: int,
)
    requires
        0 <= at < frame_step(state, width, height, frame).1.len(),
        frame_step(state, width, height, frame).1[at] is CreateBuffer,
    ensures
        ({
            let request = frame_step(state, width, height, frame).1[at]->CreateBuffer_0;
            &&& request == spec_buffer_request(frame)
            &&& request.fd == frame.fd
            &&& request.plane == 0
            &&& request.offset == frame.offset
            &&& request.stride == frame.stride
            &&& request.modifier_high * 0x1_0000_0000 + request.modifier_low == frame.modifier
            &&& request.width == frame.width
            &&& request.height == frame.height
            &&& request.format == frame.format
            &&& request.flags == 0
        }),
{
}

/// Once the event loop has ended, a window that has a buffer destroys it and
/// writes that out, and a window that has none does nothing.
pub proof fn law_finish_destroys_the_buffer<Fd>(state: WindowState)
    ensures
        ({
            let actions = finish_step::<Fd>(state);
            &&& !state.has_buffer ==> actions.len() == 0
            &&& state.has_buffer ==> actions.len() == 2 && actions[0] is DestroyBuffer
                && actions[1] is Flush
        }),
{
}

/// The version that is bound of a global is the highest that is neither above the
/// announced one nor above the highest that the window knows.
pub proof fn law_bound_version(announced: u32)
    ensures
        bound_version(announced) <= announced,
        bound_version(announced) <= 4,
        bound_version(announced) == announced || bound_version(announced) == 4,
{
}

/// Reading a number as a signed one keeps its bits: the two differ by nothing, or
/// by what the bits cannot tell apart.
pub proof fn law_signed_keeps_bits(value: u32)
    ensures
        -0x8000_0000 <= signed(value) < 0x8000_0000,
        signed(value) == value || signed(value) + 0x1_0000_0000 == value,
{
}

} // verus!
