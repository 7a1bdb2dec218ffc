//! What a turn of the demo's loop does, whatever state the window is in.

use crate::actions::{is_absent, stands_alone};
use crate::demo::{actions_in, leave_step, state_after, turn_step, DemoAction, Turn};
use crate::wayland_thread::WindowState;
use crate::window::signed;
use vstd::prelude::*;

verus! {

/// A turn leaves the loop if and only if the window is found closed in that turn,
/// whatever came before. Leaving is then the last thing that is done, and what is
/// buffered is written out last otherwise.
pub proof fn law_demo_leaves_when_closed(width: u32, height: u32, turns: Seq<Turn>, at: int)
    requires
        0 <= at < turns.len(),
    ensures
        actions_in(width, height, turns, at).contains(DemoAction::Leave) <==> turns[at].closed,
        turns[at].closed ==> actions_in(width, height, turns, at).last() == DemoAction::Leave,
        actions_in(width, height, turns, at).contains(DemoAction::Flush) <==> !turns[at].closed,
        !turns[at].closed ==> actions_in(width, height, turns, at).last() == DemoAction::Flush,
{
    let actions = actions_in(width, height, turns, at);
    assert(actions[actions.len() - 1] == actions.last());
}

/// Every ping is answered, once and with its own serial, and every configuration
/// is acknowledged, once and with its own serial. Nothing else is answered or
/// acknowledged. This holds in every state of the window, and whatever else comes
/// in.
pub proof fn law_demo_answers_all(state: WindowState, width: u32, height: u32, turn: Turn)
    ensures
        ({
            let actions = turn_step(
                state,
                width,
                height,
                turn.ping,
                turn.configure,
                turn.closed,
            ).1;
            let pongs = |action: DemoAction| action is Pong;
            let acks = |action: DemoAction| action is AckConfigure;
            &&& turn.ping is None ==> is_absent(actions, pongs)
            &&& turn.ping is Some ==> exists|at: int| #[trigger]
                stands_alone(actions, at, pongs) && actions[at]->Pong_serial == turn.ping->0
            &&& turn.configure is None ==> is_absent(actions, acks)
            &&& turn.configure is Some ==> exists|at: int| #[trigger]
                stands_alone(actions, at, acks) && actions[at]->AckConfigure_serial
                    == turn.configure->0
        }),
{
    let actions = turn_step(state, width, height, turn.ping, turn.configure, turn.closed).1;
    let pongs = |action: DemoAction| action is Pong;
    let acks = |action: DemoAction| action is AckConfigure;
    let ack: int = if turn.ping is Some {
        1
    } else {
        0
    };
    if turn.ping is Some {
        assert(stands_alone(actions, 0, pongs));
    }
    if turn.configure is Some {
        assert(stands_alone(actions, ack, acks));
    }
}

/// A turn of a configured window draws, attaches, marks the whole window as
/// changed, commits and counts one frame, in this order, and a turn of a window
/// that is not configured does none of it. The buffer is made right before that if
/// there is none yet, and never otherwise.
pub proof fn law_demo_shows_one_frame(state: WindowState, width: u32, height: u32, turn: Turn)
    ensures
        ({
            let (after, actions) = turn_step(
                state,
                width,
                height,
                turn.ping,
                turn.configure,
                turn.closed,
            );
            let makes = |action: DemoAction| action is CreateBuffer;
            let draws = |action: DemoAction| action is Draw;
            let attaches = |action: DemoAction| action is Attach;
            let damages = |action: DemoAction| action is Damage;
            let commits = |action: DemoAction| action is Commit;
            let counts = |action: DemoAction| action is CountFrame;
            &&& after.configured <==> state.configured || turn.configure is Some
            &&& after.has_buffer <==> state.has_buffer || after.configured
            &&& is_absent(actions, |action: DemoAction| action is DestroyBuffer)
            &&& after.configured ==> exists|at: int|
                {
                    &&& #[trigger] stands_alone(actions, at, draws)
                    &&& stands_alone(actions, at + 1, attaches)
                    &&& stands_alone(actions, at + 2, damages)
                    &&& actions[at + 2]->width == signed(width)
                    &&& actions[at + 2]->height == signed(height)
                    &&& stands_alone(actions, at + 3, commits)
                    &&& stands_alone(actions, at + 4, counts)
                    &&& if state.has_buffer {
                        is_absent(actions, makes)
                    } else {
                        stands_alone(actions, at - 1, makes)
                    }
                }
            &&& !after.configured ==> {
                &&& is_absent(actions, draws)
                &&& is_absent(actions, attaches)
                &&& is_absent(actions, damages)
                &&& is_absent(actions, commits)
                &&& is_absent(actions, counts)
                &&& is_absent(actions, makes)
            }
        }),
{
    let (after, actions) = turn_step(
        state,
        width,
        height,
        turn.ping,
        turn.configure,
        turn.closed,
    );
    let draws = |action: DemoAction| action is Draw;
    let answers: int = if turn.ping is Some {
        1
    } else {
        0
    };
    let acks: int = if turn.configure is Some {
        1
    } else {
        0
    };
    let makes: int = if state.has_buffer {
        0
    } else {
        1
    };
    if after.configured {
        assert(stands_alone(actions, answers + acks + makes, draws));
    }
}

/// Once the loop was left, the buffer is destroyed if a turn has made one, and the
/// last thing that is done then is to write that out. Otherwise nothing is left to
/// do.
pub proof fn law_demo_destroys_its_buffer(width: u32, height: u32, turns: Seq<Turn>)
    ensures
        ({
            let actions = leave_step(state_after(width, height, turns, turns.len() as int));
            if exists|i: int| 0 <= i < turns.len() && (#[trigger] turns[i]).configure is Some {
                &&& actions.len() == 2
                &&& actions[0] is DestroyBuffer
                &&& actions[1] is Flush
            } else {
                actions.len() == 0
            }
        }),
{
    lemma_has_buffer(width, height, turns, turns.len() as int);
}

/// A window has a buffer once a configuration came in.
proof fn lemma_has_buffer(width: u32, height: u32, turns: Seq<Turn>, count: int)
    requires
        0 <= count <= turns.len(),
    ensures
        state_after(width, height, turns, count).configured == exists|i: int|
            0 <= i < count && (#[trigger] turns[i]).configure is Some,
        state_after(width, height, turns, count).has_buffer == state_after(
            width,
            height,
            turns,
            count,
        ).configured,
    decreases count,
{
    if count > 0 {
        lemma_has_buffer(width, height, turns, count - 1);
        assert(turns[count - 1].configure is Some || turns[count - 1].configure is None);
    }
}

} // verus!
