//! The events that the renderer thread and the Wayland thread send each other.

use crate::event::{Event, EventHandler, Message};
use vstd::prelude::*;

verus! {

/// The Wayland surface is configured: the renderer may begin to produce frames.
#[derive(Clone, Copy, Debug, PartialEq, Eq, Structural)]
pub struct SurfaceReady;

/// A frame was committed to the Wayland surface: the renderer may produce the
/// next one.
#[derive(Clone, Copy, Debug, PartialEq, Eq, Structural)]
pub struct RenderTick;

/// The window was closed: both threads should stop.
#[derive(Clone, Copy, Debug, PartialEq, Eq, Structural)]
pub struct Shutdown;

/// A frame was rendered: the Wayland thread should show it. `Fd` is the type of
/// the descriptor of the frame's memory.
#[derive(Debug)]
pub struct FrameReady<Fd> {
    pub fd: Fd,
    pub stride: u32,
    pub offset: u32,
    pub format: u32,
    pub modifier: u64,
    pub width: i32,
    pub height: i32,
}

/// What travels between the two threads.
pub enum Signal<Fd> {
    SurfaceReady(SurfaceReady),
    RenderTick(RenderTick),
    Shutdown(Shutdown),
    FrameReady(FrameReady<Fd>),
}

/// The kind of `SurfaceReady`.
pub const SURFACE_READY: u64 = 0;

/// The kind of `RenderTick`.
pub const RENDER_TICK: u64 = 1;

/// The kind of `Shutdown`.
pub const SHUTDOWN: u64 = 2;

/// The kind of `FrameReady`.
pub const FRAME_READY: u64 = 3;

impl<Fd: 'static> Message for Signal<Fd> {
    open spec fn spec_kind(&self) -> u64 {
        match self {
            Signal::SurfaceReady(_) => SURFACE_READY,
            Signal::RenderTick(_) => RENDER_TICK,
            Signal::Shutdown(_) => SHUTDOWN,
            Signal::FrameReady(_) => FRAME_READY,
        }
    }

    fn kind(&self) -> (kind: u64) {
        match self {
            Signal::SurfaceReady(_) => SURFACE_READY,
            Signal::RenderTick(_) => RENDER_TICK,
            Signal::Shutdown(_) => SHUTDOWN,
            Signal::FrameReady(_) => FRAME_READY,
        }
    }
}

impl<Fd: 'static> Event<Signal<Fd>> for SurfaceReady {
    open spec fn spec_event_kind() -> u64 {
        SURFACE_READY
    }

    open spec fn message(self) -> Signal<Fd> {
        Signal::SurfaceReady(self)
    }

    fn event_kind() -> (kind: u64) {
        SURFACE_READY
    }

    fn into_message(self) -> (message: Signal<Fd>) {
        Signal::SurfaceReady(self)
    }

    fn from_message(message: Signal<Fd>) -> (event: Self) {
        SurfaceReady
    }

    proof fn message_has_kind(self) {
    }

    proof fn message_is_injective(self, other: Self) {
    }
}

impl<Fd: 'static> Event<Signal<Fd>> for RenderTick {
    open spec fn spec_event_kind() -> u64 {
        RENDER_TICK
    }

    open spec fn message(self) -> Signal<Fd> {
        Signal::RenderTick(self)
    }

    fn event_kind() -> (kind: u64) {
        RENDER_TICK
    }

    fn into_message(self) -> (message: Signal<Fd>) {
        Signal::RenderTick(self)
    }

    fn from_message(message: Signal<Fd>) -> (event: Self) {
        RenderTick
    }

    proof fn message_has_kind(self) {
    }

    proof fn message_is_injective(self, other: Self) {
    }
}

impl<Fd: 'static> Event<Signal<Fd>> for Shutdown {
    open spec fn spec_event_kind() -> u64 {
        SHUTDOWN
    }

    open spec fn message(self) -> Signal<Fd> {
        Signal::Shutdown(self)
    }

    fn event_kind() -> (kind: u64) {
        SHUTDOWN
    }

    fn into_message(self) -> (message: Signal<Fd>) {
        Signal::Shutdown(self)
    }

    fn from_message(message: Signal<Fd>) -> (event: Self) {
        Shutdown
    }

    proof fn message_has_kind(self) {
    }

    proof fn message_is_injective(self, other: Self) {
    }
}

impl<Fd: 'static> Event<Signal<Fd>> for FrameReady<Fd> {
    open spec fn spec_event_kind() -> u64 {
        FRAME_READY
    }

    open spec fn message(self) -> Signal<Fd> {
        Signal::FrameReady(self)
    }

    fn event_kind() -> (kind: u64) {
        FRAME_READY
    }

    fn into_message(self) -> (message: Signal<Fd>) {
        Signal::FrameReady(self)
    }

    fn from_message(message: Signal<Fd>) -> (event: Self) {
        match message {
            Signal::FrameReady(frame) => frame,
            _ => vstd::pervasive::unreached(),
        }
    }

    proof fn message_has_kind(self) {
    }

    proof fn message_is_injective(self, other: Self) {
    }
}

/// A handler that hands every signal on as it came.
#[derive(Clone, Copy, Debug)]
pub struct PassOn;

impl<Fd: 'static> EventHandler<Signal<Fd>> for PassOn {
    open spec fn answers(before: Self, event: Signal<Fd>, after: Self, answer: Signal<Fd>) -> bool {
        answer == event
    }

    fn handle(&mut self, event: Signal<Fd>) -> (answer: Signal<Fd>) {
        event
    }
}

} // verus!
