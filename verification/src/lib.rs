//! The event plumbing, the layout tree and the window logic of a small
//! launcher.

pub mod actions;
pub mod demo;
pub mod demo_laws;
pub mod event;
pub mod frame_rate;
pub mod grid;
pub mod history;
pub mod inbox;
pub mod layout;
pub mod manager;
pub mod pacing;
pub mod renderer_thread;
pub mod signals;
pub mod sync;
pub mod taker;
pub mod tree;
pub mod wayland_thread;
pub mod window;
pub mod window_laws;
