# mecha_launcher

The verified core of a small Wayland launcher.

- `src/event.rs`, `src/inbox.rs`, `src/manager.rs`: events, the inbox through
  which threads send them, and the manager that dispatches them.
- `src/layout.rs`, `src/grid.rs`: the layout tree, the absolute rectangles that
  follow from a layout pass, and the grid that the demo shows.
- `src/signals.rs`, `src/renderer_thread.rs`, `src/wayland_thread.rs`,
  `src/window.rs`, `src/demo.rs`, `src/frame_rate.rs`: what the two threads and
  the demo send, decide and do.
- `src/sync.rs`, `src/tree.rs`: what is taken for granted of `parking_lot` and of
  `taffy`.
- `app/`: the program around the library, with everything that talks to the
  compositor and to the graphics card, and everything that computes with
  floating point.
