use mecha_launcher::event::{Event, EventHandler};
use mecha_launcher::manager::{Component, EventManager, EventManagerHandle, RegisteredComponent};
use mecha_launcher::signals::{FrameReady, RenderTick, Shutdown, Signal, SurfaceReady, RENDER_TICK};
use std::sync::{Arc, Mutex};

type Log = Arc<Mutex<Vec<String>>>;

/// Writes down what it is given under its name, and adds one to the descriptor
/// of every frame.
struct Recorder {
    name: &'static str,
    log: Log,
}

impl Recorder {
    fn note(&self, what: &str) {
        self.log.lock().unwrap().push(format!("{} {}", self.name, what));
    }
}

impl EventHandler<Signal<u32>> for Recorder {
    fn answers(_: Self, _: Signal<u32>, _: Self, _: Signal<u32>) -> bool {
        true
    }
    fn handle(&mut self, event: Signal<u32>) -> Signal<u32> {
        match event {
            Signal::SurfaceReady(ready) => {
                self.note("ready");
                Signal::SurfaceReady(ready)
            }
            Signal::RenderTick(tick) => {
                self.note("tick");
                Signal::RenderTick(tick)
            }
            Signal::Shutdown(shutdown) => {
                self.note("shutdown");
                Signal::Shutdown(shutdown)
            }
            Signal::FrameReady(frame) => {
                self.note(&format!("frame {}", frame.fd));
                Signal::FrameReady(FrameReady { fd: frame.fd + 1, ..frame })
            }
        }
    }
}

type Manager = EventManager<Signal<u32>, RegisteredComponent<Recorder>>;

impl Component<Signal<u32>, RegisteredComponent<Recorder>> for Recorder {
    fn build(&mut self, app: &mut Manager) {
        app.register_event::<RenderTick>();
        self.note("built");
    }
}

fn recorder(name: &'static str, log: &Log) -> Recorder {
    Recorder { name, log: log.clone() }
}

fn entries(log: &Log) -> Vec<String> {
    log.lock().unwrap().clone()
}

fn frame(fd: u32) -> FrameReady<u32> {
    FrameReady { fd, stride: 1, offset: 2, format: 3, modifier: 4, width: 5, height: 6 }
}

#[test]
fn an_event_reaches_its_subscribers_in_order() {
    let log = Log::default();
    let mut manager = Manager::new();
    manager.register_event::<FrameReady<u32>>();
    let first = manager.register_component(recorder("first", &log));
    let second = manager.register_component(recorder("second", &log));
    manager.subscribe_event::<FrameReady<u32>>(first);
    manager.subscribe_event::<FrameReady<u32>>(second);
    manager.send_event(frame(7));
    assert_eq!(entries(&log), vec!["first frame 7", "second frame 8"]);
}

#[test]
fn an_event_reaches_only_its_own_type() {
    let log = Log::default();
    let mut manager = Manager::new();
    manager.register_event::<RenderTick>();
    manager.register_event::<Shutdown>();
    let ticks = manager.register_component(recorder("ticks", &log));
    let stops = manager.register_component(recorder("stops", &log));
    manager.subscribe_event::<RenderTick>(ticks);
    manager.subscribe_event::<Shutdown>(stops);
    manager.send_event(RenderTick);
    manager.send_event(Shutdown);
    manager.send_event(RenderTick);
    assert_eq!(entries(&log), vec!["ticks tick", "stops shutdown", "ticks tick"]);
}

#[test]
fn registering_a_component_neither_builds_nor_registers() {
    let log = Log::default();
    let mut manager = Manager::new();
    let _registered = manager.register_component(recorder("one", &log));
    assert!(entries(&log).is_empty());
    assert!(!manager.is_registered::<RenderTick>());
}

#[test]
fn a_component_can_register_events() {
    let log = Log::default();
    let mut manager = Manager::new();
    let mut component = recorder("one", &log);
    component.build(&mut manager);
    assert!(manager.is_registered::<RenderTick>());
    assert!(!manager.is_registered::<Shutdown>());
}

#[test]
fn draining_dispatches_in_the_order_of_sending() {
    let log = Log::default();
    let mut manager = Manager::new();
    manager.register_event::<FrameReady<u32>>();
    manager.register_event::<RenderTick>();
    let one = manager.register_component(recorder("one", &log));
    let two = manager.register_component(recorder("two", &log));
    manager.subscribe_event::<FrameReady<u32>>(one);
    manager.subscribe_event::<RenderTick>(two);
    let handle = manager.handle();
    handle.send_event(frame(1));
    handle.send_event(RenderTick);
    handle.send_event(frame(2));
    assert!(entries(&log).is_empty());
    manager.drain_pending();
    assert_eq!(entries(&log), vec!["one frame 1", "two tick", "one frame 2"]);
    manager.drain_pending();
    assert_eq!(entries(&log).len(), 3);
}

#[test]
fn unregistered_events_are_dropped_when_drained() {
    let log = Log::default();
    let mut manager = Manager::new();
    manager.register_event::<RenderTick>();
    let one = manager.register_component(recorder("one", &log));
    manager.subscribe_event::<RenderTick>(one);
    let handle = manager.handle();
    handle.send_event(Shutdown);
    handle.send_event(RenderTick);
    handle.send_event(SurfaceReady);
    manager.drain_pending();
    assert_eq!(entries(&log), vec!["one tick"]);
    let stops: Vec<Shutdown> = manager.drain_typed();
    assert!(stops.is_empty());
}

#[test]
fn draining_an_empty_inbox_does_nothing() {
    let log = Log::default();
    let mut manager = Manager::new();
    manager.register_event::<RenderTick>();
    let one = manager.register_component(recorder("one", &log));
    manager.subscribe_event::<RenderTick>(one);
    manager.drain_pending();
    let ticks: Vec<RenderTick> = manager.drain_typed();
    assert!(ticks.is_empty());
    assert!(entries(&log).is_empty());
}

#[test]
fn typed_draining_leaves_other_types_queued() {
    let mut manager = Manager::new();
    let handle = manager.handle();
    handle.send_event(frame(1));
    handle.send_event(RenderTick);
    handle.send_event(frame(2));
    handle.send_event(Shutdown);
    let frames: Vec<FrameReady<u32>> = manager.drain_typed();
    assert_eq!(frames.iter().map(|frame| frame.fd).collect::<Vec<_>>(), vec![1, 2]);
    assert_eq!(frames[0].modifier, 4);
    assert_eq!(frames[1].height, 6);
    let none: Vec<FrameReady<u32>> = manager.drain_typed();
    assert!(none.is_empty());
    let stops: Vec<Shutdown> = manager.drain_typed();
    assert_eq!(stops.len(), 1);
    let ticks: Vec<RenderTick> = manager.drain_typed();
    assert_eq!(ticks.len(), 1);
}

#[test]
fn waiting_with_something_queued_returns_and_keeps_it() {
    let mut manager = Manager::new();
    manager.handle().send_event(RenderTick);
    manager.wait_for_pending();
    manager.wait_for_pending();
    let ticks: Vec<RenderTick> = manager.drain_typed();
    assert_eq!(ticks.len(), 1);
}

#[test]
fn waiting_and_draining_dispatches_all() {
    let log = Log::default();
    let mut manager = Manager::new();
    manager.register_event::<RenderTick>();
    let one = manager.register_component(recorder("one", &log));
    manager.subscribe_event::<RenderTick>(one);
    let handle = manager.handle();
    handle.send_event(RenderTick);
    handle.send_event(RenderTick);
    manager.wait_and_drain_pending();
    assert_eq!(entries(&log), vec!["one tick", "one tick"]);
    let ticks: Vec<RenderTick> = manager.drain_typed();
    assert!(ticks.is_empty());
}

#[test]
fn clones_of_a_handle_lead_to_the_same_inbox() {
    let mut manager = Manager::new();
    let mut other_manager = Manager::new();
    let handle: EventManagerHandle<Signal<u32>> = manager.handle();
    let clone = handle.clone();
    handle.send_event(frame(1));
    clone.send_event(frame(2));
    manager.handle().send_event(frame(3));
    let frames: Vec<FrameReady<u32>> = manager.drain_typed();
    assert_eq!(frames.iter().map(|frame| frame.fd).collect::<Vec<_>>(), vec![1, 2, 3]);
    let others: Vec<FrameReady<u32>> = other_manager.drain_typed();
    assert!(others.is_empty());
}

#[test]
fn sending_directly_does_not_use_the_inbox() {
    let log = Log::default();
    let mut manager = Manager::new();
    manager.register_event::<RenderTick>();
    let one = manager.register_component(recorder("one", &log));
    manager.subscribe_event::<RenderTick>(one);
    manager.send_event(RenderTick);
    assert_eq!(entries(&log), vec!["one tick"]);
    let ticks: Vec<RenderTick> = manager.drain_typed();
    assert!(ticks.is_empty());
}

/// Numbers the frames that it is given.
struct Numbering {
    next: u32,
}

impl EventHandler<Signal<u32>> for Numbering {
    fn answers(_: Self, _: Signal<u32>, _: Self, _: Signal<u32>) -> bool {
        true
    }
    fn handle(&mut self, event: Signal<u32>) -> Signal<u32> {
        match event {
            Signal::FrameReady(frame) => {
                self.next += 1;
                Signal::FrameReady(FrameReady { fd: self.next, ..frame })
            }
            other => other,
        }
    }
}

impl Component<Signal<u32>, RegisteredComponent<Numbering>> for Numbering {
    fn build(&mut self, _app: &mut EventManager<Signal<u32>, RegisteredComponent<Numbering>>) {}
}

#[test]
fn a_component_keeps_its_state_between_events() {
    let mut manager: EventManager<Signal<u32>, RegisteredComponent<Numbering>> =
        EventManager::new();
    let mut component = manager.register_component(Numbering { next: 10 });
    let mut numbers = vec![];
    for _ in 0..3 {
        match component.handle(Signal::FrameReady(frame(0))) {
            Signal::FrameReady(frame) => numbers.push(frame.fd),
            _ => panic!("not a frame"),
        }
    }
    assert_eq!(numbers, vec![11, 12, 13]);
}

/// A tick that asks for a stop while it is packed.
struct Nested {
    handle: EventManagerHandle<Signal<u32>>,
}

impl Event<Signal<u32>> for Nested {
    fn spec_event_kind() -> u64 {
        RENDER_TICK
    }
    fn message(self) -> Signal<u32> {
        Signal::RenderTick(RenderTick)
    }
    fn event_kind() -> u64 {
        RENDER_TICK
    }
    fn into_message(self) -> Signal<u32> {
        self.handle.send_event(Shutdown);
        Signal::RenderTick(RenderTick)
    }
    fn from_message(_message: Signal<u32>) -> Self {
        unreachable!()
    }
    fn message_has_kind(self) {}
    fn message_is_injective(self, _other: Self) {}
}

#[test]
fn an_event_can_send_while_it_is_packed() {
    let mut manager = Manager::new();
    let handle = manager.handle();
    handle.send_event(Nested { handle: manager.handle() });
    let stops: Vec<Shutdown> = manager.drain_typed();
    assert_eq!(stops.len(), 1);
    let ticks: Vec<RenderTick> = manager.drain_typed();
    assert_eq!(ticks.len(), 1);
}
