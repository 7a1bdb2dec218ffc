use mecha_launcher::event::{Event, EventHandler, Message};
use mecha_launcher::manager::EventManager;
use mecha_launcher::signals::{
    FrameReady, PassOn, RenderTick, Shutdown, Signal, SurfaceReady, FRAME_READY, RENDER_TICK,
    SHUTDOWN, SURFACE_READY,
};

type Message32 = Signal<u32>;

fn packed<E: Event<Message32>>(event: E) -> Message32 {
    event.into_message()
}

fn frame(fd: u32) -> FrameReady<u32> {
    FrameReady { fd, stride: 1, offset: 2, format: 3, modifier: 4, width: 5, height: 6 }
}

#[test]
fn every_type_has_a_kind_of_its_own() {
    assert_eq!(packed(SurfaceReady).kind(), SURFACE_READY);
    assert_eq!(packed(RenderTick).kind(), RENDER_TICK);
    assert_eq!(packed(Shutdown).kind(), SHUTDOWN);
    assert_eq!(packed(frame(1)).kind(), FRAME_READY);
    let mut kinds = vec![SURFACE_READY, RENDER_TICK, SHUTDOWN, FRAME_READY];
    kinds.sort();
    kinds.dedup();
    assert_eq!(kinds.len(), 4);
}

#[test]
fn a_frame_survives_packing() {
    let unpacked = FrameReady::<u32>::from_message(packed(frame(7)));
    assert_eq!((unpacked.fd, unpacked.stride, unpacked.offset), (7, 1, 2));
    assert_eq!((unpacked.format, unpacked.modifier), (3, 4));
    assert_eq!((unpacked.width, unpacked.height), (5, 6));
    let _: SurfaceReady = <SurfaceReady as Event<Message32>>::from_message(packed(SurfaceReady));
}

#[test]
fn passing_on_changes_nothing() {
    match PassOn.handle(packed(frame(9))) {
        Signal::FrameReady(frame) => assert_eq!(frame.fd, 9),
        _ => panic!("not a frame"),
    }
    let mut manager: EventManager<Message32, PassOn> = EventManager::new();
    manager.register_event::<FrameReady<u32>>();
    manager.subscribe_event::<FrameReady<u32>>(PassOn);
    manager.send_event(frame(1));
    manager.dispatch(packed(Shutdown));
    assert!(manager.is_registered::<FrameReady<u32>>());
    assert!(!manager.is_registered::<Shutdown>());
}
