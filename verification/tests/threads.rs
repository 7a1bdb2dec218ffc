use mecha_launcher::event::Event;
use mecha_launcher::frame_rate::FrameCounter;
use mecha_launcher::inbox::enqueue;
use mecha_launcher::renderer_thread::{wake, RenderStep, RenderedFrame, RendererEventManager};
use mecha_launcher::signals::{FrameReady, RenderTick, Shutdown, Signal, SurfaceReady};
use mecha_launcher::wayland_thread::{Action, WaylandEventManager};
use std::collections::VecDeque;

fn frame(fd: u32) -> FrameReady<u32> {
    FrameReady {
        fd,
        stride: 4,
        offset: 8,
        format: 15,
        modifier: 0x0000_0002_0000_0003,
        width: 640,
        height: 480,
    }
}

fn send<E: Event<Signal<u32>>>(queue: &mut VecDeque<Signal<u32>>, event: E) {
    enqueue(queue, event.into_message());
}

fn names(actions: &[Action<u32>]) -> Vec<String> {
    actions
        .iter()
        .map(|action| match action {
            Action::CreateBuffer(request) => format!("create {}", request.fd),
            Action::Attach => "attach".to_string(),
            Action::Damage { width, height } => format!("damage {} {}", width, height),
            Action::Commit => "commit".to_string(),
            Action::Flush => "flush".to_string(),
            Action::Pong { serial } => format!("pong {}", serial),
            Action::AckConfigure { serial } => format!("ack {}", serial),
            Action::SendTick => "tick".to_string(),
            Action::SendReady => "ready".to_string(),
            Action::SendShutdown => "shutdown".to_string(),
            Action::DestroyBuffer => "destroy".to_string(),
        })
        .collect()
}

#[test]
fn the_renderer_idles_until_the_surface_is_ready() {
    let mut renderer: RendererEventManager<u32> = RendererEventManager::new(640, 480);
    let handle = renderer.handle();
    handle.send_event(RenderTick);
    assert_eq!(renderer.next_step(), RenderStep::Idle);
    handle.send_event(SurfaceReady);
    assert_eq!(renderer.next_step(), RenderStep::Render);
    handle.send_event(RenderTick);
    assert_eq!(renderer.next_step(), RenderStep::Render);
}

#[test]
fn a_shutdown_goes_before_everything_else() {
    let mut renderer: RendererEventManager<u32> = RendererEventManager::new(640, 480);
    let handle = renderer.handle();
    handle.send_event(SurfaceReady);
    handle.send_event(RenderTick);
    handle.send_event(Shutdown);
    assert_eq!(renderer.next_step(), RenderStep::Stop);
    assert_eq!(renderer.next_step(), RenderStep::Render);
}

#[test]
fn a_wake_with_a_shutdown_leaves_everything_else() {
    let mut queue: VecDeque<Signal<u32>> = VecDeque::new();
    send(&mut queue, SurfaceReady);
    send(&mut queue, Shutdown);
    send(&mut queue, RenderTick);
    send(&mut queue, Shutdown);
    assert_eq!(wake(false, &mut queue), (RenderStep::Stop, false));
    assert_eq!(queue.len(), 2);
    assert!(matches!(queue[0], Signal::SurfaceReady(_)));
    assert!(matches!(queue[1], Signal::RenderTick(_)));
    assert_eq!(wake(false, &mut queue), (RenderStep::Render, true));
    assert!(queue.is_empty());
}

#[test]
fn a_single_shutdown_is_found() {
    let mut queue: VecDeque<Signal<u32>> = VecDeque::new();
    send(&mut queue, Shutdown);
    assert_eq!(wake(true, &mut queue), (RenderStep::Stop, true));
    assert!(queue.is_empty());
}

#[test]
fn a_wake_takes_ticks_before_the_surface_is_ready() {
    let mut queue: VecDeque<Signal<u32>> = VecDeque::new();
    send(&mut queue, RenderTick);
    send(&mut queue, frame(1));
    send(&mut queue, RenderTick);
    assert_eq!(wake(false, &mut queue), (RenderStep::Idle, false));
    assert_eq!(queue.len(), 1);
    assert!(matches!(queue[0], Signal::FrameReady(_)));
    assert_eq!(wake(false, &mut queue), (RenderStep::Idle, false));
    assert_eq!(queue.len(), 1);
}

#[test]
fn pending_ticks_make_one_frame() {
    let mut renderer: RendererEventManager<u32> = RendererEventManager::new(640, 480);
    let handle = renderer.handle();
    handle.send_event(SurfaceReady);
    handle.send_event(RenderTick);
    handle.send_event(RenderTick);
    assert_eq!(renderer.next_step(), RenderStep::Render);
    handle.send_event(Shutdown);
    assert_eq!(renderer.next_step(), RenderStep::Stop);
}

#[test]
fn every_combination_is_decided() {
    let woken = |configured: bool, shutdown: bool, ready: bool| {
        let mut queue: VecDeque<Signal<u32>> = VecDeque::new();
        send(&mut queue, RenderTick);
        if ready {
            send(&mut queue, SurfaceReady);
        }
        if shutdown {
            send(&mut queue, Shutdown);
        }
        wake(configured, &mut queue)
    };
    assert_eq!(woken(false, false, false), (RenderStep::Idle, false));
    assert_eq!(woken(false, false, true), (RenderStep::Render, true));
    assert_eq!(woken(false, true, false), (RenderStep::Stop, false));
    assert_eq!(woken(false, true, true), (RenderStep::Stop, false));
    assert_eq!(woken(true, false, false), (RenderStep::Render, true));
    assert_eq!(woken(true, false, true), (RenderStep::Render, true));
    assert_eq!(woken(true, true, false), (RenderStep::Stop, true));
    assert_eq!(woken(true, true, true), (RenderStep::Stop, true));
}

#[test]
fn a_rendered_frame_is_sent_in_the_size_of_the_window() {
    let renderer: RendererEventManager<u32> = RendererEventManager::new(640, 480);
    let event = renderer.frame_ready(RenderedFrame {
        fd: 3,
        stride: 4,
        offset: 5,
        format: 6,
        modifier: 7,
    });
    assert_eq!((event.fd, event.stride, event.offset), (3, 4, 5));
    assert_eq!((event.format, event.modifier), (6, 7));
    assert_eq!((event.width, event.height), (640, 480));
    assert_eq!(renderer.bar_top(), 400);
    assert_eq!(renderer.size(), (640, 480));
}

#[test]
fn frames_before_the_configuration_are_dropped() {
    let mut window: WaylandEventManager<u32> = WaylandEventManager::new(640, 480);
    assert_eq!(window.size(), (640, 480));
    assert!(window.on_frame(frame(1)).is_empty());
    assert_eq!(names(&window.on_poll(None, None, false)), vec!["flush"]);
    assert!(window.finish().is_empty());
}

#[test]
fn the_first_frame_makes_the_buffer() {
    let mut window: WaylandEventManager<u32> = WaylandEventManager::new(640, 480);
    assert_eq!(
        names(&window.on_poll(None, Some(5), false)),
        vec!["ack 5", "flush", "ready", "flush"]
    );
    let actions = window.on_frame(frame(1));
    assert_eq!(
        names(&actions),
        vec!["create 1", "attach", "damage 640 480", "commit", "flush", "tick"]
    );
    match &actions[0] {
        Action::CreateBuffer(request) => {
            assert_eq!((request.modifier_high, request.modifier_low), (2, 3));
            assert_eq!((request.width, request.height, request.format), (640, 480, 15));
        }
        _ => panic!("no buffer"),
    }
    assert_eq!(
        names(&window.on_frame(frame(2))),
        vec!["attach", "damage 640 480", "commit", "flush", "tick"]
    );
    assert_eq!(names(&window.finish()), vec!["destroy", "flush"]);
}

#[test]
fn the_renderer_is_told_once_that_the_surface_is_ready() {
    let mut window: WaylandEventManager<u32> = WaylandEventManager::new(640, 480);
    let first = names(&window.on_poll(None, Some(1), false));
    let second = names(&window.on_poll(None, Some(2), false));
    assert!(first.contains(&"ready".to_string()));
    assert_eq!(second, vec!["ack 2", "flush", "flush"]);
}

#[test]
fn pings_are_answered_and_closing_comes_last() {
    let mut window: WaylandEventManager<u32> = WaylandEventManager::new(640, 480);
    assert_eq!(
        names(&window.on_poll(Some(9), Some(10), true)),
        vec!["pong 9", "flush", "ack 10", "flush", "ready", "flush", "shutdown"]
    );
}

#[test]
fn frames_are_taken_in_the_order_of_sending() {
    let mut window: WaylandEventManager<u32> = WaylandEventManager::new(640, 480);
    let handle = window.handle();
    handle.send_event(frame(1));
    handle.send_event(RenderTick);
    handle.send_event(frame(2));
    let frames = window.take_frames();
    assert_eq!(frames.iter().map(|frame| frame.fd).collect::<Vec<_>>(), vec![1, 2]);
    assert!(window.take_frames().is_empty());
}

#[test]
fn the_two_sides_keep_one_frame_on_its_way() {
    let mut window: WaylandEventManager<u32> = WaylandEventManager::new(640, 480);
    let mut renderer: RendererEventManager<u32> = RendererEventManager::new(640, 480);
    let to_window = window.handle();
    let to_renderer = renderer.handle();
    let mut rendered = 0;
    let mut shown = 0;
    let mut buffers = 0;
    for turn in 0..20 {
        let mut actions = vec![];
        for frame in window.take_frames() {
            actions.extend(window.on_frame(frame));
        }
        let configure = if turn % 7 == 0 { Some(turn) } else { None };
        actions.extend(window.on_poll(None, configure, turn == 19));
        let mut woken = false;
        for action in actions {
            match action {
                Action::CreateBuffer(_) => buffers += 1,
                Action::Commit => shown += 1,
                Action::SendTick => {
                    to_renderer.send_event(RenderTick);
                    woken = true;
                }
                Action::SendReady => {
                    to_renderer.send_event(SurfaceReady);
                    woken = true;
                }
                Action::SendShutdown => {
                    to_renderer.send_event(Shutdown);
                    woken = true;
                }
                _ => {}
            }
        }
        if woken {
            match renderer.next_step() {
                RenderStep::Stop => assert_eq!(turn, 19),
                RenderStep::Idle => panic!("woken for nothing"),
                RenderStep::Render => {
                    rendered += 1;
                    to_window.send_event(frame(rendered));
                }
            }
        }
        assert!(rendered <= shown + 1);
    }
    assert_eq!((rendered, shown, buffers), (19, 19, 1));
}

#[test]
fn a_report_comes_with_every_full_minute() {
    let mut counter = FrameCounter::new();
    assert!(!counter.is_full());
    assert_eq!(counter.record(0), None);
    assert_eq!(counter.record(59), None);
    assert_eq!(counter.record(60), Some(3));
    assert_eq!(counter.record(0), None);
    assert_eq!(counter.record(61), Some(2));
    assert_eq!(counter.record(1000), Some(1));
}
