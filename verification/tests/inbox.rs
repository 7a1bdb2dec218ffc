use mecha_launcher::event::Event;
use mecha_launcher::inbox::{enqueue, keep_waiting, take_all, take_kind, take_typed, unpack};
use mecha_launcher::signals::{FrameReady, RenderTick, Shutdown, Signal, SurfaceReady, FRAME_READY};
use std::collections::VecDeque;

fn frame(fd: u32) -> FrameReady<u32> {
    FrameReady { fd, stride: 0, offset: 0, format: 0, modifier: 0, width: 0, height: 0 }
}

fn send<E: Event<Signal<u32>>>(queue: &mut VecDeque<Signal<u32>>, event: E) {
    enqueue(queue, event.into_message());
}

fn fds(frames: &[FrameReady<u32>]) -> Vec<u32> {
    frames.iter().map(|frame| frame.fd).collect()
}

fn names(queue: &VecDeque<Signal<u32>>) -> Vec<String> {
    queue
        .iter()
        .map(|signal| match signal {
            Signal::SurfaceReady(_) => "ready".to_string(),
            Signal::RenderTick(_) => "tick".to_string(),
            Signal::Shutdown(_) => "shutdown".to_string(),
            Signal::FrameReady(frame) => format!("frame {}", frame.fd),
        })
        .collect()
}

#[test]
fn taking_a_type_leaves_the_others_in_order() {
    let mut queue: VecDeque<Signal<u32>> = VecDeque::new();
    send(&mut queue, frame(1));
    send(&mut queue, RenderTick);
    send(&mut queue, frame(2));
    send(&mut queue, Shutdown);
    send(&mut queue, RenderTick);
    send(&mut queue, frame(3));
    let frames: Vec<FrameReady<u32>> = take_typed(&mut queue);
    assert_eq!(fds(&frames), vec![1, 2, 3]);
    assert_eq!(names(&queue), vec!["tick", "shutdown", "tick"]);
}

#[test]
fn taking_a_type_twice_finds_nothing() {
    let mut queue: VecDeque<Signal<u32>> = VecDeque::new();
    send(&mut queue, frame(1));
    send(&mut queue, SurfaceReady);
    let first: Vec<FrameReady<u32>> = take_typed(&mut queue);
    let second: Vec<FrameReady<u32>> = take_typed(&mut queue);
    assert_eq!(first.len(), 1);
    assert!(second.is_empty());
    assert_eq!(names(&queue), vec!["ready"]);
}

#[test]
fn taking_from_an_empty_queue_finds_nothing() {
    let mut queue: VecDeque<Signal<u32>> = VecDeque::new();
    let ticks: Vec<RenderTick> = take_typed(&mut queue);
    assert!(ticks.is_empty());
    assert!(queue.is_empty());
}

#[test]
fn two_types_can_be_taken_in_either_order() {
    let fill = || {
        let mut queue: VecDeque<Signal<u32>> = VecDeque::new();
        send(&mut queue, RenderTick);
        send(&mut queue, frame(4));
        send(&mut queue, Shutdown);
        send(&mut queue, frame(5));
        send(&mut queue, SurfaceReady);
        queue
    };
    let mut one = fill();
    let one_frames: Vec<FrameReady<u32>> = take_typed(&mut one);
    let one_stops: Vec<Shutdown> = take_typed(&mut one);
    let mut other = fill();
    let other_stops: Vec<Shutdown> = take_typed(&mut other);
    let other_frames: Vec<FrameReady<u32>> = take_typed(&mut other);
    assert_eq!(fds(&one_frames), fds(&other_frames));
    assert_eq!(one_stops, other_stops);
    assert_eq!(names(&one), names(&other));
    assert_eq!(names(&one), vec!["tick", "ready"]);
}

#[test]
fn taking_everything_empties_the_queue() {
    let mut queue: VecDeque<Signal<u32>> = VecDeque::new();
    send(&mut queue, frame(1));
    send(&mut queue, RenderTick);
    let taken = take_all(&mut queue);
    assert_eq!(names(&taken), vec!["frame 1", "tick"]);
    assert!(queue.is_empty());
    assert!(take_all(&mut queue).is_empty());
}

#[test]
fn waiting_goes_on_only_while_there_is_nothing() {
    let mut queue: VecDeque<Signal<u32>> = VecDeque::new();
    let mut change = Some(|queue: &mut VecDeque<Signal<u32>>| take_all(queue).len());
    let mut result = None;
    assert!(keep_waiting(&mut queue, &mut change, &mut result));
    assert!(change.is_some());
    assert_eq!(result, None);
    send(&mut queue, RenderTick);
    send(&mut queue, RenderTick);
    assert!(!keep_waiting(&mut queue, &mut change, &mut result));
    assert!(change.is_none());
    assert_eq!(result, Some(2));
    assert!(queue.is_empty());
    send(&mut queue, RenderTick);
    assert!(!keep_waiting(&mut queue, &mut change, &mut result));
    assert_eq!(result, Some(2));
    assert_eq!(names(&queue), vec!["tick"]);
}

#[test]
fn messages_of_a_kind_can_be_unpacked_later() {
    let mut queue: VecDeque<Signal<u32>> = VecDeque::new();
    send(&mut queue, frame(1));
    send(&mut queue, Shutdown);
    send(&mut queue, frame(2));
    let taken = take_kind(&mut queue, FRAME_READY);
    assert_eq!(names(&taken), vec!["frame 1", "frame 2"]);
    assert_eq!(names(&queue), vec!["shutdown"]);
    let frames: Vec<FrameReady<u32>> = unpack(taken);
    assert_eq!(fds(&frames), vec![1, 2]);
}

#[test]
fn a_type_comes_out_in_the_order_of_sending_however_it_is_taken() {
    let mut queue: VecDeque<Signal<u32>> = VecDeque::new();
    let mut out: Vec<u32> = vec![];
    send(&mut queue, frame(1));
    send(&mut queue, RenderTick);
    send(&mut queue, frame(2));
    let frames: Vec<FrameReady<u32>> = take_typed(&mut queue);
    out.extend(fds(&frames));
    send(&mut queue, frame(3));
    let ticks: Vec<RenderTick> = take_typed(&mut queue);
    assert_eq!(ticks.len(), 1);
    send(&mut queue, frame(4));
    for signal in take_all(&mut queue) {
        if let Signal::FrameReady(frame) = signal {
            out.push(frame.fd);
        }
    }
    send(&mut queue, frame(5));
    assert_eq!(out, vec![1, 2, 3, 4]);
    assert_eq!(names(&queue), vec!["frame 5"]);
}
