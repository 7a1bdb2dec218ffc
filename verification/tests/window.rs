use mecha_launcher::signals::FrameReady;
use mecha_launcher::window::{bindings, buffer_request, reinterpret, split_modifier, Binding};

#[test]
fn a_modifier_splits_into_halves() {
    assert_eq!(split_modifier(0), (0, 0));
    assert_eq!(split_modifier(0x0123_4567_89ab_cdef), (0x0123_4567, 0x89ab_cdef));
    assert_eq!(split_modifier(u64::MAX), (u32::MAX, u32::MAX));
    assert_eq!(split_modifier(1 << 32), (1, 0));
}

#[test]
fn sizes_are_read_as_signed_numbers() {
    assert_eq!(reinterpret(1028), 1028);
    assert_eq!(reinterpret(0x7fff_ffff), i32::MAX);
    assert_eq!(reinterpret(0x8000_0000), i32::MIN);
    assert_eq!(reinterpret(u32::MAX), -1);
}

#[test]
fn versions_are_bound_up_to_four() {
    let bound = bindings((10, 6), (11, 5), (12, 3));
    assert_eq!(bound.compositor, Binding { name: 10, version: 4 });
    assert_eq!(bound.wm_base, Binding { name: 11, version: 1 });
    assert_eq!(bound.dmabuf, Binding { name: 12, version: 3 });
    let bound = bindings((1, 4), (2, 1), (3, 5));
    assert_eq!(bound.compositor.version, 4);
    assert_eq!(bound.dmabuf.version, 4);
    assert_eq!(bindings((1, 1), (2, 1), (3, 0)).dmabuf.version, 0);
}

#[test]
fn a_buffer_is_made_from_its_frame() {
    let request = buffer_request(FrameReady {
        fd: "memory",
        stride: 4096,
        offset: 64,
        format: 0x3432_5258,
        modifier: 0x0300_0000_0060_6014,
        width: 1028,
        height: 1080,
    });
    assert_eq!(request.fd, "memory");
    assert_eq!((request.plane, request.flags), (0, 0));
    assert_eq!((request.offset, request.stride), (64, 4096));
    assert_eq!((request.modifier_high, request.modifier_low), (0x0300_0000, 0x0060_6014));
    assert_eq!((request.width, request.height), (1028, 1080));
    assert_eq!(request.format, 0x3432_5258);
}
