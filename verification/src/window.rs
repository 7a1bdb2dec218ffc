//! The window: which protocol objects it binds, and how a frame becomes a
//! buffer.

use crate::signals::FrameReady;
use vstd::prelude::*;

verus! {

/// The highest version that is bound of the compositor and of the buffer
/// factory.
pub const MAX_VERSION: u32 = 4;

/// The number that the bits of `value` stand for if the highest one is a sign.
pub open spec fn signed(value: u32) -> int {
    if value < 0x8000_0000 {
        value as int
    } else {
        value - 0x1_0000_0000
    }
}

/// Reads the bits of a number as a signed number.
pub fn reinterpret(value: u32) -> (result: i32)
    ensures
        result == signed(value),
{
    assert(value < 0x8000_0000u32 ==> #[verifier::truncate] (value as i32) == value)
        by (bit_vector);
    assert(value >= 0x8000_0000u32 ==> #[verifier::truncate] (value as i32) == value
        - 0x1_0000_0000) by (bit_vector);
    #[verifier::truncate] (value as i32)
}

/// Splits a format modifier into its upper and its lower half.
pub fn split_modifier(modifier: u64) -> (halves: (u32, u32))
    ensures
        halves.0 == modifier / 0x1_0000_0000,
        halves.1 == modifier % 0x1_0000_0000,
        halves.0 * 0x1_0000_0000 + halves.1 == modifier,
{
    let high: u64 = modifier >> 32;
    assert(high == modifier / 0x1_0000_0000 && #[verifier::truncate] (modifier as u32) == modifier
        % 0x1_0000_0000) by (bit_vector)
        requires
            high == modifier >> 32,
    ;
    (high as u32, #[verifier::truncate] (modifier as u32))
}

/// A global to bind: its name, and the version to ask for.
#[derive(Clone, Copy, Debug, PartialEq, Eq, Structural)]
pub struct Binding {
    pub name: u32,
    pub version: u32,
}

/// The globals that a window needs.
#[derive(Clone, Copy, Debug, PartialEq, Eq, Structural)]
pub struct Bindings {
    pub compositor: Binding,
    pub wm_base: Binding,
    pub dmabuf: Binding,
}

/// The version to bind of a global that is there in the given version.
pub open spec fn bound_version(advertised: u32) -> u32 {
    if advertised < MAX_VERSION {
        advertised
    } else {
        MAX_VERSION
    }
}

/// What to bind, given the name and the version under which each global was
/// announced.
pub fn bindings(compositor: (u32, u32), wm_base: (u32, u32), dmabuf: (u32, u32)) -> (r: Bindings)
    ensures
        r.compositor == (Binding {
            name: compositor.0,
            version: bound_version(compositor.1),
        }),
        r.wm_base == (Binding { name: wm_base.0, version: 1 }),
        r.dmabuf == (Binding { name: dmabuf.0, version: bound_version(dmabuf.1) }),
{
    Bindings {
        compositor: Binding { name: compositor.0, version: at_most_max(compositor.1) },
        wm_base: Binding { name: wm_base.0, version: 1 },
        dmabuf: Binding { name: dmabuf.0, version: at_most_max(dmabuf.1) },
    }
}

fn at_most_max(version: u32) -> (r: u32)
    ensures
        r == bound_version(version),
{
    if version < MAX_VERSION {
        version
    } else {
        MAX_VERSION
    }
}

/// What the buffer of a window is made from.
#[derive(Debug)]
pub struct BufferRequest<Fd> {
    pub fd: Fd,
    pub plane: u32,
    pub offset: u32,
    pub stride: u32,
    pub modifier_high: u32,
    pub modifier_low: u32,
    pub width: i32,
    pub height: i32,
    pub format: u32,
    pub flags: u32,
}

/// The buffer that a frame needs: one plane, no flags, and the modifier in two
/// halves.
pub open spec fn spec_buffer_request<Fd>(frame: FrameReady<Fd>) -> BufferRequest<Fd> {
    BufferRequest {
        fd: frame.fd,
        plane: 0,
        offset: frame.offset,
        stride: frame.stride,
        modifier_high: (frame.modifier / 0x1_0000_0000) as u32,
        modifier_low: (frame.modifier % 0x1_0000_0000) as u32,
        width: frame.width,
        height: frame.height,
        format: frame.format,
        flags: 0,
    }
}

/// Describes the buffer that a frame needs.
pub fn buffer_request<Fd>(frame: FrameReady<Fd>) -> (request: BufferRequest<Fd>)
    ensures
        request == spec_buffer_request(frame),
{
    let (modifier_high, modifier_low) = split_modifier(frame.modifier);
    BufferRequest {
        fd: frame.fd,
        plane: 0,
        offset: frame.offset,
        stride: frame.stride,
        modifier_high,
        modifier_low,
        width: frame.width,
        height: frame.height,
        format: frame.format,
        flags: 0,
    }
}

} // verus!
