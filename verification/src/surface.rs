use crate::frame::{RenderPhase, SyncRing};
use vstd::prelude::*;

verus! {

/// A color format / color space pair as the device reports it, by the
/// numeric codes of the graphics API.
#[derive(Debug, Copy, Clone, Eq, PartialEq, Structural)]
pub struct SurfaceFormat {
    pub format: i32,
    pub color_space: i32,
}

/// The device-reported surface capabilities the building step consults.
#[derive(Debug, Copy, Clone, Eq, PartialEq, Structural)]
pub struct SurfaceCaps {
    pub min_image_count: u32,
    pub max_image_count: u32,
    pub min_width: u32,
    pub max_width: u32,
    pub min_height: u32,
    pub max_height: u32,
}

/// The numeric code of the 24-bit sRGB color format preferred for the
/// swapchain.
pub const FORMAT_B8G8R8A8_SRGB: i32 = 50;

/// The numeric code of the nonlinear sRGB color space.
pub const COLOR_SPACE_SRGB_NONLINEAR: i32 = 0;

/// The numeric code of the triple-buffer-capable present mode preferred
/// for the swapchain.
pub const PRESENT_MODE_MAILBOX: i32 = 1;

/// The numeric code of the present mode every device guarantees.
pub const PRESENT_MODE_FIFO: i32 = 2;

/// The preferred surface format: 24-bit sRGB color in the nonlinear sRGB
/// color space.
pub open spec fn preferred_format() -> SurfaceFormat {
    SurfaceFormat { format: FORMAT_B8G8R8A8_SRGB, color_space: COLOR_SPACE_SRGB_NONLINEAR }
}

/// A value clamped into an inclusive range.
pub open spec fn clamped(v: int, lo: int, hi: int) -> int {
    if v < lo {
        lo
    } else if v > hi {
        hi
    } else {
        v
    }
}

/// The surface caps are coherent: each reported minimum is at most the
/// matching maximum.
pub open spec fn caps_wf(caps: SurfaceCaps) -> bool {
    &&& caps.min_width <= caps.max_width
    &&& caps.min_height <= caps.max_height
    &&& caps.min_image_count < u32::MAX
}

/// Pick the surface format: the preferred sRGB pair when the device
/// reports it, else the first reported format.
pub fn choose_surface_format(formats: &Vec<SurfaceFormat>) -> (r: SurfaceFormat)
    requires
        formats@.len() > 0,
    ensures
        r == (if formats@.contains(preferred_format()) {
            preferred_format()
        } else {
            formats@[0]
        }),
{
    let n = formats.len();
    for i in 0..n
        invariant
            n == formats@.len(),
            forall|j: int| 0 <= j < i ==> formats@[j] != preferred_format(),
    {
        let f = formats[i];
        if f.format == FORMAT_B8G8R8A8_SRGB && f.color_space == COLOR_SPACE_SRGB_NONLINEAR {
            proof {
                assert(formats@[i as int] == preferred_format());
            }
            return f;
        }
    }
    proof {
        if formats@.contains(preferred_format()) {
            let j = choose|j: int| 0 <= j < formats@.len() && formats@[j] == preferred_format();
        }
    }
    formats[0]
}

/// Pick the present mode: the triple-buffer-capable mode when the device
/// reports it, else the guaranteed fallback.
pub fn choose_present_mode(modes: &Vec<i32>) -> (r: i32)
    ensures
        r == (if modes@.contains(PRESENT_MODE_MAILBOX) {
            PRESENT_MODE_MAILBOX
        } else {
            PRESENT_MODE_FIFO
        }),
{
    let n = modes.len();
    for i in 0..n
        invariant
            n == modes@.len(),
            forall|j: int| 0 <= j < i ==> modes@[j] != PRESENT_MODE_MAILBOX,
    {
        if modes[i] == PRESENT_MODE_MAILBOX {
            proof {
                assert(modes@[i as int] == PRESENT_MODE_MAILBOX);
            }
            return PRESENT_MODE_MAILBOX;
        }
    }
    proof {
        if modes@.contains(PRESENT_MODE_MAILBOX) {
            let j = choose|j: int| 0 <= j < modes@.len() && modes@[j] == PRESENT_MODE_MAILBOX;
        }
    }
    PRESENT_MODE_FIFO
}

/// Clamp a requested extent into the device-reported bounds.
pub fn clamp_extent(width: u32, height: u32, caps: &SurfaceCaps) -> (r: (u32, u32))
    requires
        caps_wf(*caps),
    ensures
        r.0 == clamped(width as int, caps.min_width as int, caps.max_width as int),
        r.1 == clamped(height as int, caps.min_height as int, caps.max_height as int),
{
    let w = if width < caps.min_width {
        caps.min_width
    } else if width > caps.max_width {
        caps.max_width
    } else {
        width
    };
    let h = if height < caps.min_height {
        caps.min_height
    } else if height > caps.max_height {
        caps.max_height
    } else {
        height
    };
    (w, h)
}

/// The image count asked of the swapchain: one more than the reported
/// minimum, capped at the reported maximum.
pub fn swapchain_image_count(caps: &SurfaceCaps) -> (r: u32)
    requires
        caps_wf(*caps),
    ensures
        r == (if caps.min_image_count + 1 <= caps.max_image_count {
            caps.min_image_count + 1
        } else {
            caps.max_image_count as int
        }),
{
    let wanted = caps.min_image_count + 1;
    if wanted <= caps.max_image_count {
        wanted
    } else {
        caps.max_image_count
    }
}

/// The presentation surface's chosen configuration together with its
/// frame synchronization ring.
///
/// Building queries the device (done by the caller) and picks the format,
/// present mode and extent here; the caller then creates the swapchain and
/// reports how many presentable images it got, which sizes the ring's
/// per-image bookkeeping.
pub struct Swapchain {
    /// The chosen color format and color space.
    pub format: SurfaceFormat,
    /// The chosen present mode.
    pub present_mode: i32,
    /// The extent, clamped into the device-reported bounds.
    pub extent: (u32, u32),
    /// The frame synchronization ring.
    pub ring: SyncRing,
}

impl Swapchain {
    /// The building step's decisions, with a fresh synchronization ring of
    /// `slots` frame-in-flight slots over `images` presentable images.
    pub fn new(
        formats: &Vec<SurfaceFormat>,
        modes: &Vec<i32>,
        caps: &SurfaceCaps,
        width: u32,
        height: u32,
        images: usize,
        slots: usize,
    ) -> (r: Swapchain)
        requires
            formats@.len() > 0,
            caps_wf(*caps),
            1 <= slots,
        ensures
            r.format == (if formats@.contains(preferred_format()) {
                preferred_format()
            } else {
                formats@[0]
            }),
            r.present_mode == (if modes@.contains(PRESENT_MODE_MAILBOX) {
                PRESENT_MODE_MAILBOX
            } else {
                PRESENT_MODE_FIFO
            }),
            r.extent.0 == clamped(width as int, caps.min_width as int, caps.max_width as int),
            r.extent.1 == clamped(height as int, caps.min_height as int, caps.max_height as int),
            r.ring.wf(),
            r.ring.fences@.len() == slots,
            forall|s: int|
                0 <= s < slots ==> r.ring.fences@[s] == crate::frame::FenceState::Signaled,
            r.ring.image_slot@.len() == images,
            forall|i: int| 0 <= i < images ==> r.ring.image_slot@[i] is None,
            r.ring.current == 0,
            r.ring.phase == RenderPhase::Idle,
    {
        Swapchain {
            format: choose_surface_format(formats),
            present_mode: choose_present_mode(modes),
            extent: clamp_extent(width, height, caps),
            ring: SyncRing::new(slots, images),
        }
    }

    /// Rebuild after invalidation: the replacement is constructed fully and
    /// then moved into place, so the surface is never half-built. The old
    /// ring is dropped whole; the caller must have waited for the device to
    /// go idle, and must recreate the fences and semaphores alongside.
    pub fn rebuild(
        &mut self,
        formats: &Vec<SurfaceFormat>,
        modes: &Vec<i32>,
        caps: &SurfaceCaps,
        width: u32,
        height: u32,
        images: usize,
        slots: usize,
    )
        requires
            formats@.len() > 0,
            caps_wf(*caps),
            1 <= slots,
        ensures
            final(self).format == (if formats@.contains(preferred_format()) {
                preferred_format()
            } else {
                formats@[0]
            }),
            final(self).present_mode == (if modes@.contains(PRESENT_MODE_MAILBOX) {
                PRESENT_MODE_MAILBOX
            } else {
                PRESENT_MODE_FIFO
            }),
            final(self).extent.0 == clamped(
                width as int,
                caps.min_width as int,
                caps.max_width as int,
            ),
            final(self).extent.1 == clamped(
                height as int,
                caps.min_height as int,
                caps.max_height as int,
            ),
            final(self).ring.wf(),
            final(self).ring.fences@.len() == slots,
            forall|s: int|
                0 <= s < slots ==> final(self).ring.fences@[s]
                    == crate::frame::FenceState::Signaled,
            final(self).ring.image_slot@.len() == images,
            forall|i: int| 0 <= i < images ==> final(self).ring.image_slot@[i] is None,
            final(self).ring.current == 0,
            final(self).ring.phase == RenderPhase::Idle,
    {
        *self = Swapchain::new(formats, modes, caps, width, height, images, slots);
    }
}

} // verus!
