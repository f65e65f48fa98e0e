//! The display loop's side of the pipeline: what is put on the render
//! surface, and when the loop ends.

use crate::frame::{lemma_small_resize_fits, resized_frame, Frame, FrameView, ResizeFilter};
use vstd::prelude::*;

verus! {

/// Width of the render surface in pixels.
pub const SURFACE_WIDTH: u32 = 640;

/// Height of the render surface in pixels.
pub const SURFACE_HEIGHT: u32 = 480;

/// Number of pixels of the render surface.
pub const SURFACE_PIXELS: usize = 307_200;

/// Pause between two renderings, in milliseconds: about thirty a second.
pub const RENDER_PAUSE_MILLIS: u64 = 33;

/// One pixel of the surface: red, green and blue in the three low bytes, the
/// high byte zero.
pub open spec fn packed(red: u8, green: u8, blue: u8) -> u32 {
    (red * 65536 + green * 256 + blue) as u32
}

/// The surface pixels of an RGB raster: one for every three samples.
pub open spec fn packed_pixels(samples: Seq<u8>) -> Seq<u32> {
    Seq::new(
        samples.len() / 3,
        |i: int| packed(samples[3 * i], samples[3 * i + 1], samples[3 * i + 2]),
    )
}

/// The three colours can be read back from a pixel, and the high byte of a
/// pixel is zero.
pub proof fn lemma_packed_components(red: u8, green: u8, blue: u8)
    ensures
        packed(red, green, blue) / 65536 == red,
        (packed(red, green, blue) / 256) % 256 == green,
        packed(red, green, blue) % 256 == blue,
        packed(red, green, blue) < 0x0100_0000,
{
}

/// Packs one pixel.
pub fn pack_pixel(red: u8, green: u8, blue: u8) -> (pixel: u32)
    ensures
        pixel == packed(red, green, blue),
{
    let pixel = ((red as u32) << 16) | ((green as u32) << 8) | (blue as u32);
    assert(pixel == red * 65536 + green * 256 + blue) by (bit_vector)
        requires
            pixel == ((red as u32) << 16) | ((green as u32) << 8) | (blue as u32),
    ;
    pixel
}

/// Packs an RGB raster into surface pixels. Samples behind the last complete
/// pixel are left out.
pub fn pack_pixels(samples: &[u8]) -> (pixels: Vec<u32>)
    ensures
        pixels@ == packed_pixels(samples@),
{
    let len = samples.len();
    let count = len / 3;
    let mut pixels: Vec<u32> = Vec::with_capacity(count);
    let mut i: usize = 0;
    while i < count
        invariant
            i <= count,
            len == samples@.len(),
            count == len / 3,
            pixels@.len() == i,
            forall|k: int|
                0 <= k < i ==> pixels@[k] == packed(
                    samples@[3 * k],
                    samples@[3 * k + 1],
                    samples@[3 * k + 2],
                ),
        decreases count - i,
    {
        let pixel = pack_pixel(samples[3 * i], samples[3 * i + 1], samples[3 * i + 2]);
        pixels.push(pixel);
        i += 1;
    }
    assert(pixels@ =~= packed_pixels(samples@));
    pixels
}

/// What the surface shows: the frame, stretched to the surface without
/// regard to its aspect ratio, or black where there is no frame.
pub open spec fn surface_of(frame: Option<FrameView>) -> Seq<u32> {
    match frame {
        Some(f) => packed_pixels(
            resized_frame(f, SURFACE_WIDTH, SURFACE_HEIGHT, ResizeFilter::Nearest).pixels,
        ),
        None => Seq::new(SURFACE_PIXELS as nat, |i: int| 0u32),
    }
}

/// A frame handed to the display, taken by its view.
pub open spec fn shown_view(frame: Option<&Frame>) -> Option<FrameView> {
    match frame {
        Some(f) => Some(f@),
        None => None,
    }
}

/// The pixel buffer to present: one pixel for each pixel of the surface.
pub fn surface_pixels(frame: Option<&Frame>) -> (pixels: Vec<u32>)
    ensures
        pixels@ == surface_of(shown_view(frame)),
        pixels@.len() == SURFACE_PIXELS,
{
    match frame {
        Some(f) => {
            proof {
                use_type_invariant(f);
                lemma_small_resize_fits(f@.width, SURFACE_WIDTH as nat, SURFACE_HEIGHT as nat);
            }
            let stretched = f.resize_exact(SURFACE_WIDTH, SURFACE_HEIGHT, ResizeFilter::Nearest);
            pack_pixels(stretched.pixels())
        },
        None => {
            let pixels = vec![0u32; SURFACE_PIXELS];
            assert(pixels@ =~= Seq::new(SURFACE_PIXELS as nat, |i: int| 0u32));
            pixels
        },
    }
}

/// What the display loop does next.
#[derive(Clone, Copy, Debug, PartialEq, Eq, Structural)]
pub enum DisplayAction {
    /// Leave the loop.
    Stop,
    /// Read the cache without waiting and present what it gave.
    Render,
    /// Sleep for this many milliseconds, then poll again.
    Pause(u64),
}

/// The display loop, without the surface.
pub struct DisplayLoop {
    stopped: bool,
}

impl View for DisplayLoop {
    /// Whether the loop has been left.
    type V = bool;

    closed spec fn view(&self) -> bool {
        self.stopped
    }
}

/// The loop's rule at the head of an iteration: it goes on to render only
/// while it has not been left, the surface is open, the operator has not
/// asked to quit, and no shutdown signal was raised.
pub open spec fn display_poll(
    stopped: bool,
    surface_open: bool,
    quit_requested: bool,
    shutdown: bool,
) -> (bool, DisplayAction) {
    if !stopped && surface_open && !quit_requested && !shutdown {
        (false, DisplayAction::Render)
    } else {
        (true, DisplayAction::Stop)
    }
}

/// The loop's rule after a rendering: a failure of the surface ends the loop,
/// a success is followed by the pause.
pub open spec fn display_rendered(stopped: bool, presented: bool) -> (bool, DisplayAction) {
    if !stopped && presented {
        (false, DisplayAction::Pause(RENDER_PAUSE_MILLIS))
    } else {
        (true, DisplayAction::Stop)
    }
}

impl DisplayLoop {
    /// A loop that has not been left.
    pub fn new() -> (display: DisplayLoop)
        ensures
            !display@,
    {
        DisplayLoop { stopped: false }
    }

    /// Whether the loop has been left.
    pub fn is_stopped(&self) -> (stopped: bool)
        ensures
            stopped == self@,
    {
        self.stopped
    }

    /// Decides at the head of an iteration whether to render or to leave.
    pub fn poll(&mut self, surface_open: bool, quit_requested: bool, shutdown: bool) -> (action:
        DisplayAction)
        ensures
            (final(self)@, action) == display_poll(
                old(self)@,
                surface_open,
                quit_requested,
                shutdown,
            ),
    {
        if !self.stopped && surface_open && !quit_requested && !shutdown {
            DisplayAction::Render
        } else {
            self.stopped = true;
            DisplayAction::Stop
        }
    }

    /// Decides after a rendering whether to pause or to leave.
    pub fn rendered(&mut self, presented: bool) -> (action: DisplayAction)
        ensures
            (final(self)@, action) == display_rendered(old(self)@, presented),
    {
        if !self.stopped && presented {
            DisplayAction::Pause(RENDER_PAUSE_MILLIS)
        } else {
            self.stopped = true;
            DisplayAction::Stop
        }
    }
}

} // verus!
