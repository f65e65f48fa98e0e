//! A stand-in embedding for trying the pipeline without a model: the mean
//! colour of a frame, as the three sums it is the quotient of.

use crate::frame::{lemma_small_resize_fits, resized_frame, Frame, FrameView, ResizeFilter};
use vstd::prelude::*;

verus! {

/// Side of the square that a frame is reduced to before its colours are
/// summed.
pub const DUMMY_SIDE: u32 = 32;

/// The sums of the red, green and blue samples of a raster, and the number
/// of pixels summed.
#[derive(Clone, Copy, Debug, PartialEq, Eq, Structural)]
pub struct ChannelSums {
    pub red: u64,
    pub green: u64,
    pub blue: u64,
    pub pixels: u64,
}

/// The sum of one channel over the first `pixels` pixels of an RGB raster.
pub open spec fn channel_sum(samples: Seq<u8>, channel: int, pixels: nat) -> nat
    decreases pixels,
{
    if pixels == 0 {
        0
    } else {
        channel_sum(samples, channel, (pixels - 1) as nat) + samples[3 * (pixels - 1)
            + channel] as nat
    }
}

/// The sums of all three channels over every whole pixel of a raster.
pub open spec fn sums_of(samples: Seq<u8>) -> ChannelSums {
    let pixels = samples.len() / 3;
    ChannelSums {
        red: channel_sum(samples, 0, pixels) as u64,
        green: channel_sum(samples, 1, pixels) as u64,
        blue: channel_sum(samples, 2, pixels) as u64,
        pixels: pixels as u64,
    }
}

/// A sum of samples is at most 255 for each pixel.
pub proof fn lemma_channel_sum_bound(samples: Seq<u8>, channel: int, pixels: nat)
    ensures
        channel_sum(samples, channel, pixels) <= 255 * pixels,
    decreases pixels,
{
    if pixels > 0 {
        lemma_channel_sum_bound(samples, channel, (pixels - 1) as nat);
    }
}

/// Sums each channel of an RGB raster over its whole pixels.
pub fn channel_sums(samples: &[u8]) -> (sums: ChannelSums)
    requires
        255 * (samples@.len() / 3) <= u64::MAX,
    ensures
        sums == sums_of(samples@),
        sums.red == channel_sum(samples@, 0, samples@.len() / 3),
        sums.green == channel_sum(samples@, 1, samples@.len() / 3),
        sums.blue == channel_sum(samples@, 2, samples@.len() / 3),
        sums.pixels == samples@.len() / 3,
{
    let len = samples.len();
    let count = len / 3;
    let mut red: u64 = 0;
    let mut green: u64 = 0;
    let mut blue: u64 = 0;
    let mut i: usize = 0;
    while i < count
        invariant
            i <= count,
            len == samples@.len(),
            count == len / 3,
            255 * count <= u64::MAX,
            red == channel_sum(samples@, 0, i as nat),
            green == channel_sum(samples@, 1, i as nat),
            blue == channel_sum(samples@, 2, i as nat),
        decreases count - i,
    {
        proof {
            lemma_channel_sum_bound(samples@, 0, i as nat);
            lemma_channel_sum_bound(samples@, 1, i as nat);
            lemma_channel_sum_bound(samples@, 2, i as nat);
        }
        red = red + samples[3 * i] as u64;
        green = green + samples[3 * i + 1] as u64;
        blue = blue + samples[3 * i + 2] as u64;
        i += 1;
    }
    proof {
        lemma_channel_sum_bound(samples@, 0, count as nat);
        lemma_channel_sum_bound(samples@, 1, count as nat);
        lemma_channel_sum_bound(samples@, 2, count as nat);
    }
    ChannelSums { red, green, blue, pixels: count as u64 }
}

/// The channel sums of the stand-in embedding of `frame`: the frame is
/// reduced to 32 by 32 pixels with the triangle filter, and each channel is
/// summed over the 1024 pixels.
pub open spec fn dummy_sums_of(frame: FrameView) -> ChannelSums {
    sums_of(resized_frame(frame, DUMMY_SIDE, DUMMY_SIDE, ResizeFilter::Triangle).pixels)
}

/// Computes the channel sums of the stand-in embedding. The embedding is the
/// three sums, each divided by the number of pixels.
pub fn dummy_embedding_sums(frame: &Frame) -> (sums: ChannelSums)
    ensures
        sums == dummy_sums_of(frame@),
        sums.pixels == 1024,
        sums.red <= 255 * 1024,
        sums.green <= 255 * 1024,
        sums.blue <= 255 * 1024,
{
    proof {
        use_type_invariant(frame);
        lemma_small_resize_fits(frame@.width, DUMMY_SIDE as nat, DUMMY_SIDE as nat);
    }
    let reduced = frame.resize_exact(DUMMY_SIDE, DUMMY_SIDE, ResizeFilter::Triangle);
    let samples = reduced.pixels();
    proof {
        lemma_channel_sum_bound(samples@, 0, 1024);
        lemma_channel_sum_bound(samples@, 1, 1024);
        lemma_channel_sum_bound(samples@, 2, 1024);
    }
    channel_sums(samples)
}

} // verus!
