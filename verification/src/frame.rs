//! Decoded frames: an RGB raster with its dimensions, and the decoding of a
//! JPEG byte range into one.

use vstd::prelude::*;

verus! {

/// Bytes per pixel of a frame: red, green, blue.
pub const CHANNELS: usize = 3;

/// The largest width or height that a JPEG image can have.
pub const MAX_DIMENSION: u32 = 65535;

/// A JPEG byte range shorter than this is rejected before any decoding.
pub const MIN_JPEG_LEN: usize = 10;

/// What a frame is: its dimensions in pixels and its samples, row by row,
/// three bytes per pixel.
pub struct FrameView {
    pub width: nat,
    pub height: nat,
    pub pixels: Seq<u8>,
}

impl FrameView {
    /// The raster is complete: it holds exactly three bytes for each pixel of
    /// a `width` by `height` image, and neither side exceeds what JPEG allows.
    pub open spec fn wf(self) -> bool {
        &&& self.width <= MAX_DIMENSION
        &&& self.height <= MAX_DIMENSION
        &&& self.pixels.len() == CHANNELS * self.width * self.height
    }
}

/// The raster with the given dimensions and samples.
pub open spec fn raster(width: u32, height: u32, pixels: Seq<u8>) -> FrameView {
    FrameView { width: width as nat, height: height as nat, pixels }
}

/// A fully decoded image. Every value of this type is a complete raster: a
/// frame with missing or surplus samples cannot be built.
pub struct Frame {
    width: u32,
    height: u32,
    pixels: Vec<u8>,
}

impl View for Frame {
    type V = FrameView;

    closed spec fn view(&self) -> FrameView {
        FrameView {
            width: self.width as nat,
            height: self.height as nat,
            pixels: self.pixels@,
        }
    }
}

/// Number of bytes of a `width` by `height` raster.
fn raster_len(width: u32, height: u32) -> (len: u64)
    requires
        width <= MAX_DIMENSION,
        height <= MAX_DIMENSION,
    ensures
        len == CHANNELS * width * height,
{
    assert(width * height <= 65535 * 65535) by (nonlinear_arith)
        requires
            width <= 65535,
            height <= 65535,
    ;
    let area: u64 = (width as u64) * (height as u64);
    assert(3 * (width * height) == 3 * width * height) by (nonlinear_arith);
    3 * area
}

impl Frame {
    /// Every frame is a complete raster.
    #[verifier::type_invariant]
    pub open spec fn complete(self) -> bool {
        self@.wf()
    }

    /// Builds a frame from its dimensions and samples. The three are accepted
    /// exactly when they form a complete raster.
    pub fn from_raw(width: u32, height: u32, pixels: Vec<u8>) -> (frame: Option<Frame>)
        ensures
            match frame {
                Some(f) => f@.wf() && f@ == raster(width, height, pixels@),
                None => !raster(width, height, pixels@).wf(),
            },
    {
        if width > MAX_DIMENSION || height > MAX_DIMENSION {
            return None;
        }
        if pixels.len() as u64 != raster_len(width, height) {
            return None;
        }
        Some(Frame { width, height, pixels })
    }

    /// Width in pixels.
    pub fn width(&self) -> (w: u32)
        ensures
            w == self@.width,
            self@.wf(),
    {
        proof {
            use_type_invariant(self);
        }
        self.width
    }

    /// Height in pixels.
    pub fn height(&self) -> (h: u32)
        ensures
            h == self@.height,
            self@.wf(),
    {
        proof {
            use_type_invariant(self);
        }
        self.height
    }

    /// The samples, row by row, three bytes per pixel.
    pub fn pixels(&self) -> (p: &[u8])
        ensures
            p@ == self@.pixels,
            self@.wf(),
    {
        proof {
            use_type_invariant(self);
        }
        self.pixels.as_slice()
    }

    /// Gives up the frame for its samples.
    pub fn into_raw(self) -> (p: Vec<u8>)
        ensures
            p@ == self@.pixels,
    {
        self.pixels
    }
}

/// How a resized raster is sampled from its source.
#[derive(Clone, Copy, Debug, PartialEq, Eq, Structural)]
pub enum ResizeFilter {
    /// Each new pixel takes the nearest source pixel.
    Nearest,
    /// Each new pixel is interpolated linearly from its neighbours.
    Triangle,
}

/// Bytes that the resizing holds of each pixel between its two passes: four
/// channels of four bytes.
pub const PASS_BYTES: usize = 16;

/// Resizing a raster of this width to these sides stays within the machine:
/// the new sides are sides of a frame, and neither the new raster nor the
/// buffer between the two passes of the resizing, which has the old width
/// and the new height, holds more bytes than one allocation may.
pub open spec fn resize_fits(width: nat, new_width: nat, new_height: nat) -> bool {
    &&& new_width <= MAX_DIMENSION
    &&& new_height <= MAX_DIMENSION
    &&& CHANNELS * new_width * new_height <= isize::MAX
    &&& PASS_BYTES * width * new_height <= isize::MAX
}

/// Resizing a frame to sides of at most 1024 pixels fits every machine.
pub proof fn lemma_small_resize_fits(width: nat, new_width: nat, new_height: nat)
    requires
        width <= MAX_DIMENSION,
        new_width <= 1024,
        new_height <= 1024,
    ensures
        resize_fits(width, new_width, new_height),
{
    assert(new_width * new_height <= 1024 * 1024) by (nonlinear_arith)
        requires
            new_width <= 1024,
            new_height <= 1024,
    ;
    assert(width * new_height <= 65535 * 1024) by (nonlinear_arith)
        requires
            width <= 65535,
            new_height <= 1024,
    ;
    assert(CHANNELS * new_width * new_height == 3 * (new_width * new_height))
        by (nonlinear_arith);
    assert(PASS_BYTES * width * new_height == 16 * (width * new_height)) by (nonlinear_arith);
}

/// The samples that `image::imageops::resize` produces for an RGB raster,
/// new dimensions and a filter. To name them is to take them for a function
/// of these arguments: the sampling is single-precision arithmetic in one
/// thread, by the same code on every processor.
pub uninterp spec fn resized(
    width: nat,
    height: nat,
    pixels: Seq<u8>,
    new_width: nat,
    new_height: nat,
    filter: ResizeFilter,
) -> Seq<u8>;

/// The frame that resizing `frame` gives.
pub open spec fn resized_frame(
    frame: FrameView,
    new_width: u32,
    new_height: u32,
    filter: ResizeFilter,
) -> FrameView {
    FrameView {
        width: new_width as nat,
        height: new_height as nat,
        pixels: resized(
            frame.width,
            frame.height,
            frame.pixels,
            new_width as nat,
            new_height as nat,
            filter,
        ),
    }
}

/// Calls `image::imageops::resize` on the raster, with the filter of the
/// `image` crate that `filter` stands for. Trusted: the result is the one
/// that `resized` names, and it holds three samples for each pixel of the new
/// dimensions. The raster has to be complete, or the `image` crate would not
/// take it, and the resizing has to fit, or its buffers could not be made.
#[verifier::external_body]
fn resize_raster(
    width: u32,
    height: u32,
    pixels: &[u8],
    new_width: u32,
    new_height: u32,
    filter: ResizeFilter,
) -> (samples: Vec<u8>)
    requires
        raster(width, height, pixels@).wf(),
        resize_fits(width as nat, new_width as nat, new_height as nat),
    ensures
        samples@ == resized(
            width as nat,
            height as nat,
            pixels@,
            new_width as nat,
            new_height as nat,
            filter,
        ),
        samples@.len() == CHANNELS * new_width * new_height,
{
    let source = image::ImageBuffer::<image::Rgb<u8>, &[u8]>::from_raw(width, height, pixels).unwrap();
    let filter = match filter {
        ResizeFilter::Nearest => image::imageops::FilterType::Nearest,
        ResizeFilter::Triangle => image::imageops::FilterType::Triangle,
    };
    image::imageops::resize(&source, new_width, new_height, filter).into_raw()
}

/// An upper bound of one side of the raster that fills the new dimensions
/// before it is cropped to them: that side is the new side, or the old side
/// scaled as the other side is, rounded to a whole number.
pub open spec fn fill_side(side: nat, other: nat, new_side: nat, new_other: nat) -> nat {
    if new_side >= side * new_other / other {
        new_side + 1
    } else {
        side * new_other / other + 1
    }
}

/// Resizing a raster of these dimensions to fill the new ones stays within
/// the machine: the raster is not empty, the new sides are sides of a frame,
/// and neither the raster before cropping nor the buffer between the two
/// passes of the resizing holds more bytes than one allocation may.
pub open spec fn fill_fits(width: nat, height: nat, new_width: nat, new_height: nat) -> bool {
    &&& 1 <= width <= MAX_DIMENSION
    &&& 1 <= height <= MAX_DIMENSION
    &&& new_width <= MAX_DIMENSION
    &&& new_height <= MAX_DIMENSION
    &&& CHANNELS * fill_side(width, height, new_width, new_height) * fill_side(
        height,
        width,
        new_height,
        new_width,
    ) <= isize::MAX
    &&& PASS_BYTES * width * fill_side(height, width, new_height, new_width) <= isize::MAX
}

/// The raster that `image::DynamicImage::resize_to_fill` produces for an RGB
/// raster, new dimensions and a filter: width, height and samples. To name
/// it is to take it for a function of these arguments: the new sides are
/// found in double-precision arithmetic, the samples in single-precision
/// arithmetic, in one thread and by the same code on every processor.
pub uninterp spec fn resized_to_fill(
    width: nat,
    height: nat,
    pixels: Seq<u8>,
    new_width: nat,
    new_height: nat,
    filter: ResizeFilter,
) -> (nat, nat, Seq<u8>);

/// The frame that resizing `frame` to fill the new dimensions gives: the
/// raster that the `image` crate produces, where the resizing fits and the
/// raster is complete.
pub open spec fn filled_frame(
    frame: FrameView,
    new_width: u32,
    new_height: u32,
    filter: ResizeFilter,
) -> Option<FrameView> {
    if fill_fits(frame.width, frame.height, new_width as nat, new_height as nat) {
        let (width, height, pixels) = resized_to_fill(
            frame.width,
            frame.height,
            frame.pixels,
            new_width as nat,
            new_height as nat,
            filter,
        );
        if (FrameView { width, height, pixels }).wf() {
            Some(FrameView { width, height, pixels })
        } else {
            None
        }
    } else {
        None
    }
}

/// Calls `image::DynamicImage::resize_to_fill` on the raster as an RGB image,
/// with the filter of the `image` crate that `filter` stands for. Trusted:
/// the result is the one that `resized_to_fill` names. Nothing is claimed of
/// the raster itself: whether it is complete is tested by whoever takes it.
/// The raster has to be complete, or the `image` crate would not take it,
/// and the resizing has to fit, or its buffers could not be made.
#[verifier::external_body]
fn fill_raster(
    width: u32,
    height: u32,
    pixels: &[u8],
    new_width: u32,
    new_height: u32,
    filter: ResizeFilter,
) -> (filled: (u32, u32, Vec<u8>))
    requires
        raster(width, height, pixels@).wf(),
        fill_fits(width as nat, height as nat, new_width as nat, new_height as nat),
    ensures
        (filled.0 as nat, filled.1 as nat, filled.2@) == resized_to_fill(
            width as nat,
            height as nat,
            pixels@,
            new_width as nat,
            new_height as nat,
            filter,
        ),
{
    let source = image::RgbImage::from_raw(width, height, pixels.to_vec()).unwrap();
    let filter = match filter {
        ResizeFilter::Nearest => image::imageops::FilterType::Nearest,
        ResizeFilter::Triangle => image::imageops::FilterType::Triangle,
    };
    let image = image::DynamicImage::ImageRgb8(source);
    let filled = image.resize_to_fill(new_width, new_height, filter).into_rgb8();
    (filled.width(), filled.height(), filled.into_raw())
}

/// Computes the bound `fill_side`.
fn fill_side_bound(side: u32, other: u32, new_side: u32, new_other: u32) -> (bound: u64)
    requires
        side <= MAX_DIMENSION,
        1 <= other <= MAX_DIMENSION,
        new_side <= MAX_DIMENSION,
        new_other <= MAX_DIMENSION,
    ensures
        bound == fill_side(side as nat, other as nat, new_side as nat, new_other as nat),
        bound <= 4294836226,
{
    assert(side * new_other <= 4294836225) by (nonlinear_arith)
        requires
            side <= 65535,
            new_other <= 65535,
    ;
    let scaled: u64 = (side as u64) * (new_other as u64) / (other as u64);
    assert(scaled <= side * new_other) by (nonlinear_arith)
        requires
            scaled == (side * new_other) / (other as int),
            1 <= other,
            0 <= side * new_other,
    ;
    if new_side as u64 >= scaled {
        new_side as u64 + 1
    } else {
        scaled + 1
    }
}

impl Frame {
    /// Whether stretching the frame to these sides stays within the machine.
    pub fn can_resize(&self, new_width: u32, new_height: u32) -> (fits: bool)
        ensures
            fits == resize_fits(self@.width, new_width as nat, new_height as nat),
    {
        proof {
            use_type_invariant(self);
        }
        if new_width > MAX_DIMENSION || new_height > MAX_DIMENSION {
            return false;
        }
        assert(new_width * new_height <= 4294836225) by (nonlinear_arith)
            requires
                new_width <= 65535,
                new_height <= 65535,
        ;
        assert(self.width * new_height <= 4294836225) by (nonlinear_arith)
            requires
                self.width <= 65535,
                new_height <= 65535,
        ;
        let limit: u64 = isize::MAX as u64;
        let raster_bytes: u64 = 3 * ((new_width as u64) * (new_height as u64));
        let pass_bytes: u64 = 16 * ((self.width as u64) * (new_height as u64));
        assert(raster_bytes == CHANNELS * new_width * new_height) by (nonlinear_arith)
            requires
                raster_bytes == 3 * (new_width * new_height),
        ;
        assert(pass_bytes == PASS_BYTES * self.width * new_height) by (nonlinear_arith)
            requires
                pass_bytes == 16 * (self.width * new_height),
        ;
        raster_bytes <= limit && pass_bytes <= limit
    }

    /// Stretches the frame to new dimensions, without regard to its aspect
    /// ratio.
    pub fn resize_exact(&self, new_width: u32, new_height: u32, filter: ResizeFilter) -> (frame:
        Frame)
        requires
            resize_fits(self@.width, new_width as nat, new_height as nat),
        ensures
            frame@ == resized_frame(self@, new_width, new_height, filter),
            frame@.wf(),
    {
        proof {
            use_type_invariant(self);
        }
        let pixels = resize_raster(
            self.width,
            self.height,
            self.pixels.as_slice(),
            new_width,
            new_height,
            filter,
        );
        Frame { width: new_width, height: new_height, pixels }
    }

    /// Whether resizing the frame to fill these sides stays within the
    /// machine.
    pub fn can_fill(&self, new_width: u32, new_height: u32) -> (fits: bool)
        ensures
            fits == fill_fits(self@.width, self@.height, new_width as nat, new_height as nat),
    {
        proof {
            use_type_invariant(self);
        }
        if self.width == 0 || self.height == 0 || new_width > MAX_DIMENSION || new_height
            > MAX_DIMENSION {
            return false;
        }
        let wide = fill_side_bound(self.width, self.height, new_width, new_height);
        let high = fill_side_bound(self.height, self.width, new_height, new_width);
        assert(wide * high <= 18445618208161923076) by (nonlinear_arith)
            requires
                wide <= 4294836226,
                high <= 4294836226,
        ;
        assert(self.width * high <= 281462092070910) by (nonlinear_arith)
            requires
                self.width <= 65535,
                high <= 4294836226,
        ;
        let limit: u128 = isize::MAX as u128;
        let raster_bytes: u128 = 3 * ((wide as u128) * (high as u128));
        let pass_bytes: u128 = 16 * ((self.width as u128) * (high as u128));
        assert(raster_bytes == CHANNELS * wide * high) by (nonlinear_arith)
            requires
                raster_bytes == 3 * (wide * high),
        ;
        assert(pass_bytes == PASS_BYTES * self.width * high) by (nonlinear_arith)
            requires
                pass_bytes == 16 * (self.width * high),
        ;
        raster_bytes <= limit && pass_bytes <= limit
    }

    /// Scales the frame, keeping its aspect ratio, until it covers the new
    /// dimensions, and crops what stands over, evenly on both sides. `None`
    /// where the resizing does not fit the machine.
    pub fn resize_to_fill(&self, new_width: u32, new_height: u32, filter: ResizeFilter) -> (frame:
        Option<Frame>)
        ensures
            match frame {
                Some(f) => filled_frame(self@, new_width, new_height, filter) == Some(f@),
                None => filled_frame(self@, new_width, new_height, filter) is None,
            },
            frame matches Some(f) ==> f@.wf(),
    {
        proof {
            use_type_invariant(self);
        }
        if !self.can_fill(new_width, new_height) {
            return None;
        }
        let (width, height, pixels) = fill_raster(
            self.width,
            self.height,
            self.pixels.as_slice(),
            new_width,
            new_height,
            filter,
        );
        Frame::from_raw(width, height, pixels)
    }
}

impl Clone for Frame {
    fn clone(&self) -> (copy: Self)
        ensures
            copy@ == self@,
            copy@.wf(),
    {
        proof {
            use_type_invariant(self);
        }
        let pixels = self.pixels.clone();
        assert(pixels@ =~= self.pixels@);
        Frame { width: self.width, height: self.height, pixels }
    }
}

/// Why a byte range did not become a frame.
#[derive(Clone, Copy, Debug, PartialEq, Eq, Structural)]
pub enum DecodeError {
    /// The range is shorter than `MIN_JPEG_LEN` bytes.
    TooSmall,
    /// The decoder rejected the bytes, or what it produced is no complete
    /// raster.
    Malformed,
}

impl DecodeError {
    /// The reason in words.
    pub fn message(&self) -> (text: String)
        ensures
            text@ == match *self {
                DecodeError::TooSmall => "JPEG data too small"@,
                DecodeError::Malformed => "malformed JPEG data"@,
            },
    {
        match self {
            DecodeError::TooSmall => "JPEG data too small".to_owned(),
            DecodeError::Malformed => "malformed JPEG data".to_owned(),
        }
    }
}

/// The error type of the `image` crate, `image::ImageError`. Nothing is
/// known of its values; the decoder's rejections are carried in it.
#[verifier::external_type_specification]
#[verifier::external_body]
pub struct ExImageError(image::ImageError);

/// The RGB raster that the `image` crate's JPEG decoder produces for `bytes`:
/// width, height and samples, or `None` where it rejects them.
///
/// To name it is to take the raster for a function of the bytes. The decoder
/// is handed nothing else: no hook is consulted for this format, and its
/// limits are constants. It does pick scalar or vector code, by the processor
/// at hand, for the inverse transform, the upsampling and the colour
/// conversion. The name rests on both giving the same samples, which is what
/// the vector code is written for.
pub uninterp spec fn jpeg_rgb8(bytes: Seq<u8>) -> Option<(nat, nat, Seq<u8>)>;

/// Calls `image::load_from_memory_with_format` with the JPEG format and
/// converts the image with `DynamicImage::to_rgb8`. Trusted: the outcome is
/// the one that `jpeg_rgb8` names for these bytes. Nothing is claimed of the
/// raster itself: whether it is complete is tested by whoever takes it.
#[verifier::external_body]
fn load_jpeg_rgb8(bytes: &[u8]) -> (loaded: Result<(u32, u32, Vec<u8>), image::ImageError>)
    ensures
        match loaded {
            Ok(raster) => jpeg_rgb8(bytes@) == raster_view(Some(raster)),
            Err(_) => jpeg_rgb8(bytes@) is None,
        },
{
    let image = image::load_from_memory_with_format(bytes, image::ImageFormat::Jpeg)?;
    let raster = image.to_rgb8();
    Ok((raster.width(), raster.height(), raster.into_raw()))
}

/// The frame that a decoder outcome stands for: the raster it produced, where
/// that is complete.
pub open spec fn frame_of_raster(raster: Option<(nat, nat, Seq<u8>)>) -> Result<
    FrameView,
    DecodeError,
> {
    match raster {
        Some((width, height, pixels)) => {
            let frame = FrameView { width, height, pixels };
            if frame.wf() {
                Ok(frame)
            } else {
                Err(DecodeError::Malformed)
            }
        },
        None => Err(DecodeError::Malformed),
    }
}

/// What decoding `bytes` gives: ranges under `MIN_JPEG_LEN` bytes are too
/// small, every other range is whatever the decoder makes of it.
pub open spec fn decode_outcome(bytes: Seq<u8>) -> Result<FrameView, DecodeError> {
    if bytes.len() < MIN_JPEG_LEN {
        Err(DecodeError::TooSmall)
    } else {
        frame_of_raster(jpeg_rgb8(bytes))
    }
}

/// A decoder outcome as plain values.
pub open spec fn raster_view(raster: Option<(u32, u32, Vec<u8>)>) -> Option<(nat, nat, Seq<u8>)> {
    match raster {
        Some((width, height, pixels)) => Some((width as nat, height as nat, pixels@)),
        None => None,
    }
}

/// A decoding result with the frame taken by its view.
pub open spec fn decoded_view(frame: Result<Frame, DecodeError>) -> Result<
    FrameView,
    DecodeError,
> {
    match frame {
        Ok(f) => Ok(f@),
        Err(e) => Err(e),
    }
}

/// Turns what the decoder produced into a frame: a complete raster becomes
/// the frame, anything else is malformed.
pub fn frame_from_raster(raster: Option<(u32, u32, Vec<u8>)>) -> (frame: Result<Frame, DecodeError>)
    ensures
        decoded_view(frame) == frame_of_raster(raster_view(raster)),
{
    match raster {
        Some((width, height, pixels)) => match Frame::from_raw(width, height, pixels) {
            Some(frame) => Ok(frame),
            None => Err(DecodeError::Malformed),
        },
        None => Err(DecodeError::Malformed),
    }
}

/// Hands `bytes` to the decoder, whatever their length, and turns what it
/// produced into a frame.
pub fn decode_any_jpeg(bytes: &[u8]) -> (frame: Result<Frame, DecodeError>)
    ensures
        decoded_view(frame) == frame_of_raster(jpeg_rgb8(bytes@)),
{
    match load_jpeg_rgb8(bytes) {
        Ok(raster) => frame_from_raster(Some(raster)),
        Err(_) => frame_from_raster(None),
    }
}

/// Decodes one JPEG byte range of the stream into a frame. Ranges too short
/// to be an image are rejected without asking the decoder.
pub fn decode_jpeg(jpeg_data: &[u8]) -> (frame: Result<Frame, DecodeError>)
    ensures
        decoded_view(frame) == decode_outcome(jpeg_data@),
{
    if jpeg_data.len() < MIN_JPEG_LEN {
        return Err(DecodeError::TooSmall);
    }
    decode_any_jpeg(jpeg_data)
}

} // verus!
