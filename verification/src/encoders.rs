//! GIF encoding: the lossless standard encoder with delta frames, and the settings of the
//! lossy encoder.
use vstd::prelude::*;
use crate::error::FigifError;
use crate::segment::{lemma_half_up, rounded_quotient};
use crate::traits::GifEncoder;
use crate::quantize::{compute_delta_frame, delta_frame_ok, full_frame_ok, rgba_to_gif_frame, IndexedFrame};
use crate::types::{clamp_u8, image_len, DisposalMethod, EncodableFrame, EncodeConfig, LoopCount, RgbaImage};
use gif::{Encoder, EncodingError, Frame, Repeat};
use image::imageops::FilterType;
use image::ImageBuffer;

verus! {

/// Resize filter for dimension changes.
#[derive(Debug, Clone, Copy, PartialEq, Eq, Structural)]
pub enum ResizeFilter {
    /// Nearest neighbor (fastest, pixelated).
    Nearest,
    /// Linear interpolation (fast, smooth).
    Triangle,
    /// Cubic interpolation (balanced).
    CatmullRom,
    /// Lanczos with window 3 (highest quality).
    Lanczos3,
}

impl Default for ResizeFilter {
    fn default() -> (r: Self)
        ensures
            r == ResizeFilter::Triangle,
    {
        ResizeFilter::Triangle
    }
}

impl ResizeFilter {
    /// A number standing for the filter.
    pub open spec fn code(self) -> u8 {
        match self {
            ResizeFilter::Nearest => 0,
            ResizeFilter::Triangle => 1,
            ResizeFilter::CatmullRom => 2,
            ResizeFilter::Lanczos3 => 3,
        }
    }
}

/// The pixels that resizing an RGBA image of `width x height` with pixel bytes `pixels` to
/// `new_width x new_height` with filter `filter` (see [`ResizeFilter::code`]) gives.
pub uninterp spec fn resized_pixels(
    filter: u8,
    width: u32,
    height: u32,
    pixels: Seq<u8>,
    new_width: u32,
    new_height: u32,
) -> Seq<u8>;

/// Resize an image with `image::imageops::resize`.
///
/// The contract claims that the result has the requested size, holds one RGBA
/// quadruple per pixel, and that its pixels are [`resized_pixels`] of the arguments. The
/// function panics when the new buffer's length overflows `usize`, which `requires` rules
/// out.
#[verifier::external_body]
fn resize_image(image: &RgbaImage, new_width: u32, new_height: u32, filter: ResizeFilter) -> (r: RgbaImage)
    requires
        image.wf(),
        image_len(new_width, new_height) <= usize::MAX,
    ensures
        r.width == new_width,
        r.height == new_height,
        r.wf(),
        r.data@ == resized_pixels(filter.code(), image.width, image.height, image.data@, new_width, new_height),
{
    let filter = match filter {
        ResizeFilter::Nearest => FilterType::Nearest,
        ResizeFilter::Triangle => FilterType::Triangle,
        ResizeFilter::CatmullRom => FilterType::CatmullRom,
        ResizeFilter::Lanczos3 => FilterType::Lanczos3,
    };
    let source: image::RgbaImage = ImageBuffer::from_raw(image.width, image.height, image.data.clone()).unwrap();
    let resized = image::imageops::resize(&source, new_width, new_height, filter);
    RgbaImage { width: new_width, height: new_height, data: resized.into_raw() }
}

/// The `gif` crate's encoder over a byte vector, held opaque.
#[verifier::external_body]
pub struct GifSink {
    encoder: Encoder<Vec<u8>>,
}

/// A GIF being written into memory, with the bytes written so far.
pub struct GifWriter {
    sink: GifSink,
    written: Ghost<Seq<u8>>,
}

impl GifWriter {
    /// The bytes written so far.
    pub closed spec fn bytes(&self) -> Seq<u8> {
        self.written@
    }
}

/// An encoding error of the `gif` crate.
#[verifier::external_type_specification]
#[verifier::external_body]
pub struct ExEncodingError(EncodingError);

/// A 16-bit value as two bytes, least significant first.
pub open spec fn le16(v: u16) -> Seq<u8> {
    seq![(v % 256) as u8, (v / 256) as u8]
}

/// The header `gif::Encoder::new` writes for a screen of `width x height` without a global
/// palette: `GIF89a`, the logical screen descriptor (the global-table flag set, table size
/// 0), and the two-color table of zeros the format then asks for.
pub open spec fn gif_screen_bytes(width: u16, height: u16) -> Seq<u8> {
    seq![0x47u8, 0x49, 0x46, 0x38, 0x39, 0x61] + le16(width) + le16(height) + seq![0x80u8, 0, 0]
        + seq![0u8, 0, 0, 0, 0, 0]
}

/// The application extension `gif::Encoder::set_repeat` writes: none for a single play,
/// else the NETSCAPE2.0 block with the repetition count (0 for forever).
pub open spec fn gif_repeat_bytes(loop_count: LoopCount) -> Seq<u8> {
    match loop_count {
        LoopCount::Once => Seq::empty(),
        LoopCount::Infinite => netscape_block(0),
        LoopCount::Finite(n) => if n == 0 {
            Seq::empty()
        } else {
            netscape_block(n)
        },
    }
}

/// The NETSCAPE2.0 application extension with a repetition count.
pub open spec fn netscape_block(n: u16) -> Seq<u8> {
    seq![0x21u8, 0xFF, 11, 0x4E, 0x45, 0x54, 0x53, 0x43, 0x41, 0x50, 0x45, 0x32, 0x2E, 0x30, 3, 1] + le16(n)
        + seq![0u8]
}

/// The bytes `gif::Encoder::write_frame` appends for a frame built by
/// `gif::Frame::from_palette_pixels` with these fields (disposal by its
/// [`DisposalMethod::gif_code`]): the graphic control extension, the image descriptor, the
/// local color table and the LZW-coded indices.
pub uninterp spec fn gif_frame_bytes(
    width: u16,
    height: u16,
    left: u16,
    top: u16,
    delay: u16,
    dispose: u8,
    transparent: Option<u8>,
    palette: Seq<u8>,
    indices: Seq<u8>,
) -> Seq<u8>;

/// The bytes written for an indexed frame.
pub open spec fn frame_bytes(f: IndexedFrame) -> Seq<u8> {
    gif_frame_bytes(f.width, f.height, f.left, f.top, f.delay, f.dispose.gif_code(), f.transparent, f.palette@, f.indices@)
}

/// The bytes of indexed frames written in order.
pub open spec fn frames_bytes(frames: Seq<IndexedFrame>) -> Seq<u8>
    decreases frames.len(),
{
    if frames.len() == 0 {
        Seq::empty()
    } else {
        frames_bytes(frames.drop_last()) + frame_bytes(frames.last())
    }
}

/// The whole GIF file: header, repetition block, frames, and the trailer byte `0x3B`.
pub open spec fn gif_file(width: u16, height: u16, loop_count: LoopCount, frames: Seq<IndexedFrame>) -> Seq<u8> {
    gif_screen_bytes(width, height) + gif_repeat_bytes(loop_count) + frames_bytes(frames) + seq![0x3Bu8]
}

/// Start a GIF of the given screen size without a global palette (`gif::Encoder::new` over
/// an empty `Vec`). The contract claims success and that the header was written: with an
/// empty palette the source's only failure is a write error, and writing to a `Vec` does
/// not fail.
#[verifier::external_body]
fn start_gif(width: u16, height: u16) -> (r: Result<GifWriter, EncodingError>)
    ensures
        r is Ok,
        r is Ok ==> r->Ok_0.bytes() == gif_screen_bytes(width, height),
{
    match Encoder::new(Vec::new(), width, height, &[]) {
        Ok(encoder) => Ok(GifWriter { sink: GifSink { encoder }, written: Ghost(Seq::empty()) }),
        Err(e) => Err(e),
    }
}

/// Write the repetition extension (`gif::Encoder::set_repeat`; a single play is
/// `Repeat::Finite(0)`, which writes nothing). The contract claims success and the bytes
/// appended: the source only writes to the `Vec`.
#[verifier::external_body]
fn write_repeat(writer: &mut GifWriter, loop_count: LoopCount) -> (r: Result<(), EncodingError>)
    ensures
        r is Ok,
        final(writer).bytes() == old(writer).bytes() + gif_repeat_bytes(loop_count),
{
    let repeat = match loop_count {
        LoopCount::Infinite => Repeat::Infinite,
        LoopCount::Once => Repeat::Finite(0),
        LoopCount::Finite(n) => Repeat::Finite(n),
    };
    writer.sink.encoder.set_repeat(repeat)
}

/// Write one indexed frame (`gif::Frame::from_palette_pixels`, then
/// `gif::Encoder::write_frame`). The frame constructor panics unless there is one index
/// per pixel and at most 256 palette colors, which `requires` rules out. The contract
/// claims success and that [`frame_bytes`] were appended: with those two conditions and a
/// local palette, the source fails only on a write error, which writing to a `Vec` does not
/// give, or when the allocator refuses the LZW buffer, a state of the machine the contract
/// leaves out as it does for every allocation.
#[verifier::external_body]
fn write_frame(writer: &mut GifWriter, f: &IndexedFrame) -> (r: Result<(), EncodingError>)
    requires
        f.indices@.len() == f.width * f.height,
        f.palette@.len() <= 768,
    ensures
        r is Ok,
        final(writer).bytes() == old(writer).bytes() + gif_frame_bytes(
            f.width,
            f.height,
            f.left,
            f.top,
            f.delay,
            f.dispose.gif_code(),
            f.transparent,
            f.palette@,
            f.indices@,
        ),
{
    let mut frame = Frame::from_palette_pixels(f.width, f.height, f.indices.clone(), f.palette.clone(), f.transparent);
    frame.left = f.left;
    frame.top = f.top;
    frame.delay = f.delay;
    frame.dispose = match f.dispose {
        DisposalMethod::Any => gif::DisposalMethod::Any,
        DisposalMethod::Keep => gif::DisposalMethod::Keep,
        DisposalMethod::Background => gif::DisposalMethod::Background,
        DisposalMethod::Previous => gif::DisposalMethod::Previous,
    };
    writer.sink.encoder.write_frame(&frame)
}

/// Finish the GIF and take its bytes (`gif::Encoder::into_inner`, which writes the trailer
/// byte `0x3B`). The contract claims success and the bytes: the source only writes to the
/// `Vec` and hands it back.
#[verifier::external_body]
fn finish_gif(writer: GifWriter) -> (r: Result<Vec<u8>, String>)
    ensures
        r is Ok,
        r is Ok ==> r->Ok_0@ == writer.bytes() + seq![0x3Bu8],
{
    match writer.sink.encoder.into_inner() {
        Ok(bytes) => Ok(bytes),
        Err(e) => Err(e.to_string()),
    }
}

/// The message of an encoding error (its `Display` text); nothing is claimed of it.
#[verifier::external_body]
fn encoding_error_text(e: &EncodingError) -> (r: String) {
    e.to_string()
}

/// The library's error for a failure of the GIF codec.
fn encode_failure(e: &EncodingError) -> (r: FigifError)
    ensures
        r is EncodeError,
{
    FigifError::EncodeError { reason: encoding_error_text(e) }
}

/// `value * numerator / denominator` rounded half up, as an `f64` computation saturated
/// to `u32` would give: an infinite ratio (zero denominator) gives `u32::MAX`, or 0 when
/// the product is zero.
pub open spec fn scaled_dimension(value: u32, numerator: u32, denominator: u32) -> u32 {
    if denominator == 0 {
        if value > 0 && numerator > 0 {
            u32::MAX
        } else {
            0
        }
    } else {
        let q = (2 * value * numerator + denominator) / (2 * denominator as int);
        if q > u32::MAX {
            u32::MAX
        } else {
            q as u32
        }
    }
}

/// The output size for a first frame of `src_width x src_height`: the configured width
/// and height, one of them with the other scaled to keep the aspect ratio, or the source
/// size.
pub open spec fn output_size(config: EncodeConfig, src_width: u32, src_height: u32) -> (u32, u32) {
    match (config.width, config.height) {
        (Some(w), Some(h)) => (w as u32, h as u32),
        (Some(w), None) => (w as u32, scaled_dimension(src_height, w as u32, src_width)),
        (None, Some(h)) => (scaled_dimension(src_width, h as u32, src_height), h as u32),
        (None, None) => (src_width, src_height),
    }
}

/// Scaling a dimension by `numerator / denominator` gives the product rounded half up,
/// saturated at `u32::MAX`; a factor of at most 1 never enlarges it.
pub proof fn law_scaled_dimension_rounds(value: u32, numerator: u32, denominator: u32)
    requires
        denominator > 0,
    ensures
        rounded_quotient(scaled_dimension(value, numerator, denominator) as int, value as int, numerator as int,
            denominator as int, 0, u32::MAX as int),
        numerator <= denominator ==> scaled_dimension(value, numerator, denominator) <= value,
{
    let x = 2 * value * numerator;
    let d = denominator as int;
    assert(x >= 0) by (nonlinear_arith)
        requires
            x == 2 * value * numerator,
            value >= 0,
            numerator >= 0,
    ;
    lemma_half_up(x, d);
    let q = (x + d) / (2 * d);
    if q > u32::MAX {
        assert(2 * d * q >= 2 * d * u32::MAX) by (nonlinear_arith)
            requires
                q > u32::MAX,
                d > 0,
        ;
    }
    if q == 0 {
        assert(2 * d * q == 0) by (nonlinear_arith)
            requires
                q == 0,
        ;
    }
    if numerator <= denominator {
        assert(x <= 2 * value * d) by (nonlinear_arith)
            requires
                x == 2 * value * numerator,
                numerator <= d,
                value >= 0,
        ;
        assert(q <= value) by (nonlinear_arith)
            requires
                2 * d * q <= x + d,
                x <= 2 * value * d,
                d > 0,
        ;
    }
}

/// The output keeps the source's aspect ratio when only one side is configured: that side
/// is as asked and the other is the source's scaled by the same ratio, rounded half up
/// (saturated at `u32::MAX`), so shrinking one side never enlarges the other. With both
/// sides configured they are used as given; with neither the source size is kept.
pub proof fn law_output_size_keeps_aspect(config: EncodeConfig, src_width: u32, src_height: u32)
    ensures
        ({
            let out = output_size(config, src_width, src_height);
            let w = config.width->Some_0;
            let h = config.height->Some_0;
            &&& config.width is Some && config.height is None && src_width > 0 ==> out.0 == w && rounded_quotient(
                out.1 as int,
                src_height as int,
                w as int,
                src_width as int,
                0,
                u32::MAX as int,
            ) && (w <= src_width ==> out.1 <= src_height)
            &&& config.height is Some && config.width is None && src_height > 0 ==> out.1 == h && rounded_quotient(
                out.0 as int,
                src_width as int,
                h as int,
                src_height as int,
                0,
                u32::MAX as int,
            ) && (h <= src_height ==> out.0 <= src_width)
            &&& config.width is Some && config.height is Some ==> out == (w as u32, h as u32)
            &&& config.width is None && config.height is None ==> out == (src_width, src_height)
        }),
{
    match (config.width, config.height) {
        (Some(w), None) => {
            if src_width > 0 {
                law_scaled_dimension_rounds(src_height, w as u32, src_width);
            }
        },
        (None, Some(h)) => {
            if src_height > 0 {
                law_scaled_dimension_rounds(src_width, h as u32, src_height);
            }
        },
        _ => {},
    }
}

fn scale_dimension(value: u32, numerator: u32, denominator: u32) -> (r: u32)
    ensures
        r == scaled_dimension(value, numerator, denominator),
{
    if denominator == 0 {
        if value > 0 && numerator > 0 {
            u32::MAX
        } else {
            0
        }
    } else {
        assert(value as int * numerator as int <= 0xffff_ffff * 0xffff_ffff) by (nonlinear_arith)
            requires
                value <= 0xffff_ffffu32,
                numerator <= 0xffff_ffffu32,
        ;
        let prod: u128 = value as u128 * numerator as u128;
        assert(2 * value * numerator == 2 * (value as int * numerator as int)) by (nonlinear_arith);
        let q: u128 = (2 * prod + denominator as u128) / (2 * denominator as u128);
        if q > u32::MAX as u128 {
            u32::MAX
        } else {
            q as u32
        }
    }
}

/// The 1x1 transparent frame written, for timing only, when a frame repeats the previous
/// one.
pub open spec fn timing_frame_ok(f: IndexedFrame, delay: u16) -> bool {
    &&& f.width == 1
    &&& f.height == 1
    &&& f.left == 0
    &&& f.top == 0
    &&& f.delay == delay
    &&& f.dispose == DisposalMethod::Keep
    &&& f.transparent == Some(0u8)
    &&& f.palette@ == seq![0u8, 0u8, 0u8]
    &&& f.indices@ == seq![0u8]
}

/// The image of frame `k` as encoded: resized to the output size if that differs from the
/// first frame's size.
pub open spec fn encoded_image(frames: Seq<EncodableFrame>, filter: ResizeFilter, out: (u32, u32), k: int) -> (u32, u32, Seq<u8>) {
    let src = frames[0].image;
    let img = frames[k].image;
    if out.0 != src.width || out.1 != src.height {
        (out.0, out.1, resized_pixels(filter.code(), img.width, img.height, img.data@, out.0, out.1))
    } else {
        img@
    }
}

/// Frame `f` is what the encoder writes for frame `k`: the first frame whole, each later
/// one as the delta from the one before, or the timing frame when nothing changed.
pub open spec fn planned_frame_ok(
    f: IndexedFrame,
    frames: Seq<EncodableFrame>,
    filter: ResizeFilter,
    out: (u32, u32),
    k: int,
) -> bool {
    let (w, h, data) = encoded_image(frames, filter, out, k);
    let delay = frames[k].delay_centiseconds;
    if k == 0 {
        full_frame_ok(f, w, h, data, delay)
    } else {
        let (pw, ph, pdata) = encoded_image(frames, filter, out, k - 1);
        ||| delta_frame_ok(Some(f), w, h, data, pdata, delay)
        ||| delta_frame_ok(None, w, h, data, pdata, delay) && timing_frame_ok(f, delay)
    }
}

/// The output size fits the GIF format and the platform.
pub open spec fn output_size_ok(out: (u32, u32)) -> bool {
    &&& out.0 < 65536
    &&& out.1 < 65536
    &&& image_len(out.0, out.1) <= usize::MAX
}

/// What planning the encoded frames gives.
pub open spec fn plan_outcome(
    r: Result<(u16, u16, Vec<IndexedFrame>), FigifError>,
    frames: Seq<EncodableFrame>,
    config: EncodeConfig,
    filter: ResizeFilter,
) -> bool {
    let out = output_size(config, frames[0].image.width, frames[0].image.height);
    let resizing = out.0 != frames[0].image.width || out.1 != frames[0].image.height;
    &&& (r matches Err(FigifError::NoFrames)) <==> frames.len() == 0
    &&& (r matches Err(FigifError::ImageError { .. })) <==> frames.len() > 0 && exists|k: int|
        0 <= k < frames.len() && !(#[trigger] frames[k]).image.wf()
    &&& (r matches Err(FigifError::EncodeError { .. })) <==> frames.len() > 0 && (forall|k: int|
        0 <= k < frames.len() ==> (#[trigger] frames[k]).image.wf()) && !output_size_ok(out)
    &&& (r matches Err(FigifError::DimensionMismatch { .. })) ==> !resizing
    &&& r matches Ok((w, h, planned)) ==> {
        &&& w == out.0
        &&& h == out.1
        &&& planned@.len() == frames.len()
        &&& forall|k: int| 0 <= k < frames.len() ==> {
            &&& planned_frame_ok(#[trigger] planned@[k], frames, filter, out, k)
            &&& planned@[k].indices@.len() == planned@[k].width * planned@[k].height
            &&& planned@[k].palette@.len() <= 768
        }
    }
    &&& r is Ok <==> plan_succeeds(frames, config)
}

/// Planning succeeds: there are frames, all well formed, the output size is encodable,
/// and without resizing all frames have the output size.
pub open spec fn plan_succeeds(frames: Seq<EncodableFrame>, config: EncodeConfig) -> bool {
    let out = output_size(config, frames[0].image.width, frames[0].image.height);
    let resizing = out.0 != frames[0].image.width || out.1 != frames[0].image.height;
    &&& frames.len() > 0
    &&& forall|k: int| 0 <= k < frames.len() ==> (#[trigger] frames[k]).image.wf()
    &&& output_size_ok(out)
    &&& !resizing ==> forall|k: int| 0 <= k < frames.len() ==> (#[trigger] frames[k]).image.width == out.0
        && frames[k].image.height == out.1
}

/// The 1x1 transparent frame for a frame that repeats the previous one.
fn timing_frame(delay: u16) -> (r: IndexedFrame)
    ensures
        timing_frame_ok(r, delay),
        r.indices@.len() == r.width * r.height,
        r.palette@.len() <= 768,
{
    let palette = vec![0u8, 0u8, 0u8];
    let indices = vec![0u8];
    assert(palette@ =~= seq![0u8, 0u8, 0u8]);
    assert(indices@ =~= seq![0u8]);
    assert(indices@.len() == 1);
    let r = IndexedFrame {
        width: 1,
        height: 1,
        left: 0,
        top: 0,
        delay,
        dispose: DisposalMethod::Keep,
        transparent: Some(0),
        palette,
        indices,
    };
    assert(r.width * r.height == 1) by (nonlinear_arith)
        requires
            r.width == 1,
            r.height == 1,
    ;
    r
}

fn image_is_wf(image: &RgbaImage) -> (r: bool)
    ensures
        r == image.wf(),
{
    assert(image.width as int * image.height as int * 4 <= 0xffff_ffff * 0xffff_ffff * 4) by (nonlinear_arith)
        requires
            image.width <= 0xffff_ffffu32,
            image.height <= 0xffff_ffffu32,
    ;
    let len = image.width as u128 * image.height as u128 * 4;
    image.data.len() as u128 == len
}

/// Standard lossless GIF encoder with delta frames.
#[derive(Debug, Clone, Copy, Default)]
pub struct StandardEncoder {
    resize_filter: ResizeFilter,
}

impl StandardEncoder {
    /// The resize filter used when the output size differs.
    pub closed spec fn filter(&self) -> ResizeFilter {
        self.resize_filter
    }

    /// Create a new standard encoder (triangle resize filter).
    pub fn new() -> (r: Self)
        ensures
            r.filter() == ResizeFilter::Triangle,
    {
        StandardEncoder { resize_filter: ResizeFilter::Triangle }
    }

    /// Set the resize filter.
    pub fn with_resize_filter(self, filter: ResizeFilter) -> (r: Self)
        ensures
            r.filter() == filter,
    {
        StandardEncoder { resize_filter: filter }
    }

    /// Whether this encoder supports lossy compression: it does not.
    pub fn supports_lossy(&self) -> (r: bool)
        ensures
            !r,
    {
        false
    }

    /// The name of this encoder.
    pub fn name(&self) -> (r: &'static str)
        ensures
            r@ == "standard"@,
    {
        "standard"
    }

    /// The output size and the indexed frames the encoder writes for the given frames.
    pub fn plan_frames(&self, frames: &[EncodableFrame], config: &EncodeConfig) -> (r: Result<(u16, u16, Vec<IndexedFrame>), FigifError>)
        ensures
            plan_outcome(r, frames@, *config, self.filter()),
    {
        if frames.len() == 0 {
            return Err(FigifError::NoFrames);
        }
        let mut k: usize = 0;
        while k < frames.len()
            invariant
                k <= frames@.len(),
                forall|j: int| 0 <= j < k ==> (#[trigger] frames@[j]).image.wf(),
            decreases frames@.len() - k,
        {
            if !image_is_wf(&frames[k].image) {
                return Err(FigifError::ImageError { reason: String::from_str("frame buffer does not match its size") });
            }
            k = k + 1;
        }
        let src_width = frames[0].image.width;
        let src_height = frames[0].image.height;
        let (out_width, out_height) = match (config.width, config.height) {
            (Some(w), Some(h)) => (w as u32, h as u32),
            (Some(w), None) => (w as u32, scale_dimension(src_height, w as u32, src_width)),
            (None, Some(h)) => (scale_dimension(src_width, h as u32, src_height), h as u32),
            (None, None) => (src_width, src_height),
        };
        let ghost out = (out_width, out_height);
        if out_width >= 65536 || out_height >= 65536 {
            return Err(FigifError::EncodeError { reason: String::from_str("output size not encodable") });
        }
        assert(out_width as int * out_height as int * 4 <= 65535 * 65535 * 4) by (nonlinear_arith)
            requires
                out_width < 65536,
                out_height < 65536,
        ;
        if out_width as u64 * out_height as u64 * 4 > usize::MAX as u64 {
            return Err(FigifError::EncodeError { reason: String::from_str("output size not encodable") });
        }
        let needs_resize = out_width != src_width || out_height != src_height;
        let mut planned: Vec<IndexedFrame> = Vec::new();
        let mut prev: RgbaImage = RgbaImage { width: 0, height: 0, data: Vec::new() };
        let mut k: usize = 0;
        while k < frames.len()
            invariant
                k <= frames@.len(),
                frames@.len() > 0,
                forall|j: int| 0 <= j < frames@.len() ==> (#[trigger] frames@[j]).image.wf(),
                src_width == frames@[0].image.width,
                src_height == frames@[0].image.height,
                out == (out_width, out_height),
                out == output_size(*config, src_width, src_height),
                output_size_ok(out),
                needs_resize == (out_width != src_width || out_height != src_height),
                !needs_resize ==> forall|j: int| 0 <= j < k ==> (#[trigger] frames@[j]).image.width == out_width
                    && frames@[j].image.height == out_height,
                planned@.len() == k,
                k > 0 ==> prev@ == encoded_image(frames@, self.filter(), out, k - 1) && prev.wf()
                    && prev.width == out_width && prev.height == out_height,
                forall|j: int| 0 <= j < k ==> {
                    &&& planned_frame_ok(#[trigger] planned@[j], frames@, self.filter(), out, j)
                    &&& planned@[j].indices@.len() == planned@[j].width * planned@[j].height
                    &&& planned@[j].palette@.len() <= 768
                },
            decreases frames@.len() - k,
        {
            let frame = &frames[k];
            let image = if needs_resize {
                resize_image(&frame.image, out_width, out_height, self.resize_filter)
            } else {
                if frame.image.width != out_width || frame.image.height != out_height {
                    return Err(FigifError::DimensionMismatch {
                        expected_width: out_width,
                        expected_height: out_height,
                        actual_width: frame.image.width,
                        actual_height: frame.image.height,
                    });
                }
                frame.image.duplicate()
            };
            let indexed = if k == 0 {
                rgba_to_gif_frame(&image, frame.delay_centiseconds)
            } else {
                match compute_delta_frame(&image, &prev, frame.delay_centiseconds) {
                    Some(delta) => delta,
                    None => timing_frame(frame.delay_centiseconds),
                }
            };
            planned.push(indexed);
            prev = image;
            k = k + 1;
        }
        Ok((out_width as u16, out_height as u16, planned))
    }

    /// Encode frames into the bytes of a GIF: the header for the planned screen, the
    /// repetition block, the frames of [`StandardEncoder::plan_frames`] and the trailer.
    pub fn encode(&self, frames: &[EncodableFrame], config: &EncodeConfig) -> (r: Result<Vec<u8>, FigifError>)
        ensures
            standard_encoding(frames@, *config, self.filter(), r),
    {
        let (width, height, planned) = match self.plan_frames(frames, config) {
            Ok(p) => p,
            Err(e) => {
                return Err(e);
            },
        };
        let ghost plan = (width, height, planned);
        let mut writer = match start_gif(width, height) {
            Ok(w) => w,
            Err(e) => {
                return Err(encode_failure(&e));
            },
        };
        if let Err(e) = write_repeat(&mut writer, config.loop_count) {
            return Err(encode_failure(&e));
        }
        let mut k: usize = 0;
        while k < planned.len()
            invariant
                k <= planned@.len(),
                forall|j: int| 0 <= j < planned@.len() ==> (#[trigger] planned@[j]).indices@.len()
                    == planned@[j].width * planned@[j].height && planned@[j].palette@.len() <= 768,
                writer.bytes() == gif_screen_bytes(width, height) + gif_repeat_bytes(config.loop_count)
                    + frames_bytes(planned@.take(k as int)),
            decreases planned@.len() - k,
        {
            if let Err(e) = write_frame(&mut writer, &planned[k]) {
                return Err(encode_failure(&e));
            }
            proof {
                assert(planned@.take(k + 1).drop_last() =~= planned@.take(k as int));
                assert(planned@.take(k + 1).last() == planned@[k as int]);
            }
            k = k + 1;
        }
        proof {
            assert(planned@.take(k as int) =~= planned@);
        }
        match finish_gif(writer) {
            Ok(bytes) => {
                assert(bytes@ =~= gif_file(width, height, config.loop_count, planned@));
                Ok(bytes)
            },
            Err(reason) => Err(FigifError::EncodeError { reason }),
        }
    }
}

/// What the standard encoder gives for the frames: the planning error if planning fails,
/// else the GIF file of the planned frames.
pub open spec fn standard_encoding(
    frames: Seq<EncodableFrame>,
    config: EncodeConfig,
    filter: ResizeFilter,
    r: Result<Vec<u8>, FigifError>,
) -> bool {
    &&& (r is Ok <==> plan_succeeds(frames, config))
    &&& (r matches Err(e) ==> plan_outcome(Err(e), frames, config, filter))
    &&& (r matches Ok(b) ==> exists|w: u16, h: u16, planned: Vec<IndexedFrame>|
        #[trigger] plan_outcome(Ok((w, h, planned)), frames, config, filter) && b@ == gif_file(
            w,
            h,
            config.loop_count,
            planned@,
        ))
}

/// Settings of the high-quality lossy encoder.
#[derive(Debug, Clone, Copy)]
pub struct GifskiEncoder {
    quality: u8,
    motion_quality: u8,
    fast: bool,
}

impl Default for GifskiEncoder {
    fn default() -> (r: Self)
        ensures
            r.spec_quality() == 90,
            r.spec_motion_quality() == 90,
            !r.spec_fast(),
    {
        GifskiEncoder { quality: 90, motion_quality: 90, fast: false }
    }
}

impl GifskiEncoder {
    /// Quality, 1 to 100.
    pub closed spec fn spec_quality(&self) -> u8 {
        self.quality
    }

    /// Motion quality, 1 to 100.
    pub closed spec fn spec_motion_quality(&self) -> u8 {
        self.motion_quality
    }

    /// Faster, lower-quality encoding.
    pub closed spec fn spec_fast(&self) -> bool {
        self.fast
    }

    /// Create an encoder with default settings (quality 90).
    pub fn new() -> (r: Self)
        ensures
            r.spec_quality() == 90,
            r.spec_motion_quality() == 90,
            !r.spec_fast(),
    {
        GifskiEncoder::default()
    }

    /// Create an encoder with the given quality, clamped to 1..=100.
    pub fn with_quality(quality: u8) -> (r: Self)
        ensures
            r.spec_quality() == clamp_u8(quality, 1, 100),
            r.spec_motion_quality() == 90,
            !r.spec_fast(),
    {
        let q = if quality < 1 {
            1
        } else if quality > 100 {
            100
        } else {
            quality
        };
        GifskiEncoder { quality: q, ..GifskiEncoder::default() }
    }

    /// Set the motion quality, clamped to 1..=100.
    pub fn motion_quality(self, quality: u8) -> (r: Self)
        ensures
            r.spec_motion_quality() == clamp_u8(quality, 1, 100),
            r.spec_quality() == self.spec_quality(),
            r.spec_fast() == self.spec_fast(),
    {
        let q = if quality < 1 {
            1
        } else if quality > 100 {
            100
        } else {
            quality
        };
        GifskiEncoder { motion_quality: q, ..self }
    }

    /// Enable fast mode.
    pub fn fast(self, fast: bool) -> (r: Self)
        ensures
            r.spec_fast() == fast,
            r.spec_quality() == self.spec_quality(),
            r.spec_motion_quality() == self.spec_motion_quality(),
    {
        GifskiEncoder { fast, ..self }
    }

    /// Whether this encoder supports lossy compression: it does.
    pub fn supports_lossy(&self) -> (r: bool)
        ensures
            r,
    {
        true
    }

    /// The name of this encoder.
    pub fn name(&self) -> (r: &'static str)
        ensures
            r@ == "gifski"@,
    {
        "gifski"
    }
}

impl GifEncoder for StandardEncoder {
    open spec fn encoded(&self, frames: Seq<EncodableFrame>, config: EncodeConfig, r: Result<Vec<u8>, FigifError>) -> bool {
        standard_encoding(frames, config, self.filter(), r)
    }

    fn encode(&self, frames: &[EncodableFrame], config: &EncodeConfig) -> (r: Result<Vec<u8>, FigifError>) {
        StandardEncoder::encode(self, frames, config)
    }

    open spec fn lossy(&self) -> bool {
        false
    }

    fn supports_lossy(&self) -> (r: bool) {
        false
    }

    fn name(&self) -> (r: &'static str)
        ensures
            r@ == "standard"@,
    {
        "standard"
    }
}

} // verus!
