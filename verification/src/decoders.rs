//! GIF decoding: reading frames with the GIF codec and compositing them onto a canvas.
use vstd::prelude::*;
use crate::error::FigifError;
use crate::types::{image_len, DecodedFrame, DisposalMethod, GifMetadata, LoopCount, RgbaImage};
use gif::{ColorOutput, DecodeOptions, Decoder, DecodingError};

verus! {

/// The `gif` crate's decoder reading from a byte slice, held opaque.
#[verifier::external_body]
pub struct GifSource<'a> {
    decoder: Decoder<&'a [u8]>,
}

/// An open GIF stream, with the bytes it reads, what opening it gave, and how many frame
/// reads were made on it.
pub struct GifReader<'a> {
    source: GifSource<'a>,
    data: Ghost<Seq<u8>>,
    info: Ghost<(u16, u16, Option<Seq<u8>>, Option<usize>)>,
    calls: Ghost<nat>,
}

impl<'a> GifReader<'a> {
    /// The GIF's bytes.
    pub closed spec fn data(&self) -> Seq<u8> {
        self.data@
    }

    /// The screen width, screen height, global palette and background color index read
    /// when the stream was opened.
    pub closed spec fn info(&self) -> (u16, u16, Option<Seq<u8>>, Option<usize>) {
        self.info@
    }

    /// How many frame reads were made.
    pub closed spec fn calls(&self) -> nat {
        self.calls@
    }
}

/// What `gif::DecodeOptions::read_info` with RGBA output gives for a GIF's bytes: `None`
/// when it fails, else the logical screen width and height, the global palette and the
/// background color index the decoder then reports.
pub uninterp spec fn gif_info(data: Seq<u8>) -> Option<(u16, u16, Option<Seq<u8>>, Option<usize>)>;

/// What the `k`-th call (from 0) of `gif::Decoder::read_next_frame` gives on the decoder
/// `read_info` opened over `data` with RGBA output: `None` when the call fails,
/// `Some(None)` at the end of the stream, else the frame's delay, disposal code, left,
/// top, width, height and RGBA pixels.
pub uninterp spec fn gif_frame(data: Seq<u8>, k: nat) -> Option<Option<(u16, u8, u16, u16, u16, u16, Seq<u8>)>>;

/// A frame as the codec reads it: delay, disposal code, left, top, width, height and RGBA
/// pixels.
pub type CodecFrame = (u16, u8, u16, u16, u16, u16, Seq<u8>);

/// `f` holds the codec frame `t`.
pub open spec fn raw_is(f: RawFrame, t: CodecFrame) -> bool {
    &&& f.delay == t.0
    &&& f.disposal.gif_code() == t.1
    &&& f.left == t.2
    &&& f.top == t.3
    &&& f.width == t.4
    &&& f.height == t.5
    &&& f.buffer@ == t.6
}

/// The raw frames hold the codec frames, in order.
pub open spec fn raws_are(raws: Seq<RawFrame>, ts: Seq<CodecFrame>) -> bool {
    &&& raws.len() == ts.len()
    &&& forall|k: int| 0 <= k < raws.len() ==> raw_is(#[trigger] raws[k], ts[k])
}

/// The frames the first `n` reads on `data` gave, skipping failed reads and ends.
pub open spec fn frames_among(data: Seq<u8>, n: nat) -> Seq<CodecFrame>
    decreases n,
{
    if n == 0 {
        Seq::empty()
    } else {
        let before = frames_among(data, (n - 1) as nat);
        match gif_frame(data, (n - 1) as nat) {
            Some(Some(t)) => before.push(t),
            _ => before,
        }
    }
}

/// Reading frames from the start of the stream, stopping at the first end or failure or
/// after `n` reads: the frames read, and 0 if reading stopped after `n` reads, 1 at the
/// end of the stream, 2 at a failure.
pub open spec fn gif_read(data: Seq<u8>, n: nat) -> (Seq<CodecFrame>, u8)
    decreases n,
{
    if n == 0 {
        (Seq::empty(), 0)
    } else {
        let (fs, st) = gif_read(data, (n - 1) as nat);
        if st != 0 {
            (fs, st)
        } else {
            match gif_frame(data, (n - 1) as nat) {
                None => (fs, 2),
                Some(None) => (fs, 1),
                Some(Some(t)) => (fs.push(t), 0),
            }
        }
    }
}

/// A decoding error of the `gif` crate.
#[verifier::external_type_specification]
#[verifier::external_body]
pub struct ExDecodingError(DecodingError);

/// A frame as the GIF codec delivers it: its placement, timing, disposal and RGBA pixels.
#[derive(Debug, Clone)]
pub struct RawFrame {
    /// Delay in centiseconds.
    pub delay: u16,
    /// How the frame is disposed of before the next one is drawn.
    pub disposal: DisposalMethod,
    /// Left offset on the canvas.
    pub left: u16,
    /// Top offset on the canvas.
    pub top: u16,
    /// Frame width.
    pub width: u16,
    /// Frame height.
    pub height: u16,
    /// RGBA pixels of the frame, row by row.
    pub buffer: Vec<u8>,
}

/// Where byte `i` of a canvas `width` pixels wide falls inside frame `f`: the frame
/// pixel's byte offset, if the canvas pixel lies in the frame's rectangle.
pub open spec fn frame_offset(width: u32, f: RawFrame, i: int) -> Option<int> {
    let p = i / 4;
    let cx = p % (width as int);
    let cy = p / (width as int);
    let x = cx - f.left;
    let y = cy - f.top;
    if 0 <= x < f.width && 0 <= y < f.height {
        Some((y * f.width + x) * 4)
    } else {
        None
    }
}

/// Byte `i` of the canvas after drawing frame `f` over it: inside the frame's rectangle,
/// pixels the frame holds with a nonzero alpha replace the canvas pixel.
pub open spec fn drawn_byte(canvas: Seq<u8>, width: u32, f: RawFrame, i: int) -> u8 {
    match frame_offset(width, f, i) {
        Some(src) => if src + 3 < f.buffer@.len() && f.buffer@[src + 3] > 0 {
            f.buffer@[src + i % 4]
        } else {
            canvas[i]
        },
        None => canvas[i],
    }
}

/// The canvas after drawing frame `f` over it.
pub open spec fn drawn(canvas: Seq<u8>, width: u32, f: RawFrame) -> Seq<u8> {
    Seq::new(canvas.len(), |i: int| drawn_byte(canvas, width, f, i))
}

/// The image with the rectangle of frame `f` cleared to transparent black.
pub open spec fn cleared(image: Seq<u8>, width: u32, f: RawFrame) -> Seq<u8> {
    Seq::new(
        image.len(),
        |i: int|
            match frame_offset(width, f, i) {
                Some(_) => 0u8,
                None => image[i],
            },
    )
}

/// The canvas that the frame after `f` is drawn on, given the canvas `f` was drawn on.
pub open spec fn next_canvas(canvas: Seq<u8>, width: u32, f: RawFrame) -> Seq<u8> {
    match f.disposal {
        DisposalMethod::Background => cleared(drawn(canvas, width, f), width, f),
        DisposalMethod::Previous => canvas,
        _ => drawn(canvas, width, f),
    }
}

/// The canvas frame `k` is drawn on: transparent black at first, then each frame's
/// disposal applied in turn.
pub open spec fn canvas_before(width: u32, height: u32, frames: Seq<RawFrame>, k: int) -> Seq<u8>
    decreases k,
{
    if k <= 0 {
        Seq::new(image_len(width, height) as nat, |i: int| 0u8)
    } else {
        next_canvas(canvas_before(width, height, frames, k - 1), width, frames[k - 1])
    }
}

/// `out` is frame `k` of a GIF of the given screen size, composited.
pub open spec fn composited(out: DecodedFrame, width: u32, height: u32, frames: Seq<RawFrame>, k: int) -> bool {
    &&& out.index == k
    &&& out.image.width == width
    &&& out.image.height == height
    &&& out.image.data@ == drawn(canvas_before(width, height, frames, k), width, frames[k])
    &&& out.delay_centiseconds == frames[k].delay
    &&& out.disposal == frames[k].disposal
    &&& out.left == frames[k].left
    &&& out.top == frames[k].top
}

/// `out` holds the composited frames of a GIF of the given screen size.
pub open spec fn composites(out: Seq<DecodedFrame>, width: u32, height: u32, frames: Seq<RawFrame>) -> bool {
    &&& out.len() == frames.len()
    &&& forall|k: int| 0 <= k < out.len() ==> composited(#[trigger] out[k], width, height, frames, k)
}

/// Each composited frame shows, at every canvas pixel inside the frame's rectangle where
/// the frame's own pixel is not fully transparent, that pixel; everywhere else it shows
/// the canvas it was drawn on, which for the first frame is transparent black.
pub proof fn law_frame_drawn_over_canvas(
    out: Seq<DecodedFrame>,
    width: u32,
    height: u32,
    frames: Seq<RawFrame>,
    k: int,
    i: int,
)
    requires
        composites(out, width, height, frames),
        0 <= k < frames.len(),
        0 <= i < image_len(width, height),
        width > 0,
    ensures
        ({
            let f = frames[k];
            let canvas = canvas_before(width, height, frames, k);
            let x = (i / 4) % (width as int) - f.left;
            let y = (i / 4) / (width as int) - f.top;
            let src = (y * f.width + x) * 4 + i % 4;
            let alpha = (y * f.width + x) * 4 + 3;
            &&& out[k].image.data@.len() == image_len(width, height)
            &&& (0 <= x < f.width && 0 <= y < f.height && alpha < f.buffer@.len() && f.buffer@[alpha] > 0)
                ==> out[k].image.data@[i] == f.buffer@[src]
            &&& !(0 <= x < f.width && 0 <= y < f.height && alpha < f.buffer@.len() && f.buffer@[alpha] > 0)
                ==> out[k].image.data@[i] == canvas[i]
            &&& k == 0 ==> canvas[i] == 0
        }),
{
    assert(composited(out[k], width, height, frames, k));
    lemma_canvas_len(width, height, frames, k);
    assert(i % 4 + (i / 4) * 4 == i);
}

/// What a frame's disposal leaves for the next frame to be drawn on: the frame as shown
/// when it is kept (`Keep`, or no disposal given); exactly the canvas from before the frame
/// was drawn when it restores the previous canvas; and the frame as shown with its
/// rectangle cleared to transparent black when it restores the background. The next frame,
/// if any, is drawn over that canvas.
pub proof fn law_disposal_prepares_next_canvas(
    out: Seq<DecodedFrame>,
    width: u32,
    height: u32,
    frames: Seq<RawFrame>,
    k: int,
)
    requires
        composites(out, width, height, frames),
        0 <= k < frames.len(),
    ensures
        ({
            let shown = out[k].image.data@;
            let before = canvas_before(width, height, frames, k);
            let next = canvas_before(width, height, frames, k + 1);
            &&& (frames[k].disposal is Keep || frames[k].disposal is Any) ==> next == shown
            &&& frames[k].disposal is Previous ==> next == before
            &&& frames[k].disposal is Background ==> next.len() == shown.len() && forall|i: int|
                0 <= i < shown.len() ==> #[trigger] next[i] == if frame_offset(width, frames[k], i) is Some {
                    0u8
                } else {
                    shown[i]
                }
            &&& k + 1 < frames.len() ==> out[k + 1].image.data@ == drawn(next, width, frames[k + 1])
        }),
{
    assert(composited(out[k], width, height, frames, k));
    if k + 1 < frames.len() {
        assert(composited(out[k + 1], width, height, frames, k + 1));
    }
}

/// Where byte `i` of the canvas falls inside the frame, computed.
fn locate(width: u32, f: &RawFrame, i: usize) -> (r: Option<u64>)
    requires
        width > 0,
    ensures
        match frame_offset(width, *f, i as int) {
            Some(src) => r == Some(src as u64) && src <= u64::MAX,
            None => r.is_none(),
        },
{
    let p: usize = i / 4;
    let cx: usize = p % (width as usize);
    let cy: usize = p / (width as usize);
    if cx >= f.left as usize && cy >= f.top as usize {
        let x: usize = cx - f.left as usize;
        let y: usize = cy - f.top as usize;
        if x < f.width as usize && y < f.height as usize {
            assert((y * f.width as int + x) * 4 <= (65535 * 65535 + 65535) * 4) by (nonlinear_arith)
                requires
                    y < 65536,
                    x < 65536,
                    f.width < 65536,
            ;
            return Some((y as u64 * f.width as u64 + x as u64) * 4);
        }
    }
    None
}

/// Draw frame `f` over `canvas`.
fn draw_frame(canvas: &Vec<u8>, width: u32, f: &RawFrame) -> (r: Vec<u8>)
    requires
        canvas@.len() > 0 ==> width > 0,
    ensures
        r@ == drawn(canvas@, width, *f),
{
    let n = canvas.len();
    let mut out: Vec<u8> = Vec::with_capacity(n);
    let mut i: usize = 0;
    while i < n
        invariant
            i <= n,
            n == canvas@.len(),
            out@.len() == i,
            forall|j: int| 0 <= j < i ==> out@[j] == drawn_byte(canvas@, width, *f, j),
            n > 0 ==> width > 0,
        decreases n - i,
    {
        let byte = match locate(width, f, i) {
            Some(src) => {
                if src + 3 < f.buffer.len() as u64 && f.buffer[src as usize + 3] > 0 {
                    f.buffer[src as usize + i % 4]
                } else {
                    canvas[i]
                }
            },
            None => canvas[i],
        };
        out.push(byte);
        i = i + 1;
    }
    assert(out@ =~= drawn(canvas@, width, *f));
    out
}


/// Clear the rectangle of frame `f` in `image` to transparent black.
fn clear_frame(image: &Vec<u8>, width: u32, f: &RawFrame) -> (r: Vec<u8>)
    requires
        image@.len() > 0 ==> width > 0,
    ensures
        r@ == cleared(image@, width, *f),
{
    let n = image.len();
    let mut out: Vec<u8> = Vec::with_capacity(n);
    let mut i: usize = 0;
    while i < n
        invariant
            i <= n,
            n == image@.len(),
            out@.len() == i,
            forall|j: int| 0 <= j < i ==> out@[j] == cleared(image@, width, *f)[j],
            n > 0 ==> width > 0,
        decreases n - i,
    {
        let byte = match locate(width, f, i) {
            Some(_) => 0u8,
            None => image[i],
        };
        out.push(byte);
        i = i + 1;
    }
    assert(out@ =~= cleared(image@, width, *f));
    out
}

/// Composite frame `f` onto the canvas: returns the frame as shown, and the canvas for
/// the next frame.
fn composite_step(canvas: Vec<u8>, width: u32, f: &RawFrame) -> (r: (Vec<u8>, Vec<u8>))
    requires
        canvas@.len() > 0 ==> width > 0,
    ensures
        r.0@ == drawn(canvas@, width, *f),
        r.1@ == next_canvas(canvas@, width, *f),
{
    let shown = draw_frame(&canvas, width, f);
    let next = match f.disposal {
        DisposalMethod::Background => clear_frame(&shown, width, f),
        DisposalMethod::Previous => canvas,
        _ => shown.clone(),
    };
    (shown, next)
}

/// Composited frames hold well-formed images.
pub proof fn lemma_composited_wf(out: Seq<DecodedFrame>, width: u32, height: u32, frames: Seq<RawFrame>)
    requires
        composites(out, width, height, frames),
    ensures
        forall|k: int| 0 <= k < out.len() ==> (#[trigger] out[k]).image.wf(),
{
    assert forall|k: int| 0 <= k < out.len() implies (#[trigger] out[k]).image.wf() by {
        assert(composited(out[k], width, height, frames, k));
        lemma_canvas_len(width, height, frames, k);
    }
}

proof fn lemma_canvas_len(width: u32, height: u32, frames: Seq<RawFrame>, k: int)
    ensures
        canvas_before(width, height, frames, k).len() == image_len(width, height),
    decreases k,
{
    if k > 0 {
        lemma_canvas_len(width, height, frames, k - 1);
    }
}

/// Composite raw frames in order onto a canvas of the given size, applying each frame's
/// disposal before the next one is drawn.
pub fn composite_frames(width: u32, height: u32, frames: &[RawFrame]) -> (r: Vec<DecodedFrame>)
    requires
        image_len(width, height) <= usize::MAX,
    ensures
        composites(r@, width, height, frames@),
{
    let blank = RgbaImage::new(width, height);
    let mut canvas: Vec<u8> = blank.data;
    proof {
        assert(canvas@ =~= canvas_before(width, height, frames@, 0));
    }
    let mut out: Vec<DecodedFrame> = Vec::new();
    let mut k: usize = 0;
    while k < frames.len()
        invariant
            k <= frames@.len(),
            canvas@ == canvas_before(width, height, frames@, k as int),
            image_len(width, height) <= usize::MAX,
            composites(out@, width, height, frames@.take(k as int)),
        decreases frames@.len() - k,
    {
        proof {
            lemma_canvas_len(width, height, frames@, k as int);
            if canvas@.len() > 0 {
                assert(width > 0) by (nonlinear_arith)
                    requires
                        width as int * height as int * 4 > 0,
                ;
            }
        }
        let f = &frames[k];
        let (shown, next) = composite_step(canvas, width, f);
        let decoded = DecodedFrame {
            index: k,
            image: RgbaImage { width, height, data: shown },
            delay_centiseconds: f.delay,
            disposal: f.disposal,
            left: f.left,
            top: f.top,
        };
        let ghost before = out@;
        out.push(decoded);
        proof {
            assert(out@[k as int] == decoded);
            assert forall|j: int| 0 <= j < out@.len() implies composited(
                #[trigger] out@[j],
                width,
                height,
                frames@.take(k + 1),
                j,
            ) by {
                lemma_canvas_prefix(width, height, frames@, k + 1, j);
                if j < k {
                    lemma_canvas_prefix(width, height, frames@, k as int, j);
                    assert(out@[j] == before[j]);
                    assert(frames@.take(k as int)[j] == frames@.take(k + 1)[j]);
                }
            }
        }
        canvas = next;
        k = k + 1;
    }
    proof {
        assert(frames@.take(k as int) =~= frames@);
    }
    out
}

/// The canvas before frame `j` depends only on the frames before it.
proof fn lemma_canvas_prefix(width: u32, height: u32, frames: Seq<RawFrame>, n: int, j: int)
    requires
        0 <= j <= n <= frames.len(),
    ensures
        canvas_before(width, height, frames.take(n), j) == canvas_before(width, height, frames, j),
    decreases j,
{
    if j > 0 {
        lemma_canvas_prefix(width, height, frames, n, j - 1);
        assert(frames.take(n)[j - 1] == frames[j - 1]);
    }
}

/// Open a GIF held in memory: `gif::DecodeOptions::new()` with RGBA color output, then
/// `read_info` over the bytes. The contract claims that the outcome is [`gif_info`] of the
/// bytes, and that the stream starts with no frame read.
#[verifier::external_body]
fn open_gif<'a>(data: &'a [u8]) -> (r: Result<GifReader<'a>, DecodingError>)
    ensures
        r is Ok <==> gif_info(data@) is Some,
        r is Ok ==> r->Ok_0.data() == data@ && Some(r->Ok_0.info()) == gif_info(data@) && r->Ok_0.calls() == 0,
{
    let mut options = DecodeOptions::new();
    options.set_color_output(ColorOutput::RGBA);
    match options.read_info(data) {
        Ok(decoder) => Ok(GifReader { source: GifSource { decoder }, data: Ghost(data@), info: Ghost(arbitrary()), calls: Ghost(0) }),
        Err(e) => Err(e),
    }
}

/// The logical screen width the open GIF declares (`gif::Decoder::width`), as read when it
/// was opened.
#[verifier::external_body]
fn screen_width(reader: &GifReader) -> (r: u16)
    ensures
        r == reader.info().0,
{
    reader.source.decoder.width()
}

/// The logical screen height the open GIF declares (`gif::Decoder::height`), as read when
/// it was opened.
#[verifier::external_body]
fn screen_height(reader: &GifReader) -> (r: u16)
    ensures
        r == reader.info().1,
{
    reader.source.decoder.height()
}

/// The global palette of the open GIF (`gif::Decoder::global_palette`), copied, as read
/// when it was opened.
#[verifier::external_body]
fn global_palette(reader: &GifReader) -> (r: Option<Vec<u8>>)
    ensures
        r is Some <==> reader.info().2 is Some,
        r is Some ==> r->Some_0@ == reader.info().2->Some_0,
{
    match reader.source.decoder.global_palette() {
        Some(p) => Some(p.to_vec()),
        None => None,
    }
}

/// The background color index of the open GIF (`gif::Decoder::bg_color`), as read when it
/// was opened.
#[verifier::external_body]
fn background_color(reader: &GifReader) -> (r: Option<usize>)
    ensures
        r == reader.info().3,
{
    reader.source.decoder.bg_color()
}

/// Read the next frame of the open GIF (`gif::Decoder::read_next_frame`), converted to a
/// [`RawFrame`]; `Ok(None)` at the end of the stream. The contract claims that the outcome
/// is [`gif_frame`] of the GIF's bytes and the number of reads made before.
#[verifier::external_body]
fn read_frame(reader: &mut GifReader) -> (r: Result<Option<RawFrame>, DecodingError>)
    ensures
        final(reader).data() == old(reader).data(),
        final(reader).info() == old(reader).info(),
        final(reader).calls() == old(reader).calls() + 1,
        match gif_frame(old(reader).data(), old(reader).calls()) {
            None => r is Err,
            Some(None) => r matches Ok(None),
            Some(Some(t)) => r matches Ok(Some(f)) && raw_is(f, t),
        },
{
    let f = match reader.source.decoder.read_next_frame() {
        Ok(Some(f)) => f,
        Ok(None) => return Ok(None),
        Err(e) => return Err(e),
    };
    let disposal = match f.dispose {
        gif::DisposalMethod::Any => DisposalMethod::Any,
        gif::DisposalMethod::Keep => DisposalMethod::Keep,
        gif::DisposalMethod::Background => DisposalMethod::Background,
        gif::DisposalMethod::Previous => DisposalMethod::Previous,
    };
    let (delay, left, top, width, height) = (f.delay, f.left, f.top, f.width, f.height);
    Ok(Some(RawFrame { delay, disposal, left, top, width, height, buffer: f.buffer.to_vec() }))
}

/// The message of a decoding error (its `Display` text); nothing is claimed of it.
#[verifier::external_body]
fn decoding_error_text(e: &DecodingError) -> (r: String) {
    e.to_string()
}

/// The library's error for a failure of the GIF codec.
fn decode_failure(e: &DecodingError) -> (r: FigifError)
    ensures
        r is DecodeError,
{
    FigifError::DecodeError { reason: decoding_error_text(e) }
}

/// Frames decoded lazily from an open GIF, composited one at a time.
pub struct StreamingFrames<'a> {
    reader: GifReader<'a>,
    width: u32,
    height: u32,
    canvas: Vec<u8>,
    index: usize,
    history: Ghost<Seq<RawFrame>>,
    at_end: Ghost<bool>,
    failed: Ghost<bool>,
}

impl<'a> StreamingFrames<'a> {
    /// The raw frames read so far.
    pub closed spec fn frames_read(&self) -> Seq<RawFrame> {
        self.history@
    }

    /// The GIF's bytes.
    pub closed spec fn data(&self) -> Seq<u8> {
        self.reader.data()
    }

    /// How many frame reads were made.
    pub closed spec fn reads(&self) -> nat {
        self.reader.calls()
    }

    /// The last read found no further frame: the codec reported the end of the GIF.
    pub closed spec fn at_end(&self) -> bool {
        self.at_end@
    }

    /// The last read failed: the codec rejected the next frame.
    pub closed spec fn failed(&self) -> bool {
        self.failed@
    }

    /// The logical screen width.
    pub closed spec fn screen_width(&self) -> u32 {
        self.width
    }

    /// The logical screen height.
    pub closed spec fn screen_height(&self) -> u32 {
        self.height
    }

    /// The canvas is the one the next frame is drawn on, and the frames read are those the
    /// codec gave for the GIF's bytes, on a screen of the size it declares.
    pub closed spec fn wf(&self) -> bool {
        &&& self.canvas@ == canvas_before(self.width, self.height, self.history@, self.history@.len() as int)
        &&& self.index == self.history@.len()
        &&& image_len(self.width, self.height) <= usize::MAX
        &&& self.width == self.reader.info().0
        &&& self.height == self.reader.info().1
        &&& Some(self.reader.info()) == gif_info(self.reader.data())
        &&& raws_are(self.history@, frames_among(self.reader.data(), self.reader.calls()))
    }

    /// Start decoding frames over a blank canvas of the GIF's screen size.
    fn start(reader: GifReader<'a>) -> (r: Result<StreamingFrames<'a>, FigifError>)
        requires
            Some(reader.info()) == gif_info(reader.data()),
            reader.calls() == 0,
        ensures
            match r {
                Ok(frames) => frames.wf() && frames.frames_read().len() == 0 && !frames.at_end()
                    && !frames.failed() && frames.data() == reader.data() && frames.reads() == 0,
                Err(e) => e is InvalidConfig && image_len(reader.info().0 as u32, reader.info().1 as u32) > usize::MAX,
            },
    {
        let w16 = screen_width(&reader);
        let h16 = screen_height(&reader);
        let width: u32 = w16 as u32;
        let height: u32 = h16 as u32;
        assert(width < 65536 && height < 65536);
        assert(width as int * height as int * 4 <= 65535 * 65535 * 4) by (nonlinear_arith)
            requires
                width < 65536,
                height < 65536,
        ;
        if width as u64 * height as u64 * 4 > usize::MAX as u64 {
            return Err(FigifError::InvalidConfig { message: String::from_str("GIF canvas too large") });
        }
        let blank = RgbaImage::new(width, height);
        let frames = StreamingFrames {
            reader,
            width,
            height,
            canvas: blank.data,
            index: 0,
            history: Ghost(Seq::empty()),
            at_end: Ghost(false),
            failed: Ghost(false),
        };
        assert(frames.canvas@ =~= canvas_before(width, height, Seq::empty(), 0));
        assert(frames_among(frames.reader.data(), 0) =~= Seq::<CodecFrame>::empty());
        Ok(frames)
    }

    /// Decode and composite the next frame; `None` at the end of the GIF. What comes out is
    /// what the codec gives for the next read of the GIF's bytes.
    pub fn next_frame(&mut self) -> (r: Option<Result<DecodedFrame, FigifError>>)
        requires
            old(self).wf(),
            old(self).frames_read().len() < usize::MAX,
        ensures
            final(self).wf(),
            final(self).screen_width() == old(self).screen_width(),
            final(self).screen_height() == old(self).screen_height(),
            final(self).data() == old(self).data(),
            final(self).reads() == old(self).reads() + 1,
            final(self).at_end() <==> r is None,
            final(self).failed() <==> r matches Some(Err(_)),
            match gif_frame(old(self).data(), old(self).reads()) {
                None => r matches Some(Err(e)) && e is DecodeError && final(self).frames_read() == old(
                    self,
                ).frames_read(),
                Some(None) => r is None && final(self).frames_read() == old(self).frames_read(),
                Some(Some(t)) => r matches Some(Ok(frame)) && exists|raw: RawFrame|
                    raw_is(raw, t) && final(self).frames_read() == old(self).frames_read().push(raw)
                        && composited(
                        frame,
                        old(self).screen_width(),
                        old(self).screen_height(),
                        final(self).frames_read(),
                        old(self).frames_read().len() as int,
                    ),
            },
    {
        let ghost k = self.reader.calls();
        let raw = match read_frame(&mut self.reader) {
            Ok(Some(raw)) => raw,
            Ok(None) => {
                self.at_end = Ghost(true);
                self.failed = Ghost(false);
                return None;
            },
            Err(e) => {
                self.at_end = Ghost(false);
                self.failed = Ghost(true);
                return Some(Err(decode_failure(&e)));
            },
        };
        proof {
            lemma_canvas_len(self.width, self.height, self.history@, self.history@.len() as int);
            if self.canvas@.len() > 0 {
                assert(self.width > 0) by (nonlinear_arith)
                    requires
                        self.width as int * self.height as int * 4 > 0,
                ;
            }
        }
        let mut canvas: Vec<u8> = Vec::new();
        std::mem::swap(&mut canvas, &mut self.canvas);
        let (shown, next) = composite_step(canvas, self.width, &raw);
        let frame = DecodedFrame {
            index: self.index,
            image: RgbaImage { width: self.width, height: self.height, data: shown },
            delay_centiseconds: raw.delay,
            disposal: raw.disposal,
            left: raw.left,
            top: raw.top,
        };
        let ghost old_history = self.history@;
        self.canvas = next;
        self.index = self.index + 1;
        self.history = Ghost(self.history@.push(raw));
        self.at_end = Ghost(false);
        self.failed = Ghost(false);
        proof {
            lemma_canvas_prefix(self.width, self.height, self.history@, old_history.len() as int, old_history.len() as int);
            assert(self.history@.take(old_history.len() as int) =~= old_history);
            assert(self.history@[old_history.len() as int] == raw);
            let fs = frames_among(self.reader.data(), k);
            assert(frames_among(self.reader.data(), k + 1) == fs.push(gif_frame(self.reader.data(), k)->Some_0->Some_0));
            assert forall|j: int| 0 <= j < self.history@.len() implies raw_is(
                #[trigger] self.history@[j],
                frames_among(self.reader.data(), self.reader.calls())[j],
            ) by {
                if j < old_history.len() {
                    assert(self.history@[j] == old_history[j]);
                }
            }
        }
        Some(Ok(frame))
    }
}

/// Once reading has stopped at an end or a failure, further reads change nothing.
proof fn lemma_gif_read_stays(data: Seq<u8>, n: nat, m: nat)
    requires
        n <= m,
        gif_read(data, n).1 != 0,
    ensures
        gif_read(data, m) == gif_read(data, n),
    decreases m - n,
{
    if n < m {
        lemma_gif_read_stays(data, n, (m - 1) as nat);
    }
}

/// While every read gave a frame, the frames read are all the frames among the reads.
proof fn lemma_gif_read_among(data: Seq<u8>, n: nat)
    requires
        gif_read(data, n).1 == 0,
    ensures
        gif_read(data, n).0 == frames_among(data, n),
        gif_read(data, n).0.len() == n,
    decreases n,
{
    if n > 0 {
        let prev = gif_read(data, (n - 1) as nat);
        if prev.1 != 0 {
            assert(gif_read(data, n) == prev);
        } else {
            lemma_gif_read_among(data, (n - 1) as nat);
        }
    }
}

/// Decode a whole GIF held in memory into composited frames, reading at most one frame per
/// byte of input (a GIF frame takes several bytes): frames are read until the codec reports
/// the end, rejects a frame, or `limit` frames have been read.
fn decode_all<'a>(frames: &mut StreamingFrames<'a>, limit: usize) -> (r: Result<Vec<DecodedFrame>, FigifError>)
    requires
        old(frames).wf(),
        old(frames).reads() == 0,
        old(frames).frames_read().len() == 0,
    ensures
        ({
            let (fs, st) = gif_read(old(frames).data(), limit as nat);
            match r {
                Ok(out) => st != 2 && decoded_frames(out@, old(frames).screen_width(), old(frames).screen_height(), fs),
                Err(e) => st == 2 && e is DecodeError,
            }
        }),
{
    let mut out: Vec<DecodedFrame> = Vec::new();
    let mut count: usize = 0;
    let ghost w = frames.screen_width();
    let ghost h = frames.screen_height();
    let ghost data = frames.data();
    while count < limit
        invariant
            frames.wf(),
            frames.screen_width() == w,
            frames.screen_height() == h,
            frames.data() == data,
            count <= limit,
            w == old(frames).screen_width(),
            h == old(frames).screen_height(),
            data == old(frames).data(),
            frames.frames_read().len() == count,
            frames.reads() == count,
            gif_read(data, count as nat).1 == 0,
            composites(out@, w, h, frames.frames_read()),
        decreases limit - count,
    {
        let ghost before = frames.frames_read();
        let ghost before_out = out@;
        proof {
            lemma_gif_read_among(data, count as nat);
        }
        match frames.next_frame() {
            Some(Ok(frame)) => {
                out.push(frame);
                proof {
                    let all = frames.frames_read();
                    assert forall|k: int| 0 <= k < out@.len() implies composited(
                        #[trigger] out@[k],
                        w,
                        h,
                        all,
                        k,
                    ) by {
                        if k < count {
                            assert(out@[k] == before_out[k]);
                            assert(all.take(count as int) =~= before);
                            lemma_canvas_prefix(w, h, all, count as int, k);
                            assert(all[k] == before[k]);
                        }
                    }
                }
                count = count + 1;
            },
            Some(Err(e)) => {
                proof {
                    lemma_gif_read_stays(data, (count + 1) as nat, limit as nat);
                }
                return Err(e);
            },
            None => {
                proof {
                    lemma_gif_read_stays(data, (count + 1) as nat, limit as nat);
                    assert(frames_among(data, (count + 1) as nat) == frames_among(data, count as nat));
                    lemma_decoded_from_reads(out@, w, h, frames.frames_read(), gif_read(data, limit as nat).0);
                }
                return Ok(out);
            },
        }
    }
    proof {
        lemma_gif_read_among(data, count as nat);
        lemma_decoded_from_reads(out@, w, h, frames.frames_read(), gif_read(data, limit as nat).0);
    }
    Ok(out)
}

/// `out` holds the GIF frames `fs`, as the codec read them, composited on a screen of
/// `width x height`.
pub open spec fn decoded_frames(out: Seq<DecodedFrame>, width: u32, height: u32, fs: Seq<CodecFrame>) -> bool {
    exists|raw: Seq<RawFrame>| raws_are(raw, fs) && #[trigger] composites(out, width, height, raw)
}

proof fn lemma_decoded_from_reads(out: Seq<DecodedFrame>, width: u32, height: u32, raw: Seq<RawFrame>, fs: Seq<CodecFrame>)
    requires
        raws_are(raw, fs),
        composites(out, width, height, raw),
    ensures
        decoded_frames(out, width, height, fs),
{
}

/// Sum of the delays of codec frames, in centiseconds.
pub open spec fn delay_total(frames: Seq<CodecFrame>) -> int
    decreases frames.len(),
{
    if frames.len() == 0 {
        0
    } else {
        delay_total(frames.drop_last()) + frames.last().0
    }
}

/// The screen size and frames decoding a GIF's bytes whole gives under a memory limit (0 for
/// none), where it succeeds (see [`buffered_decoding`]).
pub open spec fn decoded_gif(data: Seq<u8>, limit: usize) -> Option<(u32, u32, Seq<CodecFrame>)> {
    if data.len() == 0 {
        None
    } else {
        match gif_info(data) {
            None => None,
            Some(i) => {
                let w = i.0 as u32;
                let h = i.1 as u32;
                if image_len(w, h) > usize::MAX || over_limit(limit, w, h) {
                    None
                } else {
                    let (fs, st) = gif_read(data, data.len());
                    if st == 2 || fs.len() == 0 {
                        None
                    } else {
                        Some((w, h, fs))
                    }
                }
            },
        }
    }
}

/// What decoding a GIF's bytes whole gives under a memory limit (0 for none): `EmptyData`
/// for no bytes; `DecodeError` where the codec cannot open the GIF; `InvalidConfig` where
/// two RGBA frames of the screen exceed the limit (or one does not fit in memory at all);
/// `DecodeError` where the codec rejects a frame before the end; `NoFrames` where it reads
/// none; else the frames it reads, composited.
pub open spec fn buffered_decoding(data: Seq<u8>, limit: usize, r: Result<Vec<DecodedFrame>, FigifError>) -> bool {
    if data.len() == 0 {
        r matches Err(FigifError::EmptyData)
    } else {
        match gif_info(data) {
            None => r matches Err(FigifError::DecodeError { .. }),
            Some(i) => {
                let w = i.0 as u32;
                let h = i.1 as u32;
                if image_len(w, h) > usize::MAX || over_limit(limit, w, h) {
                    r matches Err(FigifError::InvalidConfig { .. })
                } else {
                    let (fs, st) = gif_read(data, data.len());
                    if st == 2 {
                        r matches Err(FigifError::DecodeError { .. })
                    } else if fs.len() == 0 {
                        r matches Err(FigifError::NoFrames)
                    } else {
                        r matches Ok(out) && decoded_frames(out@, w, h, fs)
                    }
                }
            },
        }
    }
}

/// A buffered GIF decoder that loads and composites all frames.
#[derive(Debug, Clone, Copy, Default)]
pub struct BufferedDecoder {
    /// Memory limit for decoding (0 = no limit).
    memory_limit: usize,
}

/// The screen is too large for the memory limit: two RGBA frames of it exceed the limit.
pub open spec fn over_limit(limit: usize, width: u32, height: u32) -> bool {
    limit > 0 && 2 * image_len(width, height) > limit
}

impl BufferedDecoder {
    /// The memory limit (0 = none).
    pub closed spec fn limit(&self) -> usize {
        self.memory_limit
    }

    /// Create a new buffered decoder with no memory limit.
    pub fn new() -> (r: Self)
        ensures
            r.limit() == 0,
    {
        BufferedDecoder { memory_limit: 0 }
    }

    /// Set a memory limit for decoding: decoding fails if two frames of the GIF's size
    /// would exceed it.
    pub fn with_memory_limit(self, limit: usize) -> (r: Self)
        ensures
            r.limit() == limit,
    {
        BufferedDecoder { memory_limit: limit }
    }

    /// Decode all frames of a GIF held in memory, composited.
    ///
    /// Empty input is `EmptyData`; a GIF without frames is `NoFrames`; a screen too large
    /// for the memory limit is `InvalidConfig`; what the codec rejects is `DecodeError`.
    pub fn decode_bytes(&self, data: &[u8]) -> (r: Result<Vec<DecodedFrame>, FigifError>)
        ensures
            buffered_decoding(data@, self.limit(), r),
    {
        if data.len() == 0 {
            return Err(FigifError::EmptyData);
        }
        let reader = match open_gif(data) {
            Ok(reader) => reader,
            Err(e) => {
                return Err(decode_failure(&e));
            },
        };
        let mut frames = match StreamingFrames::start(reader) {
            Ok(frames) => frames,
            Err(e) => {
                return Err(e);
            },
        };
        let width = frames.width;
        let height = frames.height;
        if self.memory_limit > 0 {
            assert(width as int * height as int * 4 <= 65535 * 65535 * 4) by (nonlinear_arith)
                requires
                    width < 65536,
                    height < 65536,
            ;
            let frame_size: u64 = width as u64 * height as u64 * 4;
            if frame_size * 2 > self.memory_limit as u64 {
                return Err(FigifError::InvalidConfig {
                    message: dimension_limit_message(width, height),
                });
            }
        }
        let decoded = decode_all(&mut frames, data.len());
        match decoded {
            Ok(out) => {
                if out.len() == 0 {
                    Err(FigifError::NoFrames)
                } else {
                    Ok(out)
                }
            },
            Err(e) => Err(e),
        }
    }

    /// Read a GIF's metadata: screen size, frame count, total duration (saturated at
    /// `u64::MAX` milliseconds) and palette; the loop count is reported as infinite.
    /// Transparency is reported when the GIF has a global palette and a background color.
    pub fn metadata_from_bytes(&self, data: &[u8]) -> (r: Result<GifMetadata, FigifError>)
        ensures
            metadata_outcome(data@, r, true),
    {
        read_metadata(data, true)
    }

    /// The name of this decoder.
    pub fn name(&self) -> (r: &'static str)
        ensures
            r@ == "buffered"@,
    {
        "buffered"
    }
}

/// What reading metadata gives: `EmptyData` for no bytes; `DecodeError` where the codec
/// cannot open the GIF or rejects a frame before the end; else the screen size, palette and
/// transparency it declares, with the count and total delay of the frames it reads.
pub open spec fn metadata_outcome(data: Seq<u8>, r: Result<GifMetadata, FigifError>, needs_background: bool) -> bool {
    if data.len() == 0 {
        r matches Err(FigifError::EmptyData)
    } else {
        match gif_info(data) {
            None => r matches Err(FigifError::DecodeError { .. }),
            Some(i) => {
                let (fs, st) = gif_read(data, data.len());
                if st == 2 {
                    r matches Err(FigifError::DecodeError { .. })
                } else {
                    r matches Ok(m) && metadata_of(m, i, fs, needs_background)
                }
            },
        }
    }
}

/// `m` describes a GIF whose opening gave `info` and whose frames are `fs`.
pub open spec fn metadata_of(
    m: GifMetadata,
    info: (u16, u16, Option<Seq<u8>>, Option<usize>),
    fs: Seq<CodecFrame>,
    needs_background: bool,
) -> bool {
    &&& m.width == info.0
    &&& m.height == info.1
    &&& m.frame_count == fs.len()
    &&& m.total_duration_ms == if 10 * delay_total(fs) <= u64::MAX {
        10 * delay_total(fs)
    } else {
        u64::MAX as int
    }
    &&& m.has_transparency == (info.2 is Some && (!needs_background || info.3 is Some))
    &&& (m.global_palette is Some <==> info.2 is Some)
    &&& (m.global_palette is Some ==> m.global_palette->Some_0@ == info.2->Some_0)
    &&& m.loop_count == LoopCount::Infinite
}

proof fn lemma_delay_total_push(fs: Seq<CodecFrame>, t: CodecFrame)
    ensures
        delay_total(fs.push(t)) == delay_total(fs) + t.0,
{
    assert(fs.push(t).drop_last() =~= fs);
}

proof fn lemma_delay_total_bound(fs: Seq<CodecFrame>)
    ensures
        0 <= delay_total(fs) <= fs.len() * 65535,
    decreases fs.len(),
{
    if fs.len() > 0 {
        lemma_delay_total_bound(fs.drop_last());
    }
}

/// Read a GIF's metadata: screen size, frame count, total duration (saturated at
/// `u64::MAX` milliseconds) and palette; the loop count is reported as infinite.
fn read_metadata(data: &[u8], needs_background: bool) -> (r: Result<GifMetadata, FigifError>)
    ensures
        metadata_outcome(data@, r, needs_background),
{
    if data.len() == 0 {
        return Err(FigifError::EmptyData);
    }
    let mut reader = match open_gif(data) {
        Ok(reader) => reader,
        Err(e) => {
            return Err(decode_failure(&e));
        },
    };
    let width = screen_width(&reader);
    let height = screen_height(&reader);
    let palette = global_palette(&reader);
    let has_transparency = palette.is_some() && (!needs_background || background_color(&reader).is_some());
    let mut frame_count: usize = 0;
    let mut total_duration_cs: u128 = 0;
    let limit = data.len();
    let ghost d = data@;
    let mut ended = false;
    while frame_count < limit && !ended
        invariant
            frame_count <= limit,
            limit == d.len(),
            d == data@,
            limit > 0,
            reader.data() == d,
            !ended ==> reader.calls() == frame_count && gif_read(d, frame_count as nat).1 == 0,
            ended ==> gif_read(d, limit as nat).0 == gif_read(d, frame_count as nat).0 && gif_read(
                d,
                limit as nat,
            ).1 == 1,
            gif_read(d, frame_count as nat).0.len() == frame_count,
            total_duration_cs == delay_total(gif_read(d, frame_count as nat).0),
            total_duration_cs <= frame_count * 65535,
        decreases limit - frame_count + (if ended { 0int } else { 1int }),
    {
        let ghost k = frame_count as nat;
        match read_frame(&mut reader) {
            Ok(Some(raw)) => {
                proof {
                    lemma_delay_total_push(gif_read(d, k).0, gif_frame(d, k)->Some_0->Some_0);
                }
                frame_count = frame_count + 1;
                total_duration_cs = total_duration_cs + raw.delay as u128;
            },
            Ok(None) => {
                proof {
                    lemma_gif_read_stays(d, k + 1, limit as nat);
                }
                ended = true;
            },
            Err(e) => {
                proof {
                    lemma_gif_read_stays(d, k + 1, limit as nat);
                }
                return Err(decode_failure(&e));
            },
        }
    }
    let total_duration_ms: u64 = if total_duration_cs <= (u64::MAX / 10) as u128 {
        (total_duration_cs * 10) as u64
    } else {
        u64::MAX
    };
    Ok(GifMetadata {
        width,
        height,
        frame_count,
        total_duration_ms,
        has_transparency,
        loop_count: LoopCount::Infinite,
        global_palette: palette,
    })
}

/// What opening a GIF's bytes for frame-by-frame decoding gives: `EmptyData` for no
/// bytes; `DecodeError` where the codec cannot open the GIF; `InvalidConfig` where one
/// frame of the screen does not fit in memory; else a stream at its start over those bytes.
pub open spec fn streaming_opened<'a>(data: Seq<u8>, r: Result<StreamingFrames<'a>, FigifError>) -> bool {
    if data.len() == 0 {
        r matches Err(FigifError::EmptyData)
    } else {
        match gif_info(data) {
            None => r matches Err(FigifError::DecodeError { .. }),
            Some(i) => if image_len(i.0 as u32, i.1 as u32) > usize::MAX {
                r matches Err(FigifError::InvalidConfig { .. })
            } else {
                r matches Ok(frames) && frames.wf() && frames.frames_read().len() == 0 && frames.reads() == 0
                    && frames.data() == data && frames.screen_width() == i.0 && frames.screen_height() == i.1
                    && !frames.at_end() && !frames.failed()
            },
        }
    }
}

/// A GIF decoder that decodes frames lazily.
#[derive(Debug, Clone, Copy, Default)]
pub struct StreamingDecoder;

impl StreamingDecoder {
    /// Create a new streaming decoder.
    pub fn new() -> (r: Self)
        ensures
            r == StreamingDecoder,
    {
        StreamingDecoder
    }

    /// Open a GIF held in memory for frame-by-frame decoding.
    pub fn decode_bytes<'a>(&self, data: &'a [u8]) -> (r: Result<StreamingFrames<'a>, FigifError>)
        ensures
            streaming_opened(data@, r),
    {
        if data.len() == 0 {
            return Err(FigifError::EmptyData);
        }
        match open_gif(data) {
            Ok(reader) => StreamingFrames::start(reader),
            Err(e) => Err(decode_failure(&e)),
        }
    }

    /// Read a GIF's metadata; transparency is reported when the GIF has a global palette.
    pub fn metadata_from_bytes(&self, data: &[u8]) -> (r: Result<GifMetadata, FigifError>)
        ensures
            metadata_outcome(data@, r, false),
    {
        read_metadata(data, false)
    }

    /// The name of this decoder.
    pub fn name(&self) -> (r: &'static str)
        ensures
            r@ == "streaming"@,
    {
        "streaming"
    }
}

/// The message for a screen too large for the memory limit:
/// `"GIF dimensions WxH exceed memory limit"`.
fn dimension_limit_message(width: u32, height: u32) -> (r: String)
    ensures
        r@ == "GIF dimensions "@ + crate::format::decimal(width as nat) + "x"@ + crate::format::decimal(height as nat)
            + " exceed memory limit"@,
{
    let mut s = String::from_str("GIF dimensions ");
    crate::format::push_decimal(&mut s, width as u128);
    s.append("x");
    crate::format::push_decimal(&mut s, height as u128);
    s.append(" exceed memory limit");
    s
}
} // verus!
