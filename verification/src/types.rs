//! Core data types: frames, images, segments and the operations applied to them.
use vstd::prelude::*;
use std::collections::BTreeMap;
use std::collections::HashMap;
use std::ops::Range;

verus! {

broadcast use {
    vstd::std_specs::hash::group_hash_axioms,
    vstd::std_specs::btree::group_btree_axioms,
    vstd::laws_cmp::group_laws_cmp,
};

/// Loop behavior for animated GIFs.
#[derive(Debug, Clone, Copy, PartialEq, Eq, Structural)]
pub enum LoopCount {
    /// Loop forever (most common for GIFs).
    Infinite,
    /// Play exactly once (no loop).
    Once,
    /// Loop a specific number of times.
    Finite(u16),
}

impl Default for LoopCount {
    fn default() -> (r: Self)
        ensures
            r == LoopCount::Infinite,
    {
        LoopCount::Infinite
    }
}

impl LoopCount {
    /// The GIF repeat count this loop behavior is written as (`None` = repeat forever).
    pub open spec fn spec_repeat(self) -> Option<u16> {
        match self {
            LoopCount::Infinite => None,
            LoopCount::Once => Some(0),
            LoopCount::Finite(n) => Some(n),
        }
    }

    /// Loop behavior read back from a GIF repeat count (`None` = repeat forever).
    pub open spec fn spec_from_repeat(repeat: Option<u16>) -> LoopCount {
        match repeat {
            None => LoopCount::Infinite,
            Some(0) => LoopCount::Once,
            Some(n) => LoopCount::Finite(n),
        }
    }

    /// Convert a GIF repeat count (`None` = forever) into a loop behavior.
    pub fn from_repeat(repeat: Option<u16>) -> (r: LoopCount)
        ensures
            r == LoopCount::spec_from_repeat(repeat),
    {
        match repeat {
            None => LoopCount::Infinite,
            Some(0) => LoopCount::Once,
            Some(n) => LoopCount::Finite(n),
        }
    }

    /// The GIF repeat count for this loop behavior (`None` = forever).
    pub fn to_repeat(&self) -> (r: Option<u16>)
        ensures
            r == self.spec_repeat(),
    {
        match self {
            LoopCount::Infinite => None,
            LoopCount::Once => Some(0),
            LoopCount::Finite(n) => Some(*n),
        }
    }
}

/// How to dispose of a frame before drawing the next one.
#[derive(Debug, Clone, Copy, PartialEq, Eq, Structural)]
pub enum DisposalMethod {
    /// No disposal specified (keep the frame).
    Keep,
    /// Do not dispose, leave the canvas as-is (the GIF format's "unspecified" disposal).
    Any,
    /// Restore to background color.
    Background,
    /// Restore to previous frame.
    Previous,
}

impl Default for DisposalMethod {
    fn default() -> (r: Self)
        ensures
            r == DisposalMethod::Keep,
    {
        DisposalMethod::Keep
    }
}

impl DisposalMethod {
    /// The disposal's code in the GIF format: 0 unspecified, 1 keep, 2 background, 3
    /// previous.
    pub open spec fn gif_code(self) -> u8 {
        match self {
            DisposalMethod::Any => 0,
            DisposalMethod::Keep => 1,
            DisposalMethod::Background => 2,
            DisposalMethod::Previous => 3,
        }
    }
}

/// An RGBA image with 8-bit channels, stored row by row, four bytes per pixel.
#[derive(Debug, Clone)]
pub struct RgbaImage {
    /// Width in pixels.
    pub width: u32,
    /// Height in pixels.
    pub height: u32,
    /// Raw pixel bytes, `width * height * 4` of them.
    pub data: Vec<u8>,
}

/// Number of bytes an image of the given dimensions holds.
pub open spec fn image_len(width: u32, height: u32) -> int {
    width as int * height as int * 4
}

impl View for RgbaImage {
    type V = (u32, u32, Seq<u8>);

    open spec fn view(&self) -> (u32, u32, Seq<u8>) {
        (self.width, self.height, self.data@)
    }
}

impl RgbaImage {
    /// The pixel buffer holds exactly one RGBA quadruple per pixel.
    pub open spec fn wf(&self) -> bool {
        self.data@.len() == image_len(self.width, self.height)
    }

    /// Byte offset of pixel `(x, y)`.
    pub open spec fn offset(&self, x: int, y: int) -> int {
        (y * self.width as int + x) * 4
    }

    /// The four channels of pixel `(x, y)`.
    pub open spec fn pixel(&self, x: int, y: int) -> Seq<u8> {
        self.data@.subrange(self.offset(x, y), self.offset(x, y) + 4)
    }

    /// Create an image of the given size with every pixel set to `pixel`.
    pub fn from_pixel(width: u32, height: u32, pixel: [u8; 4]) -> (r: RgbaImage)
        requires
            image_len(width, height) <= usize::MAX,
        ensures
            r.wf(),
            r.width == width,
            r.height == height,
            forall|i: int| 0 <= i < r.data@.len() ==> #[trigger] r.data@[i] == pixel@[i % 4],
    {
        let total: usize = (width as usize) * (height as usize) * 4;
        let mut data: Vec<u8> = Vec::with_capacity(total);
        let mut i: usize = 0;
        while i < total
            invariant
                i <= total,
                total == image_len(width, height),
                data@.len() == i,
                forall|j: int| 0 <= j < i ==> #[trigger] data@[j] == pixel@[j % 4],
            decreases total - i,
        {
            data.push(pixel[i % 4]);
            i = i + 1;
        }
        RgbaImage { width, height, data }
    }

    /// Create a fully transparent black image of the given size.
    pub fn new(width: u32, height: u32) -> (r: RgbaImage)
        requires
            image_len(width, height) <= usize::MAX,
        ensures
            r.wf(),
            r.width == width,
            r.height == height,
            forall|i: int| 0 <= i < r.data@.len() ==> #[trigger] r.data@[i] == 0,
    {
        let r = Self::from_pixel(width, height, [0u8, 0u8, 0u8, 0u8]);
        assert forall|i: int| 0 <= i < r.data@.len() implies #[trigger] r.data@[i] == 0 by {
            assert(r.data@[i] == [0u8, 0u8, 0u8, 0u8]@[i % 4]);
        }
        r
    }

    /// Width and height.
    pub fn dimensions(&self) -> (r: (u32, u32))
        ensures
            r == (self.width, self.height),
    {
        (self.width, self.height)
    }

    /// The raw pixel bytes.
    pub fn as_raw(&self) -> (r: &Vec<u8>)
        ensures
            r@ == self.data@,
    {
        &self.data
    }

    /// An independent copy with the same pixels.
    pub fn duplicate(&self) -> (r: RgbaImage)
        ensures
            r@ == self@,
    {
        let data = self.data.clone();
        assert(data@ =~= self.data@);
        RgbaImage { width: self.width, height: self.height, data }
    }

    /// Whether the two images have the same size and the same pixels.
    pub fn same_pixels(&self, other: &RgbaImage) -> (r: bool)
        ensures
            r == (self@ == other@),
    {
        if self.width != other.width || self.height != other.height {
            return false;
        }
        if self.data.len() != other.data.len() {
            return false;
        }
        let n = self.data.len();
        let mut i: usize = 0;
        while i < n
            invariant
                n == self.data@.len(),
                n == other.data@.len(),
                i <= n,
                forall|j: int| 0 <= j < i ==> self.data@[j] == other.data@[j],
            decreases n - i,
        {
            if self.data[i] != other.data[i] {
                return false;
            }
            i = i + 1;
        }
        assert(self.data@ =~= other.data@);
        true
    }
}

/// Metadata about a GIF without frame pixel data.
#[derive(Debug, Clone)]
pub struct GifMetadata {
    /// Width in pixels.
    pub width: u16,
    /// Height in pixels.
    pub height: u16,
    /// Total number of frames.
    pub frame_count: usize,
    /// Total duration in milliseconds.
    pub total_duration_ms: u64,
    /// Whether the GIF uses transparency.
    pub has_transparency: bool,
    /// Loop behavior.
    pub loop_count: LoopCount,
    /// Global color table if present.
    pub global_palette: Option<Vec<u8>>,
}

impl GifMetadata {
    /// The same metadata: equal fields, and a palette with the same colors.
    pub open spec fn same_as(&self, other: GifMetadata) -> bool {
        &&& self.width == other.width
        &&& self.height == other.height
        &&& self.frame_count == other.frame_count
        &&& self.total_duration_ms == other.total_duration_ms
        &&& self.has_transparency == other.has_transparency
        &&& self.loop_count == other.loop_count
        &&& self.global_palette.is_some() == other.global_palette.is_some()
        &&& self.global_palette.is_some() ==> self.global_palette.unwrap()@
            == other.global_palette.unwrap()@
    }

    /// An independent copy.
    pub fn duplicate(&self) -> (r: GifMetadata)
        ensures
            r.same_as(*self),
    {
        let global_palette = match &self.global_palette {
            Some(p) => Some(p.clone()),
            None => None,
        };
        GifMetadata {
            width: self.width,
            height: self.height,
            frame_count: self.frame_count,
            total_duration_ms: self.total_duration_ms,
            has_transparency: self.has_transparency,
            loop_count: self.loop_count,
            global_palette,
        }
    }
}

/// A decoded frame ready for analysis.
#[derive(Debug, Clone)]
pub struct DecodedFrame {
    /// Zero-based index in the original GIF.
    pub index: usize,
    /// The fully composited RGBA image for this frame.
    pub image: RgbaImage,
    /// Frame delay in centiseconds (1/100th of a second).
    pub delay_centiseconds: u16,
    /// How to dispose of this frame.
    pub disposal: DisposalMethod,
    /// Frame position offset (x).
    pub left: u16,
    /// Frame position offset (y).
    pub top: u16,
}

impl DecodedFrame {
    /// The same frame: equal fields, and an image with the same pixels.
    pub open spec fn same_as(&self, other: DecodedFrame) -> bool {
        &&& self.index == other.index
        &&& self.image@ == other.image@
        &&& self.delay_centiseconds == other.delay_centiseconds
        &&& self.disposal == other.disposal
        &&& self.left == other.left
        &&& self.top == other.top
    }

    /// An independent copy of this frame.
    pub fn duplicate(&self) -> (r: DecodedFrame)
        ensures
            r.same_as(*self),
    {
        DecodedFrame {
            index: self.index,
            image: self.image.duplicate(),
            delay_centiseconds: self.delay_centiseconds,
            disposal: self.disposal,
            left: self.left,
            top: self.top,
        }
    }

    /// Get the delay in milliseconds.
    pub fn delay_ms(&self) -> (r: u32)
        ensures
            r == self.delay_centiseconds * 10,
    {
        self.delay_centiseconds as u32 * 10
    }
}

/// A frame with its computed perceptual hash.
#[derive(Debug, Clone)]
pub struct AnalyzedFrame<H> {
    /// The decoded frame data.
    pub frame: DecodedFrame,
    /// The perceptual hash of this frame.
    pub hash: H,
    /// The segment this frame belongs to, if assigned.
    pub segment_id: Option<usize>,
    /// Hash distance to the previous frame (0 = identical, higher = more different).
    /// None for the first frame.
    pub distance_to_prev: Option<u32>,
}

impl<H> AnalyzedFrame<H> {
    /// Create a new analyzed frame.
    pub fn new(frame: DecodedFrame, hash: H) -> (r: Self)
        ensures
            r.frame == frame,
            r.hash == hash,
            r.segment_id.is_none(),
            r.distance_to_prev.is_none(),
    {
        AnalyzedFrame { frame, hash, segment_id: None, distance_to_prev: None }
    }

    /// Create a new analyzed frame with distance to previous frame.
    pub fn with_distance(frame: DecodedFrame, hash: H, distance_to_prev: Option<u32>) -> (r: Self)
        ensures
            r.frame == frame,
            r.hash == hash,
            r.segment_id.is_none(),
            r.distance_to_prev == distance_to_prev,
    {
        AnalyzedFrame { frame, hash, segment_id: None, distance_to_prev }
    }

    /// A copy of this frame whose segment assignment is `segment_id`; the hash is cloned.
    pub fn duplicate_with_segment(&self, segment_id: Option<usize>) -> (r: Self) where H: Clone
        ensures
            r.frame.same_as(self.frame),
            cloned(self.hash, r.hash),
            r.segment_id == segment_id,
            r.distance_to_prev == self.distance_to_prev,
    {
        AnalyzedFrame {
            frame: self.frame.duplicate(),
            hash: self.hash.clone(),
            segment_id,
            distance_to_prev: self.distance_to_prev,
        }
    }

    /// Get the frame index.
    pub fn index(&self) -> (r: usize)
        ensures
            r == self.frame.index,
    {
        self.frame.index
    }

    /// Get the delay in centiseconds.
    pub fn delay_cs(&self) -> (r: u16)
        ensures
            r == self.frame.delay_centiseconds,
    {
        self.frame.delay_centiseconds
    }
}

/// A group of similar or consecutive frames.
///
/// The average hash distance within the segment is kept exactly, as the sum of the
/// distances between adjacent frames and the number of such distances.
#[derive(Debug)]
pub struct Segment {
    /// Unique segment identifier.
    pub id: usize,
    /// Range of frame indices in this segment (start..end).
    pub frame_range: Range<usize>,
    /// Total duration of this segment in centiseconds.
    pub total_duration_cs: u16,
    /// Sum of the hash distances between adjacent frames of the segment.
    pub distance_total: u128,
    /// Number of adjacent-frame distances summed in `distance_total`.
    pub distance_count: u64,
    /// Whether all frames in this segment are nearly identical (static).
    pub is_static: bool,
}

impl Clone for Segment {
    fn clone(&self) -> (r: Self)
        ensures
            r == *self,
    {
        Segment {
            id: self.id,
            frame_range: Range { start: self.frame_range.start, end: self.frame_range.end },
            total_duration_cs: self.total_duration_cs,
            distance_total: self.distance_total,
            distance_count: self.distance_count,
            is_static: self.is_static,
        }
    }
}

impl Segment {
    /// Number of frames in this segment.
    pub open spec fn spec_frame_count(&self) -> nat {
        if self.frame_range.end >= self.frame_range.start {
            (self.frame_range.end - self.frame_range.start) as nat
        } else {
            0
        }
    }

    /// Number of frames in this segment.
    pub fn frame_count(&self) -> (r: usize)
        ensures
            r == self.spec_frame_count(),
    {
        if self.frame_range.end >= self.frame_range.start {
            self.frame_range.end - self.frame_range.start
        } else {
            0
        }
    }

    /// Total duration in milliseconds.
    pub fn duration_ms(&self) -> (r: u32)
        ensures
            r == self.total_duration_cs * 10,
    {
        self.total_duration_cs as u32 * 10
    }

    /// The average hash distance as a fraction `(numerator, denominator)`;
    /// `(0, 1)` when the segment holds no adjacent pair.
    pub fn avg_distance(&self) -> (r: (u128, u64))
        ensures
            self.distance_count == 0 ==> r == (0u128, 1u64),
            self.distance_count != 0 ==> r == (self.distance_total, self.distance_count),
    {
        if self.distance_count == 0 {
            (0, 1)
        } else {
            (self.distance_total, self.distance_count)
        }
    }
}

/// Operations that can be applied to segments.
#[derive(Debug, Clone, Copy, PartialEq, Eq, Structural)]
pub enum SegmentOp {
    /// Keep the segment as-is.
    Keep,
    /// Remove the segment entirely.
    Remove,
    /// Collapse to a single frame with the specified delay.
    Collapse {
        /// Delay for the collapsed frame in centiseconds.
        delay_cs: u16,
    },
    /// Set the total duration for the segment, distributing evenly.
    SetDuration {
        /// Total duration in centiseconds.
        total_cs: u16,
    },
    /// Scale the timing by the factor `numerator / denominator`
    /// (1/2 = 2x faster, 2/1 = 2x slower).
    Scale {
        /// Numerator of the scaling factor.
        numerator: u32,
        /// Denominator of the scaling factor.
        denominator: u32,
    },
    /// Set a fixed delay for each frame in the segment.
    SetFrameDelay {
        /// Per-frame delay in centiseconds.
        delay_cs: u16,
    },
}

impl Default for SegmentOp {
    fn default() -> (r: Self)
        ensures
            r == SegmentOp::Keep,
    {
        SegmentOp::Keep
    }
}

/// A frame prepared for encoding.
#[derive(Debug, Clone)]
pub struct EncodableFrame {
    /// The RGBA image data.
    pub image: RgbaImage,
    /// Frame delay in centiseconds.
    pub delay_centiseconds: u16,
}

impl EncodableFrame {
    /// Create a new encodable frame.
    pub fn new(image: RgbaImage, delay_centiseconds: u16) -> (r: Self)
        ensures
            r.image == image,
            r.delay_centiseconds == delay_centiseconds,
    {
        EncodableFrame { image, delay_centiseconds }
    }

    /// Create from a decoded frame.
    pub fn from_decoded(frame: &DecodedFrame) -> (r: Self)
        ensures
            r.image@ == frame.image@,
            r.delay_centiseconds == frame.delay_centiseconds,
    {
        EncodableFrame { image: frame.image.duplicate(), delay_centiseconds: frame.delay_centiseconds }
    }
}

/// Configuration for encoding output GIFs.
#[derive(Debug, Clone)]
pub struct EncodeConfig {
    /// Target width (None = preserve original).
    pub width: Option<u16>,
    /// Target height (None = preserve original).
    pub height: Option<u16>,
    /// Loop behavior.
    pub loop_count: LoopCount,
    /// Lossy quality 1-100 (None = lossless).
    pub lossy_quality: Option<u8>,
}

impl Default for EncodeConfig {
    fn default() -> (r: Self)
        ensures
            r.width.is_none(),
            r.height.is_none(),
            r.loop_count == LoopCount::Infinite,
            r.lossy_quality.is_none(),
    {
        EncodeConfig { width: None, height: None, loop_count: LoopCount::Infinite, lossy_quality: None }
    }
}

/// `value` clamped into `lo..=hi`.
pub open spec fn clamp_u8(value: u8, lo: u8, hi: u8) -> u8 {
    if value < lo {
        lo
    } else if value > hi {
        hi
    } else {
        value
    }
}

impl EncodeConfig {
    /// Create a new encode config with default settings.
    pub fn new() -> (r: Self)
        ensures
            r.width.is_none(),
            r.height.is_none(),
            r.loop_count == LoopCount::Infinite,
            r.lossy_quality.is_none(),
    {
        Self::default()
    }

    /// Set the target width.
    pub fn with_width(self, width: u16) -> (r: Self)
        ensures
            r == (EncodeConfig { width: Some(width), ..self }),
    {
        EncodeConfig { width: Some(width), ..self }
    }

    /// Set the target height.
    pub fn with_height(self, height: u16) -> (r: Self)
        ensures
            r == (EncodeConfig { height: Some(height), ..self }),
    {
        EncodeConfig { height: Some(height), ..self }
    }

    /// Set both width and height.
    pub fn with_size(self, width: u16, height: u16) -> (r: Self)
        ensures
            r == (EncodeConfig { width: Some(width), height: Some(height), ..self }),
    {
        EncodeConfig { width: Some(width), height: Some(height), ..self }
    }

    /// Set the loop count.
    pub fn with_loop_count(self, loop_count: LoopCount) -> (r: Self)
        ensures
            r == (EncodeConfig { loop_count, ..self }),
    {
        EncodeConfig { loop_count, ..self }
    }

    /// Set lossy quality (clamped into 1-100, higher = better quality).
    pub fn with_lossy_quality(self, quality: u8) -> (r: Self)
        ensures
            r == (EncodeConfig { lossy_quality: Some(clamp_u8(quality, 1, 100)), ..self }),
    {
        let q = if quality < 1 {
            1
        } else if quality > 100 {
            100
        } else {
            quality
        };
        EncodeConfig { lossy_quality: Some(q), ..self }
    }

    /// Use lossless encoding.
    pub fn lossless(self) -> (r: Self)
        ensures
            r == (EncodeConfig { lossy_quality: None, ..self }),
    {
        EncodeConfig { lossy_quality: None, ..self }
    }
}

/// A map of segment operations keyed by segment ID.
pub type SegmentOps = HashMap<usize, SegmentOp>;

/// Operations that can be applied to individual frames within a segment.
#[derive(Debug, Clone, Copy, PartialEq, Eq, Structural)]
pub enum FrameOp {
    /// Keep the frame as-is.
    Keep,
    /// Remove this frame from the output.
    Remove,
    /// Create a segment boundary after this frame.
    /// This splits the segment at this point.
    SplitAfter,
}

impl Default for FrameOp {
    fn default() -> (r: Self)
        ensures
            r == FrameOp::Keep,
    {
        FrameOp::Keep
    }
}

/// A map of frame operations keyed by (segment_id, frame_index_within_segment).
pub type FrameOps = BTreeMap<(usize, usize), FrameOp>;

/// The operation a segment gets from an operation map (absent = `Keep`).
pub open spec fn op_for(ops: Map<usize, SegmentOp>, id: usize) -> SegmentOp {
    if ops.contains_key(id) {
        ops[id]
    } else {
        SegmentOp::Keep
    }
}

/// The operation a frame gets from a frame-operation map (absent = `Keep`).
pub open spec fn frame_op_for(ops: Map<(usize, usize), FrameOp>, id: usize, i: usize) -> FrameOp {
    if ops.contains_key((id, i)) {
        ops[(id, i)]
    } else {
        FrameOp::Keep
    }
}

/// Look up the operation for a segment (absent = `Keep`).
pub fn segment_op_of(ops: &SegmentOps, id: usize) -> (r: SegmentOp)
    ensures
        r == op_for(ops@, id),
{
    match ops.get(&id) {
        Some(op) => *op,
        None => SegmentOp::Keep,
    }
}

/// Look up the operation for frame `i` of segment `id` (absent = `Keep`).
pub fn frame_op_of(ops: &FrameOps, id: usize, i: usize) -> (r: FrameOp)
    ensures
        r == frame_op_for(ops@, id, i),
{
    match ops.get(&(id, i)) {
        Some(op) => *op,
        None => FrameOp::Keep,
    }
}


/// The operations obtained by walking `segments` in order and, for each one that satisfies
/// `pred`, recording `op_of(segment)` under its id (a later segment with the same id wins).
pub open spec fn ops_where(
    segments: Seq<Segment>,
    pred: spec_fn(Segment) -> bool,
    op_of: spec_fn(Segment) -> SegmentOp,
) -> Map<usize, SegmentOp>
    decreases segments.len(),
{
    if segments.len() == 0 {
        Map::empty()
    } else {
        let m = ops_where(segments.drop_last(), pred, op_of);
        if pred(segments.last()) {
            m.insert(segments.last().id, op_of(segments.last()))
        } else {
            m
        }
    }
}

/// Walking one more segment extends the recorded operations by that segment.
pub proof fn lemma_ops_where_step(
    segments: Seq<Segment>,
    pred: spec_fn(Segment) -> bool,
    op_of: spec_fn(Segment) -> SegmentOp,
    j: int,
)
    requires
        0 <= j < segments.len(),
    ensures
        ops_where(segments.take(j + 1), pred, op_of) == if pred(segments[j]) {
            ops_where(segments.take(j), pred, op_of).insert(segments[j].id, op_of(segments[j]))
        } else {
            ops_where(segments.take(j), pred, op_of)
        },
{
    assert(segments.take(j + 1).drop_last() =~= segments.take(j));
    assert(segments.take(j + 1).last() == segments[j]);
}

/// Writing a loop behavior as a GIF repeat count and reading it back gives it back,
/// except a finite count of zero, which reads back as playing once.
pub proof fn law_loop_count_round_trip(l: LoopCount)
    requires
        l != LoopCount::Finite(0),
    ensures
        LoopCount::spec_from_repeat(l.spec_repeat()) == l,
{
}

} // verus!
