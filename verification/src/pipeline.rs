//! High-level processing pipeline: configuring analysis, analyzing GIFs, and building and
//! applying operations on the result.
use vstd::prelude::*;
use std::ops::Range;
use crate::analysis::{analyze_frames, analyze_frames_parallel, detected_segments, adjacent_distances, tiles, AnalysisConfig};
use crate::decoders::{
    buffered_decoding, composites, decoded_frames, decoded_gif, lemma_composited_wf, raws_are, BufferedDecoder, CodecFrame,
    RawFrame,
};
use crate::error::FigifError;
use crate::hashers::DHasher;
use crate::segment::{
    apply_operations, apply_segment_operations, dry_run_all_operations, dry_totals_all,
    plan_all_ops, plan_segment_ops, realizes, segments_fit, set_duration_divisible,
    split_segments_at_points,
};
use crate::selector::{ms_to_cs, SegmentSelector};
use crate::traits::{FrameHasher, GifEncoder};
use crate::types::EncodeConfig;
use crate::types::{
    image_len, ops_where, lemma_ops_where_step, AnalyzedFrame, DecodedFrame, EncodableFrame,
    FrameOps, GifMetadata, LoopCount, Segment, SegmentOp, SegmentOps,
};

verus! {

broadcast use vstd::std_specs::hash::group_hash_axioms;

/// Main entry point for GIF analysis: a hasher, an analysis configuration and a decoder.
#[derive(Debug, Clone, Copy)]
pub struct Figif<H> {
    hasher: H,
    config: AnalysisConfig,
    decoder: BufferedDecoder,
}

impl Default for Figif<DHasher> {
    fn default() -> (r: Self)
        ensures
            r.spec_config() == AnalysisConfig::default_spec(),
            r.spec_hasher().spec_hash_width() == 8,
            r.spec_hasher().spec_hash_height() == 8,
            r.spec_decoder().limit() == 0,
    {
        Figif::new()
    }
}

impl AnalysisConfig {
    /// The default settings.
    pub open spec fn default_spec() -> AnalysisConfig {
        AnalysisConfig {
            similarity_threshold: 5,
            min_segment_frames: 2,
            detect_static: true,
            identical_threshold: 0,
        }
    }
}

impl Figif<DHasher> {
    /// Create a new instance with default settings and a dHash hasher.
    pub fn new() -> (r: Self)
        ensures
            r.spec_config() == AnalysisConfig::default_spec(),
            r.spec_hasher().spec_hash_width() == 8,
            r.spec_hasher().spec_hash_height() == 8,
            r.spec_decoder().limit() == 0,
    {
        Figif { hasher: DHasher::new(), config: AnalysisConfig::default(), decoder: BufferedDecoder::new() }
    }
}

/// Metadata of decoded frames: the first frame's size (as `u16`), the frame count and the
/// total duration in milliseconds (saturated at `u64::MAX`).
pub open spec fn frames_metadata_ok(m: GifMetadata, frames: Seq<DecodedFrame>) -> bool {
    &&& m.frame_count == frames.len()
    &&& m.loop_count == LoopCount::Infinite
    &&& m.global_palette.is_none()
    &&& m.total_duration_ms == if 10 * frames_delay_total(frames) <= u64::MAX {
        10 * frames_delay_total(frames)
    } else {
        u64::MAX as int
    }
    &&& frames.len() == 0 ==> m.width == 0 && m.height == 0 && !m.has_transparency
    &&& frames.len() > 0 ==> m.width == frames[0].image.width as u16 && m.height
        == frames[0].image.height as u16 && m.has_transparency
}

/// Sum of the delays of decoded frames, in centiseconds.
pub open spec fn frames_delay_total(frames: Seq<DecodedFrame>) -> int
    decreases frames.len(),
{
    if frames.len() == 0 {
        0
    } else {
        frames_delay_total(frames.drop_last()) + frames.last().delay_centiseconds
    }
}

/// The metadata of decoded frames.
fn frames_metadata(frames: &Vec<DecodedFrame>) -> (r: GifMetadata)
    ensures
        frames_metadata_ok(r, frames@),
{
    if frames.len() == 0 {
        return GifMetadata {
            width: 0,
            height: 0,
            frame_count: 0,
            total_duration_ms: 0,
            has_transparency: false,
            loop_count: LoopCount::Infinite,
            global_palette: None,
        };
    }
    let mut total_cs: u128 = 0;
    let mut i: usize = 0;
    while i < frames.len()
        invariant
            i <= frames@.len(),
            total_cs == frames_delay_total(frames@.take(i as int)),
            total_cs <= i * 65535,
        decreases frames@.len() - i,
    {
        proof {
            assert(frames@.take(i + 1).drop_last() =~= frames@.take(i as int));
        }
        total_cs = total_cs + frames[i].delay_centiseconds as u128;
        i = i + 1;
    }
    proof {
        assert(frames@.take(i as int) =~= frames@);
    }
    let total_duration_ms: u64 = if total_cs <= (u64::MAX / 10) as u128 {
        (total_cs * 10) as u64
    } else {
        u64::MAX
    };
    let (width, height) = frames[0].image.dimensions();
    GifMetadata {
        width: width as u16,
        height: height as u16,
        frame_count: frames.len(),
        total_duration_ms,
        has_transparency: true,
        loop_count: LoopCount::Infinite,
        global_palette: None,
    }
}

/// The frames can be hashed: well-formed images that the hasher accepts.
pub open spec fn hashable<H: FrameHasher>(hasher: H, frames: Seq<DecodedFrame>) -> bool {
    forall|k: int|
        0 <= k < frames.len() ==> (#[trigger] frames[k]).image.wf() && hasher.accepts(frames[k].image)
}

/// `a` is the analysis of `frames` under the hasher and configuration.
pub open spec fn analysis_of<H: FrameHasher>(
    a: Analysis<H::Hash>,
    frames: Seq<DecodedFrame>,
    hasher: H,
    config: AnalysisConfig,
) -> bool {
    &&& frames_metadata_ok(a.metadata, frames)
    &&& a.frames@.len() == frames.len()
    &&& forall|k: int|
        0 <= k < frames.len() ==> (#[trigger] a.frames@[k]).frame == frames[k] && a.frames@[k].hash@
            == hasher.hash_of(frames[k].image)
    &&& a.segments@ == detected_segments(a.frames@, adjacent_distances(hasher, frames), config)
    &&& tiles(a.segments@, 0, frames.len() as int)
    &&& a.wf()
}

impl<H: FrameHasher> Figif<H> {
    /// The hasher.
    pub closed spec fn spec_hasher(&self) -> H {
        self.hasher
    }

    /// The analysis configuration.
    pub closed spec fn spec_config(&self) -> AnalysisConfig {
        self.config
    }

    /// The decoder.
    pub closed spec fn spec_decoder(&self) -> BufferedDecoder {
        self.decoder
    }

    /// Replace the hasher with a different implementation.
    pub fn with_hasher<H2: FrameHasher>(self, hasher: H2) -> (r: Figif<H2>)
        ensures
            r.spec_hasher() == hasher,
            r.spec_config() == self.spec_config(),
            r.spec_decoder() == self.spec_decoder(),
    {
        Figif { hasher, config: self.config, decoder: self.decoder }
    }

    /// Set the similarity threshold for segment detection (lower is stricter).
    pub fn similarity_threshold(self, threshold: u32) -> (r: Self)
        ensures
            r.spec_config() == (AnalysisConfig { similarity_threshold: threshold, ..self.spec_config() }),
            r.spec_hasher() == self.spec_hasher(),
            r.spec_decoder() == self.spec_decoder(),
    {
        Figif { config: self.config.with_similarity_threshold(threshold), ..self }
    }

    /// Set the minimum number of frames to form a segment (at least 1).
    pub fn min_segment_frames(self, min: usize) -> (r: Self)
        ensures
            r.spec_config() == (AnalysisConfig {
                min_segment_frames: if min >= 1 { min } else { 1 },
                ..self.spec_config()
            }),
            r.spec_hasher() == self.spec_hasher(),
            r.spec_decoder() == self.spec_decoder(),
    {
        Figif { config: self.config.with_min_segment_frames(min), ..self }
    }

    /// Enable or disable static frame detection.
    pub fn detect_static(self, enabled: bool) -> (r: Self)
        ensures
            r.spec_config() == (AnalysisConfig { detect_static: enabled, ..self.spec_config() }),
            r.spec_hasher() == self.spec_hasher(),
            r.spec_decoder() == self.spec_decoder(),
    {
        Figif { config: self.config.with_static_detection(enabled), ..self }
    }

    /// Set the threshold for identical frame detection.
    pub fn identical_threshold(self, threshold: u32) -> (r: Self)
        ensures
            r.spec_config() == (AnalysisConfig { identical_threshold: threshold, ..self.spec_config() }),
            r.spec_hasher() == self.spec_hasher(),
            r.spec_decoder() == self.spec_decoder(),
    {
        Figif { config: self.config.with_identical_threshold(threshold), ..self }
    }

    /// Set a memory limit for the decoder.
    pub fn memory_limit(self, limit: usize) -> (r: Self)
        ensures
            r.spec_decoder().limit() == limit,
            r.spec_config() == self.spec_config(),
            r.spec_hasher() == self.spec_hasher(),
    {
        Figif { decoder: self.decoder.with_memory_limit(limit), ..self }
    }

    /// Get the current analysis configuration.
    pub fn config(&self) -> (r: &AnalysisConfig)
        ensures
            *r == self.spec_config(),
    {
        &self.config
    }

    /// Get a reference to the hasher.
    pub fn hasher(&self) -> (r: &H)
        ensures
            *r == self.spec_hasher(),
    {
        &self.hasher
    }

    /// Analyze pre-decoded frames: hash them, detect segments and compute the metadata.
    pub fn analyze_frames(&self, frames: Vec<DecodedFrame>) -> (r: Result<Analysis<H::Hash>, FigifError>)
        requires
            self.spec_hasher().ready(),
            hashable(self.spec_hasher(), frames@),
        ensures
            r matches Ok(a) && analysis_of(a, frames@, self.spec_hasher(), self.spec_config()),
    {
        let ghost orig = frames@;
        let metadata = frames_metadata(&frames);
        let (analyzed, segments) = analyze_frames(frames, &self.hasher, &self.config);
        let a = Analysis { metadata, frames: analyzed, segments };
        proof {
            lemma_tiles_fit(a.segments@, orig.len() as int);
        }
        Ok(a)
    }

    /// Analyze a GIF held in memory: decode it, then analyze its frames. Frames the
    /// hasher cannot hash (an empty screen) are a `HashError`.
    pub fn analyze_bytes(&self, data: &[u8]) -> (r: Result<Analysis<H::Hash>, FigifError>)
        requires
            self.spec_hasher().ready(),
        ensures
            (r matches Err(FigifError::EmptyData)) <==> data@.len() == 0,
            decoded_gif(data@, self.spec_decoder().limit()) is None ==> (r matches Err(e) && buffered_decoding(
                data@,
                self.spec_decoder().limit(),
                Err(e),
            )),
            decoded_gif(data@, self.spec_decoder().limit()) matches Some(d) ==> bytes_analyzed(
                d,
                self.spec_hasher(),
                self.spec_config(),
                r,
            ),
    {
        let frames = match self.decoder.decode_bytes(data) {
            Ok(frames) => frames,
            Err(e) => {
                return Err(e);
            },
        };
        let ghost d = decoded_gif(data@, self.spec_decoder().limit())->Some_0;
        proof {
            let raw = choose|raw: Seq<RawFrame>| raws_are(raw, d.2) && #[trigger] composites(frames@, d.0, d.1, raw);
            lemma_composited_wf(frames@, d.0, d.1, raw);
        }
        let mut k: usize = 0;
        while k < frames.len()
            invariant
                k <= frames@.len(),
                forall|j: int| 0 <= j < frames@.len() ==> (#[trigger] frames@[j]).image.wf(),
                forall|j: int| 0 <= j < k ==> self.spec_hasher().accepts((#[trigger] frames@[j]).image),
                data@.len() > 0,
                decoded_gif(data@, self.spec_decoder().limit()) == Some(d),
                decoded_frames(frames@, d.0, d.1, d.2),
            decreases frames@.len() - k,
        {
            if !self.hasher.can_hash(&frames[k].image) {
                proof {
                    assert(!self.spec_hasher().accepts(frames@[k as int].image));
                }
                return Err(FigifError::HashError { reason: String::from_str("frame cannot be hashed") });
            }
            k = k + 1;
        }
        let ghost decoded = frames@;
        let r = self.analyze_frames(frames);
        proof {
            assert(analysis_of(r->Ok_0, decoded, self.spec_hasher(), self.spec_config()));
        }
        r
    }
}

impl<H: FrameHasher + Sync> Figif<H> where H::Hash: Send {
    /// Analyze pre-decoded frames like [`Figif::analyze_frames`], hashing them in parallel.
    pub fn analyze_frames_parallel(&self, frames: Vec<DecodedFrame>) -> (r: Result<Analysis<H::Hash>, FigifError>)
        requires
            self.spec_hasher().ready(),
            hashable(self.spec_hasher(), frames@),
        ensures
            r matches Ok(a) && analysis_of(a, frames@, self.spec_hasher(), self.spec_config()),
    {
        let ghost orig = frames@;
        let metadata = frames_metadata(&frames);
        let (analyzed, segments) = analyze_frames_parallel(frames, &self.hasher, &self.config);
        let a = Analysis { metadata, frames: analyzed, segments };
        proof {
            lemma_tiles_fit(a.segments@, orig.len() as int);
        }
        Ok(a)
    }

    /// Analyze a GIF held in memory like [`Figif::analyze_bytes`], hashing the frames in
    /// parallel.
    pub fn analyze_bytes_parallel(&self, data: &[u8]) -> (r: Result<Analysis<H::Hash>, FigifError>)
        requires
            self.spec_hasher().ready(),
        ensures
            (r matches Err(FigifError::EmptyData)) <==> data@.len() == 0,
            decoded_gif(data@, self.spec_decoder().limit()) is None ==> (r matches Err(e) && buffered_decoding(
                data@,
                self.spec_decoder().limit(),
                Err(e),
            )),
            decoded_gif(data@, self.spec_decoder().limit()) matches Some(d) ==> bytes_analyzed(
                d,
                self.spec_hasher(),
                self.spec_config(),
                r,
            ),
    {
        let frames = match self.decoder.decode_bytes(data) {
            Ok(frames) => frames,
            Err(e) => {
                return Err(e);
            },
        };
        let ghost d = decoded_gif(data@, self.spec_decoder().limit())->Some_0;
        proof {
            let raw = choose|raw: Seq<RawFrame>| raws_are(raw, d.2) && #[trigger] composites(frames@, d.0, d.1, raw);
            lemma_composited_wf(frames@, d.0, d.1, raw);
        }
        let mut k: usize = 0;
        while k < frames.len()
            invariant
                k <= frames@.len(),
                forall|j: int| 0 <= j < frames@.len() ==> (#[trigger] frames@[j]).image.wf(),
                forall|j: int| 0 <= j < k ==> self.spec_hasher().accepts((#[trigger] frames@[j]).image),
                data@.len() > 0,
                decoded_gif(data@, self.spec_decoder().limit()) == Some(d),
                decoded_frames(frames@, d.0, d.1, d.2),
            decreases frames@.len() - k,
        {
            if !self.hasher.can_hash(&frames[k].image) {
                proof {
                    assert(!self.spec_hasher().accepts(frames@[k as int].image));
                }
                return Err(FigifError::HashError { reason: String::from_str("frame cannot be hashed") });
            }
            k = k + 1;
        }
        let ghost decoded = frames@;
        let r = self.analyze_frames_parallel(frames);
        proof {
            assert(analysis_of(r->Ok_0, decoded, self.spec_hasher(), self.spec_config()));
        }
        r
    }
}

/// What analyzing a GIF that decodes to a screen of `d.0 x d.1` with frames `d.2` gives:
/// its analysis when the hasher accepts every frame, else a `HashError`.
pub open spec fn bytes_analyzed<Hs: FrameHasher>(
    d: (u32, u32, Seq<CodecFrame>),
    hasher: Hs,
    config: AnalysisConfig,
    r: Result<Analysis<Hs::Hash>, FigifError>,
) -> bool {
    &&& r matches Ok(a) ==> exists|frames: Seq<DecodedFrame>|
        #[trigger] decoded_frames(frames, d.0, d.1, d.2) && analysis_of(a, frames, hasher, config)
    &&& r matches Err(e) ==> e is HashError && exists|frames: Seq<DecodedFrame>, k: int|
        #![trigger decoded_frames(frames, d.0, d.1, d.2), frames[k]]
        decoded_frames(frames, d.0, d.1, d.2) && 0 <= k < frames.len() && !hasher.accepts(frames[k].image)
    &&& (forall|frames: Seq<DecodedFrame>|
        #[trigger] decoded_frames(frames, d.0, d.1, d.2) ==> forall|k: int|
            0 <= k < frames.len() ==> hasher.accepts(#[trigger] frames[k].image)) ==> r is Ok
}

proof fn lemma_tiles_fit(segments: Seq<Segment>, n: int)
    requires
        tiles(segments, 0, n),
    ensures
        segments_fit(n, segments),
{
    assert forall|j: int| 0 <= j < segments.len() implies {
        &&& (#[trigger] segments[j]).frame_range.start <= segments[j].frame_range.end
        &&& segments[j].frame_range.end <= n
    } by {
        crate::analysis::lemma_tiles_end(segments, 0, n, j);
    }
}

/// Result of GIF analysis containing frames and segments.
#[derive(Debug, Clone)]
pub struct Analysis<H> {
    /// Metadata about the original GIF.
    pub metadata: GifMetadata,
    /// Analyzed frames with hashes and segment assignments.
    pub frames: Vec<AnalyzedFrame<H>>,
    /// Detected segments.
    pub segments: Vec<Segment>,
}


impl<H> Analysis<H> {
    /// Every segment's frame range lies inside the frames.
    pub open spec fn wf(&self) -> bool {
        segments_fit(self.frames@.len() as int, self.segments@)
    }

    /// Get the number of frames.
    pub fn frame_count(&self) -> (r: usize)
        ensures
            r == self.frames@.len(),
    {
        self.frames.len()
    }

    /// Get the number of segments.
    pub fn segment_count(&self) -> (r: usize)
        ensures
            r == self.segments@.len(),
    {
        self.segments.len()
    }

    /// Get the total duration in milliseconds.
    pub fn total_duration_ms(&self) -> (r: u64)
        ensures
            r == self.metadata.total_duration_ms,
    {
        self.metadata.total_duration_ms
    }

    /// The segments satisfying `pred`, in order, as a selector.
    fn select(&self, kind: u8, id: usize, ids: &[usize], range: &Range<usize>) -> (r: SegmentSelector<'_>)
        ensures
            r@ == self.segments@.filter(|s: Segment| picks(kind, id, ids@, *range, s)),
    {
        let ghost pred = |s: Segment| picks(kind, id, ids@, *range, s);
        let mut picked: Vec<&Segment> = Vec::new();
        let mut i: usize = 0;
        while i < self.segments.len()
            invariant
                i <= self.segments@.len(),
                pred == (|s: Segment| picks(kind, id, ids@, *range, s)),
                picked@.map_values(|s: &Segment| *s) == self.segments@.take(i as int).filter(pred),
            decreases self.segments@.len() - i,
        {
            let s = &self.segments[i];
            proof {
                reveal(Seq::filter);
                assert(self.segments@.take(i + 1).drop_last() =~= self.segments@.take(i as int));
            }
            if pick_segment(kind, id, ids, range, s) {
                let ghost before = picked@;
                picked.push(s);
                proof {
                    assert(picked@.map_values(|s: &Segment| *s) =~= before.map_values(|s: &Segment| *s).push(*s));
                }
            }
            i = i + 1;
        }
        proof {
            assert(self.segments@.take(i as int) =~= self.segments@);
        }
        SegmentSelector::new(picked)
    }

    /// Get segments that are marked as static.
    pub fn static_segments(&self) -> (r: Vec<&Segment>)
        ensures
            r@.map_values(|s: &Segment| *s) == self.segments@.filter(|s: Segment| s.is_static),
    {
        let ghost pred = |s: Segment| s.is_static;
        let mut picked: Vec<&Segment> = Vec::new();
        let mut i: usize = 0;
        while i < self.segments.len()
            invariant
                i <= self.segments@.len(),
                pred == (|s: Segment| s.is_static),
                picked@.map_values(|s: &Segment| *s) == self.segments@.take(i as int).filter(pred),
            decreases self.segments@.len() - i,
        {
            let s = &self.segments[i];
            proof {
                reveal(Seq::filter);
                assert(self.segments@.take(i + 1).drop_last() =~= self.segments@.take(i as int));
            }
            if s.is_static {
                let ghost before = picked@;
                picked.push(s);
                proof {
                    assert(picked@.map_values(|s: &Segment| *s) =~= before.map_values(|s: &Segment| *s).push(*s));
                }
            }
            i = i + 1;
        }
        proof {
            assert(self.segments@.take(i as int) =~= self.segments@);
        }
        picked
    }

    /// Select all static segments (pauses).
    pub fn pauses(&self) -> (r: SegmentSelector<'_>)
        ensures
            r@ == self.segments@.filter(|s: Segment| s.is_static),
    {
        let none: &[usize] = &[];
        let rg = Range { start: 0, end: 0 };
        let r = self.select(0, 0, none, &rg);
        proof {
            assert((|s: Segment| picks(0, 0, none@, rg, s)) =~= (|s: Segment| s.is_static));
        }
        r
    }

    /// Select all motion (non-static) segments.
    pub fn motion(&self) -> (r: SegmentSelector<'_>)
        ensures
            r@ == self.segments@.filter(|s: Segment| !s.is_static),
    {
        let none: &[usize] = &[];
        let rg = Range { start: 0, end: 0 };
        let r = self.select(1, 0, none, &rg);
        proof {
            assert((|s: Segment| picks(1, 0, none@, rg, s)) =~= (|s: Segment| !s.is_static));
        }
        r
    }

    /// Select all segments.
    pub fn all(&self) -> (r: SegmentSelector<'_>)
        ensures
            r@ == self.segments@,
    {
        let none: &[usize] = &[];
        let rg = Range { start: 0, end: 0 };
        let r = self.select(2, 0, none, &rg);
        proof {
            lemma_filter_all(self.segments@, |s: Segment| picks(2, 0, none@, rg, s));
        }
        r
    }

    /// Select the segments with the given ID.
    pub fn segment(&self, id: usize) -> (r: SegmentSelector<'_>)
        ensures
            r@ == self.segments@.filter(|s: Segment| s.id == id),
    {
        let none: &[usize] = &[];
        let rg = Range { start: 0, end: 0 };
        let r = self.select(3, id, none, &rg);
        proof {
            assert((|s: Segment| picks(3, id, none@, rg, s)) =~= (|s: Segment| s.id == id));
        }
        r
    }

    /// Select the segments whose ID is among `ids`.
    pub fn segments_by_id(&self, ids: &[usize]) -> (r: SegmentSelector<'_>)
        ensures
            r@ == self.segments@.filter(|s: Segment| ids@.contains(s.id)),
    {
        let rg = Range { start: 0, end: 0 };
        let r = self.select(4, 0, ids, &rg);
        proof {
            assert((|s: Segment| picks(4, 0, ids@, rg, s)) =~= (|s: Segment| ids@.contains(s.id)));
        }
        r
    }

    /// Select the segments that overlap the frame range.
    pub fn frames_range(&self, range: Range<usize>) -> (r: SegmentSelector<'_>)
        ensures
            r@ == self.segments@.filter(
                |s: Segment| s.frame_range.start < range.end && s.frame_range.end > range.start,
            ),
    {
        let none: &[usize] = &[];
        let r = self.select(5, 0, none, &range);
        proof {
            assert((|s: Segment| picks(5, 0, none@, range, s)) =~= (|s: Segment|
                s.frame_range.start < range.end && s.frame_range.end > range.start));
        }
        r
    }
}

impl<H> Analysis<H> {
    /// Apply segment operations and get encodable frames; segments without an operation
    /// are kept.
    pub fn apply_operations(&self, ops: &SegmentOps) -> (r: Vec<EncodableFrame>)
        requires
            self.wf(),
            set_duration_divisible(self.segments@, ops@),
        ensures
            realizes(r@, plan_segment_ops(self.frames@, self.segments@, ops@), self.frames@),
    {
        apply_segment_operations(self.frames.as_slice(), self.segments.as_slice(), ops)
    }

    /// Apply both segment and frame operations and get encodable frames.
    pub fn apply_all_operations(&self, segment_ops: &SegmentOps, frame_ops: &FrameOps) -> (r: Vec<EncodableFrame>)
        requires
            self.wf(),
            set_duration_divisible(self.segments@, segment_ops@),
        ensures
            realizes(r@, plan_all_ops(self.frames@, self.segments@, segment_ops@, frame_ops@), self.frames@),
    {
        apply_operations(self.frames.as_slice(), self.segments.as_slice(), segment_ops, frame_ops)
    }

    /// Apply segment operations and encode the result.
    pub fn export<E: GifEncoder>(&self, encoder: &E, ops: &SegmentOps, config: &EncodeConfig) -> (r: Result<Vec<u8>, FigifError>)
        requires
            self.wf(),
            set_duration_divisible(self.segments@, ops@),
        ensures
            exists|frames: Seq<EncodableFrame>|
                #[trigger] realizes(frames, plan_segment_ops(self.frames@, self.segments@, ops@), self.frames@)
                    && encoder.encoded(frames, *config, r),
    {
        let frames = self.apply_operations(ops);
        encoder.encode(frames.as_slice(), config)
    }

    /// Apply segment and frame operations and encode the result.
    pub fn export_with_frame_ops<E: GifEncoder>(
        &self,
        encoder: &E,
        segment_ops: &SegmentOps,
        frame_ops: &FrameOps,
        config: &EncodeConfig,
    ) -> (r: Result<Vec<u8>, FigifError>)
        requires
            self.wf(),
            set_duration_divisible(self.segments@, segment_ops@),
        ensures
            exists|frames: Seq<EncodableFrame>|
                #[trigger] realizes(frames, plan_all_ops(self.frames@, self.segments@, segment_ops@, frame_ops@), self.frames@)
                    && encoder.encoded(frames, *config, r),
    {
        let frames = self.apply_all_operations(segment_ops, frame_ops);
        encoder.encode(frames.as_slice(), config)
    }

    /// Calculate the resulting frame count and duration (milliseconds) without cloning
    /// images.
    pub fn calculate_impact(&self, segment_ops: &SegmentOps, frame_ops: &FrameOps) -> (r: (usize, u64))
        requires
            self.wf(),
            dry_totals_all(self.frames@, self.segments@, segment_ops@, frame_ops@).0 <= usize::MAX,
            dry_totals_all(self.frames@, self.segments@, segment_ops@, frame_ops@).1 * 10 <= u64::MAX,
        ensures
            r.0 == dry_totals_all(self.frames@, self.segments@, segment_ops@, frame_ops@).0,
            r.1 == dry_totals_all(self.frames@, self.segments@, segment_ops@, frame_ops@).1 * 10,
    {
        let (frames, cs) = dry_run_all_operations(
            self.frames.as_slice(),
            self.segments.as_slice(),
            segment_ops,
            frame_ops,
        );
        (frames, cs * 10)
    }

    /// Get frames as encodable without any operations applied.
    pub fn as_encodable(&self) -> (r: Vec<EncodableFrame>)
        ensures
            r@.len() == self.frames@.len(),
            forall|k: int|
                0 <= k < r@.len() ==> (#[trigger] r@[k]).image@ == self.frames@[k].frame.image@
                    && r@[k].delay_centiseconds == self.frames@[k].frame.delay_centiseconds,
    {
        let mut out: Vec<EncodableFrame> = Vec::new();
        let mut k: usize = 0;
        while k < self.frames.len()
            invariant
                k <= self.frames@.len(),
                out@.len() == k,
                forall|j: int|
                    0 <= j < k ==> (#[trigger] out@[j]).image@ == self.frames@[j].frame.image@
                        && out@[j].delay_centiseconds == self.frames@[j].frame.delay_centiseconds,
            decreases self.frames@.len() - k,
        {
            out.push(EncodableFrame::from_decoded(&self.frames[k].frame));
            k = k + 1;
        }
        out
    }

    /// Operations for the segments that `pause_pick` selects.
    fn pause_ops(&self, kind: u8, limit: u16, op: SegmentOp) -> (r: SegmentOps)
        ensures
            r@ == ops_where(self.segments@, |s: Segment| pause_pick(kind, limit, s), |s: Segment| op),
    {
        let ghost pred = |s: Segment| pause_pick(kind, limit, s);
        let ghost op_of = |s: Segment| op;
        let mut ops = SegmentOps::new();
        let mut i: usize = 0;
        while i < self.segments.len()
            invariant
                i <= self.segments@.len(),
                pred == (|s: Segment| pause_pick(kind, limit, s)),
                op_of == (|s: Segment| op),
                ops@ == ops_where(self.segments@.take(i as int), pred, op_of),
            decreases self.segments@.len() - i,
        {
            let s = &self.segments[i];
            proof {
                lemma_ops_where_step(self.segments@, pred, op_of, i as int);
            }
            let picked = if kind == 0 {
                true
            } else if kind == 1 {
                s.is_static
            } else if kind == 2 {
                s.is_static && s.total_duration_cs > limit
            } else {
                s.is_static && s.total_duration_cs >= limit
            };
            if picked {
                ops.insert(s.id, op);
            }
            i = i + 1;
        }
        proof {
            assert(self.segments@.take(i as int) =~= self.segments@);
        }
        ops
    }

    /// Cap all static segments to a maximum duration: static segments longer than
    /// `max_ms` are collapsed to a single frame with that duration.
    pub fn cap_pauses(&self, max_ms: u32) -> (r: SegmentOps)
        ensures
            r@ == ops_where(
                self.segments@,
                |s: Segment| s.is_static && s.total_duration_cs > ms_to_cs(max_ms),
                |s: Segment| SegmentOp::Collapse { delay_cs: ms_to_cs(max_ms) },
            ),
    {
        let max_cs = (max_ms / 10) as u16;
        let r = self.pause_ops(2, max_cs, SegmentOp::Collapse { delay_cs: max_cs });
        proof {
            assert((|s: Segment| pause_pick(2, max_cs, s)) =~= (|s: Segment| s.is_static
                && s.total_duration_cs > ms_to_cs(max_ms)));
            assert((|s: Segment| SegmentOp::Collapse { delay_cs: max_cs }) =~= (|s: Segment|
                SegmentOp::Collapse { delay_cs: ms_to_cs(max_ms) }));
        }
        r
    }

    /// Collapse every static segment to a single frame with the given duration.
    pub fn collapse_all_pauses(&self, duration_ms: u32) -> (r: SegmentOps)
        ensures
            r@ == ops_where(
                self.segments@,
                |s: Segment| s.is_static,
                |s: Segment| SegmentOp::Collapse { delay_cs: ms_to_cs(duration_ms) },
            ),
    {
        let delay_cs = (duration_ms / 10) as u16;
        let r = self.pause_ops(1, 0, SegmentOp::Collapse { delay_cs });
        proof {
            assert((|s: Segment| pause_pick(1, 0, s)) =~= (|s: Segment| s.is_static));
            assert((|s: Segment| SegmentOp::Collapse { delay_cs }) =~= (|s: Segment|
                SegmentOp::Collapse { delay_cs: ms_to_cs(duration_ms) }));
        }
        r
    }

    /// Remove all static segments at least `min_ms` long.
    pub fn remove_long_pauses(&self, min_ms: u32) -> (r: SegmentOps)
        ensures
            r@ == ops_where(
                self.segments@,
                |s: Segment| s.is_static && s.total_duration_cs >= ms_to_cs(min_ms),
                |s: Segment| SegmentOp::Remove,
            ),
    {
        let min_cs = (min_ms / 10) as u16;
        let r = self.pause_ops(3, min_cs, SegmentOp::Remove);
        proof {
            assert((|s: Segment| pause_pick(3, min_cs, s)) =~= (|s: Segment| s.is_static
                && s.total_duration_cs >= ms_to_cs(min_ms)));
        }
        r
    }

    /// Speed up all static segments by the factor `numerator / denominator` (their
    /// timing is scaled by `denominator / numerator`).
    pub fn speed_up_pauses(&self, numerator: u32, denominator: u32) -> (r: SegmentOps)
        ensures
            r@ == ops_where(
                self.segments@,
                |s: Segment| s.is_static,
                |s: Segment| SegmentOp::Scale { numerator: denominator, denominator: numerator },
            ),
    {
        let r = self.pause_ops(1, 0, SegmentOp::Scale { numerator: denominator, denominator: numerator });
        proof {
            assert((|s: Segment| pause_pick(1, 0, s)) =~= (|s: Segment| s.is_static));
        }
        r
    }

    /// Speed up every segment by the factor `numerator / denominator`.
    pub fn speed_up_all(&self, numerator: u32, denominator: u32) -> (r: SegmentOps)
        ensures
            r@ == ops_where(
                self.segments@,
                |s: Segment| true,
                |s: Segment| SegmentOp::Scale { numerator: denominator, denominator: numerator },
            ),
    {
        let r = self.pause_ops(0, 0, SegmentOp::Scale { numerator: denominator, denominator: numerator });
        proof {
            assert((|s: Segment| pause_pick(0, 0, s)) =~= (|s: Segment| true));
        }
        r
    }

    /// Merge operation sets in order, later ones overriding earlier ones.
    pub fn merge_ops(op_sets: &[SegmentOps]) -> (r: SegmentOps)
        ensures
            r@ == crate::selector::merged_all(op_sets@.map_values(|m: SegmentOps| m@)),
    {
        let ghost views = op_sets@.map_values(|m: SegmentOps| m@);
        let mut merged = SegmentOps::new();
        let mut i: usize = 0;
        while i < op_sets.len()
            invariant
                i <= op_sets@.len(),
                views == op_sets@.map_values(|m: SegmentOps| m@),
                merged@ == crate::selector::merged_all(views.take(i as int)),
            decreases op_sets@.len() - i,
        {
            let before = merged;
            merged = crate::selector::SegmentOpsExt::merge(&before, &op_sets[i]);
            proof {
                assert(views.take(i + 1).drop_last() =~= views.take(i as int));
            }
            i = i + 1;
        }
        proof {
            assert(views.take(i as int) =~= views);
        }
        merged
    }
}

impl<H: Clone> Analysis<H> {
    /// Split segments at frames marked `SplitAfter`, giving a new analysis with the same
    /// metadata.
    pub fn split_segments(&self, frame_ops: &FrameOps) -> (r: Analysis<H>)
        requires
            self.wf(),
        ensures
            r.metadata.same_as(self.metadata),
            r.segments@.len() == crate::segment::split_pieces(self.segments@, frame_ops@).len(),
            forall|k: int|
                0 <= k < r.segments@.len() ==> #[trigger] r.segments@[k] == crate::segment::piece_segment(
                    self.frames@,
                    crate::segment::split_pieces(self.segments@, frame_ops@)[k],
                    k,
                ),
            r.frames@.len() == self.frames@.len(),
            forall|f: int|
                0 <= f < self.frames@.len() ==> {
                    &&& (#[trigger] r.frames@[f]).frame.same_as(self.frames@[f].frame)
                    &&& cloned(self.frames@[f].hash, r.frames@[f].hash)
                    &&& r.frames@[f].distance_to_prev == self.frames@[f].distance_to_prev
                    &&& r.frames@[f].segment_id == crate::segment::split_segment_id(
                        crate::segment::split_pieces(self.segments@, frame_ops@),
                        f,
                        self.frames@[f].segment_id,
                    )
                },
    {
        let (frames, segments) = split_segments_at_points(self.frames.as_slice(), self.segments.as_slice(), frame_ops);
        Analysis { metadata: self.metadata.duplicate(), frames, segments }
    }
}

/// Insert `s` into a sequence sorted longest first, after every segment at least as long.
pub open spec fn insert_longest_first(sorted: Seq<Segment>, s: Segment) -> Seq<Segment>
    decreases sorted.len(),
{
    if sorted.len() == 0 {
        seq![s]
    } else if sorted.last().total_duration_cs >= s.total_duration_cs {
        sorted.push(s)
    } else {
        insert_longest_first(sorted.drop_last(), s).push(sorted.last())
    }
}

/// Segments sorted longest first; segments of equal duration keep their order.
pub open spec fn longest_first(segments: Seq<Segment>) -> Seq<Segment>
    decreases segments.len(),
{
    if segments.len() == 0 {
        segments
    } else {
        insert_longest_first(longest_first(segments.drop_last()), segments.last())
    }
}

/// Shortest a shortened pause becomes, in milliseconds.
pub open spec fn min_pause_ms() -> int {
    100
}

/// The operations that shorten pauses, in the given order, until `to_remove`
/// milliseconds are saved: each pause gives up to all but 100 ms, and is collapsed to
/// what is left (at least 100 ms).
pub open spec fn shorten_pauses(
    pauses: Seq<Segment>,
    i: int,
    removed: int,
    to_remove: int,
    ops: Map<usize, SegmentOp>,
) -> Map<usize, SegmentOp>
    decreases pauses.len() - i,
{
    if i < 0 || i >= pauses.len() || removed >= to_remove {
        ops
    } else {
        let seg = pauses[i];
        let segment_ms = seg.total_duration_cs * 10;
        let can_remove = if segment_ms > min_pause_ms() { segment_ms - min_pause_ms() } else { 0 };
        if can_remove > 0 {
            let take = if can_remove <= to_remove - removed { can_remove } else { to_remove - removed };
            let new_ms = segment_ms - take;
            let op = if new_ms <= min_pause_ms() {
                SegmentOp::Collapse { delay_cs: 10 }
            } else {
                SegmentOp::Collapse { delay_cs: (new_ms / 10) as u16 }
            };
            shorten_pauses(pauses, i + 1, removed + take, to_remove, ops.insert(seg.id, op))
        } else {
            shorten_pauses(pauses, i + 1, removed, to_remove, ops)
        }
    }
}

/// Sum of the durations of segments, in milliseconds.
pub open spec fn duration_ms_total(segments: Seq<Segment>) -> int
    decreases segments.len(),
{
    if segments.len() == 0 {
        0
    } else {
        duration_ms_total(segments.drop_last()) + segments.last().total_duration_cs * 10
    }
}

/// What [`Analysis::target_duration`] returns.
pub open spec fn target_plan(segments: Seq<Segment>, current_ms: int, target_ms: int) -> Option<
    Map<usize, SegmentOp>,
> {
    let pauses = segments.filter(|s: Segment| s.is_static);
    if current_ms <= target_ms {
        Some(Map::empty())
    } else if duration_ms_total(pauses) < current_ms - target_ms {
        None
    } else {
        Some(shorten_pauses(longest_first(pauses), 0, 0, current_ms - target_ms, Map::empty()))
    }
}

/// The ids that shortening gives operations to are those it started with and those of the
/// pauses from `i` on.
proof fn lemma_shorten_keys(
    pauses: Seq<Segment>,
    i: int,
    removed: int,
    to_remove: int,
    ops: Map<usize, SegmentOp>,
    id: usize,
)
    requires
        shorten_pauses(pauses, i, removed, to_remove, ops).contains_key(id),
    ensures
        ops.contains_key(id) || exists|j: int| 0 <= i <= j < pauses.len() && pauses[j].id == id,
    decreases pauses.len() - i,
{
    if !(i < 0 || i >= pauses.len() || removed >= to_remove) {
        let seg = pauses[i];
        let segment_ms = seg.total_duration_cs * 10;
        let can_remove = if segment_ms > min_pause_ms() { segment_ms - min_pause_ms() } else { 0 };
        if can_remove > 0 {
            let take = if can_remove <= to_remove - removed { can_remove } else { to_remove - removed };
            let new_ms = segment_ms - take;
            let op = if new_ms <= min_pause_ms() {
                SegmentOp::Collapse { delay_cs: 10 }
            } else {
                SegmentOp::Collapse { delay_cs: (new_ms / 10) as u16 }
            };
            lemma_shorten_keys(pauses, i + 1, removed + take, to_remove, ops.insert(seg.id, op), id);
            if ops.insert(seg.id, op).contains_key(id) && !ops.contains_key(id) {
                assert(seg.id == id);
            }
        } else {
            lemma_shorten_keys(pauses, i + 1, removed, to_remove, ops, id);
        }
    }
}

/// Sorting longest first keeps the segments it is given, and adds none.
proof fn lemma_longest_first_contains(segments: Seq<Segment>, x: Segment)
    requires
        longest_first(segments).contains(x),
    ensures
        segments.contains(x),
    decreases segments.len(),
{
    if segments.len() > 0 {
        let rest = longest_first(segments.drop_last());
        lemma_insert_contains(rest, segments.last(), x);
        if x != segments.last() {
            lemma_longest_first_contains(segments.drop_last(), x);
            let k = choose|k: int| 0 <= k < segments.drop_last().len() && segments.drop_last()[k] == x;
            assert(segments[k] == x);
        } else {
            assert(segments[segments.len() - 1] == x);
        }
    }
}

/// Inserting into a sorted sequence adds the one segment.
proof fn lemma_insert_contains(sorted: Seq<Segment>, s: Segment, x: Segment)
    requires
        insert_longest_first(sorted, s).contains(x),
    ensures
        x == s || sorted.contains(x),
    decreases sorted.len(),
{
    let r = insert_longest_first(sorted, s);
    let k = choose|k: int| 0 <= k < r.len() && r[k] == x;
    if sorted.len() == 0 {
    } else if sorted.last().total_duration_cs >= s.total_duration_cs {
        if k < sorted.len() {
            assert(sorted[k] == x);
        }
    } else {
        let inner = insert_longest_first(sorted.drop_last(), s);
        if k < inner.len() {
            assert(inner[k] == x);
            lemma_insert_contains(sorted.drop_last(), s, x);
            if x != s {
                let j = choose|j: int| 0 <= j < sorted.drop_last().len() && sorted.drop_last()[j] == x;
                assert(sorted[j] == x);
            }
        } else {
            assert(sorted[sorted.len() - 1] == x);
        }
    }
}

/// Reaching a target duration changes static segments only: every segment id the
/// operations name is that of a static segment.
pub proof fn law_target_duration_touches_pauses_only(segments: Seq<Segment>, current_ms: int, target_ms: int, id: usize)
    requires
        target_plan(segments, current_ms, target_ms) matches Some(m) && m.contains_key(id),
    ensures
        exists|j: int| 0 <= j < segments.len() && segments[j].id == id && segments[j].is_static,
{
    let pred = |s: Segment| s.is_static;
    let pauses = segments.filter(pred);
    if current_ms > target_ms && duration_ms_total(pauses) >= current_ms - target_ms {
        let sorted = longest_first(pauses);
        lemma_shorten_keys(sorted, 0, 0, current_ms - target_ms, Map::empty(), id);
        let j = choose|j: int| 0 <= 0 <= j < sorted.len() && sorted[j].id == id;
        let x = sorted[j];
        assert(sorted.contains(x));
        lemma_longest_first_contains(pauses, x);
        let k = choose|k: int| 0 <= k < pauses.len() && pauses[k] == x;
        segments.lemma_filter_pred(pred, k);
        segments.lemma_filter_contains_rev(pred, x);
        let i = choose|i: int| 0 <= i < segments.len() && segments[i] == x;
        assert(segments[i].id == id && segments[i].is_static);
    }
}

/// No two segments share an id.
pub open spec fn distinct_ids(s: Seq<Segment>) -> bool {
    forall|i: int, j: int|
        #![trigger s[i], s[j]]
        0 <= i < s.len() && 0 <= j < s.len() && i != j ==> s[i].id != s[j].id
}

/// What the operations save on a pause, in milliseconds: its duration less the delay it
/// is collapsed to, if it gets a collapse.
pub open spec fn pause_saving(s: Segment, m: Map<usize, SegmentOp>) -> int {
    if m.contains_key(s.id) {
        match m[s.id] {
            SegmentOp::Collapse { delay_cs } => s.total_duration_cs * 10 - delay_cs * 10,
            _ => 0,
        }
    } else {
        0
    }
}

/// What the operations save on the first `k` pauses, in milliseconds.
pub open spec fn savings(pauses: Seq<Segment>, m: Map<usize, SegmentOp>, k: int) -> int
    decreases k,
{
    if k <= 0 {
        0
    } else {
        savings(pauses, m, k - 1) + pause_saving(pauses[k - 1], m)
    }
}

/// What the first `k` pauses can give while each keeps 100 ms, in milliseconds.
pub open spec fn removable(pauses: Seq<Segment>, k: int) -> int
    decreases k,
{
    if k <= 0 {
        0
    } else {
        removable(pauses, k - 1) + if pauses[k - 1].total_duration_cs * 10 > 100 {
            pauses[k - 1].total_duration_cs * 10 - 100
        } else {
            0
        }
    }
}

/// Savings on pauses whose ids no later insertion touches stay as they were.
proof fn lemma_savings_frame(pauses: Seq<Segment>, m1: Map<usize, SegmentOp>, m2: Map<usize, SegmentOp>, k: int)
    requires
        0 <= k <= pauses.len(),
        forall|j: int| 0 <= j < k ==> (m1.contains_key(#[trigger] pauses[j].id) <==> m2.contains_key(pauses[j].id)),
        forall|j: int| 0 <= j < k && m1.contains_key(#[trigger] pauses[j].id) ==> m1[pauses[j].id] == m2[pauses[j].id],
    ensures
        savings(pauses, m1, k) == savings(pauses, m2, k),
    decreases k,
{
    if k > 0 {
        lemma_savings_frame(pauses, m1, m2, k - 1);
        assert(m1.contains_key(pauses[k - 1].id) <==> m2.contains_key(pauses[k - 1].id));
    }
}

/// Savings do not change over pauses that get no operation.
proof fn lemma_savings_no_keys(pauses: Seq<Segment>, m: Map<usize, SegmentOp>, i: int, k: int)
    requires
        0 <= i <= k <= pauses.len(),
        forall|j: int| i <= j < pauses.len() ==> !m.contains_key(#[trigger] pauses[j].id),
    ensures
        savings(pauses, m, k) == savings(pauses, m, i),
    decreases k - i,
{
    if k > i {
        lemma_savings_no_keys(pauses, m, i, k - 1);
        assert(!m.contains_key(pauses[k - 1].id));
    }
}

/// What pauses can give only grows with more pauses.
proof fn lemma_removable_grows(pauses: Seq<Segment>, i: int, k: int)
    requires
        0 <= i <= k,
    ensures
        removable(pauses, i) <= removable(pauses, k),
    decreases k - i,
{
    if k > i {
        lemma_removable_grows(pauses, i, k - 1);
    }
}

/// Shortening pauses from `i` on, having saved `removed` ms so far (exactly, unless the
/// target was reached), ends with savings that reach the target within the 10 ms of a
/// centisecond delay, or all that the pauses can give.
proof fn lemma_shorten_savings(
    pauses: Seq<Segment>,
    i: int,
    removed: int,
    to_remove: int,
    ops: Map<usize, SegmentOp>,
)
    requires
        distinct_ids(pauses),
        0 <= i <= pauses.len(),
        0 <= removed <= to_remove,
        forall|j: int| i <= j < pauses.len() ==> !ops.contains_key(#[trigger] pauses[j].id),
        removed <= savings(pauses, ops, i) < removed + 10,
        removed < to_remove ==> savings(pauses, ops, i) == removed && removed == removable(pauses, i),
        removed <= removable(pauses, i),
        forall|id: usize| #[trigger] ops.contains_key(id) ==> (ops[id] is Collapse && ops[id]->Collapse_delay_cs >= 10),
    ensures
        ({
            let m = shorten_pauses(pauses, i, removed, to_remove, ops);
            let saved = savings(pauses, m, pauses.len() as int);
            let can = removable(pauses, pauses.len() as int);
            &&& can >= to_remove ==> to_remove <= saved < to_remove + 10
            &&& can < to_remove ==> saved == can
            &&& forall|id: usize| #[trigger] m.contains_key(id) ==> (m[id] is Collapse && m[id]->Collapse_delay_cs >= 10)
        }),
    decreases pauses.len() - i,
{
    let n = pauses.len() as int;
    if i >= n || removed >= to_remove {
        lemma_savings_no_keys(pauses, ops, i, n);
        lemma_removable_grows(pauses, i, n);
    } else {
        let seg = pauses[i];
        let segment_ms = seg.total_duration_cs * 10;
        let can_remove = if segment_ms > min_pause_ms() { segment_ms - min_pause_ms() } else { 0 };
        assert(removable(pauses, i + 1) == removable(pauses, i) + can_remove);
        if can_remove > 0 {
            let take = if can_remove <= to_remove - removed { can_remove } else { to_remove - removed };
            let new_ms = segment_ms - take;
            let op = if new_ms <= min_pause_ms() {
                SegmentOp::Collapse { delay_cs: 10 }
            } else {
                SegmentOp::Collapse { delay_cs: (new_ms / 10) as u16 }
            };
            let ops2 = ops.insert(seg.id, op);
            assert forall|j: int| 0 <= j < i implies (ops.contains_key(#[trigger] pauses[j].id) <==> ops2.contains_key(
                pauses[j].id,
            )) by {
                assert(pauses[j].id != pauses[i].id);
            }
            assert forall|j: int| 0 <= j < i && ops.contains_key(#[trigger] pauses[j].id) implies ops[pauses[j].id]
                == ops2[pauses[j].id] by {
                assert(pauses[j].id != pauses[i].id);
            }
            lemma_savings_frame(pauses, ops, ops2, i);
            let saving = segment_ms - op->Collapse_delay_cs * 10;
            assert(savings(pauses, ops2, i + 1) == savings(pauses, ops2, i) + saving);
            if new_ms <= min_pause_ms() {
                assert(saving == take);
            } else {
                assert(new_ms / 10 <= 65535);
                assert(take <= saving < take + 10) by {
                    assert(segment_ms == 10 * seg.total_duration_cs);
                }
            }
            assert forall|j: int| i + 1 <= j < n implies !ops2.contains_key(#[trigger] pauses[j].id) by {
                assert(pauses[j].id != pauses[i].id);
            }
            assert forall|id: usize| #[trigger] ops2.contains_key(id) implies (ops2[id] is Collapse
                && ops2[id]->Collapse_delay_cs >= 10) by {
                if id != seg.id {
                    assert(ops.contains_key(id));
                }
            }
            lemma_shorten_savings(pauses, i + 1, removed + take, to_remove, ops2);
        } else {
            assert(!ops.contains_key(pauses[i].id));
            assert(savings(pauses, ops, i + 1) == savings(pauses, ops, i));
            lemma_shorten_savings(pauses, i + 1, removed, to_remove, ops);
        }
    }
}

/// Keeping only some segments keeps their ids distinct.
proof fn lemma_filter_distinct(s: Seq<Segment>, pred: spec_fn(Segment) -> bool)
    requires
        distinct_ids(s),
    ensures
        distinct_ids(s.filter(pred)),
    decreases s.len(),
{
    reveal(Seq::filter);
    if s.len() > 0 {
        let rest = s.drop_last();
        assert(distinct_ids(rest)) by {
            assert forall|i: int, j: int| 0 <= i < rest.len() && 0 <= j < rest.len() && i != j implies #[trigger] rest[i].id
                != #[trigger] rest[j].id by {
                assert(rest[i] == s[i] && rest[j] == s[j]);
            }
        }
        lemma_filter_distinct(rest, pred);
        let f0 = rest.filter(pred);
        if pred(s.last()) {
            let f = f0.push(s.last());
            assert forall|i: int, j: int| 0 <= i < f.len() && 0 <= j < f.len() && i != j implies #[trigger] f[i].id
                != #[trigger] f[j].id by {
                if i < f0.len() && j < f0.len() {
                    assert(f[i] == f0[i] && f[j] == f0[j]);
                } else {
                    let k = if i < f0.len() { i } else { j };
                    assert(f0.contains(f0[k]));
                    rest.lemma_filter_contains_rev(pred, f0[k]);
                    let m = choose|m: int| 0 <= m < rest.len() && rest[m] == f0[k];
                    assert(s[m] == f0[k]);
                    assert(s[s.len() - 1] == s.last());
                    assert(s[m].id != s[s.len() - 1].id);
                }
            }
        }
    }
}

/// Inserting a segment of a new id keeps the ids distinct.
proof fn lemma_insert_distinct(sorted: Seq<Segment>, x: Segment)
    requires
        distinct_ids(sorted),
        forall|k: int| 0 <= k < sorted.len() ==> (#[trigger] sorted[k]).id != x.id,
    ensures
        distinct_ids(insert_longest_first(sorted, x)),
    decreases sorted.len(),
{
    if sorted.len() > 0 && sorted.last().total_duration_cs < x.total_duration_cs {
        let rest = sorted.drop_last();
        let last = sorted.last();
        assert(distinct_ids(rest)) by {
            assert forall|i: int, j: int| 0 <= i < rest.len() && 0 <= j < rest.len() && i != j implies #[trigger] rest[i].id
                != #[trigger] rest[j].id by {
                assert(rest[i] == sorted[i] && rest[j] == sorted[j]);
            }
        }
        assert forall|k: int| 0 <= k < rest.len() implies (#[trigger] rest[k]).id != x.id by {
            assert(rest[k] == sorted[k]);
        }
        lemma_insert_distinct(rest, x);
        let inner = insert_longest_first(rest, x);
        let r = inner.push(last);
        assert(sorted[sorted.len() - 1] == last);
        assert forall|i: int, j: int| 0 <= i < r.len() && 0 <= j < r.len() && i != j implies #[trigger] r[i].id
            != #[trigger] r[j].id by {
            if i < inner.len() && j < inner.len() {
                assert(r[i] == inner[i] && r[j] == inner[j]);
            } else {
                let k = if i < inner.len() { i } else { j };
                assert(inner.contains(inner[k]));
                lemma_insert_contains(rest, x, inner[k]);
                if inner[k] != x {
                    let m = choose|m: int| 0 <= m < rest.len() && rest[m] == inner[k];
                    assert(sorted[m] == inner[k]);
                }
            }
        }
    } else if sorted.len() > 0 {
        let r = sorted.push(x);
        assert forall|i: int, j: int| 0 <= i < r.len() && 0 <= j < r.len() && i != j implies #[trigger] r[i].id
            != #[trigger] r[j].id by {
            if i < sorted.len() && j < sorted.len() {
                assert(r[i] == sorted[i] && r[j] == sorted[j]);
            }
        }
    }
}

/// Sorting longest first keeps the ids distinct.
proof fn lemma_longest_first_distinct(s: Seq<Segment>)
    requires
        distinct_ids(s),
    ensures
        distinct_ids(longest_first(s)),
    decreases s.len(),
{
    if s.len() > 0 {
        let rest = s.drop_last();
        assert(distinct_ids(rest)) by {
            assert forall|i: int, j: int| 0 <= i < rest.len() && 0 <= j < rest.len() && i != j implies #[trigger] rest[i].id
                != #[trigger] rest[j].id by {
                assert(rest[i] == s[i] && rest[j] == s[j]);
            }
        }
        lemma_longest_first_distinct(rest);
        let lf = longest_first(rest);
        assert(s[s.len() - 1] == s.last());
        assert forall|k: int| 0 <= k < lf.len() implies (#[trigger] lf[k]).id != s.last().id by {
            assert(lf.contains(lf[k]));
            lemma_longest_first_contains(rest, lf[k]);
            let m = choose|m: int| 0 <= m < rest.len() && rest[m] == lf[k];
            assert(s[m] == lf[k]);
        }
        lemma_insert_distinct(lf, s.last());
    }
}

/// Inserting into a sequence sorted longest first keeps it sorted and adds one segment.
proof fn lemma_insert_sorted(sorted: Seq<Segment>, x: Segment)
    requires
        forall|i: int, j: int| 0 <= i < j < sorted.len() ==> #[trigger] sorted[i].total_duration_cs
            >= #[trigger] sorted[j].total_duration_cs,
    ensures
        ({
            let r = insert_longest_first(sorted, x);
            &&& r.len() == sorted.len() + 1
            &&& forall|i: int, j: int| 0 <= i < j < r.len() ==> #[trigger] r[i].total_duration_cs
                >= #[trigger] r[j].total_duration_cs
        }),
    decreases sorted.len(),
{
    if sorted.len() > 0 && sorted.last().total_duration_cs < x.total_duration_cs {
        let rest = sorted.drop_last();
        let last = sorted.last();
        assert forall|i: int, j: int| 0 <= i < j < rest.len() implies #[trigger] rest[i].total_duration_cs
            >= #[trigger] rest[j].total_duration_cs by {
            assert(rest[i] == sorted[i] && rest[j] == sorted[j]);
        }
        lemma_insert_sorted(rest, x);
        let inner = insert_longest_first(rest, x);
        let r = inner.push(last);
        assert(sorted[sorted.len() - 1] == last);
        assert forall|k: int| 0 <= k < inner.len() implies (#[trigger] inner[k]).total_duration_cs
            >= last.total_duration_cs by {
            assert(inner.contains(inner[k]));
            lemma_insert_contains(rest, x, inner[k]);
            if inner[k] != x {
                let m = choose|m: int| 0 <= m < rest.len() && rest[m] == inner[k];
                assert(sorted[m] == inner[k]);
            }
        }
        assert forall|i: int, j: int| 0 <= i < j < r.len() implies #[trigger] r[i].total_duration_cs
            >= #[trigger] r[j].total_duration_cs by {
            assert(r[i] == inner[i]);
            if j < inner.len() {
                assert(r[j] == inner[j]);
            }
        }
    } else if sorted.len() > 0 {
        let r = sorted.push(x);
        assert(sorted[sorted.len() - 1] == sorted.last());
        assert forall|i: int, j: int| 0 <= i < j < r.len() implies #[trigger] r[i].total_duration_cs
            >= #[trigger] r[j].total_duration_cs by {
            assert(r[i] == sorted[i]);
            if j < sorted.len() {
                assert(r[j] == sorted[j]);
            }
        }
    }
}

/// Pauses are shortened longest first: the order they are taken in has the same number
/// of segments, drawn from the pauses, each at least as long as the ones after it.
pub proof fn law_longest_first_is_sorted(segments: Seq<Segment>)
    ensures
        longest_first(segments).len() == segments.len(),
        forall|i: int, j: int| 0 <= i < j < segments.len() ==> #[trigger] longest_first(segments)[i].total_duration_cs
            >= #[trigger] longest_first(segments)[j].total_duration_cs,
        forall|x: Segment| #[trigger] longest_first(segments).contains(x) ==> segments.contains(x),
    decreases segments.len(),
{
    if segments.len() > 0 {
        law_longest_first_is_sorted(segments.drop_last());
        lemma_insert_sorted(longest_first(segments.drop_last()), segments.last());
    }
    assert forall|x: Segment| #[trigger] longest_first(segments).contains(x) implies segments.contains(x) by {
        lemma_longest_first_contains(segments, x);
    }
}

/// Reaching a target duration saves what is asked. The pauses, taken longest first, are
/// shortened while each keeps at least 100 ms: when they can give the time to remove,
/// the collapses they get save exactly that time, up to the 10 ms of a centisecond delay;
/// otherwise they save all they can give. Every operation is a collapse to at least
/// 100 ms, and nothing is asked where the GIF is already short enough.
pub proof fn law_target_duration_saves_what_is_asked(segments: Seq<Segment>, current_ms: int, target_ms: int)
    requires
        distinct_ids(segments),
        target_plan(segments, current_ms, target_ms) is Some,
    ensures
        ({
            let m = target_plan(segments, current_ms, target_ms)->Some_0;
            let pauses = longest_first(segments.filter(|s: Segment| s.is_static));
            let saved = savings(pauses, m, pauses.len() as int);
            let can = removable(pauses, pauses.len() as int);
            let to_remove = current_ms - target_ms;
            &&& to_remove <= 0 ==> m.is_empty()
            &&& to_remove > 0 && can >= to_remove ==> to_remove <= saved < to_remove + 10
            &&& to_remove > 0 && can < to_remove ==> saved == can
            &&& forall|id: usize| #[trigger] m.contains_key(id) ==> (m[id] is Collapse && m[id]->Collapse_delay_cs >= 10)
        }),
{
    let pred = |s: Segment| s.is_static;
    let pauses = longest_first(segments.filter(pred));
    if current_ms > target_ms {
        lemma_filter_distinct(segments, pred);
        lemma_longest_first_distinct(segments.filter(pred));
        let e = Map::<usize, SegmentOp>::empty();
        assert(savings(pauses, e, 0) == 0);
        assert(removable(pauses, 0) == 0);
        lemma_shorten_savings(pauses, 0, 0, current_ms - target_ms, e);
    } else {
        assert(target_plan(segments, current_ms, target_ms)->Some_0 =~= Map::<usize, SegmentOp>::empty());
    }
}

/// Segments tiling frames `a..b` with no operations plan those frames, each with its own
/// delay.
proof fn lemma_plan_without_ops<H>(frames: Seq<AnalyzedFrame<H>>, segments: Seq<Segment>, a: int, b: int)
    requires
        tiles(segments, a, b),
    ensures
        plan_segment_ops(frames, segments, Map::empty()) =~= Seq::new(
            (b - a) as nat,
            |i: int| (a + i, frames[a + i].frame.delay_centiseconds),
        ),
    decreases segments.len(),
{
    if segments.len() > 0 {
        let last = segments.last();
        let rest = segments.drop_last();
        let m = last.frame_range.start as int;
        assert(segments[segments.len() - 1] == last);
        if segments.len() > 1 {
            assert(segments[segments.len() - 2].frame_range.end == m);
        }
        assert(tiles(rest, a, m)) by {
            assert forall|s: int| 0 <= s < rest.len() implies (#[trigger] rest[s]).frame_range.start
                < rest[s].frame_range.end && rest[s].id == s by {
                assert(rest[s] == segments[s]);
            }
            assert forall|s: int| 0 <= s < rest.len() - 1 implies (#[trigger] rest[s]).frame_range.end
                == rest[s + 1].frame_range.start by {
                assert(rest[s] == segments[s]);
                assert(rest[s + 1] == segments[s + 1]);
            }
        }
        lemma_plan_without_ops(frames, rest, a, m);
        lemma_tiles_start_bound(segments, a, b);
    }
}

/// The last segment of a tiling starts no earlier than the tiling does.
proof fn lemma_tiles_start_bound(segments: Seq<Segment>, a: int, b: int)
    requires
        tiles(segments, a, b),
        segments.len() > 0,
    ensures
        a <= segments.last().frame_range.start < b,
    decreases segments.len(),
{
    if segments.len() > 1 {
        let rest = segments.drop_last();
        let m = segments.last().frame_range.start as int;
        assert(segments[segments.len() - 2].frame_range.end == m);
        assert(tiles(rest, a, rest.last().frame_range.end as int)) by {
            assert forall|s: int| 0 <= s < rest.len() implies (#[trigger] rest[s]).frame_range.start
                < rest[s].frame_range.end && rest[s].id == s by {
                assert(rest[s] == segments[s]);
            }
            assert forall|s: int| 0 <= s < rest.len() - 1 implies (#[trigger] rest[s]).frame_range.end
                == rest[s + 1].frame_range.start by {
                assert(rest[s] == segments[s]);
                assert(rest[s + 1] == segments[s + 1]);
            }
        }
        lemma_tiles_start_bound(rest, a, rest.last().frame_range.end as int);
        assert(rest.last() == segments[segments.len() - 2]);
    }
    assert(segments[segments.len() - 1] == segments.last());
}

/// Without operations every frame is kept, in order, with its own delay: over segments
/// that tile the frames, planning an empty operation map gives each frame once.
pub proof fn law_no_operations_keeps_every_frame<H>(frames: Seq<AnalyzedFrame<H>>, segments: Seq<Segment>)
    requires
        tiles(segments, 0, frames.len() as int),
    ensures
        plan_segment_ops(frames, segments, Map::empty()) =~= Seq::new(
            frames.len(),
            |i: int| (i, frames[i].frame.delay_centiseconds),
        ),
{
    lemma_plan_without_ops(frames, segments, 0, frames.len() as int);
}

/// Insert a segment into a vector sorted longest first, after every segment at least as
/// long.
fn insert_sorted(sorted: &mut Vec<Segment>, s: Segment)
    ensures
        final(sorted)@ == insert_longest_first(old(sorted)@, s),
{
    let ghost orig = sorted@;
    let mut pos = sorted.len();
    proof {
        assert(orig.take(pos as int) =~= orig);
        assert(insert_longest_first(orig, s) + orig.skip(pos as int) =~= insert_longest_first(orig, s));
    }
    while pos > 0 && sorted[pos - 1].total_duration_cs < s.total_duration_cs
        invariant
            pos <= orig.len(),
            sorted@ == orig,
            insert_longest_first(orig, s) == insert_longest_first(orig.take(pos as int), s) + orig.skip(
                pos as int,
            ),
        decreases pos,
    {
        proof {
            let t = orig.take(pos as int);
            assert(t.last() == orig[pos - 1]);
            assert(t.drop_last() =~= orig.take(pos - 1));
            assert(insert_longest_first(t, s) == insert_longest_first(orig.take(pos - 1), s).push(orig[pos - 1]));
            assert(insert_longest_first(orig.take(pos - 1), s).push(orig[pos - 1]) + orig.skip(pos as int)
                =~= insert_longest_first(orig.take(pos - 1), s) + orig.skip(pos - 1));
        }
        pos = pos - 1;
    }
    proof {
        let t = orig.take(pos as int);
        if pos > 0 {
            assert(t.last() == orig[pos - 1]);
        }
        assert(insert_longest_first(t, s) == t.push(s));
    }
    sorted.insert(pos, s);
    proof {
        assert(sorted@ =~= orig.take(pos as int).push(s) + orig.skip(pos as int));
    }
}

impl<H> Analysis<H> {
    /// Create operations that bring the GIF's duration down to `target_ms` by shortening
    /// static segments, longest first, each to no less than 100 ms. Returns an empty set
    /// when the GIF is already short enough, and `None` when the static segments together
    /// are shorter than what must be removed.
    pub fn target_duration(&self, target_ms: u64) -> (r: Option<SegmentOps>)
        ensures
            match target_plan(self.segments@, self.metadata.total_duration_ms as int, target_ms as int) {
                Some(m) => r matches Some(ops) && ops@ == m,
                None => r is None,
            },
    {
        let current_ms = self.metadata.total_duration_ms;
        if current_ms <= target_ms {
            return Some(SegmentOps::new());
        }
        let to_remove_ms = current_ms - target_ms;
        let ghost pred = |s: Segment| s.is_static;
        let mut pauses: Vec<Segment> = Vec::new();
        let mut static_ms: u128 = 0;
        let mut i: usize = 0;
        while i < self.segments.len()
            invariant
                i <= self.segments@.len(),
                pred == (|s: Segment| s.is_static),
                pauses@ == self.segments@.take(i as int).filter(pred),
                static_ms == duration_ms_total(pauses@),
                static_ms <= i * 655350,
            decreases self.segments@.len() - i,
        {
            let s = &self.segments[i];
            proof {
                reveal(Seq::filter);
                assert(self.segments@.take(i + 1).drop_last() =~= self.segments@.take(i as int));
            }
            if s.is_static {
                let ghost before = pauses@;
                pauses.push(s.clone());
                proof {
                    assert(pauses@.drop_last() =~= before);
                }
                static_ms = static_ms + s.total_duration_cs as u128 * 10;
            }
            i = i + 1;
        }
        proof {
            assert(self.segments@.take(i as int) =~= self.segments@);
        }
        if static_ms < to_remove_ms as u128 {
            return None;
        }
        let mut sorted: Vec<Segment> = Vec::new();
        let mut k: usize = 0;
        while k < pauses.len()
            invariant
                k <= pauses@.len(),
                sorted@ == longest_first(pauses@.take(k as int)),
            decreases pauses@.len() - k,
        {
            proof {
                assert(pauses@.take(k + 1).drop_last() =~= pauses@.take(k as int));
            }
            insert_sorted(&mut sorted, pauses[k].clone());
            k = k + 1;
        }
        proof {
            assert(pauses@.take(k as int) =~= pauses@);
        }
        let mut ops = SegmentOps::new();
        let mut removed_ms: u64 = 0;
        let mut j: usize = 0;
        while j < sorted.len() && removed_ms < to_remove_ms
            invariant
                j <= sorted@.len(),
                removed_ms <= to_remove_ms,
                shorten_pauses(sorted@, 0, 0, to_remove_ms as int, Map::empty()) == shorten_pauses(
                    sorted@,
                    j as int,
                    removed_ms as int,
                    to_remove_ms as int,
                    ops@,
                ),
            decreases sorted@.len() - j,
        {
            let segment = &sorted[j];
            let segment_ms: u64 = segment.total_duration_cs as u64 * 10;
            let can_remove: u64 = if segment_ms > 100 {
                segment_ms - 100
            } else {
                0
            };
            if can_remove > 0 {
                let take: u64 = if can_remove <= to_remove_ms - removed_ms {
                    can_remove
                } else {
                    to_remove_ms - removed_ms
                };
                let new_ms: u64 = segment_ms - take;
                let op = if new_ms <= 100 {
                    SegmentOp::Collapse { delay_cs: 10 }
                } else {
                    SegmentOp::Collapse { delay_cs: (new_ms / 10) as u16 }
                };
                ops.insert(segment.id, op);
                removed_ms = removed_ms + take;
            }
            j = j + 1;
        }
        Some(ops)
    }
}

/// The segments operated on by kind: all, static, static and longer than `limit`, or
/// static and at least `limit` long.
pub open spec fn pause_pick(kind: u8, limit: u16, s: Segment) -> bool {
    if kind == 0 {
        true
    } else if kind == 1 {
        s.is_static
    } else if kind == 2 {
        s.is_static && s.total_duration_cs > limit
    } else {
        s.is_static && s.total_duration_cs >= limit
    }
}

/// A filter that keeps every element keeps the sequence.
proof fn lemma_filter_all(s: Seq<Segment>, pred: spec_fn(Segment) -> bool)
    requires
        forall|x: Segment| #[trigger] pred(x),
    ensures
        s.filter(pred) == s,
    decreases s.len(),
{
    reveal(Seq::filter);
    if s.len() > 0 {
        lemma_filter_all(s.drop_last(), pred);
        assert(s.drop_last().push(s.last()) =~= s);
    }
}

/// The segment selections of an analysis, by kind: static, motion, all, one ID, a set of
/// IDs, or overlapping a frame range.
pub open spec fn picks(kind: u8, id: usize, ids: Seq<usize>, range: Range<usize>, s: Segment) -> bool {
    if kind == 0 {
        s.is_static
    } else if kind == 1 {
        !s.is_static
    } else if kind == 2 {
        true
    } else if kind == 3 {
        s.id == id
    } else if kind == 4 {
        ids.contains(s.id)
    } else {
        s.frame_range.start < range.end && s.frame_range.end > range.start
    }
}

fn pick_segment(kind: u8, id: usize, ids: &[usize], range: &Range<usize>, s: &Segment) -> (r: bool)
    ensures
        r == picks(kind, id, ids@, *range, *s),
{
    if kind == 0 {
        s.is_static
    } else if kind == 1 {
        !s.is_static
    } else if kind == 2 {
        true
    } else if kind == 3 {
        s.id == id
    } else if kind == 4 {
        let mut k: usize = 0;
        while k < ids.len()
            invariant
                k <= ids@.len(),
                kind == 4,
                forall|j: int| 0 <= j < k ==> ids@[j] != s.id,
            decreases ids@.len() - k,
        {
            if ids[k] == s.id {
                assert(ids@[k as int] == s.id);
                return true;
            }
            k = k + 1;
        }
        assert(!ids@.contains(s.id));
        false
    } else {
        s.frame_range.start < range.end && s.frame_range.end > range.start
    }
}
} // verus!
