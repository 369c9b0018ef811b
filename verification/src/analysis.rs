//! Frame analysis and segment detection.
use vstd::prelude::*;
use std::ops::Range;
use crate::segment::{delay_sum, delay_sum_u16, sum_delays_u16};
use crate::traits::FrameHasher;
use crate::types::{AnalyzedFrame, DecodedFrame, Segment};

verus! {

/// Configuration for segment analysis.
#[derive(Debug, Clone, Copy)]
pub struct AnalysisConfig {
    /// Maximum hash distance for frames to be considered similar.
    pub similarity_threshold: u32,
    /// Minimum number of consecutive similar frames to form a segment.
    pub min_segment_frames: usize,
    /// Whether to mark segments with all identical frames as static.
    pub detect_static: bool,
    /// Distance threshold for considering frames identical (for static detection).
    pub identical_threshold: u32,
}

impl Default for AnalysisConfig {
    fn default() -> (r: Self)
        ensures
            r.similarity_threshold == 5,
            r.min_segment_frames == 2,
            r.detect_static,
            r.identical_threshold == 0,
    {
        AnalysisConfig {
            similarity_threshold: 5,
            min_segment_frames: 2,
            detect_static: true,
            identical_threshold: 0,
        }
    }
}

impl AnalysisConfig {
    /// Create a new analysis config with default settings.
    pub fn new() -> (r: Self)
        ensures
            r.similarity_threshold == 5,
            r.min_segment_frames == 2,
            r.detect_static,
            r.identical_threshold == 0,
    {
        AnalysisConfig::default()
    }

    /// Set the similarity threshold.
    pub fn with_similarity_threshold(self, threshold: u32) -> (r: Self)
        ensures
            r == (AnalysisConfig { similarity_threshold: threshold, ..self }),
    {
        AnalysisConfig { similarity_threshold: threshold, ..self }
    }

    /// Set the minimum segment frames (at least 1).
    pub fn with_min_segment_frames(self, min: usize) -> (r: Self)
        ensures
            r == (AnalysisConfig { min_segment_frames: if min >= 1 { min } else { 1 }, ..self }),
    {
        let min_segment_frames = if min >= 1 {
            min
        } else {
            1
        };
        AnalysisConfig { min_segment_frames, ..self }
    }

    /// Enable or disable static frame detection.
    pub fn with_static_detection(self, enabled: bool) -> (r: Self)
        ensures
            r == (AnalysisConfig { detect_static: enabled, ..self }),
    {
        AnalysisConfig { detect_static: enabled, ..self }
    }

    /// Set the threshold for identical frame detection.
    pub fn with_identical_threshold(self, threshold: u32) -> (r: Self)
        ensures
            r == (AnalysisConfig { identical_threshold: threshold, ..self }),
    {
        AnalysisConfig { identical_threshold: threshold, ..self }
    }
}

/// The end of a run of similar frames that has reached frame `e`: the run goes on while
/// the distance from the frame before to the next frame is at most `threshold`.
pub open spec fn run_end(n: int, dist: Seq<u32>, threshold: u32, e: int) -> int
    decreases n - e,
{
    if 1 <= e < n && e - 1 < dist.len() && dist[e - 1] <= threshold {
        run_end(n, dist, threshold, e + 1)
    } else {
        e
    }
}

/// Frames `k - 1` and `k` count as identical: their distance is at most the identical
/// threshold, and with a threshold of 0 their images are also equal.
pub open spec fn identical_pair<H>(
    frames: Seq<AnalyzedFrame<H>>,
    dist: Seq<u32>,
    config: AnalysisConfig,
    k: int,
) -> bool {
    &&& dist[k - 1] <= config.identical_threshold
    &&& config.identical_threshold == 0 ==> frames[k - 1].frame.image@ == frames[k].frame.image@
}

/// Every adjacent pair of frames `a..e` counts as identical.
pub open spec fn run_identical<H>(
    frames: Seq<AnalyzedFrame<H>>,
    dist: Seq<u32>,
    config: AnalysisConfig,
    a: int,
    e: int,
) -> bool {
    forall|k: int| a < k < e ==> #[trigger] identical_pair(frames, dist, config, k)
}

/// Sum of the distances between adjacent frames of `a..e`.
pub open spec fn dist_total(dist: Seq<u32>, a: int, e: int) -> int
    decreases e - a,
{
    if e <= a + 1 {
        0
    } else {
        dist_total(dist, a, e - 1) + dist[e - 2]
    }
}

/// The segment formed by the run of similar frames `a..e`.
pub open spec fn run_segment<H>(
    frames: Seq<AnalyzedFrame<H>>,
    dist: Seq<u32>,
    config: AnalysisConfig,
    a: int,
    e: int,
    id: int,
) -> Segment {
    Segment {
        id: id as usize,
        frame_range: Range { start: a as usize, end: e as usize },
        total_duration_cs: delay_sum_u16(frames, a, e),
        distance_total: dist_total(dist, a, e) as u128,
        distance_count: (e - a - 1) as u64,
        is_static: config.detect_static && run_identical(frames, dist, config, a, e),
    }
}

/// The segment of the single frame `a`, when its run is too short.
pub open spec fn single_segment<H>(frames: Seq<AnalyzedFrame<H>>, a: int, id: int) -> Segment {
    Segment {
        id: id as usize,
        frame_range: Range { start: a as usize, end: (a + 1) as usize },
        total_duration_cs: frames[a].frame.delay_centiseconds,
        distance_total: 0,
        distance_count: 0,
        is_static: false,
    }
}

/// A run ends no earlier than where it has reached, and within the frames.
pub proof fn lemma_run_end_bounds(n: int, dist: Seq<u32>, threshold: u32, e: int)
    ensures
        run_end(n, dist, threshold, e) >= e,
        e <= n ==> run_end(n, dist, threshold, e) <= n,
    decreases n - e,
{
    if 1 <= e < n && e - 1 < dist.len() && dist[e - 1] <= threshold {
        lemma_run_end_bounds(n, dist, threshold, e + 1);
    }
}

/// The segments detected from frame `i` on, numbered from `id`: the longest run of
/// similar frames from `i` becomes a segment if it has at least `min_segment_frames`
/// frames, otherwise frame `i` alone does.
pub open spec fn segments_from<H>(
    frames: Seq<AnalyzedFrame<H>>,
    dist: Seq<u32>,
    config: AnalysisConfig,
    i: int,
    id: int,
) -> Seq<Segment>
    decreases frames.len() - i,
{
    if i < 0 || i >= frames.len() {
        Seq::empty()
    } else {
        let e = run_end(frames.len() as int, dist, config.similarity_threshold, i + 1);
        proof {
            lemma_run_end_bounds(frames.len() as int, dist, config.similarity_threshold, i + 1);
        }
        if e - i >= config.min_segment_frames {
            seq![run_segment(frames, dist, config, i, e, id)] + segments_from(
                frames,
                dist,
                config,
                e,
                id + 1,
            )
        } else {
            seq![single_segment(frames, i, id)] + segments_from(frames, dist, config, i + 1, id + 1)
        }
    }
}

/// The segments detected over all frames.
pub open spec fn detected_segments<H>(
    frames: Seq<AnalyzedFrame<H>>,
    dist: Seq<u32>,
    config: AnalysisConfig,
) -> Seq<Segment> {
    segments_from(frames, dist, config, 0, 0)
}

/// The delays of frames `a..b`, in centiseconds.
pub open spec fn frame_delays<H>(frames: Seq<AnalyzedFrame<H>>, a: int, b: int) -> Seq<int> {
    frames.subrange(a, b).map_values(|f: AnalyzedFrame<H>| f.frame.delay_centiseconds as int)
}

/// The sum of a sequence of numbers.
pub open spec fn total(xs: Seq<int>) -> int {
    xs.fold_left(0, |acc: int, x: int| acc + x)
}

proof fn lemma_delay_sum_is_total<H>(frames: Seq<AnalyzedFrame<H>>, a: int, b: int)
    requires
        0 <= a <= b <= frames.len(),
    ensures
        delay_sum(frames, a, b) == total(frame_delays(frames, a, b)),
    decreases b - a,
{
    let xs = frame_delays(frames, a, b);
    if b > a {
        lemma_delay_sum_is_total(frames, a, b - 1);
        assert(xs.drop_last() =~= frame_delays(frames, a, b - 1));
        assert(xs.last() == frames[b - 1].frame.delay_centiseconds as int);
    } else {
        assert(xs.len() == 0);
    }
}

proof fn lemma_segments_from_durations<H>(
    frames: Seq<AnalyzedFrame<H>>,
    dist: Seq<u32>,
    config: AnalysisConfig,
    i: int,
    id: int,
    j: int,
)
    requires
        0 <= i,
        frames.len() <= usize::MAX,
        0 <= j < segments_from(frames, dist, config, i, id).len(),
    ensures
        ({
            let s = segments_from(frames, dist, config, i, id)[j];
            &&& i <= s.frame_range.start < s.frame_range.end <= frames.len()
            &&& s.total_duration_cs as int == delay_sum(frames, s.frame_range.start as int, s.frame_range.end as int)
                % 65536
        }),
    decreases frames.len() - i, j,
{
    let segs = segments_from(frames, dist, config, i, id);
    if 0 <= i < frames.len() {
        let e = run_end(frames.len() as int, dist, config.similarity_threshold, i + 1);
        lemma_run_end_bounds(frames.len() as int, dist, config.similarity_threshold, i + 1);
        if e - i >= config.min_segment_frames {
            let rest = segments_from(frames, dist, config, e, id + 1);
            assert(segs == seq![run_segment(frames, dist, config, i, e, id)] + rest);
            if j > 0 {
                assert(segs[j] == rest[j - 1]);
                lemma_segments_from_durations(frames, dist, config, e, id + 1, j - 1);
            } else {
                assert(segs[0] == run_segment(frames, dist, config, i, e, id));
            }
        } else {
            let rest = segments_from(frames, dist, config, i + 1, id + 1);
            assert(segs == seq![single_segment(frames, i, id)] + rest);
            if j > 0 {
                assert(segs[j] == rest[j - 1]);
                lemma_segments_from_durations(frames, dist, config, i + 1, id + 1, j - 1);
            } else {
                assert(segs[0] == single_segment(frames, i, id));
                assert(delay_sum(frames, i, i) == 0);
                assert(delay_sum(frames, i, i + 1) == frames[i].frame.delay_centiseconds);
            }
        }
    }
}

/// Every detected segment covers frames inside the analysis, and its recorded duration is
/// the sum of the delays of all the frames it covers (kept in 16 bits, wrapping around).
/// (The frames are those of a `Vec`, so their count fits a `usize`.)
pub proof fn law_segment_duration_is_frame_delays<H>(
    frames: Seq<AnalyzedFrame<H>>,
    dist: Seq<u32>,
    config: AnalysisConfig,
    j: int,
)
    requires
        frames.len() <= usize::MAX,
        0 <= j < detected_segments(frames, dist, config).len(),
    ensures
        ({
            let s = detected_segments(frames, dist, config)[j];
            &&& 0 <= s.frame_range.start < s.frame_range.end <= frames.len()
            &&& s.total_duration_cs as int == total(
                frame_delays(frames, s.frame_range.start as int, s.frame_range.end as int),
            ) % 65536
        }),
{
    lemma_segments_from_durations(frames, dist, config, 0, 0, j);
    let s = detected_segments(frames, dist, config)[j];
    lemma_delay_sum_is_total(frames, s.frame_range.start as int, s.frame_range.end as int);
}

/// Segments cover frames `a..b` in order without gaps, none empty, and segment `s` has
/// id `s`.
pub open spec fn tiles(segments: Seq<Segment>, a: int, b: int) -> bool {
    &&& segments.len() == 0 ==> a == b
    &&& segments.len() > 0 ==> segments[0].frame_range.start == a
        && segments.last().frame_range.end == b
    &&& forall|s: int|
        0 <= s < segments.len() ==> (#[trigger] segments[s]).frame_range.start
            < segments[s].frame_range.end && segments[s].id == s
    &&& forall|s: int|
        0 <= s < segments.len() - 1 ==> (#[trigger] segments[s]).frame_range.end == segments[s
            + 1].frame_range.start
}

/// A frame assigned to a segment, otherwise unchanged.
pub open spec fn assigned<H>(f: AnalyzedFrame<H>, id: usize) -> AnalyzedFrame<H> {
    AnalyzedFrame { segment_id: Some(id), ..f }
}

/// Each frame of `out` is the frame of `orig` assigned to the segment that covers it.
pub open spec fn assigned_to<H>(
    out: Seq<AnalyzedFrame<H>>,
    orig: Seq<AnalyzedFrame<H>>,
    segments: Seq<Segment>,
) -> bool {
    &&& out.len() == orig.len()
    &&& forall|s: int, j: int|
        0 <= s < segments.len() && (#[trigger] segments[s]).frame_range.start <= j
            < segments[s].frame_range.end ==> #[trigger] out[j] == assigned(orig[j], segments[s].id)
}

/// Find the end of the run of similar frames starting at `start`, with the sum of its
/// distances and whether all its frames are identical.
fn scan_run<H>(
    analyzed: &Vec<AnalyzedFrame<H>>,
    distances: &[u32],
    config: &AnalysisConfig,
    start: usize,
) -> (r: (usize, u128, bool))
    requires
        start < analyzed@.len(),
    ensures
        r.0 == run_end(analyzed@.len() as int, distances@, config.similarity_threshold, start + 1),
        r.1 == dist_total(distances@, start as int, r.0 as int),
        r.2 == run_identical(analyzed@, distances@, *config, start as int, r.0 as int),
{
    let n = analyzed.len();
    let mut end: usize = start + 1;
    let mut total: u128 = 0;
    let mut all_identical = true;
    while end < n && end - 1 < distances.len() && distances[end - 1] <= config.similarity_threshold
        invariant
            start < end <= n,
            n == analyzed@.len(),
            run_end(n as int, distances@, config.similarity_threshold, end as int) == run_end(
                n as int,
                distances@,
                config.similarity_threshold,
                start + 1,
            ),
            total == dist_total(distances@, start as int, end as int),
            total <= (end - start) * 0xffff_ffffu64,
            all_identical == run_identical(analyzed@, distances@, *config, start as int, end as int),
        decreases n - end,
    {
        let d = distances[end - 1];
        let same = if d > config.identical_threshold {
            false
        } else if config.identical_threshold == 0 {
            analyzed[end - 1].frame.image.same_pixels(&analyzed[end].frame.image)
        } else {
            true
        };
        proof {
            if all_identical && same {
                assert forall|k: int| start < k < end + 1 implies #[trigger] identical_pair(
                    analyzed@,
                    distances@,
                    *config,
                    k,
                ) by {
                    if k < end {
                        assert(identical_pair(analyzed@, distances@, *config, k));
                    }
                }
            }
            if !same {
                assert(!identical_pair(analyzed@, distances@, *config, end as int));
            }
        }
        all_identical = all_identical && same;
        total = total + d as u128;
        end = end + 1;
    }
    (end, total, all_identical)
}

/// Detect segments from analyzed frames and the distances between adjacent frames, and
/// assign each frame to its segment.
fn detect_segments<H>(
    analyzed: &mut Vec<AnalyzedFrame<H>>,
    distances: &[u32],
    config: &AnalysisConfig,
) -> (segments: Vec<Segment>)
    ensures
        segments@ == detected_segments(old(analyzed)@, distances@, *config),
        tiles(segments@, 0, old(analyzed)@.len() as int),
        assigned_to(final(analyzed)@, old(analyzed)@, segments@),
{
    let ghost orig = analyzed@;
    let n = analyzed.len();
    let mut segments: Vec<Segment> = Vec::new();
    let mut i: usize = 0;
    while i < n
        invariant
            i <= n,
            n == orig.len(),
            analyzed@.len() == n,
            segments@ + segments_from(orig, distances@, *config, i as int, segments@.len() as int)
                == detected_segments(orig, distances@, *config),
            tiles(segments@, 0, i as int),
            segments@.len() <= i,
            assigned_to(analyzed@, orig, segments@),
            forall|j: int| i <= j < n ==> analyzed@[j] == orig[j],
        decreases n - i,
    {
        let id = segments.len();
        let ghost before = segments@;
        let ghost pre = analyzed@;
        proof {
            lemma_run_end_bounds(n as int, distances@, config.similarity_threshold, i + 1);
        }
        let (end, total_distance, all_identical) = scan_run(analyzed, distances, config, i);
        proof {
            lemma_agree_from(analyzed@, orig, distances@, *config, i as int, end as int);
        }
        let seg_frames = end - i;
        if seg_frames >= config.min_segment_frames {
            let duration = sum_delays_u16(analyzed.as_slice(), i, end);
            let mut k: usize = i;
            while k < end
                invariant
                    i <= k <= end,
                    end <= n,
                    analyzed@.len() == n,
                    forall|j: int| 0 <= j < i ==> analyzed@[j] == pre[j],
                    forall|j: int| i <= j < k ==> analyzed@[j] == assigned(orig[j], id),
                    forall|j: int| k <= j < n ==> analyzed@[j] == orig[j],
                decreases end - k,
            {
                analyzed[k].segment_id = Some(id);
                k = k + 1;
            }
            let segment = Segment {
                id,
                frame_range: Range { start: i, end },
                total_duration_cs: duration,
                distance_total: total_distance,
                distance_count: (end - i - 1) as u64,
                is_static: config.detect_static && all_identical,
            };
            proof {
                assert(segment == run_segment(orig, distances@, *config, i as int, end as int, id as int));
                lemma_segments_from_unfold(orig, distances@, *config, i as int, id as int);
                lemma_push_keeps(segments@, segment, analyzed@, orig, pre, i as int, end as int);
            }
            segments.push(segment);
            proof {
                assert(segments@ + segments_from(orig, distances@, *config, end as int, segments@.len() as int)
                    =~= before + segments_from(orig, distances@, *config, i as int, id as int));
            }
            i = end;
        } else {
            let duration = analyzed[i].delay_cs();
            analyzed[i].segment_id = Some(id);
            let segment = Segment {
                id,
                frame_range: Range { start: i, end: i + 1 },
                total_duration_cs: duration,
                distance_total: 0,
                distance_count: 0,
                is_static: false,
            };
            proof {
                assert(segment == single_segment(orig, i as int, id as int));
                lemma_segments_from_unfold(orig, distances@, *config, i as int, id as int);
                lemma_push_keeps(segments@, segment, analyzed@, orig, pre, i as int, i + 1);
            }
            segments.push(segment);
            proof {
                assert(segments@ + segments_from(orig, distances@, *config, i + 1, segments@.len() as int)
                    =~= before + segments_from(orig, distances@, *config, i as int, id as int));
            }
            i = i + 1;
        }
    }
    proof {
        assert(segments_from(orig, distances@, *config, n as int, segments@.len() as int) =~= Seq::<Segment>::empty());
        assert(segments@ + Seq::<Segment>::empty() =~= segments@);
    }
    segments
}

/// Detection reads only the decoded frames, not hashes or assignments.
proof fn lemma_segments_from_frames_only<H>(
    a: Seq<AnalyzedFrame<H>>,
    b: Seq<AnalyzedFrame<H>>,
    dist: Seq<u32>,
    config: AnalysisConfig,
    i: int,
    id: int,
)
    requires
        a.len() == b.len(),
        forall|j: int| 0 <= j < a.len() ==> a[j].frame == b[j].frame,
    ensures
        segments_from(a, dist, config, i, id) == segments_from(b, dist, config, i, id),
    decreases a.len() - i,
{
    if 0 <= i < a.len() {
        let e = run_end(a.len() as int, dist, config.similarity_threshold, i + 1);
        lemma_run_end_bounds(a.len() as int, dist, config.similarity_threshold, i + 1);
        lemma_agree_from(a, b, dist, config, i, e);
        lemma_segments_from_frames_only(a, b, dist, config, e, id + 1);
        lemma_segments_from_frames_only(a, b, dist, config, i + 1, id + 1);
        assert(a[i].frame == b[i].frame);
    }
}

/// The distances between the hashes of adjacent frames.
pub open spec fn adjacent_distances<Hs: FrameHasher>(hasher: Hs, frames: Seq<DecodedFrame>) -> Seq<u32> {
    Seq::new(
        if frames.len() == 0 { 0 } else { (frames.len() - 1) as nat },
        |k: int| hasher.distance_of(hasher.hash_of(frames[k].image), hasher.hash_of(frames[k + 1].image)),
    )
}

/// What an analysis of `frames` gives: each frame with its hash and its distance from
/// the previous one, the detected segments tiling the frames, and each frame assigned to
/// its segment.
pub open spec fn analyzed_as<Hs: FrameHasher>(
    r: (Vec<AnalyzedFrame<Hs::Hash>>, Vec<Segment>),
    frames: Seq<DecodedFrame>,
    hasher: Hs,
    config: AnalysisConfig,
) -> bool {
    &&& r.0@.len() == frames.len()
    &&& forall|k: int| 0 <= k < frames.len() ==> (#[trigger] r.0@[k]).frame == frames[k]
    &&& forall|k: int| 0 <= k < frames.len() ==> (#[trigger] r.0@[k]).hash@ == hasher.hash_of(frames[k].image)
    &&& forall|k: int| 0 <= k < frames.len() ==> (#[trigger] r.0@[k]).distance_to_prev == if k == 0 {
        None
    } else {
        Some(adjacent_distances(hasher, frames)[k - 1])
    }
    &&& r.1@ == detected_segments(r.0@, adjacent_distances(hasher, frames), config)
    &&& tiles(r.1@, 0, frames.len() as int)
    &&& forall|s: int, j: int|
        0 <= s < r.1@.len() && (#[trigger] r.1@[s]).frame_range.start <= j < r.1@[s].frame_range.end
            ==> (#[trigger] r.0@[j]).segment_id == Some(s as usize)
}

/// Analyze frames and detect segments of similar consecutive frames.
///
/// Hashes every frame, stores in each frame the distance from the previous one, groups
/// consecutive similar frames into segments (see [`detected_segments`]) and assigns each
/// frame to its segment. Returns (analyzed_frames, segments).
pub fn analyze_frames<Hs: FrameHasher>(
    frames: Vec<DecodedFrame>,
    hasher: &Hs,
    config: &AnalysisConfig,
) -> (r: (Vec<AnalyzedFrame<Hs::Hash>>, Vec<Segment>))
    requires
        hasher.ready(),
        forall|k: int| 0 <= k < frames@.len() ==> (#[trigger] frames@[k]).image.wf() && hasher.accepts(frames@[k].image),
    ensures
        analyzed_as(r, frames@, *hasher, *config),
{
    let ghost orig = frames@;
    let mut analyzed: Vec<AnalyzedFrame<Hs::Hash>> = Vec::new();
    for frame in it: frames.into_iter()
        invariant
            it.seq() == orig,
            hasher.ready(),
            forall|k: int| 0 <= k < orig.len() ==> (#[trigger] orig[k]).image.wf() && hasher.accepts(orig[k].image),
            analyzed@.len() == it.index(),
            forall|k: int| 0 <= k < it.index() ==> (#[trigger] analyzed@[k]).frame == orig[k],
            forall|k: int| 0 <= k < it.index() ==> (#[trigger] analyzed@[k]).hash@ == hasher.hash_of(orig[k].image),
            forall|k: int| 0 <= k < it.index() ==> (#[trigger] analyzed@[k]).distance_to_prev.is_none(),
            forall|k: int| 0 <= k < it.index() ==> (#[trigger] analyzed@[k]).segment_id.is_none(),
    {
        let hash = hasher.hash_frame(&frame.image);
        analyzed.push(AnalyzedFrame::new(frame, hash));
    }
    segment_hashed(analyzed, hasher, config, Ghost(orig))
}

/// Hash every frame on rayon's thread pool (`rayon::iter::IntoParallelRefIterator::par_iter`,
/// then `map` and `collect`), calling the hasher's `hash_frame` on each frame's image.
/// Claimed: one hash per frame, in the frames' order (`collect` on an indexed parallel
/// iterator keeps it), each the one `hash_frame` gives for that frame.
#[verifier::external_body]
fn hash_frames_parallel<Hs: FrameHasher + Sync>(hasher: &Hs, frames: &[DecodedFrame]) -> (r: Vec<Hs::Hash>)
    where
        Hs::Hash: Send,
    requires
        hasher.ready(),
        forall|k: int| 0 <= k < frames@.len() ==> (#[trigger] frames@[k]).image.wf() && hasher.accepts(frames@[k].image),
    ensures
        r@.len() == frames@.len(),
        forall|k: int| 0 <= k < frames@.len() ==> (#[trigger] r@[k])@ == hasher.hash_of(frames@[k].image),
{
    let it = rayon::iter::IntoParallelRefIterator::par_iter(frames);
    rayon::iter::ParallelIterator::collect(rayon::iter::ParallelIterator::map(it, |f: &DecodedFrame| hasher.hash_frame(&f.image)))
}

/// Analyze frames like [`analyze_frames`], hashing them in parallel.
pub fn analyze_frames_parallel<Hs: FrameHasher + Sync>(
    frames: Vec<DecodedFrame>,
    hasher: &Hs,
    config: &AnalysisConfig,
) -> (r: (Vec<AnalyzedFrame<Hs::Hash>>, Vec<Segment>))
    where
        Hs::Hash: Send,
    requires
        hasher.ready(),
        forall|k: int| 0 <= k < frames@.len() ==> (#[trigger] frames@[k]).image.wf() && hasher.accepts(frames@[k].image),
    ensures
        analyzed_as(r, frames@, *hasher, *config),
{
    let ghost orig = frames@;
    let mut hashes = hash_frames_parallel(hasher, frames.as_slice());
    let ghost h0 = hashes@;
    let n = hashes.len();
    // The hashes in reverse order, so that popping gives them first to last.
    let mut rev: Vec<Hs::Hash> = Vec::new();
    while hashes.len() > 0
        invariant
            h0.len() == n,
            hashes@ == h0.take(hashes@.len() as int),
            rev@.len() + hashes@.len() == n,
            forall|j: int| 0 <= j < rev@.len() ==> #[trigger] rev@[j] == h0[n - 1 - j],
        decreases hashes@.len(),
    {
        let h = hashes.pop().unwrap();
        proof {
            assert(hashes@ =~= h0.take(hashes@.len() as int));
        }
        rev.push(h);
    }
    let mut analyzed: Vec<AnalyzedFrame<Hs::Hash>> = Vec::new();
    for frame in it: frames.into_iter()
        invariant
            it.seq() == orig,
            n == orig.len(),
            h0.len() == n,
            forall|k: int| 0 <= k < n ==> (#[trigger] h0[k])@ == hasher.hash_of(orig[k].image),
            rev@.len() + analyzed@.len() == n,
            analyzed@.len() == it.index(),
            forall|j: int| 0 <= j < rev@.len() ==> #[trigger] rev@[j] == h0[n - 1 - j],
            forall|k: int| 0 <= k < it.index() ==> (#[trigger] analyzed@[k]).frame == orig[k],
            forall|k: int| 0 <= k < it.index() ==> (#[trigger] analyzed@[k]).hash@ == hasher.hash_of(orig[k].image),
            forall|k: int| 0 <= k < it.index() ==> (#[trigger] analyzed@[k]).distance_to_prev.is_none(),
            forall|k: int| 0 <= k < it.index() ==> (#[trigger] analyzed@[k]).segment_id.is_none(),
    {
        proof {
            assert(rev@[rev@.len() - 1] == h0[it.index() as int]);
        }
        let hash = rev.pop().unwrap();
        analyzed.push(AnalyzedFrame::new(frame, hash));
    }
    segment_hashed(analyzed, hasher, config, Ghost(orig))
}

/// Link hashed frames to their predecessors by distance, detect the segments, and assign
/// each frame to its segment.
#[verifier::rlimit(40)]
fn segment_hashed<Hs: FrameHasher>(
    analyzed: Vec<AnalyzedFrame<Hs::Hash>>,
    hasher: &Hs,
    config: &AnalysisConfig,
    Ghost(orig): Ghost<Seq<DecodedFrame>>,
) -> (r: (Vec<AnalyzedFrame<Hs::Hash>>, Vec<Segment>))
    requires
        analyzed@.len() == orig.len(),
        forall|k: int| 0 <= k < orig.len() ==> (#[trigger] analyzed@[k]).frame == orig[k],
        forall|k: int| 0 <= k < orig.len() ==> (#[trigger] analyzed@[k]).hash@ == hasher.hash_of(orig[k].image),
        forall|k: int| 0 <= k < orig.len() ==> (#[trigger] analyzed@[k]).distance_to_prev.is_none(),
        forall|k: int| 0 <= k < orig.len() ==> (#[trigger] analyzed@[k]).segment_id.is_none(),
    ensures
        analyzed_as(r, orig, *hasher, *config),
{
    let mut analyzed = analyzed;
    let ghost dists = adjacent_distances(*hasher, orig);
    let n = analyzed.len();
    let mut distances: Vec<u32> = Vec::new();
    let mut i: usize = 0;
    while i + 1 < n
        invariant
            n == analyzed@.len(),
            n == orig.len(),
            i <= n,
            n > 0 ==> i < n,
            dists == adjacent_distances(*hasher, orig),
            distances@ == dists.take(i as int),
            forall|k: int| 0 <= k < n ==> (#[trigger] analyzed@[k]).frame == orig[k],
            forall|k: int| 0 <= k < n ==> (#[trigger] analyzed@[k]).hash@ == hasher.hash_of(orig[k].image),
            forall|k: int| 0 <= k < n ==> (#[trigger] analyzed@[k]).segment_id.is_none(),
            forall|k: int| 0 <= k < n ==> (#[trigger] analyzed@[k]).distance_to_prev == if k == 0 || k > i {
                None
            } else {
                Some(dists[k - 1])
            },
        decreases n - i,
    {
        let d = hasher.distance(&analyzed[i].hash, &analyzed[i + 1].hash);
        distances.push(d);
        analyzed[i + 1].distance_to_prev = Some(d);
        i = i + 1;
    }
    proof {
        assert(distances@ =~= dists);
    }
    let ghost pre = analyzed@;
    let segments = detect_segments(&mut analyzed, distances.as_slice(), config);
    proof {
        assert forall|k: int| 0 <= k < n implies (#[trigger] analyzed@[k]).frame == orig[k]
            && analyzed@[k].hash@ == hasher.hash_of(orig[k].image)
            && analyzed@[k].distance_to_prev == pre[k].distance_to_prev by {
            lemma_tiled_frame_assigned(segments@, analyzed@, pre, k);
        }
        lemma_segments_from_frames_only(analyzed@, pre, dists, *config, 0, 0);
    }
    (analyzed, segments)
}

/// A frame covered by a tiling, once assigned, keeps everything but its segment.
proof fn lemma_tiled_frame_assigned<H>(
    segments: Seq<Segment>,
    out: Seq<AnalyzedFrame<H>>,
    orig: Seq<AnalyzedFrame<H>>,
    k: int,
)
    requires
        tiles(segments, 0, orig.len() as int),
        assigned_to(out, orig, segments),
        0 <= k < orig.len(),
    ensures
        out[k].frame == orig[k].frame,
        out[k].hash == orig[k].hash,
        out[k].distance_to_prev == orig[k].distance_to_prev,
    decreases segments.len(),
{
    let s = lemma_tiles_cover(segments, 0, orig.len() as int, k);
    assert(out[k] == assigned(orig[k], segments[s].id));
}

/// The segment of a tiling that covers frame `j`.
proof fn lemma_tiles_cover(segments: Seq<Segment>, a: int, b: int, j: int) -> (s: int)
    requires
        tiles(segments, a, b),
        a <= j < b,
    ensures
        0 <= s < segments.len(),
        segments[s].frame_range.start <= j < segments[s].frame_range.end,
    decreases segments.len(),
{
    let last = segments.last();
    if j >= last.frame_range.start {
        assert(segments[segments.len() - 1] == last);
        lemma_tiles_end(segments, a, b, segments.len() - 1);
        segments.len() - 1
    } else {
        let rest = segments.drop_last();
        assert(segments.len() >= 2) by {
            if segments.len() == 1 {
                assert(segments[0] == last);
            }
        }
        assert(segments[segments.len() - 2].frame_range.end == last.frame_range.start);
        assert(tiles(rest, a, last.frame_range.start as int)) by {
            assert forall|s: int| 0 <= s < rest.len() implies (#[trigger] rest[s]).frame_range.start
                < rest[s].frame_range.end && rest[s].id == s by {
                assert(rest[s] == segments[s]);
            }
            assert forall|s: int| 0 <= s < rest.len() - 1 implies (#[trigger] rest[s]).frame_range.end
                == rest[s + 1].frame_range.start by {
                assert(rest[s] == segments[s]);
                assert(rest[s + 1] == segments[s + 1]);
            }
        }
        let s = lemma_tiles_cover(rest, a, last.frame_range.start as int, j);
        assert(rest[s] == segments[s]);
        s
    }
}

/// Frames that agree from `i` on give the same runs there.
proof fn lemma_agree_from<H>(
    a: Seq<AnalyzedFrame<H>>,
    b: Seq<AnalyzedFrame<H>>,
    dist: Seq<u32>,
    config: AnalysisConfig,
    i: int,
    e: int,
)
    requires
        a.len() == b.len(),
        0 <= i <= e <= a.len(),
        forall|j: int| i <= j < a.len() ==> a[j].frame == b[j].frame,
    ensures
        run_identical(a, dist, config, i, e) == run_identical(b, dist, config, i, e),
        delay_sum_u16(a, i, e) == delay_sum_u16(b, i, e),
        i < a.len() ==> a[i].frame.delay_centiseconds == b[i].frame.delay_centiseconds,
{
    assert forall|k: int| i < k < e implies identical_pair(a, dist, config, k) == identical_pair(
        b,
        dist,
        config,
        k,
    ) by {
        assert(a[k - 1].frame == b[k - 1].frame);
        assert(a[k].frame == b[k].frame);
    }
    lemma_delay_sum_agree(a, b, i, e);
}

proof fn lemma_delay_sum_agree<H>(a: Seq<AnalyzedFrame<H>>, b: Seq<AnalyzedFrame<H>>, i: int, e: int)
    requires
        a.len() == b.len(),
        0 <= i <= e <= a.len(),
        forall|j: int| i <= j < a.len() ==> a[j].frame == b[j].frame,
    ensures
        delay_sum(a, i, e) == delay_sum(b, i, e),
    decreases e - i,
{
    if e > i {
        lemma_delay_sum_agree(a, b, i, e - 1);
        assert(a[e - 1].frame == b[e - 1].frame);
    }
}

proof fn lemma_segments_from_unfold<H>(
    frames: Seq<AnalyzedFrame<H>>,
    dist: Seq<u32>,
    config: AnalysisConfig,
    i: int,
    id: int,
)
    requires
        0 <= i < frames.len(),
    ensures
        ({
            let e = run_end(frames.len() as int, dist, config.similarity_threshold, i + 1);
            segments_from(frames, dist, config, i, id) == if e - i >= config.min_segment_frames {
                seq![run_segment(frames, dist, config, i, e, id)] + segments_from(
                    frames,
                    dist,
                    config,
                    e,
                    id + 1,
                )
            } else {
                seq![single_segment(frames, i, id)] + segments_from(
                    frames,
                    dist,
                    config,
                    i + 1,
                    id + 1,
                )
            }
        }),
{
}

/// Pushing the segment of frames `i..e`, once those frames are assigned to it, keeps the
/// tiling and the assignment.
proof fn lemma_push_keeps<H>(
    segments: Seq<Segment>,
    segment: Segment,
    now: Seq<AnalyzedFrame<H>>,
    orig: Seq<AnalyzedFrame<H>>,
    pre: Seq<AnalyzedFrame<H>>,
    i: int,
    e: int,
)
    requires
        tiles(segments, 0, i),
        assigned_to(pre, orig, segments),
        segments.len() <= i,
        now.len() == orig.len(),
        0 <= i < e <= orig.len(),
        segment.frame_range.start == i,
        segment.frame_range.end == e,
        segment.id == segments.len(),
        forall|j: int| 0 <= j < i ==> now[j] == pre[j],
        forall|j: int| i <= j < e ==> now[j] == assigned(orig[j], segment.id),
    ensures
        tiles(segments.push(segment), 0, e),
        assigned_to(now, orig, segments.push(segment)),
        segments.len() + 1 <= e,
{
    let t = segments.push(segment);
    assert forall|s: int| 0 <= s < t.len() implies (#[trigger] t[s]).frame_range.start
        < t[s].frame_range.end && t[s].id == s by {
        if s < segments.len() {
            assert(t[s] == segments[s]);
        }
    }
    assert forall|s: int| 0 <= s < t.len() - 1 implies (#[trigger] t[s]).frame_range.end
        == t[s + 1].frame_range.start by {
        assert(t[s] == segments[s]);
        if s + 1 < segments.len() {
            assert(t[s + 1] == segments[s + 1]);
        } else {
            assert(segments[s] == segments.last());
        }
    }
    assert forall|s: int, j: int|
        0 <= s < t.len() && (#[trigger] t[s]).frame_range.start <= j
            < t[s].frame_range.end implies #[trigger] now[j] == assigned(orig[j], t[s].id) by {
        if s < segments.len() {
            assert(t[s] == segments[s]);
            lemma_tiles_end(segments, 0, i, s);
            assert(pre[j] == assigned(orig[j], segments[s].id));
        }
    }
}

/// Each segment of a tiling ends no later than the tiling.
pub proof fn lemma_tiles_end(segments: Seq<Segment>, a: int, b: int, s: int)
    requires
        tiles(segments, a, b),
        0 <= s < segments.len(),
    ensures
        segments[s].frame_range.end <= b,
        a <= segments[s].frame_range.start,
    decreases segments.len() - s,
{
    if s < segments.len() - 1 {
        lemma_tiles_end(segments, a, b, s + 1);
    } else {
        assert(segments[s] == segments.last());
    }
    if s > 0 {
        lemma_tiles_start(segments, a, b, s);
    }
}

/// Each segment of a tiling starts no earlier than the tiling.
pub proof fn lemma_tiles_start(segments: Seq<Segment>, a: int, b: int, s: int)
    requires
        tiles(segments, a, b),
        0 <= s < segments.len(),
    ensures
        a <= segments[s].frame_range.start,
    decreases s,
{
    if s > 0 {
        lemma_tiles_start(segments, a, b, s - 1);
    }
}

} // verus!
