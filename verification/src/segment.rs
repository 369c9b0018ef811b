//! Applying segment and frame operations, and splitting segments.
use vstd::prelude::*;
use std::ops::Range;
use crate::types::{ops_where, lemma_ops_where_step, AnalyzedFrame, EncodableFrame, FrameOp, Segment, SegmentOp, SegmentOps, FrameOps, op_for, frame_op_for, segment_op_of, frame_op_of};

verus! {

broadcast use {
    vstd::std_specs::hash::group_hash_axioms,
    vstd::std_specs::btree::group_btree_axioms,
    vstd::laws_cmp::group_laws_cmp,
};

/// One planned output frame: the index of the source frame whose image it shows, and its delay.
pub type PlannedFrame = (int, u16);

/// Every segment's frame range lies inside the frame list.
pub open spec fn segments_fit(frame_count: int, segments: Seq<Segment>) -> bool {
    forall|j: int|
        0 <= j < segments.len() ==> {
            &&& (#[trigger] segments[j]).frame_range.start <= segments[j].frame_range.end
            &&& segments[j].frame_range.end <= frame_count
        }
}

/// Number of frames of a segment whose range is well formed.
pub open spec fn seg_len(seg: Segment) -> int {
    if seg.frame_range.end >= seg.frame_range.start {
        seg.frame_range.end - seg.frame_range.start
    } else {
        0
    }
}

/// `SetDuration` divides by the segment's frame count taken as a `u16`; that count must not
/// wrap to zero for a non-empty segment that gets the operation.
pub open spec fn set_duration_divisible(segments: Seq<Segment>, ops: Map<usize, SegmentOp>) -> bool {
    forall|j: int|
        0 <= j < segments.len() ==> (op_for(ops, (#[trigger] segments[j]).id) is SetDuration
            ==> seg_len(segments[j]) == 0 || seg_len(segments[j]) % 65536 != 0)
}

/// `delay * numerator / denominator`, rounded half away from zero and saturated to `1..=u16::MAX`.
/// A zero denominator stands for an infinite factor: a zero product (0 times infinity)
/// gives 1, anything else saturates.
pub open spec fn scaled_delay(delay: u16, numerator: u32, denominator: u32) -> u16 {
    if denominator == 0 {
        if delay == 0 || numerator == 0 {
            1
        } else {
            u16::MAX
        }
    } else {
        let q = (2 * delay * numerator + denominator) / (2 * denominator as int);
        if q == 0 {
            1
        } else if q > u16::MAX {
            u16::MAX
        } else {
            q as u16
        }
    }
}

/// `r` is `value * numerator / denominator` rounded half up, except where that falls
/// below `lo` or above `hi`, where `r` is the bound.
pub open spec fn rounded_quotient(r: int, value: int, numerator: int, denominator: int, lo: int, hi: int) -> bool {
    let x = 2 * value * numerator;
    &&& lo <= r <= hi
    &&& lo < r < hi ==> x - denominator < 2 * denominator * r <= x + denominator
    &&& r == lo ==> x + denominator < 2 * denominator * (lo + 1)
    &&& r == hi ==> x + denominator >= 2 * denominator * hi
}

/// The quotient rounded half up, `(2x + d) / 2d`, lies where rounding puts it.
pub proof fn lemma_half_up(x: int, d: int)
    requires
        x >= 0,
        d > 0,
    ensures
        2 * d * ((x + d) / (2 * d)) <= x + d < 2 * d * ((x + d) / (2 * d)) + 2 * d,
        (x + d) / (2 * d) >= 0,
{
    let m = 2 * d;
    let q = (x + d) / m;
    vstd::arithmetic::div_mod::lemma_fundamental_div_mod(x + d, m);
    vstd::arithmetic::div_mod::lemma_mod_bound(x + d, m);
    vstd::arithmetic::div_mod::lemma_div_pos_is_pos(x + d, m);
    assert(m * q == 2 * d * q) by (nonlinear_arith)
        requires
            m == 2 * d,
    ;
}

/// Scaling a delay by `numerator / denominator` gives the product rounded half up, kept
/// within `1..=u16::MAX`; a factor of at most 1 never lengthens a delay (beyond 1 cs).
pub proof fn law_scaled_delay_rounds(delay: u16, numerator: u32, denominator: u32)
    requires
        denominator > 0,
    ensures
        rounded_quotient(scaled_delay(delay, numerator, denominator) as int, delay as int, numerator as int,
            denominator as int, 1, 65535),
        numerator <= denominator ==> scaled_delay(delay, numerator, denominator) <= delay || scaled_delay(
            delay,
            numerator,
            denominator,
        ) == 1,
{
    let x = 2 * delay * numerator;
    let d = denominator as int;
    assert(x >= 0) by (nonlinear_arith)
        requires
            x == 2 * delay * numerator,
            delay >= 0,
            numerator >= 0,
    ;
    lemma_half_up(x, d);
    let q = (x + d) / (2 * d);
    assert(scaled_delay(delay, numerator, denominator) == if q == 0 {
        1u16
    } else if q > u16::MAX {
        u16::MAX
    } else {
        q as u16
    });
    if q > 65535 {
        assert(2 * d * q >= 2 * d * 65535) by (nonlinear_arith)
            requires
                q > 65535,
                d > 0,
        ;
    }
    if q <= 1 {
        assert(2 * d * q <= 2 * d) by (nonlinear_arith)
            requires
                q <= 1,
                d > 0,
        ;
    }
    if numerator <= denominator {
        assert(x <= 2 * delay * d) by (nonlinear_arith)
            requires
                x == 2 * delay * numerator,
                numerator <= d,
                delay >= 0,
        ;
        assert(q <= delay) by (nonlinear_arith)
            requires
                2 * d * q <= x + d,
                x <= 2 * delay * d,
                d > 0,
        ;
    }
}

/// Every frame a `Scale` operation plans keeps its place and gets its delay times
/// `numerator / denominator`, rounded half up within `1..=u16::MAX`; a factor of at most 1
/// never lengthens a delay (beyond 1 cs).
pub proof fn law_scale_plan<H>(frames: Seq<AnalyzedFrame<H>>, seg: Segment, numerator: u32, denominator: u32, i: int)
    requires
        denominator > 0,
        0 <= i < seg_len(seg),
    ensures
        ({
            let p = segment_plan(frames, seg, SegmentOp::Scale { numerator, denominator });
            let d = frames[seg.frame_range.start + i].frame.delay_centiseconds;
            &&& p.len() == seg_len(seg)
            &&& p[i].0 == seg.frame_range.start + i
            &&& rounded_quotient(p[i].1 as int, d as int, numerator as int, denominator as int, 1, 65535)
            &&& numerator <= denominator ==> p[i].1 <= d || p[i].1 == 1
        }),
{
    let d = frames[seg.frame_range.start + i].frame.delay_centiseconds;
    law_scaled_delay_rounds(d, numerator, denominator);
}

/// Delay of frame `i` when `total` centiseconds are spread over `n` frames: the count
/// and the index are taken as `u16`, and the first `total % n` frames get one extra.
pub open spec fn spread_delay(total: u16, n: int, i: int) -> u16 {
    let n16 = n % 65536;
    let per = total as int / n16;
    let rem = total as int % n16;
    if i % 65536 < rem {
        (per + 1) as u16
    } else {
        per as u16
    }
}

/// Frames produced by one segment under a segment operation.
pub open spec fn segment_plan<H>(
    frames: Seq<AnalyzedFrame<H>>,
    seg: Segment,
    op: SegmentOp,
) -> Seq<PlannedFrame> {
    let s = seg.frame_range.start as int;
    let n = seg_len(seg);
    match op {
        SegmentOp::Keep => Seq::new(
            n as nat,
            |i: int| (s + i, frames[s + i].frame.delay_centiseconds),
        ),
        SegmentOp::Remove => Seq::empty(),
        SegmentOp::Collapse { delay_cs } => if n > 0 {
            seq![(s, delay_cs)]
        } else {
            Seq::empty()
        },
        SegmentOp::SetDuration { total_cs } => if n > 0 {
            Seq::new(n as nat, |i: int| (s + i, spread_delay(total_cs, n, i)))
        } else {
            Seq::empty()
        },
        SegmentOp::Scale { numerator, denominator } => Seq::new(
            n as nat,
            |i: int|
                (s + i, scaled_delay(frames[s + i].frame.delay_centiseconds, numerator, denominator)),
        ),
        SegmentOp::SetFrameDelay { delay_cs } => Seq::new(n as nat, |i: int| (s + i, delay_cs)),
    }
}

/// Frames produced by all segments, in segment order, under a map of segment operations.
pub open spec fn plan_segment_ops<H>(
    frames: Seq<AnalyzedFrame<H>>,
    segments: Seq<Segment>,
    ops: Map<usize, SegmentOp>,
) -> Seq<PlannedFrame>
    decreases segments.len(),
{
    if segments.len() == 0 {
        Seq::empty()
    } else {
        plan_segment_ops(frames, segments.drop_last(), ops) + segment_plan(
            frames,
            segments.last(),
            op_for(ops, segments.last().id),
        )
    }
}

/// The first `k` frames of a kept segment, without those marked `Remove`.
pub open spec fn kept_frames<H>(
    frames: Seq<AnalyzedFrame<H>>,
    seg: Segment,
    frame_ops: Map<(usize, usize), FrameOp>,
    k: int,
) -> Seq<PlannedFrame>
    decreases k,
{
    if k <= 0 {
        Seq::empty()
    } else {
        let s = seg.frame_range.start as int;
        let rest = kept_frames(frames, seg, frame_ops, k - 1);
        if frame_op_for(frame_ops, seg.id, (k - 1) as usize) is Remove {
            rest
        } else {
            rest.push((s + k - 1, frames[s + k - 1].frame.delay_centiseconds))
        }
    }
}

/// Frames produced by one segment when frame operations apply to kept segments.
pub open spec fn segment_plan_with_frames<H>(
    frames: Seq<AnalyzedFrame<H>>,
    seg: Segment,
    op: SegmentOp,
    frame_ops: Map<(usize, usize), FrameOp>,
) -> Seq<PlannedFrame> {
    if matches!(op, SegmentOp::Keep) {
        kept_frames(frames, seg, frame_ops, seg_len(seg))
    } else {
        segment_plan(frames, seg, op)
    }
}

/// Frames produced by all segments under segment operations and frame operations.
pub open spec fn plan_all_ops<H>(
    frames: Seq<AnalyzedFrame<H>>,
    segments: Seq<Segment>,
    ops: Map<usize, SegmentOp>,
    frame_ops: Map<(usize, usize), FrameOp>,
) -> Seq<PlannedFrame>
    decreases segments.len(),
{
    if segments.len() == 0 {
        Seq::empty()
    } else {
        plan_all_ops(frames, segments.drop_last(), ops, frame_ops) + segment_plan_with_frames(
            frames,
            segments.last(),
            op_for(ops, segments.last().id),
            frame_ops,
        )
    }
}

/// Sum of the delays of planned frames.
pub open spec fn plan_total(plan: Seq<PlannedFrame>) -> int
    decreases plan.len(),
{
    if plan.len() == 0 {
        0
    } else {
        plan_total(plan.drop_last()) + plan.last().1
    }
}

/// An output frame shows the planned source image with the planned delay.
pub open spec fn shows<H>(out: EncodableFrame, entry: PlannedFrame, frames: Seq<AnalyzedFrame<H>>) -> bool {
    &&& out.delay_centiseconds == entry.1
    &&& out.image@ == frames[entry.0].frame.image@
}

/// The output frames are exactly the planned frames.
pub open spec fn realizes<H>(
    out: Seq<EncodableFrame>,
    plan: Seq<PlannedFrame>,
    frames: Seq<AnalyzedFrame<H>>,
) -> bool {
    &&& out.len() == plan.len()
    &&& forall|i: int| 0 <= i < out.len() ==> shows(#[trigger] out[i], plan[i], frames)
}

/// Frame count and total duration (centiseconds) one segment contributes to a dry run
/// with frame operations: like the planned frames, except that `SetDuration` counts its
/// total directly.
pub open spec fn segment_totals_with_frames<H>(
    frames: Seq<AnalyzedFrame<H>>,
    seg: Segment,
    op: SegmentOp,
    frame_ops: Map<(usize, usize), FrameOp>,
) -> (int, int) {
    match op {
        SegmentOp::SetDuration { total_cs } => if seg_len(seg) > 0 {
            (seg_len(seg), total_cs as int)
        } else {
            (0, 0)
        },
        _ => {
            let p = segment_plan_with_frames(frames, seg, op, frame_ops);
            (p.len() as int, plan_total(p))
        },
    }
}

/// Frame count and total duration (centiseconds) of a dry run with frame operations.
pub open spec fn dry_totals_all<H>(
    frames: Seq<AnalyzedFrame<H>>,
    segments: Seq<Segment>,
    ops: Map<usize, SegmentOp>,
    frame_ops: Map<(usize, usize), FrameOp>,
) -> (int, int)
    decreases segments.len(),
{
    if segments.len() == 0 {
        (0, 0)
    } else {
        let a = dry_totals_all(frames, segments.drop_last(), ops, frame_ops);
        let b = segment_totals_with_frames(
            frames,
            segments.last(),
            op_for(ops, segments.last().id),
            frame_ops,
        );
        (a.0 + b.0, a.1 + b.1)
    }
}

/// Frame count and total duration (centiseconds) one segment contributes to a dry run of
/// segment operations: a kept segment counts its recorded total duration.
pub open spec fn segment_totals<H>(frames: Seq<AnalyzedFrame<H>>, seg: Segment, op: SegmentOp) -> (
    int,
    int,
) {
    match op {
        SegmentOp::Keep => (seg_len(seg), seg.total_duration_cs as int),
        SegmentOp::SetDuration { total_cs } => if seg_len(seg) > 0 {
            (seg_len(seg), total_cs as int)
        } else {
            (0, 0)
        },
        _ => {
            let p = segment_plan(frames, seg, op);
            (p.len() as int, plan_total(p))
        },
    }
}

/// Frame count and total duration (centiseconds) of a dry run of segment operations.
pub open spec fn dry_totals<H>(
    frames: Seq<AnalyzedFrame<H>>,
    segments: Seq<Segment>,
    ops: Map<usize, SegmentOp>,
) -> (int, int)
    decreases segments.len(),
{
    if segments.len() == 0 {
        (0, 0)
    } else {
        let a = dry_totals(frames, segments.drop_last(), ops);
        let b = segment_totals(frames, segments.last(), op_for(ops, segments.last().id));
        (a.0 + b.0, a.1 + b.1)
    }
}

/// Scale a delay by `numerator / denominator` (see [`scaled_delay`]).
pub fn scale_delay(delay: u16, numerator: u32, denominator: u32) -> (r: u16)
    ensures
        r == scaled_delay(delay, numerator, denominator),
        r >= 1,
{
    if denominator == 0 {
        if delay == 0 || numerator == 0 {
            1
        } else {
            u16::MAX
        }
    } else {
        assert(delay as int * numerator as int <= 0xffff * 0xffff_ffff) by (nonlinear_arith)
            requires
                delay <= 0xffff,
                numerator <= 0xffff_ffffu32,
        ;
        let prod: u64 = delay as u64 * numerator as u64;
        assert(prod == delay as int * numerator as int);
        assert(2 * delay * numerator == 2 * (delay as int * numerator as int)) by (nonlinear_arith);
        let q: u64 = (2 * prod + denominator as u64) / (2 * denominator as u64);
        assert(q == (2 * delay * numerator + denominator) / (2 * denominator as int));
        if q == 0 {
            1
        } else if q > u16::MAX as u64 {
            u16::MAX
        } else {
            q as u16
        }
    }
}

proof fn lemma_plan_total_nonneg(plan: Seq<PlannedFrame>)
    ensures
        plan_total(plan) >= 0,
    decreases plan.len(),
{
    if plan.len() > 0 {
        lemma_plan_total_nonneg(plan.drop_last());
    }
}

proof fn lemma_plan_total_append(a: Seq<PlannedFrame>, b: Seq<PlannedFrame>)
    ensures
        plan_total(a + b) == plan_total(a) + plan_total(b),
    decreases b.len(),
{
    if b.len() == 0 {
        assert(a + b =~= a);
    } else {
        assert((a + b).drop_last() =~= a + b.drop_last());
        lemma_plan_total_append(a, b.drop_last());
    }
}

proof fn lemma_realizes_append<H>(
    out: Seq<EncodableFrame>,
    old_out: Seq<EncodableFrame>,
    p: Seq<PlannedFrame>,
    q: Seq<PlannedFrame>,
    frames: Seq<AnalyzedFrame<H>>,
)
    requires
        realizes(old_out, p, frames),
        out.len() == old_out.len() + q.len(),
        forall|i: int| 0 <= i < old_out.len() ==> out[i] == old_out[i],
        forall|i: int| 0 <= i < q.len() ==> shows(#[trigger] out[old_out.len() + i], q[i], frames),
    ensures
        realizes(out, p + q, frames),
{
    assert forall|i: int| 0 <= i < out.len() implies shows(#[trigger] out[i], (p + q)[i], frames) by {
        if i < old_out.len() {
            assert(out[i] == old_out[i]);
        } else {
            let k = i - old_out.len();
            assert(out[old_out.len() + k] == out[i]);
        }
    }
}

/// Append the frames one segment produces under a segment operation.
fn push_segment_output<H>(
    frames: &[AnalyzedFrame<H>],
    segment: &Segment,
    op: SegmentOp,
    output: &mut Vec<EncodableFrame>,
)
    requires
        segment.frame_range.start <= segment.frame_range.end <= frames@.len(),
        op is SetDuration ==> seg_len(*segment) == 0 || seg_len(*segment) % 65536 != 0,
    ensures
        final(output)@.len() == old(output)@.len() + segment_plan(frames@, *segment, op).len(),
        forall|i: int| 0 <= i < old(output)@.len() ==> final(output)@[i] == old(output)@[i],
        forall|i: int|
            0 <= i < segment_plan(frames@, *segment, op).len() ==> shows(
                #[trigger] final(output)@[old(output)@.len() + i],
                segment_plan(frames@, *segment, op)[i],
                frames@,
            ),
{
    let start = segment.frame_range.start;
    let n = segment.frame_range.end - start;
    let ghost base = output@.len();
    let ghost plan = segment_plan(frames@, *segment, op);
    match op {
        SegmentOp::Keep => {
            let mut i: usize = 0;
            while i < n
                invariant
                    i <= n,
                    n == seg_len(*segment),
                    start == segment.frame_range.start,
                    start + n <= frames@.len(),
                    plan == segment_plan(frames@, *segment, op),
                    op is Keep,
                    output@.len() == base + i,
                    forall|k: int| 0 <= k < base ==> output@[k] == old(output)@[k],
                    forall|k: int| 0 <= k < i ==> shows(#[trigger] output@[base + k], plan[k], frames@),
                decreases n - i,
            {
                output.push(EncodableFrame::from_decoded(&frames[start + i].frame));
                i = i + 1;
            }
        },
        SegmentOp::Remove => {},
        SegmentOp::Collapse { delay_cs } => {
            if n > 0 {
                output.push(EncodableFrame::new(frames[start].frame.image.duplicate(), delay_cs));
            }
        },
        SegmentOp::SetDuration { total_cs } => {
            if n > 0 {
                let n16: u16 = (n % 65536) as u16;
                let per: u16 = total_cs / n16;
                let rem: u16 = total_cs % n16;
                let mut i: usize = 0;
                while i < n
                    invariant
                        i <= n,
                        n == seg_len(*segment),
                        n > 0,
                        n16 == n % 65536,
                        n16 != 0,
                        per == total_cs / n16,
                        rem == total_cs % n16,
                        start == segment.frame_range.start,
                        start + n <= frames@.len(),
                        plan == segment_plan(frames@, *segment, op),
                        op == (SegmentOp::SetDuration { total_cs }),
                        output@.len() == base + i,
                        forall|k: int| 0 <= k < base ==> output@[k] == old(output)@[k],
                        forall|k: int|
                            0 <= k < i ==> shows(#[trigger] output@[base + k], plan[k], frames@),
                    decreases n - i,
                {
                    let i16: u16 = (i % 65536) as u16;
                    let delay: u16 = if i16 < rem {
                        assert(n16 >= 2);
                        assert(per <= total_cs / 2) by (nonlinear_arith)
                            requires
                                n16 >= 2,
                                per == total_cs / n16,
                        ;
                        per + 1
                    } else {
                        per
                    };
                    output.push(EncodableFrame::new(frames[start + i].frame.image.duplicate(), delay));
                    i = i + 1;
                }
            }
        },
        SegmentOp::Scale { numerator, denominator } => {
            let mut i: usize = 0;
            while i < n
                invariant
                    i <= n,
                    n == seg_len(*segment),
                    start == segment.frame_range.start,
                    start + n <= frames@.len(),
                    plan == segment_plan(frames@, *segment, op),
                    op == (SegmentOp::Scale { numerator, denominator }),
                    output@.len() == base + i,
                    forall|k: int| 0 <= k < base ==> output@[k] == old(output)@[k],
                    forall|k: int| 0 <= k < i ==> shows(#[trigger] output@[base + k], plan[k], frames@),
                decreases n - i,
            {
                let f = &frames[start + i].frame;
                let delay = scale_delay(f.delay_centiseconds, numerator, denominator);
                output.push(EncodableFrame::new(f.image.duplicate(), delay));
                i = i + 1;
            }
        },
        SegmentOp::SetFrameDelay { delay_cs } => {
            let mut i: usize = 0;
            while i < n
                invariant
                    i <= n,
                    n == seg_len(*segment),
                    start == segment.frame_range.start,
                    start + n <= frames@.len(),
                    plan == segment_plan(frames@, *segment, op),
                    op == (SegmentOp::SetFrameDelay { delay_cs }),
                    output@.len() == base + i,
                    forall|k: int| 0 <= k < base ==> output@[k] == old(output)@[k],
                    forall|k: int| 0 <= k < i ==> shows(#[trigger] output@[base + k], plan[k], frames@),
                decreases n - i,
            {
                output.push(EncodableFrame::new(frames[start + i].frame.image.duplicate(), delay_cs));
                i = i + 1;
            }
        },
    }
}

/// Apply segment operations to analyzed frames, producing encodable frames.
///
/// Each segment, in order, contributes the frames its operation (default `Keep`) yields:
/// `Keep` copies its frames, `Remove` drops them, `Collapse` keeps only its first frame
/// with the given delay, `SetDuration` spreads the total evenly (earlier frames take the
/// remainder), `Scale` multiplies each delay (rounded, at least 1), `SetFrameDelay` sets
/// every delay.
pub fn apply_segment_operations<H>(
    frames: &[AnalyzedFrame<H>],
    segments: &[Segment],
    ops: &SegmentOps,
) -> (out: Vec<EncodableFrame>)
    requires
        segments_fit(frames@.len() as int, segments@),
        set_duration_divisible(segments@, ops@),
    ensures
        realizes(out@, plan_segment_ops(frames@, segments@, ops@), frames@),
{
    let mut output: Vec<EncodableFrame> = Vec::new();
    let mut j: usize = 0;
    while j < segments.len()
        invariant
            j <= segments@.len(),
            segments_fit(frames@.len() as int, segments@),
            set_duration_divisible(segments@, ops@),
            realizes(output@, plan_segment_ops(frames@, segments@.take(j as int), ops@), frames@),
        decreases segments@.len() - j,
    {
        let segment = &segments[j];
        let op = segment_op_of(ops, segment.id);
        let ghost old_out = output@;
        assert(segments@[j as int] == *segment);
        push_segment_output(frames, segment, op, &mut output);
        proof {
            assert(segments@.take(j + 1).drop_last() =~= segments@.take(j as int));
            lemma_realizes_append(
                output@,
                old_out,
                plan_segment_ops(frames@, segments@.take(j as int), ops@),
                segment_plan(frames@, *segment, op),
                frames@,
            );
        }
        j = j + 1;
    }
    assert(segments@.take(segments@.len() as int) =~= segments@);
    output
}


proof fn lemma_plan_total_prefix(p: Seq<PlannedFrame>, k: int)
    requires
        0 <= k <= p.len(),
    ensures
        0 <= plan_total(p.take(k)) <= plan_total(p),
{
    assert(p =~= p.take(k) + p.skip(k));
    lemma_plan_total_append(p.take(k), p.skip(k));
    lemma_plan_total_nonneg(p.take(k));
    lemma_plan_total_nonneg(p.skip(k));
}

proof fn lemma_kept_monotone<H>(
    frames: Seq<AnalyzedFrame<H>>,
    seg: Segment,
    frame_ops: Map<(usize, usize), FrameOp>,
    k: int,
    n: int,
)
    requires
        0 <= k <= n,
    ensures
        kept_frames(frames, seg, frame_ops, k).len() <= kept_frames(frames, seg, frame_ops, n).len(),
        0 <= plan_total(kept_frames(frames, seg, frame_ops, k)) <= plan_total(
            kept_frames(frames, seg, frame_ops, n),
        ),
    decreases n,
{
    lemma_plan_total_nonneg(kept_frames(frames, seg, frame_ops, k));
    if k < n {
        lemma_kept_monotone(frames, seg, frame_ops, k, n - 1);
        let prev = kept_frames(frames, seg, frame_ops, n - 1);
        if !(frame_op_for(frame_ops, seg.id, (n - 1) as usize) is Remove) {
            let s = seg.frame_range.start as int;
            assert(prev.push((s + n - 1, frames[s + n - 1].frame.delay_centiseconds)).drop_last()
                =~= prev);
        }
    }
}

proof fn lemma_segment_totals_nonneg<H>(
    frames: Seq<AnalyzedFrame<H>>,
    seg: Segment,
    op: SegmentOp,
    frame_ops: Map<(usize, usize), FrameOp>,
)
    ensures
        segment_totals_with_frames(frames, seg, op, frame_ops).0 >= 0,
        segment_totals_with_frames(frames, seg, op, frame_ops).1 >= 0,
        segment_totals(frames, seg, op).0 >= 0,
        segment_totals(frames, seg, op).1 >= 0,
{
    lemma_plan_total_nonneg(segment_plan_with_frames(frames, seg, op, frame_ops));
    lemma_plan_total_nonneg(segment_plan(frames, seg, op));
}

proof fn lemma_dry_all_prefix<H>(
    frames: Seq<AnalyzedFrame<H>>,
    segments: Seq<Segment>,
    ops: Map<usize, SegmentOp>,
    frame_ops: Map<(usize, usize), FrameOp>,
    j: int,
)
    requires
        0 <= j <= segments.len(),
    ensures
        0 <= dry_totals_all(frames, segments.take(j), ops, frame_ops).0 <= dry_totals_all(
            frames,
            segments,
            ops,
            frame_ops,
        ).0,
        0 <= dry_totals_all(frames, segments.take(j), ops, frame_ops).1 <= dry_totals_all(
            frames,
            segments,
            ops,
            frame_ops,
        ).1,
    decreases segments.len(),
{
    if segments.len() == 0 {
        assert(segments.take(j) =~= segments);
    } else if j == segments.len() {
        assert(segments.take(j) =~= segments);
        lemma_dry_all_prefix(frames, segments.drop_last(), ops, frame_ops, j - 1);
        assert(segments.drop_last().take(j - 1) =~= segments.drop_last());
        lemma_segment_totals_nonneg(
            frames,
            segments.last(),
            op_for(ops, segments.last().id),
            frame_ops,
        );
    } else {
        lemma_dry_all_prefix(frames, segments.drop_last(), ops, frame_ops, j);
        assert(segments.drop_last().take(j) =~= segments.take(j));
        lemma_segment_totals_nonneg(
            frames,
            segments.last(),
            op_for(ops, segments.last().id),
            frame_ops,
        );
    }
}

proof fn lemma_dry_prefix<H>(
    frames: Seq<AnalyzedFrame<H>>,
    segments: Seq<Segment>,
    ops: Map<usize, SegmentOp>,
    j: int,
)
    requires
        0 <= j <= segments.len(),
    ensures
        0 <= dry_totals(frames, segments.take(j), ops).0 <= dry_totals(frames, segments, ops).0,
        0 <= dry_totals(frames, segments.take(j), ops).1 <= dry_totals(frames, segments, ops).1,
    decreases segments.len(),
{
    let fo = Map::<(usize, usize), FrameOp>::empty();
    if segments.len() == 0 {
        assert(segments.take(j) =~= segments);
    } else if j == segments.len() {
        assert(segments.take(j) =~= segments);
        lemma_dry_prefix(frames, segments.drop_last(), ops, j - 1);
        assert(segments.drop_last().take(j - 1) =~= segments.drop_last());
        lemma_segment_totals_nonneg(frames, segments.last(), op_for(ops, segments.last().id), fo);
    } else {
        lemma_dry_prefix(frames, segments.drop_last(), ops, j);
        assert(segments.drop_last().take(j) =~= segments.take(j));
        lemma_segment_totals_nonneg(frames, segments.last(), op_for(ops, segments.last().id), fo);
    }
}

/// Append the frames one segment produces when frame operations apply to kept segments.
fn push_segment_output_with_frames<H>(
    frames: &[AnalyzedFrame<H>],
    segment: &Segment,
    op: SegmentOp,
    frame_ops: &FrameOps,
    output: &mut Vec<EncodableFrame>,
)
    requires
        segment.frame_range.start <= segment.frame_range.end <= frames@.len(),
        op is SetDuration ==> seg_len(*segment) == 0 || seg_len(*segment) % 65536 != 0,
    ensures
        final(output)@.len() == old(output)@.len() + segment_plan_with_frames(
            frames@,
            *segment,
            op,
            frame_ops@,
        ).len(),
        forall|i: int| 0 <= i < old(output)@.len() ==> final(output)@[i] == old(output)@[i],
        forall|i: int|
            0 <= i < segment_plan_with_frames(frames@, *segment, op, frame_ops@).len() ==> shows(
                #[trigger] final(output)@[old(output)@.len() + i],
                segment_plan_with_frames(frames@, *segment, op, frame_ops@)[i],
                frames@,
            ),
{
    if matches!(op, SegmentOp::Keep) {
        let start = segment.frame_range.start;
        let n = segment.frame_range.end - start;
        let ghost base = output@.len();
        let mut i: usize = 0;
        while i < n
            invariant
                i <= n,
                n == seg_len(*segment),
                start == segment.frame_range.start,
                start + n <= frames@.len(),
                output@.len() == base + kept_frames(frames@, *segment, frame_ops@, i as int).len(),
                forall|k: int| 0 <= k < base ==> output@[k] == old(output)@[k],
                forall|k: int|
                    0 <= k < kept_frames(frames@, *segment, frame_ops@, i as int).len() ==> shows(
                        #[trigger] output@[base + k],
                        kept_frames(frames@, *segment, frame_ops@, i as int)[k],
                        frames@,
                    ),
            decreases n - i,
        {
            let fop = frame_op_of(frame_ops, segment.id, i);
            let ghost prev = kept_frames(frames@, *segment, frame_ops@, i as int);
            match fop {
                FrameOp::Remove => {},
                _ => {
                    output.push(EncodableFrame::from_decoded(&frames[start + i].frame));
                    assert forall|k: int|
                        0 <= k < kept_frames(frames@, *segment, frame_ops@, i + 1).len() implies shows(
                        #[trigger] output@[base + k],
                        kept_frames(frames@, *segment, frame_ops@, i + 1)[k],
                        frames@,
                    ) by {
                        if k < prev.len() {
                        }
                    }
                },
            }
            i = i + 1;
        }
    } else {
        push_segment_output(frames, segment, op, output);
    }
}

/// Apply both segment and frame operations, producing encodable frames.
///
/// Segments whose operation is not `Keep` behave as in [`apply_segment_operations`] (frame
/// operations do not apply to them); in kept segments, frames marked `Remove` are dropped
/// and the others (`Keep`, `SplitAfter`) are copied.
pub fn apply_operations<H>(
    frames: &[AnalyzedFrame<H>],
    segments: &[Segment],
    segment_ops: &SegmentOps,
    frame_ops: &FrameOps,
) -> (out: Vec<EncodableFrame>)
    requires
        segments_fit(frames@.len() as int, segments@),
        set_duration_divisible(segments@, segment_ops@),
    ensures
        realizes(out@, plan_all_ops(frames@, segments@, segment_ops@, frame_ops@), frames@),
{
    let mut output: Vec<EncodableFrame> = Vec::new();
    let mut j: usize = 0;
    while j < segments.len()
        invariant
            j <= segments@.len(),
            segments_fit(frames@.len() as int, segments@),
            set_duration_divisible(segments@, segment_ops@),
            realizes(
                output@,
                plan_all_ops(frames@, segments@.take(j as int), segment_ops@, frame_ops@),
                frames@,
            ),
        decreases segments@.len() - j,
    {
        let segment = &segments[j];
        let op = segment_op_of(segment_ops, segment.id);
        let ghost old_out = output@;
        assert(segments@[j as int] == *segment);
        push_segment_output_with_frames(frames, segment, op, frame_ops, &mut output);
        proof {
            assert(segments@.take(j + 1).drop_last() =~= segments@.take(j as int));
            lemma_realizes_append(
                output@,
                old_out,
                plan_all_ops(frames@, segments@.take(j as int), segment_ops@, frame_ops@),
                segment_plan_with_frames(frames@, *segment, op, frame_ops@),
                frames@,
            );
        }
        j = j + 1;
    }
    assert(segments@.take(segments@.len() as int) =~= segments@);
    output
}

/// Frame count and total duration one segment contributes to a dry run with frame operations.
fn segment_dry_totals_with_frames<H>(
    frames: &[AnalyzedFrame<H>],
    segment: &Segment,
    op: SegmentOp,
    frame_ops: &FrameOps,
) -> (r: (usize, u64))
    requires
        segment.frame_range.start <= segment.frame_range.end <= frames@.len(),
        segment_totals_with_frames(frames@, *segment, op, frame_ops@).0 <= usize::MAX,
        segment_totals_with_frames(frames@, *segment, op, frame_ops@).1 <= u64::MAX,
    ensures
        r.0 == segment_totals_with_frames(frames@, *segment, op, frame_ops@).0,
        r.1 == segment_totals_with_frames(frames@, *segment, op, frame_ops@).1,
{
    let start = segment.frame_range.start;
    let n = segment.frame_range.end - start;
    let ghost whole = segment_totals_with_frames(frames@, *segment, op, frame_ops@);
    match op {
        SegmentOp::Remove => {
            assert(segment_plan(frames@, *segment, op) =~= Seq::<PlannedFrame>::empty());
            assert(segment_plan_with_frames(frames@, *segment, op, frame_ops@).len() == 0);
            assert(plan_total(segment_plan_with_frames(frames@, *segment, op, frame_ops@)) == 0);
            (0, 0)
        },
        SegmentOp::Collapse { delay_cs } => {
            let ghost p = segment_plan_with_frames(frames@, *segment, op, frame_ops@);
            if n > 0 {
                assert(p.drop_last() =~= Seq::<PlannedFrame>::empty());
                assert(plan_total(p.drop_last()) == 0);
                (1, delay_cs as u64)
            } else {
                assert(plan_total(p) == 0);
                (0, 0)
            }
        },
        SegmentOp::SetDuration { total_cs } => {
            if n > 0 {
                (n, total_cs as u64)
            } else {
                (0, 0)
            }
        },
        SegmentOp::Keep => {
            let mut count: usize = 0;
            let mut total: u64 = 0;
            let mut i: usize = 0;
            while i < n
                invariant
                    i <= n,
                    n == seg_len(*segment),
                    start == segment.frame_range.start,
                    start + n <= frames@.len(),
                    op is Keep,
                    whole == segment_totals_with_frames(frames@, *segment, op, frame_ops@),
                    whole.0 <= usize::MAX,
                    whole.1 <= u64::MAX,
                    count == kept_frames(frames@, *segment, frame_ops@, i as int).len(),
                    total == plan_total(kept_frames(frames@, *segment, frame_ops@, i as int)),
                decreases n - i,
            {
                let fop = frame_op_of(frame_ops, segment.id, i);
                proof {
                    lemma_kept_monotone(frames@, *segment, frame_ops@, i + 1, n as int);
                    let prev = kept_frames(frames@, *segment, frame_ops@, i as int);
                    if !(fop is Remove) {
                        let e = (start + i, frames@[start + i].frame.delay_centiseconds);
                        assert(prev.push(e).drop_last() =~= prev);
                    }
                }
                match fop {
                    FrameOp::Remove => {},
                    _ => {
                        count = count + 1;
                        total = total + frames[start + i].frame.delay_centiseconds as u64;
                    },
                }
                i = i + 1;
            }
            (count, total)
        },
        SegmentOp::Scale { numerator, denominator } => {
            let ghost plan = segment_plan(frames@, *segment, op);
            let mut total: u64 = 0;
            let mut i: usize = 0;
            while i < n
                invariant
                    i <= n,
                    n == seg_len(*segment),
                    start == segment.frame_range.start,
                    start + n <= frames@.len(),
                    op == (SegmentOp::Scale { numerator, denominator }),
                    plan == segment_plan(frames@, *segment, op),
                    whole == segment_totals_with_frames(frames@, *segment, op, frame_ops@),
                    whole.1 == plan_total(plan),
                    whole.1 <= u64::MAX,
                    total == plan_total(plan.take(i as int)),
                decreases n - i,
            {
                let d = scale_delay(frames[start + i].frame.delay_centiseconds, numerator, denominator);
                proof {
                    lemma_plan_total_prefix(plan, i + 1);
                    assert(plan.take(i + 1).drop_last() =~= plan.take(i as int));
                }
                total = total + d as u64;
                i = i + 1;
            }
            assert(plan.take(n as int) =~= plan);
            (n, total)
        },
        SegmentOp::SetFrameDelay { delay_cs } => {
            let ghost plan = segment_plan(frames@, *segment, op);
            let mut total: u64 = 0;
            let mut i: usize = 0;
            while i < n
                invariant
                    i <= n,
                    n == seg_len(*segment),
                    op == (SegmentOp::SetFrameDelay { delay_cs }),
                    plan == segment_plan(frames@, *segment, op),
                    whole == segment_totals_with_frames(frames@, *segment, op, frame_ops@),
                    whole.1 == plan_total(plan),
                    whole.1 <= u64::MAX,
                    total == plan_total(plan.take(i as int)),
                decreases n - i,
            {
                proof {
                    lemma_plan_total_prefix(plan, i + 1);
                    assert(plan.take(i + 1).drop_last() =~= plan.take(i as int));
                }
                total = total + delay_cs as u64;
                i = i + 1;
            }
            assert(plan.take(n as int) =~= plan);
            (n, total)
        },
    }
}

/// Calculate the impact of all operations without cloning images.
///
/// Returns (total_frames, total_duration_cs): the frames that [`apply_operations`] would
/// produce, counted, with their delays summed; a `SetDuration` segment counts its total.
pub fn dry_run_all_operations<H>(
    frames: &[AnalyzedFrame<H>],
    segments: &[Segment],
    segment_ops: &SegmentOps,
    frame_ops: &FrameOps,
) -> (r: (usize, u64))
    requires
        segments_fit(frames@.len() as int, segments@),
        dry_totals_all(frames@, segments@, segment_ops@, frame_ops@).0 <= usize::MAX,
        dry_totals_all(frames@, segments@, segment_ops@, frame_ops@).1 <= u64::MAX,
    ensures
        r.0 == dry_totals_all(frames@, segments@, segment_ops@, frame_ops@).0,
        r.1 == dry_totals_all(frames@, segments@, segment_ops@, frame_ops@).1,
{
    let ghost whole = dry_totals_all(frames@, segments@, segment_ops@, frame_ops@);
    let mut total_frames: usize = 0;
    let mut total_duration_cs: u64 = 0;
    let mut j: usize = 0;
    while j < segments.len()
        invariant
            j <= segments@.len(),
            segments_fit(frames@.len() as int, segments@),
            whole == dry_totals_all(frames@, segments@, segment_ops@, frame_ops@),
            whole.0 <= usize::MAX,
            whole.1 <= u64::MAX,
            total_frames == dry_totals_all(frames@, segments@.take(j as int), segment_ops@, frame_ops@).0,
            total_duration_cs == dry_totals_all(
                frames@,
                segments@.take(j as int),
                segment_ops@,
                frame_ops@,
            ).1,
        decreases segments@.len() - j,
    {
        let segment = &segments[j];
        let op = segment_op_of(segment_ops, segment.id);
        assert(segments@[j as int] == *segment);
        proof {
            assert(segments@.take(j + 1).drop_last() =~= segments@.take(j as int));
            lemma_dry_all_prefix(frames@, segments@, segment_ops@, frame_ops@, j + 1);
            lemma_segment_totals_nonneg(frames@, *segment, op, frame_ops@);
        }
        let (c, t) = segment_dry_totals_with_frames(frames, segment, op, frame_ops);
        total_frames = total_frames + c;
        total_duration_cs = total_duration_cs + t;
        j = j + 1;
    }
    assert(segments@.take(segments@.len() as int) =~= segments@);
    (total_frames, total_duration_cs)
}

/// Calculate the impact of segment operations without cloning images.
///
/// Returns (total_frames, total_duration_cs); a kept segment counts its recorded total
/// duration, a `SetDuration` segment its new total.
pub fn dry_run_segment_operations<H>(
    frames: &[AnalyzedFrame<H>],
    segments: &[Segment],
    ops: &SegmentOps,
) -> (r: (usize, u64))
    requires
        segments_fit(frames@.len() as int, segments@),
        dry_totals(frames@, segments@, ops@).0 <= usize::MAX,
        dry_totals(frames@, segments@, ops@).1 <= u64::MAX,
    ensures
        r.0 == dry_totals(frames@, segments@, ops@).0,
        r.1 == dry_totals(frames@, segments@, ops@).1,
{
    let ghost whole = dry_totals(frames@, segments@, ops@);
    let ghost no_frame_ops = Map::<(usize, usize), FrameOp>::empty();
    let empty_frame_ops = FrameOps::new();
    let mut total_frames: usize = 0;
    let mut total_duration_cs: u64 = 0;
    let mut j: usize = 0;
    while j < segments.len()
        invariant
            j <= segments@.len(),
            segments_fit(frames@.len() as int, segments@),
            empty_frame_ops@ == no_frame_ops,
            whole == dry_totals(frames@, segments@, ops@),
            whole.0 <= usize::MAX,
            whole.1 <= u64::MAX,
            total_frames == dry_totals(frames@, segments@.take(j as int), ops@).0,
            total_duration_cs == dry_totals(frames@, segments@.take(j as int), ops@).1,
        decreases segments@.len() - j,
    {
        let segment = &segments[j];
        let op = segment_op_of(ops, segment.id);
        assert(segments@[j as int] == *segment);
        proof {
            assert(segments@.take(j + 1).drop_last() =~= segments@.take(j as int));
            lemma_dry_prefix(frames@, segments@, ops@, j + 1);
            lemma_segment_totals_nonneg(frames@, *segment, op, no_frame_ops);
        }
        let (c, t) = match op {
            SegmentOp::Keep => (segment.frame_range.end - segment.frame_range.start,
                segment.total_duration_cs as u64),
            _ => segment_dry_totals_with_frames(frames, segment, op, &empty_frame_ops),
        };
        total_frames = total_frames + c;
        total_duration_cs = total_duration_cs + t;
        j = j + 1;
    }
    assert(segments@.take(segments@.len() as int) =~= segments@);
    (total_frames, total_duration_cs)
}


/// Sum of the delays of frames `a..b`.
pub open spec fn delay_sum<H>(frames: Seq<AnalyzedFrame<H>>, a: int, b: int) -> int
    decreases b - a,
{
    if b <= a {
        0
    } else {
        delay_sum(frames, a, b - 1) + frames[b - 1].frame.delay_centiseconds
    }
}

/// Sum of the delays of frames `a..b`, accumulated in a `u16` that wraps around.
pub open spec fn delay_sum_u16<H>(frames: Seq<AnalyzedFrame<H>>, a: int, b: int) -> u16 {
    (delay_sum(frames, a, b) % 65536) as u16
}

/// Frame `i` of a segment closes a piece: it is marked `SplitAfter` or is the last frame.
pub open spec fn ends_piece(seg: Segment, frame_ops: Map<(usize, usize), FrameOp>, i: int) -> bool {
    frame_op_for(frame_ops, seg.id, i as usize) is SplitAfter || i == seg_len(seg) - 1
}

/// The pieces `(start, end)` a segment splits into from its frame `i` on, the current
/// piece having begun at frame `from`.
pub open spec fn pieces_from(
    seg: Segment,
    frame_ops: Map<(usize, usize), FrameOp>,
    from: int,
    i: int,
) -> Seq<(int, int)>
    decreases seg_len(seg) - i,
{
    if i >= seg_len(seg) || i < 0 {
        Seq::empty()
    } else {
        let s = seg.frame_range.start as int;
        if ends_piece(seg, frame_ops, i) {
            seq![(from, s + i + 1)] + pieces_from(seg, frame_ops, s + i + 1, i + 1)
        } else {
            pieces_from(seg, frame_ops, from, i + 1)
        }
    }
}

/// The pieces `(start, end)` a segment splits into.
pub open spec fn segment_pieces(seg: Segment, frame_ops: Map<(usize, usize), FrameOp>) -> Seq<
    (int, int),
> {
    pieces_from(seg, frame_ops, seg.frame_range.start as int, 0)
}

/// The pieces of all segments, in order, each with the segment it comes from.
pub open spec fn split_pieces(segments: Seq<Segment>, frame_ops: Map<(usize, usize), FrameOp>) -> Seq<
    (int, int, Segment),
>
    decreases segments.len(),
{
    if segments.len() == 0 {
        Seq::empty()
    } else {
        let last = segments.last();
        split_pieces(segments.drop_last(), frame_ops) + segment_pieces(last, frame_ops).map_values(
            |p: (int, int)| (p.0, p.1, last),
        )
    }
}

/// The segment built for a piece: numbered `id`, its duration recomputed from its frames,
/// distance statistics and static status inherited from the segment it comes from.
pub open spec fn piece_segment<H>(frames: Seq<AnalyzedFrame<H>>, piece: (int, int, Segment), id: int) -> Segment {
    Segment {
        id: id as usize,
        frame_range: Range { start: piece.0 as usize, end: piece.1 as usize },
        total_duration_cs: delay_sum_u16(frames, piece.0, piece.1),
        distance_total: piece.2.distance_total,
        distance_count: piece.2.distance_count,
        is_static: piece.2.is_static,
    }
}

/// Index of the last piece that holds frame `f`.
pub open spec fn owning_piece(pieces: Seq<(int, int, Segment)>, f: int) -> Option<int>
    decreases pieces.len(),
{
    if pieces.len() == 0 {
        None
    } else if pieces.last().0 <= f < pieces.last().1 {
        Some(pieces.len() - 1)
    } else {
        owning_piece(pieces.drop_last(), f)
    }
}

/// The segment assignment a frame has after splitting.
pub open spec fn split_segment_id(pieces: Seq<(int, int, Segment)>, f: int, old_id: Option<usize>) -> Option<usize> {
    match owning_piece(pieces, f) {
        Some(k) => Some(k as usize),
        None => old_id,
    }
}

proof fn lemma_delay_sum_step<H>(frames: Seq<AnalyzedFrame<H>>, a: int, b: int, t: u16)
    requires
        a <= b,
        t == delay_sum(frames, a, b) % 65536,
    ensures
        ((t as int + frames[b].frame.delay_centiseconds as int) % 65536) == delay_sum(frames, a, b + 1)
            % 65536,
{
    let d = frames[b].frame.delay_centiseconds as int;
    assert(delay_sum(frames, a, b + 1) == delay_sum(frames, a, b) + d);
    vstd::arithmetic::div_mod::lemma_add_mod_noop(delay_sum(frames, a, b), d, 65536);
    vstd::arithmetic::div_mod::lemma_mod_twice(d, 65536);
    assert(d % 65536 == d);
}

proof fn lemma_delay_sum_nonneg<H>(frames: Seq<AnalyzedFrame<H>>, a: int, b: int)
    ensures
        delay_sum(frames, a, b) >= 0,
    decreases b - a,
{
    if b > a {
        lemma_delay_sum_nonneg(frames, a, b - 1);
    }
}

/// Wrapping sum of the delays of frames `a..b`.
pub(crate) fn sum_delays_u16<H>(frames: &[AnalyzedFrame<H>], a: usize, b: usize) -> (r: u16)
    requires
        a <= b <= frames@.len(),
    ensures
        r == delay_sum_u16(frames@, a as int, b as int),
{
    let mut total: u16 = 0;
    let mut k: usize = a;
    proof {
        assert(delay_sum(frames@, a as int, a as int) == 0);
    }
    while k < b
        invariant
            a <= k <= b,
            b <= frames@.len(),
            total == delay_sum(frames@, a as int, k as int) % 65536,
        decreases b - k,
    {
        proof {
            lemma_delay_sum_step(frames@, a as int, k as int, total);
        }
        total = ((total as u32 + frames[k].frame.delay_centiseconds as u32) % 65536) as u16;
        k = k + 1;
    }
    proof {
        lemma_delay_sum_nonneg(frames@, a as int, b as int);
    }
    total
}

/// Partition existing segments into new ones based on `FrameOp::SplitAfter` markers.
///
/// Every segment is cut after each frame marked `SplitAfter` (and at its end); the pieces
/// become consecutively numbered segments that recompute their duration and inherit the
/// rest from their parent; the frames of each piece are assigned to it.
///
/// Returns (new_analyzed_frames, new_segments).
pub fn split_segments_at_points<H: Clone>(
    frames: &[AnalyzedFrame<H>],
    segments: &[Segment],
    frame_ops: &FrameOps,
) -> (r: (Vec<AnalyzedFrame<H>>, Vec<Segment>))
    requires
        segments_fit(frames@.len() as int, segments@),
    ensures
        r.1@.len() == split_pieces(segments@, frame_ops@).len(),
        forall|k: int|
            0 <= k < r.1@.len() ==> #[trigger] r.1@[k] == piece_segment(
                frames@,
                split_pieces(segments@, frame_ops@)[k],
                k,
            ),
        r.0@.len() == frames@.len(),
        forall|f: int|
            0 <= f < frames@.len() ==> {
                &&& (#[trigger] r.0@[f]).frame.same_as(frames@[f].frame)
                &&& cloned(frames@[f].hash, r.0@[f].hash)
                &&& r.0@[f].distance_to_prev == frames@[f].distance_to_prev
                &&& r.0@[f].segment_id == split_segment_id(
                    split_pieces(segments@, frame_ops@),
                    f,
                    frames@[f].segment_id,
                )
            },
{
    let mut ids: Vec<Option<usize>> = Vec::new();
    let mut f: usize = 0;
    while f < frames.len()
        invariant
            f <= frames@.len(),
            ids@.len() == f,
            forall|g: int| 0 <= g < f ==> ids@[g] == frames@[g].segment_id,
        decreases frames@.len() - f,
    {
        ids.push(frames[f].segment_id);
        f = f + 1;
    }
    let ghost mut pieces: Seq<(int, int, Segment)> = Seq::empty();
    let mut new_segments: Vec<Segment> = Vec::new();
    let mut j: usize = 0;
    while j < segments.len()
        invariant
            j <= segments@.len(),
            segments_fit(frames@.len() as int, segments@),
            pieces == split_pieces(segments@.take(j as int), frame_ops@),
            new_segments@.len() == pieces.len(),
            forall|k: int|
                0 <= k < new_segments@.len() ==> #[trigger] new_segments@[k] == piece_segment(
                    frames@,
                    pieces[k],
                    k,
                ),
            ids@.len() == frames@.len(),
            forall|g: int|
                0 <= g < frames@.len() ==> #[trigger] ids@[g] == split_segment_id(
                    pieces,
                    g,
                    frames@[g].segment_id,
                ),
        decreases segments@.len() - j,
    {
        let segment = &segments[j];
        assert(segments@[j as int] == *segment);
        let start = segment.frame_range.start;
        let n = segment.frame_count();
        let mut sub_start: usize = start;
        let ghost base = pieces;
        let ghost mut acc: Seq<(int, int)> = Seq::empty();
        let mut i: usize = 0;
        while i < n
            invariant
                i <= n,
                n == seg_len(*segment),
                start == segment.frame_range.start,
                start + n <= frames@.len(),
                start <= sub_start <= start + i,
                acc + pieces_from(*segment, frame_ops@, sub_start as int, i as int) == segment_pieces(
                    *segment,
                    frame_ops@,
                ),
                pieces == base + acc.map_values(|p: (int, int)| (p.0, p.1, *segment)),
                new_segments@.len() == pieces.len(),
                forall|k: int|
                    0 <= k < new_segments@.len() ==> #[trigger] new_segments@[k] == piece_segment(
                        frames@,
                        pieces[k],
                        k,
                    ),
                ids@.len() == frames@.len(),
                forall|g: int|
                    0 <= g < frames@.len() ==> #[trigger] ids@[g] == split_segment_id(
                        pieces,
                        g,
                        frames@[g].segment_id,
                    ),
            decreases n - i,
        {
            let abs_idx = start + i;
            let op = frame_op_of(frame_ops, segment.id, i);
            let is_last_frame = i == n - 1;
            if matches!(op, FrameOp::SplitAfter) || is_last_frame {
                let sub_end = abs_idx + 1;
                if sub_start < sub_end {
                    let total = sum_delays_u16(frames, sub_start, sub_end);
                    let id = new_segments.len();
                    let new_seg = Segment {
                        id,
                        frame_range: Range { start: sub_start, end: sub_end },
                        total_duration_cs: total,
                        distance_total: segment.distance_total,
                        distance_count: segment.distance_count,
                        is_static: segment.is_static,
                    };
                    let ghost piece = (sub_start as int, sub_end as int, *segment);
                    assert(new_seg == piece_segment(frames@, piece, id as int));
                    new_segments.push(new_seg);
                    let ghost old_ids = ids@;
                    let ghost old_pieces = pieces;
                    let mut k: usize = sub_start;
                    while k < sub_end
                        invariant
                            sub_start <= k <= sub_end,
                            sub_end <= frames@.len(),
                            old_ids.len() == frames@.len(),
                            ids@.len() == old_ids.len(),
                            forall|g: int|
                                0 <= g < ids@.len() ==> #[trigger] ids@[g] == if sub_start <= g < k {
                                    Some(id)
                                } else {
                                    old_ids[g]
                                },
                        decreases sub_end - k,
                    {
                        ids.set(k, Some(id));
                        k = k + 1;
                    }
                    proof {
                        pieces = pieces.push(piece);
                        assert(pieces.drop_last() =~= old_pieces);
                        assert forall|g: int| 0 <= g < frames@.len() implies #[trigger] ids@[g]
                            == split_segment_id(pieces, g, frames@[g].segment_id) by {
                            assert(old_ids[g] == split_segment_id(old_pieces, g, frames@[g].segment_id));
                        }
                        let next = pieces_from(*segment, frame_ops@, sub_end as int, i + 1);
                        assert(pieces_from(*segment, frame_ops@, sub_start as int, i as int) =~= seq![
                            (sub_start as int, sub_end as int),
                        ] + next);
                        assert(acc.push((sub_start as int, sub_end as int)) + next =~= acc + seq![
                            (sub_start as int, sub_end as int),
                        ] + next);
                        acc = acc.push((sub_start as int, sub_end as int));
                        assert(pieces =~= base + acc.map_values(|p: (int, int)| (p.0, p.1, *segment)));
                    }
                    sub_start = sub_end;
                }
            }
            i = i + 1;
        }
        proof {
            assert(acc + pieces_from(*segment, frame_ops@, sub_start as int, n as int) =~= acc);
            assert(segments@.take(j + 1).drop_last() =~= segments@.take(j as int));
            assert(segments@.take(j + 1).last() == *segment);
        }
        j = j + 1;
    }
    assert(segments@.take(segments@.len() as int) =~= segments@);
    let mut new_frames: Vec<AnalyzedFrame<H>> = Vec::new();
    let mut g: usize = 0;
    while g < frames.len()
        invariant
            g <= frames@.len(),
            ids@.len() == frames@.len(),
            new_frames@.len() == g,
            forall|h: int|
                0 <= h < frames@.len() ==> #[trigger] ids@[h] == split_segment_id(
                    pieces,
                    h,
                    frames@[h].segment_id,
                ),
            pieces == split_pieces(segments@, frame_ops@),
            forall|h: int|
                0 <= h < g ==> {
                    &&& (#[trigger] new_frames@[h]).frame.same_as(frames@[h].frame)
                    &&& cloned(frames@[h].hash, new_frames@[h].hash)
                    &&& new_frames@[h].distance_to_prev == frames@[h].distance_to_prev
                    &&& new_frames@[h].segment_id == split_segment_id(pieces, h, frames@[h].segment_id)
                },
        decreases frames@.len() - g,
    {
        new_frames.push(frames[g].duplicate_with_segment(ids[g]));
        g = g + 1;
    }
    (new_frames, new_segments)
}


/// Number of static segments.
pub open spec fn count_static(segments: Seq<Segment>) -> int
    decreases segments.len(),
{
    if segments.len() == 0 {
        0
    } else {
        count_static(segments.drop_last()) + if segments.last().is_static {
            1int
        } else {
            0int
        }
    }
}

/// Total number of frames over the segments.
pub open spec fn sum_frame_counts(segments: Seq<Segment>) -> int
    decreases segments.len(),
{
    if segments.len() == 0 {
        0
    } else {
        sum_frame_counts(segments.drop_last()) + segments.last().spec_frame_count()
    }
}

/// Total duration (centiseconds) over the segments.
pub open spec fn sum_durations(segments: Seq<Segment>) -> int
    decreases segments.len(),
{
    if segments.len() == 0 {
        0
    } else {
        sum_durations(segments.drop_last()) + segments.last().total_duration_cs
    }
}

proof fn lemma_segment_sums_prefix(segments: Seq<Segment>, j: int)
    requires
        0 <= j <= segments.len(),
    ensures
        0 <= count_static(segments.take(j)) <= count_static(segments),
        count_static(segments) <= segments.len(),
        0 <= sum_frame_counts(segments.take(j)) <= sum_frame_counts(segments),
        0 <= sum_durations(segments.take(j)) <= sum_durations(segments),
    decreases segments.len(),
{
    if segments.len() == 0 {
        assert(segments.take(j) =~= segments);
    } else if j == segments.len() {
        assert(segments.take(j) =~= segments);
        lemma_segment_sums_prefix(segments.drop_last(), j - 1);
    } else {
        lemma_segment_sums_prefix(segments.drop_last(), j);
        assert(segments.drop_last().take(j) =~= segments.take(j));
    }
}

/// Statistics over a set of segments.
///
/// The averages (frames per segment, duration per segment) are the fractions of the
/// totals over `total_segments`, see [`SegmentStats::avg_frames_per_segment`].
#[derive(Debug, Clone, Default)]
pub struct SegmentStats {
    /// Total number of segments.
    pub total_segments: usize,
    /// Number of static segments (all identical frames).
    pub static_segments: usize,
    /// Total number of frames.
    pub total_frames: usize,
    /// Total duration in centiseconds.
    pub total_duration_cs: u64,
}

impl SegmentStats {
    /// Compute statistics from a list of segments.
    pub fn from_segments(segments: &[Segment]) -> (r: SegmentStats)
        requires
            sum_frame_counts(segments@) <= usize::MAX,
            sum_durations(segments@) <= u64::MAX,
        ensures
            r.total_segments == segments@.len(),
            r.static_segments == count_static(segments@),
            r.total_frames == sum_frame_counts(segments@),
            r.total_duration_cs == sum_durations(segments@),
    {
        let mut static_segments: usize = 0;
        let mut total_frames: usize = 0;
        let mut total_duration_cs: u64 = 0;
        let mut j: usize = 0;
        while j < segments.len()
            invariant
                j <= segments@.len(),
                sum_frame_counts(segments@) <= usize::MAX,
                sum_durations(segments@) <= u64::MAX,
                static_segments == count_static(segments@.take(j as int)),
                total_frames == sum_frame_counts(segments@.take(j as int)),
                total_duration_cs == sum_durations(segments@.take(j as int)),
            decreases segments@.len() - j,
        {
            proof {
                assert(segments@.take(j + 1).drop_last() =~= segments@.take(j as int));
                lemma_segment_sums_prefix(segments@, j + 1);
            }
            let s = &segments[j];
            if s.is_static {
                static_segments = static_segments + 1;
            }
            total_frames = total_frames + s.frame_count();
            total_duration_cs = total_duration_cs + s.total_duration_cs as u64;
            j = j + 1;
        }
        assert(segments@.take(segments@.len() as int) =~= segments@);
        SegmentStats {
            total_segments: segments.len(),
            static_segments,
            total_frames,
            total_duration_cs,
        }
    }

    /// Total duration in milliseconds.
    pub fn total_duration_ms(&self) -> (r: u64)
        requires
            self.total_duration_cs * 10 <= u64::MAX,
        ensures
            r == self.total_duration_cs * 10,
    {
        self.total_duration_cs * 10
    }

    /// Average frames per segment as the fraction `(total_frames, total_segments)`.
    pub fn avg_frames_per_segment(&self) -> (r: (usize, usize))
        ensures
            r == (self.total_frames, self.total_segments),
    {
        (self.total_frames, self.total_segments)
    }

    /// Average segment duration (centiseconds) as the fraction `(total_duration_cs, total_segments)`.
    pub fn avg_duration_cs(&self) -> (r: (u64, usize))
        ensures
            r == (self.total_duration_cs, self.total_segments),
    {
        (self.total_duration_cs, self.total_segments)
    }
}

/// Ids of the static segments lasting at least `min_duration_cs`, in order.
pub open spec fn pause_ids(segments: Seq<Segment>, min_duration_cs: u16) -> Seq<usize>
    decreases segments.len(),
{
    if segments.len() == 0 {
        Seq::empty()
    } else {
        let rest = pause_ids(segments.drop_last(), min_duration_cs);
        let s = segments.last();
        if s.is_static && s.total_duration_cs >= min_duration_cs {
            rest.push(s.id)
        } else {
            rest
        }
    }
}

/// Find segments that are likely "pause" segments (static with long duration).
///
/// These are good candidates for collapsing or removing.
pub fn find_pause_segments(segments: &[Segment], min_duration_cs: u16) -> (r: Vec<usize>)
    ensures
        r@ == pause_ids(segments@, min_duration_cs),
{
    let mut ids: Vec<usize> = Vec::new();
    let mut j: usize = 0;
    while j < segments.len()
        invariant
            j <= segments@.len(),
            ids@ == pause_ids(segments@.take(j as int), min_duration_cs),
        decreases segments@.len() - j,
    {
        proof {
            assert(segments@.take(j + 1).drop_last() =~= segments@.take(j as int));
        }
        let s = &segments[j];
        if s.is_static && s.total_duration_cs >= min_duration_cs {
            ids.push(s.id);
        }
        j = j + 1;
    }
    assert(segments@.take(segments@.len() as int) =~= segments@);
    ids
}

/// Segment `k` is the last one with the greatest duration.
pub open spec fn is_last_longest(segments: Seq<Segment>, k: int) -> bool {
    &&& 0 <= k < segments.len()
    &&& forall|i: int|
        0 <= i < segments.len() ==> (#[trigger] segments[i]).total_duration_cs
            <= segments[k].total_duration_cs
    &&& forall|i: int|
        k < i < segments.len() ==> (#[trigger] segments[i]).total_duration_cs
            < segments[k].total_duration_cs
}

/// Find the longest segment (the last one among equally long ones).
pub fn find_longest_segment(segments: &[Segment]) -> (r: Option<&Segment>)
    ensures
        r.is_none() <==> segments@.len() == 0,
        r matches Some(s) ==> exists|k: int| is_last_longest(segments@, k) && *s == segments@[k],
{
    if segments.len() == 0 {
        return None;
    }
    let mut best: usize = 0;
    let mut j: usize = 1;
    while j < segments.len()
        invariant
            1 <= j <= segments@.len(),
            best < j,
            forall|i: int|
                0 <= i < j ==> (#[trigger] segments@[i]).total_duration_cs
                    <= segments@[best as int].total_duration_cs,
            forall|i: int|
                best < i < j ==> (#[trigger] segments@[i]).total_duration_cs
                    < segments@[best as int].total_duration_cs,
        decreases segments@.len() - j,
    {
        if segments[j].total_duration_cs >= segments[best].total_duration_cs {
            best = j;
        }
        j = j + 1;
    }
    assert(is_last_longest(segments@, best as int));
    Some(&segments[best])
}

/// `value * numerator / denominator` truncated toward zero and saturated to `u16`; a zero
/// denominator stands for an infinite factor (a zero numerator then gives 0).
pub open spec fn truncated_scale(value: u16, numerator: u32, denominator: u32) -> u16 {
    if denominator == 0 {
        if numerator == 0 || value == 0 {
            0
        } else {
            u16::MAX
        }
    } else {
        let q = value * numerator / denominator as int;
        if q > u16::MAX {
            u16::MAX
        } else {
            q as u16
        }
    }
}

/// The collapse delay suggested for a long static segment: its duration scaled by the
/// target ratio, but at most `max_cs`, the longest a static segment may last afterwards.
pub open spec fn suggested_delay(seg: Segment, reduction_num: u32, reduction_den: u32, max_cs: u16) -> u16 {
    let scaled = truncated_scale(seg.total_duration_cs, reduction_num, reduction_den);
    if scaled <= max_cs {
        scaled
    } else {
        max_cs
    }
}

fn truncate_scale(value: u16, numerator: u32, denominator: u32) -> (r: u16)
    ensures
        r == truncated_scale(value, numerator, denominator),
{
    if denominator == 0 {
        if numerator == 0 || value == 0 {
            0
        } else {
            u16::MAX
        }
    } else {
        assert(value as int * numerator as int <= 0xffff * 0xffff_ffff) by (nonlinear_arith)
            requires
                value <= 0xffff,
                numerator <= 0xffff_ffffu32,
        ;
        let q: u64 = (value as u64 * numerator as u64) / denominator as u64;
        if q > u16::MAX as u64 {
            u16::MAX
        } else {
            q as u16
        }
    }
}

/// Whether a segment is static and lasts longer than `max_cs`.
pub open spec fn long_static(max_cs: u16) -> spec_fn(Segment) -> bool {
    |s: Segment| s.is_static && s.total_duration_cs > max_cs
}

/// The collapse that compression suggests for a segment.
pub open spec fn suggested_collapse(num: u32, den: u32, max_cs: u16) -> spec_fn(Segment) -> SegmentOp {
    |s: Segment| SegmentOp::Collapse { delay_cs: suggested_delay(s, num, den, max_cs) }
}

/// Suggest operations to reduce GIF duration by targeting static segments.
///
/// Every static segment longer than `max_static_duration_cs` is collapsed to its duration
/// scaled by the target ratio `reduction_num / reduction_den` (truncated; 1/2 halves it), but
/// to at most `max_static_duration_cs`, the maximum duration of a static segment after
/// reduction. The suggested delay is therefore shorter than the segment was.
pub fn suggest_compression_ops(
    segments: &[Segment],
    reduction_num: u32,
    reduction_den: u32,
    max_static_duration_cs: u16,
) -> (r: SegmentOps)
    ensures
        r@ == ops_where(
            segments@,
            long_static(max_static_duration_cs),
            suggested_collapse(reduction_num, reduction_den, max_static_duration_cs),
        ),
{
    let ghost pred = long_static(max_static_duration_cs);
    let ghost op_of = suggested_collapse(reduction_num, reduction_den, max_static_duration_cs);
    let mut ops = SegmentOps::new();
    let mut j: usize = 0;
    while j < segments.len()
        invariant
            j <= segments@.len(),
            pred == long_static(max_static_duration_cs),
            op_of == suggested_collapse(reduction_num, reduction_den, max_static_duration_cs),
            ops@ == ops_where(segments@.take(j as int), pred, op_of),
        decreases segments@.len() - j,
    {
        proof {
            lemma_ops_where_step(segments@, pred, op_of, j as int);
        }
        let segment = &segments[j];
        assert(pred(segments@[j as int]) == (segment.is_static && segment.total_duration_cs
            > max_static_duration_cs));
        if segment.is_static && segment.total_duration_cs > max_static_duration_cs {
            let scaled = truncate_scale(segment.total_duration_cs, reduction_num, reduction_den);
            let new_duration = if scaled <= max_static_duration_cs {
                scaled
            } else {
                max_static_duration_cs
            };
            assert(op_of(segments@[j as int]) == SegmentOp::Collapse { delay_cs: new_duration });
            ops.insert(segment.id, SegmentOp::Collapse { delay_cs: new_duration });
        }
        j = j + 1;
    }
    assert(segments@.take(segments@.len() as int) =~= segments@);
    ops
}


/// Every segment whose operation is `SetDuration` has fewer than 65536 frames, so the
/// frame count it divides by is exact.
pub open spec fn set_duration_exact(segments: Seq<Segment>, ops: Map<usize, SegmentOp>) -> bool {
    forall|j: int|
        0 <= j < segments.len() ==> (op_for(ops, (#[trigger] segments[j]).id) is SetDuration
            ==> seg_len(segments[j]) < 65536)
}

/// The delays `SetDuration` gives to the first `k` of `n` frames.
spec fn spread_prefix(total: u16, n: int, s: int, k: int) -> Seq<PlannedFrame> {
    Seq::new(k as nat, |i: int| (s + i, spread_delay(total, n, i)))
}

proof fn lemma_spread_prefix_total(total: u16, n: int, s: int, k: int)
    requires
        0 < n < 65536,
        0 <= k <= n,
    ensures
        plan_total(spread_prefix(total, n, s, k)) == k * (total as int / n) + if k < total as int % n {
            k
        } else {
            total as int % n
        },
    decreases k,
{
    if k > 0 {
        assert(spread_prefix(total, n, s, k).drop_last() =~= spread_prefix(total, n, s, k - 1));
        lemma_spread_prefix_total(total, n, s, k - 1);
        assert(k * (total as int / n) == (k - 1) * (total as int / n) + total as int / n)
            by (nonlinear_arith);
        assert((k - 1) % 65536 == k - 1);
        assert(n % 65536 == n);
        assert(spread_prefix(total, n, s, k).last() == (s + k - 1, spread_delay(total, n, k - 1)));
        let per = total as int / n;
        let rem = total as int % n;
        if k - 1 < rem {
            assert(n >= 2);
            assert(per <= total as int / 2) by (nonlinear_arith)
                requires
                    n >= 2,
                    total >= 0,
                    per == total as int / n,
            ;
            assert(spread_delay(total, n, k - 1) as int == per + 1);
        } else {
            assert(per <= total as int) by (nonlinear_arith)
                requires
                    n >= 1,
                    total >= 0,
                    per == total as int / n,
            ;
            assert(spread_delay(total, n, k - 1) as int == per);
        }
        assert(plan_total(spread_prefix(total, n, s, k)) == plan_total(
            spread_prefix(total, n, s, k - 1),
        ) + spread_delay(total, n, k - 1));
        assert(plan_total(spread_prefix(total, n, s, k - 1)) == (k - 1) * per + if k - 1 < rem {
            k - 1
        } else {
            rem
        });
        assert(plan_total(spread_prefix(total, n, s, k)) == k * per + if k < rem {
            k
        } else {
            rem
        });
    } else {
        assert(spread_prefix(total, n, s, k).len() == 0);
    }
}

/// `SetDuration` spreads exactly its total over a segment of fewer than 65536 frames.
proof fn lemma_spread_total(total: u16, n: int, s: int)
    requires
        0 < n < 65536,
    ensures
        plan_total(Seq::new(n as nat, |i: int| (s + i, spread_delay(total, n, i)))) == total,
{
    lemma_spread_prefix_total(total, n, s, n);
    assert(spread_prefix(total, n, s, n) =~= Seq::new(
        n as nat,
        |i: int| (s + i, spread_delay(total, n, i)),
    ));
    assert(total as int == n * (total as int / n) + total as int % n) by (nonlinear_arith)
        requires
            n > 0,
    ;
}

/// The dry run of segment and frame operations predicts the output of
/// [`apply_operations`]: the number of frames it produces and the sum of their delays,
/// whenever every segment that gets `SetDuration` has fewer than 65536 frames.
pub proof fn dry_run_all_matches_apply<H>(
    frames: Seq<AnalyzedFrame<H>>,
    segments: Seq<Segment>,
    ops: Map<usize, SegmentOp>,
    frame_ops: Map<(usize, usize), FrameOp>,
)
    requires
        set_duration_exact(segments, ops),
    ensures
        dry_totals_all(frames, segments, ops, frame_ops).0 == plan_all_ops(
            frames,
            segments,
            ops,
            frame_ops,
        ).len(),
        dry_totals_all(frames, segments, ops, frame_ops).1 == plan_total(
            plan_all_ops(frames, segments, ops, frame_ops),
        ),
    decreases segments.len(),
{
    if segments.len() > 0 {
        let rest = segments.drop_last();
        let seg = segments.last();
        assert forall|j: int| 0 <= j < rest.len() implies (op_for(ops, (#[trigger] rest[j]).id)
            is SetDuration ==> seg_len(rest[j]) < 65536) by {
            assert(rest[j] == segments[j]);
        }
        dry_run_all_matches_apply(frames, rest, ops, frame_ops);
        let op = op_for(ops, seg.id);
        let p = segment_plan_with_frames(frames, seg, op, frame_ops);
        lemma_plan_total_append(plan_all_ops(frames, rest, ops, frame_ops), p);
        assert(segments[segments.len() - 1] == seg);
        if let SegmentOp::SetDuration { total_cs } = op {
            if seg_len(seg) > 0 {
                lemma_spread_total(total_cs, seg_len(seg), seg.frame_range.start as int);
            }
        }
    }
}

/// The dry run of segment operations predicts the output of
/// [`apply_segment_operations`] whenever each kept segment records the sum of its frames'
/// delays and every segment that gets `SetDuration` has fewer than 65536 frames.
pub proof fn dry_run_matches_apply<H>(
    frames: Seq<AnalyzedFrame<H>>,
    segments: Seq<Segment>,
    ops: Map<usize, SegmentOp>,
)
    requires
        set_duration_exact(segments, ops),
        forall|j: int|
            0 <= j < segments.len() && op_for(ops, (#[trigger] segments[j]).id) is Keep
                ==> segments[j].total_duration_cs == delay_sum(
                frames,
                segments[j].frame_range.start as int,
                segments[j].frame_range.end as int,
            ),
    ensures
        dry_totals(frames, segments, ops).0 == plan_segment_ops(frames, segments, ops).len(),
        dry_totals(frames, segments, ops).1 == plan_total(plan_segment_ops(frames, segments, ops)),
    decreases segments.len(),
{
    if segments.len() > 0 {
        let rest = segments.drop_last();
        let seg = segments.last();
        assert forall|j: int| 0 <= j < rest.len() implies (op_for(ops, (#[trigger] rest[j]).id)
            is SetDuration ==> seg_len(rest[j]) < 65536) by {
            assert(rest[j] == segments[j]);
        }
        assert forall|j: int|
            0 <= j < rest.len() && op_for(ops, (#[trigger] rest[j]).id) is Keep implies rest[j].total_duration_cs
                == delay_sum(
                frames,
                rest[j].frame_range.start as int,
                rest[j].frame_range.end as int,
            ) by {
            assert(rest[j] == segments[j]);
        }
        dry_run_matches_apply(frames, rest, ops);
        let op = op_for(ops, seg.id);
        let p = segment_plan(frames, seg, op);
        lemma_plan_total_append(plan_segment_ops(frames, rest, ops), p);
        assert(segments[segments.len() - 1] == seg);
        match op {
            SegmentOp::SetDuration { total_cs } => {
                if seg_len(seg) > 0 {
                    lemma_spread_total(total_cs, seg_len(seg), seg.frame_range.start as int);
                }
            },
            SegmentOp::Keep => {
                lemma_kept_total(frames, seg.frame_range.start as int, seg_len(seg));
            },
            _ => {},
        }
    }
}

/// Sum of the delays of output frames, in centiseconds.
pub open spec fn output_delay_total(out: Seq<EncodableFrame>) -> int
    decreases out.len(),
{
    if out.len() == 0 {
        0
    } else {
        output_delay_total(out.drop_last()) + out.last().delay_centiseconds
    }
}

/// Output frames that realize a plan last as long as the plan.
proof fn lemma_realized_total<H>(out: Seq<EncodableFrame>, plan: Seq<PlannedFrame>, frames: Seq<AnalyzedFrame<H>>)
    requires
        realizes(out, plan, frames),
    ensures
        output_delay_total(out) == plan_total(plan),
    decreases out.len(),
{
    if out.len() > 0 {
        let n = out.len() - 1;
        assert(realizes(out.drop_last(), plan.drop_last(), frames)) by {
            assert forall|i: int| 0 <= i < n implies shows(#[trigger] out.drop_last()[i], plan.drop_last()[i], frames) by {
                assert(shows(out[i], plan[i], frames));
            }
        }
        lemma_realized_total(out.drop_last(), plan.drop_last(), frames);
        assert(shows(out[n], plan[n], frames));
    }
}

/// A dry run with segment and frame operations gives the length and the total delay of
/// what [`apply_operations`] outputs, whenever every segment that gets `SetDuration` has
/// fewer than 65536 frames.
pub proof fn law_dry_run_all_predicts_output<H>(
    frames: Seq<AnalyzedFrame<H>>,
    segments: Seq<Segment>,
    ops: Map<usize, SegmentOp>,
    frame_ops: Map<(usize, usize), FrameOp>,
    out: Seq<EncodableFrame>,
)
    requires
        set_duration_exact(segments, ops),
        realizes(out, plan_all_ops(frames, segments, ops, frame_ops), frames),
    ensures
        dry_totals_all(frames, segments, ops, frame_ops) == (out.len() as int, output_delay_total(out)),
{
    dry_run_all_matches_apply(frames, segments, ops, frame_ops);
    lemma_realized_total(out, plan_all_ops(frames, segments, ops, frame_ops), frames);
}

/// A dry run with segment operations gives the length and the total delay of what
/// [`apply_segment_operations`] outputs, whenever each kept segment records the sum of its
/// frames' delays and every segment that gets `SetDuration` has fewer than 65536 frames.
pub proof fn law_dry_run_predicts_output<H>(
    frames: Seq<AnalyzedFrame<H>>,
    segments: Seq<Segment>,
    ops: Map<usize, SegmentOp>,
    out: Seq<EncodableFrame>,
)
    requires
        set_duration_exact(segments, ops),
        forall|j: int|
            0 <= j < segments.len() && op_for(ops, (#[trigger] segments[j]).id) is Keep
                ==> segments[j].total_duration_cs == delay_sum(
                frames,
                segments[j].frame_range.start as int,
                segments[j].frame_range.end as int,
            ),
        realizes(out, plan_segment_ops(frames, segments, ops), frames),
    ensures
        dry_totals(frames, segments, ops) == (out.len() as int, output_delay_total(out)),
{
    dry_run_matches_apply(frames, segments, ops);
    lemma_realized_total(out, plan_segment_ops(frames, segments, ops), frames);
}

proof fn lemma_kept_total<H>(frames: Seq<AnalyzedFrame<H>>, s: int, k: int)
    requires
        k >= 0,
    ensures
        plan_total(Seq::new(k as nat, |i: int| (s + i, frames[s + i].frame.delay_centiseconds)))
            == delay_sum(frames, s, s + k),
    decreases k,
{
    if k > 0 {
        assert(Seq::new(k as nat, |i: int| (s + i, frames[s + i].frame.delay_centiseconds)).drop_last()
            =~= Seq::new((k - 1) as nat, |i: int| (s + i, frames[s + i].frame.delay_centiseconds)));
        lemma_kept_total(frames, s, k - 1);
    }
}

} // verus!
