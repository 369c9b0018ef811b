//! Fluent segment selector API for building operations.
//!
//! Selectors are created over a subset of segments; filters narrow the subset, and
//! terminal operations turn it into [`SegmentOps`].
use vstd::prelude::*;
use crate::types::{ops_where, lemma_ops_where_step, Segment, SegmentOp, SegmentOps};

verus! {

broadcast use vstd::std_specs::hash::group_hash_axioms;

/// A selector over a subset of segments, supporting filtering and operations.
#[derive(Debug, Clone)]
pub struct SegmentSelector<'a> {
    segments: Vec<&'a Segment>,
}

impl<'a> View for SegmentSelector<'a> {
    type V = Seq<Segment>;

    closed spec fn view(&self) -> Seq<Segment> {
        self.segments@.map_values(|s: &'a Segment| *s)
    }
}

/// Centiseconds in a duration given in milliseconds, truncated and taken as a `u16`.
pub open spec fn ms_to_cs(ms: u32) -> u16 {
    (ms / 10) as u16
}

fn cs_of_ms(ms: u32) -> (r: u16)
    ensures
        r == ms_to_cs(ms),
{
    (ms / 10) as u16
}

/// Sum of the durations of segments, in milliseconds.
pub open spec fn total_ms(segments: Seq<Segment>) -> int
    decreases segments.len(),
{
    if segments.len() == 0 {
        0
    } else {
        total_ms(segments.drop_last()) + segments.last().total_duration_cs * 10
    }
}

/// Sum of the frame counts of segments.
pub open spec fn total_frame_count(segments: Seq<Segment>) -> int
    decreases segments.len(),
{
    if segments.len() == 0 {
        0
    } else {
        total_frame_count(segments.drop_last()) + segments.last().spec_frame_count()
    }
}

proof fn lemma_total_ms_prefix(segments: Seq<Segment>, i: int)
    requires
        0 <= i <= segments.len(),
    ensures
        0 <= total_ms(segments.take(i)) <= total_ms(segments),
    decreases segments.len() - i,
{
    if i < segments.len() {
        lemma_total_ms_prefix(segments, i + 1);
        assert(segments.take(i + 1).drop_last() =~= segments.take(i));
        lemma_total_ms_nonneg(segments.take(i));
    } else {
        assert(segments.take(i) =~= segments);
        lemma_total_ms_nonneg(segments);
    }
}

proof fn lemma_total_ms_nonneg(segments: Seq<Segment>)
    ensures
        total_ms(segments) >= 0,
    decreases segments.len(),
{
    if segments.len() > 0 {
        lemma_total_ms_nonneg(segments.drop_last());
    }
}

proof fn lemma_total_frames_prefix(segments: Seq<Segment>, i: int)
    requires
        0 <= i <= segments.len(),
    ensures
        0 <= total_frame_count(segments.take(i)) <= total_frame_count(segments),
    decreases segments.len() - i,
{
    if i < segments.len() {
        lemma_total_frames_prefix(segments, i + 1);
        assert(segments.take(i + 1).drop_last() =~= segments.take(i));
        lemma_total_frames_nonneg(segments.take(i));
    } else {
        assert(segments.take(i) =~= segments);
        lemma_total_frames_nonneg(segments);
    }
}

proof fn lemma_total_frames_nonneg(segments: Seq<Segment>)
    ensures
        total_frame_count(segments) >= 0,
    decreases segments.len(),
{
    if segments.len() > 0 {
        lemma_total_frames_nonneg(segments.drop_last());
    }
}

proof fn lemma_filter_step(s: Seq<Segment>, pred: spec_fn(Segment) -> bool, i: int)
    requires
        0 <= i < s.len(),
    ensures
        s.take(i + 1).filter(pred) == if pred(s[i]) {
            s.take(i).filter(pred).push(s[i])
        } else {
            s.take(i).filter(pred)
        },
{
    reveal(Seq::filter);
    assert(s.take(i + 1).drop_last() =~= s.take(i));
    assert(s.take(i + 1).last() == s[i]);
}

impl<'a> SegmentSelector<'a> {
    /// Create a new selector from a list of segment references.
    pub fn new(segments: Vec<&'a Segment>) -> (r: Self)
        ensures
            r@ == segments@.map_values(|s: &'a Segment| *s),
    {
        SegmentSelector { segments }
    }

    /// Get the number of selected segments.
    pub fn count(&self) -> (r: usize)
        ensures
            r == self@.len(),
    {
        self.segments.len()
    }

    /// Check if any segments are selected.
    pub fn is_empty(&self) -> (r: bool)
        ensures
            r == (self@.len() == 0),
    {
        self.segments.len() == 0
    }

    /// Get the selected segments.
    pub fn segments(&self) -> (r: &[&'a Segment])
        ensures
            r@.map_values(|s: &'a Segment| *s) == self@,
    {
        self.segments.as_slice()
    }

    /// Get total duration of selected segments in milliseconds.
    pub fn total_duration_ms(&self) -> (r: u64)
        requires
            total_ms(self@) <= u64::MAX,
        ensures
            r == total_ms(self@),
    {
        let mut total: u64 = 0;
        let mut i: usize = 0;
        while i < self.segments.len()
            invariant
                i <= self@.len(),
                self@.len() == self.segments@.len(),
                total_ms(self@) <= u64::MAX,
                total == total_ms(self@.take(i as int)),
            decreases self@.len() - i,
        {
            proof {
                assert(self@.take(i + 1).drop_last() =~= self@.take(i as int));
                assert(self@[i as int] == *self.segments@[i as int]);
                lemma_total_ms_prefix(self@, i + 1);
            }
            total = total + self.segments[i].duration_ms() as u64;
            i = i + 1;
        }
        proof {
            assert(self@.take(i as int) =~= self@);
        }
        total
    }

    /// Get total frame count of selected segments.
    pub fn total_frames(&self) -> (r: usize)
        requires
            total_frame_count(self@) <= usize::MAX,
        ensures
            r == total_frame_count(self@),
    {
        let mut total: usize = 0;
        let mut i: usize = 0;
        while i < self.segments.len()
            invariant
                i <= self@.len(),
                self@.len() == self.segments@.len(),
                total_frame_count(self@) <= usize::MAX,
                total == total_frame_count(self@.take(i as int)),
            decreases self@.len() - i,
        {
            proof {
                assert(self@.take(i + 1).drop_last() =~= self@.take(i as int));
                assert(self@[i as int] == *self.segments@[i as int]);
                lemma_total_frames_prefix(self@, i + 1);
            }
            total = total + self.segments[i].frame_count();
            i = i + 1;
        }
        proof {
            assert(self@.take(i as int) =~= self@);
        }
        total
    }

    /// Keep the selected segments for which `keep` holds of their duration and frame
    /// count, in order.
    fn retain_by(self, kind: u8, a: usize, b: usize) -> (r: Self)
        ensures
            r@ == self@.filter(|s: Segment| keeps(kind, a, b, s)),
    {
        let ghost pred = |s: Segment| keeps(kind, a, b, s);
        let mut kept: Vec<&'a Segment> = Vec::new();
        let mut i: usize = 0;
        while i < self.segments.len()
            invariant
                i <= self@.len(),
                self@.len() == self.segments@.len(),
                pred == (|s: Segment| keeps(kind, a, b, s)),
                kept@.map_values(|s: &'a Segment| *s) == self@.take(i as int).filter(pred),
            decreases self@.len() - i,
        {
            let s: &'a Segment = self.segments[i];
            proof {
                lemma_filter_step(self@, pred, i as int);
                assert(self@[i as int] == *s);
            }
            if keep_segment(kind, a, b, s) {
                let ghost before = kept@;
                kept.push(s);
                proof {
                    assert(kept@.map_values(|s: &'a Segment| *s) =~= before.map_values(
                        |s: &'a Segment| *s,
                    ).push(*s));
                }
            }
            i = i + 1;
        }
        proof {
            assert(self@.take(i as int) =~= self@);
        }
        SegmentSelector { segments: kept }
    }

    /// Filter to segments longer than the specified duration.
    pub fn longer_than(self, ms: u32) -> (r: Self)
        ensures
            r@ == self@.filter(|s: Segment| s.total_duration_cs > ms_to_cs(ms)),
    {
        let cs = cs_of_ms(ms);
        let r = self.retain_by(0, cs as usize, 0);
        proof {
            assert((|s: Segment| keeps(0, cs as usize, 0, s)) =~= (|s: Segment| s.total_duration_cs
                > ms_to_cs(ms)));
        }
        r
    }

    /// Filter to segments shorter than the specified duration.
    pub fn shorter_than(self, ms: u32) -> (r: Self)
        ensures
            r@ == self@.filter(|s: Segment| s.total_duration_cs < ms_to_cs(ms)),
    {
        let cs = cs_of_ms(ms);
        let r = self.retain_by(1, cs as usize, 0);
        proof {
            assert((|s: Segment| keeps(1, cs as usize, 0, s)) =~= (|s: Segment| s.total_duration_cs
                < ms_to_cs(ms)));
        }
        r
    }

    /// Filter to segments with duration in the specified range (inclusive).
    pub fn duration_between(self, min_ms: u32, max_ms: u32) -> (r: Self)
        ensures
            r@ == self@.filter(
                |s: Segment|
                    ms_to_cs(min_ms) <= s.total_duration_cs && s.total_duration_cs <= ms_to_cs(
                        max_ms,
                    ),
            ),
    {
        let min_cs = cs_of_ms(min_ms);
        let max_cs = cs_of_ms(max_ms);
        let r = self.retain_by(2, min_cs as usize, max_cs as usize);
        proof {
            assert((|s: Segment| keeps(2, min_cs as usize, max_cs as usize, s)) =~= (|s: Segment|
                ms_to_cs(min_ms) <= s.total_duration_cs && s.total_duration_cs <= ms_to_cs(
                    max_ms,
                )));
        }
        r
    }

    /// Filter to segments with more than N frames.
    pub fn frames_gt(self, count: usize) -> (r: Self)
        ensures
            r@ == self@.filter(|s: Segment| s.spec_frame_count() > count),
    {
        let r = self.retain_by(3, count, 0);
        proof {
            assert((|s: Segment| keeps(3, count, 0, s)) =~= (|s: Segment| s.spec_frame_count()
                > count));
        }
        r
    }

    /// Filter to segments with fewer than N frames.
    pub fn frames_lt(self, count: usize) -> (r: Self)
        ensures
            r@ == self@.filter(|s: Segment| s.spec_frame_count() < count),
    {
        let r = self.retain_by(4, count, 0);
        proof {
            assert((|s: Segment| keeps(4, count, 0, s)) =~= (|s: Segment| s.spec_frame_count()
                < count));
        }
        r
    }

    /// Filter to segments with exactly N frames.
    pub fn frames_eq(self, count: usize) -> (r: Self)
        ensures
            r@ == self@.filter(|s: Segment| s.spec_frame_count() == count),
    {
        let r = self.retain_by(5, count, 0);
        proof {
            assert((|s: Segment| keeps(5, count, 0, s)) =~= (|s: Segment| s.spec_frame_count()
                == count));
        }
        r
    }

    /// Filter using a custom predicate, which must answer the same for the same segment.
    pub fn filter<F: Fn(&Segment) -> bool>(self, predicate: F) -> (r: Self)
        requires
            forall|s: &Segment| #[trigger] predicate.requires((s,)),
            forall|s: &Segment|
                !(#[trigger] predicate.ensures((s,), true) && predicate.ensures((s,), false)),
        ensures
            r@ == self@.filter(|s: Segment| predicate.ensures((&s,), true)),
    {
        let ghost pred = |s: Segment| predicate.ensures((&s,), true);
        let mut kept: Vec<&'a Segment> = Vec::new();
        let mut i: usize = 0;
        while i < self.segments.len()
            invariant
                i <= self@.len(),
                self@.len() == self.segments@.len(),
                pred == (|s: Segment| predicate.ensures((&s,), true)),
                forall|s: &Segment| #[trigger] predicate.requires((s,)),
                forall|s: &Segment|
                    !(#[trigger] predicate.ensures((s,), true) && predicate.ensures((s,), false)),
                kept@.map_values(|s: &'a Segment| *s) == self@.take(i as int).filter(pred),
            decreases self@.len() - i,
        {
            let s: &'a Segment = self.segments[i];
            proof {
                lemma_filter_step(self@, pred, i as int);
                assert(self@[i as int] == *s);
            }
            let keep = predicate(s);
            if keep {
                let ghost before = kept@;
                kept.push(s);
                proof {
                    assert(kept@.map_values(|s: &'a Segment| *s) =~= before.map_values(
                        |s: &'a Segment| *s,
                    ).push(*s));
                }
            } else {
                assert(!pred(*s));
            }
            i = i + 1;
        }
        proof {
            assert(self@.take(i as int) =~= self@);
        }
        SegmentSelector { segments: kept }
    }

    /// Keep the selected segments from index `from` up to (not including) `to`.
    fn slice(self, from: usize, to: usize) -> (r: Self)
        requires
            from <= to <= self@.len(),
        ensures
            r@ == self@.subrange(from as int, to as int),
    {
        let mut kept: Vec<&'a Segment> = Vec::new();
        let mut i: usize = from;
        while i < to
            invariant
                from <= i <= to,
                to <= self@.len(),
                self@.len() == self.segments@.len(),
                kept@.map_values(|s: &'a Segment| *s) == self@.subrange(from as int, i as int),
            decreases to - i,
        {
            let s: &'a Segment = self.segments[i];
            let ghost before = kept@;
            kept.push(s);
            proof {
                assert(self@[i as int] == *s);
                assert(kept@.map_values(|s: &'a Segment| *s) =~= before.map_values(
                    |s: &'a Segment| *s,
                ).push(*s));
                assert(kept@.map_values(|s: &'a Segment| *s) =~= self@.subrange(
                    from as int,
                    i + 1,
                ));
            }
            i = i + 1;
        }
        SegmentSelector { segments: kept }
    }

    /// Take only the first N segments.
    pub fn take(self, n: usize) -> (r: Self)
        ensures
            r@ == self@.take(if n <= self@.len() { n as int } else { self@.len() as int }),
    {
        let len = self.segments.len();
        let to = if n <= len {
            n
        } else {
            len
        };
        self.slice(0, to)
    }

    /// Skip the first N segments.
    pub fn skip(self, n: usize) -> (r: Self)
        ensures
            r@ == self@.skip(if n <= self@.len() { n as int } else { self@.len() as int }),
    {
        let len = self.segments.len();
        let from = if n <= len {
            n
        } else {
            len
        };
        self.slice(from, len)
    }

    /// Take the first segment only.
    pub fn first(self) -> (r: Self)
        ensures
            r@ == self@.take(if self@.len() >= 1 { 1int } else { 0 }),
    {
        self.take(1)
    }

    /// Take the last segment only.
    pub fn last(self) -> (r: Self)
        ensures
            r@ == self@.skip(if self@.len() >= 1 { self@.len() - 1 } else { 0 }),
    {
        let len = self.segments.len();
        let from = if len >= 1 {
            len - 1
        } else {
            0
        };
        self.slice(from, len)
    }

    /// The operations that give `op_of` of each selected segment satisfying `pred`, the
    /// later of two selected segments with one id winning.
    fn ops_for(&self, kind: u8, limit: u16, op: SegmentOp) -> (r: SegmentOps)
        ensures
            r@ == ops_where(self@, |s: Segment| selected_for(kind, limit, s), |s: Segment| op),
    {
        let ghost pred = |s: Segment| selected_for(kind, limit, s);
        let ghost op_of = |s: Segment| op;
        let mut ops = SegmentOps::new();
        let mut i: usize = 0;
        while i < self.segments.len()
            invariant
                i <= self@.len(),
                self@.len() == self.segments@.len(),
                pred == (|s: Segment| selected_for(kind, limit, s)),
                op_of == (|s: Segment| op),
                ops@ == ops_where(self@.take(i as int), pred, op_of),
            decreases self@.len() - i,
        {
            let s: &Segment = self.segments[i];
            proof {
                lemma_ops_where_step(self@, pred, op_of, i as int);
                assert(self@[i as int] == *s);
            }
            if kind == 0 || s.total_duration_cs > limit {
                ops.insert(s.id, op);
            }
            i = i + 1;
        }
        proof {
            assert(self@.take(i as int) =~= self@);
        }
        ops
    }

    /// Cap duration to a maximum value: segments longer than `max_ms` are collapsed to a
    /// single frame with that duration; shorter segments are unchanged.
    pub fn cap(&self, max_ms: u32) -> (r: SegmentOps)
        ensures
            r@ == ops_where(
                self@,
                |s: Segment| s.total_duration_cs > ms_to_cs(max_ms),
                |s: Segment| SegmentOp::Collapse { delay_cs: ms_to_cs(max_ms) },
            ),
    {
        let max_cs = cs_of_ms(max_ms);
        let r = self.ops_for(1, max_cs, SegmentOp::Collapse { delay_cs: max_cs });
        proof {
            assert((|s: Segment| selected_for(1, max_cs, s)) =~= (|s: Segment| s.total_duration_cs
                > ms_to_cs(max_ms)));
            assert((|s: Segment| SegmentOp::Collapse { delay_cs: max_cs }) =~= (|s: Segment|
                SegmentOp::Collapse { delay_cs: ms_to_cs(max_ms) }));
        }
        r
    }

    /// Give every selected segment the same operation.
    fn all_ops(&self, op: SegmentOp) -> (r: SegmentOps)
        ensures
            r@ == ops_where(self@, |s: Segment| true, |s: Segment| op),
    {
        let r = self.ops_for(0, 0, op);
        proof {
            assert((|s: Segment| selected_for(0, 0, s)) =~= (|s: Segment| true));
        }
        r
    }

    /// Collapse each segment to a single frame with the specified duration.
    pub fn collapse(&self, duration_ms: u32) -> (r: SegmentOps)
        ensures
            r@ == ops_where(
                self@,
                |s: Segment| true,
                |s: Segment| SegmentOp::Collapse { delay_cs: ms_to_cs(duration_ms) },
            ),
    {
        self.all_ops(SegmentOp::Collapse { delay_cs: cs_of_ms(duration_ms) })
    }

    /// Remove all selected segments entirely.
    pub fn remove(&self) -> (r: SegmentOps)
        ensures
            r@ == ops_where(self@, |s: Segment| true, |s: Segment| SegmentOp::Remove),
    {
        self.all_ops(SegmentOp::Remove)
    }

    /// Speed up selected segments by the factor `numerator / denominator` (2/1 plays
    /// twice as fast): their timing is scaled by `denominator / numerator`.
    pub fn speed_up(&self, numerator: u32, denominator: u32) -> (r: SegmentOps)
        ensures
            r@ == ops_where(
                self@,
                |s: Segment| true,
                |s: Segment| SegmentOp::Scale { numerator: denominator, denominator: numerator },
            ),
    {
        self.all_ops(SegmentOp::Scale { numerator: denominator, denominator: numerator })
    }

    /// Slow down selected segments by the factor `numerator / denominator` (2/1 plays
    /// twice as slow).
    pub fn slow_down(&self, numerator: u32, denominator: u32) -> (r: SegmentOps)
        ensures
            r@ == ops_where(
                self@,
                |s: Segment| true,
                |s: Segment| SegmentOp::Scale { numerator, denominator },
            ),
    {
        self.all_ops(SegmentOp::Scale { numerator, denominator })
    }

    /// Set the total duration for each selected segment, distributed evenly over its
    /// frames.
    pub fn set_duration(&self, ms: u32) -> (r: SegmentOps)
        ensures
            r@ == ops_where(
                self@,
                |s: Segment| true,
                |s: Segment| SegmentOp::SetDuration { total_cs: ms_to_cs(ms) },
            ),
    {
        self.all_ops(SegmentOp::SetDuration { total_cs: cs_of_ms(ms) })
    }

    /// Set a fixed delay for each frame in the selected segments.
    pub fn set_frame_delay(&self, ms: u32) -> (r: SegmentOps)
        ensures
            r@ == ops_where(
                self@,
                |s: Segment| true,
                |s: Segment| SegmentOp::SetFrameDelay { delay_cs: ms_to_cs(ms) },
            ),
    {
        self.all_ops(SegmentOp::SetFrameDelay { delay_cs: cs_of_ms(ms) })
    }

    /// Explicitly keep selected segments unchanged (useful when merging).
    pub fn keep(&self) -> (r: SegmentOps)
        ensures
            r@ == ops_where(self@, |s: Segment| true, |s: Segment| SegmentOp::Keep),
    {
        self.all_ops(SegmentOp::Keep)
    }

    /// Scale timing by the raw factor `numerator / denominator` (below 1 speeds up).
    pub fn scale(&self, numerator: u32, denominator: u32) -> (r: SegmentOps)
        ensures
            r@ == ops_where(
                self@,
                |s: Segment| true,
                |s: Segment| SegmentOp::Scale { numerator, denominator },
            ),
    {
        self.all_ops(SegmentOp::Scale { numerator, denominator })
    }
}

/// Extension methods for [`SegmentOps`].
pub trait SegmentOpsExt: Sized {
    /// Merge with another set of operations; operations from `other` override those in
    /// `self` for the same segment.
    fn merge(&self, other: &SegmentOps) -> SegmentOps;

    /// Merge with another set, consuming self.
    fn and(self, other: SegmentOps) -> SegmentOps;

    /// Merge several operation sets, later sets overriding earlier ones.
    fn merge_all(sets: &[&SegmentOps]) -> SegmentOps;
}

/// The operations of several sets merged in order, later sets overriding earlier ones.
pub open spec fn merged_all(sets: Seq<Map<usize, SegmentOp>>) -> Map<usize, SegmentOp>
    decreases sets.len(),
{
    if sets.len() == 0 {
        Map::empty()
    } else {
        merged_all(sets.drop_last()).union_prefer_right(sets.last())
    }
}

/// Insert every operation of `other` into `into`.
fn insert_all(into: &mut SegmentOps, other: &SegmentOps)
    ensures
        final(into)@ == old(into)@.union_prefer_right(other@),
{
    let ghost start = into@;
    for entry in it: other.iter()
        invariant
            into@ == start.union_prefer_right(
                Map::new(
                    |k: usize| exists|j: int| 0 <= j < it.index() && *it.seq()[j].0 == k,
                    |k: usize| other@[k],
                ),
            ),
    {
        let (k, v) = entry;
        proof {
            assert(other@.contains_key(*k) && other@[*k] == *v);
        }
        into.insert(*k, *v);
        proof {
            assert(into@ =~= start.union_prefer_right(
                Map::new(
                    |q: usize| exists|j: int| 0 <= j < it.index() + 1 && *it.seq()[j].0 == q,
                    |q: usize| other@[q],
                ),
            ));
        }
    }
}

impl SegmentOpsExt for SegmentOps {
    fn merge(&self, other: &SegmentOps) -> (r: SegmentOps)
        ensures
            r@ == self@.union_prefer_right(other@),
    {
        let mut merged = self.clone();
        insert_all(&mut merged, other);
        merged
    }

    fn and(self, other: SegmentOps) -> (r: SegmentOps)
        ensures
            r@ == self@.union_prefer_right(other@),
    {
        let mut merged = self;
        insert_all(&mut merged, &other);
        merged
    }

    fn merge_all(sets: &[&SegmentOps]) -> (r: SegmentOps)
        ensures
            r@ == merged_all(sets@.map_values(|m: &SegmentOps| m@)),
    {
        let ghost views = sets@.map_values(|m: &SegmentOps| m@);
        let mut merged = SegmentOps::new();
        let mut i: usize = 0;
        while i < sets.len()
            invariant
                i <= sets@.len(),
                views == sets@.map_values(|m: &SegmentOps| m@),
                merged@ == merged_all(views.take(i as int)),
            decreases sets@.len() - i,
        {
            insert_all(&mut merged, sets[i]);
            proof {
                assert(views.take(i + 1).drop_last() =~= views.take(i as int));
            }
            i = i + 1;
        }
        proof {
            assert(views.take(i as int) =~= views);
        }
        merged
    }
}

/// Merging operation sets is associative: merging `a` with `b` and then `c` gives the
/// same operations as merging `a` with the merge of `b` and `c`.
pub proof fn merge_associative(
    a: Map<usize, SegmentOp>,
    b: Map<usize, SegmentOp>,
    c: Map<usize, SegmentOp>,
)
    ensures
        a.union_prefer_right(b).union_prefer_right(c) == a.union_prefer_right(
            b.union_prefer_right(c),
        ),
{
    assert(a.union_prefer_right(b).union_prefer_right(c) =~= a.union_prefer_right(
        b.union_prefer_right(c),
    ));
}

/// Merging with an empty set, on either side, changes nothing.
pub proof fn merge_identity(a: Map<usize, SegmentOp>)
    ensures
        a.union_prefer_right(Map::empty()) == a,
        Map::<usize, SegmentOp>::empty().union_prefer_right(a) == a,
{
    assert(a.union_prefer_right(Map::empty()) =~= a);
    assert(Map::<usize, SegmentOp>::empty().union_prefer_right(a) =~= a);
}

/// Merging a set with itself changes nothing.
pub proof fn merge_idempotent(a: Map<usize, SegmentOp>)
    ensures
        a.union_prefer_right(a) == a,
{
    assert(a.union_prefer_right(a) =~= a);
}

/// In a merge, a segment keeps the operation of the last set that has one for it, and
/// has none if no set has one.
pub proof fn merge_all_last_wins(sets: Seq<Map<usize, SegmentOp>>, id: usize)
    ensures
        merged_all(sets).contains_key(id) <==> exists|i: int| 0 <= i < sets.len() && sets[i].contains_key(id),
        forall|i: int|
            0 <= i < sets.len() && sets[i].contains_key(id) && (forall|j: int|
                i < j < sets.len() ==> !sets[j].contains_key(id)) ==> merged_all(sets)[id]
                == sets[i][id],
    decreases sets.len(),
{
    if sets.len() > 0 {
        let rest = sets.drop_last();
        merge_all_last_wins(rest, id);
        assert forall|i: int| 0 <= i < rest.len() implies rest[i] == sets[i] by {}
        if merged_all(sets).contains_key(id) {
            if !sets.last().contains_key(id) {
                let i = choose|i: int| 0 <= i < rest.len() && rest[i].contains_key(id);
                assert(sets[i].contains_key(id));
            } else {
                assert(sets[sets.len() - 1].contains_key(id));
            }
        }
    }
}

/// The built-in filters: by kind, a segment's duration or frame count against `a` and `b`.
pub open spec fn keeps(kind: u8, a: usize, b: usize, s: Segment) -> bool {
    if kind == 0 {
        s.total_duration_cs > a
    } else if kind == 1 {
        s.total_duration_cs < a
    } else if kind == 2 {
        a <= s.total_duration_cs && s.total_duration_cs <= b
    } else if kind == 3 {
        s.spec_frame_count() > a
    } else if kind == 4 {
        s.spec_frame_count() < a
    } else {
        s.spec_frame_count() == a
    }
}

fn keep_segment(kind: u8, a: usize, b: usize, s: &Segment) -> (r: bool)
    ensures
        r == keeps(kind, a, b, *s),
{
    if kind == 0 {
        s.total_duration_cs as usize > a
    } else if kind == 1 {
        (s.total_duration_cs as usize) < a
    } else if kind == 2 {
        a <= s.total_duration_cs as usize && s.total_duration_cs as usize <= b
    } else if kind == 3 {
        s.frame_count() > a
    } else if kind == 4 {
        s.frame_count() < a
    } else {
        s.frame_count() == a
    }
}

/// Kind 0 selects every segment, kind 1 those longer than `limit` centiseconds.
pub open spec fn selected_for(kind: u8, limit: u16, s: Segment) -> bool {
    kind == 0 || s.total_duration_cs > limit
}

} // verus!
