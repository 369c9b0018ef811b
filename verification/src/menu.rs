//! What each optimization of the operations menu would do to the loaded GIF, as the menu
//! shows it next to the option.
use vstd::prelude::*;
use crate::format::{decimal, div_by_one_and_half, div_one_and_half, push_decimal};
use crate::pipeline::Analysis;
use crate::tui::OptimizeOption;
use crate::types::Segment;

verus! {

/// Whether the segment is static and lasts longer than `over_ms` (any static segment when
/// `over_ms` is negative).
pub open spec fn static_over(s: Segment, over_ms: int) -> bool {
    s.is_static && s.total_duration_cs * 10 > over_ms
}

/// How many segments are static and longer than `over_ms`.
pub open spec fn static_count(segments: Seq<Segment>, over_ms: int) -> nat
    decreases segments.len(),
{
    if segments.len() == 0 {
        0
    } else {
        static_count(segments.drop_last(), over_ms) + if static_over(segments.last(), over_ms) { 1nat } else { 0nat }
    }
}

/// The total duration (ms) of the static segments longer than `over_ms`.
pub open spec fn static_ms(segments: Seq<Segment>, over_ms: int) -> nat
    decreases segments.len(),
{
    if segments.len() == 0 {
        0
    } else {
        static_ms(segments.drop_last(), over_ms) + if static_over(segments.last(), over_ms) {
            (segments.last().total_duration_cs * 10) as nat
        } else {
            0nat
        }
    }
}

/// The number of frames of the static segments.
pub open spec fn static_frames(segments: Seq<Segment>) -> nat
    decreases segments.len(),
{
    if segments.len() == 0 {
        0
    } else {
        static_frames(segments.drop_last()) + if segments.last().is_static {
            segments.last().spec_frame_count()
        } else {
            0nat
        }
    }
}

/// The preview text of an option for a GIF with these segments and total duration.
pub open spec fn impact_text(segments: Seq<Segment>, total_ms: nat, option: OptimizeOption) -> Seq<char> {
    match option {
        OptimizeOption::RemoveAllStatic => if static_count(segments, -1) > 0 {
            "(−"@ + decimal(static_count(segments, -1)) + " segs, −"@ + decimal(static_ms(segments, -1)) + "ms)"@
        } else {
            "(no static segments)"@
        },
        OptimizeOption::RemoveStaticLong => if static_count(segments, 300) > 0 {
            "(−"@ + decimal(static_count(segments, 300)) + " segs, −"@ + decimal(static_ms(segments, 300)) + "ms)"@
        } else {
            "(none > 300ms)"@
        },
        OptimizeOption::CapPauses => if static_count(segments, 500) > 0 {
            "("@ + decimal(static_count(segments, 500)) + " segs affected)"@
        } else {
            "(none > 500ms)"@
        },
        OptimizeOption::CollapseStatic => if static_count(segments, -1) > 0 {
            "("@ + decimal(static_frames(segments)) + "fr → "@ + decimal(static_count(segments, -1)) + "fr)"@
        } else {
            "(no static segments)"@
        },
        OptimizeOption::SpeedUpAll => "("@ + decimal(total_ms) + "ms → "@ + decimal(div_one_and_half(total_ms)) + "ms)"@,
        OptimizeOption::SpeedUpPauses => {
            let d = static_ms(segments, -1);
            let saved = (d - d / 2) as nat;
            if saved > 0 {
                "(−"@ + decimal(saved) + "ms from pauses)"@
            } else {
                "(no pauses)"@
            }
        },
    }
}

/// Count, total duration (ms) and frames of the static segments longer than `over_ms`.
fn static_totals(segments: &Vec<Segment>, over_ms: i64) -> (r: (usize, u64, usize))
    requires
        static_ms(segments@, -1) <= u64::MAX,
        static_frames(segments@) <= usize::MAX,
    ensures
        r.0 == static_count(segments@, over_ms as int),
        r.1 == static_ms(segments@, over_ms as int),
        r.2 == static_frames(segments@),
{
    let mut count: usize = 0;
    let mut ms: u64 = 0;
    let mut frames: usize = 0;
    let mut i: usize = 0;
    while i < segments.len()
        invariant
            i <= segments@.len(),
            static_ms(segments@, -1) <= u64::MAX,
            static_frames(segments@) <= usize::MAX,
            count == static_count(segments@.take(i as int), over_ms as int),
            count <= i,
            ms == static_ms(segments@.take(i as int), over_ms as int),
            ms <= static_ms(segments@.take(i as int), -1),
            static_ms(segments@.take(i as int), -1) <= static_ms(segments@, -1),
            frames == static_frames(segments@.take(i as int)),
            frames <= static_frames(segments@),
        decreases segments@.len() - i,
    {
        let s = &segments[i];
        proof {
            assert(segments@.take(i + 1).drop_last() =~= segments@.take(i as int));
            lemma_static_prefix(segments@, i + 1);
            lemma_static_ms_le(segments@.take(i + 1), over_ms as int);
        }
        if s.is_static && (s.duration_ms() as i64) > over_ms {
            count = count + 1;
            ms = ms + s.duration_ms() as u64;
        }
        if s.is_static {
            frames = frames + s.frame_count();
        }
        i = i + 1;
    }
    proof {
        assert(segments@.take(i as int) =~= segments@);
    }
    (count, ms, frames)
}

/// The totals of a prefix stay below those of the whole.
proof fn lemma_static_prefix(segments: Seq<Segment>, k: int)
    requires
        0 <= k <= segments.len(),
    ensures
        static_ms(segments.take(k), -1) <= static_ms(segments, -1),
        static_frames(segments.take(k)) <= static_frames(segments),
    decreases segments.len() - k,
{
    if k < segments.len() {
        lemma_static_prefix(segments, k + 1);
        assert(segments.take(k + 1).drop_last() =~= segments.take(k));
    } else {
        assert(segments.take(k) =~= segments);
    }
}

/// Any duration bound picks less than all static segments.
proof fn lemma_static_ms_le(segments: Seq<Segment>, o: int)
    ensures
        static_ms(segments, o) <= static_ms(segments, -1),
    decreases segments.len(),
{
    if segments.len() > 0 {
        lemma_static_ms_le(segments.drop_last(), o);
    }
}

/// Append the characters of `t`.
fn push_str(s: &mut String, t: &str)
    ensures
        final(s)@ == old(s)@ + t@,
{
    s.append(t);
}

/// The preview text of an optimization option for the loaded analysis: what it would
/// remove, collapse or speed up. Empty when no analysis is loaded.
pub fn calculate_impact_preview<H>(analysis: Option<&Analysis<H>>, option: OptimizeOption) -> (r: String)
    requires
        analysis matches Some(a) ==> static_ms(a.segments@, -1) <= u64::MAX && static_frames(a.segments@) <= usize::MAX,
    ensures
        r@ == match analysis {
            Some(a) => impact_text(a.segments@, a.metadata.total_duration_ms as nat, option),
            None => Seq::<char>::empty(),
        },
{
    let a = match analysis {
        Some(a) => a,
        None => {
            return String::new();
        },
    };
    let segments = &a.segments;
    let mut s = String::new();
    match option {
        OptimizeOption::RemoveAllStatic | OptimizeOption::RemoveStaticLong => {
            let over: i64 = match option {
                OptimizeOption::RemoveAllStatic => -1,
                _ => 300,
            };
            let (count, ms, _) = static_totals(segments, over);
            if count > 0 {
                push_str(&mut s, "(−");
                push_decimal(&mut s, count as u128);
                push_str(&mut s, " segs, −");
                push_decimal(&mut s, ms as u128);
                push_str(&mut s, "ms)");
            } else {
                match option {
                    OptimizeOption::RemoveAllStatic => push_str(&mut s, "(no static segments)"),
                    _ => push_str(&mut s, "(none > 300ms)"),
                }
            }
        },
        OptimizeOption::CapPauses => {
            let (count, _, _) = static_totals(segments, 500);
            if count > 0 {
                push_str(&mut s, "(");
                push_decimal(&mut s, count as u128);
                push_str(&mut s, " segs affected)");
            } else {
                push_str(&mut s, "(none > 500ms)");
            }
        },
        OptimizeOption::CollapseStatic => {
            let (count, _, frames) = static_totals(segments, -1);
            if count > 0 {
                push_str(&mut s, "(");
                push_decimal(&mut s, frames as u128);
                push_str(&mut s, "fr → ");
                push_decimal(&mut s, count as u128);
                push_str(&mut s, "fr)");
            } else {
                push_str(&mut s, "(no static segments)");
            }
        },
        OptimizeOption::SpeedUpAll => {
            let total = a.total_duration_ms();
            push_str(&mut s, "(");
            push_decimal(&mut s, total as u128);
            push_str(&mut s, "ms → ");
            push_decimal(&mut s, div_by_one_and_half(total) as u128);
            push_str(&mut s, "ms)");
        },
        OptimizeOption::SpeedUpPauses => {
            let (_, d, _) = static_totals(segments, -1);
            let saved = d - d / 2;
            if saved > 0 {
                push_str(&mut s, "(−");
                push_decimal(&mut s, saved as u128);
                push_str(&mut s, "ms from pauses)");
            } else {
                push_str(&mut s, "(no pauses)");
            }
        },
    }
    proof {
        assert(s@ =~= impact_text(a.segments@, a.metadata.total_duration_ms as nat, option));
    }
    s
}

} // verus!
