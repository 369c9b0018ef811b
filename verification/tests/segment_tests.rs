use figif::segment::{find_longest_segment, find_pause_segments, split_segments_at_points, SegmentStats};
use figif::types::{AnalyzedFrame, DecodedFrame, DisposalMethod, FrameOp, FrameOps, RgbaImage, Segment};
use std::ops::Range;

fn seg(id: usize, start: usize, end: usize, duration_cs: u16, is_static: bool) -> Segment {
    Segment {
        id,
        frame_range: Range { start, end },
        total_duration_cs: duration_cs,
        distance_total: if is_static { 0 } else { 2 * (end - start - 1) as u128 },
        distance_count: (end - start - 1) as u64,
        is_static,
    }
}

#[test]
fn test_segment_stats_empty() {
    let stats = SegmentStats::from_segments(&[]);
    assert_eq!(stats.total_segments, 0);
    assert_eq!(stats.total_frames, 0);
}

#[test]
fn test_find_pause_segments() {
    let segments = vec![seg(0, 0, 5, 50, true), seg(1, 5, 10, 100, false), seg(2, 10, 15, 200, true)];

    let pauses = find_pause_segments(&segments, 100);
    assert_eq!(pauses, vec![2]);
}

#[test]
fn test_split_segments_at_points() {
    let frames: Vec<AnalyzedFrame<()>> = (0..10)
        .map(|i| {
            AnalyzedFrame::new(
                DecodedFrame {
                    index: i,
                    image: RgbaImage::new(1, 1),
                    delay_centiseconds: 10,
                    disposal: DisposalMethod::Keep,
                    left: 0,
                    top: 0,
                },
                (),
            )
        })
        .collect();

    let segments = vec![seg(0, 0, 10, 100, true)];

    let mut frame_ops = FrameOps::new();
    // Split after frame 2 (making a 3-frame segment and a 7-frame segment)
    frame_ops.insert((0, 2), FrameOp::SplitAfter);

    let (new_frames, new_segments) = split_segments_at_points(&frames, &segments, &frame_ops);

    assert_eq!(new_segments.len(), 2);
    assert_eq!(new_segments[0].id, 0);
    assert_eq!(new_segments[0].frame_range, 0..3);
    assert_eq!(new_segments[0].total_duration_cs, 30);

    assert_eq!(new_segments[1].id, 1);
    assert_eq!(new_segments[1].frame_range, 3..10);
    assert_eq!(new_segments[1].total_duration_cs, 70);

    // Verify frame assignments
    assert_eq!(new_frames[0].segment_id, Some(0));
    assert_eq!(new_frames[2].segment_id, Some(0));
    assert_eq!(new_frames[3].segment_id, Some(1));
    assert_eq!(new_frames[9].segment_id, Some(1));
}

#[test]
fn segment_stats_counts() {
    let segments = vec![seg(0, 0, 5, 50, true), seg(1, 5, 10, 100, false), seg(2, 10, 15, 200, true)];
    let stats = SegmentStats::from_segments(&segments);
    assert_eq!(stats.total_segments, 3);
    assert_eq!(stats.static_segments, 2);
    assert_eq!(stats.total_frames, 15);
    assert_eq!(stats.total_duration_cs, 350);
    assert_eq!(stats.total_duration_ms(), 3500);
    assert_eq!(stats.avg_frames_per_segment(), (15, 3));
}

#[test]
fn longest_segment_is_last_of_the_longest() {
    let segments = vec![seg(0, 0, 5, 200, true), seg(1, 5, 10, 100, false), seg(2, 10, 15, 200, true)];
    let longest = find_longest_segment(&segments).unwrap();
    assert_eq!(longest.total_duration_cs, 200);
    assert_eq!(longest.id, 2);
    let none: &[Segment] = &[];
    assert!(find_longest_segment(none).is_none());
}

#[test]
fn pause_ids_include_the_threshold() {
    let segments = vec![seg(0, 0, 5, 100, true), seg(1, 5, 10, 100, false), seg(2, 10, 15, 99, true)];
    assert_eq!(find_pause_segments(&segments, 100), vec![0]);
    assert_eq!(find_pause_segments(&segments, 0), vec![0, 2]);
}

#[test]
fn split_without_points_keeps_segments() {
    let frames: Vec<AnalyzedFrame<()>> = (0..4)
        .map(|i| {
            AnalyzedFrame::new(
                DecodedFrame {
                    index: i,
                    image: RgbaImage::new(1, 1),
                    delay_centiseconds: 5,
                    disposal: DisposalMethod::Keep,
                    left: 0,
                    top: 0,
                },
                (),
            )
        })
        .collect();
    let segments = vec![seg(0, 0, 2, 10, true), seg(1, 2, 4, 10, true)];
    let (new_frames, new_segments) = split_segments_at_points(&frames, &segments, &FrameOps::new());
    assert_eq!(new_segments.len(), 2);
    assert_eq!(new_segments[1].frame_range, 2..4);
    assert_eq!(new_frames[3].segment_id, Some(1));
}
