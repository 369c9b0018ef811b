use figif::selector::{SegmentOpsExt, SegmentSelector};
use figif::types::{Segment, SegmentOp, SegmentOps};
use std::ops::Range;

fn make_segment(id: usize, duration_cs: u16, frames: usize, is_static: bool) -> Segment {
    Segment {
        id,
        frame_range: Range { start: 0, end: frames },
        total_duration_cs: duration_cs,
        distance_total: if is_static { 0 } else { 5 * (frames as u128 - 1) },
        distance_count: frames as u64 - 1,
        is_static,
    }
}

#[test]
fn test_filter_longer_than() {
    let segments = [make_segment(0, 100, 10, true), make_segment(1, 50, 5, true), make_segment(2, 200, 20, true)];
    let refs: Vec<_> = segments.iter().collect();
    let selector = SegmentSelector::new(refs);

    let filtered = selector.longer_than(600); // 60cs = 600ms
    assert_eq!(filtered.count(), 2);
}

#[test]
fn test_cap_operation() {
    let segments = [
        make_segment(0, 100, 10, true), // 1000ms
        make_segment(1, 50, 5, true),   // 500ms
        make_segment(2, 200, 20, true), // 2000ms
    ];
    let refs: Vec<_> = segments.iter().collect();
    let selector = SegmentSelector::new(refs);

    let ops = selector.cap(800); // Cap to 800ms

    // Only segments 0 and 2 should be capped
    assert_eq!(ops.len(), 2);
    assert!(matches!(ops.get(&0), Some(SegmentOp::Collapse { delay_cs: 80 })));
    assert!(matches!(ops.get(&2), Some(SegmentOp::Collapse { delay_cs: 80 })));
}

#[test]
fn test_merge_ops() {
    let mut ops1 = SegmentOps::new();
    ops1.insert(0, SegmentOp::Keep);
    ops1.insert(1, SegmentOp::Remove);

    let mut ops2 = SegmentOps::new();
    ops2.insert(1, SegmentOp::Collapse { delay_cs: 50 }); // Override
    ops2.insert(2, SegmentOp::Remove);

    let merged = ops1.merge(&ops2);

    assert_eq!(merged.len(), 3);
    assert!(matches!(merged.get(&0), Some(SegmentOp::Keep)));
    assert!(matches!(merged.get(&1), Some(SegmentOp::Collapse { delay_cs: 50 })));
    assert!(matches!(merged.get(&2), Some(SegmentOp::Remove)));
}

#[test]
fn merge_identity_and_idempotence_on_values() {
    let mut a = SegmentOps::new();
    a.insert(3, SegmentOp::Remove);
    a.insert(4, SegmentOp::Scale { numerator: 1, denominator: 2 });
    let empty = SegmentOps::new();
    assert_eq!(a.merge(&empty), a);
    assert_eq!(empty.merge(&a), a);
    assert_eq!(a.merge(&a), a);
}

#[test]
fn merge_is_associative_on_values() {
    let mut a = SegmentOps::new();
    a.insert(0, SegmentOp::Keep);
    a.insert(1, SegmentOp::Remove);
    let mut b = SegmentOps::new();
    b.insert(1, SegmentOp::Collapse { delay_cs: 10 });
    b.insert(2, SegmentOp::Remove);
    let mut c = SegmentOps::new();
    c.insert(2, SegmentOp::Keep);
    c.insert(0, SegmentOp::SetDuration { total_cs: 7 });
    assert_eq!(a.merge(&b).merge(&c), a.merge(&b.merge(&c)));
}

#[test]
fn merge_all_last_wins() {
    let mut a = SegmentOps::new();
    a.insert(5, SegmentOp::Remove);
    let mut b = SegmentOps::new();
    b.insert(5, SegmentOp::Keep);
    let merged = SegmentOps::merge_all(&[&a, &b]);
    assert_eq!(merged.get(&5), Some(&SegmentOp::Keep));
    assert_eq!(merged.len(), 1);
}

#[test]
fn selector_filters_and_ops() {
    let segments = [make_segment(0, 100, 10, true), make_segment(1, 50, 5, false), make_segment(2, 200, 20, true)];
    let sel = SegmentSelector::new(segments.iter().collect());
    assert_eq!(sel.total_duration_ms(), 3500);
    assert_eq!(sel.total_frames(), 35);
    let sel = SegmentSelector::new(segments.iter().collect());
    assert_eq!(sel.shorter_than(1000).count(), 1);
    let sel = SegmentSelector::new(segments.iter().collect());
    assert_eq!(sel.duration_between(500, 1000).count(), 2);
    let sel = SegmentSelector::new(segments.iter().collect());
    assert_eq!(sel.frames_gt(5).count(), 2);
    let sel = SegmentSelector::new(segments.iter().collect());
    assert_eq!(sel.frames_eq(5).count(), 1);
    let sel = SegmentSelector::new(segments.iter().collect());
    assert_eq!(sel.filter(|s| s.is_static).count(), 2);
    let sel = SegmentSelector::new(segments.iter().collect());
    assert_eq!(sel.skip(1).take(1).segments()[0].id, 1);
    let sel = SegmentSelector::new(segments.iter().collect());
    assert_eq!(sel.last().segments()[0].id, 2);
    let sel = SegmentSelector::new(segments.iter().collect());
    let ops = sel.speed_up(2, 1);
    assert_eq!(ops.get(&1), Some(&SegmentOp::Scale { numerator: 1, denominator: 2 }));
    let sel = SegmentSelector::new(segments.iter().collect());
    let ops = sel.set_duration(1234);
    assert_eq!(ops.get(&2), Some(&SegmentOp::SetDuration { total_cs: 123 }));
    let sel = SegmentSelector::new(segments.iter().collect());
    assert_eq!(sel.remove().len(), 3);
}
