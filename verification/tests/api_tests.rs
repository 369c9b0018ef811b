use figif::decoders::{composite_frames, BufferedDecoder, RawFrame, StreamingDecoder};
use figif::error::FigifError;
use figif::quantize::compute_delta_frame;
use figif::encoders::{ResizeFilter, StandardEncoder};
use figif::hashers::BlockHasher;
use figif::hashing::FrameHash;
use figif::traits::FrameHasher;
use figif::pipeline::{Analysis, Figif};
use figif::segment::{dry_run_segment_operations, suggest_compression_ops, SegmentStats};
use figif::types::{
    AnalyzedFrame, DecodedFrame, DisposalMethod, EncodableFrame, EncodeConfig, FrameOp, FrameOps, LoopCount,
    RgbaImage, Segment, SegmentOp, SegmentOps,
};
use std::ops::Range;

fn seg(id: usize, start: usize, end: usize, duration_cs: u16, is_static: bool) -> Segment {
    Segment {
        id,
        frame_range: Range { start, end },
        total_duration_cs: duration_cs,
        distance_total: if is_static { 0 } else { 3 * (end - start - 1) as u128 },
        distance_count: (end - start - 1) as u64,
        is_static,
    }
}

fn plain_frames(n: usize, delay: u16) -> Vec<AnalyzedFrame<()>> {
    (0..n)
        .map(|i| {
            AnalyzedFrame::new(
                DecodedFrame {
                    index: i,
                    image: RgbaImage::new(1, 1),
                    delay_centiseconds: delay,
                    disposal: DisposalMethod::Keep,
                    left: 0,
                    top: 0,
                },
                (),
            )
        })
        .collect()
}

/// Four identical red frames of 200ms, then four checkerboard frames of 100ms.
fn analysis() -> Analysis<FrameHash> {
    let mut frames = Vec::new();
    for _ in 0..4 {
        frames.push(EncodableFrame::new(RgbaImage::from_pixel(16, 16, [255, 0, 0, 255]), 20));
    }
    for i in 0..4u32 {
        let mut data = Vec::new();
        for y in 0..16u32 {
            for x in 0..16u32 {
                let on = ((x / 4 + y / 4 + i) % 2) == 0;
                let v = if on { 255 } else { 0 };
                data.extend_from_slice(&[v, v, v, 255]);
            }
        }
        frames.push(EncodableFrame::new(RgbaImage { width: 16, height: 16, data }, 10));
    }
    let bytes = StandardEncoder::new().encode(&frames, &EncodeConfig::default()).unwrap();
    Figif::new().analyze_bytes(&bytes).unwrap()
}

#[test]
fn average_distance_as_fraction() {
    let single = seg(0, 0, 1, 10, true);
    assert_eq!(single.avg_distance(), (0, 1));
    let moving = seg(1, 1, 5, 40, false);
    assert_eq!(moving.avg_distance(), (9, 3));
}

#[test]
fn average_segment_duration_as_fraction() {
    let segments = vec![seg(0, 0, 5, 50, true), seg(1, 5, 10, 100, false)];
    let stats = SegmentStats::from_segments(&segments);
    assert_eq!(stats.avg_duration_cs(), (150, 2));
    assert_eq!(stats.static_segments, 1);
}

#[test]
fn dry_run_counts_frames_and_duration() {
    let frames = plain_frames(10, 10);
    let segments = vec![seg(0, 0, 5, 50, true), seg(1, 5, 10, 50, false)];
    let mut ops = SegmentOps::new();
    ops.insert(0, SegmentOp::Collapse { delay_cs: 30 });
    assert_eq!(dry_run_segment_operations(&frames, &segments, &ops), (6, 80));
    ops.insert(1, SegmentOp::Remove);
    assert_eq!(dry_run_segment_operations(&frames, &segments, &ops), (1, 30));
    let none = SegmentOps::new();
    assert_eq!(dry_run_segment_operations(&frames, &segments, &none), (10, 100));
}

#[test]
fn compression_suggestions_target_long_pauses() {
    let segments = vec![
        seg(0, 0, 5, 300, true),
        seg(1, 5, 10, 300, false),
        seg(2, 10, 12, 150, true),
        seg(3, 12, 14, 50, true),
    ];
    let ops = suggest_compression_ops(&segments, 1, 2, 100);
    assert_eq!(ops.len(), 2);
    assert_eq!(ops.get(&0), Some(&SegmentOp::Collapse { delay_cs: 100 }));
    assert_eq!(ops.get(&2), Some(&SegmentOp::Collapse { delay_cs: 75 }));
}

#[test]
fn compositing_draws_and_disposes() {
    let red = RawFrame {
        delay: 5,
        disposal: DisposalMethod::Keep,
        left: 0,
        top: 0,
        width: 2,
        height: 1,
        buffer: vec![255, 0, 0, 255, 255, 0, 0, 255],
    };
    let blue = RawFrame {
        delay: 6,
        disposal: DisposalMethod::Background,
        left: 1,
        top: 0,
        width: 1,
        height: 1,
        buffer: vec![0, 0, 255, 255],
    };
    let clear = RawFrame {
        delay: 7,
        disposal: DisposalMethod::Keep,
        left: 0,
        top: 0,
        width: 1,
        height: 1,
        buffer: vec![9, 9, 9, 0],
    };
    let out = composite_frames(2, 1, &[red, blue, clear]);
    assert_eq!(out.len(), 3);
    assert_eq!(out[0].image.data, vec![255, 0, 0, 255, 255, 0, 0, 255]);
    assert_eq!(out[1].image.data, vec![255, 0, 0, 255, 0, 0, 255, 255]);
    // The blue frame's rectangle was cleared; a fully transparent pixel draws nothing.
    assert_eq!(out[2].image.data, vec![255, 0, 0, 255, 0, 0, 0, 0]);
    assert_eq!(out[1].delay_centiseconds, 6);
    assert_eq!(out[2].index, 2);
    assert_eq!(out[2].image.as_raw(), &out[2].image.data);
}

#[test]
fn pause_operation_builders() {
    let a = analysis();
    let statics: Vec<usize> = a.segments.iter().filter(|s| s.is_static).map(|s| s.id).collect();
    assert!(!statics.is_empty());

    let collapse = a.collapse_all_pauses(250);
    assert_eq!(collapse.len(), statics.len());
    for id in &statics {
        assert_eq!(collapse.get(id), Some(&SegmentOp::Collapse { delay_cs: 25 }));
    }

    let removals = a.remove_long_pauses(800);
    for s in &a.segments {
        let expected = s.is_static && s.total_duration_cs >= 80;
        assert_eq!(removals.contains_key(&s.id), expected);
    }
    assert_eq!(a.remove_long_pauses(60_000).len(), 0);
}

#[test]
fn merging_operation_sets_lets_later_sets_win() {
    let mut first = SegmentOps::new();
    first.insert(0, SegmentOp::Remove);
    first.insert(1, SegmentOp::Keep);
    let mut second = SegmentOps::new();
    second.insert(1, SegmentOp::Collapse { delay_cs: 5 });
    let merged = Analysis::<FrameHash>::merge_ops(&[first, second]);
    assert_eq!(merged.len(), 2);
    assert_eq!(merged.get(&0), Some(&SegmentOp::Remove));
    assert_eq!(merged.get(&1), Some(&SegmentOp::Collapse { delay_cs: 5 }));
    assert_eq!(Analysis::<FrameHash>::merge_ops(&[]).len(), 0);
}

#[test]
fn selectors_by_id_and_frame_range() {
    let a = analysis();
    let n = a.segments.len();
    assert_eq!(a.segments_by_id(&[0]).count(), 1);
    assert_eq!(a.segments_by_id(&[n + 5]).count(), 0);
    assert_eq!(a.frames_range(0..1).count(), 1);
    assert_eq!(a.frames_range(0..a.frames.len()).count(), n);
    assert_eq!(a.frames_range(0..0).count(), 0);

    let first_len = a.segments[0].frame_count();
    let short = a.all().frames_lt(first_len);
    assert!(short.segments().iter().all(|s| s.frame_count() < first_len));

    let delays = a.segments_by_id(&[0]).set_frame_delay(70);
    assert_eq!(delays.get(&0), Some(&SegmentOp::SetFrameDelay { delay_cs: 7 }));
    let slower = a.segments_by_id(&[0]).slow_down(2, 1);
    assert_eq!(slower.get(&0), Some(&SegmentOp::Scale { numerator: 2, denominator: 1 }));
}

#[test]
fn encodable_frames_keep_delays() {
    let a = analysis();
    let frames = a.as_encodable();
    assert_eq!(frames.len(), a.frames.len());
    for (e, f) in frames.iter().zip(a.frames.iter()) {
        assert_eq!(e.delay_centiseconds, f.frame.delay_centiseconds);
        assert_eq!(e.image.data, f.frame.image.data);
    }
}

#[test]
fn splitting_an_analysis_at_a_frame() {
    let a = analysis();
    let first = &a.segments[0];
    assert!(first.frame_count() >= 2);
    let mut frame_ops = FrameOps::new();
    frame_ops.insert((first.id, first.frame_range.start), FrameOp::SplitAfter);
    let split = a.split_segments(&frame_ops);
    assert_eq!(split.segments.len(), a.segments.len() + 1);
    assert_eq!(split.segments[0].frame_range, first.frame_range.start..first.frame_range.start + 1);
    assert_eq!(split.frames.len(), a.frames.len());
    assert_eq!(split.frames[0].segment_id, Some(0));
    assert_eq!(split.frames[1].segment_id, Some(1));
}

#[test]
fn builders_set_what_they_name() {
    let frame = DecodedFrame {
        index: 3,
        image: RgbaImage::new(1, 1),
        delay_centiseconds: 4,
        disposal: DisposalMethod::Background,
        left: 0,
        top: 0,
    };
    let f = AnalyzedFrame::with_distance(frame, 7u8, Some(12));
    assert_eq!(f.distance_to_prev, Some(12));
    assert_eq!(f.hash, 7);
    assert_eq!(f.segment_id, None);

    let config = EncodeConfig::default().with_loop_count(LoopCount::Finite(3));
    assert_eq!(config.loop_count, LoopCount::Finite(3));
    assert_eq!(config.width, None);

    let encoder = StandardEncoder::new().with_resize_filter(ResizeFilter::Nearest);
    let bytes = encoder
        .encode(
            &[EncodableFrame::new(RgbaImage::from_pixel(4, 4, [0, 255, 0, 255]), 10)],
            &EncodeConfig::default().with_size(2, 2),
        )
        .unwrap();
    let a = Figif::new().analyze_bytes(&bytes).unwrap();
    assert_eq!((a.metadata.width, a.metadata.height), (2, 2));
}

#[test]
fn no_operations_keep_every_frame() {
    let a = analysis();
    let kept = a.apply_operations(&SegmentOps::new());
    let plain = a.as_encodable();
    assert_eq!(kept.len(), plain.len());
    for (k, p) in kept.iter().zip(plain.iter()) {
        assert_eq!(k.delay_centiseconds, p.delay_centiseconds);
        assert_eq!(k.image.data, p.image.data);
    }
}

fn two_frame_gif(loop_count: LoopCount) -> Vec<u8> {
    let frames = vec![
        EncodableFrame::new(RgbaImage::from_pixel(16, 16, [255, 0, 0, 255]), 20),
        EncodableFrame::new(RgbaImage::from_pixel(16, 16, [0, 0, 255, 255]), 30),
    ];
    StandardEncoder::new().encode(&frames, &EncodeConfig::default().with_loop_count(loop_count)).unwrap()
}

#[test]
fn encoded_bytes_have_header_repetition_and_trailer() {
    let bytes = two_frame_gif(LoopCount::Infinite);
    assert_eq!(&bytes[..13], &[0x47, 0x49, 0x46, 0x38, 0x39, 0x61, 16, 0, 16, 0, 0x80, 0, 0]);
    assert_eq!(&bytes[13..19], &[0, 0, 0, 0, 0, 0]);
    assert_eq!(&bytes[19..22], &[0x21, 0xFF, 11]);
    assert_eq!(&bytes[22..33], b"NETSCAPE2.0");
    assert_eq!(&bytes[33..38], &[3, 1, 0, 0, 0]);
    assert_eq!(bytes[38], 0x21);
    assert_eq!(bytes[39], 0xF9);
    assert_eq!(*bytes.last().unwrap(), 0x3B);

    let once = two_frame_gif(LoopCount::Once);
    assert_eq!(&once[19..21], &[0x21, 0xF9]);
    let thrice = two_frame_gif(LoopCount::Finite(3));
    assert_eq!(&thrice[33..38], &[3, 1, 3, 0, 0]);
}

#[test]
fn memory_limit_decides_invalid_config() {
    let bytes = two_frame_gif(LoopCount::Infinite);
    // Two RGBA frames of a 16x16 screen take 2048 bytes.
    let ok = BufferedDecoder::new().with_memory_limit(2048).decode_bytes(&bytes).unwrap();
    assert_eq!(ok.len(), 2);
    assert!(matches!(
        BufferedDecoder::new().with_memory_limit(2047).decode_bytes(&bytes),
        Err(FigifError::InvalidConfig { .. })
    ));
    assert!(matches!(BufferedDecoder::new().decode_bytes(&[1, 2, 3]), Err(FigifError::DecodeError { .. })));
    assert!(matches!(BufferedDecoder::new().decode_bytes(&[]), Err(FigifError::EmptyData)));
}

#[test]
fn decoded_frames_are_what_was_encoded() {
    let bytes = two_frame_gif(LoopCount::Infinite);
    let frames = BufferedDecoder::new().decode_bytes(&bytes).unwrap();
    assert_eq!(frames[0].delay_centiseconds, 20);
    assert_eq!(frames[1].delay_centiseconds, 30);
    assert_eq!(frames[0].image.data, RgbaImage::from_pixel(16, 16, [255, 0, 0, 255]).data);
    assert_eq!(frames[1].image.data, RgbaImage::from_pixel(16, 16, [0, 0, 255, 255]).data);

    let mut stream = StreamingDecoder::new().decode_bytes(&bytes).unwrap();
    let mut streamed = Vec::new();
    while let Some(frame) = stream.next_frame() {
        streamed.push(frame.unwrap());
    }
    assert_eq!(streamed.len(), frames.len());
    for (a, b) in streamed.iter().zip(frames.iter()) {
        assert_eq!(a.image.data, b.image.data);
        assert_eq!(a.delay_centiseconds, b.delay_centiseconds);
    }
}

#[test]
fn metadata_comes_from_the_gif() {
    let bytes = two_frame_gif(LoopCount::Infinite);
    let m = BufferedDecoder::new().metadata_from_bytes(&bytes).unwrap();
    assert_eq!((m.width, m.height, m.frame_count, m.total_duration_ms), (16, 16, 2, 500));
    let s = StreamingDecoder::new().metadata_from_bytes(&bytes).unwrap();
    assert_eq!((s.width, s.height, s.frame_count, s.total_duration_ms), (16, 16, 2, 500));
}

#[test]
fn empty_images_have_no_delta() {
    let a = RgbaImage::new(0, 0);
    let b = RgbaImage::new(0, 0);
    assert!(compute_delta_frame(&a, &b, 5).is_none());
    let frames = vec![EncodableFrame::new(RgbaImage::new(0, 0), 5), EncodableFrame::new(RgbaImage::new(0, 0), 5)];
    assert!(StandardEncoder::new().encode(&frames, &EncodeConfig::default()).is_ok());
}

#[test]
fn dry_run_predicts_applied_output() {
    let a = analysis();
    let mut ops = SegmentOps::new();
    ops.insert(0, SegmentOp::Collapse { delay_cs: 7 });
    let mut frame_ops = FrameOps::new();
    let last = a.segments.last().unwrap();
    frame_ops.insert((last.id, last.frame_range.start), FrameOp::Remove);
    let out = a.apply_all_operations(&ops, &frame_ops);
    let (count, ms) = a.calculate_impact(&ops, &frame_ops);
    assert_eq!(count, out.len());
    assert_eq!(ms, out.iter().map(|f| f.delay_centiseconds as u64).sum::<u64>() * 10);
}

#[test]
fn blockhash_hashes_empty_frames() {
    let hasher = BlockHasher::new();
    let empty = RgbaImage::new(0, 0);
    assert!(hasher.can_hash(&empty));
    let a = hasher.hash_frame(&empty);
    let b = hasher.hash_frame(&empty);
    assert_eq!(hasher.distance(&a, &b), 0);
}
