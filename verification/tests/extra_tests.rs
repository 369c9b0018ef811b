use figif::cli::{result_duration_ms, Config, PresetConfig, Presets};
use figif::editor::{Action, EditorState};
use figif::encoders::StandardEncoder;
use figif::format::div_by_one_and_half;
use figif::hashing::FrameHash;
use figif::menu::calculate_impact_preview;
use figif::pipeline::{Analysis, Figif};
use figif::timeline::{frame_style, get_frame_operation_text, get_operation_text, get_similarity_text, segment_style, Tone};
use figif::traits::{FrameHasherExt, GifEncoderExt};
use figif::tui::OptimizeOption;
use figif::types::{EncodableFrame, EncodeConfig, FrameOp, LoopCount, RgbaImage, SegmentOp};

fn gif_bytes() -> Vec<u8> {
    let mut frames = Vec::new();
    for _ in 0..4 {
        frames.push(EncodableFrame::new(RgbaImage::from_pixel(16, 16, [255, 0, 0, 255]), 20));
    }
    for i in 0..4u32 {
        let mut data = Vec::new();
        for y in 0..16u32 {
            for x in 0..16u32 {
                let on = ((x / 4 + y / 4 + i) % 2) == 0;
                let v = if on { 255 } else { 0 };
                data.extend_from_slice(&[v, v, v, 255]);
            }
        }
        frames.push(EncodableFrame::new(RgbaImage { width: 16, height: 16, data }, 10));
    }
    StandardEncoder::new().encode(&frames, &EncodeConfig::default()).unwrap()
}

fn analysis() -> Analysis<FrameHash> {
    Figif::new().analyze_bytes(&gif_bytes()).unwrap()
}

#[test]
fn parallel_analysis_matches_serial() {
    let bytes = gif_bytes();
    let serial = Figif::new().analyze_bytes(&bytes).unwrap();
    let parallel = Figif::new().analyze_bytes_parallel(&bytes).unwrap();
    assert_eq!(serial.frames.len(), parallel.frames.len());
    for (a, b) in serial.frames.iter().zip(parallel.frames.iter()) {
        assert!(a.hash.same_bytes(&b.hash));
        assert_eq!(a.segment_id, b.segment_id);
        assert_eq!(a.distance_to_prev, b.distance_to_prev);
    }
    assert_eq!(serial.segments.len(), parallel.segments.len());
    for (a, b) in serial.segments.iter().zip(parallel.segments.iter()) {
        assert_eq!(a.frame_range, b.frame_range);
        assert_eq!(a.is_static, b.is_static);
    }
}

#[test]
fn division_by_one_and_half_matches_floats() {
    let mut values: Vec<u64> = vec![0, 1, 2, 3, 4, 5, 1000, 1001, 1500, 2999, 123_456_789];
    for k in [50u32, 51, 52, 53, 54, 55, 60, 62, 63] {
        let p = 1u64 << k;
        values.extend_from_slice(&[p - 3, p - 2, p - 1, p, p + 1, p + 2, p + 3, p + 1025, p / 3 * 2 + 1]);
    }
    values.extend_from_slice(&[u64::MAX, u64::MAX - 1, u64::MAX - 2048, 0x8000_0000_0000_0001, 13510798882111489]);
    for v in values {
        assert_eq!(div_by_one_and_half(v), (v as f64 / 1.5) as u64, "value {}", v);
    }
}

#[test]
fn impact_preview_texts() {
    let a = analysis();
    let statics: Vec<_> = a.segments.iter().filter(|s| s.is_static).collect();
    assert!(!statics.is_empty());
    let ms: u64 = statics.iter().map(|s| s.duration_ms() as u64).sum();
    let frames: usize = statics.iter().map(|s| s.frame_count()).sum();
    assert_eq!(
        calculate_impact_preview(Some(&a), OptimizeOption::RemoveAllStatic),
        format!("(−{} segs, −{}ms)", statics.len(), ms)
    );
    assert_eq!(
        calculate_impact_preview(Some(&a), OptimizeOption::CollapseStatic),
        format!("({}fr → {}fr)", frames, statics.len())
    );
    let long = statics.iter().filter(|s| s.duration_ms() > 500).count();
    assert_eq!(long, 1);
    assert_eq!(calculate_impact_preview(Some(&a), OptimizeOption::CapPauses), "(1 segs affected)");
    let total = a.total_duration_ms();
    assert_eq!(
        calculate_impact_preview(Some(&a), OptimizeOption::SpeedUpAll),
        format!("({}ms → {}ms)", total, (total as f64 / 1.5) as u64)
    );
    assert_eq!(
        calculate_impact_preview(Some(&a), OptimizeOption::SpeedUpPauses),
        format!("(−{}ms from pauses)", ms - ms / 2)
    );
    let none: Option<&Analysis<FrameHash>> = None;
    assert_eq!(calculate_impact_preview(none, OptimizeOption::SpeedUpAll), "");
}

#[test]
fn timeline_labels() {
    assert_eq!(get_operation_text(Some(SegmentOp::Remove)).0, " REMOVE ");
    assert_eq!(get_operation_text(Some(SegmentOp::Collapse { delay_cs: 25 })).0, " COLLAPSE 250ms ");
    assert_eq!(get_operation_text(Some(SegmentOp::Scale { numerator: 2, denominator: 3 })).0, " FASTER 1.5x ");
    assert_eq!(get_operation_text(Some(SegmentOp::Scale { numerator: 5, denominator: 2 })).0, " SLOWER 2.5x ");
    assert_eq!(get_operation_text(Some(SegmentOp::Scale { numerator: 0, denominator: 2 })).0, " FASTER infx ");
    assert_eq!(get_operation_text(Some(SegmentOp::SetDuration { total_cs: 7 })).0, " DURATION 70ms ");
    assert_eq!(get_operation_text(Some(SegmentOp::SetFrameDelay { delay_cs: 3 })).0, " DELAY 30ms ");
    assert_eq!(get_operation_text(None).0, "");
    assert_eq!(get_operation_text(Some(SegmentOp::Remove)).1.tone, Tone::Error);
    assert_eq!(get_frame_operation_text(Some(FrameOp::SplitAfter)).0, " SPLIT ");
    assert_eq!(get_similarity_text(None).0, "(first)");
    assert_eq!(get_similarity_text(Some(0)).0, "(identical)");
    assert_eq!(get_similarity_text(Some(2)).0, "(~identical)");
    assert_eq!(get_similarity_text(Some(5)).0, "(similar)");
    assert_eq!(get_similarity_text(Some(17)).0, "(diff:17)");
    let (glyph, style) = segment_style(true, true, false, Some(SegmentOp::Remove));
    assert_eq!(glyph, '░');
    assert!(style.dim);
    let (glyph, style) = frame_style(true, true, Some(9), Some(FrameOp::SplitAfter));
    assert_eq!(glyph, '┃');
    assert_eq!(style.tone, Tone::Selected);
    assert!(style.reversed && style.bold);
}

#[test]
fn footer_keybinds_follow_state() {
    let a = analysis();
    let mut ed = EditorState::new(5);
    assert_eq!(ed.get_context_keybinds(None), vec![("q", "quit"), ("?", "help")]);
    assert_eq!(
        ed.get_context_keybinds(Some(&a)),
        vec![("q", "quit"), ("?", "help"), ("j/k", "nav"), ("Space", "select"), ("r", "remove"), ("c", "cap")]
    );
    ed.update(Action::ToggleRemove, Some(&a));
    let binds = ed.get_context_keybinds(Some(&a));
    assert_eq!(&binds[6..], &[("x", "clear"), ("u", "undo"), ("e", "export")]);
    assert!(ed.current_has_operation(Some(&a)));
    assert_eq!(ed.current_segment_id(Some(&a)), Some(a.segments[0].id));
    assert_eq!(ed.segment_count(Some(&a)), a.segments.len());
    assert_eq!(ed.get_preview_frame_index(Some(&a)), Some(a.segments[0].frame_range.start));
}

#[test]
fn summary_counts_operations() {
    let a = analysis();
    let mut ed = EditorState::new(5);
    ed.update(Action::SelectAll, Some(&a));
    ed.update(Action::ToggleRemove, Some(&a));
    let n = a.segments.len();
    let summary = ed.build_operation_summary(Some(&a));
    assert_eq!(summary.segments_removed, n);
    assert_eq!(summary.segments_collapsed, 0);
    assert_eq!(summary.original_frames, a.frame_count());
    assert_eq!(summary.result_frames, 0);
    assert_eq!(summary.result_duration_ms, 0);
    let stats = ed.get_preview_stats(Some(&a)).unwrap();
    assert_eq!(stats.original_duration, a.total_duration_ms());
    ed.operations.insert(a.segments[0].id, SegmentOp::Collapse { delay_cs: 5 });
    ed.operations.insert(99, SegmentOp::Scale { numerator: 1, denominator: 2 });
    let summary = ed.build_operation_summary(None);
    assert_eq!(summary.segments_removed, n - 1);
    assert_eq!(summary.segments_collapsed, 1);
    assert_eq!(summary.segments_scaled, 1);
    assert_eq!(summary.original_frames, 0);
}

#[test]
fn presets_and_config() {
    let p = Presets::with_defaults();
    assert_eq!(p.fast.cap_pauses, Some(200));
    assert_eq!(p.balanced.speed_up_pauses, Some((3, 2)));
    assert_eq!(p.aggressive.collapse_pauses, Some(100));
    let mut config = Config::default();
    assert_eq!(config.defaults.hasher, "dhash");
    assert_eq!(config.presets.fast, PresetConfig::default());
    config.presets = p;
    assert_eq!(config.get_preset("FAST").unwrap().cap_pauses, Some(200));
    assert_eq!(config.get_preset("Balanced").unwrap().cap_pauses, Some(300));
    assert!(config.get_preset("aggressive").is_some());
    assert!(config.get_preset("fastest").is_none());
}

#[test]
fn result_duration_sums_delays() {
    let frames = vec![
        EncodableFrame::new(RgbaImage::new(1, 1), 10),
        EncodableFrame::new(RgbaImage::new(1, 1), 25),
    ];
    assert_eq!(result_duration_ms(&frames), 350);
    assert_eq!(result_duration_ms(&[]), 0);
}

#[test]
fn hash_distance_is_symmetric() {
    let a = FrameHash::from_bytes(vec![0b1010_1010, 0xff, 0x00]);
    let b = FrameHash::from_bytes(vec![0b0101_0101, 0x0f]);
    assert_eq!(a.dist(&b), 12);
    assert_eq!(b.dist(&a), 12);
    assert_eq!(a.dist(&a), 0);
}

#[test]
fn loop_count_round_trips() {
    for l in [LoopCount::Infinite, LoopCount::Once, LoopCount::Finite(3)] {
        assert_eq!(LoopCount::from_repeat(l.to_repeat()), l);
    }
    assert_eq!(LoopCount::from_repeat(LoopCount::Finite(0).to_repeat()), LoopCount::Once);
}

#[test]
fn selection_and_navigation_undo_themselves() {
    let a = analysis();
    let mut ed = EditorState::new(5);
    ed.update(Action::ToggleSelected, Some(&a));
    assert_eq!(ed.selected_segments.len(), 1);
    ed.update(Action::ToggleSelected, Some(&a));
    assert!(ed.selected_segments.is_empty());
    assert!(a.segments.len() >= 2);
    ed.update(Action::NextSegment, Some(&a));
    ed.update(Action::PrevSegment, Some(&a));
    assert_eq!(ed.selected_segment, 0);
}

#[test]
fn encoder_and_hasher_conveniences() {
    let enc = StandardEncoder::new();
    assert!(enc.can_encode(&EncodeConfig::default()));
    assert!(!enc.can_encode(&EncodeConfig::default().with_lossy_quality(80)));
    let frames = vec![EncodableFrame::new(RgbaImage::from_pixel(4, 4, [1, 2, 3, 255]), 5)];
    let bytes = enc.encode_default(&frames).unwrap();
    assert_eq!(&bytes[0..6], b"GIF89a");
    let h = figif::hashers::DHasher::new();
    let red = RgbaImage::from_pixel(16, 16, [255, 0, 0, 255]);
    let blue = RgbaImage::from_pixel(16, 16, [0, 0, 255, 255]);
    let hashes = h.hash_frames(&[red.clone(), blue.clone()]);
    assert_eq!(hashes.len(), 2);
    assert!(h.are_duplicates(&red, &red));
}

#[test]
fn target_duration_shortens_pauses_only() {
    let a = analysis();
    let total = a.total_duration_ms();
    let ops = a.target_duration(total - 300).unwrap();
    assert!(!ops.is_empty());
    for id in ops.keys() {
        let s = a.segments.iter().find(|s| s.id == *id).unwrap();
        assert!(s.is_static);
    }
    assert!(a.target_duration(total).unwrap().is_empty());
    assert!(a.target_duration(0).is_none());
}
