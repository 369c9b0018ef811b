use figif::editor::{Action, Effect, EditorState, Key, KeyCode};
use figif::encoders::StandardEncoder;
use figif::hashing::FrameHash;
use figif::pipeline::{Analysis, Figif};
use figif::tui::{ExportState, HashAlgorithm, InputKind, Mode, OperationSummary, OptimizeOption, PreviewStats, ViewMode, ZoomLevel};
use figif::types::{EncodableFrame, EncodeConfig, FrameOp, RgbaImage, SegmentOp};

#[test]
fn test_option_from_key() {
    assert_eq!(OptimizeOption::from_key('1'), Some(OptimizeOption::RemoveAllStatic));
    assert_eq!(OptimizeOption::from_key('6'), Some(OptimizeOption::SpeedUpPauses));
    assert_eq!(OptimizeOption::from_key('7'), None);
}

#[test]
fn test_zoom_level_default() {
    assert_eq!(ZoomLevel::default(), ZoomLevel::Segments);
}

#[test]
fn option_keys_round_trip() {
    for option in OptimizeOption::all() {
        assert_eq!(OptimizeOption::from_key(option.key()), Some(option));
    }
    assert_eq!(OptimizeOption::all().len(), 6);
}

#[test]
fn hash_algorithm_cycles() {
    let a = HashAlgorithm::default();
    assert_eq!(a, HashAlgorithm::DHash);
    assert_eq!(a.next().next().next(), a);
    assert_eq!(a.next().name(), "pHash");
    assert_eq!(a.next().next().description(), "Balanced approach");
}

#[test]
fn input_kinds_start_with_defaults() {
    assert_eq!(InputKind::CapDuration.default_value(), "300");
    assert_eq!(InputKind::SpeedFactor.default_value(), "1.5");
    assert_eq!(InputKind::DuplicateSelection.default_value(), "s:1");
}

#[test]
fn preview_stats_saved_duration() {
    let stats = PreviewStats { original_frames: 10, original_duration: 1000, result_frames: 5, result_duration: 1500 };
    assert_eq!(stats.saved_duration(), -500);
}

#[test]
fn export_state_tracks_existence() {
    let mut st = ExportState::new("out.gif".chars().collect(), OperationSummary::default(), true);
    assert_eq!(st.cursor, 7);
    st.confirmed_overwrite = true;
    st.check_file_exists(true);
    assert!(st.confirmed_overwrite);
    st.check_file_exists(false);
    assert!(!st.file_exists);
    assert!(!st.confirmed_overwrite);
}

/// Three static red frames, then three moving ones, then three static blue frames.
fn sample_analysis() -> Analysis<FrameHash> {
    let mut frames = Vec::new();
    for _ in 0..3 {
        frames.push(EncodableFrame::new(RgbaImage::from_pixel(16, 16, [255, 0, 0, 255]), 10));
    }
    for i in 0..3u32 {
        let mut data = Vec::new();
        for y in 0..16u32 {
            for x in 0..16u32 {
                let on = ((x / 4 + y / 4 + i) % 2) == 0;
                let v = if on { 255 } else { 0 };
                data.extend_from_slice(&[v, v, v, 255]);
            }
        }
        frames.push(EncodableFrame::new(RgbaImage { width: 16, height: 16, data }, 10));
    }
    for _ in 0..3 {
        frames.push(EncodableFrame::new(RgbaImage::from_pixel(16, 16, [0, 0, 255, 255]), 20));
    }
    let bytes = StandardEncoder::new().encode(&frames, &EncodeConfig::default()).unwrap();
    Figif::new().analyze_bytes(&bytes).unwrap()
}

fn key(c: char) -> Key {
    Key { code: KeyCode::Char(c), control: false }
}

#[test]
fn navigation_stays_within_segments() {
    let analysis = sample_analysis();
    let n = analysis.segments.len();
    let mut ed = EditorState::new(5);
    for _ in 0..(n + 3) {
        ed.update(Action::NextSegment, Some(&analysis));
    }
    assert_eq!(ed.selected_segment, n - 1);
    ed.update(Action::FirstSegment, Some(&analysis));
    assert_eq!(ed.selected_segment, 0);
    let effects = ed.update(Action::PrevSegment, Some(&analysis));
    assert_eq!(ed.selected_segment, 0);
    assert!(effects.is_empty());
    // Without an analysis there is nowhere to go.
    let mut ed = EditorState::new(5);
    ed.update(Action::NextSegment, None);
    assert_eq!(ed.selected_segment, 0);
}

#[test]
fn undo_restores_operations() {
    let analysis = sample_analysis();
    let mut ed = EditorState::new(5);
    ed.update(Action::ToggleRemove, Some(&analysis));
    let before = ed.operations.clone();
    ed.update(Action::NextSegment, Some(&analysis));
    ed.update(Action::CapDuration(100), Some(&analysis));
    ed.update(Action::Undo, Some(&analysis));
    assert_eq!(ed.operations, before);
    ed.update(Action::Undo, Some(&analysis));
    assert!(ed.operations.is_empty());
}

#[test]
fn toggle_remove_twice_restores() {
    let analysis = sample_analysis();
    let mut ed = EditorState::new(5);
    ed.update(Action::SelectAll, Some(&analysis));
    ed.update(Action::ToggleRemove, Some(&analysis));
    assert_eq!(ed.operations.len(), analysis.segments.len());
    assert!(ed.operations.values().all(|op| *op == SegmentOp::Remove));
    ed.update(Action::ToggleRemove, Some(&analysis));
    assert!(ed.operations.is_empty());
}

#[test]
fn history_keeps_at_most_fifty() {
    let analysis = sample_analysis();
    let mut ed = EditorState::new(5);
    for _ in 0..60 {
        ed.update(Action::ToggleRemove, Some(&analysis));
    }
    assert_eq!(ed.history.len(), 50);
}

#[test]
fn cap_only_touches_long_segments() {
    let analysis = sample_analysis();
    let mut ed = EditorState::new(5);
    ed.update(Action::SelectAll, Some(&analysis));
    ed.update(Action::CapDuration(50), Some(&analysis));
    for s in &analysis.segments {
        if s.duration_ms() > 50 {
            assert_eq!(ed.operations.get(&s.id), Some(&SegmentOp::Collapse { delay_cs: 5 }));
        } else {
            assert!(ed.operations.get(&s.id).is_none());
        }
    }
}

#[test]
fn speed_factor_input_is_read_exactly() {
    let analysis = sample_analysis();
    let mut ed = EditorState::new(5);
    ed.update(Action::ShowInput(InputKind::SpeedFactor), Some(&analysis));
    assert_eq!(ed.input_buffer, vec!['1', '.', '5']);
    ed.update(Action::SubmitInput("2.5".chars().collect()), Some(&analysis));
    assert!(matches!(ed.mode, Mode::Normal));
    let id = analysis.segments[0].id;
    assert_eq!(ed.operations.get(&id), Some(&SegmentOp::Scale { numerator: 10, denominator: 25 }));
    // Unreadable and zero factors do nothing.
    let mut ed = EditorState::new(5);
    ed.update(Action::ShowInput(InputKind::SpeedFactor), Some(&analysis));
    ed.update(Action::SubmitInput("0".chars().collect()), Some(&analysis));
    assert!(ed.operations.is_empty());
}

#[test]
fn cap_input_parses_milliseconds() {
    let analysis = sample_analysis();
    let mut ed = EditorState::new(5);
    ed.update(Action::ShowInput(InputKind::CapDuration), Some(&analysis));
    ed.update(Action::SubmitInput("abc".chars().collect()), Some(&analysis));
    assert!(ed.operations.is_empty());
    assert!(ed.history.is_empty());
    ed.update(Action::ShowInput(InputKind::CollapseDuration), Some(&analysis));
    ed.update(Action::SubmitInput("250".chars().collect()), Some(&analysis));
    let id = analysis.segments[0].id;
    assert_eq!(ed.operations.get(&id), Some(&SegmentOp::Collapse { delay_cs: 25 }));
}

#[test]
fn frame_view_duplicates_and_frame_ops() {
    let analysis = sample_analysis();
    let mut ed = EditorState::new(5);
    ed.update(Action::EnterFrameView, Some(&analysis));
    let seg = analysis.segments[0].clone();
    assert_eq!(ed.view_mode, ViewMode::Frames { segment_id: seg.id });
    ed.update(Action::SelectDuplicateFrames, Some(&analysis));
    assert_eq!(ed.selected_frames.len(), seg.frame_count());
    ed.update(Action::DeselectAllFrames, Some(&analysis));
    // Keep the first duplicate out.
    ed.mode = Mode::Input(InputKind::DuplicateSelection);
    ed.update(Action::SubmitInput("s:1".chars().collect()), Some(&analysis));
    assert_eq!(ed.selected_frames.len(), seg.frame_count() - 1);
    assert!(!ed.selected_frames.contains(&0));
    // Keeping more than there are selects nothing.
    ed.update(Action::DeselectAllFrames, Some(&analysis));
    ed.mode = Mode::Input(InputKind::DuplicateSelection);
    ed.update(Action::SubmitInput("b:9".chars().collect()), Some(&analysis));
    assert!(ed.selected_frames.is_empty());
    ed.update(Action::ToggleRemoveFrame, Some(&analysis));
    assert_eq!(ed.frame_operations.get(&(seg.id, 0)), Some(&FrameOp::Remove));
    ed.update(Action::ToggleRemoveFrame, Some(&analysis));
    assert!(ed.frame_operations.is_empty());
    assert_eq!(ed.frame_history.len(), 2);
    ed.update(Action::ExitFrameView, Some(&analysis));
    assert_eq!(ed.view_mode, ViewMode::Segments);
}

#[test]
fn preview_frames_wrap_around() {
    let analysis = sample_analysis();
    let mut ed = EditorState::new(5);
    let n = analysis.segments[0].frame_count();
    assert!(n > 1);
    let effects = ed.update(Action::PrevFrame, Some(&analysis));
    assert_eq!(ed.preview_frame_index, n - 1);
    assert!(matches!(effects.as_slice(), [Effect::RefreshPreview]));
    ed.update(Action::NextFrame, Some(&analysis));
    assert_eq!(ed.preview_frame_index, 0);
    ed.update(Action::Tick, Some(&analysis));
    assert_eq!(ed.preview_frame_index, 0);
    ed.update(Action::TogglePlayback, Some(&analysis));
    ed.update(Action::Tick, Some(&analysis));
    assert_eq!(ed.preview_frame_index, 1);
}

#[test]
fn export_dialog_flow() {
    let analysis = sample_analysis();
    let mut ed = EditorState::new(5);
    assert!(ed.update(Action::ShowExport, Some(&analysis)).is_empty());
    ed.update(Action::ToggleRemove, Some(&analysis));
    let effects = ed.update(Action::ShowExport, Some(&analysis));
    assert!(matches!(effects.as_slice(), [Effect::OpenExport]));
    ed.open_export("a.gif".chars().collect(), OperationSummary::default(), true);
    // Editing the path asks for a new existence check.
    let (action, changed) = ed.handle_key(key('b'));
    assert!(action.is_none());
    assert!(changed);
    ed.recheck_export(true);
    match &ed.mode {
        Mode::Export(st) => {
            assert_eq!(st.path, "a.gifb".chars().collect::<Vec<char>>());
            assert_eq!(st.cursor, 6);
        },
        _ => panic!("export dialog closed"),
    }
    let (action, _) = ed.handle_key(Key { code: KeyCode::Enter, control: false });
    let effects = ed.update(action.unwrap(), Some(&analysis));
    assert!(effects.is_empty());
    let (action, _) = ed.handle_key(Key { code: KeyCode::Enter, control: false });
    let effects = ed.update(action.unwrap(), Some(&analysis));
    match effects.as_slice() {
        [Effect::Export(p)] => assert_eq!(*p, "a.gifb".chars().collect::<Vec<char>>()),
        _ => panic!("no export"),
    }
    assert!(matches!(ed.mode, Mode::Normal));
    ed.report_export(Ok("x".chars().collect()));
    assert_eq!(ed.success, Some("Exported to x".chars().collect()));
}

#[test]
fn keys_map_to_actions() {
    let mut ed = EditorState::new(5);
    assert!(matches!(ed.handle_key(key('q')).0, Some(Action::Quit)));
    assert!(matches!(ed.handle_key(key('c')).0, Some(Action::ShowInput(InputKind::CapDuration))));
    assert!(matches!(ed.handle_key(Key { code: KeyCode::Right, control: false }).0, Some(Action::NextSegment)));
    ed.view_mode = ViewMode::Frames { segment_id: 0 };
    assert!(matches!(ed.handle_key(Key { code: KeyCode::Char('d'), control: true }).0, Some(Action::ShowInput(InputKind::DuplicateSelection))));
    assert!(matches!(ed.handle_key(key('d')).0, Some(Action::SelectDuplicateFrames)));
    ed.mode = Mode::Input(InputKind::CapDuration);
    ed.handle_key(key('4'));
    ed.handle_key(key('x'));
    ed.handle_key(key('2'));
    assert_eq!(ed.input_buffer, vec!['4', '2']);
    match ed.handle_key(Key { code: KeyCode::Enter, control: false }).0 {
        Some(Action::SubmitInput(s)) => assert_eq!(s, vec!['4', '2']),
        _ => panic!("no submission"),
    }
    assert!(ed.input_buffer.is_empty());
    ed.mode = Mode::OperationsMenu;
    assert!(matches!(ed.handle_key(key('3')).0, Some(Action::ApplyOptimization(OptimizeOption::CapPauses))));
    assert!(ed.handle_key(key('9')).0.is_none());
}

#[test]
fn apply_optimization_and_messages() {
    let analysis = sample_analysis();
    let mut ed = EditorState::new(5);
    ed.update(Action::ShowOperationsMenu, Some(&analysis));
    assert!(matches!(ed.mode, Mode::OperationsMenu));
    ed.update(Action::ApplyOptimization(OptimizeOption::RemoveAllStatic), Some(&analysis));
    assert!(matches!(ed.mode, Mode::Normal));
    for s in &analysis.segments {
        assert_eq!(ed.operations.get(&s.id).is_some(), s.is_static);
    }
    ed.update(Action::ResetAll, Some(&analysis));
    assert!(ed.operations.is_empty());
    assert_eq!(ed.success, Some("All operations cleared".chars().collect()));
    ed.update(Action::AnalysisFailed("bad".chars().collect()), Some(&analysis));
    assert_eq!(ed.error, Some("Failed to load GIF: bad".chars().collect()));
    ed.has_file = true;
    let effects = ed.update(Action::CycleHashAlgorithm, Some(&analysis));
    assert!(matches!(effects.as_slice(), [Effect::StartLoad]));
    assert_eq!(ed.success, Some("Switching to pHash (Robust to transforms)".chars().collect()));
    assert!(ed.loading_file);
}

#[test]
fn modes_compare_by_kind() {
    let a = ExportState::new("a.gif".chars().collect(), OperationSummary::default(), false);
    let b = ExportState::new("b.gif".chars().collect(), OperationSummary::default(), true);
    assert!(Mode::Export(a) == Mode::Export(b));
    assert!(Mode::Input(InputKind::CapDuration) == Mode::Input(InputKind::SpeedFactor));
    assert!(Mode::Normal != Mode::Help);
    assert!(Mode::default() == Mode::Normal);
}
