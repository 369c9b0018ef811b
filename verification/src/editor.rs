//! The interactive editor's state and how each user action changes it.
//!
//! The editor reacts to an action by changing its state and asking for effects that only
//! the surrounding program can carry out (loading or exporting a file, redrawing the
//! preview, changing the preview zoom).
use vstd::prelude::*;
use std::collections::HashSet;
use crate::hashing::FrameHash;
use crate::pipeline::Analysis;
use crate::tui::{ExportState, HashAlgorithm, InputKind, Mode, OperationSummary, OptimizeOption, PreviewStats, ViewMode};
use crate::segment::dry_totals_all;
use crate::types::{AnalyzedFrame, FrameOp, FrameOps, Segment, SegmentOp, SegmentOps};

verus! {

broadcast use {
    vstd::std_specs::hash::group_hash_axioms,
    vstd::std_specs::btree::group_btree_axioms,
    vstd::laws_cmp::group_laws_cmp,
};

/// Most undo steps kept.
pub open spec fn history_limit() -> int {
    50
}

/// What the editor asks the surrounding program to do.
#[derive(Debug, Clone)]
pub enum Effect {
    /// Drop the rendered preview so that it is drawn again.
    ClearPreview,
    /// Redraw the preview for the current frame.
    RefreshPreview,
    /// Load and analyze the current file.
    StartLoad,
    /// Open the export dialog for the current file.
    OpenExport,
    /// Export to the given path.
    Export(Vec<char>),
    /// Zoom the preview in.
    ZoomIn,
    /// Zoom the preview out.
    ZoomOut,
    /// Reset the preview zoom.
    ZoomReset,
}

/// User actions.
#[derive(Debug, Clone)]
pub enum Action {
    /// Select the next segment.
    NextSegment,
    /// Select the previous segment.
    PrevSegment,
    /// Select the first segment.
    FirstSegment,
    /// Select the last segment.
    LastSegment,
    /// Toggle the current segment in the selection.
    ToggleSelected,
    /// Select every segment.
    SelectAll,
    /// Clear the selection.
    DeselectAll,
    /// Add the static segments to the selection.
    SelectStatic,
    /// Add the motion segments to the selection.
    SelectMotion,
    /// Toggle removal of the target segments.
    ToggleRemove,
    /// Cap the target segments to a duration (ms).
    CapDuration(u32),
    /// Collapse the target segments to a duration (ms).
    CollapseDuration(u32),
    /// Speed up the target segments by `numerator / denominator`.
    SpeedUp(u32, u32),
    /// Slow down the target segments by `numerator / denominator`.
    SlowDown(u32, u32),
    /// Set the duration of the target segments (ms).
    SetDuration(u32),
    /// Clear the operations of the target segments.
    ClearOperation,
    /// Undo the last change of segment operations.
    Undo,
    /// Clear all operations.
    ResetAll,
    /// Show the next preview frame.
    NextFrame,
    /// Show the previous preview frame.
    PrevFrame,
    /// Show the first preview frame.
    FirstFrame,
    /// Show the last preview frame.
    LastFrame,
    /// Start or stop playback.
    TogglePlayback,
    /// Zoom the preview in.
    ZoomPreviewIn,
    /// Zoom the preview out.
    ZoomPreviewOut,
    /// Reset the preview zoom.
    ResetPreviewZoom,
    /// Show the frames of the current segment.
    EnterFrameView,
    /// Go back to the segment list.
    ExitFrameView,
    /// Highlight the next frame.
    NextFrameInList,
    /// Highlight the previous frame.
    PrevFrameInList,
    /// Highlight the first frame.
    FirstFrameInList,
    /// Highlight the last frame.
    LastFrameInList,
    /// Toggle the highlighted frame in the selection.
    ToggleFrameSelected,
    /// Select every frame of the segment.
    SelectAllFrames,
    /// Clear the frame selection.
    DeselectAllFrames,
    /// Add the frames identical to the highlighted one to the selection.
    SelectDuplicateFrames,
    /// Toggle removal of the target frames.
    ToggleRemoveFrame,
    /// Toggle a split after the target frames.
    ToggleSplitAfterFrame,
    /// Clear the operations of the target frames.
    ClearFrameOperation,
    /// Load the current file.
    LoadFile,
    /// Loading progress (current, total).
    LoadingProgress(usize, usize),
    /// The analysis finished.
    AnalysisLoaded,
    /// The analysis failed with this message.
    AnalysisFailed(Vec<char>),
    /// Export to a path.
    ExportTo(Vec<char>),
    /// Open the export dialog.
    ShowExport,
    /// Confirm the export dialog.
    ConfirmExport,
    /// Cancel the export dialog.
    CancelExport,
    /// Discard all segment operations.
    DiscardChanges,
    /// Open the operations menu.
    ShowOperationsMenu,
    /// Apply an optimization from the menu.
    ApplyOptimization(OptimizeOption),
    /// Close the operations menu.
    CloseOperationsMenu,
    /// Show the help overlay.
    ShowHelp,
    /// Hide any overlay.
    HideOverlay,
    /// Open an input dialog.
    ShowInput(InputKind),
    /// Submit the input dialog with this text.
    SubmitInput(Vec<char>),
    /// Cancel the input dialog.
    CancelInput,
    /// Switch to the next hash algorithm.
    CycleHashAlgorithm,
    /// A timer tick.
    Tick,
    /// Quit.
    Quit,
    /// Show an error message.
    Error(Vec<char>),
}

/// The editor's state.
pub struct EditorState {
    /// Current mode / overlay.
    pub mode: Mode,
    /// Segment list or frame list.
    pub view_mode: ViewMode,
    /// Index of the current segment.
    pub selected_segment: usize,
    /// Ids of the selected segments.
    pub selected_segments: HashSet<usize>,
    /// Pending segment operations.
    pub operations: SegmentOps,
    /// Pending frame operations.
    pub frame_operations: FrameOps,
    /// Index of the highlighted frame within its segment.
    pub selected_frame: usize,
    /// Selected frame indices within the segment.
    pub selected_frames: HashSet<usize>,
    /// Earlier segment operations, for undo.
    pub history: Vec<SegmentOps>,
    /// Earlier frame operations, for undo.
    pub frame_history: Vec<FrameOps>,
    /// Error message.
    pub error: Option<Vec<char>>,
    /// Success message.
    pub success: Option<Vec<char>>,
    /// Whether to quit.
    pub should_quit: bool,
    /// Similarity threshold for analysis.
    pub threshold: u32,
    /// Current hash algorithm.
    pub hash_algorithm: HashAlgorithm,
    /// Text of the input dialog.
    pub input_buffer: Vec<char>,
    /// Scroll offset of the segment list.
    pub scroll_offset: usize,
    /// Frame shown in the preview, within the current segment.
    pub preview_frame_index: usize,
    /// Whether the preview plays.
    pub preview_playing: bool,
    /// Whether a file was chosen.
    pub has_file: bool,
    /// Whether a file is being loaded.
    pub loading_file: bool,
    /// Loading progress (current, total).
    pub loading_progress: (usize, usize),
}


/// The view of the export dialog's state.
pub struct ExportView {
    /// The output path.
    pub path: Seq<char>,
    /// Cursor position.
    pub cursor: usize,
    /// Whether a file exists at the path.
    pub file_exists: bool,
    /// Whether overwriting was confirmed.
    pub confirmed_overwrite: bool,
    /// The summary shown.
    pub summary: OperationSummary,
}

/// The view of a mode.
pub enum ModeView {
    /// No overlay.
    Normal,
    /// Help overlay.
    Help,
    /// Input dialog.
    Input(InputKind),
    /// Export dialog.
    Export(ExportView),
    /// Operations menu.
    OperationsMenu,
}

/// The view of a mode.
pub open spec fn mode_view(m: Mode) -> ModeView {
    match m {
        Mode::Normal => ModeView::Normal,
        Mode::Help => ModeView::Help,
        Mode::Input(k) => ModeView::Input(k),
        Mode::Export(e) => ModeView::Export(
            ExportView {
                path: e.path@,
                cursor: e.cursor,
                file_exists: e.file_exists,
                confirmed_overwrite: e.confirmed_overwrite,
                summary: e.operation_summary,
            },
        ),
        Mode::OperationsMenu => ModeView::OperationsMenu,
    }
}

/// The view of an optional message.
pub open spec fn message_view(m: Option<Vec<char>>) -> Option<Seq<char>> {
    match m {
        Some(v) => Some(v@),
        None => None,
    }
}

/// The editor's state as mathematical values.
pub struct EditorView {
    /// Mode.
    pub mode: ModeView,
    /// View mode.
    pub view_mode: ViewMode,
    /// Current segment index.
    pub selected_segment: usize,
    /// Selected segment ids.
    pub selected_segments: Set<usize>,
    /// Segment operations.
    pub operations: Map<usize, SegmentOp>,
    /// Frame operations.
    pub frame_operations: Map<(usize, usize), FrameOp>,
    /// Highlighted frame.
    pub selected_frame: usize,
    /// Selected frames.
    pub selected_frames: Set<usize>,
    /// Undo history of segment operations.
    pub history: Seq<Map<usize, SegmentOp>>,
    /// Undo history of frame operations.
    pub frame_history: Seq<Map<(usize, usize), FrameOp>>,
    /// Error message.
    pub error: Option<Seq<char>>,
    /// Success message.
    pub success: Option<Seq<char>>,
    /// Whether to quit.
    pub should_quit: bool,
    /// Similarity threshold.
    pub threshold: u32,
    /// Hash algorithm.
    pub hash_algorithm: HashAlgorithm,
    /// Input text.
    pub input_buffer: Seq<char>,
    /// Scroll offset.
    pub scroll_offset: usize,
    /// Preview frame.
    pub preview_frame_index: usize,
    /// Whether the preview plays.
    pub preview_playing: bool,
    /// Whether a file was chosen.
    pub has_file: bool,
    /// Whether a file is loading.
    pub loading_file: bool,
    /// Loading progress.
    pub loading_progress: (usize, usize),
}

impl View for EditorState {
    type V = EditorView;

    open spec fn view(&self) -> EditorView {
        EditorView {
            mode: mode_view(self.mode),
            view_mode: self.view_mode,
            selected_segment: self.selected_segment,
            selected_segments: self.selected_segments@,
            operations: self.operations@,
            frame_operations: self.frame_operations@,
            selected_frame: self.selected_frame,
            selected_frames: self.selected_frames@,
            history: self.history@.map_values(|m: SegmentOps| m@),
            frame_history: self.frame_history@.map_values(|m: FrameOps| m@),
            error: message_view(self.error),
            success: message_view(self.success),
            should_quit: self.should_quit,
            threshold: self.threshold,
            hash_algorithm: self.hash_algorithm,
            input_buffer: self.input_buffer@,
            scroll_offset: self.scroll_offset,
            preview_frame_index: self.preview_frame_index,
            preview_playing: self.preview_playing,
            has_file: self.has_file,
            loading_file: self.loading_file,
            loading_progress: self.loading_progress,
        }
    }
}

/// The segment ids an operation applies to: the selection, or else the current segment.
pub open spec fn target_ids(v: EditorView, segments: Seq<Segment>) -> Set<usize> {
    if !v.selected_segments.is_empty() {
        v.selected_segments
    } else if v.selected_segment < segments.len() {
        set![segments[v.selected_segment as int].id]
    } else {
        Set::empty()
    }
}

/// The frame indices a frame operation applies to: the selection, or else the
/// highlighted frame.
pub open spec fn target_frames(v: EditorView) -> Set<usize> {
    if !v.selected_frames.is_empty() {
        v.selected_frames
    } else {
        set![v.selected_frame]
    }
}

/// The operations with `op` toggled on the given ids: an id that has `op` loses it, any
/// other gets it.
pub open spec fn toggled(ops: Map<usize, SegmentOp>, ids: Set<usize>, op: SegmentOp) -> Map<usize, SegmentOp> {
    Map::new(
        |k: usize| if ids.contains(k) { !(ops.contains_key(k) && ops[k] == op) } else { ops.contains_key(k) },
        |k: usize| if ids.contains(k) { op } else { ops[k] },
    )
}

/// The frame operations of a segment with `op` toggled on the given frames.
pub open spec fn frames_toggled(
    ops: Map<(usize, usize), FrameOp>,
    seg: usize,
    frames: Set<usize>,
    op: FrameOp,
) -> Map<(usize, usize), FrameOp> {
    Map::new(
        |k: (usize, usize)|
            if k.0 == seg && frames.contains(k.1) {
                !(ops.contains_key(k) && ops[k] == op)
            } else {
                ops.contains_key(k)
            },
        |k: (usize, usize)| if k.0 == seg && frames.contains(k.1) { op } else { ops[k] },
    )
}

/// The history after saving `current`, keeping the last 50 entries.
pub open spec fn saved<T>(history: Seq<T>, current: T) -> Seq<T> {
    let h = history.push(current);
    if h.len() > history_limit() {
        h.drop_first()
    } else {
        h
    }
}

/// Copy a set of ids into a vector without duplicates.
fn collect_ids(set: &HashSet<usize>) -> (r: Vec<usize>)
    ensures
        r@.to_set() == set@,
        r@.no_duplicates(),
{
    let mut out: Vec<usize> = Vec::new();
    for id in it: set.iter()
        invariant
            out@ == it.seq().take(it.index() as int).map_values(|x: &usize| *x),
            it.seq().unref().to_set() == set@,
            it.seq().no_duplicates(),
            out@.no_duplicates(),
            it.index() == it.seq().len() ==> out@ == it.seq().unref(),
    {
        let ghost before = out@;
        out.push(*id);
        proof {
            assert(out@ =~= it.seq().take(it.index() + 1).map_values(|x: &usize| *x));
            assert(out@.no_duplicates()) by {
                assert forall|i: int, j: int| 0 <= i < out@.len() && 0 <= j < out@.len() && i != j implies out@[i] != out@[j] by {
                    assert(it.seq()[i] != it.seq()[j]);
                }
            }
            assert(it.index() + 1 == it.seq().len() ==> it.seq().take(it.index() + 1) =~= it.seq());
            assert(it.index() + 1 == it.seq().len() ==> out@ =~= it.seq().unref());
        }
    }
    out
}

/// Appending an element adds it to the sequence's set.
proof fn lemma_push_to_set<T>(s: Seq<T>, x: T)
    ensures
        s.push(x).to_set() == s.to_set().insert(x),
{
    assert forall|a: T| #[trigger] s.push(x).to_set().contains(a) <==> s.to_set().insert(x).contains(a) by {
        if s.push(x).contains(a) {
            let j = choose|j: int| 0 <= j < s.push(x).len() && s.push(x)[j] == a;
            if j < s.len() {
                assert(s[j] == a);
                assert(s.contains(a));
            }
        }
        if a == x {
            assert(s.push(x)[s.len() as int] == x);
        } else if s.contains(a) {
            let j = choose|j: int| 0 <= j < s.len() && s[j] == a;
            assert(s.push(x)[j] == a);
        }
    }
    assert(s.push(x).to_set() =~= s.to_set().insert(x));
}

/// Toggle `op` on the given segment ids.
fn toggle_ops(ops: &mut SegmentOps, ids: &Vec<usize>, op: SegmentOp)
    requires
        ids@.no_duplicates(),
    ensures
        final(ops)@ == toggled(old(ops)@, ids@.to_set(), op),
{
    let ghost orig = ops@;
    let mut i: usize = 0;
    proof {
        assert(orig =~= toggled(orig, ids@.take(0).to_set(), op));
    }
    while i < ids.len()
        invariant
            i <= ids@.len(),
            ids@.no_duplicates(),
            ops@ == toggled(orig, ids@.take(i as int).to_set(), op),
        decreases ids@.len() - i,
    {
        let id = ids[i];
        let ghost done = ids@.take(i as int).to_set();
        proof {
            assert(!done.contains(id)) by {
                if done.contains(id) {
                    let j = choose|j: int| 0 <= j < i && ids@.take(i as int)[j] == id;
                    assert(ids@[j] == ids@[i as int]);
                }
            }
            assert(ids@.take(i + 1) =~= ids@.take(i as int).push(id));
            lemma_push_to_set(ids@.take(i as int), id);
        }
        let has_op = match ops.get(&id) {
            Some(current) => *current == op,
            None => false,
        };
        if has_op {
            ops.remove(&id);
        } else {
            ops.insert(id, op);
        }
        proof {
            assert(ops@ =~= toggled(orig, done.insert(id), op));
        }
        i = i + 1;
    }
    proof {
        assert(ids@.take(i as int) =~= ids@);
    }
}
/// Remove the given segment ids' operations.
fn clear_ops(ops: &mut SegmentOps, ids: &Vec<usize>)
    ensures
        final(ops)@ == old(ops)@.remove_keys(ids@.to_set()),
{
    let ghost orig = ops@;
    let mut i: usize = 0;
    proof {
        assert(orig =~= orig.remove_keys(ids@.take(0).to_set()));
    }
    while i < ids.len()
        invariant
            i <= ids@.len(),
            ops@ == orig.remove_keys(ids@.take(i as int).to_set()),
        decreases ids@.len() - i,
    {
        let id = ids[i];
        proof {
            assert(ids@.take(i + 1) =~= ids@.take(i as int).push(id));
            lemma_push_to_set(ids@.take(i as int), id);
        }
        ops.remove(&id);
        proof {
            assert(ops@ =~= orig.remove_keys(ids@.take(i + 1).to_set()));
        }
        i = i + 1;
    }
    proof {
        assert(ids@.take(i as int) =~= ids@);
    }
}

/// Toggle `op` on the frames of segment `seg` at the given indices.
fn toggle_frame_ops(ops: &mut FrameOps, seg: usize, frames: &Vec<usize>, op: FrameOp)
    requires
        frames@.no_duplicates(),
    ensures
        final(ops)@ == frames_toggled(old(ops)@, seg, frames@.to_set(), op),
{
    let ghost orig = ops@;
    let mut i: usize = 0;
    proof {
        assert(orig =~= frames_toggled(orig, seg, frames@.take(0).to_set(), op));
    }
    while i < frames.len()
        invariant
            i <= frames@.len(),
            frames@.no_duplicates(),
            ops@ == frames_toggled(orig, seg, frames@.take(i as int).to_set(), op),
        decreases frames@.len() - i,
    {
        let f = frames[i];
        let ghost done = frames@.take(i as int).to_set();
        proof {
            assert(!done.contains(f)) by {
                if done.contains(f) {
                    let j = choose|j: int| 0 <= j < i && frames@.take(i as int)[j] == f;
                    assert(frames@[j] == frames@[i as int]);
                }
            }
            assert(frames@.take(i + 1) =~= frames@.take(i as int).push(f));
            lemma_push_to_set(frames@.take(i as int), f);
        }
        let key = (seg, f);
        let has_op = match ops.get(&key) {
            Some(current) => *current == op,
            None => false,
        };
        if has_op {
            ops.remove(&key);
        } else {
            ops.insert(key, op);
        }
        proof {
            assert(ops@ =~= frames_toggled(orig, seg, done.insert(f), op));
        }
        i = i + 1;
    }
    proof {
        assert(frames@.take(i as int) =~= frames@);
    }
}

/// The frame operations of segment `seg` at the given frames, removed.
pub open spec fn frames_cleared(ops: Map<(usize, usize), FrameOp>, seg: usize, frames: Set<usize>) -> Map<(usize, usize), FrameOp> {
    ops.remove_keys(Set::new(|k: (usize, usize)| k.0 == seg && frames.contains(k.1)))
}

/// Remove the operations of segment `seg`'s frames at the given indices.
fn clear_frame_ops(ops: &mut FrameOps, seg: usize, frames: &Vec<usize>)
    ensures
        final(ops)@ == frames_cleared(old(ops)@, seg, frames@.to_set()),
{
    let ghost orig = ops@;
    let mut i: usize = 0;
    proof {
        assert(orig =~= frames_cleared(orig, seg, frames@.take(0).to_set()));
    }
    while i < frames.len()
        invariant
            i <= frames@.len(),
            ops@ == frames_cleared(orig, seg, frames@.take(i as int).to_set()),
        decreases frames@.len() - i,
    {
        let f = frames[i];
        proof {
            assert(frames@.take(i + 1) =~= frames@.take(i as int).push(f));
            lemma_push_to_set(frames@.take(i as int), f);
        }
        ops.remove(&(seg, f));
        proof {
            assert(ops@ =~= frames_cleared(orig, seg, frames@.take(i + 1).to_set()));
        }
        i = i + 1;
    }
    proof {
        assert(frames@.take(i as int) =~= frames@);
    }
}

/// The first segment with the given id.
pub open spec fn segment_with_id(segments: Seq<Segment>, id: usize) -> Option<Segment>
    decreases segments.len(),
{
    if segments.len() == 0 {
        None
    } else if segments[0].id == id {
        Some(segments[0])
    } else {
        segment_with_id(segments.drop_first(), id)
    }
}

/// Find the first segment with the given id.
fn find_segment<'a>(segments: &'a Vec<Segment>, id: usize) -> (r: Option<&'a Segment>)
    ensures
        match r {
            Some(s) => segment_with_id(segments@, id) == Some(*s),
            None => segment_with_id(segments@, id).is_none(),
        },
{
    let mut k: usize = 0;
    proof {
        assert(segments@.skip(0) =~= segments@);
    }
    while k < segments.len()
        invariant
            k <= segments@.len(),
            segment_with_id(segments@, id) == segment_with_id(segments@.skip(k as int), id),
        decreases segments@.len() - k,
    {
        proof {
            assert(segments@.skip(k as int).drop_first() =~= segments@.skip(k + 1));
        }
        if segments[k].id == id {
            return Some(&segments[k]);
        }
        k = k + 1;
    }
    proof {
        assert(segments@.skip(k as int).len() == 0);
    }
    None
}

/// Operations giving `op` to the targeted ids that some segment has.
pub open spec fn ops_for_targets(ids: Set<usize>, segments: Seq<Segment>, op: SegmentOp) -> Map<usize, SegmentOp> {
    Map::new(|k: usize| ids.contains(k) && segment_with_id(segments, k).is_some(), |k: usize| op)
}

/// Insert `op` for the targeted ids that some segment has.
fn insert_for_targets(ops: &mut SegmentOps, ids: &Vec<usize>, segments: &Vec<Segment>, op: SegmentOp)
    ensures
        final(ops)@ == old(ops)@.union_prefer_right(ops_for_targets(ids@.to_set(), segments@, op)),
{
    let ghost orig = ops@;
    let mut i: usize = 0;
    proof {
        assert(orig =~= orig.union_prefer_right(ops_for_targets(ids@.take(0).to_set(), segments@, op)));
    }
    while i < ids.len()
        invariant
            i <= ids@.len(),
            ops@ == orig.union_prefer_right(ops_for_targets(ids@.take(i as int).to_set(), segments@, op)),
        decreases ids@.len() - i,
    {
        let id = ids[i];
        proof {
            assert(ids@.take(i + 1) =~= ids@.take(i as int).push(id));
            lemma_push_to_set(ids@.take(i as int), id);
        }
        if find_segment(segments, id).is_some() {
            ops.insert(id, op);
        }
        proof {
            assert(ops@ =~= orig.union_prefer_right(ops_for_targets(ids@.take(i + 1).to_set(), segments@, op)));
        }
        i = i + 1;
    }
    proof {
        assert(ids@.take(i as int) =~= ids@);
    }
}

/// Cap: the targeted ids whose segment lasts longer than `ms` are collapsed to `ms`.
pub open spec fn capped(ops: Map<usize, SegmentOp>, ids: Set<usize>, segments: Seq<Segment>, ms: u32) -> Map<usize, SegmentOp> {
    let hit = |k: usize| ids.contains(k) && segment_with_id(segments, k).is_some()
        && segment_with_id(segments, k).unwrap().total_duration_cs * 10 > ms;
    Map::new(
        |k: usize| ops.contains_key(k) || hit(k),
        |k: usize| if hit(k) { SegmentOp::Collapse { delay_cs: (ms / 10) as u16 } } else { ops[k] },
    )
}

/// Collapse the targeted segments longer than `ms` to `ms`.
fn cap_targets(ops: &mut SegmentOps, ids: &Vec<usize>, segments: &Vec<Segment>, ms: u32)
    ensures
        final(ops)@ == capped(old(ops)@, ids@.to_set(), segments@, ms),
{
    let ghost orig = ops@;
    let mut i: usize = 0;
    proof {
        assert(orig =~= capped(orig, ids@.take(0).to_set(), segments@, ms));
    }
    while i < ids.len()
        invariant
            i <= ids@.len(),
            ops@ == capped(orig, ids@.take(i as int).to_set(), segments@, ms),
        decreases ids@.len() - i,
    {
        let id = ids[i];
        proof {
            assert(ids@.take(i + 1) =~= ids@.take(i as int).push(id));
            lemma_push_to_set(ids@.take(i as int), id);
        }
        match find_segment(segments, id) {
            Some(seg) => {
                if seg.duration_ms() > ms {
                    ops.insert(id, SegmentOp::Collapse { delay_cs: (ms / 10) as u16 });
                }
            },
            None => {},
        }
        proof {
            assert(ops@ =~= capped(orig, ids@.take(i + 1).to_set(), segments@, ms));
        }
        i = i + 1;
    }
    proof {
        assert(ids@.take(i as int) =~= ids@);
    }
}

/// The optimization a menu option applies: which segments, and what operation.
pub open spec fn optimization_pick(option: OptimizeOption, s: Segment) -> bool {
    match option {
        OptimizeOption::RemoveAllStatic => s.is_static,
        OptimizeOption::RemoveStaticLong => s.is_static && s.total_duration_cs * 10 > 300,
        OptimizeOption::CapPauses => s.is_static && s.total_duration_cs * 10 > 500,
        OptimizeOption::CollapseStatic => s.is_static,
        OptimizeOption::SpeedUpAll => true,
        OptimizeOption::SpeedUpPauses => s.is_static,
    }
}

/// The operation a menu option gives.
pub open spec fn optimization_op(option: OptimizeOption) -> SegmentOp {
    match option {
        OptimizeOption::RemoveAllStatic => SegmentOp::Remove,
        OptimizeOption::RemoveStaticLong => SegmentOp::Remove,
        OptimizeOption::CapPauses => SegmentOp::Collapse { delay_cs: 50 },
        OptimizeOption::CollapseStatic => SegmentOp::Collapse { delay_cs: 10 },
        OptimizeOption::SpeedUpAll => SegmentOp::Scale { numerator: 2, denominator: 3 },
        OptimizeOption::SpeedUpPauses => SegmentOp::Scale { numerator: 1, denominator: 2 },
    }
}

/// Apply a menu option's operation to the segments it picks, in order.
fn apply_option(ops: &mut SegmentOps, segments: &Vec<Segment>, option: OptimizeOption)
    ensures
        final(ops)@ == old(ops)@.union_prefer_right(
            crate::types::ops_where(segments@, |s: Segment| optimization_pick(option, s), |s: Segment| optimization_op(option)),
        ),
{
    let ghost orig = ops@;
    let ghost pred = |s: Segment| optimization_pick(option, s);
    let ghost op_of = |s: Segment| optimization_op(option);
    let op = match option {
        OptimizeOption::RemoveAllStatic => SegmentOp::Remove,
        OptimizeOption::RemoveStaticLong => SegmentOp::Remove,
        OptimizeOption::CapPauses => SegmentOp::Collapse { delay_cs: 50 },
        OptimizeOption::CollapseStatic => SegmentOp::Collapse { delay_cs: 10 },
        OptimizeOption::SpeedUpAll => SegmentOp::Scale { numerator: 2, denominator: 3 },
        OptimizeOption::SpeedUpPauses => SegmentOp::Scale { numerator: 1, denominator: 2 },
    };
    let mut i: usize = 0;
    proof {
        assert(orig =~= orig.union_prefer_right(crate::types::ops_where(segments@.take(0), pred, op_of)));
    }
    while i < segments.len()
        invariant
            i <= segments@.len(),
            op == optimization_op(option),
            pred == (|s: Segment| optimization_pick(option, s)),
            op_of == (|s: Segment| optimization_op(option)),
            ops@ == orig.union_prefer_right(crate::types::ops_where(segments@.take(i as int), pred, op_of)),
        decreases segments@.len() - i,
    {
        let s = &segments[i];
        proof {
            crate::types::lemma_ops_where_step(segments@, pred, op_of, i as int);
        }
        let picked = match option {
            OptimizeOption::RemoveAllStatic => s.is_static,
            OptimizeOption::RemoveStaticLong => s.is_static && s.duration_ms() > 300,
            OptimizeOption::CapPauses => s.is_static && s.duration_ms() > 500,
            OptimizeOption::CollapseStatic => s.is_static,
            OptimizeOption::SpeedUpAll => true,
            OptimizeOption::SpeedUpPauses => s.is_static,
        };
        if picked {
            ops.insert(s.id, op);
        }
        proof {
            assert(ops@ =~= orig.union_prefer_right(crate::types::ops_where(segments@.take(i + 1), pred, op_of)));
        }
        i = i + 1;
    }
    proof {
        assert(segments@.take(i as int) =~= segments@);
    }
}

/// The ids of the first `n` segments that the selection kind takes.
pub open spec fn selected_ids(segments: Seq<Segment>, kind: u8, n: int) -> Set<usize>
    decreases n,
{
    if n <= 0 {
        Set::empty()
    } else if selects(kind, segments[n - 1]) {
        selected_ids(segments, kind, n - 1).insert(segments[n - 1].id)
    } else {
        selected_ids(segments, kind, n - 1)
    }
}

/// Add the ids of the segments the selection kind takes to the selection.
fn select_segments(selected: &mut HashSet<usize>, segments: &Vec<Segment>, kind: u8)
    ensures
        final(selected)@ == old(selected)@ + selected_ids(segments@, kind, segments@.len() as int),
{
    let ghost orig = selected@;
    let mut i: usize = 0;
    proof {
        assert(orig =~= orig + selected_ids(segments@, kind, 0));
    }
    while i < segments.len()
        invariant
            i <= segments@.len(),
            selected@ == orig + selected_ids(segments@, kind, i as int),
        decreases segments@.len() - i,
    {
        let s = &segments[i];
        let pick = kind == 0 || (kind == 1 && s.is_static) || (kind == 2 && !s.is_static);
        if pick {
            selected.insert(s.id);
        }
        proof {
            assert(selected@ =~= orig + selected_ids(segments@, kind, i + 1));
        }
        i = i + 1;
    }
}

/// Whether a selection kind takes the segment: every segment (0), static ones (1),
/// moving ones (2).
pub open spec fn selects(kind: u8, s: Segment) -> bool {
    kind == 0 || (kind == 1 && s.is_static) || (kind == 2 && !s.is_static)
}

/// The characters of a string literal.
fn chars_of(s: &str) -> (r: Vec<char>)
    ensures
        r@ == s@,
{
    let mut out: Vec<char> = Vec::new();
    for c in it: s.chars()
        invariant
            out@ == it.seq().take(it.index() as int),
            it.seq() == s@,
            it.index() == it.seq().len() ==> out@ == s@,
    {
        out.push(c);
        proof {
            assert(out@ =~= it.seq().take(it.index() + 1));
            assert(it.index() + 1 == it.seq().len() ==> it.seq().take(it.index() + 1) =~= s@);
        }
    }
    out
}

/// The number of frames of the segment shown in the frame view; 0 outside it.
pub open spec fn frame_view_count(v: EditorView, segments: Seq<Segment>) -> int {
    match v.view_mode {
        ViewMode::Frames { segment_id } => match segment_with_id(segments, segment_id) {
            Some(s) => s.spec_frame_count() as int,
            None => 0,
        },
        ViewMode::Segments => 0,
    }
}

/// The frame count of the current segment, if there is one.
pub open spec fn current_count(v: EditorView, segments: Seq<Segment>) -> Option<int> {
    if v.selected_segment < segments.len() {
        Some(segments[v.selected_segment as int].spec_frame_count() as int)
    } else {
        None
    }
}

/// The state after loading starts.
pub open spec fn loading(v: EditorView) -> EditorView {
    EditorView { loading_file: true, loading_progress: (0, 0), has_file: true, error: None, ..v }
}

/// The state after a GIF was analyzed: a fresh editor for it.
pub open spec fn fresh_after_load(v: EditorView) -> EditorView {
    EditorView {
        loading_file: false,
        view_mode: ViewMode::Segments,
        selected_segment: 0,
        selected_segments: Set::empty(),
        operations: Map::empty(),
        frame_operations: Map::empty(),
        selected_frame: 0,
        selected_frames: Set::empty(),
        history: Seq::empty(),
        frame_history: Seq::empty(),
        error: None,
        success: None,
        scroll_offset: 0,
        preview_frame_index: 0,
        preview_playing: false,
        ..v
    }
}

/// The state with the segment operations saved for undo.
pub open spec fn with_history(v: EditorView) -> EditorView {
    EditorView { history: saved(v.history, v.operations), ..v }
}

/// The state with the frame operations saved for undo.
pub open spec fn with_frame_history(v: EditorView) -> EditorView {
    EditorView { frame_history: saved(v.frame_history, v.frame_operations), ..v }
}

impl EditorState {
    /// A new editor with no file and the given similarity threshold.
    pub fn new(threshold: u32) -> (r: Self)
        ensures
            r@.mode == ModeView::Normal,
            r@.view_mode == ViewMode::Segments,
            r@.selected_segment == 0,
            r@.selected_segments == Set::<usize>::empty(),
            r@.operations == Map::<usize, SegmentOp>::empty(),
            r@.frame_operations == Map::<(usize, usize), FrameOp>::empty(),
            r@.history.len() == 0,
            r@.frame_history.len() == 0,
            r@.error.is_none(),
            r@.success.is_none(),
            !r@.should_quit,
            r@.threshold == threshold,
            r@.hash_algorithm == HashAlgorithm::DHash,
            r@.input_buffer.len() == 0,
            !r@.has_file,
            !r@.loading_file,
            r@.preview_frame_index == 0,
            !r@.preview_playing,
    {
        let r = EditorState {
            mode: Mode::Normal,
            view_mode: ViewMode::Segments,
            selected_segment: 0,
            selected_segments: HashSet::new(),
            operations: SegmentOps::new(),
            frame_operations: FrameOps::new(),
            selected_frame: 0,
            selected_frames: HashSet::new(),
            history: Vec::new(),
            frame_history: Vec::new(),
            error: None,
            success: None,
            should_quit: false,
            threshold,
            hash_algorithm: HashAlgorithm::DHash,
            input_buffer: Vec::new(),
            scroll_offset: 0,
            preview_frame_index: 0,
            preview_playing: false,
            has_file: false,
            loading_file: false,
            loading_progress: (0, 0),
        };
        assert(r@.history =~= Seq::<Map<usize, SegmentOp>>::empty());
        assert(r@.frame_history =~= Seq::<Map<(usize, usize), FrameOp>>::empty());
        r
    }

    /// Save the segment operations for undo, keeping the last 50.
    fn save_history(&mut self)
        ensures
            final(self)@ == with_history(old(self)@),
    {
        let ghost before = self.history@;
        self.history.push(self.operations.clone());
        if self.history.len() > 50 {
            self.history.remove(0);
        }
        proof {
            assert(self.history@.map_values(|m: SegmentOps| m@) =~= saved(
                before.map_values(|m: SegmentOps| m@),
                self.operations@,
            ));
        }
    }

    /// Save the frame operations for undo, keeping the last 50.
    fn save_frame_history(&mut self)
        ensures
            final(self)@ == with_frame_history(old(self)@),
    {
        let ghost before = self.frame_history@;
        self.frame_history.push(self.frame_operations.clone());
        if self.frame_history.len() > 50 {
            self.frame_history.remove(0);
        }
        proof {
            assert(self.frame_history@.map_values(|m: FrameOps| m@) =~= saved(
                before.map_values(|m: FrameOps| m@),
                self.frame_operations@,
            ));
        }
    }
}

/// An effect as a mathematical value.
pub enum EffectView {
    /// Drop the rendered preview.
    ClearPreview,
    /// Redraw the preview.
    RefreshPreview,
    /// Load the current file.
    StartLoad,
    /// Open the export dialog.
    OpenExport,
    /// Export to a path.
    Export(Seq<char>),
    /// Zoom in.
    ZoomIn,
    /// Zoom out.
    ZoomOut,
    /// Reset zoom.
    ZoomReset,
}

/// The view of an effect.
pub open spec fn effect_view(e: Effect) -> EffectView {
    match e {
        Effect::ClearPreview => EffectView::ClearPreview,
        Effect::RefreshPreview => EffectView::RefreshPreview,
        Effect::StartLoad => EffectView::StartLoad,
        Effect::OpenExport => EffectView::OpenExport,
        Effect::Export(p) => EffectView::Export(p@),
        Effect::ZoomIn => EffectView::ZoomIn,
        Effect::ZoomOut => EffectView::ZoomOut,
        Effect::ZoomReset => EffectView::ZoomReset,
    }
}

/// The views of effects.
pub open spec fn effects_view(es: Seq<Effect>) -> Seq<EffectView> {
    es.map_values(|e: Effect| effect_view(e))
}

/// The frame hashes of an analysis, by frame.
pub open spec fn frame_hashes(frames: Seq<AnalyzedFrame<FrameHash>>) -> Seq<Seq<u8>> {
    frames.map_values(|f: AnalyzedFrame<FrameHash>| f.hash@)
}

/// Among the first `count` frames of a segment starting at frame `start`, those whose
/// hash is at distance 0 from that of frame `target`, in order.
pub open spec fn same_frames(hashes: Seq<Seq<u8>>, start: int, target: int, count: nat) -> Seq<usize> {
    Seq::new(count, |i: int| i as usize).filter(
        |i: usize| start + i < hashes.len() && crate::hashing::hash_distance(hashes[target], hashes[start + i]) == 0,
    )
}

/// The frames of the viewed segment identical to the highlighted one, in order.
pub open spec fn matching_frames(v: EditorView, segments: Seq<Segment>, hashes: Seq<Seq<u8>>) -> Seq<usize> {
    match v.view_mode {
        ViewMode::Frames { segment_id } => match segment_with_id(segments, segment_id) {
            Some(seg) => {
                let start = seg.frame_range.start as int;
                let target = start + v.selected_frame;
                if target < hashes.len() {
                    same_frames(hashes, start, target, seg.spec_frame_count())
                } else {
                    Seq::empty()
                }
            },
            None => Seq::empty(),
        },
        ViewMode::Segments => Seq::empty(),
    }
}

/// Whether the highlighted frame of the viewed segment exists.
pub open spec fn has_highlight(v: EditorView, segments: Seq<Segment>, hashes: Seq<Seq<u8>>) -> bool {
    match v.view_mode {
        ViewMode::Frames { segment_id } => match segment_with_id(segments, segment_id) {
            Some(seg) => seg.frame_range.start + v.selected_frame < hashes.len(),
            None => false,
        },
        ViewMode::Segments => false,
    }
}

/// How many matching frames a duplicate selection keeps unselected at the start and at
/// the end: `s:N`, `e:N`, `b:N`, or `N` (as `s:N`); an unreadable count is 1.
pub open spec fn keep_counts(config: Seq<char>) -> (nat, nat) {
    let n = |t: Seq<char>| match crate::parse::unsigned_text(t) {
        Some(k) => if k <= usize::MAX { k } else { 1 },
        None => 1,
    };
    if config.len() >= 2 && config[0] == 's' && config[1] == ':' {
        (n(config.skip(2)), 0)
    } else if config.len() >= 2 && config[0] == 'e' && config[1] == ':' {
        (0, n(config.skip(2)))
    } else if config.len() >= 2 && config[0] == 'b' && config[1] == ':' {
        (n(config.skip(2)), n(config.skip(2)))
    } else {
        (n(config), 0)
    }
}

/// The frames a duplicate selection adds: the matching frames but the first and last ones
/// it keeps; none if it would keep them all.
pub open spec fn duplicates_kept_out(matching: Seq<usize>, keep: (nat, nat)) -> Set<usize> {
    if matching.len() <= keep.0 + keep.1 {
        Set::empty()
    } else {
        matching.subrange(keep.0 as int, matching.len() - keep.1).to_set()
    }
}

/// The editor after one action, and the effects it asks for. `segments` and `hashes` are
/// those of the loaded analysis (`loaded`), empty otherwise.
pub open spec fn stepped(
    v: EditorView,
    a: Action,
    segments: Seq<Segment>,
    loaded: bool,
    hashes: Seq<Seq<u8>>,
) -> (EditorView, Seq<EffectView>)
    decreases 1nat,
{
    match a {
        Action::Quit => (EditorView { should_quit: true, ..v }, seq![]),
        Action::NextSegment => if loaded && v.selected_segment + 1 < segments.len() {
            (EditorView { selected_segment: (v.selected_segment + 1) as usize, preview_frame_index: 0, ..v }, seq![EffectView::ClearPreview])
        } else {
            (v, seq![])
        },
        Action::PrevSegment => if v.selected_segment > 0 {
            (EditorView { selected_segment: (v.selected_segment - 1) as usize, preview_frame_index: 0, ..v }, seq![EffectView::ClearPreview])
        } else {
            (v, seq![])
        },
        Action::FirstSegment => (EditorView { selected_segment: 0, preview_frame_index: 0, ..v }, seq![EffectView::ClearPreview]),
        Action::LastSegment => if loaded {
            (EditorView {
                selected_segment: if segments.len() > 0 { (segments.len() - 1) as usize } else { 0 },
                preview_frame_index: 0,
                ..v
            }, seq![EffectView::ClearPreview])
        } else {
            (v, seq![])
        },
        Action::NextFrame | Action::Tick => if a is NextFrame || v.preview_playing {
            match current_count(v, segments) {
                Some(n) => if loaded && n > 1 {
                    (EditorView { preview_frame_index: ((v.preview_frame_index as int % n + 1) % n) as usize, ..v }, seq![EffectView::RefreshPreview])
                } else {
                    (v, seq![])
                },
                None => (v, seq![]),
            }
        } else {
            (v, seq![])
        },
        Action::PrevFrame => match current_count(v, segments) {
            Some(n) => if loaded && n > 1 {
                (EditorView {
                    preview_frame_index: if v.preview_frame_index == 0 { (n - 1) as usize } else { (v.preview_frame_index - 1) as usize },
                    ..v
                }, seq![EffectView::RefreshPreview])
            } else {
                (v, seq![])
            },
            None => (v, seq![]),
        },
        Action::FirstFrame => (EditorView { preview_frame_index: 0, ..v }, seq![EffectView::ClearPreview]),
        Action::LastFrame => match current_count(v, segments) {
            Some(n) => if loaded && n > 0 {
                (EditorView { preview_frame_index: (n - 1) as usize, ..v }, seq![EffectView::ClearPreview])
            } else {
                (v, seq![])
            },
            None => (v, seq![]),
        },
        Action::TogglePlayback => (EditorView { preview_playing: !v.preview_playing, ..v }, seq![]),
        Action::EnterFrameView => if loaded && v.selected_segment < segments.len() {
            (EditorView {
                view_mode: ViewMode::Frames { segment_id: segments[v.selected_segment as int].id },
                selected_frame: 0,
                selected_frames: Set::empty(),
                ..v
            }, seq![])
        } else {
            (v, seq![])
        },
        Action::ExitFrameView => (EditorView { view_mode: ViewMode::Segments, selected_frame: 0, selected_frames: Set::empty(), ..v }, seq![]),
        Action::NextFrameInList => {
            let n = frame_view_count(v, segments);
            if loaded && n > 0 && v.selected_frame + 1 < n {
                (EditorView {
                    selected_frame: (v.selected_frame + 1) as usize,
                    preview_frame_index: (v.selected_frame + 1) as usize,
                    ..v
                }, seq![EffectView::ClearPreview])
            } else {
                (v, seq![])
            }
        },
        Action::PrevFrameInList => if v.selected_frame > 0 {
            (EditorView {
                selected_frame: (v.selected_frame - 1) as usize,
                preview_frame_index: (v.selected_frame - 1) as usize,
                ..v
            }, seq![EffectView::ClearPreview])
        } else {
            (v, seq![])
        },
        Action::FirstFrameInList => (EditorView { selected_frame: 0, preview_frame_index: 0, ..v }, seq![EffectView::ClearPreview]),
        Action::LastFrameInList => {
            let n = frame_view_count(v, segments);
            if loaded && n > 0 {
                (EditorView { selected_frame: (n - 1) as usize, preview_frame_index: (n - 1) as usize, ..v }, seq![EffectView::ClearPreview])
            } else {
                (v, seq![])
            }
        },
        Action::ToggleFrameSelected => (EditorView {
            selected_frames: if v.selected_frames.contains(v.selected_frame) {
                v.selected_frames.remove(v.selected_frame)
            } else {
                v.selected_frames.insert(v.selected_frame)
            },
            ..v
        }, seq![]),
        Action::SelectAllFrames => (EditorView {
            selected_frames: Set::new(|i: usize| loaded && i < frame_view_count(v, segments)),
            ..v
        }, seq![]),
        Action::DeselectAllFrames => (EditorView { selected_frames: Set::empty(), ..v }, seq![]),
        Action::SelectDuplicateFrames => if loaded && has_highlight(v, segments, hashes) {
            (EditorView { selected_frames: v.selected_frames + matching_frames(v, segments, hashes).to_set(), ..v }, seq![])
        } else {
            (v, seq![])
        },
        Action::ToggleRemoveFrame => match v.view_mode {
            ViewMode::Frames { segment_id } => {
                let w = with_frame_history(v);
                (EditorView { frame_operations: frames_toggled(w.frame_operations, segment_id, target_frames(v), FrameOp::Remove), ..w }, seq![])
            },
            ViewMode::Segments => (v, seq![]),
        },
        Action::ToggleSplitAfterFrame => match v.view_mode {
            ViewMode::Frames { segment_id } => {
                let w = with_frame_history(v);
                (EditorView { frame_operations: frames_toggled(w.frame_operations, segment_id, target_frames(v), FrameOp::SplitAfter), ..w }, seq![])
            },
            ViewMode::Segments => (v, seq![]),
        },
        Action::ClearFrameOperation => match v.view_mode {
            ViewMode::Frames { segment_id } => {
                let w = with_frame_history(v);
                (EditorView { frame_operations: frames_cleared(w.frame_operations, segment_id, target_frames(v)), ..w }, seq![])
            },
            ViewMode::Segments => (v, seq![]),
        },
        Action::ToggleSelected => if loaded && v.selected_segment < segments.len() {
            let id = segments[v.selected_segment as int].id;
            (EditorView {
                selected_segments: if v.selected_segments.contains(id) { v.selected_segments.remove(id) } else { v.selected_segments.insert(id) },
                ..v
            }, seq![])
        } else {
            (v, seq![])
        },
        Action::SelectAll => if loaded {
            (EditorView { selected_segments: v.selected_segments + selected_ids(segments, 0, segments.len() as int), ..v }, seq![])
        } else {
            (v, seq![])
        },
        Action::DeselectAll => (EditorView { selected_segments: Set::empty(), ..v }, seq![]),
        Action::SelectStatic => if loaded {
            (EditorView { selected_segments: v.selected_segments + selected_ids(segments, 1, segments.len() as int), ..v }, seq![])
        } else {
            (v, seq![])
        },
        Action::SelectMotion => if loaded {
            (EditorView { selected_segments: v.selected_segments + selected_ids(segments, 2, segments.len() as int), ..v }, seq![])
        } else {
            (v, seq![])
        },
        Action::CapDuration(ms) => {
            let w = with_history(v);
            if loaded {
                (EditorView { operations: capped(w.operations, target_ids(v, segments), segments, ms), ..w }, seq![])
            } else {
                (w, seq![])
            }
        },
        Action::CollapseDuration(ms) => {
            let w = with_history(v);
            if loaded {
                (EditorView { operations: w.operations.union_prefer_right(ops_for_targets(target_ids(v, segments), segments, SegmentOp::Collapse { delay_cs: (ms / 10) as u16 })), ..w }, seq![])
            } else {
                (w, seq![])
            }
        },
        Action::SpeedUp(num, den) => {
            let w = with_history(v);
            if loaded {
                (EditorView { operations: w.operations.union_prefer_right(ops_for_targets(target_ids(v, segments), segments, SegmentOp::Scale { numerator: den, denominator: num })), ..w }, seq![])
            } else {
                (w, seq![])
            }
        },
        Action::SlowDown(num, den) => {
            let w = with_history(v);
            if loaded {
                (EditorView { operations: w.operations.union_prefer_right(ops_for_targets(target_ids(v, segments), segments, SegmentOp::Scale { numerator: num, denominator: den })), ..w }, seq![])
            } else {
                (w, seq![])
            }
        },
        Action::SetDuration(ms) => {
            let w = with_history(v);
            if loaded {
                (EditorView { operations: w.operations.union_prefer_right(ops_for_targets(target_ids(v, segments), segments, SegmentOp::SetDuration { total_cs: (ms / 10) as u16 })), ..w }, seq![])
            } else {
                (w, seq![])
            }
        },
        Action::ToggleRemove => {
            let w = with_history(v);
            (EditorView { operations: toggled(w.operations, target_ids(v, segments), SegmentOp::Remove), ..w }, seq![])
        },
        Action::ClearOperation => {
            let w = with_history(v);
            (EditorView { operations: w.operations.remove_keys(target_ids(v, segments)), ..w }, seq![])
        },
        Action::Undo => if v.history.len() > 0 {
            (EditorView { operations: v.history.last(), history: v.history.drop_last(), ..v }, seq![])
        } else {
            (v, seq![])
        },
        Action::ResetAll => {
            let w = with_frame_history(with_history(v));
            (EditorView {
                operations: Map::empty(),
                frame_operations: Map::empty(),
                success: Some("All operations cleared"@),
                ..w
            }, seq![])
        },
        Action::ZoomPreviewIn => (v, seq![EffectView::ZoomIn, EffectView::ClearPreview]),
        Action::ZoomPreviewOut => (v, seq![EffectView::ZoomOut, EffectView::ClearPreview]),
        Action::ResetPreviewZoom => (v, seq![EffectView::ZoomReset, EffectView::ClearPreview]),
        Action::CycleHashAlgorithm => {
            let alg = v.hash_algorithm.spec_next();
            if v.has_file {
                (EditorView { hash_algorithm: alg, success: Some(switching_text(alg)), ..loading(v) }, seq![EffectView::StartLoad])
            } else {
                (EditorView { hash_algorithm: alg, ..v }, seq![])
            }
        },
        Action::ShowHelp => (EditorView { mode: ModeView::Help, ..v }, seq![]),
        Action::HideOverlay => (EditorView { mode: ModeView::Normal, ..v }, seq![]),
        Action::ShowInput(kind) => (EditorView { input_buffer: default_text(kind), mode: ModeView::Input(kind), ..v }, seq![]),
        Action::SubmitInput(input) => {
            let after = match v.mode {
                ModeView::Input(InputKind::CapDuration) => match crate::parse::unsigned_text(input@) {
                    Some(ms) => if ms <= u32::MAX { stepped_simple(v, Action::CapDuration(ms as u32), segments, loaded) } else { v },
                    None => v,
                },
                ModeView::Input(InputKind::CollapseDuration) => match crate::parse::unsigned_text(input@) {
                    Some(ms) => if ms <= u32::MAX { stepped_simple(v, Action::CollapseDuration(ms as u32), segments, loaded) } else { v },
                    None => v,
                },
                ModeView::Input(InputKind::SpeedFactor) => match crate::parse::decimal_ratio(input@) {
                    Some((num, den)) => if num > 0 { stepped_simple(v, Action::SpeedUp(num, den), segments, loaded) } else { v },
                    None => v,
                },
                ModeView::Input(InputKind::DuplicateSelection) => if loaded && has_highlight(v, segments, hashes) {
                    EditorView {
                        selected_frames: v.selected_frames + duplicates_kept_out(matching_frames(v, segments, hashes), keep_counts(input@)),
                        ..v
                    }
                } else {
                    v
                },
                _ => v,
            };
            (EditorView { mode: ModeView::Normal, ..after }, seq![])
        },
        Action::CancelInput => (EditorView { input_buffer: Seq::empty(), mode: ModeView::Normal, ..v }, seq![]),
        Action::ShowExport => if loaded && (!v.operations.is_empty() || !v.frame_operations.is_empty()) {
            (v, seq![EffectView::OpenExport])
        } else {
            (v, seq![])
        },
        Action::ConfirmExport => match v.mode {
            ModeView::Export(e) => if e.file_exists && !e.confirmed_overwrite {
                (EditorView { mode: ModeView::Export(ExportView { confirmed_overwrite: true, ..e }), ..v }, seq![])
            } else {
                (EditorView { mode: ModeView::Normal, ..v }, seq![EffectView::Export(e.path)])
            },
            _ => (v, seq![]),
        },
        Action::CancelExport => (EditorView { mode: ModeView::Normal, ..v }, seq![]),
        Action::DiscardChanges => {
            let w = with_history(v);
            (EditorView { operations: Map::empty(), mode: ModeView::Normal, ..w }, seq![])
        },
        Action::LoadFile => (loading(v), seq![EffectView::StartLoad]),
        Action::LoadingProgress(c, t) => (EditorView { loading_progress: (c, t), ..v }, seq![]),
        Action::AnalysisLoaded => (fresh_after_load(v), seq![EffectView::ClearPreview]),
        Action::AnalysisFailed(err) => (EditorView { loading_file: false, error: Some("Failed to load GIF: "@ + err@), ..v }, seq![]),
        Action::ExportTo(path) => (v, seq![EffectView::Export(path@)]),
        Action::Error(msg) => (EditorView { error: Some(msg@), ..v }, seq![]),
        Action::ShowOperationsMenu => if loaded {
            (EditorView { mode: ModeView::OperationsMenu, ..v }, seq![])
        } else {
            (v, seq![])
        },
        Action::CloseOperationsMenu => (EditorView { mode: ModeView::Normal, success: Some("Menu closed"@), ..v }, seq![]),
        Action::ApplyOptimization(option) => if loaded {
            let w = with_history(v);
            (EditorView {
                operations: w.operations.union_prefer_right(
                    crate::types::ops_where(segments, |s: Segment| optimization_pick(option, s), |s: Segment| optimization_op(option)),
                ),
                mode: ModeView::Normal,
                ..w
            }, seq![])
        } else {
            (EditorView { mode: ModeView::Normal, ..v }, seq![])
        },
    }
}

/// The state after one of the operation actions a submitted input leads to.
pub open spec fn stepped_simple(v: EditorView, a: Action, segments: Seq<Segment>, loaded: bool) -> EditorView {
    match a {
        Action::CapDuration(ms) => {
            let w = with_history(v);
            if loaded { EditorView { operations: capped(w.operations, target_ids(v, segments), segments, ms), ..w } } else { w }
        },
        Action::CollapseDuration(ms) => {
            let w = with_history(v);
            if loaded {
                EditorView { operations: w.operations.union_prefer_right(ops_for_targets(target_ids(v, segments), segments, SegmentOp::Collapse { delay_cs: (ms / 10) as u16 })), ..w }
            } else { w }
        },
        Action::SpeedUp(num, den) => {
            let w = with_history(v);
            if loaded {
                EditorView { operations: w.operations.union_prefer_right(ops_for_targets(target_ids(v, segments), segments, SegmentOp::Scale { numerator: den, denominator: num })), ..w }
            } else { w }
        },
        _ => v,
    }
}

/// The message shown when switching hash algorithms: `"Switching to NAME (DESCRIPTION)"`.
pub open spec fn switching_text(alg: HashAlgorithm) -> Seq<char> {
    "Switching to "@ + algorithm_name(alg) + " ("@ + algorithm_description(alg) + ")"@
}

/// The display name of a hash algorithm.
pub open spec fn algorithm_name(alg: HashAlgorithm) -> Seq<char> {
    match alg {
        HashAlgorithm::DHash => "dHash"@,
        HashAlgorithm::PHash => "pHash"@,
        HashAlgorithm::BlockHash => "blockHash"@,
    }
}

/// The description of a hash algorithm.
pub open spec fn algorithm_description(alg: HashAlgorithm) -> Seq<char> {
    match alg {
        HashAlgorithm::DHash => "Fast, good for duplicates"@,
        HashAlgorithm::PHash => "Robust to transforms"@,
        HashAlgorithm::BlockHash => "Balanced approach"@,
    }
}

/// The text an input dialog starts with.
pub open spec fn default_text(kind: InputKind) -> Seq<char> {
    match kind {
        InputKind::CapDuration => "300"@,
        InputKind::CollapseDuration => "200"@,
        InputKind::SpeedFactor => "1.5"@,
        InputKind::DuplicateSelection => "s:1"@,
    }
}

/// The frames of `seg` whose hash is at distance 0 from that of its frame `selected`.
fn matching_frame_list(seg: &Segment, frames: &Vec<AnalyzedFrame<FrameHash>>, selected: usize) -> (r: Vec<usize>)
    requires
        seg.frame_range.start + selected < frames@.len(),
    ensures
        r@ == same_frames(
            frame_hashes(frames@),
            seg.frame_range.start as int,
            seg.frame_range.start + selected,
            seg.spec_frame_count(),
        ),
{
    let ghost hashes = frame_hashes(frames@);
    let start = seg.frame_range.start;
    let n_frames = frames.len();
    let target = start + selected;
    let count = seg.frame_count();
    let mut out: Vec<usize> = Vec::new();
    let mut i: usize = 0;
    proof {
        reveal(Seq::filter);
        assert(same_frames(hashes, start as int, target as int, 0) =~= Seq::<usize>::empty());
    }
    while i < count
        invariant
            i <= count,
            count == seg.spec_frame_count(),
            start == seg.frame_range.start,
            target == start + selected,
            target < frames@.len(),
            hashes == frame_hashes(frames@),
            out@ == same_frames(hashes, start as int, target as int, i as nat),
        decreases count - i,
    {
        let hit = i < frames.len() && start < frames.len() - i && frames[target].hash.dist(&frames[start + i].hash) == 0;
        proof {
            reveal(Seq::filter);
            let f = |j: int| j as usize;
            assert(Seq::new((i + 1) as nat, f).drop_last() =~= Seq::new(i as nat, f));
            assert(Seq::new((i + 1) as nat, f).last() == i);
        }
        if hit {
            out.push(i);
        }
        i = i + 1;
    }
    out
}

/// The segment ids an operation applies to, without repeats.
fn target_id_list(selected: &HashSet<usize>, current: usize, segments: &Vec<Segment>) -> (r: Vec<usize>)
    ensures
        r@.no_duplicates(),
        r@.to_set() == (if !selected@.is_empty() {
            selected@
        } else if current < segments@.len() {
            set![segments@[current as int].id]
        } else {
            Set::empty()
        }),
{
    if !selected.is_empty() {
        collect_ids(selected)
    } else if current < segments.len() {
        let r = vec![segments[current].id];
        proof {
            assert(r@ =~= seq![segments@[current as int].id]);
            assert(r@.to_set() =~= set![segments@[current as int].id]) by {
                lemma_push_to_set(Seq::<usize>::empty(), segments@[current as int].id);
                assert(Seq::<usize>::empty().push(segments@[current as int].id) =~= r@);
                assert(Seq::<usize>::empty().to_set() =~= Set::<usize>::empty());
            }
        }
        r
    } else {
        let r: Vec<usize> = Vec::new();
        proof {
            assert(r@.to_set() =~= Set::<usize>::empty());
        }
        r
    }
}

/// The frame indices a frame operation applies to, without repeats.
fn target_frame_list(selected: &HashSet<usize>, current: usize) -> (r: Vec<usize>)
    ensures
        r@.no_duplicates(),
        r@.to_set() == (if !selected@.is_empty() { selected@ } else { set![current] }),
{
    if !selected.is_empty() {
        collect_ids(selected)
    } else {
        let r = vec![current];
        proof {
            lemma_push_to_set(Seq::<usize>::empty(), current);
            assert(Seq::<usize>::empty().push(current) =~= r@);
            assert(Seq::<usize>::empty().to_set() =~= Set::<usize>::empty());
            assert(r@.to_set() =~= set![current]);
        }
        r
    }
}

/// The characters of `cs` from position `k` on.
fn tail_from(cs: &Vec<char>, k: usize) -> (r: Vec<char>)
    requires
        k <= cs@.len(),
    ensures
        r@ == cs@.skip(k as int),
{
    let mut out: Vec<char> = Vec::new();
    let mut i: usize = k;
    while i < cs.len()
        invariant
            k <= i <= cs@.len(),
            out@ == cs@.subrange(k as int, i as int),
        decreases cs@.len() - i,
    {
        out.push(cs[i]);
        proof {
            assert(out@ =~= cs@.subrange(k as int, i + 1));
        }
        i = i + 1;
    }
    proof {
        assert(out@ =~= cs@.skip(k as int));
    }
    out
}

/// A count read as a `usize`, or 1 when the text is not one.
fn count_or_one(cs: &Vec<char>) -> (r: usize)
    ensures
        r == match crate::parse::unsigned_text(cs@) {
            Some(k) => if k <= usize::MAX { k } else { 1 },
            None => 1,
        },
{
    match crate::parse::parse_unsigned(cs, usize::MAX as u64) {
        Some(k) => k as usize,
        None => 1,
    }
}

/// How many matching frames a duplicate selection keeps at the start and at the end.
fn keep_counts_of(config: &Vec<char>) -> (r: (usize, usize))
    ensures
        (r.0 as nat, r.1 as nat) == keep_counts(config@),
{
    let prefixed = config.len() >= 2 && config[1] == ':';
    if prefixed && config[0] == 's' {
        let n = count_or_one(&tail_from(config, 2));
        (n, 0)
    } else if prefixed && config[0] == 'e' {
        let n = count_or_one(&tail_from(config, 2));
        (0, n)
    } else if prefixed && config[0] == 'b' {
        let n = count_or_one(&tail_from(config, 2));
        (n, n)
    } else {
        (count_or_one(config), 0)
    }
}

/// Append the characters of `s`.
fn push_chars(out: &mut Vec<char>, s: &str)
    ensures
        final(out)@ == old(out)@ + s@,
{
    let ghost before = out@;
    for c in it: s.chars()
        invariant
            out@ == before + it.seq().take(it.index() as int),
            it.seq() == s@,
            it.index() == it.seq().len() ==> out@ == before + s@,
    {
        out.push(c);
        proof {
            assert(out@ =~= before + it.seq().take(it.index() + 1));
            assert(it.index() + 1 == it.seq().len() ==> it.seq().take(it.index() + 1) =~= s@);
        }
    }
}

/// The segments of the loaded analysis; empty when none is loaded.
pub open spec fn analysis_segments(a: Option<&Analysis<FrameHash>>) -> Seq<Segment> {
    match a {
        Some(x) => x.segments@,
        None => Seq::empty(),
    }
}

/// The frame hashes of the loaded analysis; empty when none is loaded.
pub open spec fn analysis_hashes(a: Option<&Analysis<FrameHash>>) -> Seq<Seq<u8>> {
    match a {
        Some(x) => frame_hashes(x.frames@),
        None => Seq::empty(),
    }
}

/// Which part of the editor handles an action: moving around (0), the frame view (1),
/// selections and operations (2), dialogs and loading (3).
pub open spec fn action_group(a: Action) -> u8 {
    match a {
        Action::Quit | Action::NextSegment | Action::PrevSegment | Action::FirstSegment | Action::LastSegment
        | Action::NextFrame | Action::Tick | Action::PrevFrame | Action::FirstFrame | Action::LastFrame
        | Action::TogglePlayback | Action::ZoomPreviewIn | Action::ZoomPreviewOut | Action::ResetPreviewZoom => 0,
        Action::EnterFrameView | Action::ExitFrameView | Action::NextFrameInList | Action::PrevFrameInList
        | Action::FirstFrameInList | Action::LastFrameInList | Action::ToggleFrameSelected | Action::SelectAllFrames
        | Action::DeselectAllFrames | Action::SelectDuplicateFrames | Action::ToggleRemoveFrame
        | Action::ToggleSplitAfterFrame | Action::ClearFrameOperation => 1,
        Action::ToggleSelected | Action::SelectAll | Action::DeselectAll | Action::SelectStatic | Action::SelectMotion
        | Action::CapDuration(_) | Action::CollapseDuration(_) | Action::SpeedUp(_, _) | Action::SlowDown(_, _)
        | Action::SetDuration(_) | Action::ToggleRemove | Action::ClearOperation | Action::Undo | Action::ResetAll
        | Action::DiscardChanges | Action::ApplyOptimization(_) => 2,
        _ => 3,
    }
}

fn group_of(a: &Action) -> (r: u8)
    ensures
        r == action_group(*a),
{
    match a {
        Action::Quit | Action::NextSegment | Action::PrevSegment | Action::FirstSegment | Action::LastSegment
        | Action::NextFrame | Action::Tick | Action::PrevFrame | Action::FirstFrame | Action::LastFrame
        | Action::TogglePlayback | Action::ZoomPreviewIn | Action::ZoomPreviewOut | Action::ResetPreviewZoom => 0,
        Action::EnterFrameView | Action::ExitFrameView | Action::NextFrameInList | Action::PrevFrameInList
        | Action::FirstFrameInList | Action::LastFrameInList | Action::ToggleFrameSelected | Action::SelectAllFrames
        | Action::DeselectAllFrames | Action::SelectDuplicateFrames | Action::ToggleRemoveFrame
        | Action::ToggleSplitAfterFrame | Action::ClearFrameOperation => 1,
        Action::ToggleSelected | Action::SelectAll | Action::DeselectAll | Action::SelectStatic | Action::SelectMotion
        | Action::CapDuration(_) | Action::CollapseDuration(_) | Action::SpeedUp(_, _) | Action::SlowDown(_, _)
        | Action::SetDuration(_) | Action::ToggleRemove | Action::ClearOperation | Action::Undo | Action::ResetAll
        | Action::DiscardChanges | Action::ApplyOptimization(_) => 2,
        _ => 3,
    }
}

fn no_effects() -> (r: Vec<Effect>)
    ensures
        effects_view(r@) == Seq::<EffectView>::empty(),
{
    let r: Vec<Effect> = Vec::new();
    assert(effects_view(r@) =~= Seq::<EffectView>::empty());
    r
}

fn one_effect(e: Effect) -> (r: Vec<Effect>)
    ensures
        effects_view(r@) == seq![effect_view(e)],
{
    let ghost g = e;
    let r = vec![e];
    assert(effects_view(r@) =~= seq![effect_view(g)]);
    r
}

fn two_effects(a: Effect, b: Effect) -> (r: Vec<Effect>)
    ensures
        effects_view(r@) == seq![effect_view(a), effect_view(b)],
{
    let ghost ga = a;
    let ghost gb = b;
    let r = vec![a, b];
    assert(effects_view(r@) =~= seq![effect_view(ga), effect_view(gb)]);
    r
}

/// Add `items[lo..hi]` to a set.
fn insert_range(set: &mut HashSet<usize>, items: &Vec<usize>, lo: usize, hi: usize)
    requires
        lo <= hi <= items@.len(),
    ensures
        final(set)@ == old(set)@ + items@.subrange(lo as int, hi as int).to_set(),
{
    let ghost orig = set@;
    let mut i: usize = lo;
    proof {
        assert(items@.subrange(lo as int, lo as int).to_set() =~= Set::<usize>::empty());
        assert(orig =~= orig + Set::<usize>::empty());
    }
    while i < hi
        invariant
            lo <= i <= hi <= items@.len(),
            set@ == orig + items@.subrange(lo as int, i as int).to_set(),
        decreases hi - i,
    {
        proof {
            assert(items@.subrange(lo as int, i + 1) =~= items@.subrange(lo as int, i as int).push(items@[i as int]));
            lemma_push_to_set(items@.subrange(lo as int, i as int), items@[i as int]);
        }
        set.insert(items[i]);
        proof {
            assert(set@ =~= orig + items@.subrange(lo as int, i + 1).to_set());
        }
        i = i + 1;
    }
}

impl EditorState {
    /// The number of frames of the segment shown in the frame view; 0 outside it.
    fn viewed_frame_count(&self, segments: &Vec<Segment>) -> (r: usize)
        ensures
            r == frame_view_count(self@, segments@),
    {
        match self.view_mode {
            ViewMode::Frames { segment_id } => match find_segment(segments, segment_id) {
                Some(s) => s.frame_count(),
                None => 0,
            },
            ViewMode::Segments => 0,
        }
    }

    /// Moving between segments and preview frames, playback, zoom, quitting.
    fn step_navigation(&mut self, action: Action, segments: &Vec<Segment>, loaded: bool, Ghost(hashes): Ghost<Seq<Seq<u8>>>) -> (r: Vec<Effect>)
        requires
            action_group(action) == 0,
        ensures
            final(self)@ == stepped(old(self)@, action, segments@, loaded, hashes).0,
            effects_view(r@) == stepped(old(self)@, action, segments@, loaded, hashes).1,
    {
        match action {
            Action::Quit => {
                self.should_quit = true;
                no_effects()
            },
            Action::NextSegment => {
                if loaded && segments.len() > 0 && self.selected_segment < segments.len() - 1 {
                    self.selected_segment = self.selected_segment + 1;
                    self.preview_frame_index = 0;
                    one_effect(Effect::ClearPreview)
                } else {
                    no_effects()
                }
            },
            Action::PrevSegment => {
                if self.selected_segment > 0 {
                    self.selected_segment = self.selected_segment - 1;
                    self.preview_frame_index = 0;
                    one_effect(Effect::ClearPreview)
                } else {
                    no_effects()
                }
            },
            Action::FirstSegment => {
                self.selected_segment = 0;
                self.preview_frame_index = 0;
                one_effect(Effect::ClearPreview)
            },
            Action::LastSegment => {
                if loaded {
                    self.selected_segment = if segments.len() > 0 { segments.len() - 1 } else { 0 };
                    self.preview_frame_index = 0;
                    one_effect(Effect::ClearPreview)
                } else {
                    no_effects()
                }
            },
            Action::NextFrame | Action::Tick => {
                let advance = match action {
                    Action::NextFrame => true,
                    _ => self.preview_playing,
                };
                if advance && self.selected_segment < segments.len() {
                    let n = segments[self.selected_segment].frame_count();
                    if loaded && n > 1 {
                        self.preview_frame_index = (self.preview_frame_index % n + 1) % n;
                        one_effect(Effect::RefreshPreview)
                    } else {
                        no_effects()
                    }
                } else {
                    no_effects()
                }
            },
            Action::PrevFrame => {
                if self.selected_segment < segments.len() {
                    let n = segments[self.selected_segment].frame_count();
                    if loaded && n > 1 {
                        self.preview_frame_index = if self.preview_frame_index == 0 { n - 1 } else { self.preview_frame_index - 1 };
                        one_effect(Effect::RefreshPreview)
                    } else {
                        no_effects()
                    }
                } else {
                    no_effects()
                }
            },
            Action::FirstFrame => {
                self.preview_frame_index = 0;
                one_effect(Effect::ClearPreview)
            },
            Action::LastFrame => {
                if self.selected_segment < segments.len() {
                    let n = segments[self.selected_segment].frame_count();
                    if loaded && n > 0 {
                        self.preview_frame_index = n - 1;
                        one_effect(Effect::ClearPreview)
                    } else {
                        no_effects()
                    }
                } else {
                    no_effects()
                }
            },
            Action::TogglePlayback => {
                self.preview_playing = !self.preview_playing;
                no_effects()
            },
            Action::ZoomPreviewIn => two_effects(Effect::ZoomIn, Effect::ClearPreview),
            Action::ZoomPreviewOut => two_effects(Effect::ZoomOut, Effect::ClearPreview),
            _ => two_effects(Effect::ZoomReset, Effect::ClearPreview),
        }
    }
}

impl EditorState {
    /// Moving in the frame view, selecting frames, and frame operations.
    fn step_frames(
        &mut self,
        action: Action,
        segments: &Vec<Segment>,
        frames: &Vec<AnalyzedFrame<FrameHash>>,
        loaded: bool,
    ) -> (r: Vec<Effect>)
        requires
            action_group(action) == 1,
        ensures
            final(self)@ == stepped(old(self)@, action, segments@, loaded, frame_hashes(frames@)).0,
            effects_view(r@) == stepped(old(self)@, action, segments@, loaded, frame_hashes(frames@)).1,
    {
        let ghost hashes = frame_hashes(frames@);
        match action {
            Action::EnterFrameView => {
                if loaded && self.selected_segment < segments.len() {
                    self.view_mode = ViewMode::Frames { segment_id: segments[self.selected_segment].id };
                    self.selected_frame = 0;
                    self.selected_frames = HashSet::new();
                }
                no_effects()
            },
            Action::ExitFrameView => {
                self.view_mode = ViewMode::Segments;
                self.selected_frame = 0;
                self.selected_frames = HashSet::new();
                no_effects()
            },
            Action::NextFrameInList => {
                let n = self.viewed_frame_count(segments);
                if loaded && n > 0 && self.selected_frame < n - 1 {
                    self.selected_frame = self.selected_frame + 1;
                    self.preview_frame_index = self.selected_frame;
                    one_effect(Effect::ClearPreview)
                } else {
                    no_effects()
                }
            },
            Action::PrevFrameInList => {
                if self.selected_frame > 0 {
                    self.selected_frame = self.selected_frame - 1;
                    self.preview_frame_index = self.selected_frame;
                    one_effect(Effect::ClearPreview)
                } else {
                    no_effects()
                }
            },
            Action::FirstFrameInList => {
                self.selected_frame = 0;
                self.preview_frame_index = 0;
                one_effect(Effect::ClearPreview)
            },
            Action::LastFrameInList => {
                let n = self.viewed_frame_count(segments);
                if loaded && n > 0 {
                    self.selected_frame = n - 1;
                    self.preview_frame_index = n - 1;
                    one_effect(Effect::ClearPreview)
                } else {
                    no_effects()
                }
            },
            Action::ToggleFrameSelected => {
                let f = self.selected_frame;
                if self.selected_frames.contains(&f) {
                    self.selected_frames.remove(&f);
                } else {
                    self.selected_frames.insert(f);
                }
                no_effects()
            },
            Action::SelectAllFrames => {
                let n = if loaded { self.viewed_frame_count(segments) } else { 0 };
                let mut all: HashSet<usize> = HashSet::new();
                let mut i: usize = 0;
                while i < n
                    invariant
                        i <= n,
                        all@ == Set::new(|j: usize| j < i),
                    decreases n - i,
                {
                    all.insert(i);
                    proof {
                        assert(all@ =~= Set::new(|j: usize| j < i + 1));
                    }
                    i = i + 1;
                }
                proof {
                    assert(all@ =~= Set::new(|j: usize| loaded && j < frame_view_count(old(self)@, segments@)));
                }
                self.selected_frames = all;
                no_effects()
            },
            Action::DeselectAllFrames => {
                self.selected_frames = HashSet::new();
                no_effects()
            },
            Action::SelectDuplicateFrames => {
                if loaded {
                    match self.view_mode {
                        ViewMode::Frames { segment_id } => match find_segment(segments, segment_id) {
                            Some(seg) => {
                                if self.selected_frame < frames.len() && seg.frame_range.start < frames.len() - self.selected_frame {
                                    let m = matching_frame_list(seg, frames, self.selected_frame);
                                    proof {
                                        assert(m@.subrange(0, m@.len() as int) =~= m@);
                                    }
                                    insert_range(&mut self.selected_frames, &m, 0, m.len());
                                }
                            },
                            None => {},
                        },
                        ViewMode::Segments => {},
                    }
                }
                no_effects()
            },
            Action::ToggleRemoveFrame | Action::ToggleSplitAfterFrame => {
                match self.view_mode {
                    ViewMode::Frames { segment_id } => {
                        let op = match action {
                            Action::ToggleRemoveFrame => FrameOp::Remove,
                            _ => FrameOp::SplitAfter,
                        };
                        let targets = target_frame_list(&self.selected_frames, self.selected_frame);
                        self.save_frame_history();
                        toggle_frame_ops(&mut self.frame_operations, segment_id, &targets, op);
                    },
                    ViewMode::Segments => {},
                }
                no_effects()
            },
            _ => {
                match self.view_mode {
                    ViewMode::Frames { segment_id } => {
                        let targets = target_frame_list(&self.selected_frames, self.selected_frame);
                        self.save_frame_history();
                        clear_frame_ops(&mut self.frame_operations, segment_id, &targets);
                    },
                    ViewMode::Segments => {},
                }
                no_effects()
            },
        }
    }
}

impl EditorState {
    /// Cap the target segments to `ms`, after saving the operations for undo.
    fn op_cap(&mut self, ms: u32, segments: &Vec<Segment>, loaded: bool)
        ensures
            final(self)@ == stepped_simple(old(self)@, Action::CapDuration(ms), segments@, loaded),
    {
        let ids = target_id_list(&self.selected_segments, self.selected_segment, segments);
        self.save_history();
        if loaded {
            cap_targets(&mut self.operations, &ids, segments, ms);
        }
    }

    /// Collapse the target segments to `ms`, after saving the operations for undo.
    fn op_collapse(&mut self, ms: u32, segments: &Vec<Segment>, loaded: bool)
        ensures
            final(self)@ == stepped_simple(old(self)@, Action::CollapseDuration(ms), segments@, loaded),
    {
        self.op_targets(SegmentOp::Collapse { delay_cs: (ms / 10) as u16 }, segments, loaded);
    }

    /// Speed the target segments up by `num / den`, after saving the operations for undo.
    fn op_speed_up(&mut self, num: u32, den: u32, segments: &Vec<Segment>, loaded: bool)
        ensures
            final(self)@ == stepped_simple(old(self)@, Action::SpeedUp(num, den), segments@, loaded),
    {
        self.op_targets(SegmentOp::Scale { numerator: den, denominator: num }, segments, loaded);
    }

    /// Slow the target segments down by `num / den`, after saving the operations for undo.
    fn op_slow_down(&mut self, num: u32, den: u32, segments: &Vec<Segment>, loaded: bool)
        ensures
            final(self)@ == stepped(old(self)@, Action::SlowDown(num, den), segments@, loaded, Seq::empty()).0,
    {
        self.op_targets(SegmentOp::Scale { numerator: num, denominator: den }, segments, loaded);
    }

    /// Set the duration of the target segments to `ms`, after saving the operations for
    /// undo.
    fn op_set_duration(&mut self, ms: u32, segments: &Vec<Segment>, loaded: bool)
        ensures
            final(self)@ == stepped(old(self)@, Action::SetDuration(ms), segments@, loaded, Seq::empty()).0,
    {
        self.op_targets(SegmentOp::SetDuration { total_cs: (ms / 10) as u16 }, segments, loaded);
    }

    /// Give `op` to the target segments, after saving the operations for undo.
    fn op_targets(&mut self, op: SegmentOp, segments: &Vec<Segment>, loaded: bool)
        ensures
            final(self)@ == (if loaded {
                EditorView {
                    operations: with_history(old(self)@).operations.union_prefer_right(
                        ops_for_targets(target_ids(old(self)@, segments@), segments@, op),
                    ),
                    ..with_history(old(self)@)
                }
            } else {
                with_history(old(self)@)
            }),
    {
        let ids = target_id_list(&self.selected_segments, self.selected_segment, segments);
        self.save_history();
        if loaded {
            insert_for_targets(&mut self.operations, &ids, segments, op);
        }
    }

    /// Selections and segment operations.
    #[verifier::spinoff_prover]
    #[verifier::rlimit(40)]
    fn step_operations(&mut self, action: Action, segments: &Vec<Segment>, loaded: bool, Ghost(hashes): Ghost<Seq<Seq<u8>>>) -> (r: Vec<Effect>)
        requires
            action_group(action) == 2,
        ensures
            final(self)@ == stepped(old(self)@, action, segments@, loaded, hashes).0,
            effects_view(r@) == stepped(old(self)@, action, segments@, loaded, hashes).1,
    {
        match action {
            Action::ToggleSelected => {
                if loaded && self.selected_segment < segments.len() {
                    let id = segments[self.selected_segment].id;
                    if self.selected_segments.contains(&id) {
                        self.selected_segments.remove(&id);
                    } else {
                        self.selected_segments.insert(id);
                    }
                }
            },
            Action::SelectAll => {
                if loaded {
                    select_segments(&mut self.selected_segments, segments, 0);
                }
            },
            Action::DeselectAll => {
                self.selected_segments = HashSet::new();
            },
            Action::SelectStatic => {
                if loaded {
                    select_segments(&mut self.selected_segments, segments, 1);
                }
            },
            Action::SelectMotion => {
                if loaded {
                    select_segments(&mut self.selected_segments, segments, 2);
                }
            },
            Action::CapDuration(ms) => {
                self.op_cap(ms, segments, loaded);
            },
            Action::CollapseDuration(ms) => {
                self.op_collapse(ms, segments, loaded);
            },
            Action::SpeedUp(num, den) => {
                self.op_speed_up(num, den, segments, loaded);
            },
            Action::SlowDown(num, den) => {
                self.op_slow_down(num, den, segments, loaded);
            },
            Action::SetDuration(ms) => {
                self.op_set_duration(ms, segments, loaded);
            },
            Action::ToggleRemove => {
                let ids = target_id_list(&self.selected_segments, self.selected_segment, segments);
                self.save_history();
                toggle_ops(&mut self.operations, &ids, SegmentOp::Remove);
            },
            Action::ClearOperation => {
                let ids = target_id_list(&self.selected_segments, self.selected_segment, segments);
                self.save_history();
                clear_ops(&mut self.operations, &ids);
            },
            Action::Undo => {
                let ghost before = self.history@;
                match self.history.pop() {
                    Some(prev) => {
                        self.operations = prev;
                        proof {
                            assert(self.history@.map_values(|m: SegmentOps| m@) =~= before.map_values(
                                |m: SegmentOps| m@,
                            ).drop_last());
                        }
                    },
                    None => {},
                }
            },
            Action::ResetAll => {
                self.save_history();
                self.save_frame_history();
                self.operations = SegmentOps::new();
                self.frame_operations = FrameOps::new();
                self.success = Some(chars_of("All operations cleared"));
            },
            Action::DiscardChanges => {
                self.save_history();
                self.operations = SegmentOps::new();
                self.mode = Mode::Normal;
            },
            Action::ApplyOptimization(option) => {
                if loaded {
                    self.save_history();
                    apply_option(&mut self.operations, segments, option);
                }
                self.mode = Mode::Normal;
            },
            _ => {},
        }
        no_effects()
    }
}

impl EditorState {
    /// Submit the input dialog: run the operation the dialog asked for with the value read
    /// from `input`, then close the dialog.
    fn submit_input(
        &mut self,
        input: Vec<char>,
        segments: &Vec<Segment>,
        frames: &Vec<AnalyzedFrame<FrameHash>>,
        loaded: bool,
    ) -> (r: Vec<Effect>)
        ensures
            final(self)@ == stepped(old(self)@, Action::SubmitInput(input), segments@, loaded, frame_hashes(frames@)).0,
            effects_view(r@) == stepped(old(self)@, Action::SubmitInput(input), segments@, loaded, frame_hashes(frames@)).1,
    {
        let kind: Option<InputKind> = match &self.mode {
            Mode::Input(k) => Some(*k),
            _ => None,
        };
        match kind {
            Some(InputKind::CapDuration) => match crate::parse::parse_unsigned(&input, 0xffff_ffff) {
                Some(ms) => self.op_cap(ms as u32, segments, loaded),
                None => {},
            },
            Some(InputKind::CollapseDuration) => match crate::parse::parse_unsigned(&input, 0xffff_ffff) {
                Some(ms) => self.op_collapse(ms as u32, segments, loaded),
                None => {},
            },
            Some(InputKind::SpeedFactor) => match crate::parse::parse_decimal_ratio(&input) {
                Some((num, den)) => {
                    if num > 0 {
                        self.op_speed_up(num, den, segments, loaded);
                    }
                },
                None => {},
            },
            Some(InputKind::DuplicateSelection) => {
                self.select_duplicates_with_config(&input, segments, frames, loaded);
            },
            None => {},
        }
        self.mode = Mode::Normal;
        no_effects()
    }

    /// Confirm the export dialog: ask once more when a file would be overwritten, else
    /// close the dialog and export to its path.
    fn confirm_export(&mut self) -> (r: Vec<Effect>)
        ensures
            final(self)@ == stepped(old(self)@, Action::ConfirmExport, Seq::empty(), false, Seq::empty()).0,
            effects_view(r@) == stepped(old(self)@, Action::ConfirmExport, Seq::empty(), false, Seq::empty()).1,
    {
        let mut next: Option<Mode> = None;
        let mut path: Option<Vec<char>> = None;
        match &self.mode {
            Mode::Export(st) => {
                if st.file_exists && !st.confirmed_overwrite {
                    next = Some(Mode::Export(ExportState {
                        path: st.path.clone(),
                        cursor: st.cursor,
                        file_exists: st.file_exists,
                        confirmed_overwrite: true,
                        operation_summary: st.operation_summary,
                    }));
                } else {
                    next = Some(Mode::Normal);
                    path = Some(st.path.clone());
                }
            },
            _ => {},
        }
        match next {
            Some(m) => {
                self.mode = m;
            },
            None => {},
        }
        match path {
            Some(p) => one_effect(Effect::Export(p)),
            None => no_effects(),
        }
    }

    /// Switch to the next hash algorithm, and analyze the file again if there is one.
    fn cycle_hash_algorithm(&mut self) -> (r: Vec<Effect>)
        ensures
            final(self)@ == stepped(old(self)@, Action::CycleHashAlgorithm, Seq::empty(), false, Seq::empty()).0,
            effects_view(r@) == stepped(old(self)@, Action::CycleHashAlgorithm, Seq::empty(), false, Seq::empty()).1,
    {
        let alg = self.hash_algorithm.next();
        self.hash_algorithm = alg;
        if self.has_file {
            self.loading_file = true;
            self.loading_progress = (0, 0);
            self.error = None;
            let mut msg: Vec<char> = Vec::new();
            push_chars(&mut msg, "Switching to ");
            push_chars(&mut msg, alg.name());
            push_chars(&mut msg, " (");
            push_chars(&mut msg, alg.description());
            push_chars(&mut msg, ")");
            proof {
                assert(msg@ =~= switching_text(alg));
            }
            self.success = Some(msg);
            one_effect(Effect::StartLoad)
        } else {
            no_effects()
        }
    }

    /// A fresh editor for the analysis that just finished loading.
    fn finish_loading(&mut self) -> (r: Vec<Effect>)
        ensures
            final(self)@ == stepped(old(self)@, Action::AnalysisLoaded, Seq::empty(), false, Seq::empty()).0,
            effects_view(r@) == stepped(old(self)@, Action::AnalysisLoaded, Seq::empty(), false, Seq::empty()).1,
    {
        self.loading_file = false;
        self.view_mode = ViewMode::Segments;
        self.selected_segment = 0;
        self.selected_segments = HashSet::new();
        self.operations = SegmentOps::new();
        self.frame_operations = FrameOps::new();
        self.selected_frame = 0;
        self.selected_frames = HashSet::new();
        self.history = Vec::new();
        self.frame_history = Vec::new();
        self.error = None;
        self.success = None;
        self.scroll_offset = 0;
        self.preview_frame_index = 0;
        self.preview_playing = false;
        proof {
            assert(self.history@.map_values(|m: SegmentOps| m@) =~= Seq::<Map<usize, SegmentOp>>::empty());
            assert(self.frame_history@.map_values(|m: FrameOps| m@) =~= Seq::<Map<(usize, usize), FrameOp>>::empty());
        }
        one_effect(Effect::ClearPreview)
    }
}

impl EditorState {
    /// Add the duplicates of the highlighted frame to the frame selection, keeping out the
    /// first and last ones that `config` says (`s:N`, `e:N`, `b:N` or `N`).
    fn select_duplicates_with_config(
        &mut self,
        config: &Vec<char>,
        segments: &Vec<Segment>,
        frames: &Vec<AnalyzedFrame<FrameHash>>,
        loaded: bool,
    )
        ensures
            final(self)@ == (if loaded && has_highlight(old(self)@, segments@, frame_hashes(frames@)) {
                EditorView {
                    selected_frames: old(self)@.selected_frames + duplicates_kept_out(
                        matching_frames(old(self)@, segments@, frame_hashes(frames@)),
                        keep_counts(config@),
                    ),
                    ..old(self)@
                }
            } else {
                old(self)@
            }),
    {
        let (keep_start, keep_end) = keep_counts_of(config);
        if !loaded {
            return;
        }
        match self.view_mode {
            ViewMode::Frames { segment_id } => match find_segment(segments, segment_id) {
                Some(seg) => {
                    if self.selected_frame < frames.len() && seg.frame_range.start < frames.len() - self.selected_frame {
                        let m = matching_frame_list(seg, frames, self.selected_frame);
                        let total = m.len();
                        if keep_start < total && keep_end < total - keep_start {
                            insert_range(&mut self.selected_frames, &m, keep_start, total - keep_end);
                        } else {
                            proof {
                                assert(self.selected_frames@ =~= self.selected_frames@ + Set::<usize>::empty());
                            }
                        }
                    }
                },
                None => {},
            },
            ViewMode::Segments => {},
        }
    }

    /// Dialogs, messages, loading and exporting.
    #[verifier::spinoff_prover]
    fn step_dialogs(
        &mut self,
        action: Action,
        segments: &Vec<Segment>,
        frames: &Vec<AnalyzedFrame<FrameHash>>,
        loaded: bool,
    ) -> (r: Vec<Effect>)
        requires
            action_group(action) == 3,
        ensures
            final(self)@ == stepped(old(self)@, action, segments@, loaded, frame_hashes(frames@)).0,
            effects_view(r@) == stepped(old(self)@, action, segments@, loaded, frame_hashes(frames@)).1,
    {
        match action {
            Action::CycleHashAlgorithm => self.cycle_hash_algorithm(),
            Action::ShowHelp => {
                self.mode = Mode::Help;
                no_effects()
            },
            Action::HideOverlay => {
                self.mode = Mode::Normal;
                no_effects()
            },
            Action::ShowInput(kind) => {
                self.input_buffer = chars_of(kind.default_value());
                self.mode = Mode::Input(kind);
                no_effects()
            },
            Action::SubmitInput(input) => self.submit_input(input, segments, frames, loaded),
            Action::CancelInput => {
                self.input_buffer = Vec::new();
                self.mode = Mode::Normal;
                no_effects()
            },
            Action::ShowExport => {
                if loaded && (!self.operations.is_empty() || !self.frame_operations.is_empty()) {
                    one_effect(Effect::OpenExport)
                } else {
                    no_effects()
                }
            },
            Action::ConfirmExport => self.confirm_export(),
            Action::CancelExport => {
                self.mode = Mode::Normal;
                no_effects()
            },
            Action::LoadFile => {
                self.loading_file = true;
                self.loading_progress = (0, 0);
                self.has_file = true;
                self.error = None;
                one_effect(Effect::StartLoad)
            },
            Action::LoadingProgress(current, total) => {
                self.loading_progress = (current, total);
                no_effects()
            },
            Action::AnalysisLoaded => self.finish_loading(),
            Action::AnalysisFailed(err) => {
                let mut msg = chars_of("Failed to load GIF: ");
                let mut rest = err;
                msg.append(&mut rest);
                self.loading_file = false;
                self.error = Some(msg);
                no_effects()
            },
            Action::ExportTo(path) => one_effect(Effect::Export(path)),
            Action::Error(msg) => {
                self.error = Some(msg);
                no_effects()
            },
            Action::ShowOperationsMenu => {
                if loaded {
                    self.mode = Mode::OperationsMenu;
                }
                no_effects()
            },
            Action::CloseOperationsMenu => {
                self.mode = Mode::Normal;
                self.success = Some(chars_of("Menu closed"));
                no_effects()
            },
            _ => no_effects(),
        }
    }

    /// Apply one action: the editor changes as `stepped` says, and the returned effects
    /// are those the surrounding program carries out. `analysis` is the loaded analysis,
    /// if any.
    pub fn update(&mut self, action: Action, analysis: Option<&Analysis<FrameHash>>) -> (r: Vec<Effect>)
        ensures
            final(self)@ == stepped(old(self)@, action, analysis_segments(analysis), analysis.is_some(), analysis_hashes(analysis)).0,
            effects_view(r@) == stepped(old(self)@, action, analysis_segments(analysis), analysis.is_some(), analysis_hashes(analysis)).1,
    {
        let no_segments: Vec<Segment> = Vec::new();
        let no_frames: Vec<AnalyzedFrame<FrameHash>> = Vec::new();
        let (segments, frames, loaded) = match analysis {
            Some(a) => (&a.segments, &a.frames, true),
            None => (&no_segments, &no_frames, false),
        };
        proof {
            assert(frame_hashes(no_frames@) =~= Seq::<Seq<u8>>::empty());
        }
        let g = group_of(&action);
        if g == 0 {
            self.step_navigation(action, segments, loaded, Ghost(frame_hashes(frames@)))
        } else if g == 1 {
            self.step_frames(action, segments, frames, loaded)
        } else if g == 2 {
            self.step_operations(action, segments, loaded, Ghost(frame_hashes(frames@)))
        } else {
            self.step_dialogs(action, segments, frames, loaded)
        }
    }

    /// Open the export dialog for `path`, with the given summary; `file_exists` tells
    /// whether a file is already there.
    pub fn open_export(&mut self, path: Vec<char>, summary: OperationSummary, file_exists: bool)
        ensures
            final(self)@ == (EditorView {
                mode: ModeView::Export(
                    (ExportView {
                        path: path@,
                        cursor: path@.len() as usize,
                        file_exists,
                        confirmed_overwrite: false,
                        summary,
                    }),
                ),
                ..old(self)@
            }),
    {
        self.mode = Mode::Export(ExportState::new(path, summary, file_exists));
    }

    /// Record how an export ended: `Ok(path)` shows success for that path, `Err(reason)`
    /// shows the failure.
    pub fn report_export(&mut self, outcome: Result<Vec<char>, Vec<char>>)
        ensures
            match outcome {
                Ok(p) => final(self)@ == (EditorView { error: None, success: Some("Exported to "@ + p@), ..old(self)@ }),
                Err(e) => final(self)@ == (EditorView { error: Some("Export failed: "@ + e@), ..old(self)@ }),
            },
    {
        match outcome {
            Ok(p) => {
                let mut msg = chars_of("Exported to ");
                let mut rest = p;
                msg.append(&mut rest);
                self.error = None;
                self.success = Some(msg);
            },
            Err(e) => {
                let mut msg = chars_of("Export failed: ");
                let mut rest = e;
                msg.append(&mut rest);
                self.error = Some(msg);
            },
        }
    }
}

/// A key, as the editor reads it.
#[derive(Debug, Clone, Copy, PartialEq, Eq, Structural)]
pub enum KeyCode {
    /// A character key.
    Char(char),
    /// Enter.
    Enter,
    /// Escape.
    Esc,
    /// Backspace.
    Backspace,
    /// Delete.
    Delete,
    /// Left arrow.
    Left,
    /// Right arrow.
    Right,
    /// Up arrow.
    Up,
    /// Down arrow.
    Down,
    /// Home.
    Home,
    /// End.
    End,
    /// Any other key.
    Other,
}

/// A key press: the key and whether Control was held.
#[derive(Debug, Clone, Copy, PartialEq, Eq, Structural)]
pub struct Key {
    /// The key.
    pub code: KeyCode,
    /// Whether Control was held.
    pub control: bool,
}

/// The action a key asks for in the segment list.
pub open spec fn segment_key(code: KeyCode) -> Option<Action> {
    match code {
        KeyCode::Char(c) => {
            if c == 'q' { Some(Action::Quit) }
            else if c == 'h' { Some(Action::PrevSegment) }
            else if c == 'l' { Some(Action::NextSegment) }
            else if c == 'g' { Some(Action::FirstSegment) }
            else if c == 'G' { Some(Action::LastSegment) }
            else if c == 'k' { Some(Action::EnterFrameView) }
            else if c == 'j' { Some(Action::ExitFrameView) }
            else if c == '+' || c == '=' { Some(Action::ZoomPreviewIn) }
            else if c == '-' { Some(Action::ZoomPreviewOut) }
            else if c == '0' { Some(Action::ResetPreviewZoom) }
            else if c == ' ' { Some(Action::ToggleSelected) }
            else if c == 'a' { Some(Action::SelectAll) }
            else if c == 'A' { Some(Action::DeselectAll) }
            else if c == 's' { Some(Action::SelectStatic) }
            else if c == 'm' { Some(Action::SelectMotion) }
            else if c == 'c' { Some(Action::ShowInput(InputKind::CapDuration)) }
            else if c == 'C' { Some(Action::ShowInput(InputKind::CollapseDuration)) }
            else if c == 'r' { Some(Action::ToggleRemove) }
            else if c == 'x' { Some(Action::ClearOperation) }
            else if c == 'u' { Some(Action::Undo) }
            else if c == 'U' { Some(Action::ResetAll) }
            else if c == 'o' { Some(Action::ShowOperationsMenu) }
            else if c == 'p' { Some(Action::TogglePlayback) }
            else if c == 'H' { Some(Action::CycleHashAlgorithm) }
            else if c == 'e' { Some(Action::ShowExport) }
            else if c == '?' { Some(Action::ShowHelp) }
            else { None }
        },
        KeyCode::Esc => Some(Action::HideOverlay),
        KeyCode::Left => Some(Action::PrevSegment),
        KeyCode::Right => Some(Action::NextSegment),
        KeyCode::Home => Some(Action::FirstSegment),
        KeyCode::End => Some(Action::LastSegment),
        KeyCode::Up | KeyCode::Enter => Some(Action::EnterFrameView),
        KeyCode::Down => Some(Action::ExitFrameView),
        _ => None,
    }
}

/// The action a key asks for in the frame view (`u` undoes frame operations at once and
/// asks for none).
pub open spec fn frame_key(key: Key) -> Option<Action> {
    match key.code {
        KeyCode::Char(c) => {
            if c == 'j' { Some(Action::ExitFrameView) }
            else if c == 'q' { Some(Action::Quit) }
            else if c == 'h' { Some(Action::PrevFrameInList) }
            else if c == 'l' { Some(Action::NextFrameInList) }
            else if c == 'g' { Some(Action::FirstFrameInList) }
            else if c == 'G' { Some(Action::LastFrameInList) }
            else if c == '+' || c == '=' { Some(Action::ZoomPreviewIn) }
            else if c == '-' { Some(Action::ZoomPreviewOut) }
            else if c == '0' { Some(Action::ResetPreviewZoom) }
            else if c == ' ' { Some(Action::ToggleFrameSelected) }
            else if c == 'a' { Some(Action::SelectAllFrames) }
            else if c == 'A' { Some(Action::DeselectAllFrames) }
            else if c == 'd' && key.control { Some(Action::ShowInput(InputKind::DuplicateSelection)) }
            else if c == 'd' { Some(Action::SelectDuplicateFrames) }
            else if c == 'r' { Some(Action::ToggleRemoveFrame) }
            else if c == 's' { Some(Action::ToggleSplitAfterFrame) }
            else if c == 'x' { Some(Action::ClearFrameOperation) }
            else if c == 'U' { Some(Action::ResetAll) }
            else if c == 'p' { Some(Action::TogglePlayback) }
            else if c == '?' { Some(Action::ShowHelp) }
            else { None }
        },
        KeyCode::Down | KeyCode::Esc | KeyCode::Backspace => Some(Action::ExitFrameView),
        KeyCode::Left => Some(Action::PrevFrameInList),
        KeyCode::Right => Some(Action::NextFrameInList),
        KeyCode::Home => Some(Action::FirstFrameInList),
        KeyCode::End => Some(Action::LastFrameInList),
        _ => None,
    }
}

/// Whether an input dialog of this kind takes the character.
pub open spec fn input_char_ok(kind: InputKind, c: char) -> bool {
    match kind {
        InputKind::CapDuration | InputKind::CollapseDuration => crate::parse::is_digit(c),
        InputKind::SpeedFactor => crate::parse::is_digit(c) || c == '.',
        InputKind::DuplicateSelection => crate::parse::is_digit(c) || c == 's' || c == 'e' || c == 'b' || c == ':',
    }
}

/// The export dialog after a key, the action asked for, and whether the path changed
/// (so that whether a file is there has to be checked again).
pub open spec fn export_key(e: ExportView, key: Key) -> (ExportView, Option<Action>, bool) {
    if key.code == KeyCode::Enter {
        (e, Some(Action::ConfirmExport), false)
    } else if key.code == KeyCode::Esc {
        (e, Some(Action::CancelExport), false)
    } else if key.code == KeyCode::Char('d') && key.control {
        (e, Some(Action::DiscardChanges), false)
    } else {
        match key.code {
            KeyCode::Backspace => if e.cursor > 0 {
                (ExportView { path: e.path.remove(e.cursor - 1), cursor: (e.cursor - 1) as usize, confirmed_overwrite: false, ..e }, None, true)
            } else {
                (e, None, false)
            },
            KeyCode::Delete => if e.cursor < e.path.len() {
                (ExportView { path: e.path.remove(e.cursor as int), confirmed_overwrite: false, ..e }, None, true)
            } else {
                (e, None, false)
            },
            KeyCode::Left => (ExportView { cursor: if e.cursor > 0 { (e.cursor - 1) as usize } else { e.cursor }, ..e }, None, false),
            KeyCode::Right => (ExportView { cursor: if e.cursor < e.path.len() { (e.cursor + 1) as usize } else { e.cursor }, ..e }, None, false),
            KeyCode::Home => (ExportView { cursor: 0, ..e }, None, false),
            KeyCode::End => (ExportView { cursor: e.path.len() as usize, ..e }, None, false),
            KeyCode::Char(c) => (ExportView { path: e.path.insert(e.cursor as int, c), cursor: (e.cursor + 1) as usize, confirmed_overwrite: false, ..e }, None, true),
            _ => (e, None, false),
        }
    }
}

/// Whether the key submits an input dialog (with the text typed so far).
pub open spec fn submits_input(v: EditorView, key: Key) -> bool {
    v.mode is Input && key.code == KeyCode::Enter
}

/// Whether the export dialog's cursor lies within its path.
pub open spec fn export_cursor_ok(v: EditorView) -> bool {
    v.mode matches ModeView::Export(e) ==> e.cursor <= e.path.len()
}

/// The editor after a key, the action the key asks for (an input dialog's submission
/// aside, see `submits_input`), and whether the export path changed. Any key clears the
/// messages.
pub open spec fn key_stepped(v0: EditorView, key: Key) -> (EditorView, Option<Action>, bool) {
    let v = EditorView { error: None, success: None, ..v0 };
    match v.mode {
        ModeView::Input(kind) => match key.code {
            KeyCode::Enter => (EditorView { input_buffer: Seq::empty(), ..v }, None, false),
            KeyCode::Esc => (EditorView { input_buffer: Seq::empty(), ..v }, Some(Action::CancelInput), false),
            KeyCode::Backspace => (EditorView {
                input_buffer: if v.input_buffer.len() > 0 { v.input_buffer.drop_last() } else { v.input_buffer },
                ..v
            }, None, false),
            KeyCode::Char(c) => (EditorView {
                input_buffer: if input_char_ok(kind, c) { v.input_buffer.push(c) } else { v.input_buffer },
                ..v
            }, None, false),
            _ => (v, None, false),
        },
        ModeView::Export(e) => {
            let (e2, a, changed) = export_key(e, key);
            (EditorView { mode: ModeView::Export(e2), ..v }, a, changed)
        },
        ModeView::Help => if key.code == KeyCode::Esc || key.code == KeyCode::Char('q') || key.code == KeyCode::Char('?') {
            (v, Some(Action::HideOverlay), false)
        } else {
            (v, None, false)
        },
        ModeView::OperationsMenu => match key.code {
            KeyCode::Esc => (v, Some(Action::CloseOperationsMenu), false),
            KeyCode::Char(c) => match OptimizeOption::spec_from_key(c) {
                Some(o) => (v, Some(Action::ApplyOptimization(o)), false),
                None => (v, None, false),
            },
            _ => (v, None, false),
        },
        ModeView::Normal => match v.view_mode {
            ViewMode::Frames { .. } => if key.code == KeyCode::Char('u') {
                if v.frame_history.len() > 0 {
                    (EditorView { frame_operations: v.frame_history.last(), frame_history: v.frame_history.drop_last(), ..v }, None, false)
                } else {
                    (v, None, false)
                }
            } else {
                (v, frame_key(key), false)
            },
            ViewMode::Segments => (v, segment_key(key.code), false),
        },
    }
}

/// The action a key asks for in the segment list.
fn segment_key_action(code: KeyCode) -> (r: Option<Action>)
    ensures
        r == segment_key(code),
{
    match code {
        KeyCode::Char(c) => {
            if c == 'q' { Some(Action::Quit) }
            else if c == 'h' { Some(Action::PrevSegment) }
            else if c == 'l' { Some(Action::NextSegment) }
            else if c == 'g' { Some(Action::FirstSegment) }
            else if c == 'G' { Some(Action::LastSegment) }
            else if c == 'k' { Some(Action::EnterFrameView) }
            else if c == 'j' { Some(Action::ExitFrameView) }
            else if c == '+' || c == '=' { Some(Action::ZoomPreviewIn) }
            else if c == '-' { Some(Action::ZoomPreviewOut) }
            else if c == '0' { Some(Action::ResetPreviewZoom) }
            else if c == ' ' { Some(Action::ToggleSelected) }
            else if c == 'a' { Some(Action::SelectAll) }
            else if c == 'A' { Some(Action::DeselectAll) }
            else if c == 's' { Some(Action::SelectStatic) }
            else if c == 'm' { Some(Action::SelectMotion) }
            else if c == 'c' { Some(Action::ShowInput(InputKind::CapDuration)) }
            else if c == 'C' { Some(Action::ShowInput(InputKind::CollapseDuration)) }
            else if c == 'r' { Some(Action::ToggleRemove) }
            else if c == 'x' { Some(Action::ClearOperation) }
            else if c == 'u' { Some(Action::Undo) }
            else if c == 'U' { Some(Action::ResetAll) }
            else if c == 'o' { Some(Action::ShowOperationsMenu) }
            else if c == 'p' { Some(Action::TogglePlayback) }
            else if c == 'H' { Some(Action::CycleHashAlgorithm) }
            else if c == 'e' { Some(Action::ShowExport) }
            else if c == '?' { Some(Action::ShowHelp) }
            else { None }
        },
        KeyCode::Esc => Some(Action::HideOverlay),
        KeyCode::Left => Some(Action::PrevSegment),
        KeyCode::Right => Some(Action::NextSegment),
        KeyCode::Home => Some(Action::FirstSegment),
        KeyCode::End => Some(Action::LastSegment),
        KeyCode::Up | KeyCode::Enter => Some(Action::EnterFrameView),
        KeyCode::Down => Some(Action::ExitFrameView),
        _ => None,
    }
}

/// The action a key asks for in the frame view.
fn frame_key_action(key: Key) -> (r: Option<Action>)
    ensures
        r == frame_key(key),
{
    match key.code {
        KeyCode::Char(c) => {
            if c == 'j' { Some(Action::ExitFrameView) }
            else if c == 'q' { Some(Action::Quit) }
            else if c == 'h' { Some(Action::PrevFrameInList) }
            else if c == 'l' { Some(Action::NextFrameInList) }
            else if c == 'g' { Some(Action::FirstFrameInList) }
            else if c == 'G' { Some(Action::LastFrameInList) }
            else if c == '+' || c == '=' { Some(Action::ZoomPreviewIn) }
            else if c == '-' { Some(Action::ZoomPreviewOut) }
            else if c == '0' { Some(Action::ResetPreviewZoom) }
            else if c == ' ' { Some(Action::ToggleFrameSelected) }
            else if c == 'a' { Some(Action::SelectAllFrames) }
            else if c == 'A' { Some(Action::DeselectAllFrames) }
            else if c == 'd' && key.control { Some(Action::ShowInput(InputKind::DuplicateSelection)) }
            else if c == 'd' { Some(Action::SelectDuplicateFrames) }
            else if c == 'r' { Some(Action::ToggleRemoveFrame) }
            else if c == 's' { Some(Action::ToggleSplitAfterFrame) }
            else if c == 'x' { Some(Action::ClearFrameOperation) }
            else if c == 'U' { Some(Action::ResetAll) }
            else if c == 'p' { Some(Action::TogglePlayback) }
            else if c == '?' { Some(Action::ShowHelp) }
            else { None }
        },
        KeyCode::Down | KeyCode::Esc | KeyCode::Backspace => Some(Action::ExitFrameView),
        KeyCode::Left => Some(Action::PrevFrameInList),
        KeyCode::Right => Some(Action::NextFrameInList),
        KeyCode::Home => Some(Action::FirstFrameInList),
        KeyCode::End => Some(Action::LastFrameInList),
        _ => None,
    }
}

/// Whether an input dialog of this kind takes the character.
fn input_char_allowed(kind: InputKind, c: char) -> (r: bool)
    ensures
        r == input_char_ok(kind, c),
{
    let digit = '0' <= c && c <= '9';
    match kind {
        InputKind::CapDuration | InputKind::CollapseDuration => digit,
        InputKind::SpeedFactor => digit || c == '.',
        InputKind::DuplicateSelection => digit || c == 's' || c == 'e' || c == 'b' || c == ':',
    }
}

/// Apply a key to the export dialog: returns the action asked for and whether the path
/// changed.
fn export_key_step(st: &mut ExportState, key: Key) -> (r: (Option<Action>, bool))
    requires
        old(st).cursor <= old(st).path@.len(),
    ensures
        ({
            let e = ExportView {
                path: old(st).path@,
                cursor: old(st).cursor,
                file_exists: old(st).file_exists,
                confirmed_overwrite: old(st).confirmed_overwrite,
                summary: old(st).operation_summary,
            };
            let (e2, a, changed) = export_key(e, key);
            &&& final(st).path@ == e2.path
            &&& final(st).cursor == e2.cursor
            &&& final(st).file_exists == e2.file_exists
            &&& final(st).confirmed_overwrite == e2.confirmed_overwrite
            &&& final(st).operation_summary == e2.summary
            &&& r.0 == a
            &&& r.1 == changed
        }),
        final(st).cursor <= final(st).path@.len(),
{
    if key.code == KeyCode::Enter {
        return (Some(Action::ConfirmExport), false);
    }
    if key.code == KeyCode::Esc {
        return (Some(Action::CancelExport), false);
    }
    if key.code == KeyCode::Char('d') && key.control {
        return (Some(Action::DiscardChanges), false);
    }
    match key.code {
        KeyCode::Backspace => {
            if st.cursor > 0 {
                st.path.remove(st.cursor - 1);
                st.cursor = st.cursor - 1;
                st.confirmed_overwrite = false;
                (None, true)
            } else {
                (None, false)
            }
        },
        KeyCode::Delete => {
            if st.cursor < st.path.len() {
                st.path.remove(st.cursor);
                st.confirmed_overwrite = false;
                (None, true)
            } else {
                (None, false)
            }
        },
        KeyCode::Left => {
            if st.cursor > 0 {
                st.cursor = st.cursor - 1;
            }
            (None, false)
        },
        KeyCode::Right => {
            if st.cursor < st.path.len() {
                st.cursor = st.cursor + 1;
            }
            (None, false)
        },
        KeyCode::Home => {
            st.cursor = 0;
            (None, false)
        },
        KeyCode::End => {
            st.cursor = st.path.len();
            (None, false)
        },
        KeyCode::Char(c) => {
            st.path.insert(st.cursor, c);
            let len = st.path.len();
            assert(st.cursor < len);
            st.cursor = st.cursor + 1;
            st.confirmed_overwrite = false;
            (None, true)
        },
        _ => (None, false),
    }
}

impl EditorState {
    /// Read a key: the editor changes as `key_stepped` says, and the result holds the
    /// action the key asks for and whether the export path changed (then whether a file
    /// is there has to be checked again, see `recheck_export`). Enter in an input dialog
    /// submits the text typed so far.
    pub fn handle_key(&mut self, key: Key) -> (r: (Option<Action>, bool))
        requires
            export_cursor_ok(old(self)@),
        ensures
            final(self)@ == key_stepped(old(self)@, key).0,
            r.1 == key_stepped(old(self)@, key).2,
            !submits_input(old(self)@, key) ==> r.0 == key_stepped(old(self)@, key).1,
            submits_input(old(self)@, key) ==> (r.0 matches Some(Action::SubmitInput(s)) && s@ == old(self)@.input_buffer),
            export_cursor_ok(final(self)@),
    {
        self.error = None;
        self.success = None;
        let mut mode = Mode::Normal;
        std::mem::swap(&mut mode, &mut self.mode);
        match mode {
            Mode::Input(kind) => {
                self.mode = Mode::Input(kind);
                match key.code {
                    KeyCode::Enter => {
                        let mut input: Vec<char> = Vec::new();
                        std::mem::swap(&mut input, &mut self.input_buffer);
                        (Some(Action::SubmitInput(input)), false)
                    },
                    KeyCode::Esc => {
                        self.input_buffer = Vec::new();
                        (Some(Action::CancelInput), false)
                    },
                    KeyCode::Backspace => {
                        self.input_buffer.pop();
                        (None, false)
                    },
                    KeyCode::Char(c) => {
                        if input_char_allowed(kind, c) {
                            self.input_buffer.push(c);
                        }
                        (None, false)
                    },
                    _ => (None, false),
                }
            },
            Mode::Export(st) => {
                let mut st = st;
                let r = export_key_step(&mut st, key);
                self.mode = Mode::Export(st);
                r
            },
            Mode::Help => {
                self.mode = Mode::Help;
                if key.code == KeyCode::Esc || key.code == KeyCode::Char('q') || key.code == KeyCode::Char('?') {
                    (Some(Action::HideOverlay), false)
                } else {
                    (None, false)
                }
            },
            Mode::OperationsMenu => {
                self.mode = Mode::OperationsMenu;
                match key.code {
                    KeyCode::Esc => (Some(Action::CloseOperationsMenu), false),
                    KeyCode::Char(c) => match OptimizeOption::from_key(c) {
                        Some(o) => (Some(Action::ApplyOptimization(o)), false),
                        None => (None, false),
                    },
                    _ => (None, false),
                }
            },
            Mode::Normal => {
                self.mode = Mode::Normal;
                match self.view_mode {
                    ViewMode::Frames { .. } => {
                        if key.code == KeyCode::Char('u') {
                            let ghost before = self.frame_history@;
                            match self.frame_history.pop() {
                                Some(prev) => {
                                    self.frame_operations = prev;
                                    proof {
                                        assert(self.frame_history@.map_values(|m: FrameOps| m@) =~= before.map_values(
                                            |m: FrameOps| m@,
                                        ).drop_last());
                                    }
                                },
                                None => {},
                            }
                            (None, false)
                        } else {
                            (frame_key_action(key), false)
                        }
                    },
                    ViewMode::Segments => (segment_key_action(key.code), false),
                }
            },
        }
    }

    /// Record whether a file is at the export dialog's path, after the path changed.
    pub fn recheck_export(&mut self, exists: bool)
        ensures
            final(self)@ == (match old(self)@.mode {
                ModeView::Export(e) => EditorView {
                    mode: ModeView::Export(
                        (ExportView { file_exists: exists, confirmed_overwrite: e.confirmed_overwrite && exists, ..e }),
                    ),
                    ..old(self)@
                },
                _ => old(self)@,
            }),
    {
        let mut mode = Mode::Normal;
        std::mem::swap(&mut mode, &mut self.mode);
        match mode {
            Mode::Export(st) => {
                let mut st = st;
                st.check_file_exists(exists);
                self.mode = Mode::Export(st);
            },
            other => {
                self.mode = other;
            },
        }
    }
}

/// Whether an action saves the segment operations for undo before changing them.
pub open spec fn saves_history(a: Action, loaded: bool) -> bool {
    match a {
        Action::CapDuration(_) | Action::CollapseDuration(_) | Action::SpeedUp(_, _) | Action::SlowDown(_, _)
        | Action::SetDuration(_) | Action::ToggleRemove | Action::ClearOperation | Action::ResetAll
        | Action::DiscardChanges => true,
        Action::ApplyOptimization(_) => loaded,
        _ => false,
    }
}

/// Undo right after an action that saves the segment operations gives back the
/// operations as they were before that action.
pub proof fn law_undo_restores_operations(
    v: EditorView,
    a: Action,
    segments: Seq<Segment>,
    loaded: bool,
    hashes: Seq<Seq<u8>>,
)
    requires
        saves_history(a, loaded),
    ensures
        stepped(stepped(v, a, segments, loaded, hashes).0, Action::Undo, segments, loaded, hashes).0.operations
            == v.operations,
{
    let w = stepped(v, a, segments, loaded, hashes).0;
    assert(w.history == saved(v.history, v.operations));
    assert(w.history.last() == v.operations);
}

/// Toggling removal twice in a row leaves the segment operations as they were, when the
/// targeted segments hold no operation other than removal.
pub proof fn law_toggle_remove_twice(v: EditorView, segments: Seq<Segment>, loaded: bool, hashes: Seq<Seq<u8>>)
    requires
        forall|k: usize|
            #[trigger] target_ids(v, segments).contains(k) && v.operations.contains_key(k) ==> v.operations[k]
                == SegmentOp::Remove,
    ensures
        stepped(stepped(v, Action::ToggleRemove, segments, loaded, hashes).0, Action::ToggleRemove, segments, loaded, hashes).0.operations
            == v.operations,
{
    let w = stepped(v, Action::ToggleRemove, segments, loaded, hashes).0;
    assert(target_ids(w, segments) == target_ids(v, segments));
    let u = stepped(w, Action::ToggleRemove, segments, loaded, hashes).0;
    assert(u.operations =~= v.operations);
}

/// The undo histories never grow past 50 entries.
pub proof fn law_history_bounded(v: EditorView, a: Action, segments: Seq<Segment>, loaded: bool, hashes: Seq<Seq<u8>>)
    requires
        v.history.len() <= history_limit(),
        v.frame_history.len() <= history_limit(),
    ensures
        stepped(v, a, segments, loaded, hashes).0.history.len() <= history_limit(),
        stepped(v, a, segments, loaded, hashes).0.frame_history.len() <= history_limit(),
{
    lemma_saved_len(v.history, v.operations);
    lemma_saved_len(v.frame_history, v.frame_operations);
    match a {
        Action::SubmitInput(_) => {},
        Action::ResetAll => {
            lemma_saved_len(with_history(v).frame_history, with_history(v).frame_operations);
        },
        Action::Undo => {},
        Action::CapDuration(_) | Action::CollapseDuration(_) | Action::SpeedUp(_, _) | Action::SlowDown(_, _)
        | Action::SetDuration(_) | Action::ToggleRemove | Action::ClearOperation | Action::DiscardChanges
        | Action::ApplyOptimization(_) => {},
        Action::ToggleRemoveFrame | Action::ToggleSplitAfterFrame | Action::ClearFrameOperation => {},
        _ => {},
    }
}

/// Saving into a history of at most 50 entries keeps it at most 50 long.
proof fn lemma_saved_len<T>(h: Seq<T>, x: T)
    requires
        h.len() <= history_limit(),
    ensures
        saved(h, x).len() <= history_limit(),
{
}

/// The id of the current segment, if there is one.
pub open spec fn current_id(v: EditorView, segments: Seq<Segment>) -> Option<usize> {
    if v.selected_segment < segments.len() {
        Some(segments[v.selected_segment as int].id)
    } else {
        None
    }
}

/// The key hints of the footer, as (key, description) pairs.
pub open spec fn keybinds(v: EditorView, segments: Seq<Segment>, loaded: bool) -> Seq<(Seq<char>, Seq<char>)> {
    let base = seq![("q"@, "quit"@), ("?"@, "help"@)];
    if !loaded {
        base
    } else {
        let nav = base + seq![("j/k"@, "nav"@), ("Space"@, "select"@)];
        let ops = if !v.selected_segments.is_empty() || segments.len() > 0 {
            nav + seq![("r"@, "remove"@), ("c"@, "cap"@)]
        } else {
            nav
        };
        let has_op = (current_id(v, segments) matches Some(id) && v.operations.contains_key(id))
            || exists|id: usize| v.selected_segments.contains(id) && #[trigger] v.operations.contains_key(id);
        let clear = if has_op { ops + seq![("x"@, "clear"@)] } else { ops };
        if !v.operations.is_empty() {
            clear + seq![("u"@, "undo"@), ("e"@, "export"@)]
        } else {
            clear
        }
    }
}

/// Push a key hint.
fn push_bind(binds: &mut Vec<(&'static str, &'static str)>, key: &'static str, desc: &'static str)
    ensures
        final(binds)@.len() == old(binds)@.len() + 1,
        forall|i: int| 0 <= i < old(binds)@.len() ==> #[trigger] final(binds)@[i] == old(binds)@[i],
        final(binds)@.last() == (key, desc),
{
    binds.push((key, desc));
}

/// The views of key hints.
pub open spec fn binds_view(binds: Seq<(&'static str, &'static str)>) -> Seq<(Seq<char>, Seq<char>)> {
    binds.map_values(|b: (&'static str, &'static str)| (b.0@, b.1@))
}

impl EditorState {
    /// The id of the current segment of the loaded analysis, if there is one.
    pub fn current_segment_id(&self, analysis: Option<&Analysis<FrameHash>>) -> (r: Option<usize>)
        ensures
            r == current_id(self@, analysis_segments(analysis)),
    {
        match analysis {
            Some(a) => {
                if self.selected_segment < a.segments.len() {
                    Some(a.segments[self.selected_segment].id)
                } else {
                    None
                }
            },
            None => None,
        }
    }

    /// Whether the current segment has an operation.
    pub fn current_has_operation(&self, analysis: Option<&Analysis<FrameHash>>) -> (r: bool)
        ensures
            r == (current_id(self@, analysis_segments(analysis)) matches Some(id) && self@.operations.contains_key(id)),
    {
        match self.current_segment_id(analysis) {
            Some(id) => self.operations.contains_key(&id),
            None => false,
        }
    }

    /// The number of segments of the loaded analysis (0 when none is loaded).
    pub fn segment_count(&self, analysis: Option<&Analysis<FrameHash>>) -> (r: usize)
        ensures
            r == analysis_segments(analysis).len(),
    {
        match analysis {
            Some(a) => a.segments.len(),
            None => 0,
        }
    }

    /// The frame shown in the preview, as an index into all frames: the preview frame of
    /// the current segment, or its first frame when the preview index lies past its end.
    pub fn get_preview_frame_index(&self, analysis: Option<&Analysis<FrameHash>>) -> (r: Option<usize>)
        ensures
            r == (match current_id(self@, analysis_segments(analysis)) {
                Some(_) => {
                    let seg = analysis_segments(analysis)[self@.selected_segment as int];
                    if seg.frame_range.start + self@.preview_frame_index < seg.frame_range.end {
                        Some((seg.frame_range.start + self@.preview_frame_index) as usize)
                    } else {
                        Some(seg.frame_range.start)
                    }
                },
                None => None,
            }),
    {
        let a = match analysis {
            Some(a) => a,
            None => {
                return None;
            },
        };
        if self.selected_segment >= a.segments.len() {
            return None;
        }
        let seg = &a.segments[self.selected_segment];
        if self.preview_frame_index < seg.frame_range.end && seg.frame_range.start < seg.frame_range.end - self.preview_frame_index {
            Some(seg.frame_range.start + self.preview_frame_index)
        } else {
            Some(seg.frame_range.start)
        }
    }

    /// The key hints the footer shows for the current state.
    pub fn get_context_keybinds(&self, analysis: Option<&Analysis<FrameHash>>) -> (r: Vec<(&'static str, &'static str)>)
        ensures
            binds_view(r@) == keybinds(self@, analysis_segments(analysis), analysis.is_some()),
    {
        let ghost v = self@;
        let ghost segs = analysis_segments(analysis);
        let mut binds: Vec<(&'static str, &'static str)> = Vec::new();
        push_bind(&mut binds, "q", "quit");
        push_bind(&mut binds, "?", "help");
        let ghost base = binds@;
        proof {
            assert(binds_view(base) =~= seq![("q"@, "quit"@), ("?"@, "help"@)]);
        }
        if analysis.is_none() {
            return binds;
        }
        push_bind(&mut binds, "j/k", "nav");
        push_bind(&mut binds, "Space", "select");
        let ghost nav = binds@;
        proof {
            assert(binds_view(nav) =~= binds_view(base) + seq![("j/k"@, "nav"@), ("Space"@, "select"@)]);
        }
        if !self.selected_segments.is_empty() || self.segment_count(analysis) > 0 {
            push_bind(&mut binds, "r", "remove");
            push_bind(&mut binds, "c", "cap");
            proof {
                assert(binds_view(binds@) =~= binds_view(nav) + seq![("r"@, "remove"@), ("c"@, "cap"@)]);
            }
        }
        let ghost ops_binds = binds@;
        let mut has_op = self.current_has_operation(analysis);
        let ids = collect_ids(&self.selected_segments);
        let mut i: usize = 0;
        while i < ids.len()
            invariant
                i <= ids@.len(),
                ids@.to_set() == self.selected_segments@,
                has_op == ((current_id(v, segs) matches Some(id) && v.operations.contains_key(id))
                    || exists|j: int| 0 <= j < i && #[trigger] v.operations.contains_key(ids@[j])),
                v == self@,
                segs == analysis_segments(analysis),
            decreases ids@.len() - i,
        {
            if self.operations.contains_key(&ids[i]) {
                has_op = true;
            }
            proof {
                if v.operations.contains_key(ids@[i as int]) {
                    assert(0 <= i < i + 1 && v.operations.contains_key(ids@[i as int]));
                }
                if !v.operations.contains_key(ids@[i as int]) && exists|j: int| 0 <= j < i + 1 && #[trigger] v.operations.contains_key(ids@[j]) {
                    let j = choose|j: int| 0 <= j < i + 1 && #[trigger] v.operations.contains_key(ids@[j]);
                    assert(j < i);
                }
            }
            i = i + 1;
        }
        proof {
            let any_sel = exists|id: usize| v.selected_segments.contains(id) && #[trigger] v.operations.contains_key(id);
            if any_sel {
                let id = choose|id: usize| v.selected_segments.contains(id) && #[trigger] v.operations.contains_key(id);
                assert(ids@.to_set().contains(id));
                let j = choose|j: int| 0 <= j < ids@.len() && ids@[j] == id;
                assert(v.operations.contains_key(ids@[j]));
            }
            if exists|j: int| 0 <= j < i && #[trigger] v.operations.contains_key(ids@[j]) {
                let j = choose|j: int| 0 <= j < i && #[trigger] v.operations.contains_key(ids@[j]);
                assert(ids@.contains(ids@[j]));
                assert(v.selected_segments.contains(ids@[j]));
            }
        }
        if has_op {
            push_bind(&mut binds, "x", "clear");
            proof {
                assert(binds_view(binds@) =~= binds_view(ops_binds) + seq![("x"@, "clear"@)]);
            }
        }
        let ghost clear_binds = binds@;
        if !self.operations.is_empty() {
            push_bind(&mut binds, "u", "undo");
            push_bind(&mut binds, "e", "export");
            proof {
                assert(binds_view(binds@) =~= binds_view(clear_binds) + seq![("u"@, "undo"@), ("e"@, "export"@)]);
            }
        }
        binds
    }
}

/// How the export summary counts an operation: removal (0), collapse (1), retiming (2:
/// scale, set duration, set frame delay), or none (3: keep).
pub open spec fn op_kind(op: SegmentOp) -> u8 {
    match op {
        SegmentOp::Remove => 0,
        SegmentOp::Collapse { .. } => 1,
        SegmentOp::Keep => 3,
        _ => 2,
    }
}

/// How many operations are of the kind.
pub open spec fn ops_of_kind(ops: Map<usize, SegmentOp>, kind: u8) -> nat {
    ops.dom().filter(|k: usize| op_kind(ops[k]) == kind).len()
}

/// How many of the (id, operation) pairs are of the kind.
pub open spec fn pairs_of_kind(s: Seq<(usize, SegmentOp)>, kind: u8) -> nat
    decreases s.len(),
{
    if s.len() == 0 {
        0
    } else {
        pairs_of_kind(s.drop_last(), kind) + if op_kind(s.last().1) == kind { 1nat } else { 0nat }
    }
}

/// Counting the pairs of a map, each id once, counts its operations.
proof fn lemma_pairs_of_kind(s: Seq<(usize, SegmentOp)>, m: Map<usize, SegmentOp>, kind: u8)
    requires
        m.dom().finite(),
        forall|i: int| 0 <= i < s.len() ==> m.contains_key(#[trigger] s[i].0) && m[s[i].0] == s[i].1,
        forall|k: usize| #[trigger] m.contains_key(k) ==> exists|i: int| 0 <= i < s.len() && s[i].0 == k,
        forall|i: int, j: int| 0 <= i < j < s.len() ==> #[trigger] s[i].0 != #[trigger] s[j].0,
    ensures
        pairs_of_kind(s, kind) == ops_of_kind(m, kind),
    decreases s.len(),
{
    let f = |k: usize| op_kind(m[k]) == kind;
    if s.len() == 0 {
        assert(m.dom() =~= Set::<usize>::empty());
        assert(m.dom().filter(f) =~= Set::<usize>::empty());
    } else {
        let last = s.last();
        let rest = s.drop_last();
        let m2 = m.remove(last.0);
        assert forall|k: usize| #[trigger] m2.contains_key(k) implies exists|i: int| 0 <= i < rest.len() && rest[i].0 == k by {
            let i = choose|i: int| 0 <= i < s.len() && s[i].0 == k;
            assert(i != s.len() - 1);
            assert(rest[i].0 == k);
        }
        assert forall|i: int| 0 <= i < rest.len() implies m2.contains_key(#[trigger] rest[i].0) && m2[rest[i].0] == rest[i].1 by {
            assert(s[i].0 != s[s.len() - 1].0);
        }
        lemma_pairs_of_kind(rest, m2, kind);
        let f2 = |k: usize| op_kind(m2[k]) == kind;
        assert(m2.dom().filter(f2) =~= m.dom().filter(f).remove(last.0));
        m.dom().lemma_len_filter(f);
        if f(last.0) {
            assert(m.dom().filter(f).contains(last.0));
        } else {
            assert(m.dom().filter(f).remove(last.0) =~= m.dom().filter(f));
        }
    }
}

/// The pairs of a map's iteration, as values.
pub open spec fn pairs_view(seq: Seq<(&usize, &SegmentOp)>) -> Seq<(usize, SegmentOp)> {
    seq.map_values(|p: (&usize, &SegmentOp)| (*p.0, *p.1))
}

/// `seq` is an iteration over the map: each pair once, every pair of the map.
pub open spec fn iterates(seq: Seq<(&usize, &SegmentOp)>, ops: Map<usize, SegmentOp>) -> bool {
    &&& ops.dom().finite()
    &&& seq.no_duplicates()
    &&& forall|i: int| 0 <= i < seq.len() ==> ops.contains_key(*(#[trigger] seq[i]).0) && ops[*seq[i].0] == *seq[i].1
    &&& forall|k: usize| #[trigger] ops.contains_key(k) ==> seq.contains((&k, &ops[k]))
}

/// Any iteration over a map counts its operations by kind.
proof fn lemma_iterations_count()
    ensures
        forall|seq: Seq<(&usize, &SegmentOp)>, ops: Map<usize, SegmentOp>| #[trigger] iterates(seq, ops) ==> {
            &&& pairs_of_kind(pairs_view(seq), 0) == ops_of_kind(ops, 0)
            &&& pairs_of_kind(pairs_view(seq), 1) == ops_of_kind(ops, 1)
            &&& pairs_of_kind(pairs_view(seq), 2) == ops_of_kind(ops, 2)
        },
{
    assert forall|seq: Seq<(&usize, &SegmentOp)>, ops: Map<usize, SegmentOp>| #[trigger] iterates(seq, ops) implies {
        &&& pairs_of_kind(pairs_view(seq), 0) == ops_of_kind(ops, 0)
        &&& pairs_of_kind(pairs_view(seq), 1) == ops_of_kind(ops, 1)
        &&& pairs_of_kind(pairs_view(seq), 2) == ops_of_kind(ops, 2)
    } by {
        lemma_iterated_kinds(seq, ops);
    }
}

/// The pairs a map iterates over, each id once, count its operations.
proof fn lemma_iterated_kinds(seq: Seq<(&usize, &SegmentOp)>, ops: Map<usize, SegmentOp>)
    requires
        iterates(seq, ops),
    ensures
        pairs_of_kind(seq.map_values(|p: (&usize, &SegmentOp)| (*p.0, *p.1)), 0) == ops_of_kind(ops, 0),
        pairs_of_kind(seq.map_values(|p: (&usize, &SegmentOp)| (*p.0, *p.1)), 1) == ops_of_kind(ops, 1),
        pairs_of_kind(seq.map_values(|p: (&usize, &SegmentOp)| (*p.0, *p.1)), 2) == ops_of_kind(ops, 2),
{
    let all = seq.map_values(|p: (&usize, &SegmentOp)| (*p.0, *p.1));
    assert forall|k: usize| #[trigger] ops.contains_key(k) implies exists|i: int| 0 <= i < all.len() && all[i].0 == k by {
        assert(seq.contains((&k, &ops[k])));
        let i = choose|i: int| 0 <= i < seq.len() && seq[i] == (&k, &ops[k]);
        assert(all[i].0 == k);
    }
    assert forall|i: int, j: int| 0 <= i < j < all.len() implies #[trigger] all[i].0 != #[trigger] all[j].0 by {
        if all[i].0 == all[j].0 {
            assert(seq[i] == seq[j]);
        }
    }
    lemma_pairs_of_kind(all, ops, 0);
    lemma_pairs_of_kind(all, ops, 1);
    lemma_pairs_of_kind(all, ops, 2);
}

/// Count the operations by kind: (removals, collapses, retimings).
fn count_op_kinds(ops: &SegmentOps) -> (r: (usize, usize, usize))
    ensures
        r.0 == ops_of_kind(ops@, 0),
        r.1 == ops_of_kind(ops@, 1),
        r.2 == ops_of_kind(ops@, 2),
{
    let mut removed: usize = 0;
    let mut collapsed: usize = 0;
    let mut scaled: usize = 0;
    let ghost pairs_of = |p: (&usize, &SegmentOp)| (*p.0, *p.1);
    let n = ops.len();
    proof {
        if ops@.dom().len() == 0 {
            ops@.dom().lemma_len_filter(|k: usize| op_kind(ops@[k]) == 0u8);
            ops@.dom().lemma_len_filter(|k: usize| op_kind(ops@[k]) == 1u8);
            ops@.dom().lemma_len_filter(|k: usize| op_kind(ops@[k]) == 2u8);
        }
    }
    for entry in it: ops.iter()
        invariant
            pairs_of == (|p: (&usize, &SegmentOp)| (*p.0, *p.1)),
            removed == pairs_of_kind(it.seq().take(it.index() as int).map_values(pairs_of), 0),
            collapsed == pairs_of_kind(it.seq().take(it.index() as int).map_values(pairs_of), 1),
            scaled == pairs_of_kind(it.seq().take(it.index() as int).map_values(pairs_of), 2),
            removed + collapsed + scaled <= it.index(),
            it.index() <= it.seq().len(),
            it.seq().len() == ops@.dom().len(),
            n == ops@.dom().len(),
            ops@.dom().finite(),
            ops@.dom().len() == 0 ==> ops_of_kind(ops@, 0) == 0 && ops_of_kind(ops@, 1) == 0 && ops_of_kind(ops@, 2) == 0,
            it.seq().no_duplicates(),
            forall|i: int| 0 <= i < it.seq().len() ==> ops@.contains_key(*(#[trigger] it.seq()[i]).0) && ops@[*it.seq()[i].0] == *it.seq()[i].1,
            forall|k: usize| #[trigger] ops@.contains_key(k) ==> it.seq().contains((&k, &ops@[k])),
            it.index() == it.seq().len() ==> removed == ops_of_kind(ops@, 0) && collapsed == ops_of_kind(ops@, 1)
                && scaled == ops_of_kind(ops@, 2),
    {
        let (_, op) = entry;
        proof {
            let t = it.seq().take(it.index() as int).map_values(pairs_of);
            let t1 = it.seq().take(it.index() + 1).map_values(pairs_of);
            assert(t1.drop_last() =~= t);
        }
        match op {
            SegmentOp::Remove => removed = removed + 1,
            SegmentOp::Collapse { .. } => collapsed = collapsed + 1,
            SegmentOp::Keep => {},
            _ => scaled = scaled + 1,
        }
        proof {
            lemma_iterations_count();
            assert(iterates(it.seq(), ops@));
            assert(it.index() + 1 == it.seq().len() ==> it.seq().take(it.index() + 1) =~= it.seq());
            assert(pairs_view(it.seq()) == it.seq().map_values(pairs_of));
        }
    }
    (removed, collapsed, scaled)
}

/// The preview statistics of an analysis with the pending operations: frames and
/// duration before and after.
pub open spec fn stats_of(a: Analysis<FrameHash>, v: EditorView) -> PreviewStats {
    let totals = dry_totals_all(a.frames@, a.segments@, v.operations, v.frame_operations);
    PreviewStats {
        original_frames: a.frames@.len() as usize,
        original_duration: a.metadata.total_duration_ms,
        result_frames: totals.0 as usize,
        result_duration: (totals.1 * 10) as u64,
    }
}

/// The result of the pending operations on the analysis fits the statistics' integers.
pub open spec fn stats_fit(a: Analysis<FrameHash>, v: EditorView) -> bool {
    let totals = dry_totals_all(a.frames@, a.segments@, v.operations, v.frame_operations);
    &&& a.wf()
    &&& totals.0 <= usize::MAX
    &&& totals.1 * 10 <= u64::MAX
}

impl EditorState {
    /// Frames and duration of the loaded analysis, before and after the pending operations.
    pub fn get_preview_stats(&self, analysis: Option<&Analysis<FrameHash>>) -> (r: Option<PreviewStats>)
        requires
            analysis matches Some(a) ==> stats_fit(*a, self@),
        ensures
            r == (match analysis {
                Some(a) => Some(stats_of(*a, self@)),
                None => None,
            }),
    {
        let a = match analysis {
            Some(a) => a,
            None => {
                return None;
            },
        };
        let (result_frames, result_duration) = a.calculate_impact(&self.operations, &self.frame_operations);
        Some(PreviewStats {
            original_frames: a.frame_count(),
            original_duration: a.total_duration_ms(),
            result_frames,
            result_duration,
        })
    }

    /// The summary shown in the export dialog: how many segments each kind of operation
    /// touches, and the frames and duration before and after when an analysis is loaded.
    pub fn build_operation_summary(&self, analysis: Option<&Analysis<FrameHash>>) -> (r: OperationSummary)
        requires
            analysis matches Some(a) ==> stats_fit(*a, self@),
        ensures
            r.segments_removed == ops_of_kind(self@.operations, 0),
            r.segments_collapsed == ops_of_kind(self@.operations, 1),
            r.segments_scaled == ops_of_kind(self@.operations, 2),
            match analysis {
                Some(a) => {
                    &&& r.original_frames == stats_of(*a, self@).original_frames
                    &&& r.result_frames == stats_of(*a, self@).result_frames
                    &&& r.original_duration_ms == stats_of(*a, self@).original_duration
                    &&& r.result_duration_ms == stats_of(*a, self@).result_duration
                },
                None => r.original_frames == 0 && r.result_frames == 0 && r.original_duration_ms == 0
                    && r.result_duration_ms == 0,
            },
    {
        let (removed, collapsed, scaled) = count_op_kinds(&self.operations);
        let mut summary = OperationSummary {
            segments_removed: removed,
            segments_collapsed: collapsed,
            segments_scaled: scaled,
            original_frames: 0,
            result_frames: 0,
            original_duration_ms: 0,
            result_duration_ms: 0,
        };
        match self.get_preview_stats(analysis) {
            Some(stats) => {
                summary.original_frames = stats.original_frames;
                summary.result_frames = stats.result_frames;
                summary.original_duration_ms = stats.original_duration;
                summary.result_duration_ms = stats.result_duration;
            },
            None => {},
        }
        summary
    }
}

/// Toggling the selection of the current segment twice leaves the selection as it was.
pub proof fn law_toggle_selected_twice(v: EditorView, segments: Seq<Segment>, loaded: bool, hashes: Seq<Seq<u8>>)
    ensures
        stepped(stepped(v, Action::ToggleSelected, segments, loaded, hashes).0, Action::ToggleSelected, segments, loaded, hashes).0
            == v,
{
    let w = stepped(v, Action::ToggleSelected, segments, loaded, hashes).0;
    let u = stepped(w, Action::ToggleSelected, segments, loaded, hashes).0;
    if loaded && v.selected_segment < segments.len() {
        assert(u.selected_segments =~= v.selected_segments);
    }
}

/// Moving to the next segment and back returns to the same segment, when there is a next
/// one.
pub proof fn law_next_then_previous_segment(v: EditorView, segments: Seq<Segment>, hashes: Seq<Seq<u8>>)
    requires
        v.selected_segment + 1 < segments.len(),
        segments.len() <= usize::MAX,
    ensures
        stepped(stepped(v, Action::NextSegment, segments, true, hashes).0, Action::PrevSegment, segments, true, hashes).0.selected_segment
            == v.selected_segment,
{
    let w = stepped(v, Action::NextSegment, segments, true, hashes).0;
    assert(w.selected_segment == v.selected_segment + 1);
    let u = stepped(w, Action::PrevSegment, segments, true, hashes).0;
    assert(u.selected_segment == w.selected_segment - 1);
}

} // verus!
