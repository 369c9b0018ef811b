//! The interactive editor's vocabulary: hash algorithm choice, optimization menu, input
//! dialogs, export dialog and preview statistics.
use vstd::prelude::*;
use crate::types::Segment;
use vstd::std_specs::cmp::PartialEqSpecImpl;

verus! {

/// Available hash algorithms for frame similarity detection.
#[derive(Debug, Clone, Copy, PartialEq, Eq, Structural)]
pub enum HashAlgorithm {
    /// Difference hash - fast, good for near-duplicates (default).
    DHash,
    /// Perceptual hash - robust to transformations.
    PHash,
    /// Block average hash - balanced approach.
    BlockHash,
}

impl Default for HashAlgorithm {
    fn default() -> (r: Self)
        ensures
            r == HashAlgorithm::DHash,
    {
        HashAlgorithm::DHash
    }
}

impl HashAlgorithm {
    /// The next algorithm in the cycle dHash, pHash, blockHash.
    pub open spec fn spec_next(self) -> HashAlgorithm {
        match self {
            HashAlgorithm::DHash => HashAlgorithm::PHash,
            HashAlgorithm::PHash => HashAlgorithm::BlockHash,
            HashAlgorithm::BlockHash => HashAlgorithm::DHash,
        }
    }

    /// Get the next algorithm in the cycle.
    pub fn next(self) -> (r: Self)
        ensures
            r == self.spec_next(),
    {
        match self {
            HashAlgorithm::DHash => HashAlgorithm::PHash,
            HashAlgorithm::PHash => HashAlgorithm::BlockHash,
            HashAlgorithm::BlockHash => HashAlgorithm::DHash,
        }
    }

    /// Get the display name.
    pub fn name(self) -> (r: &'static str)
        ensures
            r@ == match self {
                HashAlgorithm::DHash => "dHash"@,
                HashAlgorithm::PHash => "pHash"@,
                HashAlgorithm::BlockHash => "blockHash"@,
            },
    {
        match self {
            HashAlgorithm::DHash => "dHash",
            HashAlgorithm::PHash => "pHash",
            HashAlgorithm::BlockHash => "blockHash",
        }
    }

    /// Get a short description.
    pub fn description(self) -> (r: &'static str)
        ensures
            r@ == match self {
                HashAlgorithm::DHash => "Fast, good for duplicates"@,
                HashAlgorithm::PHash => "Robust to transforms"@,
                HashAlgorithm::BlockHash => "Balanced approach"@,
            },
    {
        match self {
            HashAlgorithm::DHash => "Fast, good for duplicates",
            HashAlgorithm::PHash => "Robust to transforms",
            HashAlgorithm::BlockHash => "Balanced approach",
        }
    }
}

/// Menu option for optimization presets.
#[derive(Debug, Clone, Copy, PartialEq, Eq, Structural)]
pub enum OptimizeOption {
    /// Remove every static segment.
    RemoveAllStatic,
    /// Remove static segments longer than 300ms.
    RemoveStaticLong,
    /// Cap pauses longer than 500ms to 500ms.
    CapPauses,
    /// Collapse static segments to 100ms.
    CollapseStatic,
    /// Speed up the whole GIF 1.5x.
    SpeedUpAll,
    /// Speed up pauses 2x.
    SpeedUpPauses,
}

impl OptimizeOption {
    /// The option for a key, `'1'` to `'6'`.
    pub open spec fn spec_from_key(c: char) -> Option<OptimizeOption> {
        if c == '1' {
            Some(OptimizeOption::RemoveAllStatic)
        } else if c == '2' {
            Some(OptimizeOption::RemoveStaticLong)
        } else if c == '3' {
            Some(OptimizeOption::CapPauses)
        } else if c == '4' {
            Some(OptimizeOption::CollapseStatic)
        } else if c == '5' {
            Some(OptimizeOption::SpeedUpAll)
        } else if c == '6' {
            Some(OptimizeOption::SpeedUpPauses)
        } else {
            None
        }
    }

    /// The key of an option.
    pub open spec fn spec_key(self) -> char {
        match self {
            OptimizeOption::RemoveAllStatic => '1',
            OptimizeOption::RemoveStaticLong => '2',
            OptimizeOption::CapPauses => '3',
            OptimizeOption::CollapseStatic => '4',
            OptimizeOption::SpeedUpAll => '5',
            OptimizeOption::SpeedUpPauses => '6',
        }
    }

    /// All options in menu order.
    pub fn all() -> (r: Vec<OptimizeOption>)
        ensures
            r@ == seq![
                OptimizeOption::RemoveAllStatic,
                OptimizeOption::RemoveStaticLong,
                OptimizeOption::CapPauses,
                OptimizeOption::CollapseStatic,
                OptimizeOption::SpeedUpAll,
                OptimizeOption::SpeedUpPauses,
            ],
    {
        let r = vec![
            OptimizeOption::RemoveAllStatic,
            OptimizeOption::RemoveStaticLong,
            OptimizeOption::CapPauses,
            OptimizeOption::CollapseStatic,
            OptimizeOption::SpeedUpAll,
            OptimizeOption::SpeedUpPauses,
        ];
        assert(r@ =~= seq![
            OptimizeOption::RemoveAllStatic,
            OptimizeOption::RemoveStaticLong,
            OptimizeOption::CapPauses,
            OptimizeOption::CollapseStatic,
            OptimizeOption::SpeedUpAll,
            OptimizeOption::SpeedUpPauses,
        ]);
        r
    }

    /// The display label.
    pub fn label(&self) -> (r: &'static str)
        ensures
            r@ == match *self {
                OptimizeOption::RemoveAllStatic => "Remove all static segments"@,
                OptimizeOption::RemoveStaticLong => "Remove static > 300ms"@,
                OptimizeOption::CapPauses => "Cap all pauses to 500ms"@,
                OptimizeOption::CollapseStatic => "Collapse static to 100ms"@,
                OptimizeOption::SpeedUpAll => "Speed up entire GIF 1.5x"@,
                OptimizeOption::SpeedUpPauses => "Speed up pauses only 2x"@,
            },
    {
        match self {
            OptimizeOption::RemoveAllStatic => "Remove all static segments",
            OptimizeOption::RemoveStaticLong => "Remove static > 300ms",
            OptimizeOption::CapPauses => "Cap all pauses to 500ms",
            OptimizeOption::CollapseStatic => "Collapse static to 100ms",
            OptimizeOption::SpeedUpAll => "Speed up entire GIF 1.5x",
            OptimizeOption::SpeedUpPauses => "Speed up pauses only 2x",
        }
    }

    /// The key for this option, `'1'` to `'6'`.
    pub fn key(&self) -> (r: char)
        ensures
            r == self.spec_key(),
    {
        match self {
            OptimizeOption::RemoveAllStatic => '1',
            OptimizeOption::RemoveStaticLong => '2',
            OptimizeOption::CapPauses => '3',
            OptimizeOption::CollapseStatic => '4',
            OptimizeOption::SpeedUpAll => '5',
            OptimizeOption::SpeedUpPauses => '6',
        }
    }

    /// The option for a key press.
    pub fn from_key(c: char) -> (r: Option<OptimizeOption>)
        ensures
            r == Self::spec_from_key(c),
    {
        if c == '1' {
            Some(OptimizeOption::RemoveAllStatic)
        } else if c == '2' {
            Some(OptimizeOption::RemoveStaticLong)
        } else if c == '3' {
            Some(OptimizeOption::CapPauses)
        } else if c == '4' {
            Some(OptimizeOption::CollapseStatic)
        } else if c == '5' {
            Some(OptimizeOption::SpeedUpAll)
        } else if c == '6' {
            Some(OptimizeOption::SpeedUpPauses)
        } else {
            None
        }
    }
}

/// Every option's key gives that option back.
pub proof fn option_key_round_trip(option: OptimizeOption)
    ensures
        OptimizeOption::spec_from_key(option.spec_key()) == Some(option),
{
}

/// Kinds of text input dialogs.
#[derive(Debug, Clone, Copy, PartialEq, Eq, Structural)]
pub enum InputKind {
    /// Cap duration input.
    CapDuration,
    /// Collapse duration input.
    CollapseDuration,
    /// Speed factor input.
    SpeedFactor,
    /// Duplicate selection configuration.
    DuplicateSelection,
}

impl InputKind {
    /// The dialog title.
    pub fn title(&self) -> (r: &'static str)
        ensures
            r@ == match *self {
                InputKind::CapDuration => " Cap Duration (c) - Limit frame delays "@,
                InputKind::CollapseDuration => " Collapse (Shift+C) - Reduce to single frame "@,
                InputKind::SpeedFactor => " Speed Factor "@,
                InputKind::DuplicateSelection => " Select Duplicates (Ctrl+D) "@,
            },
    {
        match self {
            InputKind::CapDuration => " Cap Duration (c) - Limit frame delays ",
            InputKind::CollapseDuration => " Collapse (Shift+C) - Reduce to single frame ",
            InputKind::SpeedFactor => " Speed Factor ",
            InputKind::DuplicateSelection => " Select Duplicates (Ctrl+D) ",
        }
    }

    /// The dialog description.
    pub fn description(&self) -> (r: &'static str)
        ensures
            r@ == match *self {
                InputKind::CapDuration => "Set MAX delay per frame. Frames slower than this will be sped up."@,
                InputKind::CollapseDuration => "Replace ALL frames with ONE frame at this duration."@,
                InputKind::SpeedFactor => "Multiply all delays by this factor."@,
                InputKind::DuplicateSelection => "Select frames matching current, keeping some unselected."@,
            },
    {
        match self {
            InputKind::CapDuration => "Set MAX delay per frame. Frames slower than this will be sped up.",
            InputKind::CollapseDuration => "Replace ALL frames with ONE frame at this duration.",
            InputKind::SpeedFactor => "Multiply all delays by this factor.",
            InputKind::DuplicateSelection => "Select frames matching current, keeping some unselected.",
        }
    }

    /// The input prompt.
    pub fn prompt(&self) -> (r: &'static str)
        ensures
            r@ == match *self {
                InputKind::CapDuration => "Max frame delay (ms): "@,
                InputKind::CollapseDuration => "Single frame duration (ms): "@,
                InputKind::SpeedFactor => "Speed factor: "@,
                InputKind::DuplicateSelection => "Keep (s:1, e:1, b:1): "@,
            },
    {
        match self {
            InputKind::CapDuration => "Max frame delay (ms): ",
            InputKind::CollapseDuration => "Single frame duration (ms): ",
            InputKind::SpeedFactor => "Speed factor: ",
            InputKind::DuplicateSelection => "Keep (s:1, e:1, b:1): ",
        }
    }

    /// The value the input starts with.
    pub fn default_value(&self) -> (r: &'static str)
        ensures
            r@ == match *self {
                InputKind::CapDuration => "300"@,
                InputKind::CollapseDuration => "200"@,
                InputKind::SpeedFactor => "1.5"@,
                InputKind::DuplicateSelection => "s:1"@,
            },
    {
        match self {
            InputKind::CapDuration => "300",
            InputKind::CollapseDuration => "200",
            InputKind::SpeedFactor => "1.5",
            InputKind::DuplicateSelection => "s:1",
        }
    }
}

/// Summary of pending operations for the export dialog.
#[derive(Debug, Clone, Copy, Default)]
pub struct OperationSummary {
    /// Segments removed.
    pub segments_removed: usize,
    /// Segments collapsed.
    pub segments_collapsed: usize,
    /// Segments rescaled (scale, set duration, set frame delay).
    pub segments_scaled: usize,
    /// Frames before.
    pub original_frames: usize,
    /// Frames after.
    pub result_frames: usize,
    /// Duration before (ms).
    pub original_duration_ms: u64,
    /// Duration after (ms).
    pub result_duration_ms: u64,
}

/// State of the export dialog: the path being edited, as characters, and a cursor in it.
#[derive(Debug, Clone)]
pub struct ExportState {
    /// The output path.
    pub path: Vec<char>,
    /// Cursor position in the path.
    pub cursor: usize,
    /// Whether a file exists at the path.
    pub file_exists: bool,
    /// Whether overwriting was confirmed.
    pub confirmed_overwrite: bool,
    /// Summary of what will be exported.
    pub operation_summary: OperationSummary,
}

impl ExportState {
    /// A dialog for the default path, with the cursor at its end; `file_exists` tells
    /// whether a file is there.
    pub fn new(default_path: Vec<char>, summary: OperationSummary, file_exists: bool) -> (r: Self)
        ensures
            r.path@ == default_path@,
            r.cursor == default_path@.len(),
            r.file_exists == file_exists,
            !r.confirmed_overwrite,
            r.operation_summary == summary,
    {
        let cursor = default_path.len();
        ExportState {
            path: default_path,
            cursor,
            file_exists,
            confirmed_overwrite: false,
            operation_summary: summary,
        }
    }

    /// Record whether a file exists at the path; a path with no file needs no overwrite
    /// confirmation.
    pub fn check_file_exists(&mut self, exists: bool)
        ensures
            final(self).file_exists == exists,
            final(self).confirmed_overwrite == (old(self).confirmed_overwrite && exists),
            final(self).path@ == old(self).path@,
            final(self).cursor == old(self).cursor,
            final(self).operation_summary == old(self).operation_summary,
    {
        self.file_exists = exists;
        if !exists {
            self.confirmed_overwrite = false;
        }
    }
}

/// Preview statistics for displaying changes.
#[derive(Debug, Clone, Copy)]
pub struct PreviewStats {
    /// Frames before.
    pub original_frames: usize,
    /// Duration before (ms).
    pub original_duration: u64,
    /// Frames after.
    pub result_frames: usize,
    /// Duration after (ms).
    pub result_duration: u64,
}

impl PreviewStats {
    /// Milliseconds saved (negative when the result is longer).
    pub fn saved_duration(&self) -> (r: i64)
        requires
            self.original_duration <= i64::MAX,
            self.result_duration <= i64::MAX,
        ensures
            r == self.original_duration - self.result_duration,
    {
        self.original_duration as i64 - self.result_duration as i64
    }
}

/// Application mode / overlay state.
#[derive(Debug, Clone)]
pub enum Mode {
    /// No overlay.
    Normal,
    /// The help overlay.
    Help,
    /// A text input dialog.
    Input(InputKind),
    /// The export dialog.
    Export(ExportState),
    /// The operations menu.
    OperationsMenu,
}

/// Which mode a mode is, whatever the dialog holds: normal (0), help (1), input (2),
/// export (3), operations menu (4).
pub open spec fn mode_kind(m: Mode) -> u8 {
    match m {
        Mode::Normal => 0,
        Mode::Help => 1,
        Mode::Input(_) => 2,
        Mode::Export(_) => 3,
        Mode::OperationsMenu => 4,
    }
}

impl Default for Mode {
    fn default() -> (r: Self)
        ensures
            r is Normal,
    {
        Mode::Normal
    }
}

/// Modes are equal when they are the same mode, whatever their dialogs hold.
impl PartialEq for Mode {
    fn eq(&self, other: &Self) -> (r: bool) {
        match (self, other) {
            (Mode::Normal, Mode::Normal) => true,
            (Mode::Help, Mode::Help) => true,
            (Mode::Input(_), Mode::Input(_)) => true,
            (Mode::Export(_), Mode::Export(_)) => true,
            (Mode::OperationsMenu, Mode::OperationsMenu) => true,
            _ => false,
        }
    }
}

impl PartialEqSpecImpl for Mode {
    open spec fn obeys_eq_spec() -> bool {
        true
    }

    open spec fn eq_spec(&self, other: &Mode) -> bool {
        mode_kind(*self) == mode_kind(*other)
    }
}

/// View mode: the segment list, or the frames of one segment.
#[derive(Debug, Clone, Copy, PartialEq, Eq, Structural)]
pub enum ViewMode {
    /// Top-level segment list (default).
    Segments,
    /// The frames of one segment.
    Frames {
        /// The segment being viewed.
        segment_id: usize,
    },
}

/// Zoom level for the timeline view.
#[derive(Debug, Clone, Copy, PartialEq, Eq, Structural)]
pub enum ZoomLevel {
    /// View all segments (default).
    Segments,
    /// View the frames of one segment.
    Frames {
        /// The segment being viewed.
        segment_id: usize,
    },
}

impl Default for ZoomLevel {
    fn default() -> (r: Self)
        ensures
            r == ZoomLevel::Segments,
    {
        ZoomLevel::Segments
    }
}

impl Default for ViewMode {
    fn default() -> (r: Self)
        ensures
            r == ViewMode::Segments,
    {
        ViewMode::Segments
    }
}

/// Format a duration for display (see [`crate::format::format_duration`]).
pub fn format_duration(ms: u64) -> (r: String)
    ensures
        r@ == crate::format::duration_text(ms as nat),
{
    crate::format::format_duration(ms)
}

} // verus!
