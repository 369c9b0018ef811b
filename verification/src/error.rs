//! Error types.
use vstd::prelude::*;

verus! {

/// Errors that can occur during GIF processing.
#[derive(Debug, Clone, PartialEq, Eq)]
pub enum FigifError {
    /// Failed to read or open a file.
    FileRead {
        /// Path to the file that could not be read.
        path: String,
        /// What the system reported.
        reason: String,
    },
    /// Failed to write a file.
    FileWrite {
        /// Path to the file that could not be written.
        path: String,
        /// What the system reported.
        reason: String,
    },
    /// GIF decoding failed.
    DecodeError {
        /// Description of the decoding failure.
        reason: String,
    },
    /// GIF encoding failed.
    EncodeError {
        /// Description of the encoding failure.
        reason: String,
    },
    /// Invalid frame index.
    InvalidFrameIndex {
        /// The requested frame index.
        index: usize,
        /// Total number of frames available.
        total: usize,
    },
    /// Invalid segment ID.
    InvalidSegmentId {
        /// The requested segment ID.
        id: usize,
        /// Total number of segments available.
        total: usize,
    },
    /// Invalid configuration parameter.
    InvalidConfig {
        /// Description of the configuration error.
        message: String,
    },
    /// Frame dimensions mismatch.
    DimensionMismatch {
        /// Expected frame width.
        expected_width: u32,
        /// Expected frame height.
        expected_height: u32,
        /// Actual frame width encountered.
        actual_width: u32,
        /// Actual frame height encountered.
        actual_height: u32,
    },
    /// No frames in the GIF.
    NoFrames,
    /// Image processing error.
    ImageError {
        /// Description of the image processing failure.
        reason: String,
    },
    /// Hashing error.
    HashError {
        /// Description of the hashing failure.
        reason: String,
    },
    /// The GIF data is empty or invalid.
    EmptyData,
}

} // verus!
