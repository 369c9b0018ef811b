//! How the timeline shows segments, frames and their operations: the glyph, the text and
//! the kind of style of each, which the drawing code maps to colors.
use vstd::prelude::*;
use crate::format::{decimal, push_decimal, round_half_even};
use crate::types::{FrameOp, SegmentOp};

verus! {

/// The theme color a piece of the timeline is drawn in.
#[derive(Debug, Clone, Copy, PartialEq, Eq, Structural)]
pub enum Tone {
    /// Normal text.
    Normal,
    /// Dimmed text.
    Dim,
    /// Highlighted text.
    Highlight,
    /// Selected items.
    Selected,
    /// Static segments and identical frames.
    StaticLabel,
    /// Motion segments and different frames.
    MotionLabel,
    /// Errors and removals.
    Error,
    /// Warnings.
    Warning,
}

/// A theme color with the modifiers drawn on it.
#[derive(Debug, Clone, Copy, PartialEq, Eq, Structural)]
pub struct TextStyle {
    /// The color.
    pub tone: Tone,
    /// Bold text.
    pub bold: bool,
    /// Reversed colors.
    pub reversed: bool,
    /// Dimmed text.
    pub dim: bool,
}

/// A plain style of a tone.
pub open spec fn plain(tone: Tone) -> TextStyle {
    TextStyle { tone, bold: false, reversed: false, dim: false }
}

/// A bold style of a tone.
pub open spec fn bold(tone: Tone) -> TextStyle {
    TextStyle { tone, bold: true, reversed: false, dim: false }
}

/// The style of an item of the timeline: removed items are dim errors; the cursor is
/// reversed and bold (in the selection color when selected); selected items take the
/// selection color; the rest their base tone.
pub open spec fn item_style(removed: bool, is_cursor: bool, is_selected: bool, base: Tone) -> TextStyle {
    if removed {
        TextStyle { tone: Tone::Error, bold: false, reversed: false, dim: true }
    } else if is_cursor && is_selected {
        TextStyle { tone: Tone::Selected, bold: true, reversed: true, dim: false }
    } else if is_cursor {
        TextStyle { tone: base, bold: true, reversed: true, dim: false }
    } else if is_selected {
        plain(Tone::Selected)
    } else {
        plain(base)
    }
}

fn item_style_of(removed: bool, is_cursor: bool, is_selected: bool, base: Tone) -> (r: TextStyle)
    ensures
        r == item_style(removed, is_cursor, is_selected, base),
{
    if removed {
        TextStyle { tone: Tone::Error, bold: false, reversed: false, dim: true }
    } else if is_cursor && is_selected {
        TextStyle { tone: Tone::Selected, bold: true, reversed: true, dim: false }
    } else if is_cursor {
        TextStyle { tone: base, bold: true, reversed: true, dim: false }
    } else if is_selected {
        TextStyle { tone: Tone::Selected, bold: false, reversed: false, dim: false }
    } else {
        TextStyle { tone: base, bold: false, reversed: false, dim: false }
    }
}

/// The glyph and style of a segment: a light shade when removed, else a full block, in
/// the static or motion tone.
pub fn segment_style(is_static: bool, is_cursor: bool, is_selected: bool, op: Option<SegmentOp>) -> (r: (char, TextStyle))
    ensures
        r.0 == (if op == Some(SegmentOp::Remove) { '░' } else { '█' }),
        r.1 == item_style(
            op == Some(SegmentOp::Remove),
            is_cursor,
            is_selected,
            if is_static { Tone::StaticLabel } else { Tone::MotionLabel },
        ),
{
    let removed = match op {
        Some(SegmentOp::Remove) => true,
        _ => false,
    };
    let glyph = if removed { '░' } else { '█' };
    let base = if is_static { Tone::StaticLabel } else { Tone::MotionLabel };
    (glyph, item_style_of(removed, is_cursor, is_selected, base))
}

/// The tone of a frame by its distance from the previous one: identical (or first),
/// nearly identical (1-2), similar (3-5), different.
pub open spec fn distance_tone(distance: Option<u32>) -> Tone {
    match distance {
        None => Tone::StaticLabel,
        Some(d) => if d == 0 {
            Tone::StaticLabel
        } else if d <= 2 {
            Tone::Dim
        } else if d <= 5 {
            Tone::Normal
        } else {
            Tone::MotionLabel
        },
    }
}

/// The glyph and style of a frame: a light shade when removed, a heavy bar before a split,
/// else a light bar, in the tone of its distance from the previous frame.
pub fn frame_style(is_cursor: bool, is_selected: bool, distance: Option<u32>, op: Option<FrameOp>) -> (r: (char, TextStyle))
    ensures
        r.0 == (if op == Some(FrameOp::Remove) {
            '░'
        } else if op == Some(FrameOp::SplitAfter) {
            '┃'
        } else {
            '│'
        }),
        r.1 == item_style(op == Some(FrameOp::Remove), is_cursor, is_selected, distance_tone(distance)),
{
    let (removed, split) = match op {
        Some(FrameOp::Remove) => (true, false),
        Some(FrameOp::SplitAfter) => (false, true),
        _ => (false, false),
    };
    let glyph = if removed {
        '░'
    } else if split {
        '┃'
    } else {
        '│'
    };
    let base = match distance {
        None => Tone::StaticLabel,
        Some(d) => if d == 0 {
            Tone::StaticLabel
        } else if d <= 2 {
            Tone::Dim
        } else if d <= 5 {
            Tone::Normal
        } else {
            Tone::MotionLabel
        },
    };
    (glyph, item_style_of(removed, is_cursor, is_selected, base))
}

/// `n / d` with one decimal, rounded to the nearest tenth, ties to even; `inf` when only
/// `d` is zero and `NaN` when both are.
pub open spec fn ratio_one_decimal(n: nat, d: nat) -> Seq<char> {
    if d == 0 {
        if n == 0 { "NaN"@ } else { "inf"@ }
    } else {
        let t = round_half_even(10 * n, d);
        decimal(t / 10) + seq!['.'] + decimal(t % 10)
    }
}

/// The label of a segment operation and its style.
pub open spec fn operation_text(op: Option<SegmentOp>) -> (Seq<char>, TextStyle) {
    match op {
        Some(SegmentOp::Remove) => (" REMOVE "@, bold(Tone::Error)),
        Some(SegmentOp::Collapse { delay_cs }) => (" COLLAPSE "@ + decimal((delay_cs * 10) as nat) + "ms "@, bold(Tone::Warning)),
        Some(SegmentOp::Scale { numerator, denominator }) => if numerator < denominator {
            (" FASTER "@ + ratio_one_decimal(denominator as nat, numerator as nat) + "x "@, bold(Tone::MotionLabel))
        } else {
            (" SLOWER "@ + ratio_one_decimal(numerator as nat, denominator as nat) + "x "@, bold(Tone::MotionLabel))
        },
        Some(SegmentOp::SetDuration { total_cs }) => (" DURATION "@ + decimal((total_cs * 10) as nat) + "ms "@, bold(Tone::Highlight)),
        Some(SegmentOp::SetFrameDelay { delay_cs }) => (" DELAY "@ + decimal((delay_cs * 10) as nat) + "ms "@, bold(Tone::Highlight)),
        _ => (Seq::empty(), plain(Tone::Dim)),
    }
}

/// Append `n / d` with one decimal.
fn push_ratio(s: &mut String, n: u32, d: u32)
    ensures
        final(s)@ == old(s)@ + ratio_one_decimal(n as nat, d as nat),
{
    if d == 0 {
        if n == 0 {
            s.append("NaN");
        } else {
            s.append("inf");
        }
        return;
    }
    let a = 10 * (n as u128);
    let b = d as u128;
    let q = a / b;
    let r = a % b;
    let t = if r > b - r {
        q + 1
    } else if r < b - r {
        q
    } else if q % 2 == 0 {
        q
    } else {
        q + 1
    };
    assert(t == round_half_even(10 * n as nat, d as nat));
    push_decimal(s, t / 10);
    s.append(".");
    proof {
        reveal_strlit(".");
    }
    push_decimal(s, t % 10);
    assert(final(s)@ =~= old(s)@ + ratio_one_decimal(n as nat, d as nat));
}

/// The label of a segment operation and its style: what the timeline prints next to a
/// segment. A scale reads as how many times faster or slower, with one decimal.
pub fn get_operation_text(op: Option<SegmentOp>) -> (r: (String, TextStyle))
    ensures
        r.0@ == operation_text(op).0,
        r.1 == operation_text(op).1,
{
    let mut s = String::new();
    let style = match op {
        Some(SegmentOp::Remove) => {
            s.append(" REMOVE ");
            TextStyle { tone: Tone::Error, bold: true, reversed: false, dim: false }
        },
        Some(SegmentOp::Collapse { delay_cs }) => {
            s.append(" COLLAPSE ");
            push_decimal(&mut s, delay_cs as u128 * 10);
            s.append("ms ");
            TextStyle { tone: Tone::Warning, bold: true, reversed: false, dim: false }
        },
        Some(SegmentOp::Scale { numerator, denominator }) => {
            if numerator < denominator {
                s.append(" FASTER ");
                push_ratio(&mut s, denominator, numerator);
            } else {
                s.append(" SLOWER ");
                push_ratio(&mut s, numerator, denominator);
            }
            s.append("x ");
            TextStyle { tone: Tone::MotionLabel, bold: true, reversed: false, dim: false }
        },
        Some(SegmentOp::SetDuration { total_cs }) => {
            s.append(" DURATION ");
            push_decimal(&mut s, total_cs as u128 * 10);
            s.append("ms ");
            TextStyle { tone: Tone::Highlight, bold: true, reversed: false, dim: false }
        },
        Some(SegmentOp::SetFrameDelay { delay_cs }) => {
            s.append(" DELAY ");
            push_decimal(&mut s, delay_cs as u128 * 10);
            s.append("ms ");
            TextStyle { tone: Tone::Highlight, bold: true, reversed: false, dim: false }
        },
        _ => TextStyle { tone: Tone::Dim, bold: false, reversed: false, dim: false },
    };
    proof {
        assert(s@ =~= operation_text(op).0);
    }
    (s, style)
}

/// The label of a frame operation and its style.
pub open spec fn frame_operation_text(op: Option<FrameOp>) -> (Seq<char>, TextStyle) {
    match op {
        Some(FrameOp::Remove) => (" REMOVE "@, bold(Tone::Error)),
        Some(FrameOp::SplitAfter) => (" SPLIT "@, bold(Tone::Warning)),
        _ => (Seq::empty(), plain(Tone::Dim)),
    }
}

/// The label of a frame operation and its style: what the frame view prints next to a
/// frame.
pub fn get_frame_operation_text(op: Option<FrameOp>) -> (r: (String, TextStyle))
    ensures
        r.0@ == frame_operation_text(op).0,
        r.1 == frame_operation_text(op).1,
{
    match op {
        Some(FrameOp::Remove) => (String::from_str(" REMOVE "), TextStyle { tone: Tone::Error, bold: true, reversed: false, dim: false }),
        Some(FrameOp::SplitAfter) => (String::from_str(" SPLIT "), TextStyle { tone: Tone::Warning, bold: true, reversed: false, dim: false }),
        _ => (String::new(), TextStyle { tone: Tone::Dim, bold: false, reversed: false, dim: false }),
    }
}

/// How a frame's distance from the previous one reads, and its style.
pub open spec fn similarity_text(distance: Option<u32>) -> (Seq<char>, TextStyle) {
    match distance {
        None => ("(first)"@, plain(Tone::Dim)),
        Some(d) => if d == 0 {
            ("(identical)"@, plain(Tone::StaticLabel))
        } else if d <= 2 {
            ("(~identical)"@, plain(Tone::Dim))
        } else if d <= 5 {
            ("(similar)"@, plain(Tone::Normal))
        } else {
            ("(diff:"@ + decimal(d as nat) + ")"@, plain(Tone::MotionLabel))
        },
    }
}

/// How a frame's distance from the previous one reads: first, identical, nearly
/// identical, similar, or the distance itself.
pub fn get_similarity_text(distance: Option<u32>) -> (r: (String, TextStyle))
    ensures
        r.0@ == similarity_text(distance).0,
        r.1 == similarity_text(distance).1,
{
    match distance {
        None => (String::from_str("(first)"), TextStyle { tone: Tone::Dim, bold: false, reversed: false, dim: false }),
        Some(d) => {
            if d == 0 {
                (String::from_str("(identical)"), TextStyle { tone: Tone::StaticLabel, bold: false, reversed: false, dim: false })
            } else if d <= 2 {
                (String::from_str("(~identical)"), TextStyle { tone: Tone::Dim, bold: false, reversed: false, dim: false })
            } else if d <= 5 {
                (String::from_str("(similar)"), TextStyle { tone: Tone::Normal, bold: false, reversed: false, dim: false })
            } else {
                let mut s = String::from_str("(diff:");
                push_decimal(&mut s, d as u128);
                s.append(")");
                proof {
                    assert(s@ =~= similarity_text(distance).0);
                }
                (s, TextStyle { tone: Tone::MotionLabel, bold: false, reversed: false, dim: false })
            }
        },
    }
}

} // verus!
