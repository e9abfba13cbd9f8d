//! The values that flow through the layout pipeline.
use vstd::prelude::*;

verus! {

/// Fixed-point scale of every coordinate and extent: one PDF point is this
/// many units.
pub const UNITS_PER_POINT: i32 = 100;

/// One rendered character of a page with its bounding box, in units.
/// `y` grows upward, so the topmost line has the largest `y`.
#[derive(Clone, Copy, Debug, PartialEq, Eq)]
pub struct CharInfo {
    pub char: char,
    pub x: i32,
    pub y: i32,
    pub width: u32,
    pub height: u32,
}

/// A run of glyphs that sit on one visual line.
#[derive(Clone, Debug)]
pub struct LineInfo {
    /// Characters with their left edge, left to right.
    pub chars: Vec<(char, i32)>,
    /// Vertical position of the glyph that opened the line.
    pub y: i32,
    /// Mean glyph height, rounded down to a whole unit.
    pub avg_height: u32,
    /// Leftmost glyph edge.
    pub min_x: i32,
    /// Rightmost glyph edge (`x + width`).
    pub max_x: i64,
}

/// The mathematical content of a [`LineInfo`].
pub struct LineView {
    pub chars: Seq<(char, i32)>,
    pub y: i32,
    pub avg_height: u32,
    pub min_x: i32,
    pub max_x: i64,
}

impl View for LineInfo {
    type V = LineView;

    open spec fn view(&self) -> LineView {
        LineView {
            chars: self.chars@,
            y: self.y,
            avg_height: self.avg_height,
            min_x: self.min_x,
            max_x: self.max_x,
        }
    }
}

/// A line's invariant: it has characters, and its left edge is not right
/// of its right edge.
pub open spec fn line_wf(l: LineView) -> bool {
    l.chars.len() > 0 && l.min_x <= l.max_x
}

/// The views of a sequence of lines.
pub open spec fn lines_view(lines: Seq<LineInfo>) -> Seq<LineView> {
    lines.map_values(|l: LineInfo| l@)
}

/// The two tolerances that drive grouping and spacing, in units.
#[derive(Clone, Copy, Debug, PartialEq, Eq)]
pub struct Thresholds {
    /// Largest vertical distance from a line's anchor that still joins it.
    pub line_tolerance: i64,
    /// Smallest horizontal step between glyphs that is written as a space.
    pub space_tolerance: i64,
}

/// Whether blank lines mark paragraph breaks.
#[derive(Clone, Copy, Debug, PartialEq, Eq, Structural)]
pub enum ParagraphMode {
    Off,
    Spacing,
}

/// Whether a two-column page is read one column after the other.
#[derive(Clone, Copy, Debug, PartialEq, Eq, Structural)]
pub enum ColumnMode {
    Off,
    Auto,
}

/// Whether centred, oversized, short lines are dropped.
#[derive(Clone, Copy, Debug, PartialEq, Eq, Structural)]
pub enum WatermarkMode {
    Off,
    Center,
}

/// Knobs of one page's text reconstruction.
#[derive(Clone, Copy, Debug)]
pub struct TextExtractionConfig {
    pub paragraph_mode: ParagraphMode,
    /// Multiplier on the line height that makes a paragraph break, in
    /// hundredths (150 stands for 1.5).
    pub paragraph_threshold: u32,
    pub column_mode: ColumnMode,
    /// Smallest horizontal gap, in units, that may separate two columns.
    pub column_gap: i32,
    pub watermark_mode: WatermarkMode,
    /// Derive the tolerances from the glyph heights rather than use the
    /// fixed ones.
    pub dynamic_thresholds: bool,
    /// Page extent in units; a width of zero or less turns the watermark
    /// filter off.
    pub page_width: i32,
    pub page_height: i32,
}

/// The default knobs: paragraph spacing at 1.5, automatic columns with a
/// 30-point gap, centred watermarks removed, dynamic tolerances.
pub open spec fn default_config() -> TextExtractionConfig {
    TextExtractionConfig {
        paragraph_mode: ParagraphMode::Spacing,
        paragraph_threshold: 150,
        column_mode: ColumnMode::Auto,
        column_gap: 3000,
        watermark_mode: WatermarkMode::Center,
        dynamic_thresholds: true,
        page_width: 0,
        page_height: 0,
    }
}

impl Default for TextExtractionConfig {
    fn default() -> (r: Self)
        ensures
            r == default_config(),
    {
        TextExtractionConfig {
            paragraph_mode: ParagraphMode::Spacing,
            paragraph_threshold: 150,
            column_mode: ColumnMode::Auto,
            column_gap: 30 * UNITS_PER_POINT,
            watermark_mode: WatermarkMode::Center,
            dynamic_thresholds: true,
            page_width: 0,
            page_height: 0,
        }
    }
}

} // verus!
