//! The whole reconstruction of one page, stage by stage.
use vstd::prelude::*;

use crate::columns::{columns_reordered, reorder_columns};
use crate::glyph::{
    lines_view, CharInfo, ColumnMode, ParagraphMode, TextExtractionConfig, Thresholds,
    WatermarkMode, UNITS_PER_POINT,
};
use crate::lines::{group_into_lines, lines_of};
use crate::text::{build_text_output, text_of_lines};
use crate::thresholds::{
    calculate_dynamic_thresholds, dynamic_thresholds, fixed_thresholds, fixed_tolerances,
};
use crate::watermark::{filter_watermarks, without_watermarks};

verus! {

/// The tolerances a configuration asks for.
pub open spec fn page_thresholds(chars: Seq<CharInfo>, config: TextExtractionConfig) -> Thresholds {
    if config.dynamic_thresholds {
        dynamic_thresholds(chars)
    } else {
        fixed_thresholds()
    }
}

/// The text of a page: thresholds, lines, watermark filter, column order,
/// then serialisation, each stage as the configuration asks. No glyphs give
/// the empty text.
pub open spec fn page_text(chars: Seq<CharInfo>, config: TextExtractionConfig) -> Seq<char> {
    if chars.len() == 0 {
        seq![]
    } else {
        let t = page_thresholds(chars, config);
        let grouped = lines_of(chars, t.line_tolerance as int);
        let filtered = without_watermarks(grouped, config.watermark_mode, config.page_width as int);
        let ordered = if config.column_mode == ColumnMode::Auto {
            columns_reordered(filtered, config.column_gap as int)
        } else {
            filtered
        };
        text_of_lines(ordered, t.space_tolerance as int, config)
    }
}

/// Reconstructs the text of one page from its glyphs.
pub fn extract_text_from_chars(chars: &Vec<CharInfo>, config: &TextExtractionConfig) -> (text:
    String)
    ensures
        text@ == page_text(chars@, *config),
        chars@.len() == 0 ==> text@.len() == 0,
{
    if chars.len() == 0 {
        return String::new();
    }
    let t = if config.dynamic_thresholds {
        calculate_dynamic_thresholds(chars)
    } else {
        fixed_tolerances()
    };
    let mut lines = group_into_lines(chars, t.line_tolerance);
    lines = filter_watermarks(lines, config);
    if config.column_mode == ColumnMode::Auto {
        lines = reorder_columns(lines, config.column_gap);
    }
    build_text_output(&lines, t.space_tolerance, config)
}

/// The plain layout: fixed tolerances, no paragraph breaks, no column
/// reordering, no watermark filter.
pub open spec fn plain_layout_config() -> TextExtractionConfig {
    TextExtractionConfig {
        paragraph_mode: ParagraphMode::Off,
        paragraph_threshold: 150,
        column_mode: ColumnMode::Off,
        column_gap: 3000,
        watermark_mode: WatermarkMode::Off,
        dynamic_thresholds: false,
        page_width: 0,
        page_height: 0,
    }
}

/// Reconstructs a page's text in reading order with the fixed tolerances
/// only: lines 5 points apart at most, a space for steps over 10 points.
pub fn extract_page_text_with_layout(chars: &Vec<CharInfo>) -> (text: String)
    ensures
        text@ == page_text(chars@, plain_layout_config()),
{
    let config = TextExtractionConfig {
        paragraph_mode: ParagraphMode::Off,
        paragraph_threshold: 150,
        column_mode: ColumnMode::Off,
        column_gap: 30 * UNITS_PER_POINT,
        watermark_mode: WatermarkMode::Off,
        dynamic_thresholds: false,
        page_width: 0,
        page_height: 0,
    };
    extract_text_from_chars(chars, &config)
}

} // verus!
