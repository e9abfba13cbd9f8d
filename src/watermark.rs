//! Removal of centred, oversized, short overlay lines.
use vstd::prelude::*;

use crate::glyph::{lines_view, LineInfo, LineView, TextExtractionConfig, WatermarkMode};

verus! {

/// Sum of the lines' mean heights.
pub open spec fn sum_avg_heights(lines: Seq<LineView>) -> int
    decreases lines.len(),
{
    if lines.len() == 0 {
        0
    } else {
        sum_avg_heights(lines.drop_last()) + lines.last().avg_height
    }
}

/// Whether a line looks like a watermark on a page of width `page_width`
/// whose `count` lines have mean heights summing to `total`:
/// - its centre lies within 20% of the page width from the page centre,
///   `|(min_x + max_x) / 2 - page_width / 2| < page_width * 0.2`;
/// - its mean height exceeds 1.5 times the mean over all lines;
/// - it has fewer than 30 characters.
pub open spec fn is_watermark(line: LineView, total: int, count: int, page_width: int) -> bool {
    let off = line.min_x + line.max_x - page_width;
    &&& 5 * off < 2 * page_width
    &&& -5 * off < 2 * page_width
    &&& 2 * (line.avg_height * count) > 3 * total
    &&& line.chars.len() < 30
}

/// The lines that are not watermarks, in order.
pub open spec fn keep_non_watermarks(
    lines: Seq<LineView>,
    total: int,
    count: int,
    page_width: int,
) -> Seq<LineView>
    decreases lines.len(),
{
    if lines.len() == 0 {
        lines
    } else {
        let rest = keep_non_watermarks(lines.drop_last(), total, count, page_width);
        if is_watermark(lines.last(), total, count, page_width) {
            rest
        } else {
            rest.push(lines.last())
        }
    }
}

/// The page without its watermark lines; unchanged when the filter is off
/// or the page width is not positive.
pub open spec fn without_watermarks(
    lines: Seq<LineView>,
    mode: WatermarkMode,
    page_width: int,
) -> Seq<LineView> {
    if mode == WatermarkMode::Off || page_width <= 0 {
        lines
    } else {
        keep_non_watermarks(lines, sum_avg_heights(lines), lines.len() as int, page_width)
    }
}

/// Drops the lines that look like watermarks, keeping the order of the rest.
pub fn filter_watermarks(lines: Vec<LineInfo>, config: &TextExtractionConfig) -> (kept: Vec<
    LineInfo,
>)
    ensures
        lines_view(kept@) == without_watermarks(
            lines_view(lines@),
            config.watermark_mode,
            config.page_width as int,
        ),
        config.watermark_mode == WatermarkMode::Off ==> kept@ == lines@,
{
    if config.watermark_mode == WatermarkMode::Off || config.page_width <= 0 {
        return lines;
    }
    let ghost all = lines_view(lines@);
    let n = lines.len();
    let mut total: u128 = 0;
    let mut i: usize = 0;
    while i < n
        invariant
            i <= n,
            n == lines@.len(),
            all == lines_view(lines@),
            total == sum_avg_heights(all.subrange(0, i as int)),
            total <= i * (u32::MAX as int),
        decreases n - i,
    {
        proof {
            assert(all.subrange(0, i + 1).drop_last() =~= all.subrange(0, i as int));
        }
        total = total + lines[i].avg_height as u128;
        i = i + 1;
    }
    assert(all.subrange(0, n as int) =~= all);
    let width = config.page_width as i64;
    let mut rest = lines;
    let mut kept: Vec<LineInfo> = Vec::new();
    let mut k: usize = 0;
    while rest.len() > 0
        invariant
            k + rest@.len() == n,
            n == all.len(),
            lines_view(rest@) == all.subrange(k as int, n as int),
            lines_view(kept@) == keep_non_watermarks(
                all.subrange(0, k as int),
                total as int,
                n as int,
                width as int,
            ),
            total == sum_avg_heights(all),
            total <= n * (u32::MAX as int),
            width > 0,
        decreases rest.len(),
    {
        let ghost before = rest@;
        let line = rest.remove(0);
        proof {
            assert(lines_view(before)[0] == all[k as int]);
            assert(lines_view(rest@) =~= lines_view(before).subrange(1, before.len() as int));
            assert(lines_view(rest@) =~= all.subrange(k + 1, n as int));
            assert(all.subrange(0, k + 1).drop_last() =~= all.subrange(0, k as int));
            assert(all.subrange(0, k + 1).last() == line@);
            assert(line.avg_height as int * n <= u32::MAX as int * usize::MAX as int)
                by (nonlinear_arith)
                requires
                    line.avg_height <= u32::MAX,
                    n <= usize::MAX,
            ;
        }
        let off = line.min_x as i128 + line.max_x as i128 - width as i128;
        let w2: i128 = 2 * (width as i128);
        let centred = 5 * off < w2 && 5 * off + w2 > 0;
        let large = 2 * ((line.avg_height as u128) * (n as u128)) > 3 * total;
        let short = line.chars.len() < 30;
        if !(centred && large && short) {
            proof {
                assert(lines_view(kept@.push(line)) =~= lines_view(kept@).push(line@));
            }
            kept.push(line);
        }
        k = k + 1;
    }
    assert(all.subrange(0, n as int) =~= all);
    kept
}

} // verus!
