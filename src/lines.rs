//! Clustering of glyphs into lines.
use vstd::prelude::*;

use crate::glyph::{line_wf, lines_view, CharInfo, LineInfo, LineView};
use crate::ordering::{
    lemma_sort_multiset, reading_before, sort_by_insertion, sort_by_x, sort_reading_order, x_before,
};

verus! {

/// The glyphs in reading order: top to bottom, then left to right, ties
/// kept in input order.
pub open spec fn reading_order(chars: Seq<CharInfo>) -> Seq<CharInfo> {
    sort_by_insertion(chars, reading_before())
}

/// Splits `s` into maximal runs of consecutive glyphs whose `y` lies within
/// `tol` of the `y` of the run's first glyph (its anchor).
pub open spec fn group_runs(s: Seq<CharInfo>, tol: int) -> Seq<Seq<CharInfo>>
    decreases s.len(),
{
    if s.len() == 0 {
        seq![]
    } else {
        let runs = group_runs(s.drop_last(), tol);
        let g = s.last();
        if runs.len() > 0 && runs.last()[0].y - g.y <= tol && g.y - runs.last()[0].y <= tol {
            runs.update(runs.len() - 1, runs.last().push(g))
        } else {
            runs.push(seq![g])
        }
    }
}

/// Sum of the glyph heights.
pub open spec fn sum_heights(run: Seq<CharInfo>) -> int
    decreases run.len(),
{
    if run.len() == 0 {
        0
    } else {
        sum_heights(run.drop_last()) + run.last().height
    }
}

/// Leftmost glyph edge of a non-empty run.
pub open spec fn min_left(run: Seq<CharInfo>) -> int
    decreases run.len(),
{
    if run.len() <= 1 {
        run[0].x as int
    } else if run.last().x < min_left(run.drop_last()) {
        run.last().x as int
    } else {
        min_left(run.drop_last())
    }
}

/// Rightmost glyph edge (`x + width`) of a non-empty run.
pub open spec fn max_right(run: Seq<CharInfo>) -> int
    decreases run.len(),
{
    if run.len() <= 1 {
        run[0].x + run[0].width
    } else if run.last().x + run.last().width > max_right(run.drop_last()) {
        run.last().x + run.last().width
    } else {
        max_right(run.drop_last())
    }
}

/// The line made of a non-empty run: its characters ordered by left edge,
/// the anchor's `y`, the mean height rounded down, and its extent.
pub open spec fn line_of(run: Seq<CharInfo>) -> LineView {
    LineView {
        chars: sort_by_insertion(run.map_values(|g: CharInfo| (g.char, g.x)), x_before()),
        y: run[0].y,
        avg_height: (sum_heights(run) / run.len() as int) as u32,
        min_x: min_left(run) as i32,
        max_x: max_right(run) as i64,
    }
}

/// The lines of a page: the runs of its glyphs in reading order.
pub open spec fn lines_of(chars: Seq<CharInfo>, tol: int) -> Seq<LineView> {
    group_runs(reading_order(chars), tol).map_values(|r: Seq<CharInfo>| line_of(r))
}

/// The extent of a non-empty run covers each of its glyphs.
proof fn lemma_extent_covers(run: Seq<CharInfo>)
    requires
        run.len() > 0,
    ensures
        forall|k: int|
            0 <= k < run.len() ==> min_left(run) <= #[trigger] run[k].x && run[k].x + run[k].width
                <= max_right(run),
        i32::MIN <= min_left(run) <= i32::MAX,
        i32::MIN <= max_right(run) <= i32::MAX + u32::MAX,
    decreases run.len(),
{
    if run.len() > 1 {
        let t = run.drop_last();
        lemma_extent_covers(t);
        assert forall|k: int| 0 <= k < run.len() implies min_left(run) <= #[trigger] run[k].x
            && run[k].x + run[k].width <= max_right(run) by {
            if k < run.len() - 1 {
                assert(run[k] == t[k]);
            }
        }
    }
}

/// The line of a non-empty run is well formed.
proof fn lemma_line_of_wf(run: Seq<CharInfo>)
    requires
        run.len() > 0,
    ensures
        line_wf(line_of(run)),
{
    lemma_extent_covers(run);
    assert(min_left(run) <= run[0].x && run[0].x + run[0].width <= max_right(run));
    lemma_sort_multiset(run.map_values(|g: CharInfo| (g.char, g.x)), x_before());
}

/// Every run of a grouping is non-empty.
pub(crate) proof fn lemma_runs_nonempty(s: Seq<CharInfo>, tol: int)
    ensures
        forall|k: int| 0 <= k < group_runs(s, tol).len() ==> #[trigger] group_runs(s, tol)[k].len()
            > 0,
    decreases s.len(),
{
    if s.len() > 0 {
        lemma_runs_nonempty(s.drop_last(), tol);
        let prev = group_runs(s.drop_last(), tol);
        let runs = group_runs(s, tol);
        assert forall|k: int| 0 <= k < runs.len() implies #[trigger] runs[k].len() > 0 by {
            if k < prev.len() {
                assert(prev[k].len() > 0);
            }
        }
    }
}

/// Builds the line of a non-empty run of glyphs.
pub fn create_line_info(run: &Vec<CharInfo>) -> (line: LineInfo)
    requires
        run.len() > 0,
    ensures
        line@ == line_of(run@),
        line_wf(line@),
{
    proof {
        lemma_line_of_wf(run@);
    }
    let mut members: Vec<(char, i32)> = Vec::new();
    let mut sum: u128 = 0;
    let mut min_x: i32 = run[0].x;
    let mut max_x: i64 = run[0].x as i64 + run[0].width as i64;
    let mut i: usize = 0;
    while i < run.len()
        invariant
            i <= run.len(),
            run.len() > 0,
            members@ == run@.subrange(0, i as int).map_values(|g: CharInfo| (g.char, g.x)),
            sum == sum_heights(run@.subrange(0, i as int)),
            sum <= i * (u32::MAX as int),
            i > 0 ==> min_x == min_left(run@.subrange(0, i as int)),
            i > 0 ==> max_x == max_right(run@.subrange(0, i as int)),
            i == 0 ==> min_x == run@[0].x,
            i == 0 ==> max_x == run@[0].x + run@[0].width,
        decreases run.len() - i,
    {
        let g = run[i];
        proof {
            let p = run@.subrange(0, i + 1);
            assert(p.drop_last() =~= run@.subrange(0, i as int));
            assert(p.map_values(|g: CharInfo| (g.char, g.x)) =~= members@.push((g.char, g.x)));
        }
        members.push((g.char, g.x));
        sum = sum + g.height as u128;
        if i > 0 {
            if g.x < min_x {
                min_x = g.x;
            }
            if g.x as i64 + g.width as i64 > max_x {
                max_x = g.x as i64 + g.width as i64;
            }
        }
        i = i + 1;
    }
    assert(run@.subrange(0, run@.len() as int) =~= run@);
    let n = run.len() as u128;
    proof {
        vstd::arithmetic::div_mod::lemma_div_is_ordered(
            sum as int,
            n * (u32::MAX as int),
            n as int,
        );
        vstd::arithmetic::div_mod::lemma_div_multiples_vanish(u32::MAX as int, n as int);
    }
    let avg = (sum / n) as u32;
    LineInfo { chars: sort_by_x(&members), y: run[0].y, avg_height: avg, min_x, max_x }
}

/// Groups glyphs into lines, top to bottom. A line opens at the first glyph
/// (in reading order) that lies more than `y_tolerance` away from the
/// current line's anchor.
pub fn group_into_lines(chars: &Vec<CharInfo>, y_tolerance: i64) -> (lines: Vec<LineInfo>)
    ensures
        lines_view(lines@) == lines_of(chars@, y_tolerance as int),
        forall|k: int| 0 <= k < lines@.len() ==> line_wf(#[trigger] lines@[k]@),
{
    let sorted = sort_reading_order(chars);
    let mut lines: Vec<LineInfo> = Vec::new();
    let mut current: Vec<CharInfo> = Vec::new();
    let mut anchor: i32 = 0;
    let ghost done: Seq<Seq<CharInfo>> = seq![];
    let ghost tol = y_tolerance as int;
    let mut i: usize = 0;
    while i < sorted.len()
        invariant
            i <= sorted.len(),
            tol == y_tolerance,
            lines_view(lines@) == done.map_values(|r: Seq<CharInfo>| line_of(r)),
            group_runs(sorted@.subrange(0, i as int), tol) == (if current@.len() == 0 {
                done
            } else {
                done.push(current@)
            }),
            current@.len() == 0 ==> i == 0 && done.len() == 0,
            current@.len() > 0 ==> anchor == current@[0].y,
        decreases sorted.len() - i,
    {
        let g = sorted[i];
        proof {
            assert(sorted@.subrange(0, i + 1).drop_last() =~= sorted@.subrange(0, i as int));
        }
        if current.len() > 0 && anchor as i64 - g.y as i64 <= y_tolerance && g.y as i64
            - anchor as i64 <= y_tolerance {
            proof {
                let runs = done.push(current@);
                assert(runs.update(runs.len() - 1, runs.last().push(g)) =~= done.push(
                    current@.push(g),
                ));
            }
            current.push(g);
        } else {
            if current.len() > 0 {
                let line = create_line_info(&current);
                proof {
                    assert(lines_view(lines@.push(line)) =~= lines_view(lines@).push(line@));
                    assert(done.push(current@).map_values(|r: Seq<CharInfo>| line_of(r))
                        =~= done.map_values(|r: Seq<CharInfo>| line_of(r)).push(
                        line_of(current@),
                    ));
                    assert(lines_view(lines@.push(line)) =~= done.push(current@).map_values(
                        |r: Seq<CharInfo>| line_of(r),
                    ));
                    done = done.push(current@);
                }
                lines.push(line);
            }
            current = Vec::new();
            current.push(g);
            anchor = g.y;
            proof {
                assert(current@ =~= seq![g]);
            }
        }
        i = i + 1;
    }
    assert(sorted@.subrange(0, sorted@.len() as int) =~= sorted@);
    if current.len() > 0 {
        let line = create_line_info(&current);
        proof {
            assert(lines_view(lines@.push(line)) =~= lines_view(lines@).push(line@));
            assert(done.push(current@).map_values(|r: Seq<CharInfo>| line_of(r))
                =~= done.map_values(|r: Seq<CharInfo>| line_of(r)).push(line_of(current@)));
            assert(lines_view(lines@.push(line)) =~= done.push(current@).map_values(
                |r: Seq<CharInfo>| line_of(r),
            ));
        }
        lines.push(line);
    }
    proof {
        let runs = group_runs(reading_order(chars@), y_tolerance as int);
        lemma_runs_nonempty(reading_order(chars@), y_tolerance as int);
        assert forall|k: int| 0 <= k < lines@.len() implies line_wf(#[trigger] lines@[k]@) by {
            assert(lines_view(lines@)[k] == lines@[k]@);
            assert(lines_of(chars@, y_tolerance as int)[k] == line_of(runs[k]));
            lemma_line_of_wf(runs[k]);
        }
    }
    lines
}

} // verus!
