//! Detection of a two-column layout and column-by-column reading order.
use vstd::prelude::*;

use crate::glyph::{lines_view, LineInfo, LineView, UNITS_PER_POINT};
use crate::ordering::{ascending, lemma_sort_bounds, sort_ascending, sort_by_insertion};

verus! {

/// The left edge of every character, line after line.
pub open spec fn all_x(lines: Seq<LineView>) -> Seq<i64>
    decreases lines.len(),
{
    if lines.len() == 0 {
        seq![]
    } else {
        all_x(lines.drop_last()) + lines.last().chars.map_values(|m: (char, i32)| m.1 as i64)
    }
}

/// The 10-point bucket of the gap from `start` to `end`: its midpoint
/// rounded down to a multiple of 10 points.
pub open spec fn bucket_of(start: int, end: int) -> int {
    ((start + end) / (20 * UNITS_PER_POINT as int)) * (10 * UNITS_PER_POINT as int)
}

/// The buckets of the gaps of at least `gap` between neighbours of the
/// ascending sequence `xs`, left to right.
pub open spec fn gap_buckets(xs: Seq<i64>, gap: int) -> Seq<int>
    decreases xs.len(),
{
    if xs.len() < 2 {
        seq![]
    } else {
        let rest = gap_buckets(xs.drop_last(), gap);
        let start = xs[xs.len() - 2] as int;
        let end = xs.last() as int;
        if end - start >= gap {
            rest.push(bucket_of(start, end))
        } else {
            rest
        }
    }
}

/// How many times `b` occurs in `bs`.
pub open spec fn occurrences(bs: Seq<int>, b: int) -> nat
    decreases bs.len(),
{
    if bs.len() == 0 {
        0
    } else {
        occurrences(bs.drop_last(), b) + if bs.last() == b {
            1nat
        } else {
            0nat
        }
    }
}

/// Scanning from index `i` with `best` the index found so far, the first
/// index whose bucket occurs strictly more often than any before it.
pub open spec fn mode_from(bs: Seq<int>, i: int, best: int) -> int
    decreases bs.len() - i,
{
    if i >= bs.len() {
        best
    } else if occurrences(bs, bs[i]) > occurrences(bs, bs[best]) {
        mode_from(bs, i + 1, i)
    } else {
        mode_from(bs, i + 1, best)
    }
}

/// The most frequent bucket of a non-empty sequence; among equally frequent
/// ones, the one met first.
pub open spec fn separator(bs: Seq<int>) -> int {
    bs[mode_from(bs, 1, 0)]
}

/// Whether a line's horizontal midpoint lies left of `sep`.
pub open spec fn left_of_separator(line: LineView, sep: int) -> bool {
    line.min_x + line.max_x < 2 * sep
}

/// The lines left of `sep`, in order.
pub open spec fn left_lines(lines: Seq<LineView>, sep: int) -> Seq<LineView>
    decreases lines.len(),
{
    if lines.len() == 0 {
        lines
    } else if left_of_separator(lines.last(), sep) {
        left_lines(lines.drop_last(), sep).push(lines.last())
    } else {
        left_lines(lines.drop_last(), sep)
    }
}

/// The lines at or right of `sep`, in order.
pub open spec fn right_lines(lines: Seq<LineView>, sep: int) -> Seq<LineView>
    decreases lines.len(),
{
    if lines.len() == 0 {
        lines
    } else if !left_of_separator(lines.last(), sep) {
        right_lines(lines.drop_last(), sep).push(lines.last())
    } else {
        right_lines(lines.drop_last(), sep)
    }
}

/// The gap buckets of a page's character positions.
pub open spec fn page_gap_buckets(lines: Seq<LineView>, column_gap: int) -> Seq<int> {
    gap_buckets(sort_by_insertion(all_x(lines), ascending()), column_gap)
}

/// The lines in column reading order: unchanged when no gap qualifies,
/// else the left column top to bottom, then the right one.
pub open spec fn columns_reordered(lines: Seq<LineView>, column_gap: int) -> Seq<LineView> {
    let bs = page_gap_buckets(lines, column_gap);
    if bs.len() == 0 {
        lines
    } else {
        left_lines(lines, separator(bs)) + right_lines(lines, separator(bs))
    }
}

/// `v / d` rounded toward negative infinity.
fn floor_div(v: i64, d: i64) -> (q: i64)
    requires
        d > 0,
    ensures
        q == v as int / d as int,
        q * d <= v < q * d + d,
{
    if v >= 0 {
        proof {
            vstd::arithmetic::div_mod::lemma_fundamental_div_mod(v as int, d as int);
            vstd::arithmetic::div_mod::lemma_mod_pos_bound(v as int, d as int);
            assert(d * (v / d) == (v / d) * d) by (nonlinear_arith);
        }
        v / d
    } else {
        let w = -(v + 1);
        let q = w / d;
        proof {
            let r = w % d;
            vstd::arithmetic::div_mod::lemma_fundamental_div_mod(w as int, d as int);
            vstd::arithmetic::div_mod::lemma_mod_pos_bound(w as int, d as int);
            assert(v == (-q - 1) * d + (d - 1 - r)) by (nonlinear_arith)
                requires
                    w == d * q + r,
                    v == -w - 1,
            ;
            assert((-q - 1) * d <= v < (-q - 1) * d + d);
            vstd::arithmetic::div_mod::lemma_fundamental_div_mod_converse(
                v as int,
                d as int,
                -q - 1,
                d - 1 - r,
            );
        }
        -q - 1
    }
}

/// How many times `b` occurs in `bs`.
fn count_occurrences(bs: &Vec<i64>, b: i64) -> (c: usize)
    ensures
        c == occurrences(bs@.map_values(|v: i64| v as int), b as int),
{
    let ghost all = bs@.map_values(|v: i64| v as int);
    let mut c: usize = 0;
    let mut i: usize = 0;
    while i < bs.len()
        invariant
            i <= bs.len(),
            all == bs@.map_values(|v: i64| v as int),
            c == occurrences(all.subrange(0, i as int), b as int),
            c <= i,
        decreases bs.len() - i,
    {
        proof {
            assert(all.subrange(0, i + 1).drop_last() =~= all.subrange(0, i as int));
        }
        if bs[i] == b {
            c = c + 1;
        }
        i = i + 1;
    }
    assert(all.subrange(0, bs@.len() as int) =~= all);
    c
}

/// Reorders a two-column page so that the left column is read before the
/// right one; the separator is the most frequent 10-point bucket among the
/// gaps of at least `column_gap` between neighbouring character positions.
pub fn reorder_columns(lines: Vec<LineInfo>, column_gap: i32) -> (ordered: Vec<LineInfo>)
    ensures
        lines_view(ordered@) == columns_reordered(lines_view(lines@), column_gap as int),
{
    let ghost all = lines_view(lines@);
    let n = lines.len();
    let mut xs: Vec<i64> = Vec::new();
    let mut i: usize = 0;
    while i < n
        invariant
            i <= n,
            n == lines@.len(),
            all == lines_view(lines@),
            xs@ == all_x(all.subrange(0, i as int)),
            forall|q: int| 0 <= q < xs@.len() ==> i32::MIN <= #[trigger] xs@[q] <= i32::MAX,
        decreases n - i,
    {
        let line = &lines[i];
        let ghost f = |m: (char, i32)| m.1 as i64;
        let mut j: usize = 0;
        while j < line.chars.len()
            invariant
                i < n,
                n == all.len(),
                j <= line.chars@.len(),
                forall|q: int| 0 <= q < xs@.len() ==> i32::MIN <= #[trigger] xs@[q] <= i32::MAX,
                xs@ == all_x(all.subrange(0, i as int)) + line.chars@.subrange(
                    0,
                    j as int,
                ).map_values(f),
                f == (|m: (char, i32)| m.1 as i64),
            decreases line.chars@.len() - j,
        {
            proof {
                assert(line.chars@.subrange(0, j + 1).map_values(f) =~= line.chars@.subrange(
                    0,
                    j as int,
                ).map_values(f).push(line.chars@[j as int].1 as i64));
            }
            xs.push(line.chars[j].1 as i64);
            j = j + 1;
        }
        proof {
            assert(all.subrange(0, i + 1).drop_last() =~= all.subrange(0, i as int));
            assert(line.chars@.subrange(0, line.chars@.len() as int) =~= line.chars@);
            assert(all[i as int] == line@);
        }
        i = i + 1;
    }
    assert(all.subrange(0, n as int) =~= all);
    let sorted = sort_ascending(&xs);
    proof {
        lemma_sort_bounds(xs@, i32::MIN as int, i32::MAX as int);
    }
    let gap = column_gap as i64;
    if sorted.len() < 2 {
        proof {
            assert(gap_buckets(sorted@, gap as int) =~= seq![]);
        }
        return lines;
    }
    let mut bs: Vec<i64> = Vec::new();
    proof {
        assert(bs@.map_values(|v: i64| v as int) =~= seq![]);
        assert(gap_buckets(sorted@.subrange(0, 1), gap as int) =~= seq![]);
    }
    let mut k: usize = 1;
    while k < sorted.len()
        invariant
            1 <= k <= sorted.len(),
            forall|q: int|
                0 <= q < sorted@.len() ==> i32::MIN <= #[trigger] sorted@[q] <= i32::MAX,
            bs@.map_values(|v: i64| v as int) == gap_buckets(
                sorted@.subrange(0, k as int),
                gap as int,
            ),
        decreases sorted.len() - k,
    {
        let start = sorted[k - 1];
        let end = sorted[k];
        proof {
            assert(sorted@.subrange(0, k + 1).drop_last() =~= sorted@.subrange(0, k as int));
        }
        if end - start >= gap {
            let q = floor_div(start + end, 20 * UNITS_PER_POINT as i64);
            assert(q * 2000 <= start + end < q * 2000 + 2000);
            let width: i64 = 10 * UNITS_PER_POINT as i64;
            assert(width == 1000);
            let b = q * width;
            proof {
                assert(bs@.push(b).map_values(|v: i64| v as int) =~= bs@.map_values(
                    |v: i64| v as int,
                ).push(b as int));
            }
            bs.push(b);
        }
        k = k + 1;
    }
    let ghost buckets = bs@.map_values(|v: i64| v as int);
    assert(sorted@.subrange(0, sorted@.len() as int) =~= sorted@);
    if bs.len() == 0 {
        return lines;
    }
    let mut best: usize = 0;
    let mut best_count = count_occurrences(&bs, bs[0]);
    let mut m: usize = 1;
    while m < bs.len()
        invariant
            1 <= m <= bs.len(),
            best < bs.len(),
            buckets == bs@.map_values(|v: i64| v as int),
            best_count == occurrences(buckets, buckets[best as int]),
            mode_from(buckets, m as int, best as int) == mode_from(buckets, 1, 0),
        decreases bs.len() - m,
    {
        let c = count_occurrences(&bs, bs[m]);
        if c > best_count {
            best = m;
            best_count = c;
        }
        m = m + 1;
    }
    let sep = bs[best];
    let mut rest = lines;
    let mut left: Vec<LineInfo> = Vec::new();
    let mut right: Vec<LineInfo> = Vec::new();
    let mut t: usize = 0;
    while rest.len() > 0
        invariant
            t + rest@.len() == n,
            n == all.len(),
            lines_view(rest@) == all.subrange(t as int, n as int),
            lines_view(left@) == left_lines(all.subrange(0, t as int), sep as int),
            lines_view(right@) == right_lines(all.subrange(0, t as int), sep as int),
        decreases rest.len(),
    {
        let ghost before = rest@;
        let line = rest.remove(0);
        proof {
            assert(lines_view(before)[0] == all[t as int]);
            assert(lines_view(rest@) =~= lines_view(before).subrange(1, before.len() as int));
            assert(lines_view(rest@) =~= all.subrange(t + 1, n as int));
            assert(all.subrange(0, t + 1).drop_last() =~= all.subrange(0, t as int));
            assert(all.subrange(0, t + 1).last() == line@);
        }
        if (line.min_x as i128) + (line.max_x as i128) < 2 * (sep as i128) {
            proof {
                assert(lines_view(left@.push(line)) =~= lines_view(left@).push(line@));
            }
            left.push(line);
        } else {
            proof {
                assert(lines_view(right@.push(line)) =~= lines_view(right@).push(line@));
            }
            right.push(line);
        }
        t = t + 1;
    }
    proof {
        assert(all.subrange(0, n as int) =~= all);
        assert(lines_view(left@ + right@) =~= lines_view(left@) + lines_view(right@));
    }
    left.append(&mut right);
    left
}

} // verus!
