//! Properties of the reconstruction that hold for all inputs.
use vstd::prelude::*;

use crate::glyph::{CharInfo, LineView, TextExtractionConfig};
use crate::lines::{group_runs, lemma_runs_nonempty, line_of, lines_of, reading_order};
use crate::ordering::{
    lemma_orders_are_strict_weak, lemma_sort_map_multiset, lemma_sort_multiset,
    lemma_sort_of_sorted, lemma_sort_sorted, reading_before, x_before,
};
use crate::thresholds::lemma_thresholds_ignore_order;
use crate::pipeline::page_text;

verus! {

/// The text is a function of the glyphs and the configuration alone: running
/// the reconstruction twice on the same glyphs gives the same text.
pub proof fn lemma_page_text_deterministic(
    first: Seq<CharInfo>,
    second: Seq<CharInfo>,
    config: TextExtractionConfig,
)
    requires
        first == second,
    ensures
        page_text(first, config) == page_text(second, config),
{
}

/// Ordering is idempotent: the glyphs handed over already in reading order
/// give the same text as in the order they came in, and sorting them again
/// changes nothing.
pub proof fn lemma_reading_order_idempotent(chars: Seq<CharInfo>, config: TextExtractionConfig)
    ensures
        reading_order(reading_order(chars)) == reading_order(chars),
        page_text(reading_order(chars), config) == page_text(chars, config),
{
    let s = reading_order(chars);
    lemma_orders_are_strict_weak();
    lemma_sort_sorted(chars, reading_before());
    lemma_sort_of_sorted(s, reading_before());
    lemma_sort_multiset(chars, reading_before());
    lemma_thresholds_ignore_order(chars, reading_before());
}

/// A page without glyphs has the empty text, whatever the configuration.
pub proof fn lemma_empty_page(config: TextExtractionConfig)
    ensures
        page_text(Seq::<CharInfo>::empty(), config) == Seq::<char>::empty(),
{
}

/// Grouping never makes more runs than there are glyphs.
proof fn lemma_runs_at_most_glyphs(s: Seq<CharInfo>, tol: int)
    ensures
        group_runs(s, tol).len() <= s.len(),
    decreases s.len(),
{
    if s.len() > 0 {
        lemma_runs_at_most_glyphs(s.drop_last(), tol);
    }
}

/// Glyphs that all share one `y` form one run.
proof fn lemma_one_y_one_run(s: Seq<CharInfo>, tol: int)
    requires
        s.len() > 0,
        tol >= 0,
        forall|k: int| 0 <= k < s.len() ==> #[trigger] s[k].y == s[0].y,
    ensures
        group_runs(s, tol) == seq![s],
    decreases s.len(),
{
    if s.len() == 1 {
        assert(group_runs(s.drop_last(), tol) =~= seq![]);
        assert(seq![s.last()] =~= s);
    } else {
        let t = s.drop_last();
        assert(t[0] == s[0]);
        lemma_one_y_one_run(t, tol);
        assert(t.push(s.last()) =~= s);
        assert(seq![t].update(0, t.push(s.last())) =~= seq![s]);
    }
}

/// The number of lines never exceeds the number of glyphs, and glyphs that
/// all share one `y` make exactly one line.
pub proof fn lemma_line_count(chars: Seq<CharInfo>, tol: int)
    requires
        tol >= 0,
    ensures
        lines_of(chars, tol).len() <= chars.len(),
        chars.len() > 0 && (forall|k: int| 0 <= k < chars.len() ==> #[trigger] chars[k].y
            == chars[0].y) ==> lines_of(chars, tol).len() == 1,
{
    broadcast use vstd::seq_lib::group_to_multiset_ensures;
    let sorted = reading_order(chars);
    lemma_sort_multiset(chars, reading_before());
    lemma_runs_at_most_glyphs(sorted, tol);
    if chars.len() > 0 && (forall|k: int| 0 <= k < chars.len() ==> #[trigger] chars[k].y
        == chars[0].y) {
        assert forall|k: int| 0 <= k < sorted.len() implies #[trigger] sorted[k].y
            == sorted[0].y by {
            assert(sorted.contains(sorted[k]));
            assert(sorted.contains(sorted[0]));
            assert(chars.to_multiset().count(sorted[k]) > 0);
            assert(chars.to_multiset().count(sorted[0]) > 0);
            assert(chars.contains(sorted[k]));
            assert(chars.contains(sorted[0]));
        }
        lemma_one_y_one_run(sorted, tol);
    }
}

/// Over glyphs whose `y` never increases, every run opens at one of the
/// glyphs, and each anchor lies more than `tol` above the next one.
proof fn lemma_run_anchors(s: Seq<CharInfo>, tol: int)
    requires
        tol >= 0,
        forall|i: int, j: int| 0 <= i < j < s.len() ==> #[trigger] s[j].y <= #[trigger] s[i].y,
    ensures
        forall|k: int|
            0 <= k < group_runs(s, tol).len() ==> #[trigger] group_runs(s, tol)[k].len() > 0
                && exists|i: int| 0 <= i < s.len() && group_runs(s, tol)[k][0] == s[i],
        forall|k: int|
            0 <= k < group_runs(s, tol).len() - 1 ==> #[trigger] group_runs(s, tol)[k][0].y
                - group_runs(s, tol)[k + 1][0].y > tol,
    decreases s.len(),
{
    if s.len() > 0 {
        let t = s.drop_last();
        let g = s.last();
        let prev = group_runs(t, tol);
        let runs = group_runs(s, tol);
        assert forall|i: int, j: int| 0 <= i < j < t.len() implies #[trigger] t[j].y
            <= #[trigger] t[i].y by {
            assert(t[i] == s[i] && t[j] == s[j]);
        }
        lemma_run_anchors(t, tol);
        assert forall|k: int| 0 <= k < runs.len() implies #[trigger] runs[k].len() > 0 && exists|
            i: int,
        | 0 <= i < s.len() && runs[k][0] == s[i] by {
            if k < prev.len() {
                assert(prev[k].len() > 0);
                let i = choose|i: int| 0 <= i < t.len() && prev[k][0] == t[i];
                assert(s[i] == t[i]);
                if k == prev.len() - 1 && runs.len() == prev.len() {
                    assert(runs[k] == prev[k].push(g));
                    assert(runs[k][0] == prev[k][0]);
                } else {
                    assert(runs[k] == prev[k]);
                }
            } else {
                assert(runs[k] == seq![g]);
                assert(runs[k][0] == s[s.len() - 1]);
            }
        }
        assert forall|k: int| 0 <= k < runs.len() - 1 implies #[trigger] runs[k][0].y - runs[k
            + 1][0].y > tol by {
            if k + 1 < prev.len() {
                if k + 1 == prev.len() - 1 && runs.len() == prev.len() {
                    assert(runs[k + 1] == prev[k + 1].push(g));
                    assert(runs[k + 1][0] == prev[k + 1][0]);
                }
                assert(runs[k] == prev[k]);
            } else {
                assert(runs.len() == prev.len() + 1);
                assert(runs[k] == prev[k]);
                assert(runs[k + 1] == seq![g]);
                assert(prev[k].len() > 0);
                let i = choose|i: int| 0 <= i < t.len() && prev[k][0] == t[i];
                assert(s[i] == t[i]);
                assert(g.y <= s[i].y);
            }
        }
    }
}

/// Each anchor above the next means each lies above all later ones.
proof fn lemma_descending(ys: Seq<int>)
    requires
        forall|k: int| 0 <= k < ys.len() - 1 ==> #[trigger] ys[k] > ys[k + 1],
    ensures
        forall|i: int, j: int| 0 <= i < j < ys.len() ==> #[trigger] ys[i] > #[trigger] ys[j],
    decreases ys.len(),
{
    if ys.len() > 1 {
        let t = ys.drop_last();
        assert forall|k: int| 0 <= k < t.len() - 1 implies #[trigger] t[k] > t[k + 1] by {
            assert(t[k] == ys[k] && t[k + 1] == ys[k + 1]);
        }
        lemma_descending(t);
        assert forall|i: int, j: int| 0 <= i < j < ys.len() implies #[trigger] ys[i]
            > #[trigger] ys[j] by {
            if j < ys.len() - 1 {
                assert(t[i] == ys[i] && t[j] == ys[j]);
            } else if i < j - 1 {
                assert(t[i] == ys[i] && t[j - 1] == ys[j - 1]);
                assert(ys[j - 1] > ys[j]);
            }
        }
    }
}

/// Glyphs that all share one `y` make exactly one line: at that `y`, with
/// every glyph's character and left edge, none lost or added.
pub proof fn lemma_one_y_one_line(chars: Seq<CharInfo>, tol: int)
    requires
        tol >= 0,
        chars.len() > 0,
        forall|k: int| 0 <= k < chars.len() ==> #[trigger] chars[k].y == chars[0].y,
    ensures
        lines_of(chars, tol).len() == 1,
        lines_of(chars, tol)[0].y == chars[0].y,
        lines_of(chars, tol)[0].chars.len() == chars.len(),
        lines_of(chars, tol)[0].chars.to_multiset() == chars.map_values(
            |g: CharInfo| (g.char, g.x),
        ).to_multiset(),
{
    broadcast use vstd::seq_lib::group_to_multiset_ensures;
    let s = reading_order(chars);
    let f = |g: CharInfo| (g.char, g.x);
    lemma_sort_multiset(chars, reading_before());
    assert forall|k: int| 0 <= k < s.len() implies #[trigger] s[k].y == chars[0].y by {
        assert(s.contains(s[k]));
        assert(chars.to_multiset().count(s[k]) > 0);
        assert(chars.contains(s[k]));
        let j = choose|j: int| 0 <= j < chars.len() && chars[j] == s[k];
        assert(chars[j].y == chars[0].y);
    }
    assert(s[0].y == chars[0].y);
    lemma_one_y_one_run(s, tol);
    let line = line_of(s);
    assert(lines_of(chars, tol)[0] == line);
    lemma_sort_map_multiset(chars, reading_before(), f);
    lemma_sort_multiset(s.map_values(f), x_before());
    assert(line.chars.len() == line.chars.to_multiset().len());
    assert(chars.map_values(f).len() == chars.map_values(f).to_multiset().len());
}

/// The glyphs of a sequence of runs, run after run.
pub open spec fn concat_runs(runs: Seq<Seq<CharInfo>>) -> Seq<CharInfo>
    decreases runs.len(),
{
    if runs.len() == 0 {
        seq![]
    } else {
        concat_runs(runs.drop_last()) + runs.last()
    }
}

/// The number of characters over all lines.
pub open spec fn total_members(lines: Seq<LineView>) -> nat
    decreases lines.len(),
{
    if lines.len() == 0 {
        0
    } else {
        total_members(lines.drop_last()) + lines.last().chars.len()
    }
}

/// The runs of a grouping, put back together, are the grouped sequence.
proof fn lemma_runs_concat(s: Seq<CharInfo>, tol: int)
    ensures
        concat_runs(group_runs(s, tol)) == s,
    decreases s.len(),
{
    if s.len() > 0 {
        let t = s.drop_last();
        let g = s.last();
        let prev = group_runs(t, tol);
        lemma_runs_concat(t, tol);
        if prev.len() > 0 && prev.last()[0].y - g.y <= tol && g.y - prev.last()[0].y <= tol {
            let runs = prev.update(prev.len() - 1, prev.last().push(g));
            assert(runs.drop_last() =~= prev.drop_last());
            assert(concat_runs(runs) =~= concat_runs(prev).push(g));
        } else {
            assert(prev.push(seq![g]).drop_last() =~= prev);
        }
        assert(t.push(g) =~= s);
    }
}

/// The character counts of the lines add up to the lengths of their runs.
proof fn lemma_total_members(runs: Seq<Seq<CharInfo>>)
    requires
        forall|k: int| 0 <= k < runs.len() ==> #[trigger] runs[k].len() > 0,
    ensures
        total_members(runs.map_values(|r: Seq<CharInfo>| line_of(r)))
            == concat_runs(runs).len(),
    decreases runs.len(),
{
    if runs.len() > 0 {
        let t = runs.drop_last();
        assert forall|k: int| 0 <= k < t.len() implies #[trigger] t[k].len() > 0 by {
            assert(t[k] == runs[k]);
        }
        lemma_total_members(t);
        let f = |r: Seq<CharInfo>| line_of(r);
        assert(runs.map_values(f).drop_last() =~= t.map_values(f));
        let r = runs.last();
        lemma_sort_multiset(r.map_values(|g: CharInfo| (g.char, g.x)), x_before());
    }
}

/// Grouping loses no glyph: the lines' runs, put back together, are the
/// glyphs in reading order (the same glyphs as given), and the lines hold
/// as many characters as there are glyphs.
pub proof fn lemma_grouping_keeps_glyphs(chars: Seq<CharInfo>, tol: int)
    ensures
        concat_runs(group_runs(reading_order(chars), tol)) == reading_order(chars),
        concat_runs(group_runs(reading_order(chars), tol)).to_multiset() == chars.to_multiset(),
        total_members(lines_of(chars, tol)) == chars.len(),
{
    let s = reading_order(chars);
    lemma_runs_concat(s, tol);
    lemma_sort_multiset(chars, reading_before());
    lemma_runs_nonempty(s, tol);
    lemma_total_members(group_runs(s, tol));
}

/// Lines are clusters of distinct heights: each line opens at the `y` of
/// one of the glyphs, each lies more than `tol` above the next, and so there
/// are never more lines than distinct `y` values among the glyphs.
pub proof fn lemma_lines_are_y_clusters(chars: Seq<CharInfo>, tol: int)
    requires
        tol >= 0,
    ensures
        forall|k: int|
            0 <= k < lines_of(chars, tol).len() - 1 ==> #[trigger] lines_of(chars, tol)[k].y
                - lines_of(chars, tol)[k + 1].y > tol,
        forall|k: int|
            0 <= k < lines_of(chars, tol).len() ==> exists|i: int|
                0 <= i < chars.len() && chars[i].y == #[trigger] lines_of(chars, tol)[k].y,
        lines_of(chars, tol).len() <= chars.map_values(|g: CharInfo| g.y).to_set().len(),
{
    broadcast use vstd::seq_lib::group_to_multiset_ensures;
    let s = reading_order(chars);
    lemma_orders_are_strict_weak();
    lemma_sort_sorted(chars, reading_before());
    lemma_sort_multiset(chars, reading_before());
    assert forall|i: int, j: int| 0 <= i < j < s.len() implies #[trigger] s[j].y
        <= #[trigger] s[i].y by {
        assert(!reading_before()(s[j], s[i]));
    }
    lemma_run_anchors(s, tol);
    let runs = group_runs(s, tol);
    let lines = lines_of(chars, tol);
    assert(lines.len() == runs.len());
    assert forall|k: int| 0 <= k < lines.len() implies #[trigger] lines[k].y == runs[k][0].y by {
    }
    assert forall|k: int| 0 <= k < lines.len() implies exists|i: int|
        0 <= i < chars.len() && chars[i].y == #[trigger] lines[k].y by {
        assert(runs[k].len() > 0);
        let j = choose|j: int| 0 <= j < s.len() && runs[k][0] == s[j];
        assert(s.contains(s[j]));
        assert(chars.to_multiset().count(s[j]) > 0);
        assert(chars.contains(s[j]));
        let i = choose|i: int| 0 <= i < chars.len() && chars[i] == s[j];
        assert(chars[i].y == lines[k].y);
    }
    let ys = lines.map_values(|l: LineView| l.y as int);
    assert forall|k: int| 0 <= k < ys.len() - 1 implies #[trigger] ys[k] > ys[k + 1] by {
        assert(lines[k].y - lines[k + 1].y > tol);
    }
    lemma_descending(ys);
    let all = chars.map_values(|g: CharInfo| g.y);
    let ys32 = lines.map_values(|l: LineView| l.y);
    assert(ys32.no_duplicates()) by {
        assert forall|i: int, j: int| 0 <= i < ys32.len() && 0 <= j < ys32.len() && i != j
            implies ys32[i] != ys32[j] by {
            if i < j {
                assert(ys[i] > ys[j]);
            } else {
                assert(ys[j] > ys[i]);
            }
        }
    }
    ys32.unique_seq_to_set();
    assert(ys32.to_set().subset_of(all.to_set())) by {
        assert forall|y: i32| ys32.to_set().contains(y) implies all.to_set().contains(y) by {
            assert(ys32.contains(y));
            let k = choose|k: int| 0 <= k < ys32.len() && ys32[k] == y;
            let i = choose|i: int| 0 <= i < chars.len() && chars[i].y == lines[k].y;
            assert(all[i] == y);
            assert(all.contains(y));
        }
    }
    vstd::seq_lib::seq_to_set_is_finite(all);
    vstd::set_lib::lemma_len_subset(ys32.to_set(), all.to_set());
}

} // verus!
