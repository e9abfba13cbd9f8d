//! Tolerances derived from the distribution of glyph heights.
use vstd::prelude::*;

use crate::glyph::{CharInfo, Thresholds, UNITS_PER_POINT};
use crate::ordering::{
    ascending, insert_by, lemma_ascending_unique, lemma_orders_are_strict_weak,
    lemma_sort_multiset, lemma_sort_sorted, sort_ascending, sort_by_insertion,
};

verus! {

/// The tolerances used when none are derived: 5 points between lines,
/// 10 points between words.
pub open spec fn fixed_thresholds() -> Thresholds {
    Thresholds {
        line_tolerance: (5 * UNITS_PER_POINT) as i64,
        space_tolerance: (10 * UNITS_PER_POINT) as i64,
    }
}

/// The heights above zero, in input order.
pub open spec fn positive_heights(chars: Seq<CharInfo>) -> Seq<i64>
    decreases chars.len(),
{
    if chars.len() == 0 {
        seq![]
    } else {
        let rest = positive_heights(chars.drop_last());
        if chars.last().height > 0 {
            rest.push(chars.last().height as i64)
        } else {
            rest
        }
    }
}

/// The median of the positive heights: the element at index `len / 2` of
/// the ascending order (the upper median for an even count).
pub open spec fn median_height(chars: Seq<CharInfo>) -> i64 {
    let sorted = sort_by_insertion(positive_heights(chars), ascending());
    sorted[(sorted.len() / 2) as int]
}

/// Tolerances from the median height `m`: 40% of it between lines, at least
/// 2 points; 30% of it between words, at least 3 points (fractions of a unit
/// are dropped).
pub open spec fn thresholds_from_median(m: int) -> Thresholds {
    Thresholds {
        line_tolerance: if m * 2 / 5 > 2 * UNITS_PER_POINT {
            (m * 2 / 5) as i64
        } else {
            (2 * UNITS_PER_POINT) as i64
        },
        space_tolerance: if m * 3 / 10 > 3 * UNITS_PER_POINT {
            (m * 3 / 10) as i64
        } else {
            (3 * UNITS_PER_POINT) as i64
        },
    }
}

/// The tolerances of a page: from the median positive height, or the fixed
/// ones when no glyph has a positive height.
pub open spec fn dynamic_thresholds(chars: Seq<CharInfo>) -> Thresholds {
    if positive_heights(chars).len() == 0 {
        fixed_thresholds()
    } else {
        thresholds_from_median(median_height(chars) as int)
    }
}

/// Every positive height lies in `1..=u32::MAX`.
proof fn lemma_positive_heights_bounds(chars: Seq<CharInfo>)
    ensures
        forall|k: int|
            0 <= k < positive_heights(chars).len() ==> 0 < #[trigger] positive_heights(chars)[k]
                <= u32::MAX,
    decreases chars.len(),
{
    if chars.len() > 0 {
        let rest = positive_heights(chars.drop_last());
        lemma_positive_heights_bounds(chars.drop_last());
        assert forall|k: int| 0 <= k < positive_heights(chars).len() implies 0
            < #[trigger] positive_heights(chars)[k] <= u32::MAX by {
            if k < rest.len() {
                assert(positive_heights(chars)[k] == rest[k]);
            }
        }
    }
}

/// The fixed tolerances of 5 and 10 points.
pub fn fixed_tolerances() -> (t: Thresholds)
    ensures
        t == fixed_thresholds(),
{
    Thresholds {
        line_tolerance: (5 * UNITS_PER_POINT) as i64,
        space_tolerance: (10 * UNITS_PER_POINT) as i64,
    }
}

/// Derives the line and space tolerances from the median glyph height.
pub fn calculate_dynamic_thresholds(chars: &Vec<CharInfo>) -> (t: Thresholds)
    ensures
        t == dynamic_thresholds(chars@),
        t.line_tolerance >= 2 * UNITS_PER_POINT,
        t.space_tolerance >= 3 * UNITS_PER_POINT,
{
    let mut heights: Vec<i64> = Vec::new();
    let mut i: usize = 0;
    while i < chars.len()
        invariant
            i <= chars.len(),
            heights@ == positive_heights(chars@.subrange(0, i as int)),
        decreases chars.len() - i,
    {
        proof {
            assert(chars@.subrange(0, i + 1).drop_last() =~= chars@.subrange(0, i as int));
        }
        if chars[i].height > 0 {
            heights.push(chars[i].height as i64);
        }
        i = i + 1;
    }
    assert(chars@.subrange(0, chars@.len() as int) =~= chars@);
    if heights.len() == 0 {
        return fixed_tolerances();
    }
    let sorted = sort_ascending(&heights);
    let ghost mid: int = (sorted@.len() / 2) as int;
    proof {
        broadcast use vstd::seq_lib::group_to_multiset_ensures;
        lemma_sort_multiset(heights@, ascending());
        lemma_positive_heights_bounds(chars@);
        assert(sorted@.contains(sorted@[mid]));
        assert(heights@.to_multiset().count(sorted@[mid]) > 0);
        assert(heights@.contains(sorted@[mid]));
    }
    let m = sorted[sorted.len() / 2];
    let line = m * 2 / 5;
    let space = m * 3 / 10;
    Thresholds {
        line_tolerance: if line > (2 * UNITS_PER_POINT) as i64 {
            line
        } else {
            (2 * UNITS_PER_POINT) as i64
        },
        space_tolerance: if space > (3 * UNITS_PER_POINT) as i64 {
            space
        } else {
            (3 * UNITS_PER_POINT) as i64
        },
    }
}

/// The positive heights of a glyph after an insertion: those of the
/// sequence, plus the new glyph's when positive.
proof fn lemma_positive_heights_insert(
    t: Seq<CharInfo>,
    v: CharInfo,
    before: spec_fn(CharInfo, CharInfo) -> bool,
)
    ensures
        positive_heights(insert_by(t, v, before)).to_multiset() == if v.height > 0 {
            positive_heights(t).to_multiset().insert(v.height as i64)
        } else {
            positive_heights(t).to_multiset()
        },
    decreases t.len(),
{
    broadcast use vstd::seq_lib::group_to_multiset_ensures;
    broadcast use vstd::multiset::group_multiset_axioms;
    if t.len() == 0 {
        let r = insert_by(t, v, before);
        assert(r.drop_last() =~= t);
    } else if before(v, t.last()) {
        let u = insert_by(t.drop_last(), v, before);
        lemma_positive_heights_insert(t.drop_last(), v, before);
        assert(u.push(t.last()).drop_last() =~= u);
        if v.height > 0 && t.last().height > 0 {
            assert(positive_heights(t.drop_last()).to_multiset().insert(v.height as i64).insert(
                t.last().height as i64,
            ) =~= positive_heights(t.drop_last()).to_multiset().insert(
                t.last().height as i64,
            ).insert(v.height as i64));
        }
    } else {
        assert(t.push(v).drop_last() =~= t);
    }
}

/// Reordering glyphs by insertion keeps their positive heights.
proof fn lemma_positive_heights_sort(s: Seq<CharInfo>, before: spec_fn(CharInfo, CharInfo) -> bool)
    ensures
        positive_heights(sort_by_insertion(s, before)).to_multiset()
            == positive_heights(s).to_multiset(),
    decreases s.len(),
{
    broadcast use vstd::seq_lib::group_to_multiset_ensures;
    if s.len() > 0 {
        lemma_positive_heights_sort(s.drop_last(), before);
        lemma_positive_heights_insert(sort_by_insertion(s.drop_last(), before), s.last(), before);
    }
}

/// The tolerances do not depend on the order of the glyphs, as long as one
/// order is an insertion sort of the other.
pub proof fn lemma_thresholds_ignore_order(
    s: Seq<CharInfo>,
    before: spec_fn(CharInfo, CharInfo) -> bool,
)
    ensures
        dynamic_thresholds(sort_by_insertion(s, before)) == dynamic_thresholds(s),
{
    broadcast use vstd::seq_lib::group_to_multiset_ensures;
    let a = positive_heights(sort_by_insertion(s, before));
    let b = positive_heights(s);
    lemma_positive_heights_sort(s, before);
    a.to_multiset_ensures();
    b.to_multiset_ensures();
    assert(a.len() == b.len());
    lemma_orders_are_strict_weak();
    lemma_sort_sorted(a, ascending());
    lemma_sort_sorted(b, ascending());
    lemma_sort_multiset(a, ascending());
    lemma_sort_multiset(b, ascending());
    lemma_ascending_unique(sort_by_insertion(a, ascending()), sort_by_insertion(b, ascending()));
}

/// A total order on glyphs: by character, then position, then extent.
pub open spec fn glyph_leq(a: CharInfo, b: CharInfo) -> bool {
    ||| a.char < b.char
    ||| a.char == b.char && a.x < b.x
    ||| a.char == b.char && a.x == b.x && a.y < b.y
    ||| a.char == b.char && a.x == b.x && a.y == b.y && a.width < b.width
    ||| a.char == b.char && a.x == b.x && a.y == b.y && a.width == b.width && a.height <= b.height
}

/// The glyph order as a relation value.
pub open spec fn glyph_leq_rel() -> spec_fn(CharInfo, CharInfo) -> bool {
    |a: CharInfo, b: CharInfo| glyph_leq(a, b)
}

/// Strictly before in the glyph order.
pub open spec fn glyph_before() -> spec_fn(CharInfo, CharInfo) -> bool {
    |a: CharInfo, b: CharInfo| !glyph_leq(b, a)
}

/// The tolerances do not depend on the order of the glyphs: any
/// rearrangement of the same glyphs gives the same tolerances.
pub proof fn lemma_thresholds_permutation(a: Seq<CharInfo>, b: Seq<CharInfo>)
    requires
        a.to_multiset() == b.to_multiset(),
    ensures
        dynamic_thresholds(a) == dynamic_thresholds(b),
{
    broadcast use vstd::seq_lib::group_to_multiset_ensures;
    let leq = glyph_leq_rel();
    let before = glyph_before();
    assert(vstd::relations::total_ordering(leq));
    assert(crate::ordering::strict_weak_order(before));
    let sa = sort_by_insertion(a, before);
    let sb = sort_by_insertion(b, before);
    lemma_sort_sorted(a, before);
    lemma_sort_sorted(b, before);
    lemma_sort_multiset(a, before);
    lemma_sort_multiset(b, before);
    assert(vstd::relations::sorted_by(sa, leq)) by {
        assert forall|i: int, j: int| 0 <= i < j < sa.len() implies #[trigger] leq(sa[i], sa[j]) by {
            assert(!before(sa[j], sa[i]));
        }
    }
    assert(vstd::relations::sorted_by(sb, leq)) by {
        assert forall|i: int, j: int| 0 <= i < j < sb.len() implies #[trigger] leq(sb[i], sb[j]) by {
            assert(!before(sb[j], sb[i]));
        }
    }
    vstd::seq_lib::lemma_sorted_unique(sa, sb, leq);
    assert(sa == sb);
    lemma_positive_heights_sort(a, before);
    lemma_positive_heights_sort(b, before);
    let ha = positive_heights(a);
    let hb = positive_heights(b);
    assert(ha.to_multiset() == hb.to_multiset());
    ha.to_multiset_ensures();
    hb.to_multiset_ensures();
    lemma_orders_are_strict_weak();
    lemma_sort_sorted(ha, ascending());
    lemma_sort_sorted(hb, ascending());
    lemma_sort_multiset(ha, ascending());
    lemma_sort_multiset(hb, ascending());
    lemma_ascending_unique(sort_by_insertion(ha, ascending()), sort_by_insertion(hb, ascending()));
}

} // verus!
