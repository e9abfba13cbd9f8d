//! Stable insertion order on sequences, the model of every sort in the crate.
use vstd::prelude::*;

use crate::glyph::CharInfo;

verus! {

/// Inserts `v` into `s` behind every element that `v` does not strictly
/// precede: `v` moves left past a trailing element `e` only while
/// `before(v, e)` holds. On a sequence already ordered by `before` this is
/// the stable insertion of `v`.
pub open spec fn insert_by<T>(s: Seq<T>, v: T, before: spec_fn(T, T) -> bool) -> Seq<T>
    decreases s.len(),
{
    if s.len() == 0 {
        seq![v]
    } else if before(v, s.last()) {
        insert_by(s.drop_last(), v, before).push(s.last())
    } else {
        s.push(v)
    }
}

/// The stable sort of `s` by the strict order `before`: each element is
/// inserted in turn, so elements that neither precedes keep their order.
pub open spec fn sort_by_insertion<T>(s: Seq<T>, before: spec_fn(T, T) -> bool) -> Seq<T>
    decreases s.len(),
{
    if s.len() == 0 {
        s
    } else {
        insert_by(sort_by_insertion(s.drop_last(), before), s.last(), before)
    }
}

/// Where `v` stops in `s`: the insertion is a plain `Seq::insert` at `j`
/// when `v` precedes every element from `j` on and not the one before `j`.
pub proof fn lemma_insert_by_at<T>(s: Seq<T>, v: T, before: spec_fn(T, T) -> bool, j: int)
    requires
        0 <= j <= s.len(),
        forall|k: int| j <= k < s.len() ==> before(v, #[trigger] s[k]),
        j == 0 || !before(v, s[j - 1]),
    ensures
        insert_by(s, v, before) == s.insert(j, v),
    decreases s.len(),
{
    if s.len() == 0 {
        assert(s.insert(j, v) =~= seq![v]);
    } else if j == s.len() {
        assert(s.insert(j, v) =~= s.push(v));
    } else {
        assert(before(v, s.last()));
        let t = s.drop_last();
        lemma_insert_by_at(t, v, before, j);
        assert(t.insert(j, v).push(s.last()) =~= s.insert(j, v));
    }
}

/// Each step of an insertion sort over a prefix of `s`.
pub proof fn lemma_sort_step<T>(s: Seq<T>, before: spec_fn(T, T) -> bool, i: int)
    requires
        0 <= i < s.len(),
    ensures
        sort_by_insertion(s.subrange(0, i + 1), before) == insert_by(
            sort_by_insertion(s.subrange(0, i), before),
            s[i],
            before,
        ),
{
    assert(s.subrange(0, i + 1).drop_last() =~= s.subrange(0, i));
}

/// Inserting adds exactly `v` to the multiset of elements.
pub proof fn lemma_insert_by_multiset<T>(s: Seq<T>, v: T, before: spec_fn(T, T) -> bool)
    ensures
        insert_by(s, v, before).to_multiset() == s.to_multiset().insert(v),
        insert_by(s, v, before).len() == s.len() + 1,
    decreases s.len(),
{
    broadcast use vstd::seq_lib::group_to_multiset_ensures;
    if s.len() == 0 {
        assert(seq![v] =~= s.push(v));
    } else if before(v, s.last()) {
        let t = s.drop_last();
        lemma_insert_by_multiset(t, v, before);
        assert(t.push(s.last()) =~= s);
        assert(insert_by(t, v, before).push(s.last()).to_multiset() =~= s.to_multiset().insert(v));
    }
}

/// Sorting permutes: the multiset of elements, and so the length, is kept.
pub proof fn lemma_sort_multiset<T>(s: Seq<T>, before: spec_fn(T, T) -> bool)
    ensures
        sort_by_insertion(s, before).to_multiset() == s.to_multiset(),
        sort_by_insertion(s, before).len() == s.len(),
    decreases s.len(),
{
    broadcast use vstd::seq_lib::group_to_multiset_ensures;
    if s.len() > 0 {
        let t = s.drop_last();
        lemma_sort_multiset(t, before);
        lemma_insert_by_multiset(sort_by_insertion(t, before), s.last(), before);
        assert(t.push(s.last()) =~= s);
    }
}

/// Sorting keeps every element within bounds that held before.
pub proof fn lemma_sort_bounds(s: Seq<i64>, lo: int, hi: int)
    requires
        forall|k: int| 0 <= k < s.len() ==> lo <= #[trigger] s[k] <= hi,
    ensures
        forall|k: int|
            0 <= k < sort_by_insertion(s, ascending()).len() ==> lo <= #[trigger] sort_by_insertion(
                s,
                ascending(),
            )[k] <= hi,
{
    broadcast use vstd::seq_lib::group_to_multiset_ensures;
    let r = sort_by_insertion(s, ascending());
    lemma_sort_multiset(s, ascending());
    assert forall|k: int| 0 <= k < r.len() implies lo <= #[trigger] r[k] <= hi by {
        assert(r.contains(r[k]));
        assert(s.to_multiset().count(r[k]) > 0);
        assert(s.contains(r[k]));
    }
}

/// Whether no element of `s` strictly precedes an earlier one.
pub open spec fn sorted_by<T>(s: Seq<T>, before: spec_fn(T, T) -> bool) -> bool {
    forall|i: int, j: int| 0 <= i < j < s.len() ==> !before(#[trigger] s[j], #[trigger] s[i])
}

/// Whether `before` is a strict weak order: asymmetric, and "not before"
/// is transitive.
pub open spec fn strict_weak_order<T>(before: spec_fn(T, T) -> bool) -> bool {
    &&& forall|a: T, b: T| #[trigger] before(a, b) ==> !before(b, a)
    &&& forall|a: T, b: T, c: T|
        !#[trigger] before(a, b) && !#[trigger] before(b, c) ==> !before(a, c)
}

/// Inserting into an ordered sequence keeps it ordered.
pub proof fn lemma_insert_by_sorted<T>(s: Seq<T>, v: T, before: spec_fn(T, T) -> bool)
    requires
        sorted_by(s, before),
        strict_weak_order(before),
    ensures
        sorted_by(insert_by(s, v, before), before),
    decreases s.len(),
{
    broadcast use vstd::seq_lib::group_to_multiset_ensures;
    if s.len() > 0 {
        let t = s.drop_last();
        let last = s.last();
        if before(v, last) {
            assert(sorted_by(t, before));
            lemma_insert_by_sorted(t, v, before);
            lemma_insert_by_multiset(t, v, before);
            let u = insert_by(t, v, before);
            let r = u.push(last);
            assert forall|i: int, j: int| 0 <= i < j < r.len() implies !before(
                #[trigger] r[j],
                #[trigger] r[i],
            ) by {
                if j == r.len() - 1 {
                    assert(u.contains(u[i]));
                    assert(u.to_multiset().count(u[i]) > 0);
                    if u[i] != v {
                        assert(t.to_multiset().count(u[i]) > 0);
                        assert(t.contains(u[i]));
                        let k = choose|k: int| 0 <= k < t.len() && t[k] == u[i];
                        assert(s[k] == t[k]);
                        assert(s[s.len() - 1] == last);
                    }
                } else {
                    assert(r[i] == u[i] && r[j] == u[j]);
                }
            }
        } else {
            let r = s.push(v);
            assert forall|i: int, j: int| 0 <= i < j < r.len() implies !before(
                #[trigger] r[j],
                #[trigger] r[i],
            ) by {
                if j == r.len() - 1 {
                    if i < s.len() - 1 {
                        assert(!before(s[s.len() - 1], s[i]));
                    }
                } else {
                    assert(r[i] == s[i] && r[j] == s[j]);
                }
            }
        }
    }
}

/// The insertion sort orders its result.
pub proof fn lemma_sort_sorted<T>(s: Seq<T>, before: spec_fn(T, T) -> bool)
    requires
        strict_weak_order(before),
    ensures
        sorted_by(sort_by_insertion(s, before), before),
    decreases s.len(),
{
    if s.len() > 0 {
        lemma_sort_sorted(s.drop_last(), before);
        lemma_insert_by_sorted(sort_by_insertion(s.drop_last(), before), s.last(), before);
    }
}

/// Sorting an ordered sequence changes nothing.
pub proof fn lemma_sort_of_sorted<T>(s: Seq<T>, before: spec_fn(T, T) -> bool)
    requires
        sorted_by(s, before),
    ensures
        sort_by_insertion(s, before) == s,
    decreases s.len(),
{
    if s.len() > 0 {
        let t = s.drop_last();
        assert(sorted_by(t, before)) by {
            assert forall|i: int, j: int| 0 <= i < j < t.len() implies !before(
                #[trigger] t[j],
                #[trigger] t[i],
            ) by {
                assert(t[i] == s[i] && t[j] == s[j]);
            }
        }
        lemma_sort_of_sorted(t, before);
        if t.len() > 0 {
            assert(!before(s[s.len() - 1], s[s.len() - 2]));
        }
        assert(t.push(s.last()) =~= s);
    }
}

/// Ascending sequences holding the same numbers are equal.
pub proof fn lemma_ascending_unique(x: Seq<i64>, y: Seq<i64>)
    requires
        sorted_by(x, ascending()),
        sorted_by(y, ascending()),
        x.to_multiset() == y.to_multiset(),
    ensures
        x == y,
{
    let leq = |a: i64, b: i64| a <= b;
    assert(vstd::relations::total_ordering(leq));
    assert(vstd::relations::sorted_by(x, leq)) by {
        assert forall|i: int, j: int| 0 <= i < j < x.len() implies #[trigger] leq(x[i], x[j]) by {
            assert(!ascending()(x[j], x[i]));
        }
    }
    assert(vstd::relations::sorted_by(y, leq)) by {
        assert forall|i: int, j: int| 0 <= i < j < y.len() implies #[trigger] leq(y[i], y[j]) by {
            assert(!ascending()(y[j], y[i]));
        }
    }
    vstd::seq_lib::lemma_sorted_unique(x, y, leq);
}

/// Inserting adds exactly `f(v)` to the multiset of images under `f`.
proof fn lemma_insert_by_map_multiset<T, U>(
    s: Seq<T>,
    v: T,
    before: spec_fn(T, T) -> bool,
    f: spec_fn(T) -> U,
)
    ensures
        insert_by(s, v, before).map_values(f).to_multiset() == s.map_values(f).to_multiset().insert(
            f(v),
        ),
    decreases s.len(),
{
    broadcast use vstd::seq_lib::group_to_multiset_ensures;
    if s.len() == 0 {
        assert(seq![v].map_values(f) =~= s.map_values(f).push(f(v)));
    } else if before(v, s.last()) {
        let t = s.drop_last();
        let u = insert_by(t, v, before);
        lemma_insert_by_map_multiset(t, v, before, f);
        assert(u.push(s.last()).map_values(f) =~= u.map_values(f).push(f(s.last())));
        assert(s.map_values(f) =~= t.map_values(f).push(f(s.last())));
        assert(u.map_values(f).push(f(s.last())).to_multiset() =~= s.map_values(f).to_multiset().insert(
            f(v),
        ));
    } else {
        assert(s.push(v).map_values(f) =~= s.map_values(f).push(f(v)));
    }
}

/// Sorting keeps the multiset of images under any function.
pub proof fn lemma_sort_map_multiset<T, U>(
    s: Seq<T>,
    before: spec_fn(T, T) -> bool,
    f: spec_fn(T) -> U,
)
    ensures
        sort_by_insertion(s, before).map_values(f).to_multiset() == s.map_values(f).to_multiset(),
    decreases s.len(),
{
    broadcast use vstd::seq_lib::group_to_multiset_ensures;
    if s.len() > 0 {
        let t = s.drop_last();
        lemma_sort_map_multiset(t, before, f);
        lemma_insert_by_map_multiset(sort_by_insertion(t, before), s.last(), before, f);
        assert(s.map_values(f) =~= t.map_values(f).push(f(s.last())));
    }
}

/// Reading order of glyphs: higher on the page first, then further left.
pub open spec fn reads_before(a: CharInfo, b: CharInfo) -> bool {
    a.y > b.y || (a.y == b.y && a.x < b.x)
}

/// [`reads_before`] as a relation value.
pub open spec fn reading_before() -> spec_fn(CharInfo, CharInfo) -> bool {
    |a: CharInfo, b: CharInfo| reads_before(a, b)
}

/// Line members ordered by their left edge.
pub open spec fn x_before() -> spec_fn((char, i32), (char, i32)) -> bool {
    |a: (char, i32), b: (char, i32)| a.1 < b.1
}

/// Numbers in ascending order.
pub open spec fn ascending() -> spec_fn(i64, i64) -> bool {
    |a: i64, b: i64| a < b
}

/// Reading order, order by left edge and ascending order are strict weak
/// orders.
pub proof fn lemma_orders_are_strict_weak()
    ensures
        strict_weak_order(reading_before()),
        strict_weak_order(x_before()),
        strict_weak_order(ascending()),
{
}

/// The glyphs in reading order (stable).
pub fn sort_reading_order(chars: &Vec<CharInfo>) -> (r: Vec<CharInfo>)
    ensures
        r@ == sort_by_insertion(chars@, reading_before()),
        sorted_by(r@, reading_before()),
        r@.to_multiset() == chars@.to_multiset(),
{
    proof {
        lemma_orders_are_strict_weak();
        lemma_sort_sorted(chars@, reading_before());
        lemma_sort_multiset(chars@, reading_before());
    }
    let mut r: Vec<CharInfo> = Vec::new();
    let mut i: usize = 0;
    while i < chars.len()
        invariant
            i <= chars.len(),
            r@ == sort_by_insertion(chars@.subrange(0, i as int), reading_before()),
        decreases chars.len() - i,
    {
        let g = chars[i];
        let mut j: usize = r.len();
        while j > 0 && (g.y > r[j - 1].y || (g.y == r[j - 1].y && g.x < r[j - 1].x))
            invariant
                j <= r.len(),
                forall|k: int| j <= k < r.len() ==> reads_before(g, #[trigger] r@[k]),
            decreases j,
        {
            j = j - 1;
        }
        proof {
            lemma_insert_by_at(r@, g, reading_before(), j as int);
            lemma_sort_step(chars@, reading_before(), i as int);
        }
        r.insert(j, g);
        i = i + 1;
    }
    assert(chars@.subrange(0, chars@.len() as int) =~= chars@);
    r
}

/// Line members by left edge (stable).
pub fn sort_by_x(members: &Vec<(char, i32)>) -> (r: Vec<(char, i32)>)
    ensures
        r@ == sort_by_insertion(members@, x_before()),
        sorted_by(r@, x_before()),
        r@.to_multiset() == members@.to_multiset(),
{
    proof {
        lemma_orders_are_strict_weak();
        lemma_sort_sorted(members@, x_before());
        lemma_sort_multiset(members@, x_before());
    }
    let mut r: Vec<(char, i32)> = Vec::new();
    let mut i: usize = 0;
    while i < members.len()
        invariant
            i <= members.len(),
            r@ == sort_by_insertion(members@.subrange(0, i as int), x_before()),
        decreases members.len() - i,
    {
        let m = members[i];
        let mut j: usize = r.len();
        while j > 0 && m.1 < r[j - 1].1
            invariant
                j <= r.len(),
                forall|k: int| j <= k < r.len() ==> m.1 < #[trigger] r@[k].1,
            decreases j,
        {
            j = j - 1;
        }
        proof {
            lemma_insert_by_at(r@, m, x_before(), j as int);
            lemma_sort_step(members@, x_before(), i as int);
        }
        r.insert(j, m);
        i = i + 1;
    }
    assert(members@.subrange(0, members@.len() as int) =~= members@);
    r
}

/// Numbers in ascending order.
pub fn sort_ascending(values: &Vec<i64>) -> (r: Vec<i64>)
    ensures
        r@ == sort_by_insertion(values@, ascending()),
        sorted_by(r@, ascending()),
        r@.to_multiset() == values@.to_multiset(),
{
    proof {
        lemma_orders_are_strict_weak();
        lemma_sort_sorted(values@, ascending());
        lemma_sort_multiset(values@, ascending());
    }
    let mut r: Vec<i64> = Vec::new();
    let mut i: usize = 0;
    while i < values.len()
        invariant
            i <= values.len(),
            r@ == sort_by_insertion(values@.subrange(0, i as int), ascending()),
        decreases values.len() - i,
    {
        let v = values[i];
        let mut j: usize = r.len();
        while j > 0 && v < r[j - 1]
            invariant
                j <= r.len(),
                forall|k: int| j <= k < r.len() ==> v < #[trigger] r@[k],
            decreases j,
        {
            j = j - 1;
        }
        proof {
            lemma_insert_by_at(r@, v, ascending(), j as int);
            lemma_sort_step(values@, ascending(), i as int);
        }
        r.insert(j, v);
        i = i + 1;
    }
    assert(values@.subrange(0, values@.len() as int) =~= values@);
    r
}

} // verus!
