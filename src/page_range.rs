//! Page range lists such as `1-5,10,15-20`.
use vstd::prelude::*;
use vstd::string::StrSliceExecFns;

use crate::error::Error;
use crate::text::{is_white_space, is_white_space_char, trim_end};

verus! {

/// Splits `s` at every `sep`: `n` separators give `n + 1` parts.
pub open spec fn split_at_char(s: Seq<char>, sep: char) -> Seq<Seq<char>>
    decreases s.len(),
{
    if s.len() == 0 {
        seq![seq![]]
    } else {
        let parts = split_at_char(s.drop_last(), sep);
        if s.last() == sep {
            parts.push(seq![])
        } else {
            parts.update(parts.len() - 1, parts.last().push(s.last()))
        }
    }
}

/// `s` without its leading white space.
pub open spec fn trim_start(s: Seq<char>) -> Seq<char>
    decreases s.len(),
{
    if s.len() > 0 && is_white_space(s[0]) {
        trim_start(s.drop_first())
    } else {
        s
    }
}

/// `s` without white space at either end.
pub open spec fn trim(s: Seq<char>) -> Seq<char> {
    trim_start(trim_end(s))
}

/// Index of the first `c` in `s`, or -1.
pub open spec fn index_of(s: Seq<char>, c: char) -> int
    decreases s.len(),
{
    if s.len() == 0 {
        -1
    } else {
        let i = index_of(s.drop_last(), c);
        if i >= 0 {
            i
        } else if s.last() == c {
            s.len() - 1
        } else {
            -1
        }
    }
}

/// Whether `c` is an ASCII decimal digit.
pub open spec fn is_digit(c: char) -> bool {
    '0' <= c <= '9'
}

/// The number written by a sequence of decimal digits.
pub open spec fn digits_value(d: Seq<char>) -> nat
    decreases d.len(),
{
    if d.len() == 0 {
        0
    } else {
        digits_value(d.drop_last()) * 10 + ((d.last() as nat) - 48) as nat
    }
}

/// `s` without one leading `+`.
pub open spec fn unsigned_part(s: Seq<char>) -> Seq<char> {
    if s.len() > 0 && s[0] == '+' {
        s.drop_first()
    } else {
        s
    }
}

/// Whether every character is a decimal digit.
pub open spec fn all_digits(d: Seq<char>) -> bool {
    forall|i: int| 0 <= i < d.len() ==> is_digit(#[trigger] d[i])
}

/// A `u32` as `str::parse` reads it: an optional `+`, then at least one
/// decimal digit, with a value that fits.
pub open spec fn parse_u32(s: Seq<char>) -> Option<u32> {
    let d = unsigned_part(s);
    if d.len() > 0 && all_digits(d) && digits_value(d) <= u32::MAX {
        Some(digits_value(d) as u32)
    } else {
        None
    }
}

/// The pages a trimmed part names, as first and last page: `a-b` (each side
/// trimmed) or a single page `p` as `(p, p)`; `None` where a number does not
/// parse.
pub open spec fn part_bounds(part: Seq<char>) -> Option<(u32, u32)> {
    let t = trim(part);
    let i = index_of(t, '-');
    if i >= 0 {
        match (parse_u32(trim(t.subrange(0, i))), parse_u32(trim(t.subrange(i + 1, t.len() as int)))) {
            (Some(a), Some(b)) => Some((a, b)),
            _ => None,
        }
    } else {
        match parse_u32(t) {
            Some(p) => Some((p, p)),
            None => None,
        }
    }
}

/// Whether a part is blank, or names pages from 1 to `max_pages` with its
/// first page not after its last.
pub open spec fn part_ok(part: Seq<char>, max_pages: u32) -> bool {
    trim(part).len() == 0 || (part_bounds(part) matches Some((a, b)) && 1 <= a && a <= b && b
        <= max_pages)
}

/// Whether a non-blank part names page `p`.
pub open spec fn part_covers(part: Seq<char>, p: u32) -> bool {
    trim(part).len() > 0 && (part_bounds(part) matches Some((a, b)) && a <= p && p <= b)
}

/// Whether every comma-separated part of `range` is acceptable.
pub open spec fn page_range_valid(range: Seq<char>, max_pages: u32) -> bool {
    let parts = split_at_char(range, ',');
    forall|k: int| 0 <= k < parts.len() ==> part_ok(#[trigger] parts[k], max_pages)
}

/// Whether some part of `range` names page `p`.
pub open spec fn page_in_range(range: Seq<char>, p: u32) -> bool {
    let parts = split_at_char(range, ',');
    exists|k: int| 0 <= k < parts.len() && part_covers(#[trigger] parts[k], p)
}

/// Whether each element is smaller than the next.
pub open spec fn strictly_increasing(s: Seq<u32>) -> bool {
    forall|i: int, j: int| 0 <= i < j < s.len() ==> s[i] < s[j]
}

proof fn lemma_index_of_bounds(s: Seq<char>, c: char)
    ensures
        -1 <= index_of(s, c) < s.len(),
    decreases s.len(),
{
    if s.len() > 0 {
        lemma_index_of_bounds(s.drop_last(), c);
    }
}

proof fn lemma_split_nonempty(s: Seq<char>, sep: char)
    ensures
        split_at_char(s, sep).len() >= 1,
    decreases s.len(),
{
    if s.len() > 0 {
        lemma_split_nonempty(s.drop_last(), sep);
    }
}

/// The parts of `s` between the separators `sep`.
fn split_chars(s: &str, sep: char) -> (parts: Vec<Vec<char>>)
    ensures
        parts@.map_values(|v: Vec<char>| v@) == split_at_char(s@, sep),
{
    let n = s.unicode_len();
    let mut parts: Vec<Vec<char>> = Vec::new();
    let mut current: Vec<char> = Vec::new();
    let mut i: usize = 0;
    while i < n
        invariant
            n == s@.len(),
            i <= n,
            parts@.map_values(|v: Vec<char>| v@).push(current@) == split_at_char(
                s@.subrange(0, i as int),
                sep,
            ),
        decreases n - i,
    {
        let c = s.get_char(i);
        proof {
            assert(s@.subrange(0, i + 1).drop_last() =~= s@.subrange(0, i as int));
            lemma_split_nonempty(s@.subrange(0, i as int), sep);
        }
        if c == sep {
            let ghost before = parts@.map_values(|v: Vec<char>| v@);
            proof {
                assert(parts@.push(current).map_values(|v: Vec<char>| v@) =~= before.push(
                    current@,
                ));
            }
            parts.push(current);
            current = Vec::new();
            proof {
                assert(parts@.map_values(|v: Vec<char>| v@).push(current@) =~= before.push(
                    parts@.last()@,
                ).push(seq![]));
            }
        } else {
            let ghost before = parts@.map_values(|v: Vec<char>| v@).push(current@);
            current.push(c);
            proof {
                assert(parts@.map_values(|v: Vec<char>| v@).push(current@) =~= before.update(
                    before.len() - 1,
                    before.last().push(c),
                ));
            }
        }
        i = i + 1;
    }
    assert(s@.subrange(0, n as int) =~= s@);
    let ghost before = parts@.map_values(|v: Vec<char>| v@);
    parts.push(current);
    assert(parts@.map_values(|v: Vec<char>| v@) =~= before.push(current@));
    parts
}

/// `s` without white space at either end.
pub(crate) fn trim_chars(s: &Vec<char>) -> (t: Vec<char>)
    ensures
        t@ == trim(s@),
{
    let mut e: usize = s.len();
    assert(s@.subrange(0, e as int) =~= s@);
    while e > 0 && is_white_space_char(s[e - 1])
        invariant
            e <= s@.len(),
            trim_end(s@.subrange(0, e as int)) == trim_end(s@),
        decreases e,
    {
        assert(s@.subrange(0, e as int).drop_last() =~= s@.subrange(0, e - 1));
        e = e - 1;
    }
    let ghost head = s@.subrange(0, e as int);
    assert(trim_end(head) == head);
    let mut b: usize = 0;
    while b < e && is_white_space_char(s[b])
        invariant
            b <= e <= s@.len(),
            head == s@.subrange(0, e as int),
            trim_start(s@.subrange(b as int, e as int)) == trim_start(head),
        decreases e - b,
    {
        assert(s@.subrange(b as int, e as int).drop_first() =~= s@.subrange(b + 1, e as int));
        b = b + 1;
    }
    assert(s@.subrange(0, e as int) =~= head);
    let mut t: Vec<char> = Vec::new();
    let mut k: usize = b;
    while k < e
        invariant
            b <= k <= e <= s@.len(),
            t@ == s@.subrange(b as int, k as int),
        decreases e - k,
    {
        t.push(s[k]);
        k = k + 1;
        assert(t@ =~= s@.subrange(b as int, k as int));
    }
    assert(trim_start(s@.subrange(b as int, e as int)) == s@.subrange(b as int, e as int));
    t
}

/// Index of the first `c` in `s`, or `None`.
fn find_char(s: &Vec<char>, c: char) -> (r: Option<usize>)
    ensures
        match r {
            Some(i) => index_of(s@, c) == i && i < s@.len(),
            None => index_of(s@, c) == -1,
        },
{
    let mut found: Option<usize> = None;
    let mut i: usize = 0;
    while i < s.len()
        invariant
            i <= s@.len(),
            match found {
                Some(j) => index_of(s@.subrange(0, i as int), c) == j,
                None => index_of(s@.subrange(0, i as int), c) == -1,
            },
        decreases s@.len() - i,
    {
        assert(s@.subrange(0, i + 1).drop_last() =~= s@.subrange(0, i as int));
        if found.is_none() && s[i] == c {
            found = Some(i);
        }
        i = i + 1;
    }
    assert(s@.subrange(0, s@.len() as int) =~= s@);
    proof {
        lemma_index_of_bounds(s@, c);
    }
    found
}

/// Reads a `u32` as `str::parse` does.
pub(crate) fn parse_u32_chars(s: &Vec<char>) -> (r: Option<u32>)
    ensures
        r == parse_u32(s@),
{
    let start: usize = if s.len() > 0 && s[0] == '+' {
        1
    } else {
        0
    };
    let ghost d = unsigned_part(s@);
    assert(d =~= s@.subrange(start as int, s@.len() as int));
    if start == s.len() {
        return None;
    }
    let mut v: u64 = 0;
    let mut i: usize = start;
    while i < s.len()
        invariant
            start <= i <= s@.len(),
            d == unsigned_part(s@),
            d == s@.subrange(start as int, s@.len() as int),
            forall|k: int| start <= k < i ==> is_digit(#[trigger] s@[k]),
            v == if digits_value(s@.subrange(start as int, i as int)) > u32::MAX {
                u32::MAX as int + 1
            } else {
                digits_value(s@.subrange(start as int, i as int)) as int
            },
        decreases s@.len() - i,
    {
        let c = s[i];
        if !('0' <= c && c <= '9') {
            assert(d[i - start] == c);
            assert(!is_digit(d[i - start]));
            assert(!all_digits(d));
            return None;
        }
        proof {
            assert(s@.subrange(start as int, i + 1).drop_last() =~= s@.subrange(
                start as int,
                i as int,
            ));
        }
        let digit = (c as u32 - 48) as u64;
        v = v * 10 + digit;
        if v > u32::MAX as u64 {
            v = u32::MAX as u64 + 1;
        }
        i = i + 1;
    }
    assert forall|k: int| 0 <= k < d.len() implies is_digit(#[trigger] d[k]) by {
        assert(d[k] == s@[k + start]);
    }
    assert(all_digits(d));
    if v > u32::MAX as u64 {
        None
    } else {
        Some(v as u32)
    }
}

/// The first and last page a part names, as [`part_bounds`] gives them.
fn part_bounds_of(part: &Vec<char>) -> (r: Option<(u32, u32)>)
    ensures
        r == part_bounds(part@),
{
    let t = trim_chars(part);
    match find_char(&t, '-') {
        Some(i) => {
            let mut left: Vec<char> = Vec::new();
            let mut right: Vec<char> = Vec::new();
            let mut k: usize = 0;
            while k < t.len()
                invariant
                    i < t@.len(),
                    k <= t@.len(),
                    k <= i ==> left@ == t@.subrange(0, k as int) && right@.len() == 0,
                    k > i ==> left@ == t@.subrange(0, i as int) && right@ == t@.subrange(
                        i + 1,
                        k as int,
                    ),
                decreases t@.len() - k,
            {
                if k < i {
                    left.push(t[k]);
                } else if k > i {
                    right.push(t[k]);
                }
                k = k + 1;
                assert(left@ =~= t@.subrange(0, if k <= i {
                    k as int
                } else {
                    i as int
                }));
                if k > i {
                    assert(right@ =~= t@.subrange(i + 1, k as int));
                }
            }
            let a = parse_u32_chars(&trim_chars(&left));
            let b = parse_u32_chars(&trim_chars(&right));
            match (a, b) {
                (Some(a), Some(b)) => Some((a, b)),
                _ => None,
            }
        },
        None => match parse_u32_chars(&t) {
            Some(p) => Some((p, p)),
            None => None,
        },
    }
}

/// Adds `p` to an ascending list without duplicates.
fn insert_page(pages: &mut Vec<u32>, p: u32)
    requires
        strictly_increasing(old(pages)@),
    ensures
        strictly_increasing(final(pages)@),
        forall|q: u32| final(pages)@.contains(q) <==> (old(pages)@.contains(q) || q == p),
{
    let mut j: usize = pages.len();
    while j > 0 && pages[j - 1] > p
        invariant
            j <= pages@.len(),
            forall|k: int| j <= k < pages@.len() ==> p < #[trigger] pages@[k],
        decreases j,
    {
        j = j - 1;
    }
    if j > 0 && pages[j - 1] == p {
        assert(pages@.contains(p) && pages@[j - 1] == p);
        return;
    }
    let ghost before = pages@;
    pages.insert(j, p);
    assert forall|q: u32| pages@.contains(q) implies (before.contains(q) || q == p) by {
        let k = choose|k: int| 0 <= k < pages@.len() && pages@[k] == q;
        if k < j {
            assert(before[k] == q);
        } else if k > j {
            assert(before[k - 1] == q);
        }
    }
    assert forall|q: u32| before.contains(q) implies pages@.contains(q) by {
        let k = choose|k: int| 0 <= k < before.len() && before[k] == q;
        if k < j {
            assert(pages@[k] == q);
        } else {
            assert(pages@[k + 1] == q);
        }
    }
    assert(pages@[j as int] == p);
}

/// Parses a comma-separated list of pages and page ranges (`1-5,10`) into
/// the ascending list of the pages it names, each once. Blank parts are
/// skipped; a part that does not parse, names page 0, a page beyond
/// `max_pages`, or a range whose first page follows its last makes the
/// whole list invalid.
pub fn parse_page_range(range: &str, max_pages: u32) -> (r: Result<Vec<u32>, Error>)
    ensures
        r is Ok <==> page_range_valid(range@, max_pages),
        r is Err ==> (r->Err_0 matches Error::InvalidPageRange { range: s } && s@ == range@),
        r matches Ok(v) ==> strictly_increasing(v@) && forall|p: u32| #[trigger]
            v@.contains(p) <==> page_in_range(range@, p),
{
    let parts = split_chars(range, ',');
    let ghost all = parts@.map_values(|v: Vec<char>| v@);
    let mut pages: Vec<u32> = Vec::new();
    let mut i: usize = 0;
    while i < parts.len()
        invariant
            i <= parts@.len(),
            all == parts@.map_values(|v: Vec<char>| v@),
            all == split_at_char(range@, ','),
            forall|k: int| 0 <= k < i ==> part_ok(#[trigger] all[k], max_pages),
            strictly_increasing(pages@),
            forall|q: u32| #[trigger]
                pages@.contains(q) <==> exists|k: int| 0 <= k < i && part_covers(all[k], q),
        decreases parts@.len() - i,
    {
        let part = &parts[i];
        assert(all[i as int] == part@);
        let t = trim_chars(part);
        if t.len() > 0 {
            let bounds = part_bounds_of(part);
            match bounds {
                Some((a, b)) => {
                    if a < 1 || b > max_pages || a > b {
                        return Err(Error::InvalidPageRange { range: range.to_owned() });
                    }
                    let mut q: u64 = a as u64;
                    while q <= b as u64
                        invariant
                            a <= q <= b as int + 1,
                            strictly_increasing(pages@),
                            forall|x: u32| #[trigger]
                                pages@.contains(x) <==> (exists|k: int|
                                    0 <= k < i && part_covers(all[k], x)) || (a <= x < q),
                        decreases b as int + 1 - q,
                    {
                        insert_page(&mut pages, q as u32);
                        q = q + 1;
                    }
                    assert forall|x: u32| #[trigger] pages@.contains(x) <==> exists|k: int|
                        0 <= k < i + 1 && part_covers(all[k], x) by {
                        if pages@.contains(x) && !(exists|k: int|
                            0 <= k < i && part_covers(all[k], x)) {
                            assert(part_covers(all[i as int], x));
                        }
                        if exists|k: int| 0 <= k < i + 1 && part_covers(all[k], x) {
                            let k = choose|k: int| 0 <= k < i + 1 && part_covers(all[k], x);
                            if k < i {
                            } else {
                                assert(a <= x <= b);
                            }
                        }
                    }
                },
                None => {
                    assert(!part_ok(all[i as int], max_pages));
                    return Err(Error::InvalidPageRange { range: range.to_owned() });
                },
            }
        } else {
            assert forall|x: u32| #[trigger] pages@.contains(x) <==> exists|k: int|
                0 <= k < i + 1 && part_covers(all[k], x) by {
                if exists|k: int| 0 <= k < i + 1 && part_covers(all[k], x) {
                    let k = choose|k: int| 0 <= k < i + 1 && part_covers(all[k], x);
                    assert(k != i);
                }
            }
        }
        i = i + 1;
    }
    Ok(pages)
}

} // verus!
