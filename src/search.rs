//! The matches of a query on the pages that contain it, each with some
//! text around it.
use vstd::prelude::*;

use crate::reader::{chars_of, lowercase_of, to_lowercase};
use crate::strings::string_from_chars;

verus! {

/// One occurrence of a query: its page, the text around it, and its
/// position in the page's searched text, in characters.
#[derive(Debug, Clone)]
pub struct SearchMatch {
    pub page: u32,
    pub context: String,
    pub position: usize,
}

/// The text searched: as is, or lowercased when case does not matter.
pub open spec fn searched(t: Seq<char>, case_sensitive: bool) -> Seq<char> {
    if case_sensitive {
        t
    } else {
        lowercase_of(t)
    }
}

/// Whether `q` occurs in `s` at position `p`.
pub open spec fn occurs_at(s: Seq<char>, q: Seq<char>, p: int) -> bool {
    0 <= p && p + q.len() <= s.len() && s.subrange(p, p + q.len()) == q
}

/// The positions below `p` where `q` occurs in `s`, ascending.
pub open spec fn positions_before(s: Seq<char>, q: Seq<char>, p: int) -> Seq<int>
    decreases p,
{
    if p <= 0 {
        seq![]
    } else {
        positions_before(s, q, p - 1) + if occurs_at(s, q, p - 1) {
            seq![p - 1]
        } else {
            seq![]
        }
    }
}

/// The text around a match at `pos` of length `qlen`: up to `c` characters
/// on either side, cut at the ends of the text.
pub open spec fn context_of(text: Seq<char>, pos: int, qlen: int, c: int) -> Seq<char> {
    let start = if pos > c {
        pos - c
    } else {
        0
    };
    let end = if pos + qlen + c < text.len() {
        pos + qlen + c
    } else {
        text.len() as int
    };
    if start <= end {
        text.subrange(start, end)
    } else {
        seq![]
    }
}

/// The matches on one page at positions below `upto`.
pub open spec fn page_match_list(
    page: u32,
    text: Seq<char>,
    query: Seq<char>,
    case_sensitive: bool,
    c: int,
    upto: int,
) -> Seq<(u32, Seq<char>, int)> {
    positions_before(searched(text, case_sensitive), searched(query, case_sensitive), upto).map_values(
        |pos: int| (page, context_of(text, pos, searched(query, case_sensitive).len() as int, c), pos),
    )
}

/// Every match on the given pages, page after page.
pub open spec fn all_matches(
    hits: Seq<(u32, Seq<char>)>,
    query: Seq<char>,
    case_sensitive: bool,
    c: int,
) -> Seq<(u32, Seq<char>, int)>
    decreases hits.len(),
{
    if hits.len() == 0 {
        seq![]
    } else {
        let last = hits.last();
        all_matches(hits.drop_last(), query, case_sensitive, c) + page_match_list(
            last.0,
            last.1,
            query,
            case_sensitive,
            c,
            searched(last.1, case_sensitive).len() + 1int,
        )
    }
}

/// The mathematical content of a match.
pub open spec fn match_view(m: SearchMatch) -> (u32, Seq<char>, int) {
    (m.page, m.context@, m.position as int)
}

/// Whether `q` occurs in `s` at position `p`.
fn occurs_at_index(s: &Vec<char>, q: &Vec<char>, p: usize) -> (r: bool)
    ensures
        r == occurs_at(s@, q@, p as int),
{
    if p > s.len() || q.len() > s.len() - p {
        return false;
    }
    let n = s.len();
    let mut j: usize = 0;
    while j < q.len()
        invariant
            n == s@.len(),
            p + q@.len() <= s@.len(),
            j <= q@.len(),
            forall|l: int| 0 <= l < j ==> s@[p + l] == q@[l],
        decreases q@.len() - j,
    {
        if s[p + j] != q[j] {
            assert(s@.subrange(p as int, p + q@.len())[j as int] != q@[j as int]);
            return false;
        }
        j = j + 1;
    }
    assert(s@.subrange(p as int, p + q@.len()) =~= q@);
    true
}

/// The text around a match, as [`context_of`] gives it.
fn context_at(text: &Vec<char>, pos: usize, qlen: usize, c: u32) -> (r: String)
    ensures
        r@ == context_of(text@, pos as int, qlen as int, c as int),
{
    let start: usize = if pos > c as usize {
        pos - c as usize
    } else {
        0
    };
    let wide = pos as u128 + qlen as u128 + c as u128;
    let end: usize = if wide < text.len() as u128 {
        wide as usize
    } else {
        text.len()
    };
    let mut out: Vec<char> = Vec::new();
    if start <= end {
        let mut k: usize = start;
        while k < end
            invariant
                start <= k <= end <= text@.len(),
                out@ == text@.subrange(start as int, k as int),
            decreases end - k,
        {
            out.push(text[k]);
            k = k + 1;
            assert(out@ =~= text@.subrange(start as int, k as int));
        }
    } else {
        assert(out@ =~= Seq::<char>::empty());
    }
    string_from_chars(&out)
}

/// The matches of `query` on the given pages, page after page, with
/// `context_chars` characters of context on either side, stopping once
/// `max_results` have been found (at least one is kept where any exists);
/// and how many were kept.
pub fn collect_search_matches(
    hits: &Vec<(u32, String)>,
    query: &str,
    case_sensitive: bool,
    max_results: u32,
    context_chars: u32,
) -> (r: (Vec<SearchMatch>, u32))
    ensures
        ({
            let all = all_matches(
                hits@.map_values(|h: (u32, String)| (h.0, h.1@)),
                query@,
                case_sensitive,
                context_chars as int,
            );
            let cap: int = if max_results == 0 {
                1
            } else {
                max_results as int
            };
            &&& r.0@.map_values(|m: SearchMatch| match_view(m)) == all.take(
                if all.len() < cap {
                    all.len() as int
                } else {
                    cap
                },
            )
            &&& r.1 == r.0@.len()
        }),
{
    let ghost pages = hits@.map_values(|h: (u32, String)| (h.0, h.1@));
    let ghost c = context_chars as int;
    let cap: usize = if max_results == 0 {
        1
    } else {
        max_results as usize
    };
    let q_text = if case_sensitive {
        query.to_owned()
    } else {
        to_lowercase(query)
    };
    let q = chars_of(q_text.as_str());
    let mut out: Vec<SearchMatch> = Vec::new();
    let mut i: usize = 0;
    while i < hits.len() && out.len() < cap
        invariant
            i <= hits@.len(),
            pages == hits@.map_values(|h: (u32, String)| (h.0, h.1@)),
            q@ == searched(query@, case_sensitive),
            c == context_chars,
            cap >= 1,
            cap == (if max_results == 0 {
                1
            } else {
                max_results as int
            }),
            out@.len() <= cap,
            out@.len() <= all_matches(pages.subrange(0, i as int), query@, case_sensitive, c).len(),
            out@.map_values(|m: SearchMatch| match_view(m)) == all_matches(
                pages.subrange(0, i as int),
                query@,
                case_sensitive,
                c,
            ).take(out@.len() as int),
            out@.len() < cap ==> out@.len() == all_matches(
                pages.subrange(0, i as int),
                query@,
                case_sensitive,
                c,
            ).len(),
        decreases hits@.len() - i,
    {
        let page = hits[i].0;
        let text = chars_of(hits[i].1.as_str());
        let s_text = if case_sensitive {
            hits[i].1.clone()
        } else {
            to_lowercase(hits[i].1.as_str())
        };
        let s = chars_of(s_text.as_str());
        let ghost before = all_matches(pages.subrange(0, i as int), query@, case_sensitive, c);
        proof {
            assert(pages.subrange(0, i + 1).drop_last() =~= pages.subrange(0, i as int));
            assert(pages[i as int] == (page, text@));
        }
        let n = s.len();
        let mut p: usize = 0;
        let mut finished = false;
        let ghost mut upto: int = 0;
        while !finished && out.len() < cap
            invariant
                n == s@.len(),
                p <= n,
                upto == (if finished {
                    n + 1
                } else {
                    p as int
                }),
                s@ == searched(text@, case_sensitive),
                q@ == searched(query@, case_sensitive),
                c == context_chars,
                cap >= 1,
                out@.len() <= cap,
                out@.len() <= before.len() + page_match_list(
                    page,
                    text@,
                    query@,
                    case_sensitive,
                    c,
                    upto,
                ).len(),
                out@.map_values(|m: SearchMatch| match_view(m)) == (before + page_match_list(
                    page,
                    text@,
                    query@,
                    case_sensitive,
                    c,
                    upto,
                )).take(out@.len() as int),
                out@.len() < cap ==> out@.len() == before.len() + page_match_list(
                    page,
                    text@,
                    query@,
                    case_sensitive,
                    c,
                    upto,
                ).len(),
            decreases n + 1 - upto,
        {
            let ghost cur = page_match_list(page, text@, query@, case_sensitive, c, upto);
            let ghost next = page_match_list(page, text@, query@, case_sensitive, c, upto + 1);
            if occurs_at_index(&s, &q, p) {
                let context = context_at(&text, p, q.len(), context_chars);
                let ghost old_view = out@.map_values(|m: SearchMatch| match_view(m));
                let m = SearchMatch { page, context, position: p };
                out.push(m);
                proof {
                    assert(next =~= cur.push((page, context@, p as int)));
                    assert(out@.map_values(|m: SearchMatch| match_view(m)) =~= old_view.push(
                        match_view(m),
                    ));
                    assert(old_view =~= before + cur);
                    assert((before + next).take(out@.len() as int) =~= (before + cur).push(
                        (page, context@, p as int),
                    ));
                }
            } else {
                proof {
                    assert(next =~= cur);
                }
            }
            if p == n {
                finished = true;
            } else {
                p = p + 1;
            }
            proof {
                upto = upto + 1;
            }
        }
        proof {
            let full = page_match_list(page, text@, query@, case_sensitive, c, s@.len() + 1int);
            let stop = page_match_list(page, text@, query@, case_sensitive, c, upto);
            assert(all_matches(pages.subrange(0, i + 1), query@, case_sensitive, c) == before
                + full);
            if out@.len() < cap {
                assert(upto == s@.len() + 1);
            } else {
                lemma_page_list_prefix(page, text@, query@, case_sensitive, c, upto, s@.len() + 1int);
                assert forall|k: int| 0 <= k < cap implies (before + stop)[k] == (before + full)[k] by {
                    if k >= before.len() {
                        assert(stop[k - before.len()] == full.take(stop.len() as int)[k - before.len()]);
                    }
                }
                assert((before + stop).take(cap as int) =~= (before + full).take(cap as int));
            }
        }
        i = i + 1;
    }
    proof {
        let all = all_matches(pages, query@, case_sensitive, c);
        assert(pages.subrange(0, hits@.len() as int) =~= pages);
        let pre = all_matches(pages.subrange(0, i as int), query@, case_sensitive, c);
        lemma_all_matches_prefix(pages, query@, case_sensitive, c, i as int);
        if out@.len() == cap {
            assert forall|k: int| 0 <= k < cap implies pre[k] == all[k] by {
                assert(pre[k] == all.take(pre.len() as int)[k]);
            }
            assert(pre.take(cap as int) =~= all.take(cap as int));
        } else {
            assert(i == hits@.len());
            assert(pre == all);
            assert(all.take(all.len() as int) =~= all);
        }
    }
    let n = out.len() as u32;
    (out, n)
}

/// The page list up to `a` is a prefix of the one up to `b >= a`.
proof fn lemma_page_list_prefix(
    page: u32,
    text: Seq<char>,
    query: Seq<char>,
    case_sensitive: bool,
    c: int,
    a: int,
    b: int,
)
    requires
        0 <= a <= b,
    ensures
        page_match_list(page, text, query, case_sensitive, c, a).len() <= page_match_list(
            page,
            text,
            query,
            case_sensitive,
            c,
            b,
        ).len(),
        page_match_list(page, text, query, case_sensitive, c, a) == page_match_list(
            page,
            text,
            query,
            case_sensitive,
            c,
            b,
        ).take(page_match_list(page, text, query, case_sensitive, c, a).len() as int),
    decreases b - a,
{
    if a < b {
        lemma_page_list_prefix(page, text, query, case_sensitive, c, a, b - 1);
        let s = searched(text, case_sensitive);
        let q = searched(query, case_sensitive);
        let x = page_match_list(page, text, query, case_sensitive, c, a);
        let y = page_match_list(page, text, query, case_sensitive, c, b - 1);
        let z = page_match_list(page, text, query, case_sensitive, c, b);
        if occurs_at(s, q, b - 1) {
            assert(positions_before(s, q, b) == positions_before(s, q, b - 1) + seq![b - 1]);
            assert(z =~= y.push((page, context_of(text, b - 1, q.len() as int, c), b - 1)));
        } else {
            assert(positions_before(s, q, b) =~= positions_before(s, q, b - 1));
        }
        assert(z.take(x.len() as int) =~= y.take(x.len() as int));
    } else {
        assert(page_match_list(page, text, query, case_sensitive, c, a).take(
            page_match_list(page, text, query, case_sensitive, c, a).len() as int,
        ) =~= page_match_list(page, text, query, case_sensitive, c, a));
    }
}

/// The matches of the first `i` pages are a prefix of all matches.
proof fn lemma_all_matches_prefix(
    hits: Seq<(u32, Seq<char>)>,
    query: Seq<char>,
    case_sensitive: bool,
    c: int,
    i: int,
)
    requires
        0 <= i <= hits.len(),
    ensures
        all_matches(hits.subrange(0, i), query, case_sensitive, c).len() <= all_matches(
            hits,
            query,
            case_sensitive,
            c,
        ).len(),
        all_matches(hits.subrange(0, i), query, case_sensitive, c) == all_matches(
            hits,
            query,
            case_sensitive,
            c,
        ).take(all_matches(hits.subrange(0, i), query, case_sensitive, c).len() as int),
    decreases hits.len() - i,
{
    let x = all_matches(hits.subrange(0, i), query, case_sensitive, c);
    if i == hits.len() {
        assert(hits.subrange(0, i) =~= hits);
        assert(x.take(x.len() as int) =~= x);
    } else {
        lemma_all_matches_prefix(hits.drop_last(), query, case_sensitive, c, i);
        assert(hits.drop_last().subrange(0, i) =~= hits.subrange(0, i));
        let y = all_matches(hits.drop_last(), query, case_sensitive, c);
        let z = all_matches(hits, query, case_sensitive, c);
        assert(z.take(x.len() as int) =~= y.take(x.len() as int));
    }
}

} // verus!
