//! Serialisation of ordered lines into the page's text.
use vstd::prelude::*;

use crate::glyph::{lines_view, LineInfo, LineView, ParagraphMode, TextExtractionConfig};
use crate::ordering::{sort_by_insertion, sort_by_x, x_before};
use crate::strings::string_from_chars;

verus! {

/// The text of a line: its characters in order, with a space before each
/// character whose left edge lies more than `tol` right of the previous
/// one's, unless that character is itself a space.
pub open spec fn line_text(chars: Seq<(char, i32)>, tol: int) -> Seq<char>
    decreases chars.len(),
{
    if chars.len() == 0 {
        seq![]
    } else if chars.len() == 1 {
        seq![chars[0].0]
    } else {
        let prev = chars[chars.len() - 2];
        let cur = chars.last();
        line_text(chars.drop_last(), tol) + if cur.1 - prev.1 > tol && cur.0 != ' ' {
            seq![' ', cur.0]
        } else {
            seq![cur.0]
        }
    }
}

/// Whether a blank line separates `prev` from `cur`: the vertical step
/// exceeds the larger of their mean heights times `threshold` hundredths.
pub open spec fn paragraph_break(prev: LineView, cur: LineView, threshold: int) -> bool {
    let normal = if prev.avg_height >= cur.avg_height {
        prev.avg_height
    } else {
        cur.avg_height
    };
    (prev.y - cur.y) * 100 > normal * threshold
}

/// Every line's text, its characters taken by left edge, followed by a
/// newline, with an extra newline before a line that opens a paragraph.
pub open spec fn raw_text(lines: Seq<LineView>, tol: int, config: TextExtractionConfig) -> Seq<
    char,
>
    decreases lines.len(),
{
    if lines.len() == 0 {
        seq![]
    } else {
        let n = lines.len();
        let brk = config.paragraph_mode == ParagraphMode::Spacing && n >= 2 && paragraph_break(
            lines[n - 2],
            lines[n - 1],
            config.paragraph_threshold as int,
        );
        raw_text(lines.drop_last(), tol, config) + (if brk {
            seq!['\n']
        } else {
            seq![]
        }) + line_text(sort_by_insertion(lines.last().chars, x_before()), tol) + seq!['\n']
    }
}

/// Unicode white space, the characters that `char::is_whitespace` accepts.
pub open spec fn is_white_space(c: char) -> bool {
    let v = c as u32;
    (0x9 <= v <= 0xd) || v == 0x20 || v == 0x85 || v == 0xa0 || v == 0x1680 || (0x2000 <= v
        <= 0x200a) || v == 0x2028 || v == 0x2029 || v == 0x202f || v == 0x205f || v == 0x3000
}

/// `s` without its trailing white space.
pub open spec fn trim_end(s: Seq<char>) -> Seq<char>
    decreases s.len(),
{
    if s.len() > 0 && is_white_space(s.last()) {
        trim_end(s.drop_last())
    } else {
        s
    }
}

/// The page text of ordered lines.
pub open spec fn text_of_lines(lines: Seq<LineView>, tol: int, config: TextExtractionConfig) -> Seq<
    char,
> {
    trim_end(raw_text(lines, tol, config))
}

/// Whether `c` is Unicode white space.
pub fn is_white_space_char(c: char) -> (r: bool)
    ensures
        r == is_white_space(c),
{
    let v = c as u32;
    (0x9 <= v && v <= 0xd) || v == 0x20 || v == 0x85 || v == 0xa0 || v == 0x1680 || (0x2000 <= v
        && v <= 0x200a) || v == 0x2028 || v == 0x2029 || v == 0x202f || v == 0x205f || v
        == 0x3000
}

/// Appends the text of one line to `out`.
fn push_line_text(out: &mut Vec<char>, chars: &Vec<(char, i32)>, space_threshold: i64)
    ensures
        final(out)@ == old(out)@ + line_text(chars@, space_threshold as int),
{
    let ghost base = out@;
    let mut j: usize = 0;
    while j < chars.len()
        invariant
            j <= chars@.len(),
            out@ == base + line_text(chars@.subrange(0, j as int), space_threshold as int),
        decreases chars@.len() - j,
    {
        let (c, x) = chars[j];
        proof {
            let p = chars@.subrange(0, j + 1);
            assert(p.drop_last() =~= chars@.subrange(0, j as int));
            if j == 0 {
                assert(line_text(chars@.subrange(0, 0), space_threshold as int) =~= seq![]);
            }
        }
        if j > 0 && (x as i64 - chars[j - 1].1 as i64) > space_threshold && c != ' ' {
            out.push(' ');
        }
        out.push(c);
        proof {
            let p = chars@.subrange(0, j + 1);
            if j == 0 {
                assert(out@ =~= base + line_text(p, space_threshold as int));
            } else {
                assert(p[j - 1] == chars@[j - 1]);
                assert(out@ =~= base + line_text(p, space_threshold as int));
            }
        }
        j = j + 1;
    }
    assert(chars@.subrange(0, chars@.len() as int) =~= chars@);
}

/// Writes the lines as text: one line of output per line, its characters
/// ordered by left edge (stably), a blank line before each paragraph when
/// paragraph spacing is on, and no trailing white space.
pub fn build_text_output(
    lines: &Vec<LineInfo>,
    space_threshold: i64,
    config: &TextExtractionConfig,
) -> (text: String)
    ensures
        text@ == text_of_lines(lines_view(lines@), space_threshold as int, *config),
{
    let ghost all = lines_view(lines@);
    let tol = space_threshold;
    let mut out: Vec<char> = Vec::new();
    let mut i: usize = 0;
    while i < lines.len()
        invariant
            i <= lines@.len(),
            all == lines_view(lines@),
            out@ == raw_text(all.subrange(0, i as int), tol as int, *config),
        decreases lines@.len() - i,
    {
        let line = &lines[i];
        proof {
            let p = all.subrange(0, i + 1);
            assert(p.drop_last() =~= all.subrange(0, i as int));
            assert(p.last() == line@);
            if i > 0 {
                assert(p[i - 1] == lines@[i - 1]@);
            }
        }
        if config.paragraph_mode == ParagraphMode::Spacing && i > 0 {
            let prev = &lines[i - 1];
            let normal = if prev.avg_height >= line.avg_height {
                prev.avg_height
            } else {
                line.avg_height
            };
            let limit = config.paragraph_threshold;
            proof {
                assert(normal as int * limit as int <= u32::MAX as int * u32::MAX as int)
                    by (nonlinear_arith)
                    requires
                        normal <= u32::MAX,
                        limit <= u32::MAX,
                ;
            }
            if (prev.y as i128 - line.y as i128) * 100 > (normal as i128) * (limit as i128) {
                out.push('\n');
            }
        }
        let ordered = sort_by_x(&line.chars);
        push_line_text(&mut out, &ordered, tol);
        out.push('\n');
        proof {
            let p = all.subrange(0, i + 1);
            assert(out@ =~= raw_text(p, tol as int, *config));
        }
        i = i + 1;
    }
    assert(all.subrange(0, lines@.len() as int) =~= all);
    let ghost raw = out@;
    while out.len() > 0 && is_white_space_char(out[out.len() - 1])
        invariant
            trim_end(out@) == trim_end(raw),
        decreases out@.len(),
    {
        proof {
            assert(out@.drop_last() =~= out@.subrange(0, out@.len() - 1));
        }
        out.pop();
    }
    string_from_chars(&out)
}

} // verus!
