//! Size statistics of a page's text, for planning how to read it.
use vstd::prelude::*;

use crate::text::{is_white_space, is_white_space_char};

verus! {

/// Character, word and estimated token counts of a text.
#[derive(Clone, Copy, Debug, PartialEq, Eq)]
pub struct TextStats {
    pub char_count: usize,
    pub word_count: usize,
    pub estimated_token_count: usize,
}

/// Whether a character is CJK: unified ideographs and extensions A and B,
/// hiragana, katakana, hangul syllables, or full-width forms.
pub open spec fn is_cjk(c: char) -> bool {
    let v = c as u32;
    ||| 0x4e00 <= v <= 0x9fff
    ||| 0x3400 <= v <= 0x4dbf
    ||| 0x3040 <= v <= 0x309f
    ||| 0x30a0 <= v <= 0x30ff
    ||| 0xac00 <= v <= 0xd7af
    ||| 0xff00 <= v <= 0xffef
    ||| 0x20000 <= v <= 0x2a6df
}

/// How many characters are CJK.
pub open spec fn cjk_count(s: Seq<char>) -> nat
    decreases s.len(),
{
    if s.len() == 0 {
        0
    } else {
        cjk_count(s.drop_last()) + if is_cjk(s.last()) {
            1nat
        } else {
            0nat
        }
    }
}

/// How many words, maximal runs of characters other than white space.
pub open spec fn word_count(s: Seq<char>) -> nat
    decreases s.len(),
{
    if s.len() == 0 {
        0
    } else {
        let n = s.len() as int;
        let starts = !is_white_space(s[n - 1]) && (n == 1 || is_white_space(s[n - 2]));
        word_count(s.drop_last()) + if starts {
            1nat
        } else {
            0nat
        }
    }
}

/// A rough token estimate: two per CJK character, one per four other
/// characters, rounded up.
pub open spec fn estimated_tokens(s: Seq<char>) -> nat {
    let cjk = cjk_count(s);
    let other = (s.len() - cjk) as nat;
    2 * cjk + (other + 3) / 4
}

proof fn lemma_counts_bounded(s: Seq<char>)
    ensures
        cjk_count(s) <= s.len(),
        word_count(s) <= s.len(),
    decreases s.len(),
{
    if s.len() > 0 {
        lemma_counts_bounded(s.drop_last());
    }
}

/// Whether a character is CJK.
fn is_cjk_char(c: char) -> (r: bool)
    ensures
        r == is_cjk(c),
{
    let v = c as u32;
    (0x4e00 <= v && v <= 0x9fff) || (0x3400 <= v && v <= 0x4dbf) || (0x3040 <= v && v <= 0x309f)
        || (0x30a0 <= v && v <= 0x30ff) || (0xac00 <= v && v <= 0xd7af) || (0xff00 <= v && v
        <= 0xffef) || (0x20000 <= v && v <= 0x2a6df)
}

/// The character, word and estimated token counts of a page's characters
/// (a vector of `char` never holds more than a quarter of `usize::MAX`).
pub fn text_statistics(chars: &Vec<char>) -> (st: TextStats)
    requires
        chars@.len() <= usize::MAX / 4,
    ensures
        st.char_count == chars@.len(),
        st.word_count == word_count(chars@),
        st.estimated_token_count == estimated_tokens(chars@),
{
    let n = chars.len();
    let mut cjk: usize = 0;
    let mut words: usize = 0;
    let mut i: usize = 0;
    while i < n
        invariant
            n == chars@.len(),
            i <= n,
            cjk == cjk_count(chars@.subrange(0, i as int)),
            words == word_count(chars@.subrange(0, i as int)),
            cjk <= i,
            words <= i,
        decreases n - i,
    {
        let c = chars[i];
        proof {
            let p = chars@.subrange(0, i + 1);
            assert(p.drop_last() =~= chars@.subrange(0, i as int));
            if i > 0 {
                assert(p[i - 1] == chars@[i - 1]);
            }
        }
        if is_cjk_char(c) {
            cjk = cjk + 1;
        }
        if !is_white_space_char(c) && (i == 0 || is_white_space_char(chars[i - 1])) {
            words = words + 1;
        }
        i = i + 1;
    }
    assert(chars@.subrange(0, n as int) =~= chars@);
    let other = n - cjk;
    TextStats {
        char_count: n,
        word_count: words,
        estimated_token_count: 2 * cjk + (other + 3) / 4,
    }
}

} // verus!
