//! What a PDF reader keeps of an opened document, and the queries on it.
use vstd::prelude::*;

use crate::error::Error;

verus! {

/// Document information entries.
#[derive(Debug, Clone, Default)]
pub struct PdfMetadataInfo {
    pub title: Option<String>,
    pub author: Option<String>,
    pub subject: Option<String>,
    pub creator: Option<String>,
    pub producer: Option<String>,
    pub creation_date: Option<String>,
    pub modification_date: Option<String>,
}

/// A bookmark, with the 1-based page it points to and its children.
#[derive(Debug)]
pub struct OutlineItem {
    pub title: String,
    pub page: Option<u32>,
    pub children: Vec<OutlineItem>,
}

/// An opened document: its bytes, page count, metadata, outline and the
/// text of each page (none when only the metadata was read).
pub struct PdfReader {
    data: Vec<u8>,
    page_count: u32,
    metadata: PdfMetadataInfo,
    outline: Vec<OutlineItem>,
    page_texts: Vec<String>,
}

/// Whether `needle` occurs in `hay` as a contiguous run.
pub open spec fn contains_subseq(hay: Seq<char>, needle: Seq<char>) -> bool {
    exists|i: int|
        0 <= i && i + needle.len() <= hay.len() && #[trigger] hay.subrange(i, i + needle.len())
            == needle
}

/// What `str::to_lowercase` makes of a string.
pub uninterp spec fn lowercase_of(s: Seq<char>) -> Seq<char>;

/// Relies on `str::to_lowercase`: the result depends on the characters
/// alone.
#[verifier::external_body]
pub(crate) fn to_lowercase(s: &str) -> (r: String)
    ensures
        r@ == lowercase_of(s@),
{
    s.to_lowercase()
}

/// Relies on `str::chars`, collected: the characters of the string in order.
#[verifier::external_body]
pub(crate) fn chars_of(s: &str) -> (r: Vec<char>)
    ensures
        r@ == s@,
{
    s.chars().collect()
}

/// Whether `query` occurs in `text`.
pub fn text_contains(text: &str, query: &str) -> (r: bool)
    ensures
        r == contains_subseq(text@, query@),
{
    let hay = chars_of(text);
    let needle = chars_of(query);
    let n = hay.len();
    let m = needle.len();
    if m > n {
        return false;
    }
    let mut i: usize = 0;
    while i <= n - m
        invariant
            hay@ == text@,
            needle@ == query@,
            n == hay@.len(),
            m == needle@.len(),
            m <= n,
            forall|k: int| 0 <= k < i ==> #[trigger] hay@.subrange(k, k + m) != needle@,
        decreases n - m + 1 - i,
    {
        let mut j: usize = 0;
        while j < m && hay[i + j] == needle[j]
            invariant
                i <= n - m,
                j <= m,
                n == hay@.len(),
                m == needle@.len(),
                forall|l: int| 0 <= l < j ==> hay@[i + l] == needle@[l],
            decreases m - j,
        {
            j = j + 1;
        }
        if j == m {
            assert(hay@.subrange(i as int, i + m) =~= needle@);
            return true;
        }
        assert(hay@.subrange(i as int, i + m)[j as int] != needle@[j as int]);
        i = i + 1;
    }
    assert forall|k: int| 0 <= k && k + m <= n implies #[trigger] hay@.subrange(k, k + m)
        != needle@ by {
        assert(k < i);
    }
    false
}

/// Whether a page's text matches a query: as is, or both lowercased.
pub open spec fn page_matches(text: Seq<char>, query: Seq<char>, case_sensitive: bool) -> bool {
    if case_sensitive {
        contains_subseq(text, query)
    } else {
        contains_subseq(lowercase_of(text), lowercase_of(query))
    }
}

/// The pages to extract from a document of `page_count` pages: the
/// requested ones that exist, in the order given, or all pages in order.
pub open spec fn selected_pages(requested: Option<Seq<u32>>, page_count: u32) -> Seq<u32>
    decreases (match requested {
        Some(r) => r.len(),
        None => 0,
    }),
{
    match requested {
        Some(r) => if r.len() == 0 {
            seq![]
        } else {
            let rest = selected_pages(Some(r.drop_last()), page_count);
            if 1 <= r.last() <= page_count {
                rest.push(r.last())
            } else {
                rest
            }
        },
        None => Seq::new(page_count as nat, |i: int| (i + 1) as u32),
    }
}

/// The pages to extract: the requested ones within `1..=page_count`, in
/// order, or every page when none are requested.
pub fn select_pages(requested: Option<&[u32]>, page_count: u32) -> (pages: Vec<u32>)
    ensures
        pages@ == selected_pages(
            match requested {
                Some(r) => Some(r@),
                None => None,
            },
            page_count,
        ),
{
    let mut pages: Vec<u32> = Vec::new();
    match requested {
        Some(r) => {
            let mut i: usize = 0;
            while i < r.len()
                invariant
                    i <= r@.len(),
                    pages@ == selected_pages(Some(r@.subrange(0, i as int)), page_count),
                decreases r@.len() - i,
            {
                assert(r@.subrange(0, i + 1).drop_last() =~= r@.subrange(0, i as int));
                if 1 <= r[i] && r[i] <= page_count {
                    pages.push(r[i]);
                }
                i = i + 1;
            }
            assert(r@.subrange(0, r@.len() as int) =~= r@);
        },
        None => {
            let mut n: u32 = 0;
            while n < page_count
                invariant
                    n <= page_count,
                    pages@ == Seq::new(n as nat, |i: int| (i + 1) as u32),
                decreases page_count - n,
            {
                pages.push(n + 1);
                n = n + 1;
                assert(pages@ =~= Seq::new(n as nat, |i: int| (i + 1) as u32));
            }
        },
    }
    pages
}

impl PdfReader {
    /// The number of pages.
    pub closed spec fn pages(&self) -> nat {
        self.page_count as nat
    }

    /// The stored text of 1-based page `n`: empty where none was stored.
    pub closed spec fn text_of_page(&self, n: int) -> Seq<char> {
        if 1 <= n <= self.page_texts@.len() {
            self.page_texts@[n - 1]@
        } else {
            Seq::empty()
        }
    }

    /// The stored outline.
    pub closed spec fn outline_items(&self) -> Seq<OutlineItem> {
        self.outline@
    }

    /// The stored metadata.
    pub closed spec fn metadata_info(&self) -> PdfMetadataInfo {
        self.metadata
    }

    /// The hits of a search over pages `1..=n`, in page order.
    pub open spec fn hits_up_to(&self, query: Seq<char>, case_sensitive: bool, n: int) -> Seq<
        (u32, Seq<char>),
    >
        decreases n,
    {
        if n <= 0 {
            seq![]
        } else {
            let rest = self.hits_up_to(query, case_sensitive, n - 1);
            if page_matches(self.text_of_page(n), query, case_sensitive) {
                rest.push((n as u32, self.text_of_page(n)))
            } else {
                rest
            }
        }
    }

    /// Assembles a reader from what was read out of a document.
    pub fn from_parts(
        data: Vec<u8>,
        page_count: u32,
        metadata: PdfMetadataInfo,
        outline: Vec<OutlineItem>,
        page_texts: Vec<String>,
    ) -> (r: Self)
        ensures
            r.pages() == page_count,
            forall|n: int|
                1 <= n <= page_texts@.len() ==> #[trigger] r.text_of_page(n) == page_texts@[n
                    - 1]@,
            forall|n: int| n > page_texts@.len() ==> #[trigger] r.text_of_page(n).len() == 0,
            r.outline_items() == outline@,
            r.metadata_info() == metadata,
    {
        PdfReader { data, page_count, metadata, outline, page_texts }
    }

    /// The number of pages.
    pub fn page_count(&self) -> (n: u32)
        ensures
            n == self.pages(),
    {
        self.page_count
    }

    /// The document information.
    pub fn metadata(&self) -> (m: &PdfMetadataInfo)
        ensures
            *m == self.metadata_info(),
    {
        &self.metadata
    }

    /// The bookmarks.
    pub fn get_outline(&self) -> (o: &Vec<OutlineItem>)
        ensures
            o@ == self.outline_items(),
    {
        &self.outline
    }

    /// The text of 1-based page `page_num`, or an out-of-bounds error.
    pub fn extract_page_text(&self, page_num: u32) -> (r: Result<String, Error>)
        ensures
            r is Ok <==> 1 <= page_num <= self.pages(),
            r matches Ok(t) ==> t@ == self.text_of_page(page_num as int),
            r is Err ==> (r->Err_0 matches Error::PageOutOfBounds { page, total } && page
                == page_num && total == self.pages()),
    {
        if page_num < 1 || page_num > self.page_count {
            return Err(Error::PageOutOfBounds { page: page_num, total: self.page_count });
        }
        let i = (page_num - 1) as usize;
        if i < self.page_texts.len() {
            Ok(self.page_texts[i].clone())
        } else {
            Ok(String::new())
        }
    }

    /// The text of every page, numbered from 1.
    pub fn extract_all_text(&self) -> (r: Result<Vec<(u32, String)>, Error>)
        ensures
            r matches Ok(v) && v@.len() == self.pages() && forall|i: int|
                0 <= i < v@.len() ==> #[trigger] v@[i].0 == i + 1 && v@[i].1@
                    == self.text_of_page(i + 1),
    {
        let mut results: Vec<(u32, String)> = Vec::new();
        let mut n: u32 = 0;
        while n < self.page_count
            invariant
                n <= self.pages(),
                results@.len() == n,
                forall|i: int|
                    0 <= i < n ==> #[trigger] results@[i].0 == i + 1 && results@[i].1@
                        == self.text_of_page(i + 1),
            decreases self.pages() - n,
        {
            let text = match self.extract_page_text(n + 1) {
                Ok(t) => t,
                Err(_) => String::new(),
            };
            results.push((n + 1, text));
            n = n + 1;
        }
        Ok(results)
    }

    /// The text of each listed page, or an out-of-bounds error for the first
    /// page that does not exist.
    pub fn extract_pages_text(&self, pages: &[u32]) -> (r: Result<Vec<(u32, String)>, Error>)
        ensures
            r is Ok <==> forall|i: int| 0 <= i < pages@.len() ==> 1 <= #[trigger] pages@[i]
                <= self.pages(),
            r matches Ok(v) ==> v@.len() == pages@.len() && forall|i: int|
                0 <= i < v@.len() ==> #[trigger] v@[i].0 == pages@[i] && v@[i].1@
                    == self.text_of_page(pages@[i] as int),
            r is Err ==> exists|i: int|
                0 <= i < pages@.len() && !(1 <= #[trigger] pages@[i] <= self.pages()) && (forall|
                    k: int,
                | 0 <= k < i ==> 1 <= #[trigger] pages@[k] <= self.pages()) && (r->Err_0 matches Error::PageOutOfBounds { page, total } && page == pages@[i] && total
                    == self.pages()),
    {
        let mut results: Vec<(u32, String)> = Vec::new();
        let mut i: usize = 0;
        while i < pages.len()
            invariant
                i <= pages@.len(),
                results@.len() == i,
                forall|k: int| 0 <= k < i ==> 1 <= #[trigger] pages@[k] <= self.pages(),
                forall|k: int|
                    0 <= k < i ==> #[trigger] results@[k].0 == pages@[k] && results@[k].1@
                        == self.text_of_page(pages@[k] as int),
            decreases pages@.len() - i,
        {
            let page_num = pages[i];
            match self.extract_page_text(page_num) {
                Ok(text) => {
                    results.push((page_num, text));
                },
                Err(e) => {
                    return Err(e);
                },
            }
            i = i + 1;
        }
        Ok(results)
    }

    /// The pages whose text contains `query` (ignoring case unless asked
    /// not to), with their text, in page order.
    pub fn search(&self, query: &str, case_sensitive: bool) -> (r: Vec<(u32, String)>)
        ensures
            r@.map_values(|h: (u32, String)| (h.0, h.1@)) == self.hits_up_to(
                query@,
                case_sensitive,
                self.pages() as int,
            ),
    {
        let search_query = if case_sensitive {
            query.to_owned()
        } else {
            to_lowercase(query)
        };
        let mut matches: Vec<(u32, String)> = Vec::new();
        let mut n: u32 = 0;
        while n < self.page_count
            invariant
                n <= self.pages(),
                search_query@ == if case_sensitive {
                    query@
                } else {
                    lowercase_of(query@)
                },
                matches@.map_values(|h: (u32, String)| (h.0, h.1@)) == self.hits_up_to(
                    query@,
                    case_sensitive,
                    n as int,
                ),
            decreases self.pages() - n,
        {
            let page_num = n + 1;
            if let Ok(text) = self.extract_page_text(page_num) {
                let search_text = if case_sensitive {
                    text.clone()
                } else {
                    to_lowercase(text.as_str())
                };
                if text_contains(search_text.as_str(), search_query.as_str()) {
                    let ghost before = matches@;
                    matches.push((page_num, text));
                    proof {
                        assert(matches@.map_values(|h: (u32, String)| (h.0, h.1@)) =~= before.map_values(
                            |h: (u32, String)| (h.0, h.1@),
                        ).push((page_num, self.text_of_page(page_num as int))));
                    }
                }
            }
            n = n + 1;
        }
        matches
    }
}

} // verus!
