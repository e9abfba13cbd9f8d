use pdf_mcp_server::{
    select_pages, text_contains, Error, OutlineItem, PdfMetadataInfo, PdfReader,
};

fn reader() -> PdfReader {
    let metadata = PdfMetadataInfo { title: Some("Report".to_string()), ..PdfMetadataInfo::default() };
    let outline = vec![OutlineItem {
        title: "Intro".to_string(),
        page: Some(1),
        children: vec![OutlineItem { title: "Scope".to_string(), page: Some(2), children: Vec::new() }],
    }];
    PdfReader::from_parts(
        b"%PDF-1.4".to_vec(),
        3,
        metadata,
        outline,
        vec!["Hello World".to_string(), "nothing here".to_string(), "HELLO again".to_string()],
    )
}

#[test]
fn reader_page_text_bounds() {
    let r = reader();
    assert_eq!(r.page_count(), 3);
    assert_eq!(r.extract_page_text(1).unwrap(), "Hello World");
    assert_eq!(r.extract_page_text(3).unwrap(), "HELLO again");
    match r.extract_page_text(0) {
        Err(Error::PageOutOfBounds { page, total }) => assert_eq!((page, total), (0, 3)),
        _ => panic!("expected an out-of-bounds error"),
    }
    assert!(matches!(r.extract_page_text(4), Err(Error::PageOutOfBounds { page: 4, total: 3 })));
}

#[test]
fn reader_all_and_selected_pages() {
    let r = reader();
    let all = r.extract_all_text().unwrap();
    assert_eq!(all.len(), 3);
    assert_eq!(all[1], (2, "nothing here".to_string()));
    let some = r.extract_pages_text(&[3, 1]).unwrap();
    assert_eq!(some, vec![(3, "HELLO again".to_string()), (1, "Hello World".to_string())]);
    assert!(matches!(r.extract_pages_text(&[1, 5, 9]), Err(Error::PageOutOfBounds { page: 5, total: 3 })));
}

#[test]
fn reader_metadata_and_outline() {
    let r = reader();
    assert_eq!(r.metadata().title.as_deref(), Some("Report"));
    assert_eq!(r.metadata().author, None);
    let outline = r.get_outline();
    assert_eq!(outline.len(), 1);
    assert_eq!(outline[0].children[0].title, "Scope");
}

#[test]
fn reader_without_texts_gives_empty_pages() {
    let r = PdfReader::from_parts(Vec::new(), 2, PdfMetadataInfo::default(), Vec::new(), Vec::new());
    assert_eq!(r.extract_page_text(2).unwrap(), "");
    assert!(r.extract_page_text(3).is_err());
}

#[test]
fn reader_search() {
    let r = reader();
    let hits: Vec<u32> = r.search("hello", false).iter().map(|h| h.0).collect();
    assert_eq!(hits, vec![1, 3]);
    let hits: Vec<u32> = r.search("Hello", true).iter().map(|h| h.0).collect();
    assert_eq!(hits, vec![1]);
    assert_eq!(r.search("absent", false).len(), 0);
    assert_eq!(r.search("", true).len(), 3);
    assert_eq!(r.search("again", false)[0].1, "HELLO again");
}

#[test]
fn substring_search() {
    assert!(text_contains("abcabd", "abd"));
    assert!(text_contains("abc", ""));
    assert!(text_contains("abc", "abc"));
    assert!(!text_contains("ab", "abc"));
    assert!(!text_contains("aab", "abb"));
    assert!(text_contains("naïve café", "é"));
}

#[test]
fn page_selection() {
    assert_eq!(select_pages(None, 3), vec![1, 2, 3]);
    assert_eq!(select_pages(None, 0), Vec::<u32>::new());
    assert_eq!(select_pages(Some(&[5, 0, 2, 9, 2]), 5), vec![5, 2, 2]);
    assert_eq!(select_pages(Some(&[]), 5), Vec::<u32>::new());
}
