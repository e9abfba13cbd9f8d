use pdf_mcp_server::collect_search_matches;

fn hits() -> Vec<(u32, String)> {
    vec![
        (1, "the cat sat on the mat".to_string()),
        (3, "The end".to_string()),
    ]
}

#[test]
fn matches_with_context() {
    let (matches, total) = collect_search_matches(&hits(), "the", true, 100, 3);
    assert_eq!(total, 2);
    assert_eq!(matches.len(), 2);
    assert_eq!((matches[0].page, matches[0].position, matches[0].context.as_str()), (1, 0, "the ca"));
    assert_eq!((matches[1].page, matches[1].position, matches[1].context.as_str()), (1, 15, "on the ma"));
}

#[test]
fn matches_ignoring_case() {
    let (matches, total) = collect_search_matches(&hits(), "THE", false, 100, 0);
    assert_eq!(total, 3);
    let found: Vec<(u32, usize, &str)> =
        matches.iter().map(|m| (m.page, m.position, m.context.as_str())).collect();
    assert_eq!(found, vec![(1, 0, "the"), (1, 15, "the"), (3, 0, "The")]);
}

#[test]
fn matches_stop_at_limit() {
    let (matches, total) = collect_search_matches(&hits(), "at", true, 2, 1);
    assert_eq!(total, 2);
    assert_eq!(matches[0].context, "cat ");
    assert_eq!(matches[1].context, "sat ");
    let (matches, total) = collect_search_matches(&hits(), "at", true, 0, 1);
    assert_eq!(total, 1);
    assert_eq!(matches[0].position, 5);
}

#[test]
fn overlapping_and_missing_matches() {
    let pages = vec![(2, "aaaa".to_string())];
    let (matches, _) = collect_search_matches(&pages, "aa", true, 10, 0);
    let positions: Vec<usize> = matches.iter().map(|m| m.position).collect();
    assert_eq!(positions, vec![0, 1, 2]);
    let (matches, total) = collect_search_matches(&pages, "b", true, 10, 5);
    assert!(matches.is_empty());
    assert_eq!(total, 0);
    let (matches, _) = collect_search_matches(&pages, "", true, 10, 0);
    assert_eq!(matches.len(), 5);
}
