use pdf_mcp_server::{text_statistics, TextStats};

fn stats(text: &str) -> TextStats {
    text_statistics(&text.chars().collect())
}

#[test]
fn latin_text_statistics() {
    assert_eq!(
        stats("Hello  world\nagain "),
        TextStats { char_count: 19, word_count: 3, estimated_token_count: 5 }
    );
    assert_eq!(stats(""), TextStats { char_count: 0, word_count: 0, estimated_token_count: 0 });
    assert_eq!(stats("   "), TextStats { char_count: 3, word_count: 0, estimated_token_count: 1 });
}

#[test]
fn cjk_text_statistics() {
    // three CJK characters, one space, two latin letters
    assert_eq!(
        stats("日本語 ab"),
        TextStats { char_count: 6, word_count: 2, estimated_token_count: 7 }
    );
    assert_eq!(stats("\u{3000}カ"), TextStats { char_count: 2, word_count: 1, estimated_token_count: 3 });
}
