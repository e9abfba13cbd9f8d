use pdf_mcp_server::{
    build_text_output, calculate_dynamic_thresholds, create_line_info, extract_text_from_chars,
    filter_watermarks, group_into_lines, reorder_columns, CharInfo, ColumnMode, LineInfo,
    ParagraphMode, TextExtractionConfig, Thresholds, WatermarkMode, UNITS_PER_POINT,
};

const U: i32 = UNITS_PER_POINT;

fn glyph(c: char, x: i32, y: i32, w: u32, h: u32) -> CharInfo {
    CharInfo { char: c, x: x * U, y: y * U, width: w * U as u32, height: h * U as u32 }
}

fn word(text: &str, x: i32, y: i32, step: i32, h: u32) -> Vec<CharInfo> {
    text.chars()
        .enumerate()
        .map(|(i, c)| glyph(c, x + step * i as i32, y, step as u32, h))
        .collect()
}

fn line(text: &str, y: i32, avg: u32, min_x: i32, max_x: i64) -> LineInfo {
    LineInfo {
        chars: text.chars().enumerate().map(|(i, c)| (c, (min_x + i as i32) * U)).collect(),
        y: y * U,
        avg_height: avg * U as u32,
        min_x: min_x * U,
        max_x: max_x * U as i64,
    }
}

fn plain_config() -> TextExtractionConfig {
    TextExtractionConfig {
        paragraph_mode: ParagraphMode::Off,
        paragraph_threshold: 150,
        column_mode: ColumnMode::Off,
        column_gap: 30 * U,
        watermark_mode: WatermarkMode::Off,
        dynamic_thresholds: true,
        page_width: 612 * U,
        page_height: 792 * U,
    }
}

fn texts(lines: &[LineInfo]) -> Vec<String> {
    lines.iter().map(|l| l.chars.iter().map(|c| c.0).collect()).collect()
}

#[test]
fn default_config_values() {
    let c = TextExtractionConfig::default();
    assert_eq!(c.paragraph_mode, ParagraphMode::Spacing);
    assert_eq!(c.paragraph_threshold, 150);
    assert_eq!(c.column_mode, ColumnMode::Auto);
    assert_eq!(c.column_gap, 3000);
    assert_eq!(c.watermark_mode, WatermarkMode::Center);
    assert!(c.dynamic_thresholds);
    assert_eq!(c.page_width, 0);
}

#[test]
fn dynamic_threshold_scenario() {
    let chars: Vec<CharInfo> =
        [10, 10, 10, 10, 20].iter().enumerate().map(|(i, h)| glyph('a', i as i32 * 10, 700, 5, *h)).collect();
    let t = calculate_dynamic_thresholds(&chars);
    assert_eq!(t, Thresholds { line_tolerance: 400, space_tolerance: 300 });
}

#[test]
fn dynamic_threshold_upper_median() {
    let chars: Vec<CharInfo> =
        [20, 10, 40, 30].iter().enumerate().map(|(i, h)| glyph('a', i as i32 * 10, 700, 5, *h)).collect();
    // ascending [10, 20, 30, 40]; index 2 holds 30 points
    let t = calculate_dynamic_thresholds(&chars);
    assert_eq!(t, Thresholds { line_tolerance: 1200, space_tolerance: 900 });
}

#[test]
fn dynamic_threshold_fallbacks() {
    assert_eq!(
        calculate_dynamic_thresholds(&Vec::new()),
        Thresholds { line_tolerance: 500, space_tolerance: 1000 }
    );
    let flat = vec![glyph('a', 0, 700, 5, 0), glyph('b', 10, 700, 5, 0)];
    assert_eq!(
        calculate_dynamic_thresholds(&flat),
        Thresholds { line_tolerance: 500, space_tolerance: 1000 }
    );
    let tiny = vec![glyph('a', 0, 700, 5, 1)];
    assert_eq!(
        calculate_dynamic_thresholds(&tiny),
        Thresholds { line_tolerance: 200, space_tolerance: 300 }
    );
}

#[test]
fn empty_input_gives_empty_text() {
    let mut configs = vec![plain_config(), TextExtractionConfig::default()];
    let mut fixed = TextExtractionConfig::default();
    fixed.dynamic_thresholds = false;
    fixed.page_width = 612 * U;
    configs.push(fixed);
    for c in configs {
        assert_eq!(extract_text_from_chars(&Vec::new(), &c), "");
    }
    assert_eq!(group_into_lines(&Vec::new(), 500).len(), 0);
}

#[test]
fn one_shared_y_makes_one_line() {
    let chars: Vec<CharInfo> = (0..25).map(|i| glyph('x', 300 - 10 * i, 500, 5, 12)).collect();
    let lines = group_into_lines(&chars, 480);
    assert_eq!(lines.len(), 1);
    assert_eq!(lines[0].chars.len(), 25);
    assert!(lines[0].chars.windows(2).all(|w| w[0].1 <= w[1].1));
    assert_eq!(lines[0].min_x, 60 * U);
    assert_eq!(lines[0].max_x, 305 * U as i64);
}

#[test]
fn grouping_uses_the_anchor() {
    // 3-point steps stay within a 4-point tolerance of their neighbour but
    // drift away from the line's first glyph.
    let chars = vec![
        glyph('a', 0, 700, 5, 10),
        glyph('b', 10, 697, 5, 10),
        glyph('c', 20, 694, 5, 10),
    ];
    let lines = group_into_lines(&chars, 400);
    assert_eq!(texts(&lines), vec!["ab".to_string(), "c".to_string()]);
    assert_eq!(lines[0].y, 700 * U);
    assert_eq!(lines[1].y, 694 * U);
}

#[test]
fn grouping_sorts_members_by_x() {
    let chars = vec![glyph('b', 20, 700, 5, 10), glyph('a', 10, 699, 5, 10)];
    let lines = group_into_lines(&chars, 400);
    assert_eq!(texts(&lines), vec!["ab".to_string()]);
    assert_eq!(lines[0].y, 700 * U);
}

#[test]
fn line_info_statistics() {
    let run = vec![glyph('a', 10, 700, 5, 10), glyph('b', 3, 701, 20, 11), glyph('c', 15, 699, 2, 12)];
    let l = create_line_info(&run);
    assert_eq!(l.chars, vec![('b', 300), ('a', 1000), ('c', 1500)]);
    assert_eq!(l.y, 70000);
    assert_eq!(l.avg_height, 1100);
    assert_eq!(l.min_x, 300);
    assert_eq!(l.max_x, 2300);
}

#[test]
fn line_mean_height_rounds_down() {
    let run = vec![
        CharInfo { char: 'a', x: 0, y: 0, width: 1, height: 1 },
        CharInfo { char: 'b', x: 5, y: 0, width: 1, height: 2 },
    ];
    assert_eq!(create_line_info(&run).avg_height, 1);
}

fn watermark_page() -> Vec<LineInfo> {
    vec![
        line("body text one that is long enough", 700, 12, 72, 540),
        line("body text two that is long enough", 686, 12, 72, 540),
        line("DRAFT", 400, 36, 250, 362),
        line("body text three that is long enough", 672, 12, 72, 540),
    ]
}

#[test]
fn watermark_line_removed() {
    let mut config = plain_config();
    config.watermark_mode = WatermarkMode::Center;
    let kept = filter_watermarks(watermark_page(), &config);
    assert_eq!(kept.len(), 3);
    assert!(texts(&kept).iter().all(|t| t != "DRAFT"));
}

#[test]
fn watermark_kept_without_page_width() {
    let mut config = plain_config();
    config.page_width = 0;
    assert_eq!(filter_watermarks(watermark_page(), &config).len(), 4);
}

#[test]
fn watermark_needs_all_three_signs() {
    let mut config = plain_config();
    config.watermark_mode = WatermarkMode::Center;
    // off-centre
    let mut page = watermark_page();
    page[2] = line("DRAFT", 400, 36, 10, 80);
    assert_eq!(filter_watermarks(page, &config).len(), 4);
    // body-sized
    let mut page = watermark_page();
    page[2] = line("DRAFT", 400, 12, 250, 362);
    assert_eq!(filter_watermarks(page, &config).len(), 4);
    // thirty characters
    let mut page = watermark_page();
    page[2] = line("ABCDEFGHIJKLMNOPQRSTUVWXYZABCD", 400, 36, 250, 362);
    assert_eq!(filter_watermarks(page, &config).len(), 4);
}

fn watermark_glyphs() -> Vec<CharInfo> {
    let mut chars = Vec::new();
    chars.extend(word("Body text goes here", 72, 700, 6, 12));
    chars.extend(word("More body text here", 72, 686, 6, 12));
    chars.extend(word("Final body text line", 72, 672, 6, 12));
    chars.extend(word("DRAFT", 296, 400, 3, 36));
    chars
}

#[test]
fn watermark_mode_switches_filter() {
    let mut config = plain_config();
    config.watermark_mode = WatermarkMode::Center;
    let text = extract_text_from_chars(&watermark_glyphs(), &config);
    assert!(!text.contains("DRAFT"));
    config.watermark_mode = WatermarkMode::Off;
    let text = extract_text_from_chars(&watermark_glyphs(), &config);
    assert!(text.contains("DRAFT"));
}

fn two_columns() -> Vec<CharInfo> {
    let mut chars = Vec::new();
    chars.extend(word("L1", 0, 700, 10, 10));
    chars.extend(word("R1", 300, 690, 10, 10));
    chars.extend(word("L2", 0, 680, 10, 10));
    chars.extend(word("R2", 300, 670, 10, 10));
    chars.extend(word("L3", 0, 660, 10, 10));
    chars.extend(word("R3", 300, 650, 10, 10));
    chars
}

#[test]
fn column_split_order() {
    let lines = group_into_lines(&two_columns(), 400);
    assert_eq!(texts(&lines), vec!["L1", "R1", "L2", "R2", "L3", "R3"]);
    let ordered = reorder_columns(lines, 30 * U);
    assert_eq!(texts(&ordered), vec!["L1", "L2", "L3", "R1", "R2", "R3"]);
}

#[test]
fn column_split_through_pipeline() {
    let mut config = plain_config();
    config.column_mode = ColumnMode::Auto;
    // glyphs 10 points apart are written with a space between them
    assert_eq!(extract_text_from_chars(&two_columns(), &config), "L 1\nL 2\nL 3\nR 1\nR 2\nR 3");
    config.column_mode = ColumnMode::Off;
    assert_eq!(extract_text_from_chars(&two_columns(), &config), "L 1\nR 1\nL 2\nR 2\nL 3\nR 3");
}

#[test]
fn columns_unchanged_without_wide_gap() {
    let lines = group_into_lines(&two_columns(), 400);
    let ordered = reorder_columns(lines, 300 * U);
    assert_eq!(texts(&ordered), vec!["L1", "R1", "L2", "R2", "L3", "R3"]);
    assert_eq!(reorder_columns(Vec::new(), 30 * U).len(), 0);
    let single = group_into_lines(&vec![glyph('a', 0, 700, 5, 10)], 400);
    assert_eq!(reorder_columns(single, 30 * U).len(), 1);
}

#[test]
fn column_separator_is_most_frequent_bucket() {
    // With a 4-point minimum gap the positions 0, 30, 40, 45, 45, 50 give
    // gaps in the buckets 10, 30, 40 and 40 points: 40 occurs most often,
    // so the line centred at 31 points belongs to the left column.
    let mk = |chars: Vec<(char, i32)>, y: i32, min_x: i32, max_x: i64| LineInfo {
        chars: chars.into_iter().map(|(c, x)| (c, x * U)).collect(),
        y: y * U,
        avg_height: 10 * U as u32,
        min_x: min_x * U,
        max_x: max_x * U as i64,
    };
    let lines = vec![
        mk(vec![('q', 40), ('r', 45), ('s', 50)], 700, 40, 52),
        mk(vec![('u', 30)], 695, 30, 32),
        mk(vec![('p', 0)], 690, 0, 1),
        mk(vec![('t', 45)], 680, 44, 46),
    ];
    let ordered = reorder_columns(lines, 4 * U);
    assert_eq!(texts(&ordered), vec!["u", "p", "qrs", "t"]);
}

#[test]
fn column_separator_ties_go_to_first_gap() {
    // Gaps 0->40 and 40->100 points fall in the buckets 20 and 70, once
    // each: the first one separates, so only the line centred at 5 points
    // stands left of it.
    let lines = vec![
        LineInfo { chars: vec![('b', 4000)], y: 70000, avg_height: 1000, min_x: 4000, max_x: 4500 },
        LineInfo { chars: vec![('a', 0)], y: 69000, avg_height: 1000, min_x: 0, max_x: 1000 },
        LineInfo { chars: vec![('c', 10000)], y: 68000, avg_height: 1000, min_x: 10000, max_x: 10500 },
    ];
    let ordered = reorder_columns(lines, 30 * U);
    assert_eq!(texts(&ordered), vec!["a", "b", "c"]);
}

#[test]
fn column_bucket_rounds_down_for_negative_positions() {
    // One gap from -50 to -10 points: midpoint -30 falls in the bucket at
    // -30 points, so a line centred at -20 points lies right of it.
    let lines = vec![
        LineInfo { chars: vec![('a', -5000)], y: 70000, avg_height: 1000, min_x: -5000, max_x: -4000 },
        LineInfo { chars: vec![('b', -1000)], y: 69000, avg_height: 1000, min_x: -2500, max_x: -1500 },
        LineInfo { chars: vec![('c', -5000)], y: 68000, avg_height: 1000, min_x: -5000, max_x: -4000 },
    ];
    let ordered = reorder_columns(lines, 30 * U);
    assert_eq!(texts(&ordered), vec!["a", "c", "b"]);
}

#[test]
fn paragraph_break_example() {
    let lines = vec![
        line("First", 700, 12, 72, 100),
        line("Second", 688, 12, 72, 100),
        line("Third", 640, 12, 72, 100),
    ];
    let mut config = plain_config();
    config.paragraph_mode = ParagraphMode::Spacing;
    assert_eq!(build_text_output(&lines, 300, &config), "First\nSecond\n\nThird");
    config.paragraph_mode = ParagraphMode::Off;
    assert_eq!(build_text_output(&lines, 300, &config), "First\nSecond\nThird");
}

#[test]
fn paragraph_threshold_is_strict() {
    let lines = vec![line("A", 700, 12, 72, 100), line("B", 682, 12, 72, 100)];
    let mut config = plain_config();
    config.paragraph_mode = ParagraphMode::Spacing;
    // gap 18 equals 12 x 1.5: no break
    assert_eq!(build_text_output(&lines, 300, &config), "A\nB");
    config.paragraph_threshold = 149;
    assert_eq!(build_text_output(&lines, 300, &config), "A\n\nB");
}

#[test]
fn paragraph_break_through_pipeline() {
    let mut chars = Vec::new();
    chars.extend(word("one", 72, 700, 3, 12));
    chars.extend(word("two", 72, 688, 3, 12));
    chars.extend(word("three", 72, 640, 3, 12));
    let mut config = plain_config();
    config.paragraph_mode = ParagraphMode::Spacing;
    assert_eq!(extract_text_from_chars(&chars, &config), "one\ntwo\n\nthree");
}

#[test]
fn spaces_between_words() {
    let l = LineInfo {
        chars: vec![('a', 0), ('b', 200), ('c', 400), (' ', 1000), ('d', 1100), ('e', 2000)],
        y: 0,
        avg_height: 1000,
        min_x: 0,
        max_x: 4500,
    };
    let config = plain_config();
    // steps above 3 points get a space, except before a space itself
    assert_eq!(build_text_output(&vec![l], 300, &config), "abc d e");
}

#[test]
fn trailing_white_space_trimmed() {
    let lines = vec![line("ab  ", 700, 12, 0, 10), line("\u{3000}\t", 680, 12, 0, 10)];
    assert_eq!(build_text_output(&lines, 10000, &plain_config()), "ab");
    assert_eq!(build_text_output(&Vec::new(), 300, &plain_config()), "");
}

#[test]
fn fixed_thresholds_used_when_not_dynamic() {
    // 4.5 points apart: one line with the fixed 5-point tolerance, two with
    // the dynamic one (40% of 10 points).
    let chars = vec![glyph('a', 0, 700, 5, 10), CharInfo { y: 69550, ..glyph('b', 20, 0, 5, 10) }];
    let mut config = plain_config();
    config.dynamic_thresholds = false;
    assert_eq!(extract_text_from_chars(&chars, &config), "a b");
    config.dynamic_thresholds = true;
    assert_eq!(extract_text_from_chars(&chars, &config), "a\nb");
}

#[test]
fn same_output_on_rerun() {
    let mut chars = watermark_glyphs();
    chars.extend(two_columns());
    let config = TextExtractionConfig { page_width: 612 * U, ..TextExtractionConfig::default() };
    let first = extract_text_from_chars(&chars, &config);
    let second = extract_text_from_chars(&chars, &config);
    assert_eq!(first, second);
    assert!(!first.is_empty());
}

#[test]
fn watermark_filter_off_keeps_every_line() {
    let mut config = plain_config();
    config.watermark_mode = WatermarkMode::Off;
    config.page_width = 600 * U;
    let page = vec![
        line("body text one that is long enough", 700, 10, 72, 540),
        line("DRAFT", 400, 30, 250, 350),
        line("body text two that is long enough", 686, 10, 72, 540),
    ];
    let kept = filter_watermarks(page, &config);
    assert_eq!(texts(&kept), vec!["body text one that is long enough", "DRAFT", "body text two that is long enough"]);
    config.watermark_mode = WatermarkMode::Center;
    let page = vec![
        line("body text one that is long enough", 700, 10, 72, 540),
        line("DRAFT", 400, 30, 250, 350),
        line("body text two that is long enough", 686, 10, 72, 540),
    ];
    assert_eq!(filter_watermarks(page, &config).len(), 2);
}

#[test]
fn builder_orders_characters_by_x() {
    let l = LineInfo {
        chars: vec![('o', 2500), ('H', 0), ('t', 2000), ('i', 500)],
        y: 70000,
        avg_height: 1000,
        min_x: 0,
        max_x: 3000,
    };
    assert_eq!(build_text_output(&vec![l], 1000, &plain_config()), "Hi to");
}

#[test]
fn one_shared_y_keeps_every_glyph() {
    let chars = vec![glyph('c', 20, 500, 5, 12), glyph('a', 0, 500, 5, 12), glyph('b', 10, 500, 5, 12)];
    let lines = group_into_lines(&chars, 0);
    assert_eq!(lines.len(), 1);
    assert_eq!(lines[0].y, 500 * U);
    assert_eq!(lines[0].chars, vec![('a', 0), ('b', 1000), ('c', 2000)]);
}

#[test]
fn thresholds_ignore_glyph_order() {
    let chars: Vec<CharInfo> =
        [14, 9, 30, 0, 12, 11].iter().enumerate().map(|(i, h)| glyph('a', i as i32, 700 - i as i32, 5, *h)).collect();
    let mut reversed = chars.clone();
    reversed.reverse();
    assert_eq!(calculate_dynamic_thresholds(&chars), calculate_dynamic_thresholds(&reversed));
    // positive heights ascending [9, 11, 12, 14, 30]: median 12 points
    assert_eq!(calculate_dynamic_thresholds(&chars), Thresholds { line_tolerance: 480, space_tolerance: 360 });
}
