//! Layout-aware reconstruction of page text from positioned glyphs, and the
//! rules around it in a PDF service: the queries on an opened document,
//! page range lists, the byte-bounded cache of documents, validation of
//! inline PDF data, the addresses a download may not reach, and the
//! messages errors show to clients.
//!
//! Text reconstruction takes a page's glyphs through five stages:
//! thresholds from glyph heights, grouping into lines, watermark removal,
//! column reordering, and serialisation with paragraph breaks. Coordinates
//! are fixed-point integers in hundredths of a PDF point (see
//! [`UNITS_PER_POINT`]).

mod address;
mod cache;
mod columns;
mod download;
mod error;
mod glyph;
mod laws;
mod lines;
mod ordering;
mod page_range;
mod pipeline;
mod qpdf;
mod reader;
mod search;
mod source;
mod stats;
mod strings;
mod text;
mod thresholds;
mod watermark;

pub use address::{is_private_ip, private_address, private_v4, private_v6, IpAddress};
pub use cache::{
    bytes_of, distinct_keys, entries_after_put, evict_for, lru_capacity, lru_entries,
    position_of, without_key, CacheManager, CacheView,
};
pub use columns::{
    all_x, bucket_of, columns_reordered, gap_buckets, left_lines, left_of_separator, mode_from,
    occurrences, page_gap_buckets, reorder_columns, right_lines, separator,
};
pub use download::{
    accept_chunk, check_declared_length, check_downloaded, check_resolved_addresses,
};
pub use error::{client_message_of, Error};
pub use glyph::{
    default_config, line_wf, lines_view, CharInfo, ColumnMode, LineInfo, LineView, ParagraphMode,
    TextExtractionConfig, Thresholds, WatermarkMode, UNITS_PER_POINT,
};
pub use laws::{
    concat_runs, lemma_empty_page, lemma_grouping_keeps_glyphs, lemma_line_count,
    lemma_lines_are_y_clusters, lemma_one_y_one_line, total_members,
    lemma_page_text_deterministic, lemma_reading_order_idempotent,
};
pub use lines::{
    create_line_info, group_into_lines, group_runs, line_of, lines_of, max_right, min_left,
    reading_order, sum_heights,
};
pub use ordering::{
    ascending, insert_by, reading_before, reads_before, sort_ascending, sort_by_insertion,
    sort_by_x, sort_reading_order, sorted_by, strict_weak_order, x_before,
};
pub use page_range::{
    all_digits, digits_value, index_of, is_digit, page_in_range, page_range_valid,
    parse_page_range, parse_u32, part_bounds, part_covers, part_ok, split_at_char,
    strictly_increasing, trim, trim_start, unsigned_part,
};
pub use pipeline::{
    extract_page_text_with_layout, extract_text_from_chars, page_text, page_thresholds,
    plain_layout_config,
};
pub use qpdf::{
    all_pages_of, args_view, compress_args_of, compression_level_of, decrypt_args_of,
    encrypt_args_of, mentions_password, merge_args_of, object_streams_mode, opt_seq,
    page_count_args_of, password_args, permission_args_of, print_flag, print_permission_of,
    split_args_of, succeeded_with_warnings, PrintPermission, QpdfWrapper,
};
pub use reader::{
    contains_subseq, lowercase_of, page_matches, select_pages, selected_pages, text_contains,
    OutlineItem, PdfMetadataInfo, PdfReader,
};
pub use search::{
    all_matches, collect_search_matches, context_of, match_view, occurs_at, page_match_list,
    positions_before, searched, SearchMatch,
};
pub use source::{
    decoded_outcome, has_pdf_header, pdf_from_decoded, pdf_header, resolve_base64,
    source_name_of, standard_base64_decoding, PdfSource, ResolvedPdf,
};
pub use stats::{cjk_count, estimated_tokens, is_cjk, text_statistics, word_count, TextStats};
pub use strings::{
    color_to_hex, decimal, decimal_string, digit_char, hex_byte, hex_digit, push_decimal,
};
pub use text::{
    build_text_output, is_white_space, is_white_space_char, line_text, paragraph_break, raw_text,
    text_of_lines, trim_end,
};
pub use thresholds::{
    calculate_dynamic_thresholds, dynamic_thresholds, fixed_thresholds, fixed_tolerances,
    glyph_before, glyph_leq, glyph_leq_rel, lemma_thresholds_permutation, median_height,
    positive_heights, thresholds_from_median,
};
pub use watermark::{
    filter_watermarks, is_watermark, keep_non_watermarks, sum_avg_heights, without_watermarks,
};
