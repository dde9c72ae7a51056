use capcut_transcript::text::{
    contains_text, format_modified_time, format_timestamp, holds_caption_word,
    mentions_caption_text, normalize_caption_text,
};

#[test]
fn timestamp_pads_each_field() {
    assert_eq!(format_timestamp(0), "00:00:00");
    assert_eq!(format_timestamp(61_000), "00:01:01");
    assert_eq!(format_timestamp(3_723_999), "01:02:03");
}

#[test]
fn timestamp_does_not_wrap_hours() {
    assert_eq!(format_timestamp(100 * 3_600_000), "100:00:00");
    assert_eq!(format_timestamp(86_400_000), "24:00:00");
}

#[test]
fn timestamp_of_largest_value() {
    assert_eq!(format_timestamp(u64::MAX), "5124095576030:25:51");
}

#[test]
fn modified_time_is_decimal_or_dash() {
    assert_eq!(format_modified_time(Some(1_700_000_000_123)), "1700000000123");
    assert_eq!(format_modified_time(Some(0)), "0");
    assert_eq!(format_modified_time(None), "-");
}

#[test]
fn normalize_collapses_white_space() {
    assert_eq!(normalize_caption_text("  hello \t\n  world  "), "hello world");
    assert_eq!(normalize_caption_text("one"), "one");
    assert_eq!(normalize_caption_text(""), "");
    assert_eq!(normalize_caption_text(" \u{3000}\u{a0} "), "");
    assert_eq!(normalize_caption_text("a\u{2003}b\u{85}c"), "a b c");
}

#[test]
fn normalize_is_idempotent_on_examples() {
    let once = normalize_caption_text(" x  y\tz ");
    assert_eq!(normalize_caption_text(&once), once);
}

#[test]
fn substring_search() {
    assert!(contains_text("subtitle track", "title"));
    assert!(contains_text("abc", ""));
    assert!(!contains_text("ab", "abc"));
    assert!(!contains_text("caption", "captions"));
    assert!(contains_text("ééx", "éx"));
}

#[test]
fn caption_words_are_found_in_lower_case_text() {
    assert!(holds_caption_word("auto caption"));
    assert!(holds_caption_word("recognize_text"));
    assert!(!holds_caption_word("Caption"));
    assert!(!holds_caption_word("video"));
}

#[test]
fn caption_mentions_ignore_case() {
    assert!(mentions_caption_text("AutoCAPTION"));
    assert!(mentions_caption_text("SubTitle"));
    assert!(mentions_caption_text("RECOGNIZE"));
    assert!(!mentions_caption_text("sticker"));
}
