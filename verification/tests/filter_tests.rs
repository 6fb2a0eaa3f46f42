use rnot::filter::filter_noise;

#[test]
fn filter_drops_empty_and_short_lines() {
    let out = filter_noise("  \n\nab\nabc\n  spaced out  \n");
    assert_eq!(out, "abc\nspaced out");
}

#[test]
fn filter_is_idempotent_on_messy_input() {
    let input = "  first real line  \n\nok\nAdvertisement\nLast updated: 2 minutes ago\nsecond real line\r\n";
    let once = filter_noise(input);
    let twice = filter_noise(&once);
    assert_eq!(once, twice);
}

#[test]
fn filter_is_idempotent_on_plain_text() {
    let input = "alpha line\nbeta line\ngamma line";
    let once = filter_noise(input);
    assert_eq!(filter_noise(&once), once);
}

#[test]
fn filter_removes_last_updated_line() {
    let out = filter_noise("real content line\nLast updated: 2 minutes ago\nmore content");
    assert_eq!(out, "real content line\nmore content");
}

#[test]
fn filter_keeps_long_paragraph_containing_date() {
    let paragraph = "The committee published its final report on 2024-01-01, concluding that the proposed changes to the municipal water system were both feasible and necessary.";
    assert!(paragraph.len() >= 150);
    let out = filter_noise(paragraph);
    assert_eq!(out, paragraph);
}

#[test]
fn filter_drops_short_bare_timestamp_lines() {
    let out = filter_noise("12:34 PM\n2024-01-01\ncontent stays here");
    assert_eq!(out, "content stays here");
}

#[test]
fn filter_drops_advertising_lines_case_insensitively() {
    let input = "keep this line\nSPONSORED content\nSubscribe Now for more\ncookie policy notice\nand keep this";
    let out = filter_noise(input);
    assert_eq!(out, "keep this line\nand keep this");
}

#[test]
fn filter_preserves_relative_order() {
    let out = filter_noise("one line\ntwo line\nthree line");
    assert_eq!(out, "one line\ntwo line\nthree line");
}

#[test]
fn filter_trims_each_line() {
    let out = filter_noise("   padded left\npadded right   \n");
    assert_eq!(out, "padded left\npadded right");
}

#[test]
fn filter_of_empty_is_empty() {
    assert_eq!(filter_noise(""), "");
}

#[test]
fn timestamp_threshold_is_one_hundred_characters() {
    let date = "2024-01-01 ";
    let short_line = format!("{date}{}", "x".repeat(99 - date.len()));
    let long_line = format!("{date}{}", "x".repeat(100 - date.len()));
    assert_eq!(short_line.len(), 99);
    assert_eq!(long_line.len(), 100);
    assert_eq!(filter_noise(&short_line), "");
    assert_eq!(filter_noise(&long_line), long_line);
}
