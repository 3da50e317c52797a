use prayer_times::cache::{
    cache_rest, cache_stamp, format_date, is_stale, make_cache_content, today_stamp,
};

#[test]
fn missing_file_is_stale() {
    assert!(is_stale(None, "12/10/26"));
}

#[test]
fn yesterday_stamp_is_stale() {
    assert!(is_stale(Some("11/10/26"), "12/10/26"));
}

#[test]
fn today_stamp_is_fresh() {
    assert!(!is_stale(Some("12/10/26"), "12/10/26"));
}

#[test]
fn stamp_line_is_compared_trimmed() {
    assert!(!is_stale(Some("12/10/26\r"), "12/10/26"));
    assert!(!is_stale(Some("  12/10/26\n"), "12/10/26"));
    assert!(is_stale(Some("12/10/26 x"), "12/10/26"));
}

#[test]
fn date_is_zero_padded() {
    assert_eq!(format_date(7, 3, 26), "07/03/26");
    assert_eq!(format_date(31, 12, 9), "31/12/09");
    assert_eq!(format_date(1, 1, 0), "01/01/00");
}

#[test]
fn content_splits_back_into_stamp_and_rest() {
    let body = "{\"name\":\"Test\"}";
    let content = make_cache_content("12/10/26", body);
    assert_eq!(content, "12/10/26\n{\"name\":\"Test\"}");
    assert_eq!(cache_stamp(&content), "12/10/26");
    assert_eq!(cache_rest(&content), body);
}

#[test]
fn rest_of_stampless_content_is_empty() {
    assert_eq!(cache_stamp("no newline here"), "no newline here");
    assert_eq!(cache_rest("no newline here"), "");
}

#[test]
fn stored_today_reads_back_fresh() {
    let today = format_date(12, 10, 26);
    let content = make_cache_content(&today, "{\"times\":[]}");
    let stamp = cache_stamp(&content);
    assert!(!is_stale(Some(&stamp), &today));
}

#[test]
fn same_day_store_is_byte_identical() {
    let today = format_date(12, 10, 26);
    let first = make_cache_content(&today, "{\"n\":1}");
    let second = make_cache_content(&today, "{\"n\":1}");
    assert_eq!(first, second);
}

#[test]
fn clock_stamp_has_date_shape() {
    let stamp = today_stamp();
    let bytes = stamp.as_bytes();
    assert_eq!(bytes.len(), 8);
    assert_eq!(bytes[2], b'/');
    assert_eq!(bytes[5], b'/');
    for i in [0, 1, 3, 4, 6, 7] {
        assert!(bytes[i].is_ascii_digit());
    }
}
