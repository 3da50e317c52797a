use prayer_times::timeofday::{format_time, parse_time};

#[test]
fn parses_valid_times() {
    assert_eq!(parse_time("00:00"), Some((0, 0)));
    assert_eq!(parse_time("05:00"), Some((5, 0)));
    assert_eq!(parse_time("13:07"), Some((13, 7)));
    assert_eq!(parse_time("16:30"), Some((16, 30)));
    assert_eq!(parse_time("23:59"), Some((23, 59)));
}

#[test]
fn rejects_invalid_times() {
    assert_eq!(parse_time(""), None);
    assert_eq!(parse_time("24:00"), None);
    assert_eq!(parse_time("12:60"), None);
    assert_eq!(parse_time("99:99"), None);
    assert_eq!(parse_time("1:00"), None);
    assert_eq!(parse_time("12:3"), None);
    assert_eq!(parse_time("12-30"), None);
    assert_eq!(parse_time("ab:cd"), None);
    assert_eq!(parse_time(" 05:00"), None);
    assert_eq!(parse_time("05:00 "), None);
    assert_eq!(parse_time("05;00"), None);
}

#[test]
fn formats_zero_padded() {
    assert_eq!(format_time(1, 0), "01:00");
    assert_eq!(format_time(0, 5), "00:05");
    assert_eq!(format_time(23, 59), "23:59");
    assert_eq!(format_time(10, 10), "10:10");
}

#[test]
fn format_then_parse_round_trips() {
    for h in 0u8..24 {
        for m in 0u8..60 {
            let text = format_time(h, m);
            assert_eq!(parse_time(&text), Some((h, m)));
        }
    }
}
