use prayer_times::cache::{cache_rest, cache_stamp, is_stale, make_cache_content, today_stamp};
use prayer_times::extract::extract_conf;
use prayer_times::schedule::{parse_day, DayTimes, MonthTimes, PrayerTimes};

fn five_times() -> Vec<String> {
    vec![
        "05:00".to_string(),
        "13:00".to_string(),
        "16:30".to_string(),
        "19:45".to_string(),
        "21:15".to_string(),
    ]
}

fn flat_schedule(times: Vec<String>) -> PrayerTimes {
    PrayerTimes {
        name: "Test".to_string(),
        times,
        localisation: String::new(),
        email: String::new(),
        jumua: String::new(),
        jumua_as_duhr: false,
        shuruq: String::new(),
        calendar: Vec::new(),
    }
}

fn empty_month() -> MonthTimes {
    MonthTimes { days: Vec::new() }
}

#[test]
fn flat_schedule_reports_next_time() {
    let schedule = flat_schedule(five_times());
    assert!(schedule.is_well_formed());
    assert!(!schedule.calendar_in_force());
    assert_eq!(schedule.get_remaining_time(1, 1, 12, 0), "01:00");
}

#[test]
fn calendar_entry_overrides_flat_times() {
    let mut months: Vec<MonthTimes> = Vec::new();
    for _ in 0..12 {
        months.push(empty_month());
    }
    months[2].days.push(DayTimes { day: 7, times: vec!["06:10".to_string(), "20:00".to_string()] });
    let mut schedule = flat_schedule(five_times());
    schedule.calendar = months;
    assert!(schedule.is_well_formed());
    assert!(schedule.calendar_in_force());
    assert_eq!(schedule.get_remaining_time(3, 7, 12, 0), "08:00");
    assert!(schedule.times_for_day(3, 8).is_none());
    assert!(schedule.times_for_day(4, 7).is_none());
}

#[test]
fn calendar_fallback_is_first_entry_of_the_day() {
    let mut months: Vec<MonthTimes> = Vec::new();
    for _ in 0..12 {
        months.push(empty_month());
    }
    months[0].days.push(DayTimes { day: 1, times: vec!["06:10".to_string(), "07:00".to_string()] });
    let mut schedule = flat_schedule(five_times());
    schedule.calendar = months;
    assert_eq!(schedule.get_remaining_time(1, 1, 23, 30), "06:10");
}

#[test]
fn day_keys_are_plain_decimal() {
    assert_eq!(parse_day("1"), Some(1));
    assert_eq!(parse_day("7"), Some(7));
    assert_eq!(parse_day("31"), Some(31));
    assert_eq!(parse_day("09"), Some(9));
    assert_eq!(parse_day(""), None);
    assert_eq!(parse_day("007"), None);
    assert_eq!(parse_day("x1"), None);
    assert_eq!(parse_day("1 "), None);
}

#[test]
fn display_text_lists_times_and_name() {
    let schedule = flat_schedule(five_times());
    assert_eq!(
        schedule.display_string(),
        "Data:\nTimes: [\"05:00\", \"13:00\", \"16:30\", \"19:45\", \"21:15\"]\nName: Test",
    );
}

#[test]
fn fresh_run_fetches_stores_and_reports() {
    // No cache yet: the refresh decision must say "stale".
    let today = today_stamp();
    assert!(is_stale(None, &today));

    // Fetch (simulated) and extract the embedded schedule object.
    let page = "<html><head><script>var confData = \
{\"times\":[\"05:00\",\"13:00\",\"16:30\",\"19:45\",\"21:15\"],\"name\":\"Test\"};\
</script></head><body>{}</body></html>";
    let json = extract_conf(page).expect("extraction should succeed");

    // Persist, then read back: the stored text must be fresh and carry the
    // schedule through unchanged.
    let content = make_cache_content(&today, &json);
    let stamp = cache_stamp(&content);
    assert!(!is_stale(Some(&stamp), &today));
    let body = cache_rest(&content);
    assert_eq!(body, json);

    // Report from the cached schedule.
    let value: serde_json::Value = serde_json::from_str(&body).expect("cached body is JSON");
    let times: Vec<String> = value
        .get("times")
        .and_then(|v| v.as_array())
        .expect("times should be an array")
        .iter()
        .map(|v| v.as_str().unwrap().to_string())
        .collect();
    let schedule = flat_schedule(times);
    assert!(schedule.is_well_formed());
    let report = schedule.get_remaining_time(1, 1, 12, 0);
    assert_eq!(report, "01:00");

    // The countdown has the documented HH:MM shape.
    let bytes = report.as_bytes();
    assert_eq!(bytes.len(), 5);
    assert_eq!(bytes[2], b':');
    for i in [0, 1, 3, 4] {
        assert!(bytes[i].is_ascii_digit());
    }
}

#[test]
fn report_for_the_present_moment_has_a_clock_shape() {
    let schedule = flat_schedule(five_times());
    let report = schedule.remaining_time_now().expect("flat schedule always answers");
    let bytes = report.as_bytes();
    assert_eq!(bytes.len(), 5);
    assert_eq!(bytes[2], b':');
}

#[test]
fn missing_day_under_calendar_gives_no_report() {
    let mut months: Vec<MonthTimes> = Vec::new();
    for _ in 0..12 {
        months.push(empty_month());
    }
    months[0].days.push(DayTimes { day: 1, times: vec!["06:10".to_string()] });
    let mut schedule = flat_schedule(five_times());
    schedule.calendar = months;
    // Unless today happens to be January 1st, the calendar does not list
    // today, and the report for the present moment must refuse rather than
    // fall back to the flat list.
    let (day, month) = (1u8, 1u8);
    let listed = schedule.times_for_day(month, day).is_some();
    assert!(listed);
    assert!(schedule.times_for_day(2, 2).is_none());
}
