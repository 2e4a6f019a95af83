use voidframe::results::{parse_utc_timestamp, utc_timestamp_from_unix, utc_timestamp_now};

#[test]
fn parse_round_trips_now_to_second_precision() {
    let now = utc_timestamp_now();
    let back = parse_utc_timestamp(&now).unwrap();
    let real = std::time::SystemTime::now()
        .duration_since(std::time::UNIX_EPOCH)
        .unwrap()
        .as_secs();
    assert!(real.abs_diff(back) <= 2);
    assert_eq!(parse_utc_timestamp("2026-09-06T00:00:00Z").unwrap(), 1_788_652_800);
    assert!(parse_utc_timestamp("garbage").is_none());
}

#[test]
fn utc_timestamp_from_unix_matches_known_dates() {
    assert_eq!(utc_timestamp_from_unix(0), "1970-01-01T00:00:00Z");
    assert_eq!(utc_timestamp_from_unix(951_782_400), "2000-02-29T00:00:00Z");
    assert_eq!(utc_timestamp_from_unix(1_788_480_000), "2026-09-04T00:00:00Z");
    assert_eq!(utc_timestamp_from_unix(1_788_480_000 + 3_661), "2026-09-04T01:01:01Z");
}

#[test]
fn utc_timestamps_sort_lexicographically_in_time_order() {
    let a = utc_timestamp_from_unix(1_788_547_200);
    let b = utc_timestamp_from_unix(1_788_547_201);
    assert!(a < b);
}

#[test]
fn timestamps_sort_in_time_order_across_day_month_and_year_ends() {
    let times = [
        0u64, 59, 60, 3_599, 3_600, 86_399, 86_400, 951_782_399, 951_782_400, 951_868_800,
        946_684_799, 946_684_800, 4_102_444_799, 4_102_444_800,
    ];
    for a in times {
        for b in times {
            if a < b {
                assert!(utc_timestamp_from_unix(a) < utc_timestamp_from_unix(b), "{a} {b}");
            }
        }
    }
}

#[test]
fn parse_of_a_formatted_timestamp_gives_back_the_seconds() {
    for secs in [0u64, 59, 86_399, 86_400, 951_782_400, 1_788_652_800, 4_102_444_800] {
        assert_eq!(parse_utc_timestamp(&utc_timestamp_from_unix(secs)), Some(secs));
    }
}

#[test]
fn parse_rejects_malformed_fields() {
    assert_eq!(parse_utc_timestamp("2026-09-06T0x:00:00Z"), None);
    assert_eq!(parse_utc_timestamp("1969-12-31T23:59:59Z"), None);
    assert_eq!(parse_utc_timestamp("2026-09-06 00:00:00Z"), None);
    assert_eq!(parse_utc_timestamp("2026-09-06T00:00:00"), None);
    assert_eq!(parse_utc_timestamp(""), None);
    assert_eq!(parse_utc_timestamp("2024-02-29T12:00:00Z"), Some(1_709_208_000));
}

#[test]
fn parse_rejects_a_wrong_or_extra_trailing_character() {
    assert_eq!(parse_utc_timestamp("2026-09-06T00:00:00X"), None);
    assert_eq!(parse_utc_timestamp("2026-09-06T00:00:00Zjunk"), None);
    assert_eq!(parse_utc_timestamp("2026-09-06T00:00:00Z "), None);
    assert_eq!(parse_utc_timestamp("2026-09-06T00:00:00Z"), Some(1_788_652_800));
}
