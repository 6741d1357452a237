use photo_grid_print::clock::{timestamp_of, ClockReading};

fn reading(year: i32, month: u32, day: u32, hour: u32, minute: u32, second: u32, nanosecond: u32) -> ClockReading {
    ClockReading { year, month, day, hour, minute, second, nanosecond }
}

#[test]
fn timestamps_are_written_like_strftime() {
    assert_eq!(timestamp_of(&reading(2024, 1, 2, 3, 4, 5, 0)), "20240102_030405");
    assert_eq!(timestamp_of(&reading(2025, 12, 31, 23, 59, 59, 999_999_999)), "20251231_235959");
    assert_eq!(timestamp_of(&reading(999, 7, 8, 0, 0, 0, 0)), "09990708_000000");
    assert_eq!(timestamp_of(&reading(10000, 1, 1, 0, 0, 0, 0)), "+100000101_000000");
    assert_eq!(timestamp_of(&reading(-1, 1, 1, 0, 0, 0, 0)), "-00010101_000000");
    // a leap second shows as second 60
    assert_eq!(timestamp_of(&reading(2016, 12, 31, 23, 59, 59, 1_000_000_000)), "20161231_235960");
}

#[test]
fn timestamps_match_chrono() {
    let cases = [(2024, 1, 2, 3, 4, 5), (1999, 11, 30, 12, 0, 59), (5, 2, 28, 9, 9, 9), (2100, 6, 15, 18, 45, 30)];
    for (y, mo, d, h, mi, s) in cases {
        let dt = chrono::NaiveDate::from_ymd_opt(y, mo, d).unwrap().and_hms_opt(h, mi, s).unwrap();
        let expected = dt.format("%Y%m%d_%H%M%S").to_string();
        assert_eq!(timestamp_of(&reading(y, mo, d, h, mi, s, 0)), expected);
    }
}
