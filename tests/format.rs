use migemo_everything::format::{format_date, format_size, format_with_commas, CalendarTime};

#[test]
fn commas_small_numbers() {
    assert_eq!(format_with_commas(0), "0");
    assert_eq!(format_with_commas(7), "7");
    assert_eq!(format_with_commas(999), "999");
}

#[test]
fn commas_grouping() {
    assert_eq!(format_with_commas(1000), "1,000");
    assert_eq!(format_with_commas(123456), "123,456");
    assert_eq!(format_with_commas(1234567), "1,234,567");
    assert_eq!(format_with_commas(u64::MAX), "18,446,744,073,709,551,615");
}

#[test]
fn size_rounds_up_to_kilobytes() {
    assert_eq!(format_size(0), "");
    assert_eq!(format_size(1), "1 KB");
    assert_eq!(format_size(1024), "1 KB");
    assert_eq!(format_size(1025), "2 KB");
    assert_eq!(format_size(1024 * 1024 * 1024), "1,048,576 KB");
}

#[test]
fn size_of_largest_file() {
    assert_eq!(format_size(u64::MAX), "18,014,398,509,481,984 KB");
}

#[test]
fn date_text() {
    let t = CalendarTime { year: 2024, month: 3, day: 5, hour: 7, minute: 9 };
    assert_eq!(format_date(133_539_000_000_000_000, Some(t)), "2024-03-05 07:09");
    let t = CalendarTime { year: 987, month: 12, day: 31, hour: 23, minute: 59 };
    assert_eq!(format_date(1, Some(t)), "0987-12-31 23:59");
}

#[test]
fn date_missing() {
    let t = CalendarTime { year: 2024, month: 3, day: 5, hour: 7, minute: 9 };
    assert_eq!(format_date(0, Some(t)), "");
    assert_eq!(format_date(42, None), "");
}
