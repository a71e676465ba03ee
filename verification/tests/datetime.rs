use chrono::{DateTime, FixedOffset};
use iso_8601::instant::Instant;
use iso_8601::parse_datetime;

fn datetime(instant: Instant) -> DateTime<FixedOffset> {
    DateTime::from_naive_utc_and_offset(instant.utc, instant.offset)
}

fn chrono_datetime(text: &str) -> DateTime<FixedOffset> {
    DateTime::parse_from_rfc3339(text).unwrap()
}

#[test]
fn test_parse_datetime_from_file() {
    let values = vec![
        // Year
        ("2024", "2024-01-01T00:00:00Z"),
        // Month
        ("2024-02", "2024-02-01T00:00:00Z"),
        ("202402", "2024-02-01T00:00:00Z"),
        // Date
        ("2024-02-11", "2024-02-11T00:00:00Z"),
        ("20240211", "2024-02-11T00:00:00Z"),
        // Hours
        ("2024-02-11T14", "2024-02-11T14:00:00Z"),
        ("2024-02-11 14", "2024-02-11T14:00:00Z"),
        // Minutes
        ("2024-02-11T14:15", "2024-02-11T14:15:00Z"),
        ("2024-02-11 14:15", "2024-02-11T14:15:00Z"),
        // Seconds
        ("2024-02-11T14:15:45", "2024-02-11T14:15:45Z"),
        ("2024-02-11 14:15:45", "2024-02-11T14:15:45Z"),
        // Timezone
        ("2024-02-11T14:15:45+05:00", "2024-02-11T14:15:45+05:00"),
        ("2024-02-11T14:15:45-05:00", "2024-02-11T14:15:45-05:00"),
        ("2024-02-11T14:15:45+04:30", "2024-02-11T14:15:45+04:30"),
        ("2024-02-11T14:15:45+04:30", "2024-02-11T14:15:45+04:30"),
        ("2024-02-11T14:15:45-04:30", "2024-02-11T14:15:45-04:30"),
        ("2024-02-11T14:15:45+0500", "2024-02-11T14:15:45+05:00"),
        ("2024-02-11T14:15:45-0445", "2024-02-11T14:15:45-04:45"),
        ("2024-02-11T14:15:45+05", "2024-02-11T14:15:45+05:00"),
        ("2024-02-11T14:15:45-04", "2024-02-11T14:15:45-04:00"),
        ("2024-02-11T14:15:45+00:30", "2024-02-11T14:15:45+00:30"),
        ("2024-02-11T14:15:45-00:30", "2024-02-11T14:15:45-00:30"),
    ];

    for (index, (input, expected)) in values.iter().enumerate() {
        let result = datetime(parse_datetime(input).unwrap());
        assert_eq!(
            result,
            chrono_datetime(expected),
            "Failed to parse date #{index} \"{}\": expected \"{}\" but got \"{}\"",
            input,
            expected,
            result
        );
    }
}
