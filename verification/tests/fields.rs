use iso_8601::state::{DateTimeField, ParserPrefix, ParserState};
use iso_8601::timezone::TimezoneValues;
use iso_8601::values::DateTimeValues;

fn utc() -> TimezoneValues {
    TimezoneValues { sign: true, hours: 0, minutes: 0 }
}

fn record(
    year: i32,
    month: u32,
    date: u32,
    hours: u32,
    minutes: u32,
    seconds: u32,
    timezone: TimezoneValues,
) -> DateTimeValues {
    DateTimeValues { year, month, date, hours, minutes, seconds, timezone }
}

#[test]
fn default_record() {
    assert_eq!(DateTimeValues::default(), record(1970, 1, 1, 0, 0, 0, utc()));
}

#[test]
fn positions_follow_each_other() {
    assert_eq!(ParserState::Year.next(), Some(ParserState::Month));
    assert_eq!(ParserState::Month.next(), Some(ParserState::Date));
    assert_eq!(ParserState::Date.next(), Some(ParserState::Hours));
    assert_eq!(ParserState::Hours.next(), Some(ParserState::Minutes));
    assert_eq!(ParserState::Minutes.next(), Some(ParserState::Seconds));
    assert_eq!(ParserState::Seconds.next(), Some(ParserState::Timezone));
    assert_eq!(ParserState::Timezone.next(), None);
}

#[test]
fn widths() {
    assert_eq!(ParserState::Year.size(), 4);
    assert_eq!(ParserState::Month.size(), 2);
    assert_eq!(ParserState::Date.size(), 2);
    assert_eq!(ParserState::Hours.size(), 2);
    assert_eq!(ParserState::Minutes.size(), 2);
    assert_eq!(ParserState::Seconds.size(), 2);
    assert_eq!(ParserState::Timezone.size(), 1);
}

#[test]
fn separators() {
    assert_eq!(ParserState::Year.prefix(), None);
    assert_eq!(ParserState::Month.prefix(), Some(ParserPrefix::Dash));
    assert_eq!(ParserState::Date.prefix(), Some(ParserPrefix::Dash));
    assert_eq!(ParserState::Hours.prefix(), Some(ParserPrefix::T));
    assert_eq!(ParserState::Minutes.prefix(), Some(ParserPrefix::Colon));
    assert_eq!(ParserState::Seconds.prefix(), Some(ParserPrefix::Colon));
    assert_eq!(ParserState::Timezone.prefix(), None);
}

#[test]
fn where_a_field_begins() {
    assert_eq!(ParserState::Year.parse_from(b"2024"), Some(0));
    assert_eq!(ParserState::Year.parse_from(b""), Some(0));
    assert_eq!(ParserState::Month.parse_from(b"-02"), Some(1));
    assert_eq!(ParserState::Month.parse_from(b"02"), Some(0));
    assert_eq!(ParserState::Month.parse_from(b""), None);
    assert_eq!(ParserState::Date.parse_from(b"-"), Some(1));
    assert_eq!(ParserState::Hours.parse_from(b"T14"), Some(1));
    assert_eq!(ParserState::Hours.parse_from(b" 14"), Some(1));
    assert_eq!(ParserState::Hours.parse_from(b"14"), None);
    assert_eq!(ParserState::Hours.parse_from(b"t14"), None);
    assert_eq!(ParserState::Hours.parse_from(b""), None);
    assert_eq!(ParserState::Minutes.parse_from(b":15"), Some(1));
    assert_eq!(ParserState::Minutes.parse_from(b"15"), Some(0));
    assert_eq!(ParserState::Seconds.parse_from(b""), None);
    assert_eq!(ParserState::Timezone.parse_from(b"+05"), Some(0));
}

#[test]
fn field_values() {
    assert_eq!(ParserState::Year.parse(b"2024"), Some(DateTimeField::Year(2024)));
    assert_eq!(ParserState::Year.parse(b"-044"), Some(DateTimeField::Year(-44)));
    assert_eq!(ParserState::Year.parse(b"+044"), Some(DateTimeField::Year(44)));
    assert_eq!(ParserState::Year.parse(b"20x4"), None);
    assert_eq!(ParserState::Month.parse(b"02"), Some(DateTimeField::Month(2)));
    assert_eq!(ParserState::Month.parse(b"13"), Some(DateTimeField::Month(13)));
    assert_eq!(ParserState::Month.parse(b"-2"), None);
    assert_eq!(ParserState::Month.parse(b"+2"), None);
    assert_eq!(ParserState::Date.parse(b"+2"), None);
    assert_eq!(ParserState::Hours.parse(b"+2"), None);
    assert_eq!(ParserState::Minutes.parse(b"+2"), None);
    assert_eq!(ParserState::Seconds.parse(b"+2"), None);
    assert_eq!(ParserState::Seconds.parse(b"-2"), None);
    assert_eq!(ParserState::Date.parse(b"31"), Some(DateTimeField::Date(31)));
    assert_eq!(ParserState::Hours.parse(b"14"), Some(DateTimeField::Hours(14)));
    assert_eq!(ParserState::Minutes.parse(b"15"), Some(DateTimeField::Minutes(15)));
    assert_eq!(ParserState::Seconds.parse(b"45"), Some(DateTimeField::Seconds(45)));
    assert_eq!(ParserState::Seconds.parse(b"4"), Some(DateTimeField::Seconds(4)));
    assert_eq!(ParserState::Seconds.parse(b""), None);
    assert_eq!(ParserState::Timezone.parse(b"+"), None);
    assert_eq!(ParserState::Timezone.parse(b"05"), None);
}

#[test]
fn storing_a_field() {
    let mut values = DateTimeValues::default();
    values.set(DateTimeField::Year(2024));
    assert_eq!(values, record(2024, 1, 1, 0, 0, 0, utc()));
    values.set(DateTimeField::Month(2));
    assert_eq!(values, record(2024, 2, 1, 0, 0, 0, utc()));
    values.set(DateTimeField::Date(11));
    assert_eq!(values, record(2024, 2, 11, 0, 0, 0, utc()));
    values.set(DateTimeField::Hours(14));
    assert_eq!(values, record(2024, 2, 11, 14, 0, 0, utc()));
    values.set(DateTimeField::Minutes(15));
    assert_eq!(values, record(2024, 2, 11, 14, 15, 0, utc()));
    values.set(DateTimeField::Seconds(45));
    assert_eq!(values, record(2024, 2, 11, 14, 15, 45, utc()));
    let west = TimezoneValues { sign: false, hours: 4, minutes: 45 };
    values.set(DateTimeField::Timezone(west));
    assert_eq!(values, record(2024, 2, 11, 14, 15, 45, west));
}

#[test]
fn reading_a_whole_timestamp() {
    let east = TimezoneValues { sign: true, hours: 4, minutes: 30 };
    assert_eq!(
        DateTimeValues::from("2024-02-11T14:15:45+04:30"),
        record(2024, 2, 11, 14, 15, 45, east)
    );
    assert_eq!(
        DateTimeValues::from("20240211T141545+0430"),
        record(2024, 2, 11, 14, 15, 45, east)
    );
    assert_eq!(
        DateTimeValues::from("1999-12-31 23:59:59"),
        record(1999, 12, 31, 23, 59, 59, utc())
    );
}

#[test]
fn reading_stops_at_the_first_field_that_fails() {
    assert_eq!(DateTimeValues::from(""), DateTimeValues::default());
    assert_eq!(DateTimeValues::from("202"), DateTimeValues::default());
    assert_eq!(DateTimeValues::from("next year"), DateTimeValues::default());
    assert_eq!(DateTimeValues::from("2024-"), record(2024, 1, 1, 0, 0, 0, utc()));
    assert_eq!(DateTimeValues::from("2024-2"), record(2024, 1, 1, 0, 0, 0, utc()));
    assert_eq!(DateTimeValues::from("2024-xx-11"), record(2024, 1, 1, 0, 0, 0, utc()));
    assert_eq!(DateTimeValues::from("2024-02-1"), record(2024, 2, 1, 0, 0, 0, utc()));
    assert_eq!(DateTimeValues::from("2024-02-11T1"), record(2024, 2, 11, 0, 0, 0, utc()));
    assert_eq!(DateTimeValues::from("2024-02-11T14:1"), record(2024, 2, 11, 14, 0, 0, utc()));
    assert_eq!(
        DateTimeValues::from("2024-02-11T14:15:4"),
        record(2024, 2, 11, 14, 15, 0, utc())
    );
    assert_eq!(
        DateTimeValues::from("2024-02-11T14:15:45Z"),
        record(2024, 2, 11, 14, 15, 45, utc())
    );
}

#[test]
fn mark_before_the_hour_is_required() {
    assert_eq!(DateTimeValues::from("202402111415"), record(2024, 2, 11, 0, 0, 0, utc()));
    assert_eq!(DateTimeValues::from("2024-02-11t14"), record(2024, 2, 11, 0, 0, 0, utc()));
    assert_eq!(DateTimeValues::from("2024-02-11_14"), record(2024, 2, 11, 0, 0, 0, utc()));
}

#[test]
fn offset_is_read_only_behind_the_second() {
    assert_eq!(DateTimeValues::from("2024-02-11+05:00"), record(2024, 2, 11, 0, 0, 0, utc()));
    assert_eq!(
        DateTimeValues::from("2024-02-11T14:15+15:00"),
        record(2024, 2, 11, 14, 15, 0, utc())
    );
    assert_eq!(DateTimeValues::from("2024+05"), record(2024, 1, 1, 0, 0, 0, utc()));
    assert_eq!(DateTimeValues::from("2024+5-05"), record(2024, 1, 1, 0, 0, 0, utc()));
}

#[test]
fn separators_may_be_mixed() {
    assert_eq!(DateTimeValues::from("2024-0211"), record(2024, 2, 11, 0, 0, 0, utc()));
    assert_eq!(DateTimeValues::from("202402-11"), record(2024, 2, 11, 0, 0, 0, utc()));
    assert_eq!(
        DateTimeValues::from("2024-02-11T1415:45"),
        record(2024, 2, 11, 14, 15, 45, utc())
    );
    assert_eq!(
        DateTimeValues::from("20240211 14:1545"),
        record(2024, 2, 11, 14, 15, 45, utc())
    );
}

#[test]
fn only_one_separator_is_passed() {
    assert_eq!(DateTimeValues::from("2024--02"), record(2024, 1, 1, 0, 0, 0, utc()));
    assert_eq!(DateTimeValues::from("2024-02-11T14::15"), record(2024, 2, 11, 14, 0, 0, utc()));
    assert_eq!(DateTimeValues::from("2024-02-11TT14"), record(2024, 2, 11, 0, 0, 0, utc()));
}

#[test]
fn only_the_year_takes_a_sign() {
    assert_eq!(DateTimeValues::from("-044-03-15"), record(-44, 3, 15, 0, 0, 0, utc()));
    assert_eq!(DateTimeValues::from("+044-03-15"), record(44, 3, 15, 0, 0, 0, utc()));
    assert_eq!(DateTimeValues::from("2024+3+5"), record(2024, 1, 1, 0, 0, 0, utc()));
    assert_eq!(DateTimeValues::from("2024-+3"), record(2024, 1, 1, 0, 0, 0, utc()));
    assert_eq!(DateTimeValues::from("2024--3"), record(2024, 1, 1, 0, 0, 0, utc()));
    assert_eq!(DateTimeValues::from("2024-03+5"), record(2024, 3, 1, 0, 0, 0, utc()));
    assert_eq!(DateTimeValues::from("2024-03-15T+5"), record(2024, 3, 15, 0, 0, 0, utc()));
    assert_eq!(DateTimeValues::from("2024-03-15T05:+5"), record(2024, 3, 15, 5, 0, 0, utc()));
    assert_eq!(
        DateTimeValues::from("2024-03-15T05:06:+5"),
        record(2024, 3, 15, 5, 6, 0, utc())
    );
}

#[test]
fn values_out_of_the_calendar_are_stored_as_read() {
    assert_eq!(DateTimeValues::from("2024-13-32"), record(2024, 13, 32, 0, 0, 0, utc()));
    assert_eq!(DateTimeValues::from("0000-00-00"), record(0, 0, 0, 0, 0, 0, utc()));
    assert_eq!(
        DateTimeValues::from("9999-99-99T99:99:99+99:99"),
        record(9999, 99, 99, 99, 99, 99, TimezoneValues { sign: true, hours: 99, minutes: 99 })
    );
}

#[test]
fn text_that_is_not_ascii() {
    assert_eq!(DateTimeValues::from("2024\u{e9}02"), record(2024, 1, 1, 0, 0, 0, utc()));
    assert_eq!(DateTimeValues::from("\u{e9}2024"), DateTimeValues::default());
    assert_eq!(DateTimeValues::from("202\u{e9}"), DateTimeValues::default());
    assert_eq!(DateTimeValues::from("2024-0\u{e9}"), record(2024, 1, 1, 0, 0, 0, utc()));
    assert_eq!(
        DateTimeValues::from("2024-02-11\u{2009}14"),
        record(2024, 2, 11, 0, 0, 0, utc())
    );
}

#[test]
fn entering_at_a_later_position() {
    let mut values = DateTimeValues::default();
    values.parse(b"-11T14", &ParserState::Date);
    assert_eq!(values, record(1970, 1, 11, 14, 0, 0, utc()));

    let mut values = DateTimeValues::default();
    values.parse(b"-0445", &ParserState::Timezone);
    assert_eq!(
        values,
        record(1970, 1, 1, 0, 0, 0, TimezoneValues { sign: false, hours: 4, minutes: 45 })
    );

    let mut values = DateTimeValues::default();
    values.parse_state(b"-0445", &ParserState::Timezone);
    assert_eq!(values, DateTimeValues::default());

    let mut values = record(2000, 2, 3, 4, 5, 6, utc());
    values.parse_state(b":30:xx", &ParserState::Minutes);
    assert_eq!(values, record(2000, 2, 3, 4, 30, 6, utc()));
}
