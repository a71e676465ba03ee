use iso_8601::timezone::{TimezoneParserState, TimezoneValues};

fn read(text: &[u8]) -> TimezoneValues {
    let mut values = TimezoneValues::default();
    values.parse(text, TimezoneParserState::Sign);
    values
}

fn offset(sign: bool, hours: i32, minutes: i32) -> TimezoneValues {
    TimezoneValues { sign, hours, minutes }
}

#[test]
fn default_offset_is_utc() {
    assert_eq!(TimezoneValues::default(), offset(true, 0, 0));
    assert_eq!(TimezoneValues::default().secs(), 0);
}

#[test]
fn seconds_of_an_offset() {
    assert_eq!(offset(true, 5, 0).secs(), 18_000);
    assert_eq!(offset(false, 5, 0).secs(), -18_000);
    assert_eq!(offset(true, 4, 30).secs(), 16_200);
    assert_eq!(offset(false, 4, 45).secs(), -17_100);
    assert_eq!(offset(true, 0, 30).secs(), 1_800);
    assert_eq!(offset(false, 0, 30).secs(), -1_800);
    assert_eq!(offset(true, 99, 99).secs(), 362_340);
    assert_eq!(offset(false, 99, 99).secs(), -362_340);
    assert_eq!(offset(true, 23, 59).secs(), 86_340);
}

#[test]
fn sign_hours_minutes() {
    assert_eq!(read(b"+05:00"), offset(true, 5, 0));
    assert_eq!(read(b"-05:00"), offset(false, 5, 0));
    assert_eq!(read(b"+04:30"), offset(true, 4, 30));
    assert_eq!(read(b"-04:30"), offset(false, 4, 30));
    assert_eq!(read(b"-0445"), offset(false, 4, 45));
    assert_eq!(read(b"+0430"), offset(true, 4, 30));
}

#[test]
fn colon_before_minutes_is_optional() {
    assert_eq!(read(b"+0500"), read(b"+05:00"));
    assert_eq!(read(b"-0445"), read(b"-04:45"));
    assert_eq!(read(b"+05::30"), offset(true, 5, 30));
    assert_eq!(read(b"+05:::::30"), read(b"+0530"));
}

#[test]
fn missing_minutes_are_zero() {
    assert_eq!(read(b"+05"), offset(true, 5, 0));
    assert_eq!(read(b"+05"), read(b"+05:00"));
    assert_eq!(read(b"-04"), read(b"-04:00"));
    assert_eq!(read(b"+05:"), offset(true, 5, 0));
    assert_eq!(read(b"+05:3"), offset(true, 5, 0));
    assert_eq!(read(b"+053"), offset(true, 5, 0));
    assert_eq!(read(b"+05:xx"), offset(true, 5, 0));
}

#[test]
fn no_sign_no_offset() {
    assert_eq!(read(b""), offset(true, 0, 0));
    assert_eq!(read(b"Z"), offset(true, 0, 0));
    assert_eq!(read(b"0500"), offset(true, 0, 0));
    assert_eq!(read(b" +05"), offset(true, 0, 0));
}

#[test]
fn sign_is_kept_when_hours_are_missing() {
    assert_eq!(read(b"-"), offset(false, 0, 0));
    assert_eq!(read(b"-5"), offset(false, 0, 0));
    assert_eq!(read(b"-xx30"), offset(false, 0, 0));
    assert_eq!(read(b"+"), offset(true, 0, 0));
}

#[test]
fn rest_behind_the_minutes_is_not_read() {
    assert_eq!(read(b"+05:30 and more"), offset(true, 5, 30));
    assert_eq!(read(b"-044599"), offset(false, 4, 45));
}

#[test]
fn hours_and_minutes_are_digits_only() {
    assert_eq!(read(b"+-5:30"), offset(true, 0, 0));
    assert_eq!(read(b"-+5:30"), offset(false, 0, 0));
    assert_eq!(read(b"++5+3"), offset(true, 0, 0));
    assert_eq!(read(b"-05-3"), offset(false, 5, 0));
    assert_eq!(read(b"-05+3"), offset(false, 5, 0));
    assert_eq!(read(b"+05:-3"), offset(true, 5, 0));
    assert_eq!(read(b"+24-1"), offset(true, 24, 0));
    assert_eq!(read(b"+ 5:30"), offset(true, 0, 0));
}

#[test]
fn parts_that_are_no_digits_change_nothing() {
    let mut values = offset(true, 0, 0);
    values.parse_hours(b"-5");
    assert_eq!(values, offset(true, 0, 0));

    let mut values = offset(true, 3, 0);
    values.parse_minutes(b"-5");
    assert_eq!(values, offset(true, 3, 0));

    let mut values = offset(false, 3, 7);
    values.parse_minutes(b"+5");
    assert_eq!(values, offset(false, 3, 7));

    let mut values = offset(false, 3, 7);
    values.parse_hours(b"+5");
    assert_eq!(values, offset(false, 3, 7));
}

#[test]
fn entering_at_a_later_part() {
    let mut values = offset(false, 7, 7);
    values.parse(b"0930", TimezoneParserState::Hours);
    assert_eq!(values, offset(false, 9, 30));

    let mut values = offset(false, 7, 7);
    values.parse(b":45", TimezoneParserState::Minutes);
    assert_eq!(values, offset(false, 7, 45));

    let mut values = offset(false, 7, 7);
    values.parse_hours(b"xx30");
    assert_eq!(values, offset(false, 7, 7));

    let mut values = offset(true, 1, 2);
    values.parse_sign(b"-1011");
    assert_eq!(values, offset(false, 10, 11));

    let mut values = offset(true, 1, 2);
    values.parse_minutes(b"");
    assert_eq!(values, offset(true, 1, 2));
}

#[test]
fn bytes_that_are_no_ascii() {
    assert_eq!(read("+05\u{e9}0".as_bytes()), offset(true, 5, 0));
    assert_eq!(read("+0\u{e9}".as_bytes()), offset(true, 0, 0));
    assert_eq!(read("\u{2212}05:00".as_bytes()), offset(true, 0, 0));
}
