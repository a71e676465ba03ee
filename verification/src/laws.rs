//! Laws of the timestamp grammar: what holds of every text, proved from the
//! way the fields are read.
//!
//! The laws speak of the record that a text is read into. The instant that
//! `parse_datetime` returns is a function of that record alone, so two texts
//! that are read into the same record name the same instant, or both none.
//! Texts are sequences of bytes; where a law takes a timestamp apart, its
//! parameters are the parts.

use crate::number::{
    all_digits, decimal, digits_number, digits_value, is_digit, lemma_digit_field,
    lemma_field_bounds, lemma_two_digits, magnitude, signed_number, ASCII_MINUS, ASCII_PLUS,
    ASCII_ZERO,
};
use crate::state::{DateTimeField, ParserPrefix, ParserState, ASCII_SPACE, ASCII_UPPER_T};
use crate::timezone::{two_digits, TimezoneParserState, TimezoneValues, ASCII_COLON};
use crate::values::DateTimeValues;
use vstd::prelude::*;

verus! {

/// A text of exactly four characters that denote a year names the first
/// instant of that year in UTC: the year is read, every other field keeps its
/// default, and the instant exists.
pub proof fn law_year_alone(text: Seq<u8>)
    requires
        text.len() == 4,
        signed_number(text).is_some(),
    ensures
        DateTimeValues::spec_from(text) == (DateTimeValues {
            year: signed_number(text).unwrap(),
            ..DateTimeValues::spec_default()
        }),
        DateTimeValues::spec_from(text).is_instant(),
{
    let start = DateTimeValues::spec_default();
    assert(text.subrange(0, 4) =~= text);
    assert(text.skip(4) =~= Seq::<u8>::empty());
    start.lemma_parsed_empty(ParserState::Month);
    lemma_field_bounds(text);
}

/// Where `head` consists exactly of the fields before `stop`, two texts that
/// begin with `head` are read the same if what follows `head` in each is
/// read the same from `stop` on.
pub proof fn law_same_rest(head: Seq<u8>, a: Seq<u8>, b: Seq<u8>, stop: ParserState)
    requires
        ParserState::Year.spans(head, stop),
        DateTimeValues::spec_default().parsed(a, stop) == DateTimeValues::spec_default().parsed(
            b,
            stop,
        ),
    ensures
        DateTimeValues::spec_from(head + a) == DateTimeValues::spec_from(head + b),
{
    let start = DateTimeValues::spec_default();
    start.lemma_parsed_split(head, a, ParserState::Year, stop);
    start.lemma_parsed_split(head, b, ParserState::Year, stop);
}

/// A timestamp cut off behind one of its fields is read as the whole one up
/// to that field, and keeps the defaults from there on: where `head` consists
/// exactly of the fields before `stop`, it gives the fields before `stop` as
/// any text that begins with it does.
pub proof fn law_prefix_at_boundary(head: Seq<u8>, rest: Seq<u8>, stop: ParserState)
    requires
        ParserState::Year.spans(head, stop),
    ensures
        DateTimeValues::spec_from(head) == DateTimeValues::spec_from(head + rest).until(
            stop,
            DateTimeValues::spec_default(),
        ),
{
    DateTimeValues::spec_default().lemma_parsed_split(head, rest, ParserState::Year, stop);
}

/// A timestamp cut off behind one of its fields names an instant if the
/// whole one does: where `head` consists exactly of the fields before `stop`
/// and a text that begins with `head` names an instant, `head` alone names
/// one too.
pub proof fn law_prefix_names_instant(head: Seq<u8>, rest: Seq<u8>, stop: ParserState)
    requires
        ParserState::Year.spans(head, stop),
        DateTimeValues::spec_from(head + rest).is_instant(),
    ensures
        DateTimeValues::spec_from(head).is_instant(),
{
    law_prefix_at_boundary(head, rest, stop);
}

/// A field that is found where its turn comes is stored: where `head`
/// consists exactly of the fields before `stop` and the field of `stop`
/// stands at the start of `text`, the record read from `head + text` holds
/// that field, and the fields before it as `head` alone gives them.
pub proof fn law_field_stored(head: Seq<u8>, text: Seq<u8>, stop: ParserState)
    requires
        ParserState::Year.spans(head, stop),
        stop.spec_field(text).is_some(),
    ensures
        DateTimeValues::spec_from(head + text) == DateTimeValues::spec_from(head + text).with(
            stop.spec_field(text).unwrap().0,
        ),
        DateTimeValues::spec_from(head + text) == DateTimeValues::spec_from(head).until(
            stop,
            DateTimeValues::spec_from(head + text),
        ),
{
    let start = DateTimeValues::spec_default();
    start.lemma_parsed_split(head, text, ParserState::Year, stop);
    stop.lemma_field_extends(text, Seq::<u8>::empty());
}

/// The separator that may be left out before the field of `state`, if the
/// field has one.
pub open spec fn optional_separator(state: ParserState) -> Option<u8> {
    match state.spec_prefix() {
        Some(ParserPrefix::Dash) => Some(ASCII_MINUS),
        Some(ParserPrefix::Colon) => Some(ASCII_COLON),
        _ => None,
    }
}

/// From the position of a field with an optional separator on, a text that
/// does not itself begin with the separator is read the same with the
/// separator put before it.
proof fn lemma_separator(values: DateTimeValues, rest: Seq<u8>, state: ParserState)
    requires
        optional_separator(state).is_some(),
        rest.len() == 0 || rest[0] != optional_separator(state).unwrap(),
    ensures
        values.parsed(seq![optional_separator(state).unwrap()] + rest, state) == values.parsed(
            rest,
            state,
        ),
{
    let text = seq![optional_separator(state).unwrap()] + rest;
    if rest.len() >= 2 {
        assert(text.subrange(1, 3) =~= rest.subrange(0, 2));
        assert(text.skip(3) =~= rest.skip(2));
    }
}

/// Before month, day, minute and second the separator is optional: behind
/// the fields before `stop`, a text that does not itself begin with the
/// separator is read the same with the separator put before it.
pub proof fn law_separator_optional(head: Seq<u8>, rest: Seq<u8>, stop: ParserState)
    requires
        ParserState::Year.spans(head, stop),
        optional_separator(stop).is_some(),
        rest.len() == 0 || rest[0] != optional_separator(stop).unwrap(),
    ensures
        DateTimeValues::spec_from(head + seq![optional_separator(stop).unwrap()] + rest)
            == DateTimeValues::spec_from(head + rest),
{
    let separated = seq![optional_separator(stop).unwrap()] + rest;
    lemma_separator(DateTimeValues::spec_default(), rest, stop);
    law_same_rest(head, separated, rest, stop);
    assert(head + seq![optional_separator(stop).unwrap()] + rest =~= head + separated);
}

/// Two texts that begin with the same complete field, separator included,
/// are read the same from `state` on if what follows the field in each is
/// read the same from the next position on.
proof fn lemma_same_field(
    values: DateTimeValues,
    state: ParserState,
    slot: Seq<u8>,
    a: Seq<u8>,
    b: Seq<u8>,
)
    requires
        state != ParserState::Timezone,
        slot.len() > 0,
        match state.spec_parse_from(slot) {
            Some(from) => from + state.spec_size() == slot.len(),
            None => true,
        },
        match state.spec_next() {
            Some(next) => values.parsed(a, next) == values.parsed(b, next),
            None => true,
        },
    ensures
        values.parsed(slot + a, state) == values.parsed(slot + b, state),
{
    let n = slot.len() as int;
    assert((slot + a)[0] == slot[0]);
    assert((slot + b)[0] == slot[0]);
    if let Some(from) = state.spec_parse_from(slot) {
        assert((slot + a).subrange(from as int, n) =~= (slot + b).subrange(from as int, n));
        assert((slot + a).skip(n) =~= a);
        assert((slot + b).skip(n) =~= b);
    }
}

/// The date law, with a different text after the day on each side.
proof fn lemma_basic_date(
    year: Seq<u8>,
    month: Seq<u8>,
    day: Seq<u8>,
    basic_rest: Seq<u8>,
    extended_rest: Seq<u8>,
)
    requires
        year.len() == 4,
        month.len() == 2,
        day.len() == 2,
        month[0] != ASCII_MINUS,
        day[0] != ASCII_MINUS,
        DateTimeValues::spec_default().parsed(basic_rest, ParserState::Hours)
            == DateTimeValues::spec_default().parsed(extended_rest, ParserState::Hours),
    ensures
        DateTimeValues::spec_from(year + month + day + basic_rest) == DateTimeValues::spec_from(
            year + seq![ASCII_MINUS] + month + seq![ASCII_MINUS] + day + extended_rest,
        ),
{
    let values = DateTimeValues::spec_default();
    let dash = seq![ASCII_MINUS];
    // From the day on.
    lemma_same_field(values, ParserState::Date, day, basic_rest, extended_rest);
    lemma_separator(values, day + extended_rest, ParserState::Date);
    // From the month on.
    lemma_same_field(
        values,
        ParserState::Month,
        month,
        day + basic_rest,
        dash + (day + extended_rest),
    );
    lemma_separator(values, month + (dash + (day + extended_rest)), ParserState::Month);
    // From the year on.
    lemma_same_field(
        values,
        ParserState::Year,
        year,
        month + (day + basic_rest),
        dash + (month + (dash + (day + extended_rest))),
    );
    assert(year + month + day + basic_rest =~= year + (month + (day + basic_rest)));
    assert(year + dash + month + dash + day + extended_rest =~= year + (dash + (month + (dash + (
        day + extended_rest)))));
}

/// The basic and the extended form of a date are read the same, whatever
/// follows the day: `YYYYMMDD` as `YYYY-MM-DD`.
pub proof fn law_basic_date(year: Seq<u8>, month: Seq<u8>, day: Seq<u8>, rest: Seq<u8>)
    requires
        year.len() == 4,
        month.len() == 2,
        day.len() == 2,
        month[0] != ASCII_MINUS,
        day[0] != ASCII_MINUS,
    ensures
        DateTimeValues::spec_from(year + month + day + rest) == DateTimeValues::spec_from(
            year + seq![ASCII_MINUS] + month + seq![ASCII_MINUS] + day + rest,
        ),
{
    lemma_basic_date(year, month, day, rest, rest);
}

/// The basic and the extended form of a time of day are read the same,
/// whatever follows the second: `hhmmss` as `hh:mm:ss`.
proof fn lemma_basic_time(
    values: DateTimeValues,
    mark: u8,
    hour: Seq<u8>,
    minute: Seq<u8>,
    second: Seq<u8>,
    rest: Seq<u8>,
)
    requires
        hour.len() == 2,
        minute.len() == 2,
        second.len() == 2,
        minute[0] != ASCII_COLON,
        second[0] != ASCII_COLON,
    ensures
        values.parsed(seq![mark] + hour + minute + second + rest, ParserState::Hours)
            == values.parsed(
            seq![mark] + hour + seq![ASCII_COLON] + minute + seq![ASCII_COLON] + second + rest,
            ParserState::Hours,
        ),
{
    let colon = seq![ASCII_COLON];
    // From the second on.
    lemma_separator(values, second + rest, ParserState::Seconds);
    // From the minute on.
    lemma_same_field(
        values,
        ParserState::Minutes,
        minute,
        second + rest,
        colon + (second + rest),
    );
    lemma_separator(values, minute + (colon + (second + rest)), ParserState::Minutes);
    // From the hour on.
    lemma_same_field(
        values,
        ParserState::Hours,
        seq![mark] + hour,
        minute + (second + rest),
        colon + (minute + (colon + (second + rest))),
    );
    assert(seq![mark] + hour + minute + second + rest =~= (seq![mark] + hour) + (minute + (second
        + rest)));
    assert(seq![mark] + hour + colon + minute + colon + second + rest =~= (seq![mark] + hour) + (
    colon + (minute + (colon + (second + rest)))));
}

/// The basic and the extended form of a timestamp are read the same,
/// whatever mark stands between date and time and whatever follows the
/// second: `YYYYMMDDThhmmss` as `YYYY-MM-DDThh:mm:ss`.
pub proof fn law_basic_timestamp(
    year: Seq<u8>,
    month: Seq<u8>,
    day: Seq<u8>,
    mark: u8,
    hour: Seq<u8>,
    minute: Seq<u8>,
    second: Seq<u8>,
    rest: Seq<u8>,
)
    requires
        year.len() == 4,
        month.len() == 2,
        day.len() == 2,
        hour.len() == 2,
        minute.len() == 2,
        second.len() == 2,
        month[0] != ASCII_MINUS,
        day[0] != ASCII_MINUS,
        minute[0] != ASCII_COLON,
        second[0] != ASCII_COLON,
    ensures
        DateTimeValues::spec_from(
            year + month + day + seq![mark] + hour + minute + second + rest,
        ) == DateTimeValues::spec_from(
            year + seq![ASCII_MINUS] + month + seq![ASCII_MINUS] + day + seq![mark] + hour + seq![
                ASCII_COLON,
            ] + minute + seq![ASCII_COLON] + second + rest,
        ),
{
    let dash = seq![ASCII_MINUS];
    let colon = seq![ASCII_COLON];
    let basic_time = seq![mark] + hour + minute + second + rest;
    let extended_time = seq![mark] + hour + colon + minute + colon + second + rest;
    lemma_basic_time(DateTimeValues::spec_default(), mark, hour, minute, second, rest);
    lemma_basic_date(year, month, day, basic_time, extended_time);
    assert(year + month + day + seq![mark] + hour + minute + second + rest =~= year + month + day
        + basic_time);
    assert(year + dash + month + dash + day + seq![mark] + hour + colon + minute + colon + second
        + rest =~= year + dash + month + dash + day + extended_time);
}

/// Whether `b` is one of the two marks that may stand between date and time.
pub open spec fn is_time_mark(b: u8) -> bool {
    b == ASCII_UPPER_T || b == ASCII_SPACE
}

/// Whether `a` and `b` are the same text but for which of the two marks
/// stands where: wherever they differ, one has `T` and the other a space.
pub open spec fn same_but_marks(a: Seq<u8>, b: Seq<u8>) -> bool {
    &&& a.len() == b.len()
    &&& forall|i: int|
        0 <= i < a.len() ==> #[trigger] a[i] == b[i] || (is_time_mark(a[i]) && is_time_mark(b[i]))
}

/// Every byte of a literal that denotes a number is a digit, but for a sign
/// in the first place.
proof fn lemma_decimal_bytes(s: Seq<u8>, i: int)
    requires
        decimal(s).is_some(),
        0 <= i < s.len(),
    ensures
        is_digit(s[i]) || (i == 0 && (s[0] == ASCII_PLUS || s[0] == ASCII_MINUS)),
{
    if s[0] == ASCII_PLUS || s[0] == ASCII_MINUS {
        if i > 0 {
            assert(s.skip(1)[i - 1] == s[i]);
        }
    }
}

/// Texts that differ only in marks denote the same number, or both none,
/// read as a year or as any other field.
proof fn lemma_marks_number(a: Seq<u8>, b: Seq<u8>)
    requires
        same_but_marks(a, b),
    ensures
        signed_number(a) == signed_number(b),
        digits_number(a) == digits_number(b),
{
    if decimal(a).is_some() {
        assert forall|i: int| 0 <= i < a.len() implies a[i] == b[i] by {
            lemma_decimal_bytes(a, i);
        }
        assert(a =~= b);
    } else if decimal(b).is_some() {
        assert forall|i: int| 0 <= i < a.len() implies a[i] == b[i] by {
            lemma_decimal_bytes(b, i);
        }
        assert(a =~= b);
    }
    if magnitude(a).is_some() {
        assert forall|i: int| 0 <= i < a.len() implies a[i] == b[i] by {
            assert(is_digit(a[i]));
        }
        assert(a =~= b);
    } else if magnitude(b).is_some() {
        assert forall|i: int| 0 <= i < a.len() implies a[i] == b[i] by {
            assert(is_digit(b[i]));
        }
        assert(a =~= b);
    }
}

/// Parts cut at the same place from texts that differ only in marks differ
/// only in marks.
proof fn lemma_marks_subrange(a: Seq<u8>, b: Seq<u8>, from: int, to: int)
    requires
        same_but_marks(a, b),
        0 <= from <= to <= a.len(),
    ensures
        same_but_marks(a.subrange(from, to), b.subrange(from, to)),
{
    let x = a.subrange(from, to);
    let y = b.subrange(from, to);
    assert forall|i: int| 0 <= i < x.len() implies #[trigger] x[i] == y[i] || (is_time_mark(x[i])
        && is_time_mark(y[i])) by {
        assert(x[i] == a[i + from]);
        assert(y[i] == b[i + from]);
    }
}

/// An offset is read the same from texts that differ only in marks.
proof fn lemma_marks_timezone(
    values: TimezoneValues,
    a: Seq<u8>,
    b: Seq<u8>,
    state: TimezoneParserState,
)
    requires
        same_but_marks(a, b),
    ensures
        values.parsed(a, state) == values.parsed(b, state),
    decreases a.len(),
{
    let n = a.len() as int;
    if n > 0 {
        assert(a[0] == b[0] || (is_time_mark(a[0]) && is_time_mark(b[0])));
    }
    match state {
        TimezoneParserState::Sign => {
            if n > 0 && (a[0] == ASCII_PLUS || a[0] == ASCII_MINUS) {
                lemma_marks_subrange(a, b, 1, n);
                lemma_marks_timezone(
                    TimezoneValues { sign: a[0] == ASCII_PLUS, ..values },
                    a.skip(1),
                    b.skip(1),
                    TimezoneParserState::Hours,
                );
            }
        },
        TimezoneParserState::Hours => {
            if n >= 2 {
                assert(a[1] == b[1] || (is_time_mark(a[1]) && is_time_mark(b[1])));
                if let Some(hours) = two_digits(a) {
                    lemma_marks_subrange(a, b, 2, n);
                    lemma_marks_timezone(
                        TimezoneValues { hours, ..values },
                        a.skip(2),
                        b.skip(2),
                        TimezoneParserState::Minutes,
                    );
                }
            }
        },
        TimezoneParserState::Minutes => {
            if n > 0 {
                if a[0] == ASCII_COLON {
                    lemma_marks_subrange(a, b, 1, n);
                    lemma_marks_timezone(values, a.skip(1), b.skip(1), state);
                } else if n >= 2 {
                    assert(a[1] == b[1] || (is_time_mark(a[1]) && is_time_mark(b[1])));
                }
            }
        },
    }
}

/// The fields are read the same from texts that differ only in marks.
proof fn lemma_marks_fields(values: DateTimeValues, a: Seq<u8>, b: Seq<u8>, state: ParserState)
    requires
        same_but_marks(a, b),
    ensures
        values.parsed(a, state) == values.parsed(b, state),
    decreases state.remaining(),
{
    let n = a.len() as int;
    if n > 0 {
        assert(a[0] == b[0] || (is_time_mark(a[0]) && is_time_mark(b[0])));
    }
    if state == ParserState::Timezone {
        lemma_marks_timezone(values.timezone, a, b, TimezoneParserState::Sign);
    } else if let Some(from) = state.spec_parse_from(a) {
        let end = from + state.spec_size();
        if end <= n {
            lemma_marks_subrange(a, b, from as int, end);
            lemma_marks_number(a.subrange(from as int, end), b.subrange(from as int, end));
            lemma_marks_subrange(a, b, end, n);
            lemma_marks_fields(values, a.skip(end), b.skip(end), state.spec_next().unwrap());
        }
    }
}

/// `T` and a space are interchangeable: two texts that differ only in which
/// of the two stands where are read the same.
pub proof fn law_mark_interchangeable(a: Seq<u8>, b: Seq<u8>)
    requires
        same_but_marks(a, b),
    ensures
        DateTimeValues::spec_from(a) == DateTimeValues::spec_from(b),
{
    lemma_marks_fields(DateTimeValues::spec_default(), a, b, ParserState::Year);
}

/// Whether every byte of `s` is a colon.
pub open spec fn all_colons(s: Seq<u8>) -> bool {
    forall|i: int| 0 <= i < s.len() ==> #[trigger] s[i] == ASCII_COLON
}

/// An offset whose sign, hours and minutes are all there: the sign, two
/// digits, any colons, two digits.
pub open spec fn offset_text(
    sign: u8,
    hours: Seq<u8>,
    colons: Seq<u8>,
    minutes: Seq<u8>,
) -> Seq<u8> {
    seq![sign] + hours + colons + minutes
}

/// Whether the four parts can make up an offset.
pub open spec fn is_offset_text(
    sign: u8,
    hours: Seq<u8>,
    colons: Seq<u8>,
    minutes: Seq<u8>,
) -> bool {
    &&& sign == ASCII_PLUS || sign == ASCII_MINUS
    &&& hours.len() == 2
    &&& all_digits(hours)
    &&& all_colons(colons)
    &&& minutes.len() == 2
    &&& all_digits(minutes)
}

/// Colons before the minutes of an offset are passed over.
proof fn lemma_minutes_after_colons(values: TimezoneValues, colons: Seq<u8>, rest: Seq<u8>)
    requires
        all_colons(colons),
    ensures
        values.parsed_minutes(colons + rest) == values.parsed_minutes(rest),
    decreases colons.len(),
{
    if colons.len() == 0 {
        assert(colons + rest =~= rest);
    } else {
        assert((colons + rest)[0] == colons[0]);
        assert((colons + rest).skip(1) =~= colons.skip(1) + rest);
        lemma_minutes_after_colons(values, colons.skip(1), rest);
    }
}

/// Reading the minutes of an offset changes nothing but the minutes.
proof fn lemma_minutes_only(values: TimezoneValues, text: Seq<u8>)
    ensures
        values.parsed_minutes(text) == (TimezoneValues {
            minutes: values.parsed_minutes(text).minutes,
            ..values
        }),
    decreases text.len(),
{
    if text.len() > 0 && text[0] == ASCII_COLON {
        lemma_minutes_only(values, text.skip(1));
    }
}

/// An offset is read as written, whatever follows it: `+` gives an offset to
/// the east and `-` one to the west, of as many hours and minutes as the
/// digits say.
proof fn lemma_offset_read(
    values: TimezoneValues,
    sign: u8,
    hours: Seq<u8>,
    colons: Seq<u8>,
    minutes: Seq<u8>,
    rest: Seq<u8>,
)
    requires
        is_offset_text(sign, hours, colons, minutes),
    ensures
        values.parsed_sign(offset_text(sign, hours, colons, minutes) + rest) == (TimezoneValues {
            sign: sign == ASCII_PLUS,
            hours: digits_value(hours) as i32,
            minutes: digits_value(minutes) as i32,
        }),
        digits_value(hours) <= 99,
        digits_value(minutes) <= 99,
{
    let text = offset_text(sign, hours, colons, minutes) + rest;
    let signed = TimezoneValues { sign: sign == ASCII_PLUS, ..values };
    let timed = TimezoneValues { hours: digits_value(hours) as i32, ..signed };
    lemma_digit_field(hours);
    lemma_digit_field(minutes);
    lemma_two_digits(hours);
    lemma_two_digits(minutes);
    assert(text.skip(1)[0] == hours[0] && text.skip(1)[1] == hours[1]);
    assert(text.skip(1).skip(2) =~= colons + (minutes + rest));
    lemma_minutes_after_colons(timed, colons, minutes + rest);
    assert((minutes + rest)[0] == minutes[0] && (minutes + rest)[1] == minutes[1]);
}

/// Colons between the hours and the minutes of an offset change nothing.
proof fn lemma_offset_colons(
    values: TimezoneValues,
    sign: u8,
    hours: Seq<u8>,
    colons: Seq<u8>,
    rest: Seq<u8>,
)
    requires
        hours.len() == 2,
        all_colons(colons),
    ensures
        values.parsed_sign(seq![sign] + hours + colons + rest) == values.parsed_sign(
            seq![sign] + hours + rest,
        ),
{
    let a = seq![sign] + hours + colons + rest;
    let b = seq![sign] + hours + rest;
    assert(a.skip(1)[0] == hours[0] && a.skip(1)[1] == hours[1]);
    assert(b.skip(1)[0] == hours[0] && b.skip(1)[1] == hours[1]);
    assert(a.skip(1).skip(2) =~= colons + rest);
    assert(b.skip(1).skip(2) =~= rest);
    let signed = TimezoneValues { sign: sign == ASCII_PLUS, ..values };
    if let Some(h) = two_digits(hours) {
        lemma_minutes_after_colons(TimezoneValues { hours: h, ..signed }, colons, rest);
    }
}

/// An offset that ends behind its hours keeps the minutes it had; minutes
/// `00` make them zero.
proof fn lemma_offset_zero_minutes(values: TimezoneValues, sign: u8, hours: Seq<u8>)
    requires
        hours.len() == 2,
        values.minutes == 0,
    ensures
        values.parsed_sign(seq![sign] + hours) == values.parsed_sign(
            seq![sign] + hours + seq![ASCII_ZERO, ASCII_ZERO],
        ),
{
    let a = seq![sign] + hours;
    let zeros = seq![ASCII_ZERO, ASCII_ZERO];
    let b = seq![sign] + hours + zeros;
    assert(a.skip(1)[0] == hours[0] && a.skip(1)[1] == hours[1]);
    assert(b.skip(1)[0] == hours[0] && b.skip(1)[1] == hours[1]);
    assert(a.skip(1).skip(2) =~= Seq::<u8>::empty());
    assert(b.skip(1).skip(2) =~= zeros);
    assert(two_digits(zeros) == Some(0i32));
}

/// Sign correctness of the offset: behind a timestamp that is complete up
/// to the second, `+hhmm` is read as an offset of `hh` hours and `mm` minutes
/// to the east and `-hhmm` as the same to the west, with or without colons
/// before the minutes and whatever follows them.
pub proof fn law_offset_sign(
    head: Seq<u8>,
    sign: u8,
    hours: Seq<u8>,
    colons: Seq<u8>,
    minutes: Seq<u8>,
    rest: Seq<u8>,
)
    requires
        ParserState::Year.spans(head, ParserState::Timezone),
        is_offset_text(sign, hours, colons, minutes),
    ensures
        DateTimeValues::spec_from(head + offset_text(sign, hours, colons, minutes) + rest)
            == (DateTimeValues {
            timezone: TimezoneValues {
                sign: sign == ASCII_PLUS,
                hours: digits_value(hours) as i32,
                minutes: digits_value(minutes) as i32,
            },
            ..DateTimeValues::spec_from(head)
        }),
        DateTimeValues::spec_from(
            head + offset_text(sign, hours, colons, minutes) + rest,
        ).timezone.total_seconds() == if sign == ASCII_PLUS {
            ((digits_value(hours) * 60 + digits_value(minutes)) * 60) as int
        } else {
            -((digits_value(hours) * 60 + digits_value(minutes)) * 60)
        },
{
    let start = DateTimeValues::spec_default();
    let zone = offset_text(sign, hours, colons, minutes) + rest;
    lemma_offset_read(start.timezone, sign, hours, colons, minutes, rest);
    start.lemma_parsed_split(head, zone, ParserState::Year, ParserState::Timezone);
    assert(head + offset_text(sign, hours, colons, minutes) + rest =~= head + zone);
}

/// Offset normalization: behind a timestamp that is complete up to the
/// second, an offset is read the same with or without colons before its
/// minutes, and an offset without minutes is read as one with minutes `00`.
pub proof fn law_offset_normal(
    head: Seq<u8>,
    sign: u8,
    hours: Seq<u8>,
    colons: Seq<u8>,
    rest: Seq<u8>,
)
    requires
        ParserState::Year.spans(head, ParserState::Timezone),
        hours.len() == 2,
        all_colons(colons),
    ensures
        DateTimeValues::spec_from(head + seq![sign] + hours + colons + rest)
            == DateTimeValues::spec_from(head + seq![sign] + hours + rest),
        DateTimeValues::spec_from(head + seq![sign] + hours) == DateTimeValues::spec_from(
            head + seq![sign] + hours + colons + seq![ASCII_ZERO, ASCII_ZERO],
        ),
{
    let start = DateTimeValues::spec_default();
    let with_colons = seq![sign] + hours + colons + rest;
    let without = seq![sign] + hours + rest;
    let short = seq![sign] + hours;
    let long = seq![sign] + hours + colons + seq![ASCII_ZERO, ASCII_ZERO];
    lemma_offset_colons(start.timezone, sign, hours, colons, rest);
    lemma_offset_colons(start.timezone, sign, hours, colons, seq![ASCII_ZERO, ASCII_ZERO]);
    lemma_offset_zero_minutes(start.timezone, sign, hours);
    law_same_rest(head, with_colons, without, ParserState::Timezone);
    law_same_rest(head, short, long, ParserState::Timezone);
    assert(head + seq![sign] + hours + colons + rest =~= head + with_colons);
    assert(head + seq![sign] + hours + rest =~= head + without);
    assert(head + seq![sign] + hours =~= head + short);
    assert(head + seq![sign] + hours + colons + seq![ASCII_ZERO, ASCII_ZERO] =~= head + long);
}

/// An offset cut off behind its hours is read as the whole one, but for the
/// minutes, which keep their default: behind a timestamp that is complete up
/// to the second, a sign and two bytes of hours give the sign and the hours
/// that any text that goes on from there gives.
pub proof fn law_offset_prefix(head: Seq<u8>, sign: u8, hours: Seq<u8>, rest: Seq<u8>)
    requires
        ParserState::Year.spans(head, ParserState::Timezone),
        hours.len() == 2,
    ensures
        DateTimeValues::spec_from(head + seq![sign] + hours) == (DateTimeValues {
            timezone: TimezoneValues {
                minutes: 0,
                ..DateTimeValues::spec_from(head + seq![sign] + hours + rest).timezone
            },
            ..DateTimeValues::spec_from(head + seq![sign] + hours + rest)
        }),
{
    let start = DateTimeValues::spec_default();
    let short = seq![sign] + hours;
    let long = seq![sign] + hours + rest;
    start.lemma_parsed_split(head, short, ParserState::Year, ParserState::Timezone);
    start.lemma_parsed_split(head, long, ParserState::Year, ParserState::Timezone);
    assert(head + seq![sign] + hours =~= head + short);
    assert(head + seq![sign] + hours + rest =~= head + long);
    assert(short.skip(1)[0] == hours[0] && short.skip(1)[1] == hours[1]);
    assert(long.skip(1)[0] == hours[0] && long.skip(1)[1] == hours[1]);
    assert(short.skip(1).skip(2) =~= Seq::<u8>::empty());
    let signed = TimezoneValues { sign: sign == ASCII_PLUS, ..start.timezone };
    if let Some(h) = two_digits(hours) {
        lemma_minutes_only(TimezoneValues { hours: h, ..signed }, long.skip(1).skip(2));
    }
}

/// An offset cut off behind its hours names an instant if the whole text
/// does: behind a timestamp that is complete up to the second, where a text
/// that goes on behind the hours of the offset names an instant, the text up
/// to these hours names one too.
pub proof fn law_offset_prefix_names_instant(
    head: Seq<u8>,
    sign: u8,
    hours: Seq<u8>,
    rest: Seq<u8>,
)
    requires
        ParserState::Year.spans(head, ParserState::Timezone),
        hours.len() == 2,
        DateTimeValues::spec_from(head + seq![sign] + hours + rest).is_instant(),
    ensures
        DateTimeValues::spec_from(head + seq![sign] + hours).is_instant(),
{
    law_offset_prefix(head, sign, hours, rest);
    DateTimeValues::spec_default().lemma_parsed_bounded(
        head + seq![sign] + hours + rest,
        ParserState::Year,
    );
}

/// Where a complete field of `state` stands before `rest`, the text is read
/// by reading `rest` from the next position on and storing the field, and it
/// consists of fields up to `stop` if `rest` does from the next position on.
proof fn lemma_field_first(
    values: DateTimeValues,
    state: ParserState,
    slot: Seq<u8>,
    rest: Seq<u8>,
    stop: ParserState,
)
    requires
        state.spec_field(slot).is_some(),
        state.spec_field(slot).unwrap().1 == slot.len(),
    ensures
        state.spec_next().is_some(),
        values.parsed(slot + rest, state) == values.parsed(
            rest,
            state.spec_next().unwrap(),
        ).with(state.spec_field(slot).unwrap().0),
        state != stop && state.spec_next().unwrap().spans(rest, stop) ==> state.spans(
            slot + rest,
            stop,
        ),
{
    state.lemma_field_extends(slot, rest);
    assert(slot.skip(slot.len() as int) + rest =~= rest);
}

/// Whether the parts can make up a timestamp: a year of four digits, the
/// other fields of two digits each, and `T` or a space between date and time.
pub open spec fn is_timestamp_text(
    year: Seq<u8>,
    month: Seq<u8>,
    day: Seq<u8>,
    mark: u8,
    hour: Seq<u8>,
    minute: Seq<u8>,
    second: Seq<u8>,
) -> bool {
    &&& year.len() == 4 && all_digits(year)
    &&& month.len() == 2 && all_digits(month)
    &&& day.len() == 2 && all_digits(day)
    &&& is_time_mark(mark)
    &&& hour.len() == 2 && all_digits(hour)
    &&& minute.len() == 2 && all_digits(minute)
    &&& second.len() == 2 && all_digits(second)
}

/// The timestamp in extended form: `YYYY-MM-DDThh:mm:ss`.
pub open spec fn timestamp_text(
    year: Seq<u8>,
    month: Seq<u8>,
    day: Seq<u8>,
    mark: u8,
    hour: Seq<u8>,
    minute: Seq<u8>,
    second: Seq<u8>,
) -> Seq<u8> {
    year + seq![ASCII_MINUS] + month + seq![ASCII_MINUS] + day + seq![mark] + hour + seq![
        ASCII_COLON,
    ] + minute + seq![ASCII_COLON] + second
}

/// A timestamp in extended form is read as written: it consists exactly of
/// the six fields before the offset, each field holds the number that its
/// digits give, and the offset is that of UTC.
pub proof fn law_timestamp_read(
    year: Seq<u8>,
    month: Seq<u8>,
    day: Seq<u8>,
    mark: u8,
    hour: Seq<u8>,
    minute: Seq<u8>,
    second: Seq<u8>,
)
    requires
        is_timestamp_text(year, month, day, mark, hour, minute, second),
    ensures
        ParserState::Year.spans(
            timestamp_text(year, month, day, mark, hour, minute, second),
            ParserState::Timezone,
        ),
        DateTimeValues::spec_from(timestamp_text(year, month, day, mark, hour, minute, second))
            == (DateTimeValues {
            year: digits_value(year) as i32,
            month: digits_value(month) as u32,
            date: digits_value(day) as u32,
            hours: digits_value(hour) as u32,
            minutes: digits_value(minute) as u32,
            seconds: digits_value(second) as u32,
            timezone: TimezoneValues::spec_default(),
        }),
{
    let start = DateTimeValues::spec_default();
    let stop = ParserState::Timezone;
    let none = Seq::<u8>::empty();
    let s6 = seq![ASCII_COLON] + second;
    let s5 = seq![ASCII_COLON] + minute;
    let s4 = seq![mark] + hour;
    let s3 = seq![ASCII_MINUS] + day;
    let s2 = seq![ASCII_MINUS] + month;
    lemma_digit_field(year);
    lemma_digit_field(month);
    lemma_digit_field(day);
    lemma_digit_field(hour);
    lemma_digit_field(minute);
    lemma_digit_field(second);
    assert(s6.subrange(1, 3) =~= second);
    assert(s5.subrange(1, 3) =~= minute);
    assert(s4.subrange(1, 3) =~= hour);
    assert(s3.subrange(1, 3) =~= day);
    assert(s2.subrange(1, 3) =~= month);
    assert(year.subrange(0, 4) =~= year);
    start.lemma_parsed_empty(stop);
    lemma_field_first(start, ParserState::Seconds, s6, none, stop);
    lemma_field_first(start, ParserState::Minutes, s5, s6 + none, stop);
    lemma_field_first(start, ParserState::Hours, s4, s5 + (s6 + none), stop);
    lemma_field_first(start, ParserState::Date, s3, s4 + (s5 + (s6 + none)), stop);
    lemma_field_first(start, ParserState::Month, s2, s3 + (s4 + (s5 + (s6 + none))), stop);
    lemma_field_first(
        start,
        ParserState::Year,
        year,
        s2 + (s3 + (s4 + (s5 + (s6 + none)))),
        stop,
    );
    assert(timestamp_text(year, month, day, mark, hour, minute, second) =~= year + (s2 + (s3 + (s4
        + (s5 + (s6 + none))))));
}

/// A month that is not one of the twelve gives no instant: where a month
/// outside `1..=12` stands behind the year, the text names no instant,
/// whatever follows.
pub proof fn law_month_out_of_range(year: Seq<u8>, text: Seq<u8>)
    requires
        year.len() == 4,
        signed_number(year).is_some(),
        ParserState::Month.spec_field(text) matches Some((DateTimeField::Month(m), _)) && !(1 <= m
            <= 12),
    ensures
        !DateTimeValues::spec_from(year + text).is_instant(),
{
    let start = DateTimeValues::spec_default();
    assert(year.subrange(0, 4) =~= year);
    start.lemma_parsed_empty(ParserState::Month);
    lemma_field_first(
        start,
        ParserState::Year,
        year,
        Seq::<u8>::empty(),
        ParserState::Month,
    );
    assert(year + Seq::<u8>::empty() =~= year);
    law_field_stored(year, text, ParserState::Month);
}

/// An offset of a day or more gives no instant: where an offset of 24 hours
/// or more, to either side, stands behind a timestamp that is complete up to
/// the second, the text names no instant.
pub proof fn law_offset_out_of_range(
    head: Seq<u8>,
    sign: u8,
    hours: Seq<u8>,
    colons: Seq<u8>,
    minutes: Seq<u8>,
    rest: Seq<u8>,
)
    requires
        ParserState::Year.spans(head, ParserState::Timezone),
        is_offset_text(sign, hours, colons, minutes),
        digits_value(hours) * 60 + digits_value(minutes) >= 24 * 60,
    ensures
        !DateTimeValues::spec_from(
            head + offset_text(sign, hours, colons, minutes) + rest,
        ).is_instant(),
{
    law_offset_sign(head, sign, hours, colons, minutes, rest);
}

} // verus!
