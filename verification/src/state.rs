//! The positions of the field parser: which field is read next, how wide it
//! is, which separator may stand before it and how its text is read.

use crate::number::{digits_number, parse_digits, parse_signed, signed_number, ASCII_MINUS};
use crate::timezone::{TimezoneValues, ASCII_COLON};
use vstd::prelude::*;

verus! {

/// The byte `T`.
pub const ASCII_UPPER_T: u8 = 84;

/// The byte of a space.
pub const ASCII_SPACE: u8 = 32;

/// One field with the value that was read for it.
#[derive(Clone, Copy, Debug, PartialEq, Eq, Structural)]
pub enum DateTimeField {
    Year(i32),
    Month(u32),
    Date(u32),
    Hours(u32),
    Minutes(u32),
    Seconds(u32),
    Timezone(TimezoneValues),
}

/// Position of the field parser: the field that is read next.
#[derive(Clone, Copy, Debug, PartialEq, Eq, Structural)]
pub enum ParserState {
    Year,
    Month,
    Date,
    Hours,
    Minutes,
    Seconds,
    Timezone,
}

/// The separator that may stand before a field.
#[derive(Clone, Copy, Debug, PartialEq, Eq, Structural)]
pub enum ParserPrefix {
    /// `-`, before month and day; it may be left out.
    Dash,
    /// `:`, before minute and second; it may be left out.
    Colon,
    /// `T` or a space, before the hour; one of them must be there.
    T,
}

impl ParserState {
    /// Number of fields that come after this one.
    pub open spec fn remaining(self) -> nat {
        match self {
            ParserState::Year => 6,
            ParserState::Month => 5,
            ParserState::Date => 4,
            ParserState::Hours => 3,
            ParserState::Minutes => 2,
            ParserState::Seconds => 1,
            ParserState::Timezone => 0,
        }
    }

    /// The position after this one; the offset is the last.
    pub open spec fn spec_next(self) -> Option<ParserState> {
        match self {
            ParserState::Year => Some(ParserState::Month),
            ParserState::Month => Some(ParserState::Date),
            ParserState::Date => Some(ParserState::Hours),
            ParserState::Hours => Some(ParserState::Minutes),
            ParserState::Minutes => Some(ParserState::Seconds),
            ParserState::Seconds => Some(ParserState::Timezone),
            ParserState::Timezone => None,
        }
    }

    /// The width of the field in bytes: four for the year, two for the
    /// other fields, and one, the sign, for the offset.
    pub open spec fn spec_size(self) -> nat {
        match self {
            ParserState::Year => 4,
            ParserState::Timezone => 1,
            _ => 2,
        }
    }

    /// The separator that may stand before the field; year and offset have
    /// none.
    pub open spec fn spec_prefix(self) -> Option<ParserPrefix> {
        match self {
            ParserState::Month | ParserState::Date => Some(ParserPrefix::Dash),
            ParserState::Hours => Some(ParserPrefix::T),
            ParserState::Minutes | ParserState::Seconds => Some(ParserPrefix::Colon),
            _ => None,
        }
    }

    /// The field that `text`, taken whole, denotes at this position. A year
    /// may carry a sign, the other fields are digits only; the offset is not
    /// read this way.
    pub open spec fn spec_parse(self, text: Seq<u8>) -> Option<DateTimeField> {
        match self {
            ParserState::Year => match signed_number(text) {
                Some(v) => Some(DateTimeField::Year(v)),
                None => None,
            },
            ParserState::Month => match digits_number(text) {
                Some(v) => Some(DateTimeField::Month(v)),
                None => None,
            },
            ParserState::Date => match digits_number(text) {
                Some(v) => Some(DateTimeField::Date(v)),
                None => None,
            },
            ParserState::Hours => match digits_number(text) {
                Some(v) => Some(DateTimeField::Hours(v)),
                None => None,
            },
            ParserState::Minutes => match digits_number(text) {
                Some(v) => Some(DateTimeField::Minutes(v)),
                None => None,
            },
            ParserState::Seconds => match digits_number(text) {
                Some(v) => Some(DateTimeField::Seconds(v)),
                None => None,
            },
            ParserState::Timezone => None,
        }
    }

    /// The index in `text` at which this field's characters begin, or `None`
    /// where the field cannot begin at all: 1 behind a separator, 0 where an
    /// optional one is absent or none is expected.
    pub open spec fn spec_parse_from(self, text: Seq<u8>) -> Option<usize> {
        match self.spec_prefix() {
            Some(ParserPrefix::Dash) => if text.len() == 0 {
                None
            } else if text[0] == ASCII_MINUS {
                Some(1)
            } else {
                Some(0)
            },
            Some(ParserPrefix::Colon) => if text.len() == 0 {
                None
            } else if text[0] == ASCII_COLON {
                Some(1)
            } else {
                Some(0)
            },
            Some(ParserPrefix::T) => if text.len() > 0 && (text[0] == ASCII_UPPER_T || text[0]
                == ASCII_SPACE) {
                Some(1)
            } else {
                None
            },
            None => Some(0),
        }
    }

    /// The field read at the start of `text`, with the index behind it: the
    /// separator is passed, then exactly `spec_size` bytes must denote the
    /// field's value.
    pub open spec fn spec_field(self, text: Seq<u8>) -> Option<(DateTimeField, int)> {
        match self.spec_parse_from(text) {
            Some(from) => {
                let end = from + self.spec_size();
                if end <= text.len() {
                    match self.spec_parse(text.subrange(from as int, end)) {
                        Some(field) => Some((field, end)),
                        None => None,
                    }
                } else {
                    None
                }
            },
            None => None,
        }
    }

    /// Whether `field` is the field that is read at this position.
    pub open spec fn holds(self, field: DateTimeField) -> bool {
        match self {
            ParserState::Year => field is Year,
            ParserState::Month => field is Month,
            ParserState::Date => field is Date,
            ParserState::Hours => field is Hours,
            ParserState::Minutes => field is Minutes,
            ParserState::Seconds => field is Seconds,
            ParserState::Timezone => field is Timezone,
        }
    }

    /// Whether `text` consists exactly of the fields from this position up to,
    /// and not including, `stop`, each behind its separator where it has one.
    pub open spec fn spans(self, text: Seq<u8>, stop: ParserState) -> bool
        decreases self.remaining(),
    {
        if self == stop {
            text.len() == 0
        } else {
            match (self.spec_field(text), self.spec_next()) {
                (Some((_, end)), Some(next)) => next.spans(text.skip(end), stop),
                _ => false,
            }
        }
    }

    /// A field that is found in `text` is found unchanged when more text
    /// follows.
    pub proof fn lemma_field_extends(self, text: Seq<u8>, more: Seq<u8>)
        requires
            self.spec_field(text).is_some(),
        ensures
            self.holds(self.spec_field(text).unwrap().0),
            self.spec_next().is_some(),
            self.spec_field(text + more) == self.spec_field(text),
            (text + more).skip(self.spec_field(text).unwrap().1) == text.skip(
                self.spec_field(text).unwrap().1,
            ) + more,
    {
        let from = self.spec_parse_from(text).unwrap() as int;
        let end = from + self.spec_size();
        assert((text + more)[0] == text[0]);
        assert((text + more).subrange(from, end) =~= text.subrange(from, end));
        assert((text + more).skip(end) =~= text.skip(end) + more);
    }

    /// Fields only stand in a text in their order: a text that spans up to
    /// `stop` starts at or before it.
    pub proof fn lemma_spans_order(self, text: Seq<u8>, stop: ParserState)
        requires
            self.spans(text, stop),
        ensures
            stop.remaining() <= self.remaining(),
        decreases self.remaining(),
    {
        if self != stop {
            let end = self.spec_field(text).unwrap().1;
            self.spec_next().unwrap().lemma_spans_order(text.skip(end), stop);
        }
    }

    /// The position after this one, if there is one.
    pub fn next(&self) -> (r: Option<Self>)
        ensures
            r == self.spec_next(),
    {
        match self {
            ParserState::Year => Some(ParserState::Month),
            ParserState::Month => Some(ParserState::Date),
            ParserState::Date => Some(ParserState::Hours),
            ParserState::Hours => Some(ParserState::Minutes),
            ParserState::Minutes => Some(ParserState::Seconds),
            ParserState::Seconds => Some(ParserState::Timezone),
            ParserState::Timezone => None,
        }
    }

    /// The width of the field in bytes.
    pub fn size(&self) -> (r: usize)
        ensures
            r == self.spec_size(),
    {
        match self {
            ParserState::Year => 4,
            ParserState::Month
            | ParserState::Date
            | ParserState::Hours
            | ParserState::Minutes
            | ParserState::Seconds => 2,
            ParserState::Timezone => 1,
        }
    }

    /// The separator that may stand before the field.
    pub fn prefix(&self) -> (r: Option<ParserPrefix>)
        ensures
            r == self.spec_prefix(),
    {
        match self {
            ParserState::Month | ParserState::Date => Some(ParserPrefix::Dash),
            ParserState::Hours => Some(ParserPrefix::T),
            ParserState::Minutes | ParserState::Seconds => Some(ParserPrefix::Colon),
            _ => None,
        }
    }

    /// Reads `text`, taken whole, as this field's value.
    pub fn parse(&self, text: &[u8]) -> (r: Option<DateTimeField>)
        ensures
            r == self.spec_parse(text@),
    {
        match self {
            ParserState::Year => match parse_signed(text) {
                Some(v) => Some(DateTimeField::Year(v)),
                None => None,
            },
            ParserState::Month => match parse_digits(text) {
                Some(v) => Some(DateTimeField::Month(v)),
                None => None,
            },
            ParserState::Date => match parse_digits(text) {
                Some(v) => Some(DateTimeField::Date(v)),
                None => None,
            },
            ParserState::Hours => match parse_digits(text) {
                Some(v) => Some(DateTimeField::Hours(v)),
                None => None,
            },
            ParserState::Minutes => match parse_digits(text) {
                Some(v) => Some(DateTimeField::Minutes(v)),
                None => None,
            },
            ParserState::Seconds => match parse_digits(text) {
                Some(v) => Some(DateTimeField::Seconds(v)),
                None => None,
            },
            ParserState::Timezone => None,
        }
    }

    /// Finds where in `text` the field's characters begin.
    pub fn parse_from(&self, text: &[u8]) -> (r: Option<usize>)
        ensures
            r == self.spec_parse_from(text@),
    {
        match self.prefix() {
            Some(ParserPrefix::Dash) => if text.len() == 0 {
                None
            } else if text[0] == ASCII_MINUS {
                Some(1)
            } else {
                Some(0)
            },
            Some(ParserPrefix::Colon) => if text.len() == 0 {
                None
            } else if text[0] == ASCII_COLON {
                Some(1)
            } else {
                Some(0)
            },
            Some(ParserPrefix::T) => if text.len() > 0 && (text[0] == ASCII_UPPER_T || text[0]
                == ASCII_SPACE) {
                Some(1)
            } else {
                None
            },
            None => Some(0),
        }
    }
}

} // verus!
