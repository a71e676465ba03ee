//! The record of fields that a timestamp is read into, and the field parser
//! that fills it.

use crate::instant::{
    build_instant, east_offset, instant_of, is_inner_year, is_representable, Instant,
};
use crate::number::lemma_field_bounds;
use crate::state::{DateTimeField, ParserState};
use crate::timezone::{TimezoneParserState, TimezoneValues};
use vstd::prelude::*;
use vstd::slice::slice_subrange;
use vstd::string::StringSliceAdditionalSpecFns;

verus! {

/// The six calendar and clock fields of a timestamp and its offset from UTC.
#[derive(Clone, Copy, Debug, PartialEq, Eq, Structural)]
pub struct DateTimeValues {
    pub year: i32,
    pub month: u32,
    pub date: u32,
    pub hours: u32,
    pub minutes: u32,
    pub seconds: u32,
    pub timezone: TimezoneValues,
}

impl DateTimeValues {
    /// Midnight at the start of 1970, in UTC: what every field holds until
    /// the text gives it a value.
    pub open spec fn spec_default() -> DateTimeValues {
        DateTimeValues {
            year: 1970,
            month: 1,
            date: 1,
            hours: 0,
            minutes: 0,
            seconds: 0,
            timezone: TimezoneValues::spec_default(),
        }
    }

    /// The record with `field` stored in its place and all else unchanged.
    pub open spec fn with(self, field: DateTimeField) -> DateTimeValues {
        match field {
            DateTimeField::Year(year) => DateTimeValues { year, ..self },
            DateTimeField::Month(month) => DateTimeValues { month, ..self },
            DateTimeField::Date(date) => DateTimeValues { date, ..self },
            DateTimeField::Hours(hours) => DateTimeValues { hours, ..self },
            DateTimeField::Minutes(minutes) => DateTimeValues { minutes, ..self },
            DateTimeField::Seconds(seconds) => DateTimeValues { seconds, ..self },
            DateTimeField::Timezone(timezone) => DateTimeValues { timezone, ..self },
        }
    }

    /// The record after `text` was read from `state` on: at the offset the
    /// offset parser takes over, before it a field is read.
    pub open spec fn parsed(self, text: Seq<u8>, state: ParserState) -> DateTimeValues
        decreases state.remaining(), 1int,
    {
        match state {
            ParserState::Timezone => DateTimeValues {
                timezone: self.timezone.parsed(text, TimezoneParserState::Sign),
                ..self
            },
            _ => self.parsed_state(text, state),
        }
    }

    /// The record after the field of `state` was looked for at the start of
    /// `text`: where it is found, the text behind it is read from the next
    /// position on and the field is stored; where it is not, nothing changes.
    pub open spec fn parsed_state(self, text: Seq<u8>, state: ParserState) -> DateTimeValues
        decreases state.remaining(), 0int,
    {
        match state.spec_field(text) {
            Some((field, end)) => match state.spec_next() {
                Some(next) => self.parsed(text.skip(end), next).with(field),
                None => self.with(field),
            },
            None => self,
        }
    }

    /// The record that `text` is read into, starting from the defaults.
    pub open spec fn spec_from(text: Seq<u8>) -> DateTimeValues {
        Self::spec_default().parsed(text, ParserState::Year)
    }

    /// The record that holds the fields before `state` from `self` and the
    /// field of `state` and all later ones from `rest`.
    pub open spec fn until(self, state: ParserState, rest: DateTimeValues) -> DateTimeValues {
        DateTimeValues {
            year: if state.remaining() < 6 {
                self.year
            } else {
                rest.year
            },
            month: if state.remaining() < 5 {
                self.month
            } else {
                rest.month
            },
            date: if state.remaining() < 4 {
                self.date
            } else {
                rest.date
            },
            hours: if state.remaining() < 3 {
                self.hours
            } else {
                rest.hours
            },
            minutes: if state.remaining() < 2 {
                self.minutes
            } else {
                rest.minutes
            },
            seconds: if state.remaining() < 1 {
                self.seconds
            } else {
                rest.seconds
            },
            timezone: rest.timezone,
        }
    }

    /// Whether every field holds a number that its width in characters can
    /// denote. The defaults do, and reading keeps it so.
    pub open spec fn is_bounded(self) -> bool {
        &&& -999 <= self.year <= 9999
        &&& self.month <= 99
        &&& self.date <= 99
        &&& self.hours <= 99
        &&& self.minutes <= 99
        &&& self.seconds <= 99
        &&& self.timezone.is_bounded()
    }

    /// The instant that the record names, if there is one.
    pub open spec fn spec_instant(self) -> Option<Instant> {
        instant_of(
            self.timezone.total_seconds(),
            self.year as int,
            self.month as int,
            self.date as int,
            self.hours as int,
            self.minutes as int,
            self.seconds as int,
        )
    }

    /// Whether the record names an instant: its offset is shorter than a day
    /// and its fields are a calendar day and a time of day.
    pub open spec fn is_instant(self) -> bool {
        is_representable(
            self.timezone.total_seconds(),
            self.year as int,
            self.month as int,
            self.date as int,
            self.hours as int,
            self.minutes as int,
            self.seconds as int,
        )
    }

    /// Reading keeps every field within its width's reach.
    pub proof fn lemma_parsed_bounded(self, text: Seq<u8>, state: ParserState)
        requires
            self.is_bounded(),
        ensures
            self.parsed(text, state).is_bounded(),
            self.parsed_state(text, state).is_bounded(),
        decreases state.remaining(),
    {
        self.timezone.lemma_parsed_bounded(text, TimezoneParserState::Sign);
        if let Some((field, end)) = state.spec_field(text) {
            lemma_field_bounds(text.subrange(end - state.spec_size(), end));
            if let Some(next) = state.spec_next() {
                self.lemma_parsed_bounded(text.skip(end), next);
            }
        }
    }

    /// Reading an empty text changes nothing.
    pub proof fn lemma_parsed_empty(self, state: ParserState)
        ensures
            self.parsed(Seq::<u8>::empty(), state) == self,
    {
    }

    /// Reading from `state` on leaves the fields before `state` as they were.
    pub proof fn lemma_parsed_frame(self, text: Seq<u8>, state: ParserState)
        ensures
            self.parsed(text, state) == self.until(state, self.parsed(text, state)),
        decreases state.remaining(),
    {
        if let Some((field, end)) = state.spec_field(text) {
            if let Some(next) = state.spec_next() {
                self.lemma_parsed_frame(text.skip(end), next);
            }
        }
    }

    /// Storing a field before `stop` and taking the fields from `stop` on
    /// from another record can be done in either order.
    pub proof fn lemma_with_until(
        self,
        field: DateTimeField,
        state: ParserState,
        stop: ParserState,
        rest: DateTimeValues,
    )
        requires
            state.holds(field),
            stop.remaining() < state.remaining(),
        ensures
            self.until(stop, rest).with(field) == self.with(field).until(stop, rest),
    {
    }

    /// Where `head` consists exactly of the fields from `state` up to `stop`,
    /// a text that begins with `head` is read in two parts: the fields before
    /// `stop` as `head` alone gives them, the others as the rest of the text
    /// gives them from `stop` on. `head` alone leaves the others untouched.
    pub proof fn lemma_parsed_split(
        self,
        head: Seq<u8>,
        rest: Seq<u8>,
        state: ParserState,
        stop: ParserState,
    )
        requires
            state.spans(head, stop),
        ensures
            self.parsed(head + rest, state) == self.parsed(head, state).until(
                stop,
                self.parsed(rest, stop),
            ),
            self.parsed(head, state) == self.parsed(head, state).until(stop, self),
        decreases state.remaining(),
    {
        if state == stop {
            assert(head + rest =~= rest);
            assert(head =~= Seq::<u8>::empty());
            self.lemma_parsed_empty(state);
            self.lemma_parsed_frame(rest, stop);
        } else {
            let (field, end) = state.spec_field(head).unwrap();
            let next = state.spec_next().unwrap();
            let inner = self.parsed(head.skip(end), next);
            let tail = self.parsed(rest, stop);
            state.lemma_field_extends(head, rest);
            next.lemma_spans_order(head.skip(end), stop);
            self.lemma_parsed_split(head.skip(end), rest, next, stop);
            assert(self.parsed(head, state) == inner.with(field));
            assert(self.parsed(head + rest, state) == self.parsed(
                head.skip(end) + rest,
                next,
            ).with(field));
            inner.lemma_with_until(field, state, stop, tail);
            inner.lemma_with_until(field, state, stop, self);
        }
    }

    /// The record before anything was read.
    pub fn default() -> (r: Self)
        ensures
            r == Self::spec_default(),
    {
        Self {
            year: 1970,
            month: 1,
            date: 1,
            hours: 0,
            minutes: 0,
            seconds: 0,
            timezone: TimezoneValues::default(),
        }
    }

    /// Reads a timestamp into a fresh record. Fields that the text does not
    /// reach keep their defaults.
    pub fn from(text: &str) -> (r: Self)
        ensures
            r == Self::spec_from(text.spec_bytes()),
            r.is_bounded(),
    {
        let mut values = Self::default();
        values.parse(text.as_bytes(), &ParserState::Year);
        values
    }

    /// Builds the instant that the record names.
    pub fn instant(&self) -> (r: Option<Instant>)
        requires
            i32::MIN <= self.timezone.total_seconds() <= i32::MAX,
        ensures
            r == self.spec_instant(),
            r matches Some(at) ==> east_offset(self.timezone.total_seconds()) == Some(at.offset),
            r.is_some() ==> self.is_instant(),
            self.is_instant() && is_inner_year(self.year as int) ==> r.is_some(),
    {
        build_instant(
            self.timezone.secs(),
            self.year,
            self.month,
            self.date,
            self.hours,
            self.minutes,
            self.seconds,
        )
    }

    /// Reads `text` from `state` on into the record.
    pub fn parse(&mut self, text: &[u8], state: &ParserState)
        ensures
            *final(self) == old(self).parsed(text@, *state),
            old(self).is_bounded() ==> final(self).is_bounded(),
        decreases state.remaining(), 1int,
    {
        proof {
            if self.is_bounded() {
                self.lemma_parsed_bounded(text@, *state);
            }
        }
        match state {
            ParserState::Timezone => self.timezone.parse(text, TimezoneParserState::Sign),
            _ => self.parse_state(text, state),
        }
    }

    /// Reads the field of `state` at the start of `text` and, where it is
    /// found, the fields behind it, then stores it.
    pub fn parse_state(&mut self, text: &[u8], state: &ParserState)
        ensures
            *final(self) == old(self).parsed_state(text@, *state),
            old(self).is_bounded() ==> final(self).is_bounded(),
        decreases state.remaining(), 0int,
    {
        proof {
            if self.is_bounded() {
                self.lemma_parsed_bounded(text@, *state);
            }
        }
        if let Some(from) = state.parse_from(text) {
            let size: usize = state.size();
            if size <= text.len() && from <= text.len() - size {
                if let Some(field) = state.parse(slice_subrange(text, from, from + size)) {
                    if let Some(next) = state.next() {
                        self.parse(slice_subrange(text, from + size, text.len()), &next);
                    }
                    self.set(field);
                }
            }
        }
    }

    /// Stores `field` in its place.
    pub fn set(&mut self, field: DateTimeField)
        ensures
            *final(self) == old(self).with(field),
    {
        match field {
            DateTimeField::Year(value) => self.year = value,
            DateTimeField::Month(value) => self.month = value,
            DateTimeField::Date(value) => self.date = value,
            DateTimeField::Hours(value) => self.hours = value,
            DateTimeField::Minutes(value) => self.minutes = value,
            DateTimeField::Seconds(value) => self.seconds = value,
            DateTimeField::Timezone(value) => self.timezone = value,
        }
    }
}

} // verus!
