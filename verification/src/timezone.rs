//! The offset from UTC at the end of a timestamp: a sign, two digits of hours
//! and, optionally after any colons, two digits of minutes.
//!
//! Where one of the two bytes of a part is no digit, the part is not there
//! and reading stops.

use crate::number::{
    digit_value, is_digit, lemma_two_digits, parse_digits, ASCII_MINUS, ASCII_PLUS,
};
use vstd::prelude::*;
use vstd::slice::slice_subrange;

verus! {

/// The byte `:`.
pub const ASCII_COLON: u8 = 58;

/// The three parts of an offset as they were read.
#[derive(Clone, Copy, Debug, PartialEq, Eq, Structural)]
pub struct TimezoneValues {
    /// `true` for `+`, an offset east of UTC, and `false` for `-`.
    pub sign: bool,
    /// The hours as read, without the sign.
    pub hours: i32,
    /// The minutes as read, without the sign.
    pub minutes: i32,
}

/// Position of the offset parser: which part is read next.
#[derive(Clone, Copy, Debug, PartialEq, Eq, Structural)]
pub enum TimezoneParserState {
    Sign,
    Hours,
    Minutes,
}

/// The number that the first two bytes of `text` denote, if there are two
/// and both are digits.
pub open spec fn two_digits(text: Seq<u8>) -> Option<i32> {
    if text.len() >= 2 && is_digit(text[0]) && is_digit(text[1]) {
        Some((digit_value(text[0]) * 10 + digit_value(text[1])) as i32)
    } else {
        None
    }
}

/// Reads the two digits at the start of `text`.
fn parse_two_digits(text: &[u8]) -> (r: Option<i32>)
    ensures
        r == two_digits(text@),
{
    if text.len() < 2 {
        return None;
    }
    proof {
        lemma_two_digits(text@.subrange(0, 2));
    }
    match parse_digits(slice_subrange(text, 0, 2)) {
        Some(v) => Some(v as i32),
        None => None,
    }
}

impl TimezoneValues {
    /// The offset of UTC itself.
    pub open spec fn spec_default() -> TimezoneValues {
        TimezoneValues { sign: true, hours: 0, minutes: 0 }
    }

    /// The offset in seconds, positive to the east.
    pub open spec fn total_seconds(self) -> int {
        if self.sign {
            (self.hours * 60 + self.minutes) * 60
        } else {
            -((self.hours * 60 + self.minutes) * 60)
        }
    }

    /// Whether hours and minutes are numbers that two digits can denote.
    pub open spec fn is_bounded(self) -> bool {
        &&& 0 <= self.hours <= 99
        &&& 0 <= self.minutes <= 99
    }

    /// The values after the minutes were looked for at the start of `text`:
    /// colons are passed over, and the two bytes after them replace the
    /// minutes if both are digits.
    pub open spec fn parsed_minutes(self, text: Seq<u8>) -> TimezoneValues
        decreases text.len(),
    {
        if text.len() == 0 {
            self
        } else if text[0] == ASCII_COLON {
            self.parsed_minutes(text.skip(1))
        } else {
            match two_digits(text) {
                Some(minutes) => TimezoneValues { minutes, ..self },
                None => self,
            }
        }
    }

    /// The values after the hours were looked for at the start of `text`: if
    /// the first two bytes are digits their number replaces the hours and
    /// the minutes are looked for behind them.
    pub open spec fn parsed_hours(self, text: Seq<u8>) -> TimezoneValues {
        match two_digits(text) {
            Some(hours) => TimezoneValues { hours, ..self }.parsed_minutes(text.skip(2)),
            None => self,
        }
    }

    /// The values after the sign was looked for at the start of `text`: a
    /// `+` or `-` replaces the sign and the hours are looked for behind it.
    pub open spec fn parsed_sign(self, text: Seq<u8>) -> TimezoneValues {
        if text.len() > 0 && (text[0] == ASCII_PLUS || text[0] == ASCII_MINUS) {
            TimezoneValues { sign: text[0] == ASCII_PLUS, ..self }.parsed_hours(text.skip(1))
        } else {
            self
        }
    }

    /// The values after `text` was read from `state` on.
    pub open spec fn parsed(self, text: Seq<u8>, state: TimezoneParserState) -> TimezoneValues {
        match state {
            TimezoneParserState::Sign => self.parsed_sign(text),
            TimezoneParserState::Hours => self.parsed_hours(text),
            TimezoneParserState::Minutes => self.parsed_minutes(text),
        }
    }

    /// Reading an offset keeps hours and minutes within two digits' reach.
    pub proof fn lemma_parsed_bounded(self, text: Seq<u8>, state: TimezoneParserState)
        requires
            self.is_bounded(),
        ensures
            self.parsed(text, state).is_bounded(),
        decreases text.len(),
    {
        match state {
            TimezoneParserState::Sign => {
                if text.len() > 0 && (text[0] == ASCII_PLUS || text[0] == ASCII_MINUS) {
                    let signed = TimezoneValues { sign: text[0] == ASCII_PLUS, ..self };
                    signed.lemma_parsed_bounded(text.skip(1), TimezoneParserState::Hours);
                }
            },
            TimezoneParserState::Hours => {
                if let Some(hours) = two_digits(text) {
                    let timed = TimezoneValues { hours, ..self };
                    timed.lemma_parsed_bounded(text.skip(2), TimezoneParserState::Minutes);
                }
            },
            TimezoneParserState::Minutes => {
                if text.len() > 0 {
                    if text[0] == ASCII_COLON {
                        self.lemma_parsed_bounded(text.skip(1), TimezoneParserState::Minutes);
                    }
                }
            },
        }
    }

    /// The offset of UTC itself.
    pub fn default() -> (r: Self)
        ensures
            r == Self::spec_default(),
    {
        Self { sign: true, hours: 0, minutes: 0 }
    }

    /// The offset in seconds, positive to the east.
    pub fn secs(&self) -> (r: i32)
        requires
            i32::MIN <= self.total_seconds() <= i32::MAX,
        ensures
            r == self.total_seconds(),
    {
        let magnitude: i64 = (self.hours as i64 * 60 + self.minutes as i64) * 60;
        if self.sign {
            magnitude as i32
        } else {
            (0 - magnitude) as i32
        }
    }

    /// Reads `text` from `state` on and records each part that is found.
    pub fn parse(&mut self, text: &[u8], state: TimezoneParserState)
        ensures
            *final(self) == old(self).parsed(text@, state),
            old(self).is_bounded() ==> final(self).is_bounded(),
        decreases text@.len(), 1int,
    {
        proof {
            if self.is_bounded() {
                self.lemma_parsed_bounded(text@, state);
            }
        }
        match state {
            TimezoneParserState::Sign => self.parse_sign(text),
            TimezoneParserState::Hours => self.parse_hours(text),
            TimezoneParserState::Minutes => self.parse_minutes(text),
        }
    }

    /// Reads the sign at the start of `text`, then the rest of the offset.
    pub fn parse_sign(&mut self, text: &[u8])
        ensures
            *final(self) == old(self).parsed_sign(text@),
        decreases text@.len(), 0int,
    {
        if text.len() > 0 {
            let first: u8 = text[0];
            if first == ASCII_PLUS || first == ASCII_MINUS {
                self.sign = first == ASCII_PLUS;
                self.parse(slice_subrange(text, 1, text.len()), TimezoneParserState::Hours);
            }
        }
    }

    /// Reads the hours at the start of `text`, then the minutes.
    pub fn parse_hours(&mut self, text: &[u8])
        ensures
            *final(self) == old(self).parsed_hours(text@),
        decreases text@.len(), 0int,
    {
        if let Some(hours) = parse_two_digits(text) {
            self.hours = hours;
            self.parse(slice_subrange(text, 2, text.len()), TimezoneParserState::Minutes);
        }
    }

    /// Passes over colons at the start of `text` and reads the minutes.
    pub fn parse_minutes(&mut self, text: &[u8])
        ensures
            *final(self) == old(self).parsed_minutes(text@),
        decreases text@.len(), 0int,
    {
        if text.len() > 0 {
            if text[0] == ASCII_COLON {
                self.parse(slice_subrange(text, 1, text.len()), TimezoneParserState::Minutes);
            } else if let Some(minutes) = parse_two_digits(text) {
                self.minutes = minutes;
            }
        }
    }
}

} // verus!
