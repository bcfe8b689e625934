//! Durations written as a number followed by a one-letter unit, such as `90s` or `3d`.

use std::num::ParseIntError;
use std::str::FromStr;
use vstd::prelude::*;
use vstd::string::StrSliceExecFns;

verus! {

#[verifier::external_type_specification]
#[verifier::external_body]
pub struct ExParseIntError(ParseIntError);

/// Why a text is not a relative time.
#[derive(Debug, PartialEq, Eq)]
pub enum ParseError {
    /// Fewer than two characters: no room for a number and a unit.
    Empty,
    /// The last character, held here, is none of `s`, `m`, `h`, `d`.
    InvalidTimeUnit(String),
    /// What precedes the unit is not a `u64` in decimal.
    ParseInt(ParseIntError),
}

/// A span of time in one of four units.
#[derive(Copy, Clone, Debug, Eq, PartialEq, Structural)]
pub enum RelativeTime {
    Seconds(u64),
    Minutes(u64),
    Hours(u64),
    Days(u64),
}

/// The number that a sequence of decimal digits denotes, most significant digit first.
pub open spec fn decimal_value(digits: Seq<char>) -> nat
    decreases digits.len(),
{
    if digits.len() == 0 {
        0
    } else {
        (decimal_value(digits.drop_last()) * 10 + (digits.last() as int - '0' as int)) as nat
    }
}

/// Every character is one of `0` to `9`.
pub open spec fn all_decimal_digits(digits: Seq<char>) -> bool {
    forall|i: int| 0 <= i < digits.len() ==> '0' <= #[trigger] digits[i] <= '9'
}

/// The text without one leading `+`, if it has one.
pub open spec fn without_plus_sign(text: Seq<char>) -> Seq<char> {
    if text.len() > 0 && text[0] == '+' {
        text.drop_first()
    } else {
        text
    }
}

/// The text is an optional `+`, then one or more decimal digits whose value fits in a `u64`.
pub open spec fn is_u64_text(text: Seq<char>) -> bool {
    let digits = without_plus_sign(text);
    &&& digits.len() > 0
    &&& all_decimal_digits(digits)
    &&& decimal_value(digits) <= u64::MAX
}

/// Calls `str::parse::<u64>` of the standard library. Believed of it, as its
/// documentation says: the text is accepted exactly when it is an optional `+`
/// followed by nothing but decimal digits, at least one, whose value fits in a
/// `u64`; the value returned is the one the digits denote.
#[verifier::external_body]
fn parse_u64(text: &str) -> (r: Result<u64, ParseIntError>)
    ensures
        r is Ok <==> is_u64_text(text@),
        r matches Ok(value) ==> value == decimal_value(without_plus_sign(text@)),
{
    text.parse::<u64>()
}

impl RelativeTime {
    /// The time that amount `value` in the unit written `unit` is, if `unit` is a unit.
    pub open spec fn with_unit(unit: char, value: u64) -> Option<RelativeTime> {
        if unit == 's' {
            Some(RelativeTime::Seconds(value))
        } else if unit == 'm' {
            Some(RelativeTime::Minutes(value))
        } else if unit == 'h' {
            Some(RelativeTime::Hours(value))
        } else if unit == 'd' {
            Some(RelativeTime::Days(value))
        } else {
            None
        }
    }

    /// The length of the span in seconds, without a bound.
    pub open spec fn total_seconds(self) -> nat {
        match self {
            RelativeTime::Seconds(value) => value as nat,
            RelativeTime::Minutes(value) => value as nat * 60,
            RelativeTime::Hours(value) => value as nat * 3600,
            RelativeTime::Days(value) => value as nat * 86400,
        }
    }

    /// The result is the one that reading the text gives: the time where
    /// the text is a `u64` followed by a unit, and else the first of three
    /// errors that applies: too short, no number, no unit.
    pub open spec fn is_reading_of(
        r: Result<RelativeTime, ParseError>,
        value: Seq<char>,
    ) -> bool {
        match r {
            Ok(time) => {
                &&& value.len() >= 2
                &&& is_u64_text(value.drop_last())
                &&& Self::with_unit(
                    value.last(),
                    decimal_value(without_plus_sign(value.drop_last())) as u64,
                ) == Some(time)
            },
            Err(ParseError::Empty) => value.len() < 2,
            Err(ParseError::ParseInt(_)) => {
                &&& value.len() >= 2
                &&& !is_u64_text(value.drop_last())
            },
            Err(ParseError::InvalidTimeUnit(unit)) => {
                &&& value.len() >= 2
                &&& is_u64_text(value.drop_last())
                &&& Self::with_unit(value.last(), 0) is None
                &&& unit@ == seq![value.last()]
            },
        }
    }

    /// Reads a number and the unit letter that follows it.
    ///
    /// The number is checked before the unit, so `x5q` reports the number.
    pub fn parse(value: &str) -> (r: Result<RelativeTime, ParseError>)
        ensures
            Self::is_reading_of(r, value@),
    {
        let input_len: usize = value.unicode_len();
        if input_len < 2 {
            return Err(ParseError::Empty);
        }
        let time_text = value.substring_char(0, input_len - 1);
        let unit_text = value.substring_char(input_len - 1, input_len);
        let unit = value.get_char(input_len - 1);
        assert(time_text@ == value@.drop_last());
        assert(unit_text@ == seq![value@.last()]);
        let time = match parse_u64(time_text) {
            Ok(time) => time,
            Err(error) => {
                return Err(ParseError::ParseInt(error));
            },
        };
        if unit == 's' {
            Ok(RelativeTime::Seconds(time))
        } else if unit == 'm' {
            Ok(RelativeTime::Minutes(time))
        } else if unit == 'h' {
            Ok(RelativeTime::Hours(time))
        } else if unit == 'd' {
            Ok(RelativeTime::Days(time))
        } else {
            Err(ParseError::InvalidTimeUnit(unit_text.to_owned()))
        }
    }

    /// The span in whole seconds, or `None` where that does not fit in a `u64`.
    pub fn to_seconds(self) -> (r: Option<u64>)
        ensures
            r == if self.total_seconds() <= u64::MAX {
                Some(self.total_seconds() as u64)
            } else {
                None::<u64>
            },
    {
        match self {
            RelativeTime::Seconds(value) => Some(value),
            RelativeTime::Minutes(value) => value.checked_mul(60),
            RelativeTime::Hours(value) => value.checked_mul(3600),
            RelativeTime::Days(value) => value.checked_mul(86400),
        }
    }
}

impl FromStr for RelativeTime {
    type Err = ParseError;

    fn from_str(value: &str) -> (r: Result<Self, Self::Err>)
        ensures
            RelativeTime::is_reading_of(r, value@),
    {
        RelativeTime::parse(value)
    }
}

} // verus!
