//! The sixth field: the age at which a cleanup removes an entry.
//!
//! An age is a bare number of seconds, or a sum of numbers that each carry
//! a unit of time. The word `ms` stands for milliseconds; microseconds are
//! spelled out.

use crate::common::action::CleanupAge;
use crate::parser::basic::{
    bytes_equal, is_blank, lemma_run_len, run_len, run_length, spec_empty_placeholder, split,
    ByteClass,
};
use crate::parser::error::{ErrorKind, Field, ParseError};
use crate::parser::item::marked;
use crate::parser::number::{decimal, digits_below, digits_value, lemma_digits_value_below_power};
use vstd::prelude::*;
use vstd::string::StringSliceAdditionalSpecFns;

verus! {

/// The microseconds in a millisecond.
pub const USEC_PER_MSEC: u64 = 1_000;

/// The microseconds in a second: a thousand milliseconds.
pub const USEC_PER_SEC: u64 = 1_000_000;

/// The microseconds in a minute: sixty seconds.
pub const USEC_PER_MIN: u64 = 60_000_000;

/// The microseconds in an hour: sixty minutes.
pub const USEC_PER_HOUR: u64 = 3_600_000_000;

/// The microseconds in a day: twenty-four hours.
pub const USEC_PER_DAY: u64 = 86_400_000_000;

/// The microseconds in a week: seven days.
pub const USEC_PER_WEEK: u64 = 604_800_000_000;

/// The units of time, from the longest to the shortest.
#[derive(Clone, Copy, Debug, PartialEq, Eq, Structural)]
pub enum TimeUnit {
    Weeks,
    Days,
    Hours,
    Minutes,
    Seconds,
    Milliseconds,
    Microseconds,
}

impl TimeUnit {
    /// The length of the unit in microseconds.
    pub open spec fn spec_usec(self) -> u64 {
        match self {
            TimeUnit::Weeks => USEC_PER_WEEK,
            TimeUnit::Days => USEC_PER_DAY,
            TimeUnit::Hours => USEC_PER_HOUR,
            TimeUnit::Minutes => USEC_PER_MIN,
            TimeUnit::Seconds => USEC_PER_SEC,
            TimeUnit::Milliseconds => USEC_PER_MSEC,
            TimeUnit::Microseconds => 1,
        }
    }

    /// The unit that may follow this one in an age, the next shorter one.
    pub open spec fn spec_following(self) -> Option<TimeUnit> {
        match self {
            TimeUnit::Weeks => Some(TimeUnit::Days),
            TimeUnit::Days => Some(TimeUnit::Hours),
            TimeUnit::Hours => Some(TimeUnit::Minutes),
            TimeUnit::Minutes => Some(TimeUnit::Seconds),
            TimeUnit::Seconds => Some(TimeUnit::Milliseconds),
            TimeUnit::Milliseconds => Some(TimeUnit::Microseconds),
            TimeUnit::Microseconds => None,
        }
    }

    /// How many units are shorter than this one.
    pub open spec fn spec_shorter(self) -> nat {
        match self {
            TimeUnit::Weeks => 6,
            TimeUnit::Days => 5,
            TimeUnit::Hours => 4,
            TimeUnit::Minutes => 3,
            TimeUnit::Seconds => 2,
            TimeUnit::Milliseconds => 1,
            TimeUnit::Microseconds => 0,
        }
    }

    /// Whether `word` is one of the spellings of the unit.
    pub open spec fn spec_named(self, word: Seq<u8>) -> bool {
        match self {
            TimeUnit::Weeks => word == "w".spec_bytes() || word == "weeks".spec_bytes(),
            TimeUnit::Days => word == "d".spec_bytes() || word == "days".spec_bytes(),
            TimeUnit::Hours => word == "h".spec_bytes() || word == "hours".spec_bytes(),
            TimeUnit::Minutes => word == "m".spec_bytes() || word == "min".spec_bytes() || word
                == "minutes".spec_bytes(),
            TimeUnit::Seconds => word == "s".spec_bytes() || word == "seconds".spec_bytes(),
            TimeUnit::Milliseconds => word == "ms".spec_bytes() || word
                == "milliseconds".spec_bytes(),
            TimeUnit::Microseconds => word == "microseconds".spec_bytes(),
        }
    }

    /// The length of the unit in microseconds.
    #[verifier::when_used_as_spec(spec_usec)]
    pub fn usec(self) -> (r: u64)
        ensures
            r == self.spec_usec(),
            r >= 1,
    {
        match self {
            TimeUnit::Weeks => USEC_PER_WEEK,
            TimeUnit::Days => USEC_PER_DAY,
            TimeUnit::Hours => USEC_PER_HOUR,
            TimeUnit::Minutes => USEC_PER_MIN,
            TimeUnit::Seconds => USEC_PER_SEC,
            TimeUnit::Milliseconds => USEC_PER_MSEC,
            TimeUnit::Microseconds => 1,
        }
    }

    /// The unit that may follow this one in an age, the next shorter one.
    #[verifier::when_used_as_spec(spec_following)]
    pub fn following(self) -> (r: Option<TimeUnit>)
        ensures
            r == self.spec_following(),
    {
        match self {
            TimeUnit::Weeks => Some(TimeUnit::Days),
            TimeUnit::Days => Some(TimeUnit::Hours),
            TimeUnit::Hours => Some(TimeUnit::Minutes),
            TimeUnit::Minutes => Some(TimeUnit::Seconds),
            TimeUnit::Seconds => Some(TimeUnit::Milliseconds),
            TimeUnit::Milliseconds => Some(TimeUnit::Microseconds),
            TimeUnit::Microseconds => None,
        }
    }

    /// Whether `word` is one of the spellings of the unit.
    pub fn named(self, word: &[u8]) -> (r: bool)
        ensures
            r == self.spec_named(word@),
    {
        match self {
            TimeUnit::Weeks => bytes_equal(word, "w".as_bytes()) || bytes_equal(
                word,
                "weeks".as_bytes(),
            ),
            TimeUnit::Days => bytes_equal(word, "d".as_bytes()) || bytes_equal(
                word,
                "days".as_bytes(),
            ),
            TimeUnit::Hours => bytes_equal(word, "h".as_bytes()) || bytes_equal(
                word,
                "hours".as_bytes(),
            ),
            TimeUnit::Minutes => bytes_equal(word, "m".as_bytes()) || bytes_equal(
                word,
                "min".as_bytes(),
            ) || bytes_equal(word, "minutes".as_bytes()),
            TimeUnit::Seconds => bytes_equal(word, "s".as_bytes()) || bytes_equal(
                word,
                "seconds".as_bytes(),
            ),
            TimeUnit::Milliseconds => bytes_equal(word, "ms".as_bytes()) || bytes_equal(
                word,
                "milliseconds".as_bytes(),
            ),
            TimeUnit::Microseconds => bytes_equal(word, "microseconds".as_bytes()),
        }
    }
}

/// One number with its unit, at the head of `s`: a run of digits, then a
/// word of letters that names `unit`. The result is what the pair is
/// worth in microseconds, and its length. Where no such pair stands
/// there, the unit is absent: it is worth nothing and takes nothing.
pub open spec fn spec_component(s: Seq<u8>, unit: TimeUnit) -> (int, int) {
    let digits = run_len(s, ByteClass::Digit) as int;
    let letters = run_len(s.skip(digits), ByteClass::Letter) as int;
    if digits > 0 && unit.spec_named(s.subrange(digits, digits + letters)) {
        (digits_value(s.take(digits), 10) * unit.spec_usec(), digits + letters)
    } else {
        (0, 0)
    }
}

/// The units from `first` on, each present once or absent, in their
/// order: what they are worth together, and their length together.
pub open spec fn spec_units(s: Seq<u8>, first: Option<TimeUnit>) -> (int, int)
    decreases
            (match first {
                Some(unit) => unit.spec_shorter() + 1,
                None => 0,
            }),
{
    match first {
        None => (0, 0),
        Some(unit) => {
            let head = spec_component(s, unit);
            let tail = spec_units(s.skip(head.1), unit.spec_following());
            (head.0 + tail.0, head.1 + tail.1)
        },
    }
}

/// An age with units: weeks, days, hours, minutes, seconds, milliseconds
/// and microseconds, each present once or absent, in this order.
pub open spec fn spec_age_with_unit(s: Seq<u8>) -> (int, int) {
    spec_units(s, Some(TimeUnit::Weeks))
}

/// An age without a unit: a run of digits with a blank behind it, worth
/// that many seconds. The blank is not part of it.
pub open spec fn spec_age_without_unit(s: Seq<u8>) -> Option<(int, int)> {
    let digits = run_len(s, ByteClass::Digit) as int;
    if digits > 0 && digits < s.len() && is_blank(s[digits]) {
        Some((digits_value(s.take(digits), 10) * USEC_PER_SEC, digits))
    } else {
        None
    }
}

/// The age that is given at the head of `s`, in microseconds, and its
/// length: without a unit where that form applies, else with units.
pub open spec fn spec_duration(s: Seq<u8>) -> (int, int) {
    match spec_age_without_unit(s) {
        Some(r) => r,
        None => spec_age_with_unit(s),
    }
}

/// The age field: an optional `~`, which keeps the first level; then the
/// placeholder, or an age that is given. An age beyond 64 bits of
/// microseconds is an error.
pub open spec fn spec_age(s: Seq<u8>) -> Result<(Option<CleanupAge>, int), ParseError> {
    let keep_first_level = marked(s, 0, '~' as u8);
    let n = if keep_first_level { 1int } else { 0int };
    if spec_empty_placeholder(s.skip(n)) {
        Ok((None, n + 1))
    } else {
        let (age, len) = spec_duration(s.skip(n));
        if age <= u64::MAX {
            Ok((Some(CleanupAge { age: age as u64, keep_first_level }), n + len))
        } else {
            Err(ParseError { kind: ErrorKind::MalformedDuration, field: Field::Age, offset: 0 })
        }
    }
}

/// A pair is worth no less than nothing, and is no longer than the input.
pub proof fn lemma_component(s: Seq<u8>, unit: TimeUnit)
    ensures
        0 <= spec_component(s, unit).0,
        0 <= spec_component(s, unit).1 <= s.len(),
{
    let digits = run_len(s, ByteClass::Digit) as int;
    lemma_run_len(s, ByteClass::Digit);
    lemma_run_len(s.skip(digits), ByteClass::Letter);
    assert(digits_below(s.take(digits), 10));
    lemma_digits_value_below_power(s.take(digits), 10);
    let v = digits_value(s.take(digits), 10);
    let w = unit.spec_usec() as int;
    assert(0 <= v * w) by (nonlinear_arith)
        requires
            0 <= v,
            0 <= w,
    ;
}

/// The same of the units from `first` on.
pub proof fn lemma_units(s: Seq<u8>, first: Option<TimeUnit>)
    ensures
        0 <= spec_units(s, first).0,
        0 <= spec_units(s, first).1 <= s.len(),
    decreases
            (match first {
                Some(unit) => unit.spec_shorter() + 1,
                None => 0,
            }),
{
    match first {
        None => {},
        Some(unit) => {
            lemma_component(s, unit);
            lemma_units(s.skip(spec_component(s, unit).1), unit.spec_following());
        },
    }
}

/// An age that is read is no longer than the input.
pub proof fn lemma_age_length(s: Seq<u8>)
    ensures
        spec_age(s) matches Ok((_, n)) ==> 0 <= n <= s.len(),
{
    let n: int = if marked(s, 0, '~' as u8) { 1 } else { 0 };
    let given = s.skip(n);
    lemma_run_len(given, ByteClass::Digit);
    lemma_units(given, Some(TimeUnit::Weeks));
}

/// The error of an age that is out of range.
pub open spec fn out_of_range() -> ParseError {
    ParseError { kind: ErrorKind::MalformedDuration, field: Field::Age, offset: 0 }
}

/// Reads one number with the unit `unit`. Where none stands at the head
/// of `input`, nothing is read and the result is zero.
pub fn component<'a>(input: &'a [u8], unit: TimeUnit) -> (r: Result<(&'a [u8], u64), ParseError>)
    ensures
        match r {
            Ok((rest, usec)) => usec == spec_component(input@, unit).0 && rest@ == input@.skip(
                spec_component(input@, unit).1,
            ),
            Err(e) => e == out_of_range() && spec_component(input@, unit).0 > u64::MAX,
        },
{
    let (after_digits, digits) = split(input, run_length(input, ByteClass::Digit));
    if digits.len() == 0 {
        assert(input@.skip(0) =~= input@);
        return Ok((input, 0));
    }
    let (rest, word) = split(after_digits, run_length(after_digits, ByteClass::Letter));
    proof {
        let d = digits@.len() as int;
        let w = word@.len() as int;
        lemma_run_len(input@, ByteClass::Digit);
        assert(word@ =~= input@.subrange(d, d + w));
        assert(rest@ =~= input@.skip(d + w));
        assert(digits_below(digits@, 10));
    }
    if !unit.named(word) {
        assert(input@.skip(0) =~= input@);
        return Ok((input, 0));
    }
    let per = unit.usec();
    match decimal(digits) {
        None => {
            proof {
                let v = digits_value(digits@, 10);
                assert(v * per >= v) by (nonlinear_arith)
                    requires
                        v >= 0,
                        per >= 1,
                ;
            }
            Err(ParseError { kind: ErrorKind::MalformedDuration, field: Field::Age, offset: 0 })
        },
        Some(number) => match number.checked_mul(per) {
            Some(usec) => Ok((rest, usec)),
            None => Err(
                ParseError { kind: ErrorKind::MalformedDuration, field: Field::Age, offset: 0 },
            ),
        },
    }
}

/// Reads an age with units and returns its sum in microseconds.
pub fn age_with_unit<'a>(input: &'a [u8]) -> (r: Result<(&'a [u8], u64), ParseError>)
    ensures
        match r {
            Ok((rest, usec)) => usec == spec_age_with_unit(input@).0 && rest@ == input@.skip(
                spec_age_with_unit(input@).1,
            ),
            Err(e) => e == out_of_range() && spec_age_with_unit(input@).0 > u64::MAX,
        },
        0 <= spec_age_with_unit(input@).1 <= input@.len(),
{
    let mut rest = input;
    let mut sum: u64 = 0;
    let mut next = Some(TimeUnit::Weeks);
    let ghost mut read: int = 0;
    proof {
        assert(input@.skip(0) =~= input@);
        lemma_units(input@, Some(TimeUnit::Weeks));
    }
    while next.is_some()
        invariant
            0 <= read <= input@.len(),
            rest@ == input@.skip(read),
            spec_age_with_unit(input@).0 == sum + spec_units(rest@, next).0,
            spec_age_with_unit(input@).1 == read + spec_units(rest@, next).1,
        decreases
                (match next {
                    Some(unit) => unit.spec_shorter() + 1,
                    None => 0,
                }),
    {
        let unit = next.unwrap();
        proof {
            lemma_component(rest@, unit);
            lemma_units(rest@.skip(spec_component(rest@, unit).1), unit.spec_following());
        }
        let (after, usec) = match component(rest, unit) {
            Ok(read) => read,
            Err(e) => {
                return Err(e);
            },
        };
        sum = match sum.checked_add(usec) {
            Some(sum) => sum,
            None => {
                return Err(
                    ParseError {
                        kind: ErrorKind::MalformedDuration,
                        field: Field::Age,
                        offset: 0,
                    },
                );
            },
        };
        proof {
            let n = spec_component(rest@, unit).1;
            assert(input@.skip(read).skip(n) =~= input@.skip(read + n));
            read = read + n;
        }
        rest = after;
        next = unit.following();
    }
    Ok((rest, sum))
}

/// Reads an age without a unit, a number of seconds, and returns it in
/// microseconds; `None` where the input does not begin with this form.
pub fn age_without_unit<'a>(input: &'a [u8]) -> (r: Result<Option<(&'a [u8], u64)>, ParseError>)
    ensures
        match spec_age_without_unit(input@) {
            None => r matches Ok(None),
            Some((age, len)) => if age <= u64::MAX {
                r matches Ok(Some((rest, usec))) && usec == age && 0 <= len <= input@.len() && rest@
                    == input@.skip(len)
            } else {
                r == Err::<Option<(&[u8], u64)>, ParseError>(out_of_range())
            },
        },
{
    let (rest, digits) = split(input, run_length(input, ByteClass::Digit));
    if digits.len() == 0 || rest.len() == 0 || !ByteClass::Blank.contains(rest[0]) {
        return Ok(None);
    }
    proof {
        lemma_run_len(input@, ByteClass::Digit);
        assert(digits_below(digits@, 10));
    }
    match decimal(digits) {
        None => {
            proof {
                let v = digits_value(digits@, 10);
                assert(v * USEC_PER_SEC >= v) by (nonlinear_arith)
                    requires
                        v >= 0,
                ;
            }
            Err(ParseError { kind: ErrorKind::MalformedDuration, field: Field::Age, offset: 0 })
        },
        Some(seconds) => match seconds.checked_mul(USEC_PER_SEC) {
            Some(usec) => Ok(Some((rest, usec))),
            None => Err(
                ParseError { kind: ErrorKind::MalformedDuration, field: Field::Age, offset: 0 },
            ),
        },
    }
}

/// Reads the age field: `None` for the placeholder.
pub fn age<'a>(input: &'a [u8]) -> (r: Result<(&'a [u8], Option<CleanupAge>), ParseError>)
    ensures
        match spec_age(input@) {
            Ok((a, n)) => r matches Ok((rest, v)) && v == a && 0 <= n <= input@.len() && rest@
                == input@.skip(n),
            Err(e) => r == Err::<(&[u8], Option<CleanupAge>), ParseError>(e),
        },
{
    let keep_first_level = input.len() > 0 && input[0] == '~' as u8;
    let start: usize = if keep_first_level { 1 } else { 0 };
    let given = split(input, start).0;
    if given.len() > 0 && given[0] == '-' as u8 {
        assert(given@.skip(1) =~= input@.skip(start + 1));
        return Ok((split(given, 1).0, None));
    }
    let (rest, usec) = match age_without_unit(given)? {
        Some(read) => read,
        None => age_with_unit(given)?,
    };
    proof {
        let len = spec_duration(given@).1;
        assert(given@.skip(len) =~= input@.skip(start + len));
    }
    Ok((rest, Some(CleanupAge::new(usec, keep_first_level))))
}

} // verus!
