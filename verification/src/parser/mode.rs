//! The third field: the permissions.

use crate::common::action::{Mode, MODE_MAX};
use crate::parser::basic::{
    empty_placeholder, lemma_run_len, run_len, run_length, spec_empty_placeholder, split, ByteClass,
};
use crate::parser::error::{ErrorKind, Field, ParseError};
use crate::parser::item::marked;
use crate::parser::number::{
    digits_below, digits_value, in_radix, lemma_digits_value_below_power, lemma_leading_zero,
};
use vstd::arithmetic::power::pow;
use vstd::prelude::*;
use vstd::slice::slice_subrange;

verus! {

/// The offset of the digits of a mode: behind the mask `~`, if it stands
/// there.
pub open spec fn mode_digits_at(s: Seq<u8>) -> int {
    if marked(s, 0, '~' as u8) {
        1
    } else {
        0
    }
}

/// The number of digits of a mode. Three octal digits at least must
/// stand at the offset of the digits. Four are read at most, or five
/// where the first is a zero, which adds nothing to the value.
pub open spec fn mode_digits_len(s: Seq<u8>) -> Option<int> {
    let at = mode_digits_at(s);
    let run = run_len(s.skip(at), ByteClass::OctalDigit) as int;
    let most = if marked(s, at, '0' as u8) { 5int } else { 4int };
    if run < 3 {
        None
    } else if run < most {
        Some(run)
    } else {
        Some(most)
    }
}

/// A mode that is given: an optional `~`, which masks it, then its
/// digits, which are its value in base eight.
pub open spec fn spec_non_empty_mode(s: Seq<u8>) -> Result<(Mode, int), ParseError> {
    if s.len() == 0 {
        Err(ParseError { kind: ErrorKind::TruncatedLine, field: Field::Mode, offset: 0 })
    } else {
        let at = mode_digits_at(s);
        match mode_digits_len(s) {
            None => Err(
                ParseError { kind: ErrorKind::MalformedMode, field: Field::Mode, offset: 0 },
            ),
            Some(len) => Ok(
                (
                    Mode {
                        masked: marked(s, 0, '~' as u8),
                        mode: digits_value(s.subrange(at, at + len), 8) as u32,
                    },
                    at + len,
                ),
            ),
        }
    }
}

/// The mode field: the placeholder, or a mode that is given.
pub open spec fn spec_mode(s: Seq<u8>) -> Result<(Option<Mode>, int), ParseError> {
    if spec_empty_placeholder(s) {
        Ok((None, 1))
    } else {
        match spec_non_empty_mode(s) {
            Ok((m, n)) => Ok((Some(m), n)),
            Err(e) => Err(e),
        }
    }
}

/// The digits of a mode are worth at most `MODE_MAX`: four digits, or a
/// zero and four digits.
pub proof fn lemma_mode_value(digits: Seq<u8>)
    requires
        digits.len() <= 4 || (digits.len() == 5 && digits[0] == '0' as u8),
        digits_below(digits, 8),
    ensures
        0 <= digits_value(digits, 8) <= MODE_MAX,
{
    reveal_with_fuel(pow, 5);
    if digits.len() == 5 {
        lemma_leading_zero(digits, 8);
        let tail = digits.skip(1);
        assert forall|i: int| 0 <= i < tail.len() implies 0x30 <= #[trigger] tail[i] < 0x30
            + 8 by {
            assert(tail[i] == digits[i + 1]);
        }
        lemma_digits_value_below_power(tail, 8);
    } else {
        lemma_digits_value_below_power(digits, 8);
    }
}

/// What holds of the digits of a mode that `mode_digits_len` finds in `s`.
pub proof fn lemma_mode_digits(s: Seq<u8>)
    requires
        mode_digits_len(s) is Some,
    ensures
        3 <= mode_digits_len(s)->Some_0 <= 5,
        mode_digits_at(s) + mode_digits_len(s)->Some_0 <= s.len(),
        digits_below(
            s.subrange(mode_digits_at(s), mode_digits_at(s) + mode_digits_len(s)->Some_0),
            8,
        ),
        0 <= digits_value(
            s.subrange(mode_digits_at(s), mode_digits_at(s) + mode_digits_len(s)->Some_0),
            8,
        ) <= MODE_MAX,
{
    let at = mode_digits_at(s);
    let len = mode_digits_len(s)->Some_0;
    let tail = s.skip(at);
    let run = run_len(tail, ByteClass::OctalDigit) as int;
    lemma_run_len(tail, ByteClass::OctalDigit);
    let digits = s.subrange(at, at + len);
    assert forall|i: int| 0 <= i < digits.len() implies 0x30 <= #[trigger] digits[i] < 0x30
        + 8 by {
        assert(digits[i] == tail.take(run)[i]);
    }
    if len == 5 {
        assert(digits[0] == s[at]);
    }
    lemma_mode_value(digits);
}

/// Reads a mode that is given.
pub fn non_empty_mode<'a>(input: &'a [u8]) -> (r: Result<(&'a [u8], Mode), ParseError>)
    ensures
        match spec_non_empty_mode(input@) {
            Ok((m, n)) => r matches Ok((rest, v)) && v == m && 0 <= n <= input@.len() && rest@
                == input@.skip(n) && m.mode <= MODE_MAX,
            Err(e) => r == Err::<(&[u8], Mode), ParseError>(e),
        },
{
    if input.len() == 0 {
        return Err(ParseError { kind: ErrorKind::TruncatedLine, field: Field::Mode, offset: 0 });
    }
    let masked = input[0] == '~' as u8;
    let at: usize = if masked { 1 } else { 0 };
    let most: usize = if at < input.len() && input[at] == '0' as u8 { 5 } else { 4 };
    let run = run_length(split(input, at).0, ByteClass::OctalDigit);
    if run < 3 {
        return Err(ParseError { kind: ErrorKind::MalformedMode, field: Field::Mode, offset: 0 });
    }
    let len: usize = if run < most { run } else { most };
    proof {
        lemma_mode_digits(input@);
    }
    let digits = slice_subrange(input, at, at + len);
    match in_radix(digits, 8) {
        Some(mode) => Ok((split(input, at + len).0, Mode::new(masked, mode))),
        None => Err(ParseError { kind: ErrorKind::MalformedMode, field: Field::Mode, offset: 0 }),
    }
}

/// Reads the mode field: `None` for the placeholder.
pub fn mode<'a>(input: &'a [u8]) -> (r: Result<(&'a [u8], Option<Mode>), ParseError>)
    ensures
        match spec_mode(input@) {
            Ok((m, n)) => r matches Ok((rest, v)) && v == m && 0 <= n <= input@.len() && rest@
                == input@.skip(n),
            Err(e) => r == Err::<(&[u8], Option<Mode>), ParseError>(e),
        },
        r matches Ok((_, Some(m))) ==> m.mode <= MODE_MAX,
{
    match empty_placeholder(input) {
        Some((rest, _)) => Ok((rest, None)),
        None => match non_empty_mode(input) {
            Ok((rest, m)) => Ok((rest, Some(m))),
            Err(e) => Err(e),
        },
    }
}

} // verus!
