//! The first field: the type character and its modifiers.

use crate::common::action::{valid_item_type_char, ItemTypes};
use crate::parser::basic::{separator, split, then_separator};
use crate::parser::error::{ErrorKind, Field, ParseError};
use vstd::prelude::*;

verus! {

/// The item type that the first byte of `s` stands for, and the length of
/// that byte.
pub open spec fn spec_item_type_char(s: Seq<u8>) -> Result<(ItemTypes, int), ParseError> {
    if s.len() == 0 {
        Err(ParseError { kind: ErrorKind::TruncatedLine, field: Field::ItemType, offset: 0 })
    } else {
        match ItemTypes::spec_of_char(s[0] as char) {
            Some(t) => Ok((t, 1)),
            None => Err(
                ParseError {
                    kind: ErrorKind::UnknownItemType(s[0] as char),
                    field: Field::ItemType,
                    offset: 0,
                },
            ),
        }
    }
}

/// The byte `mark` stands in `s` at the index `at`.
pub open spec fn marked(s: Seq<u8>, at: int, mark: u8) -> bool {
    0 <= at < s.len() && s[at] == mark
}

/// The type character and the modifiers behind it: `!` for boot only, `+`
/// for append or force, `-` for allow failure. Each may stand once, in
/// this order.
pub open spec fn spec_type_and_modifiers(s: Seq<u8>) -> Result<
    ((ItemTypes, bool, bool, bool), int),
    ParseError,
> {
    match spec_item_type_char(s) {
        Err(e) => Err(e),
        Ok((t, n)) => {
            let boot_only = marked(s, n, '!' as u8);
            let n1 = if boot_only { n + 1 } else { n };
            let append_or_force = marked(s, n1, '+' as u8);
            let n2 = if append_or_force { n1 + 1 } else { n1 };
            let allow_failure = marked(s, n2, '-' as u8);
            let n3 = if allow_failure { n2 + 1 } else { n2 };
            Ok(((t, boot_only, append_or_force, allow_failure), n3))
        },
    }
}

/// The first field with the separator that ends it.
pub open spec fn spec_item_type(s: Seq<u8>) -> Result<
    ((ItemTypes, bool, bool, bool), int),
    ParseError,
> {
    then_separator(s, spec_type_and_modifiers(s), Field::ItemType)
}

/// Reads the type character.
pub fn item_type_char<'a>(input: &'a [u8]) -> (r: Result<(&'a [u8], ItemTypes), ParseError>)
    ensures
        match spec_item_type_char(input@) {
            Ok((t, n)) => r matches Ok((rest, v)) && v == t && 0 <= n <= input@.len() && rest@
                == input@.skip(n),
            Err(e) => r == Err::<(&[u8], ItemTypes), ParseError>(e),
        },
        input@.len() > 0 && !valid_item_type_char(input@[0] as char) ==> r is Err,
{
    if input.len() == 0 {
        return Err(
            ParseError { kind: ErrorKind::TruncatedLine, field: Field::ItemType, offset: 0 },
        );
    }
    let c = input[0] as char;
    match ItemTypes::try_from(c) {
        Ok(t) => Ok((split(input, 1).0, t)),
        Err(invalid) => Err(
            ParseError {
                kind: ErrorKind::UnknownItemType(invalid.character),
                field: Field::ItemType,
                offset: 0,
            },
        ),
    }
}

/// Reads the type character and the modifiers behind it: the item type
/// and the three modifiers, boot only, append or force, allow failure.
pub fn type_and_modifiers<'a>(input: &'a [u8]) -> (r: Result<
    (&'a [u8], (ItemTypes, bool, bool, bool)),
    ParseError,
>)
    ensures
        match spec_type_and_modifiers(input@) {
            Ok((v, n)) => r matches Ok((rest, w)) && w == v && 0 <= n <= input@.len() && rest@
                == input@.skip(n),
            Err(e) => r == Err::<(&[u8], (ItemTypes, bool, bool, bool)), ParseError>(e),
        },
        input@.len() > 0 && !valid_item_type_char(input@[0] as char) ==> r is Err,
{
    let t = match item_type_char(input) {
        Ok((_, t)) => t,
        Err(e) => {
            return Err(e);
        },
    };
    let mut n: usize = 1;
    let boot_only = n < input.len() && input[n] == '!' as u8;
    if boot_only {
        n = n + 1;
    }
    let append_or_force = n < input.len() && input[n] == '+' as u8;
    if append_or_force {
        n = n + 1;
    }
    let allow_failure = n < input.len() && input[n] == '-' as u8;
    if allow_failure {
        n = n + 1;
    }
    Ok((split(input, n).0, (t, boot_only, append_or_force, allow_failure)))
}

/// Reads the first field and the separator behind it: the item type and
/// the three modifiers.
pub fn item_type<'a>(input: &'a [u8]) -> (r: Result<
    (&'a [u8], (ItemTypes, bool, bool, bool)),
    ParseError,
>)
    ensures
        match spec_item_type(input@) {
            Ok((v, n)) => r matches Ok((rest, w)) && w == v && 0 <= n <= input@.len() && rest@
                == input@.skip(n),
            Err(e) => r == Err::<(&[u8], (ItemTypes, bool, bool, bool)), ParseError>(e),
        },
        input@.len() > 0 && !valid_item_type_char(input@[0] as char) ==> r is Err,
{
    let (after, read) = type_and_modifiers(input)?;
    let n = input.len() - after.len();
    match separator(after, Field::ItemType) {
        Ok(rest) => {
            proof {
                let m = spec_item_type(input@)->Ok_0.1 - n;
                assert(input@.skip(n as int).skip(m) =~= input@.skip(n + m));
            }
            Ok((rest, read))
        },
        Err(e) => Err(e.shifted(n)),
    }
}

} // verus!
