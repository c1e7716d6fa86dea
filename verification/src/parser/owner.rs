//! The path, and the two fields that are spelled alike: user and group.

use crate::common::action::{group_view, user_view, Group, Owner, User};
use crate::parser::basic::{
    all_in, empty_placeholder, lemma_run_len, lemma_run_len_unique, run, run_len, run_length,
    spec_empty_placeholder, ByteClass,
};
use crate::parser::error::{ErrorKind, Field, ParseError};
use crate::parser::number::{decimal, digits_below, digits_value};
use vstd::prelude::*;

verus! {

/// The longest prefix of `s` that holds no whitespace: the token that a
/// path or a name is made of.
pub open spec fn token(s: Seq<u8>) -> Seq<u8> {
    s.take(run_len(s, ByteClass::Solid) as int)
}

/// The path field: the token at the head of the input, byte for byte. Only
/// the end of the input is an error: before whitespace the token, and with
/// it the path, is empty.
pub open spec fn spec_path(s: Seq<u8>) -> Result<(Seq<u8>, int), ParseError> {
    if s.len() == 0 {
        Err(ParseError { kind: ErrorKind::TruncatedLine, field: Field::Path, offset: 0 })
    } else {
        Ok((token(s), token(s).len() as int))
    }
}

/// A token that is a number: not empty, and decimal digits throughout.
pub open spec fn numeric(t: Seq<u8>) -> bool {
    t.len() > 0 && all_in(t, ByteClass::Digit)
}

/// The user or the group field, whichever `field` says: the placeholder;
/// or a token of digits, which is an identifier if it fits in 32 bits and
/// an error if it does not; or any other token, which is a name. The
/// placeholder is read wherever the input begins with `-`, whatever
/// follows it, so that no name begins with `-`.
pub open spec fn spec_owner(s: Seq<u8>, field: Field) -> Result<(Option<Owner>, int), ParseError> {
    if s.len() == 0 {
        Err(ParseError { kind: ErrorKind::TruncatedLine, field, offset: 0 })
    } else if spec_empty_placeholder(s) {
        Ok((None, 1))
    } else if numeric(token(s)) {
        if digits_value(token(s), 10) <= u32::MAX {
            Ok((Some(Owner::ID(digits_value(token(s), 10) as u32)), token(s).len() as int))
        } else {
            Err(ParseError { kind: ErrorKind::MalformedNumericId, field, offset: 0 })
        }
    } else {
        Ok((Some(Owner::Name(token(s))), token(s).len() as int))
    }
}

/// The user field.
pub open spec fn spec_user(s: Seq<u8>) -> Result<(Option<Owner>, int), ParseError> {
    spec_owner(s, Field::User)
}

/// The group field.
pub open spec fn spec_group(s: Seq<u8>) -> Result<(Option<Owner>, int), ParseError> {
    spec_owner(s, Field::Group)
}

/// A sequence is a run of its own length exactly if it lies in the class.
pub proof fn lemma_run_covers(t: Seq<u8>, class: ByteClass)
    ensures
        run_len(t, class) == t.len() <==> all_in(t, class),
{
    lemma_run_len(t, class);
    if run_len(t, class) == t.len() {
        assert(t.take(t.len() as int) =~= t);
    }
    if all_in(t, class) {
        lemma_run_len_unique(t, class, t.len() as int);
    }
}

/// Reads the path field.
pub fn path<'a>(input: &'a [u8]) -> (r: Result<(&'a [u8], &'a [u8]), ParseError>)
    ensures
        match spec_path(input@) {
            Ok((p, n)) => r matches Ok((rest, v)) && v@ == p && 0 <= n <= input@.len() && rest@
                == input@.skip(n),
            Err(e) => r == Err::<(&[u8], &[u8]), ParseError>(e),
        },
{
    if input.len() == 0 {
        return Err(ParseError { kind: ErrorKind::TruncatedLine, field: Field::Path, offset: 0 });
    }
    proof {
        lemma_run_len(input@, ByteClass::Solid);
    }
    Ok(run(input, ByteClass::Solid))
}

/// Reads the token of a name and returns the rest and the token.
pub fn user_or_group_name<'a>(input: &'a [u8]) -> (r: (&'a [u8], &'a [u8]))
    ensures
        r.1@ == token(input@),
        r.1@.len() <= input@.len(),
        r.0@ == input@.skip(r.1@.len() as int),
{
    proof {
        lemma_run_len(input@, ByteClass::Solid);
    }
    run(input, ByteClass::Solid)
}

/// The identifier that a numeric token spells, or `None` where it exceeds
/// 32 bits.
pub(crate) fn user_or_group_id(token: &[u8]) -> (r: Option<u32>)
    requires
        numeric(token@),
    ensures
        0 <= digits_value(token@, 10),
        r == if digits_value(token@, 10) <= u32::MAX {
            Some(digits_value(token@, 10) as u32)
        } else {
            None
        },
{
    assert(digits_below(token@, 10));
    match decimal(token) {
        Some(v) => if v <= 0xffff_ffff {
            Some(v as u32)
        } else {
            None
        },
        None => None,
    }
}

/// Reads a user or a group field; the result is spelled as a user.
fn owner<'a>(input: &'a [u8], field: Field) -> (r: Result<
    (&'a [u8], Option<User<'a>>),
    ParseError,
>)
    ensures
        match spec_owner(input@, field) {
            Ok((o, n)) => r matches Ok((rest, v)) && user_view(v) == o && 0 <= n <= input@.len()
                && rest@ == input@.skip(n),
            Err(e) => r == Err::<(&[u8], Option<User>), ParseError>(e),
        },
{
    if input.len() == 0 {
        return Err(ParseError { kind: ErrorKind::TruncatedLine, field, offset: 0 });
    }
    match empty_placeholder(input) {
        Some((rest, _)) => {
            return Ok((rest, None));
        },
        None => {},
    }
    let (rest, name) = user_or_group_name(input);
    let digits = run_length(name, ByteClass::Digit);
    proof {
        lemma_run_covers(name@, ByteClass::Digit);
    }
    if name.len() > 0 && digits == name.len() {
        match user_or_group_id(name) {
            Some(id) => Ok((rest, Some(User::ID(id)))),
            None => Err(ParseError { kind: ErrorKind::MalformedNumericId, field, offset: 0 }),
        }
    } else {
        Ok((rest, Some(User::Name(name))))
    }
}

/// Reads the user field: `None` for the placeholder.
pub fn user<'a>(input: &'a [u8]) -> (r: Result<(&'a [u8], Option<User<'a>>), ParseError>)
    ensures
        match spec_user(input@) {
            Ok((o, n)) => r matches Ok((rest, v)) && user_view(v) == o && 0 <= n <= input@.len()
                && rest@ == input@.skip(n),
            Err(e) => r == Err::<(&[u8], Option<User>), ParseError>(e),
        },
{
    owner(input, Field::User)
}

/// Reads the group field: `None` for the placeholder.
pub fn group<'a>(input: &'a [u8]) -> (r: Result<(&'a [u8], Option<Group<'a>>), ParseError>)
    ensures
        match spec_group(input@) {
            Ok((o, n)) => r matches Ok((rest, v)) && group_view(v) == o && 0 <= n <= input@.len()
                && rest@ == input@.skip(n),
            Err(e) => r == Err::<(&[u8], Option<Group>), ParseError>(e),
        },
{
    match owner(input, Field::Group) {
        Ok((rest, None)) => Ok((rest, None)),
        Ok((rest, Some(User::Name(name)))) => Ok((rest, Some(Group::Name(name)))),
        Ok((rest, Some(User::ID(id)))) => Ok((rest, Some(Group::ID(id)))),
        Err(e) => Err(e),
    }
}

} // verus!
