//! The last field, and the line as a whole.

use crate::common::action::{
    bytes_view, group_view, user_view, valid_item_type_char, Action, ActionView, CleanupAge, Group,
    ItemTypes, Mode, User,
};
use crate::parser::age::{age, spec_age};
use crate::parser::basic::{separator, spec_separator, split, then_separator};
use crate::parser::error::{ErrorKind, Field, ParseError};
use crate::parser::item::{item_type, spec_item_type};
use crate::parser::mode::{mode, spec_mode};
use crate::parser::owner::{group, path, spec_group, spec_path, spec_user, user};
use crate::well_formed::lemma_parsed_well_formed;
use vstd::prelude::*;

verus! {

/// The argument field: all that is left of the line, byte for byte,
/// blanks and line feeds too. Nothing at all, or the placeholder alone,
/// says that no argument is given.
pub open spec fn spec_argument(s: Seq<u8>) -> Option<Seq<u8>> {
    if s.len() == 0 || s == seq!['-' as u8] {
        None
    } else {
        Some(s)
    }
}

/// A field that starts at the offset `at` of the line `s`, read together
/// with the separator behind it: its value and the offset at which the
/// next field starts, or its error at its offset in the line.
pub open spec fn closed_at<T>(
    s: Seq<u8>,
    at: int,
    parsed: Result<(T, int), ParseError>,
    field: Field,
) -> Result<(T, int), ParseError> {
    match then_separator(s.skip(at), parsed, field) {
        Ok((value, n)) => Ok((value, at + n)),
        Err(e) => Err(e.spec_shifted(at)),
    }
}

/// One line: the type with its modifiers, the path, the mode, the user,
/// the group and the age, a separator behind each, then the argument,
/// which takes the rest. The first field that fails fails the line. The
/// number beside the action is the count of bytes read, which is all of
/// them.
pub open spec fn spec_parse_line(s: Seq<u8>) -> Result<(ActionView, int), ParseError> {
    match spec_item_type(s) {
        Err(e) => Err(e),
        Ok((head, n1)) => match closed_at(s, n1, spec_path(s.skip(n1)), Field::Path) {
            Err(e) => Err(e),
            Ok((path, n2)) => match closed_at(s, n2, spec_mode(s.skip(n2)), Field::Mode) {
                Err(e) => Err(e),
                Ok((mode, n3)) => match closed_at(s, n3, spec_user(s.skip(n3)), Field::User) {
                    Err(e) => Err(e),
                    Ok((user, n4)) => match closed_at(
                        s,
                        n4,
                        spec_group(s.skip(n4)),
                        Field::Group,
                    ) {
                        Err(e) => Err(e),
                        Ok((group, n5)) => match closed_at(
                            s,
                            n5,
                            spec_age(s.skip(n5)),
                            Field::Age,
                        ) {
                            Err(e) => Err(e),
                            Ok((age, n6)) => Ok(
                                (
                                    ActionView {
                                        action_type: head.0,
                                        path,
                                        mode,
                                        user,
                                        group,
                                        age,
                                        argument: spec_argument(s.skip(n6)),
                                        boot_only: head.1,
                                        append_or_force: head.2,
                                        allow_failure: head.3,
                                    },
                                    s.len() as int,
                                ),
                            ),
                        },
                    },
                },
            },
        },
    }
}

/// A line whose first byte is outside the alphabet of type characters is
/// rejected for that byte, whatever follows it.
pub proof fn lemma_outside_alphabet(s: Seq<u8>)
    requires
        s.len() > 0,
        !valid_item_type_char(s[0] as char),
    ensures
        spec_item_type(s) == Err::<((ItemTypes, bool, bool, bool), int), ParseError>(
            ParseError {
                kind: ErrorKind::UnknownItemType(s[0] as char),
                field: Field::ItemType,
                offset: 0,
            },
        ),
        spec_parse_line(s) == Err::<(ActionView, int), ParseError>(
            ParseError {
                kind: ErrorKind::UnknownItemType(s[0] as char),
                field: Field::ItemType,
                offset: 0,
            },
        ),
{
}

/// Reads the argument field. It never fails, and leaves nothing unread.
pub fn argument<'a>(input: &'a [u8]) -> (r: Result<(&'a [u8], Option<&'a [u8]>), ParseError>)
    ensures
        r matches Ok((rest, v)) && rest@.len() == 0 && rest@ == input@.skip(input@.len() as int)
            && bytes_view(v) == spec_argument(input@),
{
    let rest = split(input, input.len()).0;
    if input.len() == 0 || (input.len() == 1 && input[0] == '-' as u8) {
        assert(input@.len() == 1 && input@[0] == '-' as u8 ==> input@ =~= seq!['-' as u8]);
        Ok((rest, None))
    } else {
        assert(seq!['-' as u8].len() == 1 && seq!['-' as u8][0] == '-' as u8);
        Ok((rest, Some(input)))
    }
}

/// Reads the separator behind `field`, which ends in `line` where `rest`
/// begins, at the offset `at`.
fn close<'a>(line: &'a [u8], at: usize, rest: &'a [u8], field: Field) -> (r: Result<
    (&'a [u8], usize),
    ParseError,
>)
    requires
        at <= line@.len(),
        rest@ == line@.skip(at as int),
    ensures
        match spec_separator(rest@, field) {
            Ok(n) => r matches Ok((next, to)) && to == at + n && to <= line@.len() && next@
                == line@.skip(to as int),
            Err(e) => r == Err::<(&[u8], usize), ParseError>(e.spec_shifted(at as int)),
        },
{
    match separator(rest, field) {
        Ok(next) => {
            proof {
                let n = spec_separator(rest@, field)->Ok_0;
                assert(line@.skip(at as int).skip(n) =~= line@.skip(at + n));
            }
            Ok((next, line.len() - next.len()))
        },
        Err(e) => Err(e.shifted(at)),
    }
}

/// Reads the path and its separator, at the offset `at` of `line`,
/// where `rest` begins.
fn path_at<'a>(line: &'a [u8], at: usize, rest: &'a [u8]) -> (r: Result<
    (&'a [u8], usize, &'a [u8]),
    ParseError,
>)
    requires
        at <= line@.len(),
        rest@ == line@.skip(at as int),
    ensures
        match closed_at(line@, at as int, spec_path(line@.skip(at as int)), Field::Path) {
            Ok((value, to)) => r matches Ok((next, t, v)) && v@ == value && t == to && to
                <= line@.len() && next@ == line@.skip(to),
            Err(e) => r == Err::<(&[u8], usize, &'a [u8]), ParseError>(e),
        },
{
    let (after, value) = match path(rest) {
        Ok(read) => read,
        Err(e) => {
            return Err(e.shifted(at));
        },
    };
    proof {
        let n = spec_path(rest@)->Ok_0.1;
        assert(line@.skip(at as int).skip(n) =~= line@.skip(at + n));
    }
    let (next, to) = close(line, line.len() - after.len(), after, Field::Path)?;
    Ok((next, to, value))
}

/// Reads the mode and its separator, at the offset `at` of `line`,
/// where `rest` begins.
fn mode_at<'a>(line: &'a [u8], at: usize, rest: &'a [u8]) -> (r: Result<
    (&'a [u8], usize, Option<Mode>),
    ParseError,
>)
    requires
        at <= line@.len(),
        rest@ == line@.skip(at as int),
    ensures
        match closed_at(line@, at as int, spec_mode(line@.skip(at as int)), Field::Mode) {
            Ok((value, to)) => r matches Ok((next, t, v)) && v == value && t == to && to
                <= line@.len() && next@ == line@.skip(to),
            Err(e) => r == Err::<(&[u8], usize, Option<Mode>), ParseError>(e),
        },
{
    let (after, value) = match mode(rest) {
        Ok(read) => read,
        Err(e) => {
            return Err(e.shifted(at));
        },
    };
    proof {
        let n = spec_mode(rest@)->Ok_0.1;
        assert(line@.skip(at as int).skip(n) =~= line@.skip(at + n));
    }
    let (next, to) = close(line, line.len() - after.len(), after, Field::Mode)?;
    Ok((next, to, value))
}

/// Reads the user and its separator, at the offset `at` of `line`,
/// where `rest` begins.
fn user_at<'a>(line: &'a [u8], at: usize, rest: &'a [u8]) -> (r: Result<
    (&'a [u8], usize, Option<User<'a>>),
    ParseError,
>)
    requires
        at <= line@.len(),
        rest@ == line@.skip(at as int),
    ensures
        match closed_at(line@, at as int, spec_user(line@.skip(at as int)), Field::User) {
            Ok((value, to)) => r matches Ok((next, t, v)) && user_view(v) == value && t == to && to
                <= line@.len() && next@ == line@.skip(to),
            Err(e) => r == Err::<(&[u8], usize, Option<User<'a>>), ParseError>(e),
        },
{
    let (after, value) = match user(rest) {
        Ok(read) => read,
        Err(e) => {
            return Err(e.shifted(at));
        },
    };
    proof {
        let n = spec_user(rest@)->Ok_0.1;
        assert(line@.skip(at as int).skip(n) =~= line@.skip(at + n));
    }
    let (next, to) = close(line, line.len() - after.len(), after, Field::User)?;
    Ok((next, to, value))
}

/// Reads the group and its separator, at the offset `at` of `line`,
/// where `rest` begins.
fn group_at<'a>(line: &'a [u8], at: usize, rest: &'a [u8]) -> (r: Result<
    (&'a [u8], usize, Option<Group<'a>>),
    ParseError,
>)
    requires
        at <= line@.len(),
        rest@ == line@.skip(at as int),
    ensures
        match closed_at(line@, at as int, spec_group(line@.skip(at as int)), Field::Group) {
            Ok((value, to)) => r matches Ok((next, t, v)) && group_view(v) == value && t == to && to
                <= line@.len() && next@ == line@.skip(to),
            Err(e) => r == Err::<(&[u8], usize, Option<Group<'a>>), ParseError>(e),
        },
{
    let (after, value) = match group(rest) {
        Ok(read) => read,
        Err(e) => {
            return Err(e.shifted(at));
        },
    };
    proof {
        let n = spec_group(rest@)->Ok_0.1;
        assert(line@.skip(at as int).skip(n) =~= line@.skip(at + n));
    }
    let (next, to) = close(line, line.len() - after.len(), after, Field::Group)?;
    Ok((next, to, value))
}

/// Reads the age and its separator, at the offset `at` of `line`,
/// where `rest` begins.
fn age_at<'a>(line: &'a [u8], at: usize, rest: &'a [u8]) -> (r: Result<
    (&'a [u8], usize, Option<CleanupAge>),
    ParseError,
>)
    requires
        at <= line@.len(),
        rest@ == line@.skip(at as int),
    ensures
        match closed_at(line@, at as int, spec_age(line@.skip(at as int)), Field::Age) {
            Ok((value, to)) => r matches Ok((next, t, v)) && v == value && t == to && to
                <= line@.len() && next@ == line@.skip(to),
            Err(e) => r == Err::<(&[u8], usize, Option<CleanupAge>), ParseError>(e),
        },
{
    let (after, value) = match age(rest) {
        Ok(read) => read,
        Err(e) => {
            return Err(e.shifted(at));
        },
    };
    proof {
        let n = spec_age(rest@)->Ok_0.1;
        assert(line@.skip(at as int).skip(n) =~= line@.skip(at + n));
    }
    let (next, to) = close(line, line.len() - after.len(), after, Field::Age)?;
    Ok((next, to, value))
}

/// Reads one line into an action. On success nothing of the line is left
/// unread: the argument takes all that follows the age and its separator.
pub fn parse_line<'a>(input: &'a [u8]) -> (r: Result<(&'a [u8], Action<'a>), ParseError>)
    ensures
        match spec_parse_line(input@) {
            Ok((action, n)) => r matches Ok((rest, v)) && v@ == action && n == input@.len()
                && rest@ == input@.skip(n),
            Err(e) => r == Err::<(&[u8], Action), ParseError>(e),
        },
        r matches Ok((_, v)) ==> v@.well_formed(),
{
    let (rest, (action_type, boot_only, append_or_force, allow_failure)) = item_type(input)?;
    let (rest, at, path) = path_at(input, input.len() - rest.len(), rest)?;
    let (rest, at, mode) = mode_at(input, at, rest)?;
    let (rest, at, user) = user_at(input, at, rest)?;
    let (rest, at, group) = group_at(input, at, rest)?;
    let (rest, at, age) = age_at(input, at, rest)?;
    let (rest, argument) = argument(rest)?;
    proof {
        assert(rest@ =~= input@.skip(input@.len() as int));
        lemma_parsed_well_formed(input@);
    }
    Ok(
        (
            rest,
            Action {
                action_type,
                path,
                mode,
                user,
                group,
                age,
                argument,
                boot_only,
                append_or_force,
                allow_failure,
            },
        ),
    )
}

} // verus!
