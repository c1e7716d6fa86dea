//! Every action that the parser gives is well formed.

use crate::canonical::owner_well_formed;
use crate::common::action::{Mode, Owner, MODE_MAX};
use crate::parser::age::{lemma_age_length, spec_age};
use crate::parser::basic::{
    all_in, is_blank, lemma_run_len, run_len, spec_empty_placeholder, then_separator, ByteClass,
};
use crate::parser::error::{Field, ParseError};
use crate::parser::item::{spec_item_type, spec_type_and_modifiers};
use crate::parser::line::{closed_at, spec_argument, spec_parse_line};
use crate::parser::mode::{lemma_mode_digits, spec_mode};

use crate::parser::owner::{spec_group, spec_owner, spec_path, spec_user, token};
use vstd::prelude::*;

verus! {

/// No blank stands at the head of `s`: the state of the input where a
/// field begins, right behind a separator.
pub open spec fn begins_solid(s: Seq<u8>) -> bool {
    s.len() > 0 ==> !is_blank(s[0])
}

/// A field read with its separator: the separator is there, at the end of
/// the field, and no blank follows it.
pub proof fn lemma_then_separator<T>(
    s: Seq<u8>,
    field: Result<(T, int), ParseError>,
    after: Field,
)
    requires
        then_separator(s, field, after) is Ok,
        field matches Ok((_, n)) ==> 0 <= n <= s.len(),
    ensures
        field is Ok,
        field->Ok_0.0 == then_separator(s, field, after)->Ok_0.0,
        field->Ok_0.1 < then_separator(s, field, after)->Ok_0.1 <= s.len(),
        is_blank(s[field->Ok_0.1]),
        begins_solid(s.skip(then_separator(s, field, after)->Ok_0.1)),
{
    let n = field->Ok_0.1;
    let t = s.skip(n);
    lemma_run_len(t, ByteClass::Blank);
    let m = run_len(t, ByteClass::Blank) as int;
    assert(t.take(m)[0] == t[0]);
    assert(s.skip(n + m) =~= t.skip(m));
}

/// The same of a field that is read at an offset of the line.
pub proof fn lemma_closed_at_solid<T>(
    line: Seq<u8>,
    at: int,
    parsed: Result<(T, int), ParseError>,
    field: Field,
)
    requires
        0 <= at <= line.len(),
        closed_at(line, at, parsed, field) is Ok,
        parsed matches Ok((_, n)) ==> 0 <= n <= line.len() - at,
    ensures
        parsed is Ok,
        parsed->Ok_0.0 == closed_at(line, at, parsed, field)->Ok_0.0,
        at + parsed->Ok_0.1 < closed_at(line, at, parsed, field)->Ok_0.1 <= line.len(),
        is_blank(line.skip(at)[parsed->Ok_0.1]),
        begins_solid(line.skip(closed_at(line, at, parsed, field)->Ok_0.1)),
{
    let s = line.skip(at);
    lemma_then_separator(s, parsed, field);
    let n = then_separator(s, parsed, field)->Ok_0.1;
    assert(s.skip(n) =~= line.skip(at + n));
}

/// A path that is read where no blank stands, and that a blank follows,
/// is not empty and holds no whitespace.
pub proof fn lemma_path_well_formed(s: Seq<u8>)
    requires
        begins_solid(s),
        spec_path(s) is Ok,
        spec_path(s)->Ok_0.1 < s.len(),
        is_blank(s[spec_path(s)->Ok_0.1]),
    ensures
        spec_path(s)->Ok_0.0.len() > 0,
        all_in(spec_path(s)->Ok_0.0, ByteClass::Solid),
{
    lemma_run_len(s, ByteClass::Solid);
}

/// A user or a group that is read where no blank stands, and that a blank
/// follows, is well formed.
pub proof fn lemma_owner_well_formed(s: Seq<u8>, field: Field)
    requires
        begins_solid(s),
        spec_owner(s, field) is Ok,
        0 <= spec_owner(s, field)->Ok_0.1 < s.len(),
        is_blank(s[spec_owner(s, field)->Ok_0.1]),
    ensures
        owner_well_formed(spec_owner(s, field)->Ok_0.0),
{
    lemma_run_len(s, ByteClass::Solid);
    if let Some(Owner::Name(name)) = spec_owner(s, field)->Ok_0.0 {
        assert(name == token(s));
        if name.len() > 0 {
            assert(name[0] == s[0]);
        }
    }
}

/// A path, a user or a group that is read is no longer than the input.
pub proof fn lemma_token_length(s: Seq<u8>)
    ensures
        token(s).len() <= s.len(),
{
    lemma_run_len(s, ByteClass::Solid);
}

/// A mode that is read has at most four octal digits, and is no longer
/// than the input.
pub proof fn lemma_mode_well_formed(s: Seq<u8>)
    ensures
        spec_mode(s) matches Ok((mode, n)) ==> 0 <= n <= s.len() && (mode matches Some(m)
            ==> m.mode <= MODE_MAX),
{
    if spec_mode(s) is Ok && !spec_empty_placeholder(s) {
        lemma_mode_digits(s);
    }
}

/// The fields of a line that is read: each is read with its separator at
/// the offset at which the one before it ended, and the action holds
/// their values.
pub proof fn lemma_disassemble(line: Seq<u8>) -> (at: (int, int, int, int, int, int))
    requires
        spec_parse_line(line) is Ok,
    ensures
        spec_item_type(line) matches Ok((head, n)) && n == at.0 && head == (
            spec_parse_line(line)->Ok_0.0.action_type,
            spec_parse_line(line)->Ok_0.0.boot_only,
            spec_parse_line(line)->Ok_0.0.append_or_force,
            spec_parse_line(line)->Ok_0.0.allow_failure,
        ),
        closed_at(line, at.0, spec_path(line.skip(at.0)), Field::Path) == Ok::<_, ParseError>(
            (spec_parse_line(line)->Ok_0.0.path, at.1),
        ),
        closed_at(line, at.1, spec_mode(line.skip(at.1)), Field::Mode) == Ok::<_, ParseError>(
            (spec_parse_line(line)->Ok_0.0.mode, at.2),
        ),
        closed_at(line, at.2, spec_user(line.skip(at.2)), Field::User) == Ok::<_, ParseError>(
            (spec_parse_line(line)->Ok_0.0.user, at.3),
        ),
        closed_at(line, at.3, spec_group(line.skip(at.3)), Field::Group) == Ok::<_, ParseError>(
            (spec_parse_line(line)->Ok_0.0.group, at.4),
        ),
        closed_at(line, at.4, spec_age(line.skip(at.4)), Field::Age) == Ok::<_, ParseError>(
            (spec_parse_line(line)->Ok_0.0.age, at.5),
        ),
        spec_parse_line(line)->Ok_0.0.argument == spec_argument(line.skip(at.5)),
{
    let n1 = spec_item_type(line)->Ok_0.1;
    let n2 = closed_at(line, n1, spec_path(line.skip(n1)), Field::Path)->Ok_0.1;
    let n3 = closed_at(line, n2, spec_mode(line.skip(n2)), Field::Mode)->Ok_0.1;
    let n4 = closed_at(line, n3, spec_user(line.skip(n3)), Field::User)->Ok_0.1;
    let n5 = closed_at(line, n4, spec_group(line.skip(n4)), Field::Group)->Ok_0.1;
    let n6 = closed_at(line, n5, spec_age(line.skip(n5)), Field::Age)->Ok_0.1;
    (n1, n2, n3, n4, n5, n6)
}

/// Every action that a line is read into is well formed.
pub proof fn lemma_parsed_well_formed(line: Seq<u8>)
    requires
        spec_parse_line(line) is Ok,
    ensures
        spec_parse_line(line)->Ok_0.0.well_formed(),
{
    let at = lemma_disassemble(line);
    let action = spec_parse_line(line)->Ok_0.0;

    lemma_then_separator(line, spec_type_and_modifiers(line), Field::ItemType);
    let s = line.skip(at.0);
    assert(begins_solid(s));

    lemma_token_length(s);
    lemma_closed_at_solid(line, at.0, spec_path(s), Field::Path);
    lemma_path_well_formed(s);
    assert(action.path.len() > 0 && all_in(action.path, ByteClass::Solid));
    let s = line.skip(at.1);

    lemma_mode_well_formed(s);
    lemma_closed_at_solid(line, at.1, spec_mode(s), Field::Mode);
    assert(action.mode matches Some(m) ==> m.mode <= MODE_MAX);
    let s = line.skip(at.2);

    lemma_token_length(s);
    lemma_closed_at_solid(line, at.2, spec_user(s), Field::User);
    lemma_owner_well_formed(s, Field::User);
    assert(owner_well_formed(action.user));
    let s = line.skip(at.3);

    lemma_token_length(s);
    lemma_closed_at_solid(line, at.3, spec_group(s), Field::Group);
    lemma_owner_well_formed(s, Field::Group);
    assert(owner_well_formed(action.group));
    let s = line.skip(at.4);

    lemma_age_length(s);
    lemma_closed_at_solid(line, at.4, spec_age(s), Field::Age);
    assert(begins_solid(line.skip(at.5)));
}

} // verus!
