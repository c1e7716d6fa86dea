//! Reading a canonical line gives back the action that it was written
//! from, and every action that is read can be so written.

use crate::canonical::{
    canonical_age, canonical_argument, canonical_field, canonical_from, canonical_item_type,
    canonical_line, canonical_mode, canonical_owner, flag, microseconds, octal, owner_well_formed,
    placeholder,
};
use crate::common::action::{
    lemma_item_type_char, ActionView, CleanupAge, ItemTypes, Mode, Owner, MODE_MAX,
};
use crate::parser::age::{
    spec_age, spec_age_without_unit, spec_component, spec_duration, spec_units, TimeUnit,
};
use crate::parser::basic::{
    all_in, is_blank, lemma_run_len_unique, run_len, spec_empty_placeholder, spec_separator,
    ByteClass,
};
use crate::parser::error::{Field, ParseError};
use crate::parser::item::{marked, spec_item_type, spec_item_type_char, spec_type_and_modifiers};
use crate::parser::line::{closed_at, spec_argument, spec_parse_line};
use crate::parser::mode::{mode_digits_at, spec_mode};
use crate::parser::number::{
    digit, digits_below, digits_value, lemma_decimal, lemma_digits_value_push, spec_decimal,
};
use crate::parser::owner::{spec_group, spec_owner, spec_path, spec_user, token};
use crate::well_formed::lemma_parsed_well_formed;
use vstd::prelude::*;
use vstd::string::{is_ascii_spec_bytes, StringSliceAdditionalSpecFns};

verus! {

/// What follows a field in a canonical line: one space, and then no blank.
pub open spec fn closes(tail: Seq<u8>) -> bool {
    &&& tail.len() > 0
    &&& tail[0] == ' ' as u8
    &&& tail.len() > 1 ==> !is_blank(tail[1])
}

/// Such a tail is a separator of length one, whatever field it follows.
pub proof fn lemma_closing_separator(tail: Seq<u8>, after: Field)
    requires
        closes(tail),
    ensures
        spec_separator(tail, after) == Ok::<int, ParseError>(1),
{
    lemma_run_len_unique(tail, ByteClass::Blank, 1);
}

/// Where the placeholder is written, the placeholder is read, and no mark
/// before it.
pub proof fn lemma_placeholder_before(tail: Seq<u8>)
    ensures
        spec_empty_placeholder(placeholder() + tail),
        spec_empty_placeholder((placeholder() + tail).skip(0)),
        !marked(placeholder() + tail, 0, '~' as u8),
        placeholder().len() == 1,
{
    let s = placeholder() + tail;
    assert(s[0] == placeholder()[0]);
    assert(s.skip(0) =~= s);
}

/// A token with such a tail behind it is read whole.
pub proof fn lemma_token_before(t: Seq<u8>, tail: Seq<u8>)
    requires
        all_in(t, ByteClass::Solid),
        closes(tail),
    ensures
        token(t + tail) == t,
{
    let s = t + tail;
    assert forall|i: int| 0 <= i < t.len() implies ByteClass::Solid.spec_contains(
        #[trigger] s[i],
    ) by {
        assert(s[i] == t[i]);
    }
    assert(s[t.len() as int] == tail[0]);
    lemma_run_len_unique(s, ByteClass::Solid, t.len() as int);
    assert(s.take(t.len() as int) =~= t);
}

/// The path of a canonical line is read back.
pub proof fn lemma_path_round_trip(path: Seq<u8>, tail: Seq<u8>)
    requires
        all_in(path, ByteClass::Solid),
        closes(tail),
    ensures
        spec_path(path + tail) == Ok::<(Seq<u8>, int), ParseError>((path, path.len() as int)),
{
    lemma_token_before(path, tail);
}

/// A user or a group of a canonical line is read back.
pub proof fn lemma_owner_round_trip(owner: Option<Owner>, field: Field, tail: Seq<u8>)
    requires
        owner_well_formed(owner),
        closes(tail),
    ensures
        spec_owner(canonical_owner(owner) + tail, field) == Ok::<(Option<Owner>, int), ParseError>(
            (owner, canonical_owner(owner).len() as int),
        ),
{
    let written = canonical_owner(owner);
    let s = written + tail;
    match owner {
        None => {
            lemma_placeholder_before(tail);
        },
        Some(Owner::Name(name)) => {
            assert(s[0] == name[0]);
            lemma_token_before(name, tail);
        },
        Some(Owner::ID(id)) => {
            lemma_decimal(id as nat);
            assert(s[0] == written[0]);
            assert forall|i: int| 0 <= i < written.len() implies ByteClass::Solid.spec_contains(
                #[trigger] written[i],
            ) && ByteClass::Digit.spec_contains(written[i]) by {
                assert(0x30 <= written[i] < 0x30 + 10);
            }
            lemma_token_before(written, tail);
        },
    }
}

/// Four octal digits are worth what they were written from.
pub proof fn lemma_octal(mode: u32)
    requires
        mode <= MODE_MAX,
    ensures
        octal(mode).len() == 4,
        digits_below(octal(mode), 8),
        digits_value(octal(mode), 8) == mode,
{
    let m = mode as int;
    let d3 = digit((m / 512) % 8);
    let d2 = digit((m / 64) % 8);
    let d1 = digit((m / 8) % 8);
    let d0 = digit(m % 8);
    let none = Seq::<u8>::empty();
    assert(digits_value(none, 8) == 0);
    lemma_digits_value_push(none, d3, 8);
    lemma_digits_value_push(none.push(d3), d2, 8);
    lemma_digits_value_push(none.push(d3).push(d2), d1, 8);
    lemma_digits_value_push(none.push(d3).push(d2).push(d1), d0, 8);
    assert(octal(mode) =~= none.push(d3).push(d2).push(d1).push(d0));
}

/// The mode of a canonical line is read back.
pub proof fn lemma_mode_round_trip(mode: Option<Mode>, tail: Seq<u8>)
    requires
        mode matches Some(m) ==> m.mode <= MODE_MAX,
        closes(tail),
    ensures
        spec_mode(canonical_mode(mode) + tail) == Ok::<(Option<Mode>, int), ParseError>(
            (mode, canonical_mode(mode).len() as int),
        ),
{
    let written = canonical_mode(mode);
    let s = written + tail;
    match mode {
        None => {
            lemma_placeholder_before(tail);
        },
        Some(m) => {
            lemma_octal(m.mode);
            let digits = octal(m.mode);
            let k: int = if m.masked { 1 } else { 0 };
            assert(written.len() == k + 4);
            assert forall|i: int| 0 <= i < 4 implies s[k + i] == #[trigger] digits[i] by {
                assert(s[k + i] == written[k + i]);
            }
            assert(s[0] == written[0]);
            assert(s[k + 4] == tail[0]);
            assert(0x30 <= digits[0] < 0x38);
            assert(marked(s, 0, '~' as u8) == m.masked);
            assert(!spec_empty_placeholder(s));
            let at = mode_digits_at(s);
            assert(at == k);
            assert forall|i: int| 0 <= i < 4 implies ByteClass::OctalDigit.spec_contains(
                #[trigger] s.skip(at)[i],
            ) by {
                assert(s.skip(at)[i] == digits[i]);
            }
            assert(s.skip(at)[4] == tail[0]);
            lemma_run_len_unique(s.skip(at), ByteClass::OctalDigit, 4);
            assert(s.subrange(at, at + 4) =~= digits);
        },
    }
}

/// The word `microseconds` is twelve letters.
pub proof fn lemma_microseconds()
    ensures
        microseconds().len() == 12,
        all_in(microseconds(), ByteClass::Letter),
        microseconds()[0] == 'm' as u8,
        microseconds()[1] == 'i' as u8,
        microseconds()[2] == 'c' as u8,
{
    reveal_strlit("microseconds");
    is_ascii_spec_bytes("microseconds");
}

/// The word `microseconds` names that unit and no other.
pub proof fn lemma_microseconds_named(unit: TimeUnit)
    ensures
        unit.spec_named(microseconds()) <==> unit == TimeUnit::Microseconds,
{
    lemma_microseconds();
    match unit {
        TimeUnit::Weeks => {
            reveal_strlit("w");
            reveal_strlit("weeks");
            is_ascii_spec_bytes("w");
            is_ascii_spec_bytes("weeks");
        },
        TimeUnit::Days => {
            reveal_strlit("d");
            reveal_strlit("days");
            is_ascii_spec_bytes("d");
            is_ascii_spec_bytes("days");
        },
        TimeUnit::Hours => {
            reveal_strlit("h");
            reveal_strlit("hours");
            is_ascii_spec_bytes("h");
            is_ascii_spec_bytes("hours");
        },
        TimeUnit::Minutes => {
            reveal_strlit("m");
            reveal_strlit("min");
            reveal_strlit("minutes");
            is_ascii_spec_bytes("m");
            is_ascii_spec_bytes("min");
            is_ascii_spec_bytes("minutes");
        },
        TimeUnit::Seconds => {
            reveal_strlit("s");
            reveal_strlit("seconds");
            is_ascii_spec_bytes("s");
            is_ascii_spec_bytes("seconds");
        },
        TimeUnit::Milliseconds => {
            reveal_strlit("ms");
            reveal_strlit("milliseconds");
            is_ascii_spec_bytes("ms");
            is_ascii_spec_bytes("milliseconds");
            assert("milliseconds".spec_bytes()[2] == 'l' as u8);
        },
        TimeUnit::Microseconds => {},
    }
}

/// Where the only unit present is the last, the units together are worth
/// what that one is worth.
pub proof fn lemma_only_microseconds(s: Seq<u8>, first: TimeUnit)
    requires
        forall|unit: TimeUnit|
            unit != TimeUnit::Microseconds ==> #[trigger] spec_component(s, unit) == (0int, 0int),
    ensures
        spec_units(s, Some(first)) == spec_component(s, TimeUnit::Microseconds),
    decreases first.spec_shorter(),
{
    let head = spec_component(s, first);
    let tail = spec_units(s.skip(head.1), first.spec_following());
    assert(spec_units(s, Some(first)) == (head.0 + tail.0, head.1 + tail.1));
    match first.spec_following() {
        None => {
            assert(first == TimeUnit::Microseconds);
            assert(tail == (0int, 0int));
            assert(head == (head.0, head.1));
        },
        Some(next) => {
            assert(head == (0int, 0int));
            assert(s.skip(0) =~= s);
            lemma_only_microseconds(s, next);
            assert(tail == (tail.0, tail.1));
        },
    }
}

/// A number of microseconds, written with its unit and closed, is an age
/// with units and none without, and is worth the number.
pub proof fn lemma_duration_round_trip(usec: u64, tail: Seq<u8>)
    requires
        closes(tail),
    ensures
        spec_duration(spec_decimal(usec as nat) + microseconds() + tail) == (
            usec as int,
            spec_decimal(usec as nat).len() as int + 12,
        ),
        !spec_empty_placeholder(spec_decimal(usec as nat) + microseconds() + tail),
{
    let number = spec_decimal(usec as nat);
    let word = microseconds();
    let d = number.len() as int;
    let given = number + word + tail;
    lemma_decimal(usec as nat);
    lemma_microseconds();
    lemma_microseconds_named(TimeUnit::Microseconds);
    assert(given[0] == number[0]);
    assert forall|i: int| 0 <= i < d implies ByteClass::Digit.spec_contains(
        #[trigger] given[i],
    ) by {
        assert(given[i] == number[i]);
    }
    assert(given[d] == word[0]);
    lemma_run_len_unique(given, ByteClass::Digit, d);
    assert(given.take(d) =~= number);
    let rest = given.skip(d);
    assert(rest =~= word + tail);
    assert forall|i: int| 0 <= i < 12 implies ByteClass::Letter.spec_contains(
        #[trigger] rest[i],
    ) by {
        assert(rest[i] == word[i]);
    }
    assert(rest[12] == tail[0]);
    lemma_run_len_unique(rest, ByteClass::Letter, 12);
    assert(given.subrange(d, d + 12) =~= word);
    assert forall|unit: TimeUnit| unit != TimeUnit::Microseconds implies #[trigger] spec_component(
        given,
        unit,
    ) == (0int, 0int) by {
        lemma_microseconds_named(unit);
    }
    lemma_only_microseconds(given, TimeUnit::Weeks);
    assert(run_len(given, ByteClass::Digit) == d);
    assert(run_len(given.skip(d), ByteClass::Letter) == 12);
    assert(TimeUnit::Microseconds.spec_named(given.subrange(d, d + 12)));
    let value = digits_value(given.take(d), 10);
    let per = TimeUnit::Microseconds.spec_usec() as int;
    assert(value == usec);
    assert(per == 1);
    assert(value * per == usec) by (nonlinear_arith)
        requires
            value == usec,
            per == 1,
    ;
    assert(spec_component(given, TimeUnit::Microseconds) == (usec as int, d + 12));
    assert(spec_age_without_unit(given) is None);
}

/// The age of a canonical line is read back.
pub proof fn lemma_age_round_trip(age: Option<CleanupAge>, tail: Seq<u8>)
    requires
        closes(tail),
    ensures
        spec_age(canonical_age(age) + tail) == Ok::<(Option<CleanupAge>, int), ParseError>(
            (age, canonical_age(age).len() as int),
        ),
{
    let written = canonical_age(age);
    let s = written + tail;
    match age {
        None => {
            lemma_placeholder_before(tail);
        },
        Some(a) => {
            let number = spec_decimal(a.age as nat);
            let k: int = if a.keep_first_level { 1 } else { 0 };
            lemma_decimal(a.age as nat);
            lemma_microseconds();
            lemma_duration_round_trip(a.age, tail);
            assert(written.len() == k + number.len() + 12);
            assert(s[0] == written[0]);
            assert(written[k] == number[0]);
            assert(marked(s, 0, '~' as u8) == a.keep_first_level);
            assert(s.skip(k) =~= number + microseconds() + tail);
        },
    }
}

/// The type and the modifiers of a canonical line are read back.
pub proof fn lemma_item_type_round_trip(
    action_type: ItemTypes,
    boot_only: bool,
    append_or_force: bool,
    allow_failure: bool,
    tail: Seq<u8>,
)
    requires
        closes(tail),
    ensures
        spec_item_type(
            canonical_item_type(action_type, boot_only, append_or_force, allow_failure) + tail,
        ) == Ok::<((ItemTypes, bool, bool, bool), int), ParseError>(
            (
                (action_type, boot_only, append_or_force, allow_failure),
                canonical_item_type(action_type, boot_only, append_or_force, allow_failure).len()
                    as int + 1,
            ),
        ),
{
    let written = canonical_item_type(action_type, boot_only, append_or_force, allow_failure);
    let s = written + tail;
    let c = action_type.spec_to_char();
    lemma_item_type_char(action_type);
    assert(s[0] == written[0]);
    assert(written[0] == c as u8);
    assert((c as u8) as char == c);
    assert(spec_item_type_char(s) == Ok::<(ItemTypes, int), ParseError>((action_type, 1)));
    let n1: int = if boot_only { 2 } else { 1 };
    let n2: int = if append_or_force { n1 + 1 } else { n1 };
    let n3: int = if allow_failure { n2 + 1 } else { n2 };
    assert(written.len() == n3);
    assert(s[n3] == tail[0]);
    assert forall|i: int| 0 <= i < n3 implies s[i] == #[trigger] written[i] by {}
    if boot_only {
        assert(written[1] == '!' as u8);
    }
    if append_or_force {
        assert(written[n1] == '+' as u8);
    }
    if allow_failure {
        assert(written[n2] == '-' as u8);
    }
    assert(marked(s, 1, '!' as u8) == boot_only);
    assert(marked(s, n1, '+' as u8) == append_or_force);
    assert(marked(s, n2, '-' as u8) == allow_failure);
    assert(spec_type_and_modifiers(s) == Ok::<((ItemTypes, bool, bool, bool), int), ParseError>(
        ((action_type, boot_only, append_or_force, allow_failure), n3),
    ));
    assert(s.skip(n3) =~= tail);
    lemma_closing_separator(tail, Field::ItemType);
}

/// In a canonical line no field after the first begins with a blank.
pub proof fn lemma_field_begins(a: ActionView, field: Field)
    requires
        a.well_formed(),
        field != Field::ItemType,
    ensures
        canonical_field(a, field).len() > 0,
        !is_blank(canonical_field(a, field)[0]),
        canonical_from(a, field).len() > 0,
        canonical_from(a, field)[0] == canonical_field(a, field)[0],
{
    let first = canonical_field(a, field)[0];
    match field {
        Field::ItemType => {},
        Field::Path => {},
        Field::Mode => {
            if let Some(m) = a.mode {
                assert(first == flag(m.masked, '~' as u8)[0] || first == octal(m.mode)[0]);
            }
        },
        Field::User => {
            if let Some(Owner::ID(id)) = a.user {
                lemma_decimal(id as nat);
            }
        },
        Field::Group => {
            if let Some(Owner::ID(id)) = a.group {
                lemma_decimal(id as nat);
            }
        },
        Field::Age => {
            if let Some(age) = a.age {
                lemma_decimal(age.age as nat);
                let number = spec_decimal(age.age as nat);
                assert(first == flag(age.keep_first_level, '~' as u8)[0] || first == number[0]);
            }
        },
        Field::Argument => {},
    }
}

/// What stands behind a field of a canonical line closes it, and the
/// fields from the next one on follow.
pub proof fn lemma_field_closed(a: ActionView, field: Field)
    requires
        a.well_formed(),
        field != Field::Argument,
    ensures
        canonical_from(a, field) == canonical_field(a, field) + seq![' ' as u8].add(
            canonical_from(a, field.spec_following()),
        ),
        closes(seq![' ' as u8].add(canonical_from(a, field.spec_following()))),
        seq![' ' as u8].add(canonical_from(a, field.spec_following())).skip(1) == canonical_from(
            a,
            field.spec_following(),
        ),
{
    let next = canonical_from(a, field.spec_following());
    let tail = seq![' ' as u8].add(next);
    lemma_field_begins(a, field.spec_following());
    assert(canonical_from(a, field) =~= canonical_field(a, field) + tail);
    assert(tail[1] == next[0]);
    assert(tail.skip(1) =~= next);
}

/// A field that is read back from what was written, with a closing tail
/// behind it, is read with its separator, and the tail without its space
/// is what is left.
pub proof fn lemma_closed_at<T>(
    line: Seq<u8>,
    at: int,
    written: Seq<u8>,
    tail: Seq<u8>,
    parsed: Result<(T, int), ParseError>,
    value: T,
    field: Field,
)
    requires
        0 <= at <= line.len(),
        line.skip(at) == written + tail,
        closes(tail),
        parsed == Ok::<(T, int), ParseError>((value, written.len() as int)),
    ensures
        closed_at(line, at, parsed, field) == Ok::<(T, int), ParseError>(
            (value, at + written.len() + 1),
        ),
        at + written.len() + 1 <= line.len(),
        line.skip(at + written.len() + 1) == tail.skip(1),
{
    let n = written.len() as int;
    assert(line.skip(at).len() == n + tail.len());
    assert(line.skip(at).skip(n) =~= tail);
    lemma_closing_separator(tail, field);
    assert(line.skip(at + n + 1) =~= tail.skip(1));
}

/// The argument of a canonical line is read back.
pub proof fn lemma_argument_round_trip(argument: Option<Seq<u8>>)
    requires
        argument matches Some(bytes) ==> bytes.len() > 0 && bytes != placeholder(),
    ensures
        spec_argument(canonical_argument(argument)) == argument,
{
}

/// The path of a canonical line, found at the offset `at`, is read back
/// with its separator.
proof fn lemma_path_stage(a: ActionView, line: Seq<u8>, at: int) -> (to: int)
    requires
        a.well_formed(),
        0 <= at <= line.len(),
        line.skip(at) == canonical_from(a, Field::Path),
    ensures
        closed_at(line, at, spec_path(line.skip(at)), Field::Path) == Ok::<_, ParseError>(
            (a.path, to),
        ),
        0 <= to <= line.len(),
        line.skip(to) == canonical_from(a, Field::Mode),
{
    lemma_field_closed(a, Field::Path);
    let tail = seq![' ' as u8].add(canonical_from(a, Field::Mode));
    lemma_path_round_trip(a.path, tail);
    lemma_closed_at(
        line,
        at,
        a.path,
        tail,
        spec_path(line.skip(at)),
        a.path,
        Field::Path,
    );
    at + a.path.len() as int + 1
}

/// The mode of a canonical line, found at the offset `at`, is read back
/// with its separator.
proof fn lemma_mode_stage(a: ActionView, line: Seq<u8>, at: int) -> (to: int)
    requires
        a.well_formed(),
        0 <= at <= line.len(),
        line.skip(at) == canonical_from(a, Field::Mode),
    ensures
        closed_at(line, at, spec_mode(line.skip(at)), Field::Mode) == Ok::<_, ParseError>(
            (a.mode, to),
        ),
        0 <= to <= line.len(),
        line.skip(to) == canonical_from(a, Field::User),
{
    lemma_field_closed(a, Field::Mode);
    let tail = seq![' ' as u8].add(canonical_from(a, Field::User));
    lemma_mode_round_trip(a.mode, tail);
    lemma_closed_at(
        line,
        at,
        canonical_mode(a.mode),
        tail,
        spec_mode(line.skip(at)),
        a.mode,
        Field::Mode,
    );
    at + canonical_mode(a.mode).len() as int + 1
}

/// The user of a canonical line, found at the offset `at`, is read back
/// with its separator.
proof fn lemma_user_stage(a: ActionView, line: Seq<u8>, at: int) -> (to: int)
    requires
        a.well_formed(),
        0 <= at <= line.len(),
        line.skip(at) == canonical_from(a, Field::User),
    ensures
        closed_at(line, at, spec_user(line.skip(at)), Field::User) == Ok::<_, ParseError>(
            (a.user, to),
        ),
        0 <= to <= line.len(),
        line.skip(to) == canonical_from(a, Field::Group),
{
    lemma_field_closed(a, Field::User);
    let tail = seq![' ' as u8].add(canonical_from(a, Field::Group));
    lemma_owner_round_trip(a.user, Field::User, tail);
    lemma_closed_at(
        line,
        at,
        canonical_owner(a.user),
        tail,
        spec_user(line.skip(at)),
        a.user,
        Field::User,
    );
    at + canonical_owner(a.user).len() as int + 1
}

/// The group of a canonical line, found at the offset `at`, is read back
/// with its separator.
proof fn lemma_group_stage(a: ActionView, line: Seq<u8>, at: int) -> (to: int)
    requires
        a.well_formed(),
        0 <= at <= line.len(),
        line.skip(at) == canonical_from(a, Field::Group),
    ensures
        closed_at(line, at, spec_group(line.skip(at)), Field::Group) == Ok::<_, ParseError>(
            (a.group, to),
        ),
        0 <= to <= line.len(),
        line.skip(to) == canonical_from(a, Field::Age),
{
    lemma_field_closed(a, Field::Group);
    let tail = seq![' ' as u8].add(canonical_from(a, Field::Age));
    lemma_owner_round_trip(a.group, Field::Group, tail);
    lemma_closed_at(
        line,
        at,
        canonical_owner(a.group),
        tail,
        spec_group(line.skip(at)),
        a.group,
        Field::Group,
    );
    at + canonical_owner(a.group).len() as int + 1
}

/// The age of a canonical line, found at the offset `at`, is read back
/// with its separator.
proof fn lemma_age_stage(a: ActionView, line: Seq<u8>, at: int) -> (to: int)
    requires
        a.well_formed(),
        0 <= at <= line.len(),
        line.skip(at) == canonical_from(a, Field::Age),
    ensures
        closed_at(line, at, spec_age(line.skip(at)), Field::Age) == Ok::<_, ParseError>(
            (a.age, to),
        ),
        0 <= to <= line.len(),
        line.skip(to) == canonical_from(a, Field::Argument),
{
    lemma_field_closed(a, Field::Age);
    let tail = seq![' ' as u8].add(canonical_from(a, Field::Argument));
    lemma_age_round_trip(a.age, tail);
    lemma_closed_at(
        line,
        at,
        canonical_age(a.age),
        tail,
        spec_age(line.skip(at)),
        a.age,
        Field::Age,
    );
    at + canonical_age(a.age).len() as int + 1
}

/// The type and the modifiers of a canonical line are read back with
/// their separator.
proof fn lemma_item_type_stage(a: ActionView) -> (to: int)
    requires
        a.well_formed(),
    ensures
        spec_item_type(canonical_line(a)) == Ok::<_, ParseError>(
            ((a.action_type, a.boot_only, a.append_or_force, a.allow_failure), to),
        ),
        0 <= to <= canonical_line(a).len(),
        canonical_line(a).skip(to) == canonical_from(a, Field::Path),
{
    let line = canonical_line(a);
    lemma_field_closed(a, Field::ItemType);
    let head = canonical_field(a, Field::ItemType);
    let tail = seq![' ' as u8].add(canonical_from(a, Field::Path));
    lemma_item_type_round_trip(
        a.action_type,
        a.boot_only,
        a.append_or_force,
        a.allow_failure,
        tail,
    );
    assert(line.skip(head.len() as int + 1) =~= tail.skip(1));
    head.len() as int + 1
}

/// A line whose fields are read one behind the other is read as the
/// action that holds them.
pub proof fn lemma_assemble(
    line: Seq<u8>,
    head: ((ItemTypes, bool, bool, bool), int),
    path: (Seq<u8>, int),
    mode: (Option<Mode>, int),
    user: (Option<Owner>, int),
    group: (Option<Owner>, int),
    age: (Option<CleanupAge>, int),
)
    requires
        spec_item_type(line) == Ok::<_, ParseError>(head),
        closed_at(line, head.1, spec_path(line.skip(head.1)), Field::Path) == Ok::<_, ParseError>(
            path,
        ),
        closed_at(line, path.1, spec_mode(line.skip(path.1)), Field::Mode) == Ok::<_, ParseError>(
            mode,
        ),
        closed_at(line, mode.1, spec_user(line.skip(mode.1)), Field::User) == Ok::<_, ParseError>(
            user,
        ),
        closed_at(line, user.1, spec_group(line.skip(user.1)), Field::Group) == Ok::<
            _,
            ParseError,
        >(group),
        closed_at(line, group.1, spec_age(line.skip(group.1)), Field::Age) == Ok::<_, ParseError>(
            age,
        ),
    ensures
        spec_parse_line(line) == Ok::<(ActionView, int), ParseError>(
            (
                ActionView {
                    action_type: head.0.0,
                    path: path.0,
                    mode: mode.0,
                    user: user.0,
                    group: group.0,
                    age: age.0,
                    argument: spec_argument(line.skip(age.1)),
                    boot_only: head.0.1,
                    append_or_force: head.0.2,
                    allow_failure: head.0.3,
                },
                line.len() as int,
            ),
        ),
{
}

/// The fields of the canonical line of a well-formed action are read back
/// one behind the other, each with its separator, up to the argument.
proof fn lemma_stages(a: ActionView) -> (at: (int, int, int, int, int, int))
    requires
        a.well_formed(),
    ensures
        spec_item_type(canonical_line(a)) == Ok::<_, ParseError>(
            ((a.action_type, a.boot_only, a.append_or_force, a.allow_failure), at.0),
        ),
        closed_at(
            canonical_line(a),
            at.0,
            spec_path(canonical_line(a).skip(at.0)),
            Field::Path,
        ) == Ok::<_, ParseError>((a.path, at.1)),
        closed_at(
            canonical_line(a),
            at.1,
            spec_mode(canonical_line(a).skip(at.1)),
            Field::Mode,
        ) == Ok::<_, ParseError>((a.mode, at.2)),
        closed_at(
            canonical_line(a),
            at.2,
            spec_user(canonical_line(a).skip(at.2)),
            Field::User,
        ) == Ok::<_, ParseError>((a.user, at.3)),
        closed_at(
            canonical_line(a),
            at.3,
            spec_group(canonical_line(a).skip(at.3)),
            Field::Group,
        ) == Ok::<_, ParseError>((a.group, at.4)),
        closed_at(
            canonical_line(a),
            at.4,
            spec_age(canonical_line(a).skip(at.4)),
            Field::Age,
        ) == Ok::<_, ParseError>((a.age, at.5)),
        canonical_line(a).skip(at.5) == canonical_argument(a.argument),
{
    let line = canonical_line(a);
    let n1 = lemma_item_type_stage(a);
    let n2 = lemma_path_stage(a, line, n1);
    let n3 = lemma_mode_stage(a, line, n2);
    let n4 = lemma_user_stage(a, line, n3);
    let n5 = lemma_group_stage(a, line, n4);
    let n6 = lemma_age_stage(a, line, n5);
    (n1, n2, n3, n4, n5, n6)
}

/// Reading the canonical line of a well-formed action gives that action
/// back and leaves nothing unread.
pub proof fn lemma_round_trip(a: ActionView)
    requires
        a.well_formed(),
    ensures
        spec_parse_line(canonical_line(a)) == Ok::<(ActionView, int), ParseError>(
            (a, canonical_line(a).len() as int),
        ),
{
    let at = lemma_stages(a);
    lemma_argument_round_trip(a.argument);
    lemma_assemble(
        canonical_line(a),
        ((a.action_type, a.boot_only, a.append_or_force, a.allow_failure), at.0),
        (a.path, at.1),
        (a.mode, at.2),
        (a.user, at.3),
        (a.group, at.4),
        (a.age, at.5),
    );
}

/// Writing the action that a line was read into as its canonical line,
/// and reading that line, gives the same action again.
pub proof fn lemma_reparse(line: Seq<u8>)
    requires
        spec_parse_line(line) is Ok,
    ensures
        spec_parse_line(canonical_line(spec_parse_line(line)->Ok_0.0)) == Ok::<
            (ActionView, int),
            ParseError,
        >(
            (
                spec_parse_line(line)->Ok_0.0,
                canonical_line(spec_parse_line(line)->Ok_0.0).len() as int,
            ),
        ),
{
    lemma_parsed_well_formed(line);
    lemma_round_trip(spec_parse_line(line)->Ok_0.0);
}

} // verus!
