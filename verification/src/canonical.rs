//! The canonical line of an action: the one spelling, among the many that
//! the parser reads as the same action, that this library writes.
//!
//! Fields are set apart by one space. A field that is not specified is
//! the placeholder. A mode is four octal digits, an identifier is decimal,
//! and an age is a number of microseconds with the unit spelled out.

use crate::common::action::{
    group_view, user_view, Action, ActionView, CleanupAge, Group, ItemTypes, Mode, Owner, User,
    MODE_MAX,
};
use crate::parser::basic::{all_in, run_length, ByteClass};
use crate::parser::error::Field;
use crate::parser::number::{digit, push_decimal, spec_decimal};
use crate::parser::owner::{lemma_run_covers, numeric};
use vstd::prelude::*;
use vstd::string::StringSliceAdditionalSpecFns;

verus! {

/// The placeholder, alone.
pub open spec fn placeholder() -> Seq<u8> {
    seq!['-' as u8]
}

/// The unit that a canonical age carries.
pub open spec fn microseconds() -> Seq<u8> {
    "microseconds".spec_bytes()
}

/// The byte `mark` where `set` holds, nothing where it does not.
pub open spec fn flag(set: bool, mark: u8) -> Seq<u8> {
    if set {
        seq![mark]
    } else {
        Seq::<u8>::empty()
    }
}

/// The type character and the modifiers that are set.
pub open spec fn canonical_item_type(
    action_type: ItemTypes,
    boot_only: bool,
    append_or_force: bool,
    allow_failure: bool,
) -> Seq<u8> {
    seq![action_type.spec_to_char() as u8] + flag(boot_only, '!' as u8) + flag(
        append_or_force,
        '+' as u8,
    ) + flag(allow_failure, '-' as u8)
}

/// The last four octal digits of `mode`.
pub open spec fn octal(mode: u32) -> Seq<u8> {
    let m = mode as int;
    seq![digit((m / 512) % 8), digit((m / 64) % 8), digit((m / 8) % 8), digit(m % 8)]
}

/// The mode: an optional `~` and four octal digits.
pub open spec fn canonical_mode(mode: Option<Mode>) -> Seq<u8> {
    match mode {
        None => placeholder(),
        Some(m) => flag(m.masked, '~' as u8) + octal(m.mode),
    }
}

/// A user or a group: the name as it stands, or the identifier in decimal.
pub open spec fn canonical_owner(owner: Option<Owner>) -> Seq<u8> {
    match owner {
        None => placeholder(),
        Some(Owner::Name(name)) => name,
        Some(Owner::ID(id)) => spec_decimal(id as nat),
    }
}

/// The age: an optional `~`, the microseconds in decimal, and the unit.
pub open spec fn canonical_age(age: Option<CleanupAge>) -> Seq<u8> {
    match age {
        None => placeholder(),
        Some(a) => flag(a.keep_first_level, '~' as u8) + spec_decimal(a.age as nat)
            + microseconds(),
    }
}

/// The argument as it stands.
pub open spec fn canonical_argument(argument: Option<Seq<u8>>) -> Seq<u8> {
    match argument {
        None => placeholder(),
        Some(bytes) => bytes,
    }
}

/// How one field of an action is written.
pub open spec fn canonical_field(a: ActionView, field: Field) -> Seq<u8> {
    match field {
        Field::ItemType => canonical_item_type(
            a.action_type,
            a.boot_only,
            a.append_or_force,
            a.allow_failure,
        ),
        Field::Path => a.path,
        Field::Mode => canonical_mode(a.mode),
        Field::User => canonical_owner(a.user),
        Field::Group => canonical_owner(a.group),
        Field::Age => canonical_age(a.age),
        Field::Argument => canonical_argument(a.argument),
    }
}

/// The fields of an action from `field` on, one space between two.
pub open spec fn canonical_from(a: ActionView, field: Field) -> Seq<u8>
    decreases field.spec_remaining(),
{
    if field == Field::Argument {
        canonical_field(a, field)
    } else {
        canonical_field(a, field) + seq![' ' as u8] + canonical_from(a, field.spec_following())
    }
}

/// The canonical line of an action.
pub open spec fn canonical_line(a: ActionView) -> Seq<u8> {
    canonical_from(a, Field::ItemType)
}

/// A name that a line can give: a token that is not empty, holds no
/// whitespace, is no number, and does not begin like the placeholder.
pub open spec fn nameable(name: Seq<u8>) -> bool {
    &&& name.len() > 0
    &&& all_in(name, ByteClass::Solid)
    &&& !numeric(name)
    &&& name[0] != '-' as u8
}

/// A user or a group that a line can give: its name, if it has one, is
/// nameable.
pub open spec fn owner_well_formed(owner: Option<Owner>) -> bool {
    owner matches Some(Owner::Name(name)) ==> nameable(name)
}

impl ActionView {
    /// What holds of every action that a line can give, and of no other.
    /// The path is not empty and holds no whitespace. A mode has at most
    /// four octal digits. A name is a token that is neither a number nor
    /// begins like the placeholder. An argument is not empty, is not the
    /// placeholder, and does not begin with a blank.
    pub open spec fn well_formed(self) -> bool {
        &&& self.path.len() > 0
        &&& all_in(self.path, ByteClass::Solid)
        &&& (self.mode matches Some(m) ==> m.mode <= MODE_MAX)
        &&& owner_well_formed(self.user)
        &&& owner_well_formed(self.group)
        &&& (self.argument matches Some(bytes) ==> bytes.len() > 0 && bytes != placeholder()
            && !ByteClass::Blank.spec_contains(bytes[0]))
    }
}

/// Whether `name` is a name that a line can give.
fn is_nameable(name: &[u8]) -> (r: bool)
    ensures
        r == nameable(name@),
{
    proof {
        lemma_run_covers(name@, ByteClass::Solid);
        lemma_run_covers(name@, ByteClass::Digit);
    }
    name.len() > 0 && run_length(name, ByteClass::Solid) == name.len() && run_length(
        name,
        ByteClass::Digit,
    ) != name.len() && name[0] != '-' as u8
}

impl<'a> Action<'a> {
    /// Whether the action is well formed: whether a line can give it, and
    /// its canonical line gives it back.
    pub fn is_well_formed(&self) -> (r: bool)
        ensures
            r == self@.well_formed(),
    {
        proof {
            lemma_run_covers(self.path@, ByteClass::Solid);
        }
        let path = self.path.len() > 0 && run_length(self.path, ByteClass::Solid)
            == self.path.len();
        let mode = match self.mode {
            Some(m) => m.mode <= MODE_MAX,
            None => true,
        };
        let user = match self.user {
            Some(User::Name(name)) => is_nameable(name),
            _ => true,
        };
        let group = match self.group {
            Some(Group::Name(name)) => is_nameable(name),
            _ => true,
        };
        let argument = match self.argument {
            Some(bytes) => {
                assert(placeholder().len() == 1 && placeholder()[0] == '-' as u8);
                assert(bytes@.len() == 1 && bytes@[0] == '-' as u8 ==> bytes@ =~= placeholder());
                bytes.len() > 0 && !(bytes.len() == 1 && bytes[0] == '-' as u8)
                    && !ByteClass::Blank.contains(bytes[0])
            },
            None => true,
        };
        path && mode && user && group && argument
    }
}

/// Appends `bytes` to `out`.
fn push_all(out: &mut Vec<u8>, bytes: &[u8])
    ensures
        final(out)@ == old(out)@ + bytes@,
{
    let mut i: usize = 0;
    while i < bytes.len()
        invariant
            i <= bytes@.len(),
            out@ == old(out)@ + bytes@.take(i as int),
        decreases bytes@.len() - i,
    {
        out.push(bytes[i]);
        i = i + 1;
        assert(out@ =~= old(out)@ + bytes@.take(i as int));
    }
    assert(bytes@.take(i as int) =~= bytes@);
}

/// Appends `mark` to `out` where `set` holds.
fn push_flag(out: &mut Vec<u8>, set: bool, mark: u8)
    ensures
        final(out)@ == old(out)@ + flag(set, mark),
{
    if set {
        out.push(mark);
    }
    assert(out@ =~= old(out)@ + flag(set, mark));
}

/// Appends the mode as it is written in a canonical line.
fn push_mode(out: &mut Vec<u8>, mode: Option<Mode>)
    ensures
        final(out)@ == old(out)@ + canonical_mode(mode),
{
    match mode {
        None => {
            out.push('-' as u8);
        },
        Some(m) => {
            push_flag(out, m.masked, '~' as u8);
            out.push('0' as u8 + ((m.mode / 512) % 8) as u8);
            out.push('0' as u8 + ((m.mode / 64) % 8) as u8);
            out.push('0' as u8 + ((m.mode / 8) % 8) as u8);
            out.push('0' as u8 + (m.mode % 8) as u8);
        },
    }
    assert(out@ =~= old(out)@ + canonical_mode(mode));
}

/// Appends the user as it is written in a canonical line.
fn push_user(out: &mut Vec<u8>, user: Option<User>)
    ensures
        final(out)@ == old(out)@ + canonical_owner(user_view(user)),
{
    match user {
        None => {
            out.push('-' as u8);
            assert(out@ =~= old(out)@ + placeholder());
        },
        Some(User::Name(name)) => {
            push_all(out, name);
        },
        Some(User::ID(id)) => {
            push_decimal(out, id as u64);
        },
    }
}

/// Appends the group as it is written in a canonical line.
fn push_group(out: &mut Vec<u8>, group: Option<Group>)
    ensures
        final(out)@ == old(out)@ + canonical_owner(group_view(group)),
{
    match group {
        None => {
            out.push('-' as u8);
            assert(out@ =~= old(out)@ + placeholder());
        },
        Some(Group::Name(name)) => {
            push_all(out, name);
        },
        Some(Group::ID(id)) => {
            push_decimal(out, id as u64);
        },
    }
}

/// Appends the age as it is written in a canonical line.
fn push_age(out: &mut Vec<u8>, age: Option<CleanupAge>)
    ensures
        final(out)@ == old(out)@ + canonical_age(age),
{
    match age {
        None => {
            out.push('-' as u8);
        },
        Some(a) => {
            push_flag(out, a.keep_first_level, '~' as u8);
            push_decimal(out, a.age);
            push_all(out, "microseconds".as_bytes());
        },
    }
    assert(out@ =~= old(out)@ + canonical_age(age));
}

/// What is written up to a field, and the fields from it on, make the
/// same line as what is written up to the next field, and the fields from
/// that one on.
proof fn lemma_canonical_step(a: ActionView, field: Field, written: Seq<u8>)
    requires
        field != Field::Argument,
    ensures
        written + canonical_from(a, field) == (written + canonical_field(a, field)).push(
            ' ' as u8,
        ) + canonical_from(a, field.spec_following()),
{
    assert(written + canonical_from(a, field) =~= (written + canonical_field(a, field)).push(
        ' ' as u8,
    ) + canonical_from(a, field.spec_following()));
}

impl<'a> Action<'a> {
    /// Writes the action as its canonical line.
    pub fn to_line(&self) -> (line: Vec<u8>)
        ensures
            line@ == canonical_line(self@),
    {
        let ghost whole = canonical_line(self@);
        let mut line: Vec<u8> = Vec::new();
        line.push(self.action_type.to_char() as u8);
        push_flag(&mut line, self.boot_only, '!' as u8);
        push_flag(&mut line, self.append_or_force, '+' as u8);
        push_flag(&mut line, self.allow_failure, '-' as u8);
        assert(line@ =~= canonical_field(self@, Field::ItemType));
        proof {
            lemma_canonical_step(self@, Field::ItemType, Seq::<u8>::empty());
            assert(Seq::<u8>::empty() + canonical_from(self@, Field::ItemType) =~= whole);
            assert(Seq::<u8>::empty() + canonical_field(self@, Field::ItemType) =~= line@);
        }
        line.push(' ' as u8);
        assert(line@ + canonical_from(self@, Field::Path) == whole);
        proof {
            lemma_canonical_step(self@, Field::Path, line@);
        }
        push_all(&mut line, self.path);
        line.push(' ' as u8);
        assert(line@ + canonical_from(self@, Field::Mode) == whole);
        proof {
            lemma_canonical_step(self@, Field::Mode, line@);
        }
        push_mode(&mut line, self.mode);
        line.push(' ' as u8);
        assert(line@ + canonical_from(self@, Field::User) == whole);
        proof {
            lemma_canonical_step(self@, Field::User, line@);
        }
        push_user(&mut line, self.user);
        line.push(' ' as u8);
        assert(line@ + canonical_from(self@, Field::Group) == whole);
        proof {
            lemma_canonical_step(self@, Field::Group, line@);
        }
        push_group(&mut line, self.group);
        line.push(' ' as u8);
        assert(line@ + canonical_from(self@, Field::Age) == whole);
        proof {
            lemma_canonical_step(self@, Field::Age, line@);
        }
        push_age(&mut line, self.age);
        line.push(' ' as u8);
        assert(line@ + canonical_from(self@, Field::Argument) == whole);
        let ghost before = line@;
        match self.argument {
            None => {
                line.push('-' as u8);
                assert(line@ =~= before + placeholder());
            },
            Some(bytes) => {
                push_all(&mut line, bytes);
            },
        }
        line
    }
}

} // verus!
