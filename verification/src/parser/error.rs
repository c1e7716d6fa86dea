//! What a rejected line reports: the reason, the field and the byte offset.

use vstd::prelude::*;

verus! {

/// The fields of a line, in the order of the grammar.
#[derive(Clone, Copy, Debug, PartialEq, Eq, Structural)]
pub enum Field {
    ItemType,
    Path,
    Mode,
    User,
    Group,
    Age,
    Argument,
}

/// Why a line was rejected.
#[derive(Clone, Copy, Debug, PartialEq, Eq, Structural)]
pub enum ErrorKind {
    /// The type character stands for no item type; it is carried along.
    UnknownItemType(char),
    /// The mode has fewer than three octal digits, or something that is no
    /// blank trails it.
    MalformedMode,
    /// A numeric user or group identifier does not fit in 32 bits.
    MalformedNumericId,
    /// The age exceeds what 64 bits hold in microseconds, or something that
    /// is neither a number with its unit nor a blank trails it.
    MalformedDuration,
    /// Something that is no blank follows a field other than the mode and
    /// the age.
    MissingSeparator,
    /// The input ends where a field or a separator is still required.
    TruncatedLine,
}

/// A rejected line: the reason, the field, and the offset of the byte at
/// which the field, or the separator behind it, was to begin. The field
/// is the one that was being read; where the line ends too early, it is the
/// first field that is missing.
#[derive(Clone, Copy, Debug, PartialEq, Eq, Structural)]
pub struct ParseError {
    pub kind: ErrorKind,
    pub field: Field,
    pub offset: usize,
}

impl Field {
    /// The field that the grammar puts after this one; the argument is last.
    pub open spec fn spec_following(self) -> Field {
        match self {
            Field::ItemType => Field::Path,
            Field::Path => Field::Mode,
            Field::Mode => Field::User,
            Field::User => Field::Group,
            Field::Group => Field::Age,
            Field::Age => Field::Argument,
            Field::Argument => Field::Argument,
        }
    }

    /// How many fields the grammar puts after this one.
    pub open spec fn spec_remaining(self) -> nat {
        match self {
            Field::ItemType => 6,
            Field::Path => 5,
            Field::Mode => 4,
            Field::User => 3,
            Field::Group => 2,
            Field::Age => 1,
            Field::Argument => 0,
        }
    }

    /// The reason reported when a byte that is no blank follows this field:
    /// after a mode or an age it belongs to a malformed token, anywhere
    /// else the separator is missing.
    pub open spec fn spec_trailing(self) -> ErrorKind {
        match self {
            Field::Mode => ErrorKind::MalformedMode,
            Field::Age => ErrorKind::MalformedDuration,
            _ => ErrorKind::MissingSeparator,
        }
    }

    /// The field that the grammar puts after this one; the argument is last.
    #[verifier::when_used_as_spec(spec_following)]
    pub fn following(self) -> (next: Field)
        ensures
            next == self.spec_following(),
    {
        match self {
            Field::ItemType => Field::Path,
            Field::Path => Field::Mode,
            Field::Mode => Field::User,
            Field::User => Field::Group,
            Field::Group => Field::Age,
            Field::Age => Field::Argument,
            Field::Argument => Field::Argument,
        }
    }

    /// The reason reported when a byte that is no blank follows this field.
    #[verifier::when_used_as_spec(spec_trailing)]
    pub fn trailing(self) -> (kind: ErrorKind)
        ensures
            kind == self.spec_trailing(),
    {
        match self {
            Field::Mode => ErrorKind::MalformedMode,
            Field::Age => ErrorKind::MalformedDuration,
            _ => ErrorKind::MissingSeparator,
        }
    }
}

impl ParseError {
    /// The same error seen from `by` bytes further left.
    pub open spec fn spec_shifted(self, by: int) -> ParseError {
        ParseError { kind: self.kind, field: self.field, offset: (self.offset + by) as usize }
    }

    /// Rebases an error that a field parser reported relative to its own
    /// input onto the line that the input was cut from.
    pub fn shifted(self, by: usize) -> (e: ParseError)
        requires
            self.offset + by <= usize::MAX,
        ensures
            e == self.spec_shifted(by as int),
    {
        ParseError { kind: self.kind, field: self.field, offset: self.offset + by }
    }
}

} // verus!
